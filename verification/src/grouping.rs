//! What it means to group records by subject, stated over plain values.
//!
//! A record is a subject together with the path of one file. A group is a
//! subject together with the paths of its files. A list of groups is a
//! grouping of a list of records when no subject has two groups, every group
//! is sorted and holds at least one path, and the groups together hold exactly
//! the records: none lost, none added, none counted twice.

use vstd::prelude::*;
use vstd::relations::sorted_by;
use vstd::relations::total_ordering;
use vstd::seq_lib::group_to_multiset_ensures;
use vstd::seq_lib::lemma_multiset_commutative;
use vstd::seq_lib::lemma_sorted_unique;

use crate::person::PersonView;
use crate::sorting::sorted;
use crate::text::lemma_text_le_antisymmetric;
use crate::text::lemma_text_le_reflexive;
use crate::text::lemma_text_le_total;
use crate::text::lemma_text_le_transitive;
use crate::text::text_le;

verus! {

/// A record: a subject and the path of one of its files.
pub type RecordView = (PersonView, Seq<char>);

/// A group: a subject and the paths of its files.
pub type GroupView = (PersonView, Seq<Seq<char>>);

/// The records of one group, in the order of its paths.
pub open spec fn group_records(who: PersonView, paths: Seq<Seq<char>>) -> Seq<RecordView> {
    paths.map_values(|path: Seq<char>| (who, path))
}

/// The records of all groups, group after group.
pub open spec fn flattened(groups: Seq<GroupView>) -> Seq<RecordView>
    decreases groups.len(),
{
    if groups.len() == 0 {
        Seq::<RecordView>::empty()
    } else {
        flattened(groups.drop_last()) + group_records(groups.last().0, groups.last().1)
    }
}

/// The subjects of the groups, in order.
pub open spec fn subjects(groups: Seq<GroupView>) -> Seq<PersonView> {
    groups.map_values(|group: GroupView| group.0)
}

/// The subjects of the records, in order.
pub open spec fn record_subjects(records: Seq<RecordView>) -> Seq<PersonView> {
    records.map_values(|record: RecordView| record.0)
}

/// The distinct items of a list, each at the place of its first occurrence.
pub open spec fn first_occurrences<T>(people: Seq<T>) -> Seq<T>
    decreases people.len(),
{
    if people.len() == 0 {
        Seq::<T>::empty()
    } else {
        let before = first_occurrences(people.drop_last());
        if before.contains(people.last()) {
            before
        } else {
            before.push(people.last())
        }
    }
}

/// Whether `groups` is a grouping of `records`.
pub open spec fn is_grouping_of(groups: Seq<GroupView>, records: Seq<RecordView>) -> bool {
    &&& subjects(groups).no_duplicates()
    &&& forall|i: int| 0 <= i < groups.len() ==> (#[trigger] groups[i]).1.len() > 0
    &&& forall|i: int| 0 <= i < groups.len() ==> sorted((#[trigger] groups[i]).1)
    &&& flattened(groups).to_multiset() == records.to_multiset()
}

/// The groups as a map from subject to paths. Where a subject has several
/// groups, the last one counts.
pub open spec fn group_map(groups: Seq<GroupView>) -> Map<PersonView, Seq<Seq<char>>>
    decreases groups.len(),
{
    if groups.len() == 0 {
        Map::<PersonView, Seq<Seq<char>>>::empty()
    } else {
        group_map(groups.drop_last()).insert(groups.last().0, groups.last().1)
    }
}

/// How often the groups of `who` hold `path`.
pub open spec fn path_count(groups: Seq<GroupView>, who: PersonView, path: Seq<char>) -> nat
    decreases groups.len(),
{
    if groups.len() == 0 {
        0
    } else {
        let here: nat = if groups.last().0 == who {
            groups.last().1.to_multiset().count(path)
        } else {
            0
        };
        path_count(groups.drop_last(), who, path) + here
    }
}

/// The lexicographic order as a relation.
pub open spec fn text_order() -> spec_fn(Seq<char>, Seq<char>) -> bool {
    |a: Seq<char>, b: Seq<char>| text_le(a, b)
}

/// The lexicographic order is a total order.
pub proof fn lemma_text_order_is_total()
    ensures
        total_ordering(text_order()),
{
    let order = text_order();
    assert forall|x: Seq<char>| #[trigger] order(x, x) by {
        lemma_text_le_reflexive(x);
    }
    assert forall|x: Seq<char>, y: Seq<char>| #[trigger]
        order(x, y) && #[trigger] order(y, x) implies x == y by {
        lemma_text_le_antisymmetric(x, y);
    }
    assert forall|x: Seq<char>, y: Seq<char>, z: Seq<char>| #[trigger]
        order(x, y) && #[trigger] order(y, z) implies order(x, z) by {
        lemma_text_le_transitive(x, y, z);
    }
    assert forall|x: Seq<char>, y: Seq<char>| #[trigger] order(x, y) || #[trigger] order(y, x) by {
        lemma_text_le_total(x, y);
    }
}

/// Two sorted lists that hold the same paths, each equally often, are the
/// same list.
pub proof fn lemma_sorted_lists_agree(a: Seq<Seq<char>>, b: Seq<Seq<char>>)
    requires
        sorted(a),
        sorted(b),
        a.to_multiset() == b.to_multiset(),
    ensures
        a == b,
{
    lemma_text_order_is_total();
    assert(sorted_by(a, text_order())) by {
        assert forall|i: int, j: int| 0 <= i < j < a.len() implies #[trigger] text_order()(
            a[i],
            a[j],
        ) by {
            assert(crate::sorting::in_order(a[i], a[j], true));
        }
    }
    assert(sorted_by(b, text_order())) by {
        assert forall|i: int, j: int| 0 <= i < j < b.len() implies #[trigger] text_order()(
            b[i],
            b[j],
        ) by {
            assert(crate::sorting::in_order(b[i], b[j], true));
        }
    }
    lemma_sorted_unique(a, b, text_order());
}

/// A group holds a record as often as it holds the record's path, and holds
/// no record of another subject.
pub proof fn lemma_group_records_count(
    who: PersonView,
    paths: Seq<Seq<char>>,
    other: PersonView,
    path: Seq<char>,
)
    ensures
        group_records(who, paths).to_multiset().count((other, path)) == (if other == who {
            paths.to_multiset().count(path)
        } else {
            0
        }),
    decreases paths.len(),
{
    broadcast use group_to_multiset_ensures;
    broadcast use vstd::multiset::group_multiset_axioms;

    if paths.len() == 0 {
        vstd::multiset::axiom_count_le_len(
            Seq::<RecordView>::empty().to_multiset(),
            (other, path),
        );
        vstd::multiset::axiom_count_le_len(Seq::<Seq<char>>::empty().to_multiset(), path);
    } else {
        let init = paths.drop_last();
        lemma_group_records_count(who, init, other, path);
        assert(paths =~= init.push(paths.last()));
        assert(group_records(who, paths) =~= group_records(who, init).push((who, paths.last())));
    }
}

/// The groups together hold a record as often as the groups of its subject
/// hold its path.
pub proof fn lemma_flattened_count(groups: Seq<GroupView>, who: PersonView, path: Seq<char>)
    ensures
        flattened(groups).to_multiset().count((who, path)) == path_count(groups, who, path),
    decreases groups.len(),
{
    broadcast use group_to_multiset_ensures;
    broadcast use vstd::multiset::group_multiset_axioms;

    if groups.len() == 0 {
        vstd::multiset::axiom_count_le_len(flattened(groups).to_multiset(), (who, path));
    } else {
        let init = groups.drop_last();
        let last = groups.last();
        lemma_flattened_count(init, who, path);
        lemma_group_records_count(last.0, last.1, who, path);
        lemma_multiset_commutative(flattened(init), group_records(last.0, last.1));
    }
}

/// Where no subject has two groups, the count of a path for the subject of a
/// group is the count of the path in that group.
pub proof fn lemma_path_count_of_group(groups: Seq<GroupView>, index: int, path: Seq<char>)
    requires
        subjects(groups).no_duplicates(),
        0 <= index < groups.len(),
    ensures
        path_count(groups, groups[index].0, path) == groups[index].1.to_multiset().count(path),
    decreases groups.len(),
{
    let init = groups.drop_last();
    let who = groups[index].0;
    assert(subjects(init) =~= subjects(groups).drop_last());
    if index == groups.len() - 1 {
        assert forall|i: int| 0 <= i < init.len() implies (#[trigger] init[i]).0 != who by {
            assert(subjects(groups)[i] == init[i].0);
            assert(subjects(groups)[index] == who);
        }
        lemma_path_count_of_stranger(init, who, path);
    } else {
        assert(subjects(groups)[groups.len() - 1] == groups.last().0);
        assert(subjects(groups)[index] == who);
        lemma_path_count_of_group(init, index, path);
    }
}

/// A subject without a group has no paths.
pub proof fn lemma_path_count_of_stranger(groups: Seq<GroupView>, who: PersonView, path: Seq<char>)
    requires
        forall|i: int| 0 <= i < groups.len() ==> (#[trigger] groups[i]).0 != who,
    ensures
        path_count(groups, who, path) == 0,
    decreases groups.len(),
{
    if groups.len() > 0 {
        lemma_path_count_of_stranger(groups.drop_last(), who, path);
    }
}

/// Where no subject has two groups, the map holds each group under its
/// subject, and nothing else.
pub proof fn lemma_group_map(groups: Seq<GroupView>)
    requires
        subjects(groups).no_duplicates(),
    ensures
        forall|i: int|
            0 <= i < groups.len() ==> group_map(groups).dom().contains((#[trigger] groups[i]).0)
                && group_map(groups)[groups[i].0] == groups[i].1,
        forall|who: PersonView| #[trigger]
            group_map(groups).dom().contains(who) ==> exists|i: int|
                0 <= i < groups.len() && (#[trigger] groups[i]).0 == who,
    decreases groups.len(),
{
    if groups.len() > 0 {
        let init = groups.drop_last();
        let last = groups.last();
        assert(subjects(init) =~= subjects(groups).drop_last());
        lemma_group_map(init);
        assert forall|i: int| 0 <= i < groups.len() implies group_map(groups).dom().contains(
            (#[trigger] groups[i]).0,
        ) && group_map(groups)[groups[i].0] == groups[i].1 by {
            if i < groups.len() - 1 {
                assert(init[i] == groups[i]);
                assert(subjects(groups)[i] == groups[i].0);
                assert(subjects(groups)[groups.len() - 1] == last.0);
            }
        }
        assert forall|who: PersonView| #[trigger]
            group_map(groups).dom().contains(who) implies exists|i: int|
            0 <= i < groups.len() && (#[trigger] groups[i]).0 == who by {
            if who != last.0 {
                assert(group_map(init).dom().contains(who));
                let i = choose|i: int| 0 <= i < init.len() && (#[trigger] init[i]).0 == who;
                assert(groups[i].0 == who);
            }
        }
    }
}

/// The first occurrences hold exactly the items of the list.
pub proof fn lemma_first_occurrences_contains<T>(people: Seq<T>, who: T)
    ensures
        first_occurrences(people).contains(who) <==> people.contains(who),
    decreases people.len(),
{
    if people.len() > 0 {
        let init = people.drop_last();
        let last = people.last();
        let before = first_occurrences(init);
        let after = first_occurrences(people);
        lemma_first_occurrences_contains(init, who);
        lemma_first_occurrences_contains(init, last);
        if people.contains(who) {
            let i = choose|i: int| 0 <= i < people.len() && people[i] == who;
            if i < people.len() - 1 {
                assert(init[i] == who);
                let j = choose|j: int| 0 <= j < before.len() && before[j] == who;
                assert(after[j] == who);
            } else if before.contains(last) {
                let j = choose|j: int| 0 <= j < before.len() && before[j] == who;
                assert(after[j] == who);
            } else {
                assert(after[before.len() as int] == who);
            }
        }
        if after.contains(who) {
            let j = choose|j: int| 0 <= j < after.len() && after[j] == who;
            if j < before.len() {
                assert(before[j] == who);
                let i = choose|i: int| 0 <= i < init.len() && init[i] == who;
                assert(people[i] == who);
            } else {
                assert(people[people.len() - 1] == who);
            }
        }
    }
}

/// The first occurrences hold no item twice.
pub proof fn lemma_first_occurrences_distinct<T>(people: Seq<T>)
    ensures
        first_occurrences(people).no_duplicates(),
    decreases people.len(),
{
    if people.len() > 0 {
        lemma_first_occurrences_distinct(people.drop_last());
    }
}

/// Adding a path to a group adds one record of the group's subject.
pub proof fn lemma_path_count_add_path(
    groups: Seq<GroupView>,
    index: int,
    added: Seq<char>,
    who: PersonView,
    path: Seq<char>,
)
    requires
        0 <= index < groups.len(),
    ensures
        path_count(
            groups.update(index, (groups[index].0, groups[index].1.push(added))),
            who,
            path,
        ) == path_count(groups, who, path) + (if who == groups[index].0 && path == added {
            1nat
        } else {
            0nat
        }),
    decreases groups.len(),
{
    broadcast use group_to_multiset_ensures;
    broadcast use vstd::multiset::group_multiset_axioms;

    let grown = groups.update(index, (groups[index].0, groups[index].1.push(added)));
    let init = groups.drop_last();
    if index == groups.len() - 1 {
        assert(grown.drop_last() =~= init);
    } else {
        assert(grown.drop_last() =~= init.update(index, (init[index].0, init[index].1.push(added))));
        lemma_path_count_add_path(init, index, added, who, path);
    }
}

/// Adding a path to a group adds exactly that record to the records that the
/// groups hold.
pub proof fn lemma_flattened_add_path(groups: Seq<GroupView>, index: int, added: Seq<char>)
    requires
        0 <= index < groups.len(),
    ensures
        flattened(
            groups.update(index, (groups[index].0, groups[index].1.push(added))),
        ).to_multiset() == flattened(groups).to_multiset().insert((groups[index].0, added)),
{
    broadcast use vstd::multiset::group_multiset_axioms;

    let grown = groups.update(index, (groups[index].0, groups[index].1.push(added)));
    let left = flattened(grown).to_multiset();
    let right = flattened(groups).to_multiset().insert((groups[index].0, added));
    assert forall|record: RecordView| left.count(record) == right.count(record) by {
        lemma_flattened_count(grown, record.0, record.1);
        lemma_flattened_count(groups, record.0, record.1);
        lemma_path_count_add_path(groups, index, added, record.0, record.1);
    }
}

/// A new group of one path adds exactly that record to the records that the
/// groups hold.
pub proof fn lemma_flattened_add_group(groups: Seq<GroupView>, who: PersonView, path: Seq<char>)
    ensures
        flattened(groups.push((who, seq![path]))).to_multiset() == flattened(
            groups,
        ).to_multiset().insert((who, path)),
{
    broadcast use group_to_multiset_ensures;

    let grown = groups.push((who, seq![path]));
    assert(grown.drop_last() =~= groups);
    assert(flattened(grown) =~= flattened(groups).push((who, path)));
}

/// Groups that agree in their subjects and, group by group, in how often they
/// hold each path, hold the same records.
pub proof fn lemma_flattened_of_reordered_groups(groups: Seq<GroupView>, others: Seq<GroupView>)
    requires
        groups.len() == others.len(),
        forall|i: int| 0 <= i < groups.len() ==> (#[trigger] groups[i]).0 == others[i].0,
        forall|i: int|
            0 <= i < groups.len() ==> (#[trigger] groups[i]).1.to_multiset()
                == others[i].1.to_multiset(),
    ensures
        flattened(groups).to_multiset() == flattened(others).to_multiset(),
{
    broadcast use vstd::multiset::group_multiset_axioms;

    let left = flattened(groups).to_multiset();
    let right = flattened(others).to_multiset();
    assert forall|record: RecordView| left.count(record) == right.count(record) by {
        lemma_flattened_count(groups, record.0, record.1);
        lemma_flattened_count(others, record.0, record.1);
        lemma_path_count_of_reordered_groups(groups, others, record.0, record.1);
    }
}

/// Groups that agree in their subjects and, group by group, in how often they
/// hold each path, hold every path equally often.
proof fn lemma_path_count_of_reordered_groups(
    groups: Seq<GroupView>,
    others: Seq<GroupView>,
    who: PersonView,
    path: Seq<char>,
)
    requires
        groups.len() == others.len(),
        forall|i: int| 0 <= i < groups.len() ==> (#[trigger] groups[i]).0 == others[i].0,
        forall|i: int|
            0 <= i < groups.len() ==> (#[trigger] groups[i]).1.to_multiset()
                == others[i].1.to_multiset(),
    ensures
        path_count(groups, who, path) == path_count(others, who, path),
    decreases groups.len(),
{
    if groups.len() > 0 {
        lemma_path_count_of_reordered_groups(groups.drop_last(), others.drop_last(), who, path);
    }
}

/// A grouping places every record in the one group of its subject: the group
/// of a subject holds a path exactly as often as the records hold it for that
/// subject, and every subject of a record has a group.
pub proof fn lemma_grouping_places_records(groups: Seq<GroupView>, records: Seq<RecordView>)
    requires
        is_grouping_of(groups, records),
    ensures
        forall|i: int, path: Seq<char>|
            0 <= i < groups.len() ==> (#[trigger] groups[i]).1.to_multiset().count(path)
                == #[trigger] records.to_multiset().count((groups[i].0, path)),
        forall|k: int|
            0 <= k < records.len() ==> exists|i: int|
                0 <= i < groups.len() && (#[trigger] groups[i]).0 == (#[trigger] records[k]).0,
{
    broadcast use group_to_multiset_ensures;

    assert forall|i: int, path: Seq<char>| 0 <= i < groups.len() implies (#[trigger] groups[i]).1.to_multiset().count(
        path,
    ) == #[trigger] records.to_multiset().count((groups[i].0, path)) by {
        lemma_path_count_of_group(groups, i, path);
        lemma_flattened_count(groups, groups[i].0, path);
    }
    assert forall|k: int| 0 <= k < records.len() implies exists|i: int|
        0 <= i < groups.len() && (#[trigger] groups[i]).0 == (#[trigger] records[k]).0 by {
        let record = records[k];
        lemma_flattened_count(groups, record.0, record.1);
        if forall|i: int| 0 <= i < groups.len() ==> (#[trigger] groups[i]).0 != record.0 {
            lemma_path_count_of_stranger(groups, record.0, record.1);
        }
    }
}

/// Every record that the groups hold stands in a group of its subject.
pub proof fn lemma_flattened_member(groups: Seq<GroupView>, record: RecordView)
    requires
        flattened(groups).contains(record),
    ensures
        exists|i: int|
            0 <= i < groups.len() && (#[trigger] groups[i]).0 == record.0 && groups[i].1.contains(
                record.1,
            ),
    decreases groups.len(),
{
    if groups.len() > 0 {
        let init = groups.drop_last();
        let last = groups.last();
        let k = choose|k: int| 0 <= k < flattened(groups).len() && flattened(groups)[k] == record;
        if k < flattened(init).len() {
            assert(flattened(init)[k] == record);
            lemma_flattened_member(init, record);
            let i = choose|i: int|
                0 <= i < init.len() && (#[trigger] init[i]).0 == record.0 && init[i].1.contains(
                    record.1,
                );
            assert(groups[i] == init[i]);
        } else {
            let j = k - flattened(init).len();
            assert(group_records(last.0, last.1)[j] == record);
            assert(last.1[j] == record.1);
            assert(groups[groups.len() - 1] == last);
        }
    }
}

/// Sorting the paths of each group of a collection of the records gives a
/// grouping of the records: where the groups have distinct subjects, hold at
/// least one path each and hold the records together, groups of the same
/// subjects that hold the same paths in sorted order are a grouping.
pub proof fn lemma_sorted_groups_are_grouping(
    collected: Seq<GroupView>,
    groups: Seq<GroupView>,
    records: Seq<RecordView>,
)
    requires
        subjects(collected).no_duplicates(),
        forall|i: int| 0 <= i < collected.len() ==> (#[trigger] collected[i]).1.len() > 0,
        flattened(collected).to_multiset() == records.to_multiset(),
        groups.len() == collected.len(),
        forall|i: int| 0 <= i < groups.len() ==> (#[trigger] groups[i]).0 == collected[i].0,
        forall|i: int|
            0 <= i < groups.len() ==> (#[trigger] groups[i]).1.to_multiset()
                == collected[i].1.to_multiset(),
        forall|i: int| 0 <= i < groups.len() ==> sorted((#[trigger] groups[i]).1),
    ensures
        is_grouping_of(groups, records),
        subjects(groups) == subjects(collected),
{
    lemma_flattened_of_reordered_groups(groups, collected);
    assert(subjects(groups) =~= subjects(collected));
    assert forall|i: int| 0 <= i < groups.len() implies (#[trigger] groups[i]).1.len() > 0 by {
        groups[i].1.to_multiset_ensures();
        collected[i].1.to_multiset_ensures();
        assert(collected[i].1.len() > 0);
    }
}

/// Grouping does not depend on the order of the records: two groupings of
/// lists that hold the same records, each equally often, map every subject to
/// the same sorted paths.
pub proof fn lemma_grouping_ignores_order(
    first: Seq<RecordView>,
    second: Seq<RecordView>,
    first_groups: Seq<GroupView>,
    second_groups: Seq<GroupView>,
)
    requires
        first.to_multiset() == second.to_multiset(),
        is_grouping_of(first_groups, first),
        is_grouping_of(second_groups, second),
    ensures
        group_map(first_groups) == group_map(second_groups),
{
    lemma_group_map(first_groups);
    lemma_group_map(second_groups);
    lemma_groups_covered(first_groups, second_groups);
    lemma_groups_covered(second_groups, first_groups);
    let a = group_map(first_groups);
    let b = group_map(second_groups);
    assert forall|who: PersonView| a.dom().contains(who) <==> b.dom().contains(who) by {
        if a.dom().contains(who) {
            let i = choose|i: int|
                0 <= i < first_groups.len() && (#[trigger] first_groups[i]).0 == who;
            assert(b.dom().contains(first_groups[i].0));
        }
        if b.dom().contains(who) {
            let i = choose|i: int|
                0 <= i < second_groups.len() && (#[trigger] second_groups[i]).0 == who;
            assert(a.dom().contains(second_groups[i].0));
        }
    }
    assert forall|who: PersonView| a.dom().contains(who) implies a[who] == b[who] by {
        let i = choose|i: int| 0 <= i < first_groups.len() && (#[trigger] first_groups[i]).0 == who;
        assert(a[first_groups[i].0] == first_groups[i].1);
        assert(b[first_groups[i].0] == first_groups[i].1);
    }
    assert(a =~= b);
}

/// Every group of one grouping is found, with the same paths, in any other
/// grouping that holds the same records.
proof fn lemma_groups_covered(groups: Seq<GroupView>, others: Seq<GroupView>)
    requires
        subjects(groups).no_duplicates(),
        subjects(others).no_duplicates(),
        forall|i: int| 0 <= i < groups.len() ==> (#[trigger] groups[i]).1.len() > 0,
        forall|i: int| 0 <= i < groups.len() ==> sorted((#[trigger] groups[i]).1),
        forall|i: int| 0 <= i < others.len() ==> sorted((#[trigger] others[i]).1),
        flattened(groups).to_multiset() == flattened(others).to_multiset(),
    ensures
        forall|i: int|
            0 <= i < groups.len() ==> group_map(others).dom().contains((#[trigger] groups[i]).0)
                && group_map(others)[groups[i].0] == groups[i].1,
{
    broadcast use group_to_multiset_ensures;

    lemma_group_map(others);
    assert forall|i: int| 0 <= i < groups.len() implies group_map(others).dom().contains(
        (#[trigger] groups[i]).0,
    ) && group_map(others)[groups[i].0] == groups[i].1 by {
        let who = groups[i].0;
        let paths = groups[i].1;
        let witness = paths[0];
        lemma_path_count_of_group(groups, i, witness);
        lemma_flattened_count(groups, who, witness);
        lemma_flattened_count(others, who, witness);
        if forall|j: int| 0 <= j < others.len() ==> (#[trigger] others[j]).0 != who {
            lemma_path_count_of_stranger(others, who, witness);
        }
        let j = choose|j: int| 0 <= j < others.len() && (#[trigger] others[j]).0 == who;
        assert forall|path: Seq<char>|
            paths.to_multiset().count(path) == others[j].1.to_multiset().count(path) by {
            lemma_path_count_of_group(groups, i, path);
            lemma_path_count_of_group(others, j, path);
            lemma_flattened_count(groups, who, path);
            lemma_flattened_count(others, who, path);
        }
        assert(paths.to_multiset() =~= others[j].1.to_multiset());
        lemma_sorted_lists_agree(paths, others[j].1);
    }
}

} // verus!
