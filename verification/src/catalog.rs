//! The catalog: the records that were found, grouped by subject.

use vstd::prelude::*;
use vstd::seq_lib::group_to_multiset_ensures;
use vstd::string::StringExecFns;

use crate::errors::CliError;
use crate::errors::CliErrorView;
use crate::grouping::first_occurrences;
use crate::grouping::flattened;
use crate::grouping::group_map;
use crate::grouping::is_grouping_of;
use crate::grouping::lemma_first_occurrences_distinct;
use crate::grouping::lemma_flattened_add_group;
use crate::grouping::lemma_flattened_add_path;
use crate::grouping::lemma_sorted_groups_are_grouping;
use crate::grouping::record_subjects;
use crate::grouping::subjects;
use crate::grouping::GroupView;
use crate::grouping::RecordView;
use crate::person::Person;
use crate::person::PersonView;
use crate::sorted_paths::SortedPaths;
use crate::sorting::sorted;
use crate::text::str_eq;
use crate::text::texts;

verus! {

/// The records that a list of pairs holds.
pub open spec fn records(pairs: Seq<(Person, String)>) -> Seq<RecordView> {
    pairs.map_values(|pair: (Person, String)| (pair.0@, pair.1@))
}

/// Whether the allow-list admits an identifier: an empty list admits every
/// identifier, any other list those that it holds.
pub open spec fn allowed(allow: Seq<Seq<char>>, id: Seq<char>) -> bool {
    allow.len() == 0 || allow.contains(id)
}

/// The test that keeps the records whose subject the allow-list admits.
pub open spec fn admits(allow: Seq<Seq<char>>) -> spec_fn(RecordView) -> bool {
    |record: RecordView| allowed(allow, record.0.id)
}

/// Decides whether the allow-list admits an identifier.
pub fn is_allowed(allow: &Vec<String>, id: &str) -> (admitted: bool)
    ensures
        admitted == allowed(texts(allow@), id@),
{
    if allow.len() == 0 {
        return true;
    }
    let mut index: usize = 0;
    while index < allow.len()
        invariant
            index <= allow.len(),
            forall|i: int| 0 <= i < index ==> texts(allow@)[i] != id@,
        decreases allow.len() - index,
    {
        if str_eq(allow[index].as_str(), id) {
            assert(texts(allow@)[index as int] == id@);
            return true;
        }
        index = index + 1;
    }
    false
}

/// Keeps the records whose subject the allow-list admits, in their order.
pub fn select_records(found: Vec<(Person, String)>, allow: &Vec<String>) -> (kept: Vec<
    (Person, String),
>)
    ensures
        records(kept@) == records(found@).filter(admits(texts(allow@))),
{
    let mut kept: Vec<(Person, String)> = Vec::new();
    let ghost test = admits(texts(allow@));
    proof {
        reveal(Seq::filter);
    }
    for pair in it: found
        invariant
            test == admits(texts(allow@)),
            records(kept@) == records(found@).take(it.index() as int).filter(test),
    {
        proof {
            reveal(Seq::filter);
            let position = it.index() as int;
            assert(records(found@).take(position + 1).drop_last() =~= records(found@).take(
                position,
            ));
        }
        if is_allowed(allow, pair.0.id.as_str()) {
            kept.push(pair);
        }
    }
    assert(records(found@).take(found@.len() as int) =~= records(found@));
    kept
}

/// Keeps the records found below `root` whose subject the allow-list admits.
/// It fails where the allow-list admits none of them.
pub fn select_matches(root: &str, found: Vec<(Person, String)>, allow: &Vec<String>) -> (outcome:
    Result<Vec<(Person, String)>, CliError>)
    ensures
        outcome is Ok <==> records(found@).filter(admits(texts(allow@))).len() > 0,
        outcome matches Ok(kept) ==> records(kept@) == records(found@).filter(
            admits(texts(allow@)),
        ),
        outcome matches Err(error) ==> error@ == CliErrorView::FilesDoNotExist(root@),
{
    let kept = select_records(found, allow);
    if kept.len() == 0 {
        Err(CliError::FilesDoNotExist(String::from_str(root)))
    } else {
        Ok(kept)
    }
}

/// The groups that a list of unsorted groups holds.
pub open spec fn bucket_views(buckets: Seq<(Person, Vec<String>)>) -> Seq<GroupView> {
    buckets.map_values(|bucket: (Person, Vec<String>)| (bucket.0@, texts(bucket.1@)))
}

/// The groups that a list of entries holds.
pub open spec fn entry_views(entries: Seq<(Person, SortedPaths)>) -> Seq<GroupView> {
    entries.map_values(|entry: (Person, SortedPaths)| (entry.0@, entry.1@))
}

/// Finds the group of a subject.
fn find_person(buckets: &Vec<(Person, Vec<String>)>, person: &Person) -> (found: Option<usize>)
    ensures
        match found {
            Some(index) => index < buckets.len() && buckets[index as int].0@ == person@,
            None => forall|i: int| 0 <= i < buckets.len() ==> (#[trigger] buckets[i]).0@ != person@,
        },
{
    let mut index: usize = 0;
    while index < buckets.len()
        invariant
            index <= buckets.len(),
            forall|i: int| 0 <= i < index ==> (#[trigger] buckets[i]).0@ != person@,
        decreases buckets.len() - index,
    {
        if buckets[index].0.same_as(person) {
            return Some(index);
        }
        index = index + 1;
    }
    None
}

/// Collects the paths of each subject, in the order in which the records hold
/// them. The subjects stand in the order in which they first occur. No
/// subject has two groups, every group holds at least one path, and the
/// groups together hold exactly the records.
pub fn collect_groups(pairs: Vec<(Person, String)>) -> (buckets: Vec<(Person, Vec<String>)>)
    ensures
        subjects(bucket_views(buckets@)) == first_occurrences(record_subjects(records(pairs@))),
        forall|i: int| 0 <= i < buckets.len() ==> (#[trigger] buckets[i]).1.len() > 0,
        flattened(bucket_views(buckets@)).to_multiset() == records(pairs@).to_multiset(),
{
    let mut buckets: Vec<(Person, Vec<String>)> = Vec::new();
    assert(records(pairs@).take(0) =~= Seq::<RecordView>::empty());
    for pair in it: pairs
        invariant
            subjects(bucket_views(buckets@)) == first_occurrences(
                record_subjects(records(pairs@).take(it.index() as int)),
            ),
            forall|i: int| 0 <= i < buckets.len() ==> (#[trigger] buckets[i]).1.len() > 0,
            flattened(bucket_views(buckets@)).to_multiset() == records(pairs@).take(
                it.index() as int,
            ).to_multiset(),
    {
        let ghost position = it.index() as int;
        let ghost seen = records(pairs@).take(position);
        let ghost record: RecordView = (pair.0@, pair.1@);
        let ghost before = buckets@;
        let (person, path) = pair;
        proof {
            broadcast use group_to_multiset_ensures;

            assert(records(pairs@).take(position + 1) =~= seen.push(record));
            assert(record_subjects(seen.push(record)).drop_last() =~= record_subjects(seen));
        }
        match find_person(&buckets, &person) {
            Some(index) => {
                buckets[index].1.push(path);
                proof {
                    let old_groups = bucket_views(before);
                    assert(subjects(old_groups)[index as int] == record.0);
                    assert(bucket_views(buckets@) =~= old_groups.update(
                        index as int,
                        (old_groups[index as int].0, old_groups[index as int].1.push(record.1)),
                    )) by {
                        assert(texts(buckets@[index as int].1@) =~= texts(
                            before[index as int].1@,
                        ).push(record.1));
                    }
                    lemma_flattened_add_path(old_groups, index as int, record.1);
                }
            },
            None => {
                let mut paths: Vec<String> = Vec::new();
                paths.push(path);
                buckets.push((person, paths));
                proof {
                    let old_groups = bucket_views(before);
                    assert(texts(paths@) =~= seq![record.1]);
                    assert(bucket_views(buckets@) =~= old_groups.push((record.0, seq![record.1])));
                    assert(!subjects(old_groups).contains(record.0)) by {
                        if subjects(old_groups).contains(record.0) {
                            let i = choose|i: int|
                                0 <= i < subjects(old_groups).len() && subjects(old_groups)[i]
                                    == record.0;
                            assert(before[i].0@ == record.0);
                        }
                    }
                    lemma_flattened_add_group(old_groups, record.0, record.1);
                }
            },
        }
    }
    assert(records(pairs@).take(pairs@.len() as int) =~= records(pairs@));
    buckets
}

/// Whether no subject has two groups and every group holds at least one path.
pub open spec fn distinct_and_filled(groups: Seq<GroupView>) -> bool {
    &&& subjects(groups).no_duplicates()
    &&& forall|i: int| 0 <= i < groups.len() ==> (#[trigger] groups[i]).1.len() > 0
}

/// The records grouped by subject, the paths of each subject sorted.
pub struct Catalog {
    entries: Vec<(Person, SortedPaths)>,
}

impl View for Catalog {
    type V = Map<PersonView, Seq<Seq<char>>>;

    /// The sorted paths of each subject.
    open spec fn view(&self) -> Map<PersonView, Seq<Seq<char>>> {
        group_map(self.groups())
    }
}

impl Catalog {
    /// The groups in the order in which the catalog holds them.
    pub closed spec fn groups(&self) -> Seq<GroupView> {
        entry_views(self.entries@)
    }

    #[verifier::type_invariant]
    spec fn well_formed(&self) -> bool {
        is_grouping_of(self.groups(), flattened(self.groups()))
    }

    /// Makes a catalog of groups that were sorted elsewhere. The groups make
    /// a catalog where no subject has two groups and every group holds at
    /// least one path.
    pub fn from_sorted(entries: Vec<(Person, SortedPaths)>) -> (catalog: Option<Catalog>)
        ensures
            catalog is Some <==> distinct_and_filled(entry_views(entries@)),
            catalog matches Some(made) ==> made.groups() == entry_views(entries@),
    {
        let ghost groups = entry_views(entries@);
        let mut index: usize = 0;
        while index < entries.len()
            invariant
                groups == entry_views(entries@),
                index <= entries.len(),
                forall|i: int, j: int|
                    0 <= i < j < index ==> (#[trigger] groups[i]).0 != (#[trigger] groups[j]).0,
                forall|i: int| 0 <= i < index ==> (#[trigger] groups[i]).1.len() > 0,
                forall|i: int| 0 <= i < index ==> sorted((#[trigger] groups[i]).1),
            decreases entries.len() - index,
        {
            let entry = &entries[index];
            proof {
                use_type_invariant(&entry.1);
            }
            if entry.1.len() == 0 {
                assert(groups[index as int].1.len() == 0);
                return None;
            }
            let mut earlier: usize = 0;
            while earlier < index
                invariant
                    groups == entry_views(entries@),
                    earlier <= index < entries.len(),
                    entry == entries[index as int],
                    forall|i: int| 0 <= i < earlier ==> (#[trigger] groups[i]).0 != groups[index as int].0,
                decreases index - earlier,
            {
                if entries[earlier].0.same_as(&entry.0) {
                    assert(subjects(groups)[earlier as int] == subjects(groups)[index as int]);
                    return None;
                }
                earlier = earlier + 1;
            }
            index = index + 1;
        }
        assert(subjects(groups).no_duplicates()) by {
            assert forall|i: int, j: int|
                0 <= i < subjects(groups).len() && 0 <= j < subjects(groups).len() && i
                    != j implies subjects(groups)[i] != subjects(groups)[j] by {
                if i < j {
                    assert(groups[i].0 != groups[j].0);
                } else {
                    assert(groups[j].0 != groups[i].0);
                }
            }
        }
        Some(Catalog { entries })
    }

    /// Number of subjects.
    pub fn len(&self) -> (count: usize)
        ensures
            count == self.groups().len(),
    {
        self.entries.len()
    }

    /// Whether the catalog holds no subject.
    pub fn is_empty(&self) -> (empty: bool)
        ensures
            empty == (self.groups().len() == 0),
    {
        self.entries.len() == 0
    }

    /// The subject of the group at `index`, if there are that many groups.
    pub fn person(&self, index: usize) -> (person: Option<&Person>)
        ensures
            person is Some <==> index < self.groups().len(),
            person matches Some(who) ==> who@ == self.groups()[index as int].0,
    {
        if index < self.entries.len() {
            Some(&self.entries[index].0)
        } else {
            None
        }
    }

    /// The paths of the group at `index`, if there are that many groups.
    pub fn paths(&self, index: usize) -> (paths: Option<&SortedPaths>)
        ensures
            paths is Some <==> index < self.groups().len(),
            paths matches Some(list) ==> list@ == self.groups()[index as int].1,
    {
        if index < self.entries.len() {
            Some(&self.entries[index].1)
        } else {
            None
        }
    }

    /// Hands out the groups, in order. No subject has two groups, and every
    /// group is sorted and holds at least one path.
    pub fn into_entries(self) -> (entries: Vec<(Person, SortedPaths)>)
        ensures
            entry_views(entries@) == self.groups(),
            is_grouping_of(self.groups(), flattened(self.groups())),
    {
        proof {
            use_type_invariant(&self);
        }
        self.entries
    }
}

/// Groups the records by subject and sorts the paths of each subject. The
/// subjects stand in the order in which they first occur among the records.
pub fn group(pairs: Vec<(Person, String)>) -> (catalog: Catalog)
    ensures
        is_grouping_of(catalog.groups(), records(pairs@)),
        subjects(catalog.groups()) == first_occurrences(record_subjects(records(pairs@))),
{
    let buckets = collect_groups(pairs);
    let ghost unsorted = bucket_views(buckets@);
    let mut entries: Vec<(Person, SortedPaths)> = Vec::new();
    for bucket in it: buckets
        invariant
            unsorted == bucket_views(buckets@),
            entries.len() == it.index(),
            forall|i: int|
                0 <= i < entries.len() ==> (#[trigger] entry_views(entries@)[i]).0 == unsorted[i].0,
            forall|i: int|
                0 <= i < entries.len() ==> (#[trigger] entry_views(entries@)[i]).1.to_multiset()
                    == unsorted[i].1.to_multiset(),
            forall|i: int| 0 <= i < entries.len() ==> sorted((#[trigger] entry_views(entries@)[i]).1),
    {
        let ghost position = it.index() as int;
        let ghost before = entries@;
        let (person, paths) = bucket;
        let sorted_paths = SortedPaths::new(paths);
        entries.push((person, sorted_paths));
        proof {
            assert forall|i: int| 0 <= i < entries.len() implies (#[trigger] entry_views(
                entries@,
            )[i]).0 == unsorted[i].0 by {
                if i < position {
                    assert(entry_views(before)[i].0 == unsorted[i].0);
                }
            }
            assert forall|i: int| 0 <= i < entries.len() implies (#[trigger] entry_views(
                entries@,
            )[i]).1.to_multiset() == unsorted[i].1.to_multiset() by {
                if i < position {
                    assert(entry_views(before)[i].1.to_multiset() == unsorted[i].1.to_multiset());
                }
            }
            assert forall|i: int| 0 <= i < entries.len() implies sorted(
                (#[trigger] entry_views(entries@)[i]).1,
            ) by {
                if i < position {
                    assert(sorted(entry_views(before)[i].1));
                }
            }
        }
    }
    proof {
        lemma_first_occurrences_distinct(record_subjects(records(pairs@)));
        lemma_sorted_groups_are_grouping(unsorted, entry_views(entries@), records(pairs@));
    }
    Catalog { entries }
}

} // verus!
