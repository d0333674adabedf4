//! Sorting of strings into lexicographic order, by merging.
//!
//! The two halves of a list are sorted in the opposite direction of the result,
//! so that the merge can take the next item from the end of either half and
//! never has to copy a string.

use vstd::prelude::*;
use vstd::seq_lib::lemma_multiset_commutative;
use vstd::seq_lib::group_to_multiset_ensures;

use crate::text::lemma_text_le_reflexive;
use crate::text::lemma_text_le_total;
use crate::text::lemma_text_le_transitive;
use crate::text::str_le;
use crate::text::text_le;
use crate::text::texts;

verus! {

/// Whether `first` may stand before `second` in a list of the given direction.
pub open spec fn in_order(first: Seq<char>, second: Seq<char>, ascending: bool) -> bool {
    if ascending {
        text_le(first, second)
    } else {
        text_le(second, first)
    }
}

/// Whether every item of the list may stand before all the items after it.
pub open spec fn ordered(items: Seq<Seq<char>>, ascending: bool) -> bool {
    forall|i: int, j: int| 0 <= i <= j < items.len() ==> in_order(items[i], items[j], ascending)
}

/// Whether the list is in non-decreasing lexicographic order.
pub open spec fn sorted(items: Seq<Seq<char>>) -> bool {
    ordered(items, true)
}

/// Whether every item of `earlier` may stand before every item of `later`.
pub open spec fn all_in_order(
    earlier: Seq<Seq<char>>,
    later: Seq<Seq<char>>,
    ascending: bool,
) -> bool {
    forall|i: int, j: int|
        0 <= i < earlier.len() && 0 <= j < later.len() ==> in_order(
            earlier[i],
            later[j],
            ascending,
        )
}

/// Moving the last string of a list to the end of another moves its text.
proof fn lemma_texts_move(from: Seq<String>, to: Seq<String>)
    requires
        from.len() > 0,
    ensures
        texts(from.drop_last()) == texts(from).drop_last(),
        texts(to.push(from.last())) == texts(to).push(texts(from).last()),
        texts(from).to_multiset() == texts(from.drop_last()).to_multiset().insert(
            texts(from).last(),
        ),
        texts(to.push(from.last())).to_multiset() == texts(to).to_multiset().insert(
            texts(from).last(),
        ),
{
    broadcast use group_to_multiset_ensures;

    assert(texts(from.drop_last()) =~= texts(from).drop_last());
    assert(texts(to.push(from.last())) =~= texts(to).push(texts(from).last()));
    assert(texts(from) =~= texts(from).drop_last().push(texts(from).last()));
}

/// The step of a merge. `merged` is ordered and stands before what is left of
/// the two lists, which are ordered the other way, so that the last item of
/// each stands before all others of that list. Where the last item of `from`
/// also stands before the last item of `other`, it is the next item of the
/// merge.
proof fn lemma_merge_step(
    merged: Seq<Seq<char>>,
    from: Seq<Seq<char>>,
    other: Seq<Seq<char>>,
    ascending: bool,
)
    requires
        ordered(from, !ascending),
        ordered(other, !ascending),
        ordered(merged, ascending),
        all_in_order(merged, from, ascending),
        all_in_order(merged, other, ascending),
        from.len() > 0,
        other.len() > 0 ==> in_order(from.last(), other.last(), ascending),
    ensures
        ordered(merged.push(from.last()), ascending),
        all_in_order(merged.push(from.last()), from.drop_last(), ascending),
        all_in_order(merged.push(from.last()), other, ascending),
{
    let item = from.last();
    let longer = merged.push(item);
    assert forall|i: int, j: int| 0 <= i <= j < longer.len() implies in_order(
        longer[i],
        longer[j],
        ascending,
    ) by {
        if j < merged.len() {
            assert(in_order(merged[i], merged[j], ascending));
        } else if i < merged.len() {
            assert(in_order(merged[i], from[from.len() - 1], ascending));
        } else {
            lemma_text_le_reflexive(item);
        }
    }
    assert forall|i: int, j: int|
        0 <= i < longer.len() && 0 <= j < from.drop_last().len() implies in_order(
        longer[i],
        from.drop_last()[j],
        ascending,
    ) by {
        if i < merged.len() {
            assert(in_order(merged[i], from[j], ascending));
        } else {
            assert(in_order(from[j], from[from.len() - 1], !ascending));
        }
    }
    assert forall|i: int, j: int| 0 <= i < longer.len() && 0 <= j < other.len() implies in_order(
        longer[i],
        other[j],
        ascending,
    ) by {
        if i < merged.len() {
            assert(in_order(merged[i], other[j], ascending));
        } else {
            let low = other.last();
            assert(in_order(other[j], other[other.len() - 1], !ascending));
            if ascending {
                lemma_text_le_transitive(item, low, other[j]);
            } else {
                lemma_text_le_transitive(other[j], low, item);
            }
        }
    }
}

/// Moves the last string of `from` to the end of `to`.
fn move_last(from: &mut Vec<String>, to: &mut Vec<String>)
    requires
        old(from).len() > 0,
    ensures
        final(from)@ == old(from)@.drop_last(),
        final(to)@ == old(to)@.push(old(from)@.last()),
{
    if let Some(item) = from.pop() {
        to.push(item);
    }
}

/// Merges two lists that are ordered against `ascending` into one list that
/// is ordered along it.
fn merge(left: Vec<String>, right: Vec<String>, ascending: bool) -> (merged: Vec<String>)
    requires
        ordered(texts(left@), !ascending),
        ordered(texts(right@), !ascending),
    ensures
        ordered(texts(merged@), ascending),
        texts(merged@).to_multiset() == texts(left@).to_multiset().add(
            texts(right@).to_multiset(),
        ),
{
    broadcast use group_to_multiset_ensures;

    let mut left = left;
    let mut right = right;
    let ghost total = texts(left@).to_multiset().add(texts(right@).to_multiset());
    let mut merged: Vec<String> = Vec::new();
    while left.len() > 0 || right.len() > 0
        invariant
            ordered(texts(left@), !ascending),
            ordered(texts(right@), !ascending),
            ordered(texts(merged@), ascending),
            all_in_order(texts(merged@), texts(left@), ascending),
            all_in_order(texts(merged@), texts(right@), ascending),
            texts(merged@).to_multiset().add(texts(left@).to_multiset()).add(
                texts(right@).to_multiset(),
            ) == total,
        decreases left.len() + right.len(),
    {
        let from_left = if left.len() == 0 {
            false
        } else if right.len() == 0 {
            true
        } else {
            let x = left[left.len() - 1].as_str();
            let y = right[right.len() - 1].as_str();
            if ascending {
                str_le(x, y)
            } else {
                str_le(y, x)
            }
        };
        if from_left {
            proof {
                lemma_merge_step(texts(merged@), texts(left@), texts(right@), ascending);
                lemma_texts_move(left@, merged@);
            }
            move_last(&mut left, &mut merged);
        } else {
            proof {
                if left.len() > 0 {
                    lemma_text_le_total(texts(left@).last(), texts(right@).last());
                }
                lemma_merge_step(texts(merged@), texts(right@), texts(left@), ascending);
                lemma_texts_move(right@, merged@);
            }
            move_last(&mut right, &mut merged);
        }
    }
    merged
}

/// Sorts the strings along the given direction.
fn sort_directed(items: Vec<String>, ascending: bool) -> (result: Vec<String>)
    ensures
        ordered(texts(result@), ascending),
        texts(result@).to_multiset() == texts(items@).to_multiset(),
    decreases items.len(),
{
    let mut items = items;
    if items.len() <= 1 {
        proof {
            if items.len() == 1 {
                lemma_text_le_reflexive(texts(items@)[0]);
            }
        }
        return items;
    }
    let ghost whole = items@;
    let middle: usize = items.len() / 2;
    let upper = items.split_off(middle);
    proof {
        lemma_multiset_commutative(texts(items@), texts(upper@));
        assert(texts(whole) =~= texts(items@) + texts(upper@));
    }
    let low_sorted = sort_directed(items, !ascending);
    let high_sorted = sort_directed(upper, !ascending);
    merge(low_sorted, high_sorted, ascending)
}

/// Sorts the strings into non-decreasing lexicographic order. The result holds
/// the same strings, each as often as the input does.
pub fn sort_strings(items: Vec<String>) -> (result: Vec<String>)
    ensures
        sorted(texts(result@)),
        texts(result@).to_multiset() == texts(items@).to_multiset(),
{
    sort_directed(items, true)
}

} // verus!
