//! Splitting the text of a path into its components.
//!
//! A path is text whose components are separated by `/`. Empty segments
//! (repeated or trailing separators) and `.` segments carry no meaning and are
//! dropped, except for a `.` that opens the path. A path that begins with the
//! separator has the root `/` as its first component.

use vstd::prelude::*;
use vstd::std_specs::iter::IteratorSpec;
use vstd::string::StrSliceExecFns;

use crate::text::texts;

verus! {

/// The separator between the components of a path.
pub const SEPARATOR: char = '/';

/// The pieces of `text` between its separators. A text with `n` separators has
/// `n + 1` segments, some of which may be empty.
pub open spec fn segments(text: Seq<char>) -> Seq<Seq<char>>
    decreases text.len(),
{
    if text.len() == 0 {
        seq![Seq::<char>::empty()]
    } else {
        let before = segments(text.drop_last());
        if text.last() == SEPARATOR {
            before.push(Seq::<char>::empty())
        } else {
            before.update(before.len() - 1, before.last().push(text.last()))
        }
    }
}

/// Whether a segment counts as a component. `leading` says that it is the
/// first segment of the path.
pub open spec fn is_component(segment: Seq<char>, leading: bool) -> bool {
    segment.len() > 0 && (leading || segment != seq!['.'])
}

/// The segments that count as components, in order.
pub open spec fn kept_segments(all: Seq<Seq<char>>) -> Seq<Seq<char>>
    decreases all.len(),
{
    if all.len() == 0 {
        Seq::<Seq<char>>::empty()
    } else {
        let before = kept_segments(all.drop_last());
        if is_component(all.last(), all.len() == 1) {
            before.push(all.last())
        } else {
            before
        }
    }
}

/// Whether the path starts at the root.
pub open spec fn is_rooted(text: Seq<char>) -> bool {
    text.len() > 0 && text[0] == SEPARATOR
}

/// The components of a path, outermost first.
pub open spec fn path_components(text: Seq<char>) -> Seq<Seq<char>> {
    if is_rooted(text) {
        seq![seq![SEPARATOR]] + kept_segments(segments(text))
    } else {
        kept_segments(segments(text))
    }
}

/// No segment holds the separator.
pub proof fn lemma_segments_hold_no_separator(text: Seq<char>)
    ensures
        forall|i: int|
            0 <= i < segments(text).len() ==> !(#[trigger] segments(text)[i]).contains(SEPARATOR),
    decreases text.len(),
{
    if text.len() > 0 {
        lemma_segments_hold_no_separator(text.drop_last());
        let before = segments(text.drop_last());
        assert(before.len() > 0) by {
            lemma_segments_are_some(text.drop_last());
        }
        assert forall|i: int| 0 <= i < segments(text).len() implies !(#[trigger] segments(
            text,
        )[i]).contains(SEPARATOR) by {
            if i < before.len() - 1 {
                assert(segments(text)[i] == before[i]);
            } else if text.last() != SEPARATOR && i == before.len() - 1 {
                let grown = before.last().push(text.last());
                if grown.contains(SEPARATOR) {
                    let k = choose|k: int| 0 <= k < grown.len() && grown[k] == SEPARATOR;
                    assert(before.last()[k] == SEPARATOR);
                }
            } else if i == before.len() - 1 {
                assert(segments(text)[i] == before[i]);
            }
        }
    }
}

/// Every text has at least one segment.
pub proof fn lemma_segments_are_some(text: Seq<char>)
    ensures
        segments(text).len() > 0,
    decreases text.len(),
{
    if text.len() > 0 {
        lemma_segments_are_some(text.drop_last());
    }
}

/// The segments that are kept are segments that hold a character.
pub proof fn lemma_kept_segments_are_filled(all: Seq<Seq<char>>)
    ensures
        forall|i: int|
            0 <= i < kept_segments(all).len() ==> (#[trigger] kept_segments(all)[i]).len() > 0
                && all.contains(kept_segments(all)[i]),
    decreases all.len(),
{
    if all.len() > 0 {
        lemma_kept_segments_are_filled(all.drop_last());
        let before = kept_segments(all.drop_last());
        assert forall|i: int| 0 <= i < kept_segments(all).len() implies (#[trigger] kept_segments(
            all,
        )[i]).len() > 0 && all.contains(kept_segments(all)[i]) by {
            if i < before.len() {
                let k = choose|k: int|
                    0 <= k < all.drop_last().len() && all.drop_last()[k] == before[i];
                assert(all[k] == before[i]);
            } else {
                assert(all[all.len() - 1] == kept_segments(all)[i]);
            }
        }
    }
}

/// The components of a path are names: none is empty, and none but the root
/// holds the separator.
pub proof fn lemma_components_are_names(text: Seq<char>, index: int)
    requires
        0 <= index < path_components(text).len(),
    ensures
        path_components(text)[index].len() > 0,
        path_components(text)[index] == seq![SEPARATOR] || !path_components(text)[index].contains(
            SEPARATOR,
        ),
{
    let kept = kept_segments(segments(text));
    lemma_kept_segments_are_filled(segments(text));
    lemma_segments_hold_no_separator(text);
    let at = if is_rooted(text) {
        index - 1
    } else {
        index
    };
    if at >= 0 {
        assert(path_components(text)[index] == kept[at]);
        let k = choose|k: int| 0 <= k < segments(text).len() && segments(text)[k] == kept[at];
        assert(!segments(text)[k].contains(SEPARATOR));
    }
}

/// Reading one more character either opens a new segment or extends the last.
proof fn lemma_segments_step(text: Seq<char>, done: Seq<Seq<char>>, start: int, end: int)
    requires
        0 <= start <= end < text.len(),
        segments(text.take(end)) == done.push(text.subrange(start, end)),
    ensures
        text[end] == SEPARATOR ==> segments(text.take(end + 1)) == done.push(
            text.subrange(start, end),
        ).push(text.subrange(end + 1, end + 1)),
        text[end] != SEPARATOR ==> segments(text.take(end + 1)) == done.push(
            text.subrange(start, end + 1),
        ),
{
    assert(text.take(end + 1).drop_last() =~= text.take(end));
    if text[end] == SEPARATOR {
        assert(text.subrange(end + 1, end + 1) =~= Seq::<char>::empty());
    } else {
        assert(text.subrange(start, end).push(text[end]) =~= text.subrange(start, end + 1));
    }
}

/// Appends the segment `start..end` of `path` to the components, if it counts
/// as one. `latest` is the last character of the segment, if it has any.
fn close_segment(
    path: &str,
    components: &mut Vec<String>,
    start: usize,
    end: usize,
    leading: bool,
    latest: char,
)
    requires
        start <= end <= path@.len(),
        end > start ==> latest == path@[end - 1],
    ensures
        texts(final(components)@) == (if is_component(
            path@.subrange(start as int, end as int),
            leading,
        ) {
            texts(old(components)@).push(path@.subrange(start as int, end as int))
        } else {
            texts(old(components)@)
        }),
{
    let ghost segment = path@.subrange(start as int, end as int);
    let only_dot = end - start == 1 && latest == '.';
    assert(only_dot == (segment == seq!['.'])) by {
        if end - start == 1 {
            assert(segment =~= seq![latest]);
            assert(seq!['.'][0] == '.');
        } else {
            assert(seq!['.'].len() == 1);
        }
    }
    if end > start && (leading || !only_dot) {
        let piece = path.substring_char(start, end).to_owned();
        components.push(piece);
        assert(texts(components@) =~= texts(old(components)@).push(segment));
    }
}

/// Splits a path into its components.
pub fn split_path_to_components(path: &str) -> (components: Vec<String>)
    ensures
        texts(components@) == path_components(path@),
{
    broadcast use {vstd::string::axiom_spec_iter, vstd::string::next_postcondition};

    let length: usize = path.unicode_len();
    let mut components: Vec<String> = Vec::new();
    let mut chars = path.chars();
    let mut start: usize = 0;
    let mut index: usize = 0;
    let mut latest: char = SEPARATOR;
    let mut leading: bool = true;
    let ghost mut done: Seq<Seq<char>> = Seq::empty();
    let ghost root: Seq<Seq<char>> = if is_rooted(path@) {
        seq![seq![SEPARATOR]]
    } else {
        Seq::empty()
    };
    assert(path@.subrange(0, 0) =~= Seq::<char>::empty());
    while index < length
        invariant
            length == path@.len(),
            start <= index <= length,
            chars.remaining() == path@.skip(index as int),
            chars.decrease() is Some,
            segments(path@.take(index as int)) == done.push(
                path@.subrange(start as int, index as int),
            ),
            leading == (done.len() == 0),
            index > start ==> latest == path@[index - 1],
            texts(components@) == (if index > 0 {
                root
            } else {
                Seq::<Seq<char>>::empty()
            }) + kept_segments(done),
            root == (if is_rooted(path@) {
                seq![seq![SEPARATOR]]
            } else {
                Seq::<Seq<char>>::empty()
            }),
        decreases length - index,
    {
        let current: char = match chars.next() {
            Some(c) => c,
            None => SEPARATOR,
        };
        proof {
            assert(path@.skip(index as int).drop_first() =~= path@.skip(index + 1));
            lemma_segments_step(path@, done, start as int, index as int);
        }
        if index == 0 && current == SEPARATOR {
            proof {
                reveal_strlit("/");
            }
            let root_name = "/".to_owned();
            assert(root_name@ =~= seq![SEPARATOR]);
            components.push(root_name);
        }
        if current == SEPARATOR {
            close_segment(path, &mut components, start, index, leading, latest);
            proof {
                let segment = path@.subrange(start as int, index as int);
                assert(done.push(segment).drop_last() =~= done);
                done = done.push(segment);
            }
            leading = false;
            start = index + 1;
        }
        latest = current;
        index = index + 1;
    }
    close_segment(path, &mut components, start, index, leading, latest);
    proof {
        let segment = path@.subrange(start as int, index as int);
        assert(path@.take(index as int) =~= path@);
        assert(done.push(segment).drop_last() =~= done);
    }
    components
}

/// Number of leading components that two paths share, counted from `from`
/// components that are already known to be shared.
pub open spec fn common_prefix_from(a: Seq<Seq<char>>, b: Seq<Seq<char>>, from: int) -> int
    decreases a.len() - from,
{
    if 0 <= from < a.len() && from < b.len() && a[from] == b[from] {
        common_prefix_from(a, b, from + 1)
    } else {
        from
    }
}

/// Number of leading components that two paths share.
pub open spec fn common_prefix_len(a: Seq<Seq<char>>, b: Seq<Seq<char>>) -> int {
    common_prefix_from(a, b, 0)
}

/// The shared prefix is the longest run of equal components at the start of
/// both paths: it fits in both, the paths agree on it, and they differ right
/// after it unless one of them ends there.
pub proof fn lemma_common_prefix(a: Seq<Seq<char>>, b: Seq<Seq<char>>, from: int)
    requires
        0 <= from <= a.len(),
        from <= b.len(),
        forall|i: int| 0 <= i < from ==> a[i] == b[i],
    ensures
        from <= common_prefix_from(a, b, from) <= a.len(),
        common_prefix_from(a, b, from) <= b.len(),
        forall|i: int| 0 <= i < common_prefix_from(a, b, from) ==> a[i] == b[i],
        common_prefix_from(a, b, from) < a.len() && common_prefix_from(a, b, from) < b.len()
            ==> a[common_prefix_from(a, b, from)] != b[common_prefix_from(a, b, from)],
    decreases a.len() - from,
{
    if from < a.len() && from < b.len() && a[from] == b[from] {
        lemma_common_prefix(a, b, from + 1);
    }
}

/// Counts the leading components that two paths share.
pub fn shared_prefix_len(a: &Vec<String>, b: &Vec<String>) -> (shared: usize)
    ensures
        shared == common_prefix_len(texts(a@), texts(b@)),
{
    let mut shared: usize = 0;
    while shared < a.len() && shared < b.len() && a[shared] == b[shared]
        invariant
            shared <= a.len(),
            shared <= b.len(),
            common_prefix_from(texts(a@), texts(b@), shared as int) == common_prefix_len(
                texts(a@),
                texts(b@),
            ),
        decreases a.len() - shared,
    {
        shared = shared + 1;
    }
    shared
}

} // verus!
