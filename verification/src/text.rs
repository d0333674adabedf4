//! Text as a sequence of characters, and its lexicographic order.

use vstd::prelude::*;
use vstd::std_specs::iter::IteratorSpec;

verus! {

/// Lexicographic order on text: characters are compared by code point, and a
/// proper prefix comes before any text that extends it.
pub open spec fn text_le(a: Seq<char>, b: Seq<char>) -> bool
    decreases a.len(),
{
    if a.len() == 0 {
        true
    } else if b.len() == 0 {
        false
    } else if a[0] != b[0] {
        a[0] < b[0]
    } else {
        text_le(a.drop_first(), b.drop_first())
    }
}

/// The texts that a sequence of strings holds, in order.
pub open spec fn texts(strings: Seq<String>) -> Seq<Seq<char>> {
    strings.map_values(|s: String| s@)
}

/// Every text is at most itself.
pub proof fn lemma_text_le_reflexive(a: Seq<char>)
    ensures
        text_le(a, a),
    decreases a.len(),
{
    if a.len() > 0 {
        lemma_text_le_reflexive(a.drop_first());
    }
}

/// Two texts that are at most each other are the same text.
pub proof fn lemma_text_le_antisymmetric(a: Seq<char>, b: Seq<char>)
    requires
        text_le(a, b),
        text_le(b, a),
    ensures
        a == b,
    decreases a.len(),
{
    if a.len() > 0 && b.len() > 0 {
        lemma_text_le_antisymmetric(a.drop_first(), b.drop_first());
        assert(a =~= seq![a[0]] + a.drop_first());
        assert(b =~= seq![b[0]] + b.drop_first());
    }
}

/// The order is transitive.
pub proof fn lemma_text_le_transitive(a: Seq<char>, b: Seq<char>, c: Seq<char>)
    requires
        text_le(a, b),
        text_le(b, c),
    ensures
        text_le(a, c),
    decreases a.len(),
{
    if a.len() > 0 && b.len() > 0 && c.len() > 0 && a[0] == b[0] && b[0] == c[0] {
        lemma_text_le_transitive(a.drop_first(), b.drop_first(), c.drop_first());
    }
}

/// Any two texts are comparable.
pub proof fn lemma_text_le_total(a: Seq<char>, b: Seq<char>)
    ensures
        text_le(a, b) || text_le(b, a),
    decreases a.len(),
{
    if a.len() > 0 && b.len() > 0 && a[0] == b[0] {
        lemma_text_le_total(a.drop_first(), b.drop_first());
    }
}

/// Decides whether two strings hold the same text.
pub fn str_eq(a: &str, b: &str) -> (same: bool)
    ensures
        same == (a@ == b@),
{
    broadcast use {vstd::string::axiom_spec_iter, vstd::string::next_postcondition};

    let mut left = a.chars();
    let mut right = b.chars();
    loop
        invariant
            (a@ == b@) == (left.remaining() == right.remaining()),
            left.decrease() is Some,
        decreases left.decrease()->0,
    {
        let ghost left_text = left.remaining();
        let ghost right_text = right.remaining();
        let x = left.next();
        let y = right.next();
        match (x, y) {
            (None, None) => {
                assert(left_text =~= right_text);
                return true;
            },
            (Some(p), Some(q)) => {
                if p != q {
                    return false;
                }
                proof {
                    assert(left_text =~= seq![p] + left_text.drop_first());
                    assert(right_text =~= seq![q] + right_text.drop_first());
                }
            },
            _ => {
                return false;
            },
        }
    }
}

/// Decides the lexicographic order of two strings.
pub fn str_le(a: &str, b: &str) -> (le: bool)
    ensures
        le == text_le(a@, b@),
{
    broadcast use {vstd::string::axiom_spec_iter, vstd::string::next_postcondition};

    let mut left = a.chars();
    let mut right = b.chars();
    loop
        invariant
            text_le(a@, b@) == text_le(left.remaining(), right.remaining()),
            left.decrease() is Some,
        decreases left.decrease()->0,
    {
        let x = left.next();
        let y = right.next();
        match (x, y) {
            (None, _) => {
                return true;
            },
            (Some(_), None) => {
                return false;
            },
            (Some(p), Some(q)) => {
                if p != q {
                    return p < q;
                }
            },
        }
    }
}

} // verus!
