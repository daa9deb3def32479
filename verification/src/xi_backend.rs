use std::ops::Range;
use vstd::prelude::*;

use crate::offsets::{
    lemma_insert_is_replace_of_empty_range, lemma_remove_is_replace_with_empty, measure,
    replace_text, valid_range,
};
use crate::rope::Rope;

verus! {

/// An `xi_rope::Rope`. Verus cannot take the declaration of that type (its
/// generic node type is bounded by a trait of xi_rope), so the rope is held
/// in a field hidden from Verus, and every use of it goes through the
/// wrappers below.
#[verifier::external_body]
#[derive(Debug)]
pub struct XiRope {
    rope: xi_rope::Rope,
}

/// The text that an `xi_rope::Rope` holds.
pub uninterp spec fn xi_text(rope: XiRope) -> Seq<char>;

/// `xi_rope::Rope::from(&str)`: a rope built from the string's bytes, which
/// holds that text.
#[verifier::external_body]
fn xi_from(s: &str) -> (rope: XiRope)
    ensures
        xi_text(rope) == s@,
{
    XiRope { rope: xi_rope::Rope::from(s) }
}

/// `xi_rope::Rope::edit`: the rope becomes what lay before the byte range,
/// then `s`, then what lay after it. Its source slices the leaf strings at
/// both ends, which panics off a char boundary, so the range must be valid.
#[verifier::external_body]
fn xi_edit(rope: &mut XiRope, range: Range<usize>, s: &str)
    requires
        valid_range(xi_text(*old(rope)), range.start as int, range.end as int, true),
    ensures
        xi_text(*final(rope)) == replace_text(
            xi_text(*old(rope)),
            range.start as int,
            range.end as int,
            s@,
            true,
        ),
{
    rope.rope.edit(range, s);
}

/// `xi_rope::Rope::len`: for a text rope, the length of the text in bytes.
#[verifier::external_body]
fn xi_len(rope: &XiRope) -> (n: usize)
    ensures
        n == measure(xi_text(*rope), true),
{
    rope.rope.len()
}

impl Rope for XiRope {
    const NAME: &'static str = "xi_rope";

    const EDITS_USE_BYTE_OFFSETS: bool = true;

    open spec fn text(&self) -> Seq<char> {
        xi_text(*self)
    }

    fn from_str(s: &str) -> (rope: Self) {
        xi_from(s)
    }

    fn insert(&mut self, at: usize, s: &str) {
        proof {
            lemma_insert_is_replace_of_empty_range(xi_text(*self), at as int, s@, true);
        }
        xi_edit(self, at..at, s);
    }

    fn remove(&mut self, range: Range<usize>) {
        let empty = "";
        proof {
            reveal_strlit("");
            lemma_remove_is_replace_with_empty(
                xi_text(*self),
                range.start as int,
                range.end as int,
                empty@,
                true,
            );
        }
        xi_edit(self, range, empty);
    }

    fn replace(&mut self, range: Range<usize>, s: &str) {
        xi_edit(self, range, s);
    }

    fn len(&self) -> (n: usize) {
        xi_len(self)
    }
}

/// An `XiRope` takes byte offsets.
pub proof fn lemma_xi_offsets_count_bytes()
    ensures
        <XiRope as Rope>::EDITS_USE_BYTE_OFFSETS,
{
}

} // verus!
