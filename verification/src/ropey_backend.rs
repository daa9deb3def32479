use ropey::Rope as RopeyRope;
use std::ops::Range;
use vstd::prelude::*;

use crate::offsets::{lemma_measure_chars, lemma_offset_index_chars};

verus! {

#[verifier::external_type_specification]
#[verifier::external_body]
pub struct ExRopeyRope(RopeyRope);

/// The text that a `ropey::Rope` holds.
pub uninterp spec fn ropey_text(rope: RopeyRope) -> Seq<char>;

/// `ropey::Rope::from(&str)`: a rope that holds the string.
#[verifier::external_body]
fn ropey_from(s: &str) -> (rope: RopeyRope)
    ensures
        ropey_text(rope) == s@,
{
    RopeyRope::from(s)
}

/// `ropey::Rope::insert`: puts `s` at char index `at`; ropey documents a
/// panic when `at` is past the end.
#[verifier::external_body]
fn ropey_insert(rope: &mut RopeyRope, at: usize, s: &str)
    requires
        at <= ropey_text(*old(rope)).len(),
    ensures
        ({
            let t = ropey_text(*old(rope));
            ropey_text(*final(rope)) == t.take(at as int) + s@ + t.skip(at as int)
        }),
{
    rope.insert(at, s);
}

/// `ropey::Rope::remove`: deletes a char range; ropey documents a panic when
/// the start is after the end or the end is past the end of the text.
#[verifier::external_body]
fn ropey_remove(rope: &mut RopeyRope, range: Range<usize>)
    requires
        range.start <= range.end <= ropey_text(*old(rope)).len(),
    ensures
        ({
            let t = ropey_text(*old(rope));
            ropey_text(*final(rope)) == t.take(range.start as int) + t.skip(range.end as int)
        }),
{
    rope.remove(range);
}

/// `ropey::Rope::len_chars`: the number of chars in the rope.
#[verifier::external_body]
fn ropey_len_chars(rope: &RopeyRope) -> (n: usize)
    ensures
        n == ropey_text(*rope).len(),
{
    rope.len_chars()
}

impl crate::rope::Rope for RopeyRope {
    const NAME: &'static str = "Ropey";

    const EDITS_USE_BYTE_OFFSETS: bool = false;

    open spec fn text(&self) -> Seq<char> {
        ropey_text(*self)
    }

    fn from_str(s: &str) -> (rope: Self) {
        ropey_from(s)
    }

    fn insert(&mut self, at: usize, s: &str) {
        proof {
            lemma_offset_index_chars(ropey_text(*self), at as int);
        }
        ropey_insert(self, at, s);
    }

    fn remove(&mut self, range: Range<usize>) {
        proof {
            lemma_offset_index_chars(ropey_text(*self), range.start as int);
            lemma_offset_index_chars(ropey_text(*self), range.end as int);
        }
        ropey_remove(self, range);
    }

    fn len(&self) -> (n: usize) {
        proof {
            lemma_measure_chars(ropey_text(*self));
        }
        ropey_len_chars(self)
    }
}

/// A `ropey::Rope` takes char offsets.
pub proof fn lemma_ropey_offsets_count_chars()
    ensures
        !<RopeyRope as crate::rope::Rope>::EDITS_USE_BYTE_OFFSETS,
{
}

} // verus!
