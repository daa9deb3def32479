use jumprope::JumpRope;
use jumprope::JumpRopeBuf;
use std::ops::Range;
use vstd::prelude::*;

use crate::offsets::{lemma_measure_chars, lemma_offset_index_chars};

verus! {

#[verifier::external_type_specification]
#[verifier::external_body]
pub struct ExJumpRope(JumpRope);

/// A `jumprope::JumpRopeBuf`, held in a field hidden from Verus so that
/// only the wrappers below make and change it. They keep every buffered
/// edit within the text; `JumpRopeBuf::remove` called directly with a range
/// past the end would buffer it uncut, and `len_chars` would then be wrong.
#[verifier::external_body]
pub struct JumpBufRope {
    rope: JumpRopeBuf,
}

/// The text that a `jumprope::JumpRope` holds.
pub uninterp spec fn jump_text(rope: JumpRope) -> Seq<char>;

/// The text that a `JumpBufRope` holds: that of its inner `JumpRopeBuf` with
/// the buffered edit applied.
pub uninterp spec fn jump_buf_text(rope: JumpBufRope) -> Seq<char>;

/// `x`, but no more than `bound`.
pub open spec fn clamp(x: int, bound: int) -> int {
    if x <= bound {
        x
    } else {
        bound
    }
}

/// `JumpRope::from(&str)`: a rope that holds the string.
#[verifier::external_body]
fn jump_from(s: &str) -> (rope: JumpRope)
    ensures
        jump_text(rope) == s@,
{
    JumpRope::from(s)
}

/// `JumpRope::insert`: puts `s` at char position `at`, which jumprope
/// documents to be truncated to the end of the rope when it lies past it.
#[verifier::external_body]
fn jump_insert(rope: &mut JumpRope, at: usize, s: &str)
    ensures
        ({
            let t = jump_text(*old(rope));
            let p = clamp(at as int, t.len() as int);
            jump_text(*final(rope)) == t.take(p) + s@ + t.skip(p)
        }),
{
    rope.insert(at, s);
}

/// `JumpRope::remove`: deletes a char range; jumprope documents that what
/// lies past the end is ignored, and its source does nothing when the range,
/// cut at the end, is empty.
#[verifier::external_body]
fn jump_remove(rope: &mut JumpRope, range: Range<usize>)
    ensures
        ({
            let t = jump_text(*old(rope));
            let e = clamp(range.end as int, t.len() as int);
            jump_text(*final(rope)) == if range.start >= e {
                t
            } else {
                t.take(range.start as int) + t.skip(e)
            }
        }),
{
    rope.remove(range);
}

/// `JumpRope::replace`: both ends are cut at the end of the rope, then the
/// chars between them give way to `s`; the source subtracts the cut start
/// from the cut end, so they must be in order.
#[verifier::external_body]
fn jump_replace(rope: &mut JumpRope, range: Range<usize>, s: &str)
    requires
        clamp(range.start as int, jump_text(*old(rope)).len() as int) <= clamp(
            range.end as int,
            jump_text(*old(rope)).len() as int,
        ),
    ensures
        ({
            let t = jump_text(*old(rope));
            let p = clamp(range.start as int, t.len() as int);
            let e = clamp(range.end as int, t.len() as int);
            jump_text(*final(rope)) == t.take(p) + s@ + t.skip(e)
        }),
{
    rope.replace(range, s);
}

/// `JumpRope::len_chars`: the number of chars in the rope.
#[verifier::external_body]
fn jump_len_chars(rope: &JumpRope) -> (n: usize)
    ensures
        n == jump_text(*rope).len(),
{
    rope.len_chars()
}

/// `JumpRopeBuf::from(&str)`: a buffered rope that holds the string.
#[verifier::external_body]
fn jump_buf_from(s: &str) -> (rope: JumpBufRope)
    ensures
        jump_buf_text(rope) == s@,
{
    JumpBufRope { rope: JumpRopeBuf::from(s) }
}

/// `JumpRopeBuf::insert`: buffers an insertion that jumprope documents as
/// equivalent to `JumpRope::insert`; stated for positions within the text,
/// where merging buffered edits keeps that equivalence.
#[verifier::external_body]
fn jump_buf_insert(rope: &mut JumpBufRope, at: usize, s: &str)
    requires
        at <= jump_buf_text(*old(rope)).len(),
    ensures
        ({
            let t = jump_buf_text(*old(rope));
            jump_buf_text(*final(rope)) == t.take(at as int) + s@ + t.skip(at as int)
        }),
{
    rope.rope.insert(at, s);
}

/// `JumpRopeBuf::remove`: buffers a deletion that jumprope documents as
/// equivalent to `JumpRope::remove`; stated for ranges in order and within
/// the text, where the buffered length stays exact.
#[verifier::external_body]
fn jump_buf_remove(rope: &mut JumpBufRope, range: Range<usize>)
    requires
        range.start <= range.end <= jump_buf_text(*old(rope)).len(),
    ensures
        ({
            let t = jump_buf_text(*old(rope));
            jump_buf_text(*final(rope)) == t.take(range.start as int) + t.skip(range.end as int)
        }),
{
    rope.rope.remove(range);
}

/// `JumpRopeBuf::len_chars`: the char length of the inner rope, plus the
/// length of a buffered insertion or less that of a buffered deletion, which
/// is the number of chars of the text when the buffered edit lies within it,
/// as the other wrappers keep it.
#[verifier::external_body]
fn jump_buf_len_chars(rope: &JumpBufRope) -> (n: usize)
    ensures
        n == jump_buf_text(*rope).len(),
{
    rope.rope.len_chars()
}

impl crate::rope::Rope for JumpRope {
    const NAME: &'static str = "JumpRope";

    const EDITS_USE_BYTE_OFFSETS: bool = false;

    open spec fn text(&self) -> Seq<char> {
        jump_text(*self)
    }

    fn from_str(s: &str) -> (rope: Self) {
        jump_from(s)
    }

    fn insert(&mut self, at: usize, s: &str) {
        proof {
            lemma_offset_index_chars(jump_text(*self), at as int);
        }
        jump_insert(self, at, s);
    }

    fn remove(&mut self, range: Range<usize>) {
        let ghost t = jump_text(*self);
        proof {
            lemma_offset_index_chars(t, range.start as int);
            lemma_offset_index_chars(t, range.end as int);
        }
        jump_remove(self, range);
        assert(t.take(range.start as int) + t.skip(range.start as int) =~= t);
    }

    fn replace(&mut self, range: Range<usize>, s: &str) {
        proof {
            lemma_offset_index_chars(jump_text(*self), range.start as int);
            lemma_offset_index_chars(jump_text(*self), range.end as int);
        }
        jump_replace(self, range, s);
    }

    fn len(&self) -> (n: usize) {
        proof {
            lemma_measure_chars(jump_text(*self));
        }
        jump_len_chars(self)
    }
}

impl crate::rope::Rope for JumpBufRope {
    // We put `Buf` before `Rope` to be able to only run the `JumpRope`
    // benchmarks by passing `JumpR***` to the CLI.
    const NAME: &'static str = "JumpBufRope";

    const EDITS_USE_BYTE_OFFSETS: bool = false;

    open spec fn text(&self) -> Seq<char> {
        jump_buf_text(*self)
    }

    fn from_str(s: &str) -> (rope: Self) {
        jump_buf_from(s)
    }

    fn insert(&mut self, at: usize, s: &str) {
        proof {
            lemma_offset_index_chars(jump_buf_text(*self), at as int);
        }
        jump_buf_insert(self, at, s);
    }

    fn remove(&mut self, range: Range<usize>) {
        proof {
            lemma_offset_index_chars(jump_buf_text(*self), range.start as int);
            lemma_offset_index_chars(jump_buf_text(*self), range.end as int);
        }
        jump_buf_remove(self, range);
    }

    fn len(&self) -> (n: usize) {
        proof {
            lemma_measure_chars(jump_buf_text(*self));
        }
        jump_buf_len_chars(self)
    }
}

/// A `JumpRope` and a `JumpBufRope` take char offsets.
pub proof fn lemma_jumprope_offsets_count_chars()
    ensures
        !<JumpRope as crate::rope::Rope>::EDITS_USE_BYTE_OFFSETS,
        !<JumpBufRope as crate::rope::Rope>::EDITS_USE_BYTE_OFFSETS,
{
}

} // verus!
