use std::ops::Range;
use crop::Rope as CropRope;
use vstd::prelude::*;

use crate::offsets::{
    insert_text, is_boundary, measure, remove_text, replace_text, valid_range,
};


verus! {

#[verifier::external_type_specification]
#[verifier::external_body]
pub struct ExCropRope(CropRope);

/// The text that a `crop::Rope` holds.
pub uninterp spec fn crop_text(rope: CropRope) -> Seq<char>;

/// Builds a `crop::Rope` by `From<&str>`, which copies the string into the
/// rope's chunks, so the rope holds exactly that text.
#[verifier::external_body]
fn crop_from(s: &str) -> (rope: CropRope)
    ensures
        crop_text(rope) == s@,
{
    CropRope::from(s)
}

/// `crop::Rope::insert`: puts `s` at byte offset `at`; crop documents a panic
/// unless `at` is a code point boundary no further than `byte_len()`.
#[verifier::external_body]
fn crop_insert(rope: &mut CropRope, at: usize, s: &str)
    requires
        is_boundary(crop_text(*old(rope)), at as int, true),
    ensures
        crop_text(*final(rope)) == insert_text(crop_text(*old(rope)), at as int, s@, true),
{
    rope.insert(at, s);
}

/// `crop::Rope::delete`: removes a byte range; crop documents a panic unless
/// both ends are code point boundaries, in order, and in bounds.
#[verifier::external_body]
fn crop_delete(rope: &mut CropRope, range: Range<usize>)
    requires
        valid_range(crop_text(*old(rope)), range.start as int, range.end as int, true),
    ensures
        crop_text(*final(rope)) == remove_text(
            crop_text(*old(rope)),
            range.start as int,
            range.end as int,
            true,
        ),
{
    rope.delete(range);
}

/// `crop::Rope::replace`: replaces a byte range with `s`, with the same
/// panics as `delete`.
#[verifier::external_body]
fn crop_replace(rope: &mut CropRope, range: Range<usize>, s: &str)
    requires
        valid_range(crop_text(*old(rope)), range.start as int, range.end as int, true),
    ensures
        crop_text(*final(rope)) == replace_text(
            crop_text(*old(rope)),
            range.start as int,
            range.end as int,
            s@,
            true,
        ),
{
    rope.replace(range, s);
}

/// `crop::Rope::byte_len`: the length of the rope's text in UTF-8 bytes.
#[verifier::external_body]
fn crop_byte_len(rope: &CropRope) -> (n: usize)
    ensures
        n == measure(crop_text(*rope), true),
{
    rope.byte_len()
}

impl crate::rope::Rope for CropRope {
    const NAME: &'static str = "crop";

    const EDITS_USE_BYTE_OFFSETS: bool = true;

    open spec fn text(&self) -> Seq<char> {
        crop_text(*self)
    }

    fn from_str(s: &str) -> (rope: Self) {
        crop_from(s)
    }

    fn insert(&mut self, at: usize, s: &str) {
        crop_insert(self, at, s);
    }

    fn remove(&mut self, range: Range<usize>) {
        crop_delete(self, range);
    }

    fn replace(&mut self, range: Range<usize>, s: &str) {
        crop_replace(self, range, s);
    }

    fn len(&self) -> (n: usize) {
        crop_byte_len(self)
    }
}

/// A `crop::Rope` takes byte offsets.
pub proof fn lemma_crop_offsets_count_bytes()
    ensures
        <CropRope as crate::rope::Rope>::EDITS_USE_BYTE_OFFSETS,
{
}

} // verus!
