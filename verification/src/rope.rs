use std::ops::Range;
use vstd::prelude::*;

use crate::offsets::{
    insert_text, is_boundary, lemma_measure_bytes_is_utf8_len, lemma_offset_index_monotonic,
    lemma_offset_index_of_prefix, lemma_offset_index_sound, lemma_remove_is_replace_with_empty,
    measure, offset_index, remove_text, replace_text, valid_range,
};

verus! {

/// A text buffer that can be edited by offsets.
///
/// The offsets count bytes of the UTF-8 encoding when
/// [`EDITS_USE_BYTE_OFFSETS`](Self::EDITS_USE_BYTE_OFFSETS) is `true`, and
/// code points otherwise.
pub trait Rope: Sized {
    const NAME: &'static str;

    const EDITS_USE_BYTE_OFFSETS: bool = false;

    /// The text that the rope holds.
    spec fn text(&self) -> Seq<char>;

    fn from_str(s: &str) -> (rope: Self)
        ensures
            rope.text() == s@,
    ;

    fn insert(&mut self, at_offset: usize, text: &str)
        requires
            is_boundary(old(self).text(), at_offset as int, Self::EDITS_USE_BYTE_OFFSETS),
        ensures
            final(self).text() == insert_text(
                old(self).text(),
                at_offset as int,
                text@,
                Self::EDITS_USE_BYTE_OFFSETS,
            ),
    ;

    fn remove(&mut self, between_offsets: Range<usize>)
        requires
            valid_range(
                old(self).text(),
                between_offsets.start as int,
                between_offsets.end as int,
                Self::EDITS_USE_BYTE_OFFSETS,
            ),
        ensures
            final(self).text() == remove_text(
                old(self).text(),
                between_offsets.start as int,
                between_offsets.end as int,
                Self::EDITS_USE_BYTE_OFFSETS,
            ),
    ;

    fn replace(&mut self, between_offsets: Range<usize>, text: &str)
        requires
            valid_range(
                old(self).text(),
                between_offsets.start as int,
                between_offsets.end as int,
                Self::EDITS_USE_BYTE_OFFSETS,
            ),
        ensures
            final(self).text() == replace_text(
                old(self).text(),
                between_offsets.start as int,
                between_offsets.end as int,
                text@,
                Self::EDITS_USE_BYTE_OFFSETS,
            ),
    {
        let Range { start, end } = between_offsets;
        let ghost s = self.text();
        let ghost b = Self::EDITS_USE_BYTE_OFFSETS;
        proof {
            lemma_offset_index_sound(s, start as int, b);
            lemma_offset_index_sound(s, end as int, b);
            lemma_offset_index_monotonic(s, start as int, end as int, b);
        }
        let ghost ks = offset_index(s, start as int, b).unwrap();
        let ghost ke = offset_index(s, end as int, b).unwrap();

        if end > start {
            self.remove(start..end);
        }
        // what is left before `start` is untouched, so `start` still names it
        let ghost mid = self.text();
        assert(mid.take(ks) =~= s.take(ks));
        assert(mid.skip(ks) =~= s.skip(ke));
        proof {
            lemma_offset_index_of_prefix(mid, start as int, ks, b);
        }

        if !text.is_empty() {
            self.insert(start, text);
        }
        assert(self.text() =~= s.take(ks) + text@ + s.skip(ke));
    }

    /// The returned length is interpreted as either number of codepoints or
    /// the number of bytes depending on the value of
    /// [`EDITS_USE_BYTE_OFFSETS`](Self::EDITS_USE_BYTE_OFFSETS).
    fn len(&self) -> (n: usize)
        ensures
            n == measure(self.text(), Self::EDITS_USE_BYTE_OFFSETS),
    ;
}

/// Inserts `s` into `string` at byte offset `at` with `String::insert_str`,
/// which the standard library documents to insert the text there and to
/// panic unless `at` is a char boundary no further than the end.
#[verifier::external_body]
fn string_insert_str(string: &mut String, at: usize, s: &str)
    requires
        is_boundary(old(string)@, at as int, true),
    ensures
        final(string)@ == insert_text(old(string)@, at as int, s@, true),
{
    string.insert_str(at, s);
}

/// Replaces a byte range of `string` with `s` by `String::replace_range`,
/// which the standard library documents to do so and to panic unless both
/// ends are char boundaries in bounds (and, as for any range, in order).
#[verifier::external_body]
pub(crate) fn string_replace_range(string: &mut String, range: Range<usize>, s: &str)
    requires
        valid_range(old(string)@, range.start as int, range.end as int, true),
    ensures
        final(string)@ == replace_text(
            old(string)@,
            range.start as int,
            range.end as int,
            s@,
            true,
        ),
{
    string.replace_range(range, s);
}

/// The length in bytes of the UTF-8 encoding of `s`.
pub fn byte_len(s: &str) -> (n: usize)
    ensures
        n == measure(s@, true),
{
    proof {
        lemma_measure_bytes_is_utf8_len(s@);
    }
    s.as_bytes().len()
}

impl Rope for String {
    const NAME: &'static str = "String";

    const EDITS_USE_BYTE_OFFSETS: bool = true;

    open spec fn text(&self) -> Seq<char> {
        self@
    }

    fn from_str(s: &str) -> (rope: Self) {
        s.to_owned()
    }

    fn insert(&mut self, at: usize, s: &str) {
        string_insert_str(self, at, s);
    }

    fn remove(&mut self, range: Range<usize>) {
        let empty = "";
        proof {
            reveal_strlit("");
            lemma_remove_is_replace_with_empty(
                self@,
                range.start as int,
                range.end as int,
                empty@,
                true,
            );
        }
        string_replace_range(self, range, empty);
    }

    fn replace(&mut self, range: Range<usize>, s: &str) {
        string_replace_range(self, range, s);
    }

    fn len(&self) -> (n: usize) {
        byte_len(self.as_str())
    }
}

/// A `String` takes byte offsets.
pub proof fn lemma_string_offsets_count_bytes()
    ensures
        <String as Rope>::EDITS_USE_BYTE_OFFSETS,
{
}

} // verus!
