use vstd::prelude::*;
use vstd::utf8::encode_scalar;
use vstd::utf8::encode_utf8;
use vstd::utf8::encode_utf8_first_scalar;
use vstd::utf8::encode_utf8_valid_utf8;
use vstd::utf8::is_char_boundary;
use vstd::utf8::pop_first_scalar;

verus! {

/// How many offset units one `char` takes: its UTF-8 width when offsets
/// count bytes, and one when they count code points.
pub open spec fn unit_width(c: char, bytes: bool) -> nat {
    if bytes {
        encode_scalar(c as u32).len()
    } else {
        1
    }
}

/// The length of a text in offset units (bytes or code points).
pub open spec fn measure(s: Seq<char>, bytes: bool) -> nat
    decreases s.len(),
{
    if s.len() == 0 {
        0
    } else {
        unit_width(s[0], bytes) + measure(s.drop_first(), bytes)
    }
}

/// The number of chars that precede `offset` in `s`, when `offset` falls on a
/// char boundary no further than the end of `s`; `None` otherwise.
pub open spec fn offset_index(s: Seq<char>, offset: int, bytes: bool) -> Option<int>
    decreases s.len(),
{
    if offset == 0 {
        Some(0)
    } else if offset < 0 || s.len() == 0 {
        None
    } else {
        match offset_index(s.drop_first(), offset - unit_width(s[0], bytes), bytes) {
            Some(k) => Some(k + 1),
            None => None,
        }
    }
}

/// `offset` lies on a char boundary of `s` and not past its end.
pub open spec fn is_boundary(s: Seq<char>, offset: int, bytes: bool) -> bool {
    offset_index(s, offset, bytes) is Some
}

/// `start..end` is a range that a rope holding `s` accepts.
pub open spec fn valid_range(s: Seq<char>, start: int, end: int, bytes: bool) -> bool {
    &&& start <= end
    &&& is_boundary(s, start, bytes)
    &&& is_boundary(s, end, bytes)
}

/// `s` with `start..end` replaced by `t`.
pub open spec fn replace_text(s: Seq<char>, start: int, end: int, t: Seq<char>, bytes: bool) -> Seq<char> {
    let ks = offset_index(s, start, bytes).unwrap();
    let ke = offset_index(s, end, bytes).unwrap();
    s.take(ks) + t + s.skip(ke)
}

/// `s` with `t` inserted at `at`.
pub open spec fn insert_text(s: Seq<char>, at: int, t: Seq<char>, bytes: bool) -> Seq<char> {
    let k = offset_index(s, at, bytes).unwrap();
    s.take(k) + t + s.skip(k)
}

/// `s` without the range `start..end`.
pub open spec fn remove_text(s: Seq<char>, start: int, end: int, bytes: bool) -> Seq<char> {
    let ks = offset_index(s, start, bytes).unwrap();
    let ke = offset_index(s, end, bytes).unwrap();
    s.take(ks) + s.skip(ke)
}

/// Every char takes at least one unit.
pub proof fn lemma_unit_width_positive(c: char, bytes: bool)
    ensures
        1 <= unit_width(c, bytes) <= 4,
{
}

/// The UTF-8 length of a text is the byte measure of it.
pub proof fn lemma_measure_bytes_is_utf8_len(s: Seq<char>)
    ensures
        measure(s, true) == encode_utf8(s).len(),
    decreases s.len(),
{
    if s.len() > 0 {
        lemma_measure_bytes_is_utf8_len(s.drop_first());
    }
}

/// Counting code points, the measure of a text is its length.
pub proof fn lemma_measure_chars(s: Seq<char>)
    ensures
        measure(s, false) == s.len(),
    decreases s.len(),
{
    if s.len() > 0 {
        lemma_measure_chars(s.drop_first());
    }
}

/// The measure of a concatenation is the sum of the measures.
pub proof fn lemma_measure_concat(a: Seq<char>, b: Seq<char>, bytes: bool)
    ensures
        measure(a + b, bytes) == measure(a, bytes) + measure(b, bytes),
    decreases a.len(),
{
    if a.len() == 0 {
        assert(a + b =~= b);
    } else {
        assert((a + b).drop_first() =~= a.drop_first() + b);
        lemma_measure_concat(a.drop_first(), b, bytes);
    }
}

/// The index an offset names has exactly that offset before it.
pub proof fn lemma_offset_index_sound(s: Seq<char>, offset: int, bytes: bool)
    requires
        offset_index(s, offset, bytes) is Some,
    ensures
        0 <= offset_index(s, offset, bytes).unwrap() <= s.len(),
        measure(s.take(offset_index(s, offset, bytes).unwrap()), bytes) == offset,
    decreases s.len(),
{
    if offset == 0 {
        assert(s.take(0) =~= Seq::<char>::empty());
    } else {
        let w = unit_width(s[0], bytes);
        let t = s.drop_first();
        lemma_offset_index_sound(t, offset - w, bytes);
        let k = offset_index(t, offset - w, bytes).unwrap();
        assert(s.take(k + 1).drop_first() =~= t.take(k));
    }
}

/// Every prefix of a text ends at an offset that names it.
pub proof fn lemma_offset_index_complete(s: Seq<char>, k: int, bytes: bool)
    requires
        0 <= k <= s.len(),
    ensures
        offset_index(s, measure(s.take(k), bytes) as int, bytes) == Some(k),
    decreases s.len(),
{
    if k == 0 {
        assert(s.take(0) =~= Seq::<char>::empty());
    } else {
        let t = s.drop_first();
        assert(s.take(k).drop_first() =~= t.take(k - 1));
        lemma_unit_width_positive(s[0], bytes);
        lemma_offset_index_complete(t, k - 1, bytes);
    }
}

/// Offsets are in one-to-one correspondence with prefixes.
pub proof fn lemma_offset_index_of_prefix(s: Seq<char>, offset: int, k: int, bytes: bool)
    requires
        0 <= k <= s.len(),
        measure(s.take(k), bytes) == offset,
    ensures
        offset_index(s, offset, bytes) == Some(k),
{
    lemma_offset_index_complete(s, k, bytes);
}

/// Counting code points, an offset is a boundary exactly when it is no
/// further than the end, and it names its own index.
pub proof fn lemma_offset_index_chars(s: Seq<char>, offset: int)
    ensures
        offset_index(s, offset, false) == (if 0 <= offset <= s.len() {
            Some(offset)
        } else {
            None::<int>
        }),
    decreases s.len(),
{
    if offset != 0 && offset >= 0 && s.len() > 0 {
        lemma_offset_index_chars(s.drop_first(), offset - 1);
    }
}

/// A boundary offset never exceeds the measure of the text.
pub proof fn lemma_boundary_bounded(s: Seq<char>, offset: int, bytes: bool)
    requires
        is_boundary(s, offset, bytes),
    ensures
        0 <= offset <= measure(s, bytes),
{
    lemma_offset_index_sound(s, offset, bytes);
    let k = offset_index(s, offset, bytes).unwrap();
    assert(s =~= s.take(k) + s.skip(k));
    lemma_measure_concat(s.take(k), s.skip(k), bytes);
}

/// Two boundaries in order name indices in order.
pub proof fn lemma_offset_index_monotonic(s: Seq<char>, a: int, b: int, bytes: bool)
    requires
        is_boundary(s, a, bytes),
        is_boundary(s, b, bytes),
        a <= b,
    ensures
        offset_index(s, a, bytes).unwrap() <= offset_index(s, b, bytes).unwrap(),
{
    lemma_offset_index_sound(s, a, bytes);
    lemma_offset_index_sound(s, b, bytes);
    let ka = offset_index(s, a, bytes).unwrap();
    let kb = offset_index(s, b, bytes).unwrap();
    if kb < ka {
        // the prefix up to ka extends the one up to kb by at least one char
        let p = s.take(kb);
        let q = s.subrange(kb, ka);
        assert(s.take(ka) =~= p + q);
        lemma_measure_concat(p, q, bytes);
        lemma_unit_width_positive(q[0], bytes);
        assert(measure(q, bytes) >= 1);
    }
}

/// Replacing a range with nothing removes it.
pub proof fn lemma_remove_is_replace_with_empty(
    s: Seq<char>,
    start: int,
    end: int,
    t: Seq<char>,
    bytes: bool,
)
    requires
        t.len() == 0,
    ensures
        replace_text(s, start, end, t, bytes) == remove_text(s, start, end, bytes),
{
    let ks = offset_index(s, start, bytes).unwrap();
    let ke = offset_index(s, end, bytes).unwrap();
    assert(s.take(ks) + t + s.skip(ke) =~= s.take(ks) + s.skip(ke));
}

/// Replacing the empty range at a boundary inserts there.
pub proof fn lemma_insert_is_replace_of_empty_range(
    s: Seq<char>,
    at: int,
    t: Seq<char>,
    bytes: bool,
)
    requires
        is_boundary(s, at, bytes),
    ensures
        valid_range(s, at, at, bytes),
        replace_text(s, at, at, t, bytes) == insert_text(s, at, t, bytes),
{
}

/// A byte offset is a boundary of a text exactly when it is a char boundary
/// of the text's UTF-8 encoding.
pub proof fn lemma_is_char_boundary_iff(s: Seq<char>, i: int)
    ensures
        is_char_boundary(encode_utf8(s), i) <==> is_boundary(s, i, true),
    decreases s.len(),
{
    let bytes = encode_utf8(s);
    encode_utf8_valid_utf8(s);
    lemma_measure_bytes_is_utf8_len(s);
    if i == 0 {
    } else if i < 0 || bytes.len() < i {
        if is_boundary(s, i, true) {
            lemma_boundary_bounded(s, i, true);
        }
    } else {
        encode_utf8_first_scalar(s);
        assert(pop_first_scalar(bytes) =~= encode_utf8(s.drop_first()));
        lemma_is_char_boundary_iff(s.drop_first(), i - unit_width(s[0], true));
    }
}

/// A text has no more chars than bytes.
pub proof fn lemma_chars_at_most_bytes(s: Seq<char>)
    ensures
        s.len() <= measure(s, true),
    decreases s.len(),
{
    if s.len() > 0 {
        lemma_unit_width_positive(s[0], true);
        lemma_chars_at_most_bytes(s.drop_first());
    }
}

} // verus!
