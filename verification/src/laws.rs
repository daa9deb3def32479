use vstd::prelude::*;

use vstd::utf8::encode_utf8;

use crate::offsets::{
    insert_text, is_boundary, lemma_chars_at_most_bytes, lemma_measure_bytes_is_utf8_len,
    lemma_measure_chars, lemma_measure_concat, lemma_offset_index_chars,
    lemma_offset_index_complete, lemma_offset_index_monotonic, lemma_offset_index_of_prefix,
    lemma_offset_index_sound, lemma_unit_width_positive, measure, offset_index, remove_text,
    replace_text, valid_range,
};
use crate::trace::{
    apply_patches, apply_txns, lemma_apply_patches_prefix, lemma_apply_txns_prefix,
    patches_in_bytes, replayed_text, txns_in_bytes, Patch, Trace, Txn,
};

verus! {

/// Inserting text at a boundary lengthens the rope by the length of that
/// text, in the rope's own units.
pub proof fn law_insert_len(s: Seq<char>, at: int, t: Seq<char>, bytes: bool)
    requires
        is_boundary(s, at, bytes),
    ensures
        measure(insert_text(s, at, t, bytes), bytes) == measure(s, bytes) + measure(t, bytes),
{
    lemma_offset_index_sound(s, at, bytes);
    let k = offset_index(s, at, bytes).unwrap();
    assert(s =~= s.take(k) + s.skip(k));
    lemma_measure_concat(s.take(k), s.skip(k), bytes);
    lemma_measure_concat(s.take(k), t, bytes);
    lemma_measure_concat(s.take(k) + t, s.skip(k), bytes);
}

/// Removing a valid range shortens the rope by the width of the range.
pub proof fn law_remove_len(s: Seq<char>, start: int, end: int, bytes: bool)
    requires
        valid_range(s, start, end, bytes),
    ensures
        measure(remove_text(s, start, end, bytes), bytes) == measure(s, bytes) - (end - start),
{
    lemma_offset_index_sound(s, start, bytes);
    lemma_offset_index_sound(s, end, bytes);
    lemma_offset_index_monotonic(s, start, end, bytes);
    let ks = offset_index(s, start, bytes).unwrap();
    let ke = offset_index(s, end, bytes).unwrap();
    let mid = s.subrange(ks, ke);
    assert(s.take(ke) =~= s.take(ks) + mid);
    assert(s =~= s.take(ke) + s.skip(ke));
    lemma_measure_concat(s.take(ks), mid, bytes);
    lemma_measure_concat(s.take(ke), s.skip(ke), bytes);
    lemma_measure_concat(s.take(ks), s.skip(ke), bytes);
}

/// Replacing a valid range changes the length by the length of the new
/// text less the width of the range.
pub proof fn law_replace_len(s: Seq<char>, start: int, end: int, t: Seq<char>, bytes: bool)
    requires
        valid_range(s, start, end, bytes),
    ensures
        measure(replace_text(s, start, end, t, bytes), bytes) == measure(s, bytes) - (end - start)
            + measure(t, bytes),
{
    law_remove_len(s, start, end, bytes);
    let ks = offset_index(s, start, bytes).unwrap();
    let ke = offset_index(s, end, bytes).unwrap();
    lemma_measure_concat(s.take(ks), s.skip(ke), bytes);
    lemma_measure_concat(s.take(ks), t, bytes);
    lemma_measure_concat(s.take(ks) + t, s.skip(ke), bytes);
}

/// Replacing a valid range is removing it and then inserting the new text
/// where it began: the start of the range is still a boundary after the
/// removal, and both ways give the same text.
pub proof fn law_replace_is_remove_then_insert(
    s: Seq<char>,
    start: int,
    end: int,
    t: Seq<char>,
    bytes: bool,
)
    requires
        valid_range(s, start, end, bytes),
    ensures
        is_boundary(remove_text(s, start, end, bytes), start, bytes),
        replace_text(s, start, end, t, bytes) == insert_text(
            remove_text(s, start, end, bytes),
            start,
            t,
            bytes,
        ),
{
    lemma_offset_index_sound(s, start, bytes);
    lemma_offset_index_sound(s, end, bytes);
    lemma_offset_index_monotonic(s, start, end, bytes);
    let ks = offset_index(s, start, bytes).unwrap();
    let ke = offset_index(s, end, bytes).unwrap();
    let mid = remove_text(s, start, end, bytes);
    assert(mid.take(ks) =~= s.take(ks));
    assert(mid.skip(ks) =~= s.skip(ke));
    lemma_offset_index_of_prefix(mid, start, ks, bytes);
    assert(insert_text(mid, start, t, bytes) =~= s.take(ks) + t + s.skip(ke));
}

/// Removing the range that an insertion just filled gives back the text
/// from before the insertion.
pub proof fn law_insert_then_remove_restores(s: Seq<char>, at: int, t: Seq<char>, bytes: bool)
    requires
        is_boundary(s, at, bytes),
    ensures
        valid_range(insert_text(s, at, t, bytes), at, at + measure(t, bytes), bytes),
        remove_text(insert_text(s, at, t, bytes), at, at + measure(t, bytes), bytes) == s,
{
    lemma_offset_index_sound(s, at, bytes);
    let k = offset_index(s, at, bytes).unwrap();
    let n = insert_text(s, at, t, bytes);
    assert(n.take(k) =~= s.take(k));
    lemma_offset_index_of_prefix(n, at, k, bytes);
    assert(n.take(k + t.len()) =~= s.take(k) + t);
    lemma_measure_concat(s.take(k), t, bytes);
    lemma_offset_index_of_prefix(n, at + measure(t, bytes), k + t.len(), bytes);
    assert(n.skip(k + t.len()) =~= s.skip(k));
    assert(remove_text(n, at, at + measure(t, bytes), bytes) =~= s);
}

/// Inserting what a removal took, where it was taken from, gives back the
/// text from before the removal; the removed text is as wide as the range.
pub proof fn law_remove_then_insert_restores(s: Seq<char>, start: int, end: int, bytes: bool)
    requires
        valid_range(s, start, end, bytes),
    ensures
        ({
            let removed = s.subrange(
                offset_index(s, start, bytes).unwrap(),
                offset_index(s, end, bytes).unwrap(),
            );
            &&& measure(removed, bytes) == end - start
            &&& is_boundary(remove_text(s, start, end, bytes), start, bytes)
            &&& insert_text(remove_text(s, start, end, bytes), start, removed, bytes) == s
        }),
{
    lemma_offset_index_sound(s, start, bytes);
    lemma_offset_index_sound(s, end, bytes);
    lemma_offset_index_monotonic(s, start, end, bytes);
    law_replace_is_remove_then_insert(s, start, end, s.subrange(
        offset_index(s, start, bytes).unwrap(),
        offset_index(s, end, bytes).unwrap(),
    ), bytes);
    let ks = offset_index(s, start, bytes).unwrap();
    let ke = offset_index(s, end, bytes).unwrap();
    let removed = s.subrange(ks, ke);
    assert(s.take(ke) =~= s.take(ks) + removed);
    lemma_measure_concat(s.take(ks), removed, bytes);
    assert(s.take(ks) + removed + s.skip(ke) =~= s);
}

/// A char range and the byte range that spans the same chars make the same
/// edit: converting a patch's offsets from code points to bytes keeps its
/// effect.
pub proof fn law_char_and_byte_offsets_agree(s: Seq<char>, k1: int, k2: int, t: Seq<char>)
    requires
        0 <= k1 <= k2 <= s.len(),
    ensures
        valid_range(s, k1, k2, false),
        valid_range(s, measure(s.take(k1), true) as int, measure(s.take(k2), true) as int, true),
        replace_text(s, k1, k2, t, false) == replace_text(
            s,
            measure(s.take(k1), true) as int,
            measure(s.take(k2), true) as int,
            t,
            true,
        ),
{
    lemma_offset_index_chars(s, k1);
    lemma_offset_index_chars(s, k2);
    lemma_offset_index_complete(s, k1, true);
    lemma_offset_index_complete(s, k2, true);
    assert(s.take(k2) =~= s.take(k1) + s.subrange(k1, k2));
    lemma_measure_concat(s.take(k1), s.subrange(k1, k2), true);
}

/// Patches by chars and the same patches by bytes lead to the same text,
/// whenever the byte patches apply (they can only be refused for a text
/// whose byte length a `usize` cannot hold).
pub proof fn law_patches_by_chars_and_bytes_agree(s: Seq<char>, ps: Seq<Patch>, qs: Seq<Patch>)
    requires
        apply_patches(s, ps, false) is Some,
        patches_in_bytes(s, ps, qs),
    ensures
        apply_patches(s, qs, true) is Some ==> apply_patches(s, qs, true) == apply_patches(
            s,
            ps,
            false,
        ),
    decreases ps.len(),
{
    if ps.len() > 0 && apply_patches(s, qs, true) is Some {
        let n = ps.len() - 1;
        assert(qs.take(n) =~= qs.drop_last());
        lemma_apply_patches_prefix(s, qs, n, true);
        law_patches_by_chars_and_bytes_agree(s, ps.drop_last(), qs.drop_last());
        let t = apply_patches(s, ps.drop_last(), false).unwrap();
        let p = ps.last();
        lemma_offset_index_chars(t, p.pos as int);
        lemma_offset_index_chars(t, p.pos + p.del);
        law_char_and_byte_offsets_agree(t, p.pos as int, p.pos + p.del, p.ins@);
    }
}

/// Transactions by chars and the same transactions by bytes lead to the
/// same text, whenever the byte patches apply.
pub proof fn law_txns_by_chars_and_bytes_agree(s: Seq<char>, ts: Seq<Txn>, us: Seq<Txn>)
    requires
        apply_txns(s, ts, false) is Some,
        txns_in_bytes(s, ts, us),
    ensures
        apply_txns(s, us, true) is Some ==> apply_txns(s, us, true) == apply_txns(s, ts, false),
    decreases ts.len(),
{
    if ts.len() > 0 && apply_txns(s, us, true) is Some {
        let n = ts.len() - 1;
        assert(us.take(n) =~= us.drop_last());
        lemma_apply_txns_prefix(s, us, n, true);
        law_txns_by_chars_and_bytes_agree(s, ts.drop_last(), us.drop_last());
        let t = apply_txns(s, ts.drop_last(), false).unwrap();
        law_patches_by_chars_and_bytes_agree(t, ts.last().patches@, us.last().patches@);
    }
}

/// Replaying a trace whose offsets count chars, and replaying the same trace
/// with its offsets counted in bytes, end with the same text: a rope by
/// bytes and a rope by chars agree on a converted trace.
pub proof fn law_traces_by_chars_and_bytes_agree(by_chars: Trace, by_bytes: Trace)
    requires
        by_bytes.start_content@ == by_chars.start_content@,
        txns_in_bytes(by_chars.start_content@, by_chars.txns@, by_bytes.txns@),
        replayed_text(&by_chars, false) is Some,
    ensures
        replayed_text(&by_bytes, true) is Some ==> replayed_text(&by_bytes, true) == replayed_text(
            &by_chars,
            false,
        ),
{
    law_txns_by_chars_and_bytes_agree(by_chars.start_content@, by_chars.txns@, by_bytes.txns@);
}

/// An insertion at offset `at` puts the inserted chars right after the
/// chars that lie before `at`, keeps those chars, and moves the rest after
/// the inserted ones; `at` is where those first chars end.
pub proof fn law_insert_places_text(s: Seq<char>, at: int, t: Seq<char>, bytes: bool)
    requires
        is_boundary(s, at, bytes),
    ensures
        ({
            let k = offset_index(s, at, bytes).unwrap();
            let n = insert_text(s, at, t, bytes);
            &&& 0 <= k <= s.len()
            &&& measure(s.take(k), bytes) == at
            &&& n.len() == s.len() + t.len()
            &&& forall|i: int| 0 <= i < k ==> #[trigger] n[i] == s[i]
            &&& forall|i: int| 0 <= i < t.len() ==> #[trigger] n[k + i] == t[i]
            &&& forall|i: int| k <= i < s.len() ==> #[trigger] n[i + t.len()] == s[i]
        }),
{
    lemma_offset_index_sound(s, at, bytes);
}

/// Inserting `t1` at `at` and then `t2` right after it is inserting `t1`
/// followed by `t2` at `at`.
pub proof fn law_inserts_concatenate(s: Seq<char>, at: int, t1: Seq<char>, t2: Seq<char>, bytes: bool)
    requires
        is_boundary(s, at, bytes),
    ensures
        is_boundary(insert_text(s, at, t1, bytes), at + measure(t1, bytes), bytes),
        insert_text(insert_text(s, at, t1, bytes), at + measure(t1, bytes), t2, bytes)
            == insert_text(s, at, t1 + t2, bytes),
{
    lemma_offset_index_sound(s, at, bytes);
    let k = offset_index(s, at, bytes).unwrap();
    let n = insert_text(s, at, t1, bytes);
    assert(n.take(k + t1.len()) =~= s.take(k) + t1);
    lemma_measure_concat(s.take(k), t1, bytes);
    lemma_offset_index_of_prefix(n, at + measure(t1, bytes), k + t1.len(), bytes);
    assert(n.skip(k + t1.len()) =~= s.skip(k));
    assert(insert_text(n, at + measure(t1, bytes), t2, bytes) =~= s.take(k) + (t1 + t2) + s.skip(
        k,
    ));
}

/// Inserting at offset zero puts the text in front, and inserting at the
/// length of the text puts it at the back.
pub proof fn law_insert_at_ends(s: Seq<char>, t: Seq<char>, bytes: bool)
    ensures
        is_boundary(s, 0, bytes),
        insert_text(s, 0, t, bytes) == t + s,
        is_boundary(s, measure(s, bytes) as int, bytes),
        insert_text(s, measure(s, bytes) as int, t, bytes) == s + t,
{
    assert(s.take(0) + t + s.skip(0) =~= t + s);
    assert(s.take(s.len() as int) =~= s);
    lemma_offset_index_of_prefix(s, measure(s, bytes) as int, s.len() as int, bytes);
    assert(s.take(s.len() as int) + t + s.skip(s.len() as int) =~= s + t);
}

/// A removal keeps the chars before `start` and after `end`, and closes the
/// gap; `start` and `end` are where the kept chars end and resume.
pub proof fn law_remove_keeps_text_outside_range(s: Seq<char>, start: int, end: int, bytes: bool)
    requires
        valid_range(s, start, end, bytes),
    ensures
        ({
            let ks = offset_index(s, start, bytes).unwrap();
            let ke = offset_index(s, end, bytes).unwrap();
            let n = remove_text(s, start, end, bytes);
            &&& 0 <= ks <= ke <= s.len()
            &&& measure(s.take(ks), bytes) == start
            &&& measure(s.take(ke), bytes) == end
            &&& n.len() == s.len() - (ke - ks)
            &&& forall|i: int| 0 <= i < ks ==> #[trigger] n[i] == s[i]
            &&& forall|i: int| ke <= i < s.len() ==> #[trigger] n[i - (ke - ks)] == s[i]
        }),
{
    lemma_offset_index_sound(s, start, bytes);
    lemma_offset_index_sound(s, end, bytes);
    lemma_offset_index_monotonic(s, start, end, bytes);
}

/// A replacement keeps the chars before `start` and after `end`, and puts
/// exactly the new text between them: removing what it inserted leaves the
/// removal of the range.
pub proof fn law_replace_places_text(s: Seq<char>, start: int, end: int, t: Seq<char>, bytes: bool)
    requires
        valid_range(s, start, end, bytes),
    ensures
        ({
            let ks = offset_index(s, start, bytes).unwrap();
            let ke = offset_index(s, end, bytes).unwrap();
            let n = replace_text(s, start, end, t, bytes);
            &&& n.len() == s.len() - (ke - ks) + t.len()
            &&& forall|i: int| 0 <= i < ks ==> #[trigger] n[i] == s[i]
            &&& forall|i: int| 0 <= i < t.len() ==> #[trigger] n[ks + i] == t[i]
            &&& forall|i: int| ke <= i < s.len() ==> #[trigger] n[i - (ke - ks) + t.len()] == s[i]
            &&& valid_range(n, start, start + measure(t, bytes), bytes)
            &&& remove_text(n, start, start + measure(t, bytes), bytes) == remove_text(
                s,
                start,
                end,
                bytes,
            )
        }),
{
    law_replace_is_remove_then_insert(s, start, end, t, bytes);
    let r = remove_text(s, start, end, bytes);
    law_insert_then_remove_restores(r, start, t, bytes);
    lemma_offset_index_sound(s, start, bytes);
    lemma_offset_index_sound(s, end, bytes);
    lemma_offset_index_monotonic(s, start, end, bytes);
}

/// A length counts every char: the length of two texts put together is the
/// sum of their lengths, and one char counts 1 code point, or 1 to 4 bytes
/// (its UTF-8 width); so the length in code points is the number of chars,
/// line breaks and all.
pub proof fn law_len_counts_every_char(a: Seq<char>, b: Seq<char>, c: Seq<char>, bytes: bool)
    ensures
        measure(a + b, bytes) == measure(a, bytes) + measure(b, bytes),
        c.len() == 1 ==> measure(c, false) == 1,
        c.len() == 1 ==> 1 <= measure(c, true) <= 4,
        measure(a, false) == a.len(),
        measure(a, true) == encode_utf8(a).len(),
        a.len() <= measure(a, true),
{
    lemma_measure_concat(a, b, bytes);
    lemma_measure_chars(a);
    lemma_measure_bytes_is_utf8_len(a);
    if c.len() == 1 {
        lemma_unit_width_positive(c[0], true);
        assert(c.drop_first() =~= Seq::<char>::empty());
        assert(measure(c.drop_first(), true) == 0);
        assert(measure(c.drop_first(), false) == 0);
    }
    lemma_chars_at_most_bytes(a);
}

} // verus!
