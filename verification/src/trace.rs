use vstd::prelude::*;

use crate::laws::law_replace_len;
use crate::offsets::{
    lemma_boundary_bounded, lemma_is_char_boundary_iff, lemma_measure_chars,
    lemma_offset_index_chars, measure, replace_text, valid_range,
};
use crate::rope::{byte_len, string_replace_range, Rope};

verus! {

/// One edit of a trace: at offset `pos`, `del` units give way to `ins`.
pub struct Patch {
    pub pos: usize,
    pub del: usize,
    pub ins: String,
}

/// A group of edits made together.
pub struct Txn {
    pub patches: Vec<Patch>,
}

/// A recorded editing session: the text it starts from, its edits in order,
/// and the text it ends with.
pub struct Trace {
    pub start_content: String,
    pub end_content: String,
    pub txns: Vec<Txn>,
}

/// The text after one patch, or `None` when a rope would refuse it: when the
/// end of its range overflows, when the range is not valid, or when the
/// result is longer than a rope's `len` can tell.
pub open spec fn apply_patch(s: Seq<char>, p: Patch, bytes: bool) -> Option<Seq<char>> {
    let end = p.pos + p.del;
    let t = replace_text(s, p.pos as int, end, p.ins@, bytes);
    if end <= usize::MAX && valid_range(s, p.pos as int, end, bytes) && measure(t, bytes)
        <= usize::MAX {
        Some(t)
    } else {
        None
    }
}

/// The text after the patches in order, or `None` when one is refused.
pub open spec fn apply_patches(s: Seq<char>, ps: Seq<Patch>, bytes: bool) -> Option<Seq<char>>
    decreases ps.len(),
{
    if ps.len() == 0 {
        Some(s)
    } else {
        match apply_patches(s, ps.drop_last(), bytes) {
            Some(t) => apply_patch(t, ps.last(), bytes),
            None => None,
        }
    }
}

/// The text after the transactions in order, or `None` when a patch is
/// refused.
pub open spec fn apply_txns(s: Seq<char>, ts: Seq<Txn>, bytes: bool) -> Option<Seq<char>>
    decreases ts.len(),
{
    if ts.len() == 0 {
        Some(s)
    } else {
        match apply_txns(s, ts.drop_last(), bytes) {
            Some(t) => apply_patches(t, ts.last().patches@, bytes),
            None => None,
        }
    }
}

/// The text that replaying `trace` yields, counting offsets in bytes or in
/// code points.
pub open spec fn replayed_text(trace: &Trace, bytes: bool) -> Option<Seq<char>> {
    apply_txns(trace.start_content@, trace.txns@, bytes)
}

/// `q` is the patch `p`, whose offsets count the chars of `s`, with its
/// offsets counted in bytes of `s` instead.
pub open spec fn patch_in_bytes(s: Seq<char>, p: Patch, q: Patch) -> bool {
    &&& q.ins@ == p.ins@
    &&& q.pos == measure(s.take(p.pos as int), true)
    &&& q.pos + q.del == measure(s.take(p.pos + p.del), true)
}

/// `qs` are the patches `ps`, applied in order from `s` by chars, each with
/// its offsets counted in bytes of the text it applies to.
pub open spec fn patches_in_bytes(s: Seq<char>, ps: Seq<Patch>, qs: Seq<Patch>) -> bool
    decreases ps.len(),
{
    &&& ps.len() == qs.len()
    &&& ps.len() > 0 ==> {
        &&& patches_in_bytes(s, ps.drop_last(), qs.drop_last())
        &&& match apply_patches(s, ps.drop_last(), false) {
            Some(t) => patch_in_bytes(t, ps.last(), qs.last()),
            None => true,
        }
    }
}

/// `us` are the transactions `ts`, applied in order from `s` by chars, with
/// every patch's offsets counted in bytes.
pub open spec fn txns_in_bytes(s: Seq<char>, ts: Seq<Txn>, us: Seq<Txn>) -> bool
    decreases ts.len(),
{
    &&& ts.len() == us.len()
    &&& ts.len() > 0 ==> {
        &&& txns_in_bytes(s, ts.drop_last(), us.drop_last())
        &&& match apply_txns(s, ts.drop_last(), false) {
            Some(t) => patches_in_bytes(t, ts.last().patches@, us.last().patches@),
            None => true,
        }
    }
}

/// When all the patches apply, so do those of each prefix.
pub proof fn lemma_apply_patches_prefix(s: Seq<char>, ps: Seq<Patch>, k: int, bytes: bool)
    requires
        apply_patches(s, ps, bytes) is Some,
        0 <= k <= ps.len(),
    ensures
        apply_patches(s, ps.take(k), bytes) is Some,
    decreases ps.len(),
{
    if k == ps.len() {
        assert(ps.take(k) =~= ps);
    } else {
        assert(ps.drop_last().take(k) =~= ps.take(k));
        lemma_apply_patches_prefix(s, ps.drop_last(), k, bytes);
    }
}

/// When all the transactions apply, so do those of each prefix.
pub proof fn lemma_apply_txns_prefix(s: Seq<char>, ts: Seq<Txn>, k: int, bytes: bool)
    requires
        apply_txns(s, ts, bytes) is Some,
        0 <= k <= ts.len(),
    ensures
        apply_txns(s, ts.take(k), bytes) is Some,
    decreases ts.len(),
{
    if k == ts.len() {
        assert(ts.take(k) =~= ts);
    } else {
        assert(ts.drop_last().take(k) =~= ts.take(k));
        lemma_apply_txns_prefix(s, ts.drop_last(), k, bytes);
    }
}

/// Builds a rope from the trace's start content and applies every patch of
/// every transaction in order, each as a `replace` of `pos..pos + del` by
/// `ins`.
pub fn replay<R: Rope>(trace: &Trace) -> (rope: R)
    requires
        replayed_text(trace, R::EDITS_USE_BYTE_OFFSETS) is Some,
    ensures
        Some(rope.text()) == replayed_text(trace, R::EDITS_USE_BYTE_OFFSETS),
{
    let ghost b = R::EDITS_USE_BYTE_OFFSETS;
    let ghost s0 = trace.start_content@;
    let ghost txns = trace.txns@;
    let mut rope = R::from_str(trace.start_content.as_str());
    assert(txns.take(0) =~= Seq::<Txn>::empty());
    let mut i: usize = 0;
    while i < trace.txns.len()
        invariant
            i <= txns.len(),
            txns == trace.txns@,
            s0 == trace.start_content@,
            b == R::EDITS_USE_BYTE_OFFSETS,
            apply_txns(s0, txns, b) is Some,
            apply_txns(s0, txns.take(i as int), b) == Some(rope.text()),
        decreases txns.len() - i,
    {
        let txn = &trace.txns[i];
        let ghost ps = txn.patches@;
        let ghost t0 = rope.text();
        proof {
            lemma_apply_txns_prefix(s0, txns, i + 1, b);
            assert(txns.take(i + 1).drop_last() =~= txns.take(i as int));
            assert(txns.take(i + 1).last() == txns[i as int]);
        }
        assert(ps.take(0) =~= Seq::<Patch>::empty());
        let mut j: usize = 0;
        while j < txn.patches.len()
            invariant
                j <= ps.len(),
                ps == txn.patches@,
                b == R::EDITS_USE_BYTE_OFFSETS,
                apply_patches(t0, ps, b) is Some,
                apply_patches(t0, ps.take(j as int), b) == Some(rope.text()),
            decreases ps.len() - j,
        {
            let patch = &txn.patches[j];
            proof {
                lemma_apply_patches_prefix(t0, ps, j + 1, b);
                assert(ps.take(j + 1).drop_last() =~= ps.take(j as int));
                assert(ps.take(j + 1).last() == ps[j as int]);
            }
            rope.replace(patch.pos..patch.pos + patch.del, patch.ins.as_str());
            j += 1;
        }
        assert(ps.take(ps.len() as int) =~= ps);
        i += 1;
    }
    assert(txns.take(txns.len() as int) =~= txns);
    rope
}

/// Replays `trace` and tells whether the rope ends as long as the trace's
/// end content, both lengths counted in the rope's own offset units.
pub fn replay_len_matches<R: Rope>(trace: &Trace) -> (ok: bool)
    requires
        replayed_text(trace, R::EDITS_USE_BYTE_OFFSETS) is Some,
    ensures
        ok == (measure(
            replayed_text(trace, R::EDITS_USE_BYTE_OFFSETS).unwrap(),
            R::EDITS_USE_BYTE_OFFSETS,
        ) == measure(trace.end_content@, R::EDITS_USE_BYTE_OFFSETS)),
{
    let rope: R = replay(trace);
    rope.len() == units_len(trace.end_content.as_str(), R::EDITS_USE_BYTE_OFFSETS)
}

/// The length of `s` in bytes of its UTF-8 encoding when `bytes` holds, in
/// code points otherwise.
pub fn units_len(s: &str, bytes: bool) -> (n: usize)
    ensures
        n == measure(s@, bytes),
{
    if bytes {
        byte_len(s)
    } else {
        proof {
            lemma_measure_chars(s@);
        }
        s.unicode_len()
    }
}

/// A patch that a rope refuses makes the whole trace refused.
pub proof fn lemma_refused_patch_refuses_trace(
    s0: Seq<char>,
    txns: Seq<Txn>,
    i: int,
    j: int,
    bytes: bool,
)
    requires
        0 <= i < txns.len(),
        0 <= j < txns[i].patches@.len(),
        apply_txns(s0, txns.take(i), bytes) is Some,
        apply_patches(apply_txns(s0, txns.take(i), bytes).unwrap(), txns[i].patches@.take(j), bytes) is Some,
        apply_patch(
            apply_patches(
                apply_txns(s0, txns.take(i), bytes).unwrap(),
                txns[i].patches@.take(j),
                bytes,
            ).unwrap(),
            txns[i].patches@[j],
            bytes,
        ) is None,
    ensures
        apply_txns(s0, txns, bytes) is None,
{
    let t0 = apply_txns(s0, txns.take(i), bytes).unwrap();
    let ps = txns[i].patches@;
    assert(ps.take(j + 1).drop_last() =~= ps.take(j));
    assert(ps.take(j + 1).last() == ps[j]);
    if apply_patches(t0, ps, bytes) is Some {
        lemma_apply_patches_prefix(t0, ps, j + 1, bytes);
    }
    assert(txns.take(i + 1).drop_last() =~= txns.take(i));
    assert(txns.take(i + 1).last() == txns[i]);
    if apply_txns(s0, txns, bytes) is Some {
        lemma_apply_txns_prefix(s0, txns, i + 1, bytes);
    }
}

/// Tells whether every patch of `trace` applies in the offset units of `R`,
/// that is whether `replay::<R>` accepts the trace.
pub fn trace_is_valid<R: Rope>(trace: &Trace) -> (ok: bool)
    ensures
        ok == (replayed_text(trace, R::EDITS_USE_BYTE_OFFSETS) is Some),
{
    if R::EDITS_USE_BYTE_OFFSETS {
        valid_by_bytes(trace)
    } else {
        valid_by_chars(trace)
    }
}

/// Checks the patches against the char length of the text, which is all
/// that decides whether a char range applies.
fn valid_by_chars(trace: &Trace) -> (ok: bool)
    ensures
        ok == (replayed_text(trace, false) is Some),
{
    let ghost s0 = trace.start_content@;
    let ghost txns = trace.txns@;
    let mut len: usize = trace.start_content.as_str().unicode_len();
    assert(txns.take(0) =~= Seq::<Txn>::empty());
    let mut i: usize = 0;
    while i < trace.txns.len()
        invariant
            i <= txns.len(),
            txns == trace.txns@,
            s0 == trace.start_content@,
            apply_txns(s0, txns.take(i as int), false) is Some,
            len == apply_txns(s0, txns.take(i as int), false).unwrap().len(),
        decreases txns.len() - i,
    {
        let txn = &trace.txns[i];
        let ghost ps = txn.patches@;
        let ghost t0 = apply_txns(s0, txns.take(i as int), false).unwrap();
        proof {
            assert(txns.take(i + 1).drop_last() =~= txns.take(i as int));
            assert(txns.take(i + 1).last() == txns[i as int]);
        }
        assert(ps.take(0) =~= Seq::<Patch>::empty());
        let mut j: usize = 0;
        while j < txn.patches.len()
            invariant
                j <= ps.len(),
                ps == txn.patches@,
                ps == txns[i as int].patches@,
                i < txns.len(),
                txns == trace.txns@,
                s0 == trace.start_content@,
                t0 == apply_txns(s0, txns.take(i as int), false).unwrap(),
                apply_txns(s0, txns.take(i as int), false) is Some,
                apply_patches(t0, ps.take(j as int), false) is Some,
                len == apply_patches(t0, ps.take(j as int), false).unwrap().len(),
            decreases ps.len() - j,
        {
            let patch = &txn.patches[j];
            let ghost cur = apply_patches(t0, ps.take(j as int), false).unwrap();
            proof {
                assert(ps.take(j + 1).drop_last() =~= ps.take(j as int));
                assert(ps.take(j + 1).last() == ps[j as int]);
                lemma_offset_index_chars(cur, patch.pos as int);
                lemma_offset_index_chars(cur, patch.pos + patch.del);
                lemma_measure_chars(
                    replace_text(cur, patch.pos as int, patch.pos + patch.del, patch.ins@, false),
                );
            }
            if patch.del > usize::MAX - patch.pos {
                proof {
                    lemma_refused_patch_refuses_trace(s0, txns, i as int, j as int, false);
                }
                return false;
            }
            let end = patch.pos + patch.del;
            if end > len {
                proof {
                    lemma_refused_patch_refuses_trace(s0, txns, i as int, j as int, false);
                }
                return false;
            }
            let ins_len = patch.ins.as_str().unicode_len();
            if ins_len > usize::MAX - (len - patch.del) {
                proof {
                    lemma_refused_patch_refuses_trace(s0, txns, i as int, j as int, false);
                }
                return false;
            }
            len = len - patch.del + ins_len;
            j += 1;
        }
        assert(ps.take(ps.len() as int) =~= ps);
        i += 1;
    }
    assert(txns.take(txns.len() as int) =~= txns);
    true
}

/// Applies the patches to a `String`, checking before each that its range
/// is made of char boundaries in order and that the result stays
/// measurable.
fn valid_by_bytes(trace: &Trace) -> (ok: bool)
    ensures
        ok == (replayed_text(trace, true) is Some),
{
    let ghost s0 = trace.start_content@;
    let ghost txns = trace.txns@;
    let mut text: String = trace.start_content.clone();
    assert(txns.take(0) =~= Seq::<Txn>::empty());
    let mut i: usize = 0;
    while i < trace.txns.len()
        invariant
            i <= txns.len(),
            txns == trace.txns@,
            s0 == trace.start_content@,
            apply_txns(s0, txns.take(i as int), true) == Some(text@),
        decreases txns.len() - i,
    {
        let txn = &trace.txns[i];
        let ghost ps = txn.patches@;
        let ghost t0 = text@;
        proof {
            assert(txns.take(i + 1).drop_last() =~= txns.take(i as int));
            assert(txns.take(i + 1).last() == txns[i as int]);
        }
        assert(ps.take(0) =~= Seq::<Patch>::empty());
        let mut j: usize = 0;
        while j < txn.patches.len()
            invariant
                j <= ps.len(),
                ps == txn.patches@,
                ps == txns[i as int].patches@,
                i < txns.len(),
                txns == trace.txns@,
                s0 == trace.start_content@,
                apply_txns(s0, txns.take(i as int), true) == Some(t0),
                apply_patches(t0, ps.take(j as int), true) == Some(text@),
            decreases ps.len() - j,
        {
            let patch = &txn.patches[j];
            let ghost cur = text@;
            proof {
                assert(ps.take(j + 1).drop_last() =~= ps.take(j as int));
                assert(ps.take(j + 1).last() == ps[j as int]);
            }
            if patch.del > usize::MAX - patch.pos {
                proof {
                    lemma_refused_patch_refuses_trace(s0, txns, i as int, j as int, true);
                }
                return false;
            }
            let end = patch.pos + patch.del;
            let start_ok = text.as_str().is_char_boundary(patch.pos);
            let end_ok = text.as_str().is_char_boundary(end);
            proof {
                lemma_is_char_boundary_iff(cur, patch.pos as int);
                lemma_is_char_boundary_iff(cur, end as int);
            }
            if !(start_ok && end_ok) {
                proof {
                    lemma_refused_patch_refuses_trace(s0, txns, i as int, j as int, true);
                }
                return false;
            }
            let len = byte_len(text.as_str());
            let ins_len = byte_len(patch.ins.as_str());
            proof {
                lemma_boundary_bounded(cur, end as int, true);
                law_replace_len(cur, patch.pos as int, end as int, patch.ins@, true);
            }
            if ins_len > usize::MAX - (len - patch.del) {
                proof {
                    lemma_refused_patch_refuses_trace(s0, txns, i as int, j as int, true);
                }
                return false;
            }
            string_replace_range(&mut text, patch.pos..end, patch.ins.as_str());
            j += 1;
        }
        assert(ps.take(ps.len() as int) =~= ps);
        i += 1;
    }
    assert(txns.take(txns.len() as int) =~= txns);
    true
}

} // verus!
