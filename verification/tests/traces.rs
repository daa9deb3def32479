use bench::rope::{byte_len, Rope};
use bench::trace::{replay, replay_len_matches, units_len, trace_is_valid, Patch, Trace, Txn};
use bench::xi_backend::XiRope;
use bench::jumprope_backend::JumpBufRope;
use jumprope::JumpRope;

fn patch(pos: usize, del: usize, ins: &str) -> Patch {
    Patch { pos, del, ins: ins.to_string() }
}

// "héllo" → "héllo wörld" → "hé wörld" → "hey wörld!"
fn char_trace() -> Trace {
    Trace {
        start_content: "héllo".to_string(),
        end_content: "hey wörld!".to_string(),
        txns: vec![
            Txn { patches: vec![patch(5, 0, " wörld")] },
            Txn { patches: vec![patch(2, 3, ""), patch(1, 1, "ey"), patch(9, 0, "!")] },
        ],
    }
}

// the same edits with offsets counted in bytes
fn byte_trace() -> Trace {
    Trace {
        start_content: "héllo".to_string(),
        end_content: "hey wörld!".to_string(),
        txns: vec![
            Txn { patches: vec![patch(6, 0, " wörld")] },
            Txn { patches: vec![patch(3, 3, ""), patch(1, 2, "ey"), patch(10, 0, "!")] },
        ],
    }
}

#[test]
fn replay_by_chars() {
    let t = char_trace();
    let j: JumpRope = replay(&t);
    assert_eq!(j.to_string(), "hey wörld!");
    let b: JumpBufRope = replay(&t);
    assert_eq!(Rope::len(&b), 10);
    let r: ropey::Rope = replay(&t);
    assert_eq!(r.to_string(), "hey wörld!");
}

#[test]
fn replay_by_bytes() {
    let t = byte_trace();
    let s: String = replay(&t);
    assert_eq!(s, "hey wörld!");
    let c: crop::Rope = replay(&t);
    assert_eq!(c.to_string(), "hey wörld!");
    let x: XiRope = replay(&t);
    assert_eq!(format!("{:?}", x), format!("XiRope {{ rope: Rope({:?}) }}", "hey wörld!"));
}

#[test]
fn replay_len_matches_for_byte_ropes() {
    let t = byte_trace();
    assert!(replay_len_matches::<String>(&t));
    assert!(replay_len_matches::<crop::Rope>(&t));
    assert!(replay_len_matches::<XiRope>(&t));
}

#[test]
fn replay_len_counts_in_the_rope_units() {
    // char ropes hold 10 chars and compare with the 10 chars of the end
    // content (which has 11 bytes)
    let t = char_trace();
    assert!(replay_len_matches::<JumpRope>(&t));
    assert!(replay_len_matches::<JumpBufRope>(&t));
    assert!(replay_len_matches::<ropey::Rope>(&t));
    assert_eq!(units_len("hey wörld!", false), 10);
    assert_eq!(units_len("hey wörld!", true), 11);
}

#[test]
fn replay_len_of_untouched_non_ascii_text() {
    let t = Trace { start_content: "é".to_string(), end_content: "é".to_string(), txns: vec![] };
    assert!(replay_len_matches::<ropey::Rope>(&t));
    assert!(replay_len_matches::<JumpRope>(&t));
    assert!(replay_len_matches::<String>(&t));
    assert!(replay_len_matches::<crop::Rope>(&t));
}

#[test]
fn replay_len_detects_wrong_end_content_for_char_ropes() {
    let mut t = char_trace();
    t.end_content = "hey world!!".to_string();
    // 11 chars against 10
    assert!(!replay_len_matches::<ropey::Rope>(&t));
    assert!(!replay_len_matches::<JumpBufRope>(&t));
}

#[test]
fn replay_len_detects_wrong_end_content() {
    let mut t = byte_trace();
    t.end_content = "hey world".to_string();
    assert!(!replay_len_matches::<String>(&t));
    assert!(!replay_len_matches::<crop::Rope>(&t));
}

#[test]
fn replay_ascii_trace_all_ropes() {
    let t = Trace {
        start_content: String::new(),
        end_content: "abcXYf".to_string(),
        txns: vec![
            Txn { patches: vec![patch(0, 0, "abcdef")] },
            Txn { patches: vec![patch(3, 2, "XY")] },
            Txn { patches: vec![] },
        ],
    };
    assert!(replay_len_matches::<String>(&t));
    assert!(replay_len_matches::<crop::Rope>(&t));
    assert!(replay_len_matches::<JumpRope>(&t));
    assert!(replay_len_matches::<JumpBufRope>(&t));
    assert!(replay_len_matches::<ropey::Rope>(&t));
    assert!(replay_len_matches::<XiRope>(&t));
}

#[test]
fn replay_empty_trace() {
    let t = Trace { start_content: "same".to_string(), end_content: "same".to_string(), txns: vec![] };
    let s: String = replay(&t);
    assert_eq!(s, "same");
    assert_eq!(Rope::len(&s), 4);
}

#[test]
fn valid_traces_are_accepted() {
    assert!(trace_is_valid::<String>(&byte_trace()));
    assert!(trace_is_valid::<crop::Rope>(&byte_trace()));
    assert!(trace_is_valid::<XiRope>(&byte_trace()));
    assert!(trace_is_valid::<JumpRope>(&char_trace()));
    assert!(trace_is_valid::<JumpBufRope>(&char_trace()));
    assert!(trace_is_valid::<ropey::Rope>(&char_trace()));
}

#[test]
fn units_decide_validity() {
    let t = Trace {
        start_content: "héllo".to_string(),
        end_content: String::new(),
        txns: vec![Txn { patches: vec![patch(2, 1, "")] }],
    };
    // chars 2..3 is "l"; bytes 2..3 cut "é" in half
    assert!(trace_is_valid::<ropey::Rope>(&t));
    assert!(!trace_is_valid::<String>(&t));
}

#[test]
fn range_past_the_end_is_refused() {
    let t = Trace {
        start_content: "abc".to_string(),
        end_content: String::new(),
        txns: vec![Txn { patches: vec![patch(0, 0, "x")] }, Txn { patches: vec![patch(2, 3, "")] }],
    };
    assert!(!trace_is_valid::<JumpRope>(&t));
    assert!(!trace_is_valid::<crop::Rope>(&t));
    // after the insertion the text has 4 units, so 1..4 fits
    let ok = Trace {
        start_content: "abc".to_string(),
        end_content: String::new(),
        txns: vec![Txn { patches: vec![patch(0, 0, "x")] }, Txn { patches: vec![patch(1, 3, "")] }],
    };
    assert!(trace_is_valid::<JumpRope>(&ok));
    assert!(trace_is_valid::<crop::Rope>(&ok));
}

#[test]
fn overflowing_range_end_is_refused() {
    let t = Trace {
        start_content: "abc".to_string(),
        end_content: String::new(),
        txns: vec![Txn { patches: vec![patch(usize::MAX, 1, "")] }],
    };
    assert!(!trace_is_valid::<String>(&t));
    assert!(!trace_is_valid::<ropey::Rope>(&t));
}

#[test]
fn byte_len_counts_utf8_bytes() {
    assert_eq!(byte_len(""), 0);
    assert_eq!(byte_len("aé🌎"), 7);
}

#[test]
fn char_trace_and_its_byte_conversion_agree() {
    // byte_trace is char_trace with every offset counted in bytes
    let by_chars: ropey::Rope = replay(&char_trace());
    let by_bytes: String = replay(&byte_trace());
    assert_eq!(by_chars.to_string(), by_bytes);
    let by_chars: JumpRope = replay(&char_trace());
    let by_bytes: crop::Rope = replay(&byte_trace());
    assert_eq!(by_chars.to_string(), by_bytes.to_string());
}
