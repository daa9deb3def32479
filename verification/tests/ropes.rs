use bench::rope::Rope;
use bench::xi_backend::XiRope;
use bench::jumprope_backend::JumpBufRope;
use jumprope::JumpRope;

// the derived `Debug` of an `XiRope` shows the text of its rope
fn xi_shows(r: &XiRope, text: &str) -> bool {
    format!("{:?}", r) == format!("XiRope {{ rope: Rope({:?}) }}", text)
}

#[test]
fn names_and_units() {
    assert_eq!(<String as Rope>::NAME, "String");
    assert_eq!(<crop::Rope as Rope>::NAME, "crop");
    assert_eq!(<JumpRope as Rope>::NAME, "JumpRope");
    assert_eq!(<JumpBufRope as Rope>::NAME, "JumpBufRope");
    assert_eq!(<ropey::Rope as Rope>::NAME, "Ropey");
    assert_eq!(<XiRope as Rope>::NAME, "xi_rope");
    assert!(<String as Rope>::EDITS_USE_BYTE_OFFSETS);
    assert!(<crop::Rope as Rope>::EDITS_USE_BYTE_OFFSETS);
    assert!(<XiRope as Rope>::EDITS_USE_BYTE_OFFSETS);
    assert!(!<JumpRope as Rope>::EDITS_USE_BYTE_OFFSETS);
    assert!(!<JumpBufRope as Rope>::EDITS_USE_BYTE_OFFSETS);
    assert!(!<ropey::Rope as Rope>::EDITS_USE_BYTE_OFFSETS);
}

// "ƒ" takes two bytes and "🌎" four, so byte and char lengths differ.
const SAMPLE: &str = "ƒoo 🌎 bar";

#[test]
fn string_edits_by_bytes() {
    let mut s = <String as Rope>::from_str(SAMPLE);
    assert_eq!(s, SAMPLE);
    assert_eq!(Rope::len(&s), 13);
    Rope::insert(&mut s, 2, "X");
    assert_eq!(s, "ƒXoo 🌎 bar");
    Rope::remove(&mut s, 5..10);
    assert_eq!(s, "ƒXoo bar");
    Rope::replace(&mut s, 0..2, "ab");
    assert_eq!(s, "abXoo bar");
    assert_eq!(Rope::len(&s), 9);
}

#[test]
fn crop_edits_by_bytes() {
    let mut r = <crop::Rope as Rope>::from_str(SAMPLE);
    assert_eq!(r.to_string(), SAMPLE);
    assert_eq!(Rope::len(&r), 13);
    Rope::insert(&mut r, 2, "X");
    assert_eq!(r.to_string(), "ƒXoo 🌎 bar");
    Rope::remove(&mut r, 5..10);
    assert_eq!(r.to_string(), "ƒXoo bar");
    Rope::replace(&mut r, 0..2, "ab");
    assert_eq!(r.to_string(), "abXoo bar");
    assert_eq!(Rope::len(&r), 9);
}

#[test]
fn xi_rope_edits_by_bytes() {
    let mut r = <XiRope as Rope>::from_str(SAMPLE);
    assert!(xi_shows(&r, SAMPLE));
    assert_eq!(Rope::len(&r), 13);
    Rope::insert(&mut r, 2, "X");
    assert!(xi_shows(&r, "ƒXoo 🌎 bar"));
    Rope::remove(&mut r, 5..10);
    assert!(xi_shows(&r, "ƒXoo bar"));
    Rope::replace(&mut r, 0..2, "ab");
    assert!(xi_shows(&r, "abXoo bar"));
    assert_eq!(Rope::len(&r), 9);
}

#[test]
fn jumprope_edits_by_chars() {
    let mut r = <JumpRope as Rope>::from_str(SAMPLE);
    assert_eq!(r.to_string(), SAMPLE);
    assert_eq!(Rope::len(&r), 9);
    Rope::insert(&mut r, 1, "X");
    assert_eq!(r.to_string(), "ƒXoo 🌎 bar");
    Rope::remove(&mut r, 4..6);
    assert_eq!(r.to_string(), "ƒXoo bar");
    Rope::replace(&mut r, 0..1, "ab");
    assert_eq!(r.to_string(), "abXoo bar");
    assert_eq!(Rope::len(&r), 9);
}

#[test]
fn jumprope_buf_edits_by_chars() {
    // the buffered rope keeps its text to itself: its length shows each edit
    let mut r = <JumpBufRope as Rope>::from_str(SAMPLE);
    assert_eq!(Rope::len(&r), 9);
    Rope::insert(&mut r, 1, "XY");
    assert_eq!(Rope::len(&r), 11);
    Rope::insert(&mut r, 3, "Z");
    assert_eq!(Rope::len(&r), 12);
    Rope::remove(&mut r, 4..6);
    assert_eq!(Rope::len(&r), 10);
    Rope::remove(&mut r, 3..4);
    assert_eq!(Rope::len(&r), 9);
    Rope::replace(&mut r, 0..1, "ab");
    assert_eq!(Rope::len(&r), 10);
    Rope::remove(&mut r, 0..10);
    assert_eq!(Rope::len(&r), 0);
}

#[test]
fn ropey_edits_by_chars() {
    let mut r = <ropey::Rope as Rope>::from_str(SAMPLE);
    assert_eq!(r.to_string(), SAMPLE);
    assert_eq!(Rope::len(&r), 9);
    Rope::insert(&mut r, 1, "X");
    assert_eq!(r.to_string(), "ƒXoo 🌎 bar");
    Rope::remove(&mut r, 4..6);
    assert_eq!(r.to_string(), "ƒXoo bar");
    Rope::replace(&mut r, 0..1, "ab");
    assert_eq!(r.to_string(), "abXoo bar");
    assert_eq!(Rope::len(&r), 9);
}

#[test]
fn default_replace_empty_range_inserts() {
    // ropey and JumpBufRope use the trait's own `replace`
    let mut r = <ropey::Rope as Rope>::from_str("abc");
    Rope::replace(&mut r, 3..3, "de");
    assert_eq!(r.to_string(), "abcde");
    let mut b = <JumpBufRope as Rope>::from_str("abc");
    Rope::replace(&mut b, 0..0, "z");
    assert_eq!(Rope::len(&b), 4);
}

#[test]
fn default_replace_with_empty_text_removes() {
    let mut r = <ropey::Rope as Rope>::from_str("abcde");
    Rope::replace(&mut r, 1..4, "");
    assert_eq!(r.to_string(), "ae");
    let mut b = <JumpBufRope as Rope>::from_str("abcde");
    Rope::replace(&mut b, 1..4, "");
    assert_eq!(Rope::len(&b), 2);
}

#[test]
fn default_replace_noop() {
    let mut r = <ropey::Rope as Rope>::from_str("abc");
    Rope::replace(&mut r, 2..2, "");
    assert_eq!(r.to_string(), "abc");
}

#[test]
fn empty_rope() {
    let s = <String as Rope>::from_str("");
    assert_eq!(Rope::len(&s), 0);
    let c = <crop::Rope as Rope>::from_str("");
    assert_eq!(Rope::len(&c), 0);
    let j = <JumpRope as Rope>::from_str("");
    assert_eq!(Rope::len(&j), 0);
    let x = <XiRope as Rope>::from_str("");
    assert_eq!(Rope::len(&x), 0);
}

#[test]
fn edits_at_both_ends() {
    let mut s = <crop::Rope as Rope>::from_str("mid");
    Rope::insert(&mut s, 0, "<");
    Rope::insert(&mut s, 4, ">");
    assert_eq!(s.to_string(), "<mid>");
    Rope::remove(&mut s, 0..5);
    assert_eq!(s.to_string(), "");
    assert_eq!(Rope::len(&s), 0);
}
