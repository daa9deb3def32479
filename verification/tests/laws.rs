use bench::rope::Rope;
use bench::xi_backend::XiRope;
use bench::jumprope_backend::JumpBufRope;
use jumprope::JumpRope;

// insert then remove of the inserted range gives back the text
fn insert_then_remove<R: Rope>(start: &str, at: usize, text: &str, width: usize) -> R {
    let mut r = R::from_str(start);
    let before = r.len();
    r.insert(at, text);
    assert_eq!(r.len(), before + width);
    r.remove(at..at + width);
    assert_eq!(r.len(), before);
    r
}

#[test]
fn insert_then_remove_restores_byte_ropes() {
    let s: String = insert_then_remove("aé🌎z", 3, "ñ€", 5);
    assert_eq!(s, "aé🌎z");
    let c: crop::Rope = insert_then_remove("aé🌎z", 3, "ñ€", 5);
    assert_eq!(c.to_string(), "aé🌎z");
    let x: XiRope = insert_then_remove("aé🌎z", 7, "ñ€", 5);
    assert_eq!(format!("{:?}", x), format!("XiRope {{ rope: Rope({:?}) }}", "aé🌎z"));
}

#[test]
fn insert_then_remove_restores_char_ropes() {
    let j: JumpRope = insert_then_remove("aé🌎z", 2, "ñ€", 2);
    assert_eq!(j.to_string(), "aé🌎z");
    let b: JumpBufRope = insert_then_remove("aé🌎z", 2, "ñ€", 2);
    assert_eq!(Rope::len(&b), 4);
    let r: ropey::Rope = insert_then_remove("aé🌎z", 4, "ñ€", 2);
    assert_eq!(r.to_string(), "aé🌎z");
}

// replace agrees with remove followed by insert at the start of the range
fn replace_both_ways<R: Rope>(start: &str, from: usize, to: usize, text: &str) -> (R, R) {
    let mut a = R::from_str(start);
    a.replace(from..to, text);
    let mut b = R::from_str(start);
    b.remove(from..to);
    b.insert(from, text);
    (a, b)
}

#[test]
fn replace_is_remove_then_insert() {
    let (a, b): (String, String) = replace_both_ways("héllo wörld", 1, 6, "ow");
    assert_eq!(a, b);
    assert_eq!(a, "how wörld");
    let (a, b): (crop::Rope, crop::Rope) = replace_both_ways("héllo wörld", 1, 6, "ow");
    assert_eq!(a.to_string(), b.to_string());
    let (a, b): (JumpRope, JumpRope) = replace_both_ways("héllo wörld", 1, 5, "ow");
    assert_eq!(a.to_string(), b.to_string());
    assert_eq!(a.to_string(), "how wörld");
    let (a, b): (XiRope, XiRope) = replace_both_ways("héllo wörld", 1, 6, "ow");
    assert_eq!(format!("{:?}", a), format!("{:?}", b));
    assert_eq!(format!("{:?}", a), format!("XiRope {{ rope: Rope({:?}) }}", "how wörld"));
}

#[test]
fn replace_len_law() {
    // new length = old length - range width + inserted length
    let mut s = <String as Rope>::from_str("héllo");
    Rope::replace(&mut s, 1..3, "€€");
    assert_eq!(Rope::len(&s), 6 - 2 + 6);
    let mut r = <ropey::Rope as Rope>::from_str("héllo");
    Rope::replace(&mut r, 1..2, "€€");
    assert_eq!(Rope::len(&r), 5 - 1 + 2);
}

#[test]
fn char_and_byte_offsets_agree() {
    // the chars 1..3 of "aé🌎z" span bytes 1..7
    let mut by_chars = <ropey::Rope as Rope>::from_str("aé🌎z");
    Rope::replace(&mut by_chars, 1..3, "-");
    let mut by_bytes = <String as Rope>::from_str("aé🌎z");
    Rope::replace(&mut by_bytes, 1..7, "-");
    assert_eq!(by_chars.to_string(), by_bytes);
    assert_eq!(by_bytes, "a-z");
}

#[test]
fn remove_then_insert_restores() {
    let mut j = <JumpRope as Rope>::from_str("aé🌎z");
    Rope::remove(&mut j, 1..3);
    Rope::insert(&mut j, 1, "é🌎");
    assert_eq!(j.to_string(), "aé🌎z");
    let mut c = <crop::Rope as Rope>::from_str("aé🌎z");
    Rope::remove(&mut c, 1..7);
    Rope::insert(&mut c, 1, "é🌎");
    assert_eq!(c.to_string(), "aé🌎z");
}
