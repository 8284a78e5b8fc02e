use playbot::SharedStr;
use std::collections::hash_map::DefaultHasher;
use std::hash::{Hash, Hasher};

fn hash_of(s: &SharedStr) -> u64 {
    let mut h = DefaultHasher::new();
    s.hash(&mut h);
    h.finish()
}

#[test]
fn slice_of_text_is_range_of_text() {
    let t = "hello world";
    let s = SharedStr::from_text(t);
    let part = s.slice(6, 11);
    assert_eq!(part.as_str(), "world");
    assert_eq!(s.slice(0, 0).as_str(), "");
    assert_eq!(s.slice(0, 11).as_str(), t);
    assert_eq!(s.slice_from(6).as_str(), "world");
}

#[test]
fn equal_text_in_different_buffers_is_equal() {
    let t = String::from("same text");
    let a = SharedStr::from_text(&t);
    let b = SharedStr::from_text(&t.clone());
    assert!(a == b);
    assert!(a.same_text(&b));
    let c = SharedStr::from_text("other");
    assert!(a != c);
}

#[test]
fn trim_removes_unicode_white_space() {
    let s = SharedStr::from_text(" \t\u{3000}abc def\n\u{a0} ");
    assert_eq!(s.trim().as_str(), "abc def");
    assert_eq!(s.trim_left().as_str(), "abc def\n\u{a0} ");
    assert_eq!(s.trim_right().as_str(), " \t\u{3000}abc def");
    assert_eq!(SharedStr::from_text("   ").trim().as_str(), "");
    assert_eq!(SharedStr::from_text("").trim().as_str(), "");
}

#[test]
fn split_whitespace_gives_words_in_order() {
    let s = SharedStr::from_text("  ?crate   serde\textra \n");
    let words: Vec<String> = s.split_whitespace().iter().map(|w| w.as_str()).collect();
    assert_eq!(words, vec!["?crate", "serde", "extra"]);
    assert!(SharedStr::from_text(" \t ").split_whitespace().is_empty());
    assert!(SharedStr::from_text("").split_whitespace().is_empty());
}

#[test]
fn split_at_and_first_word() {
    let s = SharedStr::from_text("abcdef");
    let (l, r) = s.split_at(2);
    assert_eq!(l.as_str(), "ab");
    assert_eq!(r.as_str(), "cdef");
    assert_eq!(SharedStr::from_text("--beta fn x").first_word().as_str(), "--beta");
    assert_eq!(SharedStr::from_text("").first_word().as_str(), "");
}

#[test]
fn starts_with_and_char_access() {
    let s = SharedStr::from_text("eval: x");
    assert!(s.starts_with(&SharedStr::from_text("eval")));
    assert!(!s.starts_with(&SharedStr::from_text("evaluate: x and more")));
    assert!(s.starts_with_char('e'));
    assert!(!SharedStr::from_text("").starts_with_char('e'));
    assert_eq!(s.char_at(4), ':');
    assert_eq!(s.len(), 7);
    assert!(!s.is_empty());
    assert!(s.eq_str("eval: x"));
    assert!(!s.eq_str("eval:x"));
}

#[test]
fn from_str_of_foreign_text_copies_it() {
    let s = SharedStr::from_text("abc");
    assert_eq!(s.from_str("xyz").as_str(), "xyz");
    assert_eq!(s.from_str("").as_str(), "");
    let from: SharedStr = SharedStr::from("via from");
    assert_eq!(from.as_str(), "via from");
}

#[test]
fn non_ascii_text_is_counted_in_characters() {
    let s = SharedStr::from_text("héllo wörld");
    assert_eq!(s.len(), 11);
    assert_eq!(s.slice(6, 11).as_str(), "wörld");
}

#[test]
fn texts_order_and_hash_by_characters() {
    let a = SharedStr::from_text("xabc").slice(1, 4);
    let b = SharedStr::from_text("abc");
    assert_eq!(hash_of(&a), hash_of(&b));
    assert_eq!(a.partial_cmp(&b), Some(std::cmp::Ordering::Equal));
    assert!(a < SharedStr::from_text("abd"));
    assert!(SharedStr::from_text("ab") < a);
    assert!(SharedStr::from_text("b") > a);
    assert!(SharedStr::from_text("") < SharedStr::from_text("a"));
}
