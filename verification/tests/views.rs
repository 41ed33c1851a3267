//! Tests for the typed views over interned handles.

use ibytes::ibytes::{IBytes, IStr, Visitor};
use ibytes::pool::Pool;

#[test]
fn ibytes_new_and_as_bytes() {
    let mut p = Pool::new();
    let b = IBytes::new(&mut p, b"payload");
    assert_eq!(b.as_bytes(), b"payload");
    assert_eq!(p.len(), 1);
}

#[test]
fn ibytes_from_str() {
    let mut p = Pool::new();
    let b = IBytes::from_str(&mut p, "text");
    assert_eq!(b.as_bytes(), b"text");
    let b2 = IBytes::new(&mut p, b"text");
    assert!(b == b2);
    assert_eq!(p.len(), 1);
}

#[test]
fn ibytes_dedup_and_order() {
    let mut p = Pool::new();
    let a = IBytes::new(&mut p, b"aa");
    let b = IBytes::new(&mut p, b"ab");
    let a2 = IBytes::new(&mut p, b"aa");
    assert!(a == a2);
    assert!(a != b);
    assert!(a < b);
    assert!(!(b < a));
    assert_eq!(p.len(), 2);
}

#[test]
fn ibytes_clone_and_release() {
    let mut p = Pool::new();
    let a = IBytes::new(&mut p, b"cloned");
    let c = a.clone_in(&mut p);
    a.release(&mut p);
    assert_eq!(c.as_bytes(), b"cloned");
    assert_eq!(p.len(), 1);
    c.release(&mut p);
    assert_eq!(p.len(), 0);
}

#[test]
fn to_istr_valid_utf8() {
    let mut p = Pool::new();
    let b = IBytes::from_str(&mut p, "h\u{e9}llo");
    let s = b.to_istr(&mut p).unwrap();
    assert_eq!(s.as_str(), "h\u{e9}llo");
    assert_eq!(s.as_bytes(), "h\u{e9}llo".as_bytes());
    // The text view shares the byte view's slot: still one entry.
    assert_eq!(p.len(), 1);
    assert_eq!(p.counts[b.0.slot], 2);
}

#[test]
fn to_istr_invalid_utf8() {
    let mut p = Pool::new();
    let b = IBytes::new(&mut p, &[0xff, 0xfe]);
    let before = p.len();
    assert!(b.to_istr(&mut p).is_none());
    assert_eq!(p.len(), before);
    assert_eq!(p.counts[b.0.slot], 1);
}

#[test]
fn istr_to_ibytes() {
    let mut p = Pool::new();
    let b = IBytes::from_str(&mut p, "round");
    let s = b.to_istr(&mut p).unwrap();
    let b2 = s.to_ibytes();
    assert!(b == b2);
    assert_eq!(b2.as_bytes(), b"round");
}

#[test]
fn visitor_interns_bytes() {
    let mut p = Pool::new();
    let v = Visitor;
    let b = v.visit_bytes(&mut p, b"decoded");
    assert_eq!(b.as_bytes(), b"decoded");
    let b2 = IBytes::new(&mut p, b"decoded");
    assert!(b == b2);
    assert_eq!(p.len(), 1);
}

#[test]
fn istr_equality_by_content() {
    let mut p = Pool::new();
    let s1 = IBytes::from_str(&mut p, "same").to_istr(&mut p).unwrap();
    let s2 = IBytes::from_str(&mut p, "same").to_istr(&mut p).unwrap();
    let s3 = IBytes::from_str(&mut p, "other").to_istr(&mut p).unwrap();
    assert!(s1 == s2);
    assert!(s1 != s3);
    // Views built through different types from equal content agree.
    let b = IBytes::new(&mut p, b"same");
    assert!(b == s1.to_ibytes());
}

#[test]
fn empty_content_views() {
    let mut p = Pool::new();
    let b = IBytes::new(&mut p, b"");
    assert_eq!(b.as_bytes(), b"");
    let s = b.to_istr(&mut p).unwrap();
    assert_eq!(s.as_str(), "");
}
