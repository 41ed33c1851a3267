//! Tests for the interning engine: dedup, distinctness, reference
//! counting, ordering, hashing, round trips and reclamation.

use ibytes::hash::hash_bytes;
use ibytes::order::{bytes_eq, lex_lt_bytes};
use ibytes::pool::Pool;

#[test]
fn dedup_equal_content() {
    let mut p = Pool::new();
    let h1 = p.intern(b"abc");
    let h2 = p.intern(b"abc");
    assert!(h1 == h2);
    assert_eq!(h1.bytes(), b"abc");
    assert_eq!(h2.bytes(), b"abc");
    // Instrumented: both handles refer to the same canonical slot.
    assert_eq!(h1.slot, h2.slot);
    assert_eq!(p.len(), 1);
}

#[test]
fn distinct_content() {
    let mut p = Pool::new();
    let h1 = p.intern(b"abc");
    let h2 = p.intern(b"abd");
    assert!(h1 != h2);
    assert_ne!(h1.slot, h2.slot);
    assert_eq!(p.len(), 2);
}

#[test]
fn refcount_lifecycle() {
    let mut p = Pool::new();
    let h1 = p.intern(b"shared");
    let h2 = p.intern(b"shared");
    let h3 = p.clone_handle(&h1);
    // Instrumented: the slot's count equals the number of live handles.
    assert_eq!(p.counts[h1.slot], 3);
    let slot = h1.slot;
    p.release(h1);
    p.release(h2);
    // One handle left: the slot is still there, content unchanged.
    assert_eq!(p.counts[slot], 1);
    assert_eq!(h3.bytes(), b"shared");
    assert_eq!(p.len(), 1);
    p.release(h3);
    // All dropped: the content is gone, and a fresh intern starts over.
    assert_eq!(p.len(), 0);
    let h4 = p.intern(b"shared");
    assert_eq!(p.counts[h4.slot], 1);
    assert_eq!(h4.bytes(), b"shared");
    assert_eq!(p.len(), 1);
}

#[test]
fn ordering_consistency() {
    let mut p = Pool::new();
    let ab = p.intern(b"ab");
    let abc = p.intern(b"abc");
    let abd = p.intern(b"abd");
    let empty = p.intern(b"");
    assert!(empty < ab);
    assert!(ab < abc);
    assert!(abc < abd);
    assert!(!(abd < abc));
    assert!(!(ab < ab));
    assert!(abd > ab);
    assert!(ab <= ab);
    assert!(ab >= ab);
}

#[test]
fn ordering_matches_raw_bytes() {
    let mut p = Pool::new();
    let cases: [&[u8]; 5] = [b"", b"a", b"ab", b"b", b"\xff"];
    for x in cases {
        for y in cases {
            let hx = p.intern(x);
            let hy = p.intern(y);
            assert_eq!(hx < hy, x < y);
            assert_eq!(hx == hy, x == y);
            p.release(hx);
            p.release(hy);
        }
    }
}

#[test]
fn hash_consistency() {
    let mut p = Pool::new();
    let h = p.intern(b"hash me");
    assert_eq!(h.content_hash(), hash_bytes(b"hash me"));
}

#[test]
fn hash_known_values() {
    // 64-bit FNV-1a reference values.
    assert_eq!(hash_bytes(b""), 0xcbf29ce484222325);
    assert_eq!(hash_bytes(b"a"), 0xaf63dc4c8601ec8c);
    assert_eq!(hash_bytes(b"foobar"), 0x85944171f73967e8);
}

#[test]
fn round_trip() {
    let mut p = Pool::new();
    let original = p.intern(b"hello");
    let copy = p.clone_handle(&original);
    p.release(original);
    assert_eq!(copy.bytes(), b"hello");
    let e1 = p.intern(b"");
    let e2 = p.intern(b"");
    assert!(e1 == e2);
    assert_eq!(e1.bytes(), b"");
}

#[test]
fn reclamation() {
    let mut p = Pool::new();
    let hx = p.intern(b"x");
    assert_eq!(p.len(), 1);
    p.release(hx);
    assert_eq!(p.len(), 0);
    let hy = p.intern(b"y");
    assert_eq!(p.len(), 1);
    // Instrumented: the erased slot's storage is reused, the arena does
    // not grow.
    assert_eq!(p.bufs.len(), 1);
    assert_eq!(hy.bytes(), b"y");
}

#[test]
fn interleaved_contents_are_independent() {
    let mut p = Pool::new();
    let a = p.intern(b"left");
    let b = p.intern(b"right");
    let a2 = p.intern(b"left");
    assert_eq!(p.counts[a.slot], 2);
    assert_eq!(p.counts[b.slot], 1);
    p.release(a);
    assert_eq!(p.counts[b.slot], 1);
    assert_eq!(a2.bytes(), b"left");
    assert_eq!(b.bytes(), b"right");
    assert_eq!(p.len(), 2);
}

#[test]
fn bytes_eq_cases() {
    assert!(bytes_eq(b"", b""));
    assert!(bytes_eq(b"abc", b"abc"));
    assert!(!bytes_eq(b"abc", b"ab"));
    assert!(!bytes_eq(b"abc", b"abd"));
}

#[test]
fn lex_lt_cases() {
    assert!(lex_lt_bytes(b"", b"a"));
    assert!(!lex_lt_bytes(b"a", b""));
    assert!(!lex_lt_bytes(b"", b""));
    assert!(lex_lt_bytes(b"ab", b"abc"));
    assert!(lex_lt_bytes(b"abc", b"abd"));
    assert!(!lex_lt_bytes(b"abd", b"abc"));
    assert!(lex_lt_bytes(b"a", b"\xff"));
}
