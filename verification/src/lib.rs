//! Byte-string interning.
//!
//! The crate is built around an interning engine: a [`pool::Pool`] owns one
//! canonical, reference-counted copy of every distinct byte sequence that is
//! currently interned, and [`pool::Handle`]s are cheap capabilities that refer
//! to those canonical slots.  Equality, ordering and hashing of handles are
//! defined by byte content, never by slot identity, so handles behave like the
//! byte strings they stand for.
//!
//! Thin views over a handle ([`ibytes::IBytes`] for raw bytes,
//! [`ibytes::IStr`] for validated UTF-8 text) live in [`ibytes`].

pub mod hash;
pub mod ibytes;
pub mod order;
pub mod pool;
