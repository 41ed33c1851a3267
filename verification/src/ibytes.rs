//! Thin typed views over interned handles.
//!
//! [`IBytes`] presents an interned handle as a raw byte string; [`IStr`]
//! presents one whose content has been checked to be valid UTF-8 text.
//! Both are single-field wrappers: equality, ordering and hashing are the
//! handle's, i.e. defined by byte content, and every constructor is one
//! pool operation.

use vstd::prelude::*;
use vstd::string::StringSliceAdditionalSpecFns;
use vstd::utf8::valid_utf8;

use crate::order::{bytes_eq, lemma_lex_trichotomy, lex_lt, lex_lt_bytes};
use crate::pool::{Handle, Pool};

verus! {

/// Relies on core::str::from_utf8: it returns `Ok` exactly when the bytes
/// are valid UTF-8.
#[verifier::external_body]
fn utf8_check(v: &[u8]) -> (r: bool)
    ensures
        r == valid_utf8(v@),
{
    match core::str::from_utf8(v) {
        Ok(_) => true,
        Err(_) => false,
    }
}

/// Relies on core::str::from_utf8: on valid UTF-8 input it returns `Ok`
/// with a string view of exactly the input bytes.
#[verifier::external_body]
fn utf8_to_str(v: &[u8]) -> (r: &str)
    requires
        valid_utf8(v@),
    ensures
        r.spec_bytes() == v@,
{
    match core::str::from_utf8(v) {
        Ok(s) => s,
        Err(_) => "",
    }
}

/// Interned byte string: a view over one pool handle, compared, ordered
/// and hashed by its byte content.
pub struct IBytes(pub Handle);

impl View for IBytes {
    type V = Seq<u8>;

    /// An interned byte string is viewed as its byte content.
    open spec fn view(&self) -> Seq<u8> {
        self.0@
    }
}

impl IBytes {
    /// Interns `src` in `pool` and wraps the resulting handle.
    pub fn new(pool: &mut Pool, src: &[u8]) -> (r: IBytes)
        requires
            old(pool).wf(),
            old(pool).has_content(src@) ==> old(pool).count_of(src@) < u64::MAX,
        ensures
            final(pool).wf(),
            r@ == src@,
            final(pool).valid(r.0),
            final(pool).has_content(src@),
            r.0.slot as int == final(pool).slot_of(src@),
            old(pool).has_content(src@) ==> r.0.slot as int == old(pool).slot_of(src@) && final(pool).count_of(src@) == old(pool).count_of(src@) + 1 && final(pool).live_count() == old(pool).live_count(),
            !old(pool).has_content(src@) ==> final(pool).count_of(src@) == 1 && final(pool).live_count() == old(pool).live_count() + 1,
            forall|s: Seq<u8>|
                s != src@ ==> (#[trigger] final(pool).has_content(s) <==> old(pool).has_content(
                    s,
                )),
            forall|h2: Handle| old(pool).valid(h2) ==> #[trigger] final(pool).valid(h2),
    {
        IBytes(pool.intern(src))
    }

    /// Interns the UTF-8 bytes of `src`.
    pub fn from_str(pool: &mut Pool, src: &str) -> (r: IBytes)
        requires
            old(pool).wf(),
            old(pool).has_content(src.spec_bytes()) ==> old(pool).count_of(src.spec_bytes())
                < u64::MAX,
        ensures
            final(pool).wf(),
            r@ == src.spec_bytes(),
            final(pool).valid(r.0),
            final(pool).has_content(src.spec_bytes()),
            r.0.slot as int == final(pool).slot_of(src.spec_bytes()),
            old(pool).has_content(src.spec_bytes()) ==> final(pool).count_of(src.spec_bytes())
                == old(pool).count_of(src.spec_bytes()) + 1 && final(pool).live_count() == old(pool).live_count(),
            !old(pool).has_content(src.spec_bytes()) ==> final(pool).count_of(src.spec_bytes())
                == 1 && final(pool).live_count() == old(pool).live_count() + 1,
            forall|s: Seq<u8>|
                s != src.spec_bytes() ==> (#[trigger] final(pool).has_content(s) <==> old(pool).has_content(s)),
            forall|h2: Handle| old(pool).valid(h2) ==> #[trigger] final(pool).valid(h2),
    {
        IBytes(pool.intern(src.as_bytes()))
    }

    /// The interned byte content.
    pub fn as_bytes(&self) -> (r: &[u8])
        ensures
            r@ == self@,
    {
        self.0.bytes()
    }

    /// Clones this view: a second handle to the same canonical slot, with
    /// the slot's reference count incremented.
    pub fn clone_in(&self, pool: &mut Pool) -> (r: IBytes)
        requires
            old(pool).wf(),
            old(pool).valid(self.0),
            old(pool).count_of(self@) < u64::MAX,
        ensures
            final(pool).wf(),
            r@ == self@,
            r.0.slot == self.0.slot,
            final(pool).valid(r.0),
            final(pool).valid(self.0),
            final(pool).count_of(self@) == old(pool).count_of(self@) + 1,
            final(pool).live_count() == old(pool).live_count(),
            forall|h2: Handle| old(pool).valid(h2) ==> #[trigger] final(pool).valid(h2),
    {
        IBytes(pool.clone_handle(&self.0))
    }

    /// Releases this view's handle back to the pool.
    pub fn release(self, pool: &mut Pool)
        requires
            old(pool).wf(),
            old(pool).valid(self.0),
        ensures
            final(pool).wf(),
            old(pool).count_of(self@) == 1 ==> !final(pool).has_content(self@) && final(pool).live_count() == old(pool).live_count() - 1,
            old(pool).count_of(self@) > 1 ==> final(pool).has_content(self@) && final(pool).count_of(self@) == old(pool).count_of(self@) - 1 && final(pool).live_count() == old(pool).live_count(),
            forall|s: Seq<u8>|
                s != self@ ==> (#[trigger] final(pool).has_content(s) <==> old(pool).has_content(
                    s,
                )),
            forall|s: Seq<u8>|
                s != self@ && old(pool).has_content(s) ==> #[trigger] final(pool).count_of(s)
                    == old(pool).count_of(s),
            forall|h2: Handle| old(pool).valid(h2) && h2@ != self@ ==> #[trigger] final(pool).valid(h2),
            old(pool).count_of(self@) > 1 ==> forall|h2: Handle|
                old(pool).valid(h2) ==> #[trigger] final(pool).valid(h2),
    {
        pool.release(self.0)
    }

    /// Checks the content for UTF-8 validity and, when it is valid, wraps
    /// a fresh handle to the same slot as interned text.  The pool is
    /// untouched when the content is not valid UTF-8.
    pub fn to_istr(&self, pool: &mut Pool) -> (r: Option<IStr>)
        requires
            old(pool).wf(),
            old(pool).valid(self.0),
            old(pool).count_of(self@) < u64::MAX,
        ensures
            final(pool).wf(),
            r is Some <==> valid_utf8(self@),
            r is Some ==> {
                &&& r->Some_0@ == self@
                &&& r->Some_0.wf()
                &&& final(pool).valid(r->Some_0.0)
                &&& final(pool).count_of(self@) == old(pool).count_of(self@) + 1
                &&& final(pool).live_count() == old(pool).live_count()
            },
            r is None ==> *final(pool) == *old(pool),
            final(pool).valid(self.0),
            forall|h2: Handle| old(pool).valid(h2) ==> #[trigger] final(pool).valid(h2),
    {
        if utf8_check(self.0.bytes()) {
            Some(IStr(pool.clone_handle(&self.0)))
        } else {
            None
        }
    }
}

impl PartialEq for IBytes {
    /// Interned byte strings are equal exactly when their contents are.
    fn eq(&self, other: &IBytes) -> (r: bool) {
        bytes_eq(self.0.bytes(), other.0.bytes())
    }
}

impl vstd::std_specs::cmp::PartialEqSpecImpl for IBytes {
    open spec fn obeys_eq_spec() -> bool {
        true
    }

    open spec fn eq_spec(&self, other: &IBytes) -> bool {
        self@ == other@
    }
}

impl PartialOrd for IBytes {
    /// Interned byte strings order lexicographically by content.
    fn partial_cmp(&self, other: &IBytes) -> (r: Option<core::cmp::Ordering>) {
        proof {
            lemma_lex_trichotomy(self@, other@);
        }
        if bytes_eq(self.0.bytes(), other.0.bytes()) {
            Some(core::cmp::Ordering::Equal)
        } else if lex_lt_bytes(self.0.bytes(), other.0.bytes()) {
            Some(core::cmp::Ordering::Less)
        } else {
            Some(core::cmp::Ordering::Greater)
        }
    }
}

impl vstd::std_specs::cmp::PartialOrdSpecImpl for IBytes {
    open spec fn obeys_partial_cmp_spec() -> bool {
        true
    }

    open spec fn partial_cmp_spec(&self, other: &IBytes) -> Option<core::cmp::Ordering> {
        if lex_lt(self@, other@) {
            Some(core::cmp::Ordering::Less)
        } else if lex_lt(other@, self@) {
            Some(core::cmp::Ordering::Greater)
        } else {
            Some(core::cmp::Ordering::Equal)
        }
    }
}

/// Interned text: an interned byte string whose content is valid UTF-8.
pub struct IStr(pub Handle);

impl View for IStr {
    type V = Seq<u8>;

    /// Interned text is viewed as its UTF-8 byte content.
    open spec fn view(&self) -> Seq<u8> {
        self.0@
    }
}

impl IStr {
    /// Well-formedness: the content is valid UTF-8.  Every `IStr` built by
    /// this crate satisfies it.
    pub open spec fn wf(self) -> bool {
        valid_utf8(self@)
    }

    /// The text as a string slice.
    pub fn as_str(&self) -> (r: &str)
        requires
            self.wf(),
        ensures
            r.spec_bytes() == self@,
    {
        utf8_to_str(self.0.bytes())
    }

    /// The text's raw bytes.
    pub fn as_bytes(&self) -> (r: &[u8])
        ensures
            r@ == self@,
    {
        self.0.bytes()
    }

    /// Reinterprets this text view as a raw byte view of the same handle;
    /// no pool operation happens, the reference count is unchanged.
    pub fn to_ibytes(self) -> (r: IBytes)
        ensures
            r@ == self@,
            r.0 == self.0,
    {
        IBytes(self.0)
    }
}

impl PartialEq for IStr {
    /// Interned texts are equal exactly when their contents are, the same
    /// equality every view shares with the underlying handle.
    fn eq(&self, other: &IStr) -> (r: bool) {
        bytes_eq(self.0.bytes(), other.0.bytes())
    }
}

impl vstd::std_specs::cmp::PartialEqSpecImpl for IStr {
    open spec fn obeys_eq_spec() -> bool {
        true
    }

    open spec fn eq_spec(&self, other: &IStr) -> bool {
        self@ == other@
    }
}

/// Seam for byte-oriented decoders: hands each decoded byte slice to the
/// pool, yielding the interned byte string.
pub struct Visitor;

impl Visitor {
    /// Interns the visited byte slice.
    pub fn visit_bytes(self, pool: &mut Pool, value: &[u8]) -> (r: IBytes)
        requires
            old(pool).wf(),
            old(pool).has_content(value@) ==> old(pool).count_of(value@) < u64::MAX,
        ensures
            final(pool).wf(),
            r@ == value@,
            final(pool).valid(r.0),
            final(pool).has_content(value@),
            r.0.slot as int == final(pool).slot_of(value@),
            old(pool).has_content(value@) ==> final(pool).count_of(value@) == old(pool).count_of(
                value@,
            ) + 1 && final(pool).live_count() == old(pool).live_count(),
            !old(pool).has_content(value@) ==> final(pool).count_of(value@) == 1 && final(pool).live_count() == old(pool).live_count() + 1,
            forall|s: Seq<u8>|
                s != value@ ==> (#[trigger] final(pool).has_content(s) <==> old(pool).has_content(
                    s,
                )),
            forall|h2: Handle| old(pool).valid(h2) ==> #[trigger] final(pool).valid(h2),
    {
        IBytes::new(pool, value)
    }
}

} // verus!
