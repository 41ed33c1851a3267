//! The interning engine: a pool of canonical, reference-counted byte
//! buffers, and the handles that refer to them.
//!
//! The pool owns at most one live slot per distinct byte sequence (strict
//! dedup).  `intern` returns a handle to the canonical slot for the given
//! content, creating the slot with reference count 1 when the content is
//! new and incrementing the existing count otherwise.  `clone_handle`
//! increments the count, and `release` decrements it, erasing the slot the
//! moment its count reaches zero, so the pool holds exactly the contents
//! with at least one live handle.  Slot storage is an arena indexed by slot
//! number; erased slot numbers are reused by later insertions.

use vstd::prelude::*;

use crate::hash::{fnv1a, hash_bytes};
use crate::order::{bytes_eq, lemma_lex_trichotomy, lex_lt, lex_lt_bytes};
use vstd::std_specs::cmp::PartialOrdSpec;

verus! {

/// Number of live slots in a slot arena.
pub open spec fn count_live(s: Seq<Option<Vec<u8>>>) -> nat
    decreases s.len(),
{
    if s.len() == 0 {
        0
    } else {
        count_live(s.drop_last()) + (if s.last() is Some {
            1nat
        } else {
            0nat
        })
    }
}

proof fn lemma_count_live_push(s: Seq<Option<Vec<u8>>>, v: Option<Vec<u8>>)
    ensures
        count_live(s.push(v)) == count_live(s) + (if v is Some {
            1nat
        } else {
            0nat
        }),
{
    assert(s.push(v).drop_last() =~= s);
}

proof fn lemma_count_live_le_len(s: Seq<Option<Vec<u8>>>)
    ensures
        count_live(s) <= s.len(),
    decreases s.len(),
{
    if s.len() > 0 {
        lemma_count_live_le_len(s.drop_last());
    }
}

proof fn lemma_count_live_lt_len(s: Seq<Option<Vec<u8>>>, i: int)
    requires
        0 <= i < s.len(),
        s[i] is None,
    ensures
        count_live(s) < s.len(),
    decreases s.len(),
{
    if i == s.len() - 1 {
        lemma_count_live_le_len(s.drop_last());
    } else {
        lemma_count_live_lt_len(s.drop_last(), i);
    }
}

/// Copies a byte slice into an owned buffer.
fn copy_bytes(src: &[u8]) -> (v: Vec<u8>)
    ensures
        v@ == src@,
{
    let mut v: Vec<u8> = Vec::new();
    let mut i: usize = 0;
    while i < src.len()
        invariant
            i <= src@.len(),
            v@ == src@.take(i as int),
        decreases src@.len() - i,
    {
        v.push(src[i]);
        proof {
            assert(src@.take(i as int).push(src@[i as int]) =~= src@.take(i + 1));
        }
        i = i + 1;
    }
    proof {
        assert(src@.take(i as int) =~= src@);
    }
    v
}

/// When two pools agree on every slot but `x`, they agree on every content
/// whose canonical slot is not `x`.
proof fn lemma_content_frame(p1: Pool, p2: Pool, x: int)
    requires
        p1.wf(),
        p2.wf(),
        forall|j: int| j != x ==> (#[trigger] p1.live_at(j) <==> #[trigger] p2.live_at(j)),
        forall|j: int|
            j != x && p1.live_at(j) ==> #[trigger] p2.slot_bytes(j) == p1.slot_bytes(j)
                && p2.slot_count(j) == p1.slot_count(j),
    ensures
        forall|s: Seq<u8>|
            #[trigger] p1.has_content(s) && p1.slot_of(s) != x ==> p2.has_content(s)
                && p2.slot_of(s) == p1.slot_of(s) && p2.count_of(s) == p1.count_of(s),
{
    assert forall|s: Seq<u8>| #[trigger] p1.has_content(s) && p1.slot_of(s) != x implies p2.has_content(s)
        && p2.slot_of(s) == p1.slot_of(s) && p2.count_of(s) == p1.count_of(s) by {
        let j = p1.slot_of(s);
        assert(p1.live_at(j) && p1.slot_bytes(j) == s);
        assert(p2.live_at(j));
        assert(p2.slot_bytes(j) == s);
        p2.lemma_slot_of_unique(s, j);
    }
}

proof fn lemma_count_live_update(s: Seq<Option<Vec<u8>>>, i: int, v: Option<Vec<u8>>)
    requires
        0 <= i < s.len(),
    ensures
        count_live(s.update(i, v)) + (if s[i] is Some {
            1nat
        } else {
            0nat
        }) == count_live(s) + (if v is Some {
            1nat
        } else {
            0nat
        }),
    decreases s.len(),
{
    if i == s.len() - 1 {
        assert(s.update(i, v).drop_last() =~= s.drop_last());
        assert(s.update(i, v).last() == v);
    } else {
        assert(s.update(i, v).drop_last() =~= s.drop_last().update(i, v));
        assert(s.update(i, v).last() == s.last());
        lemma_count_live_update(s.drop_last(), i, v);
        assert(s.drop_last()[i] == s[i]);
    }
}

/// A capability referring to one canonical slot of a [`Pool`].  It records
/// the slot number and carries the slot's byte content, so that content
/// access, equality, ordering and hashing never go back to the pool.
pub struct Handle {
    pub slot: usize,
    pub data: Vec<u8>,
}

impl View for Handle {
    type V = Seq<u8>;

    /// A handle is viewed as the byte content it stands for.
    open spec fn view(&self) -> Seq<u8> {
        self.data@
    }
}

impl Handle {
    /// The interned bytes this handle stands for.  Stable for the handle's
    /// whole lifetime, and equal to the canonical slot's content while the
    /// handle is valid.
    pub fn bytes(&self) -> (r: &[u8])
        ensures
            r@ == self@,
    {
        self.data.as_slice()
    }

    /// The handle's hash: the content hash of the bytes it stands for, so a
    /// handle and a raw buffer with equal bytes hash identically.
    pub fn content_hash(&self) -> (r: u64)
        ensures
            r == fnv1a(self@),
    {
        hash_bytes(self.data.as_slice())
    }
}

impl PartialEq for Handle {
    /// Handles are equal exactly when their byte contents are equal.
    /// Within one pool, dedup makes this coincide with slot identity
    /// ([`Pool::lemma_slot_identity`]); the comparison itself reads only
    /// the contents, so it is meaningful across pools as well.
    fn eq(&self, other: &Handle) -> (r: bool) {
        bytes_eq(self.data.as_slice(), other.data.as_slice())
    }
}

impl vstd::std_specs::cmp::PartialEqSpecImpl for Handle {
    open spec fn obeys_eq_spec() -> bool {
        true
    }

    open spec fn eq_spec(&self, other: &Handle) -> bool {
        self@ == other@
    }
}

impl PartialOrd for Handle {
    /// Handles order by the lexicographic order of their byte contents,
    /// never by slot identity.
    fn partial_cmp(&self, other: &Handle) -> (r: Option<core::cmp::Ordering>) {
        proof {
            lemma_lex_trichotomy(self@, other@);
        }
        if bytes_eq(self.data.as_slice(), other.data.as_slice()) {
            Some(core::cmp::Ordering::Equal)
        } else if lex_lt_bytes(self.data.as_slice(), other.data.as_slice()) {
            Some(core::cmp::Ordering::Less)
        } else {
            Some(core::cmp::Ordering::Greater)
        }
    }
}

impl vstd::std_specs::cmp::PartialOrdSpecImpl for Handle {
    open spec fn obeys_partial_cmp_spec() -> bool {
        true
    }

    open spec fn partial_cmp_spec(&self, other: &Handle) -> Option<core::cmp::Ordering> {
        if lex_lt(self@, other@) {
            Some(core::cmp::Ordering::Less)
        } else if lex_lt(other@, self@) {
            Some(core::cmp::Ordering::Greater)
        } else {
            Some(core::cmp::Ordering::Equal)
        }
    }
}

/// Law: a handle compares strictly below another exactly when its content
/// is lexicographically less; handles with equal content compare equal.
pub proof fn lemma_order_consistency(a: Handle, b: Handle)
    ensures
        a.partial_cmp_spec(&b) == Some(core::cmp::Ordering::Less) <==> lex_lt(a@, b@),
        a.partial_cmp_spec(&b) == Some(core::cmp::Ordering::Equal) <==> a@ == b@,
        a.partial_cmp_spec(&b) == Some(core::cmp::Ordering::Greater) <==> lex_lt(b@, a@),
{
    lemma_lex_trichotomy(a@, b@);
}

/// Law: a handle hashes exactly as its raw byte content does, so handles
/// and plain buffers with equal bytes land in the same hash bucket.
pub proof fn lemma_hash_consistency(h: Handle, raw: Seq<u8>)
    requires
        h@ == raw,
    ensures
        fnv1a(h@) == fnv1a(raw),
{
}

/// The intern pool: an arena of canonical byte buffers with, per slot, a
/// reference count and a cached content hash.  Free arena positions are
/// `None` in `bufs`; their `counts`/`hashes` entries are dead storage.
pub struct Pool {
    pub bufs: Vec<Option<Vec<u8>>>,
    pub counts: Vec<u64>,
    pub hashes: Vec<u64>,
    pub live: usize,
}

impl Pool {
    /// True when arena position `i` holds a live slot.
    pub open spec fn live_at(self, i: int) -> bool {
        0 <= i < self.bufs@.len() && self.bufs@[i] is Some
    }

    /// The byte content of the live slot at position `i`.
    pub open spec fn slot_bytes(self, i: int) -> Seq<u8>
        recommends
            self.live_at(i),
    {
        self.bufs@[i]->Some_0@
    }

    /// The reference count of the live slot at position `i`.
    pub open spec fn slot_count(self, i: int) -> nat
        recommends
            self.live_at(i),
    {
        self.counts@[i] as nat
    }

    /// True when some live slot holds exactly the content `s`.
    pub open spec fn has_content(self, s: Seq<u8>) -> bool {
        exists|i: int| #[trigger] self.live_at(i) && self.slot_bytes(i) == s
    }

    /// The canonical slot number for content `s`; meaningful only when
    /// `has_content(s)` holds, in which case dedup makes it unique.
    pub open spec fn slot_of(self, s: Seq<u8>) -> int {
        choose|i: int| #[trigger] self.live_at(i) && self.slot_bytes(i) == s
    }

    /// The reference count of the canonical slot for content `s`.
    pub open spec fn count_of(self, s: Seq<u8>) -> nat
        recommends
            self.has_content(s),
    {
        self.slot_count(self.slot_of(s))
    }

    /// The number of live slots, i.e. of distinct interned contents.
    pub open spec fn live_count(self) -> nat {
        count_live(self.bufs@)
    }

    /// Well-formedness of a live slot: a positive reference count and the
    /// cached hash of its content.
    pub open spec fn slot_wf(self, i: int) -> bool {
        &&& self.slot_count(i) >= 1
        &&& self.hashes@[i] == fnv1a(self.slot_bytes(i))
    }

    /// Pool invariant: the parallel arenas agree in length, every live slot
    /// is well-formed, no two live slots hold equal content (strict dedup),
    /// and `live` counts the live slots.
    pub open spec fn wf(self) -> bool {
        &&& self.counts@.len() == self.bufs@.len()
        &&& self.hashes@.len() == self.bufs@.len()
        &&& forall|i: int| #[trigger] self.live_at(i) ==> self.slot_wf(i)
        &&& forall|i: int, j: int|
            self.live_at(i) && self.live_at(j) && i != j ==> #[trigger] self.slot_bytes(i)
                != #[trigger] self.slot_bytes(j)
        &&& self.live == self.live_count()
    }

    /// True when `h` is a live capability of this pool: its slot number
    /// refers to a live slot whose content is the handle's content.
    pub open spec fn valid(self, h: Handle) -> bool {
        &&& self.live_at(h.slot as int)
        &&& self.slot_bytes(h.slot as int) == h@
    }

    /// In a well-formed pool, a valid handle's slot number is the canonical
    /// slot number of its content.
    pub proof fn lemma_valid_slot_of(self, h: Handle)
        requires
            self.wf(),
            self.valid(h),
        ensures
            self.has_content(h@),
            self.slot_of(h@) == h.slot as int,
            self.count_of(h@) >= 1,
    {
        assert(self.live_at(h.slot as int) && self.slot_bytes(h.slot as int) == h@);
        let j = self.slot_of(h@);
        assert(self.live_at(j) && self.slot_bytes(j) == h@);
    }

    /// In a well-formed pool, two valid handles with equal content refer to
    /// the same canonical slot, and handles with unequal content never do.
    pub proof fn lemma_slot_identity(self, h1: Handle, h2: Handle)
        requires
            self.wf(),
            self.valid(h1),
            self.valid(h2),
        ensures
            h1@ == h2@ <==> h1.slot == h2.slot,
    {
        self.lemma_valid_slot_of(h1);
        self.lemma_valid_slot_of(h2);
    }

    /// Creates an empty pool.
    pub fn new() -> (p: Pool)
        ensures
            p.wf(),
            p.live_count() == 0,
            forall|s: Seq<u8>| !(#[trigger] p.has_content(s)),
    {
        Pool { bufs: Vec::new(), counts: Vec::new(), hashes: Vec::new(), live: 0 }
    }

    /// The number of distinct byte sequences currently interned.
    pub fn len(&self) -> (n: usize)
        requires
            self.wf(),
        ensures
            n == self.live_count(),
    {
        self.live
    }

    /// Looks up the slot holding content `src`, comparing the cached hash
    /// first and the bytes only on a hash match.
    fn find_slot(&self, src: &[u8], h64: u64) -> (r: Option<usize>)
        requires
            self.wf(),
            h64 == fnv1a(src@),
        ensures
            match r {
                Some(i) => self.live_at(i as int) && self.slot_bytes(i as int) == src@,
                None => !self.has_content(src@),
            },
    {
        let n = self.bufs.len();
        let mut i: usize = 0;
        while i < n
            invariant
                self.wf(),
                h64 == fnv1a(src@),
                n == self.bufs@.len(),
                i <= n,
                forall|j: int|
                    0 <= j < i && #[trigger] self.live_at(j) ==> self.slot_bytes(j) != src@,
            decreases n - i,
        {
            match &self.bufs[i] {
                Some(buf) => {
                    proof {
                        assert(self.live_at(i as int));
                    }
                    if self.hashes[i] == h64 {
                        if bytes_eq(buf.as_slice(), src) {
                            return Some(i);
                        }
                    }
                },
                None => {},
            }
            i = i + 1;
        }
        proof {
            if self.has_content(src@) {
                let j = choose|j: int| #[trigger] self.live_at(j) && self.slot_bytes(j) == src@;
                assert(self.slot_bytes(j) != src@);
            }
        }
        None
    }

    /// A live slot with content `s` is the canonical slot for `s`: under
    /// dedup there can be no other.
    pub proof fn lemma_slot_of_unique(self, s: Seq<u8>, i: int)
        requires
            self.wf(),
            self.live_at(i),
            self.slot_bytes(i) == s,
        ensures
            self.has_content(s),
            self.slot_of(s) == i,
            self.count_of(s) == self.slot_count(i),
    {
        assert(self.has_content(s)) by {
            assert(self.live_at(i) && self.slot_bytes(i) == s);
        }
        let j = self.slot_of(s);
        assert(self.live_at(j) && self.slot_bytes(j) == s);
        if j != i {
            assert(self.slot_bytes(i) != self.slot_bytes(j));
        }
    }

    /// Finds a free arena position, if any.
    fn find_free(&self) -> (r: Option<usize>)
        ensures
            match r {
                Some(i) => (i as int) < self.bufs@.len() && !self.live_at(i as int),
                None => true,
            },
    {
        let n = self.bufs.len();
        let mut i: usize = 0;
        while i < n
            invariant
                n == self.bufs@.len(),
                i <= n,
            decreases n - i,
        {
            match &self.bufs[i] {
                Some(_) => {},
                None => {
                    return Some(i);
                },
            }
            i = i + 1;
        }
        None
    }

    /// The reference count of the canonical slot for `src`, or 0 when the
    /// content is not interned.
    pub fn refcount(&self, src: &[u8]) -> (r: u64)
        requires
            self.wf(),
        ensures
            self.has_content(src@) ==> r as nat == self.count_of(src@),
            !self.has_content(src@) ==> r == 0,
    {
        let h64 = hash_bytes(src);
        match self.find_slot(src, h64) {
            Some(i) => {
                proof {
                    self.lemma_slot_of_unique(src@, i as int);
                }
                self.counts[i]
            },
            None => 0,
        }
    }

    /// Interns `src`: returns a handle to the canonical slot for that
    /// content, incrementing the slot's reference count when the content is
    /// already present and inserting a fresh slot with count 1 otherwise.
    /// No other content's slot, count or presence changes, and every handle
    /// that was valid stays valid.
    pub fn intern(&mut self, src: &[u8]) -> (h: Handle)
        requires
            old(self).wf(),
            old(self).has_content(src@) ==> old(self).count_of(src@) < u64::MAX,
        ensures
            final(self).wf(),
            h@ == src@,
            final(self).valid(h),
            final(self).has_content(src@),
            h.slot as int == final(self).slot_of(src@),
            old(self).has_content(src@) ==> h.slot as int == old(self).slot_of(src@)
                && final(self).count_of(src@) == old(self).count_of(src@) + 1
                && final(self).live_count() == old(self).live_count(),
            !old(self).has_content(src@) ==> final(self).count_of(src@) == 1 && final(self).live_count() == old(self).live_count() + 1,
            forall|s: Seq<u8>|
                s != src@ ==> (#[trigger] final(self).has_content(s) <==> old(self).has_content(s)),
            forall|s: Seq<u8>|
                s != src@ && old(self).has_content(s) ==> #[trigger] final(self).count_of(s) == old(self).count_of(s) && final(self).slot_of(s) == old(self).slot_of(s),
            forall|h2: Handle| old(self).valid(h2) ==> #[trigger] final(self).valid(h2),
    {
        let h64 = hash_bytes(src);
        match self.find_slot(src, h64) {
            Some(i) => {
                proof {
                    old(self).lemma_slot_of_unique(src@, i as int);
                }
                let c = self.counts[i];
                self.counts[i] = c + 1;
                let h = Handle { slot: i, data: copy_bytes(src) };
                proof {
                    let x = i as int;
                    assert(self.bufs@ == old(self).bufs@);
                    assert forall|k: int| #[trigger] self.live_at(k) implies self.slot_wf(k) by {
                        assert(old(self).live_at(k));
                        if k != x {
                            assert(self.slot_count(k) == old(self).slot_count(k));
                        }
                    }
                    assert forall|k: int, j: int|
                        self.live_at(k) && self.live_at(j) && k != j implies #[trigger] self.slot_bytes(
                        k,
                    ) != #[trigger] self.slot_bytes(j) by {
                        assert(self.slot_bytes(k) == old(self).slot_bytes(k));
                        assert(self.slot_bytes(j) == old(self).slot_bytes(j));
                        assert(old(self).live_at(k) && old(self).live_at(j));
                        assert(old(self).slot_bytes(k) != old(self).slot_bytes(j));
                    }
                    assert(self.wf());
                    assert(self.live_at(x) && self.slot_bytes(x) == src@);
                    self.lemma_slot_of_unique(src@, x);
                    lemma_content_frame(*old(self), *self, x);
                    lemma_content_frame(*self, *old(self), x);
                    assert forall|s: Seq<u8>| s != src@ implies (#[trigger] self.has_content(s)
                        <==> old(self).has_content(s)) by {
                        if old(self).has_content(s) {
                            assert(old(self).slot_of(s) != x);
                        }
                        if self.has_content(s) {
                            assert(self.slot_of(s) != x);
                        }
                    }
                    assert forall|s: Seq<u8>| s != src@ && old(self).has_content(s) implies #[trigger] self.count_of(
                        s,
                    ) == old(self).count_of(s) && self.slot_of(s) == old(self).slot_of(s) by {
                        assert(old(self).slot_of(s) != x);
                    }
                    assert forall|h2: Handle| old(self).valid(h2) implies #[trigger] self.valid(
                        h2,
                    ) by {
                        assert(self.live_at(h2.slot as int) == old(self).live_at(h2.slot as int));
                        if old(self).live_at(h2.slot as int) {
                            assert(self.slot_bytes(h2.slot as int) == old(self).slot_bytes(
                                h2.slot as int,
                            ));
                        }
                    }
                }
                h
            },
            None => {
                let owned = copy_bytes(src);
                let handle_bytes = copy_bytes(src);
                let i = match self.find_free() {
                    Some(i) => {
                        let n2 = self.bufs.len();
                        proof {
                            lemma_count_live_lt_len(self.bufs@, i as int);
                            lemma_count_live_update(self.bufs@, i as int, Some(owned));
                        }
                        self.bufs[i] = Some(owned);
                        self.counts[i] = 1;
                        self.hashes[i] = h64;
                        proof {
                            assert(self.bufs@.len() == n2);
                            lemma_count_live_le_len(self.bufs@);
                            assert(count_live(self.bufs@) == old(self).live_count() + 1);
                            assert(count_live(self.bufs@) <= n2);
                        }
                        i
                    },
                    None => {
                        let i = self.bufs.len();
                        proof {
                            lemma_count_live_push(self.bufs@, Some(owned));
                        }
                        self.bufs.push(Some(owned));
                        self.counts.push(1);
                        self.hashes.push(h64);
                        let n3 = self.bufs.len();
                        proof {
                            assert(self.bufs@.len() == n3);
                            lemma_count_live_le_len(self.bufs@);
                            assert(count_live(self.bufs@) == old(self).live_count() + 1);
                            assert(count_live(self.bufs@) <= n3);
                        }
                        i
                    },
                };
                self.live = self.live + 1;
                let h = Handle { slot: i, data: handle_bytes };
                proof {
                    let x = i as int;
                    assert(!old(self).live_at(x));
                    assert(self.live_at(x) && self.slot_bytes(x) == src@);
                    assert forall|j: int| j != x implies (#[trigger] self.live_at(j) <==> #[trigger] old(self).live_at(j)) by {}
                    assert forall|k: int| #[trigger] self.live_at(k) implies self.slot_wf(k) by {
                        if k != x {
                            assert(old(self).live_at(k));
                            assert(old(self).slot_wf(k));
                        }
                    }
                    assert forall|k: int, j: int|
                        self.live_at(k) && self.live_at(j) && k != j implies #[trigger] self.slot_bytes(
                        k,
                    ) != #[trigger] self.slot_bytes(j) by {
                        if k == x || j == x {
                            let other = if k == x {
                                j
                            } else {
                                k
                            };
                            assert(old(self).live_at(other));
                            if old(self).slot_bytes(other) == src@ {
                                assert(old(self).has_content(src@)) by {
                                    assert(old(self).live_at(other) && old(self).slot_bytes(other)
                                        == src@);
                                }
                            }
                        } else {
                            assert(old(self).slot_bytes(k) != old(self).slot_bytes(j));
                        }
                    }
                    assert(self.wf());
                    self.lemma_slot_of_unique(src@, x);
                    lemma_content_frame(*old(self), *self, x);
                    lemma_content_frame(*self, *old(self), x);
                    assert forall|s: Seq<u8>| s != src@ implies (#[trigger] self.has_content(s)
                        <==> old(self).has_content(s)) by {
                        if old(self).has_content(s) {
                            assert(old(self).slot_of(s) != x);
                        }
                        if self.has_content(s) {
                            assert(self.slot_of(s) != x);
                        }
                    }
                    assert forall|s: Seq<u8>| s != src@ && old(self).has_content(s) implies #[trigger] self.count_of(
                        s,
                    ) == old(self).count_of(s) && self.slot_of(s) == old(self).slot_of(s) by {
                        assert(old(self).slot_of(s) != x);
                    }
                    assert forall|h2: Handle| old(self).valid(h2) implies #[trigger] self.valid(
                        h2,
                    ) by {
                        assert(h2.slot as int != x);
                    }
                }
                h
            },
        }
    }

    /// Clones `h`: returns a second handle to the same canonical slot and
    /// the same content, incrementing the slot's reference count.  Nothing
    /// else about the pool changes, and every valid handle stays valid.
    pub fn clone_handle(&mut self, h: &Handle) -> (h2: Handle)
        requires
            old(self).wf(),
            old(self).valid(*h),
            old(self).count_of(h@) < u64::MAX,
        ensures
            final(self).wf(),
            h2@ == h@,
            h2.slot == h.slot,
            final(self).valid(h2),
            final(self).has_content(h@),
            final(self).slot_of(h@) == old(self).slot_of(h@),
            final(self).count_of(h@) == old(self).count_of(h@) + 1,
            final(self).live_count() == old(self).live_count(),
            forall|s: Seq<u8>|
                s != h@ ==> (#[trigger] final(self).has_content(s) <==> old(self).has_content(s)),
            forall|s: Seq<u8>|
                s != h@ && old(self).has_content(s) ==> #[trigger] final(self).count_of(s) == old(self).count_of(s) && final(self).slot_of(s) == old(self).slot_of(s),
            forall|h3: Handle| old(self).valid(h3) ==> #[trigger] final(self).valid(h3),
    {
        proof {
            old(self).lemma_valid_slot_of(*h);
        }
        let i = h.slot;
        let c = self.counts[i];
        self.counts[i] = c + 1;
        let h2 = Handle { slot: i, data: copy_bytes(h.data.as_slice()) };
        proof {
            let x = i as int;
            assert(self.bufs@ == old(self).bufs@);
            assert forall|k: int| #[trigger] self.live_at(k) implies self.slot_wf(k) by {
                assert(old(self).live_at(k));
                if k != x {
                    assert(self.slot_count(k) == old(self).slot_count(k));
                }
            }
            assert forall|k: int, j: int|
                self.live_at(k) && self.live_at(j) && k != j implies #[trigger] self.slot_bytes(
                k,
            ) != #[trigger] self.slot_bytes(j) by {
                assert(self.slot_bytes(k) == old(self).slot_bytes(k));
                assert(self.slot_bytes(j) == old(self).slot_bytes(j));
                assert(old(self).live_at(k) && old(self).live_at(j));
                assert(old(self).slot_bytes(k) != old(self).slot_bytes(j));
            }
            assert(self.wf());
            assert(self.live_at(x) && self.slot_bytes(x) == h@);
            self.lemma_slot_of_unique(h@, x);
            lemma_content_frame(*old(self), *self, x);
            lemma_content_frame(*self, *old(self), x);
            assert forall|s: Seq<u8>| s != h@ implies (#[trigger] self.has_content(s) <==> old(self).has_content(s)) by {
                if old(self).has_content(s) {
                    assert(old(self).slot_of(s) != x);
                }
                if self.has_content(s) {
                    assert(self.slot_of(s) != x);
                }
            }
            assert forall|s: Seq<u8>| s != h@ && old(self).has_content(s) implies #[trigger] self.count_of(
                s,
            ) == old(self).count_of(s) && self.slot_of(s) == old(self).slot_of(s) by {
                assert(old(self).slot_of(s) != x);
            }
            assert forall|h3: Handle| old(self).valid(h3) implies #[trigger] self.valid(h3) by {
                assert(self.live_at(h3.slot as int) == old(self).live_at(h3.slot as int));
                if old(self).live_at(h3.slot as int) {
                    assert(self.slot_bytes(h3.slot as int) == old(self).slot_bytes(
                        h3.slot as int,
                    ));
                }
            }
        }
        h2
    }

    /// Releases `h`, consuming it: decrements its slot's reference count
    /// and, the moment the count reaches zero, erases the slot, so the
    /// content of a fully released handle leaves the pool.  Nothing else
    /// about the pool changes.
    pub fn release(&mut self, h: Handle)
        requires
            old(self).wf(),
            old(self).valid(h),
        ensures
            final(self).wf(),
            old(self).count_of(h@) == 1 ==> !final(self).has_content(h@) && final(self).live_count() == old(self).live_count() - 1,
            old(self).count_of(h@) > 1 ==> final(self).has_content(h@) && final(self).slot_of(h@)
                == old(self).slot_of(h@) && final(self).count_of(h@) == old(self).count_of(h@) - 1
                && final(self).live_count() == old(self).live_count(),
            forall|s: Seq<u8>|
                s != h@ ==> (#[trigger] final(self).has_content(s) <==> old(self).has_content(s)),
            forall|s: Seq<u8>|
                s != h@ && old(self).has_content(s) ==> #[trigger] final(self).count_of(s) == old(self).count_of(s) && final(self).slot_of(s) == old(self).slot_of(s),
            forall|h2: Handle| old(self).valid(h2) && h2@ != h@ ==> #[trigger] final(self).valid(
                h2,
            ),
            old(self).count_of(h@) > 1 ==> forall|h2: Handle|
                old(self).valid(h2) ==> #[trigger] final(self).valid(h2),
    {
        proof {
            old(self).lemma_valid_slot_of(h);
        }
        let i = h.slot;
        let c = self.counts[i];
        if c == 1 {
            proof {
                lemma_count_live_update(self.bufs@, i as int, None);
            }
            self.bufs[i] = None;
            proof {
                assert(count_live(self.bufs@) + 1 == old(self).live_count());
            }
            self.live = self.live - 1;
            proof {
                let x = i as int;
                assert forall|k: int| #[trigger] self.live_at(k) implies self.slot_wf(k) by {
                    assert(k != x);
                    assert(old(self).live_at(k));
                    assert(old(self).slot_wf(k));
                    assert(self.slot_bytes(k) == old(self).slot_bytes(k));
                    assert(self.slot_count(k) == old(self).slot_count(k));
                }
                assert forall|k: int, j: int|
                    self.live_at(k) && self.live_at(j) && k != j implies #[trigger] self.slot_bytes(
                    k,
                ) != #[trigger] self.slot_bytes(j) by {
                    assert(k != x && j != x);
                    assert(self.slot_bytes(k) == old(self).slot_bytes(k));
                    assert(self.slot_bytes(j) == old(self).slot_bytes(j));
                    assert(old(self).live_at(k) && old(self).live_at(j));
                    assert(old(self).slot_bytes(k) != old(self).slot_bytes(j));
                }
                assert(self.wf());
                assert(!self.has_content(h@)) by {
                    if self.has_content(h@) {
                        let j = self.slot_of(h@);
                        assert(self.live_at(j) && self.slot_bytes(j) == h@);
                        assert(j != x);
                        assert(self.slot_bytes(j) == old(self).slot_bytes(j));
                        assert(old(self).live_at(j));
                        assert(old(self).slot_bytes(j) != old(self).slot_bytes(x));
                    }
                }
                lemma_content_frame(*old(self), *self, x);
                lemma_content_frame(*self, *old(self), x);
                assert forall|s: Seq<u8>| s != h@ implies (#[trigger] self.has_content(s) <==> old(self).has_content(s)) by {
                    if old(self).has_content(s) {
                        assert(old(self).slot_of(s) != x);
                    }
                    if self.has_content(s) {
                        let j = self.slot_of(s);
                        assert(self.live_at(j) && self.slot_bytes(j) == s);
                        assert(j != x);
                        self.lemma_slot_of_unique(s, j);
                    }
                }
                assert forall|s: Seq<u8>| s != h@ && old(self).has_content(s) implies #[trigger] self.count_of(
                    s,
                ) == old(self).count_of(s) && self.slot_of(s) == old(self).slot_of(s) by {
                    assert(old(self).slot_of(s) != x);
                }
                assert forall|h2: Handle| old(self).valid(h2) && h2@ != h@ implies #[trigger] self.valid(
                    h2,
                ) by {
                    assert(h2.slot as int != x);
                    assert(self.live_at(h2.slot as int) == old(self).live_at(h2.slot as int));
                    assert(self.slot_bytes(h2.slot as int) == old(self).slot_bytes(
                        h2.slot as int,
                    ));
                }
            }
        } else {
            self.counts[i] = c - 1;
            proof {
                let x = i as int;
                assert(self.bufs@ == old(self).bufs@);
                assert forall|k: int| #[trigger] self.live_at(k) implies self.slot_wf(k) by {
                    assert(old(self).live_at(k));
                    if k != x {
                        assert(self.slot_count(k) == old(self).slot_count(k));
                    }
                }
                assert forall|k: int, j: int|
                    self.live_at(k) && self.live_at(j) && k != j implies #[trigger] self.slot_bytes(
                    k,
                ) != #[trigger] self.slot_bytes(j) by {
                    assert(self.slot_bytes(k) == old(self).slot_bytes(k));
                    assert(self.slot_bytes(j) == old(self).slot_bytes(j));
                    assert(old(self).live_at(k) && old(self).live_at(j));
                    assert(old(self).slot_bytes(k) != old(self).slot_bytes(j));
                }
                assert(self.wf());
                assert(self.live_at(x) && self.slot_bytes(x) == h@);
                self.lemma_slot_of_unique(h@, x);
                lemma_content_frame(*old(self), *self, x);
                lemma_content_frame(*self, *old(self), x);
                assert forall|s: Seq<u8>| s != h@ implies (#[trigger] self.has_content(s) <==> old(self).has_content(s)) by {
                    if old(self).has_content(s) {
                        assert(old(self).slot_of(s) != x);
                    }
                    if self.has_content(s) {
                        assert(self.slot_of(s) != x);
                    }
                }
                assert forall|s: Seq<u8>| s != h@ && old(self).has_content(s) implies #[trigger] self.count_of(
                    s,
                ) == old(self).count_of(s) && self.slot_of(s) == old(self).slot_of(s) by {
                    assert(old(self).slot_of(s) != x);
                }
                assert forall|h2: Handle| old(self).valid(h2) && h2@ != h@ implies #[trigger] self.valid(
                    h2,
                ) by {
                    assert(self.live_at(h2.slot as int) == old(self).live_at(h2.slot as int));
                    assert(self.slot_bytes(h2.slot as int) == old(self).slot_bytes(
                        h2.slot as int,
                    ));
                }
                assert forall|h2: Handle| old(self).valid(h2) implies #[trigger] self.valid(
                    h2,
                ) by {
                    assert(self.live_at(h2.slot as int) == old(self).live_at(h2.slot as int));
                    assert(self.slot_bytes(h2.slot as int) == old(self).slot_bytes(
                        h2.slot as int,
                    ));
                }
            }
        }
    }
}

} // verus!
