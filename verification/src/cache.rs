//! The bounded conversion-result store: a fingerprint-keyed collection with
//! least-recently-used eviction under an item-count cap and a total-byte cap.
//!
//! Entries are kept in recency order: index 0 is the least recently used.
//! Every stored entry is eligible for eviction; there is no retention floor,
//! and no entry expires on its own — an entry leaves the store only to keep
//! the two caps satisfied, or when a new payload replaces it under the same
//! fingerprint.

use vstd::prelude::*;

verus! {

/// The ghost image of one stored entry.
#[verifier::ext_equal]
pub ghost struct EntrySnap {
    pub fingerprint: u64,
    pub payload: Seq<u8>,
    pub content_type: Seq<char>,
    pub stored_at: int,
}

/// One stored conversion result. A payload is immutable once stored: the
/// store never mutates an entry in place, it only replaces or evicts it
/// whole, so no reader can observe a partially written payload.
pub struct CacheEntry {
    pub fingerprint: u64,
    pub payload: Vec<u8>,
    pub content_type: String,
    pub stored_at: i64,
}

impl View for CacheEntry {
    type V = EntrySnap;

    open spec fn view(&self) -> EntrySnap {
        EntrySnap {
            fingerprint: self.fingerprint,
            payload: self.payload@,
            content_type: self.content_type@,
            stored_at: self.stored_at as int,
        }
    }
}

/// The ghost images of a sequence of stored entries, in the same order.
pub open spec fn views_of(ents: Seq<CacheEntry>) -> Seq<EntrySnap> {
    Seq::new(ents.len(), |i: int| ents[i]@)
}

/// The total payload bytes held by a sequence of entries.
pub open spec fn total_size(s: Seq<EntrySnap>) -> nat
    decreases s.len(),
{
    if s.len() == 0 {
        0
    } else {
        s[0].payload.len() + total_size(s.drop_first())
    }
}

/// Whether some entry of `s` carries the fingerprint `fp`.
pub open spec fn has_fp(s: Seq<EntrySnap>, fp: u64) -> bool {
    exists|i: int| 0 <= i < s.len() && s[i].fingerprint == fp
}

/// No two entries share a fingerprint.
pub open spec fn unique_fps(s: Seq<EntrySnap>) -> bool {
    forall|i: int, j: int| 0 <= i < j < s.len() ==> s[i].fingerprint != s[j].fingerprint
}

/// The index of the first entry carrying `fp`, or -1 when there is none.
pub open spec fn index_of(s: Seq<EntrySnap>, fp: u64) -> int
    decreases s.len(),
{
    if s.len() == 0 {
        -1
    } else if s[0].fingerprint == fp {
        0
    } else if index_of(s.drop_first(), fp) == -1 {
        -1
    } else {
        1 + index_of(s.drop_first(), fp)
    }
}

/// The first entry carrying `fp`; meaningful only when `has_fp` holds.
pub open spec fn entry_of(s: Seq<EntrySnap>, fp: u64) -> EntrySnap {
    s[index_of(s, fp)]
}

/// What a lookup of `fp` observes in a store whose entries are `s`.
pub open spec fn lookup_spec(s: Seq<EntrySnap>, fp: u64) -> Option<EntrySnap> {
    if has_fp(s, fp) {
        Some(entry_of(s, fp))
    } else {
        None
    }
}

/// Whether a sequence of entries satisfies both configured caps.
pub open spec fn fits(s: Seq<EntrySnap>, item_cap: int, byte_cap: int) -> bool {
    s.len() <= item_cap && total_size(s) <= byte_cap
}

/// `s` with the entry carrying `fp` taken out, when there is one.
pub open spec fn remove_fp(s: Seq<EntrySnap>, fp: u64) -> Seq<EntrySnap> {
    if has_fp(s, fp) {
        s.remove(index_of(s, fp))
    } else {
        s
    }
}

/// The entries after inserting `e` at the most-recent end of `base`,
/// evicting least-recently-used entries first until both caps hold.
pub open spec fn evict_for(
    base: Seq<EntrySnap>,
    item_cap: int,
    byte_cap: int,
    e: EntrySnap,
) -> Seq<EntrySnap>
    decreases base.len(),
{
    if fits(base.push(e), item_cap, byte_cap) || base.len() == 0 {
        base.push(e)
    } else {
        evict_for(base.drop_first(), item_cap, byte_cap, e)
    }
}

/// Whether a payload of `payload_len` bytes can be held at all under the
/// caps: even an otherwise empty store cannot hold more than `byte_cap`
/// bytes, nor any entry when `item_cap` is zero.
pub open spec fn put_accepts(item_cap: int, byte_cap: int, payload_len: int) -> bool {
    item_cap >= 1 && payload_len <= byte_cap
}

/// The entries after a `put` of `e`: any previous entry under the same
/// fingerprint leaves first, then least-recently-used entries are evicted
/// until the new entry fits at the most-recent end.
pub open spec fn put_spec(
    s: Seq<EntrySnap>,
    item_cap: int,
    byte_cap: int,
    e: EntrySnap,
) -> Seq<EntrySnap> {
    evict_for(remove_fp(s, e.fingerprint), item_cap, byte_cap, e)
}

pub proof fn lemma_total_size_push(s: Seq<EntrySnap>, e: EntrySnap)
    ensures
        total_size(s.push(e)) == total_size(s) + e.payload.len(),
    decreases s.len(),
{
    if s.len() == 0 {
        assert(s.push(e)[0] == e);
        assert(s.push(e).drop_first() =~= Seq::<EntrySnap>::empty());
        assert(total_size(s.push(e)) == e.payload.len() + total_size(s.push(e).drop_first()));
        assert(total_size(s.push(e).drop_first()) == 0);
        assert(total_size(s) == 0);
    } else {
        assert(s.push(e)[0] == s[0]);
        assert(s.push(e).drop_first() =~= s.drop_first().push(e));
        lemma_total_size_push(s.drop_first(), e);
        assert(total_size(s.push(e)) == s[0].payload.len() + total_size(s.drop_first().push(e)));
        assert(total_size(s) == s[0].payload.len() + total_size(s.drop_first()));
    }
}

pub proof fn lemma_total_size_remove(s: Seq<EntrySnap>, i: int)
    requires
        0 <= i < s.len(),
    ensures
        total_size(s.remove(i)) == total_size(s) - s[i].payload.len(),
    decreases s.len(),
{
    s.remove_ensures(i);
    if i == 0 {
        assert(s.remove(0) =~= s.drop_first());
    } else {
        assert(s.remove(i)[0] == s[0]);
        assert(s.remove(i).drop_first() =~= s.drop_first().remove(i - 1));
        assert(s.drop_first()[i - 1] == s[i]);
        lemma_total_size_remove(s.drop_first(), i - 1);
    }
}

pub proof fn lemma_index_of(s: Seq<EntrySnap>, fp: u64)
    ensures
        has_fp(s, fp) ==> {
            &&& 0 <= index_of(s, fp) < s.len()
            &&& s[index_of(s, fp)].fingerprint == fp
            &&& forall|j: int| 0 <= j < index_of(s, fp) ==> s[j].fingerprint != fp
        },
        !has_fp(s, fp) ==> index_of(s, fp) == -1,
    decreases s.len(),
{
    if s.len() == 0 {
    } else if s[0].fingerprint == fp {
        assert(has_fp(s, fp));
    } else {
        lemma_index_of(s.drop_first(), fp);
        if has_fp(s.drop_first(), fp) {
            let i = index_of(s.drop_first(), fp);
            assert(s.drop_first()[i] == s[i + 1]);
            assert(has_fp(s, fp));
            assert forall|j: int| 0 <= j < index_of(s, fp) implies s[j].fingerprint != fp by {
                if j >= 1 {
                    assert(s.drop_first()[j - 1] == s[j]);
                }
            }
        } else {
            assert(!has_fp(s, fp)) by {
                if has_fp(s, fp) {
                    let i = choose|i: int| 0 <= i < s.len() && s[i].fingerprint == fp;
                    assert(s.drop_first()[i - 1] == s[i]);
                }
            }
        }
    }
}

/// The witness shape of an eviction: the survivors of `base` are exactly
/// its `k` most recently used entries, for some `k`.
pub open spec fn evicts_prefix(
    base: Seq<EntrySnap>,
    item_cap: int,
    byte_cap: int,
    e: EntrySnap,
    k: int,
) -> bool {
    &&& 0 <= k <= base.len()
    &&& evict_for(base, item_cap, byte_cap, e) == base.skip(k).push(e)
    &&& forall|j: int| 0 <= j < k ==> !fits(base.skip(j).push(e), item_cap, byte_cap)
}

/// Eviction always removes the least-recently-used entries first, and only
/// as many as needed: what an insertion into `base` evicts is a prefix of
/// the recency order — the `k` least recently used entries — and each of
/// them was evicted only because keeping it and everything more recent
/// would still not have fit beside the new entry.
pub proof fn lemma_eviction_lru_first(base: Seq<EntrySnap>, item_cap: int, byte_cap: int, e: EntrySnap)
    ensures
        exists|k: int| evicts_prefix(base, item_cap, byte_cap, e, k),
    decreases base.len(),
{
    if fits(base.push(e), item_cap, byte_cap) || base.len() == 0 {
        assert(base.skip(0) =~= base);
        assert(evicts_prefix(base, item_cap, byte_cap, e, 0));
    } else {
        lemma_eviction_lru_first(base.drop_first(), item_cap, byte_cap, e);
        let k0 = choose|k: int| evicts_prefix(base.drop_first(), item_cap, byte_cap, e, k);
        assert(base.drop_first().skip(k0) =~= base.skip(k0 + 1));
        assert(evicts_prefix(base, item_cap, byte_cap, e, k0 + 1)) by {
            assert forall|j: int| 0 <= j < k0 + 1 implies !fits(
                base.skip(j).push(e),
                item_cap,
                byte_cap,
            ) by {
                if j == 0 {
                    assert(base.skip(0) =~= base);
                } else {
                    assert(base.drop_first().skip(j - 1) =~= base.skip(j));
                }
            }
        }
    }
}

proof fn lemma_skip_no_fp(b: Seq<EntrySnap>, fp: u64, k: int)
    requires
        !has_fp(b, fp),
        0 <= k <= b.len(),
    ensures
        !has_fp(b.skip(k), fp),
{
    if has_fp(b.skip(k), fp) {
        let i = choose|i: int| 0 <= i < b.skip(k).len() && b.skip(k)[i].fingerprint == fp;
        assert(b.skip(k)[i] == b[k + i]);
    }
}

proof fn lemma_lookup_push_fresh(b: Seq<EntrySnap>, e: EntrySnap)
    requires
        !has_fp(b, e.fingerprint),
    ensures
        lookup_spec(b.push(e), e.fingerprint) == Some(e),
{
    let s = b.push(e);
    assert(s[b.len() as int] == e);
    assert(has_fp(s, e.fingerprint));
    lemma_index_of(s, e.fingerprint);
    let idx = index_of(s, e.fingerprint);
    if idx < b.len() {
        assert(s[idx] == b[idx]);
        assert(has_fp(b, e.fingerprint));
    }
    assert(entry_of(s, e.fingerprint) == e);
}

proof fn lemma_remove_fp_fresh(s: Seq<EntrySnap>, fp: u64)
    requires
        unique_fps(s),
    ensures
        !has_fp(remove_fp(s, fp), fp),
{
    if has_fp(s, fp) {
        lemma_index_of(s, fp);
        let i = index_of(s, fp);
        s.remove_ensures(i);
        if has_fp(s.remove(i), fp) {
            let j = choose|j: int|
                0 <= j < s.remove(i).len() && s.remove(i)[j].fingerprint == fp;
            if j < i {
                assert(s[j].fingerprint == fp);
            } else {
                assert(s[j + 1].fingerprint == fp);
            }
        }
    }
}

/// After a successful completion of the miss path for a fingerprint — a
/// `put` that was accepted — a lookup of that fingerprint is a hit and
/// observes exactly the entry that was stored, payload byte for byte.
pub proof fn lemma_completed_then_hit(s: Seq<EntrySnap>, item_cap: int, byte_cap: int, e: EntrySnap)
    requires
        unique_fps(s),
        put_accepts(item_cap, byte_cap, e.payload.len() as int),
    ensures
        lookup_spec(put_spec(s, item_cap, byte_cap, e), e.fingerprint) == Some(e),
{
    let base = remove_fp(s, e.fingerprint);
    lemma_remove_fp_fresh(s, e.fingerprint);
    lemma_eviction_lru_first(base, item_cap, byte_cap, e);
    let k = choose|k: int| evicts_prefix(base, item_cap, byte_cap, e, k);
    lemma_skip_no_fp(base, e.fingerprint, k);
    lemma_lookup_push_fresh(base.skip(k), e);
}

proof fn lemma_views_remove(ents: Seq<CacheEntry>, i: int)
    requires
        0 <= i < ents.len(),
    ensures
        views_of(ents.remove(i)) =~= views_of(ents).remove(i),
{
    ents.remove_ensures(i);
    views_of(ents).remove_ensures(i);
}

proof fn lemma_views_push(ents: Seq<CacheEntry>, e: CacheEntry)
    ensures
        views_of(ents.push(e)) =~= views_of(ents).push(e@),
{
}

/// The bounded store itself. `entries` is kept in recency order, least
/// recently used first; `total_bytes` caches the payload byte total.
pub struct CacheStore {
    entries: Vec<CacheEntry>,
    item_cap: usize,
    byte_cap: usize,
    total_bytes: usize,
}

impl View for CacheStore {
    type V = Seq<EntrySnap>;

    closed spec fn view(&self) -> Seq<EntrySnap> {
        views_of(self.entries@)
    }
}

impl CacheStore {
    /// The configured maximum number of entries.
    pub closed spec fn item_capacity(&self) -> usize {
        self.item_cap
    }

    /// The configured maximum total payload bytes.
    pub closed spec fn byte_capacity(&self) -> usize {
        self.byte_cap
    }

    /// The store's internal invariant: fingerprints are unique, both caps
    /// hold, and the byte accounting matches the entries.
    pub closed spec fn wf(&self) -> bool {
        &&& unique_fps(self@)
        &&& self@.len() <= self.item_cap as int
        &&& total_size(self@) <= self.byte_cap as int
        &&& self.total_bytes as int == total_size(self@)
    }

    /// After any sequence of `put`s the store holds at most `item_capacity`
    /// entries and at most `byte_capacity` payload bytes: every operation
    /// preserves `wf`, and `wf` bounds both counts.
    pub proof fn lemma_caps_respected(&self)
        requires
            self.wf(),
        ensures
            self@.len() <= self.item_capacity() as int,
            total_size(self@) <= self.byte_capacity() as int,
    {
    }

    /// Exports the uniqueness conjunct of the store invariant: no two
    /// entries of a well-formed store share a fingerprint.
    pub proof fn lemma_wf_fingerprints_unique(&self)
        requires
            self.wf(),
        ensures
            unique_fps(self@),
    {
    }

    /// An empty store under the given caps.
    pub fn new(item_cap: usize, byte_cap: usize) -> (s: CacheStore)
        ensures
            s.wf(),
            s@ == Seq::<EntrySnap>::empty(),
            s.item_capacity() == item_cap,
            s.byte_capacity() == byte_cap,
    {
        let s = CacheStore { entries: Vec::new(), item_cap, byte_cap, total_bytes: 0 };
        proof {
            assert(s@ =~= Seq::<EntrySnap>::empty());
        }
        s
    }

    /// The position of the entry carrying `fp`, if any.
    fn find_index(&self, fp: u64) -> (r: Option<usize>)
        ensures
            match r {
                Some(i) => has_fp(self@, fp) && i as int == index_of(self@, fp),
                None => !has_fp(self@, fp),
            },
    {
        let n = self.entries.len();
        let mut i: usize = 0;
        while i < n
            invariant
                i <= n,
                n == self.entries@.len(),
                self@ == views_of(self.entries@),
                forall|j: int| 0 <= j < i ==> self@[j].fingerprint != fp,
            decreases n - i,
        {
            if self.entries[i].fingerprint == fp {
                proof {
                    assert(self@[i as int] == self.entries@[i as int]@);
                    assert(has_fp(self@, fp));
                    lemma_index_of(self@, fp);
                }
                return Some(i);
            }
            proof {
                assert(self@[i as int] == self.entries@[i as int]@);
            }
            i = i + 1;
        }
        proof {
            assert(!has_fp(self@, fp)) by {
                if has_fp(self@, fp) {
                    let j = choose|j: int| 0 <= j < self@.len() && self@[j].fingerprint == fp;
                }
            }
        }
        None
    }

    /// Reads the entry stored under `fp`, if any, without touching recency.
    /// Read-only: any number of concurrent callers may share the store.
    pub fn lookup(&self, fp: u64) -> (r: Option<(Vec<u8>, String)>)
        ensures
            match r {
                Some(pc) => (lookup_spec(self@, fp) matches Some(e) && pc.0@ == e.payload
                    && pc.1@ == e.content_type),
                None => lookup_spec(self@, fp) is None,
            },
    {
        match self.find_index(fp) {
            Some(i) => {
                proof {
                    lemma_index_of(self@, fp);
                    assert(self@[i as int] == self.entries@[i as int]@);
                }
                let payload = clone_bytes(&self.entries[i].payload);
                let content_type = self.entries[i].content_type.clone();
                Some((payload, content_type))
            },
            None => None,
        }
    }

    /// Current `(itemCount, totalBytes)` for observability.
    pub fn stats(&self) -> (r: (usize, usize))
        requires
            self.wf(),
        ensures
            r.0 as int == self@.len(),
            r.1 as int == total_size(self@),
    {
        (self.entries.len(), self.total_bytes)
    }

    /// Promotes the entry stored under `fp`, if any, to most recently used.
    pub fn touch(&mut self, fp: u64)
        requires
            old(self).wf(),
        ensures
            final(self).wf(),
            final(self).item_capacity() == old(self).item_capacity(),
            final(self).byte_capacity() == old(self).byte_capacity(),
            has_fp(old(self)@, fp) ==> final(self)@ == old(self)@.remove(
                index_of(old(self)@, fp),
            ).push(entry_of(old(self)@, fp)),
            !has_fp(old(self)@, fp) ==> final(self)@ == old(self)@,
    {
        let ghost s0 = self@;
        let ghost ents0 = self.entries@;
        match self.find_index(fp) {
            Some(i) => {
                proof {
                    lemma_index_of(s0, fp);
                }
                let e = self.entries.remove(i);
                proof {
                    lemma_views_remove(ents0, i as int);
                    assert(self@ == s0.remove(i as int));
                    assert(e@ == s0[i as int]);
                    lemma_total_size_remove(s0, i as int);
                }
                let ghost s1 = self@;
                proof {
                    lemma_views_push(self.entries@, e);
                }
                self.entries.push(e);
                proof {
                    assert(self@ == s1.push(s0[i as int]));
                    lemma_total_size_push(s1, e@);
                    s0.remove_ensures(i as int);
                    assert(unique_fps(self@)) by {
                        assert forall|p: int, q: int|
                            0 <= p < q < self@.len() implies self@[p].fingerprint
                            != self@[q].fingerprint by {
                            if q == self@.len() - 1 {
                                assert(self@[q] == s0[i as int]);
                                if p < i {
                                    assert(self@[p] == s0[p]);
                                } else {
                                    assert(self@[p] == s0[p + 1]);
                                }
                            } else {
                                if p < i {
                                    assert(self@[p] == s0[p]);
                                } else {
                                    assert(self@[p] == s0[p + 1]);
                                }
                                if q < i {
                                    assert(self@[q] == s0[q]);
                                } else {
                                    assert(self@[q] == s0[q + 1]);
                                }
                            }
                        }
                    }
                }
            },
            None => {},
        }
    }

    /// Stores `payload` under `fp`, evicting least-recently-used entries as
    /// needed. Requires exclusive access for the duration of the mutation
    /// only; the payload must already be complete when this is called, so no
    /// partial entry is ever visible. Returns whether the entry was stored:
    /// a payload that can never fit (larger than the byte cap, or an item
    /// cap of zero) is not stored and leaves the store unchanged.
    pub fn put(
        &mut self,
        fp: u64,
        payload: Vec<u8>,
        content_type: String,
        stored_at: i64,
    ) -> (stored: bool)
        requires
            old(self).wf(),
        ensures
            final(self).wf(),
            final(self).item_capacity() == old(self).item_capacity(),
            final(self).byte_capacity() == old(self).byte_capacity(),
            stored == put_accepts(
                old(self).item_capacity() as int,
                old(self).byte_capacity() as int,
                payload@.len() as int,
            ),
            stored ==> final(self)@ == put_spec(
                old(self)@,
                old(self).item_capacity() as int,
                old(self).byte_capacity() as int,
                (EntrySnap {
                    fingerprint: fp,
                    payload: payload@,
                    content_type: content_type@,
                    stored_at: stored_at as int,
                }),
            ),
            stored ==> lookup_spec(final(self)@, fp) == Some(
                (EntrySnap {
                    fingerprint: fp,
                    payload: payload@,
                    content_type: content_type@,
                    stored_at: stored_at as int,
                }),
            ),
            !stored ==> final(self)@ == old(self)@,
    {
        let ghost snap = EntrySnap {
            fingerprint: fp,
            payload: payload@,
            content_type: content_type@,
            stored_at: stored_at as int,
        };
        let pl: usize = payload.len();
        if self.item_cap == 0 || pl > self.byte_cap {
            return false;
        }
        let ghost s0 = self@;
        let ghost ents0 = self.entries@;
        // Replace: an entry under the same fingerprint leaves first.
        match self.find_index(fp) {
            Some(i) => {
                proof {
                    lemma_index_of(s0, fp);
                }
                let e = self.entries.remove(i);
                proof {
                    lemma_views_remove(ents0, i as int);
                    assert(self@ == s0.remove(i as int));
                    assert(e@ == s0[i as int]);
                    lemma_total_size_remove(s0, i as int);
                }
                self.total_bytes = self.total_bytes - e.payload.len();
                proof {
                    s0.remove_ensures(i as int);
                    assert(unique_fps(self@)) by {
                        assert forall|p: int, q: int|
                            0 <= p < q < self@.len() implies self@[p].fingerprint
                            != self@[q].fingerprint by {
                            if p < i {
                                assert(self@[p] == s0[p]);
                            } else {
                                assert(self@[p] == s0[p + 1]);
                            }
                            if q < i {
                                assert(self@[q] == s0[q]);
                            } else {
                                assert(self@[q] == s0[q + 1]);
                            }
                        }
                    }
                    assert(!has_fp(self@, fp)) by {
                        if has_fp(self@, fp) {
                            let j = choose|j: int|
                                0 <= j < self@.len() && self@[j].fingerprint == fp;
                            if j < i {
                                assert(self@[j] == s0[j]);
                            } else {
                                assert(self@[j] == s0[j + 1]);
                            }
                            assert(forall|k: int|
                                0 <= k < index_of(s0, fp) ==> s0[k].fingerprint != fp);
                        }
                    }
                }
            },
            None => {},
        }
        let ghost base = self@;
        proof {
            assert(base == remove_fp(s0, fp));
            assert(!has_fp(base, fp));
        }
        let ghost icap = self.item_cap as int;
        let ghost bcap = self.byte_cap as int;
        // Evict least-recently-used entries until the new entry fits.
        while self.entries.len() >= self.item_cap || pl > self.byte_cap - self.total_bytes
            invariant
                self.item_cap as int == icap,
                self.byte_cap as int == bcap,
                icap >= 1,
                pl == payload@.len(),
                pl as int <= bcap,
                snap.payload == payload@,
                unique_fps(self@),
                !has_fp(self@, fp),
                self@ == views_of(self.entries@),
                self.total_bytes as int == total_size(self@),
                total_size(self@) <= bcap,
                evict_for(self@, icap, bcap, snap) == evict_for(base, icap, bcap, snap),
            decreases self.entries.len(),
        {
            let ghost cur = self@;
            let ghost entsc = self.entries@;
            proof {
                lemma_total_size_push(cur, snap);
                assert(!fits(cur.push(snap), icap, bcap));
                assert(cur.len() > 0) by {
                    if cur.len() == 0 {
                        assert(total_size(cur) == 0);
                    }
                }
            }
            let e = self.entries.remove(0);
            proof {
                lemma_views_remove(entsc, 0);
                assert(cur.remove(0) =~= cur.drop_first());
                assert(self@ == cur.drop_first());
                assert(e@ == cur[0]);
                assert(!has_fp(self@, fp)) by {
                    if has_fp(self@, fp) {
                        let j = choose|j: int| 0 <= j < self@.len() && self@[j].fingerprint == fp;
                        assert(cur.drop_first()[j] == cur[j + 1]);
                    }
                }
                assert(unique_fps(self@)) by {
                    assert forall|p: int, q: int|
                        0 <= p < q < self@.len() implies self@[p].fingerprint
                        != self@[q].fingerprint by {
                        assert(self@[p] == cur[p + 1]);
                        assert(self@[q] == cur[q + 1]);
                    }
                }
            }
            self.total_bytes = self.total_bytes - e.payload.len();
        }
        proof {
            lemma_total_size_push(self@, snap);
            assert(fits(self@.push(snap), icap, bcap));
            assert(evict_for(self@, icap, bcap, snap) == self@.push(snap));
        }
        let ghost before_push = self@;
        let new_entry = CacheEntry { fingerprint: fp, payload, content_type, stored_at };
        proof {
            assert(new_entry@ == snap);
            lemma_views_push(self.entries@, new_entry);
        }
        self.entries.push(new_entry);
        self.total_bytes = self.total_bytes + pl;
        proof {
            lemma_completed_then_hit(s0, icap, bcap, snap);
            assert(self@ == before_push.push(snap));
            assert(unique_fps(self@)) by {
                assert forall|p: int, q: int|
                    0 <= p < q < self@.len() implies self@[p].fingerprint != self@[q].fingerprint
                    by {
                    if q == self@.len() - 1 {
                        assert(self@[p] == before_push[p]);
                        assert(self@[q] == snap);
                    } else {
                        assert(self@[p] == before_push[p]);
                        assert(self@[q] == before_push[q]);
                    }
                }
            }
        }
        true
    }
}

/// Copies a byte vector. Used to hand a caller its own payload copy while
/// the store keeps the original.
pub fn clone_bytes(src: &Vec<u8>) -> (r: Vec<u8>)
    ensures
        r@ == src@,
{
    let mut r: Vec<u8> = Vec::new();
    let n = src.len();
    let mut i: usize = 0;
    proof {
        assert(src@.subrange(0, 0) =~= Seq::<u8>::empty());
    }
    while i < n
        invariant
            i <= n,
            n == src@.len(),
            r@ == src@.subrange(0, i as int),
        decreases n - i,
    {
        r.push(src[i]);
        proof {
            assert(src@.subrange(0, i as int).push(src@[i as int]) =~= src@.subrange(
                0,
                i as int + 1,
            ));
        }
        i = i + 1;
    }
    proof {
        assert(src@.subrange(0, n as int) =~= src@);
    }
    r
}

} // verus!
