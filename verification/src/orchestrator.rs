//! The request state machine: fingerprint → cache lookup → (hit: respond)
//! or (miss: download → validate size → transcode → store → respond).
//!
//! The shared state pairs the bounded store with the in-flight marker set
//! that coalesces concurrent misses: `begin` checks the cache and marks the
//! fingerprint in flight in one exclusive step, so that of any number of
//! concurrent requests for the same absent fingerprint exactly one is told
//! to download, and the rest wait for its completion and then read the
//! cache. The caller holds exclusive access only for the duration of
//! `begin`, `complete` or `fail` — never across the download or transcode.

use vstd::prelude::*;
use crate::cache::CacheStore;
use crate::cache::EntrySnap;
use crate::cache::clone_bytes;
use crate::cache::entry_of;
use crate::cache::has_fp;
use crate::cache::index_of;
use crate::cache::lookup_spec;
use crate::cache::put_accepts;
use crate::cache::put_spec;
use crate::errors::Error;
use crate::fingerprint::TargetFormat;
use crate::fingerprint::parse_fingerprint_id;
use crate::fingerprint::parse_id_spec;
use vstd::utf8::encode_utf8;
use crate::transcode::content_type_of;
use crate::transcode::gif_encoding_of;
use crate::transcode::webp_gif_encodes;
use crate::transcode::sniffed_format;
use crate::transcode::transcode;

verus! {

/// What an arriving request is told by the atomic check-and-mark step.
pub enum BeginOutcome {
    /// The entry is cached; here are its payload and content type.
    Hit(Vec<u8>, String),
    /// Another request is already downloading this fingerprint: wait for
    /// its completion, then read the cache.
    Wait,
    /// Nobody is working on this fingerprint: the caller must download,
    /// then call `complete` (or `fail`) for it.
    Start,
}

/// The shared mutable state of the service: the bounded store and the
/// in-flight marker set.
pub struct AppState {
    pub cache: CacheStore,
    pub in_flight: Vec<u64>,
}

impl AppState {
    /// The fingerprints currently being downloaded and transcoded.
    pub open spec fn in_flight_ids(&self) -> Seq<u64> {
        self.in_flight@
    }

    /// Whether `fp` is marked in flight.
    pub open spec fn marked(&self, fp: u64) -> bool {
        self.in_flight_ids().contains(fp)
    }

    /// Whether a `begin` for `fp` would tell its caller to start the
    /// download: only when the fingerprint is neither cached nor in flight.
    pub open spec fn begin_starts(&self, fp: u64) -> bool {
        !has_fp(self.cache@, fp) && !self.marked(fp)
    }

    pub open spec fn wf(&self) -> bool {
        &&& self.cache.wf()
        &&& (forall|i: int, j: int|
            0 <= i < j < self.in_flight@.len() ==> self.in_flight@[i] != self.in_flight@[j])
    }

    /// A fresh state: an empty store under the given caps, nothing in
    /// flight.
    pub fn new(item_cap: usize, byte_cap: usize) -> (s: AppState)
        ensures
            s.wf(),
            s.cache@ == Seq::<EntrySnap>::empty(),
            s.cache.item_capacity() == item_cap,
            s.cache.byte_capacity() == byte_cap,
            s.in_flight_ids() == Seq::<u64>::empty(),
    {
        AppState { cache: CacheStore::new(item_cap, byte_cap), in_flight: Vec::new() }
    }

    /// The atomic check-and-mark step of the miss path. In one exclusive
    /// step: a cached fingerprint is answered from the store (promoting its
    /// recency); an uncached one already in flight is told to wait; an
    /// uncached, unmarked one is marked and told to start the download.
    pub fn begin(&mut self, fp: u64) -> (r: BeginOutcome)
        requires
            old(self).wf(),
        ensures
            final(self).wf(),
            final(self).cache.item_capacity() == old(self).cache.item_capacity(),
            final(self).cache.byte_capacity() == old(self).cache.byte_capacity(),
            has_fp(old(self).cache@, fp) ==> {
                &&& (r matches BeginOutcome::Hit(p, c) && lookup_spec(old(self).cache@, fp)
                    matches Some(e) && p@ == e.payload && c@ == e.content_type)
                &&& final(self).cache@ == old(self).cache@.remove(
                    index_of(old(self).cache@, fp),
                ).push(entry_of(old(self).cache@, fp))
                &&& final(self).in_flight_ids() == old(self).in_flight_ids()
            },
            (!has_fp(old(self).cache@, fp) && old(self).marked(fp)) ==> {
                &&& r is Wait
                &&& final(self).cache@ == old(self).cache@
                &&& final(self).in_flight_ids() == old(self).in_flight_ids()
            },
            old(self).begin_starts(fp) ==> {
                &&& r is Start
                &&& final(self).cache@ == old(self).cache@
                &&& final(self).in_flight_ids() == old(self).in_flight_ids().push(fp)
                &&& final(self).marked(fp)
            },
    {
        match self.cache.lookup(fp) {
            Some(pc) => {
                self.cache.touch(fp);
                BeginOutcome::Hit(pc.0, pc.1)
            },
            None => {
                if contains_id(&self.in_flight, fp) {
                    BeginOutcome::Wait
                } else {
                    let ghost ids0 = self.in_flight@;
                    self.in_flight.push(fp);
                    proof {
                        assert(self.in_flight@[ids0.len() as int] == fp);
                        assert(self.marked(fp));
                        assert forall|i: int, j: int|
                            0 <= i < j < self.in_flight@.len() implies self.in_flight@[i]
                            != self.in_flight@[j] by {
                            if j == self.in_flight@.len() - 1 {
                                assert(self.in_flight@[i] == ids0[i]);
                                assert(!ids0.contains(fp));
                            }
                        }
                    }
                    BeginOutcome::Start
                }
            },
        }
    }

    /// The completion of a miss: stores the finished payload (evicting as
    /// needed) and clears the in-flight marker, in one exclusive step. From
    /// this point every `lookup` of `fp` observes the full payload — the
    /// entry was never visible in a partial state.
    pub fn complete(
        &mut self,
        fp: u64,
        payload: Vec<u8>,
        content_type: String,
        stored_at: i64,
    ) -> (stored: bool)
        requires
            old(self).wf(),
        ensures
            final(self).wf(),
            final(self).cache.item_capacity() == old(self).cache.item_capacity(),
            final(self).cache.byte_capacity() == old(self).cache.byte_capacity(),
            stored == put_accepts(
                old(self).cache.item_capacity() as int,
                old(self).cache.byte_capacity() as int,
                payload@.len() as int,
            ),
            stored ==> final(self).cache@ == put_spec(
                old(self).cache@,
                old(self).cache.item_capacity() as int,
                old(self).cache.byte_capacity() as int,
                (EntrySnap {
                    fingerprint: fp,
                    payload: payload@,
                    content_type: content_type@,
                    stored_at: stored_at as int,
                }),
            ),
            stored ==> lookup_spec(final(self).cache@, fp) == Some(
                (EntrySnap {
                    fingerprint: fp,
                    payload: payload@,
                    content_type: content_type@,
                    stored_at: stored_at as int,
                }),
            ),
            !stored ==> final(self).cache@ == old(self).cache@,
            !final(self).marked(fp),
            forall|y: u64| y != fp ==> final(self).marked(y) == old(self).marked(y),
    {
        let stored = self.cache.put(fp, payload, content_type, stored_at);
        remove_id(&mut self.in_flight, fp);
        stored
    }

    /// The failure of a miss: clears the in-flight marker and leaves the
    /// store untouched, so a failed request leaves no trace.
    pub fn fail(&mut self, fp: u64)
        requires
            old(self).wf(),
        ensures
            final(self).wf(),
            final(self).cache.item_capacity() == old(self).cache.item_capacity(),
            final(self).cache.byte_capacity() == old(self).cache.byte_capacity(),
            final(self).cache@ == old(self).cache@,
            !final(self).marked(fp),
            forall|y: u64| y != fp ==> final(self).marked(y) == old(self).marked(y),
    {
        remove_id(&mut self.in_flight, fp);
    }

    /// Completes the miss path once the source payload has been fetched:
    /// transcodes it, stores the result, and clears the in-flight marker.
    /// On a transcode error the marker is cleared and the store is left
    /// untouched — no error ever leaves a partial entry.
    pub fn finish_miss(
        &mut self,
        fp: u64,
        raw: Vec<u8>,
        target: TargetFormat,
        stored_at: i64,
    ) -> (r: Result<(Vec<u8>, String), Error>)
        requires
            old(self).wf(),
        ensures
            final(self).wf(),
            final(self).cache.item_capacity() == old(self).cache.item_capacity(),
            final(self).cache.byte_capacity() == old(self).cache.byte_capacity(),
            !final(self).marked(fp),
            forall|y: u64| y != fp ==> final(self).marked(y) == old(self).marked(y),
            sniffed_format(raw@) is None ==> (r matches Err(e) && e
                is UnsupportedOrCorruptInput),
            sniffed_format(raw@) == Some(target) ==> (r matches Ok(oc) && oc.0@ == raw@
                && oc.1@ == content_type_of(target)),
            (sniffed_format(raw@) == Some(TargetFormat::Webp) && target == TargetFormat::Gif)
                ==> {
                &&& (r is Ok <==> webp_gif_encodes(raw@))
                &&& (r matches Ok(oc) ==> oc.0@ == gif_encoding_of(raw@) && oc.1@
                    == content_type_of(TargetFormat::Gif))
                &&& (r matches Err(e) ==> (e is UnsupportedOrCorruptInput || e
                    is EncodeFailure))
            },
            (sniffed_format(raw@) == Some(TargetFormat::Gif) && target == TargetFormat::Webp)
                ==> (r matches Err(e) && e is UnsupportedConversion),
            r matches Ok(oc) ==> {
                let snap = EntrySnap {
                    fingerprint: fp,
                    payload: oc.0@,
                    content_type: oc.1@,
                    stored_at: stored_at as int,
                };
                if put_accepts(
                    old(self).cache.item_capacity() as int,
                    old(self).cache.byte_capacity() as int,
                    oc.0@.len() as int,
                ) {
                    final(self).cache@ == put_spec(
                        old(self).cache@,
                        old(self).cache.item_capacity() as int,
                        old(self).cache.byte_capacity() as int,
                        snap,
                    )
                } else {
                    final(self).cache@ == old(self).cache@
                }
            },
            r matches Ok(oc) ==> (put_accepts(
                old(self).cache.item_capacity() as int,
                old(self).cache.byte_capacity() as int,
                oc.0@.len() as int,
            ) ==> lookup_spec(final(self).cache@, fp) == Some(
                (EntrySnap {
                    fingerprint: fp,
                    payload: oc.0@,
                    content_type: oc.1@,
                    stored_at: stored_at as int,
                }),
            )),
            r is Err ==> final(self).cache@ == old(self).cache@,
    {
        match transcode(raw, target) {
            Ok(oc) => {
                let payload_copy = clone_bytes(&oc.0);
                let content_type_copy = oc.1.clone();
                self.cache.put(fp, payload_copy, content_type_copy, stored_at);
                remove_id(&mut self.in_flight, fp);
                Ok(oc)
            },
            Err(e) => {
                remove_id(&mut self.in_flight, fp);
                Err(e)
            },
        }
    }

    /// The retrieval interface: reads the entry stored under `fp`, if any.
    /// Read-only, so any number of callers may share the state.
    pub fn get(&self, fp: u64) -> (r: Option<(Vec<u8>, String)>)
        ensures
            match r {
                Some(pc) => (lookup_spec(self.cache@, fp) matches Some(e) && pc.0@ == e.payload
                    && pc.1@ == e.content_type),
                None => lookup_spec(self.cache@, fp) is None,
            },
    {
        self.cache.lookup(fp)
    }

    /// The retrieval interface keyed by the textual identifier: a
    /// well-formed identifier is answered like `get` of the fingerprint it
    /// spells; anything else is not found.
    pub fn get_by_id(&self, id: &str) -> (r: Option<(Vec<u8>, String)>)
        ensures
            parse_id_spec(encode_utf8(id@)) matches Some(fp) ==> match r {
                Some(pc) => (lookup_spec(self.cache@, fp) matches Some(e) && pc.0@ == e.payload
                    && pc.1@ == e.content_type),
                None => lookup_spec(self.cache@, fp) is None,
            },
            parse_id_spec(encode_utf8(id@)) is None ==> r is None,
    {
        match parse_fingerprint_id(id) {
            Some(fp) => self.cache.lookup(fp),
            None => None,
        }
    }
}

/// Coalescing, stated over the state: while a fingerprint is marked in
/// flight, no further `begin` for it can start a second download — of any
/// set of concurrent requests for one uncached fingerprint, only the first
/// is told to start, so exactly one download and one transcode occur.
pub proof fn lemma_single_flight(s: AppState, fp: u64)
    requires
        s.marked(fp),
    ensures
        !s.begin_starts(fp),
{
}

/// The step after a `begin` answered `Start` leaves the fingerprint marked:
/// a second `begin` against the resulting state cannot start again.
pub proof fn lemma_start_excludes_second_start(pre: AppState, post: AppState, fp: u64)
    requires
        pre.begin_starts(fp),
        post.in_flight_ids() == pre.in_flight_ids().push(fp),
    ensures
        !post.begin_starts(fp),
{
    assert(post.in_flight_ids()[post.in_flight_ids().len() - 1] == fp);
}

/// A fetch rejected for size (or failed in any other way) leaves no trace:
/// after the marker set by its `begin` is cleared again by `fail`, the
/// store and the marker set are as they were before the request arrived.
pub proof fn lemma_rejection_leaves_no_trace(
    pre: AppState,
    started: AppState,
    failed: AppState,
    fp: u64,
)
    requires
        !pre.marked(fp),
        started.cache@ == pre.cache@,
        started.in_flight_ids() == pre.in_flight_ids().push(fp),
        failed.cache@ == started.cache@,
        !failed.marked(fp),
        forall|y: u64| y != fp ==> failed.marked(y) == started.marked(y),
    ensures
        failed.cache@ == pre.cache@,
        forall|y: u64| failed.marked(y) == pre.marked(y),
{
    assert forall|y: u64| failed.marked(y) == pre.marked(y) by {
        if y != fp {
            assert(started.marked(y) == pre.marked(y)) by {
                if pre.in_flight_ids().contains(y) {
                    let i = choose|i: int|
                        0 <= i < pre.in_flight_ids().len() && pre.in_flight_ids()[i] == y;
                    assert(started.in_flight_ids()[i] == y);
                }
                if started.in_flight_ids().contains(y) {
                    let i = choose|i: int|
                        0 <= i < started.in_flight_ids().len() && started.in_flight_ids()[i]
                            == y;
                    assert(i < pre.in_flight_ids().len());
                    assert(pre.in_flight_ids()[i] == y);
                }
            }
        }
    }
}

/// Whether `x` occurs in `v`.
fn contains_id(v: &Vec<u64>, x: u64) -> (r: bool)
    ensures
        r == v@.contains(x),
{
    let n = v.len();
    let mut i: usize = 0;
    while i < n
        invariant
            i <= n,
            n == v@.len(),
            forall|j: int| 0 <= j < i ==> v@[j] != x,
        decreases n - i,
    {
        if v[i] == x {
            return true;
        }
        i = i + 1;
    }
    proof {
        assert(!v@.contains(x)) by {
            if v@.contains(x) {
                let j = choose|j: int| 0 <= j < v@.len() && v@[j] == x;
            }
        }
    }
    false
}

/// Removes the occurrence of `x` from `v`, which holds no duplicates.
fn remove_id(v: &mut Vec<u64>, x: u64)
    requires
        forall|i: int, j: int| 0 <= i < j < old(v)@.len() ==> old(v)@[i] != old(v)@[j],
    ensures
        forall|i: int, j: int| 0 <= i < j < final(v)@.len() ==> final(v)@[i] != final(v)@[j],
        !final(v)@.contains(x),
        forall|y: u64| y != x ==> final(v)@.contains(y) == old(v)@.contains(y),
{
    let ghost v0 = v@;
    let n = v.len();
    let mut i: usize = 0;
    while i < n
        invariant
            i <= n,
            n == v@.len(),
            v@ == v0,
            v0 == old(v)@,
            forall|p: int, q: int| 0 <= p < q < v0.len() ==> v0[p] != v0[q],
            forall|j: int| 0 <= j < i ==> v@[j] != x,
        decreases n - i,
    {
        if v[i] == x {
            v.remove(i);
            proof {
                v0.remove_ensures(i as int);
                assert(!v@.contains(x)) by {
                    if v@.contains(x) {
                        let j = choose|j: int| 0 <= j < v@.len() && v@[j] == x;
                        if j < i {
                            assert(v0[j] == x);
                        } else {
                            assert(v0[j + 1] == x);
                        }
                    }
                }
                assert forall|y: u64| y != x implies v@.contains(y) == v0.contains(y) by {
                    if v@.contains(y) {
                        let j = choose|j: int| 0 <= j < v@.len() && v@[j] == y;
                        if j < i {
                            assert(v0[j] == y);
                        } else {
                            assert(v0[j + 1] == y);
                        }
                        assert(v0.contains(y));
                    }
                    if v0.contains(y) {
                        let j = choose|j: int| 0 <= j < v0.len() && v0[j] == y;
                        if j < i {
                            assert(v@[j] == y);
                        } else {
                            assert(v@[j - 1] == y);
                        }
                        assert(v@.contains(y));
                    }
                }
                assert forall|p: int, q: int|
                    0 <= p < q < v@.len() implies v@[p] != v@[q] by {
                    if p < i {
                        assert(v@[p] == v0[p]);
                    } else {
                        assert(v@[p] == v0[p + 1]);
                    }
                    if q < i {
                        assert(v@[q] == v0[q]);
                    } else {
                        assert(v@[q] == v0[q + 1]);
                    }
                }
            }
            return ;
        }
        i = i + 1;
    }
    proof {
        assert(!v@.contains(x)) by {
            if v@.contains(x) {
                let j = choose|j: int| 0 <= j < v@.len() && v@[j] == x;
            }
        }
    }
}

} // verus!
