//! Size guarding for the streaming download of a source payload.
//!
//! The transport itself lives outside the library; callers feed the declared
//! content length and then every received chunk's size through these checks,
//! so that no source — whether it declares its size, understates it, or
//! omits it — can push more than the configured maximum through the fetch.

use vstd::prelude::*;
use crate::errors::Error;

verus! {

/// Whether a declared content length is acceptable under `max_bytes`.
/// A source that declares no length is admitted here and is bounded by the
/// per-chunk accounting instead.
pub open spec fn declared_len_ok(declared: Option<u64>, max_bytes: u64) -> bool {
    match declared {
        Option::None => true,
        Option::Some(n) => n <= max_bytes,
    }
}

/// Fails fast — before any body byte is buffered — when the source declares
/// a content length beyond `max_bytes`. Accepts exactly the declarations
/// that `declared_len_ok` admits.
pub fn check_declared_len(declared: Option<u64>, max_bytes: u64) -> (r: Result<(), Error>)
    ensures
        r is Ok <==> declared_len_ok(declared, max_bytes),
        r is Err ==> r->Err_0 is PayloadTooLarge,
{
    match declared {
        Option::None => Ok(()),
        Option::Some(n) => {
            if n <= max_bytes {
                Ok(())
            } else {
                Err(Error::PayloadTooLarge)
            }
        },
    }
}

/// Running byte accounting for one streamed fetch. The invariant that the
/// received total never exceeds the configured maximum holds in every
/// reachable state.
pub struct DownloadGuard {
    max_bytes: u64,
    received: u64,
}

impl DownloadGuard {
    /// The configured maximum payload size.
    pub closed spec fn max(&self) -> u64 {
        self.max_bytes
    }

    /// The bytes admitted so far.
    pub closed spec fn received(&self) -> u64 {
        self.received
    }

    pub open spec fn wf(&self) -> bool {
        self.received() <= self.max()
    }

    /// A fresh guard for one fetch under the given maximum.
    pub fn new(max_bytes: u64) -> (g: DownloadGuard)
        ensures
            g.wf(),
            g.max() == max_bytes,
            g.received() == 0,
    {
        DownloadGuard { max_bytes, received: 0 }
    }

    /// Accounts for one received chunk. Admits the chunk exactly when the
    /// total stays within the maximum; a chunk that would cross it is
    /// rejected with `PayloadTooLarge` and leaves the accounting unchanged,
    /// so an understated or missing declared length cannot bypass the cap.
    pub fn accept_chunk(&mut self, chunk_len: u64) -> (r: Result<(), Error>)
        requires
            old(self).wf(),
        ensures
            final(self).wf(),
            final(self).max() == old(self).max(),
            r is Ok <==> old(self).received() + chunk_len <= old(self).max(),
            r is Ok ==> final(self).received() == old(self).received() + chunk_len,
            r is Err ==> final(self).received() == old(self).received() && r->Err_0
                is PayloadTooLarge,
    {
        if chunk_len <= self.max_bytes - self.received {
            self.received = self.received + chunk_len;
            Ok(())
        } else {
            Err(Error::PayloadTooLarge)
        }
    }

    /// The total admitted so far, for callers that buffer as they stream.
    pub fn total(&self) -> (r: u64)
        ensures
            r == self.received(),
    {
        self.received
    }
}

} // verus!
