//! The reconnect orchestrator: collaborators whose changes should trigger a
//! backend reconnect increment a counter; one read-and-reset of the counter
//! stands for one reconnect obligation. Any number of proposals between
//! two attempts coalesce into a single cycle, and an attempt with no
//! pending proposal triggers nothing.
//!
//! The counter is not persisted: every process start begins at zero, and
//! the composition root always triggers one initial connect itself.

use vstd::prelude::*;

verus! {

/// One proposal step: the counter grows by one, saturating at its maximum.
pub open spec fn spec_propose(p: u64) -> u64 {
    if p == u64::MAX {
        p
    } else {
        (p + 1) as u64
    }
}

/// `n` proposal steps from `p`.
pub open spec fn spec_proposes(p: u64, n: nat) -> u64
    decreases n,
{
    if n == 0 {
        p
    } else {
        spec_propose(spec_proposes(p, (n - 1) as nat))
    }
}

/// The coalescing counter. The embedder shares it behind its chosen atomic
/// primitive; within the library it is a plain owned value.
pub struct ReconnectCoordinator {
    pending: u64,
}

impl View for ReconnectCoordinator {
    type V = u64;

    closed spec fn view(&self) -> u64 {
        self.pending
    }
}

impl ReconnectCoordinator {
    /// A fresh coordinator with nothing pending.
    pub fn new() -> (r: ReconnectCoordinator)
        ensures
            r@ == 0,
    {
        ReconnectCoordinator { pending: 0 }
    }

    /// Records that a reconnect is wanted. Never blocks and never itself
    /// reconnects.
    pub fn propose_reconnect(&mut self)
        ensures
            final(self)@ == spec_propose(old(self)@),
            final(self)@ > 0,
    {
        if self.pending < u64::MAX {
            self.pending = self.pending + 1;
        }
    }

    /// Reads and resets the counter; true exactly when at least one
    /// proposal was pending, in which case the caller runs one reconnect
    /// cycle. The cycle's outcome does not touch the counter: a failed
    /// cycle is not retried until the next proposal.
    pub fn try_reconnect(&mut self) -> (r: bool)
        ensures
            r == (old(self)@ > 0),
            final(self)@ == 0,
    {
        let pending = self.pending;
        self.pending = 0;
        pending > 0
    }
}

/// One or more proposals leave the counter positive, so the next attempt
/// (and only that one) triggers a cycle: `try_reconnect` then returns true
/// and resets the counter to zero, and a further attempt without a new
/// proposal returns false.
pub proof fn lemma_reconnect_coalescing(n: nat)
    requires
        n >= 1,
    ensures
        spec_proposes(0, n) > 0,
    decreases n,
{
    if n > 1 {
        lemma_reconnect_coalescing((n - 1) as nat);
    }
}

} // verus!
