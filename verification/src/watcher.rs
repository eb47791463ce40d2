//! The shutdown protocol of a watch handle.
//!
//! A watch handle owns the cancellation endpoint and the background task's
//! join handle; both are operating-system resources that stand outside this
//! crate.  What is decided here is the one-shot protocol around them: the
//! first `join` performs the shutdown — signal cancellation, then wait for
//! the background task — and every later `join` does nothing.

use vstd::prelude::*;

verus! {

/// The join state of one watch handle.
pub struct Watcher {
    joined: bool,
}

impl Watcher {
    /// Whether the background task has already been shut down and joined.
    pub closed spec fn is_joined(self) -> bool {
        self.joined
    }

    /// The state of a freshly started watch: not yet joined.
    pub fn new() -> (r: Watcher)
        ensures
            !r.is_joined(),
    {
        Watcher { joined: false }
    }

    /// Take one `join` call.  The result says whether this call is the one
    /// that performs the shutdown — closing the cancellation endpoint and
    /// waiting for the background task — which happens on the first call and
    /// never again.
    pub fn join(&mut self) -> (shutdown: bool)
        ensures
            final(self).is_joined(),
            shutdown == !old(self).is_joined(),
    {
        let shutdown = !self.joined;
        self.joined = true;
        shutdown
    }
}

/// The join state after `n` calls on a handle that started in state `j0`:
/// joined as soon as one call has been taken.
pub open spec fn joined_after(j0: bool, n: nat) -> bool
    decreases n,
{
    if n == 0 {
        j0
    } else {
        true
    }
}

/// How many of `n` consecutive `join` calls perform the shutdown, starting
/// from state `j0`: each call performs it exactly when the handle was not yet
/// joined, as `join` ensures.
pub open spec fn shutdowns(j0: bool, n: nat) -> nat
    decreases n,
{
    if n == 0 {
        0
    } else {
        shutdowns(j0, (n - 1) as nat) + if joined_after(j0, (n - 1) as nat) {
            0nat
        } else {
            1nat
        }
    }
}

/// However often `join` is called on a fresh watch handle — twice, or once
/// followed by the drop that joins again — the background shutdown is
/// performed exactly once; no second close of the cancellation endpoint, no
/// second wait.
pub proof fn lemma_shutdown_exactly_once(n: nat)
    ensures
        shutdowns(false, n) == if n == 0 {
            0nat
        } else {
            1nat
        },
    decreases n,
{
    if n > 0 {
        lemma_shutdown_exactly_once((n - 1) as nat);
    }
}

} // verus!
