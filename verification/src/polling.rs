//! The decision core of the background polling loop.
//!
//! The loop itself blocks in the operating system's readiness wait and feeds
//! ready descriptors to the device library; those calls stand outside this
//! crate.  Every decision the loop takes — how the descriptor slots are laid
//! out, when a failed wait is retried, when the loop stops — is made here.

use vstd::prelude::*;

verus! {

/// What to do with the result of one readiness wait.
pub enum WaitStep {
    /// The wait was interrupted by a signal: wait again.
    Retry,
    /// The wait failed for any other reason: an unrecoverable condition.
    Fatal,
    /// Descriptors are ready: go on to inspect them.
    Ready,
}

/// The two states of the loop; `Stopped` is terminal.
pub enum LoopState {
    Running,
    Stopped,
}

/// Classify one readiness-wait result.
///
/// A non-negative result means descriptors are ready.  A negative result is
/// retried when the reported error equals `transient_code` (the
/// interrupted-by-signal error), and is fatal otherwise.
pub fn classify_wait(result: i32, err: i32, transient_code: i32) -> (r: WaitStep)
    ensures
        r is Ready <==> result >= 0,
        r is Retry <==> result < 0 && err == transient_code,
        r is Fatal <==> result < 0 && err != transient_code,
{
    if result >= 0 {
        WaitStep::Ready
    } else if err == transient_code {
        WaitStep::Retry
    } else {
        WaitStep::Fatal
    }
}

/// The state machine of one background polling loop.
///
/// It is created with the number of readiness descriptors the device asks to
/// be waited on; the cancellation descriptor is placed in the one slot after
/// them, so the device library, which is handed only the device's own count,
/// never inspects it.
pub struct PollingLoop {
    state: LoopState,
    device_descriptors: usize,
}

impl PollingLoop {
    /// The descriptor-slot layout stays representable: one slot is left for
    /// the cancellation descriptor after the device's own.
    pub closed spec fn wf(self) -> bool {
        self.device_descriptors < usize::MAX
    }

    /// How many readiness descriptors belong to the device itself.
    pub closed spec fn device_count(self) -> usize {
        self.device_descriptors
    }

    /// Whether the loop is still running.
    pub closed spec fn is_running(self) -> bool {
        self.state is Running
    }

    /// A loop about to run, waiting on `device_descriptors` device slots plus
    /// the cancellation slot.
    pub fn new(device_descriptors: usize) -> (r: PollingLoop)
        requires
            device_descriptors < usize::MAX,
        ensures
            r.wf(),
            r.is_running(),
            r.device_count() == device_descriptors,
    {
        PollingLoop { state: LoopState::Running, device_descriptors }
    }

    /// Whether the loop is still running, as an observable value.
    pub fn running(&self) -> (r: bool)
        ensures
            r == self.is_running(),
    {
        match self.state {
            LoopState::Running => true,
            LoopState::Stopped => false,
        }
    }

    /// The slot holding the cancellation descriptor: the one right after the
    /// device's own, which is exactly the count handed to the device library,
    /// so the library never looks at it.
    pub fn cancel_slot(&self) -> (r: usize)
        ensures
            r == self.device_count(),
    {
        self.device_descriptors
    }

    /// How many slots the wait covers: the device's own and the cancellation
    /// slot after them.
    pub fn wait_count(&self) -> (r: usize)
        requires
            self.wf(),
        ensures
            r == self.device_count() + 1,
    {
        self.device_descriptors + 1
    }

    /// React to a wake from the readiness wait, given the returned event
    /// flags of the cancellation slot.  If any flag of `ready_mask` is set
    /// there, the watch was cancelled: the loop stops and delivers nothing.
    /// Otherwise the ready events are to be delivered to the device library.
    pub fn on_wake(&mut self, cancel_revents: i32, ready_mask: i32) -> (deliver: bool)
        requires
            old(self).wf(),
            old(self).is_running(),
        ensures
            final(self).wf(),
            final(self).device_count() == old(self).device_count(),
            deliver <==> (cancel_revents & ready_mask) == 0,
            final(self).is_running() <==> (cancel_revents & ready_mask) == 0,
    {
        if (cancel_revents & ready_mask) != 0 {
            self.state = LoopState::Stopped;
            false
        } else {
            true
        }
    }

    /// React to the session-level condition flags the device library returned
    /// after the ready events were delivered: if any flag of `hangup_mask` is
    /// set, the session has hung up and the loop stops; otherwise it keeps
    /// running.
    pub fn on_session_flags(&mut self, flags: i32, hangup_mask: i32)
        requires
            old(self).wf(),
            old(self).is_running(),
        ensures
            final(self).wf(),
            final(self).device_count() == old(self).device_count(),
            final(self).is_running() <==> (flags & hangup_mask) == 0,
    {
        if (flags & hangup_mask) != 0 {
            self.state = LoopState::Stopped;
        }
    }
}

} // verus!
