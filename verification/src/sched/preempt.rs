//! Preemption held off while a task holds locks: a request to give up the CPU
//! made while locks are held is put off until the last of them is let go.
use vstd::prelude::*;

verus! {

/// The lock count of the running task and whether it was asked to give up
/// the CPU while it held locks.
#[derive(Debug, Copy, Clone, PartialEq, Eq, Structural)]
pub struct Preemption {
    pub locks: usize,
    pub to_reschedule: bool,
}

/// The state after a lock is taken.
pub open spec fn disabled(p: Preemption) -> Preemption {
    Preemption { locks: (p.locks + 1) as usize, ..p }
}

/// The state after a lock is let go, and whether the CPU is to be given up
/// now: when no lock is left and a request was put off.
pub open spec fn enabled(p: Preemption) -> (Preemption, bool) {
    let l = (p.locks - 1) as usize;
    (Preemption { locks: l, ..p }, l == 0 && p.to_reschedule)
}

/// The state after a request to give up the CPU, and whether it is given up
/// now: it is, where no lock is held; else the request is noted and put off.
pub open spec fn requested(p: Preemption) -> (Preemption, bool) {
    if p.locks > 0 {
        (Preemption { to_reschedule: true, ..p }, false)
    } else {
        (p, true)
    }
}

/// The state after `n` locks are let go, and the answer of the last of them
/// (no answer, false, when `n` is 0).
pub open spec fn enabled_times(p: Preemption, n: nat) -> (Preemption, bool)
    decreases n,
{
    if n == 0 {
        (p, false)
    } else {
        let e = enabled(p);
        if n == 1 {
            e
        } else {
            enabled_times(e.0, (n - 1) as nat)
        }
    }
}

impl Preemption {
    /// A task that holds no lock and was asked nothing.
    pub fn new() -> (r: Preemption)
        ensures
            r == (Preemption { locks: 0, to_reschedule: false }),
    {
        Preemption { locks: 0, to_reschedule: false }
    }

    /// A lock is taken: preemption is held off.
    pub fn preempt_disable(&mut self)
        requires
            old(self).locks < usize::MAX,
        ensures
            *final(self) == disabled(*old(self)),
    {
        self.locks = self.locks + 1;
    }

    /// A lock is let go. The answer says whether the CPU is to be given up
    /// now: no lock is left and a request was put off while locks were held.
    pub fn preempt_enable(&mut self) -> (resched: bool)
        requires
            old(self).locks > 0,
        ensures
            (*final(self), resched) == enabled(*old(self)),
    {
        self.locks = self.locks - 1;
        self.locks == 0 && self.to_reschedule
    }

    /// A request to give up the CPU. Where the task holds locks it is noted
    /// and put off, and the answer is no; else the answer is yes.
    pub fn reschedule(&mut self) -> (now: bool)
        ensures
            (*final(self), now) == requested(*old(self)),
    {
        if self.locks > 0 {
            self.to_reschedule = true;
            false
        } else {
            true
        }
    }
}

/// Letting go of locks keeps a put-off request noted.
proof fn lemma_enabled_times_keeps(p: Preemption, n: nat)
    requires
        n <= p.locks,
    ensures
        enabled_times(p, n).0 == (Preemption { locks: (p.locks - n) as usize, ..p }),
        n > 0 ==> enabled_times(p, n).1 == (p.locks == n && p.to_reschedule),
    decreases n,
{
    if n > 1 {
        lemma_enabled_times_keeps(enabled(p).0, (n - 1) as nat);
    }
}

/// A request to give up the CPU made while locks are held is not lost: it is
/// put off, no lock let go before the last answers yes, and letting go of the
/// last lock answers yes.
pub proof fn lemma_deferred_reschedule_runs(p: Preemption, k: nat)
    requires
        p.locks > 0,
        0 < k <= p.locks,
    ensures
        requested(p).1 == false,
        enabled_times(requested(p).0, k).1 == (k == p.locks),
        enabled_times(requested(p).0, k).0.locks == p.locks - k,
{
    lemma_enabled_times_keeps(requested(p).0, k);
}

/// Where no request was made, letting go of every lock answers no each time.
pub proof fn lemma_no_request_no_reschedule(p: Preemption, k: nat)
    requires
        !p.to_reschedule,
        0 < k <= p.locks,
    ensures
        enabled_times(p, k).1 == false,
        enabled_times(p, k).0 == (Preemption { locks: (p.locks - k) as usize, ..p }),
{
    lemma_enabled_times_keeps(p, k);
}

} // verus!
