//! Signals of a task: the handlers, the pending and blocked masks, what a
//! signal does by default, and which signal is delivered next.
use vstd::prelude::*;
use crate::bits::{u64_get_bit, u64_set_bit};

verus! {

pub const SIGHUP: usize = 1;
pub const SIGINT: usize = 2;
pub const SIGQUIT: usize = 3;
pub const SIGILL: usize = 4;
pub const SIGABRT: usize = 6;
pub const SIGBUS: usize = 7;
pub const SIGFPE: usize = 8;
pub const SIGKILL: usize = 9;
pub const SIGSEGV: usize = 11;
pub const SIGPIPE: usize = 13;
pub const SIGTERM: usize = 15;
pub const SIGCHLD: usize = 17;
pub const SIGCONT: usize = 18;
pub const SIGSTOP: usize = 19;
pub const SIGTSTP: usize = 20;
/// The kernel's signal that ends one thread.
pub const KSIGKILLTHR: usize = 32;
/// The kernel's signal that runs a function in the task.
pub const KSIGEXEC: usize = 63;
/// The number of signals with a handler entry.
pub const SIGNAL_COUNT: usize = 33;

/// The signals whose handling cannot be changed or blocked: SIGSTOP,
/// SIGCONT, SIGABRT, SIGKILL and the kernel's thread-kill and exec signals.
pub const IMMUTABLE_MASK: u64 = 0x8000_0001_000C_0240;

/// What a default handler does.
#[derive(Debug, Copy, Clone, PartialEq, Eq, Structural)]
pub enum DefaultHandler {
    Terminate,
    TerminateThread,
    Stop,
}

/// The default action of a signal.
#[derive(Debug, Copy, Clone, PartialEq, Eq, Structural)]
pub enum Action {
    Ignore,
    Handle(DefaultHandler),
}

/// The default action of each signal: termination for the fatal ones,
/// stopping for SIGSTOP and SIGTSTP, the end of the thread for the
/// thread-kill signal, nothing for the others.
pub open spec fn default_action(sig: usize) -> Action {
    if sig == SIGHUP || sig == SIGINT || sig == SIGQUIT || sig == SIGILL || sig == SIGABRT
        || sig == SIGBUS || sig == SIGFPE || sig == SIGKILL || sig == SIGSEGV || sig == SIGPIPE
        || sig == SIGTERM {
        Action::Handle(DefaultHandler::Terminate)
    } else if sig == SIGSTOP || sig == SIGTSTP {
        Action::Handle(DefaultHandler::Stop)
    } else if sig == KSIGKILLTHR {
        Action::Handle(DefaultHandler::TerminateThread)
    } else {
        Action::Ignore
    }
}

/// The default action of `sig`, one of the first 33.
pub fn action(sig: usize) -> (a: Action)
    requires
        sig < SIGNAL_COUNT,
    ensures
        a == default_action(sig),
{
    if sig == SIGHUP || sig == SIGINT || sig == SIGQUIT || sig == SIGILL || sig == SIGABRT
        || sig == SIGBUS || sig == SIGFPE || sig == SIGKILL || sig == SIGSEGV || sig == SIGPIPE
        || sig == SIGTERM {
        Action::Handle(DefaultHandler::Terminate)
    } else if sig == SIGSTOP || sig == SIGTSTP {
        Action::Handle(DefaultHandler::Stop)
    } else if sig == KSIGKILLTHR {
        Action::Handle(DefaultHandler::TerminateThread)
    } else {
        Action::Ignore
    }
}

/// Whether `sig` is ignored by default.
pub fn ignore_by_default(sig: usize) -> (r: bool)
    requires
        sig < SIGNAL_COUNT,
    ensures
        r == (default_action(sig) == Action::Ignore),
{
    action(sig) == Action::Ignore
}

/// Whether bit `b` of `m` is set.
pub open spec fn bit64(m: u64, b: usize) -> bool {
    m & (1u64 << (b as u64)) != 0
}

/// Whether the handling of `sig` can be changed.
pub fn can_override(sig: usize) -> (r: bool)
    requires
        sig < 64,
    ensures
        r == !bit64(IMMUTABLE_MASK, sig),
{
    u64_get_bit(IMMUTABLE_MASK, sig) == false
}

/// Who handles a signal.
#[derive(Debug, Copy, Clone, PartialEq, Eq, Structural)]
pub enum SignalHandler {
    /// The default action.
    Default,
    Ignore,
    /// A handler of the task, at this address.
    Handle(usize),
}

/// The handling of a signal: the handler, its flags, the signals blocked
/// while it runs, and the return trampoline.
#[derive(Debug, Copy, Clone)]
pub struct SignalEntry {
    pub handler: SignalHandler,
    pub flags: u64,
    pub mask: u64,
    pub sigreturn: usize,
}

impl SignalEntry {
    /// The entry of a signal left to its default.
    pub open spec fn spec_default() -> SignalEntry {
        SignalEntry { handler: SignalHandler::Default, flags: 0, mask: 0, sigreturn: 0 }
    }

    /// The entry of a signal left to its default.
    pub fn default_entry() -> (e: SignalEntry)
        ensures
            e == SignalEntry::spec_default(),
    {
        SignalEntry { handler: SignalHandler::Default, flags: 0, mask: 0, sigreturn: 0 }
    }

    /// The entry of an ignored signal.
    pub fn ignore() -> (e: SignalEntry)
        ensures
            e == (SignalEntry { handler: SignalHandler::Ignore, flags: 0, mask: 0, sigreturn: 0 }),
    {
        SignalEntry { handler: SignalHandler::Ignore, flags: 0, mask: 0, sigreturn: 0 }
    }

    pub fn handler(&self) -> (r: SignalHandler)
        ensures
            r == self.handler,
    {
        self.handler
    }

    pub fn flags(&self) -> (r: u64)
        ensures
            r == self.flags,
    {
        self.flags
    }

    pub fn sigreturn(&self) -> (r: usize)
        ensures
            r == self.sigreturn,
    {
        self.sigreturn
    }
}

/// The entries of the signals shared by the threads of a process, and
/// the signals pending for the process.
pub struct Entries {
    pub entries: Vec<SignalEntry>,
    pub pending_mask: u64,
}

impl Entries {
    /// One entry per signal.
    pub open spec fn wf(&self) -> bool {
        self.entries@.len() == SIGNAL_COUNT
    }

    /// Every signal at its default, none pending.
    pub fn new() -> (e: Entries)
        ensures
            e.wf(),
            e.pending_mask == 0,
            forall|i: int| 0 <= i < SIGNAL_COUNT ==> e.entries@[i] == SignalEntry::spec_default(),
    {
        let mut entries: Vec<SignalEntry> = Vec::new();
        let mut i: usize = 0;
        while i < SIGNAL_COUNT
            invariant
                i <= SIGNAL_COUNT,
                entries@.len() == i,
                forall|j: int| 0 <= j < i ==> entries@[j] == SignalEntry::spec_default(),
            decreases SIGNAL_COUNT - i,
        {
            entries.push(SignalEntry::default_entry());
            i = i + 1;
        }
        Entries { entries, pending_mask: 0 }
    }

    pub fn has_pending(&self) -> (r: bool)
        ensures
            r == (self.pending_mask > 0),
    {
        self.pending_mask > 0
    }

    pub fn pending(&self) -> (r: u64)
        ensures
            r == self.pending_mask,
    {
        self.pending_mask
    }

    pub fn is_pending(&self, sig: u64) -> (r: bool)
        requires
            sig < 64,
        ensures
            r == bit64(self.pending_mask, sig as usize),
    {
        u64_get_bit(self.pending_mask, sig as usize)
    }

    pub fn clear_pending(&mut self, sig: u64)
        requires
            sig < 64,
        ensures
            final(self).pending_mask == old(self).pending_mask & !(1u64 << sig),
            final(self).entries == old(self).entries,
    {
        u64_set_bit(&mut self.pending_mask, sig as usize, false);
    }

    pub fn set_pending(&mut self, sig: u64)
        requires
            sig < 64,
        ensures
            final(self).pending_mask == old(self).pending_mask | (1u64 << sig),
            final(self).entries == old(self).entries,
    {
        u64_set_bit(&mut self.pending_mask, sig as usize, true);
    }
}

/// A function to run in the task, with its parameter (both named by the
/// caller).
#[derive(Debug, Copy, Clone, PartialEq, Eq, Structural)]
pub struct SigExec {
    pub handler: usize,
    pub param: usize,
}

/// What raising a signal came to.
#[derive(Debug, Copy, Clone, PartialEq, Eq, Structural)]
pub enum TriggerResult {
    /// Its handling ignores it.
    Ignored,
    /// It is pending, but blocked.
    Blocked,
    /// It is pending.
    Triggered,
}

/// How a change of the blocked mask combines with it.
#[derive(Debug, Copy, Clone, PartialEq, Eq, Structural)]
pub enum SigProcMask {
    Block,
    Unblock,
    /// The mask becomes the given set.
    Replace,
}

/// The signals of a task: the process's entries and pending signals, and
/// the thread's own blocked and pending masks and function to run.
pub struct Signals {
    pub entries: Entries,
    pub blocked_mask: u64,
    pub thread_pending_mask: u64,
    pub sig_exec: Option<SigExec>,
}

/// Whether the handling `h` of `sig` makes a raised signal pending.
pub open spec fn delivers(h: SignalHandler, sig: usize) -> bool {
    match h {
        SignalHandler::Ignore => false,
        SignalHandler::Default => default_action(sig) != Action::Ignore,
        SignalHandler::Handle(_) => true,
    }
}

impl Signals {
    /// One entry per signal.
    pub open spec fn wf(&self) -> bool {
        self.entries.wf()
    }

    /// The signals pending for the thread or its process.
    pub open spec fn spec_pending(&self) -> u64 {
        self.thread_pending_mask | self.entries.pending_mask
    }

    /// Every signal at its default; nothing pending, blocked or to run.
    pub fn new() -> (s: Signals)
        ensures
            s.wf(),
            s.entries.pending_mask == 0 && s.blocked_mask == 0 && s.thread_pending_mask == 0 && s.sig_exec is None,
            forall|i: int| 0 <= i < SIGNAL_COUNT ==> s.entries.entries@[i] == SignalEntry::spec_default(),
    {
        Signals { entries: Entries::new(), blocked_mask: 0, thread_pending_mask: 0, sig_exec: None }
    }

    pub fn thread_pending(&self) -> (r: u64)
        ensures
            r == self.thread_pending_mask,
    {
        self.thread_pending_mask
    }

    /// The signals pending for the thread or its process.
    pub fn pending(&self) -> (r: u64)
        ensures
            r == self.spec_pending(),
    {
        self.thread_pending() | self.entries.pending()
    }

    pub fn is_pending(&self, sig: u64) -> (r: bool)
        requires
            sig < 64,
        ensures
            r == bit64(self.spec_pending(), sig as usize),
    {
        u64_get_bit(self.pending(), sig as usize)
    }

    /// Clears `sig` where it is pending: for the thread if there, otherwise
    /// for the process.
    pub fn clear_pending(&mut self, sig: u64)
        requires
            sig < 64,
        ensures
            final(self).blocked_mask == old(self).blocked_mask && final(self).sig_exec == old(self).sig_exec,
            final(self).entries.entries == old(self).entries.entries,
            bit64(old(self).thread_pending_mask, sig as usize) ==> final(self).thread_pending_mask
                == old(self).thread_pending_mask & !(1u64 << sig) && final(self).entries.pending_mask
                == old(self).entries.pending_mask,
            !bit64(old(self).thread_pending_mask, sig as usize) ==> final(self).thread_pending_mask
                == old(self).thread_pending_mask && final(self).entries.pending_mask
                == old(self).entries.pending_mask & !(1u64 << sig),
    {
        if u64_get_bit(self.thread_pending(), sig as usize) {
            self.thread_pending_mask = self.thread_pending_mask & !(1u64 << sig);
        } else {
            self.entries.clear_pending(sig);
        }
    }

    /// Makes `sig` pending, for the thread or for its process.
    pub fn set_pending(&mut self, sig: u64, thread_scope: bool)
        requires
            sig < 64,
        ensures
            final(self).blocked_mask == old(self).blocked_mask && final(self).sig_exec == old(self).sig_exec,
            final(self).entries.entries == old(self).entries.entries,
            thread_scope ==> final(self).thread_pending_mask == old(self).thread_pending_mask | (1u64 << sig)
                && final(self).entries.pending_mask == old(self).entries.pending_mask,
            !thread_scope ==> final(self).thread_pending_mask == old(self).thread_pending_mask
                && final(self).entries.pending_mask == old(self).entries.pending_mask | (1u64 << sig),
    {
        if thread_scope {
            self.thread_pending_mask = self.thread_pending_mask | (1u64 << sig);
        } else {
            self.entries.set_pending(sig);
        }
    }

    /// Whether a signal is pending and not blocked.
    pub fn has_pending(&self) -> (r: bool)
        ensures
            r == ((self.entries.pending_mask | self.thread_pending_mask) & !self.blocked_mask > 0),
    {
        (self.entries.pending() | self.thread_pending()) & !self.blocked_mask() > 0
    }

    pub fn blocked_mask(&self) -> (r: u64)
        ensures
            r == self.blocked_mask,
    {
        self.blocked_mask
    }

    pub fn is_blocked(&self, signal: usize) -> (r: bool)
        requires
            signal < 64,
        ensures
            r == bit64(self.blocked_mask, signal),
    {
        u64_get_bit(self.blocked_mask(), signal)
    }

    /// Records a function to run in the thread and makes the exec signal
    /// pending for it, unless one is already pending.
    pub fn setup_sig_exec(&mut self, f: SigExec) -> (r: bool)
        ensures
            r == !bit64(old(self).spec_pending(), KSIGEXEC),
            r ==> final(self).sig_exec == Some(f) && final(self).thread_pending_mask == old(self).thread_pending_mask
                | (1u64 << (KSIGEXEC as u64)) && final(self).entries == old(self).entries
                && final(self).blocked_mask == old(self).blocked_mask,
            !r ==> *final(self) == *old(self),
    {
        if !self.is_pending(KSIGEXEC as u64) {
            self.sig_exec = Some(f);
            self.set_pending(KSIGEXEC as u64, true);
            true
        } else {
            false
        }
    }

    /// When the exec signal is pending: clears it and takes the function to
    /// run.
    pub fn sig_exec(&mut self) -> (r: Option<SigExec>)
        ensures
            final(self).blocked_mask == old(self).blocked_mask,
            final(self).entries.entries == old(self).entries.entries,
            !bit64(old(self).spec_pending(), KSIGEXEC) ==> r is None && *final(self) == *old(self),
            bit64(old(self).spec_pending(), KSIGEXEC) ==> {
                &&& r == old(self).sig_exec
                &&& final(self).sig_exec is None
                &&& bit64(old(self).thread_pending_mask, KSIGEXEC) ==> final(self).thread_pending_mask
                    == old(self).thread_pending_mask & !(1u64 << (KSIGEXEC as u64)) && final(self).entries.pending_mask
                    == old(self).entries.pending_mask
                &&& !bit64(old(self).thread_pending_mask, KSIGEXEC) ==> final(self).thread_pending_mask
                    == old(self).thread_pending_mask && final(self).entries.pending_mask
                    == old(self).entries.pending_mask & !(1u64 << (KSIGEXEC as u64))
            },
    {
        if self.is_pending(KSIGEXEC as u64) {
            self.clear_pending(KSIGEXEC as u64);
            let e = self.sig_exec;
            self.sig_exec = None;
            e
        } else {
            None
        }
    }

    /// Raises `signal` (for the thread, or for its process): unless its
    /// handling ignores it, it becomes pending, and the answer says whether
    /// it is blocked.
    pub fn trigger(&mut self, signal: usize, this_thread: bool) -> (r: TriggerResult)
        requires
            old(self).wf(),
            signal < SIGNAL_COUNT,
        ensures
            final(self).wf(),
            final(self).blocked_mask == old(self).blocked_mask && final(self).sig_exec == old(self).sig_exec,
            final(self).entries.entries == old(self).entries.entries,
            !delivers(old(self).entries.entries@[signal as int].handler, signal) ==> r == TriggerResult::Ignored
                && *final(self) == *old(self),
            delivers(old(self).entries.entries@[signal as int].handler, signal) ==> {
                &&& r == if bit64(old(self).blocked_mask, signal) { TriggerResult::Blocked } else { TriggerResult::Triggered }
                &&& this_thread ==> final(self).thread_pending_mask == old(self).thread_pending_mask | (1u64 << (signal as u64))
                    && final(self).entries.pending_mask == old(self).entries.pending_mask
                &&& !this_thread ==> final(self).thread_pending_mask == old(self).thread_pending_mask
                    && final(self).entries.pending_mask == old(self).entries.pending_mask | (1u64 << (signal as u64))
            },
    {
        let handler = self.entries.entries[signal].handler();
        let deliver = match handler {
            SignalHandler::Ignore => false,
            SignalHandler::Default => action(signal) != Action::Ignore,
            SignalHandler::Handle(_) => true,
        };
        if deliver {
            self.set_pending(signal as u64, this_thread);
            if self.is_blocked(signal) {
                TriggerResult::Blocked
            } else {
                TriggerResult::Triggered
            }
        } else {
            TriggerResult::Ignored
        }
    }

    /// Back to every signal at its default, nothing pending for the process
    /// and nothing blocked.
    pub fn clear(&mut self)
        ensures
            final(self).wf(),
            final(self).entries.pending_mask == 0 && final(self).blocked_mask == 0,
            forall|i: int| 0 <= i < SIGNAL_COUNT ==> final(self).entries.entries@[i] == SignalEntry::spec_default(),
            final(self).thread_pending_mask == old(self).thread_pending_mask && final(self).sig_exec == old(self).sig_exec,
    {
        self.entries = Entries::new();
        self.blocked_mask = 0;
    }

    /// Sets the handling of `signal`, when it can be changed: the previous
    /// entry is returned and `handler` (if any) replaces it. For a signal
    /// whose handling cannot change, nothing happens.
    pub fn set_signal(&mut self, signal: usize, handler: Option<SignalEntry>) -> (r: Option<SignalEntry>)
        requires
            old(self).wf(),
            signal < SIGNAL_COUNT,
        ensures
            final(self).wf(),
            bit64(IMMUTABLE_MASK, signal) ==> r is None && *final(self) == *old(self),
            !bit64(IMMUTABLE_MASK, signal) ==> {
                &&& r == Some(old(self).entries.entries@[signal as int])
                &&& final(self).entries.entries@ == match handler {
                    Some(h) => old(self).entries.entries@.update(signal as int, h),
                    None => old(self).entries.entries@,
                }
                &&& final(self).entries.pending_mask == old(self).entries.pending_mask
                &&& final(self).blocked_mask == old(self).blocked_mask && final(self).thread_pending_mask
                    == old(self).thread_pending_mask && final(self).sig_exec == old(self).sig_exec
            },
    {
        if !can_override(signal) {
            return None;
        }
        let prev = self.entries.entries[signal];
        if let Some(h) = handler {
            self.entries.entries.set(signal, h);
        }
        Some(prev)
    }

    /// Takes the entries, process-pending signals and blocked mask of
    /// `signals`.
    pub fn copy_from(&mut self, signals: &Signals)
        requires
            signals.wf(),
        ensures
            final(self).wf(),
            final(self).entries.entries@ == signals.entries.entries@,
            final(self).entries.pending_mask == signals.entries.pending_mask,
            final(self).blocked_mask == signals.blocked_mask,
            final(self).thread_pending_mask == old(self).thread_pending_mask && final(self).sig_exec == old(self).sig_exec,
    {
        let mut entries: Vec<SignalEntry> = Vec::new();
        let mut i: usize = 0;
        while i < signals.entries.entries.len()
            invariant
                i <= signals.entries.entries@.len(),
                entries@ == signals.entries.entries@.take(i as int),
            decreases signals.entries.entries@.len() - i,
        {
            entries.push(signals.entries.entries[i]);
            i = i + 1;
            assert(entries@ =~= signals.entries.entries@.take(i as int));
        }
        assert(signals.entries.entries@.take(i as int) =~= signals.entries.entries@);
        self.entries = Entries { entries, pending_mask: signals.entries.pending_mask };
        self.blocked_mask = signals.blocked_mask;
    }

    /// Changes the blocked mask by `set` (the signals that cannot be blocked
    /// taken out) as `how` says, and returns the mask it had.
    pub fn set_mask(&mut self, how: SigProcMask, set: Option<u64>) -> (prev: u64)
        ensures
            prev == old(self).blocked_mask,
            final(self).entries == old(self).entries && final(self).thread_pending_mask == old(self).thread_pending_mask
                && final(self).sig_exec == old(self).sig_exec,
            final(self).blocked_mask == match set {
                None => old(self).blocked_mask,
                Some(m) => {
                    let s = m & !IMMUTABLE_MASK;
                    match how {
                        SigProcMask::Block => old(self).blocked_mask | s,
                        SigProcMask::Unblock => old(self).blocked_mask & !s,
                        SigProcMask::Replace => s,
                    }
                },
            },
    {
        let prev = self.blocked_mask;
        match set {
            None => prev,
            Some(m) => {
                let s = m & !IMMUTABLE_MASK;
                match how {
                    SigProcMask::Block => {
                        self.blocked_mask = self.blocked_mask | s;
                    },
                    SigProcMask::Unblock => {
                        self.blocked_mask = self.blocked_mask & !s;
                    },
                    SigProcMask::Replace => {
                        self.blocked_mask = s;
                    },
                }
                prev
            },
        }
    }
}

/// How the delivery of signals begins.
#[derive(Debug, Copy, Clone, PartialEq, Eq, Structural)]
pub enum SignalStart {
    /// Nothing is pending and unblocked.
    Nothing,
    /// SIGKILL or SIGABRT is pending: the task ends, killed by it.
    Exit(usize),
    /// Signals are to be delivered (see `next_signal`), after running the
    /// function of the exec signal, if it was pending.
    Deliver(Option<SigExec>),
}

/// `n` is `o` after `clear_pending(s)`: the thread's pending bit is cleared
/// when set, otherwise the process's.
pub open spec fn cleared(o: Signals, n: Signals, s: usize) -> bool {
    &&& n.blocked_mask == o.blocked_mask && n.sig_exec == o.sig_exec && n.entries.entries == o.entries.entries
    &&& bit64(o.thread_pending_mask, s) ==> n.thread_pending_mask == o.thread_pending_mask & !(1u64 << (s as u64))
        && n.entries.pending_mask == o.entries.pending_mask
    &&& !bit64(o.thread_pending_mask, s) ==> n.thread_pending_mask == o.thread_pending_mask
        && n.entries.pending_mask == o.entries.pending_mask & !(1u64 << (s as u64))
}

/// Whether `s` is pending and not blocked in `sigs`.
pub open spec fn deliverable(sigs: Signals, s: usize) -> bool {
    !bit64(sigs.blocked_mask, s) && bit64(sigs.spec_pending(), s)
}

/// The first signal from `from` on that is pending and not blocked, if any
/// (`SIGNAL_COUNT` when none).
pub open spec fn first_deliverable(sigs: Signals, from: int) -> int
    decreases SIGNAL_COUNT - from,
{
    if from >= SIGNAL_COUNT {
        SIGNAL_COUNT as int
    } else if from >= 0 && deliverable(sigs, from as usize) {
        from
    } else {
        first_deliverable(sigs, from + 1)
    }
}

impl Signals {
    /// The start of signal delivery: nothing when no signal is pending and
    /// unblocked; otherwise a pending SIGKILL, then SIGABRT, is cleared and
    /// ends the task; otherwise the exec signal's function is taken (see
    /// `sig_exec`) and delivery goes on.
    pub fn do_signals_start(&mut self) -> (r: SignalStart)
        requires
            old(self).wf(),
        ensures
            final(self).wf(),
            ({
                let o = *old(self);
                if (o.entries.pending_mask | o.thread_pending_mask) & !o.blocked_mask == 0 {
                    r == SignalStart::Nothing && *final(self) == o
                } else if bit64(o.spec_pending(), SIGKILL) {
                    r == SignalStart::Exit(SIGKILL) && cleared(o, *final(self), SIGKILL)
                } else if bit64(o.spec_pending(), SIGABRT) {
                    r == SignalStart::Exit(SIGABRT) && cleared(o, *final(self), SIGABRT)
                } else if bit64(o.spec_pending(), KSIGEXEC) {
                    &&& r == SignalStart::Deliver(o.sig_exec)
                    &&& cleared(o, Signals { sig_exec: o.sig_exec, ..*final(self) }, KSIGEXEC)
                    &&& final(self).sig_exec is None
                } else {
                    r == SignalStart::Deliver(None) && *final(self) == o
                }
            }),
    {
        if !self.has_pending() {
            return SignalStart::Nothing;
        }
        if self.is_pending(SIGKILL as u64) {
            self.clear_pending(SIGKILL as u64);
            return SignalStart::Exit(SIGKILL);
        }
        if self.is_pending(SIGABRT as u64) {
            self.clear_pending(SIGABRT as u64);
            return SignalStart::Exit(SIGABRT);
        }
        let e = self.sig_exec();
        SignalStart::Deliver(e)
    }

    /// The next signal to deliver, from signal `from` on: the first that is
    /// pending and not blocked; it is cleared (see `clear_pending`) and
    /// returned with its entry. The caller runs the default action of a
    /// signal left to its default and goes on from the next one, or runs
    /// the task's handler.
    pub fn next_signal(&mut self, from: usize) -> (r: Option<(usize, SignalEntry)>)
        requires
            old(self).wf(),
            from <= SIGNAL_COUNT,
        ensures
            final(self).wf(),
            first_deliverable(*old(self), from as int) == SIGNAL_COUNT ==> r is None && *final(self) == *old(self),
            first_deliverable(*old(self), from as int) < SIGNAL_COUNT ==> ({
                let s = first_deliverable(*old(self), from as int) as usize;
                &&& r == Some((s, old(self).entries.entries@[s as int]))
                &&& cleared(*old(self), *final(self), s)
            }),
    {
        let mut i: usize = from;
        while i < SIGNAL_COUNT
            invariant
                from <= i <= SIGNAL_COUNT,
                self.wf(),
                *self == *old(self),
                first_deliverable(*self, i as int) == first_deliverable(*self, from as int),
            decreases SIGNAL_COUNT - i,
        {
            if !self.is_blocked(i) && self.is_pending(i as u64) {
                let e = self.entries.entries[i];
                self.clear_pending(i as u64);
                return Some((i, e));
            }
            i = i + 1;
        }
        None
    }
}

/// Begins the delivery of the signals of the running task (see
/// `Signals::do_signals_start`).
pub fn do_signals(signals: &mut Signals) -> (r: SignalStart)
    requires
        old(signals).wf(),
    ensures
        final(signals).wf(),
        ({
            let o = *old(signals);
            if (o.entries.pending_mask | o.thread_pending_mask) & !o.blocked_mask == 0 {
                r == SignalStart::Nothing && *final(signals) == o
            } else if bit64(o.spec_pending(), SIGKILL) {
                r == SignalStart::Exit(SIGKILL) && cleared(o, *final(signals), SIGKILL)
            } else if bit64(o.spec_pending(), SIGABRT) {
                r == SignalStart::Exit(SIGABRT) && cleared(o, *final(signals), SIGABRT)
            } else if bit64(o.spec_pending(), KSIGEXEC) {
                &&& r == SignalStart::Deliver(o.sig_exec)
                &&& cleared(o, Signals { sig_exec: o.sig_exec, ..*final(signals) }, KSIGEXEC)
                &&& final(signals).sig_exec is None
            } else {
                r == SignalStart::Deliver(None) && *final(signals) == o
            }
        }),
{
    signals.do_signals_start()
}

/// The signals that cannot be blocked stay as they were when the mask is
/// changed by blocking or unblocking, and are unblocked when it is replaced.
pub proof fn lemma_set_mask_immutable(old_mask: u64, set: u64)
    ensures
        (old_mask | (set & !IMMUTABLE_MASK)) & IMMUTABLE_MASK == old_mask & IMMUTABLE_MASK,
        (old_mask & !(set & !IMMUTABLE_MASK)) & IMMUTABLE_MASK == old_mask & IMMUTABLE_MASK,
        (set & !IMMUTABLE_MASK) & IMMUTABLE_MASK == 0,
{
    assert((old_mask | (set & !0x8000_0001_000C_0240u64)) & 0x8000_0001_000C_0240u64 == old_mask & 0x8000_0001_000C_0240u64) by (bit_vector);
    assert((old_mask & !(set & !0x8000_0001_000C_0240u64)) & 0x8000_0001_000C_0240u64 == old_mask & 0x8000_0001_000C_0240u64) by (bit_vector);
    assert((set & !0x8000_0001_000C_0240u64) & 0x8000_0001_000C_0240u64 == 0) by (bit_vector);
}

/// The default action of each of the first 33 signals, by number: 1, 2,
/// 3, 4, 6, 7, 8, 9, 11, 13 and 15 terminate the process, 19 and 20 stop
/// it, 32 ends the thread, and every other number is ignored.
pub proof fn lemma_default_action_table(sig: usize)
    requires
        sig < SIGNAL_COUNT,
    ensures
        (default_action(sig) == Action::Handle(DefaultHandler::Terminate)) <==> (sig == 1 || sig == 2
            || sig == 3 || sig == 4 || sig == 6 || sig == 7 || sig == 8 || sig == 9 || sig == 11
            || sig == 13 || sig == 15),
        (default_action(sig) == Action::Handle(DefaultHandler::Stop)) <==> (sig == 19 || sig == 20),
        (default_action(sig) == Action::Handle(DefaultHandler::TerminateThread)) <==> sig == 32,
        (default_action(sig) == Action::Ignore) <==> (sig == 0 || sig == 5 || sig == 10 || sig == 12
            || sig == 14 || sig == 16 || sig == 17 || sig == 18 || (21 <= sig && sig <= 31)),
{
}

/// A terminating signal raised while its handling is the default is not
/// dropped: `trigger` makes it pending.
pub proof fn lemma_fatal_default_is_delivered(sig: usize)
    requires
        sig == 1 || sig == 2 || sig == 3 || sig == 4 || sig == 6 || sig == 7 || sig == 8 || sig == 9
            || sig == 11 || sig == 13 || sig == 15,
    ensures
        delivers(SignalHandler::Default, sig),
{
}

/// The signals whose handling can be neither changed nor blocked are, by
/// number, 6 (SIGABRT), 9 (SIGKILL), 18 (SIGCONT), 19 (SIGSTOP), 32 (the
/// thread-kill signal) and 63 (the exec signal), and no others.
pub proof fn lemma_immutable_signals(sig: usize)
    requires
        sig < 64,
    ensures
        bit64(IMMUTABLE_MASK, sig) <==> (sig == 6 || sig == 9 || sig == 18 || sig == 19 || sig == 32 || sig == 63),
{
    let s: u64 = sig as u64;
    assert(s < 64 ==> (0x8000_0001_000C_0240u64 & (1u64 << s) != 0 <==> (s == 6 || s == 9 || s == 18 || s == 19
        || s == 32 || s == 63))) by (bit_vector);
}

/// The signal that delivery picks from `from` on is the lowest one from
/// `from` on that is pending and not blocked; when none is, there is none
/// (`SIGNAL_COUNT`).
pub proof fn lemma_first_deliverable_is_lowest(sigs: Signals, from: int)
    requires
        0 <= from <= SIGNAL_COUNT,
    ensures
        ({
            let r = first_deliverable(sigs, from);
            &&& from <= r <= SIGNAL_COUNT
            &&& r < SIGNAL_COUNT ==> deliverable(sigs, r as usize)
            &&& forall|k: int| from <= k < r ==> !deliverable(sigs, #[trigger] (k as usize))
        }),
    decreases SIGNAL_COUNT - from,
{
    if from < SIGNAL_COUNT && !deliverable(sigs, from as usize) {
        lemma_first_deliverable_is_lowest(sigs, from + 1);
    }
}

} // verus!
