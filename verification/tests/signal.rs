use cykusz_kernel::signal::{
    action, can_override, do_signals, ignore_by_default, Action, DefaultHandler, SigExec,
    SigProcMask, SignalEntry, SignalHandler, SignalStart, Signals, TriggerResult, IMMUTABLE_MASK,
    KSIGEXEC, KSIGKILLTHR, SIGABRT, SIGCHLD, SIGCONT, SIGINT, SIGKILL, SIGSTOP, SIGTERM, SIGTSTP,
};

#[test]
fn default_actions() {
    assert_eq!(action(SIGINT), Action::Handle(DefaultHandler::Terminate));
    assert_eq!(action(SIGKILL), Action::Handle(DefaultHandler::Terminate));
    assert_eq!(action(SIGSTOP), Action::Handle(DefaultHandler::Stop));
    assert_eq!(action(SIGTSTP), Action::Handle(DefaultHandler::Stop));
    assert_eq!(action(KSIGKILLTHR), Action::Handle(DefaultHandler::TerminateThread));
    assert_eq!(action(SIGCHLD), Action::Ignore);
    assert!(ignore_by_default(SIGCHLD));
    assert!(ignore_by_default(SIGCONT));
    assert!(!ignore_by_default(SIGTERM));
}

#[test]
fn immutable_signals_cannot_be_overridden() {
    assert!(!can_override(SIGKILL));
    assert!(!can_override(SIGSTOP));
    assert!(!can_override(SIGCONT));
    assert!(!can_override(SIGABRT));
    assert!(!can_override(KSIGKILLTHR));
    assert!(!can_override(KSIGEXEC));
    assert!(can_override(SIGINT));
    assert!(can_override(SIGTERM));
}

#[test]
fn trigger_marks_pending() {
    let mut s = Signals::new();
    assert!(!s.has_pending());
    assert_eq!(s.trigger(SIGINT, false), TriggerResult::Triggered);
    assert!(s.is_pending(SIGINT as u64));
    assert_eq!(s.pending(), 1 << SIGINT);
    assert_eq!(s.thread_pending(), 0);
    assert_eq!(s.trigger(SIGTERM, true), TriggerResult::Triggered);
    assert_eq!(s.thread_pending(), 1 << SIGTERM);
    assert!(s.has_pending());
}

#[test]
fn trigger_default_ignored_signal_is_dropped() {
    let mut s = Signals::new();
    assert_eq!(s.trigger(SIGCHLD, false), TriggerResult::Ignored);
    assert_eq!(s.pending(), 0);
}

#[test]
fn trigger_blocked_signal() {
    let mut s = Signals::new();
    assert_eq!(s.set_mask(SigProcMask::Block, Some(1 << SIGINT)), 0);
    assert!(s.is_blocked(SIGINT));
    assert_eq!(s.trigger(SIGINT, false), TriggerResult::Blocked);
    assert!(s.is_pending(SIGINT as u64));
    // blocked and pending: nothing to deliver
    assert_eq!(do_signals(&mut s), SignalStart::Nothing);
}

#[test]
fn set_mask_never_blocks_immutable() {
    let mut s = Signals::new();
    s.set_mask(SigProcMask::Replace, Some(u64::MAX));
    assert_eq!(s.blocked_mask(), !IMMUTABLE_MASK);
    assert!(!s.is_blocked(SIGKILL));
    let prev = s.set_mask(SigProcMask::Unblock, Some(1 << SIGINT));
    assert_eq!(prev, !IMMUTABLE_MASK);
    assert!(!s.is_blocked(SIGINT));
    assert_eq!(s.set_mask(SigProcMask::Block, None), !IMMUTABLE_MASK & !(1 << SIGINT));
}

#[test]
fn set_signal_ignore_then_trigger() {
    let mut s = Signals::new();
    let prev = s.set_signal(SIGINT, Some(SignalEntry::ignore()));
    assert_eq!(prev.map(|e| e.handler()), Some(SignalHandler::Default));
    assert_eq!(s.trigger(SIGINT, false), TriggerResult::Ignored);
    // SIGKILL's handling cannot change
    assert!(s.set_signal(SIGKILL, Some(SignalEntry::ignore())).is_none());
    assert_eq!(s.trigger(SIGKILL, false), TriggerResult::Triggered);
}

#[test]
fn kill_is_delivered_first() {
    let mut s = Signals::new();
    s.trigger(SIGINT, false);
    s.trigger(SIGKILL, false);
    assert_eq!(do_signals(&mut s), SignalStart::Exit(SIGKILL));
    assert!(!s.is_pending(SIGKILL as u64));
    assert!(s.is_pending(SIGINT as u64));
    assert_eq!(s.do_signals_start(), SignalStart::Deliver(None));
    let next = s.next_signal(1);
    assert_eq!(next.map(|(n, _)| n), Some(SIGINT));
    assert!(s.next_signal(1).is_none());
}

#[test]
fn abort_ends_the_task() {
    let mut s = Signals::new();
    s.trigger(SIGABRT, true);
    assert_eq!(s.do_signals_start(), SignalStart::Exit(SIGABRT));
    assert_eq!(s.thread_pending(), 0);
}

#[test]
fn sig_exec_runs_once() {
    let mut s = Signals::new();
    let f = SigExec { handler: 0x1000, param: 7 };
    assert!(s.setup_sig_exec(f));
    assert!(!s.setup_sig_exec(SigExec { handler: 0x2000, param: 0 }));
    assert_eq!(s.do_signals_start(), SignalStart::Deliver(Some(f)));
    assert!(!s.is_pending(KSIGEXEC as u64));
    assert_eq!(s.sig_exec(), None);
}

#[test]
fn next_signal_in_order() {
    let mut s = Signals::new();
    s.trigger(SIGTERM, false);
    s.trigger(SIGINT, true);
    assert_eq!(s.next_signal(0).map(|(n, _)| n), Some(SIGINT));
    assert_eq!(s.next_signal(0).map(|(n, _)| n), Some(SIGTERM));
    assert!(s.next_signal(0).is_none());
}

#[test]
fn clear_and_copy() {
    let mut a = Signals::new();
    a.set_signal(SIGINT, Some(SignalEntry::ignore()));
    a.set_mask(SigProcMask::Block, Some(1 << SIGTERM));
    let mut b = Signals::new();
    b.copy_from(&a);
    assert_eq!(b.blocked_mask(), 1 << SIGTERM);
    assert_eq!(b.trigger(SIGINT, false), TriggerResult::Ignored);
    b.clear();
    assert_eq!(b.blocked_mask(), 0);
    assert_eq!(b.trigger(SIGINT, false), TriggerResult::Triggered);
}

#[test]
fn clear_pending_prefers_thread_bit() {
    let mut s = Signals::new();
    s.set_pending(SIGINT as u64, true);
    s.set_pending(SIGINT as u64, false);
    s.clear_pending(SIGINT as u64);
    assert_eq!(s.thread_pending(), 0);
    assert_eq!(s.pending(), 1 << SIGINT);
}
