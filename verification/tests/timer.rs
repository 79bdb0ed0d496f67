use cykusz_kernel::timer::{TimerEntry, Timers};

fn ids(t: &Timers) -> Vec<usize> {
    t.list.iter().map(|e| e.id).collect()
}

#[test]
fn timers_kept_in_deadline_order() {
    let mut t = Timers::new();
    t.start_with_timeout(1, 0, 30);
    t.start_with_timeout(2, 0, 10);
    t.start_with_timeout(3, 0, 20);
    // same deadline as timer 3: goes after it
    t.start_with_timeout(4, 0, 20);
    assert_eq!(ids(&t), vec![2, 3, 4, 1]);
    assert_eq!(t.list[0], TimerEntry { id: 2, deadline: 10_000_000 });
    assert!(t.enabled(4));
}

#[test]
fn restart_moves_timer() {
    let mut t = Timers::new();
    t.start_with_timeout(1, 0, 10);
    t.start_with_timeout(2, 0, 20);
    t.start_with_timeout(1, 5_000_000, 100);
    assert_eq!(ids(&t), vec![2, 1]);
    assert_eq!(t.list[1].deadline, 105_000_000);
}

#[test]
fn disable_removes_timer() {
    let mut t = Timers::new();
    t.start_with_timeout(1, 0, 10);
    t.start_with_timeout(2, 0, 20);
    t.disable(1);
    t.disable(7);
    assert!(!t.enabled(1));
    assert_eq!(ids(&t), vec![2]);
}

#[test]
fn check_fires_due_timers_in_order() {
    let mut t = Timers::new();
    t.start_with_timeout(1, 0, 30);
    t.start_with_timeout(2, 0, 10);
    t.start_with_timeout(3, 0, 20);
    assert!(t.check_timers(9_999_999).is_empty());
    assert_eq!(t.check_timers(20_000_000), vec![2, 3]);
    assert_eq!(ids(&t), vec![1]);
    assert_eq!(t.check_timers(u64::MAX), vec![1]);
    assert!(t.list.is_empty());
}

#[test]
fn started_timer_fires_once_due() {
    let mut t = Timers::new();
    t.start_with_timeout(5, 1_000, 2);
    assert!(t.check_timers(2_000_999).is_empty());
    assert_eq!(t.check_timers(2_001_000), vec![5]);
    assert!(!t.enabled(5));
}
