use cykusz_kernel::sched::cpu_queue::{CpuQueue, CpuTask, CpuTaskState};
use cykusz_kernel::sched::task_container::TaskContainer;
use cykusz_kernel::sched::preempt::Preemption;
use cykusz_kernel::sched::round_robin::{position, remove_tid, sleep_result, Queues, SchedTask, SleepStep};
use cykusz_kernel::sched::{SignalError, TaskState, SLEEP_NON_INTERRUPTIBLE};

fn task(state: TaskState) -> SchedTask {
    SchedTask { state, sleep_until: 0, pending_io: false }
}

/// Queues on a CPU with idle task 0 and tasks 1, 2, 3 known.
fn queues() -> Queues {
    let mut q = Queues::new(0);
    for t in 1..4 {
        q.tasks.insert(t, task(TaskState::Runnable));
    }
    q
}

#[test]
fn task_state_numbers() {
    assert_eq!(TaskState::Unused.number(), 0);
    assert_eq!(TaskState::Idle.number(), 1);
    assert_eq!(TaskState::Runnable.number(), 2);
    assert_eq!(TaskState::AwaitingIo.number(), 4);
    assert_eq!(TaskState::Stopped.number(), 5);
    assert_eq!(TaskState::from_number(4), Some(TaskState::AwaitingIo));
    assert_eq!(TaskState::from_number(3), None);
    assert_eq!(TaskState::from_number(6), None);
}

#[test]
fn round_robin_order() {
    let mut q = queues();
    q.queue_task(1);
    q.queue_task(2);
    assert_eq!(q.schedule_next(0), (1, true));
    // task 1 goes back behind task 2
    assert_eq!(q.schedule_next(0), (2, true));
    assert_eq!(q.schedule_next(0), (1, true));
    assert_eq!(q.runnable, vec![2]);
}

#[test]
fn idle_runs_when_nothing_is_runnable() {
    let mut q = Queues::new(0);
    assert_eq!(q.schedule_next(10), (0, false));
    assert_eq!(q.current, 0);
}

#[test]
fn lone_runnable_task_keeps_running() {
    let mut q = queues();
    q.queue_task(1);
    assert_eq!(q.schedule_next(0), (1, true));
    assert_eq!(q.reschedule(0), (1, false));
}

#[test]
fn sleep_and_wake() {
    let mut q = queues();
    q.queue_task(1);
    q.queue_task(2);
    q.schedule_next(0);
    assert_eq!(q.sleep(None, 0, 0, false, false), Ok(SleepStep::Switch(2)));
    assert_eq!(q.awaiting, vec![1]);
    assert_eq!(q.task(1).state, TaskState::AwaitingIo);
    q.wake(1);
    assert!(q.awaiting.is_empty());
    assert_eq!(q.runnable, vec![1]);
    assert_eq!(q.task(1).state, TaskState::Runnable);
}

#[test]
fn wake_before_sleep_is_kept() {
    let mut q = queues();
    q.queue_task(1);
    q.schedule_next(0);
    q.wake(1);
    assert!(q.task(1).pending_io);
    assert_eq!(q.sleep(None, 0, 0, false, false), Ok(SleepStep::Resumed));
    assert!(!q.task(1).pending_io);
    assert_eq!(q.current, 1);
}

#[test]
fn sleep_refused_by_signals() {
    let mut q = queues();
    q.queue_task(1);
    q.schedule_next(0);
    assert_eq!(q.sleep(None, 0, 0, true, false), Err(SignalError::Interrupted));
    assert_eq!(q.sleep(None, 0, 0, false, true), Err(SignalError::Interrupted));
    // non-interruptible sleep goes on despite signals
    assert_eq!(q.sleep(None, SLEEP_NON_INTERRUPTIBLE, 0, true, false), Ok(SleepStep::Switch(0)));
}

#[test]
fn timed_sleep_ends_at_deadline() {
    let mut q = queues();
    q.queue_task(1);
    q.schedule_next(0);
    assert_eq!(q.sleep(Some(100), 0, 50, false, false), Ok(SleepStep::Switch(0)));
    assert_eq!(q.deadline_awaiting, vec![1]);
    assert_eq!(q.task(1).sleep_until, 150);
    assert_eq!(q.schedule_next(149), (0, false));
    assert_eq!(q.schedule_next(150), (1, true));
    assert_eq!(q.task(1).sleep_until, 0);
    assert!(q.deadline_awaiting.is_empty());
}

#[test]
fn check_deadline_keeps_order() {
    let mut q = queues();
    q.push_deadline_awaiting(1, 0, 30);
    q.push_deadline_awaiting(2, 0, 10);
    q.push_deadline_awaiting(3, 0, 50);
    q.schedule_check_deadline(30);
    assert_eq!(q.runnable, vec![1, 2]);
    assert_eq!(q.deadline_awaiting, vec![3]);
}

#[test]
fn wake_as_next_goes_first() {
    let mut q = queues();
    q.queue_task(1);
    q.push_awaiting(2);
    q.wake_as_next(2);
    assert_eq!(q.runnable, vec![2, 1]);
}

#[test]
fn stop_and_continue() {
    let mut q = queues();
    q.queue_task(1);
    q.queue_task(2);
    q.schedule_next(0);
    assert_eq!(q.stop(19, 0), 2);
    assert_eq!(q.stopped, vec![1]);
    q.queue_task(3);
    q.cont(1);
    assert!(q.stopped.is_empty());
    assert_eq!(q.runnable, vec![1, 3]);
}

#[test]
fn exit_makes_unused() {
    let mut q = queues();
    q.queue_task(1);
    q.schedule_next(0);
    assert_eq!(q.exit(0), 0);
    assert_eq!(q.task(1).state, TaskState::Unused);
    assert!(!q.is_linked(1));
    q.queue_task(2);
    q.schedule_next(0);
    assert_eq!(q.exit_thread(0), 0);
}

#[test]
fn debug_report_lists_queues() {
    let mut q = queues();
    q.queue_task(1);
    q.push_awaiting(2);
    let rep = q.debug_sched(3);
    assert_eq!(rep.cpu, 3);
    assert_eq!(rep.current, 0);
    assert_eq!(rep.runnable, vec![1]);
    assert_eq!(rep.awaiting, vec![2]);
    assert!(rep.deadline_awaiting.is_empty());
}

#[test]
fn sleep_result_compares_masks() {
    assert_eq!(sleep_result(4, 4), Ok(()));
    assert_eq!(sleep_result(0, 4), Err(SignalError::Interrupted));
}

#[test]
fn remove_and_position() {
    let mut v = vec![5usize, 7, 9];
    assert_eq!(position(&v, 7), Some(1));
    assert_eq!(position(&v, 8), None);
    assert!(remove_tid(&mut v, 7));
    assert!(!remove_tid(&mut v, 7));
    assert_eq!(v, vec![5, 9]);
}

fn cpu_task(state: CpuTaskState) -> CpuTask {
    CpuTask { state, locks: 0, sleep_until: 0, refs: 1 }
}

#[test]
fn cpu_queue_walks_in_turn() {
    let mut q = CpuQueue::new(cpu_task(CpuTaskState::Running));
    q.add_task(cpu_task(CpuTaskState::Runnable));
    q.add_task(cpu_task(CpuTaskState::Runnable));
    assert_eq!(q.schedule_next(0), 1);
    assert!(q.reschedule());
    assert_eq!(q.tasks[0].state, CpuTaskState::Runnable);
    assert_eq!(q.tasks[1].state, CpuTaskState::Running);
    assert_eq!(q.schedule_next(0), 2);
    assert_eq!(q.schedule_next(0), 1);
    assert_eq!(q.previous, 2);
}

#[test]
fn cpu_queue_falls_back_to_main() {
    let mut q = CpuQueue::new(cpu_task(CpuTaskState::Running));
    q.add_task(cpu_task(CpuTaskState::AwaitingIo));
    assert_eq!(q.schedule_next(0), 0);
    assert!(!q.reschedule());
}

#[test]
fn cpu_queue_wakes_timed_sleeper() {
    let mut q = CpuQueue::new(cpu_task(CpuTaskState::Running));
    q.add_task(CpuTask { state: CpuTaskState::AwaitingIo, locks: 0, sleep_until: 100, refs: 1 });
    assert_eq!(q.schedule_next(100), 0);
    assert_eq!(q.schedule_next(101), 1);
    assert_eq!(q.tasks[1].state, CpuTaskState::Running);
    assert_eq!(q.tasks[1].sleep_until, 0);
}

#[test]
fn cpu_queue_locks_delay_the_switch() {
    let mut q = CpuQueue::new(cpu_task(CpuTaskState::Running));
    q.add_task(cpu_task(CpuTaskState::Runnable));
    q.enter_critical_section();
    assert_eq!(q.schedule_next(0), 0);
    assert_eq!(q.tasks[0].state, CpuTaskState::ToReschedule);
    assert!(q.leave_critical_section());
    assert_eq!(q.tasks[0].state, CpuTaskState::Running);
    assert_eq!(q.tasks[0].locks, 0);
}

#[test]
fn cpu_queue_removes_finished_task() {
    let mut q = CpuQueue::new(cpu_task(CpuTaskState::Running));
    q.add_task(cpu_task(CpuTaskState::Runnable));
    q.add_task(cpu_task(CpuTaskState::Runnable));
    assert_eq!(q.schedule_next(0), 1);
    q.current_task_finished();
    // task 1 is removed; the walk goes on from task 0 to the next one
    assert_eq!(q.schedule_next(0), 1);
    assert_eq!(q.tasks.len(), 2);
}

#[test]
fn task_container_register_get_remove() {
    let mut c = TaskContainer::new();
    assert!(c.get(7).is_none());
    c.register_task(7, task(TaskState::Runnable));
    c.register_task(8, task(TaskState::Stopped));
    assert_eq!(c.get(7).map(|t| t.state), Some(TaskState::Runnable));
    c.register_task(7, task(TaskState::AwaitingIo));
    assert_eq!(c.get(7).map(|t| t.state), Some(TaskState::AwaitingIo));
    c.remove_task(7);
    assert!(c.get(7).is_none());
    assert_eq!(c.get(8).map(|t| t.state), Some(TaskState::Stopped));
    c.remove_task(99);
}

#[test]
fn reschedule_waits_for_last_lock() {
    let mut p = Preemption::new();
    assert!(p.reschedule());
    p.preempt_disable();
    p.preempt_disable();
    assert!(!p.reschedule());
    assert!(p.to_reschedule);
    assert!(!p.preempt_enable());
    assert_eq!(p.locks, 1);
    assert!(p.preempt_enable());
    assert_eq!(p.locks, 0);
}

#[test]
fn unlock_without_request_keeps_cpu() {
    let mut p = Preemption::new();
    p.preempt_disable();
    assert!(!p.preempt_enable());
    assert_eq!(p, Preemption { locks: 0, to_reschedule: false });
}
