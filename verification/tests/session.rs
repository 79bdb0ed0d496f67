use cykusz_kernel::net::unix::SyscallError;
use cykusz_kernel::session::{Group, Sessions, TaskIds, TaskLookup};

fn ids(tid: usize, pid: usize, gid: usize, sid: usize) -> TaskIds {
    TaskIds { tid, pid, gid, sid }
}

fn member(ss: &Sessions, sid: usize, gid: usize, pid: usize) -> bool {
    match ss.get_group(sid, gid) {
        Some(g) => g.has_process(pid),
        None => false,
    }
}

#[test]
fn group_new_holds_leader() {
    let mut leader = ids(5, 5, 0, 3);
    let g = Group::new(&mut leader);
    assert_eq!(g.id(), 5);
    assert_eq!(leader.gid, 5);
    assert!(g.has_process(5));
    assert_eq!(g.for_each(), vec![5]);
}

#[test]
fn group_remove_and_add() {
    let mut leader = ids(5, 5, 0, 3);
    let mut g = Group::new(&mut leader);
    let mut other = ids(7, 7, 1, 3);
    assert_eq!(g.add_process(&mut other), Ok(0));
    assert_eq!(other.gid, 5);
    let mut again = other;
    assert_eq!(g.add_process(&mut again), Err(SyscallError::EPERM));
    assert_eq!(g.remove_process(7), Ok(1));
    assert_eq!(g.remove_process(7), Err(SyscallError::ESRCH));
    assert_eq!(g.remove_process(5), Ok(0));
    assert!(!g.has_process(5));
}

#[test]
fn register_leader_creates_session() {
    let mut ss = Sessions::new();
    let mut init = ids(1, 1, 0, 1);
    ss.register_process(&mut init);
    assert_eq!(init.gid, 1);
    assert_eq!(init.sid, 1);
    let s = ss.get_session(1).unwrap();
    assert_eq!(s.id(), 1);
    assert_eq!(s.for_each(), vec![1]);
    assert!(member(&ss, 1, 1, 1));
}

#[test]
fn register_thread_is_ignored() {
    let mut ss = Sessions::new();
    let mut thread = ids(2, 1, 1, 1);
    ss.register_process(&mut thread);
    assert!(ss.get_session(1).is_none());
}

#[test]
fn register_child_joins_parent_group() {
    let mut ss = Sessions::new();
    let mut init = ids(1, 1, 0, 1);
    ss.register_process(&mut init);
    let mut child = ids(2, 2, 1, 1);
    ss.register_process(&mut child);
    assert!(member(&ss, 1, 1, 2));
    assert_eq!(child.gid, 1);
}

fn two_in_one_group() -> (Sessions, TaskIds, TaskIds) {
    let mut ss = Sessions::new();
    let mut init = ids(1, 1, 0, 1);
    ss.register_process(&mut init);
    let mut child = ids(2, 2, 1, 1);
    ss.register_process(&mut child);
    (ss, init, child)
}

#[test]
fn move_to_own_group() {
    let (mut ss, _init, mut child) = two_in_one_group();
    assert_eq!(ss.move_to_group(&mut child, 0), Ok(0));
    assert_eq!(child.gid, 2);
    assert!(member(&ss, 1, 2, 2));
    assert!(!member(&ss, 1, 1, 2));
    assert!(member(&ss, 1, 1, 1));
}

#[test]
fn move_to_group_named_by_own_pid() {
    let (mut ss, _init, mut child) = two_in_one_group();
    assert_eq!(ss.move_to_group(&mut child, 2), Ok(0));
    assert_eq!(child.gid, 2);
    assert!(member(&ss, 1, 2, 2));
}

#[test]
fn move_back_to_existing_group() {
    let (mut ss, _init, mut child) = two_in_one_group();
    assert_eq!(ss.move_to_group(&mut child, 0), Ok(0));
    assert_eq!(ss.move_to_group(&mut child, 1), Ok(0));
    assert_eq!(child.gid, 1);
    assert!(member(&ss, 1, 1, 2));
    // the group left behind stays, empty
    assert!(ss.get_group(1, 2).is_some());
    assert!(!member(&ss, 1, 2, 2));
}

#[test]
fn move_to_missing_group_is_refused() {
    let (mut ss, _init, mut child) = two_in_one_group();
    assert_eq!(ss.move_to_group(&mut child, 9), Err(SyscallError::EPERM));
    assert_eq!(child.gid, 1);
    assert!(member(&ss, 1, 1, 2));
}

#[test]
fn move_to_same_group_does_nothing() {
    let (mut ss, _init, mut child) = two_in_one_group();
    assert_eq!(ss.move_to_group(&mut child, 1), Ok(0));
    assert!(member(&ss, 1, 1, 2));
}

#[test]
fn move_without_session() {
    let mut ss = Sessions::new();
    let mut lost = ids(4, 4, 3, 3);
    assert_eq!(ss.move_to_group(&mut lost, 0), Err(SyscallError::ESRCH));
}

#[test]
fn remove_process_counts() {
    let (mut ss, init, child) = two_in_one_group();
    assert_eq!(ss.remove_process(&child), Ok(1));
    assert!(!member(&ss, 1, 1, 2));
    assert_eq!(ss.remove_process(&child), Err(SyscallError::ESRCH));
    assert_eq!(ss.remove_process(&init), Ok(0));
    assert!(ss.get_session(1).is_none());
}

#[test]
fn set_sid_refuses_group_leader() {
    let (mut ss, init, _child) = two_in_one_group();
    let mut leader = init;
    assert_eq!(ss.set_sid(&init, &mut leader), Err(SyscallError::EPERM));
    assert!(member(&ss, 1, 1, 1));
}

#[test]
fn set_sid_makes_new_session() {
    let (mut ss, _init, child) = two_in_one_group();
    let mut leader = child;
    assert_eq!(ss.set_sid(&child, &mut leader), Ok(0));
    assert_eq!(leader.sid, 2);
    assert_eq!(leader.gid, 2);
    assert!(member(&ss, 2, 2, 2));
    assert!(!member(&ss, 1, 1, 2));
}

#[test]
fn set_pgid_on_self() {
    let (mut ss, _init, mut child) = two_in_one_group();
    let mut none: Option<TaskLookup> = None;
    assert_eq!(ss.set_pgid(0, 0, &mut child, &mut none), Ok(0));
    assert_eq!(child.gid, 2);
    assert!(member(&ss, 1, 2, 2));
}

#[test]
fn set_pgid_session_leader_refused() {
    let (mut ss, mut init, _child) = two_in_one_group();
    let mut none: Option<TaskLookup> = None;
    assert_eq!(ss.set_pgid(1, 0, &mut init, &mut none), Err(SyscallError::EPERM));
}

#[test]
fn set_pgid_on_child() {
    let (mut ss, mut init, child) = two_in_one_group();
    let mut target = Some(TaskLookup { ids: child, parent_tid: Some(1) });
    assert_eq!(ss.set_pgid(2, 0, &mut init, &mut target), Ok(0));
    assert_eq!(target.unwrap().ids.gid, 2);
    assert!(member(&ss, 1, 2, 2));
}

#[test]
fn set_pgid_errors() {
    let (mut ss, mut init, child) = two_in_one_group();
    let mut missing: Option<TaskLookup> = None;
    assert_eq!(ss.set_pgid(9, 0, &mut init, &mut missing), Err(SyscallError::ESRCH));
    let mut thread = Some(TaskLookup { ids: ids(3, 2, 1, 1), parent_tid: Some(1) });
    assert_eq!(ss.set_pgid(3, 0, &mut init, &mut thread), Err(SyscallError::EPERM));
    let mut orphan = Some(TaskLookup { ids: child, parent_tid: None });
    assert_eq!(ss.set_pgid(2, 0, &mut init, &mut orphan), Err(SyscallError::EPERM));
    let mut stranger = Some(TaskLookup { ids: child, parent_tid: Some(7) });
    assert_eq!(ss.set_pgid(2, 0, &mut init, &mut stranger), Err(SyscallError::ESRCH));
    let mut elsewhere = Some(TaskLookup { ids: ids(2, 2, 1, 5), parent_tid: Some(1) });
    assert_eq!(ss.set_pgid(2, 0, &mut init, &mut elsewhere), Err(SyscallError::EPERM));
    assert!(member(&ss, 1, 1, 2));
}

#[test]
fn session_processes_cover_all_groups() {
    let (mut ss, _init, mut child) = two_in_one_group();
    assert_eq!(ss.move_to_group(&mut child, 0), Ok(0));
    let mut all = ss.get_session(1).unwrap().for_each();
    all.sort();
    assert_eq!(all, vec![1, 2]);
}
