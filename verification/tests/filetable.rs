use cykusz_kernel::task::filetable::{FileDescriptor, FileTable, FD_CLOEXEC, FILE_NUM};
use cykusz_kernel::net::unix::SyscallError;
use cykusz_kernel::utils::buffer::FsError;

#[test]
fn open_takes_lowest_free() {
    let mut t = FileTable::new();
    assert_eq!(t.open_file(FileDescriptor::new(10, 0)), Ok(0));
    assert_eq!(t.open_file(FileDescriptor::new(11, 0)), Ok(1));
    assert_eq!(t.open_file(FileDescriptor::new(12, 0)), Ok(2));
    assert!(t.close_file(1));
    assert_eq!(t.next_fd(), Ok(1));
    assert_eq!(t.open_file(FileDescriptor::new(13, 0)), Ok(1));
    assert_eq!(t.get_handle(1), Some(13));
    assert_eq!(t.next_fd(), Ok(3));
}

#[test]
fn close_twice_fails() {
    let mut t = FileTable::new();
    assert_eq!(t.open_file(FileDescriptor::new(10, 0)), Ok(0));
    assert!(t.close_file(0));
    assert!(!t.close_file(0));
    assert!(!t.close_file(FILE_NUM + 3));
}

#[test]
fn full_table_is_busy() {
    let mut t = FileTable::new();
    for i in 0..FILE_NUM {
        assert_eq!(t.open_file(FileDescriptor::new(i, 0)), Ok(i));
    }
    assert_eq!(t.open_file(FileDescriptor::new(999, 0)), Err(FsError::Busy));
    assert_eq!(t.duplicate(0, 0, 0), Err(SyscallError::EINVAL));
}

#[test]
fn close_on_exec_closes_marked() {
    let mut t = FileTable::new();
    assert_eq!(t.open_file(FileDescriptor::new(10, FD_CLOEXEC)), Ok(0));
    assert_eq!(t.open_file(FileDescriptor::new(11, 0)), Ok(1));
    t.close_on_exec();
    assert_eq!(t.get_fd(0), None);
    assert_eq!(t.get_fd(1), Some(FileDescriptor::new(11, 0)));
}

#[test]
fn duplicate_from_min() {
    let mut t = FileTable::new();
    assert_eq!(t.open_file(FileDescriptor::new(10, 0)), Ok(0));
    assert_eq!(t.duplicate(0, FD_CLOEXEC, 5), Ok(5));
    assert_eq!(t.get_fd(5), Some(FileDescriptor::new(10, FD_CLOEXEC)));
    assert_eq!(t.duplicate(0, 0, 0), Ok(1));
    assert_eq!(t.duplicate(7, 0, 0), Err(SyscallError::EINVAL));
}

#[test]
fn duplicate_at_replaces() {
    let mut t = FileTable::new();
    assert_eq!(t.open_file(FileDescriptor::new(10, 0)), Ok(0));
    assert_eq!(t.open_file(FileDescriptor::new(11, 0)), Ok(1));
    assert_eq!(t.duplicate_at(0, 1, 0), Ok(1));
    assert_eq!(t.get_handle(1), Some(10));
    assert_eq!(t.duplicate_at(0, FILE_NUM, 0), Err(SyscallError::EINVAL));
    assert_eq!(t.duplicate_at(4, 2, 0), Err(SyscallError::EINVAL));
}

#[test]
fn close_all_then_open_pushes() {
    let mut t = FileTable::new();
    assert_eq!(t.len(), FILE_NUM);
    assert_eq!(t.open_file(FileDescriptor::new(10, 0)), Ok(0));
    t.close_all_files();
    assert_eq!(t.len(), 0);
    assert_eq!(t.get_fd(0), None);
    assert_eq!(t.next_fd(), Ok(0));
    assert_eq!(t.open_file(FileDescriptor::new(12, 0)), Ok(0));
    // with no empty slot at or above `min`, a duplicate goes to the end
    assert_eq!(t.duplicate(0, 0, 9), Ok(1));
}

#[test]
fn descriptor_flags_set_on_copy() {
    let mut t = FileTable::new();
    assert_eq!(t.open_file(FileDescriptor::new(10, 0)), Ok(0));
    let mut d = t.get_fd(0).unwrap();
    d.set_fd_flags(FD_CLOEXEC);
    assert_eq!(d.fd_flags(), FD_CLOEXEC);
    assert_eq!(d.handle(), 10);
    assert_eq!(t.get_fd(0).unwrap().fd_flags(), 0);
}
