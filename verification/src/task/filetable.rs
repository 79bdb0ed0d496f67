//! A task's file descriptors: a table of slots, each empty or naming an open
//! file handle together with the descriptor's own flags.
use vstd::prelude::*;
use crate::net::unix::SyscallError;
use crate::utils::buffer::FsError;

verus! {

/// The number of descriptors a task can hold.
pub const FILE_NUM: usize = 256;

/// The descriptor flag that closes the descriptor when the task executes a
/// new program.
pub const FD_CLOEXEC: u64 = 1;

/// A descriptor: the file handle it names (by the handle's id) and its own
/// flags.
#[derive(Debug, Copy, Clone, PartialEq, Eq, Structural)]
pub struct FileDescriptor {
    pub handle: usize,
    pub flags: u64,
}

impl FileDescriptor {
    /// A descriptor for `handle` with flags `flags`.
    pub fn new(handle: usize, flags: u64) -> (d: FileDescriptor)
        ensures
            d == (FileDescriptor { handle, flags }),
    {
        FileDescriptor { handle, flags }
    }

    /// The file handle named.
    pub fn handle(&self) -> (r: usize)
        ensures
            r == self.handle,
    {
        self.handle
    }

    /// The descriptor's flags.
    pub fn fd_flags(&self) -> (r: u64)
        ensures
            r == self.flags,
    {
        self.flags
    }

    /// Sets the descriptor's flags.
    pub fn set_fd_flags(&mut self, flags: u64)
        ensures
            *final(self) == (FileDescriptor { flags, ..*old(self) }),
    {
        self.flags = flags;
    }
}

/// Slot `i` of `s` is the lowest empty slot at or above `min`.
pub open spec fn lowest_free_from(s: Seq<Option<FileDescriptor>>, min: int, i: int) -> bool {
    &&& min <= i < s.len()
    &&& s[i] is None
    &&& forall|j: int| min <= j < i ==> #[trigger] s[j] is Some
}

/// Some slot of `s` at or above `min` is empty.
pub open spec fn has_free_from(s: Seq<Option<FileDescriptor>>, min: int) -> bool {
    exists|i: int| min <= i < s.len() && #[trigger] s[i] is None
}

/// The descriptor that slot `fd` of `s` holds, if `fd` is a slot and holds one.
pub open spec fn slot(s: Seq<Option<FileDescriptor>>, fd: int) -> Option<FileDescriptor> {
    if 0 <= fd < s.len() {
        s[fd]
    } else {
        None
    }
}

/// The descriptors of a task.
#[derive(Clone)]
pub struct FileTable {
    files: Vec<Option<FileDescriptor>>,
}

impl View for FileTable {
    /// The slots, in order.
    type V = Seq<Option<FileDescriptor>>;

    closed spec fn view(&self) -> Seq<Option<FileDescriptor>> {
        self.files@
    }
}

/// A descriptor at the slot where a new one goes in `s`: the lowest empty
/// slot, else a new slot at the end while there are fewer than `FILE_NUM`.
pub open spec fn next_fd_of(s: Seq<Option<FileDescriptor>>) -> Result<usize, FsError> {
    if has_free_from(s, 0) {
        Ok((choose|i: int| #[trigger] lowest_free_from(s, 0, i)) as usize)
    } else if s.len() < FILE_NUM {
        Ok(s.len() as usize)
    } else {
        Err(FsError::Busy)
    }
}

/// The lowest empty slot at or above `min` is unique.
proof fn lemma_lowest_free_unique(s: Seq<Option<FileDescriptor>>, min: int, i: int, k: int)
    requires
        lowest_free_from(s, min, i),
        lowest_free_from(s, min, k),
    ensures
        i == k,
{
    if i < k {
        assert(s[i] is Some);
    } else if k < i {
        assert(s[k] is Some);
    }
}

impl FileTable {
    /// A table of `FILE_NUM` empty slots.
    pub fn new() -> (t: FileTable)
        ensures
            t@ == Seq::<Option<FileDescriptor>>::new(FILE_NUM as nat, |i: int| None),
    {
        let mut files: Vec<Option<FileDescriptor>> = Vec::new();
        let mut i: usize = 0;
        while i < FILE_NUM
            invariant
                i <= FILE_NUM,
                files@ == Seq::<Option<FileDescriptor>>::new(i as nat, |k: int| None),
            decreases FILE_NUM - i,
        {
            files.push(None);
            i = i + 1;
            assert(files@ =~= Seq::<Option<FileDescriptor>>::new(i as nat, |k: int| None));
        }
        FileTable { files }
    }

    /// The number of slots.
    pub fn len(&self) -> (r: usize)
        ensures
            r == self@.len(),
    {
        self.files.len()
    }

    /// Finds the lowest empty slot at or above `min`, if any.
    fn find_free(&self, min: usize) -> (r: Option<usize>)
        ensures
            r matches Some(i) ==> lowest_free_from(self@, min as int, i as int),
            r is None ==> !has_free_from(self@, min as int),
    {
        let mut i: usize = min;
        while i < self.files.len()
            invariant
                min <= i,
                forall|j: int| min <= j < i && j < self@.len() ==> #[trigger] self@[j] is Some,
            decreases self.files.len() - i,
        {
            if self.files[i].is_none() {
                return Some(i);
            }
            i = i + 1;
        }
        None
    }

    /// The descriptor a new file gets (see `next_fd_of`); `Busy` if the table
    /// is full.
    pub fn next_fd(&self) -> (r: Result<usize, FsError>)
        ensures
            r == next_fd_of(self@),
    {
        match self.find_free(0) {
            Some(i) => {
                proof {
                    let k = choose|k: int| #[trigger] lowest_free_from(self@, 0, k);
                    lemma_lowest_free_unique(self@, 0, i as int, k);
                }
                Ok(i)
            },
            None => {
                if self.files.len() < FILE_NUM {
                    Ok(self.files.len())
                } else {
                    Err(FsError::Busy)
                }
            },
        }
    }

    /// Stores `desc` at the descriptor a new file gets (see `next_fd_of`)
    /// and returns that descriptor; `Busy`, with nothing stored, if the
    /// table is full.
    pub fn open_file(&mut self, desc: FileDescriptor) -> (r: Result<usize, FsError>)
        ensures
            r == next_fd_of(old(self)@),
            r matches Ok(fd) ==> final(self)@ == if fd < old(self)@.len() {
                old(self)@.update(fd as int, Some(desc))
            } else {
                old(self)@.push(Some(desc))
            },
            r is Err ==> final(self)@ == old(self)@,
    {
        let r = self.next_fd();
        match r {
            Ok(fd) => {
                if fd < self.files.len() {
                    self.files.set(fd, Some(desc));
                } else {
                    self.files.push(Some(desc));
                }
            },
            Err(_) => {},
        }
        r
    }

    /// Empties slot `fd`; false if it held nothing.
    pub fn close_file(&mut self, fd: usize) -> (r: bool)
        ensures
            r == slot(old(self)@, fd as int) is Some,
            r ==> final(self)@ == old(self)@.update(fd as int, None),
            !r ==> final(self)@ == old(self)@,
    {
        if fd < self.files.len() && self.files[fd].is_some() {
            self.files.set(fd, None);
            true
        } else {
            false
        }
    }

    /// Empties every slot whose descriptor has `FD_CLOEXEC` set.
    pub fn close_on_exec(&mut self)
        ensures
            final(self)@.len() == old(self)@.len(),
            forall|i: int| 0 <= i < old(self)@.len() ==> #[trigger] final(self)@[i] == match old(self)@[i] {
                Some(d) => if d.flags & FD_CLOEXEC != 0 { None } else { Some(d) },
                None => None,
            },
    {
        let ghost s0 = self@;
        let mut i: usize = 0;
        while i < self.files.len()
            invariant
                i <= self@.len(),
                self@.len() == s0.len(),
                forall|k: int| 0 <= k < i ==> #[trigger] self@[k] == match s0[k] {
                    Some(d) => if d.flags & FD_CLOEXEC != 0 { None } else { Some(d) },
                    None => None,
                },
                forall|k: int| i <= k < s0.len() ==> #[trigger] self@[k] == s0[k],
            decreases self@.len() - i,
        {
            let close = match self.files[i] {
                Some(d) => d.flags & FD_CLOEXEC != 0,
                None => false,
            };
            if close {
                self.files.set(i, None);
            }
            i = i + 1;
        }
    }

    /// Empties the table.
    pub fn close_all_files(&mut self)
        ensures
            final(self)@ == Seq::<Option<FileDescriptor>>::empty(),
    {
        self.files.clear();
    }

    /// The file handle that descriptor `fd` names, if it holds one.
    pub fn get_handle(&self, fd: usize) -> (r: Option<usize>)
        ensures
            r == match slot(self@, fd as int) {
                Some(d) => Some(d.handle),
                None => None,
            },
    {
        if fd < self.files.len() {
            match self.files[fd] {
                Some(d) => Some(d.handle),
                None => None,
            }
        } else {
            None
        }
    }

    /// A copy of descriptor `fd`, if the slot holds one.
    pub fn get_fd(&self, fd: usize) -> (r: Option<FileDescriptor>)
        ensures
            r == slot(self@, fd as int),
    {
        if fd < self.files.len() {
            self.files[fd]
        } else {
            None
        }
    }

    /// A new descriptor, with flags `flags`, for the file that descriptor
    /// `fd` names: at the lowest empty slot at or above `min`, else at a new
    /// slot at the end while there are fewer than `FILE_NUM` (whatever
    /// `min`). `EINVAL` if `fd` names nothing or there is no room.
    pub fn duplicate(&mut self, fd: usize, flags: u64, min: usize) -> (r: Result<usize, SyscallError>)
        ensures
            ({
                let s = old(self)@;
                match slot(s, fd as int) {
                    None => r == Err::<usize, SyscallError>(SyscallError::EINVAL) && final(self)@ == s,
                    Some(d) => {
                        let nd = Some(FileDescriptor { handle: d.handle, flags });
                        if has_free_from(s, min as int) {
                            r matches Ok(i) && lowest_free_from(s, min as int, i as int)
                                && final(self)@ == s.update(i as int, nd)
                        } else if s.len() < FILE_NUM {
                            r == Ok::<usize, SyscallError>(s.len() as usize) && final(self)@ == s.push(nd)
                        } else {
                            r == Err::<usize, SyscallError>(SyscallError::EINVAL) && final(self)@ == s
                        }
                    },
                }
            }),
    {
        let handle = match self.get_handle(fd) {
            Some(h) => h,
            None => {
                return Err(SyscallError::EINVAL);
            },
        };
        match self.find_free(min) {
            Some(i) => {
                self.files.set(i, Some(FileDescriptor::new(handle, flags)));
                Ok(i)
            },
            None => {
                if self.files.len() < FILE_NUM {
                    let len = self.files.len();
                    self.files.push(Some(FileDescriptor::new(handle, flags)));
                    Ok(len)
                } else {
                    Err(SyscallError::EINVAL)
                }
            },
        }
    }

    /// Makes descriptor `at` name the file that descriptor `fd` names, with
    /// flags `flags`, replacing what `at` held. `EINVAL` if `at` is not below
    /// `FILE_NUM` or `fd` names nothing.
    pub fn duplicate_at(&mut self, fd: usize, at: usize, flags: u64) -> (r: Result<usize, SyscallError>)
        requires
            at < FILE_NUM && slot(old(self)@, fd as int) is Some ==> at < old(self)@.len(),
        ensures
            at >= FILE_NUM ==> r == Err::<usize, SyscallError>(SyscallError::EINVAL) && final(self)@ == old(self)@,
            at < FILE_NUM ==> match slot(old(self)@, fd as int) {
                None => r == Err::<usize, SyscallError>(SyscallError::EINVAL) && final(self)@ == old(self)@,
                Some(d) => r == Ok::<usize, SyscallError>(at)
                    && final(self)@ == old(self)@.update(at as int, Some(FileDescriptor { handle: d.handle, flags })),
            },
    {
        if at >= FILE_NUM {
            return Err(SyscallError::EINVAL);
        }
        let handle = match self.get_handle(fd) {
            Some(h) => h,
            None => {
                return Err(SyscallError::EINVAL);
            },
        };
        self.files.set(at, Some(FileDescriptor::new(handle, flags)));
        Ok(at)
    }
}

/// A descriptor closed below every other empty slot is the one the next
/// file gets.
pub proof fn lemma_close_then_open_reuses(s: Seq<Option<FileDescriptor>>, fd: int)
    requires
        0 <= fd < s.len(),
        s[fd] is Some,
        forall|j: int| 0 <= j < fd ==> #[trigger] s[j] is Some,
    ensures
        next_fd_of(s.update(fd, None)) == Ok::<usize, FsError>(fd as usize),
{
    let t = s.update(fd, None);
    assert(lowest_free_from(t, 0, fd));
    assert(has_free_from(t, 0));
    let k = choose|k: int| #[trigger] lowest_free_from(t, 0, k);
    lemma_lowest_free_unique(t, 0, fd, k);
}

} // verus!
