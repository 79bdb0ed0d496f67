//! The memory map of a task: its mappings, each a range of addresses with
//! protection bits, mapping flags and, for a file mapping, the part of the
//! file it shows. The list is kept in address order, without overlaps;
//! mappings that touch and agree are merged.
use vstd::prelude::*;
use crate::net::unix::SyscallError;
use crate::utils::types::{align_down_spec, Align};

verus! {

/// The size of a page.
pub const PAGE_SIZE: usize = 4096;

/// Protection bits (as `mmap` takes them).
pub const PROT_READ: u64 = 1;
pub const PROT_WRITE: u64 = 2;
pub const PROT_EXEC: u64 = 4;

/// Mapping flags (as `mmap` takes them).
pub const MAP_SHARED: u64 = 1;
pub const MAP_PRIVATE: u64 = 2;
pub const MAP_FIXED: u64 = 0x10;
pub const MAP_ANONYMOUS: u64 = 0x20;

/// Flags of an ELF program segment.
pub const SEG_EXECUTABLE: u32 = 1;
pub const SEG_WRITABLE: u32 = 2;
pub const SEG_READABLE: u32 = 4;

/// The protection a program segment with flags `f` is mapped with: read,
/// write and execute as the segment allows.
pub fn prot_from_program_flags(f: u32) -> (p: u64)
    ensures
        p == (if f & SEG_READABLE != 0 { PROT_READ } else { 0 }) + (if f & SEG_WRITABLE != 0 { PROT_WRITE } else { 0 })
            + (if f & SEG_EXECUTABLE != 0 { PROT_EXEC } else { 0 }),
{
    let mut p: u64 = 0;
    if f & SEG_READABLE != 0 {
        p = p + PROT_READ;
    }
    if f & SEG_WRITABLE != 0 {
        p = p + PROT_WRITE;
    }
    if f & SEG_EXECUTABLE != 0 {
        p = p + PROT_EXEC;
    }
    p
}

/// `x` rounded up to a whole number of pages.
pub open spec fn page_up(x: int) -> int {
    align_down_spec(x + PAGE_SIZE - 1, PAGE_SIZE as int)
}

/// The part of a file that a mapping shows: the file handle (by id),
/// whether it was opened for writing, and the offset and length mapped.
#[derive(Debug, Copy, Clone, PartialEq, Eq, Structural)]
pub struct FileRange {
    pub file: usize,
    pub writable: bool,
    pub starting_offset: usize,
    pub len: usize,
}

/// A mapping: the addresses `start..end`, its protection and flags, and
/// the file range shown, if it maps a file.
#[derive(Debug, Copy, Clone, PartialEq, Eq, Structural)]
pub struct Mapping {
    pub file: Option<FileRange>,
    pub prot: u64,
    pub flags: u64,
    pub start: usize,
    pub end: usize,
}

/// What `try_merge` makes of `a` (the mapping merged into) and `b`: `None`
/// where they cannot merge. They merge where both map no file, or both map
/// the same file at offsets where one range ends where the other begins,
/// have the same flags and protection, and one ends where the other starts.
pub open spec fn merged(a: Mapping, b: Mapping) -> Option<Mapping> {
    let files_ok = match (a.file, b.file) {
        (Some(f), Some(g)) => f.file == g.file
            && (f.starting_offset + f.len == g.starting_offset || g.starting_offset + g.len == f.starting_offset),
        (None, None) => true,
        _ => false,
    };
    if !files_ok || a.flags != b.flags || a.prot != b.prot {
        None
    } else if a.start == b.end || a.end == b.start {
        let file = match (a.file, b.file) {
            (Some(f), Some(g)) => Some(FileRange {
                starting_offset: if f.starting_offset <= g.starting_offset { f.starting_offset } else { g.starting_offset },
                len: (f.len + g.len) as usize,
                ..f
            }),
            _ => a.file,
        };
        if a.start == b.end {
            Some(Mapping { start: b.start, file, ..a })
        } else {
            Some(Mapping { end: b.end, file, ..a })
        }
    } else {
        None
    }
}

/// The file ranges `try_merge` compares end within a word.
pub open spec fn merge_fits(a: Mapping, b: Mapping) -> bool {
    match (a.file, b.file) {
        (Some(f), Some(g)) => f.starting_offset + f.len <= usize::MAX && g.starting_offset + g.len <= usize::MAX,
        _ => true,
    }
}

impl Mapping {
    /// A mapping of `len` bytes (rounded up to whole pages) at `addr`; of
    /// `file` (its handle id and whether it was opened for writing) from
    /// `offset`, if given.
    pub fn new(addr: usize, len: usize, prot: u64, flags: u64, file: Option<(usize, bool)>, offset: usize) -> (m: Mapping)
        requires
            len + PAGE_SIZE <= usize::MAX,
            addr + page_up(len as int) <= usize::MAX,
        ensures
            m == (Mapping {
                file: match file {
                    Some((id, w)) => Some(FileRange { file: id, writable: w, starting_offset: offset, len }),
                    None => None,
                },
                prot,
                flags,
                start: addr,
                end: (addr + page_up(len as int)) as usize,
            }),
    {
        let f = match file {
            Some((id, w)) => Some(FileRange { file: id, writable: w, starting_offset: offset, len }),
            None => None,
        };
        let pages = len.align_up(PAGE_SIZE);
        Mapping { file: f, prot, flags, start: addr, end: addr + pages }
    }

    /// A mapping of `len` bytes at `addr` showing `file`, as a split leaves
    /// it.
    pub fn new_split(addr: usize, len: usize, prot: u64, flags: u64, file: Option<FileRange>) -> (m: Mapping)
        requires
            addr + len <= usize::MAX,
        ensures
            m == (Mapping { file, prot, flags, start: addr, end: (addr + len) as usize }),
    {
        Mapping { file, prot, flags, start: addr, end: addr + len }
    }

    /// Merges `other` into this mapping where they can merge (see `merged`);
    /// says whether they did.
    pub fn try_merge(&mut self, other: &Mapping) -> (r: bool)
        requires
            merge_fits(*old(self), *other),
        ensures
            r == merged(*old(self), *other) is Some,
            r ==> *final(self) == merged(*old(self), *other)->0,
            !r ==> *final(self) == *old(self),
    {
        match (&self.file, &other.file) {
            (Some(f), Some(g)) => {
                if f.file != g.file {
                    return false;
                } else if f.starting_offset + f.len != g.starting_offset && g.starting_offset + g.len != f.starting_offset {
                    return false;
                }
            },
            _ => {},
        }
        if self.file.is_none() != other.file.is_none() || self.flags != other.flags || self.prot != other.prot {
            return false;
        }
        let res = if self.start == other.end {
            self.start = other.start;
            true
        } else if self.end == other.start {
            self.end = other.end;
            true
        } else {
            false
        };
        if res {
            match (self.file, other.file) {
                (Some(f), Some(g)) => {
                    let so = if f.starting_offset <= g.starting_offset { f.starting_offset } else { g.starting_offset };
                    self.file = Some(FileRange { starting_offset: so, len: f.len + g.len, ..f });
                },
                _ => {},
            }
        }
        res
    }

    /// Cuts the mapping at `addr`: it keeps `start..addr` and the part from
    /// `addr` is returned, showing the file from where the kept part ends.
    pub fn split_from(&mut self, addr: usize) -> (tail: Mapping)
        requires
            old(self).start < addr < old(self).end,
            old(self).file matches Some(f) ==> f.len > addr - old(self).start
                && f.starting_offset + (addr - old(self).start) <= usize::MAX,
        ensures
            *final(self) == (Mapping {
                end: addr,
                file: match old(self).file {
                    Some(f) => Some(FileRange { len: (addr - old(self).start) as usize, ..f }),
                    None => None,
                },
                ..*old(self)
            }),
            tail == (Mapping {
                start: addr,
                file: match old(self).file {
                    Some(f) => Some(FileRange {
                        starting_offset: (f.starting_offset + (addr - old(self).start)) as usize,
                        len: (f.len - (addr - old(self).start)) as usize,
                        ..f
                    }),
                    None => None,
                },
                ..*old(self)
            }),
    {
        let d = addr - self.start;
        let new_f = match self.file {
            Some(f) => {
                let new_len = f.len - d;
                self.file = Some(FileRange { len: f.len - new_len, ..f });
                Some(FileRange { starting_offset: f.starting_offset + d, len: new_len, ..f })
            },
            None => None,
        };
        let tail = Mapping::new_split(addr, self.end - addr, self.prot, self.flags, new_f);
        self.update_end(addr);
        tail
    }

    /// Moves the start up to `new_start`; the file is shown from further on
    /// by as much.
    pub fn update_start(&mut self, new_start: usize)
        requires
            old(self).start < new_start < old(self).end,
            old(self).file matches Some(f) ==> f.starting_offset + (new_start - old(self).start) <= usize::MAX,
        ensures
            *final(self) == (Mapping {
                start: new_start,
                file: match old(self).file {
                    Some(f) => Some(FileRange { starting_offset: (f.starting_offset + (new_start - old(self).start)) as usize, ..f }),
                    None => None,
                },
                ..*old(self)
            }),
    {
        let offset = new_start - self.start;
        match self.file {
            Some(f) => {
                self.file = Some(FileRange { starting_offset: f.starting_offset + offset, ..f });
            },
            None => {},
        }
        self.start = new_start;
    }

    /// Moves the end down to `new_end`.
    pub fn update_end(&mut self, new_end: usize)
        requires
            old(self).start < new_end < old(self).end,
        ensures
            *final(self) == (Mapping { end: new_end, ..*old(self) }),
    {
        self.end = new_end;
    }
}

/// What unmapping a range did to a mapping.
#[derive(Debug, Copy, Clone, PartialEq, Eq, Structural)]
pub enum UnmapResult {
    /// The range misses the mapping.
    Outside,
    /// The whole mapping goes.
    Full,
    /// Its beginning goes.
    Begin,
    /// A middle part goes; the mapping keeps what comes before it and the
    /// part after it is returned.
    Mid(Mapping),
    /// Its end goes.
    End,
}

/// What changing the protection of a range did to a mapping.
#[derive(Debug, Copy, Clone, PartialEq, Eq, Structural)]
pub enum MProtectResult {
    /// The range misses the mapping.
    Outside,
    /// The whole mapping has the new protection (or had it already).
    Full,
    /// The mapping was cut where the range ends; the part after is returned.
    Begin(Mapping),
    /// The mapping keeps what comes before the range; the range, with the
    /// new protection, and the part after it are returned.
    Mid(Mapping, Mapping),
    /// The mapping keeps what comes before the range; the rest, with the new
    /// protection, is returned.
    End(Mapping),
}

/// `m` can be cut at `addr`, its file range too.
pub open spec fn cut_ok(m: Mapping, addr: int) -> bool {
    &&& m.start < addr < m.end
    &&& m.file matches Some(f) ==> f.len > addr - m.start && f.starting_offset + (addr - m.start) <= usize::MAX
}

/// `m` cut at `addr`: the part before and the part from `addr`.
pub open spec fn cut(m: Mapping, addr: int) -> (Mapping, Mapping) {
    (
        Mapping {
            end: addr as usize,
            file: match m.file {
                Some(f) => Some(FileRange { len: (addr - m.start) as usize, ..f }),
                None => None,
            },
            ..m
        },
        Mapping {
            start: addr as usize,
            file: match m.file {
                Some(f) => Some(FileRange {
                    starting_offset: (f.starting_offset + (addr - m.start)) as usize,
                    len: (f.len - (addr - m.start)) as usize,
                    ..f
                }),
                None => None,
            },
            ..m
        },
    )
}

/// `m` from `addr` on, the file shown from further on by as much.
pub open spec fn trimmed_start(m: Mapping, addr: int) -> Mapping {
    Mapping {
        start: addr as usize,
        file: match m.file {
            Some(f) => Some(FileRange { starting_offset: (f.starting_offset + (addr - m.start)) as usize, ..f }),
            None => None,
        },
        ..m
    }
}

/// `x` is a multiple of the page size.
pub open spec fn page_aligned(x: int) -> bool {
    x % (PAGE_SIZE as int) == 0
}

/// Unmapping `start..end` from `m` does not stop on a cut the mapping
/// cannot take.
pub open spec fn unmap_ok(m: Mapping, start: int, end: int) -> bool {
    &&& page_aligned(start) && page_aligned(end)
    &&& (end > m.start && start < m.end && start > m.start && end < m.end) ==> start < end && cut_ok(m, end)
    &&& (end > m.start && start <= m.start && end < m.end) ==> (m.file matches Some(f) ==> f.starting_offset + (end - m.start) <= usize::MAX)
}

/// A shared file mapping opened read-only cannot be made writable.
pub open spec fn mprotect_refused(m: Mapping, prot: u64) -> bool {
    m.file matches Some(f) && m.flags & MAP_SHARED != 0 && prot & PROT_WRITE != 0 && !f.writable
}

/// Changing the protection of `start..end` in `m` does not stop on a cut
/// the mapping cannot take.
pub open spec fn mprotect_ok(m: Mapping, start: int, end: int, prot: u64) -> bool {
    &&& page_aligned(start) && page_aligned(end)
    &&& !mprotect_refused(m, prot) && m.prot != prot && end > m.start && start < m.end ==> {
        &&& (start > m.start && end < m.end) ==> start < end && cut_ok(m, end)
        &&& (start <= m.start && end < m.end) ==> cut_ok(m, end)
        &&& (start > m.start && end >= m.end) ==> cut_ok(m, start)
    }
}

impl Mapping {
    /// Unmaps `start..end` (page aligned) from the mapping: what it did, and
    /// the addresses whose pages are to be unmapped.
    pub fn unmap(&mut self, start: usize, end: usize) -> (r: (UnmapResult, Option<(usize, usize)>))
        requires
            unmap_ok(*old(self), start as int, end as int),
        ensures
            ({
                let m = *old(self);
                if end <= m.start || start >= m.end {
                    r == (UnmapResult::Outside, Option::<(usize, usize)>::None) && *final(self) == m
                } else if start > m.start && end < m.end {
                    &&& r == (UnmapResult::Mid(cut(m, end as int).1), Some((start, end)))
                    &&& *final(self) == cut(m, start as int).0
                } else if start <= m.start && end >= m.end {
                    r == (UnmapResult::Full, Some((m.start, m.end))) && *final(self) == m
                } else if start <= m.start {
                    r == (UnmapResult::Begin, Some((m.start, end))) && *final(self) == trimmed_start(m, end as int)
                } else {
                    r == (UnmapResult::End, Some((start, m.end))) && *final(self) == (Mapping { end: start, ..m })
                }
            }),
    {
        if end <= self.start || start >= self.end {
            return (UnmapResult::Outside, None);
        }
        if start > self.start && end < self.end {
            let mut mid = self.split_from(start);
            let split2 = mid.split_from(end);
            return (UnmapResult::Mid(split2), Some((start, end)));
        }
        if start <= self.start && end >= self.end {
            return (UnmapResult::Full, Some((self.start, self.end)));
        }
        if start <= self.start && end < self.end {
            let from = self.start;
            self.update_start(end);
            return (UnmapResult::Begin, Some((from, end)));
        }
        let to = self.end;
        self.update_end(start);
        (UnmapResult::End, Some((start, to)))
    }

    /// Gives `start..end` (page aligned) of the mapping protection `prot`.
    /// `EACCES` for a shared file mapping opened read-only that would become
    /// writable. A mapping that has `prot` already is left as it is (`Full`).
    /// Where the range ends inside the mapping, the part after it takes
    /// `prot` as well.
    pub fn mprotect(&mut self, start: usize, end: usize, prot: u64) -> (r: Result<MProtectResult, SyscallError>)
        requires
            mprotect_ok(*old(self), start as int, end as int, prot),
        ensures
            ({
                let m = *old(self);
                if mprotect_refused(m, prot) {
                    r == Err::<MProtectResult, SyscallError>(SyscallError::EACCES) && *final(self) == m
                } else if m.prot == prot {
                    r == Ok::<MProtectResult, SyscallError>(MProtectResult::Full) && *final(self) == m
                } else if end <= m.start || start >= m.end {
                    r == Ok::<MProtectResult, SyscallError>(MProtectResult::Outside) && *final(self) == m
                } else if start > m.start && end < m.end {
                    let rest = cut(m, start as int).1;
                    &&& r == Ok::<MProtectResult, SyscallError>(MProtectResult::Mid(
                        Mapping { prot, ..cut(rest, end as int).0 },
                        cut(rest, end as int).1,
                    ))
                    &&& *final(self) == cut(m, start as int).0
                } else if start <= m.start && end >= m.end {
                    r == Ok::<MProtectResult, SyscallError>(MProtectResult::Full) && *final(self) == (Mapping { prot, ..m })
                } else if start <= m.start {
                    let p = Mapping { prot, ..m };
                    r == Ok::<MProtectResult, SyscallError>(MProtectResult::Begin(cut(p, end as int).1))
                        && *final(self) == cut(p, end as int).0
                } else {
                    r == Ok::<MProtectResult, SyscallError>(MProtectResult::End(Mapping { prot, ..cut(m, start as int).1 }))
                        && *final(self) == cut(m, start as int).0
                }
            }),
    {
        match self.file {
            Some(f) => {
                if self.flags & MAP_SHARED != 0 && prot & PROT_WRITE != 0 && !f.writable {
                    return Err(SyscallError::EACCES);
                }
            },
            None => {},
        }
        if self.prot == prot {
            return Ok(MProtectResult::Full);
        }
        if end <= self.start || start >= self.end {
            return Ok(MProtectResult::Outside);
        }
        if start > self.start && end < self.end {
            let mut split1 = self.split_from(start);
            let split2 = split1.split_from(end);
            split1.prot = prot;
            return Ok(MProtectResult::Mid(split1, split2));
        }
        if start <= self.start && end >= self.end {
            self.prot = prot;
            return Ok(MProtectResult::Full);
        }
        if start <= self.start && end < self.end {
            self.prot = prot;
            let split = self.split_from(end);
            return Ok(MProtectResult::Begin(split));
        }
        let mut split = self.split_from(start);
        split.prot = prot;
        Ok(MProtectResult::End(split))
    }
}

/// Each mapping of `s` ends after it starts, and each ends where or before
/// the next one starts.
pub open spec fn maps_wf(s: Seq<Mapping>) -> bool {
    &&& forall|i: int| 0 <= i < s.len() ==> #[trigger] s[i].start < s[i].end
    &&& forall|i: int, j: int| 0 <= i < j < s.len() ==> #[trigger] s[i].end <= #[trigger] s[j].start
}

/// A mapping of `s` holds `addr`, or starts at or after it and below
/// `addr + len`.
pub open spec fn blocked(s: Seq<Mapping>, addr: int, len: int) -> bool {
    exists|i: int| 0 <= i < s.len() && ((#[trigger] s[i]).start <= addr < s[i].end || addr <= s[i].start < addr + len)
}

/// `i` is where a mapping at `addr` goes in `s`: after each mapping that
/// starts below `addr`, before the others.
pub open spec fn insert_index(s: Seq<Mapping>, addr: int, i: int) -> bool {
    &&& 0 <= i <= s.len()
    &&& forall|j: int| 0 <= j < i ==> (#[trigger] s[j]).start < addr
    &&& i < s.len() ==> s[i].start >= addr
}

/// Scanning `s` from mapping `i` for room at exactly `addr` for `len`
/// bytes: past the mappings that start below `addr`, stopping with `None`
/// at one that holds `addr` or starts below `addr + len`; the index where
/// the scan stopped otherwise.
pub open spec fn fixed_scan(s: Seq<Mapping>, i: int, addr: int, len: int) -> Option<int>
    decreases s.len() - i,
{
    if i >= s.len() || i < 0 {
        Some(s.len() as int)
    } else if s[i].start <= addr && s[i].end > addr {
        None
    } else if s[i].start < addr {
        fixed_scan(s, i + 1, addr, len)
    } else if addr + len > s[i].start {
        None
    } else {
        Some(i)
    }
}

/// The larger of `a` and `b`.
pub open spec fn max_of(a: int, b: int) -> int {
    if a >= b { a } else { b }
}

/// The first hole of `s`, from mapping `i` on, where `len` bytes fit at or
/// above `addr` (and below `top` after the last mapping): its start and the
/// index of the mapping that follows it.
pub open spec fn hole_from(s: Seq<Mapping>, i: int, addr: int, len: int, top: int) -> Option<(int, int)>
    decreases s.len() - i,
{
    if i >= s.len() || i < 0 {
        let start = max_of(s.last().end as int, addr);
        if top - start >= len {
            Some((start, s.len() as int))
        } else {
            None
        }
    } else if s[i].start < addr {
        hole_from(s, i + 1, addr, len, top)
    } else {
        let start = if i > 0 { max_of(addr, s[i - 1].end as int) } else { addr };
        if len <= s[i].start - start {
            Some((start, i))
        } else {
            hole_from(s, i + 1, addr, len, top)
        }
    }
}

/// The scan of `hole_from` never finds a mapping that starts below the end
/// of the one before it, where that start is at or above `addr`.
pub open spec fn hole_scan_ok(s: Seq<Mapping>, i: int, addr: int, len: int) -> bool
    decreases s.len() - i,
{
    if i >= s.len() || i < 0 {
        true
    } else if s[i].start < addr {
        hole_scan_ok(s, i + 1, addr, len)
    } else {
        let start = if i > 0 { max_of(addr, s[i - 1].end as int) } else { addr };
        start <= s[i].start && (len <= s[i].start - start || hole_scan_ok(s, i + 1, addr, len))
    }
}

/// The scan of `hole_from` finds no hole before the last mapping.
pub open spec fn hole_past_last(s: Seq<Mapping>, i: int, addr: int, len: int, top: int) -> bool {
    match hole_from(s, i, addr, len, top) {
        Some((_, k)) => k == s.len(),
        None => true,
    }
}

/// Where a mapping of `len` bytes goes at or above `addr` in `s`: at `addr`
/// if `s` is empty, else in the first hole that fits (see `hole_from`).
pub open spec fn any_above(s: Seq<Mapping>, addr: int, len: int, top: int) -> Option<(int, int)> {
    if s.len() == 0 {
        Some((addr, 0))
    } else {
        hole_from(s, 0, addr, len, top)
    }
}

/// The fixed scan stops at an index of the list or at its end.
proof fn lemma_fixed_scan_bounds(s: Seq<Mapping>, i: int, addr: int, len: int)
    requires
        0 <= i <= s.len(),
    ensures
        fixed_scan(s, i, addr, len) matches Some(k) ==> i <= k <= s.len(),
    decreases s.len() - i,
{
    if i < s.len() && !(s[i].start <= addr && s[i].end > addr) && s[i].start < addr {
        lemma_fixed_scan_bounds(s, i + 1, addr, len);
    }
}

/// The hole scan finds a place at an index of the list or at its end.
proof fn lemma_any_above_bounds(s: Seq<Mapping>, addr: int, len: int, top: int)
    ensures
        any_above(s, addr, len, top) matches Some((a, k)) ==> 0 <= k <= s.len() && a >= addr,
{
    if s.len() > 0 && any_above(s, addr, len, top) is Some {
        lemma_hole_from_found(s, 0, addr, len, top);
    }
}

/// In a well formed map, the fixed scan from `i` (past mappings that end at
/// or below `addr`) stops with `None` exactly when the range is blocked,
/// and otherwise where a mapping at `addr` goes.
proof fn lemma_fixed_scan_from(s: Seq<Mapping>, i: int, addr: int, len: int)
    requires
        maps_wf(s),
        0 <= i <= s.len(),
        len >= 0,
        forall|j: int| 0 <= j < i ==> (#[trigger] s[j]).start < addr && s[j].end <= addr,
    ensures
        fixed_scan(s, i, addr, len) is None <==> blocked(s, addr, len),
        fixed_scan(s, i, addr, len) matches Some(k) ==> insert_index(s, addr, k),
    decreases s.len() - i,
{
    if i >= s.len() {
        assert(!blocked(s, addr, len)) by {
            assert forall|j: int| 0 <= j < s.len() implies !((#[trigger] s[j]).start <= addr < s[j].end
                || addr <= s[j].start < addr + len) by {}
        }
    } else if s[i].start <= addr && s[i].end > addr {
        assert(s[i].start <= addr < s[i].end);
    } else if s[i].start < addr {
        lemma_fixed_scan_from(s, i + 1, addr, len);
    } else if addr + len > s[i].start {
        assert(addr <= s[i].start < addr + len);
    } else {
        assert forall|j: int| 0 <= j < s.len() implies !((#[trigger] s[j]).start <= addr < s[j].end
            || addr <= s[j].start < addr + len) by {
            if j > i {
                assert(s[i].end <= s[j].start);
                assert(s[i].start < s[i].end);
            }
        }
    }
}

/// In a well formed map, `find_fixed`'s scan finds room exactly when no
/// mapping holds `addr` or starts in `addr..addr + len`, and then gives the
/// index that keeps the map in address order.
pub proof fn lemma_fixed_scan(s: Seq<Mapping>, addr: int, len: int)
    requires
        maps_wf(s),
        len >= 0,
    ensures
        fixed_scan(s, 0, addr, len) is None <==> blocked(s, addr, len),
        fixed_scan(s, 0, addr, len) matches Some(k) ==> insert_index(s, addr, k),
{
    lemma_fixed_scan_from(s, 0, addr, len);
}

/// What the hole scan from `i` finds: a hole before mapping `k`, at or
/// above `addr` and after the mapping before it, that `len` fits in; or the
/// room after the last mapping, below `top`.
proof fn lemma_hole_from_found(s: Seq<Mapping>, i: int, addr: int, len: int, top: int)
    requires
        0 <= i <= s.len(),
        s.len() > 0,
        hole_from(s, i, addr, len, top) is Some,
    ensures
        ({
            let (a, k) = hole_from(s, i, addr, len, top)->0;
            ||| k == s.len() && a == max_of(s.last().end as int, addr) && top - a >= len
            ||| i <= k < s.len() && s[k].start >= addr && len <= s[k].start - a
                && a == (if k > 0 { max_of(addr, s[k - 1].end as int) } else { addr })
        }),
    decreases s.len() - i,
{
    if i < s.len() && s[i].start < addr {
        lemma_hole_from_found(s, i + 1, addr, len, top);
    } else if i < s.len() {
        let start = if i > 0 { max_of(addr, s[i - 1].end as int) } else { addr };
        if !(len <= s[i].start - start) {
            lemma_hole_from_found(s, i + 1, addr, len, top);
        }
    }
}

/// In a well formed map, the place `find_any_above` finds is free: at or
/// above `addr`, clear of every mapping, below `top` when it comes after
/// the last one, and at an index that keeps the map in address order.
pub proof fn lemma_hole_is_free(s: Seq<Mapping>, addr: int, len: int, top: int)
    requires
        maps_wf(s),
        len >= 0,
        any_above(s, addr, len, top) is Some,
    ensures
        ({
            let (a, k) = any_above(s, addr, len, top)->0;
            &&& a >= addr
            &&& 0 <= k <= s.len()
            &&& forall|j: int| 0 <= j < k ==> (#[trigger] s[j]).end <= a
            &&& forall|j: int| k <= j < s.len() ==> a + len <= (#[trigger] s[j]).start
            &&& s.len() > 0 && k == s.len() ==> a + len <= top
        }),
{
    if s.len() > 0 {
        lemma_hole_from_found(s, 0, addr, len, top);
        let (a, k) = any_above(s, addr, len, top)->0;
        assert forall|j: int| 0 <= j < k implies (#[trigger] s[j]).end <= a by {
            if k == s.len() {
                if j < s.len() - 1 {
                    assert(s[j].end <= s[s.len() - 1].start);
                    assert(s[s.len() - 1].start < s[s.len() - 1].end);
                }
            } else if j < k - 1 {
                assert(s[j].end <= s[k - 1].start);
                assert(s[k - 1].start < s[k - 1].end);
            }
        }
        assert forall|j: int| k <= j < s.len() implies a + len <= (#[trigger] s[j]).start by {
            if j > k {
                assert(s[k].end <= s[j].start);
                assert(s[k].start < s[k].end);
            }
        }
    }
}

/// A position in a list of mappings, as a list cursor has it: an index, or
/// the list's length for the place past the last mapping (from where the
/// next place is the first mapping, and the one before is the last).
/// The mapping at cursor `c`, if it is not past the last.
pub open spec fn cur_get(s: Seq<Mapping>, c: int) -> Option<Mapping> {
    if 0 <= c < s.len() {
        Some(s[c])
    } else {
        None
    }
}

/// The cursor after `c` (past the last, the first).
pub open spec fn move_next(s: Seq<Mapping>, c: int) -> int {
    if c >= s.len() {
        0
    } else {
        c + 1
    }
}

/// The cursor before `c` (before the first, the place past the last; before
/// that place, the last).
pub open spec fn move_prev(s: Seq<Mapping>, c: int) -> int {
    if c >= s.len() {
        if s.len() == 0 { 0 } else { s.len() - 1 }
    } else if c == 0 {
        s.len() as int
    } else {
        c - 1
    }
}

/// Removes the mapping at `c`; the cursor then holds the one that followed.
pub open spec fn remove_current(s: Seq<Mapping>, c: int) -> (Seq<Mapping>, int) {
    if 0 <= c < s.len() {
        (s.remove(c), c)
    } else {
        (s, c)
    }
}

/// Inserts `x` before the mapping at `c` (past the last: at the end); the
/// cursor keeps its mapping.
pub open spec fn insert_before(s: Seq<Mapping>, c: int, x: Mapping) -> (Seq<Mapping>, int) {
    if 0 <= c < s.len() {
        (s.insert(c, x), c + 1)
    } else {
        (s.push(x), s.len() + 1int)
    }
}

/// Inserts `x` after the mapping at `c` (past the last: at the front); the
/// cursor keeps its mapping.
pub open spec fn insert_after(s: Seq<Mapping>, c: int, x: Mapping) -> (Seq<Mapping>, int) {
    if 0 <= c < s.len() {
        (s.insert(c + 1, x), c)
    } else {
        (s.insert(0, x), s.len() + 1int)
    }
}

/// The mapping before `c` (before the first, none; before the place past
/// the last, the last).
pub open spec fn peek_prev(s: Seq<Mapping>, c: int) -> Option<Mapping> {
    if c >= s.len() {
        if s.len() > 0 { Some(s[s.len() - 1]) } else { None }
    } else if c <= 0 {
        None
    } else {
        Some(s[c - 1])
    }
}

/// The first step of `insert_merge_after`: `m` merged into the mapping at
/// `c`, which goes, or else the cursor moved on.
pub open spec fn merge_after_first(s: Seq<Mapping>, c: int, m: Mapping) -> (Mapping, Seq<Mapping>, int) {
    match cur_get(s, c) {
        Some(cur) => match merged(m, cur) {
            Some(mm) => (mm, remove_current(s, c).0, c),
            None => (m, s, move_next(s, c)),
        },
        None => (m, s, move_next(s, c)),
    }
}

/// `insert_merge_after` on list `s` at cursor `c` with mapping `m`: `m`
/// takes in the mapping at `c` if it can; then the mapping the cursor now
/// holds takes `m` in if it can, or else `m` goes before it (at the end
/// past the last) and the cursor holds `m`. The list and the cursor after.
pub open spec fn insert_merge_after_spec(s: Seq<Mapping>, c: int, m: Mapping) -> (Seq<Mapping>, int) {
    let (m1, s1, c1) = merge_after_first(s, c, m);
    match cur_get(s1, c1) {
        Some(next) => match merged(next, m1) {
            Some(nn) => (s1.update(c1, nn), c1),
            None => {
                let ins = insert_before(s1, c1, m1);
                (ins.0, move_prev(ins.0, ins.1))
            },
        },
        None => {
            let ins = insert_before(s1, c1, m1);
            (ins.0, move_prev(ins.0, ins.1))
        },
    }
}

/// The merges `insert_merge_after` tries compare file ranges that end
/// within a word.
pub open spec fn insert_merge_after_ok(s: Seq<Mapping>, c: int, m: Mapping) -> bool {
    let (m1, s1, c1) = merge_after_first(s, c, m);
    &&& s.len() < usize::MAX
    &&& cur_get(s, c) matches Some(cur) ==> merge_fits(m, cur)
    &&& cur_get(s1, c1) matches Some(next) ==> merge_fits(next, m1)
}

/// The first step of `merge_prev_next`: the mapping at `c` is taken out and
/// put back, merged with the one before it where they merge; the list and
/// the cursor, which holds it again.
pub open spec fn merge_prev_step(s: Seq<Mapping>, c: int) -> (Seq<Mapping>, int) {
    match cur_get(s, c) {
        None => (s, c),
        Some(cur) => {
            let (s1, c1) = remove_current(s, c);
            match peek_prev(s1, c1) {
                Some(prev) if merged(cur, prev) is Some => {
                    let c2 = move_prev(s1, c1);
                    let (s3, c3) = insert_after(s1, c2, merged(cur, prev)->0);
                    remove_current(s3, c3)
                },
                _ => {
                    let (s3, c3) = insert_before(s1, c1, cur);
                    (s3, move_prev(s3, c3))
                },
            }
        },
    }
}

/// The second step of `merge_prev_next`: the mapping at `c` is taken out and
/// put back, merged with the one after it where they merge; then the cursor
/// holds the mapping before it (or the place past the last).
pub open spec fn merge_next_step(s: Seq<Mapping>, c: int) -> (Seq<Mapping>, int) {
    match cur_get(s, c) {
        None => (s, c),
        Some(cur) => {
            let (s1, c1) = remove_current(s, c);
            match cur_get(s1, c1) {
                Some(next) if merged(cur, next) is Some => {
                    let (s2, c2) = remove_current(s1, c1);
                    let c3 = move_prev(s2, c2);
                    insert_after(s2, c3, merged(cur, next)->0)
                },
                _ => {
                    let (s3, c3) = insert_before(s1, c1, cur);
                    (s3, move_prev(s3, c3))
                },
            }
        },
    }
}

/// `merge_prev_next` on list `s` at cursor `c`.
pub open spec fn merge_prev_next_spec(s: Seq<Mapping>, c: int) -> (Seq<Mapping>, int) {
    let (s1, c1) = merge_prev_step(s, c);
    merge_next_step(s1, c1)
}

/// The merges `merge_prev_next` tries compare file ranges that end within a
/// word.
pub open spec fn merge_prev_next_ok(s: Seq<Mapping>, c: int) -> bool {
    let (s1, c1) = merge_prev_step(s, c);
    &&& s.len() < usize::MAX
    &&& cur_get(s, c) matches Some(cur) ==> (peek_prev(remove_current(s, c).0, c) matches Some(prev) ==> merge_fits(cur, prev))
    &&& cur_get(s1, c1) matches Some(cur) ==> (cur_get(remove_current(s1, c1).0, c1) matches Some(next) ==> merge_fits(cur, next))
}

/// Unmapping `start..end` from list `s`, from cursor `c` on, with
/// `success` telling whether a mapping was cut already: past the mappings
/// that end at or below `start`, each mapping met is cut (see
/// `Mapping::unmap`) until one that the range misses or ends inside. The
/// list, whether some mapping was cut, and the address ranges to unmap.
pub open spec fn unmap_scan(s: Seq<Mapping>, c: int, start: int, end: int, success: bool)
    -> (Seq<Mapping>, bool, Seq<(usize, usize)>)
    decreases s.len() - c,
{
    if c < 0 || c >= s.len() {
        (s, success, Seq::empty())
    } else if s[c].end <= start {
        unmap_scan(s, c + 1, start, end, success)
    } else {
        let m = s[c];
        if end <= m.start {
            (s, success, Seq::empty())
        } else if start > m.start && end < m.end {
            let kept = s.update(c, cut(m, start).0);
            (insert_merge_after_spec(kept, c, cut(m, end).1).0, true, seq![(start as usize, end as usize)])
        } else if start <= m.start && end >= m.end {
            let r = unmap_scan(s.remove(c), c, start, end, true);
            (r.0, r.1, seq![(m.start, m.end)] + r.2)
        } else if start <= m.start {
            (s.update(c, trimmed_start(m, end)), true, seq![(m.start, end as usize)])
        } else {
            let r = unmap_scan(s.update(c, Mapping { end: start as usize, ..m }), c + 1, start, end, true);
            (r.0, r.1, seq![(start as usize, m.end)] + r.2)
        }
    }
}

/// The cuts `unmap_scan` makes are ones the mappings can take.
pub open spec fn unmap_scan_ok(s: Seq<Mapping>, c: int, start: int, end: int) -> bool
    decreases s.len() - c,
{
    if c < 0 || c >= s.len() {
        true
    } else if s[c].end <= start {
        unmap_scan_ok(s, c + 1, start, end)
    } else {
        let m = s[c];
        &&& unmap_ok(m, start, end)
        &&& if end <= m.start {
            true
        } else if start > m.start && end < m.end {
            insert_merge_after_ok(s.update(c, cut(m, start).0), c, cut(m, end).1)
        } else if start <= m.start && end >= m.end {
            unmap_scan_ok(s.remove(c), c, start, end)
        } else if start <= m.start {
            true
        } else {
            unmap_scan_ok(s.update(c, Mapping { end: start as usize, ..m }), c + 1, start, end)
        }
    }
}

/// `merge_prev_next` leaves a cursor from which the next one is nearer the
/// end of the list than the cursor after `c` was.
pub proof fn lemma_merge_prev_next_progress(s: Seq<Mapping>, c: int)
    requires
        0 <= c < s.len(),
    ensures
        ({
            let (s2, c2) = merge_prev_next_spec(s, c);
            &&& 0 <= c2 <= s2.len()
            &&& 0 <= move_next(s2, c2) <= s2.len()
            &&& s2.len() - move_next(s2, c2) < s.len() - c
        }),
{
}

/// `insert_merge_after` of a mapping that does not merge into the one at
/// the cursor leaves the cursor one further on, the list as long or one
/// longer.
pub proof fn lemma_insert_merge_after_progress(s: Seq<Mapping>, c: int, m: Mapping)
    requires
        0 <= c < s.len(),
        merged(m, s[c]) is None,
    ensures
        ({
            let (s2, c2) = insert_merge_after_spec(s, c, m);
            &&& c2 == c + 1
            &&& c2 < s2.len()
            &&& s2.len() <= s.len() + 1
        }),
{
}

/// Giving `start..end` protection `prot` in list `s`, from cursor `c` on:
/// past the mappings that end at or below `start`, each mapping met is
/// changed (see `Mapping::mprotect`) and merged with its neighbours where
/// they merge, until a refusal (`EACCES`, with what was changed so far
/// kept), a mapping the range misses, or one it ends inside. A mapping that
/// has `prot` already counts as changed, in the range or not.
pub open spec fn mprotect_scan(s: Seq<Mapping>, c: int, start: int, end: int, prot: u64)
    -> (Seq<Mapping>, Result<usize, SyscallError>)
    decreases s.len() - c,
{
    if c < 0 || c >= s.len() {
        (s, Ok(0))
    } else if s[c].end <= start {
        mprotect_scan(s, c + 1, start, end, prot)
    } else {
        let m = s[c];
        if mprotect_refused(m, prot) {
            (s, Err(SyscallError::EACCES))
        } else if m.prot == prot {
            let (s2, c2) = merge_prev_next_spec(s, c);
            proof {
                lemma_merge_prev_next_progress(s, c);
            }
            mprotect_scan(s2, move_next(s2, c2), start, end, prot)
        } else if end <= m.start || start >= m.end {
            (s, Ok(0))
        } else if start > m.start && end < m.end {
            let rest = cut(m, start).1;
            let (s2, c2) = insert_merge_after_spec(s.update(c, cut(m, start).0), c, Mapping { prot, ..cut(rest, end).0 });
            (insert_merge_after_spec(s2, c2, cut(rest, end).1).0, Ok(0))
        } else if start <= m.start && end >= m.end {
            let s1 = s.update(c, Mapping { prot, ..m });
            let (s2, c2) = merge_prev_next_spec(s1, c);
            proof {
                lemma_merge_prev_next_progress(s1, c);
            }
            mprotect_scan(s2, move_next(s2, c2), start, end, prot)
        } else if start <= m.start {
            let p = Mapping { prot, ..m };
            (insert_merge_after_spec(s.update(c, cut(p, end).0), c, cut(p, end).1).0, Ok(0))
        } else {
            let s1 = s.update(c, cut(m, start).0);
            let (s2, c2) = insert_merge_after_spec(s1, c, Mapping { prot, ..cut(m, start).1 });
            proof {
                lemma_insert_merge_after_progress(s1, c, Mapping { prot, ..cut(m, start).1 });
            }
            mprotect_scan(s2, move_next(s2, c2), start, end, prot)
        }
    }
}

/// The cuts and merges `mprotect_scan` makes are ones the mappings can take.
pub open spec fn mprotect_scan_ok(s: Seq<Mapping>, c: int, start: int, end: int, prot: u64) -> bool
    decreases s.len() - c,
{
    if c < 0 || c >= s.len() {
        true
    } else if s[c].end <= start {
        mprotect_scan_ok(s, c + 1, start, end, prot)
    } else {
        let m = s[c];
        &&& mprotect_ok(m, start, end, prot)
        &&& if mprotect_refused(m, prot) {
            true
        } else if m.prot == prot {
            let (s2, c2) = merge_prev_next_spec(s, c);
            proof {
                lemma_merge_prev_next_progress(s, c);
            }
            merge_prev_next_ok(s, c) && mprotect_scan_ok(s2, move_next(s2, c2), start, end, prot)
        } else if end <= m.start || start >= m.end {
            true
        } else if start > m.start && end < m.end {
            let rest = cut(m, start).1;
            let s1 = s.update(c, cut(m, start).0);
            let (s2, c2) = insert_merge_after_spec(s1, c, Mapping { prot, ..cut(rest, end).0 });
            insert_merge_after_ok(s1, c, Mapping { prot, ..cut(rest, end).0 })
                && insert_merge_after_ok(s2, c2, cut(rest, end).1)
        } else if start <= m.start && end >= m.end {
            let s1 = s.update(c, Mapping { prot, ..m });
            let (s2, c2) = merge_prev_next_spec(s1, c);
            proof {
                lemma_merge_prev_next_progress(s1, c);
            }
            merge_prev_next_ok(s1, c) && mprotect_scan_ok(s2, move_next(s2, c2), start, end, prot)
        } else if start <= m.start {
            let p = Mapping { prot, ..m };
            insert_merge_after_ok(s.update(c, cut(p, end).0), c, cut(p, end).1)
        } else {
            let s1 = s.update(c, cut(m, start).0);
            let (s2, c2) = insert_merge_after_spec(s1, c, Mapping { prot, ..cut(m, start).1 });
            proof {
                lemma_insert_merge_after_progress(s1, c, Mapping { prot, ..cut(m, start).1 });
            }
            insert_merge_after_ok(s1, c, Mapping { prot, ..cut(m, start).1 })
                && mprotect_scan_ok(s2, move_next(s2, c2), start, end, prot)
        }
    }
}

/// A file to map: its handle's id, whether it was opened for writing, and
/// whether its inode can be mapped at all.
#[derive(Debug, Copy, Clone, PartialEq, Eq, Structural)]
pub struct MmapFile {
    pub id: usize,
    pub writable: bool,
    pub mappable: bool,
}

/// `mmap` refuses these requests: an offset not page aligned, no length, a
/// fixed address not page aligned or whose range passes `top`, an address
/// at or above `top`, a file with the anonymous flag or with neither the
/// shared nor the private flag or that cannot be mapped, no file without
/// the anonymous flag.
pub open spec fn mmap_refused(addr: Option<usize>, len: usize, flags: u64, file: Option<MmapFile>, offset: usize, top: usize) -> bool {
    ||| !page_aligned(offset as int)
    ||| len == 0
    ||| (addr matches Some(a) && ((flags & MAP_FIXED != 0 && (!page_aligned(a as int) || a + len > top)) || a >= top))
    ||| (file matches Some(f) && (flags & MAP_ANONYMOUS != 0 || flags & (MAP_SHARED | MAP_PRIVATE) == 0 || !f.mappable))
    ||| (file is None && flags & MAP_ANONYMOUS == 0)
}

/// The file a mapping shows: for a shared anonymous mapping, the shared
/// memory `anon_shared` (opened for writing); else the file given.
pub open spec fn mmap_file(flags: u64, file: Option<MmapFile>, anon_shared: usize) -> Option<(usize, bool)> {
    if flags & MAP_ANONYMOUS != 0 && flags & MAP_SHARED != 0 {
        Some((anon_shared, true))
    } else {
        match file {
            Some(f) => Some((f.id, f.writable)),
            None => None,
        }
    }
}

/// A fixed mapping first unmaps what its range covers: the list after, and
/// the address ranges to unmap.
pub open spec fn mmap_cleared(s: Seq<Mapping>, addr: Option<usize>, len: usize, flags: u64) -> (Seq<Mapping>, Seq<(usize, usize)>) {
    match addr {
        Some(a) if flags & MAP_FIXED != 0 => {
            let u = unmap_scan(s, 0, a as int, page_up(a + page_up(len as int)), false);
            (u.0, u.2)
        },
        _ => (s, Seq::empty()),
    }
}

/// Where `mmap` places the mapping in the list `s` (cleared already for a
/// fixed one): at the fixed address if there is room; at or above the
/// address given (room for `len` bytes); else at or above `base` (room for
/// whole pages). The start and the index it goes at.
pub open spec fn mmap_place(s: Seq<Mapping>, addr: Option<usize>, len: usize, flags: u64, top: usize, base: usize) -> Option<(int, int)> {
    match addr {
        Some(a) => if flags & MAP_FIXED != 0 {
            match fixed_scan(s, 0, a as int, page_up(len as int)) {
                Some(i) => Some((a as int, i)),
                None => None,
            }
        } else {
            any_above(s, a as int, len as int, top as int)
        },
        None => any_above(s, base as int, page_up(len as int), top as int),
    }
}

/// The new mapping `mmap` puts at `start`.
pub open spec fn mmap_mapping(start: int, len: usize, prot: u64, flags: u64, file: Option<MmapFile>, offset: usize, anon_shared: usize) -> Mapping {
    Mapping {
        file: match mmap_file(flags, file, anon_shared) {
            Some((id, w)) => Some(FileRange { file: id, writable: w, starting_offset: offset, len }),
            None => None,
        },
        prot,
        flags,
        start: start as usize,
        end: (start + page_up(len as int)) as usize,
    }
}

/// What `mmap` needs to run without stopping: sums that fit a word, a scan
/// that meets mappings in order, cuts and merges the mappings can take.
pub open spec fn mmap_ok(s: Seq<Mapping>, addr: Option<usize>, len: usize, prot: u64, flags: u64, file: Option<MmapFile>, offset: usize, anon_shared: usize, top: usize, base: usize) -> bool {
    let cleared = mmap_cleared(s, addr, len, flags).0;
    &&& len + PAGE_SIZE <= usize::MAX
    &&& addr matches Some(a) ==> a + len <= usize::MAX
    &&& addr matches Some(a) ==> (flags & MAP_FIXED != 0 ==> a + page_up(len as int) + PAGE_SIZE <= usize::MAX
        && unmap_scan_ok(s, 0, a as int, page_up(a + page_up(len as int))))
    &&& match addr {
        Some(a) => flags & MAP_FIXED == 0 ==> hole_scan_ok(cleared, 0, a as int, len as int)
            && (cleared.len() > 0 && hole_past_last(cleared, 0, a as int, len as int, top as int)
                ==> max_of(cleared.last().end as int, a as int) <= top),
        None => hole_scan_ok(cleared, 0, base as int, page_up(len as int))
            && (cleared.len() > 0 && hole_past_last(cleared, 0, base as int, page_up(len as int), top as int)
                ==> max_of(cleared.last().end as int, base as int) <= top),
    }
    &&& mmap_place(cleared, addr, len, flags, top, base) matches Some((st, i)) ==> {
        &&& 0 <= st && st + page_up(len as int) <= usize::MAX
        &&& insert_merge_after_ok(cleared, move_prev(cleared, i), mmap_mapping(st, len, prot, flags, file, offset, anon_shared))
    }
}

/// Why a page fault happened (as the processor reports it).
pub const PF_PRESENT: u64 = 0b1;
pub const PF_WRITE: u64 = 0b10;
pub const PF_USER: u64 = 0b100;
pub const PF_RESV_WRITE: u64 = 0b1000;
pub const PF_I_FETCH: u64 = 0b10000;

/// Which handler a page fault goes to.
#[derive(Debug, Copy, Clone, PartialEq, Eq, Structural)]
pub enum FaultHandler {
    /// A shared mapping (of a file or of shared memory).
    SharedFile,
    /// A private mapping of a file.
    PrivateFile,
    /// A private anonymous mapping.
    PrivateAnon,
}

/// Mapping `i` of `s` is the first that holds `addr`.
pub open spec fn first_holding(s: Seq<Mapping>, addr: int, i: int) -> bool {
    &&& 0 <= i < s.len()
    &&& s[i].start <= addr < s[i].end
    &&& forall|j: int| 0 <= j < i ==> !((#[trigger] s[j]).start <= addr < s[j].end)
}

/// Where a fault at `addr` for `reason` goes in the list `s`: nowhere if no
/// mapping holds `addr`, or the first that does gives no access, or the
/// fault writes where the mapping is not writable, or fetches an
/// instruction where it is not executable; else the mapping's index and
/// the handler for its kind.
pub open spec fn fault_target(s: Seq<Mapping>, reason: u64, addr: int) -> Option<(int, FaultHandler)> {
    if exists|i: int| #[trigger] first_holding(s, addr, i) {
        let i = choose|i: int| #[trigger] first_holding(s, addr, i);
        let m = s[i];
        if m.prot == 0 || (reason & PF_WRITE != 0 && m.prot & PROT_WRITE == 0)
            || (reason & PF_I_FETCH != 0 && m.prot & PROT_EXEC == 0) {
            None
        } else if m.flags & MAP_PRIVATE == 0 {
            Some((i, FaultHandler::SharedFile))
        } else if m.flags & MAP_ANONYMOUS == 0 {
            Some((i, FaultHandler::PrivateFile))
        } else {
            Some((i, FaultHandler::PrivateAnon))
        }
    } else {
        None
    }
}

/// At most one index is the first that holds an address.
proof fn lemma_first_holding_unique(s: Seq<Mapping>, addr: int, i: int, k: int)
    requires
        first_holding(s, addr, i),
        first_holding(s, addr, k),
    ensures
        i == k,
{
    if i < k {
        assert(!(s[i].start <= addr < s[i].end));
    } else if k < i {
        assert(!(s[k].start <= addr < s[k].end));
    }
}

/// A fault at `addr` is served exactly when some mapping holds `addr` and
/// the first that does allows the access (it gives some access, a write
/// fault needs it writable and an instruction fetch executable). It is
/// served in that mapping, by the handler its flags choose: a mapping
/// without `MAP_PRIVATE` is shared, a private one without `MAP_ANONYMOUS`
/// reads its file, and a private anonymous one is zero-filled.
pub proof fn lemma_fault_dispatch(s: Seq<Mapping>, reason: u64, addr: int, i: int)
    requires
        0 <= i < s.len(),
        s[i].start <= addr < s[i].end,
        forall|j: int| 0 <= j < i ==> !((#[trigger] s[j]).start <= addr < s[j].end),
    ensures
        ({
            let m = s[i];
            let allowed = m.prot != 0 && (reason & PF_WRITE != 0 ==> m.prot & PROT_WRITE != 0)
                && (reason & PF_I_FETCH != 0 ==> m.prot & PROT_EXEC != 0);
            &&& !allowed ==> fault_target(s, reason, addr) is None
            &&& allowed && m.flags & MAP_PRIVATE == 0 ==> fault_target(s, reason, addr)
                == Some((i, FaultHandler::SharedFile))
            &&& allowed && m.flags & MAP_PRIVATE != 0 && m.flags & MAP_ANONYMOUS == 0
                ==> fault_target(s, reason, addr) == Some((i, FaultHandler::PrivateFile))
            &&& allowed && m.flags & MAP_PRIVATE != 0 && m.flags & MAP_ANONYMOUS != 0
                ==> fault_target(s, reason, addr) == Some((i, FaultHandler::PrivateAnon))
        }),
{
    assert(first_holding(s, addr, i));
    let k = choose|k: int| #[trigger] first_holding(s, addr, k);
    lemma_first_holding_unique(s, addr, i, k);
}

/// A fault at an address that no mapping holds is not served.
pub proof fn lemma_fault_outside_maps(s: Seq<Mapping>, reason: u64, addr: int)
    requires
        forall|j: int| 0 <= j < s.len() ==> !((#[trigger] s[j]).start <= addr < s[j].end),
    ensures
        fault_target(s, reason, addr) is None,
{
}

/// The memory map of a task, and the layout of user space it lives in: the
/// first address above user space and where mappings without an address
/// begin to be placed.
pub struct VMData {
    maps: Vec<Mapping>,
    max_user_addr: usize,
    mmap_user_addr: usize,
}

impl View for VMData {
    /// The mappings, in order.
    type V = Seq<Mapping>;

    closed spec fn view(&self) -> Seq<Mapping> {
        self.maps@
    }
}

impl VMData {
    /// The first address above user space.
    pub closed spec fn top(&self) -> usize {
        self.max_user_addr
    }

    /// Where mappings without an address begin to be placed.
    pub closed spec fn base(&self) -> usize {
        self.mmap_user_addr
    }

    /// An empty map in the given layout.
    pub fn new(max_user_addr: usize, mmap_user_addr: usize) -> (v: VMData)
        ensures
            v@ == Seq::<Mapping>::empty(),
            v.top() == max_user_addr,
            v.base() == mmap_user_addr,
    {
        VMData { maps: Vec::new(), max_user_addr, mmap_user_addr }
    }

    /// The mappings, in order.
    pub fn maps(&self) -> (r: &Vec<Mapping>)
        ensures
            r@ == self@,
    {
        &self.maps
    }

    /// The cursor after `c`.
    fn cursor_next(&self, c: usize) -> (r: usize)
        requires
            c <= self@.len(),
        ensures
            r == move_next(self@, c as int),
    {
        if c >= self.maps.len() {
            0
        } else {
            c + 1
        }
    }

    /// The cursor before `c`.
    fn cursor_prev(&self, c: usize) -> (r: usize)
        requires
            c <= self@.len(),
        ensures
            r == move_prev(self@, c as int),
    {
        if c >= self.maps.len() {
            if self.maps.len() == 0 { 0 } else { self.maps.len() - 1 }
        } else if c == 0 {
            self.maps.len()
        } else {
            c - 1
        }
    }

    /// The mapping at `c`.
    fn cursor_get(&self, c: usize) -> (r: Option<Mapping>)
        ensures
            r == cur_get(self@, c as int),
    {
        if c < self.maps.len() {
            Some(self.maps[c])
        } else {
            None
        }
    }

    /// The mapping before `c`.
    fn cursor_peek_prev(&self, c: usize) -> (r: Option<Mapping>)
        ensures
            r == peek_prev(self@, c as int),
    {
        if c >= self.maps.len() {
            if self.maps.len() > 0 { Some(self.maps[self.maps.len() - 1]) } else { None }
        } else if c == 0 {
            None
        } else {
            Some(self.maps[c - 1])
        }
    }

    /// Removes the mapping at `c`, returning it.
    fn cursor_remove(&mut self, c: usize) -> (r: Option<Mapping>)
        ensures
            r == cur_get(old(self)@, c as int),
            final(self)@ == remove_current(old(self)@, c as int).0,
            final(self).top() == old(self).top(),
            final(self).base() == old(self).base(),
    {
        if c < self.maps.len() {
            Some(self.maps.remove(c))
        } else {
            None
        }
    }

    /// Inserts `x` before the mapping at `c`; the cursor after.
    fn cursor_insert_before(&mut self, c: usize, x: Mapping) -> (r: usize)
        requires
            old(self)@.len() < usize::MAX,
        ensures
            (final(self)@, r as int) == insert_before(old(self)@, c as int, x),
            final(self).top() == old(self).top(),
            final(self).base() == old(self).base(),
    {
        if c < self.maps.len() {
            self.maps.insert(c, x);
            c + 1
        } else {
            self.maps.push(x);
            self.maps.len()
        }
    }

    /// Inserts `x` after the mapping at `c`; the cursor after.
    fn cursor_insert_after(&mut self, c: usize, x: Mapping) -> (r: usize)
        requires
            old(self)@.len() < usize::MAX,
        ensures
            (final(self)@, r as int) == insert_after(old(self)@, c as int, x),
            final(self).top() == old(self).top(),
            final(self).base() == old(self).base(),
    {
        if c < self.maps.len() {
            self.maps.insert(c + 1, x);
            c
        } else {
            self.maps.insert(0, x);
            self.maps.len()
        }
    }

    /// Puts `mapping` after the cursor `c`, merging it with its neighbours
    /// where they merge (see `insert_merge_after_spec`); the cursor after.
    pub fn insert_merge_after(&mut self, c: usize, mapping: Mapping) -> (r: usize)
        requires
            c <= old(self)@.len(),
            insert_merge_after_ok(old(self)@, c as int, mapping),
        ensures
            (final(self)@, r as int) == insert_merge_after_spec(old(self)@, c as int, mapping),
            final(self).top() == old(self).top(),
            final(self).base() == old(self).base(),
    {
        let mut mapping = mapping;
        let mut c = c;
        let merged = match self.cursor_get(c) {
            Some(cur) => mapping.try_merge(&cur),
            None => false,
        };
        if merged {
            let _ = self.cursor_remove(c);
        } else {
            c = self.cursor_next(c);
        }
        match self.cursor_get(c) {
            Some(next) => {
                let mut next = next;
                if !next.try_merge(&mapping) {
                    c = self.cursor_insert_before(c, mapping);
                    c = self.cursor_prev(c);
                } else {
                    self.maps.set(c, next);
                }
            },
            None => {
                c = self.cursor_insert_before(c, mapping);
                c = self.cursor_prev(c);
            },
        }
        c
    }

    /// Puts `mapping` before the cursor `c`, merging it with its neighbours
    /// where they merge; the cursor after.
    pub fn insert_merge_before(&mut self, c: usize, mapping: Mapping) -> (r: usize)
        requires
            c <= old(self)@.len(),
            insert_merge_after_ok(old(self)@, move_prev(old(self)@, c as int), mapping),
        ensures
            (final(self)@, r as int) == insert_merge_after_spec(old(self)@, move_prev(old(self)@, c as int), mapping),
            final(self).top() == old(self).top(),
            final(self).base() == old(self).base(),
    {
        let p = self.cursor_prev(c);
        self.insert_merge_after(p, mapping)
    }

    /// Merges the mapping at the cursor `c` with the one before it and the
    /// one after it, where they merge (see `merge_prev_next_spec`); the
    /// cursor after.
    pub fn merge_prev_next(&mut self, c: usize) -> (r: usize)
        requires
            c <= old(self)@.len(),
            merge_prev_next_ok(old(self)@, c as int),
        ensures
            (final(self)@, r as int) == merge_prev_next_spec(old(self)@, c as int),
            final(self).top() == old(self).top(),
            final(self).base() == old(self).base(),
    {
        let mut c = c;
        let current = self.cursor_remove(c);
        match current {
            Some(cur) => {
                let mut cur = cur;
                let merged = match self.cursor_peek_prev(c) {
                    Some(prev) => cur.try_merge(&prev),
                    None => false,
                };
                if merged {
                    c = self.cursor_prev(c);
                    c = self.cursor_insert_after(c, cur);
                    let _ = self.cursor_remove(c);
                } else {
                    c = self.cursor_insert_before(c, cur);
                    c = self.cursor_prev(c);
                }
            },
            None => {},
        }
        let ghost mid = self@;
        let current = self.cursor_remove(c);
        match current {
            Some(cur) => {
                let mut cur = cur;
                let merged = match self.cursor_get(c) {
                    Some(next) => cur.try_merge(&next),
                    None => false,
                };
                if merged {
                    let _ = self.cursor_remove(c);
                    c = self.cursor_prev(c);
                    c = self.cursor_insert_after(c, cur);
                } else {
                    c = self.cursor_insert_before(c, cur);
                    c = self.cursor_prev(c);
                }
            },
            None => {},
        }
        c
    }

    /// Unmaps `len` bytes from `addr` (rounded up to whole pages): false if
    /// `addr` is not page aligned; else whether some mapping was cut (see
    /// `unmap_scan`), with the address ranges whose pages are to be
    /// unmapped.
    pub fn unmap(&mut self, addr: usize, len: usize) -> (r: (bool, Vec<(usize, usize)>))
        requires
            page_aligned(addr as int) ==> addr + len + PAGE_SIZE <= usize::MAX
                && unmap_scan_ok(old(self)@, 0, addr as int, page_up(addr + len)),
        ensures
            !page_aligned(addr as int) ==> r.0 == false && r.1@.len() == 0 && final(self)@ == old(self)@,
            page_aligned(addr as int) ==> ({
                let u = unmap_scan(old(self)@, 0, addr as int, page_up(addr + len), false);
                final(self)@ == u.0 && r.0 == u.1 && r.1@ == u.2
            }),
            final(self).top() == old(self).top(),
            final(self).base() == old(self).base(),
    {
        let mut ranges: Vec<(usize, usize)> = Vec::new();
        if addr % PAGE_SIZE != 0 {
            return (false, ranges);
        }
        let start = addr;
        let end = (addr + len).align_up(PAGE_SIZE);
        let ghost goal = unmap_scan(self@, 0, start as int, end as int, false);
        let mut cursor: usize = 0;
        let mut success = false;
        while cursor < self.maps.len()
            invariant
                cursor <= self@.len(),
                unmap_scan_ok(self@, cursor as int, start as int, end as int),
                page_aligned(start as int) && page_aligned(end as int),
                start == addr,
                start <= end,
                goal == unmap_scan(old(self)@, 0, addr as int, page_up(addr + len), false),
                ({
                    let u = unmap_scan(self@, cursor as int, start as int, end as int, success);
                    goal == (u.0, u.1, ranges@ + u.2)
                }),
                self.top() == old(self).top(),
                self.base() == old(self).base(),
            decreases self@.len() - cursor,
        {
            let mut c = self.maps[cursor];
            if c.end <= start {
                cursor = cursor + 1;
            } else {
                let ghost s = self@;
                let ghost r0 = ranges@;
                let (res, range) = c.unmap(start, end);
                match range {
                    Some(rg) => {
                        ranges.push(rg);
                    },
                    None => {},
                }
                match res {
                    UnmapResult::Outside => {
                        assert(ranges@ + Seq::<(usize, usize)>::empty() =~= ranges@);
                        return (success, ranges);
                    },
                    UnmapResult::Full => {
                        success = true;
                        let _ = self.cursor_remove(cursor);
                        proof {
                            let u = unmap_scan(self@, cursor as int, start as int, end as int, true);
                            assert(r0 + (seq![(s[cursor as int].start, s[cursor as int].end)] + u.2) =~= ranges@ + u.2);
                        }
                    },
                    UnmapResult::Begin => {
                        self.maps.set(cursor, c);
                        assert(ranges@ + Seq::<(usize, usize)>::empty() =~= ranges@);
                        return (true, ranges);
                    },
                    UnmapResult::End => {
                        success = true;
                        self.maps.set(cursor, c);
                        cursor = cursor + 1;
                        proof {
                            let u = unmap_scan(self@, cursor as int, start as int, end as int, true);
                            assert(r0 + (seq![(start, s[cursor - 1].end)] + u.2) =~= ranges@ + u.2);
                        }
                    },
                    UnmapResult::Mid(new_mapping) => {
                        self.maps.set(cursor, c);
                        let _ = self.insert_merge_after(cursor, new_mapping);
                        assert(ranges@ + Seq::<(usize, usize)>::empty() =~= ranges@);
                        return (true, ranges);
                    },
                }
            }
        }
        assert(ranges@ + Seq::<(usize, usize)>::empty() =~= ranges@);
        (success, ranges)
    }

    /// Gives `len` bytes from `addr` (rounded up to whole pages) protection
    /// `prot` (see `mprotect_scan`); `EINVAL` if `addr` is not page aligned.
    #[verifier::rlimit(40)]
    pub fn mprotect(&mut self, addr: usize, len: usize, prot: u64) -> (r: Result<usize, SyscallError>)
        requires
            page_aligned(addr as int) ==> addr + len + PAGE_SIZE <= usize::MAX
                && mprotect_scan_ok(old(self)@, 0, addr as int, page_up(addr + len), prot),
        ensures
            !page_aligned(addr as int) ==> r == Err::<usize, SyscallError>(SyscallError::EINVAL) && final(self)@ == old(self)@,
            page_aligned(addr as int) ==> ({
                let u = mprotect_scan(old(self)@, 0, addr as int, page_up(addr + len), prot);
                final(self)@ == u.0 && r == u.1
            }),
            final(self).top() == old(self).top(),
            final(self).base() == old(self).base(),
    {
        if addr % PAGE_SIZE != 0 {
            return Err(SyscallError::EINVAL);
        }
        let start = addr;
        let end = (addr + len).align_up(PAGE_SIZE);
        let mut cursor: usize = 0;
        while cursor < self.maps.len()
            invariant
                cursor <= self@.len(),
                mprotect_scan_ok(self@, cursor as int, start as int, end as int, prot),
                page_aligned(start as int) && page_aligned(end as int),
                start == addr,
                start <= end,
                mprotect_scan(old(self)@, 0, addr as int, page_up(addr + len), prot)
                    == mprotect_scan(self@, cursor as int, start as int, end as int, prot),
                self.top() == old(self).top(),
                self.base() == old(self).base(),
            decreases self@.len() - cursor,
        {
            let mut c = self.maps[cursor];
            if c.end <= start {
                cursor = cursor + 1;
            } else {
                let ghost s = self@;
                match c.mprotect(start, end, prot) {
                    Err(e) => {
                        return Err(e);
                    },
                    Ok(MProtectResult::Outside) => {
                        return Ok(0);
                    },
                    Ok(MProtectResult::Full) => {
                        self.maps.set(cursor, c);
                        proof {
                            assert(s[cursor as int].prot == prot ==> self@ =~= s);
                            lemma_merge_prev_next_progress(self@, cursor as int);
                        }
                        cursor = self.merge_prev_next(cursor);
                        cursor = self.cursor_next(cursor);
                    },
                    Ok(MProtectResult::Begin(split)) => {
                        self.maps.set(cursor, c);
                        let _ = self.insert_merge_after(cursor, split);
                        return Ok(0);
                    },
                    Ok(MProtectResult::Mid(split1, split2)) => {
                        self.maps.set(cursor, c);
                        let c2 = self.insert_merge_after(cursor, split1);
                        let _ = self.insert_merge_after(c2, split2);
                        return Ok(0);
                    },
                    Ok(MProtectResult::End(split)) => {
                        self.maps.set(cursor, c);
                        proof {
                            lemma_insert_merge_after_progress(self@, cursor as int, split);
                        }
                        cursor = self.insert_merge_after(cursor, split);
                        cursor = self.cursor_next(cursor);
                    },
                }
            }
        }
        Ok(0)
    }

    /// Maps `len` bytes (see `mmap_refused`, `mmap_cleared`, `mmap_place`
    /// and `mmap_mapping`): the start of the new mapping, or `None`, and the
    /// address ranges to unmap. `anon_shared` names the shared memory that
    /// a shared anonymous mapping shows.
    pub fn mmap(
        &mut self,
        addr: Option<usize>,
        len: usize,
        prot: u64,
        flags: u64,
        file: Option<MmapFile>,
        offset: usize,
        anon_shared: usize,
    ) -> (r: (Option<usize>, Vec<(usize, usize)>))
        requires
            (page_aligned(offset as int) && len != 0 && flags & MAP_FIXED != 0 && addr is Some) ==> addr->0 + len <= usize::MAX,
            !mmap_refused(addr, len, flags, file, offset, old(self).top()) ==> mmap_ok(
                old(self)@, addr, len, prot, flags, file, offset, anon_shared, old(self).top(), old(self).base(),
            ),
        ensures
            final(self).top() == old(self).top(),
            final(self).base() == old(self).base(),
            mmap_refused(addr, len, flags, file, offset, old(self).top()) ==> r.0 is None && r.1@.len() == 0
                && final(self)@ == old(self)@,
            !mmap_refused(addr, len, flags, file, offset, old(self).top()) ==> ({
                let (cleared, ranges) = mmap_cleared(old(self)@, addr, len, flags);
                &&& r.1@ == ranges
                &&& match mmap_place(cleared, addr, len, flags, old(self).top(), old(self).base()) {
                    Some((st, i)) => r.0 == Some(st as usize) && final(self)@ == insert_merge_after_spec(
                        cleared, move_prev(cleared, i), mmap_mapping(st, len, prot, flags, file, offset, anon_shared),
                    ).0,
                    None => r.0 is None && final(self)@ == cleared,
                }
            }),
    {
        let mut ranges: Vec<(usize, usize)> = Vec::new();
        if offset % PAGE_SIZE != 0 {
            return (None, ranges);
        }
        if len == 0 {
            return (None, ranges);
        }
        match addr {
            Some(a) => {
                if flags & MAP_FIXED != 0 && (a % PAGE_SIZE != 0 || a + len > self.max_user_addr) {
                    return (None, ranges);
                }
                if !(a < self.max_user_addr) {
                    return (None, ranges);
                }
            },
            None => {},
        }
        match file {
            Some(f) => {
                if flags & MAP_ANONYMOUS != 0 {
                    return (None, ranges);
                }
                if flags & (MAP_SHARED | MAP_PRIVATE) == 0 {
                    return (None, ranges);
                }
                if !f.mappable {
                    return (None, ranges);
                }
            },
            None => {
                if flags & MAP_ANONYMOUS == 0 {
                    return (None, ranges);
                }
            },
        }
        let map_file = if flags & MAP_ANONYMOUS != 0 && flags & MAP_SHARED != 0 {
            Some((anon_shared, true))
        } else {
            match file {
                Some(f) => Some((f.id, f.writable)),
                None => None,
            }
        };
        let place = match addr {
            Some(a) => {
                if flags & MAP_FIXED != 0 {
                    let pages = len.align_up(PAGE_SIZE);
                    let (_, cut) = self.unmap(a, pages);
                    ranges = cut;
                    self.find_fixed(a, pages)
                } else {
                    self.find_any_above(a, len)
                }
            },
            None => {
                let pages = len.align_up(PAGE_SIZE);
                self.find_any_above(self.mmap_user_addr, pages)
            },
        };
        proof {
            match addr {
                Some(a) => {
                    lemma_fixed_scan_bounds(self@, 0, a as int, page_up(len as int));
                    lemma_any_above_bounds(self@, a as int, len as int, self.top() as int);
                },
                None => {
                    lemma_any_above_bounds(self@, self.base() as int, page_up(len as int), self.top() as int);
                },
            }
        }
        match place {
            Some((start, cur)) => {
                let mapping = Mapping::new(start, len, prot, flags, map_file, offset);
                let _ = self.insert_merge_before(cur, mapping);
                (Some(start), ranges)
            },
            None => (None, ranges),
        }
    }

    /// Where a page fault at `addr` for `reason` goes (see `fault_target`):
    /// the index of the mapping and the handler, or `None` where the fault
    /// is not served.
    pub fn handle_pagefault(&self, reason: u64, addr: usize) -> (r: Option<(usize, FaultHandler)>)
        ensures
            match fault_target(self@, reason, addr as int) {
                Some((i, h)) => r == Some((i as usize, h)),
                None => r is None,
            },
    {
        let ghost s = self@;
        let mut i: usize = 0;
        while i < self.maps.len()
            invariant
                i <= s.len(),
                s == self@,
                forall|j: int| 0 <= j < i ==> !((#[trigger] s[j]).start <= addr < s[j].end),
            decreases s.len() - i,
        {
            let m = self.maps[i];
            if addr >= m.start && addr < m.end {
                proof {
                    assert(first_holding(s, addr as int, i as int));
                    let k = choose|k: int| #[trigger] first_holding(s, addr as int, k);
                    lemma_first_holding_unique(s, addr as int, i as int, k);
                }
                if m.prot == 0 {
                    return None;
                }
                if reason & PF_WRITE != 0 && m.prot & PROT_WRITE == 0 {
                    return None;
                }
                if reason & PF_I_FETCH != 0 && m.prot & PROT_EXEC == 0 {
                    return None;
                }
                let is_private = m.flags & MAP_PRIVATE != 0;
                let is_anonymous = m.flags & MAP_ANONYMOUS != 0;
                return if !is_private {
                    Some((i, FaultHandler::SharedFile))
                } else if !is_anonymous {
                    Some((i, FaultHandler::PrivateFile))
                } else {
                    Some((i, FaultHandler::PrivateAnon))
                };
            }
            i = i + 1;
        }
        None
    }

    /// This map made a copy of `other`'s mappings.
    pub fn fork(&mut self, other: &VMData)
        ensures
            final(self)@ == other@,
            final(self).top() == old(self).top(),
            final(self).base() == old(self).base(),
    {
        self.maps = other.maps.clone();
    }

    /// No mappings left.
    pub fn clear(&mut self)
        ensures
            final(self)@ == Seq::<Mapping>::empty(),
            final(self).top() == old(self).top(),
            final(self).base() == old(self).base(),
    {
        self.maps.clear();
    }

    /// Where a mapping of `len` bytes at exactly `addr` goes (see
    /// `fixed_scan`): `addr` and the index it goes at, or `None`.
    pub fn find_fixed(&self, addr: usize, len: usize) -> (r: Option<(usize, usize)>)
        requires
            addr + len <= usize::MAX,
        ensures
            match fixed_scan(self@, 0, addr as int, len as int) {
                Some(i) => r == Some((addr, i as usize)),
                None => r is None,
            },
    {
        let ghost s = self@;
        let mut cur: usize = 0;
        while cur < self.maps.len()
            invariant
                cur <= s.len(),
                s == self@,
                addr + len <= usize::MAX,
                fixed_scan(s, 0, addr as int, len as int) == fixed_scan(s, cur as int, addr as int, len as int),
            decreases s.len() - cur,
        {
            let c = self.maps[cur];
            if c.start <= addr && c.end > addr {
                return None;
            } else if c.start < addr {
                cur = cur + 1;
            } else {
                if addr + len > c.start {
                    return None;
                } else {
                    return Some((addr, cur));
                }
            }
        }
        Some((addr, cur))
    }

    /// Where a mapping of `len` bytes goes at or above `addr` (see
    /// `any_above`): its start and the index it goes at, or `None`.
    pub fn find_any_above(&self, addr: usize, len: usize) -> (r: Option<(usize, usize)>)
        requires
            hole_scan_ok(self@, 0, addr as int, len as int),
            self@.len() > 0 && hole_past_last(self@, 0, addr as int, len as int, self.top() as int)
                ==> max_of(self@.last().end as int, addr as int) <= self.top(),
        ensures
            match any_above(self@, addr as int, len as int, self.top() as int) {
                Some((a, i)) => r == Some((a as usize, i as usize)),
                None => r is None,
            },
    {
        let ghost s = self@;
        if self.maps.len() == 0 {
            return Some((addr, 0));
        }
        let mut cur: usize = 0;
        while cur < self.maps.len()
            invariant
                cur <= s.len(),
                s.len() > 0,
                s == self@,
                hole_scan_ok(s, cur as int, addr as int, len as int),
                hole_past_last(s, cur as int, addr as int, len as int, self.top() as int)
                    ==> max_of(s.last().end as int, addr as int) <= self.top(),
                hole_from(s, 0, addr as int, len as int, self.top() as int)
                    == hole_from(s, cur as int, addr as int, len as int, self.top() as int),
            decreases s.len() - cur,
        {
            let c_start = self.maps[cur].start;
            if c_start < addr {
                cur = cur + 1;
            } else {
                let start = if cur > 0 {
                    let p_end = self.maps[cur - 1].end;
                    if addr >= p_end { addr } else { p_end }
                } else {
                    addr
                };
                let hole = c_start - start;
                if len <= hole {
                    return Some((start, cur));
                } else {
                    cur = cur + 1;
                }
            }
        }
        let p_end = self.maps[self.maps.len() - 1].end;
        let start = if p_end >= addr { p_end } else { addr };
        let hole = self.max_user_addr - start;
        if hole >= len {
            Some((start, self.maps.len()))
        } else {
            None
        }
    }
}

} // verus!
