use cykusz_kernel::task::vm::{prot_from_program_flags, SEG_EXECUTABLE, SEG_READABLE, SEG_WRITABLE};
use cykusz_kernel::net::unix::SyscallError;
use cykusz_kernel::task::vm::{
    FaultHandler, FileRange, MProtectResult, Mapping, MmapFile, UnmapResult, VMData, MAP_ANONYMOUS, MAP_FIXED,
    MAP_PRIVATE, MAP_SHARED, PAGE_SIZE, PF_I_FETCH, PF_WRITE, PROT_EXEC, PROT_READ, PROT_WRITE,
};

const TOP: usize = 0x8000_0000;
const BASE: usize = 0x1000_0000;
const RW: u64 = PROT_READ | PROT_WRITE;
const ANON: u64 = MAP_PRIVATE | MAP_ANONYMOUS;

fn anon(start: usize, end: usize, prot: u64) -> Mapping {
    Mapping { file: None, prot, flags: ANON, start, end }
}

fn spans(v: &VMData) -> Vec<(usize, usize, u64)> {
    v.maps().iter().map(|m| (m.start, m.end, m.prot)).collect()
}

#[test]
fn mapping_new_rounds_up() {
    let m = Mapping::new(0x1000, 100, RW, ANON, None, 0);
    assert_eq!((m.start, m.end), (0x1000, 0x2000));
    let f = Mapping::new(0x1000, 5000, RW, MAP_SHARED, Some((7, true)), 0x3000);
    assert_eq!(f.end, 0x3000);
    assert_eq!(f.file, Some(FileRange { file: 7, writable: true, starting_offset: 0x3000, len: 5000 }));
}

#[test]
fn try_merge_adjacent() {
    let mut a = anon(0x1000, 0x2000, RW);
    assert!(a.try_merge(&anon(0x2000, 0x3000, RW)));
    assert_eq!((a.start, a.end), (0x1000, 0x3000));
    assert!(a.try_merge(&anon(0x0, 0x1000, RW)));
    assert_eq!(a.start, 0);
    assert!(!a.try_merge(&anon(0x3000, 0x4000, PROT_READ)));
    assert!(!a.try_merge(&anon(0x5000, 0x6000, RW)));
}

#[test]
fn try_merge_files() {
    let f = |so, len| Some(FileRange { file: 3, writable: false, starting_offset: so, len });
    let mut a = Mapping { file: f(0, 0x1000), prot: PROT_READ, flags: MAP_PRIVATE, start: 0x1000, end: 0x2000 };
    let b = Mapping { file: f(0x1000, 0x1000), prot: PROT_READ, flags: MAP_PRIVATE, start: 0x2000, end: 0x3000 };
    assert!(a.try_merge(&b));
    assert_eq!(a.file, f(0, 0x2000));
    let c = Mapping { file: f(0x5000, 0x1000), prot: PROT_READ, flags: MAP_PRIVATE, start: 0x3000, end: 0x4000 };
    assert!(!a.try_merge(&c));
}

#[test]
fn split_and_trim() {
    let mut m = Mapping::new(0x1000, 0x3000, RW, MAP_PRIVATE, Some((1, true)), 0);
    let tail = m.split_from(0x2000);
    assert_eq!((m.start, m.end), (0x1000, 0x2000));
    assert_eq!((tail.start, tail.end), (0x2000, 0x4000));
    assert_eq!(tail.file.unwrap().starting_offset, 0x1000);
    assert_eq!(tail.file.unwrap().len, 0x2000);
    assert_eq!(m.file.unwrap().len, 0x1000);
    let mut t = tail;
    t.update_start(0x3000);
    assert_eq!(t.file.unwrap().starting_offset, 0x2000);
    t.update_end(0x3800);
    assert_eq!(t.end, 0x3800);
}

#[test]
fn mapping_unmap_cases() {
    let m = anon(0x1000, 0x5000, RW);
    let mut a = m;
    assert_eq!(a.unmap(0x6000, 0x7000), (UnmapResult::Outside, None));
    let mut b = m;
    assert_eq!(b.unmap(0x2000, 0x3000), (UnmapResult::Mid(anon(0x3000, 0x5000, RW)), Some((0x2000, 0x3000))));
    assert_eq!(b.end, 0x2000);
    let mut c = m;
    assert_eq!(c.unmap(0x0, 0x8000), (UnmapResult::Full, Some((0x1000, 0x5000))));
    let mut d = m;
    assert_eq!(d.unmap(0x0, 0x2000), (UnmapResult::Begin, Some((0x1000, 0x2000))));
    assert_eq!(d.start, 0x2000);
    let mut e = m;
    assert_eq!(e.unmap(0x4000, 0x8000), (UnmapResult::End, Some((0x4000, 0x5000))));
    assert_eq!(e.end, 0x4000);
}

#[test]
fn mapping_mprotect_cases() {
    let m = anon(0x1000, 0x5000, RW);
    let mut a = m;
    assert_eq!(a.mprotect(0x2000, 0x3000, PROT_READ), Ok(MProtectResult::Mid(anon(0x2000, 0x3000, PROT_READ), anon(0x3000, 0x5000, RW))));
    let mut b = m;
    assert_eq!(b.mprotect(0x0, 0x2000, PROT_READ), Ok(MProtectResult::Begin(anon(0x2000, 0x5000, PROT_READ))));
    assert_eq!(b.prot, PROT_READ);
    let mut c = m;
    assert_eq!(c.mprotect(0x3000, 0x9000, PROT_READ), Ok(MProtectResult::End(anon(0x3000, 0x5000, PROT_READ))));
    let mut d = m;
    assert_eq!(d.mprotect(0x9000, 0xa000, RW), Ok(MProtectResult::Full));
    let mut e = Mapping { file: Some(FileRange { file: 1, writable: false, starting_offset: 0, len: 0x4000 }), prot: PROT_READ, flags: MAP_SHARED, start: 0x1000, end: 0x5000 };
    assert_eq!(e.mprotect(0x1000, 0x2000, RW), Err(SyscallError::EACCES));
}

#[test]
fn mmap_places_above_base() {
    let mut v = VMData::new(TOP, BASE);
    let (a, ranges) = v.mmap(None, 0x2000, RW, ANON, None, 0, 0);
    assert_eq!(a, Some(BASE));
    assert!(ranges.is_empty());
    let (b, _) = v.mmap(None, 0x1000, PROT_READ, ANON, None, 0, 0);
    assert_eq!(b, Some(BASE + 0x2000));
    assert_eq!(spans(&v), vec![(BASE, BASE + 0x2000, RW), (BASE + 0x2000, BASE + 0x3000, PROT_READ)]);
}

#[test]
fn mmap_merges_neighbours() {
    let mut v = VMData::new(TOP, BASE);
    assert_eq!(v.mmap(None, 0x2000, RW, ANON, None, 0, 0).0, Some(BASE));
    assert_eq!(v.mmap(None, 0x1000, RW, ANON, None, 0, 0).0, Some(BASE + 0x2000));
    assert_eq!(spans(&v), vec![(BASE, BASE + 0x3000, RW)]);
}

#[test]
fn mmap_refusals() {
    let mut v = VMData::new(TOP, BASE);
    assert_eq!(v.mmap(None, 0, RW, ANON, None, 0, 0).0, None);
    assert_eq!(v.mmap(None, 0x1000, RW, ANON, None, 7, 0).0, None);
    assert_eq!(v.mmap(Some(0x1234), 0x1000, RW, ANON | MAP_FIXED, None, 0, 0).0, None);
    assert_eq!(v.mmap(Some(TOP), 0x1000, RW, ANON, None, 0, 0).0, None);
    assert_eq!(v.mmap(None, 0x1000, RW, MAP_PRIVATE, None, 0, 0).0, None);
    let f = Some(MmapFile { id: 1, writable: true, mappable: false });
    assert_eq!(v.mmap(None, 0x1000, RW, MAP_PRIVATE, f, 0, 0).0, None);
    let g = Some(MmapFile { id: 1, writable: true, mappable: true });
    assert_eq!(v.mmap(None, 0x1000, RW, ANON, g, 0, 0).0, None);
    assert_eq!(v.mmap(None, 0x1000, RW, 0, g, 0, 0).0, None);
    assert!(v.maps().is_empty());
}

#[test]
fn mmap_fixed_replaces() {
    let mut v = VMData::new(TOP, BASE);
    assert_eq!(v.mmap(Some(0x10000), 0x4000, RW, ANON | MAP_FIXED, None, 0, 0).0, Some(0x10000));
    let (a, ranges) = v.mmap(Some(0x11000), 0x1000, PROT_READ, ANON | MAP_FIXED, None, 0, 0);
    assert_eq!(a, Some(0x11000));
    assert_eq!(ranges, vec![(0x11000, 0x12000)]);
    assert_eq!(
        spans(&v),
        vec![(0x10000, 0x11000, RW), (0x11000, 0x12000, PROT_READ), (0x12000, 0x14000, RW)]
    );
}

#[test]
fn mmap_shared_anonymous_uses_shared_memory() {
    let mut v = VMData::new(TOP, BASE);
    assert_eq!(v.mmap(None, 0x1000, RW, MAP_SHARED | MAP_ANONYMOUS, None, 0, 42).0, Some(BASE));
    assert_eq!(v.maps()[0].file.unwrap().file, 42);
}

#[test]
fn mmap_hint_finds_hole() {
    let mut v = VMData::new(TOP, BASE);
    assert_eq!(v.mmap(Some(0x10000), 0x1000, RW, ANON | MAP_FIXED, None, 0, 0).0, Some(0x10000));
    assert_eq!(v.mmap(Some(0x12000), 0x1000, RW, ANON | MAP_FIXED, None, 0, 0).0, Some(0x12000));
    // a hint inside a mapping moves up to the first hole that fits
    assert_eq!(v.mmap(Some(0x10000), 0x1000, PROT_READ, ANON, None, 0, 0).0, Some(0x11000));
    assert_eq!(v.mmap(Some(0x10000), 0x2000, PROT_READ, ANON, None, 0, 0).0, Some(0x13000));
}

#[test]
fn munmap_cases() {
    let mut v = VMData::new(TOP, BASE);
    assert_eq!(v.mmap(Some(0x10000), 0x4000, RW, ANON | MAP_FIXED, None, 0, 0).0, Some(0x10000));
    assert_eq!(v.unmap(0x10001, 0x1000).0, false);
    let (ok, ranges) = v.unmap(0x11000, 0x1000);
    assert!(ok);
    assert_eq!(ranges, vec![(0x11000, 0x12000)]);
    assert_eq!(spans(&v), vec![(0x10000, 0x11000, RW), (0x12000, 0x14000, RW)]);
    let (ok, ranges) = v.unmap(0x10000, 0x4000);
    assert!(ok);
    assert_eq!(ranges, vec![(0x10000, 0x11000), (0x12000, 0x14000)]);
    assert!(v.maps().is_empty());
    assert_eq!(v.unmap(0x10000, 0x1000).0, false);
}

#[test]
fn mprotect_splits_and_merges() {
    let mut v = VMData::new(TOP, BASE);
    assert_eq!(v.mmap(Some(0x10000), 0x4000, RW, ANON | MAP_FIXED, None, 0, 0).0, Some(0x10000));
    assert_eq!(v.mprotect(0x11000, 0x1000, PROT_READ), Ok(0));
    assert_eq!(
        spans(&v),
        vec![(0x10000, 0x11000, RW), (0x11000, 0x12000, PROT_READ), (0x12000, 0x14000, RW)]
    );
    assert_eq!(v.mprotect(0x11000, 0x1000, RW), Ok(0));
    assert_eq!(spans(&v), vec![(0x10000, 0x14000, RW)]);
    assert_eq!(v.mprotect(0x10001, 0x1000, RW), Err(SyscallError::EINVAL));
}

#[test]
fn pagefault_targets() {
    let mut v = VMData::new(TOP, BASE);
    assert_eq!(v.mmap(Some(0x10000), 0x1000, PROT_READ, ANON | MAP_FIXED, None, 0, 0).0, Some(0x10000));
    assert_eq!(v.mmap(Some(0x20000), 0x1000, RW | PROT_EXEC, MAP_SHARED | MAP_ANONYMOUS | MAP_FIXED, None, 0, 9).0, Some(0x20000));
    assert_eq!(v.handle_pagefault(0, 0x10010), Some((0, FaultHandler::PrivateAnon)));
    assert_eq!(v.handle_pagefault(PF_WRITE, 0x10010), None);
    assert_eq!(v.handle_pagefault(PF_I_FETCH, 0x10010), None);
    assert_eq!(v.handle_pagefault(PF_WRITE | PF_I_FETCH, 0x20010), Some((1, FaultHandler::SharedFile)));
    assert_eq!(v.handle_pagefault(0, 0x30000), None);
    let _ = PAGE_SIZE;
}

#[test]
fn fork_copies_and_clear_empties() {
    let mut v = VMData::new(TOP, BASE);
    assert_eq!(v.mmap(None, 0x1000, RW, ANON, None, 0, 0).0, Some(BASE));
    let mut w = VMData::new(TOP, BASE);
    w.fork(&v);
    assert_eq!(spans(&w), spans(&v));
    w.clear();
    assert!(w.maps().is_empty());
}

#[test]
fn program_flags_to_protection() {
    assert_eq!(prot_from_program_flags(SEG_READABLE), PROT_READ);
    assert_eq!(prot_from_program_flags(SEG_READABLE | SEG_WRITABLE), PROT_READ | PROT_WRITE);
    assert_eq!(prot_from_program_flags(SEG_READABLE | SEG_EXECUTABLE), PROT_READ | PROT_EXEC);
    assert_eq!(prot_from_program_flags(0), 0);
}
