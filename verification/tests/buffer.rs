use cykusz_kernel::utils::buffer::{Buffer, BufferQueue, FsError, Step, Wake, WAIT_NO_HANG};
use cykusz_kernel::utils::types::{Align, CeilDiv};

#[test]
fn buffer_append_then_read_is_fifo() {
    let mut b = Buffer::new(8);
    assert_eq!(b.append_data(&[1, 2, 3]), 3);
    assert_eq!(b.append_data(&[4, 5]), 2);
    assert_eq!(b.size(), 5);
    assert_eq!(b.available_size(), 3);
    let mut out = [0u8; 4];
    assert_eq!(b.read_data(&mut out), 4);
    assert_eq!(out, [1, 2, 3, 4]);
    let mut rest = [9u8; 3];
    assert_eq!(b.read_data(&mut rest), 1);
    assert_eq!(rest, [5, 9, 9]);
    assert!(!b.has_data());
}

#[test]
fn buffer_append_wraps_around() {
    let mut b = Buffer::new(4);
    assert_eq!(b.append_data(&[1, 2, 3]), 3);
    let mut out = [0u8; 2];
    assert_eq!(b.read_data(&mut out), 2);
    // two slots at the end, one wrapped to the front
    assert_eq!(b.append_data(&[4, 5, 6, 7]), 3);
    assert_eq!(b.size(), 4);
    assert_eq!(b.available_size(), 0);
    let mut all = [0u8; 8];
    assert_eq!(b.read_data(&mut all), 4);
    assert_eq!(&all[..4], &[3, 4, 5, 6]);
}

#[test]
fn buffer_full_takes_nothing() {
    let mut b = Buffer::new(2);
    assert_eq!(b.append_data(&[1, 2, 3]), 2);
    assert_eq!(b.append_data(&[4]), 0);
    assert_eq!(b.size(), 2);
}

#[test]
fn buffer_empty_append_on_empty_ring_marks_full() {
    let mut b = Buffer::new(4);
    assert_eq!(b.append_data(&[]), 0);
    // the ring now counts as full
    assert_eq!(b.available_size(), 0);
    assert!(b.has_data());
}

#[test]
fn buffer_new_empty_counts_as_full() {
    let b = Buffer::new_empty();
    assert!(b.has_data());
    assert_eq!(b.size(), 0);
    assert_eq!(b.available_size(), 0);
}

#[test]
fn buffer_init_size_makes_room() {
    let mut b = Buffer::new_empty();
    b.init_size(3);
    assert_eq!(b.available_size(), 3);
    assert_eq!(b.append_data(&[7, 8, 9, 10]), 3);
    assert_eq!(b.size(), 3);
}

#[test]
fn buffer_mark_as_read_drops_oldest() {
    let mut b = Buffer::new(8);
    b.append_data(&[1, 2, 3, 4]);
    assert_eq!(b.mark_as_read(3), 3);
    let mut out = [0u8; 4];
    assert_eq!(b.read_data(&mut out), 1);
    assert_eq!(out[0], 4);
    b.append_data(&[5]);
    assert_eq!(b.mark_as_read(10), 1);
    assert_eq!(b.size(), 0);
}

#[test]
fn buffer_transient_read_does_not_consume() {
    let mut b = Buffer::new(8);
    b.append_data(&[1, 2, 3]);
    let mut out = [0u8; 2];
    assert_eq!(b.read_data_transient_from(0, &mut out), 2);
    assert_eq!(out, [1, 2]);
    assert_eq!(b.size(), 3);
    let mut none = [0u8; 2];
    assert_eq!(b.read_data_transient_from(4, &mut none), 0);
}

#[test]
fn queue_append_and_read() {
    let mut q = BufferQueue::new(4, true, true);
    let (s, w) = q.append_data(&[1, 2, 3, 4, 5]);
    assert_eq!(s, Step::Done(Ok(4)));
    assert_eq!(w, Wake::AllReaders);
    let mut out = [0u8; 3];
    let (s, w) = q.read_data(&mut out);
    assert_eq!(s, Step::Done(Ok(3)));
    assert_eq!(w, Wake::AllWriters);
    assert_eq!(out, [1, 2, 3]);
    assert_eq!(q.size(), 1);
}

#[test]
fn queue_write_without_readers_is_pipe() {
    let mut q = BufferQueue::new(4, false, true);
    let (s, w) = q.append_data(&[1]);
    assert_eq!(s, Step::Done(Err(FsError::Pipe)));
    assert_eq!(w, Wake::Nobody);
}

#[test]
fn queue_full_write_waits_or_would_block() {
    let mut q = BufferQueue::new(2, true, true);
    q.append_data(&[1, 2]);
    let (s, _) = q.append_data(&[3]);
    assert_eq!(s, Step::Wait);
    let (s, _) = q.append_data_flags(&[3], WAIT_NO_HANG);
    assert_eq!(s, Step::Done(Err(FsError::WouldBlock)));
}

#[test]
fn queue_empty_read_waits_or_would_block() {
    let mut q = BufferQueue::new(2, true, true);
    let mut out = [0u8; 1];
    let (s, _) = q.read_data(&mut out);
    assert_eq!(s, Step::Wait);
    let (s, _) = q.read_data_flags(&mut out, WAIT_NO_HANG);
    assert_eq!(s, Step::Done(Err(FsError::WouldBlock)));
}

#[test]
fn queue_read_without_writers_ends() {
    let mut q = BufferQueue::new(2, true, false);
    assert!(q.has_data());
    let mut out = [0u8; 1];
    let (s, w) = q.read_data(&mut out);
    assert_eq!(s, Step::Done(Ok(0)));
    assert_eq!(w, Wake::Nobody);
}

#[test]
fn queue_shutting_down_read_ends() {
    let mut q = BufferQueue::new(2, true, true);
    q.set_shutting_down(true);
    assert!(q.shutting_down());
    let mut out = [0u8; 1];
    let (s, _) = q.read_data(&mut out);
    assert_eq!(s, Step::Done(Ok(0)));
}

#[test]
fn queue_set_readers_and_writers_wake() {
    let mut q = BufferQueue::new(2, true, true);
    assert_eq!(q.set_has_readers(false), Wake::PipeWriters);
    assert!(!q.has_readers());
    assert_eq!(q.set_has_readers(true), Wake::AllWriters);
    assert_eq!(q.set_has_writers(false), Wake::AllReaders);
    assert!(!q.has_writers());
}

#[test]
fn queue_try_append_and_try_read() {
    let mut q = BufferQueue::new(4, true, true);
    assert_eq!(q.try_append_data(&[]), (0, Wake::Nobody));
    assert_eq!(q.try_append_data(&[1, 2]), (2, Wake::OneReader));
    assert_eq!(q.try_append_data_irq(&[3, 4, 5]), (2, Wake::OneReader));
    assert_eq!(q.available_size(), 0);
    let mut peek = [0u8; 2];
    assert_eq!(q.try_read_data_transient(&mut peek), 2);
    assert_eq!(peek, [1, 2]);
    let mut out = [0u8; 8];
    assert_eq!(q.try_read_data(&mut out), 4);
    assert_eq!(&out[..4], &[1, 2, 3, 4]);
}

#[test]
fn queue_new_empty_then_init() {
    let mut q = BufferQueue::new_empty(true, true);
    q.init_size(8);
    assert_eq!(q.available_size(), 8);
    assert!(!q.has_data());
}

#[test]
fn queue_consuming_read_at_offset_yields_nothing() {
    let mut q = BufferQueue::new(4, true, true);
    q.append_data(&[1, 2]);
    let mut out = [0u8; 2];
    let (s, w) = q.read_data_from(1, &mut out, false, 0);
    assert_eq!(s, Step::Done(Ok(0)));
    assert_eq!(w, Wake::Nobody);
    assert_eq!(q.size(), 2);
}

#[test]
fn align_and_ceil_div() {
    assert_eq!(0x1234u64.align_down(0x1000), 0x1000);
    assert_eq!(0x1234u64.align(0x100), 0x1200);
    assert_eq!(0x1234u64.align_up(0x1000), 0x2000);
    assert_eq!(0x2000u64.align_up(0x1000), 0x2000);
    assert_eq!(10u64.align_down(3), 9);
    assert_eq!(10u64.align_down(0), 10);
    assert_eq!(10u64.ceil_div(3), 4);
    assert_eq!(9u64.ceil_div(3), 3);
    assert_eq!(0u64.ceil_div(5), 0);
}

#[test]
fn queue_write_then_read_gives_bytes_back() {
    let mut q = BufferQueue::new(16, true, true);
    let (w, _) = q.append_data(b"xyz");
    assert_eq!(w, Step::Done(Ok(3)));
    let mut out = [0u8; 5];
    let (r, _) = q.read_data(&mut out);
    assert_eq!(r, Step::Done(Ok(3)));
    assert_eq!(&out[..3], b"xyz");
}

#[test]
fn align_other_widths() {
    assert_eq!(0x1234usize.align_down(0x1000), 0x1000);
    assert_eq!(0x1234usize.align_up(0x1000), 0x2000);
    assert_eq!(100u32.align_down(7), 98);
    assert_eq!(100u32.align(0), 100);
    assert_eq!(200u8.align_up(16), 208);
    assert_eq!(1000u16.align_down(512), 512);
    assert_eq!(4097usize.ceil_div(4096), 2);
    assert_eq!(10u8.ceil_div(4), 3);
    assert_eq!(7u16.ceil_div(7), 1);
    assert_eq!(0u32.ceil_div(3), 0);
}

#[test]
fn ring_running_total() {
    let mut b = Buffer::new(16);
    let mut appended = 0usize;
    let mut removed = 0usize;
    appended += b.append_data(&[1u8; 10]);
    let mut out = [0u8; 4];
    removed += b.read_data(&mut out);
    appended += b.append_data(&[2u8; 9]);
    removed += b.mark_as_read(3);
    appended += b.append_data(&[3u8; 20]);
    assert_eq!(b.size(), appended - removed);
    assert_eq!(b.size() + b.available_size(), 16);
    assert_eq!(b.size(), 16);
}
