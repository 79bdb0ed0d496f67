//! A byte ring buffer with a read and a write position.
use vstd::prelude::*;

verus! {

/// Position of the `i`-th byte after `r` in a ring of `cap` slots.
pub open spec fn ring_pos(r: int, i: int, cap: int) -> int {
    if r + i < cap {
        r + i
    } else {
        r + i - cap
    }
}

/// A ring of bytes. `r == w` means empty or full; `full` tells them apart.
pub struct Buffer {
    data: Vec<u8>,
    r: usize,
    w: usize,
    full: bool,
}

impl View for Buffer {
    /// The storage, the read position, the write position and the full flag.
    type V = (Seq<u8>, int, int, bool);

    closed spec fn view(&self) -> Self::V {
        (self.data@, self.r as int, self.w as int, self.full)
    }
}

impl Buffer {
    /// The bytes of the ring storage.
    pub open spec fn storage(&self) -> Seq<u8> {
        self@.0
    }

    /// The read position.
    pub open spec fn rpos(&self) -> int {
        self@.1
    }

    /// The write position.
    pub open spec fn wpos(&self) -> int {
        self@.2
    }

    /// Whether the ring holds as many bytes as it has slots.
    pub open spec fn is_full(&self) -> bool {
        self@.3
    }

    /// The number of slots.
    pub open spec fn capacity(&self) -> int {
        self.storage().len() as int
    }

    /// The positions lie inside the storage, and a full ring has `r == w`.
    pub open spec fn wf(&self) -> bool {
        &&& (self.capacity() == 0 ==> self.rpos() == 0 && self.wpos() == 0)
        &&& (self.capacity() > 0 ==> 0 <= self.rpos() < self.capacity() && 0 <= self.wpos()
            < self.capacity())
        &&& (self.is_full() ==> self.rpos() == self.wpos())
        &&& self.capacity() <= isize::MAX
    }

    /// The number of bytes held.
    pub open spec fn count(&self) -> int {
        if self.is_full() {
            self.capacity()
        } else if self.rpos() <= self.wpos() {
            self.wpos() - self.rpos()
        } else {
            self.capacity() - self.rpos() + self.wpos()
        }
    }

    /// The bytes held, oldest first.
    pub open spec fn contents(&self) -> Seq<u8> {
        Seq::new(
            self.count() as nat,
            |i: int| self.storage()[ring_pos(self.rpos(), i, self.capacity())],
        )
    }

    /// A ring of `init_size` zeroed slots holding nothing.
    pub fn new(init_size: usize) -> (buf: Buffer)
        requires
            init_size <= isize::MAX,
        ensures
            buf.wf(),
            buf.capacity() == init_size,
            buf.rpos() == 0,
            buf.wpos() == 0,
            !buf.is_full(),
            buf.contents() == Seq::<u8>::empty(),
    {
        let mut buf = Buffer { data: Vec::with_capacity(init_size), r: 0, w: 0, full: false };
        buf.data.resize(init_size, 0);
        buf
    }

    /// A ring with no slots; it counts as full, so nothing can be written.
    pub fn new_empty() -> (buf: Buffer)
        ensures
            buf.wf(),
            buf.capacity() == 0,
            buf.is_full(),
            buf.rpos() == 0,
            buf.wpos() == 0,
            buf.contents() == Seq::<u8>::empty(),
    {
        Buffer { data: Vec::new(), r: 0, w: 0, full: true }
    }

    /// Resizes the storage to `size` slots (new slots are zero) and clears the
    /// full flag; the positions stay where they are. Positions past the new
    /// size would break every later access, so they must fit (or both be 0).
    pub fn init_size(&mut self, size: usize)
        requires
            old(self).wf(),
            (old(self).rpos() < size && old(self).wpos() < size) || (old(self).rpos() == 0
                && old(self).wpos() == 0),
            size <= isize::MAX,
        ensures
            final(self).wf(),
            final(self).capacity() == size,
            size <= old(self).capacity() ==> final(self).storage() == old(self).storage().take(
                size as int,
            ),
            size > old(self).capacity() ==> final(self).storage() == old(self).storage()
                + Seq::new((size - old(self).capacity()) as nat, |i: int| 0u8),
            final(self).rpos() == old(self).rpos(),
            final(self).wpos() == old(self).wpos(),
            !final(self).is_full(),
    {
        let ghost old_data = self.data@;
        self.data.resize(size, 0);
        self.full = false;
        proof {
            if size > old_data.len() {
                assert(self.data@ =~= old_data + Seq::new(
                    (size - old_data.len()) as nat,
                    |i: int| 0u8,
                )) by {
                    assert forall|i: int| 0 <= i < size implies #[trigger] self.data@[i] == (
                    old_data + Seq::new((size - old_data.len()) as nat, |i: int| 0u8))[i] by {
                        if i < old_data.len() {
                            assert(self.data@.subrange(0, old_data.len() as int)[i] == old_data[i]);
                        } else {
                            assert(cloned::<u8>(0u8, self.data@[i]));
                        }
                    }
                }
            }
        }
    }

    /// The number of free slots.
    pub fn available_size(&self) -> (r: usize)
        requires
            self.wf(),
        ensures
            r == self.capacity() - self.count(),
    {
        if self.full {
            return 0;
        }
        if self.r <= self.w {
            self.data.len() - (self.w - self.r)
        } else {
            self.r - self.w
        }
    }

    /// The number of bytes held.
    pub fn size(&self) -> (r: usize)
        requires
            self.wf(),
        ensures
            r == self.count(),
            r == self.contents().len(),
    {
        return self.data.len() - self.available_size();
    }

    /// Whether any byte is held; a ring without slots, which counts as full,
    /// answers yes.
    pub fn has_data(&self) -> (r: bool)
        requires
            self.wf(),
        ensures
            r == (self.count() > 0 || self.is_full()),
    {
        proof {
            assert(self.rpos() == self.r && self.wpos() == self.w && self.is_full() == self.full);
        }
        self.r != self.w || self.full
    }

    /// Copies `src[..n]` into the storage starting at `self.w` and advances `w`;
    /// the slots written are free ones.
    fn write_segment(&mut self, src: &[u8], n: usize)
        requires
            old(self).wf(),
            old(self).capacity() > 0,
            !old(self).is_full(),
            n <= src.len(),
            old(self).wpos() + n <= old(self).capacity(),
            n <= old(self).capacity() - old(self).count(),
            n > 0,
        ensures
            final(self).wf(),
            final(self).capacity() == old(self).capacity(),
            final(self).rpos() == old(self).rpos(),
            final(self).count() == old(self).count() + n,
            final(self).contents() == old(self).contents() + src@.take(n as int),
    {
        let ghost old_self = *self;
        let ghost cap = self.data@.len() as int;
        let ghost c = old_self.count();
        let w0 = self.w;
        let mut k: usize = 0;
        while k < n
            invariant
                old_self.wf(),
                cap == old_self.capacity(),
                cap > 0,
                !old_self.is_full(),
                self.data@.len() == cap,
                self.data.len() == cap,
                self.r == old_self.r,
                self.w == w0,
                w0 == old_self.wpos(),
                w0 + n <= cap,
                n <= src.len(),
                0 <= k <= n,
                forall|j: int|
                    0 <= j < cap && !(w0 <= j < w0 + k) ==> #[trigger] self.data@[j]
                        == old_self.storage()[j],
                forall|j: int| 0 <= j < k ==> #[trigger] self.data@[w0 + j] == src@[j],
            decreases n - k,
        {
            self.data.set(w0 + k, src[k]);
            k = k + 1;
        }
        let nw = w0 + n;
        self.w = if nw == self.data.len() {
            0
        } else {
            nw
        };
        self.full = self.r == self.w;
        proof {
            let r = old_self.rpos();
            let new_count = c + n;
            assert(new_count <= cap);
            // the new count
            if r <= w0 {
                if nw < cap {
                    assert(self.r <= self.w);
                    if self.r == self.w {
                        assert(false);
                    }
                } else {
                    assert(self.w == 0);
                    if r == 0 {
                        assert(self.full);
                    }
                }
            } else {
                assert(nw <= r);
                assert(self.w == nw);
            }
            assert(self.count() == new_count);
            let a = old_self.contents();
            let b = src@.take(n as int);
            assert forall|i: int| 0 <= i < new_count implies #[trigger] self.contents()[i] == (a
                + b)[i] by {
                let p = ring_pos(r, i, cap);
                if i < c {
                    assert(!(w0 <= p < w0 + n));
                    assert(self.data@[p] == old_self.storage()[p]);
                } else {
                    assert(p == w0 + (i - c));
                    assert(self.data@[w0 + (i - c)] == src@[i - c]);
                }
            }
            assert(self.contents() =~= a + b);
        }
    }

    /// Appends as much of `data` as fits and returns how many bytes were
    /// taken. An empty `data` written into an empty ring marks the ring full.
    pub fn append_data(&mut self, data: &[u8]) -> (written: usize)
        requires
            old(self).wf(),
            old(self).capacity() > 0 || old(self).is_full(),
        ensures
            final(self).wf(),
            final(self).capacity() == old(self).capacity(),
            final(self).rpos() == old(self).rpos(),
            written == if data.len() < old(self).capacity() - old(self).count() {
                data.len() as int
            } else {
                old(self).capacity() - old(self).count()
            },
            !(data.len() == 0 && old(self).count() == 0 && !old(self).is_full())
                ==> final(self).contents() == old(self).contents() + data@.take(written as int),
            (data.len() == 0 && old(self).count() == 0 && !old(self).is_full()) ==> (
            final(self).storage() == old(self).storage() && final(self).wpos() == old(self).wpos()
                && final(self).is_full()),
            old(self).is_full() ==> *final(self) == *old(self),
            data.len() > 0 ==> ring_step(*old(self), *final(self), written as int, 0),
        decreases data.len(),
    {
        if self.full {
            assert(data@.take(0) =~= Seq::<u8>::empty());
            assert(self.contents() =~= self.contents() + data@.take(0));
            return 0;
        }
        if data.len() == 0 {
            self.full = self.r == self.w;
            proof {
                assert(data@.take(0) =~= Seq::<u8>::empty());
                if self.r != self.w {
                    assert(*self == *old(self));
                    assert(self.contents() =~= old(self).contents() + data@.take(0));
                }
            }
            return 0;
        }
        if self.r > self.w {
            let cap = self.r - self.w;
            let to_copy = if cap < data.len() {
                cap
            } else {
                data.len()
            };
            self.write_segment(data, to_copy);
            to_copy
        } else {
            let right = self.data.len() - self.w;
            let to_copy = if right < data.len() {
                right
            } else {
                data.len()
            };
            self.write_segment(data, to_copy);
            if to_copy < data.len() {
                let ghost mid = *self;
                let rest = slice_from(data, to_copy);
                let written = self.append_data(rest);
                proof {
                    assert(rest@.take(written as int) =~= data@.subrange(
                        to_copy as int,
                        to_copy + written,
                    ));
                    assert(data@.take(to_copy as int) + data@.subrange(
                        to_copy as int,
                        to_copy + written,
                    ) =~= data@.take(to_copy + written));
                }
                written + to_copy
            } else {
                0 + to_copy
            }
        }
    }

    /// Moves up to `buf.len()` of the oldest bytes into `buf` and returns how
    /// many were moved; the rest of `buf` is left as it was.
    pub fn read_data(&mut self, buf: &mut [u8]) -> (read: usize)
        requires
            old(self).wf(),
            old(self).capacity() > 0 || !old(self).is_full() || old(buf)@.len() == 0,
        ensures
            final(self).wf(),
            final(self).capacity() == old(self).capacity(),
            final(self).storage() == old(self).storage(),
            final(self).wpos() == old(self).wpos(),
            read == if old(buf)@.len() < old(self).count() {
                old(buf)@.len() as int
            } else {
                old(self).count()
            },
            final(self).contents() == old(self).contents().skip(read as int),
            final(buf)@.len() == old(buf)@.len(),
            final(buf)@.take(read as int) == old(self).contents().take(read as int),
            final(buf)@.skip(read as int) == old(buf)@.skip(read as int),
            old(buf)@.len() == 0 ==> *final(self) == *old(self),
            ring_step(*old(self), *final(self), 0, read as int),
    {
        let ghost old_self = *self;
        let ghost old_buf = buf@;
        if (self.r == self.w && !self.full) || buf.len() == 0 {
            assert(self.contents().skip(0) =~= self.contents());
            assert(buf@.take(0) =~= old_self.contents().take(0));
            assert(buf@.skip(0) =~= old_buf.skip(0));
            return 0;
        }
        let total: usize = if buf.len() < self.size() {
            buf.len()
        } else {
            self.size()
        };
        let cap = self.data.len();
        let mut k: usize = 0;
        let mut pos = self.r;
        while k < total
            invariant
                old_self.wf(),
                cap == old_self.capacity(),
                cap > 0,
                *self == old_self,
                total <= old_self.count(),
                total <= old_buf.len(),
                buf@.len() == old_buf.len(),
                0 <= k <= total,
                pos == ring_pos(old_self.rpos(), k as int, cap as int),
                0 <= pos < cap,
                forall|j: int| 0 <= j < k ==> #[trigger] buf@[j] == old_self.contents()[j],
                forall|j: int| k <= j < buf@.len() ==> #[trigger] buf@[j] == old_buf[j],
            decreases total - k,
        {
            buf[k] = self.data[pos];
            k = k + 1;
            pos = if pos + 1 == cap {
                0
            } else {
                pos + 1
            };
        }
        self.r = pos;
        self.full = false;
        proof {
            let r0 = old_self.rpos();
            let c = old_self.count();
            assert(self.count() == c - total) by {
                if total == c {
                    assert(self.r == old_self.wpos());
                }
            }
            assert forall|i: int| 0 <= i < c - total implies #[trigger] self.contents()[i]
                == old_self.contents().skip(total as int)[i] by {
                assert(ring_pos(self.r as int, i, cap as int) == ring_pos(r0, i + total, cap as int));
            }
            assert(self.contents() =~= old_self.contents().skip(total as int));
            assert(buf@.take(total as int) =~= old_self.contents().take(total as int));
            assert(buf@.skip(total as int) =~= old_buf.skip(total as int));
        }
        total
    }

    /// Drops up to `amount` of the oldest bytes and returns how many were dropped.
    pub fn mark_as_read(&mut self, amount: usize) -> (dropped: usize)
        requires
            old(self).wf(),
        ensures
            final(self).wf(),
            final(self).capacity() == old(self).capacity(),
            final(self).storage() == old(self).storage(),
            final(self).wpos() == old(self).wpos(),
            dropped == if amount < old(self).count() {
                amount as int
            } else {
                old(self).count()
            },
            final(self).contents() == old(self).contents().skip(dropped as int),
            ring_step(*old(self), *final(self), 0, dropped as int),
    {
        let ghost old_self = *self;
        if amount == 0 {
            assert(self.contents().skip(0) =~= self.contents());
            return amount;
        }
        let avail = self.size();
        if avail < amount {
            self.r = self.w;
            self.full = false;
            assert(self.contents() =~= old_self.contents().skip(avail as int));
            return avail;
        }
        let cap = self.data.len();
        let np = self.r + amount;
        self.r = if np >= cap {
            np - cap
        } else {
            np
        };
        self.full = false;
        proof {
            let r0 = old_self.rpos();
            let c = old_self.count();
            assert(self.count() == c - amount) by {
                if amount == c {
                    assert(self.r == old_self.wpos());
                }
            }
            assert forall|i: int| 0 <= i < c - amount implies #[trigger] self.contents()[i]
                == old_self.contents().skip(amount as int)[i] by {
                assert(ring_pos(self.r as int, i, cap as int) == ring_pos(
                    r0,
                    i + amount,
                    cap as int,
                ));
            }
            assert(self.contents() =~= old_self.contents().skip(amount as int));
        }
        amount
    }
}

/// Stepping a position by one steps its remainder by one, wrapping to zero.
pub proof fn lemma_mod_step(pos: int, d: int)
    requires
        d > 0,
        pos >= 0,
    ensures
        0 <= pos % d < d,
        (pos + 1) % d == if pos % d + 1 == d {
            0
        } else {
            pos % d + 1
        },
{
    vstd::arithmetic::div_mod::lemma_mod_pos_bound(pos, d);
    vstd::arithmetic::div_mod::lemma_fundamental_div_mod(pos, d);
    let q = pos / d;
    let r = pos % d;
    if r + 1 == d {
        assert(pos + 1 == (q + 1) * d + 0) by (nonlinear_arith)
            requires
                pos == d * q + r,
                r + 1 == d,
        ;
        vstd::arithmetic::div_mod::lemma_fundamental_div_mod_converse(pos + 1, d, q + 1, 0);
    } else {
        assert(pos + 1 == q * d + (r + 1)) by (nonlinear_arith)
            requires
                pos == d * q + r,
        ;
        vstd::arithmetic::div_mod::lemma_fundamental_div_mod_converse(pos + 1, d, q, r + 1);
    }
}

impl Buffer {
    /// How many bytes a read without consuming, at `offset` into a buffer of
    /// `buflen` bytes, yields. The read always starts at the read position:
    /// the offset only decides whether anything is read. Before a read
    /// position with no written bytes after it (the ring wraps, or is full),
    /// the bytes up to the end of the storage are repeated until the buffer
    /// is full.
    pub open spec fn transient_len(&self, offset: int, buflen: int) -> int {
        let cap = self.capacity();
        let r = self.rpos();
        let w = self.wpos();
        if offset > self.count() {
            0
        } else if ((((r + offset) as usize) & (cap as usize)) == w && !self.is_full() && offset == 0)
            || buflen == 0 {
            0
        } else if w > r {
            if w - r < buflen {
                w - r
            } else {
                buflen
            }
        } else if self.count() < cap - r {
            if cap - r < buflen {
                cap - r
            } else {
                buflen
            }
        } else {
            buflen
        }
    }

    /// The `k`-th byte that such a read yields.
    pub open spec fn transient_byte(&self, k: int) -> u8 {
        let r = self.rpos();
        let w = self.wpos();
        if w > r {
            self.storage()[r + k]
        } else {
            self.storage()[r + k % (self.capacity() - r)]
        }
    }

    /// Copies bytes into `buf` without consuming them (see `transient_len`
    /// and `transient_byte`) and returns how many were copied.
    pub fn read_data_transient_from(&self, offset: usize, buf: &mut [u8]) -> (read: usize)
        requires
            self.wf(),
            self.capacity() > 0 || !self.is_full() || offset > 0 || old(buf)@.len() == 0,
        ensures
            read == self.transient_len(offset as int, old(buf)@.len() as int),
            final(buf)@.len() == old(buf)@.len(),
            forall|k: int| 0 <= k < read ==> #[trigger] final(buf)@[k] == self.transient_byte(k),
            forall|k: int| read <= k < final(buf)@.len() ==> #[trigger] final(buf)@[k] == old(buf)@[k],
    {
        if offset > self.size() {
            return 0;
        }
        let sum = self.r + offset;
        let cap = self.data.len();
        let r = sum & cap;
        assert(cap == 0 ==> r == 0) by (bit_vector)
            requires
                r == sum & cap,
        ;
        if (r == self.w && !self.full && offset == 0) || buf.len() == 0 {
            return 0;
        }
        let ghost old_buf = buf@;
        let n: usize;
        let seg: usize;
        if self.w > self.r {
            seg = self.w - self.r;
            n = if seg < buf.len() {
                seg
            } else {
                buf.len()
            };
        } else {
            seg = self.data.len() - self.r;
            if self.size() < seg {
                n = if seg < buf.len() {
                    seg
                } else {
                    buf.len()
                };
            } else {
                n = buf.len();
            }
        }
        assert(seg > 0);
        let mut pos: usize = 0;
        let mut j: usize = 0;
        while pos < n
            invariant
                self.wf(),
                seg > 0,
                self.r + seg <= self.data@.len(),
                self.w > self.r ==> seg == self.w - self.r && n <= seg,
                self.w <= self.r ==> seg == self.data@.len() - self.r,
                n <= old_buf.len(),
                buf@.len() == old_buf.len(),
                pos <= n,
                j == pos as int % seg as int,
                forall|k: int| 0 <= k < pos ==> #[trigger] buf@[k] == self.transient_byte(k),
                forall|k: int| pos <= k < buf@.len() ==> #[trigger] buf@[k] == old_buf[k],
            decreases n - pos,
        {
            proof {
                lemma_mod_step(pos as int, seg as int);
                if self.w > self.r {
                    vstd::arithmetic::div_mod::lemma_small_mod(pos as nat, seg as nat);
                }
            }
            buf[pos] = self.data[self.r + j];
            pos = pos + 1;
            j = if j + 1 == seg {
                0
            } else {
                j + 1
            };
        }
        n
    }
}

/// The tail of a slice from `start` on.
fn slice_from(s: &[u8], start: usize) -> (t: &[u8])
    requires
        start <= s.len(),
    ensures
        t@ == s@.skip(start as int),
{
    vstd::slice::slice_subrange(s, start, s.len())
}

/// The errors of the blocking reads and writes.
#[derive(Debug, Copy, Clone, PartialEq, Eq, Structural)]
pub enum FsError {
    NotSupported,
    WouldBlock,
    Pipe,
    Interrupted,
    /// The request is not one the device answers.
    NoTty,
    /// No file descriptor is free.
    Busy,
}

/// Where a blocking operation stands: done, with its result, or to be tried
/// again once the caller has been woken.
#[derive(Debug, PartialEq, Eq, Structural)]
pub enum Step<T> {
    Done(T),
    Wait,
}

/// Whom an operation wakes.
#[derive(Debug, Copy, Clone, PartialEq, Eq, Structural)]
pub enum Wake {
    Nobody,
    OneReader,
    AllReaders,
    AllWriters,
    /// The writers get SIGPIPE: nobody reads any more.
    PipeWriters,
}

/// The wait flag that turns a wait into the error `WouldBlock`.
pub const WAIT_NO_HANG: u64 = 4;

/// A ring shared by readers and writers: whether there still are readers
/// and writers, and whether it is shutting down.
pub struct BufferQueue {
    pub buffer: Buffer,
    pub shutting_down: bool,
    pub has_readers: bool,
    pub has_writers: bool,
}

/// The outcome of `BufferQueue::append_data_flags`.
pub open spec fn append_outcome(o: BufferQueue, f: BufferQueue, data: Seq<u8>, flags: u64, r: (Step<Result<usize, FsError>>, Wake)) -> bool {
    let free = o.buffer.capacity() - o.buffer.count();
    let ready = !o.has_readers || free > 0;
    if data.len() == 0 {
        r == (Step::Done(Ok::<usize, FsError>(0usize)), Wake::Nobody) && f.buffer == o.buffer
    } else if !ready {
        f.buffer == o.buffer && r.1 == Wake::Nobody && r.0 == if flags & WAIT_NO_HANG != 0 {
            Step::Done(Err::<usize, FsError>(FsError::WouldBlock))
        } else {
            Step::Wait
        }
    } else if !o.has_readers {
        f.buffer == o.buffer && r == (Step::Done(Err::<usize, FsError>(FsError::Pipe)), Wake::Nobody)
    } else {
        let n = if data.len() < free { data.len() as int } else { free };
        &&& r == (Step::Done(Ok::<usize, FsError>(n as usize)), Wake::AllReaders)
        &&& f.buffer.contents() == o.buffer.contents() + data.take(n)
    }
}

/// The outcome of `BufferQueue::read_data_from`.
pub open spec fn read_outcome(o: BufferQueue, f: BufferQueue, offset: usize, transient: bool, flags: u64, buf0: Seq<u8>, buf1: Seq<u8>, r: (Step<Result<usize, FsError>>, Wake)) -> bool {
    let ready = o.spec_has_data() || o.shutting_down || offset > 0;
    if offset > 0 && !transient {
        r == (Step::Done(Ok::<usize, FsError>(0usize)), Wake::Nobody) && f.buffer == o.buffer
            && buf1 == buf0
    } else if !ready {
        f.buffer == o.buffer && buf1 == buf0 && r.1 == Wake::Nobody
            && r.0 == if flags & WAIT_NO_HANG != 0 {
            Step::Done(Err::<usize, FsError>(FsError::WouldBlock))
        } else {
            Step::Wait
        }
    } else if transient {
        let n = o.buffer.transient_len(offset as int, buf0.len() as int);
        &&& r == (Step::Done(Ok::<usize, FsError>(n as usize)), Wake::Nobody)
        &&& f.buffer == o.buffer
        &&& forall|k: int| 0 <= k < n ==> #[trigger] buf1[k] == o.buffer.transient_byte(k)
        &&& forall|k: int| n <= k < buf0.len() ==> #[trigger] buf1[k] == buf0[k]
    } else {
        let n = if buf0.len() < o.buffer.count() {
            buf0.len() as int
        } else {
            o.buffer.count()
        };
        &&& r == (Step::Done(Ok::<usize, FsError>(n as usize)), if n > 0 { Wake::AllWriters } else { Wake::Nobody })
        &&& f.buffer.contents() == o.buffer.contents().skip(n)
        &&& buf1.take(n) == o.buffer.contents().take(n)
        &&& buf1.skip(n) == buf0.skip(n)
    }
}

impl BufferQueue {
    /// The ring is well formed and can be written to (it has slots, or is
    /// a slot-less ring, which counts as full).
    pub open spec fn wf(&self) -> bool {
        self.buffer.wf() && (self.buffer.capacity() > 0 || self.buffer.is_full())
    }

    /// An empty queue on a ring of `init_size` slots.
    pub fn new(init_size: usize, has_readers: bool, has_writers: bool) -> (q: BufferQueue)
        requires
            0 < init_size <= isize::MAX,
        ensures
            q.wf(),
            q.buffer.capacity() == init_size && q.buffer.contents() == Seq::<u8>::empty(),
            !q.buffer.is_full(),
            !q.shutting_down && q.has_readers == has_readers && q.has_writers == has_writers,
    {
        BufferQueue { buffer: Buffer::new(init_size), shutting_down: false, has_readers, has_writers }
    }

    /// A queue on a ring with no slots yet.
    pub fn new_empty(has_readers: bool, has_writers: bool) -> (q: BufferQueue)
        ensures
            q.wf(),
            q.buffer.capacity() == 0 && q.buffer.is_full() && q.buffer.rpos() == 0 && q.buffer.wpos() == 0,
            !q.shutting_down && q.has_readers == has_readers && q.has_writers == has_writers,
    {
        BufferQueue { buffer: Buffer::new_empty(), shutting_down: false, has_readers, has_writers }
    }

    /// Gives the ring `size` slots.
    pub fn init_size(&mut self, size: usize)
        requires
            old(self).wf(),
            (old(self).buffer.rpos() < size && old(self).buffer.wpos() < size) || (old(self).buffer.rpos() == 0
                && old(self).buffer.wpos() == 0),
            0 < size <= isize::MAX,
        ensures
            final(self).wf(),
            final(self).buffer.capacity() == size,
            !final(self).buffer.is_full(),
            final(self).buffer.rpos() == old(self).buffer.rpos() && final(self).buffer.wpos() == old(self).buffer.wpos(),
            final(self).shutting_down == old(self).shutting_down && final(self).has_readers == old(self).has_readers
                && final(self).has_writers == old(self).has_writers,
    {
        self.buffer.init_size(size);
    }

    /// Marks the queue as shutting down (or not).
    pub fn set_shutting_down(&mut self, v: bool)
        ensures
            final(self).shutting_down == v,
            final(self).buffer == old(self).buffer && final(self).has_readers == old(self).has_readers
                && final(self).has_writers == old(self).has_writers,
    {
        self.shutting_down = v;
    }

    /// Records whether anyone reads: with nobody, the writers get SIGPIPE;
    /// otherwise they are woken.
    pub fn set_has_readers(&mut self, present: bool) -> (w: Wake)
        ensures
            final(self).has_readers == present,
            final(self).buffer == old(self).buffer && final(self).shutting_down == old(self).shutting_down
                && final(self).has_writers == old(self).has_writers,
            w == if present {
                Wake::AllWriters
            } else {
                Wake::PipeWriters
            },
    {
        self.has_readers = present;
        if !present {
            Wake::PipeWriters
        } else {
            Wake::AllWriters
        }
    }

    /// Records whether anyone writes, and wakes the readers.
    pub fn set_has_writers(&mut self, present: bool) -> (w: Wake)
        ensures
            final(self).has_writers == present,
            final(self).buffer == old(self).buffer && final(self).shutting_down == old(self).shutting_down
                && final(self).has_readers == old(self).has_readers,
            w == Wake::AllReaders,
    {
        self.has_writers = present;
        Wake::AllReaders
    }

    /// Whether a reader would get something: bytes are held (or the ring has
    /// no slots), or nobody writes any more, so that the read ends.
    pub open spec fn spec_has_data(&self) -> bool {
        self.buffer.count() > 0 || self.buffer.is_full() || !self.has_writers
    }

    /// Whether a reader would get something.
    pub fn has_data(&self) -> (r: bool)
        requires
            self.wf(),
        ensures
            r == self.spec_has_data(),
    {
        self.buffer.has_data() || !self.has_writers
    }

    /// Writes what fits of `data` without waiting; one reader is woken when
    /// anything was written.
    pub fn try_append_data(&mut self, data: &[u8]) -> (r: (usize, Wake))
        requires
            old(self).wf(),
        ensures
            final(self).wf(),
            final(self).shutting_down == old(self).shutting_down && final(self).has_readers == old(self).has_readers
                && final(self).has_writers == old(self).has_writers,
            final(self).buffer.capacity() == old(self).buffer.capacity(),
            data.len() == 0 ==> final(self).buffer == old(self).buffer && r == (0usize, Wake::Nobody),
            data.len() > 0 ==> {
                let free = old(self).buffer.capacity() - old(self).buffer.count();
                &&& r.0 == if data.len() < free { data.len() as int } else { free }
                &&& final(self).buffer.contents() == old(self).buffer.contents() + data@.take(r.0 as int)
                &&& r.1 == if r.0 > 0 { Wake::OneReader } else { Wake::Nobody }
            },
    {
        if data.len() == 0 {
            return (0, Wake::Nobody);
        }
        let written = self.buffer.append_data(data);
        if written > 0 {
            (written, Wake::OneReader)
        } else {
            (written, Wake::Nobody)
        }
    }

    /// A write of `data` that waits for room: with nobody reading it fails
    /// with `Pipe`; otherwise what fits is written and the readers are
    /// woken. It waits (or, with `WAIT_NO_HANG`, fails with `WouldBlock`)
    /// while the ring is full and someone reads.
    pub fn append_data_flags(&mut self, data: &[u8], flags: u64) -> (r: (Step<Result<usize, FsError>>, Wake))
        requires
            old(self).wf(),
        ensures
            final(self).wf(),
            final(self).shutting_down == old(self).shutting_down && final(self).has_readers == old(self).has_readers
                && final(self).has_writers == old(self).has_writers,
            final(self).buffer.capacity() == old(self).buffer.capacity(),
            append_outcome(*old(self), *final(self), data@, flags, r),
    {
        if data.len() == 0 {
            return (Step::Done(Ok(0)), Wake::Nobody);
        }
        if !(!self.has_readers || self.buffer.available_size() > 0) {
            if flags & WAIT_NO_HANG != 0 {
                return (Step::Done(Err(FsError::WouldBlock)), Wake::Nobody);
            }
            return (Step::Wait, Wake::Nobody);
        }
        if !self.has_readers {
            return (Step::Done(Err(FsError::Pipe)), Wake::Nobody);
        }
        let written = self.buffer.append_data(data);
        (Step::Done(Ok(written)), Wake::AllReaders)
    }

    /// A read into `buf`, at `offset` when `transient` (without consuming),
    /// that waits for data: a consuming read at an offset yields nothing; it
    /// waits (or, with `WAIT_NO_HANG`, fails with `WouldBlock`) while there
    /// is nothing to read, the queue is not shutting down and the offset is
    /// 0. The writers are woken when a consuming read got something.
    pub fn read_data_from(&mut self, offset: usize, buf: &mut [u8], transient: bool, flags: u64) -> (r: (
        Step<Result<usize, FsError>>,
        Wake,
    ))
        requires
            old(self).wf(),
            old(self).buffer.capacity() > 0 || old(buf)@.len() == 0 || (offset > 0 && !transient),
        ensures
            final(self).wf(),
            final(self).shutting_down == old(self).shutting_down && final(self).has_readers == old(self).has_readers
                && final(self).has_writers == old(self).has_writers,
            final(self).buffer.capacity() == old(self).buffer.capacity(),
            final(buf)@.len() == old(buf)@.len(),
            read_outcome(*old(self), *final(self), offset, transient, flags, old(buf)@, final(buf)@, r),
    {
        if offset > 0 && !transient {
            return (Step::Done(Ok(0)), Wake::Nobody);
        }
        if !(self.has_data() || self.shutting_down || offset > 0) {
            if flags & WAIT_NO_HANG != 0 {
                return (Step::Done(Err(FsError::WouldBlock)), Wake::Nobody);
            }
            return (Step::Wait, Wake::Nobody);
        }
        if transient {
            let read = self.buffer.read_data_transient_from(offset, buf);
            (Step::Done(Ok(read)), Wake::Nobody)
        } else {
            let read = self.buffer.read_data(buf);
            if read > 0 {
                (Step::Done(Ok(read)), Wake::AllWriters)
            } else {
                (Step::Done(Ok(read)), Wake::Nobody)
            }
        }
    }
}

impl BufferQueue {
    /// Whether the queue is shutting down.
    pub fn shutting_down(&self) -> (r: bool)
        ensures
            r == self.shutting_down,
    {
        self.shutting_down
    }

    /// Whether anyone reads.
    pub fn has_readers(&self) -> (r: bool)
        ensures
            r == self.has_readers,
    {
        self.has_readers
    }

    /// Whether anyone writes.
    pub fn has_writers(&self) -> (r: bool)
        ensures
            r == self.has_writers,
    {
        self.has_writers
    }

    /// The free room of the ring.
    pub fn available_size(&self) -> (r: usize)
        requires
            self.wf(),
        ensures
            r == self.buffer.capacity() - self.buffer.count(),
    {
        self.buffer.available_size()
    }

    /// The number of bytes held.
    pub fn size(&self) -> (r: usize)
        requires
            self.wf(),
        ensures
            r == self.buffer.count(),
    {
        self.buffer.size()
    }

    /// `try_append_data`, with interrupts off (the same to the ring).
    pub fn try_append_data_irq(&mut self, data: &[u8]) -> (r: (usize, Wake))
        requires
            old(self).wf(),
        ensures
            final(self).wf(),
            final(self).shutting_down == old(self).shutting_down && final(self).has_readers == old(self).has_readers
                && final(self).has_writers == old(self).has_writers,
            final(self).buffer.capacity() == old(self).buffer.capacity(),
            data.len() == 0 ==> final(self).buffer == old(self).buffer && r == (0usize, Wake::Nobody),
            data.len() > 0 ==> {
                let free = old(self).buffer.capacity() - old(self).buffer.count();
                &&& r.0 == if data.len() < free { data.len() as int } else { free }
                &&& final(self).buffer.contents() == old(self).buffer.contents() + data@.take(r.0 as int)
                &&& r.1 == if r.0 > 0 { Wake::OneReader } else { Wake::Nobody }
            },
    {
        self.try_append_data(data)
    }

    /// A write that waits for room (no flags).
    pub fn append_data(&mut self, data: &[u8]) -> (r: (Step<Result<usize, FsError>>, Wake))
        requires
            old(self).wf(),
        ensures
            final(self).wf(),
            final(self).shutting_down == old(self).shutting_down && final(self).has_readers == old(self).has_readers
                && final(self).has_writers == old(self).has_writers,
            final(self).buffer.capacity() == old(self).buffer.capacity(),
            append_outcome(*old(self), *final(self), data@, 0, r),
    {
        self.append_data_flags(data, 0)
    }

    /// A consuming read that waits for data (no flags).
    pub fn read_data(&mut self, buf: &mut [u8]) -> (r: (Step<Result<usize, FsError>>, Wake))
        requires
            old(self).wf(),
            old(self).buffer.capacity() > 0 || old(buf)@.len() == 0,
        ensures
            final(self).wf(),
            final(self).shutting_down == old(self).shutting_down && final(self).has_readers == old(self).has_readers
                && final(self).has_writers == old(self).has_writers,
            final(self).buffer.capacity() == old(self).buffer.capacity(),
            read_outcome(*old(self), *final(self), 0, false, 0, old(buf)@, final(buf)@, r),
    {
        self.read_data_from(0, buf, false, 0)
    }

    /// A consuming read that waits for data, with wait flags.
    pub fn read_data_flags(&mut self, buf: &mut [u8], flags: u64) -> (r: (Step<Result<usize, FsError>>, Wake))
        requires
            old(self).wf(),
            old(self).buffer.capacity() > 0 || old(buf)@.len() == 0,
        ensures
            final(self).wf(),
            final(self).shutting_down == old(self).shutting_down && final(self).has_readers == old(self).has_readers
                && final(self).has_writers == old(self).has_writers,
            final(self).buffer.capacity() == old(self).buffer.capacity(),
            read_outcome(*old(self), *final(self), 0, false, flags, old(buf)@, final(buf)@, r),
    {
        self.read_data_from(0, buf, false, flags)
    }

    /// A read at offset 0 that does not consume and does not wait.
    pub fn try_read_data_transient(&self, buf: &mut [u8]) -> (read: usize)
        requires
            self.wf(),
            self.buffer.capacity() > 0 || !self.buffer.is_full() || old(buf)@.len() == 0,
        ensures
            read == self.buffer.transient_len(0, old(buf)@.len() as int),
            final(buf)@.len() == old(buf)@.len(),
            forall|k: int| 0 <= k < read ==> #[trigger] final(buf)@[k] == self.buffer.transient_byte(k),
            forall|k: int| read <= k < final(buf)@.len() ==> #[trigger] final(buf)@[k] == old(buf)@[k],
    {
        self.buffer.read_data_transient_from(0, buf)
    }

    /// A consuming read that does not wait.
    pub fn try_read_data(&mut self, buf: &mut [u8]) -> (read: usize)
        requires
            old(self).wf(),
            old(self).buffer.capacity() > 0 || !old(self).buffer.is_full() || old(buf)@.len() == 0,
        ensures
            final(self).wf(),
            final(self).shutting_down == old(self).shutting_down && final(self).has_readers == old(self).has_readers
                && final(self).has_writers == old(self).has_writers,
            final(self).buffer.capacity() == old(self).buffer.capacity(),
            read == if old(buf)@.len() < old(self).buffer.count() {
                old(buf)@.len() as int
            } else {
                old(self).buffer.count()
            },
            final(self).buffer.contents() == old(self).buffer.contents().skip(read as int),
            final(buf)@.len() == old(buf)@.len(),
            final(buf)@.take(read as int) == old(self).buffer.contents().take(read as int),
            final(buf)@.skip(read as int) == old(buf)@.skip(read as int),
    {
        self.buffer.read_data(buf)
    }
}

/// A step of a ring of the same size: `added` bytes appended, `removed`
/// read or dropped.
pub open spec fn ring_step(b0: Buffer, b1: Buffer, added: int, removed: int) -> bool {
    b1.capacity() == b0.capacity() && b1.count() == b0.count() + added - removed
}

/// The sum of `s`.
pub open spec fn seq_sum(s: Seq<int>) -> int
    decreases s.len(),
{
    if s.len() == 0 {
        0
    } else {
        seq_sum(s.drop_last()) + s.last()
    }
}

/// A well formed ring holds between none and all of its slots.
pub proof fn lemma_count_bounds(b: Buffer)
    requires
        b.wf(),
    ensures
        0 <= b.count() <= b.capacity(),
{
}

/// What a ring holds is what was appended to it less what was read or
/// dropped: on a run of rings from an empty one, each reached from the one
/// before by an append of a non-empty slice, a read or a drop (see
/// `ring_step`, which their contracts give), the ring holds the bytes
/// appended less those read or dropped, and between none and all its
/// slots, with the free slots the rest.
pub proof fn lemma_buffer_running_total(bufs: Seq<Buffer>, added: Seq<int>, removed: Seq<int>)
    requires
        bufs.len() == added.len() + 1,
        added.len() == removed.len(),
        bufs[0].count() == 0,
        forall|i: int| 0 <= i < bufs.len() ==> (#[trigger] bufs[i]).wf(),
        forall|i: int| 0 <= i < added.len() ==> ring_step(#[trigger] bufs[i], bufs[i + 1], added[i], removed[i]),
    ensures
        bufs.last().count() == seq_sum(added) - seq_sum(removed),
        0 <= bufs.last().count() <= bufs.last().capacity(),
        bufs.last().count() + (bufs.last().capacity() - bufs.last().count()) == bufs.last().capacity(),
        bufs.last().capacity() == bufs[0].capacity(),
    decreases added.len(),
{
    lemma_count_bounds(bufs.last());
    if added.len() > 0 {
        let n = added.len() - 1;
        let b2 = bufs.drop_last();
        assert forall|i: int| 0 <= i < b2.len() implies (#[trigger] b2[i]).wf() by {
            assert(b2[i] == bufs[i]);
        }
        assert forall|i: int| 0 <= i < added.drop_last().len() implies ring_step(
            #[trigger] b2[i],
            b2[i + 1],
            added.drop_last()[i],
            removed.drop_last()[i],
        ) by {
            assert(b2[i] == bufs[i] && b2[i + 1] == bufs[i + 1]);
            assert(ring_step(bufs[i], bufs[i + 1], added[i], removed[i]));
        }
        lemma_buffer_running_total(b2, added.drop_last(), removed.drop_last());
        assert(ring_step(bufs[n], bufs[n + 1], added[n], removed[n]));
        assert(b2.last() == bufs[n]);
    }
}

/// Bytes leave a ring in the order they came: bytes appended to an empty
/// ring (`append_data`) are what a read of as many bytes (`read_data`)
/// copies out.
pub proof fn lemma_buffer_fifo(b0: Buffer, data: Seq<u8>, written: int, b1: Buffer, out: Seq<u8>, read: int)
    requires
        b0.wf(),
        b0.count() == 0,
        0 <= written <= data.len(),
        b1.contents() == b0.contents() + data.take(written),
        0 <= read <= b1.contents().len(),
        read <= out.len(),
        out.take(read) == b1.contents().take(read),
    ensures
        out.take(read) == data.take(read),
{
    assert(b0.contents().len() == 0);
    assert(b1.contents() =~= data.take(written));
    assert(data.take(written).take(read) =~= data.take(read));
}


/// A read gives back what a write wrote: on a queue whose ring was empty, a
/// write that took `n > 0` bytes, followed by a consuming read into a buffer
/// of at least `n` bytes, reads exactly those `n` bytes.
pub proof fn lemma_queue_write_then_read(
    q0: BufferQueue,
    q1: BufferQueue,
    data: Seq<u8>,
    wflags: u64,
    w: (Step<Result<usize, FsError>>, Wake),
    q2: BufferQueue,
    rflags: u64,
    buf0: Seq<u8>,
    buf1: Seq<u8>,
    r: (Step<Result<usize, FsError>>, Wake),
    n: usize,
)
    requires
        q0.wf(),
        q0.buffer.count() == 0,
        !q0.buffer.is_full(),
        append_outcome(q0, q1, data, wflags, w),
        w.0 == Step::Done(Ok::<usize, FsError>(n)),
        n > 0,
        q1.buffer.wf(),
        read_outcome(q1, q2, 0, false, rflags, buf0, buf1, r),
        buf0.len() >= n,
    ensures
        r.0 == Step::Done(Ok::<usize, FsError>(n)),
        buf1.take(n as int) == data.take(n as int),
{
    assert(q0.buffer.contents().len() == 0);
    assert(q1.buffer.contents() =~= data.take(n as int));
    assert(q1.buffer.count() == n) by {
        assert(q1.buffer.contents().len() == q1.buffer.count());
    }
}

} // verus!
