//! Local (Unix domain) stream sockets: binding, listening, connecting,
//! accepting, reading, writing and polling. Sockets are named by their
//! index in a table; each holds the ring its peer writes into.
use vstd::prelude::*;
use crate::utils::buffer::{BufferQueue, FsError, Step, Wake, read_outcome, append_outcome};

verus! {

/// A local socket address: the family and a path of up to 108 bytes.
#[derive(Debug, Copy, Clone)]
pub struct SockAddrUn {
    pub family: u16,
    pub path: [u8; 108],
}

/// The size of a local socket address in bytes.
pub const SOCKADDR_UN_SIZE: u32 = 110;

/// The errors of system calls.
#[derive(Debug, Copy, Clone, PartialEq, Eq, Structural)]
pub enum SyscallError {
    EPERM,
    ESRCH,
    EACCES,
    EINVAL,
    EADDRINUSE,
    ENOTSUP,
    ECONNREFUSED,
    EADDRNOTAVAIL,
    EOPNOTSUPP,
}

/// The peers waiting to be accepted, and the address listened on.
pub struct ConnectionQueue {
    pub queue: Vec<usize>,
    pub addr: SockAddrUn,
}

/// Where a socket stands.
pub enum UnixState {
    Disconnected,
    Connected(usize),
    Listening(ConnectionQueue),
    Bound(SockAddrUn),
}

/// A local socket: its state, the ring that its peer writes into, and how
/// many ends read from and write to it.
pub struct UnixSocket {
    pub state: UnixState,
    pub buffer: BufferQueue,
    pub readers: usize,
    pub writers: usize,
}

/// The sockets, by index.
pub struct UnixSockets {
    pub socks: Vec<UnixSocket>,
}

/// The poll event bits (as poll(2) numbers them).
pub const POLL_READ: u64 = 1;
pub const POLL_WRITE: u64 = 4;
pub const POLL_ERR: u64 = 8;
pub const POLL_HUP: u64 = 16;

/// A wait queue a poller is to be put on.
#[derive(Debug, Copy, Clone, PartialEq, Eq, Structural)]
pub enum PollWait {
    /// The readers of this socket's ring.
    BufferReaders(usize),
    /// The connection waiters of this socket.
    Connections(usize),
    /// The writers of this socket's ring.
    BufferWriters(usize),
}

/// What a poll found, and where the poller is to wait.
pub struct PollAnswer {
    pub events: u64,
    pub waits: Vec<PollWait>,
}

/// What `accept` hands back: the new socket, the peer it is connected to,
/// and the address listened on, with its length, when asked for.
pub struct Accepted {
    pub sock: usize,
    pub client: usize,
    pub addr: Option<(SockAddrUn, u32)>,
}

impl UnixSocket {
    /// The ring is well formed, and has no slots or the 16384 a connection
    /// gives it.
    pub open spec fn wf(&self) -> bool {
        self.buffer.wf() && (self.buffer.buffer.capacity() == 0 || self.buffer.buffer.capacity() == 16384)
    }

    pub open spec fn is_connected_to(&self) -> Option<usize> {
        match self.state {
            UnixState::Connected(t) => Some(t),
            _ => None,
        }
    }
}

impl UnixSockets {
    /// Every socket is well formed, and every peer and waiting peer it names
    /// is a socket of the table.
    pub open spec fn wf(&self) -> bool {
        forall|i: int|
            0 <= i < self.socks@.len() ==> {
                &&& (#[trigger] self.socks@[i]).wf()
                &&& match self.socks@[i].state {
                    UnixState::Connected(t) => t < self.socks@.len(),
                    UnixState::Listening(q) => forall|j: int|
                        0 <= j < q.queue@.len() ==> #[trigger] q.queue@[j] < self.socks@.len(),
                    _ => true,
                }
            }
    }

    /// An empty table.
    pub fn new() -> (t: UnixSockets)
        ensures
            t.wf(),
            t.socks@.len() == 0,
    {
        UnixSockets { socks: Vec::new() }
    }

    /// Adds a disconnected socket with a ring of no slots and no readers or
    /// writers; returns its index.
    pub fn new_unbound(&mut self) -> (id: usize)
        requires
            old(self).wf(),
        ensures
            final(self).wf(),
            id == old(self).socks@.len(),
            final(self).socks@.len() == id + 1,
            final(self).socks@.take(id as int) == old(self).socks@,
            final(self).socks@[id as int].state is Disconnected,
            final(self).socks@[id as int].readers == 0 && final(self).socks@[id as int].writers == 0,
            final(self).socks@[id as int].buffer.buffer.capacity() == 0,
            !final(self).socks@[id as int].buffer.has_readers && !final(self).socks@[id as int].buffer.has_writers,
            !final(self).socks@[id as int].buffer.shutting_down,
    {
        let id = self.socks.len();
        self.socks.push(
            UnixSocket {
                state: UnixState::Disconnected,
                buffer: BufferQueue::new_empty(false, false),
                readers: 0,
                writers: 0,
            },
        );
        proof {
            assert(self.socks@.take(id as int) =~= old(self).socks@);
            assert forall|i: int| 0 <= i < self.socks@.len() implies (#[trigger] self.socks@[i]).wf() && match self.socks@[i].state {
                UnixState::Connected(t) => t < self.socks@.len(),
                UnixState::Listening(q) => forall|j: int|
                    0 <= j < q.queue@.len() ==> #[trigger] q.queue@[j] < self.socks@.len(),
                _ => true,
            } by {
                if i < id {
                    assert(self.socks@[i] == old(self).socks@[i]);
                }
            }
        }
        id
    }

    /// Whether the socket is connected.
    pub fn is_connected(&self, id: usize) -> (r: bool)
        requires
            id < self.socks@.len(),
        ensures
            r == self.socks@[id as int].state is Connected,
    {
        match self.socks[id].state {
            UnixState::Connected(_) => true,
            _ => false,
        }
    }

    /// Whether the socket listens.
    pub fn is_listening(&self, id: usize) -> (r: bool)
        requires
            id < self.socks@.len(),
        ensures
            r == self.socks@[id as int].state is Listening,
    {
        match self.socks[id].state {
            UnixState::Listening(_) => true,
            _ => false,
        }
    }

    /// Whether the socket is disconnected.
    pub fn is_disconnected(&self, id: usize) -> (r: bool)
        requires
            id < self.socks@.len(),
        ensures
            r == self.socks@[id as int].state is Disconnected,
    {
        match self.socks[id].state {
            UnixState::Disconnected => true,
            _ => false,
        }
    }

    /// Whether the socket is bound.
    pub fn is_bound(&self, id: usize) -> (r: bool)
        requires
            id < self.socks@.len(),
        ensures
            r == self.socks@[id as int].state is Bound,
    {
        match self.socks[id].state {
            UnixState::Bound(_) => true,
            _ => false,
        }
    }

    /// Whether anyone writes to the socket.
    pub fn has_writers(&self, id: usize) -> (r: bool)
        requires
            id < self.socks@.len(),
        ensures
            r == (self.socks@[id as int].writers > 0),
    {
        self.socks[id].writers > 0
    }

    /// Whether anyone reads from the socket.
    pub fn has_readers(&self, id: usize) -> (r: bool)
        requires
            id < self.socks@.len(),
        ensures
            r == (self.socks@[id as int].readers > 0),
    {
        self.socks[id].readers > 0
    }
}

impl UnixSockets {
    /// One more end reads from the socket; the first one tells its ring
    /// that someone reads (waking the writers).
    pub fn inc_readers(&mut self, id: usize) -> (r: (usize, Wake))
        requires
            old(self).wf(),
            id < old(self).socks@.len(),
            old(self).socks@[id as int].readers < usize::MAX,
        ensures
            final(self).wf(),
            ({
                let o = old(self).socks@[id as int];
                let n = o.readers + 1;
                &&& r.0 == n
                &&& r.1 == if n == 1 { Wake::AllWriters } else { Wake::Nobody }
                &&& final(self).socks@ == old(self).socks@.update(
                    id as int,
                    UnixSocket {
                        readers: n as usize,
                        buffer: BufferQueue { has_readers: if n == 1 { true } else { o.buffer.has_readers }, ..o.buffer },
                        ..o
                    },
                )
            }),
    {
        let n = self.socks[id].readers + 1;
        self.socks[id].readers = n;
        let w = if n == 1 {
            self.socks[id].buffer.set_has_readers(true)
        } else {
            Wake::Nobody
        };
        proof {
            lemma_update_keeps_wf(*old(self), *self, id as int);
        }
        (n, w)
    }

    /// One more end writes to the socket; the first one tells its ring that
    /// someone writes (waking the readers).
    pub fn inc_writers(&mut self, id: usize) -> (r: (usize, Wake))
        requires
            old(self).wf(),
            id < old(self).socks@.len(),
            old(self).socks@[id as int].writers < usize::MAX,
        ensures
            final(self).wf(),
            ({
                let o = old(self).socks@[id as int];
                let n = o.writers + 1;
                &&& r.0 == n
                &&& r.1 == if n == 1 { Wake::AllReaders } else { Wake::Nobody }
                &&& final(self).socks@ == old(self).socks@.update(
                    id as int,
                    UnixSocket {
                        writers: n as usize,
                        buffer: BufferQueue { has_writers: if n == 1 { true } else { o.buffer.has_writers }, ..o.buffer },
                        ..o
                    },
                )
            }),
    {
        let n = self.socks[id].writers + 1;
        self.socks[id].writers = n;
        let w = if n == 1 {
            self.socks[id].buffer.set_has_writers(true)
        } else {
            Wake::Nobody
        };
        proof {
            lemma_update_keeps_wf(*old(self), *self, id as int);
        }
        (n, w)
    }

    /// One end less reads from the socket; after the last one its ring
    /// hears that nobody reads (its writers get SIGPIPE).
    pub fn dec_readers(&mut self, id: usize) -> (r: (usize, Wake))
        requires
            old(self).wf(),
            id < old(self).socks@.len(),
            old(self).socks@[id as int].readers > 0,
        ensures
            final(self).wf(),
            ({
                let o = old(self).socks@[id as int];
                let n = o.readers - 1;
                &&& r.0 == n
                &&& r.1 == if n == 0 { Wake::PipeWriters } else { Wake::Nobody }
                &&& final(self).socks@ == old(self).socks@.update(
                    id as int,
                    UnixSocket {
                        readers: n as usize,
                        buffer: BufferQueue { has_readers: if n == 0 { false } else { o.buffer.has_readers }, ..o.buffer },
                        ..o
                    },
                )
            }),
    {
        let n = self.socks[id].readers - 1;
        self.socks[id].readers = n;
        let w = if n == 0 {
            self.socks[id].buffer.set_has_readers(false)
        } else {
            Wake::Nobody
        };
        proof {
            lemma_update_keeps_wf(*old(self), *self, id as int);
        }
        (n, w)
    }

    /// One end less writes to the socket; after the last one its ring hears
    /// that nobody writes (waking the readers).
    pub fn dec_writers(&mut self, id: usize) -> (r: (usize, Wake))
        requires
            old(self).wf(),
            id < old(self).socks@.len(),
            old(self).socks@[id as int].writers > 0,
        ensures
            final(self).wf(),
            ({
                let o = old(self).socks@[id as int];
                let n = o.writers - 1;
                &&& r.0 == n
                &&& r.1 == if n == 0 { Wake::AllReaders } else { Wake::Nobody }
                &&& final(self).socks@ == old(self).socks@.update(
                    id as int,
                    UnixSocket {
                        writers: n as usize,
                        buffer: BufferQueue { has_writers: if n == 0 { false } else { o.buffer.has_writers }, ..o.buffer },
                        ..o
                    },
                )
            }),
    {
        let n = self.socks[id].writers - 1;
        self.socks[id].writers = n;
        let w = if n == 0 {
            self.socks[id].buffer.set_has_writers(false)
        } else {
            Wake::Nobody
        };
        proof {
            lemma_update_keeps_wf(*old(self), *self, id as int);
        }
        (n, w)
    }
}

/// Changing one socket keeps the table well formed when the socket stays
/// well formed and names only sockets of the table.
proof fn lemma_update_keeps_wf(o: UnixSockets, n: UnixSockets, id: int)
    requires
        o.wf(),
        0 <= id < o.socks@.len(),
        n.socks@.len() == o.socks@.len(),
        forall|i: int| 0 <= i < o.socks@.len() && i != id ==> n.socks@[i] == o.socks@[i],
        n.socks@[id].wf(),
        match n.socks@[id].state {
            UnixState::Connected(t) => t < n.socks@.len(),
            UnixState::Listening(q) => forall|j: int| 0 <= j < q.queue@.len() ==> #[trigger] q.queue@[j] < n.socks@.len(),
            _ => true,
        },
    ensures
        n.wf(),
{
    assert forall|i: int| 0 <= i < n.socks@.len() implies (#[trigger] n.socks@[i]).wf() && match n.socks@[i].state {
        UnixState::Connected(t) => t < n.socks@.len(),
        UnixState::Listening(q) => forall|j: int| 0 <= j < q.queue@.len() ==> #[trigger] q.queue@[j] < n.socks@.len(),
        _ => true,
    } by {
        if i != id {
            assert(n.socks@[i] == o.socks@[i]);
            assert(o.socks@[i].wf());
        }
    }
}

/// The socket `id` of `n` is `o`'s with the state `st`.
pub open spec fn with_state(o: UnixSockets, n: UnixSockets, id: int, st: UnixState) -> bool {
    n.socks@ == o.socks@.update(id, UnixSocket { state: st, ..o.socks@[id] })
}

impl UnixSockets {
    /// Takes the state of `id` out, leaving it disconnected.
    fn take_state(&mut self, id: usize) -> (st: UnixState)
        requires
            id < old(self).socks@.len(),
        ensures
            st == old(self).socks@[id as int].state,
            final(self).socks@ == old(self).socks@.update(
                id as int,
                UnixSocket { state: UnixState::Disconnected, ..old(self).socks@[id as int] },
            ),
    {
        let mut st = UnixState::Disconnected;
        std::mem::swap(&mut st, &mut self.socks[id].state);
        st
    }

    /// Listens on a bound socket, at its address; any other is refused with
    /// `EINVAL`.
    pub fn listen(&mut self, id: usize, _backlog: i32) -> (r: Result<usize, SyscallError>)
        requires
            old(self).wf(),
            id < old(self).socks@.len(),
        ensures
            final(self).wf(),
            match old(self).socks@[id as int].state {
                UnixState::Bound(a) => {
                    &&& r == Ok::<usize, SyscallError>(0)
                    &&& final(self).socks@.len() == old(self).socks@.len()
                    &&& forall|i: int| 0 <= i < old(self).socks@.len() && i != id ==> final(self).socks@[i] == old(self).socks@[i]
                    &&& final(self).socks@[id as int].readers == old(self).socks@[id as int].readers
                    &&& final(self).socks@[id as int].writers == old(self).socks@[id as int].writers
                    &&& final(self).socks@[id as int].buffer == old(self).socks@[id as int].buffer
                    &&& (final(self).socks@[id as int].state matches UnixState::Listening(q) && q.queue@.len() == 0 && q.addr == a)
                },
                _ => r == Err::<usize, SyscallError>(SyscallError::EINVAL) && final(self).socks@ == old(self).socks@,
            },
    {
        let st = self.take_state(id);
        match st {
            UnixState::Bound(addr) => {
                self.socks[id].state = UnixState::Listening(ConnectionQueue { queue: Vec::new(), addr });
                proof {
                    lemma_update_keeps_wf(*old(self), *self, id as int);
                }
                Ok(0)
            },
            _ => {
                self.socks[id].state = st;
                assert(self.socks@ =~= old(self).socks@);
                Err(SyscallError::EINVAL)
            },
        }
    }

    /// Binds a disconnected socket to `addr`; any other is refused with
    /// `ENOTSUP`.
    pub fn bind(&mut self, id: usize, addr: SockAddrUn) -> (r: Result<usize, SyscallError>)
        requires
            old(self).wf(),
            id < old(self).socks@.len(),
        ensures
            final(self).wf(),
            old(self).socks@[id as int].state is Disconnected ==> r == Ok::<usize, SyscallError>(0) && with_state(
                *old(self),
                *final(self),
                id as int,
                UnixState::Bound(addr),
            ),
            !(old(self).socks@[id as int].state is Disconnected) ==> r == Err::<usize, SyscallError>(SyscallError::ENOTSUP)
                && final(self).socks@ == old(self).socks@,
    {
        if !self.is_disconnected(id) {
            return Err(SyscallError::ENOTSUP);
        }
        self.socks[id].state = UnixState::Bound(addr);
        proof {
            lemma_update_keeps_wf(*old(self), *self, id as int);
        }
        Ok(0)
    }

    /// Asks the listening socket `target` for a connection from `id`: `id`
    /// joins its queue (the caller then wakes the listener and waits until
    /// `id` is connected); a socket that does not listen refuses with
    /// `ECONNREFUSED`.
    pub fn connect(&mut self, id: usize, target: usize) -> (r: Result<usize, SyscallError>)
        requires
            old(self).wf(),
            id < old(self).socks@.len(),
            target < old(self).socks@.len(),
        ensures
            final(self).wf(),
            match old(self).socks@[target as int].state {
                UnixState::Listening(q) => {
                    &&& r == Ok::<usize, SyscallError>(0)
                    &&& final(self).socks@.len() == old(self).socks@.len()
                    &&& forall|i: int| 0 <= i < old(self).socks@.len() && i != target ==> final(self).socks@[i] == old(self).socks@[i]
                    &&& final(self).socks@[target as int].readers == old(self).socks@[target as int].readers
                    &&& final(self).socks@[target as int].writers == old(self).socks@[target as int].writers
                    &&& final(self).socks@[target as int].buffer == old(self).socks@[target as int].buffer
                    &&& (final(self).socks@[target as int].state matches UnixState::Listening(q2)
                        && q2.queue@ == q.queue@.push(id) && q2.addr == q.addr)
                },
                _ => r == Err::<usize, SyscallError>(SyscallError::ECONNREFUSED) && final(self).socks@ == old(self).socks@,
            },
    {
        let st = self.take_state(target);
        match st {
            UnixState::Listening(q) => {
                let mut q = q;
                let ghost q0 = q.queue@;
                q.queue.push(id);
                self.socks[target].state = UnixState::Listening(q);
                proof {
                    lemma_update_keeps_wf(*old(self), *self, target as int);
                }
                Ok(0)
            },
            _ => {
                self.socks[target].state = st;
                assert(self.socks@ =~= old(self).socks@);
                Err(SyscallError::ECONNREFUSED)
            },
        }
    }
}

/// The address handed back by `accept` for a buffer of `addr_len` bytes:
/// the listened address when it fits.
pub open spec fn accepted_addr(addr: SockAddrUn, addr_len: Option<u32>) -> Option<(SockAddrUn, u32)> {
    match addr_len {
        Some(l) => if l >= SOCKADDR_UN_SIZE {
            Some((addr, SOCKADDR_UN_SIZE))
        } else {
            None
        },
        None => None,
    }
}

/// The peer that came last to the listening socket `s`, if any waits.
pub open spec fn last_waiting(s: UnixSocket) -> Option<usize> {
    match s.state {
        UnixState::Listening(q) => if q.queue@.len() > 0 {
            Some(q.queue@.last())
        } else {
            None
        },
        _ => None,
    }
}

/// A socket that `accept` connected: to `peer`, with a ring of 16384 slots
/// at the positions it had, and one more reader and writer.
pub open spec fn joined(o: UnixSocket, n: UnixSocket, peer: usize) -> bool {
    &&& (n.state matches UnixState::Connected(p) && p == peer)
    &&& n.readers == o.readers + 1
    &&& n.writers == o.writers + 1
    &&& n.buffer.buffer.capacity() == 16384
    &&& !n.buffer.buffer.is_full()
    &&& n.buffer.buffer.rpos() == o.buffer.buffer.rpos() && n.buffer.buffer.wpos() == o.buffer.buffer.wpos()
    &&& n.buffer.shutting_down == o.buffer.shutting_down
    &&& n.buffer.has_readers == (o.buffer.has_readers || o.readers == 0)
    &&& n.buffer.has_writers == (o.buffer.has_writers || o.writers == 0)
}

/// The outcome of a successful `accept` on the listening socket `id`, with
/// the waiting peers `q`.
pub open spec fn accept_outcome(
    o: UnixSockets,
    f: UnixSockets,
    id: int,
    q: ConnectionQueue,
    addr_len: Option<u32>,
    r: Step<Result<Accepted, SyscallError>>,
) -> bool {
    let c = q.queue@.last();
    let n = o.socks@.len();
    &&& f.socks@.len() == n + 1
    &&& forall|i: int| 0 <= i < n && i != id && i != c ==> f.socks@[i] == o.socks@[i]
    &&& (f.socks@[id].state matches UnixState::Listening(q2) && q2.queue@ == q.queue@.drop_last() && q2.addr == q.addr)
    &&& f.socks@[id].readers == o.socks@[id].readers && f.socks@[id].writers == o.socks@[id].writers
        && f.socks@[id].buffer == o.socks@[id].buffer
    &&& joined(UnixSocket {
        state: UnixState::Disconnected,
        buffer: BufferQueue { buffer: f.socks@[n as int].buffer.buffer, shutting_down: false, has_readers: false, has_writers: false },
        readers: 0,
        writers: 0,
    }, f.socks@[n as int], c)
    &&& f.socks@[n as int].buffer.buffer.contents() == Seq::<u8>::empty()
    &&& joined(o.socks@[c as int], f.socks@[c as int], n as usize)
    &&& r == Step::Done(Ok::<Accepted, SyscallError>(Accepted { sock: n as usize, client: c, addr: accepted_addr(q.addr, addr_len) }))
}

impl UnixSockets {
    /// Accepts a connection on the listening socket `id`: waits while no
    /// peer waits; then takes the peer that came last, connects it to a new
    /// socket (both rings get 16384 slots, both ends one more reader and
    /// writer) and returns the new socket, the peer (to be woken) and the
    /// listened address when `addr_len` has room for it. A socket that does
    /// not listen answers `EADDRINUSE`.
    pub fn accept(&mut self, id: usize, addr_len: Option<u32>) -> (r: Step<Result<Accepted, SyscallError>>)
        requires
            old(self).wf(),
            id < old(self).socks@.len(),
            old(self).socks@.len() < usize::MAX,
            last_waiting(old(self).socks@[id as int]) matches Some(c) ==> c != id && old(self).socks@[c as int].readers
                < usize::MAX && old(self).socks@[c as int].writers < usize::MAX,
        ensures
            final(self).wf(),
            match old(self).socks@[id as int].state {
                UnixState::Listening(q) => if q.queue@.len() == 0 {
                    r == Step::<Result<Accepted, SyscallError>>::Wait && final(self).socks@ == old(self).socks@
                } else {
                    accept_outcome(*old(self), *final(self), id as int, q, addr_len, r)
                },
                _ => r == Step::Done(Err::<Accepted, SyscallError>(SyscallError::EADDRINUSE)) && final(self).socks@ == old(self).socks@,
            },
    {
        if !self.is_listening(id) {
            return Step::Done(Err(SyscallError::EADDRINUSE));
        }
        let st = self.take_state(id);
        match st {
            UnixState::Listening(q) => {
                if q.queue.len() == 0 {
                    self.socks[id].state = UnixState::Listening(q);
                    assert(self.socks@ =~= old(self).socks@);
                    return Step::Wait;
                }
                let ghost q0 = q;
                let mut q = q;
                let client = q.queue.pop().unwrap();
                assert(client == q0.queue@.last());
                assert(last_waiting(old(self).socks@[id as int]) == Some(client));
                assert(client != id);
                let addr = q.addr;
                assert(q0.queue@[q0.queue@.len() - 1] < old(self).socks@.len());
                self.socks[id].state = UnixState::Listening(q);
                proof {
                    assert forall|j: int| 0 <= j < q.queue@.len() implies #[trigger] q.queue@[j] < self.socks@.len() by {
                        assert(q.queue@[j] == q0.queue@[j]);
                    }
                    lemma_update_keeps_wf(*old(self), *self, id as int);
                }
                let ghost s1 = *self;
                assert(s1.socks@[client as int].readers == old(self).socks@[client as int].readers);
                assert(s1.socks@[client as int].writers == old(self).socks@[client as int].writers);
                let new = self.new_unbound();
                let ghost s2 = *self;
                assert(s2.socks@[client as int] == s2.socks@.take(new as int)[client as int]);
                assert(s2.socks@[client as int] == s1.socks@[client as int]);
                self.socks[new].buffer.init_size(16384);
                self.socks[client].buffer.init_size(16384);
                self.socks[new].state = UnixState::Connected(client);
                self.socks[client].state = UnixState::Connected(new);
                proof {
                    assert forall|i: int| 0 <= i < self.socks@.len() implies (#[trigger] self.socks@[i]).wf() && match self.socks@[i].state {
                        UnixState::Connected(t) => t < self.socks@.len(),
                        UnixState::Listening(q) => forall|j: int|
                            0 <= j < q.queue@.len() ==> #[trigger] q.queue@[j] < self.socks@.len(),
                        _ => true,
                    } by {
                        if i != new && i != client {
                            assert(self.socks@[i] == s2.socks@[i]);
                            assert(s2.socks@[i].wf());
                        }
                    }
                }
                assert(self.socks@[client as int].readers == old(self).socks@[client as int].readers);
                assert(self.socks@[client as int].writers == old(self).socks@[client as int].writers);
                let ghost s3 = *self;
                let _ = self.inc_readers(new);
                let _ = self.inc_writers(new);
                let _ = self.inc_readers(client);
                let _ = self.inc_writers(client);
                proof {
                    let o = *old(self);
                    let f = *self;
                    let n = o.socks@.len();
                    assert(f.socks@.len() == n + 1);
                    assert forall|i: int| 0 <= i < n && i != id && i != client implies f.socks@[i] == o.socks@[i] by {
                        assert(s2.socks@[i] == s2.socks@.take(new as int)[i]);
                    }
                    assert(f.socks@[id as int] == s1.socks@[id as int]) by {
                        assert(s2.socks@[id as int] == s2.socks@.take(new as int)[id as int]);
                    }
                    assert(f.socks@[client as int].buffer.buffer == s3.socks@[client as int].buffer.buffer);
                    assert(f.socks@[new as int].buffer.buffer == s3.socks@[new as int].buffer.buffer);
                    assert(joined(o.socks@[client as int], f.socks@[client as int], new));
                    assert(f.socks@[new as int].buffer.buffer.contents() =~= Seq::<u8>::empty());
                    assert(q.queue@ =~= q0.queue@.drop_last());
                    assert(f.socks@[id as int].state matches UnixState::Listening(q2) && q2.queue@ == q0.queue@.drop_last() && q2.addr == q0.addr);
                    assert(f.socks@[id as int].readers == o.socks@[id as int].readers);
                    assert(f.socks@[id as int].buffer == o.socks@[id as int].buffer);
                    assert(!f.socks@[n as int].buffer.shutting_down);
                    assert(joined(UnixSocket {
                        state: UnixState::Disconnected,
                        buffer: BufferQueue { buffer: f.socks@[n as int].buffer.buffer, shutting_down: false, has_readers: false, has_writers: false },
                        readers: 0,
                        writers: 0,
                    }, f.socks@[n as int], client));
                }
                let a = match addr_len {
                    Some(l) => if l >= SOCKADDR_UN_SIZE {
                        Some((addr, SOCKADDR_UN_SIZE))
                    } else {
                        None
                    },
                    None => None,
                };
                Step::Done(Ok(Accepted { sock: new, client, addr: a }))
            },
            _ => {
                self.socks[id].state = st;
                assert(self.socks@ =~= old(self).socks@);
                Step::Done(Err(SyscallError::EADDRINUSE))
            },
        }
    }
}

/// The poll bits for the answers to each question.
pub open spec fn poll_bits(read: bool, write: bool, err: bool, hup: bool) -> u64 {
    (if read { POLL_READ } else { 0u64 }) | (if write { POLL_WRITE } else { 0u64 }) | (if err { POLL_ERR } else { 0u64 }) | (
    if hup { POLL_HUP } else { 0u64 })
}

/// The poll bits for the answers to each question.
pub fn make_poll_bits(read: bool, write: bool, err: bool, hup: bool) -> (r: u64)
    ensures
        r == poll_bits(read, write, err, hup),
{
    (if read { POLL_READ } else { 0u64 }) | (if write { POLL_WRITE } else { 0u64 }) | (if err { POLL_ERR } else { 0u64 }) | (
    if hup { POLL_HUP } else { 0u64 })
}

/// Whether a listening socket has a peer waiting.
pub open spec fn has_waiting(s: UnixSocket) -> bool {
    match s.state {
        UnixState::Listening(q) => q.queue@.len() > 0,
        _ => false,
    }
}

impl UnixSockets {
    /// Reads from the socket's ring (see `BufferQueue::read_data_from`).
    pub fn read_at(&mut self, id: usize, buf: &mut [u8], flags: u64) -> (r: (Step<Result<usize, FsError>>, Wake))
        requires
            old(self).wf(),
            id < old(self).socks@.len(),
            old(self).socks@[id as int].buffer.buffer.capacity() > 0 || old(buf)@.len() == 0,
        ensures
            final(self).wf(),
            final(self).socks@ == old(self).socks@.update(
                id as int,
                UnixSocket { buffer: final(self).socks@[id as int].buffer, ..old(self).socks@[id as int] },
            ),
            read_outcome(
                old(self).socks@[id as int].buffer,
                final(self).socks@[id as int].buffer,
                0,
                false,
                flags,
                old(buf)@,
                final(buf)@,
                r,
            ),
    {
        let r = self.socks[id].buffer.read_data_from(0, buf, false, flags);
        proof {
            lemma_update_keeps_wf(*old(self), *self, id as int);
        }
        r
    }

    /// Writes into the ring of the peer of a connected socket (see
    /// `BufferQueue::append_data_flags`); any other socket answers
    /// `NotSupported`.
    pub fn write_at(&mut self, id: usize, buf: &[u8], flags: u64) -> (r: (Step<Result<usize, FsError>>, Wake))
        requires
            old(self).wf(),
            id < old(self).socks@.len(),
        ensures
            final(self).wf(),
            match old(self).socks@[id as int].state {
                UnixState::Connected(t) => {
                    &&& final(self).socks@ == old(self).socks@.update(
                        t as int,
                        UnixSocket { buffer: final(self).socks@[t as int].buffer, ..old(self).socks@[t as int] },
                    )
                    &&& append_outcome(old(self).socks@[t as int].buffer, final(self).socks@[t as int].buffer, buf@, flags, r)
                },
                _ => r == (Step::Done(Err::<usize, FsError>(FsError::NotSupported)), Wake::Nobody) && final(self).socks@
                    == old(self).socks@,
            },
    {
        let target = match self.socks[id].state {
            UnixState::Connected(t) => t,
            _ => {
                return (Step::Done(Err(FsError::NotSupported)), Wake::Nobody);
            },
        };
        let r = self.socks[target].buffer.append_data_flags(buf, flags);
        proof {
            lemma_update_keeps_wf(*old(self), *self, target as int);
        }
        r
    }

    /// Answers a poll for the events in `flags` (reading, writing). Reading:
    /// a listening socket is readable when a peer waits; another when its
    /// ring has something for a reader, and hung up when nobody writes to
    /// it. Writing (only for a connected socket, else `NotSupported`): the
    /// peer's ring has room, and is in error when nobody reads it. With
    /// `table`, the queues to wait on are listed too.
    pub fn poll(&self, id: usize, flags: u64, table: bool) -> (r: Result<PollAnswer, FsError>)
        requires
            self.wf(),
            id < self.socks@.len(),
        ensures
            ({
                let s = self.socks@[id as int];
                let want_r = flags & POLL_READ != 0;
                let want_w = flags & POLL_WRITE != 0;
                let lst = s.state is Listening;
                if want_w && !(s.state is Connected) {
                    r == Err::<PollAnswer, FsError>(FsError::NotSupported)
                } else {
                    let t = s.is_connected_to()->0;
                    let tb = self.socks@[t as int].buffer;
                    let rd = want_r && if lst { has_waiting(s) } else { s.buffer.spec_has_data() };
                    let hu = want_r && !lst && s.writers == 0;
                    let wr = want_w && tb.buffer.capacity() - tb.buffer.count() > 0;
                    let er = want_w && !tb.has_readers;
                    let rw: Seq<PollWait> = if want_r {
                        seq![if lst { PollWait::Connections(id) } else { PollWait::BufferReaders(id) }]
                    } else {
                        Seq::empty()
                    };
                    let ww: Seq<PollWait> = if want_w { seq![PollWait::BufferWriters(t)] } else { Seq::empty() };
                    &&& r is Ok
                    &&& r->Ok_0.events == poll_bits(rd, wr, er, hu)
                    &&& r->Ok_0.waits@ == if table { rw + ww } else { Seq::empty() }
                }
            }),
    {
        let want_r = flags & POLL_READ != 0;
        let want_w = flags & POLL_WRITE != 0;
        let target: usize = if want_w {
            match self.socks[id].state {
                UnixState::Connected(t) => t,
                _ => {
                    return Err(FsError::NotSupported);
                },
            }
        } else {
            0
        };
        let mut rd = false;
        let mut hu = false;
        let lst = self.is_listening(id);
        if want_r {
            if lst {
                rd = match &self.socks[id].state {
                    UnixState::Listening(q) => q.queue.len() > 0,
                    _ => false,
                };
            } else {
                rd = self.socks[id].buffer.has_data();
                hu = !self.has_writers(id);
            }
        }
        let mut wr = false;
        let mut er = false;
        if want_w {
            wr = self.socks[target].buffer.buffer.available_size() > 0;
            er = !self.socks[target].buffer.has_readers;
        }
        let events = make_poll_bits(rd, wr, er, hu);
        let mut waits: Vec<PollWait> = Vec::new();
        if table {
            if want_r {
                if lst {
                    waits.push(PollWait::Connections(id));
                } else {
                    waits.push(PollWait::BufferReaders(id));
                }
            }
            if want_w {
                waits.push(PollWait::BufferWriters(target));
            }
        }
        proof {
            let rw: Seq<PollWait> = if want_r {
                seq![if lst { PollWait::Connections(id) } else { PollWait::BufferReaders(id) }]
            } else {
                Seq::empty()
            };
            let ww: Seq<PollWait> = if want_w { seq![PollWait::BufferWriters(target)] } else { Seq::empty() };
            if table {
                assert(waits@ =~= rw + ww);
            } else {
                assert(waits@ =~= Seq::<PollWait>::empty());
            }
        }
        Ok(PollAnswer { events, waits })
    }
}

impl UnixSockets {
    /// Two sockets connected to each other, each with a ring of 16384 slots
    /// and one reader and one writer.
    pub fn new_connected(&mut self) -> (r: (usize, usize))
        requires
            old(self).wf(),
            old(self).socks@.len() + 2 <= usize::MAX,
        ensures
            final(self).wf(),
            r.0 == old(self).socks@.len() && r.1 == old(self).socks@.len() + 1,
            final(self).socks@.len() == old(self).socks@.len() + 2,
            final(self).socks@.take(r.0 as int) == old(self).socks@,
            ({
                let a = final(self).socks@[r.0 as int];
                let b = final(self).socks@[r.1 as int];
                &&& (a.state matches UnixState::Connected(p) && p == r.1)
                &&& (b.state matches UnixState::Connected(p) && p == r.0)
                &&& a.readers == 1 && a.writers == 1 && b.readers == 1 && b.writers == 1
                &&& a.buffer.buffer.capacity() == 16384 && b.buffer.buffer.capacity() == 16384
                &&& a.buffer.buffer.contents() == Seq::<u8>::empty() && b.buffer.buffer.contents() == Seq::<u8>::empty()
                &&& a.buffer.has_readers && a.buffer.has_writers && b.buffer.has_readers && b.buffer.has_writers
                &&& !a.buffer.shutting_down && !b.buffer.shutting_down
            }),
    {
        let s1 = self.new_unbound();
        let s2 = self.new_unbound();
        let ghost t2 = *self;
        self.socks[s1].buffer.init_size(4096 * 4);
        self.socks[s2].buffer.init_size(4096 * 4);
        self.socks[s1].state = UnixState::Connected(s2);
        self.socks[s2].state = UnixState::Connected(s1);
        proof {
            assert forall|i: int| 0 <= i < self.socks@.len() implies (#[trigger] self.socks@[i]).wf() && match self.socks@[i].state {
                UnixState::Connected(t) => t < self.socks@.len(),
                UnixState::Listening(q) => forall|j: int|
                    0 <= j < q.queue@.len() ==> #[trigger] q.queue@[j] < self.socks@.len(),
                _ => true,
            } by {
                if i != s1 && i != s2 {
                    assert(self.socks@[i] == t2.socks@[i]);
                    assert(t2.socks@[i].wf());
                }
            }
        }
        let ghost t3 = *self;
        let _ = self.inc_readers(s1);
        let _ = self.inc_writers(s1);
        let _ = self.inc_readers(s2);
        let _ = self.inc_writers(s2);
        proof {
            assert forall|i: int| 0 <= i < s1 implies self.socks@[i] == old(self).socks@[i] by {
                assert(t2.socks@[i] == t2.socks@.take(s2 as int)[i]);
            }
            assert(self.socks@.take(s1 as int) =~= old(self).socks@);
            assert(self.socks@[s1 as int].buffer.buffer == t3.socks@[s1 as int].buffer.buffer);
            assert(self.socks@[s2 as int].buffer.buffer == t3.socks@[s2 as int].buffer.buffer);
            assert(self.socks@[s1 as int].buffer.buffer.contents() =~= Seq::<u8>::empty());
            assert(self.socks@[s2 as int].buffer.buffer.contents() =~= Seq::<u8>::empty());
        }
        (s1, s2)
    }

    /// Closes an end of a connected socket: reading ends drop a reader of
    /// the socket, writing ends a writer of its peer. Other sockets are left
    /// as they are. Returns whom each change wakes.
    pub fn close(&mut self, id: usize, readable: bool, writable: bool) -> (r: (Wake, Wake))
        requires
            old(self).wf(),
            id < old(self).socks@.len(),
            old(self).socks@[id as int].state is Connected && readable ==> old(self).socks@[id as int].readers > 0,
            old(self).socks@[id as int].state is Connected && writable ==> old(self).socks@[
                old(self).socks@[id as int].is_connected_to()->0 as int].writers > 0,
        ensures
            final(self).wf(),
            !(old(self).socks@[id as int].state is Connected) ==> final(self).socks@ == old(self).socks@ && r == (Wake::Nobody, Wake::Nobody),
            old(self).socks@[id as int].state is Connected ==> ({
                let o = old(self).socks@;
                let t = o[id as int].is_connected_to()->0;
                let s1 = if readable {
                    o.update(id as int, UnixSocket {
                        readers: (o[id as int].readers - 1) as usize,
                        buffer: BufferQueue { has_readers: if o[id as int].readers == 1 { false } else { o[id as int].buffer.has_readers }, ..o[id as int].buffer },
                        ..o[id as int]
                    })
                } else {
                    o
                };
                let s2 = if writable {
                    s1.update(t as int, UnixSocket {
                        writers: (s1[t as int].writers - 1) as usize,
                        buffer: BufferQueue { has_writers: if s1[t as int].writers == 1 { false } else { s1[t as int].buffer.has_writers }, ..s1[t as int].buffer },
                        ..s1[t as int]
                    })
                } else {
                    s1
                };
                &&& final(self).socks@ == s2
                &&& r.0 == if readable && o[id as int].readers == 1 { Wake::PipeWriters } else { Wake::Nobody }
                &&& r.1 == if writable && s1[t as int].writers == 1 { Wake::AllReaders } else { Wake::Nobody }
            }),
    {
        let t = match self.socks[id].state {
            UnixState::Connected(t) => t,
            _ => {
                return (Wake::Nobody, Wake::Nobody);
            },
        };
        let mut w1 = Wake::Nobody;
        let mut w2 = Wake::Nobody;
        if readable {
            let (_, w) = self.dec_readers(id);
            w1 = w;
        }
        if writable {
            let (_, w) = self.dec_writers(t);
            w2 = w;
        }
        (w1, w2)
    }
}

/// `accept` on a listening socket whose latest request came from `id`
/// (as `connect(id, ..)` leaves it) answers with a new socket and `id`,
/// connected to each other.
pub proof fn lemma_accept_takes_latest_request(
    m: UnixSockets,
    f: UnixSockets,
    target: int,
    q: ConnectionQueue,
    id: usize,
    addr_len: Option<u32>,
    r: Step<Result<Accepted, SyscallError>>,
)
    requires
        q.queue@.len() > 0,
        q.queue@.last() == id,
        m.socks@.len() < usize::MAX,
        accept_outcome(m, f, target, q, addr_len, r),
    ensures
        r matches Step::Done(Ok(acc)) && acc.client == id && acc.sock == m.socks@.len()
            && f.socks@[acc.sock as int].state == UnixState::Connected(id)
            && f.socks@[id as int].state == UnixState::Connected(acc.sock),
{
}

} // verus!
