//! UDP sockets: the queue of received datagrams, the peer, sending and
//! receiving.
use vstd::prelude::*;
use crate::net::ip::Ip4;
use crate::net::udp::{create_packet, udp_frame};
use crate::net::util::{overwrite, write_bytes_at};
use crate::net::unix::{poll_bits, make_poll_bits, SyscallError};
use crate::utils::buffer::{FsError, Step};

verus! {

/// A received datagram: its source and its payload.
pub struct RecvPacket {
    pub src_port: u32,
    pub src_ip: Ip4,
    pub data: Vec<u8>,
}

impl RecvPacket {
    pub fn new(src_port: u32, src_ip: Ip4, data: Vec<u8>) -> (p: RecvPacket)
        ensures
            p.src_port == src_port && p.src_ip == src_ip && p.data@ == data@,
    {
        RecvPacket { src_port, src_ip, data }
    }

    pub fn src_port(&self) -> (r: u32)
        ensures
            r == self.src_port,
    {
        self.src_port
    }

    pub fn src_ip(&self) -> (r: Ip4)
        ensures
            r == self.src_ip,
    {
        self.src_ip
    }
}

/// A UDP socket: the datagrams received and not yet read (oldest first),
/// its port, and the peer it is connected to, if any.
pub struct Socket {
    pub buffer: Vec<RecvPacket>,
    pub src_port: u32,
    pub dst_port: Option<u32>,
    pub dst_ip: Option<Ip4>,
}

/// The size of a socket address in bytes.
pub const SOCKADDR_SIZE: u32 = 16;

/// Where a datagram goes: to `target` when given, otherwise to the peer
/// (port 0 and address 0.0.0.0 standing for none).
pub open spec fn send_dest(s: Socket, target: Option<(u32, Ip4)>) -> (u32, Ip4) {
    match target {
        Some(t) => t,
        None => (
            match s.dst_port { Some(p) => p, None => 0 },
            match s.dst_ip { Some(i) => i, None => Ip4 { v: [0u8, 0u8, 0u8, 0u8] } },
        ),
    }
}

impl Socket {
    /// A socket with no port, no peer and nothing received.
    pub fn new_unbound() -> (s: Socket)
        ensures
            s.buffer@.len() == 0 && s.src_port == 0 && s.dst_port is None && s.dst_ip is None,
    {
        Socket { buffer: Vec::new(), src_port: 0, dst_port: None, dst_ip: None }
    }

    pub fn set_dst_port(&mut self, port: u32)
        ensures
            final(self).dst_port == Some(port) && final(self).src_port == old(self).src_port
                && final(self).dst_ip == old(self).dst_ip && final(self).buffer@ == old(self).buffer@,
    {
        self.dst_port = Some(port);
    }

    pub fn dst_port(&self) -> (r: Option<u32>)
        ensures
            r == self.dst_port,
    {
        self.dst_port
    }

    pub fn set_src_port(&mut self, port: u32)
        ensures
            final(self).src_port == port && final(self).dst_port == old(self).dst_port
                && final(self).dst_ip == old(self).dst_ip && final(self).buffer@ == old(self).buffer@,
    {
        self.src_port = port;
    }

    pub fn src_port(&self) -> (r: u32)
        ensures
            r == self.src_port,
    {
        self.src_port
    }

    pub fn set_dst_ip(&mut self, ip: Ip4)
        ensures
            final(self).dst_ip == Some(ip) && final(self).dst_port == old(self).dst_port
                && final(self).src_port == old(self).src_port && final(self).buffer@ == old(self).buffer@,
    {
        self.dst_ip = Some(ip);
    }

    pub fn dst_ip(&self) -> (r: Option<Ip4>)
        ensures
            r == self.dst_ip,
    {
        self.dst_ip
    }

    /// The frame that sends `buf` from this socket (whose port the caller
    /// has registered when it was 0) to `target`, or to the peer: with no
    /// port or no address to send to, `NotSupported`. The caller sends it
    /// (see `udp::send_packet`). The whole of `buf` goes out.
    pub fn send(&self, buf: &[u8], target: Option<(u32, Ip4)>, own_ip: Ip4, own_mac: &[u8; 6]) -> (r: Result<(Vec<u8>, usize), FsError>)
        requires
            buf.len() + 42 <= usize::MAX,
        ensures
            ({
                let (p, ip) = send_dest(*self, target);
                if p == 0 || ip.v@ == seq![0u8, 0, 0, 0] {
                    r == Err::<(Vec<u8>, usize), FsError>(FsError::NotSupported)
                } else {
                    &&& r is Ok
                    &&& r->Ok_0.1 == buf.len()
                    &&& r->Ok_0.0@ == overwrite(
                        udp_frame(self.src_port as u16, p as u16, buf@.len(), ip, own_ip, own_mac@),
                        42,
                        buf@,
                    )
                }
            }),
    {
        let (dst_port, dst_ip) = match target {
            Some((port, ip)) => (port, ip),
            None => (
                match self.dst_port { Some(p) => p, None => 0 },
                match self.dst_ip { Some(i) => i, None => Ip4::empty() },
            ),
        };
        if dst_port == 0 || dst_ip.is_empty() {
            return Err(FsError::NotSupported);
        }
        let mut frame = create_packet(self.src_port as u16, dst_port as u16, buf.len(), dst_ip, own_ip, own_mac);
        write_bytes_at(&mut frame, 42, buf);
        Ok((frame, buf.len()))
    }

    /// A datagram for this socket: it joins the queue (the caller wakes the
    /// readers).
    pub fn process_packet(&mut self, src_port: u32, src_ip: Ip4, data: Vec<u8>)
        ensures
            final(self).buffer@.len() == old(self).buffer@.len() + 1,
            final(self).buffer@.take(old(self).buffer@.len() as int) == old(self).buffer@,
            final(self).buffer@.last().src_port == src_port && final(self).buffer@.last().src_ip == src_ip
                && final(self).buffer@.last().data@ == data@,
            final(self).src_port == old(self).src_port && final(self).dst_port == old(self).dst_port
                && final(self).dst_ip == old(self).dst_ip,
    {
        self.buffer.push(RecvPacket::new(src_port, src_ip, data));
        assert(self.buffer@.take(old(self).buffer@.len() as int) =~= old(self).buffer@);
    }

    /// Reads the oldest datagram into `buf` (what fits; the rest is lost);
    /// waits while none was received.
    pub fn read_at(&mut self, buf: &mut [u8]) -> (r: Step<usize>)
        ensures
            final(buf)@.len() == old(buf)@.len(),
            final(self).src_port == old(self).src_port && final(self).dst_port == old(self).dst_port
                && final(self).dst_ip == old(self).dst_ip,
            old(self).buffer@.len() == 0 ==> r == Step::<usize>::Wait && final(self).buffer@ == old(self).buffer@
                && final(buf)@ == old(buf)@,
            old(self).buffer@.len() > 0 ==> ({
                let d = old(self).buffer@[0].data@;
                let n = if old(buf)@.len() < d.len() { old(buf)@.len() as int } else { d.len() as int };
                &&& r == Step::Done(n as usize)
                &&& final(self).buffer@ == old(self).buffer@.drop_first()
                &&& final(buf)@ == d.take(n) + old(buf)@.skip(n)
            }),
    {
        if self.buffer.len() == 0 {
            return Step::Wait;
        }
        let packet = self.buffer.remove(0);
        assert(self.buffer@ =~= old(self).buffer@.drop_first());
        let size = if buf.len() < packet.data.len() {
            buf.len()
        } else {
            packet.data.len()
        };
        let mut i: usize = 0;
        while i < size
            invariant
                i <= size,
                size <= buf@.len() && size <= packet.data@.len(),
                buf@.len() == old(buf)@.len(),
                forall|j: int| 0 <= j < i ==> buf@[j] == packet.data@[j],
                forall|j: int| i <= j < buf@.len() ==> buf@[j] == old(buf)@[j],
            decreases size - i,
        {
            buf[i] = packet.data[i];
            i = i + 1;
        }
        assert(buf@ =~= packet.data@.take(size as int) + old(buf)@.skip(size as int));
        Step::Done(size)
    }

    /// Answers a poll for the events in `flags`: writable whenever asked;
    /// readable when a datagram waits. No events asked, no answer (and no
    /// waiting). Returns the events, and whether to wait on the queue.
    pub fn poll(&self, flags: u64, table: bool) -> (r: (u64, bool))
        ensures
            flags == 0 ==> r == (0u64, false),
            flags != 0 ==> r == (poll_bits(flags & 1 != 0 && self.buffer@.len() > 0, flags & 4 != 0, false, false), table),
    {
        if flags == 0 {
            return (0, false);
        }
        let events = make_poll_bits(flags & 1 != 0 && self.buffer.len() > 0, flags & 4 != 0, false, false);
        (events, table)
    }

    /// Binds to `port` (an address of the wrong size is refused with
    /// `EINVAL`); the caller then registers the socket.
    pub fn bind(&mut self, addrlen: u32, port: u16) -> (r: Result<usize, SyscallError>)
        ensures
            final(self).buffer@ == old(self).buffer@ && final(self).dst_port == old(self).dst_port
                && final(self).dst_ip == old(self).dst_ip,
            addrlen != SOCKADDR_SIZE ==> r == Err::<usize, SyscallError>(SyscallError::EINVAL) && final(self).src_port == old(self).src_port,
            addrlen == SOCKADDR_SIZE ==> r == Ok::<usize, SyscallError>(0) && final(self).src_port == port as u32,
    {
        if addrlen != SOCKADDR_SIZE {
            return Err(SyscallError::EINVAL);
        }
        self.set_src_port(port as u32);
        Ok(0)
    }

    /// Records the peer (an address of the wrong size is refused with
    /// `EINVAL`); the caller registers the socket when it has no port yet.
    pub fn connect(&mut self, addrlen: u32, port: u16, ip: Ip4) -> (r: Result<usize, SyscallError>)
        ensures
            final(self).buffer@ == old(self).buffer@ && final(self).src_port == old(self).src_port,
            addrlen != SOCKADDR_SIZE ==> r == Err::<usize, SyscallError>(SyscallError::EINVAL) && final(self).dst_port == old(self).dst_port
                && final(self).dst_ip == old(self).dst_ip,
            addrlen == SOCKADDR_SIZE ==> r == Ok::<usize, SyscallError>(0) && final(self).dst_port == Some(port as u32)
                && final(self).dst_ip == Some(ip),
    {
        if addrlen != SOCKADDR_SIZE {
            return Err(SyscallError::EINVAL);
        }
        self.set_dst_port(port as u32);
        self.set_dst_ip(ip);
        Ok(0)
    }

    /// Receives the oldest datagram into buffers of the lengths `lens`, in
    /// order, each filled as far as the datagram goes (see `piece_len`);
    /// waits while none was received. Returns the source, the pieces and the
    /// total.
    pub fn msg_recv(&mut self, lens: &Vec<usize>) -> (r: Step<(u32, Ip4, Vec<Vec<u8>>, usize)>)
        ensures
            final(self).src_port == old(self).src_port && final(self).dst_port == old(self).dst_port
                && final(self).dst_ip == old(self).dst_ip,
            old(self).buffer@.len() == 0 ==> r is Wait && final(self).buffer@ == old(self).buffer@,
            old(self).buffer@.len() > 0 ==> ({
                let p = old(self).buffer@[0];
                &&& r is Done
                &&& final(self).buffer@ == old(self).buffer@.drop_first()
                &&& r->Done_0.0 == p.src_port && r->Done_0.1 == p.src_ip
                &&& r->Done_0.2@.len() == lens@.len()
                &&& r->Done_0.3 == if p.data@.len() < sum_lens(lens@) { p.data@.len() as int } else { sum_lens(lens@) }
                &&& flatten_bytes(r->Done_0.2@) == p.data@.take(r->Done_0.3 as int)
                &&& forall|i: int| 0 <= i < lens@.len() ==> #[trigger] r->Done_0.2@[i]@.len() == piece_len(lens@, i, p.data@.len() as int)
            }),
    {
        if self.buffer.len() == 0 {
            return Step::Wait;
        }
        let packet = self.buffer.remove(0);
        assert(self.buffer@ =~= old(self).buffer@.drop_first());
        let mut pieces: Vec<Vec<u8>> = Vec::new();
        let mut offset: usize = 0;
        let mut i: usize = 0;
        assert(packet.data@.take(0) =~= Seq::<u8>::empty());
        while i < lens.len()
            invariant
                i <= lens@.len(),
                pieces@.len() == i,
                offset <= packet.data@.len(),
                offset == if packet.data@.len() < sum_lens(lens@.take(i as int)) {
                    packet.data@.len() as int
                } else {
                    sum_lens(lens@.take(i as int))
                },
                flatten_bytes(pieces@) == packet.data@.take(offset as int),
                forall|j: int| 0 <= j < i ==> #[trigger] pieces@[j]@.len() == piece_len(lens@, j, packet.data@.len() as int),
            decreases lens@.len() - i,
        {
            let room = packet.data.len() - offset;
            let size = if lens[i] < room {
                lens[i]
            } else {
                room
            };
            let mut piece: Vec<u8> = Vec::new();
            let mut k: usize = 0;
            while k < size
                invariant
                    k <= size,
                    offset + size <= packet.data@.len(),
                    packet.data@.len() == packet.data.len(),
                    piece@ == packet.data@.subrange(offset as int, offset + k),
                decreases size - k,
            {
                piece.push(packet.data[offset + k]);
                k = k + 1;
                assert(piece@ =~= packet.data@.subrange(offset as int, offset + k));
            }
            proof {
                assert(lens@.take(i + 1) =~= lens@.take(i as int).push(lens@[i as int]));
                lemma_sum_lens_push(lens@.take(i as int), lens@[i as int]);
                lemma_flatten_push(pieces@, piece);
                assert(packet.data@.take(offset as int) + piece@ =~= packet.data@.take(offset + size));
            }
            pieces.push(piece);
            offset = offset + size;
            i = i + 1;
        }
        assert(lens@.take(lens@.len() as int) =~= lens@);
        Step::Done((packet.src_port, packet.src_ip, pieces, offset))
    }
}

/// How much of a datagram of `total` bytes goes into buffer `j` of the
/// buffers of lengths `lens`: what is left after the buffers before it, up
/// to its length.
pub open spec fn piece_len(lens: Seq<usize>, j: int, total: int) -> int {
    let before = sum_lens(lens.take(j));
    let room = if total < before { 0 } else { total - before };
    if lens[j] < room { lens[j] as int } else { room }
}

impl Socket {
    /// Sends the buffers `iovecs`, one after another, as one datagram (see
    /// `send`).
    pub fn msg_send(&self, iovecs: &Vec<Vec<u8>>, dest: Option<(u32, Ip4)>, own_ip: Ip4, own_mac: &[u8; 6]) -> (r: Result<(Vec<u8>, usize), FsError>)
        requires
            flatten_bytes(iovecs@).len() + 42 <= usize::MAX,
        ensures
            ({
                let data = flatten_bytes(iovecs@);
                let (p, ip) = send_dest(*self, dest);
                if p == 0 || ip.v@ == seq![0u8, 0, 0, 0] {
                    r == Err::<(Vec<u8>, usize), FsError>(FsError::NotSupported)
                } else {
                    &&& r is Ok
                    &&& r->Ok_0.1 == data.len()
                    &&& r->Ok_0.0@ == overwrite(
                        udp_frame(self.src_port as u16, p as u16, data.len(), ip, own_ip, own_mac@),
                        42,
                        data,
                    )
                }
            }),
    {
        let mut data: Vec<u8> = Vec::new();
        let mut i: usize = 0;
        while i < iovecs.len()
            invariant
                i <= iovecs@.len(),
                data@ == flatten_bytes(iovecs@.take(i as int)),
                flatten_bytes(iovecs@).len() + 42 <= usize::MAX,
            decreases iovecs@.len() - i,
        {
            proof {
                assert(iovecs@.take(i + 1) =~= iovecs@.take(i as int).push(iovecs@[i as int]));
                lemma_flatten_push(iovecs@.take(i as int), iovecs@[i as int]);
            }
            crate::net::util::push_all(&mut data, iovecs[i].as_slice());
            i = i + 1;
        }
        assert(iovecs@.take(iovecs@.len() as int) =~= iovecs@);
        self.send(data.as_slice(), dest, own_ip, own_mac)
    }
}

/// The total of the lengths.
pub open spec fn sum_lens(s: Seq<usize>) -> int
    decreases s.len(),
{
    if s.len() == 0 {
        0
    } else {
        sum_lens(s.drop_last()) + s.last()
    }
}

/// The bytes of the pieces, one after another.
pub open spec fn flatten_bytes(p: Seq<Vec<u8>>) -> Seq<u8>
    decreases p.len(),
{
    if p.len() == 0 {
        Seq::empty()
    } else {
        flatten_bytes(p.drop_last()) + p.last()@
    }
}

proof fn lemma_sum_lens_push(s: Seq<usize>, x: usize)
    ensures
        sum_lens(s.push(x)) == sum_lens(s) + x,
{
    assert(s.push(x).drop_last() =~= s);
}

proof fn lemma_flatten_push(p: Seq<Vec<u8>>, x: Vec<u8>)
    ensures
        flatten_bytes(p.push(x)) == flatten_bytes(p) + x@,
{
    assert(p.push(x).drop_last() =~= p);
}

} // verus!
