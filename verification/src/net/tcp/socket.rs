//! The TCP connection state machine: for each event (a segment, a timeout, a
//! call from the user) the next state and the actions to carry out.
use vstd::prelude::*;
use crate::net::ip::{Ip4, ip_key};
use crate::utils::buffer::{Buffer, FsError, Step};
use crate::net::unix::{poll_bits, make_poll_bits, SyscallError};

verus! {

/// The states of a connection.
#[derive(PartialEq, Eq, Structural, Debug, Copy, Clone)]
pub enum State {
    Closed,
    Listen,
    SynSent,
    SynReceived,
    Established,
    FinWait1,
    FinWait2,
    CloseWait,
    LastAck,
    Closing,
}

/// The FIN control bit.
pub const FLAG_FIN: u16 = 1;
/// The SYN control bit.
pub const FLAG_SYN: u16 = 2;
/// The RST control bit.
pub const FLAG_RST: u16 = 4;
/// The PSH control bit.
pub const FLAG_PSH: u16 = 8;
/// The ACK control bit.
pub const FLAG_ACK: u16 = 16;
/// The URG control bit.
pub const FLAG_URG: u16 = 32;

/// The largest payload put in one segment.
pub const MAX_SEGMENT: usize = 1460;

/// Sequence numbers and windows of both directions.
#[derive(Debug, Copy, Clone)]
pub struct TransmissionCtl {
    pub snd_nxt: u32,
    pub snd_una: u32,
    pub snd_wnd: u32,
    pub iss: u32,
    pub rcv_nxt: u32,
    pub rcv_wnd: u32,
    pub irs: u32,
}

/// `a - b` in 32-bit sequence arithmetic.
pub open spec fn seq_sub(a: u32, b: u32) -> u32 {
    if a >= b {
        (a - b) as u32
    } else {
        (a + 0x1_0000_0000 - b) as u32
    }
}

/// `a + b` in 32-bit sequence arithmetic.
pub open spec fn seq_add(a: u32, b: u32) -> u32 {
    ((a as int + b as int) % 0x1_0000_0000) as u32
}

fn wrapping_sub_u32(a: u32, b: u32) -> (r: u32)
    ensures
        r == seq_sub(a, b),
{
    if a >= b {
        a - b
    } else {
        ((a as u64 + 0x1_0000_0000u64) - b as u64) as u32
    }
}

fn wrapping_add_u32(a: u32, b: u32) -> (r: u32)
    ensures
        r == seq_add(a, b),
{
    let s = a as u64 + b as u64;
    if s >= 0x1_0000_0000u64 {
        (s - 0x1_0000_0000u64) as u32
    } else {
        s as u32
    }
}

impl TransmissionCtl {
    /// All zero.
    pub fn zeroed() -> (c: TransmissionCtl)
        ensures
            c.snd_nxt == 0 && c.snd_una == 0 && c.snd_wnd == 0 && c.iss == 0 && c.rcv_nxt == 0
                && c.rcv_wnd == 0 && c.irs == 0,
    {
        TransmissionCtl { snd_nxt: 0, snd_una: 0, snd_wnd: 0, iss: 0, rcv_nxt: 0, rcv_wnd: 0, irs: 0 }
    }

    /// The bytes that may still be sent: the peer's window less what is
    /// sent and not yet acknowledged, or nothing when that exceeds the window.
    pub open spec fn spec_available_window(&self) -> int {
        let outstanding = seq_sub(self.snd_nxt, self.snd_una);
        if outstanding > self.snd_wnd {
            0
        } else {
            self.snd_wnd - outstanding
        }
    }

    /// The bytes that may still be sent.
    pub fn available_window(&self) -> (r: usize)
        ensures
            r == self.spec_available_window(),
    {
        let outstanding = wrapping_sub_u32(self.snd_nxt, self.snd_una);
        if outstanding > self.snd_wnd {
            0
        } else {
            (self.snd_wnd - outstanding) as usize
        }
    }
}

/// The connection timer's backoff: the timeout in milliseconds and how many
/// times it has fired in a row.
#[derive(Debug, Copy, Clone)]
pub struct ConnTimer {
    pub timeout: u64,
    pub timeout_count: usize,
}

/// `2` to the `n`.
pub open spec fn pow2(n: nat) -> nat
    decreases n,
{
    if n == 0 {
        1
    } else {
        2 * pow2((n - 1) as nat)
    }
}

impl ConnTimer {
    /// The count stays at most 5 and the timeout at most 1000 doubled `count` times.
    pub open spec fn wf(&self) -> bool {
        self.timeout_count <= 5 && self.timeout <= 1000 * pow2(self.timeout_count as nat)
    }

    /// A timer that has not been set up: timeout and count 0.
    pub fn new() -> (t: ConnTimer)
        ensures
            t.wf(),
            t.timeout == 0 && t.timeout_count == 0,
    {
        ConnTimer { timeout: 0, timeout_count: 0 }
    }

    /// Back to a timeout of one second and no firings.
    pub fn reset(&mut self)
        ensures
            final(self).wf(),
            final(self).timeout == 1000 && final(self).timeout_count == 0,
    {
        self.timeout = 1000;
        self.timeout_count = 0;
    }

    /// Records one more firing. Up to five firings the timeout doubles and
    /// the answer is "retry"; the sixth resets the timer and gives up.
    pub fn conn_timeout_update(&mut self) -> (retry: bool)
        requires
            old(self).wf(),
        ensures
            final(self).wf(),
            retry == (old(self).timeout_count + 1 <= 5),
            retry ==> final(self).timeout_count == old(self).timeout_count + 1,
            retry ==> final(self).timeout == 2 * old(self).timeout,
            !retry ==> final(self).timeout == 1000 && final(self).timeout_count == 0,
    {
        self.timeout_count += 1;
        if self.timeout_count <= 5 {
            assert(self.timeout * 2 <= 1000 * pow2(self.timeout_count as nat)) by {
                assert(pow2(self.timeout_count as nat) == 2 * pow2((self.timeout_count - 1) as nat));
            }
            proof {
                lemma_pow2_le_32(self.timeout_count as nat);
            }
            self.timeout *= 2;
            true
        } else {
            self.reset();
            false
        }
    }
}

proof fn lemma_pow2_le_32(n: nat)
    requires
        n <= 5,
    ensures
        pow2(n) <= 32,
{
    reveal_with_fuel(pow2, 6);
}

/// The timers of a connection.
#[derive(PartialEq, Eq, Structural, Debug, Copy, Clone)]
pub enum TimerKind {
    /// Retransmits the SYN while connecting.
    Conn,
    /// Delays the acknowledgement of received data.
    Rx,
    /// Retransmits unacknowledged data.
    Tx,
    /// Gives up on a closing connection.
    Dc,
}

/// A segment to send: header fields and payload.
#[derive(Debug)]
pub struct Segment {
    pub seq: u32,
    /// The acknowledgement number, when the ACK flag is to be set.
    pub ack: Option<u32>,
    /// The control bits (FIN, SYN, RST, PSH, ACK, URG).
    pub flags: u16,
    pub window: u16,
    pub data: Vec<u8>,
}

/// How much sequence space a segment uses: its payload, plus one each for SYN and FIN.
pub open spec fn spec_ack_len(flags: u16, data_len: int) -> int {
    data_len + (if flags & FLAG_SYN != 0 {
        1int
    } else {
        0int
    }) + (if flags & FLAG_FIN != 0 {
        1int
    } else {
        0int
    })
}

impl Segment {
    /// How much sequence space the segment uses.
    pub fn ack_len(&self) -> (r: u32)
        requires
            self.data@.len() <= 0xffff,
        ensures
            r == spec_ack_len(self.flags, self.data@.len() as int),
    {
        let mut n = self.data.len() as u32;
        if self.flags & FLAG_SYN != 0 {
            n = n + 1;
        }
        if self.flags & FLAG_FIN != 0 {
            n = n + 1;
        }
        n
    }
}

/// Something the connection asks its owner to do.
#[derive(Debug)]
pub enum TcpAction {
    /// Send a new segment.
    Send(Segment),
    /// Send a segment again (its sequence space is already counted).
    Resend(Segment),
    /// Start (or restart) a timer with a timeout in milliseconds.
    StartTimer(TimerKind, u64),
    /// Stop a timer.
    DisableTimer(TimerKind),
    /// Wake every reader of the receive buffer.
    NotifyReaders,
    /// Wake one reader of the receive buffer.
    NotifyReader,
    /// Wake one writer waiting for window space.
    NotifyWriter,
    /// Wake every writer waiting for window space.
    NotifyWriters,
    /// Wake one reader of the overflow buffer (bytes were put there).
    NotifyProxyReader,
    /// The connection is over: release its port and stop reading.
    Release(u32, Ip4),
}

} // verus!

verus! {

/// The receive window this side advertises: the free space of the receive
/// buffer, at most 65535.
pub open spec fn advertised_window(in_buffer: Buffer) -> u16 {
    let free = in_buffer.capacity() - in_buffer.count();
    if free < 65535 {
        free as u16
    } else {
        65535u16
    }
}

/// `n` zero bytes.
pub open spec fn zero_bytes(n: nat) -> Seq<u8> {
    Seq::new(n, |i: int| 0u8)
}

/// One side of a connection: addresses, state, sequence numbers, the
/// connection timer's backoff and the receive, overflow and unacknowledged
/// send buffers.
pub struct SocketData {
    pub src_port: u16,
    pub dst_port: u16,
    pub target: Ip4,
    pub state: State,
    pub conn_timer: ConnTimer,
    pub ctl: TransmissionCtl,
    pub in_buffer: Buffer,
    pub proxy_buffer: Buffer,
    pub snd_buffer: Buffer,
    /// The receive side is shut down: readers no longer wait.
    pub in_closed: bool,
}

impl SocketData {
    /// The buffers and the timer are well formed, and the count of bytes
    /// received since the last acknowledgement is below the threshold.
    pub open spec fn wf(&self) -> bool {
        &&& self.ctl.rcv_wnd < 16384
        &&& self.in_buffer.wf()
        &&& self.proxy_buffer.wf()
        &&& self.snd_buffer.wf()
        &&& self.conn_timer.wf()
    }

    /// The buffers have room (they are set up for a connection).
    pub open spec fn ready(&self) -> bool {
        &&& self.wf()
        &&& self.in_buffer.capacity() > 0
        &&& self.proxy_buffer.capacity() > 0
        &&& self.snd_buffer.capacity() > 0
    }

    /// A closed socket bound to `port`, with receive and send buffers of
    /// 73728 bytes and an overflow buffer of 32768.
    pub fn new(port: u16) -> (s: SocketData)
        ensures
            s.ready(),
            s.src_port == port && s.dst_port == 0 && s.state == State::Closed,
            s.target.v@ == seq![0u8, 0, 0, 0],
            s.in_buffer.capacity() == 4096 * 18 && s.in_buffer.count() == 0,
            s.proxy_buffer.capacity() == 4096 * 8 && s.proxy_buffer.count() == 0,
            s.snd_buffer.capacity() == 4096 * 18 && s.snd_buffer.count() == 0,
            s.ctl == TransmissionCtl::spec_zeroed(),
            !s.in_closed,
    {
        SocketData {
            src_port: port,
            dst_port: 0,
            target: Ip4::empty(),
            state: State::Closed,
            in_closed: false,
            conn_timer: ConnTimer::new(),
            ctl: TransmissionCtl::zeroed(),
            in_buffer: Buffer::new(4096 * 18),
            proxy_buffer: Buffer::new(4096 * 8),
            snd_buffer: Buffer::new(4096 * 18),
        }
    }

    /// A closed socket with no port and buffers without room.
    pub fn new_unbound() -> (s: SocketData)
        ensures
            s.wf(),
            s.src_port == 0 && s.dst_port == 0 && s.state == State::Closed,
            s.in_buffer.capacity() == 0 && s.proxy_buffer.capacity() == 0
                && s.snd_buffer.capacity() == 0,
            s.in_buffer.rpos() == 0 && s.in_buffer.wpos() == 0 && s.proxy_buffer.rpos() == 0
                && s.proxy_buffer.wpos() == 0 && s.snd_buffer.rpos() == 0 && s.snd_buffer.wpos() == 0,
            s.ctl == TransmissionCtl::spec_zeroed(),
            s.conn_timer.timeout == 0 && s.conn_timer.timeout_count == 0,
            s.target.v@ == seq![0u8, 0, 0, 0],
            !s.in_closed,
    {
        SocketData {
            src_port: 0,
            dst_port: 0,
            target: Ip4::empty(),
            state: State::Closed,
            in_closed: false,
            conn_timer: ConnTimer::new(),
            ctl: TransmissionCtl::zeroed(),
            in_buffer: Buffer::new_empty(),
            proxy_buffer: Buffer::new_empty(),
            snd_buffer: Buffer::new_empty(),
        }
    }

    /// Gives the buffers room, unless the socket only listens.
    pub fn init(&mut self, listening: bool)
        requires
            old(self).wf(),
            old(self).in_buffer.rpos() == 0 && old(self).in_buffer.wpos() == 0,
            old(self).proxy_buffer.rpos() == 0 && old(self).proxy_buffer.wpos() == 0,
            old(self).snd_buffer.rpos() == 0 && old(self).snd_buffer.wpos() == 0,
        ensures
            final(self).wf(),
            !listening ==> final(self).ready(),
            !listening ==> final(self).in_buffer.capacity() == 4096 * 18
                && final(self).proxy_buffer.capacity() == 4096 * 8
                && final(self).snd_buffer.capacity() == 4096 * 18,
            !listening ==> final(self).in_buffer.count() == 0 && final(self).proxy_buffer.count() == 0
                && final(self).snd_buffer.count() == 0,
            final(self).in_closed == old(self).in_closed && final(self).conn_timer == old(self).conn_timer,
            listening ==> *final(self) == *old(self),
            final(self).state == old(self).state && final(self).ctl == old(self).ctl,
            final(self).src_port == old(self).src_port && final(self).dst_port == old(self).dst_port
                && final(self).target == old(self).target,
    {
        if !listening {
            self.in_buffer.init_size(4096 * 18);
            self.proxy_buffer.init_size(4096 * 8);
            self.snd_buffer.init_size(4096 * 18);
        }
    }

    /// Whether the socket waits for connections.
    pub fn is_listening(&self) -> (r: bool)
        ensures
            r == (self.state == State::Listen),
    {
        self.state == State::Listen
    }

    /// The local port.
    pub fn src_port(&self) -> (r: u16)
        ensures
            r == self.src_port,
    {
        self.src_port
    }

    /// Sets the local port.
    pub fn set_src_port(&mut self, val: u16)
        ensures
            *final(self) == (SocketData { src_port: val, ..*old(self) }),
    {
        self.src_port = val;
    }

    /// The peer's port.
    pub fn dst_port(&self) -> (r: u16)
        ensures
            r == self.dst_port,
    {
        self.dst_port
    }

    /// Sets the peer's port.
    pub fn set_dst_port(&mut self, val: u16)
        ensures
            *final(self) == (SocketData { dst_port: val, ..*old(self) }),
    {
        self.dst_port = val;
    }

    /// The peer's address.
    pub fn target(&self) -> (r: Ip4)
        ensures
            r == self.target,
    {
        self.target
    }

    /// Sets the peer's address.
    pub fn set_target(&mut self, val: Ip4)
        ensures
            *final(self) == (SocketData { target: val, ..*old(self) }),
    {
        self.target = val;
    }

    /// A segment of `len` zero bytes at the next sequence number, with the
    /// given control bits and the advertised window.
    pub fn make_packet(&self, len: usize, flags: u16) -> (s: Segment)
        requires
            self.in_buffer.wf(),
        ensures
            s.seq == self.ctl.snd_nxt,
            s.ack is None,
            s.flags == flags,
            s.window == advertised_window(self.in_buffer),
            s.data@ == zero_bytes(len as nat),
    {
        let avail = self.in_buffer.available_size();
        let window: u16 = if avail < 65535 {
            avail as u16
        } else {
            65535
        };
        let mut data: Vec<u8> = Vec::new();
        let mut i: usize = 0;
        while i < len
            invariant
                i <= len,
                data@ == zero_bytes(i as nat),
            decreases len - i,
        {
            data.push(0);
            i = i + 1;
            assert(data@ =~= zero_bytes(i as nat));
        }
        Segment { seq: self.ctl.snd_nxt, ack: None, flags, window, data }
    }

    /// Like `make_packet`, and acknowledging everything received so far.
    pub fn make_ack_packet(&self, len: usize, flags: u16) -> (s: Segment)
        requires
            self.in_buffer.wf(),
        ensures
            s.seq == self.ctl.snd_nxt,
            s.ack == Some(self.ctl.rcv_nxt),
            s.flags == flags | FLAG_ACK,
            s.window == advertised_window(self.in_buffer),
            s.data@ == zero_bytes(len as nat),
    {
        let mut s = self.make_packet(len, flags);
        s.ack = Some(self.ctl.rcv_nxt);
        s.flags = s.flags | FLAG_ACK;
        s
    }

    /// Sends `seg`: the next sequence number moves past it and, when
    /// `queue` holds, its payload is kept until acknowledged (starting the
    /// retransmission timer if nothing was kept before).
    pub fn send_packet(&mut self, seg: Segment, queue: bool, actions: &mut Vec<TcpAction>)
        requires
            old(self).snd_buffer.wf(),
            seg.data@.len() <= 0xffff,
            queue ==> old(self).snd_buffer.capacity() > 0 || old(self).snd_buffer.is_full(),
        ensures
            final(self).snd_buffer.wf(),
            final(self).ctl == (TransmissionCtl {
                snd_nxt: seq_add(old(self).ctl.snd_nxt, spec_ack_len(seg.flags, seg.data@.len() as int) as u32),
                ..old(self).ctl
            }),
            final(self).state == old(self).state && final(self).conn_timer == old(self).conn_timer
                && final(self).src_port == old(self).src_port && final(self).dst_port == old(
                self).dst_port && final(self).target == old(self).target,
            final(self).in_buffer == old(self).in_buffer && final(self).proxy_buffer == old(
                self).proxy_buffer,
            final(self).in_closed == old(self).in_closed,
            !queue ==> final(self).snd_buffer == old(self).snd_buffer,
            queue ==> final(self).snd_buffer.capacity() == old(self).snd_buffer.capacity(),
            queue && !(seg.data@.len() == 0 && old(self).snd_buffer.count() == 0
                && !old(self).snd_buffer.is_full()) ==> final(self).snd_buffer.contents() == old(
                self).snd_buffer.contents() + seg.data@.take(
                (if seg.data@.len() < old(self).snd_buffer.capacity() - old(self).snd_buffer.count() {
                    seg.data@.len() as int
                } else {
                    old(self).snd_buffer.capacity() - old(self).snd_buffer.count()
                }),
            ),
            ({
                let timer = queue && old(self).snd_buffer.count() == 0;
                &&& final(actions)@.len() == old(actions)@.len() + if timer { 2int } else { 1int }
                &&& final(actions)@.take(old(actions)@.len() as int) == old(actions)@
                &&& timer ==> final(actions)@[old(actions)@.len() as int] == TcpAction::StartTimer(
                    TimerKind::Tx,
                    1000,
                )
                &&& final(actions)@.last() == TcpAction::Send(seg)
            }),
    {
        let n = seg.ack_len();
        self.ctl.snd_nxt = wrapping_add_u32(self.ctl.snd_nxt, n);
        if queue {
            let start_timer = self.snd_buffer.size() == 0;
            let _ = self.snd_buffer.append_data(seg.data.as_slice());
            if start_timer {
                actions.push(TcpAction::StartTimer(TimerKind::Tx, 1000));
            }
        }
        actions.push(TcpAction::Send(seg));
    }
}

impl TransmissionCtl {
    /// All zero.
    pub open spec fn spec_zeroed() -> TransmissionCtl {
        TransmissionCtl { snd_nxt: 0, snd_una: 0, snd_wnd: 0, iss: 0, rcv_nxt: 0, rcv_wnd: 0, irs: 0 }
    }
}

} // verus!

verus! {

/// `a` is a segment sent with the given control bits (ACK added) and no
/// payload, built from the state `sd` at the moment it was made.
pub open spec fn is_ack_send(a: TcpAction, sd: SocketData, flags: u16) -> bool {
    a matches TcpAction::Send(s) && s.seq == sd.ctl.snd_nxt && s.ack == Some(sd.ctl.rcv_nxt)
        && s.flags == flags | FLAG_ACK && s.window == advertised_window(sd.in_buffer)
        && s.data@.len() == 0
}

/// The control block after sending an empty segment with `flags` (plus ACK):
/// SYN and FIN each take one sequence number.
pub open spec fn after_empty_send(c: TransmissionCtl, flags: u16) -> TransmissionCtl {
    TransmissionCtl { snd_nxt: seq_add(c.snd_nxt, spec_ack_len(flags, 0) as u32), ..c }
}

/// The actions that close a connection for good.
pub open spec fn finalize_actions(src_port: u16, target: Ip4) -> Seq<TcpAction> {
    seq![
        TcpAction::DisableTimer(TimerKind::Conn),
        TcpAction::DisableTimer(TimerKind::Rx),
        TcpAction::DisableTimer(TimerKind::Tx),
        TcpAction::DisableTimer(TimerKind::Dc),
        TcpAction::Release(src_port as u32, target),
    ]
}

impl SocketData {
    /// Sends an empty segment with `flags` and ACK.
    pub fn send_ack_flags(&mut self, flags: u16, actions: &mut Vec<TcpAction>)
        requires
            old(self).in_buffer.wf(),
            old(self).snd_buffer.wf(),
        ensures
            *final(self) == (SocketData { ctl: after_empty_send(old(self).ctl, flags | FLAG_ACK), ..*old(self) }),
            final(actions)@.len() == old(actions)@.len() + 1,
            final(actions)@.take(old(actions)@.len() as int) == old(actions)@,
            is_ack_send(final(actions)@.last(), *old(self), flags),
    {
        let out = self.make_ack_packet(0, flags);
        self.send_packet(out, false, actions);
    }

    /// Acknowledges everything received so far.
    pub fn send_ack(&mut self, actions: &mut Vec<TcpAction>)
        requires
            old(self).in_buffer.wf(),
            old(self).snd_buffer.wf(),
        ensures
            *final(self) == (SocketData { ctl: after_empty_send(old(self).ctl, FLAG_ACK), ..*old(self) }),
            final(actions)@.len() == old(actions)@.len() + 1,
            final(actions)@.take(old(actions)@.len() as int) == old(actions)@,
            is_ack_send(final(actions)@.last(), *old(self), 0),
    {
        self.send_ack_flags(0, actions);
        proof {
            lemma_flag_bits();
        }
    }

    /// Sends a SYN and moves to `SynSent`.
    pub fn send_sync(&mut self, actions: &mut Vec<TcpAction>)
        requires
            old(self).wf(),
        ensures
            *final(self) == (SocketData {
                state: State::SynSent,
                ctl: TransmissionCtl { snd_nxt: seq_add(old(self).ctl.snd_nxt, 1), ..old(self).ctl },
                ..*old(self)
            }),
            final(actions)@.len() == old(actions)@.len() + 1,
            final(actions)@.take(old(actions)@.len() as int) == old(actions)@,
            final(actions)@.last() matches TcpAction::Send(s) && s.seq == old(self).ctl.snd_nxt
                && s.ack is None && s.flags == FLAG_SYN && s.window == advertised_window(
                old(self).in_buffer,
            ) && s.data@.len() == 0,
    {
        let packet = self.make_packet(0, FLAG_SYN);
        self.state = State::SynSent;
        proof {
            lemma_flag_bits();
        }
        self.send_packet(packet, false, actions);
    }

    /// Moves the next expected sequence number past a received segment.
    pub fn update_rcv_next(&mut self, seq_nr: u32, ack_len: u32)
        ensures
            *final(self) == (SocketData {
                ctl: TransmissionCtl { rcv_nxt: seq_add(seq_nr, ack_len), ..old(self).ctl },
                ..*old(self)
            }),
    {
        self.ctl.rcv_nxt = wrapping_add_u32(seq_nr, ack_len);
    }

    /// Ends the connection: state `Closed`, timers stopped, port released and
    /// the receive buffer shut (readers are woken). Ending a closed
    /// connection is a bug.
    pub fn finalize(&mut self, actions: &mut Vec<TcpAction>)
        requires
            old(self).state != State::Closed,
        ensures
            *final(self) == (SocketData {
                state: State::Closed,
                in_closed: true,
                conn_timer: ConnTimer { timeout: 1000, timeout_count: 0 },
                ..*old(self)
            }),
            final(actions)@ == old(actions)@ + finalize_actions(old(self).src_port, old(self).target)
                + seq![TcpAction::NotifyReaders],
    {
        self.state = State::Closed;
        self.in_closed = true;
        self.conn_timer.reset();
        actions.push(TcpAction::DisableTimer(TimerKind::Conn));
        actions.push(TcpAction::DisableTimer(TimerKind::Rx));
        actions.push(TcpAction::DisableTimer(TimerKind::Tx));
        actions.push(TcpAction::DisableTimer(TimerKind::Dc));
        actions.push(TcpAction::Release(self.src_port as u32, self.target));
        actions.push(TcpAction::NotifyReaders);
        assert(actions@ =~= old(actions)@ + finalize_actions(old(self).src_port, old(self).target)
            + seq![TcpAction::NotifyReaders]);
    }

    /// Closes from this side: an open connection sends FIN and waits for the
    /// peer's (`FinWait1`); a connection the peer has closed sends FIN and
    /// waits for its acknowledgement (`LastAck`, with a 500 ms limit); any
    /// other state that is not closed ends at once.
    pub fn close(&mut self, actions: &mut Vec<TcpAction>)
        requires
            old(self).wf(),
        ensures
            (old(self).state == State::Established || old(self).state == State::SynReceived) ==> {
                &&& *final(self) == (SocketData {
                    state: State::FinWait1,
                    ctl: after_empty_send(old(self).ctl, FLAG_FIN | FLAG_ACK),
                    ..*old(self)
                })
                &&& final(actions)@.len() == old(actions)@.len() + 1
                &&& final(actions)@.take(old(actions)@.len() as int) == old(actions)@
                &&& is_ack_send(final(actions)@.last(), *old(self), FLAG_FIN)
            },
            old(self).state == State::CloseWait ==> {
                &&& *final(self) == (SocketData {
                    state: State::LastAck,
                    ctl: after_empty_send(old(self).ctl, FLAG_FIN | FLAG_ACK),
                    ..*old(self)
                })
                &&& final(actions)@.len() == old(actions)@.len() + 2
                &&& final(actions)@.take(old(actions)@.len() as int) == old(actions)@
                &&& is_ack_send(final(actions)@[old(actions)@.len() as int], *old(self), FLAG_FIN)
                &&& final(actions)@.last() == TcpAction::StartTimer(TimerKind::Dc, 500)
            },
            (old(self).state == State::Listen || old(self).state == State::SynSent || old(self).state
                == State::FinWait1 || old(self).state == State::FinWait2 || old(self).state
                == State::LastAck || old(self).state == State::Closing) ==> {
                &&& *final(self) == (SocketData {
                    state: State::Closed,
                    in_closed: true,
                    conn_timer: ConnTimer { timeout: 1000, timeout_count: 0 },
                    ..*old(self)
                })
                &&& final(actions)@ == old(actions)@ + finalize_actions(
                    old(self).src_port,
                    old(self).target,
                ) + seq![TcpAction::NotifyReaders]
            },
            old(self).state == State::Closed ==> *final(self) == *old(self) && final(actions)@ == old(
                actions,
            )@,
    {
        match self.state {
            State::Established | State::SynReceived => {
                self.send_ack_flags(FLAG_FIN, actions);
                self.state = State::FinWait1;
            },
            State::CloseWait => {
                self.send_ack_flags(FLAG_FIN, actions);
                self.state = State::LastAck;
                actions.push(TcpAction::StartTimer(TimerKind::Dc, 500));
            },
            State::Closed => {},
            _ => {
                self.finalize(actions);
            },
        }
    }

    /// Waits for connections.
    pub fn listen(&mut self, _backlog: i32)
        ensures
            *final(self) == (SocketData { state: State::Listen, ..*old(self) }),
    {
        self.state = State::Listen;
    }

    /// Starts both sequence numbers at `v` (the caller reads the clock).
    pub fn init_seq(&mut self, v: u32)
        ensures
            *final(self) == (SocketData {
                ctl: TransmissionCtl { snd_nxt: v, snd_una: v, ..old(self).ctl },
                ..*old(self)
            }),
    {
        self.ctl.snd_nxt = v;
        self.ctl.snd_una = v;
    }

    /// Opens a connection with initial sequence number `iss`: sends SYN
    /// (state `SynSent`) and starts the connection timer at one second.
    pub fn connect(&mut self, iss: u32, actions: &mut Vec<TcpAction>)
        requires
            old(self).wf(),
        ensures
            *final(self) == (SocketData {
                state: State::SynSent,
                ctl: TransmissionCtl { snd_nxt: seq_add(iss, 1), snd_una: iss, ..old(self).ctl },
                conn_timer: ConnTimer { timeout: 1000, timeout_count: 0 },
                ..*old(self)
            }),
            final(actions)@.len() == old(actions)@.len() + 3,
            final(actions)@.take(old(actions)@.len() as int) == old(actions)@,
            final(actions)@[old(actions)@.len() as int] matches TcpAction::Send(s) && s.seq == iss
                && s.ack is None && s.flags == FLAG_SYN && s.data@.len() == 0,
            final(actions)@[old(actions)@.len() as int + 1] == TcpAction::DisableTimer(TimerKind::Conn),
            final(actions)@[old(actions)@.len() as int + 2] == TcpAction::StartTimer(TimerKind::Conn, 1000),
    {
        self.init_seq(iss);
        self.send_sync(actions);
        self.conn_timer.reset();
        actions.push(TcpAction::DisableTimer(TimerKind::Conn));
        actions.push(TcpAction::StartTimer(TimerKind::Conn, self.conn_timer.timeout));
    }

    /// The connection timer fired while connecting: retry the SYN with twice
    /// the timeout, or give up after five retries and end the connection.
    pub fn conn_timeout(&mut self, actions: &mut Vec<TcpAction>)
        requires
            old(self).wf(),
            old(self).state != State::Closed,
        ensures
            final(self).wf(),
            old(self).conn_timer.timeout_count < 5 ==> {
                &&& *final(self) == (SocketData {
                    state: State::SynSent,
                    ctl: TransmissionCtl { snd_nxt: seq_add(old(self).ctl.snd_nxt, 1), ..old(self).ctl },
                    conn_timer: ConnTimer {
                        timeout: (2 * old(self).conn_timer.timeout) as u64,
                        timeout_count: (old(self).conn_timer.timeout_count + 1) as usize,
                    },
                    ..*old(self)
                })
                &&& final(actions)@.len() == old(actions)@.len() + 2
                &&& final(actions)@.take(old(actions)@.len() as int) == old(actions)@
                &&& final(actions)@[old(actions)@.len() as int] matches TcpAction::Send(s) && s.seq
                    == old(self).ctl.snd_nxt && s.flags == FLAG_SYN && s.data@.len() == 0
                &&& final(actions)@.last() == TcpAction::StartTimer(
                    TimerKind::Conn,
                    (2 * old(self).conn_timer.timeout) as u64,
                )
            },
            old(self).conn_timer.timeout_count >= 5 ==> {
                &&& *final(self) == (SocketData {
                    state: State::Closed,
                    in_closed: true,
                    conn_timer: ConnTimer { timeout: 1000, timeout_count: 0 },
                    ..*old(self)
                })
                &&& final(actions)@ == old(actions)@ + seq![TcpAction::DisableTimer(TimerKind::Conn)]
                    + finalize_actions(old(self).src_port, old(self).target) + seq![
                    TcpAction::NotifyReaders,
                ]
            },
    {
        if self.conn_timer.conn_timeout_update() {
            self.send_sync(actions);
            actions.push(TcpAction::StartTimer(TimerKind::Conn, self.conn_timer.timeout));
        } else {
            actions.push(TcpAction::DisableTimer(TimerKind::Conn));
            let ghost mid = actions@;
            self.finalize(actions);
            assert(actions@ =~= old(actions)@ + seq![TcpAction::DisableTimer(TimerKind::Conn)]
                + finalize_actions(old(self).src_port, old(self).target) + seq![
                TcpAction::NotifyReaders,
            ]);
        }
    }

    /// The delayed-acknowledgement timer fired: acknowledge now.
    pub fn rx_timeout(&mut self, actions: &mut Vec<TcpAction>)
        requires
            old(self).in_buffer.wf(),
            old(self).snd_buffer.wf(),
        ensures
            *final(self) == (SocketData { ctl: after_empty_send(old(self).ctl, FLAG_ACK), ..*old(self) }),
            final(actions)@.len() == old(actions)@.len() + 1,
            final(actions)@.take(old(actions)@.len() as int) == old(actions)@,
            is_ack_send(final(actions)@.last(), *old(self), 0),
    {
        self.send_ack(actions);
    }

    /// The closing timer fired: end the connection.
    pub fn dc_timeout(&mut self, actions: &mut Vec<TcpAction>)
        requires
            old(self).state != State::Closed,
        ensures
            *final(self) == (SocketData {
                state: State::Closed,
                in_closed: true,
                conn_timer: ConnTimer { timeout: 1000, timeout_count: 0 },
                ..*old(self)
            }),
            final(actions)@ == old(actions)@ + finalize_actions(old(self).src_port, old(self).target)
                + seq![TcpAction::NotifyReaders],
    {
        self.finalize(actions);
    }
}

} // verus!

verus! {

use crate::net::tcp::{TcpHeader, bit16};

/// How much sequence space a received segment uses.
pub open spec fn in_ack_len(f: u16, data_len: int) -> int {
    data_len + (if bit16(f, 1) {
        1int
    } else {
        0int
    }) + (if bit16(f, 0) {
        1int
    } else {
        0int
    })
}

/// `a` sends an empty segment with sequence number `seq`, acknowledgement
/// `ack`, control bits `flags` plus ACK, and window `window`.
pub open spec fn sends_ack(a: TcpAction, seq: u32, ack: u32, flags: u16, window: u16) -> bool {
    a matches TcpAction::Send(s) && s.seq == seq && s.ack == Some(ack) && s.flags == flags | FLAG_ACK
        && s.window == window && s.data@.len() == 0
}

/// How much sequence space a received segment uses.
pub fn incoming_ack_len(hdr: &TcpHeader, data: &[u8]) -> (r: u32)
    requires
        data.len() <= 0xffff,
    ensures
        r == in_ack_len(hdr.flags.spec_value(), data@.len() as int),
{
    let mut n = data.len() as u32;
    if hdr.flag_syn() {
        n = n + 1;
    }
    if hdr.flag_fin() {
        n = n + 1;
    }
    n
}

/// The number of bytes an append of `len` bytes stores in `b`.
pub open spec fn stored_len(b: Buffer, len: int) -> int {
    if len < b.capacity() - b.count() {
        len
    } else {
        b.capacity() - b.count()
    }
}

impl SocketData {
    /// Appends received data to the receive buffer (nothing for no data),
    /// waking a reader when some was stored; returns how much was stored.
    pub fn store_data(&mut self, data: &[u8], actions: &mut Vec<TcpAction>) -> (written: usize)
        requires
            old(self).in_buffer.wf(),
            old(self).in_buffer.capacity() > 0,
        ensures
            written == if data@.len() == 0 {
                0
            } else {
                stored_len(old(self).in_buffer, data@.len() as int)
            },
            final(self).in_buffer.wf(),
            final(self).in_buffer.capacity() == old(self).in_buffer.capacity(),
            data@.len() == 0 ==> final(self).in_buffer == old(self).in_buffer,
            data@.len() > 0 ==> final(self).in_buffer.contents() == old(self).in_buffer.contents()
                + data@.take(written as int),
            *final(self) == (SocketData { in_buffer: final(self).in_buffer, ..*old(self) }),
            final(actions)@ == old(actions)@ + if written > 0 {
                seq![TcpAction::NotifyReader]
            } else {
                Seq::<TcpAction>::empty()
            },
    {
        if data.len() == 0 {
            assert(actions@ =~= old(actions)@ + Seq::<TcpAction>::empty());
            return 0;
        }
        let written = self.in_buffer.append_data(data);
        if written > 0 {
            actions.push(TcpAction::NotifyReader);
        } else {
            assert(actions@ =~= old(actions)@ + Seq::<TcpAction>::empty());
        }
        written
    }

    /// A data or FIN segment in `Established`. In-order data that fits is
    /// stored and counted; once 16384 bytes await acknowledgement an ACK goes
    /// out, otherwise the delayed-ACK timer (150 ms) is started. A FIN moves
    /// to `LastAck`, answers with FIN and starts the closing timer (1 s).
    pub fn handle_established(&mut self, hdr: &TcpHeader, data: &[u8], actions: &mut Vec<TcpAction>)
        requires
            old(self).ready(),
            data.len() <= 0xffff,
        ensures
            final(self).ready(),
            established_step(
                *old(self),
                *hdr,
                data@,
                old(actions)@,
                *final(self),
                final(actions)@,
            ),
    {
        let ghost o = *self;
        let ghost a0 = actions@;
        proof {
            lemma_ack_len_plain();
            lemma_seq_add_zero(o.ctl.snd_nxt);
        }
        let fin = hdr.flag_fin();
        if data.len() > 0 || fin {
            if hdr.seq_nr() == self.ctl.rcv_nxt {
                let written = self.store_data(data, actions);
                assert(actions@.take(a0.len() as int) =~= a0);
                if written > 0 {
                    assert(actions@[a0.len() as int] == TcpAction::NotifyReader);
                }
                if written == data.len() {
                    let al = incoming_ack_len(hdr, data);
                    self.update_rcv_next(hdr.seq_nr(), al);
                    self.ctl.rcv_wnd = self.ctl.rcv_wnd + al;
                    if self.ctl.rcv_wnd >= 4096 * 4 {
                        let ghost a1 = actions@;
                        let ghost before_ack = *self;
                        self.send_ack(actions);
                        self.ctl.rcv_wnd = 0;
                        actions.push(TcpAction::DisableTimer(TimerKind::Rx));
                        assert(actions@.last() == TcpAction::DisableTimer(TimerKind::Rx));
                        assert(actions@.take(a1.len() as int) =~= a1);
                        assert(actions@.take(a0.len() as int) =~= a0);
                        assert(actions@[a1.len() as int] == actions@.take(actions@.len() - 1).last());
                        assert(is_ack_send(actions@[a1.len() as int], before_ack, 0));
                        assert(actions@[a1.len() + 1int] == TcpAction::DisableTimer(TimerKind::Rx));
                    } else {
                        actions.push(TcpAction::StartTimer(TimerKind::Rx, 150));
                        assert(actions@.last() == TcpAction::StartTimer(TimerKind::Rx, 150));
                        assert(actions@.take(a0.len() as int) =~= a0);
                    }
                }
                if written > 0 {
                    assert(actions@[a0.len() as int] == TcpAction::NotifyReader);
                }
            }
            let ghost mid = actions@;
            if fin {
                self.state = State::LastAck;
                let ghost a2 = actions@;
                self.send_ack_flags(FLAG_FIN, actions);
                actions.push(TcpAction::StartTimer(TimerKind::Dc, 1000));
                assert(actions@.take(a2.len() as int) =~= a2);
                assert(actions@[actions@.len() - 2] == actions@.take(actions@.len() - 1).last());
                assert(actions@.take(a0.len() as int) =~= a0);
                assert(forall|i: int| 0 <= i < mid.len() ==> actions@[i] == mid[i]);
            }
        }
        assert(actions@.take(a0.len() as int) =~= a0);
    }
}

/// Adding zero in sequence arithmetic changes nothing.
pub proof fn lemma_seq_add_zero(x: u32)
    ensures
        seq_add(x, 0) == x,
        seq_add(x, 1) == if x == 0xffff_ffff {
            0
        } else {
            x + 1
        },
{
    vstd::arithmetic::div_mod::lemma_small_mod(x as nat, 0x1_0000_0000);
    if x < 0xffff_ffff {
        vstd::arithmetic::div_mod::lemma_small_mod((x + 1) as nat, 0x1_0000_0000);
    } else {
        vstd::arithmetic::div_mod::lemma_mod_self_0(0x1_0000_0000);
    }
}

/// An ACK alone uses no sequence space.
pub proof fn lemma_ack_len_plain()
    ensures
        spec_ack_len(FLAG_ACK, 0) == 0,
        spec_ack_len((0u16 | FLAG_ACK) as u16, 0) == 0,
        spec_ack_len((FLAG_FIN | FLAG_ACK) as u16, 0) == 1,
        spec_ack_len((FLAG_RST | FLAG_ACK) as u16, 0) == 0,
        spec_ack_len((FLAG_SYN | FLAG_ACK) as u16, 0) == 1,
{
    lemma_flag_bits();
}

/// The control bits that the segments of this module combine.
proof fn lemma_flag_bits()
    by (bit_vector)
    ensures
        0u16 | FLAG_ACK == FLAG_ACK,
        FLAG_SYN & FLAG_SYN != 0 && FLAG_SYN & FLAG_FIN == 0,
        FLAG_ACK & FLAG_SYN == 0 && FLAG_ACK & FLAG_FIN == 0,
        (0u16 | FLAG_ACK) & FLAG_SYN == 0 && (0u16 | FLAG_ACK) & FLAG_FIN == 0,
        (FLAG_FIN | FLAG_ACK) & FLAG_SYN == 0 && (FLAG_FIN | FLAG_ACK) & FLAG_FIN != 0,
        (FLAG_RST | FLAG_ACK) & FLAG_SYN == 0 && (FLAG_RST | FLAG_ACK) & FLAG_FIN == 0,
        (FLAG_SYN | FLAG_ACK) & FLAG_SYN != 0 && (FLAG_SYN | FLAG_ACK) & FLAG_FIN == 0,
{
}


} // verus!

verus! {

impl SocketData {
    /// A segment in `SynReceived`: an ACK without RST establishes the
    /// connection (stopping the connection timer and waking writers); an RST
    /// ends it; anything else is ignored.
    pub fn handle_syn_received(&mut self, hdr: &TcpHeader, actions: &mut Vec<TcpAction>)
        requires
            old(self).ready(),
            old(self).state != State::Closed,
        ensures
            final(self).ready(),
            syn_received_step(
                *old(self),
                *hdr,
                old(actions)@,
                *final(self),
                final(actions)@,
            ),
    {
        let ack = hdr.flag_ack();
        let rst = hdr.flag_rst();
        if ack && !rst {
            self.conn_timer.reset();
            actions.push(TcpAction::DisableTimer(TimerKind::Conn));
            self.state = State::Established;
            actions.push(TcpAction::NotifyWriters);
            assert(actions@ =~= old(actions)@ + seq![
                TcpAction::DisableTimer(TimerKind::Conn),
                TcpAction::NotifyWriters,
            ]);
        } else if rst {
            self.finalize(actions);
        }
    }

    /// A segment in `SynSent`: a SYN with ACK records the peer's initial
    /// sequence number, stops the connection timer, acknowledges and
    /// establishes the connection; anything else is ignored.
    pub fn handle_syn_sent(&mut self, hdr: &TcpHeader, data: &[u8], actions: &mut Vec<TcpAction>)
        requires
            old(self).ready(),
            old(self).in_buffer.wf(),
            old(self).snd_buffer.wf(),
            data.len() <= 0xffff,
        ensures
            final(self).ready(),
            syn_sent_step(
                *old(self),
                *hdr,
                data@,
                old(actions)@,
                *final(self),
                final(actions)@,
            ),
    {
        if hdr.flag_syn() && hdr.flag_ack() {
            let ghost o = *self;
            self.ctl.iss = hdr.seq_nr();
            self.ctl.irs = hdr.seq_nr();
            let al = incoming_ack_len(hdr, data);
            self.update_rcv_next(hdr.seq_nr(), al);
            self.conn_timer.reset();
            actions.push(TcpAction::DisableTimer(TimerKind::Conn));
            let ghost a1 = actions@;
            self.send_ack(actions);
            proof {
                lemma_ack_len_plain();
                lemma_seq_add_zero(o.ctl.snd_nxt);
                assert(actions@.take(a1.len() as int) =~= a1);
                assert(actions@.take(old(actions)@.len() as int) =~= old(actions)@);
                assert(actions@[old(actions)@.len() as int] == a1[old(actions)@.len() as int]);
            }
            self.state = State::Established;
        }
    }

    /// A segment for a connection the peer is closing: a FIN moves to
    /// `CloseWait`; data or a FIN is stored and acknowledged; a FIN with no
    /// data wakes every reader.
    pub fn handle_established_close_wait(&mut self, hdr: &TcpHeader, data: &[u8], actions: &mut Vec<TcpAction>)
        requires
            old(self).ready(),
        ensures
            final(self).ready(),
            close_wait_step(
                *old(self),
                *hdr,
                data@,
                old(actions)@,
                *final(self),
                final(actions)@,
            ),
    {
        let fin = hdr.flag_fin();
        if fin {
            self.state = State::CloseWait;
        }
        if data.len() > 0 || fin {
            let _ = self.store_data(data, actions);
            let ghost a1 = actions@;
            self.send_ack(actions);
            proof {
                lemma_ack_len_plain();
                lemma_seq_add_zero(self.ctl.snd_nxt);
                assert(actions@.take(a1.len() as int) =~= a1);
                assert(actions@.take(old(actions)@.len() as int) =~= old(actions)@);
            }
            if fin && data.len() == 0 {
                actions.push(TcpAction::NotifyReaders);
                assert(actions@.take(old(actions)@.len() as int) =~= old(actions)@);
            }
        }
    }

    /// A segment in `FinWait1`: an ACK alone moves to `FinWait2`; FIN with
    /// ACK is acknowledged and ends the connection; FIN alone is acknowledged
    /// and moves to `Closing` (closing timer 500 ms); anything else is
    /// answered with RST and ends the connection.
    pub fn handle_finwait1(&mut self, hdr: &TcpHeader, data: &[u8], actions: &mut Vec<TcpAction>)
        requires
            old(self).ready(),
            old(self).in_buffer.wf(),
            old(self).snd_buffer.wf(),
            old(self).state != State::Closed,
            data.len() <= 0xffff,
        ensures
            final(self).ready(),
            finwait1_step(
                *old(self),
                *hdr,
                data@,
                old(actions)@,
                *final(self),
                final(actions)@,
            ),
    {
        proof {
            lemma_ack_len_plain();
            lemma_seq_add_zero(self.ctl.snd_nxt);
        }
        let fin = hdr.flag_fin();
        let ack = hdr.flag_ack();
        if !fin && ack {
            self.state = State::FinWait2;
            assert(actions@.take(old(actions)@.len() as int) =~= old(actions)@);
        } else if fin && ack {
            let al = incoming_ack_len(hdr, data);
            self.update_rcv_next(hdr.seq_nr(), al);
            self.send_ack(actions);
            let ghost a1 = actions@;
            self.finalize(actions);
            assert(actions@.skip(old(actions)@.len() as int + 1) =~= finalize_actions(
                old(self).src_port,
                old(self).target,
            ) + seq![TcpAction::NotifyReaders]);
            assert(actions@.take(old(actions)@.len() as int) =~= old(actions)@);
        } else if fin && !ack {
            let al = incoming_ack_len(hdr, data);
            self.update_rcv_next(hdr.seq_nr(), al);
            self.send_ack(actions);
            self.state = State::Closing;
            actions.push(TcpAction::StartTimer(TimerKind::Dc, 500));
            assert(actions@.take(old(actions)@.len() as int) =~= old(actions)@);
        } else {
            self.send_ack_flags(FLAG_RST, actions);
            self.finalize(actions);
            assert(actions@.skip(old(actions)@.len() as int + 1) =~= finalize_actions(
                old(self).src_port,
                old(self).target,
            ) + seq![TcpAction::NotifyReaders]);
            assert(actions@.take(old(actions)@.len() as int) =~= old(actions)@);
        }
    }

    /// A segment in `FinWait2`: FIN with ACK is acknowledged and ends the
    /// connection; anything else is answered with RST and ends it.
    pub fn handle_finwait2(&mut self, hdr: &TcpHeader, data: &[u8], actions: &mut Vec<TcpAction>)
        requires
            old(self).ready(),
            old(self).in_buffer.wf(),
            old(self).snd_buffer.wf(),
            old(self).state != State::Closed,
            data.len() <= 0xffff,
        ensures
            final(self).ready(),
            finwait2_step(
                *old(self),
                *hdr,
                data@,
                old(actions)@,
                *final(self),
                final(actions)@,
            ),
    {
        proof {
            lemma_ack_len_plain();
            lemma_seq_add_zero(self.ctl.snd_nxt);
        }
        if hdr.flag_fin() && hdr.flag_ack() {
            let al = incoming_ack_len(hdr, data);
            self.update_rcv_next(hdr.seq_nr(), al);
            self.send_ack(actions);
        } else {
            self.send_ack_flags(FLAG_RST, actions);
        }
        self.finalize(actions);
        assert(actions@.skip(old(actions)@.len() as int + 1) =~= finalize_actions(
            old(self).src_port,
            old(self).target,
        ) + seq![TcpAction::NotifyReaders]);
        assert(actions@.take(old(actions)@.len() as int) =~= old(actions)@);
    }

    /// A segment in `Closing`: an ACK ends the connection.
    pub fn handle_closing(&mut self, hdr: &TcpHeader, actions: &mut Vec<TcpAction>)
        requires
            old(self).ready(),
            old(self).state != State::Closed,
        ensures
            final(self).ready(),
            closing_step(
                *old(self),
                *hdr,
                old(actions)@,
                *final(self),
                final(actions)@,
            ),
    {
        if hdr.flag_ack() {
            self.finalize(actions);
        }
    }

    /// A segment in `LastAck`: an ACK ends the connection.
    pub fn handle_lastack(&mut self, hdr: &TcpHeader, actions: &mut Vec<TcpAction>)
        requires
            old(self).ready(),
            old(self).state != State::Closed,
        ensures
            final(self).ready(),
            lastack_step(
                *old(self),
                *hdr,
                old(actions)@,
                *final(self),
                final(actions)@,
            ),
    {
        if hdr.flag_ack() {
            self.finalize(actions);
        }
    }
}

} // verus!

verus! {

/// The outcome of `handle_syn_received`.
pub open spec fn syn_received_step(
    old_s: SocketData,
    hdr: TcpHeader,
    a0: Seq<TcpAction>,
    new_s: SocketData,
    a1: Seq<TcpAction>,
) -> bool {
    &&& {
        let f = hdr.flags.spec_value();
        let o = old_s;
        &&& (bit16(f, 4) && !bit16(f, 2)) ==> new_s == (SocketData {
            state: State::Established,
            conn_timer: ConnTimer { timeout: 1000, timeout_count: 0 },
            ..o
        }) && a1 == a0 + seq![
            TcpAction::DisableTimer(TimerKind::Conn),
            TcpAction::NotifyWriters,
        ]
        &&& bit16(f, 2) ==> new_s == (SocketData {
            state: State::Closed,
            in_closed: true,
            conn_timer: ConnTimer { timeout: 1000, timeout_count: 0 },
            ..o
        }) && a1 == a0 + finalize_actions(o.src_port, o.target)
            + seq![TcpAction::NotifyReaders]
        &&& (!bit16(f, 4) && !bit16(f, 2)) ==> new_s == o && a1 == a0
    }
}

/// The outcome of `handle_syn_sent`.
pub open spec fn syn_sent_step(
    old_s: SocketData,
    hdr: TcpHeader,
    data: Seq<u8>,
    a0: Seq<TcpAction>,
    new_s: SocketData,
    a1: Seq<TcpAction>,
) -> bool {
    &&& {
        let f = hdr.flags.spec_value();
        let o = old_s;
        let s = hdr.seq_nr.spec_value();
        let rn = seq_add(s, in_ack_len(f, data.len() as int) as u32);
        &&& (bit16(f, 1) && bit16(f, 4)) ==> {
            &&& new_s == (SocketData {
                state: State::Established,
                conn_timer: ConnTimer { timeout: 1000, timeout_count: 0 },
                ctl: TransmissionCtl { iss: s, irs: s, rcv_nxt: rn, ..o.ctl },
                ..o
            })
            &&& a1.len() == a0.len() + 2
            &&& a1.take(a0.len() as int) == a0
            &&& a1[a0.len() as int] == TcpAction::DisableTimer(
                TimerKind::Conn,
            )
            &&& sends_ack(
                a1.last(),
                o.ctl.snd_nxt,
                rn,
                0,
                advertised_window(o.in_buffer),
            )
        }
        &&& !(bit16(f, 1) && bit16(f, 4)) ==> new_s == o && a1 == a0
    }
}

/// The outcome of `handle_established`.
pub open spec fn established_step(
    old_s: SocketData,
    hdr: TcpHeader,
    data: Seq<u8>,
    a0: Seq<TcpAction>,
    new_s: SocketData,
    a1: Seq<TcpAction>,
) -> bool {
    &&& {
        let o = old_s;
        let f = hdr.flags.spec_value();
        let fin = bit16(f, 0);
        let any = data.len() > 0 || fin;
        let in_order = any && hdr.seq_nr.spec_value() == o.ctl.rcv_nxt;
        let fits = data.len() <= o.in_buffer.capacity() - o.in_buffer.count();
        let accepted = in_order && fits;
        let al = in_ack_len(f, data.len() as int);
        let wnd = o.ctl.rcv_wnd + al;
        let big = wnd >= 16384;
        &&& new_s.src_port == o.src_port && new_s.dst_port == o.dst_port
            && new_s.target == o.target && new_s.conn_timer == o.conn_timer
            && new_s.proxy_buffer == o.proxy_buffer && new_s.snd_buffer == o.snd_buffer
        &&& new_s.state == if any && fin {
            State::LastAck
        } else {
            o.state
        }
        &&& (in_order && data.len() > 0) ==> new_s.in_buffer.contents()
            == o.in_buffer.contents() + data.take(stored_len(o.in_buffer, data.len() as int))
        &&& !(in_order && data.len() > 0) ==> new_s.in_buffer == o.in_buffer
        &&& new_s.ctl.rcv_nxt == if accepted {
            seq_add(hdr.seq_nr.spec_value(), al as u32)
        } else {
            o.ctl.rcv_nxt
        }
        &&& new_s.ctl.rcv_wnd == if accepted {
            if big {
                0
            } else {
                wnd
            }
        } else {
            o.ctl.rcv_wnd as int
        }
        &&& new_s.ctl.snd_nxt == if any && fin {
            seq_add(o.ctl.snd_nxt, 1)
        } else {
            o.ctl.snd_nxt
        }
        &&& new_s.ctl.snd_una == o.ctl.snd_una && new_s.ctl.snd_wnd
            == o.ctl.snd_wnd && new_s.ctl.iss == o.ctl.iss && new_s.ctl.irs
            == o.ctl.irs
        &&& new_s.in_closed == o.in_closed
        &&& a1.take(a0.len() as int) == a0
        &&& a1.len() == a0.len() + (if in_order && data.len() > 0
            && stored_len(o.in_buffer, data.len() as int) > 0 {
            1int
        } else {
            0int
        }) + (if accepted {
            if big {
                2int
            } else {
                1int
            }
        } else {
            0int
        }) + (if any && fin {
            2int
        } else {
            0int
        })
        &&& {
            let nr = if in_order && data.len() > 0 && stored_len(o.in_buffer, data.len() as int) > 0 {
                1int
            } else {
                0int
            };
            &&& nr == 1 ==> a1[a0.len() as int] == TcpAction::NotifyReader
            &&& (accepted && !big) ==> a1[a0.len() + nr] == TcpAction::StartTimer(TimerKind::Rx, 150)
            &&& (accepted && big) ==> sends_ack(
                a1[a0.len() + nr],
                o.ctl.snd_nxt,
                new_s.ctl.rcv_nxt,
                0,
                advertised_window(new_s.in_buffer),
            ) && a1[a0.len() + nr + 1] == TcpAction::DisableTimer(TimerKind::Rx)
        }
        &&& (any && fin) ==> a1.last() == TcpAction::StartTimer(TimerKind::Dc, 1000)
            && sends_ack(
            a1[a1.len() - 2],
            o.ctl.snd_nxt,
            new_s.ctl.rcv_nxt,
            FLAG_FIN,
            advertised_window(new_s.in_buffer),
        )
    }
}

/// The outcome of `handle_established_close_wait`.
pub open spec fn close_wait_step(
    old_s: SocketData,
    hdr: TcpHeader,
    data: Seq<u8>,
    a0: Seq<TcpAction>,
    new_s: SocketData,
    a1: Seq<TcpAction>,
) -> bool {
    &&& {
        let f = hdr.flags.spec_value();
        let o = old_s;
        let fin = bit16(f, 0);
        &&& new_s.state == if fin {
            State::CloseWait
        } else {
            o.state
        }
        &&& data.len() > 0 ==> new_s.in_buffer.contents() == o.in_buffer.contents()
            + data.take(stored_len(o.in_buffer, data.len() as int))
        &&& data.len() == 0 ==> new_s.in_buffer == o.in_buffer
        &&& new_s.in_closed == o.in_closed
        &&& new_s.ctl == o.ctl
        &&& new_s.src_port == o.src_port && new_s.target == o.target
        &&& !(data.len() > 0 || fin) ==> a1 == a0
        &&& (data.len() > 0 || fin) ==> {
            &&& a1.take(a0.len() as int) == a0
            &&& a1.len() == a0.len() + (if data.len() > 0
                && stored_len(o.in_buffer, data.len() as int) > 0 {
                1int
            } else {
                0int
            }) + 1 + (if fin && data.len() == 0 {
                1int
            } else {
                0int
            })
            &&& (fin && data.len() == 0) ==> a1.last()
                == TcpAction::NotifyReaders
        }
    }
}

/// The outcome of `handle_finwait1`.
pub open spec fn finwait1_step(
    old_s: SocketData,
    hdr: TcpHeader,
    data: Seq<u8>,
    a0: Seq<TcpAction>,
    new_s: SocketData,
    a1: Seq<TcpAction>,
) -> bool {
    &&& {
        let f = hdr.flags.spec_value();
        let o = old_s;
        let fin = bit16(f, 0);
        let ack = bit16(f, 4);
        let rn = seq_add(hdr.seq_nr.spec_value(), in_ack_len(f, data.len() as int) as u32);
        &&& (!fin && ack) ==> new_s == (SocketData { state: State::FinWait2, ..o })
            && a1 == a0
        &&& (fin && ack) ==> new_s.state == State::Closed && new_s.ctl
            == (TransmissionCtl { rcv_nxt: rn, ..o.ctl }) && a1.len() == a0.len() + 7 && sends_ack(
            a1[a0.len() as int],
            o.ctl.snd_nxt,
            rn,
            0,
            advertised_window(o.in_buffer),
        ) && a1.skip(a0.len() as int + 1) == finalize_actions(
            o.src_port,
            o.target,
        ) + seq![TcpAction::NotifyReaders]
        &&& (fin && !ack) ==> new_s.state == State::Closing && new_s.ctl == (
        TransmissionCtl { rcv_nxt: rn, ..o.ctl }) && a1.len() == a0.len() + 2 && sends_ack(
            a1[a0.len() as int],
            o.ctl.snd_nxt,
            rn,
            0,
            advertised_window(o.in_buffer),
        ) && a1.last() == TcpAction::StartTimer(TimerKind::Dc, 500)
        &&& (!fin && !ack) ==> new_s.state == State::Closed && new_s.ctl == o.ctl
            && a1.len() == a0.len() + 7 && sends_ack(
            a1[a0.len() as int],
            o.ctl.snd_nxt,
            o.ctl.rcv_nxt,
            FLAG_RST,
            advertised_window(o.in_buffer),
        ) && a1.skip(a0.len() as int + 1) == finalize_actions(
            o.src_port,
            o.target,
        ) + seq![TcpAction::NotifyReaders]
        &&& new_s.in_closed == (o.in_closed || new_s.state == State::Closed)
        &&& a1.take(a0.len() as int) == a0
        &&& new_s.in_buffer == o.in_buffer && new_s.snd_buffer == o.snd_buffer
    }
}

/// The outcome of `handle_finwait2`.
pub open spec fn finwait2_step(
    old_s: SocketData,
    hdr: TcpHeader,
    data: Seq<u8>,
    a0: Seq<TcpAction>,
    new_s: SocketData,
    a1: Seq<TcpAction>,
) -> bool {
    &&& {
        let f = hdr.flags.spec_value();
        let o = old_s;
        let both = bit16(f, 0) && bit16(f, 4);
        let rn = seq_add(hdr.seq_nr.spec_value(), in_ack_len(f, data.len() as int) as u32);
        &&& new_s.in_closed
        &&& new_s.state == State::Closed
        &&& new_s.ctl == if both {
            TransmissionCtl { rcv_nxt: rn, ..o.ctl }
        } else {
            o.ctl
        }
        &&& a1.len() == a0.len() + 7
        &&& a1.take(a0.len() as int) == a0
        &&& sends_ack(
            a1[a0.len() as int],
            o.ctl.snd_nxt,
            if both {
                rn
            } else {
                o.ctl.rcv_nxt
            },
            if both {
                0
            } else {
                FLAG_RST
            },
            advertised_window(o.in_buffer),
        )
        &&& a1.skip(a0.len() as int + 1) == finalize_actions(
            o.src_port,
            o.target,
        ) + seq![TcpAction::NotifyReaders]
    }
}

/// The outcome of `handle_closing`.
pub open spec fn closing_step(
    old_s: SocketData,
    hdr: TcpHeader,
    a0: Seq<TcpAction>,
    new_s: SocketData,
    a1: Seq<TcpAction>,
) -> bool {
    &&& bit16(hdr.flags.spec_value(), 4) ==> new_s == (SocketData {
        state: State::Closed,
        in_closed: true,
        conn_timer: ConnTimer { timeout: 1000, timeout_count: 0 },
        ..old_s
    }) && a1 == a0 + finalize_actions(
        old_s.src_port,
        old_s.target,
    ) + seq![TcpAction::NotifyReaders]
    &&& !bit16(hdr.flags.spec_value(), 4) ==> new_s == old_s && a1
        == a0
}

/// The outcome of `handle_lastack`.
pub open spec fn lastack_step(
    old_s: SocketData,
    hdr: TcpHeader,
    a0: Seq<TcpAction>,
    new_s: SocketData,
    a1: Seq<TcpAction>,
) -> bool {
    &&& bit16(hdr.flags.spec_value(), 4) ==> new_s == (SocketData {
        state: State::Closed,
        in_closed: true,
        conn_timer: ConnTimer { timeout: 1000, timeout_count: 0 },
        ..old_s
    }) && a1 == a0 + finalize_actions(
        old_s.src_port,
        old_s.target,
    ) + seq![TcpAction::NotifyReaders]
    &&& !bit16(hdr.flags.spec_value(), 4) ==> new_s == old_s && a1
        == a0
}

/// The payload bytes of the `Send` actions of `acts`, in order.
pub open spec fn sent_payload(acts: Seq<TcpAction>) -> Seq<u8>
    decreases acts.len(),
{
    if acts.len() == 0 {
        Seq::empty()
    } else {
        sent_payload(acts.drop_last()) + match acts.last() {
            TcpAction::Send(s) => s.data@,
            _ => Seq::empty(),
        }
    }
}

/// Whether every action of `acts` is a `Send` of a segment acknowledging
/// `ack` with no control bit but ACK and at most 1460 bytes of payload, or
/// the start of the retransmission timer.
pub open spec fn all_data_sends(acts: Seq<TcpAction>, ack: u32) -> bool {
    forall|i: int| 0 <= i < acts.len() ==> match #[trigger] acts[i] {
        TcpAction::Send(s) => s.ack == Some(ack) && s.flags == FLAG_ACK && s.data@.len() <= 1460,
        TcpAction::StartTimer(k, t) => k == TimerKind::Tx && t == 1000,
        _ => false,
    }
}

/// `seq_add` in two steps is `seq_add` of the sum.
pub proof fn lemma_seq_add_add(x: u32, a: u32, b: u32)
    requires
        a + b <= u32::MAX,
    ensures
        seq_add(seq_add(x, a), b) == seq_add(x, (a + b) as u32),
{
    let m = 0x1_0000_0000int;
    let s1 = x as int + a as int;
    lemma_mod_wrap(s1);
    let r1 = s1 % m;
    lemma_mod_wrap(r1 + b as int);
    lemma_mod_wrap(x as int + (a + b));
}

/// Reduction modulo 2^32 of a value below 2^33.
proof fn lemma_mod_wrap(s: int)
    requires
        0 <= s < 0x2_0000_0000,
    ensures
        s < 0x1_0000_0000 ==> s % 0x1_0000_0000 == s,
        s >= 0x1_0000_0000 ==> s % 0x1_0000_0000 == s - 0x1_0000_0000,
{
    let m = 0x1_0000_0000int;
    if s < m {
        vstd::arithmetic::div_mod::lemma_small_mod(s as nat, m as nat);
    } else {
        vstd::arithmetic::div_mod::lemma_fundamental_div_mod_converse(s, m, 1, s - m);
    }
}

/// Sending `c` more bytes grows the unacknowledged amount by `c`, while it
/// stays below 2^32.
pub proof fn lemma_outstanding_grows(n: u32, u: u32, c: u32)
    requires
        seq_sub(n, u) + c <= u32::MAX,
    ensures
        seq_sub(seq_add(n, c), u) == seq_sub(n, u) + c,
{
    let m = 0x1_0000_0000int;
    let s = n as int + c as int;
    if s < m {
        vstd::arithmetic::div_mod::lemma_small_mod(s as nat, m as nat);
    } else {
        vstd::arithmetic::div_mod::lemma_fundamental_div_mod_converse(s, m, 1, s - m);
    }
}

/// After `sent` and then `cap` more bytes went out from `n`, with `una`
/// acknowledged and a peer window of `wnd`, the window shrank by `cap`.
proof fn lemma_window_step(n: u32, una: u32, wnd: u32, sent: u32, cap: u32)
    requires
        seq_sub(n, una) <= wnd,
        sent + cap <= wnd - seq_sub(n, una),
    ensures
        seq_add(seq_add(n, sent), cap) == seq_add(n, (sent + cap) as u32),
        seq_sub(seq_add(n, (sent + cap) as u32), una) == seq_sub(n, una) + sent + cap,
{
    lemma_seq_add_add(n, sent, cap);
    lemma_outstanding_grows(n, una, (sent + cap) as u32);
}

/// `sent_payload` of a concatenation.
pub proof fn lemma_sent_payload_concat(a: Seq<TcpAction>, b: Seq<TcpAction>)
    ensures
        sent_payload(a + b) == sent_payload(a) + sent_payload(b),
    decreases b.len(),
{
    if b.len() == 0 {
        assert(a + b =~= a);
        assert(sent_payload(a) + sent_payload(b) =~= sent_payload(a));
    } else {
        lemma_sent_payload_concat(a, b.drop_last());
        assert((a + b).drop_last() =~= a + b.drop_last());
        assert(sent_payload(a) + sent_payload(b) =~= sent_payload(a) + sent_payload(b.drop_last())
            + match b.last() {
            TcpAction::Send(s) => s.data@,
            _ => Seq::empty(),
        });
    }
}

/// The `Send`s of `acts` go out back to back from sequence number `seq0`
/// (each at `seq0` plus the payload sent before it) with window `window`.
pub open spec fn seqs_from(acts: Seq<TcpAction>, seq0: u32, window: u16) -> bool {
    forall|i: int| 0 <= i < acts.len() ==> match #[trigger] acts[i] {
        TcpAction::Send(s) => s.seq == seq_add(seq0, sent_payload(acts.take(i)).len() as u32) && s.window == window,
        _ => true,
    }
}

/// Every `Send` of `acts` that does not reach the end of the first `total`
/// payload bytes carries 1460 bytes (only the last segment may be shorter).
pub open spec fn full_until(acts: Seq<TcpAction>, total: int) -> bool {
    forall|i: int| 0 <= i < acts.len() ==> match #[trigger] acts[i] {
        TcpAction::Send(s) => sent_payload(acts.take(i)).len() + s.data@.len() < total ==> s.data@.len() == 1460,
        _ => true,
    }
}

/// The one `Send` of `acts` has sequence number `seq`, window `window` and
/// `len` bytes, with no payload sent before it.
pub open spec fn one_segment(acts: Seq<TcpAction>, seq: u32, window: u16, len: int) -> bool {
    forall|i: int| 0 <= i < acts.len() ==> match #[trigger] acts[i] {
        TcpAction::Send(s) => s.seq == seq && s.window == window && s.data@.len() == len
            && sent_payload(acts.take(i)).len() == 0,
        _ => true,
    }
}

/// The payload sent by a prefix is at most that sent by the whole.
proof fn lemma_sent_payload_prefix(a: Seq<TcpAction>, j: int)
    requires
        0 <= j <= a.len(),
    ensures
        sent_payload(a.take(j)).len() <= sent_payload(a).len(),
{
    assert(a =~= a.take(j) + a.skip(j));
    lemma_sent_payload_concat(a.take(j), a.skip(j));
}

/// A single segment starts the run at its sequence number, and is full
/// unless it reaches the end.
proof fn lemma_one_segment(acts: Seq<TcpAction>, seq: u32, window: u16, len: int, total: int)
    requires
        one_segment(acts, seq, window, len),
        len < total ==> len == 1460,
    ensures
        seqs_from(acts, seq, window),
        full_until(acts, total),
{
    assert forall|i: int| 0 <= i < acts.len() implies match #[trigger] acts[i] {
        TcpAction::Send(s) => s.seq == seq_add(seq, sent_payload(acts.take(i)).len() as u32) && s.window == window,
        _ => true,
    } by {
        lemma_seq_add_zero(seq);
    }
}

/// Runs of segments join: the second continuing where the first ended.
proof fn lemma_segments_chain(p: Seq<TcpAction>, q: Seq<TcpAction>, seq0: u32, window: u16, total: int)
    requires
        seqs_from(p, seq0, window),
        seqs_from(q, seq_add(seq0, sent_payload(p).len() as u32), window),
        full_until(p, total),
        full_until(q, total - sent_payload(p).len()),
        sent_payload(p).len() + sent_payload(q).len() <= u32::MAX,
    ensures
        seqs_from(p + q, seq0, window),
        full_until(p + q, total),
{
    let r = p + q;
    let pl = sent_payload(p).len();
    assert forall|i: int| 0 <= i < r.len() implies (match #[trigger] r[i] {
        TcpAction::Send(s) => s.seq == seq_add(seq0, sent_payload(r.take(i)).len() as u32) && s.window == window,
        _ => true,
    }) && (match r[i] {
        TcpAction::Send(s) => sent_payload(r.take(i)).len() + s.data@.len() < total ==> s.data@.len() == 1460,
        _ => true,
    }) by {
        if i < p.len() {
            assert(r[i] == p[i]);
            assert(r.take(i) =~= p.take(i));
        } else {
            let j = i - p.len();
            assert(r[i] == q[j]);
            assert(r.take(i) =~= p + q.take(j));
            lemma_sent_payload_concat(p, q.take(j));
            lemma_sent_payload_prefix(q, j);
            let bq = sent_payload(q.take(j)).len();
            lemma_seq_add_add(seq0, pl as u32, bq as u32);
        }
    }
}

/// A run of segments followed by one more segment that continues it is
/// still a run.
proof fn lemma_run_step(
    a0: Seq<TcpAction>,
    a1: Seq<TcpAction>,
    a2: Seq<TcpAction>,
    seq0: u32,
    w: u16,
    total: int,
    sent: int,
    len: int,
)
    requires
        a0.len() <= a1.len() <= a2.len(),
        seqs_from(a1.subrange(a0.len() as int, a1.len() as int), seq0, w),
        full_until(a1.subrange(a0.len() as int, a1.len() as int), total),
        sent_payload(a1.subrange(a0.len() as int, a1.len() as int)).len() == sent,
        one_segment(a2.subrange(a1.len() as int, a2.len() as int), seq_add(seq0, sent as u32), w, len),
        sent_payload(a2.subrange(a1.len() as int, a2.len() as int)).len() == len,
        len < total - sent ==> len == 1460,
        0 <= sent,
        0 <= len,
        sent + len <= u32::MAX,
        a2.take(a1.len() as int) == a1,
    ensures
        seqs_from(a2.subrange(a0.len() as int, a2.len() as int), seq0, w),
        full_until(a2.subrange(a0.len() as int, a2.len() as int), total),
{
    let p = a1.subrange(a0.len() as int, a1.len() as int);
    let q = a2.subrange(a1.len() as int, a2.len() as int);
    lemma_one_segment(q, seq_add(seq0, sent as u32), w, len, total - sent);
    lemma_segments_chain(p, q, seq0, w, total);
    assert(a2.subrange(a0.len() as int, a2.len() as int) =~= p + q);
}

/// The actions appended to `a0` that became `a1`, then those that turned
/// `a1` into `a2`, make up those that turned `a0` into `a2`.
proof fn lemma_actions_chain(a0: Seq<TcpAction>, a1: Seq<TcpAction>, a2: Seq<TcpAction>, ack: u32)
    requires
        a0.len() <= a1.len() <= a2.len(),
        a1.take(a0.len() as int) == a0,
        a2.take(a1.len() as int) == a1,
        all_data_sends(a1.subrange(a0.len() as int, a1.len() as int), ack),
        all_data_sends(a2.subrange(a1.len() as int, a2.len() as int), ack),
    ensures
        a2.take(a0.len() as int) == a0,
        a2.subrange(a0.len() as int, a2.len() as int) == a1.subrange(a0.len() as int, a1.len() as int)
            + a2.subrange(a1.len() as int, a2.len() as int),
        sent_payload(a2.subrange(a0.len() as int, a2.len() as int)) == sent_payload(
            a1.subrange(a0.len() as int, a1.len() as int),
        ) + sent_payload(a2.subrange(a1.len() as int, a2.len() as int)),
        all_data_sends(a2.subrange(a0.len() as int, a2.len() as int), ack),
{
    let p = a1.subrange(a0.len() as int, a1.len() as int);
    let q = a2.subrange(a1.len() as int, a2.len() as int);
    assert(a2.take(a0.len() as int) =~= a0);
    assert(a2.subrange(a0.len() as int, a2.len() as int) =~= p + q);
    lemma_sent_payload_concat(p, q);
    let r = p + q;
    assert forall|i: int| 0 <= i < r.len() implies match #[trigger] r[i] {
        TcpAction::Send(s) => s.ack == Some(ack) && s.flags == FLAG_ACK && s.data@.len() <= 1460,
        TcpAction::StartTimer(k, t) => k == TimerKind::Tx && t == 1000,
        _ => false,
    } by {
        if i < p.len() {
            assert(r[i] == p[i]);
        } else {
            assert(r[i] == q[i - p.len()]);
        }
    }
}

/// How many bytes of the send buffer an acknowledgement of `ack_nr`
/// releases: those from the oldest unacknowledged one up to it, at most
/// all the buffer holds.
pub open spec fn acked_len(o: SocketData, ack_nr: u32) -> int {
    let n = seq_sub(ack_nr, o.ctl.snd_una) as int;
    if n < o.snd_buffer.count() { n } else { o.snd_buffer.count() }
}

/// The outcome of `process_ack`.
pub open spec fn ack_step(
    old_s: SocketData,
    ack_nr: u32,
    a0: Seq<TcpAction>,
    new_s: SocketData,
    a1: Seq<TcpAction>,
) -> bool {
    &&& old_s.ctl.snd_una == ack_nr ==> new_s == old_s && a1 == a0
    &&& old_s.ctl.snd_una != ack_nr ==> ({
        let o = old_s;
        let c1 = TransmissionCtl { snd_una: ack_nr, ..o.ctl };
        let win = c1.spec_available_window();
        let waiting = o.proxy_buffer.count();
        let t = if waiting < win {
            waiting
        } else {
            win
        };
        let new_acts = a1.subrange(
            a0.len() as int,
            a1.len() - 1,
        );
        &&& new_s.ctl == (TransmissionCtl {
            snd_una: ack_nr,
            snd_nxt: seq_add(o.ctl.snd_nxt, t as u32),
            ..o.ctl
        })
        &&& new_s.proxy_buffer.contents() == o.proxy_buffer.contents().skip(t)
        &&& new_s.state == o.state && new_s.in_buffer == o.in_buffer
            && new_s.src_port == o.src_port && new_s.dst_port == o.dst_port
            && new_s.target == o.target && new_s.conn_timer == o.conn_timer
        &&& new_s.in_closed == o.in_closed
        &&& new_s.snd_buffer.capacity() == o.snd_buffer.capacity()
        &&& new_s.snd_buffer.contents() == capped(
            o.snd_buffer.contents().skip(acked_len(o, ack_nr)) + o.proxy_buffer.contents().take(t),
            o.snd_buffer.capacity(),
        )
        &&& a1.len() >= a0.len() + 1
        &&& a1.take(a0.len() as int) == a0
        &&& a1.last() == TcpAction::NotifyWriter
        &&& sent_payload(new_acts) == o.proxy_buffer.contents().take(t)
        &&& all_data_sends(new_acts, o.ctl.rcv_nxt)
        &&& seqs_from(new_acts, o.ctl.snd_nxt, advertised_window(o.in_buffer))
        &&& full_until(new_acts, t)
    })
}

impl SocketData {
    /// Sends the next `cap` bytes of the overflow buffer in one segment,
    /// kept for retransmission.
    fn send_from_proxy(&mut self, cap: usize, actions: &mut Vec<TcpAction>)
        requires
            old(self).ready(),
            0 < cap <= 1460,
            cap <= old(self).proxy_buffer.count(),
        ensures
            final(self).ready(),
            final(self).ctl == (TransmissionCtl {
                snd_nxt: seq_add(old(self).ctl.snd_nxt, cap as u32),
                ..old(self).ctl
            }),
            final(self).state == old(self).state && final(self).in_buffer == old(self).in_buffer
                && final(self).src_port == old(self).src_port && final(self).dst_port == old(
                self).dst_port && final(self).target == old(self).target && final(self).conn_timer
                == old(self).conn_timer,
            final(self).proxy_buffer.contents() == old(self).proxy_buffer.contents().skip(cap as int),
            final(self).proxy_buffer.capacity() == old(self).proxy_buffer.capacity(),
            final(self).in_closed == old(self).in_closed,
            final(self).snd_buffer.capacity() == old(self).snd_buffer.capacity(),
            ({
                let free = old(self).snd_buffer.capacity() - old(self).snd_buffer.count();
                final(self).snd_buffer.contents() == old(self).snd_buffer.contents()
                    + old(self).proxy_buffer.contents().take(cap as int).take(if cap < free { cap as int } else { free })
            }),
            final(actions)@.len() > old(actions)@.len(),
            final(actions)@.take(old(actions)@.len() as int) == old(actions)@,
            sent_payload(final(actions)@.subrange(old(actions)@.len() as int, final(actions)@.len() as int))
                == old(self).proxy_buffer.contents().take(cap as int),
            all_data_sends(
                final(actions)@.subrange(old(actions)@.len() as int, final(actions)@.len() as int),
                old(self).ctl.rcv_nxt,
            ),
            one_segment(
                final(actions)@.subrange(old(actions)@.len() as int, final(actions)@.len() as int),
                old(self).ctl.snd_nxt,
                advertised_window(old(self).in_buffer),
                cap as int,
            ),
    {
        let ghost a1 = actions@;
        let mut packet = self.make_ack_packet(cap, 0);
        let ghost pc = self.proxy_buffer.contents();
        let _ = self.proxy_buffer.read_data(packet.data.as_mut_slice());
        assert(packet.data@ =~= pc.take(cap as int));
        proof {
            lemma_flag_bits();
        }
        self.send_packet(packet, true, actions);
        proof {
            let na = actions@.subrange(a1.len() as int, actions@.len() as int);
            if actions@.len() == a1.len() + 2 {
                assert(na =~= seq![TcpAction::StartTimer(TimerKind::Tx, 1000), TcpAction::Send(packet)]);
                assert(na.drop_last() =~= seq![TcpAction::StartTimer(TimerKind::Tx, 1000)]);
                assert(na.drop_last().drop_last() =~= Seq::<TcpAction>::empty());
            } else {
                assert(na =~= seq![TcpAction::Send(packet)]);
                assert(na.drop_last() =~= Seq::<TcpAction>::empty());
            }
            reveal_with_fuel(sent_payload, 3);
            assert(sent_payload(na) =~= packet.data@);
            assert forall|i: int| 0 <= i < na.len() implies match #[trigger] na[i] {
                TcpAction::Send(s) => s.seq == old(self).ctl.snd_nxt && s.window == advertised_window(old(self).in_buffer)
                    && s.data@.len() == cap && sent_payload(na.take(i)).len() == 0,
                _ => true,
            } by {
                if actions@.len() == a1.len() + 2 {
                    if i == 1 {
                        assert(na.take(1) =~= seq![TcpAction::StartTimer(TimerKind::Tx, 1000)]);
                        assert(na.take(1).drop_last() =~= Seq::<TcpAction>::empty());
                    }
                } else {
                    if i == 0 {
                        assert(na.take(0) =~= Seq::<TcpAction>::empty());
                    }
                }
            }
        }
    }

    /// Takes in an acknowledgement number. When it is new, the acknowledged
    /// bytes leave the send buffer and, while the peer's window allows,
    /// waiting bytes of the overflow buffer go out in segments of at most
    /// 1460 bytes (kept for retransmission); a writer is then woken.
    #[verifier::rlimit(60)]
    pub fn process_ack(&mut self, ack_nr: u32, actions: &mut Vec<TcpAction>)
        requires
            old(self).ready(),
        ensures
            final(self).ready(),
            ack_step(*old(self), ack_nr, old(actions)@, *final(self), final(actions)@),
    {
        if self.ctl.snd_una == ack_nr {
            return;
        }
        let ghost o = *self;
        let ghost a0 = actions@;
        let bytes_acked = wrapping_sub_u32(ack_nr, self.ctl.snd_una);
        let _ = self.snd_buffer.mark_as_read(bytes_acked as usize);
        let ghost s1 = self.snd_buffer.contents();
        self.ctl.snd_una = ack_nr;
        let ghost c1 = self.ctl;
        let ghost win0 = c1.spec_available_window();
        let ghost t = if o.proxy_buffer.count() < win0 {
            o.proxy_buffer.count()
        } else {
            win0
        };
        let mut window = self.ctl.available_window();
        let ghost mut sent: int = 0;
        assert(o.proxy_buffer.contents().take(0) =~= Seq::<u8>::empty());
        assert(actions@.subrange(a0.len() as int, actions@.len() as int) =~= Seq::<TcpAction>::empty());
        assert(o.proxy_buffer.contents().skip(0) =~= o.proxy_buffer.contents());
        proof {
            lemma_seq_add_zero(o.ctl.snd_nxt);
            assert(s1 + o.proxy_buffer.contents().take(0) =~= s1);
        }
        while self.proxy_buffer.has_data() && window > 0
            invariant
                self.ready(),
                self.state == o.state && self.in_buffer == o.in_buffer && self.src_port
                    == o.src_port && self.dst_port == o.dst_port && self.target == o.target
                    && self.conn_timer == o.conn_timer && self.in_closed == o.in_closed,
                self.ctl == (TransmissionCtl {
                    snd_una: ack_nr,
                    snd_nxt: seq_add(o.ctl.snd_nxt, sent as u32),
                    ..o.ctl
                }),
                c1 == (TransmissionCtl { snd_una: ack_nr, ..o.ctl }),
                win0 == c1.spec_available_window(),
                0 <= sent <= t,
                t == if o.proxy_buffer.count() < win0 {
                    o.proxy_buffer.count()
                } else {
                    win0
                },
                window == win0 - sent,
                seq_sub(o.ctl.snd_nxt, ack_nr) + win0 <= u32::MAX,
                self.proxy_buffer.contents() == o.proxy_buffer.contents().skip(sent),
                self.proxy_buffer.count() == o.proxy_buffer.count() - sent,
                self.snd_buffer.capacity() == o.snd_buffer.capacity(),
                s1 == o.snd_buffer.contents().skip(acked_len(o, ack_nr)),
                s1.len() <= o.snd_buffer.capacity(),
                self.snd_buffer.contents() == capped(s1 + o.proxy_buffer.contents().take(sent), o.snd_buffer.capacity()),
                actions@.take(a0.len() as int) == a0,
                actions@.len() >= a0.len(),
                sent_payload(actions@.subrange(a0.len() as int, actions@.len() as int))
                    == o.proxy_buffer.contents().take(sent),
                all_data_sends(actions@.subrange(a0.len() as int, actions@.len() as int), o.ctl.rcv_nxt),
                seqs_from(actions@.subrange(a0.len() as int, actions@.len() as int), o.ctl.snd_nxt, advertised_window(o.in_buffer)),
                full_until(actions@.subrange(a0.len() as int, actions@.len() as int), t),
            decreases self.proxy_buffer.count(),
        {
            let size = self.proxy_buffer.size();
            let inner: usize = if 1460 < window {
                1460
            } else {
                window
            };
            let cap = if size < inner {
                size
            } else {
                inner
            };
            assert(size > 0);
            assert(cap > 0 && cap <= 1460 && cap <= self.proxy_buffer.count());
            let ghost a1 = actions@;
            let ghost pc = self.proxy_buffer.contents();
            self.send_from_proxy(cap, actions);
            proof {
                lemma_capped_append(s1, o.proxy_buffer.contents().take(sent), pc.take(cap as int), o.snd_buffer.capacity() as int);
                assert(s1 + o.proxy_buffer.contents().take(sent) + pc.take(cap as int)
                    =~= s1 + o.proxy_buffer.contents().take(sent + cap));
                lemma_window_step(o.ctl.snd_nxt, ack_nr, c1.snd_wnd, sent as u32, cap as u32);
                assert(cap < t - sent ==> cap == 1460);
                lemma_run_step(a0, a1, actions@, o.ctl.snd_nxt, advertised_window(o.in_buffer), t, sent, cap as int);
                lemma_actions_chain(a0, a1, actions@, o.ctl.rcv_nxt);
                assert(o.proxy_buffer.contents().take(sent) + pc.take(cap as int)
                    =~= o.proxy_buffer.contents().take(sent + cap));
                sent = sent + cap;
                assert(self.proxy_buffer.contents() =~= o.proxy_buffer.contents().skip(sent));
            }
            window = self.ctl.available_window();
        }
        let ghost a2 = actions@;
        actions.push(TcpAction::NotifyWriter);
        assert(actions@.subrange(a0.len() as int, actions@.len() - 1) =~= a2.subrange(
            a0.len() as int,
            a2.len() as int,
        ));
        assert(actions@.take(a0.len() as int) =~= a0);
    }
}

/// The peer's window taken from `hdr`.
pub open spec fn with_peer_window(o: SocketData, hdr: TcpHeader) -> SocketData {
    SocketData { ctl: TransmissionCtl { snd_wnd: hdr.window.spec_value() as u32, ..o.ctl }, ..o }
}

/// The acknowledgement phase of `process`: `process_ack` when the ACK bit
/// is set, nothing otherwise.
pub open spec fn ack_phase(
    o: SocketData,
    hdr: TcpHeader,
    a0: Seq<TcpAction>,
    m: SocketData,
    am: Seq<TcpAction>,
) -> bool {
    if bit16(hdr.flags.spec_value(), 4) {
        ack_step(o, hdr.ack_nr.spec_value(), a0, m, am)
    } else {
        m == o && am == a0
    }
}

/// Whether the segment is dropped as out of order: outside `SynSent` (and
/// `Listen`), its sequence number is not the next one expected.
pub open spec fn out_of_order(m: SocketData, hdr: TcpHeader) -> bool {
    m.state != State::Listen && m.state != State::SynSent && m.ctl.rcv_nxt != hdr.seq_nr.spec_value()
}

/// The handler of the current state.
pub open spec fn dispatch_step(
    m: SocketData,
    hdr: TcpHeader,
    data: Seq<u8>,
    am: Seq<TcpAction>,
    d: SocketData,
    ad: Seq<TcpAction>,
) -> bool {
    match m.state {
        State::SynReceived => syn_received_step(m, hdr, am, d, ad),
        State::SynSent => syn_sent_step(m, hdr, data, am, d, ad),
        State::Established => established_step(m, hdr, data, am, d, ad),
        State::FinWait1 => finwait1_step(m, hdr, data, am, d, ad),
        State::FinWait2 => finwait2_step(m, hdr, data, am, d, ad),
        State::LastAck => lastack_step(m, hdr, am, d, ad),
        State::Closing => closing_step(m, hdr, am, d, ad),
        _ => d == m && ad == am,
    }
}

/// The reset phase: an RST ends a connection that is still open.
pub open spec fn rst_phase(
    d: SocketData,
    hdr: TcpHeader,
    ad: Seq<TcpAction>,
    s: SocketData,
    a1: Seq<TcpAction>,
) -> bool {
    if bit16(hdr.flags.spec_value(), 2) && d.state != State::Closed && d.state != State::Listen {
        &&& s == (SocketData {
            state: State::Closed,
            in_closed: true,
            conn_timer: ConnTimer { timeout: 1000, timeout_count: 0 },
            ..d
        })
        &&& a1 == ad + finalize_actions(d.src_port, d.target) + seq![TcpAction::NotifyReaders]
    } else {
        s == d && a1 == ad
    }
}

/// The outcome of `process`: the peer's window is recorded, an ACK is
/// processed, an out-of-order segment is dropped; otherwise the state's
/// handler runs and an RST then ends the connection.
pub open spec fn process_step(
    o: SocketData,
    hdr: TcpHeader,
    data: Seq<u8>,
    a0: Seq<TcpAction>,
    s: SocketData,
    a1: Seq<TcpAction>,
) -> bool {
    exists|m: SocketData, am: Seq<TcpAction>|
        #[trigger] ack_phase(with_peer_window(o, hdr), hdr, a0, m, am) && if out_of_order(m, hdr) {
            s == m && a1 == am
        } else {
            exists|d: SocketData, ad: Seq<TcpAction>|
                #[trigger] dispatch_step(m, hdr, data, am, d, ad) && rst_phase(d, hdr, ad, s, a1)
        }
}

impl SocketData {
    /// Takes in a segment of an open connection (one that is not listening):
    /// records the peer's window, processes its acknowledgement, drops it
    /// when out of order, and otherwise hands it to the handler of the
    /// current state; an RST then ends the connection.
    pub fn process(&mut self, hdr: &TcpHeader, data: &[u8], actions: &mut Vec<TcpAction>)
        requires
            old(self).ready(),
            old(self).state != State::Listen,
            data.len() <= 0xffff,
        ensures
            final(self).ready(),
            process_step(*old(self), *hdr, data@, old(actions)@, *final(self), final(actions)@),
    {
        let ghost a0 = actions@;
        self.ctl.snd_wnd = hdr.window() as u32;
        let ghost o1 = *self;
        assert(o1 == with_peer_window(*old(self), *hdr));
        if hdr.flag_ack() {
            self.process_ack(hdr.ack_nr(), actions);
        }
        let ghost m = *self;
        let ghost am = actions@;
        assert(ack_phase(o1, *hdr, a0, m, am));
        if self.state != State::Listen && self.state != State::SynSent {
            if self.ctl.rcv_nxt != hdr.seq_nr() {
                assert(out_of_order(m, *hdr));
                return;
            }
        }
        match self.state {
            State::SynReceived => self.handle_syn_received(hdr, actions),
            State::SynSent => self.handle_syn_sent(hdr, data, actions),
            State::Established => self.handle_established(hdr, data, actions),
            State::FinWait1 => self.handle_finwait1(hdr, data, actions),
            State::FinWait2 => self.handle_finwait2(hdr, data, actions),
            State::LastAck => self.handle_lastack(hdr, actions),
            State::Closing => self.handle_closing(hdr, actions),
            _ => {},
        }
        let ghost d = *self;
        let ghost ad = actions@;
        assert(dispatch_step(m, *hdr, data@, am, d, ad));
        if hdr.flag_rst() && self.state != State::Closed && self.state != State::Listen {
            self.finalize(actions);
        }
        assert(rst_phase(d, *hdr, ad, *self, actions@));
    }
}

/// The payload a retransmission carries: the first `len` bytes that a
/// read at offset 0 of the send buffer yields without consuming.
pub open spec fn resent_payload(b: Buffer, len: int) -> Seq<u8> {
    Seq::new(len as nat, |k: int| b.transient_byte(k))
}

/// The size of the retransmitted segment: the bytes held, at most 1460.
pub open spec fn resend_len(b: Buffer) -> int {
    if 1460 < b.count() {
        1460
    } else {
        b.count()
    }
}

impl SocketData {
    /// The retransmission timer fired: when unacknowledged bytes are kept,
    /// the first segment of them (at most 1460 bytes, from the oldest
    /// unacknowledged sequence number) is sent again and the timer
    /// restarted; otherwise the timer is stopped.
    pub fn tx_timeout(&self, actions: &mut Vec<TcpAction>)
        requires
            self.ready(),
            self.snd_buffer.count() > 0 ==> self.snd_buffer.transient_len(0, resend_len(self.snd_buffer))
                == resend_len(self.snd_buffer),
        ensures
            self.snd_buffer.count() > 0 ==> ({
                let len = resend_len(self.snd_buffer);
                &&& final(actions)@.len() == old(actions)@.len() + 2
                &&& final(actions)@.take(old(actions)@.len() as int) == old(actions)@
                &&& final(actions)@[old(actions)@.len() as int] matches TcpAction::Resend(seg) && seg.seq
                    == self.ctl.snd_una && seg.ack == Some(self.ctl.rcv_nxt) && seg.flags == FLAG_ACK
                    && seg.window == advertised_window(self.in_buffer) && seg.data@ == resent_payload(
                    self.snd_buffer,
                    len,
                )
                &&& final(actions)@.last() == TcpAction::StartTimer(TimerKind::Tx, 1000)
            }),
            self.snd_buffer.count() == 0 ==> final(actions)@ == old(actions)@.push(TcpAction::DisableTimer(TimerKind::Tx)),
    {
        if self.snd_buffer.has_data() {
            let size = self.snd_buffer.size();
            let len: usize = if 1460 < size {
                1460
            } else {
                size
            };
            let mut packet = self.make_ack_packet(len, 0);
            packet.seq = self.ctl.snd_una;
            let _ = self.snd_buffer.read_data_transient_from(0, packet.data.as_mut_slice());
            assert(packet.data@ =~= resent_payload(self.snd_buffer, len as int));
            proof {
                lemma_flag_bits();
            }
            let ghost a0 = actions@;
            actions.push(TcpAction::Resend(packet));
            actions.push(TcpAction::StartTimer(TimerKind::Tx, 1000));
            assert(actions@.take(a0.len() as int) =~= a0);
        } else {
            actions.push(TcpAction::DisableTimer(TimerKind::Tx));
        }
    }

    /// Takes the peer of a segment `hdr` (from `src_ip`) as the other end.
    pub fn setup_connection(&mut self, hdr: &TcpHeader, src_ip: Ip4)
        ensures
            *final(self) == (SocketData { dst_port: hdr.src_port.spec_value(), target: src_ip, ..*old(self) }),
    {
        self.dst_port = hdr.src_port();
        self.target = src_ip;
    }

    /// Sets up the socket of a connection that a SYN `hdr` (with `data`,
    /// from `src_ip`) opens on the local port `src_port`: the peer's
    /// initial sequence number is recorded, the segment acknowledged and the
    /// state becomes `SynReceived`.
    pub fn init_connected(&mut self, src_port: u16, hdr: &TcpHeader, data: &[u8], src_ip: Ip4)
        requires
            data.len() <= 0xffff,
        ensures
            *final(self) == (SocketData {
                src_port,
                dst_port: hdr.src_port.spec_value(),
                target: src_ip,
                state: State::SynReceived,
                ctl: TransmissionCtl {
                    iss: hdr.seq_nr.spec_value(),
                    irs: hdr.seq_nr.spec_value(),
                    rcv_nxt: seq_add(hdr.seq_nr.spec_value(), in_ack_len(hdr.flags.spec_value(), data@.len() as int) as u32),
                    ..old(self).ctl
                },
                ..*old(self)
            }),
    {
        self.set_src_port(src_port);
        let s = hdr.seq_nr();
        self.ctl.iss = s;
        self.ctl.irs = s;
        self.setup_connection(hdr, src_ip);
        let al = incoming_ack_len(hdr, data);
        self.update_rcv_next(s, al);
        self.state = State::SynReceived;
    }

    /// The socket of a new connection to the listening `from`, opened by the
    /// SYN `hdr` (with `data`, from `src_ip`): buffers without room, the
    /// sequence numbers of `from`, set up by `init_connected`.
    pub fn new_connected(from: &SocketData, hdr: &TcpHeader, data: &[u8], src_ip: Ip4) -> (s: SocketData)
        requires
            data.len() <= 0xffff,
            from.ctl.rcv_wnd < 16384,
        ensures
            s.wf(),
            s.in_buffer.capacity() == 0 && s.proxy_buffer.capacity() == 0 && s.snd_buffer.capacity() == 0,
            s.in_buffer.rpos() == 0 && s.in_buffer.wpos() == 0 && s.proxy_buffer.rpos() == 0
                && s.proxy_buffer.wpos() == 0 && s.snd_buffer.rpos() == 0 && s.snd_buffer.wpos() == 0,
            !s.in_closed,
            s.conn_timer.timeout == 0 && s.conn_timer.timeout_count == 0,
            s.src_port == from.src_port && s.dst_port == hdr.src_port.spec_value() && s.target == src_ip,
            s.state == State::SynReceived,
            s.ctl == (TransmissionCtl {
                iss: hdr.seq_nr.spec_value(),
                irs: hdr.seq_nr.spec_value(),
                rcv_nxt: seq_add(hdr.seq_nr.spec_value(), in_ack_len(hdr.flags.spec_value(), data@.len() as int) as u32),
                ..from.ctl
            }),
    {
        let mut d = SocketData::new_unbound();
        d.ctl = from.ctl;
        d.init_connected(from.src_port, hdr, data, src_ip);
        d
    }

    /// A segment to a listening socket: a SYN without ACK opens a connection,
    /// whose socket (with room in its buffers) answers with SYN and ACK; it
    /// is returned with that answer. Anything else is ignored.
    pub fn process_new_connection(&self, hdr: &TcpHeader, data: &[u8], src_ip: Ip4) -> (r: Option<(SocketData, Vec<TcpAction>)>)
        requires
            data.len() <= 0xffff,
            self.ctl.rcv_wnd < 16384,
        ensures
            (bit16(hdr.flags.spec_value(), 1) && !bit16(hdr.flags.spec_value(), 4)) <==> r is Some,
            r matches Some((s, acts)) ==> {
                let rn = seq_add(hdr.seq_nr.spec_value(), in_ack_len(hdr.flags.spec_value(), data@.len() as int) as u32);
                &&& s.ready()
                &&& s.src_port == self.src_port && s.dst_port == hdr.src_port.spec_value() && s.target == src_ip
                &&& s.state == State::SynReceived
                &&& s.in_buffer.capacity() == 4096 * 18 && s.in_buffer.count() == 0
                &&& s.ctl == after_empty_send(TransmissionCtl {
                    iss: hdr.seq_nr.spec_value(),
                    irs: hdr.seq_nr.spec_value(),
                    rcv_nxt: rn,
                    ..self.ctl
                }, (FLAG_SYN | FLAG_ACK) as u16)
                &&& acts@.len() == 1
                &&& acts@[0] matches TcpAction::Send(seg) && seg.seq == self.ctl.snd_nxt && seg.ack == Some(rn)
                    && seg.flags == FLAG_SYN | FLAG_ACK && seg.data@.len() == 0
            },
    {
        if hdr.flag_syn() && !hdr.flag_ack() {
            let mut d = SocketData::new_connected(self, hdr, data, src_ip);
            d.init(false);
            let mut acts: Vec<TcpAction> = Vec::new();
            d.send_ack_flags(FLAG_SYN, &mut acts);
            proof {
                lemma_seq_add_zero(d.ctl.snd_nxt);
            }
            Some((d, acts))
        } else {
            None
        }
    }
}

/// `s`, cut to its first `cap` elements when longer.
pub open spec fn capped(s: Seq<u8>, cap: int) -> Seq<u8> {
    if s.len() <= cap {
        s
    } else {
        s.take(cap)
    }
}

/// Whether every action of `acts` is a `Send` of a data segment
/// acknowledging `ack` (ACK its only flag, at most 1460 bytes), the start of
/// the retransmission timer, or the stop of the delayed-ACK timer.
pub open spec fn write_sends(acts: Seq<TcpAction>, ack: u32) -> bool {
    forall|i: int| 0 <= i < acts.len() ==> match #[trigger] acts[i] {
        TcpAction::Send(s) => s.ack == Some(ack) && s.flags == FLAG_ACK && s.data@.len() <= 1460,
        TcpAction::StartTimer(k, t) => k == TimerKind::Tx && t == 1000,
        TcpAction::DisableTimer(k) => k == TimerKind::Rx,
        _ => false,
    }
}

/// Appending to a ring capped at `cap` in two steps is appending once.
proof fn lemma_capped_append(c: Seq<u8>, d1: Seq<u8>, d2: Seq<u8>, cap: int)
    requires
        c.len() <= cap,
        0 <= cap,
    ensures
        ({
            let a = capped(c + d1, cap);
            let n = if d2.len() < cap - a.len() { d2.len() as int } else { cap - a.len() };
            a + d2.take(n) == capped(c + d1 + d2, cap)
        }),
{
    let a = capped(c + d1, cap);
    let n = if d2.len() < cap - a.len() { d2.len() as int } else { cap - a.len() };
    if c.len() + d1.len() <= cap {
        assert(a == c + d1);
        if c.len() + d1.len() + d2.len() <= cap {
            assert(d2.take(n) =~= d2);
            assert(a + d2.take(n) =~= c + d1 + d2);
        } else {
            assert(a + d2.take(n) =~= (c + d1 + d2).take(cap));
        }
    } else {
        assert(n == 0);
        assert(a + d2.take(n) =~= (c + d1 + d2).take(cap));
    }
}

/// The chaining of `lemma_actions_chain`, for `write_sends`.
proof fn lemma_write_chain(a0: Seq<TcpAction>, a1: Seq<TcpAction>, a2: Seq<TcpAction>, ack: u32)
    requires
        a0.len() <= a1.len() <= a2.len(),
        a1.take(a0.len() as int) == a0,
        a2.take(a1.len() as int) == a1,
        write_sends(a1.subrange(a0.len() as int, a1.len() as int), ack),
        write_sends(a2.subrange(a1.len() as int, a2.len() as int), ack),
    ensures
        a2.take(a0.len() as int) == a0,
        sent_payload(a2.subrange(a0.len() as int, a2.len() as int)) == sent_payload(
            a1.subrange(a0.len() as int, a1.len() as int),
        ) + sent_payload(a2.subrange(a1.len() as int, a2.len() as int)),
        write_sends(a2.subrange(a0.len() as int, a2.len() as int), ack),
{
    let p = a1.subrange(a0.len() as int, a1.len() as int);
    let q = a2.subrange(a1.len() as int, a2.len() as int);
    assert(a2.take(a0.len() as int) =~= a0);
    assert(a2.subrange(a0.len() as int, a2.len() as int) =~= p + q);
    lemma_sent_payload_concat(p, q);
    let r = p + q;
    assert forall|i: int| 0 <= i < r.len() implies match #[trigger] r[i] {
        TcpAction::Send(s) => s.ack == Some(ack) && s.flags == FLAG_ACK && s.data@.len() <= 1460,
        TcpAction::StartTimer(k, t) => k == TimerKind::Tx && t == 1000,
        TcpAction::DisableTimer(k) => k == TimerKind::Rx,
        _ => false,
    } by {
        if i < p.len() {
            assert(r[i] == p[i]);
        } else {
            assert(r[i] == q[i - p.len()]);
        }
    }
}

impl SocketData {
    /// Sends `buf[off..off + len]` in one segment, kept for retransmission,
    /// and stops the delayed acknowledgement.
    fn send_chunk(&mut self, buf: &[u8], off: usize, len: usize, actions: &mut Vec<TcpAction>)
        requires
            old(self).ready(),
            0 < len <= 1460,
            off + len <= buf.len(),
        ensures
            final(self).ready(),
            final(self).ctl == (TransmissionCtl {
                snd_nxt: seq_add(old(self).ctl.snd_nxt, len as u32),
                rcv_wnd: 0,
                ..old(self).ctl
            }),
            final(self).state == old(self).state && final(self).in_buffer == old(self).in_buffer
                && final(self).proxy_buffer == old(self).proxy_buffer && final(self).src_port == old(self).src_port
                && final(self).dst_port == old(self).dst_port && final(self).target == old(self).target
                && final(self).conn_timer == old(self).conn_timer && final(self).in_closed == old(self).in_closed,
            final(self).snd_buffer.capacity() == old(self).snd_buffer.capacity(),
            ({
                let free = old(self).snd_buffer.capacity() - old(self).snd_buffer.count();
                let chunk = buf@.subrange(off as int, off + len);
                final(self).snd_buffer.contents() == old(self).snd_buffer.contents() + chunk.take(
                    if len < free { len as int } else { free },
                )
            }),
            final(actions)@.take(old(actions)@.len() as int) == old(actions)@,
            final(actions)@.len() > old(actions)@.len(),
            sent_payload(final(actions)@.subrange(old(actions)@.len() as int, final(actions)@.len() as int))
                == buf@.subrange(off as int, off + len),
            write_sends(final(actions)@.subrange(old(actions)@.len() as int, final(actions)@.len() as int), old(self).ctl.rcv_nxt),
            one_segment(
                final(actions)@.subrange(old(actions)@.len() as int, final(actions)@.len() as int),
                old(self).ctl.snd_nxt,
                advertised_window(old(self).in_buffer),
                len as int,
            ),
    {
        let ghost a1 = actions@;
        let mut chunk: Vec<u8> = Vec::new();
        let mut k: usize = 0;
        while k < len
            invariant
                k <= len,
                off + len <= buf@.len(),
                buf@.len() == buf.len(),
                chunk@ == buf@.subrange(off as int, off + k),
            decreases len - k,
        {
            chunk.push(buf[off + k]);
            k = k + 1;
            assert(chunk@ =~= buf@.subrange(off as int, off + k));
        }
        let mut packet = self.make_ack_packet(len, 0);
        packet.data = chunk;
        assert(packet.data@ =~= buf@.subrange(off as int, off + len));
        proof {
            lemma_flag_bits();
        }
        assert(packet.flags == FLAG_ACK);
        assert(spec_ack_len(packet.flags, packet.data@.len() as int) == len);
        let ghost pk = packet;
        self.send_packet(packet, true, actions);
        self.ctl.rcv_wnd = 0;
        actions.push(TcpAction::DisableTimer(TimerKind::Rx));
        proof {
            let na = actions@.subrange(a1.len() as int, actions@.len() as int);
            assert forall|i: int| 0 <= i < na.len() implies match #[trigger] na[i] {
                TcpAction::Send(s) => s.ack == Some(old(self).ctl.rcv_nxt) && s.flags == FLAG_ACK && s.data@.len() <= 1460,
                TcpAction::StartTimer(k, t) => k == TimerKind::Tx && t == 1000,
                TcpAction::DisableTimer(k) => k == TimerKind::Rx,
                _ => false,
            } by {
                if actions@.len() == a1.len() + 3 {
                    if i == 1 {
                        assert(na[i] == TcpAction::Send(pk));
                    }
                } else {
                    if i == 0 {
                        assert(na[i] == TcpAction::Send(pk));
                    }
                }
            }
            reveal_with_fuel(sent_payload, 4);
            if actions@.len() == a1.len() + 3 {
                assert(na =~= seq![TcpAction::StartTimer(TimerKind::Tx, 1000), TcpAction::Send(packet), TcpAction::DisableTimer(TimerKind::Rx)]);
                assert(na.drop_last() =~= seq![TcpAction::StartTimer(TimerKind::Tx, 1000), TcpAction::Send(packet)]);
                assert(na.drop_last().drop_last() =~= seq![TcpAction::StartTimer(TimerKind::Tx, 1000)]);
                assert(na.drop_last().drop_last().drop_last() =~= Seq::<TcpAction>::empty());
            } else {
                assert(na =~= seq![TcpAction::Send(packet), TcpAction::DisableTimer(TimerKind::Rx)]);
                assert(na.drop_last() =~= seq![TcpAction::Send(packet)]);
                assert(na.drop_last().drop_last() =~= Seq::<TcpAction>::empty());
            }
            assert(sent_payload(na) =~= packet.data@);
            assert(actions@.take(a1.len() as int) =~= a1);
            assert forall|i: int| 0 <= i < na.len() implies match #[trigger] na[i] {
                TcpAction::Send(s) => s.seq == old(self).ctl.snd_nxt && s.window == advertised_window(old(self).in_buffer)
                    && s.data@.len() == len && sent_payload(na.take(i)).len() == 0,
                _ => true,
            } by {
                if actions@.len() == a1.len() + 3 {
                    if i == 1 {
                        assert(na.take(1) =~= seq![TcpAction::StartTimer(TimerKind::Tx, 1000)]);
                        assert(na.take(1).drop_last() =~= Seq::<TcpAction>::empty());
                    }
                } else {
                    if i == 0 {
                        assert(na.take(0) =~= Seq::<TcpAction>::empty());
                    }
                }
            }
        }
    }

    /// Sends `buf` in segments of at most 1460 bytes, each kept for
    /// retransmission and each stopping the delayed acknowledgement (the
    /// received count goes back to 0). The peer's window has room for all.
    fn send_chunks(&mut self, buf: &[u8], actions: &mut Vec<TcpAction>)
        requires
            old(self).ready(),
            buf.len() <= old(self).ctl.spec_available_window(),
        ensures
            final(self).ready(),
            final(self).ctl == (TransmissionCtl {
                snd_nxt: seq_add(old(self).ctl.snd_nxt, buf.len() as u32),
                rcv_wnd: if buf.len() > 0 { 0 } else { old(self).ctl.rcv_wnd },
                ..old(self).ctl
            }),
            final(self).state == old(self).state && final(self).in_buffer == old(self).in_buffer
                && final(self).proxy_buffer == old(self).proxy_buffer && final(self).src_port == old(self).src_port
                && final(self).dst_port == old(self).dst_port && final(self).target == old(self).target
                && final(self).conn_timer == old(self).conn_timer && final(self).in_closed == old(self).in_closed,
            final(self).snd_buffer.capacity() == old(self).snd_buffer.capacity(),
            final(self).snd_buffer.contents() == capped(old(self).snd_buffer.contents() + buf@, old(self).snd_buffer.capacity()),
            final(actions)@.take(old(actions)@.len() as int) == old(actions)@,
            final(actions)@.len() >= old(actions)@.len(),
            sent_payload(final(actions)@.subrange(old(actions)@.len() as int, final(actions)@.len() as int)) == buf@,
            write_sends(final(actions)@.subrange(old(actions)@.len() as int, final(actions)@.len() as int), old(self).ctl.rcv_nxt),
            seqs_from(
                final(actions)@.subrange(old(actions)@.len() as int, final(actions)@.len() as int),
                old(self).ctl.snd_nxt,
                advertised_window(old(self).in_buffer),
            ),
            full_until(final(actions)@.subrange(old(actions)@.len() as int, final(actions)@.len() as int), buf@.len() as int),
    {
        let ghost o = *self;
        let ghost a0 = actions@;
        let mut off: usize = 0;
        proof {
            lemma_seq_add_zero(o.ctl.snd_nxt);
            assert(buf@.take(0) =~= Seq::<u8>::empty());
            assert(actions@.subrange(a0.len() as int, actions@.len() as int) =~= Seq::<TcpAction>::empty());
            assert(o.snd_buffer.contents() + buf@.take(0) =~= o.snd_buffer.contents());
            assert(actions@.take(a0.len() as int) =~= a0);
        }
        while off < buf.len()
            invariant
                o.ready(),
                self.ready(),
                off <= buf@.len(),
                buf@.len() <= o.ctl.spec_available_window(),
                self.ctl == (TransmissionCtl {
                    snd_nxt: seq_add(o.ctl.snd_nxt, off as u32),
                    rcv_wnd: if off > 0 { 0 } else { o.ctl.rcv_wnd },
                    ..o.ctl
                }),
                self.state == o.state && self.in_buffer == o.in_buffer && self.proxy_buffer == o.proxy_buffer
                    && self.src_port == o.src_port && self.dst_port == o.dst_port && self.target == o.target
                    && self.conn_timer == o.conn_timer && self.in_closed == o.in_closed,
                self.snd_buffer.capacity() == o.snd_buffer.capacity(),
                self.snd_buffer.contents() == capped(o.snd_buffer.contents() + buf@.take(off as int), o.snd_buffer.capacity()),
                actions@.take(a0.len() as int) == a0,
                actions@.len() >= a0.len(),
                sent_payload(actions@.subrange(a0.len() as int, actions@.len() as int)) == buf@.take(off as int),
                write_sends(actions@.subrange(a0.len() as int, actions@.len() as int), o.ctl.rcv_nxt),
                seqs_from(actions@.subrange(a0.len() as int, actions@.len() as int), o.ctl.snd_nxt, advertised_window(o.in_buffer)),
                full_until(actions@.subrange(a0.len() as int, actions@.len() as int), buf@.len() as int),
            decreases buf@.len() - off,
        {
            let len: usize = if 1460 < buf.len() - off {
                1460
            } else {
                buf.len() - off
            };
            let ghost a1 = actions@;
            let ghost chunk = buf@.subrange(off as int, off + len);
            proof {
                lemma_window_step(o.ctl.snd_nxt, o.ctl.snd_una, o.ctl.snd_wnd, off as u32, len as u32);
                lemma_capped_append(o.snd_buffer.contents(), buf@.take(off as int), chunk, o.snd_buffer.capacity());
                assert(buf@.take(off as int) + chunk =~= buf@.take(off + len));
                assert(o.snd_buffer.contents() + buf@.take(off as int) + chunk =~= o.snd_buffer.contents() + buf@.take(off + len));
            }
            self.send_chunk(buf, off, len, actions);
            proof {
                lemma_run_step(a0, a1, actions@, o.ctl.snd_nxt, advertised_window(o.in_buffer), buf@.len() as int,
                    off as int, len as int);
                lemma_write_chain(a0, a1, actions@, o.ctl.rcv_nxt);
                assert(buf@.take(off as int) + chunk =~= buf@.take(off + len));
            }
            off = off + len;
        }
        assert(buf@.take(buf@.len() as int) =~= buf@);
    }
}

} // verus!

verus! {

/// A TCP socket: the connection, and the sockets of accepted connections
/// not yet handed out (by handle).
pub struct Socket {
    pub data: SocketData,
    pub connections: Vec<usize>,
}

/// A wait queue a poller of a TCP socket is to be put on.
#[derive(Debug, Copy, Clone, PartialEq, Eq, Structural)]
pub enum TcpPollWait {
    /// The queue of new connections.
    Connections,
    /// The readers of the receive buffer.
    InReaders,
    /// The writers waiting for room in the overflow buffer.
    ProxyWriters,
}

/// What a poll found, and where the poller is to wait.
pub struct TcpPollAnswer {
    pub events: u64,
    pub waits: Vec<TcpPollWait>,
}

/// The size of a socket address in bytes.
pub const SOCKADDR_SIZE: u32 = 16;

impl Socket {
    /// A socket with no port, no room in its buffers and no connections.
    pub fn new_unbound() -> (s: Socket)
        ensures
            s.data.wf(),
            s.data.state == State::Closed && s.data.src_port == 0 && s.data.dst_port == 0,
            s.data.in_buffer.capacity() == 0 && s.data.proxy_buffer.capacity() == 0 && s.data.snd_buffer.capacity() == 0,
            s.data.in_buffer.rpos() == 0 && s.data.in_buffer.wpos() == 0 && s.data.proxy_buffer.rpos() == 0
                && s.data.proxy_buffer.wpos() == 0 && s.data.snd_buffer.rpos() == 0 && s.data.snd_buffer.wpos() == 0,
            s.connections@.len() == 0,
    {
        Socket { data: SocketData::new_unbound(), connections: Vec::new() }
    }

    /// A read of received bytes into `buf`. A listening socket answers
    /// `NotSupported`. It waits while nothing was received and the
    /// connection is not over. When the receive buffer was full at the
    /// first try (`wnd`: `None` then, the answer of the first try after),
    /// the read opens the window and an acknowledgement goes out. Returns
    /// the step and the window answer to hand to a later try.
    pub fn read_at(&mut self, buf: &mut [u8], wnd: Option<bool>, actions: &mut Vec<TcpAction>) -> (r: (Step<Result<usize, FsError>>, bool))
        requires
            old(self).data.wf(),
            old(self).data.state != State::Listen && old(self).data.in_buffer.capacity() == 0
                ==> !old(self).data.in_buffer.is_full(),
        ensures
            final(self).data.wf(),
            old(self).data.ready() ==> final(self).data.ready(),
            final(self).connections == old(self).connections,
            final(buf)@.len() == old(buf)@.len(),
            ({
                let d = old(self).data;
                let full = match wnd {
                    Some(w) => w,
                    None => d.in_buffer.capacity() - d.in_buffer.count() == 0,
                };
                let ready = d.in_buffer.count() > 0 || d.in_buffer.is_full() || d.in_closed;
                if d.state == State::Listen {
                    r == (Step::Done(Err::<usize, FsError>(FsError::NotSupported)), false) && final(self).data == d
                        && final(actions)@ == old(actions)@
                } else if !ready {
                    r == (Step::<Result<usize, FsError>>::Wait, full) && final(self).data == d && final(actions)@ == old(actions)@
                        && final(buf)@ == old(buf)@
                } else {
                    let n = if old(buf)@.len() < d.in_buffer.count() { old(buf)@.len() as int } else { d.in_buffer.count() };
                    &&& r == (Step::Done(Ok::<usize, FsError>(n as usize)), full)
                    &&& final(self).data.in_buffer.contents() == d.in_buffer.contents().skip(n)
                    &&& final(self).data.in_buffer.capacity() == d.in_buffer.capacity()
                    &&& final(buf)@.take(n) == d.in_buffer.contents().take(n)
                    &&& final(buf)@.skip(n) == old(buf)@.skip(n)
                    &&& final(self).data == (SocketData {
                        in_buffer: final(self).data.in_buffer,
                        ctl: if full { after_empty_send(d.ctl, FLAG_ACK) } else { d.ctl },
                        ..d
                    })
                    &&& full ==> final(actions)@.len() == old(actions)@.len() + 1 && final(actions)@.take(old(actions)@.len() as int)
                        == old(actions)@ && is_ack_send(final(actions)@.last(), SocketData { in_buffer: final(self).data.in_buffer, ..d }, 0)
                    &&& !full ==> final(actions)@ == old(actions)@
                }
            }),
    {
        if self.data.is_listening() {
            return (Step::Done(Err(FsError::NotSupported)), false);
        }
        let full = match wnd {
            Some(w) => w,
            None => self.data.in_buffer.available_size() == 0,
        };
        if !(self.data.in_buffer.has_data() || self.data.in_closed) {
            return (Step::Wait, full);
        }
        let n = self.data.in_buffer.read_data(buf);
        if full {
            self.data.send_ack(actions);
        }
        (Step::Done(Ok(n)), full)
    }

    /// A write of `buf` on an established connection (anything else answers
    /// `NotSupported`, a listening socket first). When the peer's window has
    /// room for it all, it goes out at once in segments of at most 1460
    /// bytes; otherwise (or when `queued`: a retry after such a wait) it
    /// waits until the overflow buffer has room for it all and is put
    /// there. The whole length is answered.
    pub fn write_at(&mut self, buf: &[u8], queued: bool, actions: &mut Vec<TcpAction>) -> (r: Step<Result<usize, FsError>>)
        requires
            old(self).data.wf(),
            old(self).data.state == State::Established ==> old(self).data.ready(),
        ensures
            final(self).data.wf(),
            old(self).data.ready() ==> final(self).data.ready(),
            final(self).connections == old(self).connections,
            ({
                let d = old(self).data;
                let direct = !queued && buf@.len() <= d.ctl.spec_available_window();
                let room = d.proxy_buffer.capacity() - d.proxy_buffer.count();
                if d.state == State::Listen || d.state != State::Established {
                    r == Step::Done(Err::<usize, FsError>(FsError::NotSupported)) && final(self).data == d
                        && final(actions)@ == old(actions)@
                } else if direct {
                    let na = final(actions)@.subrange(old(actions)@.len() as int, final(actions)@.len() as int);
                    &&& r == Step::Done(Ok::<usize, FsError>(buf@.len() as usize))
                    &&& final(self).data.ctl == (TransmissionCtl {
                        snd_nxt: seq_add(d.ctl.snd_nxt, buf@.len() as u32),
                        rcv_wnd: if buf@.len() > 0 { 0 } else { d.ctl.rcv_wnd },
                        ..d.ctl
                    })
                    &&& final(self).data == (SocketData { ctl: final(self).data.ctl, snd_buffer: final(self).data.snd_buffer, ..d })
                    &&& final(self).data.snd_buffer.contents() == capped(d.snd_buffer.contents() + buf@, d.snd_buffer.capacity())
                    &&& final(actions)@.take(old(actions)@.len() as int) == old(actions)@
                    &&& sent_payload(na) == buf@
                    &&& write_sends(na, d.ctl.rcv_nxt)
                    &&& seqs_from(na, d.ctl.snd_nxt, advertised_window(d.in_buffer))
                    &&& full_until(na, buf@.len() as int)
                } else if room < buf@.len() {
                    r == Step::<Result<usize, FsError>>::Wait && final(self).data == d && final(actions)@ == old(actions)@
                } else {
                    &&& r == Step::Done(Ok::<usize, FsError>(buf@.len() as usize))
                    &&& final(self).data == (SocketData { proxy_buffer: final(self).data.proxy_buffer, ..d })
                    &&& final(self).data.proxy_buffer.contents() == d.proxy_buffer.contents() + buf@
                    &&& final(actions)@ == old(actions)@ + if buf@.len() > 0 {
                        seq![TcpAction::NotifyProxyReader]
                    } else {
                        Seq::<TcpAction>::empty()
                    }
                }
            }),
    {
        if self.data.is_listening() {
            return Step::Done(Err(FsError::NotSupported));
        }
        if self.data.state != State::Established {
            return Step::Done(Err(FsError::NotSupported));
        }
        if !queued && buf.len() <= self.data.ctl.available_window() {
            self.data.send_chunks(buf, actions);
            return Step::Done(Ok(buf.len()));
        }
        if self.data.proxy_buffer.available_size() < buf.len() {
            return Step::Wait;
        }
        if buf.len() > 0 {
            let _ = self.data.proxy_buffer.append_data(buf);
            assert(buf@.take(buf@.len() as int) =~= buf@);
            actions.push(TcpAction::NotifyProxyReader);
        } else {
            assert(self.data.proxy_buffer.contents() + buf@ =~= self.data.proxy_buffer.contents());
            assert(actions@ =~= old(actions)@ + Seq::<TcpAction>::empty());
        }
        Step::Done(Ok(buf.len()))
    }

    /// Answers a poll. A listening socket is readable when connections wait.
    /// Another is readable when bytes were received, or when the connection
    /// is closed (or closing from the peer's side) and nothing is left;
    /// writable when established. With `table`, the queues to wait on are
    /// listed too (for the events asked for in `flags`).
    pub fn poll(&self, flags: u64, table: bool) -> (r: TcpPollAnswer)
        requires
            self.data.wf(),
        ensures
            ({
                let d = self.data;
                let has = d.in_buffer.count() > 0 || d.in_buffer.is_full();
                if d.state == State::Listen {
                    &&& r.events == poll_bits(self.connections@.len() > 0, false, false, false)
                    &&& r.waits@ == if table { seq![TcpPollWait::Connections] } else { Seq::empty() }
                } else {
                    let rd = ((d.state == State::Closed || d.state == State::CloseWait) && !has) || has;
                    &&& r.events == poll_bits(rd, d.state == State::Established, false, false)
                    &&& r.waits@ == if table {
                        (if flags & 1 != 0 { seq![TcpPollWait::InReaders] } else { Seq::empty() }) + (if flags & 4 != 0 {
                            seq![TcpPollWait::ProxyWriters]
                        } else {
                            Seq::empty()
                        })
                    } else {
                        Seq::empty()
                    }
                }
            }),
    {
        let mut waits: Vec<TcpPollWait> = Vec::new();
        if self.data.is_listening() {
            if table {
                waits.push(TcpPollWait::Connections);
            }
            assert(table ==> waits@ =~= seq![TcpPollWait::Connections]);
            let events = make_poll_bits(self.connections.len() > 0, false, false, false);
            return TcpPollAnswer { events, waits };
        }
        if table {
            if flags & 1 != 0 {
                waits.push(TcpPollWait::InReaders);
            }
            if flags & 4 != 0 {
                waits.push(TcpPollWait::ProxyWriters);
            }
        }
        proof {
            let rw: Seq<TcpPollWait> = if flags & 1 != 0 { seq![TcpPollWait::InReaders] } else { Seq::empty() };
            let ww: Seq<TcpPollWait> = if flags & 4 != 0 { seq![TcpPollWait::ProxyWriters] } else { Seq::empty() };
            if table {
                assert(waits@ =~= rw + ww);
            } else {
                assert(waits@ =~= Seq::<TcpPollWait>::empty());
            }
        }
        let has = self.data.in_buffer.has_data();
        let rd = ((self.data.state == State::Closed || self.data.state == State::CloseWait) && !has) || has;
        let events = make_poll_bits(rd, self.data.state == State::Established, false, false);
        TcpPollAnswer { events, waits }
    }

    /// Hands out the connection that was accepted last, with the address
    /// the listening socket records (its peer port and address); waits
    /// while there is none.
    pub fn accept(&mut self) -> (r: Step<(usize, u16, Ip4)>)
        ensures
            final(self).data == old(self).data,
            old(self).connections@.len() == 0 ==> r == Step::<(usize, u16, Ip4)>::Wait && final(self).connections@ == old(self).connections@,
            old(self).connections@.len() > 0 ==> r == Step::Done((old(self).connections@.last(), old(self).data.dst_port, old(self).data.target))
                && final(self).connections@ == old(self).connections@.drop_last(),
    {
        match self.connections.pop() {
            Some(c) => Step::Done((c, self.data.dst_port, self.data.target)),
            None => Step::Wait,
        }
    }

    /// A segment for this socket (with `data`, from `src_ip`). A listening
    /// socket may open a new connection: its socket and first actions are
    /// returned (see `process_new_connection`). Another processes it (see
    /// `SocketData::process`) and, once closed, wakes its readers.
    pub fn process_packet(&mut self, hdr: &TcpHeader, data: &[u8], src_ip: Ip4, actions: &mut Vec<TcpAction>) -> (r: Option<(SocketData, Vec<TcpAction>)>)
        requires
            old(self).data.wf(),
            old(self).data.state != State::Listen ==> old(self).data.ready(),
            data.len() <= 0xffff,
        ensures
            final(self).data.wf(),
            old(self).data.state != State::Listen ==> final(self).data.ready(),
            final(self).connections == old(self).connections,
            old(self).data.state == State::Listen ==> final(self).data == old(self).data && final(actions)@ == old(actions)@
                && ((bit16(hdr.flags.spec_value(), 1) && !bit16(hdr.flags.spec_value(), 4)) <==> r is Some),
            old(self).data.state != State::Listen ==> r is None && ({
                let n = old(actions)@.len();
                if final(self).data.state == State::Closed {
                    &&& final(actions)@.last() == TcpAction::NotifyReaders
                    &&& process_step(old(self).data, *hdr, data@, old(actions)@, final(self).data, final(actions)@.drop_last())
                } else {
                    process_step(old(self).data, *hdr, data@, old(actions)@, final(self).data, final(actions)@)
                }
            }),
    {
        if !self.data.is_listening() {
            self.data.process(hdr, data, actions);
            if self.data.state == State::Closed {
                let ghost a = actions@;
                actions.push(TcpAction::NotifyReaders);
                assert(actions@.drop_last() =~= a);
            }
            None
        } else {
            self.data.process_new_connection(hdr, data, src_ip)
        }
    }

    /// Answers the SYN that opened this connection with SYN and ACK.
    pub fn ack_connection(&mut self, actions: &mut Vec<TcpAction>)
        requires
            old(self).data.in_buffer.wf(),
            old(self).data.snd_buffer.wf(),
        ensures
            final(self).connections == old(self).connections,
            final(self).data == (SocketData { ctl: after_empty_send(old(self).data.ctl, FLAG_SYN | FLAG_ACK), ..old(self).data }),
            final(actions)@.len() == old(actions)@.len() + 1,
            final(actions)@.take(old(actions)@.len() as int) == old(actions)@,
            is_ack_send(final(actions)@.last(), old(self).data, FLAG_SYN),
    {
        self.data.send_ack_flags(FLAG_SYN, actions);
    }

    /// Opens the connection with initial sequence number `iss` (see
    /// `SocketData::connect`).
    pub fn connect(&mut self, iss: u32, actions: &mut Vec<TcpAction>)
        requires
            old(self).data.wf(),
        ensures
            final(self).connections == old(self).connections,
            final(self).data == (SocketData {
                state: State::SynSent,
                ctl: TransmissionCtl { snd_nxt: seq_add(iss, 1), snd_una: iss, ..old(self).data.ctl },
                conn_timer: ConnTimer { timeout: 1000, timeout_count: 0 },
                ..old(self).data
            }),
            final(actions)@.len() == old(actions)@.len() + 3,
            final(actions)@.take(old(actions)@.len() as int) == old(actions)@,
            final(actions)@[old(actions)@.len() as int] matches TcpAction::Send(s) && s.seq == iss
                && s.ack is None && s.flags == FLAG_SYN && s.data@.len() == 0,
            final(actions)@[old(actions)@.len() as int + 1] == TcpAction::DisableTimer(TimerKind::Conn),
            final(actions)@[old(actions)@.len() as int + 2] == TcpAction::StartTimer(TimerKind::Conn, 1000),
    {
        self.data.connect(iss, actions);
    }

    /// Waits for connections.
    pub fn listen(&mut self, backlog: i32)
        ensures
            final(self).connections == old(self).connections,
            final(self).data == (SocketData { state: State::Listen, ..old(self).data }),
    {
        self.data.listen(backlog);
    }

    /// The local port.
    pub fn src_port(&self) -> (r: u16)
        ensures
            r == self.data.src_port,
    {
        self.data.src_port()
    }

    /// Sets the local port.
    pub fn set_src_port(&mut self, val: u16)
        ensures
            final(self).connections == old(self).connections,
            final(self).data == (SocketData { src_port: val, ..old(self).data }),
    {
        self.data.set_src_port(val);
    }

    /// The peer's port.
    pub fn dst_port(&self) -> (r: u16)
        ensures
            r == self.data.dst_port,
    {
        self.data.dst_port()
    }

    /// Sets the peer's port.
    pub fn set_dst_port(&mut self, val: u16)
        ensures
            final(self).connections == old(self).connections,
            final(self).data == (SocketData { dst_port: val, ..old(self).data }),
    {
        self.data.set_dst_port(val);
    }

    /// The peer's address.
    pub fn target(&self) -> (r: Ip4)
        ensures
            r == self.data.target,
    {
        self.data.target()
    }

    /// Sets the peer's address.
    pub fn set_target(&mut self, val: Ip4)
        ensures
            final(self).connections == old(self).connections,
            final(self).data == (SocketData { target: val, ..old(self).data }),
    {
        self.data.set_target(val);
    }

    /// The peer's port is unreachable: the connection ends.
    pub fn port_unreachable(&mut self, actions: &mut Vec<TcpAction>)
        requires
            old(self).data.state != State::Closed,
        ensures
            final(self).connections == old(self).connections,
            final(self).data == (SocketData {
                state: State::Closed,
                in_closed: true,
                conn_timer: ConnTimer { timeout: 1000, timeout_count: 0 },
                ..old(self).data
            }),
            final(actions)@ == old(actions)@ + finalize_actions(old(self).data.src_port, old(self).data.target)
                + seq![TcpAction::NotifyReaders],
    {
        self.data.finalize(actions);
    }

    /// Binds to `port`; an address of the wrong size is refused with
    /// `EINVAL`.
    pub fn bind(&mut self, addrlen: u32, port: u16) -> (r: Result<usize, SyscallError>)
        ensures
            final(self).connections == old(self).connections,
            addrlen != SOCKADDR_SIZE ==> r == Err::<usize, SyscallError>(SyscallError::EINVAL) && final(self).data == old(self).data,
            addrlen == SOCKADDR_SIZE ==> r == Ok::<usize, SyscallError>(0) && final(self).data == (SocketData { src_port: port, ..old(self).data }),
    {
        if addrlen != SOCKADDR_SIZE {
            return Err(SyscallError::EINVAL);
        }
        self.data.set_src_port(port);
        Ok(0)
    }

    /// Prepares a connection to `target`:`port` (an address of the wrong
    /// size is refused with `EINVAL`): the peer is recorded and the buffers
    /// get room. The caller then registers the socket and calls
    /// `Socket::connect`.
    pub fn connect_addr(&mut self, addrlen: u32, port: u16, target: Ip4) -> (r: Result<usize, SyscallError>)
        requires
            old(self).data.wf(),
            old(self).data.in_buffer.rpos() == 0 && old(self).data.in_buffer.wpos() == 0,
            old(self).data.proxy_buffer.rpos() == 0 && old(self).data.proxy_buffer.wpos() == 0,
            old(self).data.snd_buffer.rpos() == 0 && old(self).data.snd_buffer.wpos() == 0,
        ensures
            final(self).connections == old(self).connections,
            addrlen != SOCKADDR_SIZE ==> r == Err::<usize, SyscallError>(SyscallError::EINVAL) && final(self).data == old(self).data,
            addrlen == SOCKADDR_SIZE ==> {
                &&& r == Ok::<usize, SyscallError>(0)
                &&& final(self).data.ready()
                &&& final(self).data.dst_port == port && final(self).data.target == target
                &&& final(self).data.state == old(self).data.state && final(self).data.ctl == old(self).data.ctl
                &&& final(self).data.src_port == old(self).data.src_port
                &&& final(self).data.in_buffer.capacity() == 4096 * 18 && final(self).data.in_buffer.count() == 0
                &&& final(self).data.proxy_buffer.capacity() == 4096 * 8 && final(self).data.proxy_buffer.count() == 0
                &&& final(self).data.snd_buffer.capacity() == 4096 * 18 && final(self).data.snd_buffer.count() == 0
            },
    {
        if addrlen != SOCKADDR_SIZE {
            return Err(SyscallError::EINVAL);
        }
        self.data.set_dst_port(port);
        self.data.set_target(target);
        self.data.init(false);
        Ok(0)
    }
}


/// Sequence arithmetic: going `b` forward from `a` and measuring back to `a`
/// gives `b`.
pub proof fn lemma_seq_sub_add(a: u32, b: u32)
    ensures
        seq_sub(seq_add(a, b), a) == b,
{
    let m = 0x1_0000_0000int;
    let s = a as int + b as int;
    if s < m {
        vstd::arithmetic::div_mod::lemma_small_mod(s as nat, m as nat);
    } else {
        vstd::arithmetic::div_mod::lemma_fundamental_div_mod_converse(s, m, 1, s - m);
    }
}

/// The ACK, FIN and RST bits of a flags word, read by their masks.
proof fn lemma_flag_masks(f: u16)
    ensures
        bit16(f, 0) == (f & FLAG_FIN != 0),
        bit16(f, 1) == (f & FLAG_SYN != 0),
        bit16(f, 2) == (f & FLAG_RST != 0),
        bit16(f, 4) == (f & FLAG_ACK != 0),
{
    assert((f & (1u16 << 0u16) != 0) == (f & 1u16 != 0) && (f & (1u16 << 1u16) != 0) == (f & 2u16 != 0)
        && (f & (1u16 << 2u16) != 0) == (f & 4u16 != 0) && (f & (1u16 << 4u16) != 0) == (f & 16u16 != 0))
        by (bit_vector);
}

/// In `FinWait1` (our FIN sent), a segment that acknowledges without a FIN
/// moves the connection to `FinWait2`, changes nothing else and sends
/// nothing.
pub proof fn lemma_finwait1_ack_moves_to_finwait2(
    o: SocketData,
    hdr: TcpHeader,
    data: Seq<u8>,
    a0: Seq<TcpAction>,
    s: SocketData,
    a1: Seq<TcpAction>,
)
    requires
        o.state == State::FinWait1,
        hdr.flags.spec_value() & FLAG_ACK != 0,
        hdr.flags.spec_value() & FLAG_FIN == 0,
        finwait1_step(o, hdr, data, a0, s, a1),
    ensures
        s.state == State::FinWait2,
        s.ctl == o.ctl && s.in_buffer == o.in_buffer && s.snd_buffer == o.snd_buffer,
        a1 == a0,
{
    lemma_flag_masks(hdr.flags.spec_value());
}

/// A connection in `FinWait1` that receives the next expected segment
/// carrying an ACK and neither FIN nor RST is in `FinWait2` after `process`.
pub proof fn lemma_process_finwait1_ack(
    o: SocketData,
    hdr: TcpHeader,
    data: Seq<u8>,
    a0: Seq<TcpAction>,
    s: SocketData,
    a1: Seq<TcpAction>,
)
    requires
        o.state == State::FinWait1,
        hdr.flags.spec_value() & FLAG_ACK != 0,
        hdr.flags.spec_value() & FLAG_FIN == 0,
        hdr.flags.spec_value() & FLAG_RST == 0,
        hdr.seq_nr.spec_value() == o.ctl.rcv_nxt,
        process_step(o, hdr, data, a0, s, a1),
    ensures
        s.state == State::FinWait2,
{
    lemma_flag_masks(hdr.flags.spec_value());
    let m = choose|m: SocketData, am: Seq<TcpAction>|
        #[trigger] ack_phase(with_peer_window(o, hdr), hdr, a0, m, am) && if out_of_order(m, hdr) {
            s == m && a1 == am
        } else {
            exists|d: SocketData, ad: Seq<TcpAction>|
                #[trigger] dispatch_step(m, hdr, data, am, d, ad) && rst_phase(d, hdr, ad, s, a1)
        };
    let (mm, am) = m;
    assert(mm.state == State::FinWait1 && mm.ctl.rcv_nxt == o.ctl.rcv_nxt);
    let (d, ad) = choose|d: SocketData, ad: Seq<TcpAction>|
        #[trigger] dispatch_step(mm, hdr, data, am, d, ad) && rst_phase(d, hdr, ad, s, a1);
    lemma_finwait1_ack_moves_to_finwait2(mm, hdr, data, am, d, ad);
}

/// The state that each state's handler moves to, by the segment's control
/// bits: in `SynReceived` an ACK without RST establishes the connection and
/// an RST closes it; in `SynSent` SYN with ACK establishes it; in
/// `Established` a FIN (with data or alone) moves to `LastAck`; in
/// `FinWait1` ACK alone moves to `FinWait2`, FIN with ACK closes, FIN alone
/// moves to `Closing` and a segment with neither is reset and closed; in
/// `FinWait2` every segment closes; in `LastAck` and `Closing` an ACK closes.
/// Any other segment leaves the state as it was.
pub proof fn lemma_handler_transitions(
    m: SocketData,
    hdr: TcpHeader,
    data: Seq<u8>,
    am: Seq<TcpAction>,
    d: SocketData,
    ad: Seq<TcpAction>,
)
    requires
        dispatch_step(m, hdr, data, am, d, ad),
    ensures
        ({
            let f = hdr.flags.spec_value();
            let ack = f & FLAG_ACK != 0;
            let fin = f & FLAG_FIN != 0;
            let syn = f & FLAG_SYN != 0;
            let rst = f & FLAG_RST != 0;
            &&& m.state == State::SynReceived ==> d.state == if rst {
                State::Closed
            } else if ack {
                State::Established
            } else {
                State::SynReceived
            }
            &&& m.state == State::SynSent ==> d.state == if syn && ack {
                State::Established
            } else {
                State::SynSent
            }
            &&& m.state == State::Established ==> d.state == if fin {
                State::LastAck
            } else {
                State::Established
            }
            &&& m.state == State::FinWait1 ==> d.state == if fin && ack {
                State::Closed
            } else if ack {
                State::FinWait2
            } else if fin {
                State::Closing
            } else {
                State::Closed
            }
            &&& m.state == State::FinWait2 ==> d.state == State::Closed
            &&& m.state == State::LastAck ==> d.state == if ack {
                State::Closed
            } else {
                State::LastAck
            }
            &&& m.state == State::Closing ==> d.state == if ack {
                State::Closed
            } else {
                State::Closing
            }
            &&& (m.state == State::Closed || m.state == State::Listen || m.state == State::CloseWait)
                ==> d.state == m.state
        }),
{
    lemma_flag_masks(hdr.flags.spec_value());
}

/// The acknowledgement phase of `process` keeps the state, the next
/// expected sequence number and the received bytes.
proof fn lemma_ack_phase_keeps(o: SocketData, hdr: TcpHeader, a0: Seq<TcpAction>, m: SocketData, am: Seq<TcpAction>)
    requires
        ack_phase(o, hdr, a0, m, am),
    ensures
        m.state == o.state && m.ctl.rcv_nxt == o.ctl.rcv_nxt && m.in_buffer == o.in_buffer,
{
}

/// An RST that `process` takes in (on a connection that is open, and in
/// order unless the connection waits for the answer to its SYN) closes the
/// connection.
pub proof fn lemma_process_reset_closes(
    o: SocketData,
    hdr: TcpHeader,
    data: Seq<u8>,
    a0: Seq<TcpAction>,
    s: SocketData,
    a1: Seq<TcpAction>,
)
    requires
        o.state != State::Closed && o.state != State::Listen,
        hdr.flags.spec_value() & FLAG_RST != 0,
        o.state == State::SynSent || hdr.seq_nr.spec_value() == o.ctl.rcv_nxt,
        process_step(o, hdr, data, a0, s, a1),
    ensures
        s.state == State::Closed,
{
    lemma_flag_masks(hdr.flags.spec_value());
    let (m, am) = choose|m: SocketData, am: Seq<TcpAction>|
        #[trigger] ack_phase(with_peer_window(o, hdr), hdr, a0, m, am) && if out_of_order(m, hdr) {
            s == m && a1 == am
        } else {
            exists|d: SocketData, ad: Seq<TcpAction>|
                #[trigger] dispatch_step(m, hdr, data, am, d, ad) && rst_phase(d, hdr, ad, s, a1)
        };
    lemma_ack_phase_keeps(with_peer_window(o, hdr), hdr, a0, m, am);
    let (d, ad) = choose|d: SocketData, ad: Seq<TcpAction>|
        #[trigger] dispatch_step(m, hdr, data, am, d, ad) && rst_phase(d, hdr, ad, s, a1);
    lemma_handler_transitions(m, hdr, data, am, d, ad);
}

/// A segment that is not the next one expected (on a connection that is
/// neither listening nor waiting for the answer to its SYN) is dropped by
/// `process`: the state and the received bytes stay as they were.
pub proof fn lemma_process_drops_out_of_order(
    o: SocketData,
    hdr: TcpHeader,
    data: Seq<u8>,
    a0: Seq<TcpAction>,
    s: SocketData,
    a1: Seq<TcpAction>,
)
    requires
        o.state != State::Listen && o.state != State::SynSent,
        hdr.seq_nr.spec_value() != o.ctl.rcv_nxt,
        process_step(o, hdr, data, a0, s, a1),
    ensures
        s.state == o.state,
        s.in_buffer == o.in_buffer,
        s.ctl.rcv_nxt == o.ctl.rcv_nxt,
{
    let (m, am) = choose|m: SocketData, am: Seq<TcpAction>|
        #[trigger] ack_phase(with_peer_window(o, hdr), hdr, a0, m, am) && if out_of_order(m, hdr) {
            s == m && a1 == am
        } else {
            exists|d: SocketData, ad: Seq<TcpAction>|
                #[trigger] dispatch_step(m, hdr, data, am, d, ad) && rst_phase(d, hdr, ad, s, a1)
        };
    lemma_ack_phase_keeps(with_peer_window(o, hdr), hdr, a0, m, am);
}

} // verus!
