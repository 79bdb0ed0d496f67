//! The TCP header and the table of TCP ports.
pub mod socket;
use vstd::prelude::*;
use std::collections::BTreeMap;
use crate::bits::{u16_get_bit, u16_set_bit, u16_get_bits_incl, u16_set_bits_incl};
use crate::net::util::{lemma_concat_split, lemma_net16_bytes_injective, lemma_net32_bytes_injective};
use crate::net::util::{NetU16, NetU32, be16, be32, push_be16, push_be32, read_be16, read_be32,
    lemma_be16_bytes_roundtrip, lemma_be32_bytes_roundtrip, swap16};

verus! {

/// Marker for the TCP layer of a packet.
#[derive(Debug, Copy, Clone)]
pub struct Tcp {}

/// The fixed TCP header, 20 bytes on the wire.
#[derive(Debug, Copy, Clone)]
pub struct TcpHeader {
    pub src_port: NetU16,
    pub dst_port: NetU16,
    pub seq_nr: NetU32,
    pub ack_nr: NetU32,
    pub flags: NetU16,
    pub window: NetU16,
    pub checksum: NetU16,
    pub urgent_ptr: NetU16,
}

/// The size of the fixed TCP header.
pub const TCP_HEADER_SIZE: usize = 20;

/// Bit `i` of a 16-bit word.
pub open spec fn bit16(f: u16, i: u16) -> bool {
    f & (1u16 << i) != 0
}

/// `f` with bit `i` set to `b`.
pub open spec fn with_bit16(f: u16, i: u16, b: bool) -> u16 {
    if b {
        f | (1u16 << i)
    } else {
        f & !(1u16 << i)
    }
}

/// A TCP header is determined by its bytes: parsing the bytes that
/// `to_bytes` writes gives the header back.
pub proof fn lemma_tcp_header_bytes_injective(a: TcpHeader, b: TcpHeader)
    requires
        a.spec_bytes() == b.spec_bytes(),
    ensures
        a == b,
{
    let p7a = be16(a.src_port.spec_value()) + be16(a.dst_port.spec_value()) + be32(a.seq_nr.spec_value())
        + be32(a.ack_nr.spec_value()) + be16(a.flags.spec_value()) + be16(a.window.spec_value()) + be16(a.checksum.spec_value());
    let p7b = be16(b.src_port.spec_value()) + be16(b.dst_port.spec_value()) + be32(b.seq_nr.spec_value())
        + be32(b.ack_nr.spec_value()) + be16(b.flags.spec_value()) + be16(b.window.spec_value()) + be16(b.checksum.spec_value());
    lemma_concat_split(p7a, be16(a.urgent_ptr.spec_value()), p7b, be16(b.urgent_ptr.spec_value()));
    let p6a = be16(a.src_port.spec_value()) + be16(a.dst_port.spec_value()) + be32(a.seq_nr.spec_value())
        + be32(a.ack_nr.spec_value()) + be16(a.flags.spec_value()) + be16(a.window.spec_value());
    let p6b = be16(b.src_port.spec_value()) + be16(b.dst_port.spec_value()) + be32(b.seq_nr.spec_value())
        + be32(b.ack_nr.spec_value()) + be16(b.flags.spec_value()) + be16(b.window.spec_value());
    lemma_concat_split(p6a, be16(a.checksum.spec_value()), p6b, be16(b.checksum.spec_value()));
    let p5a = be16(a.src_port.spec_value()) + be16(a.dst_port.spec_value()) + be32(a.seq_nr.spec_value())
        + be32(a.ack_nr.spec_value()) + be16(a.flags.spec_value());
    let p5b = be16(b.src_port.spec_value()) + be16(b.dst_port.spec_value()) + be32(b.seq_nr.spec_value())
        + be32(b.ack_nr.spec_value()) + be16(b.flags.spec_value());
    lemma_concat_split(p5a, be16(a.window.spec_value()), p5b, be16(b.window.spec_value()));
    let p4a = be16(a.src_port.spec_value()) + be16(a.dst_port.spec_value()) + be32(a.seq_nr.spec_value())
        + be32(a.ack_nr.spec_value());
    let p4b = be16(b.src_port.spec_value()) + be16(b.dst_port.spec_value()) + be32(b.seq_nr.spec_value())
        + be32(b.ack_nr.spec_value());
    lemma_concat_split(p4a, be16(a.flags.spec_value()), p4b, be16(b.flags.spec_value()));
    let p3a = be16(a.src_port.spec_value()) + be16(a.dst_port.spec_value()) + be32(a.seq_nr.spec_value());
    let p3b = be16(b.src_port.spec_value()) + be16(b.dst_port.spec_value()) + be32(b.seq_nr.spec_value());
    lemma_concat_split(p3a, be32(a.ack_nr.spec_value()), p3b, be32(b.ack_nr.spec_value()));
    let p2a = be16(a.src_port.spec_value()) + be16(a.dst_port.spec_value());
    let p2b = be16(b.src_port.spec_value()) + be16(b.dst_port.spec_value());
    lemma_concat_split(p2a, be32(a.seq_nr.spec_value()), p2b, be32(b.seq_nr.spec_value()));
    lemma_concat_split(be16(a.src_port.spec_value()), be16(a.dst_port.spec_value()), be16(b.src_port.spec_value()), be16(b.dst_port.spec_value()));
    lemma_net16_bytes_injective(a.src_port, b.src_port);
    lemma_net16_bytes_injective(a.dst_port, b.dst_port);
    lemma_net32_bytes_injective(a.seq_nr, b.seq_nr);
    lemma_net32_bytes_injective(a.ack_nr, b.ack_nr);
    lemma_net16_bytes_injective(a.flags, b.flags);
    lemma_net16_bytes_injective(a.window, b.window);
    lemma_net16_bytes_injective(a.checksum, b.checksum);
    lemma_net16_bytes_injective(a.urgent_ptr, b.urgent_ptr);
}

/// Setting a bit sets it and leaves every other bit as it was.
pub proof fn lemma_with_bit16(f: u16, i: u16, j: u16, b: bool)
    requires
        i < 16,
        j < 16,
    ensures
        bit16(with_bit16(f, i, b), i) == b,
        i != j ==> bit16(with_bit16(f, i, b), j) == bit16(f, j),
{
    if b {
        assert((f | (1u16 << i)) & (1u16 << i) != 0) by (bit_vector)
            requires
                i < 16,
        ;
        assert(i != j ==> (((f | (1u16 << i)) & (1u16 << j) != 0) == (f & (1u16 << j) != 0)))
            by (bit_vector)
            requires
                i < 16,
                j < 16,
        ;
    } else {
        assert((f & !(1u16 << i)) & (1u16 << i) == 0) by (bit_vector)
            requires
                i < 16,
        ;
        assert(i != j ==> (((f & !(1u16 << i)) & (1u16 << j) != 0) == (f & (1u16 << j) != 0)))
            by (bit_vector)
            requires
                i < 16,
                j < 16,
        ;
    }
}

/// The header length in bytes that the flags word names: its top four bits
/// count 32-bit words.
pub open spec fn header_len_of(f: u16) -> int {
    (f >> 12u16) as int * 4
}

/// The flags word with its top four bits replaced by `len / 4`.
pub open spec fn with_header_len(f: u16, len: u8) -> u16 {
    ((f & 0x0fff) | (((len / 4) as u16) << 12u16)) as u16
}

impl TcpHeader {
    /// The header's bytes as they travel on the wire.
    pub open spec fn spec_bytes(&self) -> Seq<u8> {
        be16(self.src_port.spec_value()) + be16(self.dst_port.spec_value()) + be32(
            self.seq_nr.spec_value(),
        ) + be32(self.ack_nr.spec_value()) + be16(self.flags.spec_value()) + be16(
            self.window.spec_value(),
        ) + be16(self.checksum.spec_value()) + be16(self.urgent_ptr.spec_value())
    }

    /// A header with every field zero.
    pub fn zeroed() -> (h: TcpHeader)
        ensures
            h.spec_bytes() == Seq::new(20, |i: int| 0u8),
            h.src_port.spec_value() == 0 && h.dst_port.spec_value() == 0,
            h.seq_nr.spec_value() == 0 && h.ack_nr.spec_value() == 0,
            h.flags.spec_value() == 0 && h.window.spec_value() == 0,
            h.checksum.spec_value() == 0 && h.urgent_ptr.spec_value() == 0,
    {
        let h = TcpHeader {
            src_port: NetU16::new(0),
            dst_port: NetU16::new(0),
            seq_nr: NetU32::new(0),
            ack_nr: NetU32::new(0),
            flags: NetU16::new(0),
            window: NetU16::new(0),
            checksum: NetU16::new(0),
            urgent_ptr: NetU16::new(0),
        };
        assert(be16(0) =~= seq![0u8, 0]) by {
            assert((0u16 >> 8u16) as u8 == 0 && (0u16 & 0xff) as u8 == 0) by (bit_vector);
        }
        assert(be32(0) =~= seq![0u8, 0, 0, 0]) by {
            assert((0u32 >> 24u32) as u8 == 0 && ((0u32 >> 16u32) & 0xff) as u8 == 0 && ((0u32
                >> 8u32) & 0xff) as u8 == 0 && (0u32 & 0xff) as u8 == 0) by (bit_vector);
        }
        assert(h.spec_bytes() =~= Seq::new(20, |i: int| 0u8));
        h
    }

    /// The header's bytes as they travel on the wire.
    pub fn to_bytes(&self) -> (r: Vec<u8>)
        ensures
            r@ == self.spec_bytes(),
            r@.len() == TCP_HEADER_SIZE,
    {
        let mut out: Vec<u8> = Vec::new();
        push_be16(&mut out, self.src_port.value());
        push_be16(&mut out, self.dst_port.value());
        push_be32(&mut out, self.seq_nr.value());
        push_be32(&mut out, self.ack_nr.value());
        push_be16(&mut out, self.flags.value());
        push_be16(&mut out, self.window.value());
        push_be16(&mut out, self.checksum.value());
        push_be16(&mut out, self.urgent_ptr.value());
        assert(out@ =~= self.spec_bytes());
        out
    }

    /// The header in the first 20 bytes of `b`.
    pub fn from_bytes(b: &[u8]) -> (h: TcpHeader)
        requires
            b.len() >= TCP_HEADER_SIZE,
        ensures
            h.spec_bytes() == b@.take(20),
    {
        let h = TcpHeader {
            src_port: NetU16::new(read_be16(b, 0)),
            dst_port: NetU16::new(read_be16(b, 2)),
            seq_nr: NetU32::new(read_be32(b, 4)),
            ack_nr: NetU32::new(read_be32(b, 8)),
            flags: NetU16::new(read_be16(b, 12)),
            window: NetU16::new(read_be16(b, 14)),
            checksum: NetU16::new(read_be16(b, 16)),
            urgent_ptr: NetU16::new(read_be16(b, 18)),
        };
        proof {
            lemma_be16_bytes_roundtrip(b@[0], b@[1]);
            lemma_be16_bytes_roundtrip(b@[2], b@[3]);
            lemma_be32_bytes_roundtrip(b@[4], b@[5], b@[6], b@[7]);
            lemma_be32_bytes_roundtrip(b@[8], b@[9], b@[10], b@[11]);
            lemma_be16_bytes_roundtrip(b@[12], b@[13]);
            lemma_be16_bytes_roundtrip(b@[14], b@[15]);
            lemma_be16_bytes_roundtrip(b@[16], b@[17]);
            lemma_be16_bytes_roundtrip(b@[18], b@[19]);
            assert(h.spec_bytes() =~= b@.take(20));
        }
        h
    }

    /// The source port.
    pub fn src_port(&self) -> (r: u16)
        ensures
            r == self.src_port.spec_value(),
    {
        self.src_port.value()
    }

    /// Sets the source port.
    pub fn set_src_port(&mut self, val: u16)
        ensures
            final(self).src_port.spec_value() == val,
            *final(self) == (TcpHeader { src_port: final(self).src_port, ..*old(self) }),
    {
        self.src_port = NetU16::new(val);
    }

    /// The destination port.
    pub fn dst_port(&self) -> (r: u16)
        ensures
            r == self.dst_port.spec_value(),
    {
        self.dst_port.value()
    }

    /// Sets the destination port.
    pub fn set_dst_port(&mut self, val: u16)
        ensures
            final(self).dst_port.spec_value() == val,
            *final(self) == (TcpHeader { dst_port: final(self).dst_port, ..*old(self) }),
    {
        self.dst_port = NetU16::new(val)
    }

    /// The sequence number.
    pub fn seq_nr(&self) -> (r: u32)
        ensures
            r == self.seq_nr.spec_value(),
    {
        self.seq_nr.value()
    }

    /// Sets the sequence number.
    pub fn set_seq_nr(&mut self, val: u32)
        ensures
            final(self).seq_nr.spec_value() == val,
            *final(self) == (TcpHeader { seq_nr: final(self).seq_nr, ..*old(self) }),
    {
        self.seq_nr = NetU32::new(val)
    }

    /// The acknowledgement number.
    pub fn ack_nr(&self) -> (r: u32)
        ensures
            r == self.ack_nr.spec_value(),
    {
        self.ack_nr.value()
    }

    /// Sets the acknowledgement number and raises the ACK flag.
    pub fn set_ack_nr(&mut self, val: u32)
        ensures
            final(self).ack_nr.spec_value() == val,
            final(self).flags.spec_value() == with_bit16(old(self).flags.spec_value(), 4, true),
            *final(self) == (TcpHeader {
                ack_nr: final(self).ack_nr,
                flags: final(self).flags,
                ..*old(self)
            }),
    {
        self.ack_nr = NetU32::new(val);
        self.set_flag_ack(true);
    }

    /// The flags word: header length and control bits.
    pub fn flags(&self) -> (r: u16)
        ensures
            r == self.flags.spec_value(),
    {
        self.flags.value()
    }

    /// Replaces the whole flags word.
    pub fn set_flags(&mut self, val: u16)
        ensures
            final(self).flags.spec_value() == val,
            *final(self) == (TcpHeader { flags: final(self).flags, ..*old(self) }),
    {
        self.flags = NetU16::new(val);
    }

    /// The header length in bytes.
    pub fn header_len(&self) -> (r: u8)
        ensures
            r == header_len_of(self.flags.spec_value()),
    {
        let f = self.flags.value();
        let b = u16_get_bits_incl(f, 12, 15);
        assert(b == f >> 12u16 && b < 16) by (bit_vector)
            requires
                b == ((f << ((15 - 15usize) as u16)) >> ((15 - 15usize) as u16)) >> (12usize as u16),
        ;
        (b * 4) as u8
    }

    /// Sets the header length in bytes (stored as a count of 32-bit words,
    /// so the two low bits of `len` are dropped).
    pub fn set_header_len(&mut self, len: u8)
        requires
            len < 64,
        ensures
            final(self).flags.spec_value() == with_header_len(old(self).flags.spec_value(), len),
            header_len_of(final(self).flags.spec_value()) == len / 4 * 4,
            *final(self) == (TcpHeader { flags: final(self).flags, ..*old(self) }),
    {
        let mut f = self.flags.value();
        let ghost f0 = f;
        let q = len as u16 / 4;
        assert((q << ((15 - (15usize - 12usize)) as u16)) >> ((15 - (15usize - 12usize)) as u16) == q)
            by (bit_vector)
            requires
                q < 16,
        ;
        u16_set_bits_incl(&mut f, 12, 15, q);
        assert(f == ((f0 & 0x0fff) | (q << 12u16)) && (f >> 12u16) == q) by (bit_vector)
            requires
                f == (f0 & !(((((!0u16) << ((15 - 15usize) as u16)) >> ((15 - 15usize) as u16)) >> (
                12usize as u16)) << (12usize as u16))) | (q << (12usize as u16)),
                q < 16,
        ;
        self.flags = NetU16::new(f);
    }

    fn set_flag(&mut self, idx: usize, flag: bool)
        requires
            idx < 16,
        ensures
            final(self).flags.spec_value() == with_bit16(
                old(self).flags.spec_value(),
                idx as u16,
                flag,
            ),
            *final(self) == (TcpHeader { flags: final(self).flags, ..*old(self) }),
    {
        let mut f = self.flags.value();
        u16_set_bit(&mut f, idx, flag);
        self.flags = NetU16::new(f);
    }

    /// The FIN flag (bit 0).
    pub fn flag_fin(&self) -> (r: bool)
        ensures
            r == bit16(self.flags.spec_value(), 0),
    {
        u16_get_bit(self.flags.value(), 0)
    }

    /// Sets the FIN flag.
    pub fn set_flag_fin(&mut self, flag: bool)
        ensures
            final(self).flags.spec_value() == with_bit16(old(self).flags.spec_value(), 0, flag),
            *final(self) == (TcpHeader { flags: final(self).flags, ..*old(self) }),
    {
        self.set_flag(0, flag)
    }

    /// The SYN flag (bit 1).
    pub fn flag_syn(&self) -> (r: bool)
        ensures
            r == bit16(self.flags.spec_value(), 1),
    {
        u16_get_bit(self.flags.value(), 1)
    }

    /// Sets the SYN flag.
    pub fn set_flag_syn(&mut self, flag: bool)
        ensures
            final(self).flags.spec_value() == with_bit16(old(self).flags.spec_value(), 1, flag),
            *final(self) == (TcpHeader { flags: final(self).flags, ..*old(self) }),
    {
        self.set_flag(1, flag)
    }

    /// The RST flag (bit 2).
    pub fn flag_rst(&self) -> (r: bool)
        ensures
            r == bit16(self.flags.spec_value(), 2),
    {
        u16_get_bit(self.flags.value(), 2)
    }

    /// Sets the RST flag.
    pub fn set_flag_rst(&mut self, flag: bool)
        ensures
            final(self).flags.spec_value() == with_bit16(old(self).flags.spec_value(), 2, flag),
            *final(self) == (TcpHeader { flags: final(self).flags, ..*old(self) }),
    {
        self.set_flag(2, flag);
    }

    /// The PSH flag (bit 3).
    pub fn flag_psh(&self) -> (r: bool)
        ensures
            r == bit16(self.flags.spec_value(), 3),
    {
        u16_get_bit(self.flags.value(), 3)
    }

    /// Sets the PSH flag.
    pub fn set_flag_psh(&mut self, flag: bool)
        ensures
            final(self).flags.spec_value() == with_bit16(old(self).flags.spec_value(), 3, flag),
            *final(self) == (TcpHeader { flags: final(self).flags, ..*old(self) }),
    {
        self.set_flag(3, flag);
    }

    /// The ACK flag (bit 4).
    pub fn flag_ack(&self) -> (r: bool)
        ensures
            r == bit16(self.flags.spec_value(), 4),
    {
        u16_get_bit(self.flags.value(), 4)
    }

    /// Sets the ACK flag.
    pub fn set_flag_ack(&mut self, flag: bool)
        ensures
            final(self).flags.spec_value() == with_bit16(old(self).flags.spec_value(), 4, flag),
            *final(self) == (TcpHeader { flags: final(self).flags, ..*old(self) }),
    {
        self.set_flag(4, flag);
    }

    /// The URG flag (bit 5).
    pub fn flag_urg(&self) -> (r: bool)
        ensures
            r == bit16(self.flags.spec_value(), 5),
    {
        u16_get_bit(self.flags.value(), 5)
    }

    /// Sets the URG flag.
    pub fn set_flag_urg(&mut self, flag: bool)
        ensures
            final(self).flags.spec_value() == with_bit16(old(self).flags.spec_value(), 5, flag),
            *final(self) == (TcpHeader { flags: final(self).flags, ..*old(self) }),
    {
        self.set_flag(5, flag);
    }

    /// The receive window.
    pub fn window(&self) -> (r: u16)
        ensures
            r == self.window.spec_value(),
    {
        self.window.value()
    }

    /// Sets the receive window.
    pub fn set_window(&mut self, val: u16)
        ensures
            final(self).window.spec_value() == val,
            *final(self) == (TcpHeader { window: final(self).window, ..*old(self) }),
    {
        self.window = NetU16::new(val)
    }

    /// The checksum field.
    pub fn checksum(&self) -> (r: u16)
        ensures
            r == self.checksum.spec_value(),
    {
        self.checksum.value()
    }

    /// Sets the checksum field.
    pub fn set_checksum(&mut self, val: u16)
        ensures
            final(self).checksum.spec_value() == val,
            *final(self) == (TcpHeader { checksum: final(self).checksum, ..*old(self) }),
    {
        self.checksum = NetU16::new(val)
    }

    /// The urgent pointer.
    pub fn urgent_ptr(&self) -> (r: u16)
        ensures
            r == self.urgent_ptr.spec_value(),
    {
        self.urgent_ptr.value()
    }

    /// Sets the urgent pointer.
    pub fn set_urgent_ptr(&mut self, val: u16)
        ensures
            final(self).urgent_ptr.spec_value() == val,
            *final(self) == (TcpHeader { urgent_ptr: final(self).urgent_ptr, ..*old(self) }),
    {
        self.urgent_ptr = NetU16::new(val)
    }
}

/// A service bound to a TCP port: it is handed the packets for that port.
pub trait TcpService {
    /// Handles a segment addressed to the service's port.
    fn process_packet(&self, packet: &[u8]);

    /// Learns that `dst_port` on the peer could not be reached from `port`.
    fn port_unreachable(&self, port: u32, dst_port: u32);
}

/// Registers `handler` on `port` unless the port is taken; says whether it was registered.
pub fn register_handler<H>(handlers: &mut BTreeMap<u32, H>, port: u32, handler: H) -> (r: bool)
    ensures
        r == !old(handlers)@.contains_key(port),
        r ==> final(handlers)@ == old(handlers)@.insert(port, handler),
        !r ==> final(handlers)@ == old(handlers)@,
{
    crate::net::ports::register_port(handlers, port, handler)
}

/// Registers `handler` on the lowest free port of 49152..=65535 and returns it,
/// or `None` when all of them are taken.
pub fn register_ephemeral_handler<H>(handlers: &mut BTreeMap<u32, H>, handler: H) -> (r: Option<u32>)
    ensures
        match r {
            Some(p) => {
                &&& 49152 <= p <= 65535
                &&& !old(handlers)@.contains_key(p)
                &&& crate::net::ports::all_taken(old(handlers)@, 49152, p as int)
                &&& final(handlers)@ == old(handlers)@.insert(p, handler)
            },
            None => {
                &&& crate::net::ports::all_taken(old(handlers)@, 49152, 65536)
                &&& final(handlers)@ == old(handlers)@
            },
        },
{
    crate::net::ports::register_ephemeral_port(handlers, handler)
}

/// Removes the service on `port`; releasing a port that is not registered is a bug.
pub fn release_handler<H>(handlers: &mut BTreeMap<u32, H>, port: u32)
    requires
        old(handlers)@.contains_key(port),
    ensures
        final(handlers)@ == old(handlers)@.remove(port),
{
    crate::net::ports::release_port(handlers, port)
}

} // verus!

verus! {

use crate::net::ip::{Ip4, IpHeader, IpType, ip_frame};
use crate::net::util::checksum::{PseudoHeader, raw_sum, checksum_of, calc_ref, calc_ref_len,
    make_combine, sum_u32s, lemma_raw_sum_le};
use crate::net::util::{overwrite, write_bytes_at, be16_value};
use crate::net::packet::PacketKind;

impl PacketKind for Tcp {}

impl crate::net::ip::IpBase for Tcp {}

/// The TCP checksum of a segment: the ones-complement sum of the pseudo
/// header and of the segment whose checksum field is zero.
pub open spec fn tcp_checksum(pseudo: Seq<u8>, segment: Seq<u8>) -> u16 {
    checksum_of(raw_sum(pseudo) + raw_sum(segment))
}

impl TcpHeader {
    /// Zeroes the checksum and fills it in over the pseudo header of `ip`,
    /// this header and `payload`; the IPv4 total length must cover exactly
    /// both headers and the payload.
    pub fn calc_checksum(&mut self, ip: &IpHeader, payload: &[u8])
        requires
            ip.len.spec_value() == 40 + payload.len(),
        ensures
            final(self).checksum.spec_value() == tcp_checksum(
                (PseudoHeader {
                    src_ip: ip.src_ip,
                    dst_ip: ip.dest_ip,
                    zero: 0,
                    prot: ip.protocol,
                    len: NetU16(swap16((ip.len.spec_value() - 20) as u16)),
                }).spec_bytes(),
                (TcpHeader { checksum: NetU16(0), ..*old(self) }).spec_bytes() + payload@,
            ),
            *final(self) == (TcpHeader { checksum: final(self).checksum, ..*old(self) }),
    {
        self.checksum = NetU16::new(0);
        assert(swap16(0) == 0) by (bit_vector);
        assert(*self == TcpHeader { checksum: NetU16(0), ..*old(self) });
        let pseudo = PseudoHeader::new(ip);
        proof {
            crate::net::util::lemma_swap16_involutive(pseudo.len.0);
        }
        let pbytes = pseudo.to_bytes();
        let mut seg = self.to_bytes();
        crate::net::util::push_all(&mut seg, payload);
        let n = ip.len.value() as usize - 20;
        proof {
            lemma_raw_sum_le(pbytes@);
            lemma_raw_sum_le(seg@);
            assert(seg@.take(n as int) =~= seg@);
            let a = raw_sum(pbytes@);
            let b = raw_sum(seg@);
            let l = seg@.len();
            assert((l / 2 + 1) * 0xffff <= 0x8000 * 0xffff) by (nonlinear_arith)
                requires
                    l <= 0xffff,
            ;
        }
        let a = calc_ref(pbytes.as_slice());
        let b = calc_ref_len(seg.as_slice(), n);
        let parts = [a, b];
        proof {
            assert(parts@ =~= seq![a, b]);
            reveal_with_fuel(sum_u32s, 3);
            assert(parts@.drop_last() =~= seq![a]);
            assert(seq![a].drop_last() =~= Seq::<u32>::empty());
            assert(sum_u32s(parts@) == a as int + b as int);
        }
        self.checksum = make_combine(parts.as_slice());
    }
}

/// A new TCP frame with `size` bytes of zero payload: the ports and a header
/// length of 20 are set, every other TCP field is zero.
pub open spec fn tcp_frame(src_port: u16, dst_port: u16, size: nat, target: Ip4, src_ip: Ip4, own_mac: Seq<u8>) -> Seq<u8> {
    overwrite(
        ip_frame(IpType::TCP, size + 20, target, src_ip, own_mac),
        34,
        be16(src_port) + be16(dst_port) + Seq::new(8, |i: int| 0u8) + be16(0x5000) + Seq::new(
            6,
            |i: int| 0u8,
        ),
    )
}

/// A new TCP frame for `size` bytes of payload from `src_port` to `dst_port` at `target`.
pub fn create_packet(
    src_port: u16,
    dst_port: u16,
    size: usize,
    target: Ip4,
    src_ip: Ip4,
    own_mac: &[u8; 6],
) -> (frame: Vec<u8>)
    requires
        size + 54 <= usize::MAX,
    ensures
        frame@ == tcp_frame(src_port, dst_port, size as nat, target, src_ip, own_mac@),
        frame@.len() == size + 54,
{
    let total_len = size + TCP_HEADER_SIZE;
    let mut frame = crate::net::ip::create_packet(IpType::TCP, total_len, target, src_ip, own_mac);
    let mut header = TcpHeader::zeroed();
    header.set_dst_port(dst_port);
    header.set_src_port(src_port);
    header.set_header_len(TCP_HEADER_SIZE as u8);
    let bytes = header.to_bytes();
    proof {
        let f = header.flags.spec_value();
        assert(f == with_header_len(0, 20));
        assert(((0u16 & 0x0fff) | (5u16 << 12u16)) == 0x5000) by (bit_vector);
        assert((20u8 / 4) as u16 == 5u16);
        assert(be16(0) =~= seq![0u8, 0]) by {
            assert((0u16 >> 8u16) as u8 == 0 && (0u16 & 0xff) as u8 == 0) by (bit_vector);
        }
        assert(crate::net::util::be32(0) =~= seq![0u8, 0, 0, 0]) by {
            assert((0u32 >> 24u32) as u8 == 0 && ((0u32 >> 16u32) & 0xff) as u8 == 0 && ((0u32
                >> 8u32) & 0xff) as u8 == 0 && (0u32 & 0xff) as u8 == 0) by (bit_vector);
        }
        assert(bytes@ =~= be16(src_port) + be16(dst_port) + Seq::new(8, |i: int| 0u8) + be16(
            0x5000,
        ) + Seq::new(6, |i: int| 0u8));
    }
    write_bytes_at(&mut frame, 34, bytes.as_slice());
    frame
}

/// The service that receives a segment: the one bound to the destination
/// port in the TCP header at the start of `segment`. `None` means the port is
/// closed and the sender is to be told so.
pub fn process_packet<'a, H>(segment: &[u8], handlers: &'a BTreeMap<u32, H>) -> (r: Option<&'a H>)
    requires
        segment.len() >= TCP_HEADER_SIZE,
    ensures
        ({
            let port = be16_value(segment@[2], segment@[3]) as u32;
            &&& r is Some <==> handlers@.contains_key(port)
            &&& r matches Some(h) ==> *h == handlers@[port]
        }),
{
    let header = TcpHeader::from_bytes(segment);
    proof {
        assert(header.spec_bytes()[2] == segment@[2] && header.spec_bytes()[3] == segment@[3]);
        crate::net::util::lemma_be16_roundtrip(header.dst_port.spec_value());
    }
    let dst_port = header.dst_port() as u32;
    handlers.get(&dst_port)
}

} // verus!

verus! {

/// Replacing the checksum of a header replaces bytes 16 and 17 of its wire form.
pub proof fn lemma_tcp_bytes_with_checksum(h: TcpHeader, c: NetU16)
    ensures
        (TcpHeader { checksum: c, ..h }).spec_bytes() == h.spec_bytes().take(16) + be16(
            c.spec_value(),
        ) + h.spec_bytes().skip(18),
{
    let z = TcpHeader { checksum: c, ..h };
    assert(z.spec_bytes() =~= h.spec_bytes().take(16) + be16(c.spec_value()) + h.spec_bytes().skip(
        18,
    ));
}

/// The checksum that a TCP frame (Ethernet, IPv4 and TCP headers, payload)
/// should carry, from the addresses, protocol and length in its IPv4 header.
pub open spec fn tcp_frame_checksum(frame: Seq<u8>) -> u16 {
    tcp_checksum(
        frame.subrange(26, 34) + seq![0u8, frame[23]] + be16(
            (be16_value(frame[16], frame[17]) - 20) as u16,
        ),
        frame.subrange(34, 50) + seq![0u8, 0u8] + frame.skip(52),
    )
}

/// Fills in the TCP checksum of the frame and routes it (see `ip::send_packet`).
/// The IPv4 total length must cover the rest of the frame.
pub fn send_packet(
    frame: &mut Vec<u8>,
    dev: &crate::net::NetDeviceData,
    own_mac: &[u8; 6],
    cache: &crate::net::arp::cache::ArpCache,
) -> (r: crate::net::eth::EthSend)
    requires
        old(frame)@.len() >= 54,
        IpType::from_number_spec(old(frame)@[23]) is Some,
        be16_value(old(frame)@[16], old(frame)@[17]) == old(frame)@.len() - 14,
        cache.wf(),
    ensures
        crate::net::ip::routed(
            overwrite(old(frame)@, 50, be16(tcp_frame_checksum(old(frame)@))),
            final(frame)@,
            r,
            *dev,
            own_mac@,
            *cache,
        ),
{
    let ghost f0 = frame@;
    let ip_bytes = crate::net::ip::slice_at(frame.as_slice(), 14, 20);
    let ip = match IpHeader::from_bytes(ip_bytes) {
        Some(h) => h,
        None => {
            assert(false);
            return crate::net::eth::EthSend::Transmit;
        },
    };
    let mut header = TcpHeader::from_bytes(crate::net::ip::slice_at(frame.as_slice(), 34, 20));
    let payload = crate::net::ip::slice_at(frame.as_slice(), 54, frame.len() - 54);
    proof {
        assert(ip.spec_bytes() =~= f0.subrange(14, 34));
        crate::net::util::lemma_be16_roundtrip(ip.len.spec_value());
        assert(ip.spec_bytes()[2] == f0[16] && ip.spec_bytes()[3] == f0[17]);
        assert(ip.len.spec_value() == be16_value(f0[16], f0[17]));
    }
    let ghost h0 = header;
    assert(h0.spec_bytes() =~= f0.subrange(34, 54));
    header.calc_checksum(&ip, payload);
    let bytes = header.to_bytes();
    proof {
        let pseudo = PseudoHeader {
            src_ip: ip.src_ip,
            dst_ip: ip.dest_ip,
            zero: 0,
            prot: ip.protocol,
            len: NetU16(swap16((ip.len.spec_value() - 20) as u16)),
        };
        crate::net::util::lemma_swap16_involutive((ip.len.spec_value() - 20) as u16);
        assert(ip.spec_bytes().subrange(12, 20) == f0.subrange(26, 34));
        assert(ip.spec_bytes()[9] == f0[23]);
        assert(pseudo.spec_bytes() =~= f0.subrange(26, 34) + seq![0u8, f0[23]] + be16(
            (be16_value(f0[16], f0[17]) - 20) as u16,
        ));
        let z = TcpHeader { checksum: NetU16(0), ..h0 };
        lemma_tcp_bytes_with_checksum(h0, NetU16(0));
        lemma_tcp_bytes_with_checksum(h0, header.checksum);
        assert(swap16(0) == 0) by (bit_vector);
        assert((0u16 >> 8u16) as u8 == 0 && (0u16 & 0xff) as u8 == 0) by (bit_vector);
        assert(z.spec_bytes() =~= f0.subrange(34, 50) + seq![0u8, 0u8] + f0.subrange(52, 54));
        assert(z.spec_bytes() + payload@ =~= f0.subrange(34, 50) + seq![0u8, 0u8] + f0.skip(52));
        assert(header.checksum.spec_value() == tcp_frame_checksum(f0));
        assert(header == TcpHeader { checksum: header.checksum, ..h0 });
        assert(bytes@ =~= f0.subrange(34, 50) + be16(tcp_frame_checksum(f0)) + f0.subrange(52, 54));
    }
    write_bytes_at(frame, 34, bytes.as_slice());
    assert(frame@ =~= overwrite(f0, 50, be16(tcp_frame_checksum(f0))));
    crate::net::ip::send_packet(frame, dev, own_mac, cache)
}

} // verus!
