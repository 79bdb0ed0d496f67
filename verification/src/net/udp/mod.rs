//! The UDP header, building and sending datagrams, and the table of UDP ports.
use vstd::prelude::*;
use std::collections::BTreeMap;
use crate::net::ip::{Ip4, IpType, ip_frame};
use crate::net::packet::{PacketKind, ConstPacketKind};
use crate::net::util::{NetU16, be16, push_be16, read_be16, be16_value, lemma_be16_bytes_roundtrip,
    write_bytes_at, overwrite, swap16};

pub mod socket;

verus! {

broadcast use {vstd::laws_cmp::group_laws_cmp, vstd::std_specs::btree::group_btree_axioms};

/// Marker for the UDP layer of a packet.
#[derive(Debug, Copy, Clone)]
pub struct Udp {}

impl PacketKind for Udp {}

impl ConstPacketKind for Udp {
    fn hsize() -> (r: usize)
        ensures
            r == 8,
    {
        UDP_HEADER_SIZE
    }
}

impl crate::net::ip::IpBase for Udp {}

/// The size of the UDP header.
pub const UDP_HEADER_SIZE: usize = 8;

/// The UDP header.
#[derive(Debug, Copy, Clone)]
pub struct UdpHeader {
    pub src_port: NetU16,
    pub dst_port: NetU16,
    pub len: NetU16,
    pub crc: NetU16,
}

impl UdpHeader {
    /// The header's bytes as they travel on the wire.
    pub open spec fn spec_bytes(&self) -> Seq<u8> {
        be16(self.src_port.spec_value()) + be16(self.dst_port.spec_value()) + be16(
            self.len.spec_value(),
        ) + be16(self.crc.spec_value())
    }

    /// Sets the source port.
    pub fn set_src_port(&mut self, src: u16)
        ensures
            final(self).src_port.spec_value() == src,
            *final(self) == (UdpHeader { src_port: final(self).src_port, ..*old(self) }),
    {
        self.src_port = NetU16::new(src);
    }

    /// Sets the destination port.
    pub fn set_dst_port(&mut self, dst: u16)
        ensures
            final(self).dst_port.spec_value() == dst,
            *final(self) == (UdpHeader { dst_port: final(self).dst_port, ..*old(self) }),
    {
        self.dst_port = NetU16::new(dst);
    }

    /// Sets the length of the datagram, header included.
    pub fn set_len(&mut self, len: u16)
        ensures
            final(self).len.spec_value() == len,
            *final(self) == (UdpHeader { len: final(self).len, ..*old(self) }),
    {
        self.len = NetU16::new(len);
    }

    /// Leaves the checksum out: a zero checksum means "not computed" in UDP over IPv4.
    pub fn compute_checksum(&mut self)
        ensures
            final(self).crc.spec_value() == 0,
            *final(self) == (UdpHeader { crc: final(self).crc, ..*old(self) }),
    {
        self.crc = NetU16::new(0);
    }

    /// The header's bytes as they travel on the wire.
    pub fn to_bytes(&self) -> (r: Vec<u8>)
        ensures
            r@ == self.spec_bytes(),
            r@.len() == UDP_HEADER_SIZE,
    {
        let mut out: Vec<u8> = Vec::new();
        push_be16(&mut out, self.src_port.value());
        push_be16(&mut out, self.dst_port.value());
        push_be16(&mut out, self.len.value());
        push_be16(&mut out, self.crc.value());
        assert(out@ =~= self.spec_bytes());
        out
    }

    /// The header in the first 8 bytes of `b`.
    pub fn from_bytes(b: &[u8]) -> (h: UdpHeader)
        requires
            b.len() >= UDP_HEADER_SIZE,
        ensures
            h.spec_bytes() == b@.take(8),
    {
        let h = UdpHeader {
            src_port: NetU16::new(read_be16(b, 0)),
            dst_port: NetU16::new(read_be16(b, 2)),
            len: NetU16::new(read_be16(b, 4)),
            crc: NetU16::new(read_be16(b, 6)),
        };
        proof {
            lemma_be16_bytes_roundtrip(b@[0], b@[1]);
            lemma_be16_bytes_roundtrip(b@[2], b@[3]);
            lemma_be16_bytes_roundtrip(b@[4], b@[5]);
            lemma_be16_bytes_roundtrip(b@[6], b@[7]);
            assert(h.spec_bytes() =~= b@.take(8));
        }
        h
    }
}

/// A UDP header is determined by its bytes: parsing the bytes that
/// `to_bytes` writes gives the header back.
pub proof fn lemma_udp_header_bytes_injective(a: UdpHeader, b: UdpHeader)
    requires
        a.spec_bytes() == b.spec_bytes(),
    ensures
        a == b,
{
    crate::net::util::lemma_concat_split(be16(a.src_port.spec_value()) + be16(a.dst_port.spec_value()) + be16(a.len.spec_value()), be16(a.crc.spec_value()), be16(b.src_port.spec_value()) + be16(b.dst_port.spec_value()) + be16(b.len.spec_value()), be16(b.crc.spec_value()));
    crate::net::util::lemma_concat_split(be16(a.src_port.spec_value()) + be16(a.dst_port.spec_value()), be16(a.len.spec_value()), be16(b.src_port.spec_value()) + be16(b.dst_port.spec_value()), be16(b.len.spec_value()));
    crate::net::util::lemma_concat_split(be16(a.src_port.spec_value()), be16(a.dst_port.spec_value()), be16(b.src_port.spec_value()), be16(b.dst_port.spec_value()));
    crate::net::util::lemma_net16_bytes_injective(a.src_port, b.src_port);
    crate::net::util::lemma_net16_bytes_injective(a.dst_port, b.dst_port);
    crate::net::util::lemma_net16_bytes_injective(a.len, b.len);
    crate::net::util::lemma_net16_bytes_injective(a.crc, b.crc);
}

/// A new UDP datagram frame with `size` bytes of zero payload.
pub open spec fn udp_frame(src_port: u16, dst_port: u16, size: nat, target: Ip4, src_ip: Ip4, own_mac: Seq<u8>) -> Seq<u8> {
    overwrite(
        ip_frame(IpType::UDP, size + 8, target, src_ip, own_mac),
        34,
        be16(src_port) + be16(dst_port) + be16((size + 8) as u16) + be16(0),
    )
}

/// A new UDP frame for `size` bytes of payload from `src_port` to
/// `dst_port` at `target`; the length field holds the datagram length cut to
/// 16 bits.
pub fn create_packet(
    src_port: u16,
    dst_port: u16,
    size: usize,
    target: Ip4,
    src_ip: Ip4,
    own_mac: &[u8; 6],
) -> (frame: Vec<u8>)
    requires
        size + 42 <= usize::MAX,
    ensures
        frame@ == udp_frame(src_port, dst_port, size as nat, target, src_ip, own_mac@),
        frame@.len() == size + 42,
{
    let total_len = size + UDP_HEADER_SIZE;
    let mut frame = crate::net::ip::create_packet(IpType::UDP, total_len, target, src_ip, own_mac);
    let mut header = UdpHeader {
        src_port: NetU16::new(0),
        dst_port: NetU16::new(0),
        len: NetU16::new(0),
        crc: NetU16::new(0),
    };
    header.set_dst_port(dst_port);
    header.set_src_port(src_port);
    header.set_len(total_len as u16);
    proof {
        crate::net::util::lemma_swap16_involutive(0);
        assert(swap16(0) == 0) by (bit_vector);
    }
    let bytes = header.to_bytes();
    write_bytes_at(&mut frame, 34, bytes.as_slice());
    frame
}

/// Clears the checksum of the UDP frame and routes it (see `ip::send_packet`).
pub fn send_packet(
    frame: &mut Vec<u8>,
    dev: &crate::net::NetDeviceData,
    own_mac: &[u8; 6],
    cache: &crate::net::arp::cache::ArpCache,
) -> (r: crate::net::eth::EthSend)
    requires
        old(frame)@.len() >= 42,
        cache.wf(),
    ensures
        crate::net::ip::routed(
            overwrite(old(frame)@, 40, seq![0u8, 0u8]),
            final(frame)@,
            r,
            *dev,
            own_mac@,
            *cache,
        ),
{
    let zero: [u8; 2] = [0, 0];
    write_bytes_at(frame, 40, zero.as_slice());
    assert(zero@ =~= seq![0u8, 0u8]);
    let ghost cleared = frame@;
    assert(crate::net::ip::frame_dest(cleared) == crate::net::ip::frame_dest(old(frame)@)) by {
        assert(cleared[30] == old(frame)@[30] && cleared[31] == old(frame)@[31] && cleared[32]
            == old(frame)@[32] && cleared[33] == old(frame)@[33]);
        assert(crate::net::ip::frame_dest(cleared).v@ =~= crate::net::ip::frame_dest(
            old(frame)@,
        ).v@);
    }
    crate::net::ip::send_packet(frame, dev, own_mac, cache)
}

/// A service bound to a UDP port.
pub trait UdpService {
    /// Handles a datagram addressed to the service's port.
    fn process_packet(&self, packet: &[u8]);

    /// Learns that a datagram sent from `port` could not be delivered.
    fn port_unreachable(&self, port: u32);
}

/// The service that receives a datagram: the one bound to the destination
/// port in the UDP header at the start of `segment`. `None` means the port is
/// closed and the sender is to be told so.
pub fn process_packet<'a, H>(segment: &[u8], handlers: &'a BTreeMap<u32, H>) -> (r: Option<&'a H>)
    requires
        segment.len() >= UDP_HEADER_SIZE,
    ensures
        ({
            let port = be16_value(segment@[2], segment@[3]) as u32;
            &&& r is Some <==> handlers@.contains_key(port)
            &&& r matches Some(h) ==> *h == handlers@[port]
        }),
{
    let dst_port = read_be16(segment, 2) as u32;
    handlers.get(&dst_port)
}

/// The service bound to `port`, to be told that its datagram could not be delivered.
pub fn port_unreachable<'a, H>(port: u32, handlers: &'a BTreeMap<u32, H>) -> (r: Option<&'a H>)
    ensures
        r is Some <==> handlers@.contains_key(port),
        r matches Some(h) ==> *h == handlers@[port],
{
    handlers.get(&port)
}

/// Registers `handler` on `port` unless the port is taken; says whether it was registered.
pub fn register_handler<H>(handlers: &mut BTreeMap<u32, H>, port: u32, handler: H) -> (r: bool)
    ensures
        r == !old(handlers)@.contains_key(port),
        r ==> final(handlers)@ == old(handlers)@.insert(port, handler),
        !r ==> final(handlers)@ == old(handlers)@,
{
    crate::net::ports::register_port(handlers, port, handler)
}

/// Registers `handler` on the lowest free port of 49152..=65535 and returns it,
/// or `None` when all of them are taken.
pub fn register_ephemeral_handler<H>(handlers: &mut BTreeMap<u32, H>, handler: H) -> (r: Option<u32>)
    ensures
        match r {
            Some(p) => {
                &&& 49152 <= p <= 65535
                &&& !old(handlers)@.contains_key(p)
                &&& crate::net::ports::all_taken(old(handlers)@, 49152, p as int)
                &&& final(handlers)@ == old(handlers)@.insert(p, handler)
            },
            None => {
                &&& crate::net::ports::all_taken(old(handlers)@, 49152, 65536)
                &&& final(handlers)@ == old(handlers)@
            },
        },
{
    crate::net::ports::register_ephemeral_port(handlers, handler)
}

/// Removes the service on `port`; releasing a port that is not registered is a bug.
pub fn release_handler<H>(handlers: &mut BTreeMap<u32, H>, port: u32)
    requires
        old(handlers)@.contains_key(port),
    ensures
        final(handlers)@ == old(handlers)@.remove(port),
{
    crate::net::ports::release_port(handlers, port)
}

} // verus!
