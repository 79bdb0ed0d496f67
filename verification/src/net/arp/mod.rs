//! The Address Resolution Protocol: the header, replies to requests for our
//! address, and requests for the addresses of others.
pub mod cache;

use vstd::prelude::*;
use crate::net::ip::{Ip4, ip_key, same_under_mask};
use crate::net::util::{NetU8, NetU16, be16, push_be16, push_all, read_be16, be16_value,
    lemma_be16_bytes_roundtrip, write_bytes_at, overwrite};
use crate::net::eth::{EthType, new_frame, create_packet};
use crate::net::packet::{PacketKind, ConstPacketKind};
use crate::net::NetDeviceData;
use crate::net::arp::cache::{ArpCache, frames_to};

verus! {

/// Hardware types.
#[derive(Debug, Copy, Clone, PartialEq, Eq, Structural)]
pub enum HType {
    Ethernet,
    IEEE8023,
    FrameRelay,
    ATM,
    HDLC,
    FibleChannel,
    ATM2,
    SerialLine,
    ATM3,
    IPsec,
}

impl HType {
    /// The number carried in the header.
    pub open spec fn spec_number(self) -> u16 {
        match self {
            HType::Ethernet => 1,
            HType::IEEE8023 => 6,
            HType::FrameRelay => 15,
            HType::ATM => 16,
            HType::HDLC => 17,
            HType::FibleChannel => 18,
            HType::ATM2 => 19,
            HType::SerialLine => 20,
            HType::ATM3 => 30,
            HType::IPsec => 31,
        }
    }

    /// The number carried in the header.
    pub fn number(self) -> (r: u16)
        ensures
            r == self.spec_number(),
    {
        match self {
            HType::Ethernet => 1,
            HType::IEEE8023 => 6,
            HType::FrameRelay => 15,
            HType::ATM => 16,
            HType::HDLC => 17,
            HType::FibleChannel => 18,
            HType::ATM2 => 19,
            HType::SerialLine => 20,
            HType::ATM3 => 30,
            HType::IPsec => 31,
        }
    }

    /// The hardware type with the given number, if it is one of the known ones.
    pub fn from_number(n: u16) -> (r: Option<HType>)
        ensures
            r matches Some(t) ==> t.spec_number() == n,
            r is None <==> !(n == 1 || n == 6 || (15 <= n <= 20) || n == 30 || n == 31),
    {
        if n == 1 {
            Some(HType::Ethernet)
        } else if n == 6 {
            Some(HType::IEEE8023)
        } else if n == 15 {
            Some(HType::FrameRelay)
        } else if n == 16 {
            Some(HType::ATM)
        } else if n == 17 {
            Some(HType::HDLC)
        } else if n == 18 {
            Some(HType::FibleChannel)
        } else if n == 19 {
            Some(HType::ATM2)
        } else if n == 20 {
            Some(HType::SerialLine)
        } else if n == 30 {
            Some(HType::ATM3)
        } else if n == 31 {
            Some(HType::IPsec)
        } else {
            None
        }
    }
}

/// Protocol types; only IPv4 is resolved.
#[derive(Debug, Copy, Clone, PartialEq, Eq, Structural)]
pub enum PType {
    IPv4,
}

/// Operations.
#[derive(Debug, Copy, Clone, PartialEq, Eq, Structural)]
pub enum Oper {
    Request,
    Reply,
    ReverseRequest,
    ReverseReply,
}

impl Oper {
    /// The number carried in the header.
    pub open spec fn spec_number(self) -> u16 {
        match self {
            Oper::Request => 1,
            Oper::Reply => 2,
            Oper::ReverseRequest => 3,
            Oper::ReverseReply => 4,
        }
    }

    /// The number carried in the header.
    pub fn number(self) -> (r: u16)
        ensures
            r == self.spec_number(),
    {
        match self {
            Oper::Request => 1,
            Oper::Reply => 2,
            Oper::ReverseRequest => 3,
            Oper::ReverseReply => 4,
        }
    }

    /// The operation with the given number, if it is one of the four.
    pub fn from_number(n: u16) -> (r: Option<Oper>)
        ensures
            r matches Some(t) ==> t.spec_number() == n,
            r is None <==> !(1 <= n <= 4),
    {
        if n == 1 {
            Some(Oper::Request)
        } else if n == 2 {
            Some(Oper::Reply)
        } else if n == 3 {
            Some(Oper::ReverseRequest)
        } else if n == 4 {
            Some(Oper::ReverseReply)
        } else {
            None
        }
    }
}

/// The ARP header for Ethernet and IPv4, 28 bytes on the wire.
#[derive(Debug, Copy, Clone)]
pub struct ArpHeader {
    pub htype: HType,
    pub ptype: PType,
    pub hlen: NetU8,
    pub plen: NetU8,
    pub oper: Oper,
    pub src_mac: [u8; 6],
    pub src_ip: Ip4,
    pub dst_mac: [u8; 6],
    pub dst_ip: Ip4,
}

/// The size of the ARP header.
pub const ARP_HEADER_SIZE: usize = 28;

/// Marker for the ARP layer of a packet.
#[derive(Debug, Copy, Clone)]
pub struct Arp {}

impl PacketKind for Arp {}

impl ConstPacketKind for Arp {
    fn hsize() -> (r: usize)
        ensures
            r == 28,
    {
        ARP_HEADER_SIZE
    }
}

impl ArpHeader {
    /// The header's bytes as they travel on the wire.
    pub open spec fn spec_bytes(&self) -> Seq<u8> {
        be16(self.htype.spec_number()) + be16(0x0800) + seq![self.hlen.0, self.plen.0] + be16(
            self.oper.spec_number(),
        ) + self.src_mac@ + self.src_ip.v@ + self.dst_mac@ + self.dst_ip.v@
    }

    /// Ethernet hardware, IPv4 protocol, address lengths 6 and 4.
    pub fn init(&mut self)
        ensures
            *final(self) == (ArpHeader {
                htype: HType::Ethernet,
                ptype: PType::IPv4,
                hlen: NetU8(6),
                plen: NetU8(4),
                ..*old(self)
            }),
    {
        self.htype = HType::Ethernet;
        self.ptype = PType::IPv4;
        self.hlen = NetU8::new(6);
        self.plen = NetU8::new(4);
    }

    /// Sets the operation.
    pub fn set_oper(&mut self, oper: Oper)
        ensures
            *final(self) == (ArpHeader { oper, ..*old(self) }),
    {
        self.oper = oper;
    }

    /// Sets the sender's protocol address.
    pub fn set_src_ip(&mut self, ip: Ip4)
        ensures
            *final(self) == (ArpHeader { src_ip: ip, ..*old(self) }),
    {
        self.src_ip = ip;
    }

    /// Sets the target's protocol address.
    pub fn set_dst_ip(&mut self, ip: Ip4)
        ensures
            *final(self) == (ArpHeader { dst_ip: ip, ..*old(self) }),
    {
        self.dst_ip = ip;
    }

    /// Sets the sender's hardware address; `mac` must have six bytes.
    pub fn set_src_mac(&mut self, mac: &[u8])
        requires
            mac.len() == 6,
        ensures
            final(self).src_mac@ == mac@,
            *final(self) == (ArpHeader { src_mac: final(self).src_mac, ..*old(self) }),
    {
        self.src_mac = [mac[0], mac[1], mac[2], mac[3], mac[4], mac[5]];
        assert(self.src_mac@ =~= mac@);
    }

    /// Sets the target's hardware address; `mac` must have six bytes.
    pub fn set_dst_mac(&mut self, mac: &[u8])
        requires
            mac.len() == 6,
        ensures
            final(self).dst_mac@ == mac@,
            *final(self) == (ArpHeader { dst_mac: final(self).dst_mac, ..*old(self) }),
    {
        self.dst_mac = [mac[0], mac[1], mac[2], mac[3], mac[4], mac[5]];
        assert(self.dst_mac@ =~= mac@);
    }

    /// The operation.
    pub fn oper(&self) -> (r: Oper)
        ensures
            r == self.oper,
    {
        self.oper
    }

    /// The sender's protocol address.
    pub fn src_ip(&self) -> (r: Ip4)
        ensures
            r == self.src_ip,
    {
        self.src_ip
    }

    /// The target's protocol address.
    pub fn dst_ip(&self) -> (r: Ip4)
        ensures
            r == self.dst_ip,
    {
        self.dst_ip
    }

    /// The sender's hardware address.
    pub fn src_mac(&self) -> (r: &[u8])
        ensures
            r@ == self.src_mac@,
    {
        self.src_mac.as_slice()
    }

    /// The target's hardware address.
    pub fn dst_mac(&self) -> (r: &[u8])
        ensures
            r@ == self.dst_mac@,
    {
        self.dst_mac.as_slice()
    }

    /// The header's bytes as they travel on the wire.
    pub fn to_bytes(&self) -> (r: Vec<u8>)
        ensures
            r@ == self.spec_bytes(),
            r@.len() == ARP_HEADER_SIZE,
    {
        let mut out: Vec<u8> = Vec::new();
        push_be16(&mut out, self.htype.number());
        push_be16(&mut out, 0x0800);
        out.push(self.hlen.net_value());
        out.push(self.plen.net_value());
        push_be16(&mut out, self.oper.number());
        push_all(&mut out, &self.src_mac);
        push_all(&mut out, &self.src_ip.v);
        push_all(&mut out, &self.dst_mac);
        push_all(&mut out, &self.dst_ip.v);
        assert(out@ =~= self.spec_bytes());
        out
    }

    /// The header at the start of `b`, or `None` when `b` is too short or
    /// names a hardware type, protocol or operation that is not known.
    pub fn from_bytes(b: &[u8]) -> (r: Option<ArpHeader>)
        ensures
            r matches Some(h) ==> b@.len() >= 28 && h.spec_bytes() == b@.take(28),
            b@.len() >= 28 && be16_value(b@[0], b@[1]) == 1 && be16_value(b@[2], b@[3]) == 0x0800
                && 1 <= be16_value(b@[6], b@[7]) <= 4 ==> r is Some,
    {
        if b.len() < 28 {
            return None;
        }
        let ht = HType::from_number(read_be16(b, 0));
        let pt = read_be16(b, 2);
        let op = Oper::from_number(read_be16(b, 6));
        if pt != 0x0800 {
            return None;
        }
        match (ht, op) {
            (Some(h), Some(o)) => {
                let hdr = ArpHeader {
                    htype: h,
                    ptype: PType::IPv4,
                    hlen: NetU8::new(b[4]),
                    plen: NetU8::new(b[5]),
                    oper: o,
                    src_mac: [b[8], b[9], b[10], b[11], b[12], b[13]],
                    src_ip: Ip4 { v: [b[14], b[15], b[16], b[17]] },
                    dst_mac: [b[18], b[19], b[20], b[21], b[22], b[23]],
                    dst_ip: Ip4 { v: [b[24], b[25], b[26], b[27]] },
                };
                proof {
                    lemma_be16_bytes_roundtrip(b@[0], b@[1]);
                    lemma_be16_bytes_roundtrip(b@[2], b@[3]);
                    lemma_be16_bytes_roundtrip(b@[6], b@[7]);
                    assert(hdr.spec_bytes() =~= b@.take(28));
                }
                Some(hdr)
            },
            _ => None,
        }
    }
}

/// The ARP header of a frame sent by this host.
pub open spec fn arp_header(oper: Oper, src_ip: Ip4, src_mac: Seq<u8>, dst_ip: Ip4, dst_mac: Seq<u8>) -> Seq<u8> {
    be16(1) + be16(0x0800) + seq![6u8, 4u8] + be16(oper.spec_number()) + src_mac + src_ip.v@ + dst_mac
        + dst_ip.v@
}

/// A whole ARP frame sent from `own_mac`.
pub open spec fn arp_frame(own_mac: Seq<u8>, oper: Oper, src_ip: Ip4, dst_ip: Ip4, dst_mac: Seq<u8>) -> Seq<u8> {
    overwrite(
        new_frame(EthType::ARP, 28, own_mac),
        14,
        arp_header(oper, src_ip, own_mac, dst_ip, dst_mac),
    )
}

fn make_frame(own_mac: &[u8; 6], oper: Oper, src_ip: Ip4, dst_ip: Ip4, dst_mac: &[u8]) -> (f: Vec<u8>)
    requires
        dst_mac.len() == 6,
    ensures
        f@ == arp_frame(own_mac@, oper, src_ip, dst_ip, dst_mac@),
        f@.len() == 42,
{
    let mut frame = create_packet(EthType::ARP, ARP_HEADER_SIZE, own_mac);
    let mut ohdr = ArpHeader {
        htype: HType::Ethernet,
        ptype: PType::IPv4,
        hlen: NetU8::new(0),
        plen: NetU8::new(0),
        oper: Oper::Request,
        src_mac: [0; 6],
        src_ip: Ip4::empty(),
        dst_mac: [0; 6],
        dst_ip: Ip4::empty(),
    };
    ohdr.init();
    ohdr.set_oper(oper);
    ohdr.set_src_ip(src_ip);
    ohdr.set_src_mac(own_mac.as_slice());
    ohdr.set_dst_ip(dst_ip);
    ohdr.set_dst_mac(dst_mac);
    let bytes = ohdr.to_bytes();
    assert(bytes@ =~= arp_header(oper, src_ip, own_mac@, dst_ip, dst_mac@));
    write_bytes_at(&mut frame, 14, bytes.as_slice());
    frame
}

/// What an incoming ARP packet led to.
pub struct ArpOutcome {
    /// Frames that waited for the sender's address, now addressed to it.
    pub released: Vec<Vec<u8>>,
    /// The reply to send, when the packet asked for this host's address.
    pub reply: Option<Vec<u8>>,
}

/// Handles a received ARP header. A sender in this host's subnet is
/// recorded in the cache; a request for this host's address gets a reply.
pub fn process_packet(
    header: &ArpHeader,
    dev: &NetDeviceData,
    own_mac: &[u8; 6],
    cache: &mut ArpCache,
) -> (out: ArpOutcome)
    requires
        old(cache).wf(),
    ensures
        final(cache).wf(),
        same_under_mask(dev.ip, header.src_ip, dev.subnet) ==> final(cache).spec_get(
            ip_key(header.src_ip),
        ) == if old(cache).spec_get(ip_key(header.src_ip)) is Some {
            old(cache).spec_get(ip_key(header.src_ip))
        } else {
            Some(header.src_mac)
        },
        forall|k: u32| k != ip_key(header.src_ip) ==> #[trigger] final(cache).spec_get(k) == old(cache).spec_get(k),
        same_under_mask(dev.ip, header.src_ip, dev.subnet) && old(cache).cache@.contains_key(
            ip_key(header.src_ip),
        ) ==> frames_to(
            old(cache).cache@[ip_key(header.src_ip)].packets@,
            final(cache).spec_get(ip_key(header.src_ip))->0@,
            out.released@,
        ),
        !(same_under_mask(dev.ip, header.src_ip, dev.subnet) && old(cache).cache@.contains_key(
            ip_key(header.src_ip),
        )) ==> out.released@.len() == 0,
        !same_under_mask(dev.ip, header.src_ip, dev.subnet) ==> final(cache).cache@ == old(
            cache,
        ).cache@,
        out.reply is Some <==> (header.oper == Oper::Request && ip_key(header.dst_ip) == ip_key(
            dev.ip,
        )),
        out.reply matches Some(f) ==> f@ == arp_frame(
            own_mac@,
            Oper::Reply,
            dev.ip,
            header.src_ip,
            header.src_mac@,
        ),
{
    let mut released: Vec<Vec<u8>> = Vec::new();
    if header.src_ip.is_same_subnet(dev.ip, dev.subnet) {
        released = cache::insert(cache, header.src_ip, &header.src_mac);
    }
    let mut reply: Option<Vec<u8>> = None;
    if header.oper() == Oper::Request {
        if header.dst_ip().key() == dev.ip.key() {
            reply = Some(make_frame(own_mac, Oper::Reply, dev.ip, header.src_ip(), header.src_mac()));
        }
    }
    ArpOutcome { released, reply }
}

/// Queues `to_cache` until the address of `target` is known and returns the
/// request frame that asks for it (to be sent to the broadcast address).
pub fn request_ip(
    target: Ip4,
    to_cache: Vec<u8>,
    dev: &NetDeviceData,
    own_mac: &[u8; 6],
    cache: &mut ArpCache,
) -> (req: Vec<u8>)
    requires
        old(cache).wf(),
        to_cache@.len() >= 14,
    ensures
        final(cache).wf(),
        forall|k: u32| #[trigger] final(cache).spec_get(k) == old(cache).spec_get(k),
        old(cache).spec_get(ip_key(target)) is None ==> {
            let e = final(cache).cache@[ip_key(target)];
            &&& e.packets@.len() > 0
            &&& e.packets@.last()@ == to_cache@
        },
        req@ == arp_frame(own_mac@, Oper::Request, dev.ip, target, seq![0u8, 0, 0, 0, 0, 0]),
{
    let zero: [u8; 6] = [0, 0, 0, 0, 0, 0];
    let f = make_frame(own_mac, Oper::Request, dev.ip, target, zero.as_slice());
    assert(zero@ =~= seq![0u8, 0, 0, 0, 0, 0]);
    cache::request_ip(cache, target, to_cache);
    f
}

/// A fresh cache that already knows the broadcast address.
pub fn init() -> (c: ArpCache)
    ensures
        c.wf(),
        c.spec_get(0xffff_ffff) == Some([0xffu8, 0xff, 0xff, 0xff, 0xff, 0xff]),
{
    cache::init()
}

/// Fills `mac` with the broadcast hardware address.
pub fn get_dst_mac(mac: &mut [u8], ip: Ip4)
    ensures
        final(mac)@.len() == old(mac)@.len(),
        forall|i: int| 0 <= i < final(mac)@.len() ==> #[trigger] final(mac)@[i] == 0xff,
{
    let mut i: usize = 0;
    while i < mac.len()
        invariant
            i <= mac@.len(),
            mac@.len() == old(mac)@.len(),
            forall|j: int| 0 <= j < i ==> #[trigger] mac@[j] == 0xff,
        decreases mac@.len() - i,
    {
        mac[i] = 0xff;
        i = i + 1;
    }
}

} // verus!
