//! IPv4 addresses and the IPv4 header.
use vstd::prelude::*;
use crate::net::util::{NetU8, NetU16, be16, be32, be32_value, push_be16, push_all, read_be16, lemma_be16_bytes_roundtrip, lemma_be32_roundtrip, lemma_be32_bytes_roundtrip};
use crate::net::util::checksum::{calc_ref, make, raw_sum, checksum_of};

verus! {

/// The transport protocols that the stack dispatches on.
#[derive(Debug, Copy, Clone, PartialEq, Eq, Structural)]
pub enum IpType {
    ICMP,
    TCP,
    UDP,
}

impl IpType {
    /// The protocol number carried in the header.
    pub open spec fn spec_number(self) -> u8 {
        match self {
            IpType::ICMP => 1,
            IpType::TCP => 6,
            IpType::UDP => 17,
        }
    }

    /// The protocol number carried in the header.
    pub fn number(self) -> (r: u8)
        ensures
            r == self.spec_number(),
    {
        match self {
            IpType::ICMP => 1,
            IpType::TCP => 6,
            IpType::UDP => 17,
        }
    }

    /// The protocol with the given number, if the stack knows it.
    pub fn from_number(n: u8) -> (r: Option<IpType>)
        ensures
            r matches Some(t) ==> t.spec_number() == n,
            r is None <==> (n != 1 && n != 6 && n != 17),
    {
        if n == 1 {
            Some(IpType::ICMP)
        } else if n == 6 {
            Some(IpType::TCP)
        } else if n == 17 {
            Some(IpType::UDP)
        } else {
            None
        }
    }

    /// UDP, the protocol a zeroed header names.
    pub fn default() -> (r: IpType)
        ensures
            r == IpType::UDP,
    {
        IpType::UDP
    }
}

/// An IPv4 address, most significant byte first.
#[derive(Debug, Default, Copy, Clone, Hash, PartialEq, Eq, PartialOrd, Ord)]
pub struct Ip4 {
    pub v: [u8; 4],
}

/// The address as one 32-bit number, first byte most significant.
pub open spec fn ip_key(ip: Ip4) -> u32 {
    be32_value(ip.v@[0], ip.v@[1], ip.v@[2], ip.v@[3])
}

/// Whether `a` and `b` agree on every bit that `mask` sets.
pub open spec fn same_under_mask(a: Ip4, b: Ip4, mask: Ip4) -> bool {
    forall|i: int| 0 <= i < 4 ==> #[trigger] (a.v@[i] & mask.v@[i]) == (b.v@[i] & mask.v@[i])
}

impl Ip4 {
    /// 255.255.255.255.
    pub fn limited_broadcast() -> (r: Ip4)
        ensures
            r.v@ == seq![255u8, 255, 255, 255],
    {
        Ip4 { v: [255, 255, 255, 255] }
    }

    /// The address in the first four bytes of `d`.
    pub fn new(d: &[u8]) -> (r: Ip4)
        requires
            d.len() >= 4,
        ensures
            r.v@ == d@.take(4),
    {
        let r = Ip4 { v: [d[0], d[1], d[2], d[3]] };
        assert(r.v@ =~= d@.take(4));
        r
    }

    /// 0.0.0.0.
    pub fn empty() -> (r: Ip4)
        ensures
            r.v@ == seq![0u8, 0, 0, 0],
    {
        Ip4 { v: [0, 0, 0, 0] }
    }

    /// Whether the address is 0.0.0.0.
    pub fn is_empty(&self) -> (r: bool)
        ensures
            r == (self.v@ == seq![0u8, 0, 0, 0]),
    {
        let r = self.v[0] == 0 && self.v[1] == 0 && self.v[2] == 0 && self.v[3] == 0;
        assert(r == (self.v@ =~= seq![0u8, 0, 0, 0]));
        r
    }

    /// Whether `ip` and this address lie in the same subnet under the mask `subnet`.
    pub fn is_same_subnet(&self, ip: Ip4, subnet: Ip4) -> (r: bool)
        ensures
            r == same_under_mask(ip, *self, subnet),
    {
        let mut i: usize = 0;
        while i < 4
            invariant
                i <= 4,
                forall|j: int|
                    0 <= j < i ==> #[trigger] (ip.v@[j] & subnet.v@[j]) == (self.v@[j]
                        & subnet.v@[j]),
            decreases 4 - i,
        {
            if !((ip.v[i] & subnet.v[i]) == (self.v[i] & subnet.v[i])) {
                return false;
            }
            i = i + 1;
        }
        return true;
    }

    /// The address as one 32-bit number, first byte most significant.
    pub fn key(&self) -> (r: u32)
        ensures
            r == ip_key(*self),
    {
        be32_of(self.v[0], self.v[1], self.v[2], self.v[3])
    }

    /// The address whose 32-bit number is `k`.
    pub fn from_key(k: u32) -> (r: Ip4)
        ensures
            ip_key(r) == k,
            r.v@ == be32(k),
    {
        let r = Ip4 {
            v: [(k >> 24u32) as u8, ((k >> 16u32) & 0xff) as u8, ((k >> 8u32) & 0xff) as u8, (k
                & 0xff) as u8],
        };
        proof {
            lemma_be32_roundtrip(k);
            assert(r.v@ =~= be32(k));
        }
        r
    }
}

fn be32_of(b0: u8, b1: u8, b2: u8, b3: u8) -> (r: u32)
    ensures
        r == be32_value(b0, b1, b2, b3),
{
    ((b0 as u32) << 24u32) | ((b1 as u32) << 16u32) | ((b2 as u32) << 8u32) | (b3 as u32)
}

/// Whether two addresses share a subnet does not depend on their order.
pub proof fn lemma_same_subnet_symmetric(a: Ip4, b: Ip4, mask: Ip4)
    ensures
        same_under_mask(a, b, mask) == same_under_mask(b, a, mask),
{
}

/// Distinct addresses have distinct 32-bit numbers.
pub proof fn lemma_ip_key_injective(a: Ip4, b: Ip4)
    requires
        ip_key(a) == ip_key(b),
    ensures
        a == b,
{
    lemma_be32_bytes_roundtrip(a.v@[0], a.v@[1], a.v@[2], a.v@[3]);
    lemma_be32_bytes_roundtrip(b.v@[0], b.v@[1], b.v@[2], b.v@[3]);
    assert(a.v@ =~= b.v@);
    assert(a.v == b.v);
}

/// Marker for the IPv4 layer of a packet.
#[derive(Debug, Copy, Clone)]
pub struct Ip {}

/// The transport layers that sit on top of IPv4.
pub trait IpBase {}

/// The fixed part of an IPv4 header, 20 bytes on the wire.
#[derive(Debug, Copy, Clone)]
pub struct IpHeader {
    pub v: NetU8,
    pub tos: NetU8,
    pub len: NetU16,
    pub ident: NetU16,
    pub frag_offset: NetU16,
    pub ttl: NetU8,
    pub protocol: IpType,
    pub hcrc: NetU16,
    pub src_ip: Ip4,
    pub dest_ip: Ip4,
}

/// The size of the fixed IPv4 header.
pub const IP_HEADER_SIZE: usize = 20;

impl IpHeader {
    /// The header's bytes as they travel on the wire.
    pub open spec fn spec_bytes(&self) -> Seq<u8> {
        seq![self.v.0, self.tos.0] + be16(self.len.spec_value()) + be16(self.ident.spec_value())
            + be16(self.frag_offset.spec_value()) + seq![self.ttl.0, self.protocol.spec_number()]
            + be16(self.hcrc.spec_value()) + self.src_ip.v@ + self.dest_ip.v@
    }

    /// A zeroed header (protocol UDP).
    pub fn zeroed() -> (h: IpHeader)
        ensures
            h.v.0 == 0 && h.tos.0 == 0 && h.ttl.0 == 0,
            h.len.spec_value() == 0 && h.ident.spec_value() == 0 && h.frag_offset.spec_value()
                == 0 && h.hcrc.spec_value() == 0,
            h.protocol == IpType::UDP,
            h.src_ip.v@ == seq![0u8, 0, 0, 0] && h.dest_ip.v@ == seq![0u8, 0, 0, 0],
    {
        IpHeader {
            v: NetU8::new(0),
            tos: NetU8::new(0),
            len: NetU16::new(0),
            ident: NetU16::new(0),
            frag_offset: NetU16::new(0),
            ttl: NetU8::new(0),
            protocol: IpType::default(),
            hcrc: NetU16::new(0),
            src_ip: Ip4::empty(),
            dest_ip: Ip4::empty(),
        }
    }

    /// Sets version 4 with a 20-byte header, no type of service, no
    /// fragmentation, a time to live of 64 and a zero checksum.
    pub fn init(&mut self)
        ensures
            final(self).v.0 == 0x45,
            final(self).tos.0 == 0,
            final(self).ident.spec_value() == 0,
            final(self).frag_offset.spec_value() == 0,
            final(self).ttl.0 == 64,
            final(self).hcrc.spec_value() == 0,
            final(self).len == old(self).len,
            final(self).protocol == old(self).protocol,
            final(self).src_ip == old(self).src_ip,
            final(self).dest_ip == old(self).dest_ip,
    {
        self.v = NetU8::new(0x45);
        self.tos = NetU8::new(0);
        self.ident = NetU16::new(0);
        self.frag_offset = NetU16::new(0);
        self.ttl = NetU8::new(64);
        self.hcrc = NetU16::new(0);
    }

    /// The header length in bytes, from the low nibble of the first byte.
    pub fn header_size(&self) -> (r: usize)
        ensures
            r == (self.v.0 & 0xf) as int * 4,
    {
        ((self.v.value() & 0xf) as usize) * 4
    }

    /// Sets the total length.
    pub fn set_length(&mut self, len: u16)
        ensures
            final(self).len.spec_value() == len,
            *final(self) == (IpHeader { len: final(self).len, ..*old(self) }),
    {
        self.len = NetU16::new(len);
    }

    /// Sets the protocol.
    pub fn set_protocol(&mut self, p: IpType)
        ensures
            *final(self) == (IpHeader { protocol: p, ..*old(self) }),
    {
        self.protocol = p;
    }

    /// Sets the source address.
    pub fn set_src_ip(&mut self, ip: Ip4)
        ensures
            *final(self) == (IpHeader { src_ip: ip, ..*old(self) }),
    {
        self.src_ip = ip;
    }

    /// Sets the destination address.
    pub fn set_dest_ip(&mut self, ip: Ip4)
        ensures
            *final(self) == (IpHeader { dest_ip: ip, ..*old(self) }),
    {
        self.dest_ip = ip;
    }

    /// The header's bytes as they travel on the wire.
    pub fn to_bytes(&self) -> (r: Vec<u8>)
        ensures
            r@ == self.spec_bytes(),
            r@.len() == IP_HEADER_SIZE,
    {
        let mut out: Vec<u8> = Vec::new();
        out.push(self.v.net_value());
        out.push(self.tos.net_value());
        push_be16(&mut out, self.len.value());
        push_be16(&mut out, self.ident.value());
        push_be16(&mut out, self.frag_offset.value());
        out.push(self.ttl.net_value());
        out.push(self.protocol.number());
        push_be16(&mut out, self.hcrc.value());
        push_all(&mut out, &self.src_ip.v);
        push_all(&mut out, &self.dest_ip.v);
        assert(out@ =~= self.spec_bytes());
        out
    }

    /// The header in the first 20 bytes of `b`, or `None` when its protocol is
    /// not one the stack knows.
    pub fn from_bytes(b: &[u8]) -> (r: Option<IpHeader>)
        requires
            b.len() >= IP_HEADER_SIZE,
        ensures
            r is None <==> IpType::from_number_spec(b@[9]) is None,
            r matches Some(h) ==> h.spec_bytes() == b@.take(20),
    {
        let proto = IpType::from_number(b[9]);
        match proto {
            None => None,
            Some(p) => {
                let h = IpHeader {
                    v: NetU8::new(b[0]),
                    tos: NetU8::new(b[1]),
                    len: NetU16::new(read_be16(b, 2)),
                    ident: NetU16::new(read_be16(b, 4)),
                    frag_offset: NetU16::new(read_be16(b, 6)),
                    ttl: NetU8::new(b[8]),
                    protocol: p,
                    hcrc: NetU16::new(read_be16(b, 10)),
                    src_ip: Ip4::new(slice_at(b, 12, 4)),
                    dest_ip: Ip4::new(slice_at(b, 16, 4)),
                };
                proof {
                    lemma_be16_bytes_roundtrip(b@[2], b@[3]);
                    lemma_be16_bytes_roundtrip(b@[4], b@[5]);
                    lemma_be16_bytes_roundtrip(b@[6], b@[7]);
                    lemma_be16_bytes_roundtrip(b@[10], b@[11]);
                    assert(h.spec_bytes() =~= b@.take(20));
                }
                Some(h)
            },
        }
    }

    /// Zeroes the checksum field and fills it with the checksum of the header.
    pub fn calc_checksum(&mut self)
        ensures
            final(self).hcrc.spec_value() == checksum_of(
                raw_sum((IpHeader { hcrc: NetU16(0), ..*old(self) }).spec_bytes()),
            ),
            *final(self) == (IpHeader { hcrc: final(self).hcrc, ..*old(self) }),
    {
        self.hcrc = NetU16::new(0);
        assert(crate::net::util::swap16(0) == 0) by (bit_vector);
        assert(*self == IpHeader { hcrc: NetU16(0), ..*old(self) });
        let bytes = self.to_bytes();
        proof {
            lemma_raw_sum_bound(bytes@);
        }
        self.hcrc = make(calc_ref(bytes.as_slice()));
    }
}

impl IpType {
    /// The protocol with the given number, if the stack knows it.
    pub open spec fn from_number_spec(n: u8) -> Option<IpType> {
        if n == 1 {
            Some(IpType::ICMP)
        } else if n == 6 {
            Some(IpType::TCP)
        } else if n == 17 {
            Some(IpType::UDP)
        } else {
            None
        }
    }
}

/// `len` bytes of `b` from `off` on.
pub fn slice_at(b: &[u8], off: usize, len: usize) -> (r: &[u8])
    requires
        off + len <= b.len(),
    ensures
        r@ == b@.subrange(off as int, off + len),
{
    vstd::slice::slice_subrange(b, off, off + len)
}

/// A header whose checksum field holds the checksum of the header with that
/// field zeroed (as `calc_checksum` and outgoing headers make it) passes the
/// receiver's check: the ones-complement sum of its ten words is 0xffff.
pub proof fn lemma_header_checksum_verifies(h: IpHeader)
    requires
        h.hcrc.spec_value() == checksum_of(raw_sum((IpHeader { hcrc: NetU16(0), ..h }).spec_bytes())),
    ensures
        crate::net::util::checksum::fold_carries(raw_sum(h.spec_bytes())) == 0xffff,
{
    let h0 = IpHeader { hcrc: NetU16(0), ..h };
    let z = h0.spec_bytes();
    assert(crate::net::util::swap16(0) == 0 && 0u16 >> 8u16 == 0u16 && 0u16 & 0xffu16 == 0u16) by (bit_vector);
    assert(be16(0u16) =~= seq![0u8, 0u8]);
    assert(z.len() == 20);
    assert(z[10] == 0 && z[11] == 0);
    let c = checksum_of(raw_sum(z));
    crate::net::util::checksum::lemma_checksum_word_verifies(z, 5);
    assert(h.spec_bytes() =~= z.update(10, (c >> 8u16) as u8).update(11, (c & 0xff) as u8));
}

/// Every outgoing header passes the receiver's checksum check.
pub proof fn lemma_outgoing_header_verifies(typ: IpType, total_len: u16, src: Ip4, dst: Ip4)
    ensures
        crate::net::util::checksum::fold_carries(raw_sum(outgoing_header(typ, total_len, src, dst).spec_bytes())) == 0xffff,
{
    let h = outgoing_header(typ, total_len, src, dst);
    let v = checksum_of(raw_sum((IpHeader { hcrc: NetU16(0), ..h }).spec_bytes()));
    crate::net::util::lemma_swap16_involutive(v);
    lemma_header_checksum_verifies(h);
}

/// The plain sum of a short run of bytes fits in 32 bits.
pub proof fn lemma_raw_sum_bound(data: Seq<u8>)
    requires
        data.len() <= 0x10000,
    ensures
        0 <= crate::net::util::checksum::raw_sum(data) <= u32::MAX,
{
    crate::net::util::checksum::lemma_raw_sum_le(data);
    let n = data.len() / 2 + 1;
    assert(n * 0xffff <= u32::MAX) by (nonlinear_arith)
        requires
            n <= 0x8001,
    ;
}

} // verus!

verus! {

/// The header this host puts on an outgoing packet: version 4, 20 bytes,
/// time to live 64, the given length, protocol and addresses, and its checksum.
pub open spec fn outgoing_header(typ: IpType, total_len: u16, src: Ip4, dst: Ip4) -> IpHeader {
    let h0 = IpHeader {
        v: NetU8(0x45),
        tos: NetU8(0),
        len: NetU16(crate::net::util::swap16(total_len)),
        ident: NetU16(0),
        frag_offset: NetU16(0),
        ttl: NetU8(64),
        protocol: typ,
        hcrc: NetU16(0),
        src_ip: src,
        dest_ip: dst,
    };
    IpHeader {
        hcrc: NetU16(crate::net::util::swap16(checksum_of(raw_sum(h0.spec_bytes())))),
        ..h0
    }
}

/// A new IPv4 frame for `size` bytes of `typ` payload: the Ethernet header
/// from `own_mac`, the outgoing header and zeroes.
pub open spec fn ip_frame(typ: IpType, size: nat, target: Ip4, src_ip: Ip4, own_mac: Seq<u8>) -> Seq<u8> {
    crate::net::util::overwrite(
        crate::net::eth::new_frame(crate::net::eth::EthType::IP, size + 20, own_mac),
        14,
        outgoing_header(typ, (size + 20) as u16, src_ip, target).spec_bytes(),
    )
}

/// A new IPv4 frame for `size` bytes of payload of protocol `typ`, from
/// `src_ip` (the device's address) to `target`. The length field holds the
/// total length cut to 16 bits.
pub fn create_packet(typ: IpType, size: usize, target: Ip4, src_ip: Ip4, own_mac: &[u8; 6]) -> (frame: Vec<u8>)
    requires
        size + 34 <= usize::MAX,
    ensures
        frame@ == ip_frame(typ, size as nat, target, src_ip, own_mac@),
        frame@.len() == size + 34,
{
    let total_size = size + IP_HEADER_SIZE;
    let mut frame = crate::net::eth::create_packet(crate::net::eth::EthType::IP, total_size, own_mac);
    let mut ip = IpHeader::zeroed();
    ip.init();
    ip.set_length(total_size as u16);
    ip.set_protocol(typ);
    ip.set_dest_ip(target);
    ip.set_src_ip(src_ip);
    proof {
        crate::net::util::lemma_swap16_involutive(ip.len.0);
        crate::net::util::lemma_swap16_involutive(ip.ident.0);
        crate::net::util::lemma_swap16_involutive(ip.frag_offset.0);
        assert(crate::net::util::swap16(0) == 0) by (bit_vector);
        let h0 = IpHeader {
            v: NetU8(0x45),
            tos: NetU8(0),
            len: NetU16(crate::net::util::swap16(total_size as u16)),
            ident: NetU16(0),
            frag_offset: NetU16(0),
            ttl: NetU8(64),
            protocol: typ,
            hcrc: NetU16(0),
            src_ip: src_ip,
            dest_ip: target,
        };
        assert(IpHeader { hcrc: NetU16(0), ..ip } == h0);
    }
    ip.calc_checksum();
    proof {
        crate::net::util::lemma_swap16_involutive(ip.hcrc.0);
    }
    assert(ip == outgoing_header(typ, total_size as u16, src_ip, target));
    let bytes = ip.to_bytes();
    crate::net::util::write_bytes_at(&mut frame, 14, bytes.as_slice());
    frame
}

/// The destination address written in an IPv4 frame.
pub open spec fn frame_dest(frame: Seq<u8>) -> Ip4 {
    Ip4 { v: [frame[30], frame[31], frame[32], frame[33]] }
}

/// How routing treated `before` (an IPv4 frame) to give `after`: a local
/// destination with a cached address, or any non-local one, gets the next
/// hop's address written and is transmitted; a local destination without a
/// cached address is left as it is and needs an address request.
pub open spec fn routed(
    before: Seq<u8>,
    after: Seq<u8>,
    r: crate::net::eth::EthSend,
    dev: crate::net::NetDeviceData,
    own_mac: Seq<u8>,
    cache: crate::net::arp::cache::ArpCache,
) -> bool {
    let target = frame_dest(before);
    &&& crate::net::eth::is_local(target, dev) && cache.spec_get(ip_key(target)) is Some ==> r
        == crate::net::eth::EthSend::Transmit && after == crate::net::eth::with_dst(
        before,
        cache.spec_get(ip_key(target))->0@,
    )
    &&& crate::net::eth::is_local(target, dev) && cache.spec_get(ip_key(target)) is None ==> r
        == crate::net::eth::EthSend::RequestIp && after == before
    &&& !crate::net::eth::is_local(target, dev) ==> r == crate::net::eth::EthSend::Transmit
        && after == crate::net::eth::with_dst(before, own_mac)
}

/// Routes an IPv4 frame to the destination in its header (see `eth::send_packet`).
pub fn send_packet(
    frame: &mut Vec<u8>,
    dev: &crate::net::NetDeviceData,
    own_mac: &[u8; 6],
    cache: &crate::net::arp::cache::ArpCache,
) -> (r: crate::net::eth::EthSend)
    requires
        old(frame)@.len() >= 34,
        cache.wf(),
    ensures
        routed(old(frame)@, final(frame)@, r, *dev, own_mac@, *cache),
{
    let target = Ip4 { v: [frame[30], frame[31], frame[32], frame[33]] };
    crate::net::eth::send_packet(frame, target, dev, own_mac, cache)
}

/// Where the transport payload of a received IPv4 packet lies, and its protocol.
#[derive(Debug, Copy, Clone)]
pub struct IpDispatch {
    pub typ: IpType,
    /// Offset of the transport header within the IPv4 packet.
    pub start: usize,
    /// Length of the transport segment, from the total length field.
    pub len: usize,
}

/// Decides which transport layer receives an IPv4 packet (the bytes after the
/// Ethernet header): the protocol, and the window past the header bounded by
/// the total length field. `None` for a protocol the stack does not handle.
pub fn process_packet(packet: &[u8]) -> (r: Option<IpDispatch>)
    requires
        packet.len() >= IP_HEADER_SIZE,
        crate::net::util::be16_value(packet@[2], packet@[3]) >= (packet@[0] & 0xf) as int * 4,
    ensures
        r is None <==> IpType::from_number_spec(packet@[9]) is None,
        r matches Some(d) ==> {
            &&& Some(d.typ) == IpType::from_number_spec(packet@[9])
            &&& d.start == (packet@[0] & 0xf) as int * 4
            &&& d.len == crate::net::util::be16_value(packet@[2], packet@[3]) - d.start
        },
{
    match IpHeader::from_bytes(packet) {
        None => None,
        Some(ip) => {
            let len = ip.len.value() as usize;
            let hs = ip.header_size();
            proof {
                assert(ip.spec_bytes()[0] == packet@[0]);
                assert(ip.spec_bytes()[2] == packet@[2] && ip.spec_bytes()[3] == packet@[3]);
                crate::net::util::lemma_be16_roundtrip(ip.len.spec_value());
                assert(ip.spec_bytes()[9] == packet@[9]);
            }
            Some(IpDispatch { typ: ip.protocol, start: hs, len: len - hs })
        },
    }
}

} // verus!
