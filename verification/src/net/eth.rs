//! Ethernet frames: the 14-byte header and the choice of the next hop's address.
use vstd::prelude::*;
use crate::net::packet::{PacketKind, ConstPacketKind};
use crate::net::ip::{Ip4, ip_key, same_under_mask};
use crate::net::util::{be16, push_be16, push_all, read_be16, be16_value, lemma_be16_bytes_roundtrip};
use crate::net::arp::cache::ArpCache;
use crate::net::NetDeviceData;

verus! {

/// Marker for the Ethernet layer of a packet.
#[derive(Debug, Copy, Clone)]
pub struct Eth {}

impl PacketKind for Eth {}

impl ConstPacketKind for Eth {
    fn hsize() -> (r: usize)
        ensures
            r == 14,
    {
        ETH_HEADER_SIZE
    }
}

/// The size of the Ethernet header.
pub const ETH_HEADER_SIZE: usize = 14;

/// The payload types the stack handles.
#[derive(Debug, Copy, Clone, PartialEq, Eq, Structural)]
pub enum EthType {
    IP,
    ARP,
}

impl EthType {
    /// The EtherType number carried in the header.
    pub open spec fn spec_number(self) -> u16 {
        match self {
            EthType::IP => 0x0800,
            EthType::ARP => 0x0806,
        }
    }

    /// The EtherType number carried in the header.
    pub fn number(self) -> (r: u16)
        ensures
            r == self.spec_number(),
    {
        match self {
            EthType::IP => 0x0800,
            EthType::ARP => 0x0806,
        }
    }

    /// The payload type with the given number, if the stack handles it.
    pub open spec fn spec_from_number(n: u16) -> Option<EthType> {
        if n == 0x0800 {
            Some(EthType::IP)
        } else if n == 0x0806 {
            Some(EthType::ARP)
        } else {
            None
        }
    }

    /// The payload type with the given number, if the stack handles it.
    pub fn from_number(n: u16) -> (r: Option<EthType>)
        ensures
            r == EthType::spec_from_number(n),
    {
        if n == 0x0800 {
            Some(EthType::IP)
        } else if n == 0x0806 {
            Some(EthType::ARP)
        } else {
            None
        }
    }
}

/// The Ethernet header.
#[derive(Debug, Copy, Clone)]
pub struct EthHeader {
    pub dst_mac: [u8; 6],
    pub src_mac: [u8; 6],
    pub typ: EthType,
}

impl EthHeader {
    /// The header's bytes as they travel on the wire.
    pub open spec fn spec_bytes(&self) -> Seq<u8> {
        self.dst_mac@ + self.src_mac@ + be16(self.typ.spec_number())
    }

    /// The sender's hardware address.
    pub fn src_mac(&self) -> (r: [u8; 6])
        ensures
            r == self.src_mac,
    {
        self.src_mac
    }

    /// The header at the start of `b`, or `None` if `b` is shorter than a header
    /// or carries a payload type the stack does not handle.
    pub fn from_bytes(b: &[u8]) -> (r: Option<EthHeader>)
        ensures
            r is Some <==> (b.len() >= 14 && EthType::spec_from_number(be16_value(b@[12], b@[13]))
                is Some),
            r matches Some(h) ==> h.spec_bytes() == b@.take(14),
    {
        if b.len() < 14 {
            return None;
        }
        match EthType::from_number(read_be16(b, 12)) {
            None => None,
            Some(t) => {
                let h = EthHeader {
                    dst_mac: [b[0], b[1], b[2], b[3], b[4], b[5]],
                    src_mac: [b[6], b[7], b[8], b[9], b[10], b[11]],
                    typ: t,
                };
                proof {
                    lemma_be16_bytes_roundtrip(b@[12], b@[13]);
                    assert(h.spec_bytes() =~= b@.take(14));
                }
                Some(h)
            },
        }
    }

    /// The header's bytes as they travel on the wire.
    pub fn to_bytes(&self) -> (r: Vec<u8>)
        ensures
            r@ == self.spec_bytes(),
    {
        let mut out: Vec<u8> = Vec::new();
        push_all(&mut out, &self.dst_mac);
        push_all(&mut out, &self.src_mac);
        push_be16(&mut out, self.typ.number());
        out
    }
}

/// `n` zero bytes.
pub open spec fn zeros(n: nat) -> Seq<u8> {
    Seq::new(n, |i: int| 0u8)
}

/// Appends `n` zero bytes.
pub fn push_zeros(out: &mut Vec<u8>, n: usize)
    ensures
        final(out)@ == old(out)@ + zeros(n as nat),
{
    let mut i: usize = 0;
    while i < n
        invariant
            i <= n,
            out@ == old(out)@ + zeros(i as nat),
        decreases n - i,
    {
        out.push(0);
        i = i + 1;
        assert(out@ =~= old(out)@ + zeros(i as nat));
    }
}

/// The bytes of a new frame: a zero destination, the sender's address, the
/// payload type and `size` zero bytes of payload.
pub open spec fn new_frame(typ: EthType, size: nat, src_mac: Seq<u8>) -> Seq<u8> {
    zeros(6) + src_mac + be16(typ.spec_number()) + zeros(size)
}

/// A new frame for `size` bytes of payload of type `typ`, sent from `src_mac`.
pub fn create_packet(typ: EthType, size: usize, src_mac: &[u8; 6]) -> (frame: Vec<u8>)
    ensures
        frame@ == new_frame(typ, size as nat, src_mac@),
        frame@.len() == size + 14,
{
    let mut frame: Vec<u8> = Vec::new();
    push_zeros(&mut frame, 6);
    push_all(&mut frame, src_mac);
    push_be16(&mut frame, typ.number());
    push_zeros(&mut frame, size);
    frame
}

/// `frame` with its first six bytes (the destination) replaced by `mac`.
pub open spec fn with_dst(frame: Seq<u8>, mac: Seq<u8>) -> Seq<u8> {
    mac + frame.skip(6)
}

/// Writes `mac` as the destination of `frame`; the driver then sends it.
pub fn send_packet_to_mac(frame: &mut Vec<u8>, mac: &[u8; 6])
    requires
        old(frame)@.len() >= 14,
    ensures
        final(frame)@ == with_dst(old(frame)@, mac@),
{
    let mut i: usize = 0;
    while i < 6
        invariant
            i <= 6,
            frame@.len() == old(frame)@.len(),
            old(frame)@.len() >= 14,
            forall|j: int| 0 <= j < i ==> #[trigger] frame@[j] == mac@[j],
            forall|j: int| i <= j < frame@.len() ==> #[trigger] frame@[j] == old(frame)@[j],
        decreases 6 - i,
    {
        frame.set(i, mac[i]);
        i = i + 1;
    }
    assert(frame@ =~= with_dst(old(frame)@, mac@));
}

/// What to do with a frame whose next hop has been looked for.
#[derive(Debug, Copy, Clone, PartialEq, Eq, Structural)]
pub enum EthSend {
    /// The destination is written; hand the frame to the driver.
    Transmit,
    /// The next hop's address is unknown: queue the frame with the address
    /// cache and send an address request.
    RequestIp,
}

/// Whether `target` is reached directly: the broadcast address, or an
/// address in the device's subnet.
pub open spec fn is_local(target: Ip4, dev: NetDeviceData) -> bool {
    target.v@ == seq![255u8, 255, 255, 255] || same_under_mask(target, dev.ip, dev.subnet)
}

/// Chooses the destination of `frame`, bound for `target`. A local target
/// takes the address that the cache holds for it, or needs an address
/// request when the cache holds none; any other target takes `own_mac`.
pub fn send_packet(
    frame: &mut Vec<u8>,
    target: Ip4,
    dev: &NetDeviceData,
    own_mac: &[u8; 6],
    cache: &ArpCache,
) -> (r: EthSend)
    requires
        old(frame)@.len() >= 14,
        cache.wf(),
    ensures
        is_local(target, *dev) && cache.spec_get(ip_key(target)) is Some ==> r == EthSend::Transmit
            && final(frame)@ == with_dst(old(frame)@, cache.spec_get(ip_key(target))->0@),
        is_local(target, *dev) && cache.spec_get(ip_key(target)) is None ==> r
            == EthSend::RequestIp && final(frame)@ == old(frame)@,
        !is_local(target, *dev) ==> r == EthSend::Transmit && final(frame)@ == with_dst(
            old(frame)@,
            own_mac@,
        ),
{
    let bc = Ip4::limited_broadcast();
    let is_bc = target.v[0] == bc.v[0] && target.v[1] == bc.v[1] && target.v[2] == bc.v[2]
        && target.v[3] == bc.v[3];
    assert(is_bc == (target.v@ =~= seq![255u8, 255, 255, 255]));
    if is_bc || dev.ip.is_same_subnet(target, dev.subnet) {
        if let Some(mac) = cache.get(target) {
            send_packet_to_mac(frame, &mac);
            EthSend::Transmit
        } else {
            EthSend::RequestIp
        }
    } else {
        send_packet_to_mac(frame, own_mac);
        EthSend::Transmit
    }
}

/// The payload type of a received frame, which decides the layer it goes to;
/// `None` for a runt frame or a type the stack does not handle.
pub fn process_packet(frame: &[u8]) -> (r: Option<EthType>)
    ensures
        r == (if frame.len() >= 14 {
            EthType::spec_from_number(be16_value(frame@[12], frame@[13]))
        } else {
            None
        }),
{
    if frame.len() < 14 {
        return None;
    }
    EthType::from_number(read_be16(frame, 12))
}

} // verus!
