//! ICMP: answering echo requests and reporting unreachable ports.
use vstd::prelude::*;
use crate::net::ip::{Ip4, IpType, ip_frame, lemma_raw_sum_bound};
use crate::net::util::{be16, overwrite, push_all, write_bytes_at};
use crate::net::util::checksum::{
    checksum_of, raw_sum, calc_checksum, make, fold_carries, lemma_checksum_word_verifies,
};

verus! {

/// The ICMP message types handled here.
#[derive(Debug, Copy, Clone, PartialEq, Eq, Structural)]
pub enum MessageType {
    EchoRequest,
    EchoReply,
    DestUnreachable,
}

impl MessageType {
    /// The number of each type on the wire.
    pub open spec fn spec_number(self) -> u8 {
        match self {
            MessageType::EchoRequest => 8,
            MessageType::EchoReply => 0,
            MessageType::DestUnreachable => 3,
        }
    }

    /// The number of the type on the wire.
    pub fn number(self) -> (n: u8)
        ensures
            n == self.spec_number(),
    {
        match self {
            MessageType::EchoRequest => 8,
            MessageType::EchoReply => 0,
            MessageType::DestUnreachable => 3,
        }
    }
}

/// The size of the ICMP header: type, code and checksum.
pub const ICMP_HEADER_SIZE: usize = 4;
/// The size of the body of a destination-unreachable message: 4 unused
/// bytes, the IPv4 header of the refused datagram and 8 bytes of what it carried.
pub const DEST_UNREACHABLE_SIZE: usize = 32;

/// `m` with its checksum field (bytes 2 and 3) set: the checksum of `m`
/// with that field zeroed.
pub open spec fn with_checksum(m: Seq<u8>) -> Seq<u8> {
    let z = m.update(2, 0u8).update(3, 0u8);
    overwrite(z, 2, be16(checksum_of(raw_sum(z))))
}

/// The reply to the echo request `req` (an ICMP message): type echo reply,
/// code 0, the same identifier, sequence number and data, and its checksum.
pub open spec fn echo_reply(req: Seq<u8>) -> Seq<u8> {
    with_checksum(seq![0u8, 0u8, 0u8, 0u8] + req.skip(4))
}

/// The port-unreachable report for a datagram whose IPv4 header is
/// `orig_ip` and whose first 8 bytes (its UDP header) are `head`.
pub open spec fn port_unreachable_msg(orig_ip: Seq<u8>, head: Seq<u8>) -> Seq<u8> {
    with_checksum(seq![3u8, 3u8, 0u8, 0u8, 0u8, 0u8, 0u8, 0u8] + orig_ip + head)
}

/// A message whose checksum was set passes the receiver's check: the
/// ones-complement sum of all its words, the checksum word included, is
/// 0xffff (all ones).
pub proof fn lemma_checksum_verifies(m: Seq<u8>)
    requires
        4 <= m.len() <= 0x10000,
        m.len() % 2 == 0,
    ensures
        fold_carries(raw_sum(with_checksum(m))) == 0xffff,
{
    let z = m.update(2, 0u8).update(3, 0u8);
    let c = checksum_of(raw_sum(z));
    lemma_checksum_word_verifies(z, 1);
    assert(with_checksum(m) =~= z.update(2, (c >> 8u16) as u8).update(3, (c & 0xff) as u8));
}

/// The reply to an echo request is an echo reply (type 0, code 0) that
/// carries the request's identifier, sequence number and data unchanged,
/// and whose checksum verifies.
pub proof fn lemma_echo_reply_shape(req: Seq<u8>)
    requires
        8 <= req.len() <= 0x10000,
        req.len() % 2 == 0,
    ensures
        echo_reply(req).len() == req.len(),
        echo_reply(req)[0] == 0 && echo_reply(req)[1] == 0,
        echo_reply(req).skip(4) == req.skip(4),
        fold_carries(raw_sum(echo_reply(req))) == 0xffff,
{
    let m = seq![0u8, 0u8, 0u8, 0u8] + req.skip(4);
    lemma_checksum_verifies(m);
    assert(echo_reply(req).skip(4) =~= req.skip(4));
}

/// The port-unreachable report is a destination-unreachable message (type
/// 3, code 3) of 36 bytes: four unused zero bytes, the refused datagram's
/// IPv4 header and its first 8 bytes, with a checksum that verifies.
pub proof fn lemma_port_unreachable_shape(orig_ip: Seq<u8>, head: Seq<u8>)
    requires
        orig_ip.len() == 20,
        head.len() == 8,
    ensures
        port_unreachable_msg(orig_ip, head).len() == 36,
        port_unreachable_msg(orig_ip, head)[0] == 3 && port_unreachable_msg(orig_ip, head)[1] == 3,
        port_unreachable_msg(orig_ip, head).subrange(4, 8) == seq![0u8, 0u8, 0u8, 0u8],
        port_unreachable_msg(orig_ip, head).skip(8) == orig_ip + head,
        fold_carries(raw_sum(port_unreachable_msg(orig_ip, head))) == 0xffff,
{
    let m = seq![3u8, 3u8, 0u8, 0u8, 0u8, 0u8, 0u8, 0u8] + orig_ip + head;
    lemma_checksum_verifies(m);
    assert(port_unreachable_msg(orig_ip, head).subrange(4, 8) =~= seq![0u8, 0u8, 0u8, 0u8]);
    assert(port_unreachable_msg(orig_ip, head).skip(8) =~= orig_ip + head);
}

/// Sets the checksum field of the ICMP message `m` (of an even length that
/// fits an IPv4 packet): it is zeroed, and the checksum of the whole message
/// written there.
pub fn calc_checksum_msg(m: &mut Vec<u8>)
    requires
        4 <= old(m)@.len() <= 0xffff,
        old(m)@.len() % 2 == 0,
    ensures
        final(m)@ == with_checksum(old(m)@),
{
    m.set(2, 0);
    m.set(3, 0);
    let ghost z = m@;
    assert(z =~= old(m)@.update(2, 0u8).update(3, 0u8));
    proof {
        lemma_raw_sum_bound(z);
    }
    let sum = calc_checksum(m.as_slice());
    let crc = make(sum).to_bytes();
    write_bytes_at(m, 2, &crc);
}

/// The answer to an ICMP message `msg` that came from `src` (to this host,
/// `own_ip`, with `own_mac`): for an echo request, the frame of the reply,
/// ready for routing; nothing for other messages. An echo request has an
/// even length: the checksum of an odd one is not computed.
pub fn process_packet(msg: &[u8], src: Ip4, own_ip: Ip4, own_mac: &[u8; 6]) -> (r: Option<Vec<u8>>)
    requires
        4 <= msg.len() <= 0xffff - 20,
        msg@[0] == 8 ==> 8 <= msg.len() && msg.len() % 2 == 0,
    ensures
        msg@[0] != 8 ==> r is None,
        msg@[0] == 8 ==> (r matches Some(f) && f@ == overwrite(
            ip_frame(IpType::ICMP, msg.len() as nat, src, own_ip, own_mac@),
            34,
            echo_reply(msg@),
        )),
{
    if msg[0] != MessageType::EchoRequest.number() {
        return None;
    }
    let mut frame = crate::net::ip::create_packet(IpType::ICMP, msg.len(), src, own_ip, own_mac);
    let mut reply: Vec<u8> = Vec::new();
    reply.push(MessageType::EchoReply.number());
    reply.push(0);
    reply.push(0);
    reply.push(0);
    let rest = crate::net::ip::slice_at(msg, 4, msg.len() - 4);
    push_all(&mut reply, rest);
    assert(reply@ =~= seq![0u8, 0u8, 0u8, 0u8] + msg@.skip(4));
    calc_checksum_msg(&mut reply);
    write_bytes_at(&mut frame, 34, reply.as_slice());
    Some(frame)
}

/// The frame that reports to the sender of a UDP datagram that its port is
/// unreachable: addressed to the source of `orig_ip` (the datagram's IPv4
/// header), from this host, carrying that header and the first 8 bytes
/// `head` of the datagram.
pub fn send_port_unreachable(orig_ip: &[u8], head: &[u8], own_ip: Ip4, own_mac: &[u8; 6]) -> (frame: Vec<u8>)
    requires
        orig_ip.len() == 20,
        head.len() == 8,
    ensures
        frame@ == overwrite(
            ip_frame(
                IpType::ICMP,
                (ICMP_HEADER_SIZE + DEST_UNREACHABLE_SIZE) as nat,
                Ip4 { v: [orig_ip@[12], orig_ip@[13], orig_ip@[14], orig_ip@[15]] },
                own_ip,
                own_mac@,
            ),
            34,
            port_unreachable_msg(orig_ip@, head@),
        ),
{
    let src = Ip4 { v: [orig_ip[12], orig_ip[13], orig_ip[14], orig_ip[15]] };
    let payload_len = ICMP_HEADER_SIZE + DEST_UNREACHABLE_SIZE;
    let mut frame = crate::net::ip::create_packet(IpType::ICMP, payload_len, src, own_ip, own_mac);
    let mut msg: Vec<u8> = Vec::new();
    msg.push(MessageType::DestUnreachable.number());
    msg.push(3);
    msg.push(0);
    msg.push(0);
    msg.push(0);
    msg.push(0);
    msg.push(0);
    msg.push(0);
    push_all(&mut msg, orig_ip);
    push_all(&mut msg, head);
    assert(msg@ =~= seq![3u8, 3u8, 0u8, 0u8, 0u8, 0u8, 0u8, 0u8] + orig_ip@ + head@);
    calc_checksum_msg(&mut msg);
    write_bytes_at(&mut frame, 34, msg.as_slice());
    frame
}

} // verus!
