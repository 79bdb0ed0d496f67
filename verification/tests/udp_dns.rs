use std::collections::BTreeMap;

use cykusz_kernel::net::arp;
use cykusz_kernel::net::dns::{self, DnsHeader, QName, DNS_HEADER_SIZE};
use cykusz_kernel::net::eth::EthSend;
use cykusz_kernel::net::ip::Ip4;
use cykusz_kernel::net::ports::{register_ephemeral_port, register_port, release_port};
use cykusz_kernel::net::udp::socket::{RecvPacket, Socket, SOCKADDR_SIZE};
use cykusz_kernel::net::udp::{self, UdpHeader, UDP_HEADER_SIZE};
use cykusz_kernel::net::unix::SyscallError;
use cykusz_kernel::net::NetDeviceData;
use cykusz_kernel::utils::buffer::{FsError, Step};

const OWN_MAC: [u8; 6] = [2, 0, 0, 0, 0, 1];
const OWN_IP: Ip4 = Ip4 { v: [10, 0, 0, 1] };
const PEER: Ip4 = Ip4 { v: [10, 0, 0, 2] };

#[test]
fn udp_header_roundtrip() {
    let mut h = UdpHeader::from_bytes(&[0u8; 8]);
    h.set_src_port(1000);
    h.set_dst_port(53);
    h.set_len(20);
    h.compute_checksum();
    let b = h.to_bytes();
    assert_eq!(b.len(), UDP_HEADER_SIZE);
    assert_eq!(b, vec![0x03, 0xe8, 0, 53, 0, 20, 0, 0]);
    assert_eq!(UdpHeader::from_bytes(&b).to_bytes(), b);
}

#[test]
fn udp_create_and_send() {
    let mut f = udp::create_packet(1000, 53, 4, PEER, OWN_IP, &OWN_MAC);
    assert_eq!(f.len(), 46);
    assert_eq!(&f[34..42], &[0x03, 0xe8, 0, 53, 0, 12, 0, 0]);
    assert_eq!(f[23], 17);
    let mut dev = NetDeviceData::new();
    dev.configure(OWN_IP, PEER, Ip4 { v: [255, 255, 255, 0] }, PEER);
    let cache = arp::init();
    // the peer's address is not known yet
    assert_eq!(udp::send_packet(&mut f, &dev, &OWN_MAC, &cache), EthSend::RequestIp);
    assert_eq!(&f[40..42], &[0, 0]);
}

#[test]
fn udp_dispatch_by_port() {
    let mut handlers: BTreeMap<u32, &str> = BTreeMap::new();
    assert!(udp::register_handler(&mut handlers, 53, "dns"));
    assert!(!udp::register_handler(&mut handlers, 53, "other"));
    let seg = [0u8, 1, 0, 53, 0, 8, 0, 0];
    assert_eq!(udp::process_packet(&seg, &handlers), Some(&"dns"));
    assert_eq!(udp::port_unreachable(53, &handlers), Some(&"dns"));
    assert_eq!(udp::register_ephemeral_handler(&mut handlers, "e"), Some(49152));
    udp::release_handler(&mut handlers, 53);
    assert_eq!(udp::process_packet(&seg, &handlers), None);
}

#[test]
fn ports_take_lowest_free() {
    let mut m: BTreeMap<u32, u8> = BTreeMap::new();
    assert!(register_port(&mut m, 49152, 0));
    assert!(register_port(&mut m, 49154, 0));
    assert_eq!(register_ephemeral_port(&mut m, 1), Some(49153));
    assert_eq!(register_ephemeral_port(&mut m, 1), Some(49155));
    release_port(&mut m, 49152);
    assert_eq!(register_ephemeral_port(&mut m, 1), Some(49152));
}

#[test]
fn udp_socket_send_needs_destination() {
    let mut s = Socket::new_unbound();
    assert!(matches!(s.send(b"x", None, OWN_IP, &OWN_MAC), Err(FsError::NotSupported)));
    s.set_src_port(1000);
    assert!(matches!(s.send(b"x", None, OWN_IP, &OWN_MAC), Err(FsError::NotSupported)));
    assert_eq!(s.connect(8, 53, PEER), Err(SyscallError::EINVAL));
    assert_eq!(s.connect(SOCKADDR_SIZE, 53, PEER), Ok(0));
    assert_eq!(s.dst_port(), Some(53));
    assert_eq!(s.dst_ip(), Some(PEER));
    let (f, n) = s.send(b"abc", None, OWN_IP, &OWN_MAC).ok().unwrap();
    assert_eq!(n, 3);
    assert_eq!(f.len(), 45);
    assert_eq!(&f[30..34], &PEER.v);
    assert_eq!(&f[34..38], &[0x03, 0xe8, 0, 53]);
    assert_eq!(&f[42..], b"abc");
    // an explicit destination wins over the peer
    let other = Ip4 { v: [10, 0, 0, 9] };
    let (f, _) = s.send(b"z", Some((99, other)), OWN_IP, &OWN_MAC).ok().unwrap();
    assert_eq!(&f[30..34], &other.v);
    assert_eq!(&f[36..38], &[0, 99]);
}

#[test]
fn udp_socket_receive_queue() {
    let mut s = Socket::new_unbound();
    assert_eq!(s.bind(4, 7), Err(SyscallError::EINVAL));
    assert_eq!(s.bind(SOCKADDR_SIZE, 7), Ok(0));
    assert_eq!(s.src_port(), 7);
    let mut buf = [0u8; 4];
    assert_eq!(s.read_at(&mut buf), Step::Wait);
    assert_eq!(s.poll(1 | 4, true), (4, true));
    assert_eq!(s.poll(0, true), (0, false));
    s.process_packet(1234, PEER, b"first!".to_vec());
    s.process_packet(1234, PEER, b"2nd".to_vec());
    assert_eq!(s.poll(1, false), (1, false));
    // what does not fit is lost
    assert_eq!(s.read_at(&mut buf), Step::Done(4));
    assert_eq!(&buf, b"firs");
    let mut big = [9u8; 8];
    assert_eq!(s.read_at(&mut big), Step::Done(3));
    assert_eq!(&big, b"2nd\x09\x09\x09\x09\x09");
}

#[test]
fn udp_msg_recv_scatters() {
    let mut s = Socket::new_unbound();
    assert!(matches!(s.msg_recv(&vec![4]), Step::Wait));
    s.process_packet(5, PEER, b"abcdefg".to_vec());
    match s.msg_recv(&vec![3, 2, 10]) {
        Step::Done((port, ip, pieces, total)) => {
            assert_eq!((port, ip, total), (5, PEER, 7));
            assert_eq!(pieces.concat(), b"abcdefg".to_vec());
            assert_eq!(pieces, vec![b"abc".to_vec(), b"de".to_vec(), b"fg".to_vec()]);
        }
        Step::Wait => panic!("a datagram was queued"),
    }
}

#[test]
fn udp_msg_send_gathers() {
    let mut s = Socket::new_unbound();
    s.set_src_port(1000);
    let iov = vec![b"ab".to_vec(), b"".to_vec(), b"cd".to_vec()];
    let (f, n) = s.msg_send(&iov, Some((53, PEER)), OWN_IP, &OWN_MAC).ok().unwrap();
    assert_eq!(n, 4);
    assert_eq!(&f[42..], b"abcd");
    assert!(matches!(s.msg_send(&iov, None, OWN_IP, &OWN_MAC), Err(FsError::NotSupported)));
}

#[test]
fn recv_packet_fields() {
    let p = RecvPacket::new(9, PEER, vec![1]);
    assert_eq!(p.src_port(), 9);
    assert_eq!(p.src_ip(), PEER);
}

#[test]
fn qname_encodes_labels() {
    let mut m = vec![0u8; 14];
    let mut q = QName::new(1);
    assert_eq!(q.encode(&mut m, b"google.com"), 13);
    assert_eq!(&m[1..13], b"\x06google\x03com\x00");
    assert_eq!(QName::new(1).skip(&m), Some(13));
    assert_eq!(QName::new(13).skip(&[1, 2]), None);
}

#[test]
fn dns_header_fields() {
    let mut h = DnsHeader::zeroed();
    h.set_id(0x1234);
    h.set_flags(0x100);
    h.set_question_count(1);
    h.set_answer_count(2);
    h.set_authority_count(3);
    h.set_additional_count(4);
    let b = h.to_bytes();
    assert_eq!(b.len(), DNS_HEADER_SIZE);
    assert_eq!(b, vec![0x12, 0x34, 1, 0, 0, 1, 0, 2, 0, 3, 0, 4]);
    let back = DnsHeader::from_bytes(&b);
    assert_eq!(back.id(), 0x1234);
    assert_eq!(back.flags(), 0x100);
    assert_eq!(back.question_count(), 1);
    assert_eq!(back.answer_count(), 2);
    assert_eq!(back.authority_count(), 3);
    assert_eq!(back.additional_count(), 4);
}

#[test]
fn dns_query_layout() {
    let f = dns::query_host(b"google.com", 49152, 7, PEER, OWN_IP, &OWN_MAC);
    assert_eq!(f.len(), 42 + 512);
    assert_eq!(&f[36..38], &[0, 53]);
    let q = &f[42..];
    assert_eq!(&q[..12], &[0, 7, 1, 0, 0, 1, 0, 0, 0, 0, 0, 0]);
    assert_eq!(&q[12..24], b"\x06google\x03com\x00");
    assert_eq!(&q[24..28], &[0, 1, 0, 1]);
}

/// An answer to query `id` for google.com with one A record.
fn response(id: u16, addr: [u8; 4]) -> Vec<u8> {
    let mut m = vec![(id >> 8) as u8, id as u8, 0x81, 0x80, 0, 1, 0, 1, 0, 0, 0, 0];
    m.extend_from_slice(b"\x06google\x03com\x00");
    m.extend_from_slice(&[0, 1, 0, 1]);
    // the answer: a pointer to the name, type A, class IN, TTL, length 4
    m.extend_from_slice(&[0xc0, 0x0c, 0, 1, 0, 1, 0, 0, 0, 60, 0, 4]);
    m.extend_from_slice(&addr);
    m
}

#[test]
fn dns_answer_is_recorded() {
    let mut results: BTreeMap<u16, Ip4> = BTreeMap::new();
    let m = response(7, [142, 250, 74, 14]);
    assert_eq!(dns::process_packet(&m, &mut results), Some(7));
    assert_eq!(dns::take_result(&mut results, 7), Some(Ip4 { v: [142, 250, 74, 14] }));
    assert_eq!(dns::take_result(&mut results, 7), None);
}

#[test]
fn dns_no_answer_records_empty_address() {
    let mut results: BTreeMap<u16, Ip4> = BTreeMap::new();
    let mut m = response(3, [1, 2, 3, 4]);
    m[7] = 0;
    assert_eq!(dns::process_packet(&m, &mut results), Some(3));
    assert_eq!(results.get(&3), Some(&Ip4::empty()));
}

#[test]
fn dns_short_message_records_nothing() {
    let mut results: BTreeMap<u16, Ip4> = BTreeMap::new();
    let m = response(3, [1, 2, 3, 4]);
    assert_eq!(dns::process_packet(&m[..m.len() - 2], &mut results), None);
    assert_eq!(dns::process_packet(&m[..5], &mut results), None);
    assert!(results.is_empty());
}

#[test]
fn dns_lookup_takes_ephemeral_port() {
    let mut handlers: BTreeMap<u32, u8> = BTreeMap::new();
    let (port, frame) = dns::get_ip_by_host(b"a.b", &mut handlers, 1, 9, PEER, OWN_IP, &OWN_MAC).unwrap();
    assert_eq!(port, 49152);
    assert!(handlers.contains_key(&49152));
    assert_eq!(&frame[34..36], &[0xc0, 0x00]);
    assert_eq!(&frame[54..60], b"\x01a\x01b\x00\x00");
}

#[test]
fn dns_answer_releases_lookup_port() {
    let mut handlers: BTreeMap<u32, u8> = BTreeMap::new();
    let mut results: BTreeMap<u16, Ip4> = BTreeMap::new();
    let (port, _frame) = dns::get_ip_by_host(b"google.com", &mut handlers, 1, 7, PEER, OWN_IP, &OWN_MAC).unwrap();
    let m = response(7, [142, 250, 74, 14]);
    assert_eq!(dns::service_packet(&m, port, &mut results, &mut handlers), Some(7));
    assert!(!handlers.contains_key(&port));
    assert_eq!(results.get(&7), Some(&Ip4 { v: [142, 250, 74, 14] }));
}
