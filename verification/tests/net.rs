use cykusz_kernel::net::arp::cache::{self as arp_cache, EntryStatus};
use cykusz_kernel::net::arp::{self, ArpHeader, HType, Oper, PType, ARP_HEADER_SIZE};
use cykusz_kernel::net::eth::{self, EthHeader, EthSend, EthType};
use cykusz_kernel::net::icmp;
use cykusz_kernel::net::ip::{self, Ip4, IpHeader, IpType};
use cykusz_kernel::net::util::{NetU16, NetU8};
use cykusz_kernel::net::{IfAnswer, NetDeviceData, NetDevices, IFF_UP, SIOCGIFCONF, SIOCGIFFLAGS};
use cykusz_kernel::utils::buffer::FsError;

const OWN_MAC: [u8; 6] = [0x52, 0x54, 0x00, 0x12, 0x34, 0x56];

fn ip4(a: u8, b: u8, c: u8, d: u8) -> Ip4 {
    Ip4 { v: [a, b, c, d] }
}

/// Ones' complement sum of 16-bit big-endian words, folded.
fn folded_sum(data: &[u8]) -> u16 {
    let mut sum: u32 = 0;
    let mut i = 0;
    while i + 1 < data.len() {
        sum += ((data[i] as u32) << 8) | data[i + 1] as u32;
        i += 2;
    }
    if i < data.len() {
        sum += (data[i] as u32) << 8;
    }
    while sum > 0xffff {
        sum = (sum & 0xffff) + (sum >> 16);
    }
    sum as u16
}

fn device() -> NetDeviceData {
    let mut d = NetDeviceData::new();
    d.configure(ip4(192, 168, 0, 10), ip4(192, 168, 0, 1), ip4(255, 255, 255, 0), ip4(8, 8, 8, 8));
    d
}

#[test]
fn ip4_helpers() {
    assert!(Ip4::empty().is_empty());
    assert!(!Ip4::limited_broadcast().is_empty());
    assert_eq!(Ip4::new(&[10, 0, 0, 1, 99]), ip4(10, 0, 0, 1));
    assert_eq!(ip4(10, 0, 0, 1).key(), 0x0a00_0001);
    assert_eq!(Ip4::from_key(0xc0a8_0001), ip4(192, 168, 0, 1));
    let mask = ip4(255, 255, 255, 0);
    assert!(ip4(192, 168, 0, 7).is_same_subnet(ip4(192, 168, 0, 200), mask));
    assert!(!ip4(192, 168, 0, 7).is_same_subnet(ip4(192, 168, 1, 7), mask));
}

#[test]
fn ip_type_numbers() {
    assert_eq!(IpType::ICMP.number(), 1);
    assert_eq!(IpType::TCP.number(), 6);
    assert_eq!(IpType::UDP.number(), 17);
    assert_eq!(IpType::from_number(6), Some(IpType::TCP));
    assert_eq!(IpType::from_number(2), None);
    assert_eq!(IpType::default(), IpType::UDP);
}

#[test]
fn ip_header_checksum_of_known_header() {
    // A UDP header from 192.168.0.1 to 192.168.0.199, checksum b861.
    let bytes = [
        0x45u8, 0x00, 0x00, 0x73, 0x00, 0x00, 0x40, 0x00, 0x40, 0x11, 0xb8, 0x61, 0xc0, 0xa8, 0x00,
        0x01, 0xc0, 0xa8, 0x00, 0xc7,
    ];
    let mut h = IpHeader::from_bytes(&bytes).unwrap();
    assert_eq!(h.header_size(), 20);
    assert_eq!(h.to_bytes(), bytes.to_vec());
    h.hcrc = NetU16::new(0);
    h.calc_checksum();
    assert_eq!(h.to_bytes(), bytes.to_vec());
}

#[test]
fn ip_header_unknown_protocol() {
    let mut bytes = [0u8; 20];
    bytes[0] = 0x45;
    bytes[9] = 2;
    assert!(IpHeader::from_bytes(&bytes).is_none());
}

#[test]
fn ip_create_packet_layout() {
    let f = ip::create_packet(IpType::UDP, 8, ip4(10, 0, 0, 2), ip4(10, 0, 0, 1), &OWN_MAC);
    assert_eq!(f.len(), 42);
    assert_eq!(&f[0..6], &[0u8; 6]);
    assert_eq!(&f[6..12], &OWN_MAC);
    assert_eq!(&f[12..14], &[0x08, 0x00]);
    assert_eq!(f[14], 0x45);
    assert_eq!(&f[16..18], &[0x00, 28]);
    assert_eq!(f[22], 64);
    assert_eq!(f[23], 17);
    assert_eq!(&f[26..30], &[10, 0, 0, 1]);
    assert_eq!(&f[30..34], &[10, 0, 0, 2]);
    assert_eq!(folded_sum(&f[14..34]), 0xffff);
    assert!(f[34..].iter().all(|b| *b == 0));
}

#[test]
fn ip_process_packet_dispatch() {
    let f = ip::create_packet(IpType::TCP, 20, ip4(10, 0, 0, 2), ip4(10, 0, 0, 1), &OWN_MAC);
    let d = ip::process_packet(&f[14..]).unwrap();
    assert_eq!(d.typ, IpType::TCP);
    assert_eq!(d.start, 20);
    assert_eq!(d.len, 20);
}

#[test]
fn ip_zeroed_and_setters() {
    let mut h = IpHeader::zeroed();
    h.init();
    h.set_length(40);
    h.set_protocol(IpType::ICMP);
    h.set_src_ip(ip4(1, 2, 3, 4));
    h.set_dest_ip(ip4(5, 6, 7, 8));
    let b = h.to_bytes();
    assert_eq!(b.len(), ip::IP_HEADER_SIZE);
    assert_eq!(&b[..4], &[0x45, 0, 0, 40]);
    assert_eq!(b[8], 64);
    assert_eq!(b[9], 1);
    assert_eq!(&b[12..20], &[1, 2, 3, 4, 5, 6, 7, 8]);
}

#[test]
fn eth_header_roundtrip() {
    let mut raw = vec![1u8, 2, 3, 4, 5, 6, 7, 8, 9, 10, 11, 12, 0x08, 0x06, 0xaa];
    let h = EthHeader::from_bytes(&raw).unwrap();
    assert_eq!(h.typ, EthType::ARP);
    assert_eq!(h.src_mac(), [7, 8, 9, 10, 11, 12]);
    assert_eq!(h.to_bytes(), raw[..14].to_vec());
    assert_eq!(eth::process_packet(&raw), Some(EthType::ARP));
    raw[13] = 0x00;
    assert_eq!(eth::process_packet(&raw), Some(EthType::IP));
    raw[12] = 0x86;
    assert!(EthHeader::from_bytes(&raw).is_none());
    assert_eq!(eth::process_packet(&raw[..10]), None);
    assert_eq!(EthType::from_number(0x0800), Some(EthType::IP));
    assert_eq!(EthType::ARP.number(), 0x0806);
}

#[test]
fn eth_send_routes_by_subnet() {
    let dev = device();
    let mut cache = arp::init();
    let peer_mac = [1u8, 1, 1, 1, 1, 1];
    // a local target without a cached address needs a request
    let mut f = eth::create_packet(EthType::IP, 4, &OWN_MAC);
    let before = f.clone();
    assert_eq!(eth::send_packet(&mut f, ip4(192, 168, 0, 20), &dev, &OWN_MAC, &cache), EthSend::RequestIp);
    assert_eq!(f, before);
    // with the address cached, it is written as destination
    arp_cache::insert(&mut cache, ip4(192, 168, 0, 20), &peer_mac);
    assert_eq!(eth::send_packet(&mut f, ip4(192, 168, 0, 20), &dev, &OWN_MAC, &cache), EthSend::Transmit);
    assert_eq!(&f[..6], &peer_mac);
    // a remote target takes the device's own address
    assert_eq!(eth::send_packet(&mut f, ip4(8, 8, 4, 4), &dev, &OWN_MAC, &cache), EthSend::Transmit);
    assert_eq!(&f[..6], &OWN_MAC);
    // the broadcast address is known from the start
    assert_eq!(eth::send_packet(&mut f, Ip4::limited_broadcast(), &dev, &OWN_MAC, &cache), EthSend::Transmit);
    assert_eq!(&f[..6], &[0xff; 6]);
    assert_eq!(&f[6..12], &OWN_MAC);
}

#[test]
fn ip_send_packet_reads_destination() {
    let dev = device();
    let cache = arp::init();
    let mut f = ip::create_packet(IpType::UDP, 0, ip4(9, 9, 9, 9), dev.ip, &OWN_MAC);
    assert_eq!(ip::send_packet(&mut f, &dev, &OWN_MAC, &cache), EthSend::Transmit);
    assert_eq!(&f[..6], &OWN_MAC);
}

#[test]
fn icmp_echo_request_gets_reply() {
    let dev = device();
    let mut req = vec![8u8, 0, 0, 0, 0x12, 0x34, 0x00, 0x01, b'p', b'i', b'n', b'g'];
    let cs = !folded_sum(&req);
    req[2] = (cs >> 8) as u8;
    req[3] = cs as u8;
    let src = ip4(192, 168, 0, 5);
    let f = icmp::process_packet(&req, src, dev.ip, &OWN_MAC).unwrap();
    assert_eq!(f.len(), 34 + req.len());
    assert_eq!(&f[26..30], &[192, 168, 0, 10]);
    assert_eq!(&f[30..34], &[192, 168, 0, 5]);
    assert_eq!(f[23], 1);
    let reply = &f[34..];
    assert_eq!(reply[0], 0);
    assert_eq!(reply[1], 0);
    assert_eq!(&reply[4..], &req[4..]);
    assert_eq!(folded_sum(reply), 0xffff);
}

#[test]
fn icmp_other_messages_get_nothing() {
    let msg = [0u8; 8];
    assert!(icmp::process_packet(&msg, ip4(1, 1, 1, 1), ip4(2, 2, 2, 2), &OWN_MAC).is_none());
}

#[test]
fn icmp_checksum_of_message() {
    let mut m = vec![8u8, 0, 0xaa, 0xbb, 0, 1, 0, 2];
    icmp::calc_checksum_msg(&mut m);
    // 0x0800 + 0x0001 + 0x0002 = 0x0803, complemented
    assert_eq!(&m[2..4], &[0xf7, 0xfc]);
    assert_eq!(folded_sum(&m), 0xffff);
}

#[test]
fn icmp_port_unreachable_report() {
    let orig_ip = [
        0x45u8, 0, 0, 36, 0, 0, 0, 0, 64, 17, 0, 0, 10, 0, 0, 9, 10, 0, 0, 1,
    ];
    let head = [0x30u8, 0x39, 0x00, 0x35, 0, 16, 0, 0];
    let f = icmp::send_port_unreachable(&orig_ip, &head, ip4(10, 0, 0, 1), &OWN_MAC);
    assert_eq!(f.len(), 34 + 36);
    assert_eq!(&f[30..34], &[10, 0, 0, 9]);
    let msg = &f[34..];
    assert_eq!(&msg[..2], &[3, 3]);
    assert_eq!(&msg[4..8], &[0, 0, 0, 0]);
    assert_eq!(&msg[8..28], &orig_ip);
    assert_eq!(&msg[28..], &head);
    assert_eq!(folded_sum(msg), 0xffff);
}

fn arp_request_header(from: Ip4, from_mac: [u8; 6], to: Ip4) -> ArpHeader {
    ArpHeader {
        htype: HType::Ethernet,
        ptype: PType::IPv4,
        hlen: NetU8::new(6),
        plen: NetU8::new(4),
        oper: Oper::Request,
        src_mac: from_mac,
        src_ip: from,
        dst_mac: [0; 6],
        dst_ip: to,
    }
}

#[test]
fn arp_header_roundtrip() {
    let h = arp_request_header(ip4(10, 0, 0, 2), [2, 2, 2, 2, 2, 2], ip4(10, 0, 0, 1));
    let b = h.to_bytes();
    assert_eq!(b.len(), ARP_HEADER_SIZE);
    assert_eq!(&b[..8], &[0, 1, 0x08, 0x00, 6, 4, 0, 1]);
    let back = ArpHeader::from_bytes(&b).unwrap();
    assert_eq!(back.oper(), Oper::Request);
    assert_eq!(back.src_ip(), ip4(10, 0, 0, 2));
    assert_eq!(back.dst_ip(), ip4(10, 0, 0, 1));
    assert_eq!(back.src_mac(), &[2, 2, 2, 2, 2, 2]);
    assert!(ArpHeader::from_bytes(&b[..20]).is_none());
    let mut bad = b.clone();
    bad[7] = 9;
    assert!(ArpHeader::from_bytes(&bad).is_none());
    assert_eq!(HType::from_number(1), Some(HType::Ethernet));
    assert_eq!(Oper::from_number(5), None);
}

#[test]
fn arp_setters() {
    let mut h = arp_request_header(ip4(0, 0, 0, 0), [0; 6], ip4(0, 0, 0, 0));
    h.init();
    h.set_oper(Oper::Reply);
    h.set_src_ip(ip4(1, 2, 3, 4));
    h.set_dst_ip(ip4(5, 6, 7, 8));
    h.set_src_mac(&[1, 2, 3, 4, 5, 6]);
    h.set_dst_mac(&[6, 5, 4, 3, 2, 1]);
    assert_eq!(h.oper(), Oper::Reply);
    assert_eq!(h.src_ip(), ip4(1, 2, 3, 4));
    assert_eq!(h.dst_ip(), ip4(5, 6, 7, 8));
    assert_eq!(h.src_mac(), &[1, 2, 3, 4, 5, 6]);
    assert_eq!(h.dst_mac(), &[6, 5, 4, 3, 2, 1]);
}

#[test]
fn arp_request_for_us_gets_reply_and_is_cached() {
    let dev = device();
    let mut cache = arp::init();
    let their_mac = [3u8, 3, 3, 3, 3, 3];
    let h = arp_request_header(ip4(192, 168, 0, 7), their_mac, dev.ip);
    let out = arp::process_packet(&h, &dev, &OWN_MAC, &mut cache);
    assert!(out.released.is_empty());
    let reply = out.reply.unwrap();
    assert_eq!(reply.len(), 14 + 28);
    assert_eq!(&reply[6..12], &OWN_MAC);
    assert_eq!(&reply[12..14], &[0x08, 0x06]);
    let rh = ArpHeader::from_bytes(&reply[14..]).unwrap();
    assert_eq!(rh.oper(), Oper::Reply);
    assert_eq!(rh.src_ip(), dev.ip);
    assert_eq!(rh.src_mac(), &OWN_MAC);
    assert_eq!(rh.dst_ip(), ip4(192, 168, 0, 7));
    assert_eq!(rh.dst_mac(), &their_mac);
    assert_eq!(arp_cache::get(&cache, ip4(192, 168, 0, 7)), Some(their_mac));
}

#[test]
fn arp_request_for_others_outside_subnet() {
    let dev = device();
    let mut cache = arp::init();
    let h = arp_request_header(ip4(10, 1, 1, 1), [4; 6], ip4(192, 168, 0, 99));
    let out = arp::process_packet(&h, &dev, &OWN_MAC, &mut cache);
    assert!(out.reply.is_none());
    assert!(out.released.is_empty());
    assert_eq!(arp_cache::get(&cache, ip4(10, 1, 1, 1)), None);
}

#[test]
fn arp_pending_frames_are_released() {
    let dev = device();
    let mut cache = arp::init();
    let target = ip4(192, 168, 0, 33);
    let frame = eth::create_packet(EthType::IP, 2, &OWN_MAC);
    let req = arp::request_ip(target, frame.clone(), &dev, &OWN_MAC, &mut cache);
    assert_eq!(req.len(), 42);
    let rh = ArpHeader::from_bytes(&req[14..]).unwrap();
    assert_eq!(rh.oper(), Oper::Request);
    assert_eq!(rh.dst_ip(), target);
    assert_eq!(cache.cache.get(&target.key()).unwrap().status, EntryStatus::Pending);
    assert_eq!(arp_cache::get(&cache, target), None);
    // the answer releases the queued frame, addressed to the new MAC
    let mac = [7u8; 6];
    let mut answer = arp_request_header(target, mac, dev.ip);
    answer.oper = Oper::Reply;
    let out = arp::process_packet(&answer, &dev, &OWN_MAC, &mut cache);
    assert!(out.reply.is_none());
    assert_eq!(out.released.len(), 1);
    assert_eq!(&out.released[0][..6], &mac);
    assert_eq!(&out.released[0][6..], &frame[6..]);
    assert_eq!(arp_cache::get(&cache, target), Some(mac));
}

#[test]
fn arp_cache_keeps_known_address() {
    let mut cache = arp_cache::init();
    let ip = ip4(1, 2, 3, 4);
    assert!(arp_cache::insert(&mut cache, ip, &[1; 6]).is_empty());
    arp_cache::insert(&mut cache, ip, &[2; 6]);
    assert_eq!(arp_cache::get(&cache, ip), Some([1; 6]));
    // a frame for a known address is dropped
    arp_cache::request_ip(&mut cache, ip, vec![0u8; 14]);
    assert!(cache.cache.get(&ip.key()).unwrap().packets.is_empty());
    assert_eq!(arp_cache::get(&cache, Ip4::limited_broadcast()), Some([0xff; 6]));
}

#[test]
fn arp_dst_mac_is_broadcast() {
    let mut mac = [0u8; 6];
    arp::get_dst_mac(&mut mac, ip4(1, 1, 1, 1));
    assert_eq!(mac, [0xff; 6]);
}

#[test]
fn device_ioctl_answers() {
    let dev = device();
    assert!(matches!(dev.ioctl(SIOCGIFCONF), Ok(IfAnswer::Conf(ip)) if ip == ip4(192, 168, 0, 10)));
    assert!(matches!(dev.ioctl(SIOCGIFFLAGS), Ok(IfAnswer::Flags(f)) if f == IFF_UP));
    assert!(matches!(dev.ioctl(0x5401), Err(FsError::NoTty)));
}

#[test]
fn first_registered_device_is_default() {
    let mut devs = NetDevices::new();
    assert_eq!(devs.default, None);
    assert_eq!(devs.register_net_driver(), 0);
    assert_eq!(devs.register_net_driver(), 1);
    assert_eq!(devs.default, Some(0));
    assert!(devs.devices[1].ip.is_empty());
}
