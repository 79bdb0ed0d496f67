use std::collections::BTreeMap;

use cykusz_kernel::net::arp;
use cykusz_kernel::net::eth::{Eth, EthSend};
use cykusz_kernel::net::packet::Packet;
use cykusz_kernel::net::tcp::Tcp;
use cykusz_kernel::net::ip::Ip4;
use cykusz_kernel::net::tcp::socket::{
    incoming_ack_len, Segment, Socket, SocketData, State, TcpAction, TcpPollWait, TimerKind,
    FLAG_ACK, FLAG_FIN, FLAG_RST, FLAG_SYN, SOCKADDR_SIZE,
};
use cykusz_kernel::net::tcp::{
    self, register_ephemeral_handler, register_handler, release_handler, TcpHeader, TCP_HEADER_SIZE,
};
use cykusz_kernel::net::unix::SyscallError;
use cykusz_kernel::net::NetDeviceData;
use cykusz_kernel::utils::buffer::{FsError, Step};

const CLIENT_IP: Ip4 = Ip4 { v: [10, 0, 0, 2] };
const SERVER_IP: Ip4 = Ip4 { v: [10, 0, 0, 1] };

fn hdr(src: u16, dst: u16, seq: u32, ack: Option<u32>, flags: u16, window: u16) -> TcpHeader {
    let mut h = TcpHeader::zeroed();
    h.set_src_port(src);
    h.set_dst_port(dst);
    h.set_seq_nr(seq);
    h.set_flags(flags);
    if let Some(a) = ack {
        h.set_ack_nr(a);
    }
    h.set_window(window);
    h
}

fn sends(acts: &[TcpAction]) -> Vec<&Segment> {
    acts.iter()
        .filter_map(|a| match a {
            TcpAction::Send(s) => Some(s),
            _ => None,
        })
        .collect()
}

#[test]
fn tcp_header_fields_and_flags() {
    let mut h = TcpHeader::zeroed();
    h.set_src_port(0x1234);
    h.set_dst_port(80);
    h.set_seq_nr(0xdead_beef);
    h.set_ack_nr(7);
    h.set_header_len(20);
    h.set_flag_syn(true);
    h.set_flag_psh(true);
    h.set_window(512);
    h.set_checksum(0xabcd);
    h.set_urgent_ptr(3);
    assert!(h.flag_ack());
    assert!(h.flag_syn());
    assert!(h.flag_psh());
    assert!(!h.flag_fin() && !h.flag_rst() && !h.flag_urg());
    assert_eq!(h.header_len(), 20);
    assert_eq!(h.flags(), 0x5000 | FLAG_SYN | FLAG_ACK | 8);
    let b = h.to_bytes();
    assert_eq!(b.len(), TCP_HEADER_SIZE);
    assert_eq!(&b[..4], &[0x12, 0x34, 0, 80]);
    assert_eq!(&b[4..8], &[0xde, 0xad, 0xbe, 0xef]);
    assert_eq!(&b[8..12], &[0, 0, 0, 7]);
    assert_eq!(&b[12..14], &[0x50, 0x1a]);
    assert_eq!(&b[14..20], &[0x02, 0x00, 0xab, 0xcd, 0, 3]);
    let back = TcpHeader::from_bytes(&b);
    assert_eq!(back.src_port(), 0x1234);
    assert_eq!(back.dst_port(), 80);
    assert_eq!(back.seq_nr(), 0xdead_beef);
    assert_eq!(back.ack_nr(), 7);
    assert_eq!(back.window(), 512);
    assert_eq!(back.checksum(), 0xabcd);
    assert_eq!(back.urgent_ptr(), 3);
    h.set_flag_syn(false);
    h.set_flag_fin(true);
    h.set_flag_rst(true);
    h.set_flag_urg(true);
    assert!(!h.flag_syn() && h.flag_fin() && h.flag_rst() && h.flag_urg());
    h.set_header_len(23);
    assert_eq!(h.header_len(), 20);
}

#[test]
fn tcp_create_and_send_packet() {
    let own_mac = [2u8, 0, 0, 0, 0, 1];
    let mut f = tcp::create_packet(5000, 80, 4, SERVER_IP, CLIENT_IP, &own_mac);
    assert_eq!(f.len(), 58);
    assert_eq!(&f[34..38], &[0x13, 0x88, 0, 80]);
    assert_eq!(f[46], 0x50);
    f[54..58].copy_from_slice(b"data");
    let mut dev = NetDeviceData::new();
    dev.configure(CLIENT_IP, SERVER_IP, Ip4 { v: [255, 255, 255, 0] }, SERVER_IP);
    let mut cache = arp::init();
    cache.insert(SERVER_IP, &[9; 6]);
    assert_eq!(tcp::send_packet(&mut f, &dev, &own_mac, &cache), EthSend::Transmit);
    assert_eq!(&f[..6], &[9; 6]);
    // the checksum covers the pseudo header and the segment
    let mut sum: u32 = 0;
    let mut words: Vec<u8> = Vec::new();
    words.extend_from_slice(&f[26..34]);
    words.extend_from_slice(&[0, 6, 0, 24]);
    words.extend_from_slice(&f[34..58]);
    for c in words.chunks(2) {
        sum += ((c[0] as u32) << 8) | c[1] as u32;
    }
    while sum > 0xffff {
        sum = (sum & 0xffff) + (sum >> 16);
    }
    assert_eq!(sum, 0xffff);
}

#[test]
fn tcp_port_table() {
    let mut handlers: BTreeMap<u32, u8> = BTreeMap::new();
    assert!(register_handler(&mut handlers, 80, 1));
    assert!(!register_handler(&mut handlers, 80, 2));
    assert_eq!(register_ephemeral_handler(&mut handlers, 3), Some(49152));
    assert_eq!(register_ephemeral_handler(&mut handlers, 4), Some(49153));
    let seg = hdr(1234, 80, 0, None, FLAG_SYN, 0).to_bytes();
    assert_eq!(tcp::process_packet(&seg, &handlers), Some(&1));
    release_handler(&mut handlers, 80);
    assert_eq!(tcp::process_packet(&seg, &handlers), None);
}

#[test]
fn ack_len_counts_syn_and_fin() {
    assert_eq!(incoming_ack_len(&hdr(1, 2, 0, None, FLAG_SYN, 0), &[]), 1);
    assert_eq!(incoming_ack_len(&hdr(1, 2, 0, None, FLAG_SYN | FLAG_FIN, 0), &[1, 2]), 4);
    assert_eq!(incoming_ack_len(&hdr(1, 2, 0, Some(1), 0, 0), &[1, 2, 3]), 3);
}

/// A listening server on port 80 and a client on port 5000 that has sent
/// its SYN with sequence number 100.
fn handshake() -> (Socket, Socket) {
    let mut client = Socket::new_unbound();
    client.set_src_port(5000);
    assert_eq!(client.connect_addr(SOCKADDR_SIZE, 80, SERVER_IP), Ok(0));
    assert_eq!(client.dst_port(), 80);
    assert_eq!(client.target(), SERVER_IP);
    let mut acts = Vec::new();
    client.connect(100, &mut acts);
    assert_eq!(client.data.state, State::SynSent);
    assert_eq!(acts.len(), 3);
    let syn = sends(&acts)[0];
    assert_eq!((syn.seq, syn.ack, syn.flags), (100, None, FLAG_SYN));
    assert!(matches!(acts[2], TcpAction::StartTimer(TimerKind::Conn, 1000)));

    let mut listener = Socket::new_unbound();
    assert_eq!(listener.bind(SOCKADDR_SIZE, 80), Ok(0));
    listener.listen(1);
    assert_eq!(listener.src_port(), 80);
    let mut none = Vec::new();
    let syn_hdr = hdr(5000, 80, 100, None, FLAG_SYN, 4096);
    let (conn, conn_acts) = listener.process_packet(&syn_hdr, &[], CLIENT_IP, &mut none).unwrap();
    assert!(none.is_empty());
    assert_eq!(conn.state, State::SynReceived);
    assert_eq!((conn.src_port, conn.dst_port, conn.target), (80, 5000, CLIENT_IP));
    let synack = sends(&conn_acts)[0];
    assert_eq!(synack.ack, Some(101));
    assert_eq!(synack.flags, FLAG_SYN | FLAG_ACK);
    let server_iss = synack.seq;
    let server = Socket { data: conn, connections: Vec::new() };

    // the client takes the SYN-ACK and acknowledges it
    let mut acts = Vec::new();
    let synack_hdr = hdr(80, 5000, server_iss, Some(101), FLAG_SYN | FLAG_ACK, 65535);
    assert!(client.process_packet(&synack_hdr, &[], SERVER_IP, &mut acts).is_none());
    assert_eq!(client.data.state, State::Established);
    let ack = *sends(&acts).last().unwrap();
    assert_eq!((ack.seq, ack.ack, ack.flags), (101, Some(server_iss.wrapping_add(1)), FLAG_ACK));
    (client, server)
}

#[test]
fn three_way_handshake_and_close() {
    let (mut client, mut server) = handshake();
    let s1 = server.data.ctl.snd_nxt;

    // the server takes the final ACK of the handshake
    let mut acts = Vec::new();
    server.process_packet(&hdr(5000, 80, 101, Some(s1), FLAG_ACK, 65535), &[], CLIENT_IP, &mut acts);
    assert_eq!(server.data.state, State::Established);

    // data from the client reaches the server's receive buffer
    let mut acts = Vec::new();
    assert_eq!(client.write_at(b"hello", false, &mut acts), Step::Done(Ok(5)));
    let seg = sends(&acts)[0];
    assert_eq!((seg.seq, seg.data.as_slice()), (101, &b"hello"[..]));
    assert_eq!(client.data.ctl.snd_nxt, 106);
    let mut acts = Vec::new();
    server.process_packet(&hdr(5000, 80, 101, Some(s1), FLAG_ACK, 65535), b"hello", CLIENT_IP, &mut acts);
    assert!(acts.iter().any(|a| matches!(a, TcpAction::StartTimer(TimerKind::Rx, 150))));
    let mut buf = [0u8; 16];
    let (r, full) = server.read_at(&mut buf, None, &mut acts);
    assert_eq!(r, Step::Done(Ok(5)));
    assert!(!full);
    assert_eq!(&buf[..5], b"hello");
    assert_eq!(server.read_at(&mut buf, None, &mut acts).0, Step::Wait);

    // the client closes: FIN from FinWait1
    let mut acts = Vec::new();
    client.data.close(&mut acts);
    assert_eq!(client.data.state, State::FinWait1);
    let fin = sends(&acts)[0];
    assert_eq!((fin.seq, fin.flags), (106, FLAG_FIN | FLAG_ACK));

    // the server gets the FIN: it answers FIN+ACK and waits for the last ACK
    let mut acts = Vec::new();
    server.process_packet(&hdr(5000, 80, 106, Some(s1), FLAG_FIN | FLAG_ACK, 65535), &[], CLIENT_IP, &mut acts);
    assert_eq!(server.data.state, State::LastAck);
    let sfin = *sends(&acts).last().unwrap();
    assert_eq!((sfin.seq, sfin.ack, sfin.flags), (s1, Some(107), FLAG_FIN | FLAG_ACK));
    assert!(acts.iter().any(|a| matches!(a, TcpAction::StartTimer(TimerKind::Dc, 1000))));

    // the client takes it, acknowledges and is closed
    let mut acts = Vec::new();
    client.process_packet(&hdr(80, 5000, s1, Some(107), FLAG_FIN | FLAG_ACK, 65535), &[], SERVER_IP, &mut acts);
    assert_eq!(client.data.state, State::Closed);
    assert!(client.data.in_closed);
    assert!(matches!(acts.last(), Some(TcpAction::NotifyReaders)));
    assert!(acts.iter().any(|a| matches!(a, TcpAction::Release(5000, ip) if *ip == SERVER_IP)));
    let last_ack = *sends(&acts).last().unwrap();
    assert_eq!((last_ack.seq, last_ack.ack), (107, Some(s1.wrapping_add(1))));
    // the acknowledged data left the send buffer
    assert_eq!(client.data.snd_buffer.size(), 0);
    // a closed connection reads as ended
    assert_eq!(client.read_at(&mut buf, None, &mut acts).0, Step::Done(Ok(0)));

    // the server takes the last ACK and is closed too
    let mut acts = Vec::new();
    server.process_packet(&hdr(5000, 80, 107, Some(s1.wrapping_add(1)), FLAG_ACK, 65535), &[], CLIENT_IP, &mut acts);
    assert_eq!(server.data.state, State::Closed);
}

#[test]
fn out_of_order_segment_is_dropped() {
    let (_client, mut server) = handshake();
    let s1 = server.data.ctl.snd_nxt;
    let mut acts = Vec::new();
    server.process_packet(&hdr(5000, 80, 101, Some(s1), FLAG_ACK, 65535), &[], CLIENT_IP, &mut acts);
    let mut acts = Vec::new();
    server.process_packet(&hdr(5000, 80, 150, Some(s1), FLAG_ACK, 65535), b"late", CLIENT_IP, &mut acts);
    assert_eq!(server.data.in_buffer.size(), 0);
    assert_eq!(server.data.state, State::Established);
    assert_eq!(server.data.ctl.rcv_nxt, 101);
}

#[test]
fn reset_closes_connection() {
    let (mut client, _server) = handshake();
    let mut acts = Vec::new();
    let rcv = client.data.ctl.rcv_nxt;
    client.process_packet(&hdr(80, 5000, rcv, None, FLAG_RST, 0), &[], SERVER_IP, &mut acts);
    assert_eq!(client.data.state, State::Closed);
}

#[test]
fn write_waits_for_window() {
    let (mut client, _server) = handshake();
    // the peer's window is 65535; a larger write goes to the overflow buffer
    let big = vec![7u8; 65536 + 1];
    let mut acts = Vec::new();
    assert_eq!(client.write_at(&big[..32768], false, &mut acts), Step::Done(Ok(32768)));
    assert_eq!(client.data.proxy_buffer.size(), 0);
    // 32767 bytes of window are left; 40000 do not fit the overflow buffer either
    let mut acts = Vec::new();
    assert_eq!(client.write_at(&big[..40000], false, &mut acts), Step::Wait);
    assert!(acts.is_empty());
    assert_eq!(client.data.proxy_buffer.size(), 0);
    // the overflow buffer holds 32768 bytes at most
    assert_eq!(client.write_at(&big[..1000], true, &mut acts), Step::Done(Ok(1000)));
    assert_eq!(client.data.proxy_buffer.size(), 1000);
    assert_eq!(acts.len(), 1);
    assert!(matches!(acts[0], TcpAction::NotifyProxyReader));
}

#[test]
fn write_splits_into_full_segments() {
    let (mut client, _server) = handshake();
    let start = client.data.ctl.snd_nxt;
    let window = client.data.in_buffer.available_size().min(65535) as u16;
    assert_eq!(window, 65535);
    let data = vec![3u8; 4000];
    let mut acts = Vec::new();
    assert_eq!(client.write_at(&data, false, &mut acts), Step::Done(Ok(4000)));
    let segs = sends(&acts);
    assert_eq!(segs.len(), 3);
    assert_eq!(segs.iter().map(|s| s.data.len()).collect::<Vec<_>>(), vec![1460, 1460, 1080]);
    assert_eq!(segs.iter().map(|s| s.seq).collect::<Vec<_>>(), vec![start, start + 1460, start + 2920]);
    assert!(segs.iter().all(|s| s.window == window));
}

#[test]
fn established_acks_at_threshold() {
    let (_client, mut server) = handshake();
    let s1 = server.data.ctl.snd_nxt;
    let mut acts = Vec::new();
    server.process_packet(&hdr(5000, 80, 101, Some(s1), FLAG_ACK, 65535), &[], CLIENT_IP, &mut acts);
    let mut seq = 101u32;
    let chunk = vec![1u8; 1460];
    let mut last = Vec::new();
    for _ in 0..12 {
        let mut acts = Vec::new();
        server.process_packet(&hdr(5000, 80, seq, Some(s1), FLAG_ACK, 65535), &chunk, CLIENT_IP, &mut acts);
        seq += 1460;
        last = acts;
    }
    // 12 * 1460 = 17520 bytes: the 12th segment crosses 16384 and is acknowledged
    assert!(matches!(last[0], TcpAction::NotifyReader));
    let ack = sends(&last)[0];
    assert_eq!((ack.seq, ack.ack, ack.data.len()), (s1, Some(seq), 0));
    assert!(matches!(last[2], TcpAction::DisableTimer(TimerKind::Rx)));
}

#[test]
fn socket_errors_and_poll() {
    let mut s = Socket::new_unbound();
    assert_eq!(s.bind(8, 80), Err(SyscallError::EINVAL));
    assert_eq!(s.connect_addr(8, 80, SERVER_IP), Err(SyscallError::EINVAL));
    assert_eq!(s.connect_addr(SOCKADDR_SIZE, 80, SERVER_IP), Ok(0));
    let mut acts = Vec::new();
    // not established yet
    assert_eq!(s.write_at(b"x", false, &mut acts), Step::Done(Err(FsError::NotSupported)));
    // a closed connection with nothing received reads as ended
    let p = s.poll(1 | 4, true);
    assert_eq!(p.events, 1);
    assert_eq!(p.waits, vec![TcpPollWait::InReaders, TcpPollWait::ProxyWriters]);

    let mut l = Socket::new_unbound();
    l.listen(1);
    assert_eq!(l.poll(1, true).events, 0);
    assert_eq!(l.poll(1, true).waits, vec![TcpPollWait::Connections]);
    assert_eq!(l.accept(), Step::Wait);
    l.connections.push(4);
    l.connections.push(9);
    assert_eq!(l.poll(1, false).events, 1);
    assert_eq!(l.accept(), Step::Done((9, 0, Ip4 { v: [0, 0, 0, 0] })));
    assert_eq!(l.accept(), Step::Done((4, 0, Ip4 { v: [0, 0, 0, 0] })));
    // a listening socket neither reads nor writes
    let mut acts = Vec::new();
    let mut buf = [0u8; 4];
    assert_eq!(l.read_at(&mut buf, None, &mut acts).0, Step::Done(Err(FsError::NotSupported)));
    assert_eq!(l.write_at(b"x", false, &mut acts), Step::Done(Err(FsError::NotSupported)));
    assert!(acts.is_empty());
}

#[test]
fn established_poll_is_writable() {
    let (client, _server) = handshake();
    assert_eq!(client.poll(1, false).events, 4);
}

#[test]
fn port_unreachable_ends_connection() {
    let (mut client, _server) = handshake();
    let mut acts = Vec::new();
    client.port_unreachable(&mut acts);
    assert_eq!(client.data.state, State::Closed);
    assert_eq!(acts.len(), 6);
    assert!(matches!(acts[4], TcpAction::Release(5000, _)));
}

#[test]
fn ack_connection_sends_syn_ack() {
    let mut s = Socket { data: SocketData::new(80), connections: Vec::new() };
    let mut acts = Vec::new();
    s.ack_connection(&mut acts);
    let seg = sends(&acts)[0];
    assert_eq!(seg.flags, FLAG_SYN | FLAG_ACK);
    assert_eq!(s.data.ctl.snd_nxt, 1);
    s.set_dst_port(81);
    s.set_target(CLIENT_IP);
    assert_eq!(s.dst_port(), 81);
    assert_eq!(s.target(), CLIENT_IP);
}

#[test]
fn connection_timer_backs_off_then_gives_up() {
    let mut d = SocketData::new(5000);
    let mut acts = Vec::new();
    d.connect(10, &mut acts);
    assert_eq!(d.ctl.snd_nxt, 11);
    let mut acts = Vec::new();
    d.conn_timeout(&mut acts);
    assert_eq!((d.conn_timer.timeout, d.conn_timer.timeout_count), (2000, 1));
    assert_eq!(d.state, State::SynSent);
    assert!(matches!(acts.last(), Some(TcpAction::StartTimer(TimerKind::Conn, 2000))));
    assert_eq!(sends(&acts)[0].flags, FLAG_SYN);
    for _ in 0..4 {
        d.conn_timeout(&mut acts);
    }
    assert_eq!((d.conn_timer.timeout, d.conn_timer.timeout_count), (32000, 5));
    let mut acts = Vec::new();
    d.conn_timeout(&mut acts);
    assert_eq!(d.state, State::Closed);
    assert!(matches!(acts.last(), Some(TcpAction::NotifyReaders)));
}

#[test]
fn delayed_ack_and_retransmission_timers() {
    let (mut client, _server) = handshake();
    let mut acts = Vec::new();
    client.data.tx_timeout(&mut acts);
    assert!(matches!(acts[..], [TcpAction::DisableTimer(TimerKind::Tx)]));
    client.write_at(b"hello", false, &mut acts);
    let mut acts = Vec::new();
    client.data.tx_timeout(&mut acts);
    match &acts[0] {
        TcpAction::Resend(seg) => {
            assert_eq!(seg.seq, 101);
            assert_eq!(seg.data, b"hello".to_vec());
            assert_eq!(seg.flags, FLAG_ACK);
        }
        other => panic!("expected a resend, got {:?}", other),
    }
    assert!(matches!(acts[1], TcpAction::StartTimer(TimerKind::Tx, 1000)));
    // the delayed acknowledgement
    let mut acts = Vec::new();
    let rcv = client.data.ctl.rcv_nxt;
    client.data.rx_timeout(&mut acts);
    let ack = sends(&acts)[0];
    assert_eq!((ack.ack, ack.flags), (Some(rcv), FLAG_ACK));
    // the closing timer ends the connection
    let mut acts = Vec::new();
    client.data.dc_timeout(&mut acts);
    assert_eq!(client.data.state, State::Closed);
}

#[test]
fn packet_windows_move_between_layers() {
    let p: Packet<Eth> = Packet::new(0x1000, 100);
    let t: Packet<Tcp> = p.upgrade(34);
    assert_eq!((t.addr, t.len, t.base_addr, t.base_len), (0x1022, 66, 0x1000, 100));
    let back: Packet<Eth> = t.downgrade_by(34);
    assert_eq!((back.addr, back.len), (0x1000, 100));
    let e = t.eth();
    assert_eq!((e.addr, e.len), (0x1000, 100));
    let d = t.deallocate();
    assert_eq!((d.addr, d.len), (0x1000, 100));
}
