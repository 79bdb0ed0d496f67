use cykusz_kernel::net::dhcp::{
    find_option_in, process_packet, send_discovery, send_request, DhcpAnswer, DhcpHeader,
    DhcpOptMsgType, DhcpType, OptionsBuilder, DHCP_HEADER_SIZE, DHCP_OPTIONS_OFFSET, DHCP_XID,
};
use cykusz_kernel::net::ip::Ip4;

const MAC: [u8; 6] = [0x52, 0x54, 0, 0x12, 0x34, 0x56];
const NO_IP: Ip4 = Ip4 { v: [0, 0, 0, 0] };

fn options_of(frame: &[u8]) -> &[u8] {
    &frame[42 + DHCP_OPTIONS_OFFSET..42 + DHCP_HEADER_SIZE]
}

#[test]
fn discovery_layout() {
    let f = send_discovery(&MAC, NO_IP);
    assert_eq!(f.len(), 42 + 300);
    // broadcast, from port 68 to port 67
    assert_eq!(&f[30..34], &[255, 255, 255, 255]);
    assert_eq!(&f[34..38], &[0, 68, 0, 67]);
    let m = &f[42..];
    assert_eq!(&m[..4], &[1, 1, 6, 0]);
    assert_eq!(&m[4..8], &DHCP_XID.to_be_bytes());
    assert_eq!(&m[8..12], &[0, 0, 0x80, 0]);
    assert!(m[12..28].iter().all(|b| *b == 0));
    assert_eq!(&m[28..34], &MAC);
    assert!(m[34..236].iter().all(|b| *b == 0));
    let o = options_of(&f);
    assert_eq!(&o[..4], &[0x63, 0x82, 0x53, 0x63]);
    assert_eq!(&o[4..7], &[53, 1, 1]);
    assert_eq!(&o[7..10], &[61, 7, 1]);
    assert_eq!(&o[10..16], &MAC);
    assert_eq!(&o[16..18], &[12, 9]);
    assert_eq!(&o[18..27], b"cykusz-os");
    assert_eq!(o[27], 0);
    assert_eq!(&o[28..34], &[55, 4, 1, 3, 15, 6]);
    assert_eq!(o[34], 0xff);
    assert!(o[35..].iter().all(|b| *b == 0));
}

#[test]
fn request_names_the_offered_address() {
    let ip = Ip4 { v: [192, 168, 1, 50] };
    let f = send_request(ip, &MAC, NO_IP);
    let o = options_of(&f);
    assert_eq!(&o[4..7], &[53, 1, 3]);
    assert_eq!(&o[28..34], &[50, 4, 192, 168, 1, 50]);
    assert_eq!(&o[34..40], &[55, 4, 1, 3, 15, 6]);
    assert_eq!(o[40], 0xff);
}

/// A server message of type `typ` offering `ip`.
fn server_message(typ: u8, ip: [u8; 4]) -> Vec<u8> {
    let mut m = vec![0u8; 300];
    m[0] = 2;
    m[16..20].copy_from_slice(&ip);
    let o = &mut m[236..];
    o[..4].copy_from_slice(&[0x63, 0x82, 0x53, 0x63]);
    // a pad byte, a subnet mask option, then the message type
    o[4] = 0;
    o[5..11].copy_from_slice(&[1, 4, 255, 255, 255, 0]);
    o[11..14].copy_from_slice(&[53, 1, typ]);
    o[14] = 0xff;
    m
}

#[test]
fn offer_is_answered_by_request() {
    let m = server_message(2, [10, 0, 2, 15]);
    match process_packet(&m, &MAC, NO_IP) {
        DhcpAnswer::Request(f) => {
            assert_eq!(f, send_request(Ip4 { v: [10, 0, 2, 15] }, &MAC, NO_IP));
        }
        _ => panic!("an offer gets a request"),
    }
}

#[test]
fn ack_is_approved_and_others_unexpected() {
    assert!(matches!(process_packet(&server_message(5, [0; 4]), &MAC, NO_IP), DhcpAnswer::Approved));
    assert!(matches!(
        process_packet(&server_message(6, [0; 4]), &MAC, NO_IP),
        DhcpAnswer::Unexpected(DhcpOptMsgType::DhcpNAck)
    ));
    // an unknown type, a short message, or no type at all
    assert!(matches!(process_packet(&server_message(9, [0; 4]), &MAC, NO_IP), DhcpAnswer::Ignored));
    assert!(matches!(process_packet(&[0u8; 100], &MAC, NO_IP), DhcpAnswer::Ignored));
    let mut m = server_message(2, [0; 4]);
    m[236 + 11] = 0xff;
    assert!(matches!(process_packet(&m, &MAC, NO_IP), DhcpAnswer::Ignored));
}

#[test]
fn option_walk() {
    let m = server_message(2, [0; 4]);
    let o = &m[236..];
    assert_eq!(find_option_in(o, 1), Some((7, 4)));
    assert_eq!(find_option_in(o, 53), Some((13, 1)));
    assert_eq!(find_option_in(o, 50), None);
    // an option that runs past the field ends the walk
    let mut bad = o.to_vec();
    bad[6] = 200;
    assert_eq!(find_option_in(&bad, 53), None);
}

#[test]
fn header_roundtrip_and_message_type() {
    let m = server_message(2, [10, 0, 0, 9]);
    let h = DhcpHeader::from_bytes(&m);
    assert_eq!(h.to_bytes(), m);
    assert_eq!(h.your_ip(), Ip4 { v: [10, 0, 0, 9] });
    assert_eq!(h.opt_message_type(), Some(DhcpOptMsgType::DhcpOffer));
}

#[test]
fn header_setters() {
    let mut h = DhcpHeader::zeroed();
    assert_eq!(h.to_bytes(), vec![0u8; 300]);
    h.init(&MAC);
    h.set_op(DhcpType::BootReply);
    h.set_flags_broadcast(true);
    h.set_client_ip(Ip4 { v: [1, 1, 1, 1] });
    h.set_your_ip(Ip4 { v: [2, 2, 2, 2] });
    h.set_server_ip(Ip4 { v: [3, 3, 3, 3] });
    h.set_gateway_ip(Ip4 { v: [4, 4, 4, 4] });
    let b = h.to_bytes();
    assert_eq!(&b[..4], &[2, 1, 6, 0]);
    assert_eq!(&b[10..12], &[0x80, 0]);
    assert_eq!(&b[12..28], &[1, 1, 1, 1, 2, 2, 2, 2, 3, 3, 3, 3, 4, 4, 4, 4]);
    h.set_flags_broadcast(false);
    assert_eq!(h.flags, 0);
    assert_eq!(DhcpType::BootRequest.number(), 1);
}

#[test]
fn options_builder_steps() {
    let b = OptionsBuilder::new(vec![7u8; 64]);
    let b = b.set_magic_cookie().shift(2).set_message_type(DhcpOptMsgType::DhcpRelease);
    assert_eq!(b.pos, 9);
    let opts = b.finish();
    assert_eq!(&opts[..4], &[0x63, 0x82, 0x53, 0x63]);
    assert_eq!(&opts[4..6], &[7, 7]);
    assert_eq!(&opts[6..9], &[53, 1, 7]);
    assert_eq!(opts[9], 0xff);
    assert!(opts[10..].iter().all(|b| *b == 0));
    assert_eq!(DhcpOptMsgType::from_number(4), Some(DhcpOptMsgType::DhcpDecline));
    assert_eq!(DhcpOptMsgType::from_number(0), None);
    assert_eq!(DhcpOptMsgType::DhcpAck.number(), 5);
}

#[test]
fn sent_messages_read_back_their_type() {
    let f = send_discovery(&MAC, NO_IP);
    let h = DhcpHeader::from_bytes(&f[42..]);
    assert_eq!(h.opt_message_type(), Some(DhcpOptMsgType::DhcpDiscover));
    let f = send_request(Ip4 { v: [1, 2, 3, 4] }, &MAC, NO_IP);
    let h = DhcpHeader::from_bytes(&f[42..]);
    assert_eq!(h.opt_message_type(), Some(DhcpOptMsgType::DhcpRequest));
}
