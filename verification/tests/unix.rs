use cykusz_kernel::net::unix::{
    make_poll_bits, PollWait, SockAddrUn, SyscallError, UnixSockets, UnixState, POLL_ERR, POLL_HUP,
    POLL_READ, POLL_WRITE, SOCKADDR_UN_SIZE,
};
use cykusz_kernel::utils::buffer::{FsError, Step, Wake, WAIT_NO_HANG};

fn addr(name: &[u8]) -> SockAddrUn {
    let mut path = [0u8; 108];
    path[..name.len()].copy_from_slice(name);
    SockAddrUn { family: 1, path }
}

#[test]
fn bind_listen_connect_accept() {
    let mut t = UnixSockets::new();
    let server = t.new_unbound();
    assert!(t.is_disconnected(server));
    assert_eq!(t.bind(server, addr(b"/tmp/s")), Ok(0));
    assert!(t.is_bound(server));
    assert_eq!(t.listen(server, 5), Ok(0));
    assert!(t.is_listening(server));

    let client = t.new_unbound();
    assert_eq!(t.connect(client, server), Ok(0));
    match t.accept(server, Some(SOCKADDR_UN_SIZE)) {
        Step::Done(Ok(a)) => {
            assert_eq!(a.sock, 2);
            assert_eq!(a.client, client);
            let (ad, len) = a.addr.unwrap();
            assert_eq!(len, SOCKADDR_UN_SIZE);
            assert_eq!(&ad.path[..6], b"/tmp/s");
        }
        _ => panic!("accept failed"),
    }
    assert!(t.is_connected(client));
    assert!(t.is_connected(2));
    assert!(matches!(t.socks[client].state, UnixState::Connected(2)));
    assert!(matches!(t.socks[2].state, UnixState::Connected(c) if c == client));
    assert!(t.has_readers(2) && t.has_writers(2));
}

#[test]
fn accept_short_address_buffer_gives_no_address() {
    let mut t = UnixSockets::new();
    let server = t.new_unbound();
    t.bind(server, addr(b"x"));
    t.listen(server, 1);
    let client = t.new_unbound();
    t.connect(client, server);
    match t.accept(server, Some(4)) {
        Step::Done(Ok(a)) => assert!(a.addr.is_none()),
        _ => panic!("accept failed"),
    }
}

#[test]
fn accept_takes_last_waiting_peer() {
    let mut t = UnixSockets::new();
    let server = t.new_unbound();
    t.bind(server, addr(b"x"));
    t.listen(server, 1);
    let c1 = t.new_unbound();
    let c2 = t.new_unbound();
    t.connect(c1, server);
    t.connect(c2, server);
    match t.accept(server, None) {
        Step::Done(Ok(a)) => assert_eq!(a.client, c2),
        _ => panic!("accept failed"),
    }
    match t.accept(server, None) {
        Step::Done(Ok(a)) => assert_eq!(a.client, c1),
        _ => panic!("accept failed"),
    }
    assert!(matches!(t.accept(server, None), Step::Wait));
}

#[test]
fn socket_call_errors() {
    let mut t = UnixSockets::new();
    let a = t.new_unbound();
    let b = t.new_unbound();
    assert_eq!(t.listen(a, 1), Err(SyscallError::EINVAL));
    assert_eq!(t.connect(b, a), Err(SyscallError::ECONNREFUSED));
    assert!(matches!(t.accept(a, None), Step::Done(Err(SyscallError::EADDRINUSE))));
    t.bind(a, addr(b"a"));
    assert_eq!(t.bind(a, addr(b"b")), Err(SyscallError::ENOTSUP));
    assert_eq!(t.write_at(a, &[1], 0), (Step::Done(Err(FsError::NotSupported)), Wake::Nobody));
    assert!(matches!(t.poll(a, POLL_WRITE, false), Err(FsError::NotSupported)));
}

#[test]
fn connected_pair_transfers_bytes() {
    let mut t = UnixSockets::new();
    let (x, y) = t.new_connected();
    assert_eq!((x, y), (0, 1));
    assert_eq!(t.write_at(y, b"hello", 0), (Step::Done(Ok(5)), Wake::AllReaders));
    let mut buf = [0u8; 8];
    assert_eq!(t.read_at(x, &mut buf, 0), (Step::Done(Ok(5)), Wake::AllWriters));
    assert_eq!(&buf[..5], b"hello");
    // nothing more to read: wait, or fail at once with the no-hang flag
    assert_eq!(t.read_at(x, &mut buf, 0).0, Step::Wait);
    assert_eq!(t.read_at(x, &mut buf, WAIT_NO_HANG).0, Step::Done(Err(FsError::WouldBlock)));
}

#[test]
fn poll_connected_pair() {
    let mut t = UnixSockets::new();
    let (x, y) = t.new_connected();
    let a = t.poll(x, POLL_READ | POLL_WRITE, true).ok().unwrap();
    assert_eq!(a.events, POLL_WRITE);
    assert_eq!(a.waits, vec![PollWait::BufferReaders(x), PollWait::BufferWriters(y)]);
    t.write_at(y, b"a", 0);
    let a = t.poll(x, POLL_READ, false).ok().unwrap();
    assert_eq!(a.events, POLL_READ);
    assert!(a.waits.is_empty());
}

#[test]
fn close_wakes_and_hangs_up() {
    let mut t = UnixSockets::new();
    let (x, y) = t.new_connected();
    assert_eq!(t.close(y, true, true), (Wake::PipeWriters, Wake::AllReaders));
    assert!(!t.has_readers(y));
    assert!(!t.has_writers(x));
    let a = t.poll(x, POLL_READ, false).ok().unwrap();
    assert_eq!(a.events, POLL_READ | POLL_HUP);
    // writing into a ring nobody reads
    assert_eq!(t.write_at(x, b"z", 0), (Step::Done(Err(FsError::Pipe)), Wake::Nobody));
    let a = t.poll(x, POLL_WRITE, false).ok().unwrap();
    assert_eq!(a.events, POLL_WRITE | POLL_ERR);
}

#[test]
fn poll_listening_socket() {
    let mut t = UnixSockets::new();
    let server = t.new_unbound();
    t.bind(server, addr(b"l"));
    t.listen(server, 1);
    let a = t.poll(server, POLL_READ, true).ok().unwrap();
    assert_eq!(a.events, 0);
    assert_eq!(a.waits, vec![PollWait::Connections(server)]);
    let c = t.new_unbound();
    t.connect(c, server);
    assert_eq!(t.poll(server, POLL_READ, false).ok().unwrap().events, POLL_READ);
}

#[test]
fn readers_and_writers_count() {
    let mut t = UnixSockets::new();
    let s = t.new_unbound();
    assert_eq!(t.inc_readers(s), (1, Wake::AllWriters));
    assert_eq!(t.inc_readers(s), (2, Wake::Nobody));
    assert_eq!(t.dec_readers(s), (1, Wake::Nobody));
    assert_eq!(t.dec_readers(s), (0, Wake::PipeWriters));
    assert_eq!(t.inc_writers(s), (1, Wake::AllReaders));
    assert_eq!(t.dec_writers(s), (0, Wake::AllReaders));
}

#[test]
fn poll_bits_combine() {
    assert_eq!(make_poll_bits(true, true, true, true), 1 | 4 | 8 | 16);
    assert_eq!(make_poll_bits(false, true, false, false), POLL_WRITE);
    assert_eq!(make_poll_bits(false, false, false, false), 0);
}
