use lib::errno::SysErr;
use lib::fs::error::FsError;
use lib::fs::poll::{POLL_ERROR, POLL_READ, POLL_WRITE};
use lib::net::unix::{
    UnixMessage, UnixSockets, MSG_PEEK, MSG_TRUNC, SOCK_DGRAM, SOCK_SEQPACKET, SOCK_STREAM,
};
use lib::net::{SocketCredentials, SOL_SOCKET, SO_PASSCRED, SO_PEERCRED, SO_RCVBUF};

fn path_addr(path: &str) -> Vec<u8> {
    let mut raw = vec![1u8, 0u8];
    raw.extend_from_slice(path.as_bytes());
    raw.push(0);
    raw
}

fn abstract_addr(name: &str) -> Vec<u8> {
    let mut raw = vec![1u8, 0u8, 0u8];
    raw.extend_from_slice(name.as_bytes());
    raw
}

fn owner(pid: u32) -> SocketCredentials {
    SocketCredentials::new(pid, 1000, 100)
}

#[test]
fn socketpair_stream_carries_bytes_both_ways() {
    let mut hub = UnixSockets::new();
    let mut wakes = Vec::new();
    let (a, b) = hub.create_pair(SOCK_STREAM, owner(7), &mut wakes);
    assert_eq!((a, b), (1, 2));
    assert_eq!(wakes, vec![(1, POLL_WRITE), (2, POLL_WRITE)]);
    wakes.clear();

    assert_eq!(hub.send_to(a, b"hello", None, &mut wakes), Ok(5));
    assert_eq!(wakes, vec![(b, POLL_READ)]);
    wakes.clear();

    let got = hub.recv_from(b, 16, 0, &mut wakes).unwrap();
    assert_eq!(got.data, b"hello".to_vec());
    assert_eq!(got.address, None);
    assert_eq!(got.msg_flags, 0);
    assert_eq!(wakes, vec![(a, POLL_WRITE)]);

    assert_eq!(hub.send_to(b, b"back", None, &mut wakes), Ok(4));
    assert_eq!(hub.read(a, 2, &mut wakes), Ok(b"ba".to_vec()));
    assert_eq!(hub.read(a, 8, &mut wakes), Ok(b"ck".to_vec()));
    assert_eq!(hub.read(a, 8, &mut wakes), Err(FsError::WouldBlock));
}

#[test]
fn peeking_leaves_stream_bytes_queued() {
    let mut hub = UnixSockets::new();
    let mut wakes = Vec::new();
    let (a, b) = hub.create_pair(SOCK_STREAM, owner(7), &mut wakes);
    hub.send_to(a, b"abc", None, &mut wakes).unwrap();
    hub.send_to(a, b"def", None, &mut wakes).unwrap();
    wakes.clear();
    let peeked = hub.recv_from(b, 4, MSG_PEEK, &mut wakes).unwrap();
    assert_eq!(peeked.data, b"abcd".to_vec());
    assert!(wakes.is_empty());
    let taken = hub.recv_from(b, 4, 0, &mut wakes).unwrap();
    assert_eq!(taken.data, b"abcd".to_vec());
    let rest = hub.recv_from(b, 10, 0, &mut wakes).unwrap();
    assert_eq!(rest.data, b"ef".to_vec());
    assert_eq!(hub.recv_from(b, 10, 0, &mut wakes).err(), Some(SysErr::Again));
}

#[test]
fn empty_stream_send_does_nothing() {
    let mut hub = UnixSockets::new();
    let mut wakes = Vec::new();
    let a = hub.create(SOCK_STREAM, owner(1));
    assert_eq!(hub.send_to(a, b"", None, &mut wakes), Ok(0));
    assert!(wakes.is_empty());
    assert_eq!(hub.send_to(a, b"x", None, &mut wakes), Err(SysErr::NotConn));
    assert_eq!(hub.recv_from(a, 4, 0, &mut wakes).err(), Some(SysErr::NotConn));
    assert_eq!(hub.write(a, b"x", &mut wakes), Err(FsError::Unsupported));
    assert_eq!(hub.read(a, 4, &mut wakes), Err(FsError::WouldBlock));
}

#[test]
fn listen_connect_accept_makes_a_connection() {
    let mut hub = UnixSockets::new();
    let mut wakes = Vec::new();
    let server = hub.create(SOCK_STREAM, owner(10));
    assert_eq!(hub.bind(server, &path_addr("/run/s")), Ok(()));
    assert_eq!(hub.listen(server, 4, &mut wakes), Ok(()));
    let client = hub.create(SOCK_STREAM, owner(20));
    wakes.clear();
    assert_eq!(hub.connect(client, &path_addr("/run/s"), &mut wakes), Ok(()));
    assert_eq!(wakes, vec![(server, POLL_READ), (client, POLL_WRITE)]);
    assert_eq!(hub.poll(server, POLL_READ | POLL_WRITE), POLL_READ);

    wakes.clear();
    let (accepted, address) = hub.accept(server, &mut wakes).unwrap();
    assert_eq!(accepted, 3);
    assert_eq!(address, Some(vec![1u8, 0u8]));
    assert_eq!(wakes, vec![(server, POLL_WRITE)]);
    assert_eq!(hub.accept(server, &mut wakes).err(), Some(SysErr::Again));

    assert_eq!(hub.sock_name(accepted), Ok(path_addr("/run/s")));
    assert_eq!(hub.peer_name(client), Ok(path_addr("/run/s")));
    assert_eq!(hub.peer_name(accepted), Ok(vec![1u8, 0u8]));
    assert_eq!(hub.peer_name(server), Err(SysErr::NotConn));

    assert_eq!(hub.send_to(client, b"ping", None, &mut wakes), Ok(4));
    assert_eq!(hub.read(accepted, 16, &mut wakes), Ok(b"ping".to_vec()));
    assert_eq!(hub.send_to(accepted, b"pong", None, &mut wakes), Ok(4));
    assert_eq!(hub.read(client, 16, &mut wakes), Ok(b"pong".to_vec()));

    let cred = hub.socket(client).getsockopt(SOL_SOCKET, SO_PEERCRED).unwrap();
    let mut expected = 10i32.to_le_bytes().to_vec();
    expected.extend_from_slice(&1000u32.to_le_bytes());
    expected.extend_from_slice(&100u32.to_le_bytes());
    assert_eq!(cred, expected);
}

#[test]
fn connect_errors() {
    let mut hub = UnixSockets::new();
    let mut wakes = Vec::new();
    let target = hub.create(SOCK_STREAM, owner(1));
    let client = hub.create(SOCK_STREAM, owner(2));
    assert_eq!(hub.connect(client, &path_addr("/nowhere"), &mut wakes), Err(SysErr::NoEnt));
    assert_eq!(hub.connect(client, &[1u8], &mut wakes), Err(SysErr::Inval));
    hub.bind(target, &abstract_addr("t")).unwrap();
    assert_eq!(hub.connect(client, &abstract_addr("t"), &mut wakes), Err(SysErr::ConnRefused));
    assert_eq!(hub.accept(target, &mut wakes).err(), Some(SysErr::Inval));
    assert!(wakes.is_empty());
}

#[test]
fn full_backlog_refuses_with_again() {
    let mut hub = UnixSockets::new();
    let mut wakes = Vec::new();
    let server = hub.create(SOCK_SEQPACKET, owner(1));
    hub.bind(server, &abstract_addr("srv")).unwrap();
    hub.listen(server, 0, &mut wakes).unwrap();
    let c1 = hub.create(SOCK_SEQPACKET, owner(2));
    let c2 = hub.create(SOCK_SEQPACKET, owner(3));
    assert_eq!(hub.connect(c1, &abstract_addr("srv"), &mut wakes), Ok(()));
    assert_eq!(hub.connect(c1, &abstract_addr("srv"), &mut wakes), Err(SysErr::IsConn));
    assert_eq!(hub.connect(c2, &abstract_addr("srv"), &mut wakes), Err(SysErr::Again));
}

#[test]
fn datagrams_carry_their_sender() {
    let mut hub = UnixSockets::new();
    let mut wakes = Vec::new();
    let a = hub.create(SOCK_DGRAM, owner(1));
    let b = hub.create(SOCK_DGRAM, owner(2));
    hub.bind(b, &abstract_addr("b")).unwrap();
    assert_eq!(hub.send_to(a, b"one", Some(&abstract_addr("b")), &mut wakes), Ok(3));
    hub.bind(a, &abstract_addr("a")).unwrap();
    assert_eq!(hub.send_to(a, b"two!", Some(&abstract_addr("b")), &mut wakes), Ok(4));

    let first = hub.recv_from(b, 16, 0, &mut wakes).unwrap();
    assert_eq!(first.data, b"one".to_vec());
    assert_eq!(first.address, None);
    let second = hub.recv_from(b, 2, 0, &mut wakes).unwrap();
    assert_eq!(second.data, b"tw".to_vec());
    assert_eq!(second.address, Some(abstract_addr("a")));
    assert_eq!(second.msg_flags, MSG_TRUNC);
    assert_eq!(hub.recv_from(b, 2, 0, &mut wakes).err(), Some(SysErr::Again));

    assert_eq!(hub.send_to(a, b"x", None, &mut wakes), Err(SysErr::DestAddrReq));
    assert_eq!(hub.connect(a, &abstract_addr("b"), &mut wakes), Ok(()));
    assert_eq!(hub.send_to(a, b"x", None, &mut wakes), Ok(1));
    assert_eq!(hub.send_to(a, b"x", Some(&abstract_addr("zz")), &mut wakes), Err(SysErr::NoEnt));
}

#[test]
fn shutdown_rules() {
    let mut hub = UnixSockets::new();
    let mut wakes = Vec::new();
    let lone = hub.create(SOCK_STREAM, owner(1));
    assert_eq!(hub.shutdown(lone, 2, &mut wakes), Err(SysErr::NotConn));
    let (a, b) = hub.create_pair(SOCK_STREAM, owner(1), &mut wakes);
    assert_eq!(hub.shutdown(a, 3, &mut wakes), Err(SysErr::Inval));
    wakes.clear();
    assert_eq!(hub.shutdown(a, 1, &mut wakes), Ok(()));
    let all = POLL_READ | POLL_WRITE | POLL_ERROR;
    assert_eq!(wakes, vec![(a, all), (b, all)]);
    assert_eq!(hub.poll(a, POLL_WRITE), POLL_ERROR);
    assert_eq!(hub.poll(b, POLL_READ), POLL_READ | POLL_ERROR);
    let eof = hub.recv_from(b, 8, 0, &mut wakes).unwrap();
    assert!(eof.data.is_empty());

    assert_eq!(hub.shutdown(b, 0, &mut wakes), Ok(()));
    assert_eq!(hub.write(a, b"x", &mut wakes), Err(FsError::BrokenPipe));
    let (c, d) = hub.create_pair(SOCK_STREAM, owner(1), &mut wakes);
    hub.shutdown(d, 0, &mut wakes).unwrap();
    assert_eq!(hub.write(c, b"x", &mut wakes), Err(FsError::BrokenPipe));
}

#[test]
fn closing_a_peer_gives_end_of_file() {
    let mut hub = UnixSockets::new();
    let mut wakes = Vec::new();
    let (a, b) = hub.create_pair(SOCK_STREAM, owner(1), &mut wakes);
    hub.send_to(a, b"last", None, &mut wakes).unwrap();
    wakes.clear();
    hub.close(a, &mut wakes);
    assert_eq!(wakes, vec![(b, POLL_READ | POLL_WRITE | POLL_ERROR)]);
    assert_eq!(hub.read(b, 16, &mut wakes), Ok(b"last".to_vec()));
    assert_eq!(hub.read(b, 16, &mut wakes), Ok(Vec::new()));
    assert_eq!(hub.poll(b, POLL_READ | POLL_WRITE), POLL_READ | POLL_ERROR);
    assert_eq!(hub.peer_name(b), Err(SysErr::NotConn));
}

#[test]
fn sendmsg_passes_credentials_and_rights() {
    let mut hub = UnixSockets::new();
    let mut wakes = Vec::new();
    let (a, b) = hub.create_pair(SOCK_STREAM, owner(5), &mut wakes);
    let sender = owner(5);
    let plain = UnixMessage {
        name: None,
        data: b"hi".to_vec(),
        rights: Vec::new(),
        sender,
        explicit_credentials: None,
    };
    assert_eq!(hub.send_msg(a, &plain, &mut wakes), Ok(2));
    let got = hub.recv_msg(b, 8, 0, &mut wakes).unwrap();
    assert!(got.ancillary.is_none());

    hub.setsockopt(b, SOL_SOCKET, SO_PASSCRED, &1i32.to_le_bytes()).unwrap();
    assert_eq!(hub.send_msg(a, &plain, &mut wakes), Ok(2));
    let got = hub.recv_msg(b, 8, 0, &mut wakes).unwrap();
    let ancillary = got.ancillary.unwrap();
    assert_eq!(ancillary.credentials, Some(sender));
    assert!(ancillary.rights.is_empty());

    let with_fd = UnixMessage {
        name: None,
        data: b"fd".to_vec(),
        rights: vec![42],
        sender,
        explicit_credentials: Some(owner(9)),
    };
    assert_eq!(hub.send_msg(a, &with_fd, &mut wakes), Ok(2));
    let plain_read = hub.recv_from(b, 8, MSG_PEEK, &mut wakes).unwrap();
    assert!(plain_read.ancillary.is_none());
    let got = hub.recv_msg(b, 8, 0, &mut wakes).unwrap();
    let ancillary = got.ancillary.unwrap();
    assert_eq!(ancillary.rights, vec![42]);
    assert_eq!(ancillary.credentials, Some(owner(9)));

    let empty = UnixMessage {
        name: None,
        data: Vec::new(),
        rights: vec![3],
        sender,
        explicit_credentials: None,
    };
    assert_eq!(hub.send_msg(a, &empty, &mut wakes), Err(SysErr::Inval));
}

#[test]
fn receive_buffer_limits_stream_writes() {
    let mut hub = UnixSockets::new();
    let mut wakes = Vec::new();
    let (a, b) = hub.create_pair(SOCK_STREAM, owner(1), &mut wakes);
    assert_eq!(hub.setsockopt(b, SOL_SOCKET, SO_RCVBUF, &1i32.to_le_bytes()), Ok(()));
    assert_eq!(hub.setsockopt(b, SOL_SOCKET, SO_RCVBUF, &[1u8]), Err(SysErr::Inval));
    assert_eq!(hub.setsockopt(b, 99, SO_RCVBUF, &1i32.to_le_bytes()), Err(SysErr::NoProtoOpt));
    let big = vec![7u8; 5000];
    assert_eq!(hub.send_to(a, &big, None, &mut wakes), Ok(4096));
    assert_eq!(hub.poll(a, POLL_WRITE), 0);
    assert_eq!(hub.send_to(a, b"more", None, &mut wakes), Err(SysErr::Again));
    assert_eq!(hub.write(a, b"more", &mut wakes), Err(FsError::WouldBlock));
    let got = hub.recv_from(b, 10000, 0, &mut wakes).unwrap();
    assert_eq!(got.data.len(), 4096);
    assert_eq!(hub.poll(a, POLL_WRITE), POLL_WRITE);
}
