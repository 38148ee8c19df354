use lib::errno::SysErr;
use lib::fs::error::FsError;
use lib::fs::poll::{POLL_READ, POLL_WRITE};
use lib::net::netlink::{
    NetlinkSockets, SockAddrNetlink, MSG_PEEK, MSG_TRUNC, NETLINK_ADD_MEMBERSHIP,
    NETLINK_DROP_MEMBERSHIP, NETLINK_KOBJECT_UEVENT, SOCK_DGRAM, SOL_NETLINK,
};
use lib::net::{SOL_SOCKET, SO_PASSCRED, SO_RCVBUF, SO_TYPE};

fn addr(portid: u32, groups: u32) -> Vec<u8> {
    SockAddrNetlink { portid, groups }.serialize()
}

#[test]
fn ports_start_at_the_owner_pid_and_stay_unique() {
    let mut hub = NetlinkSockets::new();
    let a = hub.shared(NETLINK_KOBJECT_UEVENT, SOCK_DGRAM, 40);
    let b = hub.shared(NETLINK_KOBJECT_UEVENT, SOCK_DGRAM, 40);
    let ia = hub.position(a).unwrap();
    let ib = hub.position(b).unwrap();
    assert_eq!(hub.bind(ia, &addr(0, 0)), Ok(()));
    assert_eq!(hub.socket(ia).portid, 40);
    assert_eq!(hub.bind(ib, &addr(0, 0)), Ok(()));
    assert_eq!(hub.socket(ib).portid, 41);
    assert_eq!(hub.bind(ib, &addr(40, 0)), Err(SysErr::AddrInUse));
    assert_eq!(hub.bind(ib, &addr(77, 0)), Ok(()));
    assert_eq!(hub.socket(ib).portid, 77);
    assert_eq!(hub.bind(ib, &[0u8; 4]), Err(SysErr::Inval));
}

#[test]
fn unicast_reaches_the_port_owner() {
    let mut hub = NetlinkSockets::new();
    let a = hub.shared(NETLINK_KOBJECT_UEVENT, SOCK_DGRAM, 10);
    let b = hub.shared(NETLINK_KOBJECT_UEVENT, SOCK_DGRAM, 20);
    let ib = hub.position(b).unwrap();
    hub.bind(ib, &addr(0, 0)).unwrap();
    let ia = hub.position(a).unwrap();
    assert_eq!(hub.send_to(ia, b"hello", Some(&addr(20, 0))), Ok(5));
    assert_eq!(hub.socket(ia).portid, 10);
    assert_eq!(hub.send_to(ia, b"x", Some(&addr(99, 0))), Err(SysErr::ConnRefused));
    assert_eq!(hub.send_to(ia, b"x", None), Err(SysErr::DestAddrReq));
    assert_eq!(hub.write(ia, b"x"), Err(FsError::Unsupported));

    let socket = hub.socket(ib);
    assert_eq!(socket.poll(POLL_READ | POLL_WRITE), POLL_READ | POLL_WRITE);
}

#[test]
fn receive_peek_and_truncate() {
    let mut hub = NetlinkSockets::new();
    let a = hub.shared(NETLINK_KOBJECT_UEVENT, SOCK_DGRAM, 10);
    let b = hub.shared(NETLINK_KOBJECT_UEVENT, SOCK_DGRAM, 20);
    let ia = hub.position(a).unwrap();
    let ib = hub.position(b).unwrap();
    hub.bind(ib, &addr(0, 0)).unwrap();
    hub.connect(ia, &addr(20, 0)).unwrap();
    assert_eq!(hub.write(ia, b"payload"), Ok(7));
    let sockets_b = hub.position(b).unwrap();
    let socket = hub.socket_mut(sockets_b);
    let peeked = socket.recv_from(3, MSG_PEEK).unwrap();
    assert_eq!(peeked.data, b"pay".to_vec());
    assert_eq!(peeked.msg_flags, MSG_TRUNC);
    assert_eq!(peeked.address, addr(10, 0));
    let whole = socket.recv_from(64, 0).unwrap();
    assert_eq!(whole.data, b"payload".to_vec());
    assert_eq!(whole.msg_flags, 0);
    assert!(matches!(socket.recv_from(64, 0), Err(SysErr::Again)));
    assert_eq!(socket.read(8), Err(FsError::WouldBlock));
}

#[test]
fn multicast_goes_to_group_members() {
    let mut hub = NetlinkSockets::new();
    let listener = hub.shared(NETLINK_KOBJECT_UEVENT, SOCK_DGRAM, 30);
    let other = hub.shared(NETLINK_KOBJECT_UEVENT, SOCK_DGRAM, 31);
    let il = hub.position(listener).unwrap();
    hub.bind(il, &addr(0, 1)).unwrap();
    assert_eq!(hub.publish_kobject_uevent(b"add@/devices/x"), vec![listener]);
    let io = hub.position(other).unwrap();
    assert_eq!(hub.socket(io).poll(POLL_READ), 0);
    assert_eq!(hub.socket(il).poll(POLL_READ), POLL_READ);
}

#[test]
fn membership_and_options() {
    let mut hub = NetlinkSockets::new();
    let h = hub.shared(NETLINK_KOBJECT_UEVENT, SOCK_DGRAM, 5);
    let at = hub.position(h).unwrap();
    let socket = hub.socket_mut(at);
    assert_eq!(socket.socket_options(SOL_NETLINK, NETLINK_ADD_MEMBERSHIP, &3u32.to_le_bytes()), Ok(()));
    assert_eq!(socket.groups, 0b100);
    assert_eq!(socket.socket_options(SOL_NETLINK, NETLINK_DROP_MEMBERSHIP, &3u32.to_le_bytes()), Ok(()));
    assert_eq!(socket.groups, 0);
    assert_eq!(socket.socket_options(SOL_NETLINK, NETLINK_ADD_MEMBERSHIP, &33u32.to_le_bytes()), Err(SysErr::Inval));
    assert_eq!(socket.socket_options(SOL_SOCKET, SO_RCVBUF, &100i32.to_le_bytes()), Ok(()));
    assert_eq!(socket.rcvbuf, 4096);
    assert_eq!(socket.socket_options(SOL_SOCKET, SO_PASSCRED, &1i32.to_le_bytes()), Ok(()));
    assert_eq!(socket.getsockopt(SOL_SOCKET, SO_PASSCRED), Ok(1i32.to_le_bytes().to_vec()));
    assert_eq!(socket.getsockopt(SOL_SOCKET, SO_TYPE), Ok((SOCK_DGRAM as i32).to_le_bytes().to_vec()));
    assert_eq!(socket.getsockopt(SOL_NETLINK, SO_TYPE), Err(SysErr::NoProtoOpt));
    assert_eq!(socket.socket_options(99, 1, &[0u8; 4]), Err(SysErr::NoProtoOpt));
}
