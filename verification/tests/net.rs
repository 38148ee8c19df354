use lib::errno::SysErr;
use lib::net::netlink::{
    clamp_sockopt_i32, current_kobject_uevent_seqnum, membership_bit, normalize_socket_buffer,
    read_sockopt_i32, read_sockopt_u32, reserve_kobject_uevent_seqnum, SockAddrNetlink,
    UeventSeqnum, AF_NETLINK, NETLINK_KOBJECT_UEVENT,
};
use lib::net::unix::{pathname_from_raw, UnixAddress, AF_UNIX};
use lib::net::{
    create_socket_check, encode_sockopt_i32, getsockopt_sol_socket, init, SocketCredentials,
    SocketDomainRegistry, SocketFamily, SocketType, SO_ACCEPTCONN, SO_DOMAIN, SO_ERROR,
    SO_PROTOCOL, SO_TYPE, SOCK_CLOEXEC, SOCK_NONBLOCK,
};

#[test]
fn socket_type_parses_kind_and_flags() {
    let t = SocketType::parse(1 | SOCK_NONBLOCK).unwrap();
    assert_eq!((t.kind(), t.nonblock(), t.cloexec()), (1, true, false));
    let t = SocketType::parse(10 | SOCK_CLOEXEC).unwrap();
    assert_eq!((t.kind(), t.nonblock(), t.cloexec()), (10, false, true));
    assert_eq!(SocketType::parse(0), Err(SysErr::Inval));
    assert_eq!(SocketType::parse(7), Err(SysErr::Inval));
    assert_eq!(SocketType::parse(1 | 0x100), Err(SysErr::Inval));
}

#[test]
fn credentials_hold_ids() {
    assert_eq!(SocketCredentials::new(5, 6, 7), SocketCredentials { pid: 5, uid: 6, gid: 7 });
}

#[test]
fn sockopt_encoding() {
    assert_eq!(encode_sockopt_i32(-2), vec![0xfe, 0xff, 0xff, 0xff]);
    assert_eq!(getsockopt_sol_socket(SO_TYPE, 2, false, 0, 1), Ok(vec![2, 0, 0, 0]));
    assert_eq!(getsockopt_sol_socket(SO_ERROR, 2, false, 0, 1), Ok(vec![0, 0, 0, 0]));
    assert_eq!(getsockopt_sol_socket(SO_ACCEPTCONN, 1, true, 0, 1), Ok(vec![1, 0, 0, 0]));
    assert_eq!(getsockopt_sol_socket(SO_PROTOCOL, 3, false, 15, 16), Ok(vec![15, 0, 0, 0]));
    assert_eq!(getsockopt_sol_socket(SO_DOMAIN, 3, false, 15, 16), Ok(vec![16, 0, 0, 0]));
    assert_eq!(getsockopt_sol_socket(1234, 3, false, 15, 16), Err(SysErr::NoProtoOpt));
}

#[test]
fn registry_and_socket_checks() {
    let mut reg = SocketDomainRegistry::new();
    assert_eq!(create_socket_check(&reg, AF_UNIX, 1, 0), Err(SysErr::AfNoSupport));
    init(&mut reg);
    assert_eq!(reg.get(AF_UNIX), Some(SocketFamily::Unix));
    assert_eq!(reg.get(AF_NETLINK), Some(SocketFamily::Netlink));
    assert_eq!(reg.get(2), None);
    let (family, t) = create_socket_check(&reg, AF_UNIX, 1 | SOCK_CLOEXEC, 0).unwrap();
    assert_eq!(family, SocketFamily::Unix);
    assert!(t.cloexec());
    assert_eq!(create_socket_check(&reg, AF_UNIX, 1, 6), Err(SysErr::ProtoNoSupport));
    assert_eq!(create_socket_check(&reg, AF_UNIX, 3, 0), Err(SysErr::ProtoNoSupport));
    assert_eq!(create_socket_check(&reg, AF_UNIX, 9, 0), Err(SysErr::Inval));
    assert!(create_socket_check(&reg, AF_NETLINK, 2, NETLINK_KOBJECT_UEVENT).is_ok());
    assert_eq!(create_socket_check(&reg, AF_NETLINK, 2, 0), Err(SysErr::ProtoNoSupport));
    assert_eq!(
        create_socket_check(&reg, AF_NETLINK, 1, NETLINK_KOBJECT_UEVENT),
        Err(SysErr::SockTNoSupport)
    );
    assert_eq!(create_socket_check(&reg, 2, 1, 0), Err(SysErr::AfNoSupport));
}

#[test]
fn uevent_seqnums_count_up() {
    let mut counter = UeventSeqnum::new();
    assert_eq!(current_kobject_uevent_seqnum(&counter), 0);
    assert_eq!(reserve_kobject_uevent_seqnum(&mut counter), 1);
    assert_eq!(reserve_kobject_uevent_seqnum(&mut counter), 2);
    assert_eq!(current_kobject_uevent_seqnum(&counter), 2);
}

#[test]
fn netlink_address_round_trip() {
    let a = SockAddrNetlink { portid: 0x1234, groups: 1 };
    let bytes = a.serialize();
    assert_eq!(bytes, vec![16, 0, 0, 0, 0x34, 0x12, 0, 0, 1, 0, 0, 0]);
    assert_eq!(SockAddrNetlink::parse(&bytes), Ok(a));
    assert_eq!(SockAddrNetlink::parse(&bytes[..11]), Err(SysErr::Inval));
    let mut other = bytes.clone();
    other[0] = 1;
    assert_eq!(SockAddrNetlink::parse(&other), Err(SysErr::AfNoSupport));
}

#[test]
fn socket_option_values() {
    assert_eq!(read_sockopt_i32(&[1, 2, 3]), Err(SysErr::Inval));
    assert_eq!(read_sockopt_i32(&[0xff, 0xff, 0xff, 0xff, 9]), Ok(-1));
    assert_eq!(read_sockopt_u32(&[0xff, 0xff, 0xff, 0xff]), Ok(u32::MAX));
    assert_eq!(normalize_socket_buffer(-5), 4096);
    assert_eq!(normalize_socket_buffer(100_000), 100_000);
    assert_eq!(clamp_sockopt_i32(usize::MAX), i32::MAX);
    assert_eq!(clamp_sockopt_i32(4096), 4096);
    assert_eq!(membership_bit(&1u32.to_le_bytes()), Ok(1));
    assert_eq!(membership_bit(&32u32.to_le_bytes()), Ok(1 << 31));
    assert_eq!(membership_bit(&0u32.to_le_bytes()), Err(SysErr::Inval));
    assert_eq!(membership_bit(&33u32.to_le_bytes()), Err(SysErr::Inval));
    assert_eq!(membership_bit(&[1, 0]), Err(SysErr::Inval));
}

fn sockaddr_un(path: &[u8]) -> Vec<u8> {
    let mut v = vec![1u8, 0u8];
    v.extend_from_slice(path);
    v
}

#[test]
fn unix_addresses() {
    let a = UnixAddress::from_raw(&sockaddr_un(b"/tmp/sock\0junk")).unwrap();
    assert_eq!(a.key, b"/tmp/sock".to_vec());
    assert!(!a.abstract_namespace);
    assert_eq!(a.serialize(), sockaddr_un(b"/tmp/sock\0"));
    let b = UnixAddress::from_raw(&sockaddr_un(b"\0hidden\0x")).unwrap();
    assert_eq!(b.key, b"\0hidden\0x".to_vec());
    assert!(b.abstract_namespace);
    assert_eq!(b.serialize(), sockaddr_un(b"\0hidden\0x"));
    assert!(matches!(UnixAddress::from_raw(&[1]), Err(SysErr::Inval)));
    assert!(matches!(UnixAddress::from_raw(&[1, 0]), Err(SysErr::Inval)));
    assert!(matches!(UnixAddress::from_raw(&[2, 0, b'a']), Err(SysErr::AfNoSupport)));
}

#[test]
fn unix_pathnames() {
    assert_eq!(pathname_from_raw(&sockaddr_un(b"/run/x.sock\0")), Ok(Some("/run/x.sock".to_string())));
    assert_eq!(pathname_from_raw(&sockaddr_un("/tmp/é".as_bytes())), Ok(Some("/tmp/é".to_string())));
    assert_eq!(pathname_from_raw(&sockaddr_un(b"\0abstract")), Ok(None));
    assert_eq!(pathname_from_raw(&sockaddr_un(b"/bad\xff")), Err(SysErr::Inval));
    assert_eq!(pathname_from_raw(&[3, 0, b'a']), Err(SysErr::AfNoSupport));
}
