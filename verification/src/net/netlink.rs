//! Netlink sockets: addresses, options, and the kobject uevent sequence numbers.
use vstd::prelude::*;

use super::{
    encode_sockopt_i32, getsockopt_sol_socket, spec_sol_socket_option, SocketDomainRegistry,
    SocketFamily, SOL_SOCKET, SO_PASSCRED, SO_RCVBUF, SO_RCVBUFFORCE, SO_SNDBUF, SO_SNDBUFFORCE,
};
use crate::fs::error::FsError;
use crate::fs::poll::{POLL_READ, POLL_WRITE};
use crate::errno::SysErr;
use crate::wire::{
    i32_le, le_i32_at, le_u16_at, le_u32_at, lemma_u16_roundtrip, lemma_u32_roundtrip, push_u16,
    push_bytes, push_u32, read_i32_at, read_u16_at, read_u32_at, u16_le, u32_le,
};

verus! {

pub const AF_NETLINK: i32 = 16;
pub const NETLINK_KOBJECT_UEVENT: i32 = 15;
pub const NETLINK_KOBJECT_UEVENT_GROUP: u32 = 1;

pub const SOCK_DGRAM: u32 = 2;
pub const SOCK_RAW: u32 = 3;

pub const MSG_PEEK: u64 = 0x0002;
pub const MSG_TRUNC: u32 = 0x0020;

pub const SOL_NETLINK: i32 = 270;

pub const NETLINK_ADD_MEMBERSHIP: i32 = 1;
pub const NETLINK_DROP_MEMBERSHIP: i32 = 2;

pub const NETLINK_SOCKADDR_LEN: usize = 12;
pub const DEFAULT_SOCKET_BUFFER: usize = 256 * 1024;
pub const MIN_SOCKET_BUFFER: usize = 4096;

/// Registers netlink sockets for `AF_NETLINK`.
pub fn init(registry: &mut SocketDomainRegistry)
    ensures
        final(registry).families() == old(registry).families().insert(
            AF_NETLINK,
            SocketFamily::Netlink,
        ),
{
    registry.register(AF_NETLINK, SocketFamily::Netlink);
}

/// The counter of kobject uevent sequence numbers.
pub struct UeventSeqnum {
    value: u64,
}

impl UeventSeqnum {
    /// The last number given out.
    pub closed spec fn spec_value(&self) -> u64 {
        self.value
    }

    /// No number given out yet.
    pub fn new() -> (r: Self)
        ensures
            r.spec_value() == 0,
    {
        UeventSeqnum { value: 0 }
    }
}

/// Gives out the next sequence number: the counter steps by one (wrapping), and the
/// number is the counter's old value plus one (saturating).
pub fn reserve_kobject_uevent_seqnum(counter: &mut UeventSeqnum) -> (r: u64)
    ensures
        final(counter).spec_value() == (if old(counter).spec_value() == u64::MAX {
            0
        } else {
            (old(counter).spec_value() + 1) as u64
        }),
        r == (if old(counter).spec_value() == u64::MAX {
            u64::MAX
        } else {
            (old(counter).spec_value() + 1) as u64
        }),
{
    let previous = counter.value;
    counter.value = previous.wrapping_add(1);
    previous.saturating_add(1)
}

/// The last sequence number given out.
pub fn current_kobject_uevent_seqnum(counter: &UeventSeqnum) -> (r: u64)
    ensures
        r == counter.spec_value(),
{
    counter.value
}

/// A netlink address: port ID and multicast groups.
#[derive(Debug, Clone, Copy, PartialEq, Eq, Structural)]
pub struct SockAddrNetlink {
    pub portid: u32,
    pub groups: u32,
}

/// The bytes of a netlink address: family, two bytes of padding, port ID, groups.
pub open spec fn sockaddr_netlink_bytes(a: SockAddrNetlink) -> Seq<u8> {
    u16_le(AF_NETLINK as u16) + seq![0u8, 0u8] + u32_le(a.portid) + u32_le(a.groups)
}

/// A netlink address read from bytes: `Inval` when shorter than 12 bytes, `AfNoSupport`
/// for another family.
pub open spec fn spec_parse_sockaddr_netlink(address: Seq<u8>) -> Result<SockAddrNetlink, SysErr> {
    if address.len() < NETLINK_SOCKADDR_LEN {
        Err(SysErr::Inval)
    } else if le_u16_at(address, 0) != AF_NETLINK as u16 {
        Err(SysErr::AfNoSupport)
    } else {
        Ok(SockAddrNetlink { portid: le_u32_at(address, 4), groups: le_u32_at(address, 8) })
    }
}

impl SockAddrNetlink {
    /// Reads a netlink address: `Inval` when shorter than 12 bytes, `AfNoSupport` for
    /// another family.
    pub fn parse(address: &[u8]) -> (r: Result<Self, SysErr>)
        ensures
            r == spec_parse_sockaddr_netlink(address@),
            address@.len() < NETLINK_SOCKADDR_LEN ==> r == Err::<Self, SysErr>(SysErr::Inval),
            address@.len() >= NETLINK_SOCKADDR_LEN && le_u16_at(address@, 0) != AF_NETLINK as u16
                ==> r == Err::<Self, SysErr>(SysErr::AfNoSupport),
            address@.len() >= NETLINK_SOCKADDR_LEN && le_u16_at(address@, 0) == AF_NETLINK as u16
                ==> r == Ok::<Self, SysErr>(
                SockAddrNetlink {
                    portid: le_u32_at(address@, 4),
                    groups: le_u32_at(address@, 8),
                },
            ),
    {
        if address.len() < NETLINK_SOCKADDR_LEN {
            return Err(SysErr::Inval);
        }
        let family = read_u16_at(address, 0);
        if family != AF_NETLINK as u16 {
            return Err(SysErr::AfNoSupport);
        }
        Ok(SockAddrNetlink { portid: read_u32_at(address, 4), groups: read_u32_at(address, 8) })
    }

    /// The bytes of the address; see `sockaddr_netlink_bytes`.
    pub fn serialize(self) -> (r: Vec<u8>)
        ensures
            r@ == sockaddr_netlink_bytes(self),
    {
        let mut bytes: Vec<u8> = Vec::new();
        push_u16(&mut bytes, AF_NETLINK as u16);
        bytes.push(0);
        bytes.push(0);
        push_u32(&mut bytes, self.portid);
        push_u32(&mut bytes, self.groups);
        assert(bytes@ =~= sockaddr_netlink_bytes(self));
        bytes
    }
}

/// Reads an `int` option value: `Inval` when shorter than four bytes.
pub fn read_sockopt_i32(value: &[u8]) -> (r: Result<i32, SysErr>)
    ensures
        value@.len() < 4 ==> r == Err::<i32, SysErr>(SysErr::Inval),
        value@.len() >= 4 ==> r == Ok::<i32, SysErr>(le_i32_at(value@, 0)),
{
    if value.len() < 4 {
        return Err(SysErr::Inval);
    }
    Ok(read_i32_at(value, 0))
}

/// Reads an unsigned option value: `Inval` when shorter than four bytes.
pub fn read_sockopt_u32(value: &[u8]) -> (r: Result<u32, SysErr>)
    ensures
        value@.len() < 4 ==> r == Err::<u32, SysErr>(SysErr::Inval),
        value@.len() >= 4 ==> r == Ok::<u32, SysErr>(le_u32_at(value@, 0)),
{
    if value.len() < 4 {
        return Err(SysErr::Inval);
    }
    Ok(read_u32_at(value, 0))
}

/// A requested buffer size as kept: at least `MIN_SOCKET_BUFFER`.
pub fn normalize_socket_buffer(value: i32) -> (r: usize)
    ensures
        r == (if value < MIN_SOCKET_BUFFER as i32 {
            MIN_SOCKET_BUFFER as int
        } else {
            value as int
        }),
{
    if value < MIN_SOCKET_BUFFER as i32 {
        MIN_SOCKET_BUFFER
    } else {
        value as usize
    }
}

/// A buffer size as an `int` option: capped at `i32::MAX`.
pub fn clamp_sockopt_i32(value: usize) -> (r: i32)
    ensures
        r == (if value > i32::MAX as usize {
            i32::MAX as int
        } else {
            value as int
        }),
{
    if value > i32::MAX as usize {
        i32::MAX
    } else {
        value as i32
    }
}

/// The group bit of a `NETLINK_ADD_MEMBERSHIP`/`NETLINK_DROP_MEMBERSHIP` value: groups
/// are numbered 1 to 32; anything else is `Inval`.
pub fn membership_bit(value: &[u8]) -> (r: Result<u32, SysErr>)
    ensures
        value@.len() < 4 ==> r == Err::<u32, SysErr>(SysErr::Inval),
        value@.len() >= 4 && (le_u32_at(value@, 0) == 0 || le_u32_at(value@, 0) > 32) ==> r
            == Err::<u32, SysErr>(SysErr::Inval),
        value@.len() >= 4 && 1 <= le_u32_at(value@, 0) <= 32 ==> r == Ok::<u32, SysErr>(
            1u32 << ((le_u32_at(value@, 0) - 1) as u32),
        ),
{
    let group = match read_sockopt_u32(value) {
        Ok(g) => g,
        Err(e) => return Err(e),
    };
    if group == 0 || group > 32 {
        return Err(SysErr::Inval);
    }
    Ok(1u32 << (group - 1))
}

/// Parsing the bytes of a netlink address gives it back.
pub proof fn lemma_sockaddr_netlink_roundtrip(a: SockAddrNetlink)
    ensures
        sockaddr_netlink_bytes(a).len() == NETLINK_SOCKADDR_LEN,
        le_u16_at(sockaddr_netlink_bytes(a), 0) == AF_NETLINK as u16,
        le_u32_at(sockaddr_netlink_bytes(a), 4) == a.portid,
        le_u32_at(sockaddr_netlink_bytes(a), 8) == a.groups,
{
    let b = sockaddr_netlink_bytes(a);
    lemma_u16_roundtrip(AF_NETLINK as u16);
    lemma_u32_roundtrip(a.portid);
    lemma_u32_roundtrip(a.groups);
    let f = u16_le(AF_NETLINK as u16);
    let p = u32_le(a.portid);
    let g = u32_le(a.groups);
    assert(b[0] == f[0] && b[1] == f[1]);
    assert(b[4] == p[0] && b[5] == p[1] && b[6] == p[2] && b[7] == p[3]);
    assert(b[8] == g[0] && b[9] == g[1] && b[10] == g[2] && b[11] == g[3]);
}

/// A datagram waiting on a netlink socket, with the address it came from.
pub struct NetlinkMessage {
    pub data: Vec<u8>,
    pub sender_portid: u32,
    pub sender_groups: u32,
}

/// A queued datagram as a value.
pub struct NetlinkMessageView {
    pub data: Seq<u8>,
    pub sender_portid: u32,
    pub sender_groups: u32,
}

impl View for NetlinkMessage {
    type V = NetlinkMessageView;

    open spec fn view(&self) -> NetlinkMessageView {
        NetlinkMessageView {
            data: self.data@,
            sender_portid: self.sender_portid,
            sender_groups: self.sender_groups,
        }
    }
}

/// One netlink socket: who made it, its address, its peer, its queue and its options.
/// `handle` names the socket among all others.
pub struct NetlinkSocket {
    pub handle: u64,
    pub protocol: i32,
    pub kind: u32,
    pub owner_pid: u32,
    pub portid: u32,
    pub groups: u32,
    pub connected: Option<SockAddrNetlink>,
    pub recv_queue: Vec<NetlinkMessage>,
    pub recv_bytes: usize,
    pub passcred: bool,
    pub sndbuf: usize,
    pub rcvbuf: usize,
}

/// A netlink socket as a value.
pub struct NetlinkSocketView {
    pub handle: u64,
    pub protocol: i32,
    pub kind: u32,
    pub owner_pid: u32,
    pub portid: u32,
    pub groups: u32,
    pub connected: Option<SockAddrNetlink>,
    pub queue: Seq<NetlinkMessageView>,
    pub recv_bytes: usize,
    pub passcred: bool,
    pub sndbuf: usize,
    pub rcvbuf: usize,
}

impl View for NetlinkSocket {
    type V = NetlinkSocketView;

    open spec fn view(&self) -> NetlinkSocketView {
        NetlinkSocketView {
            handle: self.handle,
            protocol: self.protocol,
            kind: self.kind,
            owner_pid: self.owner_pid,
            portid: self.portid,
            groups: self.groups,
            connected: self.connected,
            queue: self.recv_queue@.map_values(|m: NetlinkMessage| m@),
            recv_bytes: self.recv_bytes,
            passcred: self.passcred,
            sndbuf: self.sndbuf,
            rcvbuf: self.rcvbuf,
        }
    }
}

/// `a + b`, or `usize::MAX` above it.
pub open spec fn usize_sat_add(a: usize, b: int) -> usize {
    if a + b <= usize::MAX {
        (a + b) as usize
    } else {
        usize::MAX
    }
}

/// `a - b`, or 0 below zero.
pub open spec fn usize_sat_sub(a: usize, b: int) -> usize {
    if a >= b {
        (a - b) as usize
    } else {
        0
    }
}

/// A socket after a datagram is queued on it, or `None` when that would take its queued
/// bytes past its receive buffer.
pub open spec fn spec_enqueue(s: NetlinkSocketView, m: NetlinkMessageView) -> Option<NetlinkSocketView> {
    let next = usize_sat_add(s.recv_bytes, m.data.len() as int);
    if next > s.rcvbuf {
        None
    } else {
        Some(NetlinkSocketView { recv_bytes: next, queue: s.queue.push(m), ..s })
    }
}

/// Whether a multicast of `payload` from `sender_portid` to `group_mask` on `protocol`
/// reaches socket `s`: it is on `protocol`, in one of the groups, and has room for it.
pub open spec fn receives_broadcast(
    s: NetlinkSocketView,
    protocol: i32,
    sender_portid: u32,
    group_mask: u32,
    payload: Seq<u8>,
) -> bool {
    &&& group_mask != 0
    &&& s.protocol == protocol
    &&& s.groups & group_mask != 0
    &&& spec_enqueue(s, NetlinkMessageView { data: payload, sender_portid, sender_groups: group_mask }) is Some
}

/// The handles of the sockets that a multicast reaches, in order.
pub open spec fn broadcast_receivers(
    sockets: Seq<NetlinkSocketView>,
    protocol: i32,
    sender_portid: u32,
    group_mask: u32,
    payload: Seq<u8>,
) -> Seq<u64>
    decreases sockets.len(),
{
    if sockets.len() == 0 {
        Seq::empty()
    } else {
        let rest = broadcast_receivers(sockets.drop_last(), protocol, sender_portid, group_mask, payload);
        if receives_broadcast(sockets.last(), protocol, sender_portid, group_mask, payload) {
            rest.push(sockets.last().handle)
        } else {
            rest
        }
    }
}

/// A multicast to no group reaches no socket.
proof fn lemma_no_receivers(
    sockets: Seq<NetlinkSocketView>,
    protocol: i32,
    sender_portid: u32,
    group_mask: u32,
    payload: Seq<u8>,
)
    requires
        group_mask == 0,
    ensures
        broadcast_receivers(sockets, protocol, sender_portid, group_mask, payload) == Seq::<u64>::empty(),
    decreases sockets.len(),
{
    if sockets.len() > 0 {
        lemma_no_receivers(sockets.drop_last(), protocol, sender_portid, group_mask, payload);
    }
}

/// The socket's own address.
pub open spec fn local_address_of(s: NetlinkSocketView) -> SockAddrNetlink {
    SockAddrNetlink { portid: s.portid, groups: s.groups }
}

/// What `SO_PASSCRED`, `SO_SNDBUF` and `SO_RCVBUF` (and their forcing variants) set; any
/// other `SOL_SOCKET` option is `NoProtoOpt`; a value shorter than four bytes is `Inval`.
pub open spec fn spec_set_sol_socket(s: NetlinkSocketView, optname: i32, value: Seq<u8>) -> Result<
    NetlinkSocketView,
    SysErr,
> {
    if value.len() < 4 {
        Err(SysErr::Inval)
    } else {
        let parsed = le_i32_at(value, 0);
        let size = if parsed < MIN_SOCKET_BUFFER as i32 {
            MIN_SOCKET_BUFFER
        } else {
            parsed as usize
        };
        if optname == SO_PASSCRED {
            Ok(NetlinkSocketView { passcred: parsed != 0, ..s })
        } else if optname == SO_SNDBUF || optname == SO_SNDBUFFORCE {
            Ok(NetlinkSocketView { sndbuf: size, ..s })
        } else if optname == SO_RCVBUF || optname == SO_RCVBUFFORCE {
            Ok(NetlinkSocketView { rcvbuf: size, ..s })
        } else {
            Err(SysErr::NoProtoOpt)
        }
    }
}

/// What `NETLINK_ADD_MEMBERSHIP` and `NETLINK_DROP_MEMBERSHIP` do to the groups; the
/// value is a group number from 1 to 32.
pub open spec fn spec_set_sol_netlink(s: NetlinkSocketView, optname: i32, value: Seq<u8>) -> Result<
    NetlinkSocketView,
    SysErr,
> {
    if value.len() < 4 || le_u32_at(value, 0) == 0 || le_u32_at(value, 0) > 32 {
        Err(SysErr::Inval)
    } else {
        let bit = 1u32 << ((le_u32_at(value, 0) - 1) as u32);
        if optname == NETLINK_ADD_MEMBERSHIP {
            Ok(NetlinkSocketView { groups: s.groups | bit, ..s })
        } else if optname == NETLINK_DROP_MEMBERSHIP {
            Ok(NetlinkSocketView { groups: s.groups & !bit, ..s })
        } else {
            Err(SysErr::NoProtoOpt)
        }
    }
}

/// A received datagram: as much of it as fit, the sender's address, and `MSG_TRUNC` when
/// it did not all fit.
pub struct NetlinkReceive {
    pub data: Vec<u8>,
    pub address: Vec<u8>,
    pub msg_flags: u32,
}

impl NetlinkSocket {
    /// A new socket: no address, no peer, nothing queued, default buffers.
    pub fn new(handle: u64, protocol: i32, kind: u32, owner_pid: u32) -> (r: Self)
        ensures
            r@ == (NetlinkSocketView {
                handle,
                protocol,
                kind,
                owner_pid,
                portid: 0,
                groups: 0,
                connected: None,
                queue: Seq::empty(),
                recv_bytes: 0,
                passcred: false,
                sndbuf: DEFAULT_SOCKET_BUFFER,
                rcvbuf: DEFAULT_SOCKET_BUFFER,
            }),
    {
        let r = NetlinkSocket {
            handle,
            protocol,
            kind,
            owner_pid,
            portid: 0,
            groups: 0,
            connected: None,
            recv_queue: Vec::new(),
            recv_bytes: 0,
            passcred: false,
            sndbuf: DEFAULT_SOCKET_BUFFER,
            rcvbuf: DEFAULT_SOCKET_BUFFER,
        };
        assert(r@.queue =~= Seq::<NetlinkMessageView>::empty());
        r
    }

    /// The socket's own address.
    pub fn local_address(&self) -> (r: SockAddrNetlink)
        ensures
            r == local_address_of(self@),
    {
        SockAddrNetlink { portid: self.portid, groups: self.groups }
    }

    /// The address the socket is connected to; `NotConn` when it is not.
    pub fn peer_address(&self) -> (r: Result<SockAddrNetlink, SysErr>)
        ensures
            r == match self.connected {
                Some(a) => Ok::<SockAddrNetlink, SysErr>(a),
                None => Err(SysErr::NotConn),
            },
    {
        match self.connected {
            Some(a) => Ok(a),
            None => Err(SysErr::NotConn),
        }
    }

    /// `getsockname`: the bytes of the socket's own address.
    pub fn sock_name(&self) -> (r: Vec<u8>)
        ensures
            r@ == sockaddr_netlink_bytes(local_address_of(self@)),
    {
        self.local_address().serialize()
    }

    /// `getpeername`: the bytes of the peer's address; `NotConn` when there is none.
    pub fn peer_name(&self) -> (r: Result<Vec<u8>, SysErr>)
        ensures
            match (r, self.connected) {
                (Ok(bytes), Some(a)) => bytes@ == sockaddr_netlink_bytes(a),
                (Err(e), None) => e == SysErr::NotConn,
                _ => false,
            },
    {
        match self.peer_address() {
            Ok(a) => Ok(a.serialize()),
            Err(e) => Err(e),
        }
    }

    /// Queues a datagram; `NoBufs` when that would take the queued bytes past the
    /// receive buffer.
    pub fn enqueue(&mut self, message: NetlinkMessage) -> (r: Result<(), SysErr>)
        ensures
            match spec_enqueue(old(self)@, message@) {
                Some(s) => r == Ok::<(), SysErr>(()) && final(self)@ == s,
                None => r == Err::<(), SysErr>(SysErr::NoBufs) && final(self)@ == old(self)@,
            },
    {
        let next = self.recv_bytes.saturating_add(message.data.len());
        if next > self.rcvbuf {
            return Err(SysErr::NoBufs);
        }
        let ghost before = self.recv_queue@;
        let ghost m = message@;
        self.recv_bytes = next;
        self.recv_queue.push(message);
        assert(self.recv_queue@.map_values(|x: NetlinkMessage| x@) =~= before.map_values(
            |x: NetlinkMessage| x@,
        ).push(m));
        Ok(())
    }

    /// `setsockopt` at `SOL_SOCKET`; see `spec_set_sol_socket`.
    pub fn set_sol_socket(&mut self, optname: i32, value: &[u8]) -> (r: Result<(), SysErr>)
        ensures
            match spec_set_sol_socket(old(self)@, optname, value@) {
                Ok(s) => r == Ok::<(), SysErr>(()) && final(self)@ == s,
                Err(e) => r == Err::<(), SysErr>(e) && final(self)@ == old(self)@,
            },
    {
        let parsed = match read_sockopt_i32(value) {
            Ok(v) => v,
            Err(e) => return Err(e),
        };
        if optname == SO_PASSCRED {
            self.passcred = parsed != 0;
            Ok(())
        } else if optname == SO_SNDBUF || optname == SO_SNDBUFFORCE {
            self.sndbuf = normalize_socket_buffer(parsed);
            Ok(())
        } else if optname == SO_RCVBUF || optname == SO_RCVBUFFORCE {
            self.rcvbuf = normalize_socket_buffer(parsed);
            Ok(())
        } else {
            Err(SysErr::NoProtoOpt)
        }
    }

    /// `setsockopt` at `SOL_NETLINK`; see `spec_set_sol_netlink`.
    pub fn set_sol_netlink(&mut self, optname: i32, value: &[u8]) -> (r: Result<(), SysErr>)
        ensures
            match spec_set_sol_netlink(old(self)@, optname, value@) {
                Ok(s) => r == Ok::<(), SysErr>(()) && final(self)@ == s,
                Err(e) => r == Err::<(), SysErr>(e) && final(self)@ == old(self)@,
            },
    {
        let bit = match membership_bit(value) {
            Ok(b) => b,
            Err(e) => return Err(e),
        };
        if optname == NETLINK_ADD_MEMBERSHIP {
            self.groups = self.groups | bit;
            Ok(())
        } else if optname == NETLINK_DROP_MEMBERSHIP {
            self.groups = self.groups & !bit;
            Ok(())
        } else {
            Err(SysErr::NoProtoOpt)
        }
    }

    /// `setsockopt`: `SOL_SOCKET` and `SOL_NETLINK` options; any other level is
    /// `NoProtoOpt`.
    pub fn socket_options(&mut self, level: i32, optname: i32, value: &[u8]) -> (r: Result<
        (),
        SysErr,
    >)
        ensures
            level == SOL_SOCKET ==> match spec_set_sol_socket(old(self)@, optname, value@) {
                Ok(s) => r == Ok::<(), SysErr>(()) && final(self)@ == s,
                Err(e) => r == Err::<(), SysErr>(e) && final(self)@ == old(self)@,
            },
            level == SOL_NETLINK ==> match spec_set_sol_netlink(old(self)@, optname, value@) {
                Ok(s) => r == Ok::<(), SysErr>(()) && final(self)@ == s,
                Err(e) => r == Err::<(), SysErr>(e) && final(self)@ == old(self)@,
            },
            level != SOL_SOCKET && level != SOL_NETLINK ==> r == Err::<(), SysErr>(
                SysErr::NoProtoOpt,
            ) && final(self)@ == old(self)@,
    {
        if level == SOL_SOCKET {
            self.set_sol_socket(optname, value)
        } else if level == SOL_NETLINK {
            self.set_sol_netlink(optname, value)
        } else {
            Err(SysErr::NoProtoOpt)
        }
    }

    /// `getsockopt`: the passcred flag and the buffer sizes (capped at `i32::MAX`), then
    /// what every socket answers; levels other than `SOL_SOCKET` are `NoProtoOpt`.
    pub fn getsockopt(&self, level: i32, optname: i32) -> (r: Result<Vec<u8>, SysErr>)
        ensures
            level != SOL_SOCKET ==> r == Err::<Vec<u8>, SysErr>(SysErr::NoProtoOpt),
            level == SOL_SOCKET && optname == SO_PASSCRED ==> (r matches Ok(v) && v@ == i32_le(
                if self.passcred {
                    1
                } else {
                    0
                },
            )),
            level == SOL_SOCKET && (optname == SO_SNDBUF || optname == SO_SNDBUFFORCE) ==> (r matches Ok(
                v,
            ) && v@ == i32_le(
                if self.sndbuf > i32::MAX as usize {
                    i32::MAX
                } else {
                    self.sndbuf as i32
                },
            )),
            level == SOL_SOCKET && (optname == SO_RCVBUF || optname == SO_RCVBUFFORCE) ==> (r matches Ok(
                v,
            ) && v@ == i32_le(
                if self.rcvbuf > i32::MAX as usize {
                    i32::MAX
                } else {
                    self.rcvbuf as i32
                },
            )),
            level == SOL_SOCKET && optname != SO_PASSCRED && optname != SO_SNDBUF && optname
                != SO_SNDBUFFORCE && optname != SO_RCVBUF && optname != SO_RCVBUFFORCE ==> match (
                r,
                spec_sol_socket_option(optname, self.kind, false, self.protocol, AF_NETLINK),
            ) {
                (Ok(v), Ok(s)) => v@ == s,
                (Err(e), Err(se)) => e == se,
                _ => false,
            },
    {
        if level != SOL_SOCKET {
            return Err(SysErr::NoProtoOpt);
        }
        if optname == SO_PASSCRED {
            Ok(
                encode_sockopt_i32(
                    if self.passcred {
                        1
                    } else {
                        0
                    },
                ),
            )
        } else if optname == SO_SNDBUF || optname == SO_SNDBUFFORCE {
            Ok(encode_sockopt_i32(clamp_sockopt_i32(self.sndbuf)))
        } else if optname == SO_RCVBUF || optname == SO_RCVBUFFORCE {
            Ok(encode_sockopt_i32(clamp_sockopt_i32(self.rcvbuf)))
        } else {
            getsockopt_sol_socket(optname, self.kind, false, self.protocol, AF_NETLINK)
        }
    }

    /// `recvfrom`: the oldest datagram, cut to `len` bytes, with its sender's address;
    /// `MSG_PEEK` leaves it queued; `Again` when nothing is queued.
    pub fn recv_from(&mut self, len: usize, flags: u64) -> (r: Result<NetlinkReceive, SysErr>)
        ensures
            old(self)@.queue.len() == 0 ==> (r matches Err(e) && e == SysErr::Again),
            old(self)@.queue.len() == 0 ==> final(self)@ == old(self)@,
            old(self)@.queue.len() > 0 ==> {
                let m = old(self)@.queue[0];
                let count = if len < m.data.len() {
                    len as int
                } else {
                    m.data.len() as int
                };
                &&& r matches Ok(received)
                &&& received.data@ == m.data.take(count)
                &&& received.address@ == sockaddr_netlink_bytes(
                    SockAddrNetlink { portid: m.sender_portid, groups: m.sender_groups },
                )
                &&& received.msg_flags == if m.data.len() > count {
                    MSG_TRUNC
                } else {
                    0
                }
                &&& flags & MSG_PEEK != 0 ==> final(self)@ == old(self)@
                &&& flags & MSG_PEEK == 0 ==> final(self)@ == (NetlinkSocketView {
                    queue: old(self)@.queue.drop_first(),
                    recv_bytes: usize_sat_sub(old(self)@.recv_bytes, m.data.len() as int),
                    ..old(self)@
                })
            },
    {
        if self.recv_queue.len() == 0 {
            return Err(SysErr::Again);
        }
        let peek = flags & MSG_PEEK != 0;
        let ghost before = self.recv_queue@;
        let ghost m = self.recv_queue@[0]@;
        assert(self@.queue[0] == m);
        let received = {
            let message = &self.recv_queue[0];
            let count = if len < message.data.len() {
                len
            } else {
                message.data.len()
            };
            let mut data: Vec<u8> = Vec::new();
            let mut i: usize = 0;
            while i < count
                invariant
                    count <= message.data@.len(),
                    i <= count,
                    data@ == message.data@.take(i as int),
                decreases count - i,
            {
                data.push(message.data[i]);
                assert(message.data@.take(i + 1) =~= message.data@.take(i as int).push(
                    message.data@[i as int],
                ));
                i += 1;
            }
            let address = SockAddrNetlink {
                portid: message.sender_portid,
                groups: message.sender_groups,
            }.serialize();
            let msg_flags = if message.data.len() > count {
                MSG_TRUNC
            } else {
                0
            };
            NetlinkReceive { data, address, msg_flags }
        };
        if !peek {
            let message = self.recv_queue.remove(0);
            self.recv_bytes = self.recv_bytes.saturating_sub(message.data.len());
            assert(self.recv_queue@.map_values(|x: NetlinkMessage| x@) =~= before.map_values(
                |x: NetlinkMessage| x@,
            ).drop_first());
        }
        Ok(received)
    }

    /// `read`: `recv_from` with no flags; `WouldBlock` when nothing is queued.
    pub fn read(&mut self, len: usize) -> (r: Result<Vec<u8>, FsError>)
        ensures
            old(self)@.queue.len() == 0 ==> r == Err::<Vec<u8>, FsError>(FsError::WouldBlock)
                && final(self)@ == old(self)@,
            old(self)@.queue.len() > 0 ==> {
                let m = old(self)@.queue[0];
                &&& r matches Ok(data)
                &&& data@ == m.data.take(
                    if len < m.data.len() {
                        len as int
                    } else {
                        m.data.len() as int
                    },
                )
                &&& final(self)@ == (NetlinkSocketView {
                    queue: old(self)@.queue.drop_first(),
                    recv_bytes: usize_sat_sub(old(self)@.recv_bytes, m.data.len() as int),
                    ..old(self)@
                })
            },
    {
        assert(0u64 & MSG_PEEK == 0) by (bit_vector);
        match self.recv_from(len, 0) {
            Ok(received) => Ok(received.data),
            Err(SysErr::Again) => Err(FsError::WouldBlock),
            Err(_) => Err(FsError::Unsupported),
        }
    }

    /// Readiness among `events`: readable while a datagram is queued, always writable.
    pub fn poll(&self, events: u32) -> (r: u32)
        ensures
            r == (if events & POLL_READ != 0 && self@.queue.len() > 0 {
                POLL_READ
            } else {
                0
            }) | (if events & POLL_WRITE != 0 {
                POLL_WRITE
            } else {
                0
            }),
    {
        let read: u32 = if events & POLL_READ != 0 && self.recv_queue.len() > 0 {
            POLL_READ
        } else {
            0
        };
        let write: u32 = if events & POLL_WRITE != 0 {
            POLL_WRITE
        } else {
            0
        };
        read | write
    }
}

/// Whether a socket other than the one at `skip` speaks `protocol` and holds `portid`
/// (never for port 0).
pub open spec fn portid_used(sockets: Seq<NetlinkSocketView>, protocol: i32, portid: u32, skip: int) -> bool {
    portid != 0 && exists|j: int|
        0 <= j < sockets.len() && j != skip && #[trigger] sockets[j].protocol == protocol
            && sockets[j].portid == portid
}

/// Where port allocation starts: the preferred port, or 1 for none.
pub open spec fn portid_search_start(preferred: u32) -> u32 {
    if preferred == 0 {
        1
    } else {
        preferred
    }
}

/// Some port at or above the search start is free.
pub open spec fn has_free_portid(sockets: Seq<NetlinkSocketView>, protocol: i32, preferred: u32, skip: int) -> bool {
    exists|p: u32|
        p >= portid_search_start(preferred) && !#[trigger] portid_used(sockets, protocol, p, skip)
}

/// `p` is the port allocation gives: the first free port at or above the search start.
pub open spec fn is_allocated_portid(
    sockets: Seq<NetlinkSocketView>,
    protocol: i32,
    preferred: u32,
    skip: int,
    p: u32,
) -> bool {
    &&& p >= portid_search_start(preferred)
    &&& !portid_used(sockets, protocol, p, skip)
    &&& forall|c: u32|
        portid_search_start(preferred) <= c < p ==> #[trigger] portid_used(sockets, protocol, c, skip)
}

/// `j` is the first socket other than `skip` that speaks `protocol` and holds `portid`.
pub open spec fn is_port_owner(sockets: Seq<NetlinkSocketView>, protocol: i32, portid: u32, skip: int, j: int) -> bool {
    &&& 0 <= j < sockets.len()
    &&& j != skip
    &&& sockets[j].protocol == protocol
    &&& sockets[j].portid == portid
    &&& forall|k: int|
        0 <= k < j && k != skip ==> !(#[trigger] sockets[k].protocol == protocol && sockets[k].portid
            == portid)
}

/// The sockets after `payload` is multicast to the groups in `group_mask`: queued on
/// every socket of `protocol` in one of them, where it fits.
pub open spec fn spec_broadcast(
    sockets: Seq<NetlinkSocketView>,
    protocol: i32,
    sender_portid: u32,
    group_mask: u32,
    payload: Seq<u8>,
) -> Seq<NetlinkSocketView> {
    if group_mask == 0 {
        sockets
    } else {
        Seq::new(
            sockets.len(),
            |j: int|
                if sockets[j].protocol == protocol && sockets[j].groups & group_mask != 0 {
                    match spec_enqueue(
                        sockets[j],
                        NetlinkMessageView {
                            data: payload,
                            sender_portid,
                            sender_groups: group_mask,
                        },
                    ) {
                        Some(s) => s,
                        None => sockets[j],
                    }
                } else {
                    sockets[j]
                },
        )
    }
}

/// The sockets after the one at `at` gets a port if it has none.
pub open spec fn spec_ensure_portid(sockets: Seq<NetlinkSocketView>, at: int, p: u32) -> Seq<NetlinkSocketView> {
    if sockets[at].portid == 0 {
        sockets.update(at, NetlinkSocketView { portid: p, ..sockets[at] })
    } else {
        sockets
    }
}

/// All live netlink sockets, in the order they were made.
pub struct NetlinkSockets {
    sockets: Vec<NetlinkSocket>,
    next_handle: u64,
}

impl NetlinkSockets {
    /// The sockets, in order.
    pub closed spec fn sockets(&self) -> Seq<NetlinkSocketView> {
        self.sockets@.map_values(|s: NetlinkSocket| s@)
    }

    /// The handle the next socket gets.
    pub closed spec fn next_handle(&self) -> u64 {
        self.next_handle
    }

    /// Handles are distinct and below the next one.
    pub open spec fn wf(&self) -> bool {
        &&& forall|i: int|
            0 <= i < self.sockets().len() ==> #[trigger] self.sockets()[i].handle < self.next_handle()
        &&& forall|i: int, j: int|
            0 <= i < j < self.sockets().len() ==> self.sockets()[i].handle != self.sockets()[j].handle
    }

    /// No sockets.
    pub fn new() -> (r: Self)
        ensures
            r.wf(),
            r.sockets() == Seq::<NetlinkSocketView>::empty(),
            r.next_handle() == 1,
    {
        let r = NetlinkSockets { sockets: Vec::new(), next_handle: 1 };
        assert(r.sockets() =~= Seq::<NetlinkSocketView>::empty());
        r
    }

    /// The socket at `at`.
    pub fn socket(&self, at: usize) -> (r: &NetlinkSocket)
        requires
            at < self.sockets().len(),
        ensures
            r@ == self.sockets()[at as int],
    {
        &self.sockets[at]
    }

    /// The socket at `at`, to change.
    pub fn socket_mut(&mut self, at: usize) -> (r: &mut NetlinkSocket)
        requires
            at < old(self).sockets().len(),
        ensures
            r@ == old(self).sockets()[at as int],
            final(self).sockets() == old(self).sockets().update(at as int, final(r)@),
            final(self).next_handle() == old(self).next_handle(),
    {
        &mut self.sockets[at]
    }

    /// Makes a socket; it gets the next handle.
    pub fn shared(&mut self, protocol: i32, kind: u32, owner_pid: u32) -> (r: u64)
        requires
            old(self).wf(),
            old(self).next_handle() < u64::MAX,
        ensures
            final(self).wf(),
            r == old(self).next_handle(),
            final(self).next_handle() == old(self).next_handle() + 1,
            final(self).sockets() == old(self).sockets().push(
                NetlinkSocketView {
                    handle: r,
                    protocol,
                    kind,
                    owner_pid,
                    portid: 0,
                    groups: 0,
                    connected: None,
                    queue: Seq::empty(),
                    recv_bytes: 0,
                    passcred: false,
                    sndbuf: DEFAULT_SOCKET_BUFFER,
                    rcvbuf: DEFAULT_SOCKET_BUFFER,
                },
            ),
    {
        let handle = self.next_handle;
        let socket = NetlinkSocket::new(handle, protocol, kind, owner_pid);
        let ghost before = self.sockets@;
        self.sockets.push(socket);
        self.next_handle = handle + 1;
        assert(self.sockets@.map_values(|s: NetlinkSocket| s@) =~= before.map_values(
            |s: NetlinkSocket| s@,
        ).push(socket@));
        handle
    }

    /// Where the socket with `handle` stands, if it is live.
    pub fn position(&self, handle: u64) -> (r: Option<usize>)
        ensures
            match r {
                Some(at) => at < self.sockets().len() && self.sockets()[at as int].handle == handle
                    && forall|k: int| 0 <= k < at ==> #[trigger] self.sockets()[k].handle != handle,
                None => forall|k: int|
                    0 <= k < self.sockets().len() ==> #[trigger] self.sockets()[k].handle != handle,
            },
    {
        let mut i: usize = 0;
        while i < self.sockets.len()
            invariant
                i <= self.sockets.len(),
                forall|k: int| 0 <= k < i ==> #[trigger] self.sockets()[k].handle != handle,
            decreases self.sockets.len() - i,
        {
            assert(self.sockets()[i as int] == self.sockets@[i as int]@);
            if self.sockets[i].handle == handle {
                return Some(i);
            }
            i += 1;
        }
        None
    }

    /// Drops the socket at `at`: it is closed and leaves every port and group.
    pub fn close(&mut self, at: usize)
        requires
            old(self).wf(),
            at < old(self).sockets().len(),
        ensures
            final(self).wf(),
            final(self).next_handle() == old(self).next_handle(),
            final(self).sockets() == old(self).sockets().remove(at as int),
    {
        let ghost before = self.sockets@;
        self.sockets.remove(at);
        assert(self.sockets@.map_values(|s: NetlinkSocket| s@) =~= before.map_values(
            |s: NetlinkSocket| s@,
        ).remove(at as int));
        assert forall|i: int, j: int|
            0 <= i < j < self.sockets().len() implies self.sockets()[i].handle
            != self.sockets()[j].handle by {
            let oi = if i < at {
                i
            } else {
                i + 1
            };
            let oj = if j < at {
                j
            } else {
                j + 1
            };
            assert(self.sockets()[i] == before.map_values(|s: NetlinkSocket| s@)[oi]);
            assert(self.sockets()[j] == before.map_values(|s: NetlinkSocket| s@)[oj]);
        }
    }

    /// Whether a socket other than the one at `skip` speaks `protocol` and holds `portid`.
    pub fn portid_in_use(&self, protocol: i32, portid: u32, skip: usize) -> (r: bool)
        ensures
            r == portid_used(self.sockets(), protocol, portid, skip as int),
    {
        if portid == 0 {
            return false;
        }
        let mut i: usize = 0;
        while i < self.sockets.len()
            invariant
                i <= self.sockets.len(),
                portid != 0,
                forall|k: int|
                    0 <= k < i && k != skip ==> !(#[trigger] self.sockets()[k].protocol == protocol
                        && self.sockets()[k].portid == portid),
            decreases self.sockets.len() - i,
        {
            assert(self.sockets()[i as int] == self.sockets@[i as int]@);
            if i != skip && self.sockets[i].protocol == protocol && self.sockets[i].portid == portid {
                assert(self.sockets()[i as int].protocol == protocol);
                return true;
            }
            i += 1;
        }
        false
    }

    /// The first free port at or above the preferred one (or 1); see `is_allocated_portid`.
    pub fn allocate_portid(&self, protocol: i32, preferred: u32, skip: usize) -> (r: u32)
        requires
            has_free_portid(self.sockets(), protocol, preferred, skip as int),
        ensures
            is_allocated_portid(self.sockets(), protocol, preferred, skip as int, r),
    {
        if preferred != 0 && !self.portid_in_use(protocol, preferred, skip) {
            return preferred;
        }
        let mut candidate: u32 = if preferred > 1 {
            preferred
        } else {
            1
        };
        while self.portid_in_use(protocol, candidate, skip)
            invariant
                candidate >= portid_search_start(preferred),
                has_free_portid(self.sockets(), protocol, preferred, skip as int),
                forall|c: u32|
                    portid_search_start(preferred) <= c < candidate ==> #[trigger] portid_used(
                        self.sockets(),
                        protocol,
                        c,
                        skip as int,
                    ),
            decreases u32::MAX - candidate,
        {
            proof {
                let free = choose|p: u32|
                    p >= portid_search_start(preferred) && !#[trigger] portid_used(
                        self.sockets(),
                        protocol,
                        p,
                        skip as int,
                    );
                if free < candidate {
                    assert(portid_used(self.sockets(), protocol, free, skip as int));
                }
                assert(free != candidate);
            }
            candidate = candidate + 1;
        }
        candidate
    }

    /// The first socket other than the one at `skip` that speaks `protocol` and holds
    /// `portid`.
    pub fn lookup_portid(&self, protocol: i32, portid: u32, skip: usize) -> (r: Option<usize>)
        ensures
            match r {
                Some(j) => is_port_owner(self.sockets(), protocol, portid, skip as int, j as int),
                None => forall|k: int|
                    0 <= k < self.sockets().len() && k != skip ==> !(
                    #[trigger] self.sockets()[k].protocol == protocol && self.sockets()[k].portid
                        == portid),
            },
    {
        let mut i: usize = 0;
        while i < self.sockets.len()
            invariant
                i <= self.sockets.len(),
                forall|k: int|
                    0 <= k < i && k != skip ==> !(#[trigger] self.sockets()[k].protocol == protocol
                        && self.sockets()[k].portid == portid),
            decreases self.sockets.len() - i,
        {
            assert(self.sockets()[i as int] == self.sockets@[i as int]@);
            if i != skip && self.sockets[i].protocol == protocol && self.sockets[i].portid == portid {
                return Some(i);
            }
            i += 1;
        }
        None
    }

    /// Queues a datagram on the socket at `at`; see `NetlinkSocket::enqueue`.
    fn enqueue_at(&mut self, at: usize, message: NetlinkMessage) -> (r: Result<(), SysErr>)
        requires
            at < old(self).sockets().len(),
        ensures
            final(self).next_handle() == old(self).next_handle(),
            match spec_enqueue(old(self).sockets()[at as int], message@) {
                Some(s) => r == Ok::<(), SysErr>(()) && final(self).sockets() == old(
                    self,
                ).sockets().update(at as int, s),
                None => r == Err::<(), SysErr>(SysErr::NoBufs) && final(self).sockets() == old(
                    self,
                ).sockets(),
            },
    {
        let ghost before = self.sockets@;
        assert(self.sockets()[at as int] == self.sockets@[at as int]@);
        let r = self.sockets[at].enqueue(message);
        assert(self.sockets@.map_values(|s: NetlinkSocket| s@) =~= before.map_values(
            |s: NetlinkSocket| s@,
        ).update(at as int, self.sockets@[at as int]@));
        r
    }

    /// Multicasts `payload` from `sender_portid` to the groups in `group_mask`; see
    /// `spec_broadcast`. Returns the handles of the sockets it reached, whose readers are to
    /// be woken.
    pub fn broadcast_message(&mut self, protocol: i32, sender_portid: u32, group_mask: u32, payload: &[u8]) -> (r:
        Vec<u64>)
        ensures
            final(self).next_handle() == old(self).next_handle(),
            final(self).sockets() == spec_broadcast(
                old(self).sockets(),
                protocol,
                sender_portid,
                group_mask,
                payload@,
            ),
            r@ == broadcast_receivers(old(self).sockets(), protocol, sender_portid, group_mask, payload@),
    {
        let mut reached: Vec<u64> = Vec::new();
        if group_mask == 0 {
            proof {
                lemma_no_receivers(self.sockets(), protocol, sender_portid, group_mask, payload@);
            }
            return reached;
        }
        let ghost start = self.sockets();
        let ghost target = spec_broadcast(start, protocol, sender_portid, group_mask, payload@);
        let mut i: usize = 0;
        while i < self.sockets.len()
            invariant
                i <= self.sockets.len(),
                group_mask != 0,
                self.sockets().len() == start.len(),
                self.sockets@.len() == start.len(),
                self.next_handle() == old(self).next_handle(),
                target == spec_broadcast(start, protocol, sender_portid, group_mask, payload@),
                forall|k: int| 0 <= k < i ==> #[trigger] self.sockets()[k] == target[k],
                forall|k: int| i <= k < start.len() ==> #[trigger] self.sockets()[k] == start[k],
                reached@ == broadcast_receivers(start.take(i as int), protocol, sender_portid, group_mask, payload@),
            decreases self.sockets.len() - i,
        {
            assert(self.sockets()[i as int] == self.sockets@[i as int]@);
            proof {
                assert(start.take(i + 1).drop_last() =~= start.take(i as int));
                assert(start.take(i + 1).last() == start[i as int]);
            }
            if self.sockets[i].protocol == protocol && self.sockets[i].groups & group_mask != 0 {
                let mut data: Vec<u8> = Vec::new();
                push_bytes(&mut data, payload);
                let message = NetlinkMessage { data, sender_portid, sender_groups: group_mask };
                assert(message@.data =~= payload@);
                let handle = self.sockets[i].handle;
                assert(handle == start[i as int].handle);
                match self.enqueue_at(i, message) {
                    Ok(()) => reached.push(handle),
                    Err(_) => {},
                }
            }
            assert(self.sockets().len() == self.sockets@.len());
            i += 1;
        }
        assert(self.sockets() =~= target);
        assert(start.take(start.len() as int) =~= start);
        reached
    }

    /// Sends a kobject uevent to the uevent multicast group. Returns the handles of the
    /// sockets it reached, whose readers are to be woken.
    pub fn publish_kobject_uevent(&mut self, payload: &[u8]) -> (r: Vec<u64>)
        ensures
            r@ == broadcast_receivers(
                old(self).sockets(),
                NETLINK_KOBJECT_UEVENT,
                0,
                1u32 << ((NETLINK_KOBJECT_UEVENT_GROUP - 1) as u32),
                payload@,
            ),
            final(self).next_handle() == old(self).next_handle(),
            final(self).sockets() == spec_broadcast(
                old(self).sockets(),
                NETLINK_KOBJECT_UEVENT,
                0,
                1u32 << ((NETLINK_KOBJECT_UEVENT_GROUP - 1) as u32),
                payload@,
            ),
    {
        self.broadcast_message(
            NETLINK_KOBJECT_UEVENT,
            0,
            1u32 << (NETLINK_KOBJECT_UEVENT_GROUP - 1),
            payload,
        )
    }

    /// Gives the socket at `at` a port if it has none: the first free port at or above
    /// its owner's PID.
    pub fn ensure_portid(&mut self, at: usize) -> (r: u32)
        requires
            at < old(self).sockets().len(),
            can_get_portid(old(self).sockets(), at as int),
        ensures
            final(self).next_handle() == old(self).next_handle(),
            old(self).sockets()[at as int].portid != 0 ==> r == old(self).sockets()[at as int].portid
                && final(self).sockets() == old(self).sockets(),
            old(self).sockets()[at as int].portid == 0 ==> is_allocated_portid(
                old(self).sockets(),
                old(self).sockets()[at as int].protocol,
                old(self).sockets()[at as int].owner_pid,
                at as int,
                r,
            ) && final(self).sockets() == spec_ensure_portid(old(self).sockets(), at as int, r),
    {
        assert(self.sockets()[at as int] == self.sockets@[at as int]@);
        if self.sockets[at].portid != 0 {
            return self.sockets[at].portid;
        }
        let portid = self.allocate_portid(
            self.sockets[at].protocol,
            self.sockets[at].owner_pid,
            at,
        );
        let ghost before = self.sockets@;
        self.sockets[at].portid = portid;
        assert(self.sockets@.map_values(|s: NetlinkSocket| s@) =~= before.map_values(
            |s: NetlinkSocket| s@,
        ).update(at as int, NetlinkSocketView { portid, ..before[at as int]@ }));
        portid
    }
}


/// Where a send goes: the given address, or the connected peer (`DestAddrReq` without
/// one).
pub open spec fn spec_destination(s: NetlinkSocketView, address: Option<Seq<u8>>) -> Result<
    SockAddrNetlink,
    SysErr,
> {
    match address {
        Some(a) => spec_parse_sockaddr_netlink(a),
        None => match s.connected {
            Some(peer) => Ok(peer),
            None => Err(SysErr::DestAddrReq),
        },
    }
}

/// `p` is the port the socket at `at` sends from: its own, or the one allocated for it.
pub open spec fn sender_portid_ok(sockets: Seq<NetlinkSocketView>, at: int, p: u32) -> bool {
    if sockets[at].portid != 0 {
        p == sockets[at].portid
    } else {
        is_allocated_portid(sockets, sockets[at].protocol, sockets[at].owner_pid, at, p)
    }
}

/// The socket at `at` can get a port should it need one.
pub open spec fn can_get_portid(sockets: Seq<NetlinkSocketView>, at: int) -> bool {
    sockets[at].portid != 0 || has_free_portid(
        sockets,
        sockets[at].protocol,
        sockets[at].owner_pid,
        at,
    )
}

/// What sending `payload` from port `sender` of the socket at `at` to `dest` gives, and
/// the sockets after it: a multicast when the address names groups; nothing for port 0;
/// otherwise the datagram is queued on the port's owner (`ConnRefused` without one,
/// `NoBufs` when it does not fit).
pub open spec fn spec_send(
    sockets: Seq<NetlinkSocketView>,
    at: int,
    sender: u32,
    dest: SockAddrNetlink,
    payload: Seq<u8>,
) -> (Result<usize, SysErr>, Seq<NetlinkSocketView>) {
    let protocol = sockets[at].protocol;
    if dest.groups != 0 {
        (Ok(payload.len() as usize), spec_broadcast(sockets, protocol, sender, dest.groups, payload))
    } else if dest.portid == 0 {
        (Ok(payload.len() as usize), sockets)
    } else if exists|j: int| is_port_owner(sockets, protocol, dest.portid, at, j) {
        let j = choose|j: int| is_port_owner(sockets, protocol, dest.portid, at, j);
        match spec_enqueue(
            sockets[j],
            NetlinkMessageView { data: payload, sender_portid: sender, sender_groups: 0 },
        ) {
            Some(n) => (Ok(payload.len() as usize), sockets.update(j, n)),
            None => (Err(SysErr::NoBufs), sockets),
        }
    } else {
        (Err(SysErr::ConnRefused), sockets)
    }
}

/// The first port owner is unique.
proof fn lemma_port_owner_unique(
    sockets: Seq<NetlinkSocketView>,
    protocol: i32,
    portid: u32,
    skip: int,
    j: int,
    k: int,
)
    requires
        is_port_owner(sockets, protocol, portid, skip, j),
        is_port_owner(sockets, protocol, portid, skip, k),
    ensures
        j == k,
{
    if j < k {
        assert(!(sockets[j].protocol == protocol && sockets[j].portid == portid));
    } else if k < j {
        assert(!(sockets[k].protocol == protocol && sockets[k].portid == portid));
    }
}

impl NetlinkSockets {
    /// `connect`: remembers the peer (a multicast address is `Inval`) and gives the socket
    /// a port if it has none.
    pub fn connect(&mut self, at: usize, address: &[u8]) -> (r: Result<(), SysErr>)
        requires
            at < old(self).sockets().len(),
            can_get_portid(old(self).sockets(), at as int),
        ensures
            final(self).next_handle() == old(self).next_handle(),
            match spec_parse_sockaddr_netlink(address@) {
                Err(e) => r == Err::<(), SysErr>(e) && final(self).sockets() == old(self).sockets(),
                Ok(a) => if a.groups != 0 {
                    r == Err::<(), SysErr>(SysErr::Inval) && final(self).sockets() == old(
                        self,
                    ).sockets()
                } else {
                    r == Ok::<(), SysErr>(()) && exists|p: u32|
                        sender_portid_ok(old(self).sockets(), at as int, p) && final(self).sockets()
                            == spec_ensure_portid(
                            old(self).sockets().update(
                                at as int,
                                NetlinkSocketView {
                                    connected: Some(a),
                                    ..old(self).sockets()[at as int]
                                },
                            ),
                            at as int,
                            p,
                        )
                },
            },
    {
        let address = match SockAddrNetlink::parse(address) {
            Ok(a) => a,
            Err(e) => return Err(e),
        };
        if address.groups != 0 {
            return Err(SysErr::Inval);
        }
        let ghost s0 = self.sockets();
        let ghost before = self.sockets@;
        assert(self.sockets()[at as int] == self.sockets@[at as int]@);
        self.sockets[at].connected = Some(address);
        let ghost s_connected = s0.update(
            at as int,
            NetlinkSocketView { connected: Some(address), ..s0[at as int] },
        );
        assert(self.sockets() =~= s_connected);
        assert forall|c: u32|
            #[trigger] portid_used(s_connected, s0[at as int].protocol, c, at as int) == portid_used(
                s0,
                s0[at as int].protocol,
                c,
                at as int,
            ) by {
            let protocol = s0[at as int].protocol;
            if portid_used(s0, protocol, c, at as int) {
                let j = choose|j: int|
                    0 <= j < s0.len() && j != at && #[trigger] s0[j].protocol == protocol
                        && s0[j].portid == c;
                assert(s_connected[j] == s0[j]);
            }
            if portid_used(s_connected, protocol, c, at as int) {
                let j = choose|j: int|
                    0 <= j < s_connected.len() && j != at && #[trigger] s_connected[j].protocol
                        == protocol && s_connected[j].portid == c;
                assert(s_connected[j] == s0[j]);
            }
        }
        if self.sockets[at].portid == 0 {
            assert(has_free_portid(s_connected, s0[at as int].protocol, s0[at as int].owner_pid, at as int)) by {
                let free = choose|p: u32|
                    p >= portid_search_start(s0[at as int].owner_pid) && !#[trigger] portid_used(
                        s0,
                        s0[at as int].protocol,
                        p,
                        at as int,
                    );
                assert(!portid_used(s_connected, s0[at as int].protocol, free, at as int));
            }
        }
        let p = self.ensure_portid(at);
        proof {
            let protocol = s0[at as int].protocol;
            if s0[at as int].portid == 0 {
                assert(!portid_used(s_connected, protocol, p, at as int));
                assert(!portid_used(s0, protocol, p, at as int));
                assert forall|c: u32|
                    portid_search_start(s0[at as int].owner_pid) <= c < p implies #[trigger] portid_used(
                        s0,
                        protocol,
                        c,
                        at as int,
                    ) by {
                    assert(portid_used(s_connected, protocol, c, at as int));
                }
            }
        }
        assert(sender_portid_ok(s0, at as int, p));
        Ok(())
    }

    /// `bind`: takes the given port (`AddrInUse` when another socket of the protocol holds
    /// it) or, for port 0, the first free one at or above the owner's PID, and the given
    /// groups.
    pub fn bind(&mut self, at: usize, address: &[u8]) -> (r: Result<(), SysErr>)
        requires
            at < old(self).sockets().len(),
            (spec_parse_sockaddr_netlink(address@) matches Ok(a) && a.portid == 0) ==> has_free_portid(
                old(self).sockets(),
                old(self).sockets()[at as int].protocol,
                old(self).sockets()[at as int].owner_pid,
                at as int,
            ),
        ensures
            final(self).next_handle() == old(self).next_handle(),
            match spec_parse_sockaddr_netlink(address@) {
                Err(e) => r == Err::<(), SysErr>(e) && final(self).sockets() == old(self).sockets(),
                Ok(a) => if a.portid != 0 && portid_used(
                    old(self).sockets(),
                    old(self).sockets()[at as int].protocol,
                    a.portid,
                    at as int,
                ) {
                    r == Err::<(), SysErr>(SysErr::AddrInUse) && final(self).sockets() == old(
                        self,
                    ).sockets()
                } else {
                    &&& r == Ok::<(), SysErr>(())
                    &&& final(self).sockets() == old(self).sockets().update(
                        at as int,
                        NetlinkSocketView {
                            portid: final(self).sockets()[at as int].portid,
                            groups: a.groups,
                            ..old(self).sockets()[at as int]
                        },
                    )
                    &&& a.portid != 0 ==> final(self).sockets()[at as int].portid == a.portid
                    &&& a.portid == 0 ==> is_allocated_portid(
                        old(self).sockets(),
                        old(self).sockets()[at as int].protocol,
                        old(self).sockets()[at as int].owner_pid,
                        at as int,
                        final(self).sockets()[at as int].portid,
                    )
                },
            },
    {
        let address = match SockAddrNetlink::parse(address) {
            Ok(a) => a,
            Err(e) => return Err(e),
        };
        assert(self.sockets()[at as int] == self.sockets@[at as int]@);
        let protocol = self.sockets[at].protocol;
        let portid = if address.portid == 0 {
            self.allocate_portid(protocol, self.sockets[at].owner_pid, at)
        } else {
            if self.portid_in_use(protocol, address.portid, at) {
                return Err(SysErr::AddrInUse);
            }
            address.portid
        };
        let ghost before = self.sockets@;
        let ghost s0 = self.sockets();
        self.sockets[at].portid = portid;
        self.sockets[at].groups = address.groups;
        assert(self.sockets@.map_values(|s: NetlinkSocket| s@) =~= before.map_values(
            |s: NetlinkSocket| s@,
        ).update(
            at as int,
            NetlinkSocketView { portid, groups: address.groups, ..before[at as int]@ },
        ));
        assert(self.sockets() == s0.update(
            at as int,
            NetlinkSocketView { portid, groups: address.groups, ..s0[at as int] },
        ));
        assert(if address.portid == 0 {
            is_allocated_portid(s0, s0[at as int].protocol, s0[at as int].owner_pid, at as int, portid)
        } else {
            portid == address.portid
        });
        Ok(())
    }

    /// `sendto`: see `spec_destination` and `spec_send`; the socket gets a port first if
    /// it has none.
    pub fn send_to(&mut self, at: usize, buffer: &[u8], address: Option<&[u8]>) -> (r: Result<
        usize,
        SysErr,
    >)
        requires
            at < old(self).sockets().len(),
            spec_destination(
                old(self).sockets()[at as int],
                match address {
                    Some(a) => Some(a@),
                    None => None,
                },
            ) is Ok ==> can_get_portid(old(self).sockets(), at as int),
        ensures
            final(self).next_handle() == old(self).next_handle(),
            match spec_destination(
                old(self).sockets()[at as int],
                match address {
                    Some(a) => Some(a@),
                    None => None,
                },
            ) {
                Err(e) => r == Err::<usize, SysErr>(e) && final(self).sockets() == old(
                    self,
                ).sockets(),
                Ok(dest) => exists|p: u32|
                    sender_portid_ok(old(self).sockets(), at as int, p) && (r, final(self).sockets())
                        == spec_send(
                        spec_ensure_portid(old(self).sockets(), at as int, p),
                        at as int,
                        p,
                        dest,
                        buffer@,
                    ),
            },
    {
        assert(self.sockets()[at as int] == self.sockets@[at as int]@);
        let destination = match address {
            Some(bytes) => match SockAddrNetlink::parse(bytes) {
                Ok(a) => a,
                Err(e) => return Err(e),
            },
            None => match self.sockets[at].connected {
                Some(peer) => peer,
                None => return Err(SysErr::DestAddrReq),
            },
        };
        let ghost s0 = self.sockets();
        let sender = self.ensure_portid(at);
        let ghost s1 = self.sockets();
        assert(sender_portid_ok(s0, at as int, sender));
        assert(s1 == spec_ensure_portid(s0, at as int, sender));
        assert(s1[at as int].protocol == s0[at as int].protocol);
        assert(self.sockets()[at as int] == self.sockets@[at as int]@);
        let protocol = self.sockets[at].protocol;
        if destination.groups != 0 {
            let _ = self.broadcast_message(protocol, sender, destination.groups, buffer);
            return Ok(buffer.len());
        }
        if destination.portid == 0 {
            return Ok(buffer.len());
        }
        match self.lookup_portid(protocol, destination.portid, at) {
            None => {
                assert(!exists|j: int| is_port_owner(s1, protocol, destination.portid, at as int, j));
                Err(SysErr::ConnRefused)
            },
            Some(j) => {
                proof {
                    assert forall|k: int| is_port_owner(s1, protocol, destination.portid, at as int, k) implies k
                        == j by {
                        lemma_port_owner_unique(s1, protocol, destination.portid, at as int, j as int, k);
                    }
                }
                let mut data: Vec<u8> = Vec::new();
                push_bytes(&mut data, buffer);
                let message = NetlinkMessage { data, sender_portid: sender, sender_groups: 0 };
                assert(message@.data =~= buffer@);
                match self.enqueue_at(j, message) {
                    Ok(()) => Ok(buffer.len()),
                    Err(e) => Err(e),
                }
            },
        }
    }

    /// `write`: `send_to` the connected peer, with its errors as filesystem errors.
    pub fn write(&mut self, at: usize, buffer: &[u8]) -> (r: Result<usize, FsError>)
        requires
            at < old(self).sockets().len(),
            spec_destination(old(self).sockets()[at as int], None) is Ok ==> can_get_portid(
                old(self).sockets(),
                at as int,
            ),
        ensures
            final(self).next_handle() == old(self).next_handle(),
            match spec_destination(old(self).sockets()[at as int], None) {
                Err(e) => r == Err::<usize, FsError>(FsError::Unsupported) && final(self).sockets()
                    == old(self).sockets(),
                Ok(dest) => exists|p: u32|
                    sender_portid_ok(old(self).sockets(), at as int, p) && {
                        let (sent, after) = spec_send(
                            spec_ensure_portid(old(self).sockets(), at as int, p),
                            at as int,
                            p,
                            dest,
                            buffer@,
                        );
                        &&& final(self).sockets() == after
                        &&& r == match sent {
                            Ok(n) => Ok::<usize, FsError>(n),
                            Err(SysErr::Again) => Err(FsError::WouldBlock),
                            Err(SysErr::Pipe) => Err(FsError::BrokenPipe),
                            Err(_) => Err(FsError::Unsupported),
                        }
                    },
            },
    {
        match self.send_to(at, buffer, None) {
            Ok(written) => Ok(written),
            Err(SysErr::Again) => Err(FsError::WouldBlock),
            Err(SysErr::Pipe) => Err(FsError::BrokenPipe),
            Err(_) => Err(FsError::Unsupported),
        }
    }
}


/// An allocated port is held by no other socket of the protocol, and a free preferred
/// port (the owner's PID) is taken as it is.
pub proof fn lemma_allocated_portid_unique(
    sockets: Seq<NetlinkSocketView>,
    protocol: i32,
    preferred: u32,
    skip: int,
    p: u32,
)
    requires
        is_allocated_portid(sockets, protocol, preferred, skip, p),
    ensures
        p != 0,
        forall|j: int|
            0 <= j < sockets.len() && j != skip && #[trigger] sockets[j].protocol == protocol
                ==> sockets[j].portid != p,
        preferred != 0 && !portid_used(sockets, protocol, preferred, skip) ==> p == preferred,
{
    if preferred != 0 && !portid_used(sockets, protocol, preferred, skip) && p != preferred {
        assert(portid_used(sockets, protocol, preferred, skip));
    }
}

} // verus!
