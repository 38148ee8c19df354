//! Sockets: the `socket(2)` type word, socket options at `SOL_SOCKET`, and the registry
//! of address families that can create sockets.
use vstd::prelude::*;
use std::collections::HashMap;

use crate::errno::SysErr;
use crate::fs::fd::OpenFlags;
use crate::wire::{i32_le, push_i32, push_u64, u64_le};

pub mod netlink;
pub mod unix;

verus! {

broadcast use vstd::std_specs::hash::group_hash_axioms;

pub const SOL_SOCKET: i32 = 1;
pub const SO_TYPE: i32 = 3;
pub const SO_ERROR: i32 = 4;
pub const SO_SNDBUF: i32 = 7;
pub const SO_RCVBUF: i32 = 8;
pub const SO_PASSCRED: i32 = 16;
pub const SO_PEERCRED: i32 = 17;
pub const SO_ACCEPTCONN: i32 = 30;
pub const SO_SNDBUFFORCE: i32 = 32;
pub const SO_RCVBUFFORCE: i32 = 33;
pub const SO_PROTOCOL: i32 = 38;
pub const SO_DOMAIN: i32 = 39;
pub const SCM_RIGHTS: i32 = 1;
pub const SCM_CREDENTIALS: i32 = 2;

pub const SOCK_TYPE_MASK: u64 = 0xf;
pub const SOCK_NONBLOCK: u64 = 0o0004000;
pub const SOCK_CLOEXEC: u64 = 0o2000000;

/// The type word of `socket(2)`: the kind in the low four bits, and the `SOCK_NONBLOCK`
/// and `SOCK_CLOEXEC` flags.
#[derive(Debug, Clone, Copy, PartialEq, Eq, Structural)]
pub struct SocketType {
    kind: u32,
    nonblock: bool,
    cloexec: bool,
}

/// The kinds of socket there are: stream, datagram, raw, RDM, seqpacket, DCCP, packet.
pub open spec fn known_socket_kind(kind: u64) -> bool {
    kind == 1 || kind == 2 || kind == 3 || kind == 4 || kind == 5 || kind == 6 || kind == 10
}

impl SocketType {
    pub closed spec fn spec_kind(self) -> u32 {
        self.kind
    }

    pub closed spec fn spec_nonblock(self) -> bool {
        self.nonblock
    }

    pub closed spec fn spec_cloexec(self) -> bool {
        self.cloexec
    }

    /// Parses a type word: `Inval` for bits other than the kind and the two flags, or
    /// for an unknown kind.
    pub fn parse(raw: u64) -> (r: Result<Self, SysErr>)
        ensures
            raw & !(SOCK_TYPE_MASK | SOCK_NONBLOCK | SOCK_CLOEXEC) != 0 ==> r == Err::<
                Self,
                SysErr,
            >(SysErr::Inval),
            raw & !(SOCK_TYPE_MASK | SOCK_NONBLOCK | SOCK_CLOEXEC) == 0 && !known_socket_kind(
                raw & SOCK_TYPE_MASK,
            ) ==> r == Err::<Self, SysErr>(SysErr::Inval),
            raw & !(SOCK_TYPE_MASK | SOCK_NONBLOCK | SOCK_CLOEXEC) == 0 && known_socket_kind(
                raw & SOCK_TYPE_MASK,
            ) ==> (r matches Ok(t) && t.spec_kind() == raw & SOCK_TYPE_MASK && t.spec_nonblock()
                == (raw & SOCK_NONBLOCK != 0) && t.spec_cloexec() == (raw & SOCK_CLOEXEC != 0)),
    {
        let extra = raw & !(SOCK_TYPE_MASK | SOCK_NONBLOCK | SOCK_CLOEXEC);
        if extra != 0 {
            return Err(SysErr::Inval);
        }
        let k = raw & SOCK_TYPE_MASK;
        assert(k <= 15) by (bit_vector)
            requires
                k == raw & 0xf,
        ;
        if !(k == 1 || k == 2 || k == 3 || k == 4 || k == 5 || k == 6 || k == 10) {
            return Err(SysErr::Inval);
        }
        Ok(
            SocketType {
                kind: k as u32,
                nonblock: (raw & SOCK_NONBLOCK) != 0,
                cloexec: (raw & SOCK_CLOEXEC) != 0,
            },
        )
    }

    /// The kind of socket.
    pub fn kind(self) -> (r: u32)
        ensures
            r == self.spec_kind(),
    {
        self.kind
    }

    /// Whether the socket was asked for non-blocking.
    pub fn nonblock(self) -> (r: bool)
        ensures
            r == self.spec_nonblock(),
    {
        self.nonblock
    }

    /// Whether the descriptor was asked for close-on-exec.
    pub fn cloexec(self) -> (r: bool)
        ensures
            r == self.spec_cloexec(),
    {
        self.cloexec
    }
}

/// Who is on the other end of a socket.
#[derive(Debug, Clone, Copy, PartialEq, Eq, Structural)]
pub struct SocketCredentials {
    pub pid: u32,
    pub uid: u32,
    pub gid: u32,
}

impl SocketCredentials {
    /// The credentials of process `pid` with user `uid` and group `gid`.
    pub fn new(pid: u32, uid: u32, gid: u32) -> (r: Self)
        ensures
            r == (SocketCredentials { pid, uid, gid }),
    {
        SocketCredentials { pid, uid, gid }
    }
}

/// An integer socket option as `getsockopt` returns it: its native bytes.
pub fn encode_sockopt_i32(value: i32) -> (r: Vec<u8>)
    ensures
        r@ == i32_le(value),
{
    let mut bytes: Vec<u8> = Vec::new();
    push_i32(&mut bytes, value);
    assert(bytes@ =~= i32_le(value));
    bytes
}

/// The `SOL_SOCKET` options every socket answers: its type, no pending error, whether
/// it listens, its protocol and its family. Anything else is `NoProtoOpt`.
pub open spec fn spec_sol_socket_option(
    optname: i32,
    socket_type: u32,
    listening: bool,
    protocol: i32,
    domain: i32,
) -> Result<Seq<u8>, SysErr> {
    if optname == SO_TYPE {
        Ok(i32_le(socket_type as i32))
    } else if optname == SO_ERROR {
        Ok(i32_le(0))
    } else if optname == SO_ACCEPTCONN {
        Ok(i32_le(if listening { 1 } else { 0 }))
    } else if optname == SO_PROTOCOL {
        Ok(i32_le(protocol))
    } else if optname == SO_DOMAIN {
        Ok(i32_le(domain))
    } else {
        Err(SysErr::NoProtoOpt)
    }
}

/// Answers a `SOL_SOCKET` option from what every socket knows of itself; see
/// `spec_sol_socket_option`.
pub fn getsockopt_sol_socket(
    optname: i32,
    socket_type: u32,
    listening: bool,
    protocol: i32,
    domain: i32,
) -> (r: Result<Vec<u8>, SysErr>)
    ensures
        match (r, spec_sol_socket_option(optname, socket_type, listening, protocol, domain)) {
            (Ok(v), Ok(s)) => v@ == s,
            (Err(e), Err(se)) => e == se,
            _ => false,
        },
{
    if optname == SO_TYPE {
        Ok(encode_sockopt_i32(socket_type as i32))
    } else if optname == SO_ERROR {
        Ok(encode_sockopt_i32(0))
    } else if optname == SO_ACCEPTCONN {
        Ok(
            encode_sockopt_i32(
                if listening {
                    1
                } else {
                    0
                },
            ),
        )
    } else if optname == SO_PROTOCOL {
        Ok(encode_sockopt_i32(protocol))
    } else if optname == SO_DOMAIN {
        Ok(encode_sockopt_i32(domain))
    } else {
        Err(SysErr::NoProtoOpt)
    }
}

/// The address families that can create sockets here.
#[derive(Debug, Clone, Copy, PartialEq, Eq, Structural)]
pub enum SocketFamily {
    Unix,
    Netlink,
}

/// Which family creates the sockets of each domain number.
pub struct SocketDomainRegistry {
    entries: HashMap<i32, SocketFamily>,
}

impl SocketDomainRegistry {
    /// The families, by domain number.
    pub closed spec fn families(&self) -> Map<i32, SocketFamily> {
        self.entries@
    }

    /// No families.
    pub fn new() -> (r: Self)
        ensures
            r.families() == Map::<i32, SocketFamily>::empty(),
    {
        SocketDomainRegistry { entries: HashMap::new() }
    }

    /// Lets `family` create the sockets of `domain`, in place of any before it.
    pub fn register(&mut self, domain: i32, family: SocketFamily)
        ensures
            final(self).families() == old(self).families().insert(domain, family),
    {
        self.entries.insert(domain, family);
    }

    /// The family of `domain`, if one is registered.
    pub fn get(&self, domain: i32) -> (r: Option<SocketFamily>)
        ensures
            r == (if self.families().contains_key(domain) {
                Some(self.families()[domain])
            } else {
                None
            }),
    {
        match self.entries.get(&domain) {
            Some(f) => Some(*f),
            None => None,
        }
    }
}

/// Registers the families of this kernel: local (`AF_UNIX`) and netlink sockets.
pub fn init(registry: &mut SocketDomainRegistry)
    ensures
        final(registry).families() == old(registry).families().insert(
            unix::AF_UNIX,
            SocketFamily::Unix,
        ).insert(netlink::AF_NETLINK, SocketFamily::Netlink),
{
    unix::init(registry);
    netlink::init(registry);
}

/// Whether `family` creates a socket of `socket_type` and `protocol`: local sockets take
/// protocol 0 and stream, datagram or seqpacket; netlink sockets take the kobject-uevent
/// protocol and datagram or raw.
pub open spec fn spec_check_create(family: SocketFamily, kind: u32, protocol: i32) -> Result<(), SysErr> {
    match family {
        SocketFamily::Unix => if protocol != 0 {
            Err(SysErr::ProtoNoSupport)
        } else if kind == unix::SOCK_STREAM || kind == unix::SOCK_DGRAM || kind
            == unix::SOCK_SEQPACKET {
            Ok(())
        } else {
            Err(SysErr::ProtoNoSupport)
        },
        SocketFamily::Netlink => if protocol != netlink::NETLINK_KOBJECT_UEVENT {
            Err(SysErr::ProtoNoSupport)
        } else if kind == netlink::SOCK_DGRAM || kind == netlink::SOCK_RAW {
            Ok(())
        } else {
            Err(SysErr::SockTNoSupport)
        },
    }
}

/// What `socket(2)` decides before a socket is made: the type word is parsed, the domain
/// must be registered (`AfNoSupport`), and its family must take the kind and protocol.
pub fn create_socket_check(registry: &SocketDomainRegistry, domain: i32, raw_type: u64, protocol: i32) -> (r: Result<(SocketFamily, SocketType), SysErr>)
    ensures
        r matches Ok((f, t)) ==> (registry.families().contains_key(domain)
            && registry.families()[domain] == f && spec_check_create(f, t.spec_kind(), protocol) is Ok
            && t.spec_kind() == raw_type & SOCK_TYPE_MASK && t.spec_nonblock() == (raw_type
            & SOCK_NONBLOCK != 0) && t.spec_cloexec() == (raw_type & SOCK_CLOEXEC != 0)),
        raw_type & !(SOCK_TYPE_MASK | SOCK_NONBLOCK | SOCK_CLOEXEC) != 0 || !known_socket_kind(
            raw_type & SOCK_TYPE_MASK,
        ) ==> r == Err::<(SocketFamily, SocketType), SysErr>(SysErr::Inval),
        raw_type & !(SOCK_TYPE_MASK | SOCK_NONBLOCK | SOCK_CLOEXEC) == 0 && known_socket_kind(
            raw_type & SOCK_TYPE_MASK,
        ) && !registry.families().contains_key(domain) ==> r == Err::<
            (SocketFamily, SocketType),
            SysErr,
        >(SysErr::AfNoSupport),
        raw_type & !(SOCK_TYPE_MASK | SOCK_NONBLOCK | SOCK_CLOEXEC) == 0 && known_socket_kind(
            raw_type & SOCK_TYPE_MASK,
        ) && registry.families().contains_key(domain) ==> match spec_check_create(
            registry.families()[domain],
            (raw_type & SOCK_TYPE_MASK) as u32,
            protocol,
        ) {
            Ok(_) => r is Ok,
            Err(e) => r == Err::<(SocketFamily, SocketType), SysErr>(e),
        },
{
    let socket_type = match SocketType::parse(raw_type) {
        Ok(t) => t,
        Err(e) => return Err(e),
    };
    let family = match registry.get(domain) {
        Some(f) => f,
        None => return Err(SysErr::AfNoSupport),
    };
    let kind = socket_type.kind();
    let checked = match family {
        SocketFamily::Unix => if protocol != 0 {
            Err(SysErr::ProtoNoSupport)
        } else if kind == unix::SOCK_STREAM || kind == unix::SOCK_DGRAM || kind
            == unix::SOCK_SEQPACKET {
            Ok(())
        } else {
            Err(SysErr::ProtoNoSupport)
        },
        SocketFamily::Netlink => if protocol != netlink::NETLINK_KOBJECT_UEVENT {
            Err(SysErr::ProtoNoSupport)
        } else if kind == netlink::SOCK_DGRAM || kind == netlink::SOCK_RAW {
            Ok(())
        } else {
            Err(SysErr::SockTNoSupport)
        },
    };
    match checked {
        Ok(()) => Ok((family, socket_type)),
        Err(e) => Err(e),
    }
}

/// The length of a control-message header: its length word, level and type.
pub const CMSG_HEADER_LEN: usize = 16;

/// `len` rounded up to the word size (8).
pub open spec fn spec_cmsg_align(len: int) -> int {
    if len % 8 == 0 {
        len
    } else {
        len + (8 - len % 8)
    }
}

/// `len` rounded up to the word size.
pub fn cmsg_align(len: usize) -> (r: usize)
    requires
        len + 7 <= usize::MAX,
    ensures
        r == spec_cmsg_align(len as int),
{
    let s = len + 7;
    let r = s & !7usize;
    assert(r == s - s % 8) by (bit_vector)
        requires
            r == s & !7usize,
    ;
    r
}

/// The `cmsg_len` of a control message with `data_len` bytes of data.
pub fn cmsg_len(data_len: usize) -> (r: usize)
    requires
        data_len + CMSG_HEADER_LEN <= usize::MAX,
    ensures
        r == CMSG_HEADER_LEN + data_len,
{
    CMSG_HEADER_LEN + data_len
}

/// The space a control message with `data_len` bytes of data takes, padding included.
pub fn cmsg_space(data_len: usize) -> (r: usize)
    requires
        data_len + CMSG_HEADER_LEN + 7 <= usize::MAX,
    ensures
        r == spec_cmsg_align(CMSG_HEADER_LEN + data_len),
{
    cmsg_align(cmsg_len(data_len))
}

/// A control message: its length word (header and data), level and type, the data, and
/// zero padding to the word size.
pub open spec fn cmsg_bytes(level: i32, kind: i32, payload: Seq<u8>) -> Seq<u8> {
    let used = CMSG_HEADER_LEN + payload.len();
    u64_le(used as u64) + i32_le(level) + i32_le(kind) + payload + Seq::new(
        (spec_cmsg_align(used) - used) as nat,
        |i: int| 0u8,
    )
}

/// Encodes a control message of `level` and `kind` with `payload`.
pub fn serialize_cmsg(level: i32, kind: i32, payload: &[u8]) -> (r: Vec<u8>)
    requires
        payload@.len() + CMSG_HEADER_LEN + 7 <= usize::MAX,
    ensures
        r@ == cmsg_bytes(level, kind, payload@),
        r@.len() == spec_cmsg_align(CMSG_HEADER_LEN + payload@.len()),
{
    let used = cmsg_len(payload.len());
    let total = cmsg_space(payload.len());
    let mut bytes: Vec<u8> = Vec::new();
    push_u64(&mut bytes, used as u64);
    push_i32(&mut bytes, level);
    push_i32(&mut bytes, kind);
    crate::wire::push_bytes(&mut bytes, payload);
    let ghost body = bytes@;
    assert(body.len() == used);
    let mut k: usize = used;
    while k < total
        invariant
            used <= k <= total,
            bytes@ == body + Seq::new((k - used) as nat, |i: int| 0u8),
        decreases total - k,
    {
        bytes.push(0);
        k = k + 1;
        assert(bytes@ =~= body + Seq::new((k - used) as nat, |i: int| 0u8));
    }
    assert(bytes@ =~= cmsg_bytes(level, kind, payload@));
    bytes
}

/// The flags `accept4` takes.
pub const ACCEPT4_FLAGS_MASK: u64 = SOCK_NONBLOCK | SOCK_CLOEXEC;

/// The open-file flags and close-on-exec of an accepted socket: `Inval` for flags other
/// than `SOCK_NONBLOCK` and `SOCK_CLOEXEC`; the socket reads and writes.
pub fn parse_accept4_flags(flags: u64) -> (r: Result<(OpenFlags, bool), SysErr>)
    ensures
        flags & !ACCEPT4_FLAGS_MASK != 0 ==> r == Err::<(OpenFlags, bool), SysErr>(SysErr::Inval),
        flags & !ACCEPT4_FLAGS_MASK == 0 ==> r == Ok::<(OpenFlags, bool), SysErr>(
            (
                OpenFlags {
                    read: true,
                    write: true,
                    append: false,
                    nonblock: flags & SOCK_NONBLOCK != 0,
                    directory: false,
                },
                flags & SOCK_CLOEXEC != 0,
            ),
        ),
{
    if (flags & !ACCEPT4_FLAGS_MASK) != 0 {
        return Err(SysErr::Inval);
    }
    Ok(
        (
            OpenFlags {
                read: true,
                write: true,
                append: false,
                nonblock: (flags & SOCK_NONBLOCK) != 0,
                directory: false,
            },
            (flags & SOCK_CLOEXEC) != 0,
        ),
    )
}

} // verus!
