//! Local (`AF_UNIX`) sockets: addresses, queues, connections and their options.
use vstd::prelude::*;

use super::{
    encode_sockopt_i32, getsockopt_sol_socket, spec_sol_socket_option, SocketCredentials,
    SocketDomainRegistry, SocketFamily, SOL_SOCKET, SO_PASSCRED, SO_PEERCRED, SO_RCVBUF,
    SO_RCVBUFFORCE, SO_SNDBUF, SO_SNDBUFFORCE,
};
use crate::errno::SysErr;
use crate::fs::poll::{POLL_ERROR, POLL_READ, POLL_WRITE};
use crate::fs::error::FsError;
use crate::text::{bytes_equal, utf8_string};
use crate::wire::{
    i32_le, le_i32_at, le_u16_at, lemma_u16_roundtrip, push_bytes, push_i32, push_u16, push_u32,
    read_i32_at, read_u16_at, u16_le, u32_le,
};

verus! {

pub const AF_UNIX: i32 = 1;
pub const SOCK_STREAM: u32 = 1;
pub const SOCK_DGRAM: u32 = 2;
pub const SOCK_SEQPACKET: u32 = 5;

/// Registers local sockets for `AF_UNIX`.
pub fn init(registry: &mut SocketDomainRegistry)
    ensures
        final(registry).families() == old(registry).families().insert(AF_UNIX, SocketFamily::Unix),
{
    registry.register(AF_UNIX, SocketFamily::Unix);
}

/// A bound local address: a path (without its NUL) or an abstract name (with its
/// leading NUL).
pub struct UnixAddress {
    pub key: Vec<u8>,
    pub abstract_namespace: bool,
}

/// Whether `i` is the first NUL byte of `s`.
pub open spec fn first_nul_at(s: Seq<u8>, i: int) -> bool {
    0 <= i < s.len() && s[i] == 0 && forall|j: int| 0 <= j < i ==> s[j] != 0
}

/// The bytes of `s` before its first NUL, all of `s` when it has none.
pub open spec fn up_to_nul(s: Seq<u8>) -> Seq<u8> {
    if exists|i: int| first_nul_at(s, i) {
        s.take(choose|i: int| first_nul_at(s, i))
    } else {
        s
    }
}

/// The address a `sockaddr_un` of `raw` names: `Inval` when it is too short or names
/// nothing, `AfNoSupport` for another family; a path starting with NUL is abstract and
/// kept whole, else it ends at its first NUL.
pub open spec fn spec_unix_address(raw: Seq<u8>) -> Result<(Seq<u8>, bool), SysErr> {
    if raw.len() < 2 {
        Err(SysErr::Inval)
    } else if le_u16_at(raw, 0) != AF_UNIX as u16 {
        Err(SysErr::AfNoSupport)
    } else if raw.len() == 2 {
        Err(SysErr::Inval)
    } else if raw[2] == 0 {
        Ok((raw.skip(2), true))
    } else {
        Ok((up_to_nul(raw.skip(2)), false))
    }
}

/// The bytes of a local address: family, key, and a NUL after a path.
pub open spec fn unix_address_bytes(key: Seq<u8>, abstract_namespace: bool) -> Seq<u8> {
    u16_le(AF_UNIX as u16) + key + if abstract_namespace {
        Seq::empty()
    } else {
        seq![0u8]
    }
}

impl UnixAddress {
    /// Reads a `sockaddr_un`; see `spec_unix_address`.
    pub fn from_raw(address: &[u8]) -> (r: Result<Self, SysErr>)
        ensures
            match (r, spec_unix_address(address@)) {
                (Ok(a), Ok((key, abs))) => a.key@ == key && a.abstract_namespace == abs,
                (Err(e), Err(se)) => e == se,
                _ => false,
            },
    {
        if address.len() < 2 {
            return Err(SysErr::Inval);
        }
        let family = read_u16_at(address, 0);
        if family != AF_UNIX as u16 {
            return Err(SysErr::AfNoSupport);
        }
        if address.len() == 2 {
            return Err(SysErr::Inval);
        }
        let ghost path = address@.skip(2);
        if address[2] == 0 {
            let mut key: Vec<u8> = Vec::new();
            let mut j: usize = 2;
            while j < address.len()
                invariant
                    2 <= j <= address@.len(),
                    key@ == address@.subrange(2, j as int),
                decreases address@.len() - j,
            {
                key.push(address[j]);
                j = j + 1;
                assert(key@ =~= address@.subrange(2, j as int));
            }
            assert(key@ =~= path);
            return Ok(UnixAddress { key, abstract_namespace: true });
        }
        let mut key: Vec<u8> = Vec::new();
        let mut j: usize = 2;
        while j < address.len() && address[j] != 0
            invariant
                2 <= j <= address@.len(),
                key@ == address@.subrange(2, j as int),
                forall|k: int| 2 <= k < j ==> address@[k] != 0,
            decreases address@.len() - j,
        {
            key.push(address[j]);
            j = j + 1;
            assert(key@ =~= address@.subrange(2, j as int));
        }
        proof {
            let e = j - 2;
            assert(key@ =~= path.take(e));
            if j < address.len() {
                assert(first_nul_at(path, e));
                let c = choose|i: int| first_nul_at(path, i);
                if c < e {
                    assert(path[c] != 0);
                } else if c > e {
                    assert(path[e] != 0);
                }
            } else {
                assert(!exists|i: int| first_nul_at(path, i));
                assert(path.take(e) =~= path);
            }
        }
        Ok(UnixAddress { key, abstract_namespace: false })
    }

    /// The bytes of the address; see `unix_address_bytes`.
    pub fn serialize(&self) -> (r: Vec<u8>)
        ensures
            r@ == unix_address_bytes(self.key@, self.abstract_namespace),
    {
        let mut bytes: Vec<u8> = Vec::new();
        push_u16(&mut bytes, AF_UNIX as u16);
        let mut j: usize = 0;
        while j < self.key.len()
            invariant
                j <= self.key@.len(),
                bytes@ == u16_le(AF_UNIX as u16) + self.key@.take(j as int),
            decreases self.key@.len() - j,
        {
            bytes.push(self.key[j]);
            j = j + 1;
            assert(bytes@ =~= u16_le(AF_UNIX as u16) + self.key@.take(j as int));
        }
        if !self.abstract_namespace {
            bytes.push(0);
        }
        assert(bytes@ =~= unix_address_bytes(self.key@, self.abstract_namespace));
        bytes
    }
}

/// The filesystem path a `sockaddr_un` names: `None` for an abstract address, `Inval`
/// when the path is not UTF-8; the errors of `UnixAddress::from_raw` otherwise.
pub fn pathname_from_raw(address: &[u8]) -> (r: Result<Option<String>, SysErr>)
    ensures
        match spec_unix_address(address@) {
            Err(e) => r == Err::<Option<String>, SysErr>(e),
            Ok((_, true)) => r matches Ok(None),
            Ok((key, false)) => if vstd::utf8::valid_utf8(key) {
                (r matches Ok(Some(s)) && s@ == vstd::utf8::decode_utf8(key))
            } else {
                r == Err::<Option<String>, SysErr>(SysErr::Inval)
            },
        },
{
    let address = match UnixAddress::from_raw(address) {
        Ok(a) => a,
        Err(e) => return Err(e),
    };
    if address.abstract_namespace {
        return Ok(None);
    }
    match utf8_string(address.key.as_slice()) {
        Some(path) => Ok(Some(path)),
        None => Err(SysErr::Inval),
    }
}

/// Reading back the bytes of a path address gives the path: a non-empty path without
/// NUL bytes.
pub proof fn lemma_unix_path_roundtrip(key: Seq<u8>)
    requires
        key.len() > 0,
        forall|i: int| 0 <= i < key.len() ==> key[i] != 0,
    ensures
        spec_unix_address(unix_address_bytes(key, false)) == Ok::<(Seq<u8>, bool), SysErr>((key, false)),
{
    let b = unix_address_bytes(key, false);
    lemma_u16_roundtrip(AF_UNIX as u16);
    let f = u16_le(AF_UNIX as u16);
    assert(b[0] == f[0] && b[1] == f[1]);
    let path = b.skip(2);
    assert(path =~= key + seq![0u8]);
    assert(path[0] == key[0]);
    let e = key.len() as int;
    assert(first_nul_at(path, e));
    let c = choose|i: int| first_nul_at(path, i);
    if c < e {
        assert(path[c] == key[c]);
    } else if c > e {
        assert(path[e] != 0);
    }
    assert(path.take(e) =~= key);
}

/// Reading back the bytes of an abstract address gives it back: a name that starts with
/// NUL.
pub proof fn lemma_unix_abstract_roundtrip(key: Seq<u8>)
    requires
        key.len() > 0,
        key[0] == 0,
    ensures
        spec_unix_address(unix_address_bytes(key, true)) == Ok::<(Seq<u8>, bool), SysErr>((key, true)),
{
    let b = unix_address_bytes(key, true);
    lemma_u16_roundtrip(AF_UNIX as u16);
    let f = u16_le(AF_UNIX as u16);
    assert(b[0] == f[0] && b[1] == f[1]);
    assert(b.skip(2) =~= key);
}

impl View for UnixAddress {
    type V = (Seq<u8>, bool);

    open spec fn view(&self) -> (Seq<u8>, bool) {
        (self.key@, self.abstract_namespace)
    }
}

impl UnixAddress {
    /// A copy of the address.
    pub fn duplicate(&self) -> (r: Self)
        ensures
            r@ == self@,
    {
        let mut key: Vec<u8> = Vec::new();
        push_bytes(&mut key, self.key.as_slice());
        assert(key@ =~= self.key@);
        UnixAddress { key, abstract_namespace: self.abstract_namespace }
    }

    /// Whether two addresses are the same.
    pub fn same_as(&self, other: &UnixAddress) -> (r: bool)
        ensures
            r == (self@ == other@),
    {
        self.abstract_namespace == other.abstract_namespace && bytes_equal(
            self.key.as_slice(),
            other.key.as_slice(),
        )
    }
}

/// Size of the buffers a local socket starts with.
pub const UNIX_BUFFER_SIZE: usize = 256 * 1024;
/// `recv` flag: look without taking.
pub const MSG_PEEK: u64 = 0x0002;
/// `msg_flags` bit: the datagram was cut.
pub const MSG_TRUNC: u32 = 0x0020;

/// File descriptors and credentials sent along with data. A descriptor is named by the
/// identity of the open file it stands for.
pub struct UnixAncillary {
    pub rights: Vec<u64>,
    pub credentials: Option<SocketCredentials>,
}

/// Ancillary data as a value.
pub struct AncillaryView {
    pub rights: Seq<u64>,
    pub credentials: Option<SocketCredentials>,
}

impl View for UnixAncillary {
    type V = AncillaryView;

    open spec fn view(&self) -> AncillaryView {
        AncillaryView { rights: self.rights@, credentials: self.credentials }
    }
}

/// Optional ancillary data as a value.
pub open spec fn ancillary_view(a: Option<UnixAncillary>) -> Option<AncillaryView> {
    match a {
        Some(x) => Some(x@),
        None => None,
    }
}

impl UnixAncillary {
    /// A copy of the ancillary data.
    pub fn duplicate(&self) -> (r: Self)
        ensures
            r@ == self@,
    {
        let mut rights: Vec<u64> = Vec::new();
        let mut i: usize = 0;
        while i < self.rights.len()
            invariant
                i <= self.rights.len(),
                rights@ == self.rights@.take(i as int),
            decreases self.rights.len() - i,
        {
            rights.push(self.rights[i]);
            assert(self.rights@.take(i + 1) =~= self.rights@.take(i as int).push(self.rights@[i as int]));
            i += 1;
        }
        assert(self.rights@.take(self.rights.len() as int) =~= self.rights@);
        UnixAncillary { rights, credentials: self.credentials }
    }
}

fn duplicate_ancillary(a: &Option<UnixAncillary>) -> (r: Option<UnixAncillary>)
    ensures
        ancillary_view(r) == ancillary_view(*a),
{
    match a {
        Some(x) => Some(x.duplicate()),
        None => None,
    }
}

/// Stream bytes as sent by one write, with how far they have been read.
pub struct UnixStreamChunk {
    pub data: Vec<u8>,
    pub read_offset: usize,
    pub ancillary: Option<UnixAncillary>,
}

/// A stream chunk as a value.
pub struct ChunkView {
    pub data: Seq<u8>,
    pub read_offset: usize,
    pub ancillary: Option<AncillaryView>,
}

impl View for UnixStreamChunk {
    type V = ChunkView;

    open spec fn view(&self) -> ChunkView {
        ChunkView {
            data: self.data@,
            read_offset: self.read_offset,
            ancillary: ancillary_view(self.ancillary),
        }
    }
}

/// One datagram, with the address of its sender when it had one.
pub struct UnixPacket {
    pub data: Vec<u8>,
    pub source: Option<Vec<u8>>,
    pub ancillary: Option<UnixAncillary>,
}

/// A datagram as a value.
pub struct PacketView {
    pub data: Seq<u8>,
    pub source: Option<Seq<u8>>,
    pub ancillary: Option<AncillaryView>,
}

impl View for UnixPacket {
    type V = PacketView;

    open spec fn view(&self) -> PacketView {
        PacketView {
            data: self.data@,
            source: match self.source {
                Some(s) => Some(s@),
                None => None,
            },
            ancillary: ancillary_view(self.ancillary),
        }
    }
}

/// `a - b`, or 0 below zero.
pub open spec fn usize_sat_sub(a: usize, b: int) -> usize {
    if a >= b {
        (a - b) as usize
    } else {
        0
    }
}

/// `a + b`, or `usize::MAX` above it.
pub open spec fn usize_sat_add(a: usize, b: int) -> usize {
    if a + b <= usize::MAX {
        (a + b) as usize
    } else {
        usize::MAX
    }
}

/// The bytes a stream read takes, oldest first, up to `want` of them; the chunks left
/// (an emptied chunk goes, a partly read one stays with its offset moved and its ancillary
/// data dropped); the first ancillary data met when `with_control` (the rest is dropped); and
/// how many bytes were taken.
pub open spec fn stream_take(
    chunks: Seq<ChunkView>,
    want: int,
    with_control: bool,
    got: Option<AncillaryView>,
) -> (Seq<ChunkView>, Seq<u8>, Option<AncillaryView>)
    decreases chunks.len(), want,
{
    if want <= 0 || chunks.len() == 0 {
        (chunks, Seq::empty(), got)
    } else {
        let c = chunks[0];
        let available = c.data.len() - c.read_offset;
        if available <= 0 {
            stream_take(chunks.drop_first(), want, with_control, got)
        } else {
            let got2 = if with_control && got is None {
                c.ancillary
            } else {
                got
            };
            let count = if want < available {
                want
            } else {
                available
            };
            let bytes = c.data.subrange(c.read_offset as int, c.read_offset + count);
            if c.read_offset + count == c.data.len() {
                let (rest, more, anc) = stream_take(chunks.drop_first(), want - count, with_control, got2);
                (rest, bytes + more, anc)
            } else {
                (
                    chunks.update(
                        0,
                        ChunkView {
                            read_offset: (c.read_offset + count) as usize,
                            ancillary: None,
                            ..c
                        },
                    ),
                    bytes,
                    got2,
                )
            }
        }
    }
}

/// What a peeking stream read sees: the same bytes and ancillary data as `stream_take`,
/// with nothing taken.
pub open spec fn stream_peek(chunks: Seq<ChunkView>, want: int, with_control: bool, got: Option<AncillaryView>) -> (
    Seq<u8>,
    Option<AncillaryView>,
)
    decreases chunks.len(),
{
    if want <= 0 || chunks.len() == 0 {
        (Seq::empty(), got)
    } else {
        let c = chunks[0];
        let available = c.data.len() - c.read_offset;
        if available <= 0 {
            stream_peek(chunks.drop_first(), want, with_control, got)
        } else {
            let got2 = if with_control && got is None {
                c.ancillary
            } else {
                got
            };
            let count = if want < available {
                want
            } else {
                available
            };
            let (more, anc) = stream_peek(chunks.drop_first(), want - count, with_control, got2);
            (c.data.subrange(c.read_offset as int, c.read_offset + count) + more, anc)
        }
    }
}

/// The bytes a sequence of chunks still holds.
pub open spec fn unread_bytes(chunks: Seq<ChunkView>) -> int
    decreases chunks.len(),
{
    if chunks.len() == 0 {
        0
    } else {
        unread_bytes(chunks.drop_first()) + if chunks[0].data.len() > chunks[0].read_offset {
            chunks[0].data.len() - chunks[0].read_offset
        } else {
            0
        }
    }
}

/// What a receive gives: the bytes, the sender's address (datagrams only), the ancillary
/// data, and the message flags.
pub struct UnixReceive {
    pub data: Vec<u8>,
    pub address: Option<Vec<u8>>,
    pub ancillary: Option<UnixAncillary>,
    pub msg_flags: u32,
}

/// The unnamed local address: just the family.
pub open spec fn unnamed_address() -> Seq<u8> {
    u16_le(AF_UNIX as u16)
}

/// The name a socket reports: its bound address, or the unnamed one.
pub open spec fn local_name_of(bound: Option<(Seq<u8>, bool)>) -> Seq<u8> {
    match bound {
        Some((key, abs)) => unix_address_bytes(key, abs),
        None => unnamed_address(),
    }
}

/// The `SO_PEERCRED` record: PID, UID, GID.
pub open spec fn peercred_bytes(c: SocketCredentials) -> Seq<u8> {
    i32_le(c.pid as i32) + u32_le(c.uid) + u32_le(c.gid)
}

/// One local socket. `peer` names the socket at the other end by its handle; `backlog`
/// holds the handles of the connections waiting to be accepted.
pub struct UnixSocket {
    pub handle: u64,
    pub kind: u32,
    pub owner: SocketCredentials,
    pub bound_address: Option<UnixAddress>,
    pub peer: Option<u64>,
    pub peer_credentials: Option<SocketCredentials>,
    pub established: bool,
    pub listening: bool,
    pub backlog_limit: usize,
    pub backlog: Vec<u64>,
    pub recv_stream: Vec<UnixStreamChunk>,
    pub recv_packets: Vec<UnixPacket>,
    pub recv_size: usize,
    pub passcred: bool,
    pub sndbuf: usize,
    pub rcvbuf: usize,
    pub shut_rd: bool,
    pub shut_wr: bool,
    pub version: u64,
}

/// A local socket as a value.
pub struct UnixSocketView {
    pub handle: u64,
    pub kind: u32,
    pub owner: SocketCredentials,
    pub bound: Option<(Seq<u8>, bool)>,
    pub peer: Option<u64>,
    pub peer_credentials: Option<SocketCredentials>,
    pub established: bool,
    pub listening: bool,
    pub backlog_limit: usize,
    pub backlog: Seq<u64>,
    pub stream: Seq<ChunkView>,
    pub packets: Seq<PacketView>,
    pub recv_size: usize,
    pub passcred: bool,
    pub sndbuf: usize,
    pub rcvbuf: usize,
    pub shut_rd: bool,
    pub shut_wr: bool,
    pub version: u64,
}

impl View for UnixSocket {
    type V = UnixSocketView;

    open spec fn view(&self) -> UnixSocketView {
        UnixSocketView {
            handle: self.handle,
            kind: self.kind,
            owner: self.owner,
            bound: match self.bound_address {
                Some(a) => Some(a@),
                None => None,
            },
            peer: self.peer,
            peer_credentials: self.peer_credentials,
            established: self.established,
            listening: self.listening,
            backlog_limit: self.backlog_limit,
            backlog: self.backlog@,
            stream: self.recv_stream@.map_values(|c: UnixStreamChunk| c@),
            packets: self.recv_packets@.map_values(|p: UnixPacket| p@),
            recv_size: self.recv_size,
            passcred: self.passcred,
            sndbuf: self.sndbuf,
            rcvbuf: self.rcvbuf,
            shut_rd: self.shut_rd,
            shut_wr: self.shut_wr,
            version: self.version,
        }
    }
}

/// A fresh socket of `kind` owned by `owner`.
pub open spec fn fresh_socket(handle: u64, kind: u32, owner: SocketCredentials) -> UnixSocketView {
    UnixSocketView {
        handle,
        kind,
        owner,
        bound: None,
        peer: None,
        peer_credentials: None,
        established: false,
        listening: false,
        backlog_limit: 0,
        backlog: Seq::empty(),
        stream: Seq::empty(),
        packets: Seq::empty(),
        recv_size: 0,
        passcred: false,
        sndbuf: UNIX_BUFFER_SIZE,
        rcvbuf: UNIX_BUFFER_SIZE,
        shut_rd: false,
        shut_wr: false,
        version: 1,
    }
}

/// The next version, wrapping.
pub open spec fn bumped(version: u64) -> u64 {
    if version == u64::MAX {
        0
    } else {
        (version + 1) as u64
    }
}

/// A socket after bytes are queued on its stream: `Pipe` when it no longer reads,
/// `Again` when its buffer is full; otherwise as much as fits goes in one chunk.
pub open spec fn spec_enqueue_stream(s: UnixSocketView, data: Seq<u8>, ancillary: Option<AncillaryView>) -> (
    UnixSocketView,
    Result<usize, SysErr>,
) {
    if data.len() == 0 {
        (s, Ok(0))
    } else if s.shut_rd {
        (s, Err(SysErr::Pipe))
    } else {
        let space = usize_sat_sub(s.rcvbuf, s.recv_size as int);
        if space == 0 {
            (s, Err(SysErr::Again))
        } else {
            let count = if space < data.len() {
                space as int
            } else {
                data.len() as int
            };
            (
                UnixSocketView {
                    stream: s.stream.push(
                        ChunkView { data: data.take(count), read_offset: 0, ancillary },
                    ),
                    recv_size: usize_sat_add(s.recv_size, count),
                    ..s
                },
                Ok(count as usize),
            )
        }
    }
}

/// A socket after a datagram is queued on it: `Pipe` when it no longer reads, `Again`
/// when the datagram would take it past its buffer.
pub open spec fn spec_enqueue_packet(s: UnixSocketView, data: Seq<u8>, source: Option<Seq<u8>>, ancillary: Option<
    AncillaryView,
>) -> (UnixSocketView, Result<usize, SysErr>) {
    if s.shut_rd {
        (s, Err(SysErr::Pipe))
    } else {
        let next = usize_sat_add(s.recv_size, data.len() as int);
        if next > s.rcvbuf {
            (s, Err(SysErr::Again))
        } else {
            (
                UnixSocketView {
                    packets: s.packets.push(PacketView { data, source, ancillary }),
                    recv_size: next,
                    ..s
                },
                Ok(data.len() as usize),
            )
        }
    }
}

/// What `setsockopt` at `SOL_SOCKET` does: `SO_PASSCRED` and the buffer sizes (at least
/// 4096); a value shorter than four bytes is `Inval`; another level or option is
/// `NoProtoOpt`.
pub open spec fn spec_unix_setsockopt(s: UnixSocketView, level: i32, optname: i32, value: Seq<u8>) -> Result<
    UnixSocketView,
    SysErr,
> {
    if level != SOL_SOCKET {
        Err(SysErr::NoProtoOpt)
    } else if value.len() < 4 {
        Err(SysErr::Inval)
    } else {
        let parsed = le_i32_at(value, 0);
        let size = if parsed < 4096 {
            4096usize
        } else {
            parsed as usize
        };
        if optname == SO_PASSCRED {
            Ok(UnixSocketView { passcred: parsed != 0, ..s })
        } else if optname == SO_SNDBUF || optname == SO_SNDBUFFORCE {
            Ok(UnixSocketView { sndbuf: size, ..s })
        } else if optname == SO_RCVBUF || optname == SO_RCVBUFFORCE {
            Ok(UnixSocketView { rcvbuf: size, ..s })
        } else {
            Err(SysErr::NoProtoOpt)
        }
    }
}

/// A buffer size as an `int` option.
pub open spec fn clamped(value: usize) -> i32 {
    if value > i32::MAX as usize {
        i32::MAX
    } else {
        value as i32
    }
}

/// What `getsockopt` answers.
pub open spec fn spec_unix_getsockopt(s: UnixSocketView, level: i32, optname: i32) -> Result<Seq<u8>, SysErr> {
    if level != SOL_SOCKET {
        Err(SysErr::NoProtoOpt)
    } else if optname == SO_PASSCRED {
        Ok(i32_le(if s.passcred { 1 } else { 0 }))
    } else if optname == SO_SNDBUF || optname == SO_SNDBUFFORCE {
        Ok(i32_le(clamped(s.sndbuf)))
    } else if optname == SO_RCVBUF || optname == SO_RCVBUFFORCE {
        Ok(i32_le(clamped(s.rcvbuf)))
    } else if optname == SO_PEERCRED {
        match s.peer_credentials {
            Some(c) => Ok(peercred_bytes(c)),
            None => Err(SysErr::NotConn),
        }
    } else {
        spec_sol_socket_option(optname, s.kind, s.listening, 0, AF_UNIX)
    }
}

fn copy_range(src: &[u8], from: usize, to: usize) -> (r: Vec<u8>)
    requires
        from <= to <= src@.len(),
    ensures
        r@ == src@.subrange(from as int, to as int),
{
    let mut out: Vec<u8> = Vec::new();
    let mut i: usize = from;
    while i < to
        invariant
            from <= i <= to <= src@.len(),
            out@ == src@.subrange(from as int, i as int),
        decreases to - i,
    {
        out.push(src[i]);
        assert(src@.subrange(from as int, i + 1) =~= src@.subrange(from as int, i as int).push(
            src@[i as int],
        ));
        i += 1;
    }
    out
}

impl UnixSocket {
    /// A fresh socket.
    pub fn new(handle: u64, kind: u32, owner: SocketCredentials) -> (r: Self)
        ensures
            r@ == fresh_socket(handle, kind, owner),
    {
        let r = UnixSocket {
            handle,
            kind,
            owner,
            bound_address: None,
            peer: None,
            peer_credentials: None,
            established: false,
            listening: false,
            backlog_limit: 0,
            backlog: Vec::new(),
            recv_stream: Vec::new(),
            recv_packets: Vec::new(),
            recv_size: 0,
            passcred: false,
            sndbuf: UNIX_BUFFER_SIZE,
            rcvbuf: UNIX_BUFFER_SIZE,
            shut_rd: false,
            shut_wr: false,
            version: 1,
        };
        assert(r@.stream =~= Seq::<ChunkView>::empty());
        assert(r@.packets =~= Seq::<PacketView>::empty());
        r
    }

    /// Whether this is a stream socket.
    pub fn is_stream_like(&self) -> (r: bool)
        ensures
            r == (self.kind == SOCK_STREAM),
    {
        self.kind == SOCK_STREAM
    }

    /// Whether this is a datagram or sequenced-packet socket.
    pub fn is_packet_like(&self) -> (r: bool)
        ensures
            r == (self.kind == SOCK_DGRAM || self.kind == SOCK_SEQPACKET),
    {
        self.kind == SOCK_DGRAM || self.kind == SOCK_SEQPACKET
    }

    /// The name the socket reports: its bound address or the unnamed one.
    pub fn local_name(&self) -> (r: Vec<u8>)
        ensures
            r@ == local_name_of(self@.bound),
    {
        match &self.bound_address {
            Some(a) => a.serialize(),
            None => {
                let mut bytes: Vec<u8> = Vec::new();
                push_u16(&mut bytes, AF_UNIX as u16);
                bytes
            },
        }
    }

    /// Whether the socket listens.
    pub fn is_listening(&self) -> (r: bool)
        ensures
            r == self.listening,
    {
        self.listening
    }

    /// Queues stream bytes; see `spec_enqueue_stream`.
    pub fn enqueue_stream(&mut self, buffer: &[u8], ancillary: Option<UnixAncillary>) -> (r: Result<
        usize,
        SysErr,
    >)
        ensures
            (final(self)@, r) == spec_enqueue_stream(old(self)@, buffer@, ancillary_view(ancillary)),
    {
        if buffer.len() == 0 {
            return Ok(0);
        }
        if self.shut_rd {
            return Err(SysErr::Pipe);
        }
        let space = self.rcvbuf.saturating_sub(self.recv_size);
        if space == 0 {
            return Err(SysErr::Again);
        }
        let count = if space < buffer.len() {
            space
        } else {
            buffer.len()
        };
        let data = copy_range(buffer, 0, count);
        assert(data@ =~= buffer@.take(count as int));
        let ghost before = self.recv_stream@;
        let chunk = UnixStreamChunk { data, read_offset: 0, ancillary };
        let ghost cv = chunk@;
        self.recv_stream.push(chunk);
        assert(self.recv_stream@.map_values(|c: UnixStreamChunk| c@) =~= before.map_values(
            |c: UnixStreamChunk| c@,
        ).push(cv));
        self.recv_size = self.recv_size.saturating_add(count);
        Ok(count)
    }

    /// Queues a datagram; see `spec_enqueue_packet`.
    pub fn enqueue_packet_from(
        &mut self,
        buffer: &[u8],
        source: Option<Vec<u8>>,
        ancillary: Option<UnixAncillary>,
    ) -> (r: Result<usize, SysErr>)
        ensures
            (final(self)@, r) == spec_enqueue_packet(
                old(self)@,
                buffer@,
                match source {
                    Some(s) => Some(s@),
                    None => None,
                },
                ancillary_view(ancillary),
            ),
    {
        if self.shut_rd {
            return Err(SysErr::Pipe);
        }
        let next = self.recv_size.saturating_add(buffer.len());
        if next > self.rcvbuf {
            return Err(SysErr::Again);
        }
        let data = copy_range(buffer, 0, buffer.len());
        assert(data@ =~= buffer@);
        let ghost before = self.recv_packets@;
        let packet = UnixPacket { data, source, ancillary };
        let ghost pv = packet@;
        self.recv_packets.push(packet);
        assert(self.recv_packets@.map_values(|p: UnixPacket| p@) =~= before.map_values(
            |p: UnixPacket| p@,
        ).push(pv));
        self.recv_size = next;
        Ok(buffer.len())
    }

    /// `setsockopt`; see `spec_unix_setsockopt`.
    pub fn setsockopt(&mut self, level: i32, optname: i32, value: &[u8]) -> (r: Result<(), SysErr>)
        ensures
            match spec_unix_setsockopt(old(self)@, level, optname, value@) {
                Ok(s) => r == Ok::<(), SysErr>(()) && final(self)@ == s,
                Err(e) => r == Err::<(), SysErr>(e) && final(self)@ == old(self)@,
            },
    {
        if level != SOL_SOCKET {
            return Err(SysErr::NoProtoOpt);
        }
        if value.len() < 4 {
            return Err(SysErr::Inval);
        }
        let parsed = read_i32_at(value, 0);
        let size: usize = if parsed < 4096 {
            4096
        } else {
            parsed as usize
        };
        if optname == SO_PASSCRED {
            self.passcred = parsed != 0;
            Ok(())
        } else if optname == SO_SNDBUF || optname == SO_SNDBUFFORCE {
            self.sndbuf = size;
            Ok(())
        } else if optname == SO_RCVBUF || optname == SO_RCVBUFFORCE {
            self.rcvbuf = size;
            Ok(())
        } else {
            Err(SysErr::NoProtoOpt)
        }
    }

    /// `getsockopt`; see `spec_unix_getsockopt`.
    pub fn getsockopt(&self, level: i32, optname: i32) -> (r: Result<Vec<u8>, SysErr>)
        ensures
            match (r, spec_unix_getsockopt(self@, level, optname)) {
                (Ok(v), Ok(s)) => v@ == s,
                (Err(e), Err(se)) => e == se,
                _ => false,
            },
    {
        if level != SOL_SOCKET {
            return Err(SysErr::NoProtoOpt);
        }
        if optname == SO_PASSCRED {
            Ok(
                encode_sockopt_i32(
                    if self.passcred {
                        1
                    } else {
                        0
                    },
                ),
            )
        } else if optname == SO_SNDBUF || optname == SO_SNDBUFFORCE {
            let v: i32 = if self.sndbuf > i32::MAX as usize {
                i32::MAX
            } else {
                self.sndbuf as i32
            };
            Ok(encode_sockopt_i32(v))
        } else if optname == SO_RCVBUF || optname == SO_RCVBUFFORCE {
            let v: i32 = if self.rcvbuf > i32::MAX as usize {
                i32::MAX
            } else {
                self.rcvbuf as i32
            };
            Ok(encode_sockopt_i32(v))
        } else if optname == SO_PEERCRED {
            match self.peer_credentials {
                Some(c) => {
                    let mut bytes: Vec<u8> = Vec::new();
                    push_i32(&mut bytes, c.pid as i32);
                    push_u32(&mut bytes, c.uid);
                    push_u32(&mut bytes, c.gid);
                    assert(bytes@ =~= peercred_bytes(c));
                    Ok(bytes)
                },
                None => Err(SysErr::NotConn),
            }
        } else {
            getsockopt_sol_socket(optname, self.kind, self.listening, 0, AF_UNIX)
        }
    }
}

/// A stream receive on `s`: nothing once reading is shut down; with nothing queued,
/// `NotConn` before a connection, end of file once the peer is gone or stops writing,
/// `Again` otherwise; else `stream_peek` or `stream_take`, the taken bytes leaving the
/// buffer count.
pub open spec fn spec_recv_stream(s: UnixSocketView, len: usize, peek: bool, with_control: bool, peer_eof: bool) -> (
    UnixSocketView,
    Result<(Seq<u8>, Option<AncillaryView>), SysErr>,
) {
    if s.shut_rd {
        (s, Ok((Seq::empty(), None)))
    } else if s.stream.len() == 0 {
        if !s.established {
            (s, Err(SysErr::NotConn))
        } else if peer_eof {
            (s, Ok((Seq::empty(), None)))
        } else {
            (s, Err(SysErr::Again))
        }
    } else if peek {
        (s, Ok(stream_peek(s.stream, len as int, with_control, None)))
    } else {
        let (rest, bytes, anc) = stream_take(s.stream, len as int, with_control, None);
        (
            UnixSocketView {
                stream: rest,
                recv_size: usize_sat_sub(s.recv_size, bytes.len() as int),
                ..s
            },
            Ok((bytes, anc)),
        )
    }
}

/// A datagram receive on `s`: nothing once reading is shut down; `Again` with nothing
/// queued; else the oldest datagram, cut to `len` (`MSG_TRUNC` then), with its sender and,
/// when asked, its ancillary data; it stays queued when peeking.
pub open spec fn spec_recv_packet(s: UnixSocketView, len: usize, peek: bool, with_control: bool) -> (
    UnixSocketView,
    Result<(Seq<u8>, Option<Seq<u8>>, Option<AncillaryView>, u32), SysErr>,
) {
    if s.shut_rd {
        (s, Ok((Seq::empty(), None, None, 0)))
    } else if s.packets.len() == 0 {
        (s, Err(SysErr::Again))
    } else {
        let p = s.packets[0];
        let count = if len < p.data.len() {
            len as int
        } else {
            p.data.len() as int
        };
        (
            if peek {
                s
            } else {
                UnixSocketView {
                    packets: s.packets.drop_first(),
                    recv_size: usize_sat_sub(s.recv_size, p.data.len() as int),
                    ..s
                }
            },
            Ok(
                (
                    p.data.take(count),
                    p.source,
                    if with_control {
                        p.ancillary
                    } else {
                        None
                    },
                    if p.data.len() > count {
                        MSG_TRUNC
                    } else {
                        0
                    },
                ),
            ),
        )
    }
}

proof fn lemma_sat_sub_twice(x: usize, a: int, b: int)
    requires
        a >= 0,
        b >= 0,
    ensures
        usize_sat_sub(usize_sat_sub(x, a), b) == usize_sat_sub(x, a + b),
{
}

impl UnixSocket {
    /// A stream receive; see `spec_recv_stream`. `peer_eof` tells whether the peer is gone
    /// or has stopped writing.
    pub fn recv_stream(&mut self, len: usize, flags: u64, with_control: bool, peer_eof: bool) -> (r:
        Result<UnixReceive, SysErr>)
        ensures
            ({
                let (s, res) = spec_recv_stream(
                    old(self)@,
                    len,
                    flags & MSG_PEEK != 0,
                    with_control,
                    peer_eof,
                );
                &&& final(self)@ == s
                &&& match (r, res) {
                    (Ok(got), Ok((bytes, anc))) => got.data@ == bytes && got.address is None
                        && ancillary_view(got.ancillary) == anc && got.msg_flags == 0,
                    (Err(e), Err(se)) => e == se,
                    _ => false,
                }
            }),
    {
        let peek = flags & MSG_PEEK != 0;
        if self.shut_rd {
            return Ok(UnixReceive { data: Vec::new(), address: None, ancillary: None, msg_flags: 0 });
        }
        if self.recv_stream.len() == 0 {
            if !self.established {
                return Err(SysErr::NotConn);
            }
            if peer_eof {
                return Ok(UnixReceive { data: Vec::new(), address: None, ancillary: None, msg_flags: 0 });
            }
            return Err(SysErr::Again);
        }
        let ghost chunks0 = self@.stream;
        let mut out: Vec<u8> = Vec::new();
        let mut got: Option<UnixAncillary> = None;
        let mut written: usize = 0;
        if peek {
            let mut i: usize = 0;
            assert(chunks0.skip(0) =~= chunks0);
            while i < self.recv_stream.len() && written < len
                invariant
                    self@ == old(self)@,
                    chunks0 == self@.stream,
                    i <= self.recv_stream.len(),
                    written <= len,
                    stream_peek(chunks0, len as int, with_control, None) == ({
                        let (b, g) = stream_peek(
                            chunks0.skip(i as int),
                            len - written,
                            with_control,
                            ancillary_view(got),
                        );
                        (out@ + b, g)
                    }),
                decreases self.recv_stream.len() - i,
            {
                let chunk = &self.recv_stream[i];
                let ghost c = chunks0[i as int];
                assert(c == chunk@);
                assert(chunks0.skip(i as int)[0] == c);
                assert(chunks0.skip(i as int).drop_first() =~= chunks0.skip(i + 1));
                if chunk.read_offset < chunk.data.len() {
                    let available = chunk.data.len() - chunk.read_offset;
                    if with_control && got.is_none() {
                        got = duplicate_ancillary(&chunk.ancillary);
                    }
                    let count = if len - written < available {
                        len - written
                    } else {
                        available
                    };
                    let piece = copy_range(chunk.data.as_slice(), chunk.read_offset, chunk.read_offset + count);
                    let ghost before = out@;
                    push_bytes(&mut out, piece.as_slice());
                    assert(out@ == before + piece@);
                    assert((before + piece@) + stream_peek(
                        chunks0.skip(i + 1),
                        len - written - count,
                        with_control,
                        ancillary_view(got),
                    ).0 =~= before + (piece@ + stream_peek(
                        chunks0.skip(i + 1),
                        len - written - count,
                        with_control,
                        ancillary_view(got),
                    ).0));
                    written += count;
                }
                i += 1;
            }
            proof {
                if i < self.recv_stream.len() {
                    assert(written >= len);
                } else {
                    assert(chunks0.skip(i as int).len() == 0);
                }
                assert(out@ + Seq::<u8>::empty() =~= out@);
            }
            return Ok(UnixReceive { data: out, address: None, ancillary: got, msg_flags: 0 });
        }
        let ghost size0 = self.recv_size;
        loop
            invariant_except_break
                written <= len,
                out@.len() == written,
                stream_take(chunks0, len as int, with_control, None) == ({
                    let (q, b, g) = stream_take(
                        self@.stream,
                        len - written,
                        with_control,
                        ancillary_view(got),
                    );
                    (q, out@ + b, g)
                }),
                self.recv_size == usize_sat_sub(size0, written as int),
                self@ == (UnixSocketView {
                    stream: self@.stream,
                    recv_size: self.recv_size,
                    ..old(self)@
                }),
            ensures
                out@.len() == written,
                stream_take(chunks0, len as int, with_control, None) == (
                    self@.stream,
                    out@,
                    ancillary_view(got),
                ),
                self.recv_size == usize_sat_sub(size0, written as int),
                self@ == (UnixSocketView {
                    stream: self@.stream,
                    recv_size: self.recv_size,
                    ..old(self)@
                }),
            decreases self.recv_stream.len(), len - written,
        {
            if written >= len || self.recv_stream.len() == 0 {
                assert(out@ + Seq::<u8>::empty() =~= out@);
                break;
            }
            let ghost cur = self@.stream;
            let ghost before_out = out@;
            let ghost got_before = ancillary_view(got);
            let chunk = self.recv_stream.remove(0);
            assert(self@.stream =~= cur.drop_first());
            let UnixStreamChunk { data, read_offset, ancillary } = chunk;
            if read_offset >= data.len() {
                continue;
            }
            let available = data.len() - read_offset;
            if with_control && got.is_none() {
                got = ancillary;
            }
            let count = if len - written < available {
                len - written
            } else {
                available
            };
            let piece = copy_range(data.as_slice(), read_offset, read_offset + count);
            push_bytes(&mut out, piece.as_slice());
            proof {
                lemma_sat_sub_twice(size0, written as int, count as int);
            }
            self.recv_size = self.recv_size.saturating_sub(count);
            written += count;
            if read_offset + count == data.len() {
                let ghost rest = stream_take(cur.drop_first(), len - written, with_control, ancillary_view(got));
                assert((before_out + piece@) + rest.1 =~= before_out + (piece@ + rest.1));
            } else {
                let remaining = UnixStreamChunk { data, read_offset: read_offset + count, ancillary: None };
                let ghost rv = remaining@;
                self.recv_stream.insert(0, remaining);
                assert(self@.stream =~= cur.update(0, rv));
                assert(out@ + Seq::<u8>::empty() =~= out@);
                break;
            }
        }
        proof {
            assert(self@.recv_size == usize_sat_sub(old(self)@.recv_size, out@.len() as int));
        }
        Ok(UnixReceive { data: out, address: None, ancillary: got, msg_flags: 0 })
    }

    /// A datagram receive; see `spec_recv_packet`.
    pub fn recv_packet(&mut self, len: usize, flags: u64, with_control: bool) -> (r: Result<
        UnixReceive,
        SysErr,
    >)
        ensures
            ({
                let (s, res) = spec_recv_packet(old(self)@, len, flags & MSG_PEEK != 0, with_control);
                &&& final(self)@ == s
                &&& match (r, res) {
                    (Ok(got), Ok((bytes, source, anc, msg_flags))) => got.data@ == bytes && match got.address {
                        Some(a) => source == Some(a@),
                        None => source is None,
                    } && ancillary_view(got.ancillary) == anc && got.msg_flags == msg_flags,
                    (Err(e), Err(se)) => e == se,
                    _ => false,
                }
            }),
    {
        let peek = flags & MSG_PEEK != 0;
        if self.shut_rd {
            return Ok(UnixReceive { data: Vec::new(), address: None, ancillary: None, msg_flags: 0 });
        }
        if self.recv_packets.len() == 0 {
            return Err(SysErr::Again);
        }
        let ghost p = self@.packets[0];
        assert(p == self.recv_packets@[0]@);
        if peek {
            let packet = &self.recv_packets[0];
            let count = if len < packet.data.len() {
                len
            } else {
                packet.data.len()
            };
            let data = copy_range(packet.data.as_slice(), 0, count);
            assert(data@ =~= p.data.take(count as int));
            let address = match &packet.source {
                Some(s) => {
                    let c = copy_range(s.as_slice(), 0, s.len());
                    assert(c@ =~= s@);
                    Some(c)
                },
                None => None,
            };
            let ancillary = if with_control {
                duplicate_ancillary(&packet.ancillary)
            } else {
                None
            };
            let msg_flags = if packet.data.len() > count {
                MSG_TRUNC
            } else {
                0
            };
            return Ok(UnixReceive { data, address, ancillary, msg_flags });
        }
        let ghost before = self.recv_packets@;
        let packet = self.recv_packets.remove(0);
        assert(self.recv_packets@.map_values(|q: UnixPacket| q@) =~= before.map_values(
            |q: UnixPacket| q@,
        ).drop_first());
        self.recv_size = self.recv_size.saturating_sub(packet.data.len());
        let count = if len < packet.data.len() {
            len
        } else {
            packet.data.len()
        };
        let data = copy_range(packet.data.as_slice(), 0, count);
        assert(data@ =~= p.data.take(count as int));
        let msg_flags = if packet.data.len() > count {
            MSG_TRUNC
        } else {
            0
        };
        let UnixPacket { data: _, source, ancillary } = packet;
        let ancillary = if with_control {
            ancillary
        } else {
            None
        };
        Ok(UnixReceive { data, address: source, ancillary, msg_flags })
    }
}

/// All local sockets, the bound-address table, and the wake-ups owed, as values.
pub struct UnixState {
    pub sockets: Seq<UnixSocketView>,
    pub bound: Seq<((Seq<u8>, bool), u64)>,
    pub wakes: Seq<(u64, u32)>,
}

/// Whether a socket with `handle` is open.
pub open spec fn is_open(sockets: Seq<UnixSocketView>, handle: u64) -> bool {
    exists|i: int| 0 <= i < sockets.len() && (#[trigger] sockets[i]).handle == handle
}

/// Where the open socket with `handle` stands.
pub open spec fn position(sockets: Seq<UnixSocketView>, handle: u64) -> int {
    choose|i: int| 0 <= i < sockets.len() && (#[trigger] sockets[i]).handle == handle
}

/// The open socket with `handle`.
pub open spec fn socket_of(sockets: Seq<UnixSocketView>, handle: u64) -> UnixSocketView {
    sockets[position(sockets, handle)]
}

/// The sockets with the one with `handle` replaced by `s`.
pub open spec fn with_socket(sockets: Seq<UnixSocketView>, handle: u64, s: UnixSocketView) -> Seq<UnixSocketView> {
    sockets.update(position(sockets, handle), s)
}

/// Whether `key` is bound, and to which handle.
pub open spec fn bound_to(bound: Seq<((Seq<u8>, bool), u64)>, key: (Seq<u8>, bool)) -> Option<u64> {
    if exists|i: int| 0 <= i < bound.len() && (#[trigger] bound[i]).0 == key {
        Some(bound[choose|i: int| 0 <= i < bound.len() && (#[trigger] bound[i]).0 == key].1)
    } else {
        None
    }
}

/// The table without `key`.
pub open spec fn unbind(bound: Seq<((Seq<u8>, bool), u64)>, key: (Seq<u8>, bool)) -> Seq<((Seq<u8>, bool), u64)> {
    if exists|i: int| 0 <= i < bound.len() && (#[trigger] bound[i]).0 == key {
        bound.remove(choose|i: int| 0 <= i < bound.len() && (#[trigger] bound[i]).0 == key)
    } else {
        bound
    }
}

/// The table with `key` bound to `handle`, replacing an earlier binding of it.
pub open spec fn rebind(bound: Seq<((Seq<u8>, bool), u64)>, key: (Seq<u8>, bool), handle: u64) -> Seq<((Seq<u8>, bool), u64)> {
    unbind(bound, key).push((key, handle))
}

/// The state after the socket with `handle` is woken with `events`: its version moves on
/// and the wake-up is owed; nothing for a closed socket.
pub open spec fn spec_notify(st: UnixState, handle: u64, events: u32) -> UnixState {
    if is_open(st.sockets, handle) {
        let s = socket_of(st.sockets, handle);
        UnixState {
            sockets: with_socket(st.sockets, handle, UnixSocketView { version: bumped(s.version), ..s }),
            wakes: st.wakes.push((handle, events)),
            ..st
        }
    } else {
        st
    }
}

/// What a socket's end leaves behind, once it is no longer open: its binding goes when it
/// is still its own, and its peer, when open, is woken with read, write and error.
pub open spec fn spec_drop_effects(st: UnixState, s: UnixSocketView) -> UnixState {
    let unbound = match s.bound {
        Some(key) => if bound_to(st.bound, key) == Some(s.handle) {
            UnixState { bound: unbind(st.bound, key), ..st }
        } else {
            st
        },
        None => st,
    };
    match s.peer {
        Some(p) => spec_notify(unbound, p, POLL_READ | POLL_WRITE | POLL_ERROR),
        None => unbound,
    }
}

/// The state after the socket with `handle` ends.
pub open spec fn spec_end(st: UnixState, handle: u64) -> UnixState {
    if is_open(st.sockets, handle) {
        let s = socket_of(st.sockets, handle);
        spec_drop_effects(
            UnixState { sockets: st.sockets.remove(position(st.sockets, handle)), ..st },
            s,
        )
    } else {
        st
    }
}

/// The state after the sockets with `handles` end, in order.
pub open spec fn spec_end_all(st: UnixState, handles: Seq<u64>) -> UnixState
    decreases handles.len(),
{
    if handles.len() == 0 {
        st
    } else {
        spec_end(spec_end_all(st, handles.drop_last()), handles.last())
    }
}

/// Whether the peer of a connected stream socket is gone or stops writing.
pub open spec fn peer_eof(sockets: Seq<UnixSocketView>, s: UnixSocketView) -> bool {
    s.established && match s.peer {
        Some(p) => if is_open(sockets, p) {
            socket_of(sockets, p).shut_wr
        } else {
            true
        },
        None => true,
    }
}

/// All local sockets.
pub struct UnixSockets {
    sockets: Vec<UnixSocket>,
    bound: Vec<(UnixAddress, u64)>,
    next_handle: u64,
}

impl UnixSockets {
    /// The sockets, in order.
    pub closed spec fn sockets(&self) -> Seq<UnixSocketView> {
        self.sockets@.map_values(|s: UnixSocket| s@)
    }

    /// The bound-address table.
    pub closed spec fn bound(&self) -> Seq<((Seq<u8>, bool), u64)> {
        self.bound@.map_values(|e: (UnixAddress, u64)| (e.0@, e.1))
    }

    /// The handle the next socket gets.
    pub closed spec fn next_handle(&self) -> u64 {
        self.next_handle
    }

    /// The hub as a state, with `wakes` owed.
    pub open spec fn state(&self, wakes: Seq<(u64, u32)>) -> UnixState {
        UnixState { sockets: self.sockets(), bound: self.bound(), wakes }
    }

    /// Handles are distinct and below the next one; bound addresses are distinct.
    pub open spec fn wf(&self) -> bool {
        &&& forall|i: int, j: int|
            0 <= i < j < self.sockets().len() ==> self.sockets()[i].handle != self.sockets()[j].handle
        &&& forall|i: int|
            0 <= i < self.sockets().len() ==> (#[trigger] self.sockets()[i]).handle < self.next_handle()
        &&& forall|i: int, j: int|
            0 <= i < j < self.bound().len() ==> self.bound()[i].0 != self.bound()[j].0
    }

    /// No sockets.
    pub fn new() -> (r: Self)
        ensures
            r.wf(),
            r.sockets() == Seq::<UnixSocketView>::empty(),
            r.bound() == Seq::<((Seq<u8>, bool), u64)>::empty(),
            r.next_handle() == 1,
    {
        let r = UnixSockets { sockets: Vec::new(), bound: Vec::new(), next_handle: 1 };
        assert(r.sockets() =~= Seq::<UnixSocketView>::empty());
        assert(r.bound() =~= Seq::<((Seq<u8>, bool), u64)>::empty());
        r
    }

    /// Where the socket with `handle` stands, if it is open.
    pub fn find(&self, handle: u64) -> (r: Option<usize>)
        requires
            self.wf(),
        ensures
            match r {
                Some(i) => i < self.sockets().len() && self.sockets()[i as int].handle == handle && i
                    == position(self.sockets(), handle),
                None => !is_open(self.sockets(), handle),
            },
    {
        let mut i: usize = 0;
        while i < self.sockets.len()
            invariant
                i <= self.sockets.len(),
                self.wf(),
                forall|j: int| 0 <= j < i ==> (#[trigger] self.sockets()[j]).handle != handle,
            decreases self.sockets.len() - i,
        {
            assert(self.sockets()[i as int] == self.sockets@[i as int]@);
            if self.sockets[i].handle == handle {
                proof {
                    let p = position(self.sockets(), handle);
                    assert(is_open(self.sockets(), handle));
                    if p != i {
                        assert(self.sockets()[p].handle == handle);
                    }
                }
                return Some(i);
            }
            i += 1;
        }
        None
    }

    /// The socket with `handle`.
    pub fn socket(&self, handle: u64) -> (r: &UnixSocket)
        requires
            self.wf(),
            is_open(self.sockets(), handle),
        ensures
            r@ == socket_of(self.sockets(), handle),
    {
        let i = self.find(handle).unwrap();
        assert(self.sockets()[i as int] == self.sockets@[i as int]@);
        &self.sockets[i]
    }
}

/// A socket after `listen`.
pub open spec fn listening_socket(s: UnixSocketView, backlog: i32) -> UnixSocketView {
    UnixSocketView {
        listening: true,
        backlog_limit: (if backlog < 1 {
            1
        } else {
            backlog
        }) as usize,
        backlog: Seq::empty(),
        ..s
    }
}

impl UnixSockets {
    proof fn lemma_wf_update(&self, prior: &Self, i: int)
        requires
            prior.wf(),
            0 <= i < prior.sockets().len(),
            self.sockets() == prior.sockets().update(i, self.sockets()[i]),
            self.sockets()[i].handle == prior.sockets()[i].handle,
            self.bound() == prior.bound(),
            self.next_handle() == prior.next_handle(),
        ensures
            self.wf(),
    {
        assert forall|a: int, b: int|
            0 <= a < b < self.sockets().len() implies self.sockets()[a].handle
            != self.sockets()[b].handle by {
            assert(prior.sockets()[a].handle != prior.sockets()[b].handle);
        }
        assert forall|a: int| 0 <= a < self.sockets().len() implies (
        #[trigger] self.sockets()[a]).handle < self.next_handle() by {
            assert(prior.sockets()[a].handle < prior.next_handle());
        }
    }

    /// Wakes the socket with `handle`; see `spec_notify`.
    fn notify(&mut self, handle: u64, events: u32, wakes: &mut Vec<(u64, u32)>)
        requires
            old(self).wf(),
        ensures
            final(self).wf(),
            final(self).next_handle() == old(self).next_handle(),
            final(self).state(final(wakes)@) == spec_notify(old(self).state(old(wakes)@), handle, events),
    {
        match self.find(handle) {
            None => {},
            Some(i) => {
                let ghost before = self.sockets@;
                assert(self.sockets()[i as int] == self.sockets@[i as int]@);
                let version = self.sockets[i].version;
                self.sockets[i].version = version.wrapping_add(1);
                assert(self.sockets@.map_values(|s: UnixSocket| s@) =~= before.map_values(
                    |s: UnixSocket| s@,
                ).update(i as int, self.sockets@[i as int]@));
                proof {
                    self.lemma_wf_update(old(self), i as int);
                }
                wakes.push((handle, events));
            },
        }
    }

    /// The handle bound to `address`, if any.
    pub fn lookup_bound(&self, address: &UnixAddress) -> (r: Option<u64>)
        requires
            self.wf(),
        ensures
            r == bound_to(self.bound(), address@),
    {
        match self.find_binding(address) {
            Some(k) => Some(self.bound[k].1),
            None => None,
        }
    }

    fn find_binding(&self, address: &UnixAddress) -> (r: Option<usize>)
        requires
            self.wf(),
        ensures
            match r {
                Some(k) => k < self.bound().len() && self.bound()[k as int].0 == address@ && k == (
                choose|i: int| 0 <= i < self.bound().len() && (#[trigger] self.bound()[i]).0
                    == address@) && bound_to(self.bound(), address@) == Some(self.bound()[k as int].1)
                    && unbind(self.bound(), address@) == self.bound().remove(k as int),
                None => bound_to(self.bound(), address@) is None && unbind(self.bound(), address@)
                    == self.bound(),
            },
    {
        let mut k: usize = 0;
        while k < self.bound.len()
            invariant
                k <= self.bound.len(),
                self.wf(),
                forall|j: int| 0 <= j < k ==> (#[trigger] self.bound()[j]).0 != address@,
            decreases self.bound.len() - k,
        {
            assert(self.bound()[k as int] == (self.bound@[k as int].0@, self.bound@[k as int].1));
            if self.bound[k].0.same_as(address) {
                proof {
                    let c = choose|i: int| 0 <= i < self.bound().len() && (#[trigger] self.bound()[i]).0
                        == address@;
                    if c != k {
                        if c < k {
                            assert(self.bound()[c].0 != address@);
                        } else {
                            assert(self.bound()[k as int].0 != self.bound()[c].0);
                        }
                    }
                }
                return Some(k);
            }
            k += 1;
        }
        None
    }

    /// Ends the socket with `handle`; see `spec_end`.
    fn end_socket(&mut self, handle: u64, wakes: &mut Vec<(u64, u32)>)
        requires
            old(self).wf(),
        ensures
            final(self).wf(),
            final(self).next_handle() == old(self).next_handle(),
            final(self).state(final(wakes)@) == spec_end(old(self).state(old(wakes)@), handle),
    {
        let i = match self.find(handle) {
            Some(i) => i,
            None => return,
        };
        let ghost st = self.state(wakes@);
        let ghost before = self.sockets@;
        let socket = self.sockets.remove(i);
        assert(self.sockets@.map_values(|s: UnixSocket| s@) =~= before.map_values(
            |s: UnixSocket| s@,
        ).remove(i as int));
        assert(socket@ == st.sockets[i as int]);
        proof {
            assert forall|a: int, b: int|
                0 <= a < b < self.sockets().len() implies self.sockets()[a].handle
                != self.sockets()[b].handle by {
                let oa = if a < i {
                    a
                } else {
                    a + 1
                };
                let ob = if b < i {
                    b
                } else {
                    b + 1
                };
                assert(self.sockets()[a] == old(self).sockets()[oa]);
                assert(self.sockets()[b] == old(self).sockets()[ob]);
            }
            assert forall|a: int| 0 <= a < self.sockets().len() implies (
            #[trigger] self.sockets()[a]).handle < self.next_handle() by {
                let oa = if a < i {
                    a
                } else {
                    a + 1
                };
                assert(self.sockets()[a] == old(self).sockets()[oa]);
            }
        }
        let ghost removed = self.state(wakes@);
        match &socket.bound_address {
            Some(address) => {
                match self.find_binding(address) {
                    Some(k) => {
                        if self.bound[k].1 == handle {
                            let ghost b0 = self.bound@;
                            self.bound.remove(k);
                            assert(self.bound@.map_values(|e: (UnixAddress, u64)| (e.0@, e.1)) =~= b0.map_values(
                                |e: (UnixAddress, u64)| (e.0@, e.1),
                            ).remove(k as int));
                            proof {
                                assert forall|a: int, b: int|
                                    0 <= a < b < self.bound().len() implies self.bound()[a].0
                                    != self.bound()[b].0 by {
                                    let oa = if a < k {
                                        a
                                    } else {
                                        a + 1
                                    };
                                    let ob = if b < k {
                                        b
                                    } else {
                                        b + 1
                                    };
                                    assert(self.bound()[a] == removed.bound[oa]);
                                    assert(self.bound()[b] == removed.bound[ob]);
                                }
                            }
                        }
                    },
                    None => {},
                }
            },
            None => {},
        }
        match socket.peer {
            Some(p) => {
                self.notify(p, POLL_READ | POLL_WRITE | POLL_ERROR, wakes);
            },
            None => {},
        }
    }

    /// Ends the sockets with `handles`, in order.
    fn end_all(&mut self, handles: &Vec<u64>, wakes: &mut Vec<(u64, u32)>)
        requires
            old(self).wf(),
        ensures
            final(self).wf(),
            final(self).next_handle() == old(self).next_handle(),
            final(self).state(final(wakes)@) == spec_end_all(old(self).state(old(wakes)@), handles@),
    {
        let mut k: usize = 0;
        while k < handles.len()
            invariant
                k <= handles.len(),
                self.wf(),
                self.next_handle() == old(self).next_handle(),
                self.state(wakes@) == spec_end_all(old(self).state(old(wakes)@), handles@.take(k as int)),
            decreases handles.len() - k,
        {
            assert(handles@.take(k + 1).drop_last() =~= handles@.take(k as int));
            self.end_socket(handles[k], wakes);
            k += 1;
        }
        assert(handles@.take(handles.len() as int) =~= handles@);
    }

    /// Closes the socket with `handle`: it ends, and so do the connections waiting in its
    /// backlog. The wake-ups owed are added to `wakes`.
    pub fn close(&mut self, handle: u64, wakes: &mut Vec<(u64, u32)>)
        requires
            old(self).wf(),
        ensures
            final(self).wf(),
            final(self).next_handle() == old(self).next_handle(),
            final(self).state(final(wakes)@) == if is_open(old(self).sockets(), handle) {
                spec_end_all(
                    spec_end(old(self).state(old(wakes)@), handle),
                    socket_of(old(self).sockets(), handle).backlog,
                )
            } else {
                old(self).state(old(wakes)@)
            },
    {
        let i = match self.find(handle) {
            Some(i) => i,
            None => return,
        };
        assert(self.sockets()[i as int] == self.sockets@[i as int]@);
        let mut pending: Vec<u64> = Vec::new();
        let mut k: usize = 0;
        while k < self.sockets[i].backlog.len()
            invariant
                i < self.sockets.len(),
                k <= self.sockets@[i as int].backlog@.len(),
                pending@ == self.sockets@[i as int].backlog@.take(k as int),
            decreases self.sockets@[i as int].backlog@.len() - k,
        {
            pending.push(self.sockets[i].backlog[k]);
            assert(self.sockets@[i as int].backlog@.take(k + 1) =~= self.sockets@[i as int].backlog@.take(
                k as int,
            ).push(self.sockets@[i as int].backlog@[k as int]));
            k += 1;
        }
        assert(self.sockets@[i as int].backlog@.take(k as int) =~= self.sockets@[i as int].backlog@);
        self.end_socket(handle, wakes);
        self.end_all(&pending, wakes);
    }

    /// Makes a socket of `kind` for `owner`; it gets the next handle.
    pub fn create(&mut self, kind: u32, owner: SocketCredentials) -> (r: u64)
        requires
            old(self).wf(),
            old(self).next_handle() < u64::MAX,
        ensures
            final(self).wf(),
            r == old(self).next_handle(),
            final(self).next_handle() == old(self).next_handle() + 1,
            final(self).bound() == old(self).bound(),
            final(self).sockets() == old(self).sockets().push(fresh_socket(r, kind, owner)),
    {
        let handle = self.next_handle;
        let socket = UnixSocket::new(handle, kind, owner);
        let ghost before = self.sockets@;
        self.sockets.push(socket);
        self.next_handle = handle + 1;
        assert(self.sockets@.map_values(|s: UnixSocket| s@) =~= before.map_values(
            |s: UnixSocket| s@,
        ).push(socket@));
        proof {
            assert forall|a: int, b: int|
                0 <= a < b < self.sockets().len() implies self.sockets()[a].handle
                != self.sockets()[b].handle by {
                assert(self.sockets()[a] == old(self).sockets()[a]);
                if b < old(self).sockets().len() {
                    assert(self.sockets()[b] == old(self).sockets()[b]);
                } else {
                    assert(self.sockets()[b].handle == handle);
                    assert(old(self).sockets()[a].handle < handle);
                }
            }
            assert forall|a: int| 0 <= a < self.sockets().len() implies (
            #[trigger] self.sockets()[a]).handle < self.next_handle() by {
                if a < old(self).sockets().len() {
                    assert(self.sockets()[a] == old(self).sockets()[a]);
                }
            }
        }
        assert(self.bound() == old(self).bound());
        handle
    }

    /// `socketpair`: two sockets of `kind` for `owner`, connected to each other, each
    /// woken for writing.
    pub fn create_pair(&mut self, kind: u32, owner: SocketCredentials, wakes: &mut Vec<(u64, u32)>) -> (r: (
        u64,
        u64,
    ))
        requires
            old(self).wf(),
            old(self).next_handle() < u64::MAX - 1,
        ensures
            final(self).wf(),
            r.0 == old(self).next_handle(),
            r.1 == old(self).next_handle() + 1,
            final(self).next_handle() == old(self).next_handle() + 2,
            final(self).state(final(wakes)@) == spec_notify(
                spec_notify(
                    UnixState {
                        sockets: old(self).sockets().push(
                            UnixSocketView {
                                peer: Some(r.1),
                                peer_credentials: Some(owner),
                                established: true,
                                ..fresh_socket(r.0, kind, owner)
                            },
                        ).push(
                            UnixSocketView {
                                peer: Some(r.0),
                                peer_credentials: Some(owner),
                                established: true,
                                ..fresh_socket(r.1, kind, owner)
                            },
                        ),
                        bound: old(self).bound(),
                        wakes: old(wakes)@,
                    },
                    r.0,
                    POLL_WRITE,
                ),
                r.1,
                POLL_WRITE,
            ),
    {
        let left = self.next_handle;
        let right = left + 1;
        let mut a = UnixSocket::new(left, kind, owner);
        a.peer = Some(right);
        a.peer_credentials = Some(owner);
        a.established = true;
        let mut b = UnixSocket::new(right, kind, owner);
        b.peer = Some(left);
        b.peer_credentials = Some(owner);
        b.established = true;
        let ghost before = self.sockets@;
        self.sockets.push(a);
        self.sockets.push(b);
        self.next_handle = right + 1;
        assert(self.sockets@.map_values(|s: UnixSocket| s@) =~= before.map_values(
            |s: UnixSocket| s@,
        ).push(a@).push(b@));
        proof {
            let n = old(self).sockets().len();
            assert forall|x: int, y: int|
                0 <= x < y < self.sockets().len() implies self.sockets()[x].handle
                != self.sockets()[y].handle by {
                if x < n {
                    assert(self.sockets()[x] == old(self).sockets()[x]);
                    assert(old(self).sockets()[x].handle < left);
                } else {
                    assert(self.sockets()[x].handle == left);
                }
                if y < n {
                    assert(self.sockets()[y] == old(self).sockets()[y]);
                } else if y == n {
                    assert(self.sockets()[y].handle == left);
                } else {
                    assert(self.sockets()[y].handle == right);
                }
            }
            assert forall|x: int| 0 <= x < self.sockets().len() implies (
            #[trigger] self.sockets()[x]).handle < self.next_handle() by {
                if x < n {
                    assert(self.sockets()[x] == old(self).sockets()[x]);
                }
            }
        }
        assert(self.bound() == old(self).bound());
        self.notify(left, POLL_WRITE, wakes);
        self.notify(right, POLL_WRITE, wakes);
        (left, right)
    }

    /// `bind`: the socket with `handle` takes `address` (see `spec_unix_address`);
    /// `Inval` when it is already bound, `AddrInUse` when another open socket holds the
    /// address.
    pub fn bind(&mut self, handle: u64, address: &[u8]) -> (r: Result<(), SysErr>)
        requires
            old(self).wf(),
            is_open(old(self).sockets(), handle),
        ensures
            final(self).wf(),
            final(self).next_handle() == old(self).next_handle(),
            match spec_unix_address(address@) {
                Err(e) => r == Err::<(), SysErr>(e) && final(self).sockets() == old(self).sockets()
                    && final(self).bound() == old(self).bound(),
                Ok(key) => if socket_of(old(self).sockets(), handle).bound is Some {
                    r == Err::<(), SysErr>(SysErr::Inval) && final(self).sockets() == old(
                        self,
                    ).sockets() && final(self).bound() == old(self).bound()
                } else if (bound_to(old(self).bound(), key) matches Some(other) && other != handle
                    && is_open(old(self).sockets(), other)) {
                    r == Err::<(), SysErr>(SysErr::AddrInUse) && final(self).sockets() == old(
                        self,
                    ).sockets() && final(self).bound() == old(self).bound()
                } else {
                    &&& r == Ok::<(), SysErr>(())
                    &&& final(self).bound() == rebind(old(self).bound(), key, handle)
                    &&& final(self).sockets() == with_socket(
                        old(self).sockets(),
                        handle,
                        UnixSocketView {
                            bound: Some(key),
                            ..socket_of(old(self).sockets(), handle)
                        },
                    )
                },
            },
    {
        let address = match UnixAddress::from_raw(address) {
            Ok(a) => a,
            Err(e) => return Err(e),
        };
        let i = self.find(handle).unwrap();
        assert(self.sockets()[i as int] == self.sockets@[i as int]@);
        if self.sockets[i].bound_address.is_some() {
            return Err(SysErr::Inval);
        }
        let existing = self.find_binding(&address);
        match existing {
            Some(k) => {
                let other = self.bound[k].1;
                if other != handle && self.find(other).is_some() {
                    return Err(SysErr::AddrInUse);
                }
                let ghost b0 = self.bound@;
                self.bound.remove(k);
                assert(self.bound@.map_values(|e: (UnixAddress, u64)| (e.0@, e.1)) =~= b0.map_values(
                    |e: (UnixAddress, u64)| (e.0@, e.1),
                ).remove(k as int));
            },
            None => {},
        }
        let ghost unbound = self.bound();
        assert(unbound == unbind(old(self).bound(), address@));
        let stored = address.duplicate();
        let ghost b1 = self.bound@;
        self.bound.push((stored, handle));
        assert(self.bound@.map_values(|e: (UnixAddress, u64)| (e.0@, e.1)) =~= b1.map_values(
            |e: (UnixAddress, u64)| (e.0@, e.1),
        ).push((address@, handle)));
        let ghost before = self.sockets@;
        self.sockets[i].bound_address = Some(address);
        assert(self.sockets@.map_values(|s: UnixSocket| s@) =~= before.map_values(
            |s: UnixSocket| s@,
        ).update(i as int, self.sockets@[i as int]@));
        proof {
            assert forall|a: int, b: int|
                0 <= a < b < self.sockets().len() implies self.sockets()[a].handle
                != self.sockets()[b].handle by {
                assert(old(self).sockets()[a].handle != old(self).sockets()[b].handle);
            }
            assert forall|a: int| 0 <= a < self.sockets().len() implies (
            #[trigger] self.sockets()[a]).handle < self.next_handle() by {
                assert(old(self).sockets()[a].handle < old(self).next_handle());
            }
            let ob = old(self).bound();
            assert forall|a: int, b: int|
                0 <= a < b < self.bound().len() implies self.bound()[a].0 != self.bound()[b].0 by {
                if b == self.bound().len() - 1 {
                    assert(self.bound()[b].0 == address@);
                    assert(self.bound()[a] == unbound[a]);
                    if unbound[a].0 == address@ {
                        // every remaining entry differs from the removed key
                        match existing {
                            Some(k) => {
                                let oa = if a < k {
                                    a
                                } else {
                                    a + 1
                                };
                                assert(unbound[a] == ob[oa]);
                                assert(ob[k as int].0 == address@);
                                assert(oa != k);
                                if oa < k {
                                    assert(ob[oa].0 != ob[k as int].0);
                                } else {
                                    assert(ob[k as int].0 != ob[oa].0);
                                }
                            },
                            None => {
                                assert(bound_to(ob, address@) is None);
                                assert(ob[a].0 == address@);
                            },
                        }
                    }
                } else {
                    assert(self.bound()[a] == unbound[a]);
                    assert(self.bound()[b] == unbound[b]);
                    match existing {
                        Some(k) => {
                            let oa = if a < k {
                                a
                            } else {
                                a + 1
                            };
                            let obb = if b < k {
                                b
                            } else {
                                b + 1
                            };
                            assert(unbound[a] == ob[oa]);
                            assert(unbound[b] == ob[obb]);
                        },
                        None => {},
                    }
                }
            }
        }
        Ok(())
    }

    /// `listen`: only stream and sequenced-packet sockets listen (`NoSys` otherwise); the
    /// backlog limit becomes `backlog` (at least 1), the waiting connections end, and the
    /// socket is woken for writing.
    pub fn listen(&mut self, handle: u64, backlog: i32, wakes: &mut Vec<(u64, u32)>) -> (r: Result<
        (),
        SysErr,
    >)
        requires
            old(self).wf(),
            is_open(old(self).sockets(), handle),
        ensures
            final(self).wf(),
            final(self).next_handle() == old(self).next_handle(),
            ({
                let s = socket_of(old(self).sockets(), handle);
                if s.kind != SOCK_STREAM && s.kind != SOCK_SEQPACKET {
                    r == Err::<(), SysErr>(SysErr::NoSys) && final(self).state(final(wakes)@) == old(
                        self,
                    ).state(old(wakes)@)
                } else {
                    r == Ok::<(), SysErr>(()) && final(self).state(final(wakes)@) == spec_notify(
                        spec_end_all(
                            UnixState {
                                sockets: with_socket(
                                    old(self).sockets(),
                                    handle,
                                    listening_socket(s, backlog),
                                ),
                                ..old(self).state(old(wakes)@)
                            },
                            s.backlog,
                        ),
                        handle,
                        POLL_WRITE,
                    )
                }
            }),
    {
        let i = self.find(handle).unwrap();
        assert(self.sockets()[i as int] == self.sockets@[i as int]@);
        if self.sockets[i].kind != SOCK_STREAM && self.sockets[i].kind != SOCK_SEQPACKET {
            return Err(SysErr::NoSys);
        }
        let limit: i32 = if backlog < 1 {
            1
        } else {
            backlog
        };
        let ghost before = self.sockets@;
        let mut waiting: Vec<u64> = Vec::new();
        std::mem::swap(&mut waiting, &mut self.sockets[i].backlog);
        self.sockets[i].listening = true;
        self.sockets[i].backlog_limit = limit as usize;
        assert(self.sockets@[i as int]@ == listening_socket(before[i as int]@, backlog));
        assert(self.sockets@.map_values(|s: UnixSocket| s@) =~= before.map_values(
            |s: UnixSocket| s@,
        ).update(i as int, self.sockets@[i as int]@));
        proof {
            self.lemma_wf_update(old(self), i as int);
        }
        self.end_all(&waiting, wakes);
        self.notify(handle, POLL_WRITE, wakes);
        Ok(())
    }
}

/// A bound-address lookup: the open socket bound to `key`; a binding whose socket is
/// gone is dropped on the way.
pub open spec fn spec_lookup_bound(st: UnixState, key: (Seq<u8>, bool)) -> (UnixState, Option<u64>) {
    match bound_to(st.bound, key) {
        Some(t) => if is_open(st.sockets, t) {
            (st, Some(t))
        } else {
            (UnixState { bound: unbind(st.bound, key), ..st }, None)
        },
        None => (st, None),
    }
}

/// `connect` to the open socket `t`: a datagram socket just takes it as its peer; a
/// connection to a listening socket gets a new server socket (handle `next`) that waits in
/// the listener's backlog (`ConnRefused` when `t` does not listen, `IsConn` when already
/// connected, `Again` when the backlog is full, after the client has taken the new peer).
pub open spec fn spec_connect_to(st: UnixState, next: u64, handle: u64, t: u64) -> (UnixState, Result<
    (),
    SysErr,
>) {
    let s = socket_of(st.sockets, handle);
    let target = socket_of(st.sockets, t);
    if s.kind == SOCK_DGRAM {
        (
            spec_notify(
                UnixState {
                    sockets: with_socket(
                        st.sockets,
                        handle,
                        UnixSocketView {
                            peer: Some(t),
                            peer_credentials: Some(target.owner),
                            established: true,
                            ..s
                        },
                    ),
                    ..st
                },
                handle,
                POLL_WRITE,
            ),
            Ok(()),
        )
    } else if !target.listening {
        (st, Err(SysErr::ConnRefused))
    } else if (s.peer matches Some(p) && is_open(st.sockets, p)) {
        (st, Err(SysErr::IsConn))
    } else {
        let client = UnixSocketView {
            peer: Some(next),
            peer_credentials: Some(target.owner),
            established: true,
            ..s
        };
        let st1 = UnixState { sockets: with_socket(st.sockets, handle, client), ..st };
        let limit = if target.backlog_limit < 1 {
            1
        } else {
            target.backlog_limit
        };
        if target.backlog.len() >= limit {
            (st1, Err(SysErr::Again))
        } else {
            let listener = socket_of(st1.sockets, t);
            let server = UnixSocketView {
                bound: target.bound,
                peer_credentials: Some(s.owner),
                established: true,
                peer: Some(handle),
                ..fresh_socket(next, s.kind, target.owner)
            };
            let sockets2 = with_socket(
                st1.sockets,
                t,
                UnixSocketView { backlog: listener.backlog.push(next), ..listener },
            ).push(server);
            (
                spec_notify(
                    spec_notify(UnixState { sockets: sockets2, ..st1 }, t, POLL_READ),
                    handle,
                    POLL_WRITE,
                ),
                Ok(()),
            )
        }
    }
}

/// Where a send goes: the socket bound to the given address (`NoEnt` when none), or the
/// open peer (`DestAddrReq` for a datagram socket without one, `NotConn` otherwise).
pub open spec fn spec_destination(st: UnixState, handle: u64, address: Option<Seq<u8>>) -> (UnixState, Result<
    u64,
    SysErr,
>) {
    let s = socket_of(st.sockets, handle);
    match address {
        Some(raw) => match spec_unix_address(raw) {
            Err(e) => (st, Err(e)),
            Ok(key) => {
                let (st1, found) = spec_lookup_bound(st, key);
                match found {
                    Some(t) => (st1, Ok(t)),
                    None => (st1, Err(SysErr::NoEnt)),
                }
            },
        },
        None => if (s.peer matches Some(p) && is_open(st.sockets, p)) {
            (st, Ok(s.peer->0))
        } else if s.kind == SOCK_DGRAM {
            (st, Err(SysErr::DestAddrReq))
        } else {
            (st, Err(SysErr::NotConn))
        },
    }
}

/// Queues a send of `data` from the socket with `handle` on the open socket `p`: a stream
/// chunk, or a datagram carrying the sender's bound name; the receiver is woken for
/// reading when something was queued.
pub open spec fn spec_deliver(
    st: UnixState,
    handle: u64,
    p: u64,
    data: Seq<u8>,
    ancillary: Option<AncillaryView>,
) -> (UnixState, Result<usize, SysErr>) {
    let s = socket_of(st.sockets, handle);
    let (peer2, r) = if s.kind == SOCK_STREAM {
        spec_enqueue_stream(socket_of(st.sockets, p), data, ancillary)
    } else {
        spec_enqueue_packet(
            socket_of(st.sockets, p),
            data,
            match s.bound {
                Some((key, abs)) => Some(unix_address_bytes(key, abs)),
                None => None,
            },
            ancillary,
        )
    };
    let st1 = UnixState { sockets: with_socket(st.sockets, p, peer2), ..st };
    if r is Ok && !(s.kind == SOCK_STREAM && data.len() == 0) {
        (spec_notify(st1, p, POLL_READ), r)
    } else {
        (st1, r)
    }
}

/// The ancillary data a message carries: its descriptors and its credentials (the given
/// ones, else the sender's when the receiver asked for them); none when both are empty.
pub open spec fn outbound_ancillary(
    rights: Seq<u64>,
    explicit: Option<SocketCredentials>,
    sender: SocketCredentials,
    passcred: bool,
) -> Option<AncillaryView> {
    let credentials = match explicit {
        Some(c) => Some(c),
        None => if passcred {
            Some(sender)
        } else {
            None
        },
    };
    if rights.len() == 0 && credentials is None {
        None
    } else {
        Some(AncillaryView { rights, credentials })
    }
}

/// Whether a socket can be read without blocking.
pub open spec fn read_ready(sockets: Seq<UnixSocketView>, s: UnixSocketView) -> bool {
    if s.listening {
        s.backlog.len() > 0
    } else if s.shut_rd {
        true
    } else if s.kind == SOCK_STREAM {
        s.stream.len() > 0 || peer_eof(sockets, s)
    } else {
        s.packets.len() > 0
    }
}

/// Whether a socket can be written without blocking.
pub open spec fn write_ready(sockets: Seq<UnixSocketView>, s: UnixSocketView) -> bool {
    if s.shut_wr || s.listening {
        false
    } else if s.kind == SOCK_DGRAM || s.kind == SOCK_SEQPACKET {
        true
    } else {
        s.peer matches Some(p) && is_open(sockets, p) && !socket_of(sockets, p).shut_rd
            && socket_of(sockets, p).recv_size < socket_of(sockets, p).rcvbuf
    }
}

/// A message as `sendmsg` hands it over: where to, the data, the descriptors to pass, and
/// credentials.
pub struct UnixMessage {
    pub name: Option<Vec<u8>>,
    pub data: Vec<u8>,
    pub rights: Vec<u64>,
    pub sender: SocketCredentials,
    pub explicit_credentials: Option<SocketCredentials>,
}

impl UnixSockets {
    fn lookup_bound_mut(&mut self, address: &UnixAddress) -> (r: Option<u64>)
        requires
            old(self).wf(),
        ensures
            final(self).wf(),
            final(self).next_handle() == old(self).next_handle(),
            final(self).sockets() == old(self).sockets(),
            (final(self).state(Seq::empty()), r) == spec_lookup_bound(
                old(self).state(Seq::empty()),
                address@,
            ),
    {
        match self.find_binding(address) {
            None => None,
            Some(k) => {
                let t = self.bound[k].1;
                if self.find(t).is_some() {
                    Some(t)
                } else {
                    let ghost b0 = self.bound@;
                    let ghost ob = self.bound();
                    self.bound.remove(k);
                    assert(self.bound@.map_values(|e: (UnixAddress, u64)| (e.0@, e.1)) =~= b0.map_values(
                        |e: (UnixAddress, u64)| (e.0@, e.1),
                    ).remove(k as int));
                    proof {
                        assert forall|a: int, b: int|
                            0 <= a < b < self.bound().len() implies self.bound()[a].0
                            != self.bound()[b].0 by {
                            let oa = if a < k {
                                a
                            } else {
                                a + 1
                            };
                            let obb = if b < k {
                                b
                            } else {
                                b + 1
                            };
                            assert(self.bound()[a] == ob[oa]);
                            assert(self.bound()[b] == ob[obb]);
                        }
                    }
                    None
                }
            },
        }
    }

    proof fn lemma_state_wakes(&self, w1: Seq<(u64, u32)>, w2: Seq<(u64, u32)>)
        ensures
            self.state(w1).sockets == self.state(w2).sockets,
            self.state(w1).bound == self.state(w2).bound,
    {
    }

    /// `connect`; see `spec_connect_to`. The address is read as `spec_unix_address`
    /// reads it; `NoEnt` when no open socket is bound to it.
    pub fn connect(&mut self, handle: u64, address: &[u8], wakes: &mut Vec<(u64, u32)>) -> (r: Result<
        (),
        SysErr,
    >)
        requires
            old(self).wf(),
            is_open(old(self).sockets(), handle),
            old(self).next_handle() < u64::MAX,
        ensures
            final(self).wf(),
            match spec_unix_address(address@) {
                Err(e) => r == Err::<(), SysErr>(e) && final(self).state(final(wakes)@) == old(
                    self,
                ).state(old(wakes)@) && final(self).next_handle() == old(self).next_handle(),
                Ok(key) => {
                    let (st1, found) = spec_lookup_bound(old(self).state(old(wakes)@), key);
                    match found {
                        None => r == Err::<(), SysErr>(SysErr::NoEnt) && final(self).state(
                            final(wakes)@,
                        ) == st1 && final(self).next_handle() == old(self).next_handle(),
                        Some(t) => {
                            let (st2, res) = spec_connect_to(st1, old(self).next_handle(), handle, t);
                            &&& r == res
                            &&& final(self).state(final(wakes)@) == st2
                            &&& final(self).next_handle() == if socket_of(st1.sockets, handle).kind
                                != SOCK_DGRAM && res != Err::<(), SysErr>(SysErr::ConnRefused) && res
                                != Err::<(), SysErr>(SysErr::IsConn) {
                                (old(self).next_handle() + 1) as u64
                            } else {
                                old(self).next_handle()
                            }
                        },
                    }
                },
            },
    {
        let address = match UnixAddress::from_raw(address) {
            Ok(a) => a,
            Err(e) => return Err(e),
        };
        let ghost st0 = self.state(wakes@);
        let found = self.lookup_bound_mut(&address);
        proof {
            self.lemma_state_wakes(wakes@, Seq::empty());
            old(self).lemma_state_wakes(wakes@, Seq::empty());
        }
        let t = match found {
            Some(t) => t,
            None => return Err(SysErr::NoEnt),
        };
        self.connect_to(handle, t, wakes)
    }

    /// `connect` to the open socket `t`; see `spec_connect_to`.
    fn connect_to(&mut self, handle: u64, t: u64, wakes: &mut Vec<(u64, u32)>) -> (r: Result<(), SysErr>)
        requires
            old(self).wf(),
            is_open(old(self).sockets(), handle),
            is_open(old(self).sockets(), t),
            old(self).next_handle() < u64::MAX,
        ensures
            final(self).wf(),
            (final(self).state(final(wakes)@), r) == spec_connect_to(
                old(self).state(old(wakes)@),
                old(self).next_handle(),
                handle,
                t,
            ),
            final(self).next_handle() == if socket_of(old(self).sockets(), handle).kind != SOCK_DGRAM
                && r != Err::<(), SysErr>(SysErr::ConnRefused) && r != Err::<(), SysErr>(
                SysErr::IsConn,
            ) {
                (old(self).next_handle() + 1) as u64
            } else {
                old(self).next_handle()
            },
    {
        let i = self.find(handle).unwrap();
        assert(self.sockets()[i as int] == self.sockets@[i as int]@);
        if self.sockets[i].kind == SOCK_DGRAM {
            self.connect_datagram(i, handle, t, wakes);
            return Ok(());
        }
        self.connect_stream(i, handle, t, wakes)
    }

    fn connect_datagram(&mut self, i: usize, handle: u64, t: u64, wakes: &mut Vec<(u64, u32)>)
        requires
            old(self).wf(),
            is_open(old(self).sockets(), handle),
            is_open(old(self).sockets(), t),
            i == position(old(self).sockets(), handle),
            socket_of(old(self).sockets(), handle).kind == SOCK_DGRAM,
        ensures
            final(self).wf(),
            final(self).next_handle() == old(self).next_handle(),
            (final(self).state(final(wakes)@), Ok::<(), SysErr>(())) == spec_connect_to(
                old(self).state(old(wakes)@),
                old(self).next_handle(),
                handle,
                t,
            ),
    {
        let ti = self.find(t).unwrap();
        assert(self.sockets()[ti as int] == self.sockets@[ti as int]@);
        assert(self.sockets()[i as int] == self.sockets@[i as int]@);
        let target_owner = self.sockets[ti].owner;
        let ghost st1 = self.sockets();
        let ghost before = self.sockets@;
        self.sockets[i].peer = Some(t);
        self.sockets[i].peer_credentials = Some(target_owner);
        self.sockets[i].established = true;
        assert(self.sockets@.map_values(|s: UnixSocket| s@) =~= before.map_values(
            |s: UnixSocket| s@,
        ).update(i as int, self.sockets@[i as int]@));
        proof {
            assert(self.bound() == old(self).bound());
            self.lemma_wf_update_from(st1, old(self).bound(), old(self).next_handle(), i as int);
        }
        self.notify(handle, POLL_WRITE, wakes);
    }

    #[verifier::rlimit(40)]
    fn connect_stream(&mut self, i: usize, handle: u64, t: u64, wakes: &mut Vec<(u64, u32)>) -> (r: Result<
        (),
        SysErr,
    >)
        requires
            old(self).wf(),
            is_open(old(self).sockets(), handle),
            is_open(old(self).sockets(), t),
            i == position(old(self).sockets(), handle),
            socket_of(old(self).sockets(), handle).kind != SOCK_DGRAM,
            old(self).next_handle() < u64::MAX,
        ensures
            final(self).wf(),
            (final(self).state(final(wakes)@), r) == spec_connect_to(
                old(self).state(old(wakes)@),
                old(self).next_handle(),
                handle,
                t,
            ),
            final(self).next_handle() == if r != Err::<(), SysErr>(SysErr::ConnRefused) && r
                != Err::<(), SysErr>(SysErr::IsConn) {
                (old(self).next_handle() + 1) as u64
            } else {
                old(self).next_handle()
            },
    {
        let ti = self.find(t).unwrap();
        assert(self.sockets()[ti as int] == self.sockets@[ti as int]@);
        assert(self.sockets()[i as int] == self.sockets@[i as int]@);
        let target_owner = self.sockets[ti].owner;
        if !self.sockets[ti].listening {
            return Err(SysErr::ConnRefused);
        }
        match self.sockets[i].peer {
            Some(p) => {
                if self.find(p).is_some() {
                    return Err(SysErr::IsConn);
                }
            },
            None => {},
        }
        let ghost st0 = self.sockets();
        let server_handle = self.next_handle;
        self.next_handle = server_handle + 1;
        let client_owner = self.sockets[i].owner;
        let client_kind = self.sockets[i].kind;
        let ghost before = self.sockets@;
        self.sockets[i].peer = Some(server_handle);
        self.sockets[i].peer_credentials = Some(target_owner);
        self.sockets[i].established = true;
        assert(self.sockets@.map_values(|s: UnixSocket| s@) =~= before.map_values(
            |s: UnixSocket| s@,
        ).update(i as int, self.sockets@[i as int]@));
        proof {
            assert(self.bound() == old(self).bound());
            self.lemma_wf_update_from(st0, old(self).bound(), old(self).next_handle(), i as int);
        }
        let ghost st1 = self.sockets();
        assert(st1 == with_socket(
            st0,
            handle,
            UnixSocketView {
                peer: Some(server_handle),
                peer_credentials: Some(target_owner),
                established: true,
                ..socket_of(st0, handle)
            },
        ));
        assert(self.sockets()[ti as int] == self.sockets@[ti as int]@);
        let limit = if self.sockets[ti].backlog_limit < 1 {
            1
        } else {
            self.sockets[ti].backlog_limit
        };
        if self.sockets[ti].backlog.len() >= limit {
            return Err(SysErr::Again);
        }
        let mut server = UnixSocket::new(server_handle, client_kind, target_owner);
        server.bound_address = match &self.sockets[ti].bound_address {
            Some(a) => Some(a.duplicate()),
            None => None,
        };
        server.peer_credentials = Some(client_owner);
        server.established = true;
        server.peer = Some(handle);
        let ghost before2 = self.sockets@;
        self.sockets[ti].backlog.push(server_handle);
        assert(self.sockets@.map_values(|s: UnixSocket| s@) =~= before2.map_values(
            |s: UnixSocket| s@,
        ).update(ti as int, self.sockets@[ti as int]@));
        let ghost mid = self.sockets();
        let ghost sv = server@;
        self.sockets.push(server);
        assert(self.sockets@.map_values(|s: UnixSocket| s@) =~= mid.push(sv));
        proof {
            assert(position(st1, t) == ti);
            self.lemma_wf_after_server(mid, ti as int, server_handle);
        }
        self.notify(t, POLL_READ, wakes);
        self.notify(handle, POLL_WRITE, wakes);
        Ok(())
    }

    proof fn lemma_wf_update_from(
        &self,
        prior: Seq<UnixSocketView>,
        bound: Seq<((Seq<u8>, bool), u64)>,
        next: u64,
        i: int,
    )
        requires
            forall|a: int, b: int| 0 <= a < b < prior.len() ==> prior[a].handle != prior[b].handle,
            forall|a: int| 0 <= a < prior.len() ==> (#[trigger] prior[a]).handle < next,
            forall|a: int, b: int| 0 <= a < b < bound.len() ==> bound[a].0 != bound[b].0,
            0 <= i < prior.len(),
            self.sockets() == prior.update(i, self.sockets()[i]),
            self.sockets()[i].handle == prior[i].handle,
            self.bound() == bound,
            next <= self.next_handle(),
        ensures
            self.wf(),
    {
        assert forall|a: int, b: int|
            0 <= a < b < self.sockets().len() implies self.sockets()[a].handle
            != self.sockets()[b].handle by {
            assert(prior[a].handle != prior[b].handle);
        }
        assert forall|a: int| 0 <= a < self.sockets().len() implies (
        #[trigger] self.sockets()[a]).handle < self.next_handle() by {
            assert(prior[a].handle < next);
        }
    }

    proof fn lemma_wf_after_server(&self, mid: Seq<UnixSocketView>, ti: int, server: u64)
        requires
            forall|a: int, b: int| 0 <= a < b < mid.len() ==> mid[a].handle != mid[b].handle,
            forall|a: int| 0 <= a < mid.len() ==> (#[trigger] mid[a]).handle < server,
            forall|a: int, b: int| 0 <= a < b < self.bound().len() ==> self.bound()[a].0 != self.bound()[b].0,
            self.sockets().len() == mid.len() + 1,
            forall|a: int| 0 <= a < mid.len() ==> (#[trigger] self.sockets()[a]).handle == mid[a].handle,
            self.sockets()[mid.len() as int].handle == server,
            self.next_handle() == server + 1,
        ensures
            self.wf(),
    {
        assert forall|a: int, b: int|
            0 <= a < b < self.sockets().len() implies self.sockets()[a].handle
            != self.sockets()[b].handle by {
            if b < mid.len() {
                assert(mid[a].handle != mid[b].handle);
            } else {
                assert(mid[a].handle < server);
            }
        }
        assert forall|a: int| 0 <= a < self.sockets().len() implies (
        #[trigger] self.sockets()[a]).handle < self.next_handle() by {
            if a < mid.len() {
                assert(mid[a].handle < server);
            }
        }
    }
}


/// `accept` on a listening socket: the oldest waiting connection leaves the backlog with
/// the name of the socket at its other end (`Inval` when not listening, `Again` when none
/// waits); the listener is woken for writing.
pub open spec fn spec_accept(st: UnixState, handle: u64) -> (UnixState, Result<
    (u64, Option<Seq<u8>>),
    SysErr,
>) {
    let s = socket_of(st.sockets, handle);
    if !s.listening {
        (st, Err(SysErr::Inval))
    } else if s.backlog.len() == 0 {
        (st, Err(SysErr::Again))
    } else {
        let accepted = s.backlog[0];
        let address = if is_open(st.sockets, accepted) && (socket_of(st.sockets, accepted).peer matches Some(
            p,
        ) && is_open(st.sockets, p)) {
            Some(local_name_of(socket_of(st.sockets, socket_of(st.sockets, accepted).peer->0).bound))
        } else {
            None
        };
        let st1 = UnixState {
            sockets: with_socket(st.sockets, handle, UnixSocketView { backlog: s.backlog.drop_first(), ..s }),
            ..st
        };
        (spec_notify(st1, handle, POLL_WRITE), Ok((accepted, address)))
    }
}

/// `sendto`: nothing to do for empty stream data; else the data goes to the destination
/// (`spec_destination`) as `spec_deliver` queues it.
pub open spec fn spec_send_to(st: UnixState, handle: u64, data: Seq<u8>, address: Option<Seq<u8>>) -> (
    UnixState,
    Result<usize, SysErr>,
) {
    if data.len() == 0 && socket_of(st.sockets, handle).kind == SOCK_STREAM {
        (st, Ok(0))
    } else {
        let (st1, dest) = spec_destination(st, handle, address);
        match dest {
            Err(e) => (st1, Err(e)),
            Ok(p) => spec_deliver(st1, handle, p, data, None),
        }
    }
}

/// `sendmsg`: the data goes to the destination with the ancillary data that
/// `outbound_ancillary` makes (by the receiver's `SO_PASSCRED`); ancillary data without
/// bytes is `Inval`.
pub open spec fn spec_send_msg(
    st: UnixState,
    handle: u64,
    name: Option<Seq<u8>>,
    data: Seq<u8>,
    rights: Seq<u64>,
    sender: SocketCredentials,
    explicit: Option<SocketCredentials>,
) -> (UnixState, Result<usize, SysErr>) {
    let (st1, dest) = spec_destination(st, handle, name);
    match dest {
        Err(e) => (st1, Err(e)),
        Ok(p) => {
            let ancillary = outbound_ancillary(rights, explicit, sender, socket_of(st1.sockets, p).passcred);
            if ancillary is Some && data.len() == 0 {
                (st1, Err(SysErr::Inval))
            } else {
                spec_deliver(st1, handle, p, data, ancillary)
            }
        }
    }
}

impl UnixSockets {
    /// `accept`; see `spec_accept`.
    pub fn accept(&mut self, handle: u64, wakes: &mut Vec<(u64, u32)>) -> (r: Result<
        (u64, Option<Vec<u8>>),
        SysErr,
    >)
        requires
            old(self).wf(),
            is_open(old(self).sockets(), handle),
        ensures
            final(self).wf(),
            final(self).next_handle() == old(self).next_handle(),
            ({
                let (st, res) = spec_accept(old(self).state(old(wakes)@), handle);
                &&& final(self).state(final(wakes)@) == st
                &&& match (r, res) {
                    (Ok((h, a)), Ok((sh, sa))) => h == sh && match a {
                        Some(v) => sa == Some(v@),
                        None => sa is None,
                    },
                    (Err(e), Err(se)) => e == se,
                    _ => false,
                }
            }),
    {
        let i = self.find(handle).unwrap();
        assert(self.sockets()[i as int] == self.sockets@[i as int]@);
        if !self.sockets[i].listening {
            return Err(SysErr::Inval);
        }
        if self.sockets[i].backlog.len() == 0 {
            return Err(SysErr::Again);
        }
        let accepted = self.sockets[i].backlog[0];
        let address = match self.find(accepted) {
            Some(a) => {
                assert(self.sockets()[a as int] == self.sockets@[a as int]@);
                match self.sockets[a].peer {
                    Some(p) => match self.find(p) {
                        Some(pi) => {
                            assert(self.sockets()[pi as int] == self.sockets@[pi as int]@);
                            Some(self.sockets[pi].local_name())
                        },
                        None => None,
                    },
                    None => None,
                }
            },
            None => None,
        };
        let ghost before = self.sockets@;
        self.sockets[i].backlog.remove(0);
        assert(self.sockets@[i as int]@.backlog =~= before[i as int]@.backlog.drop_first());
        assert(self.sockets@.map_values(|s: UnixSocket| s@) =~= before.map_values(
            |s: UnixSocket| s@,
        ).update(i as int, self.sockets@[i as int]@));
        proof {
            self.lemma_wf_update(old(self), i as int);
        }
        self.notify(handle, POLL_WRITE, wakes);
        Ok((accepted, address))
    }

    /// Where a send from `handle` goes; see `spec_destination`.
    fn destination(&mut self, handle: u64, address: Option<&[u8]>, Ghost(w): Ghost<Seq<(u64, u32)>>) -> (r:
        Result<u64, SysErr>)
        requires
            old(self).wf(),
            is_open(old(self).sockets(), handle),
        ensures
            final(self).wf(),
            final(self).next_handle() == old(self).next_handle(),
            final(self).sockets() == old(self).sockets(),
            (final(self).state(w), r) == spec_destination(
                old(self).state(w),
                handle,
                match address {
                    Some(a) => Some(a@),
                    None => None,
                },
            ),
            r matches Ok(p) ==> is_open(final(self).sockets(), p),
    {
        match address {
            Some(raw) => {
                let a = match UnixAddress::from_raw(raw) {
                    Ok(a) => a,
                    Err(e) => return Err(e),
                };
                let found = self.lookup_bound_mut(&a);
                proof {
                    self.lemma_state_wakes(w, Seq::empty());
                    old(self).lemma_state_wakes(w, Seq::empty());
                }
                match found {
                    Some(t) => Ok(t),
                    None => Err(SysErr::NoEnt),
                }
            },
            None => {
                let i = self.find(handle).unwrap();
                assert(self.sockets()[i as int] == self.sockets@[i as int]@);
                match self.sockets[i].peer {
                    Some(p) => {
                        if self.find(p).is_some() {
                            return Ok(p);
                        }
                    },
                    None => {},
                }
                if self.sockets[i].kind == SOCK_DGRAM {
                    Err(SysErr::DestAddrReq)
                } else {
                    Err(SysErr::NotConn)
                }
            },
        }
    }

    /// Queues data from `handle` on the open socket `p`; see `spec_deliver`.
    fn deliver(
        &mut self,
        handle: u64,
        p: u64,
        data: &[u8],
        ancillary: Option<UnixAncillary>,
        wakes: &mut Vec<(u64, u32)>,
    ) -> (r: Result<usize, SysErr>)
        requires
            old(self).wf(),
            is_open(old(self).sockets(), handle),
            is_open(old(self).sockets(), p),
        ensures
            final(self).wf(),
            final(self).next_handle() == old(self).next_handle(),
            (final(self).state(final(wakes)@), r) == spec_deliver(
                old(self).state(old(wakes)@),
                handle,
                p,
                data@,
                ancillary_view(ancillary),
            ),
    {
        let i = self.find(handle).unwrap();
        assert(self.sockets()[i as int] == self.sockets@[i as int]@);
        let kind = self.sockets[i].kind;
        let source: Option<Vec<u8>> = match &self.sockets[i].bound_address {
            Some(a) => Some(a.serialize()),
            None => None,
        };
        let pi = self.find(p).unwrap();
        assert(self.sockets()[pi as int] == self.sockets@[pi as int]@);
        let ghost before = self.sockets@;
        let r = if kind == SOCK_STREAM {
            self.sockets[pi].enqueue_stream(data, ancillary)
        } else {
            self.sockets[pi].enqueue_packet_from(data, source, ancillary)
        };
        assert(self.sockets@.map_values(|s: UnixSocket| s@) =~= before.map_values(
            |s: UnixSocket| s@,
        ).update(pi as int, self.sockets@[pi as int]@));
        proof {
            self.lemma_wf_update(old(self), pi as int);
        }
        if r.is_ok() && !(kind == SOCK_STREAM && data.len() == 0) {
            self.notify(p, POLL_READ, wakes);
        }
        r
    }

    /// `sendto`; see `spec_send_to`.
    pub fn send_to(
        &mut self,
        handle: u64,
        buffer: &[u8],
        address: Option<&[u8]>,
        wakes: &mut Vec<(u64, u32)>,
    ) -> (r: Result<usize, SysErr>)
        requires
            old(self).wf(),
            is_open(old(self).sockets(), handle),
        ensures
            final(self).wf(),
            final(self).next_handle() == old(self).next_handle(),
            (final(self).state(final(wakes)@), r) == spec_send_to(
                old(self).state(old(wakes)@),
                handle,
                buffer@,
                match address {
                    Some(a) => Some(a@),
                    None => None,
                },
            ),
    {
        let i = self.find(handle).unwrap();
        assert(self.sockets()[i as int] == self.sockets@[i as int]@);
        if buffer.len() == 0 && self.sockets[i].kind == SOCK_STREAM {
            return Ok(0);
        }
        let p = match self.destination(handle, address, Ghost(wakes@)) {
            Ok(p) => p,
            Err(e) => return Err(e),
        };
        self.deliver(handle, p, buffer, None, wakes)
    }

    /// `sendmsg`; see `spec_send_msg`.
    pub fn send_msg(&mut self, handle: u64, message: &UnixMessage, wakes: &mut Vec<(u64, u32)>) -> (r:
        Result<usize, SysErr>)
        requires
            old(self).wf(),
            is_open(old(self).sockets(), handle),
        ensures
            final(self).wf(),
            final(self).next_handle() == old(self).next_handle(),
            (final(self).state(final(wakes)@), r) == spec_send_msg(
                old(self).state(old(wakes)@),
                handle,
                match message.name {
                    Some(a) => Some(a@),
                    None => None,
                },
                message.data@,
                message.rights@,
                message.sender,
                message.explicit_credentials,
            ),
    {
        let name: Option<&[u8]> = match &message.name {
            Some(a) => Some(a.as_slice()),
            None => None,
        };
        let p = match self.destination(handle, name, Ghost(wakes@)) {
            Ok(p) => p,
            Err(e) => return Err(e),
        };
        let pi = self.find(p).unwrap();
        assert(self.sockets()[pi as int] == self.sockets@[pi as int]@);
        let passcred = self.sockets[pi].passcred;
        let credentials = match message.explicit_credentials {
            Some(c) => Some(c),
            None => if passcred {
                Some(message.sender)
            } else {
                None
            },
        };
        let ancillary = if message.rights.len() == 0 && credentials.is_none() {
            None
        } else {
            Some(UnixAncillary { rights: message.rights.clone(), credentials })
        };
        if ancillary.is_some() && message.data.len() == 0 {
            return Err(SysErr::Inval);
        }
        self.deliver(handle, p, message.data.as_slice(), ancillary, wakes)
    }
}


/// A receive on the socket with `handle`: a stream receive (`spec_recv_stream`, the peer's
/// end of file as `peer_eof` tells) or a datagram receive (`spec_recv_packet`); when
/// something was queued and is taken, the peer is woken for writing.
pub open spec fn spec_receive(st: UnixState, handle: u64, len: usize, peek: bool, with_control: bool) -> (
    UnixState,
    Result<(Seq<u8>, Option<Seq<u8>>, Option<AncillaryView>, u32), SysErr>,
) {
    let s = socket_of(st.sockets, handle);
    if s.kind == SOCK_STREAM {
        let (s2, res) = spec_recv_stream(s, len, peek, with_control, peer_eof(st.sockets, s));
        let st1 = UnixState { sockets: with_socket(st.sockets, handle, s2), ..st };
        let out = match res {
            Ok((bytes, anc)) => Ok((bytes, None, anc, 0u32)),
            Err(e) => Err(e),
        };
        if !s.shut_rd && s.stream.len() > 0 && !peek && s.peer is Some {
            (spec_notify(st1, s.peer->0, POLL_WRITE), out)
        } else {
            (st1, out)
        }
    } else {
        let (s2, res) = spec_recv_packet(s, len, peek, with_control);
        let st1 = UnixState { sockets: with_socket(st.sockets, handle, s2), ..st };
        if !s.shut_rd && s.packets.len() > 0 && !peek && s.peer is Some {
            (spec_notify(st1, s.peer->0, POLL_WRITE), res)
        } else {
            (st1, res)
        }
    }
}

/// Whether a receive result is the one described: its bytes, sender, ancillary data and
/// flags, or the same error.
pub open spec fn receive_matches(
    r: Result<UnixReceive, SysErr>,
    res: Result<(Seq<u8>, Option<Seq<u8>>, Option<AncillaryView>, u32), SysErr>,
) -> bool {
    match (r, res) {
        (Ok(got), Ok((bytes, source, anc, msg_flags))) => got.data@ == bytes && match got.address {
            Some(a) => source == Some(a@),
            None => source is None,
        } && ancillary_view(got.ancillary) == anc && got.msg_flags == msg_flags,
        (Err(e), Err(se)) => e == se,
        _ => false,
    }
}

/// How `read` reports a receive error: `WouldBlock` for `Again` and `NotConn`.
pub open spec fn read_error(e: SysErr) -> FsError {
    if e == SysErr::Again || e == SysErr::NotConn {
        FsError::WouldBlock
    } else {
        FsError::Unsupported
    }
}

/// How `write` reports a send error: `WouldBlock` for `Again`, `BrokenPipe` for `Pipe`.
pub open spec fn write_error(e: SysErr) -> FsError {
    if e == SysErr::Again {
        FsError::WouldBlock
    } else if e == SysErr::Pipe {
        FsError::BrokenPipe
    } else {
        FsError::Unsupported
    }
}

/// `shutdown`: `NotConn` before a connection; `how` 0 stops reading, 1 writing, 2 both
/// (`Inval` otherwise); the socket and its peer are woken with read, write and error.
pub open spec fn spec_shutdown(st: UnixState, handle: u64, how: i32) -> (UnixState, Result<(), SysErr>) {
    let s = socket_of(st.sockets, handle);
    if !s.established && !(s.peer matches Some(p) && is_open(st.sockets, p)) {
        (st, Err(SysErr::NotConn))
    } else if how != 0 && how != 1 && how != 2 {
        (st, Err(SysErr::Inval))
    } else {
        let s2 = UnixSocketView {
            shut_rd: s.shut_rd || how == 0 || how == 2,
            shut_wr: s.shut_wr || how == 1 || how == 2,
            ..s
        };
        let st1 = spec_notify(
            UnixState { sockets: with_socket(st.sockets, handle, s2), ..st },
            handle,
            POLL_READ | POLL_WRITE | POLL_ERROR,
        );
        (
            match s.peer {
                Some(p) => spec_notify(st1, p, POLL_READ | POLL_WRITE | POLL_ERROR),
                None => st1,
            },
            Ok(()),
        )
    }
}

/// Readiness of `s` among `events`: readable and writable as `read_ready` and
/// `write_ready` say; an error once writing stopped or a stream's peer is at end of file.
pub open spec fn spec_unix_poll(sockets: Seq<UnixSocketView>, s: UnixSocketView, events: u32) -> u32 {
    (if events & POLL_READ != 0 && read_ready(sockets, s) {
        POLL_READ
    } else {
        0
    }) | (if events & POLL_WRITE != 0 && write_ready(sockets, s) {
        POLL_WRITE
    } else {
        0
    }) | (if s.shut_wr || (s.kind == SOCK_STREAM && peer_eof(sockets, s)) {
        POLL_ERROR
    } else {
        0
    })
}

impl UnixSockets {
    /// Whether the socket at `i` has a stream peer at end of file; see `peer_eof`.
    fn peer_eof_at(&self, i: usize) -> (r: bool)
        requires
            self.wf(),
            i < self.sockets().len(),
        ensures
            r == peer_eof(self.sockets(), self.sockets()[i as int]),
    {
        assert(self.sockets()[i as int] == self.sockets@[i as int]@);
        if !self.sockets[i].established {
            return false;
        }
        match self.sockets[i].peer {
            Some(p) => match self.find(p) {
                Some(pi) => {
                    assert(self.sockets()[pi as int] == self.sockets@[pi as int]@);
                    self.sockets[pi].shut_wr
                },
                None => true,
            },
            None => true,
        }
    }

    fn receive(
        &mut self,
        handle: u64,
        len: usize,
        flags: u64,
        with_control: bool,
        wakes: &mut Vec<(u64, u32)>,
    ) -> (r: Result<UnixReceive, SysErr>)
        requires
            old(self).wf(),
            is_open(old(self).sockets(), handle),
        ensures
            final(self).wf(),
            final(self).next_handle() == old(self).next_handle(),
            ({
                let (st, res) = spec_receive(
                    old(self).state(old(wakes)@),
                    handle,
                    len,
                    flags & MSG_PEEK != 0,
                    with_control,
                );
                final(self).state(final(wakes)@) == st && receive_matches(r, res)
            }),
    {
        let i = self.find(handle).unwrap();
        assert(self.sockets()[i as int] == self.sockets@[i as int]@);
        let peek = flags & MSG_PEEK != 0;
        let stream = self.sockets[i].kind == SOCK_STREAM;
        let eof = if stream {
            self.peer_eof_at(i)
        } else {
            false
        };
        let queued = if stream {
            self.sockets[i].recv_stream.len() > 0
        } else {
            self.sockets[i].recv_packets.len() > 0
        };
        let consuming = !self.sockets[i].shut_rd && !peek && queued;
        let peer = self.sockets[i].peer;
        let ghost before = self.sockets@;
        let r = if stream {
            self.sockets[i].recv_stream(len, flags, with_control, eof)
        } else {
            self.sockets[i].recv_packet(len, flags, with_control)
        };
        assert(self.sockets@.map_values(|s: UnixSocket| s@) =~= before.map_values(
            |s: UnixSocket| s@,
        ).update(i as int, self.sockets@[i as int]@));
        proof {
            self.lemma_wf_update(old(self), i as int);
        }
        if consuming {
            match peer {
                Some(p) => self.notify(p, POLL_WRITE, wakes),
                None => {},
            }
        }
        r
    }

    /// `recvfrom`: a receive without ancillary data; see `spec_receive`.
    pub fn recv_from(&mut self, handle: u64, len: usize, flags: u64, wakes: &mut Vec<(u64, u32)>) -> (r:
        Result<UnixReceive, SysErr>)
        requires
            old(self).wf(),
            is_open(old(self).sockets(), handle),
        ensures
            final(self).wf(),
            final(self).next_handle() == old(self).next_handle(),
            ({
                let (st, res) = spec_receive(
                    old(self).state(old(wakes)@),
                    handle,
                    len,
                    flags & MSG_PEEK != 0,
                    false,
                );
                final(self).state(final(wakes)@) == st && receive_matches(r, res)
            }),
    {
        self.receive(handle, len, flags, false, wakes)
    }

    /// `recvmsg`: a receive with ancillary data; see `spec_receive`.
    pub fn recv_msg(&mut self, handle: u64, len: usize, flags: u64, wakes: &mut Vec<(u64, u32)>) -> (r:
        Result<UnixReceive, SysErr>)
        requires
            old(self).wf(),
            is_open(old(self).sockets(), handle),
        ensures
            final(self).wf(),
            final(self).next_handle() == old(self).next_handle(),
            ({
                let (st, res) = spec_receive(
                    old(self).state(old(wakes)@),
                    handle,
                    len,
                    flags & MSG_PEEK != 0,
                    true,
                );
                final(self).state(final(wakes)@) == st && receive_matches(r, res)
            }),
    {
        self.receive(handle, len, flags, true, wakes)
    }

    /// `read`: `recv_from` without flags, errors as `read_error` reports them.
    pub fn read(&mut self, handle: u64, len: usize, wakes: &mut Vec<(u64, u32)>) -> (r: Result<
        Vec<u8>,
        FsError,
    >)
        requires
            old(self).wf(),
            is_open(old(self).sockets(), handle),
        ensures
            final(self).wf(),
            final(self).next_handle() == old(self).next_handle(),
            ({
                let (st, res) = spec_receive(old(self).state(old(wakes)@), handle, len, false, false);
                &&& final(self).state(final(wakes)@) == st
                &&& match res {
                    Ok((bytes, _, _, _)) => r matches Ok(v) && v@ == bytes,
                    Err(e) => r == Err::<Vec<u8>, FsError>(read_error(e)),
                }
            }),
    {
        assert(0u64 & MSG_PEEK == 0) by (bit_vector);
        match self.recv_from(handle, len, 0, wakes) {
            Ok(received) => Ok(received.data),
            Err(SysErr::Again) => Err(FsError::WouldBlock),
            Err(SysErr::NotConn) => Err(FsError::WouldBlock),
            Err(_) => Err(FsError::Unsupported),
        }
    }

    /// `write`: `send_to` to the peer, errors as `write_error` reports them.
    pub fn write(&mut self, handle: u64, buffer: &[u8], wakes: &mut Vec<(u64, u32)>) -> (r: Result<
        usize,
        FsError,
    >)
        requires
            old(self).wf(),
            is_open(old(self).sockets(), handle),
        ensures
            final(self).wf(),
            final(self).next_handle() == old(self).next_handle(),
            ({
                let (st, res) = spec_send_to(old(self).state(old(wakes)@), handle, buffer@, None);
                &&& final(self).state(final(wakes)@) == st
                &&& match res {
                    Ok(n) => r == Ok::<usize, FsError>(n),
                    Err(e) => r == Err::<usize, FsError>(write_error(e)),
                }
            }),
    {
        match self.send_to(handle, buffer, None, wakes) {
            Ok(n) => Ok(n),
            Err(SysErr::Again) => Err(FsError::WouldBlock),
            Err(SysErr::Pipe) => Err(FsError::BrokenPipe),
            Err(_) => Err(FsError::Unsupported),
        }
    }

    /// `shutdown`; see `spec_shutdown`.
    pub fn shutdown(&mut self, handle: u64, how: i32, wakes: &mut Vec<(u64, u32)>) -> (r: Result<
        (),
        SysErr,
    >)
        requires
            old(self).wf(),
            is_open(old(self).sockets(), handle),
        ensures
            final(self).wf(),
            final(self).next_handle() == old(self).next_handle(),
            (final(self).state(final(wakes)@), r) == spec_shutdown(old(self).state(old(wakes)@), handle, how),
    {
        let i = self.find(handle).unwrap();
        assert(self.sockets()[i as int] == self.sockets@[i as int]@);
        let peer = self.sockets[i].peer;
        let peer_open = match peer {
            Some(p) => self.find(p).is_some(),
            None => false,
        };
        if !self.sockets[i].established && !peer_open {
            return Err(SysErr::NotConn);
        }
        if how != 0 && how != 1 && how != 2 {
            return Err(SysErr::Inval);
        }
        let ghost before = self.sockets@;
        if how == 0 || how == 2 {
            self.sockets[i].shut_rd = true;
        }
        if how == 1 || how == 2 {
            self.sockets[i].shut_wr = true;
        }
        assert(self.sockets@.map_values(|s: UnixSocket| s@) =~= before.map_values(
            |s: UnixSocket| s@,
        ).update(i as int, self.sockets@[i as int]@));
        proof {
            self.lemma_wf_update(old(self), i as int);
        }
        self.notify(handle, POLL_READ | POLL_WRITE | POLL_ERROR, wakes);
        match peer {
            Some(p) => self.notify(p, POLL_READ | POLL_WRITE | POLL_ERROR, wakes),
            None => {},
        }
        Ok(())
    }

    /// The name the socket with `handle` reports.
    pub fn sock_name(&self, handle: u64) -> (r: Result<Vec<u8>, SysErr>)
        requires
            self.wf(),
            is_open(self.sockets(), handle),
        ensures
            r matches Ok(v) && v@ == local_name_of(socket_of(self.sockets(), handle).bound),
    {
        Ok(self.socket(handle).local_name())
    }

    /// The name of the open peer of the socket with `handle`; `NotConn` without one.
    pub fn peer_name(&self, handle: u64) -> (r: Result<Vec<u8>, SysErr>)
        requires
            self.wf(),
            is_open(self.sockets(), handle),
        ensures
            ({
                let s = socket_of(self.sockets(), handle);
                if s.peer matches Some(p) && is_open(self.sockets(), p) {
                    r matches Ok(v) && v@ == local_name_of(socket_of(self.sockets(), s.peer->0).bound)
                } else {
                    r == Err::<Vec<u8>, SysErr>(SysErr::NotConn)
                }
            }),
    {
        match self.socket(handle).peer {
            Some(p) => match self.find(p) {
                Some(pi) => {
                    assert(self.sockets()[pi as int] == self.sockets@[pi as int]@);
                    Ok(self.sockets[pi].local_name())
                },
                None => Err(SysErr::NotConn),
            },
            None => Err(SysErr::NotConn),
        }
    }

    /// `setsockopt` on the socket with `handle`; see `spec_unix_setsockopt`.
    pub fn setsockopt(&mut self, handle: u64, level: i32, optname: i32, value: &[u8]) -> (r: Result<
        (),
        SysErr,
    >)
        requires
            old(self).wf(),
            is_open(old(self).sockets(), handle),
        ensures
            final(self).wf(),
            final(self).next_handle() == old(self).next_handle(),
            final(self).bound() == old(self).bound(),
            match spec_unix_setsockopt(socket_of(old(self).sockets(), handle), level, optname, value@) {
                Ok(s) => r == Ok::<(), SysErr>(()) && final(self).sockets() == with_socket(
                    old(self).sockets(),
                    handle,
                    s,
                ),
                Err(e) => r == Err::<(), SysErr>(e) && final(self).sockets() == old(self).sockets(),
            },
    {
        let i = self.find(handle).unwrap();
        assert(self.sockets()[i as int] == self.sockets@[i as int]@);
        let ghost before = self.sockets@;
        let r = self.sockets[i].setsockopt(level, optname, value);
        assert(self.sockets@.map_values(|s: UnixSocket| s@) =~= before.map_values(
            |s: UnixSocket| s@,
        ).update(i as int, self.sockets@[i as int]@));
        proof {
            self.lemma_wf_update(old(self), i as int);
        }
        r
    }

    /// Whether the socket at `i` can be read without blocking; see `read_ready`.
    fn read_ready_at(&self, i: usize) -> (r: bool)
        requires
            self.wf(),
            i < self.sockets().len(),
        ensures
            r == read_ready(self.sockets(), self.sockets()[i as int]),
    {
        assert(self.sockets()[i as int] == self.sockets@[i as int]@);
        let s = &self.sockets[i];
        if s.listening {
            s.backlog.len() > 0
        } else if s.shut_rd {
            true
        } else if s.kind == SOCK_STREAM {
            s.recv_stream.len() > 0 || self.peer_eof_at(i)
        } else {
            s.recv_packets.len() > 0
        }
    }

    /// Whether the socket at `i` can be written without blocking; see `write_ready`.
    fn write_ready_at(&self, i: usize) -> (r: bool)
        requires
            self.wf(),
            i < self.sockets().len(),
        ensures
            r == write_ready(self.sockets(), self.sockets()[i as int]),
    {
        assert(self.sockets()[i as int] == self.sockets@[i as int]@);
        let s = &self.sockets[i];
        if s.shut_wr || s.listening {
            false
        } else if s.kind == SOCK_DGRAM || s.kind == SOCK_SEQPACKET {
            true
        } else {
            match s.peer {
                Some(p) => match self.find(p) {
                    Some(pi) => {
                        assert(self.sockets()[pi as int] == self.sockets@[pi as int]@);
                        !self.sockets[pi].shut_rd && self.sockets[pi].recv_size < self.sockets[pi].rcvbuf
                    },
                    None => false,
                },
                None => false,
            }
        }
    }

    /// Readiness of the socket with `handle` among `events`; see `spec_unix_poll`.
    pub fn poll(&self, handle: u64, events: u32) -> (r: u32)
        requires
            self.wf(),
            is_open(self.sockets(), handle),
        ensures
            r == spec_unix_poll(self.sockets(), socket_of(self.sockets(), handle), events),
    {
        let i = self.find(handle).unwrap();
        assert(self.sockets()[i as int] == self.sockets@[i as int]@);
        let read: u32 = if events & POLL_READ != 0 && self.read_ready_at(i) {
            POLL_READ
        } else {
            0
        };
        let write: u32 = if events & POLL_WRITE != 0 && self.write_ready_at(i) {
            POLL_WRITE
        } else {
            0
        };
        let error: u32 = if self.sockets[i].shut_wr || (self.sockets[i].kind == SOCK_STREAM
            && self.peer_eof_at(i)) {
            POLL_ERROR
        } else {
            0
        };
        read | write | error
    }
}


/// No two sockets share a handle.
pub open spec fn distinct_handles(sockets: Seq<UnixSocketView>) -> bool {
    forall|i: int, j: int| 0 <= i < j < sockets.len() ==> sockets[i].handle != sockets[j].handle
}

proof fn lemma_position_at(sockets: Seq<UnixSocketView>, handle: u64, i: int)
    requires
        distinct_handles(sockets),
        0 <= i < sockets.len(),
        sockets[i].handle == handle,
    ensures
        is_open(sockets, handle),
        position(sockets, handle) == i,
{
    let p = position(sockets, handle);
    assert(sockets[p].handle == handle);
    if p < i {
        assert(sockets[p].handle != sockets[i].handle);
    } else if p > i {
        assert(sockets[i].handle != sockets[p].handle);
    }
}

proof fn lemma_with_socket(sockets: Seq<UnixSocketView>, handle: u64, s: UnixSocketView)
    requires
        distinct_handles(sockets),
        is_open(sockets, handle),
        s.handle == handle,
    ensures
        distinct_handles(with_socket(sockets, handle, s)),
        is_open(with_socket(sockets, handle, s), handle),
        socket_of(with_socket(sockets, handle, s), handle) == s,
        forall|x: u64| #[trigger]
            is_open(with_socket(sockets, handle, s), x) == is_open(sockets, x),
        forall|x: u64|
            x != handle && is_open(sockets, x) ==> #[trigger] socket_of(with_socket(sockets, handle, s), x)
                == socket_of(sockets, x),
{
    let i = position(sockets, handle);
    let t = with_socket(sockets, handle, s);
    assert forall|a: int, b: int| 0 <= a < b < t.len() implies t[a].handle != t[b].handle by {
        assert(sockets[a].handle != sockets[b].handle);
    }
    lemma_position_at(t, handle, i);
    assert forall|x: u64| #[trigger] is_open(t, x) == is_open(sockets, x) by {
        if is_open(sockets, x) {
            let k = position(sockets, x);
            assert(t[k].handle == x);
        }
        if is_open(t, x) {
            let k = position(t, x);
            assert(sockets[k].handle == x);
        }
    }
    assert forall|x: u64| x != handle && is_open(sockets, x) implies #[trigger] socket_of(t, x) == socket_of(
        sockets,
        x,
    ) by {
        let k = position(sockets, x);
        assert(k != i);
        lemma_position_at(t, x, k);
    }
}

/// Bytes written on a connected stream socket are what its peer reads next: when the
/// peer's queue is empty, it still reads and has room for them, a write of `data` queues
/// all of it and a read of at least as many bytes gives exactly `data`.
pub proof fn lemma_stream_write_then_read(st: UnixState, a: u64, b: u64, data: Seq<u8>, len: usize)
    requires
        distinct_handles(st.sockets),
        is_open(st.sockets, a),
        is_open(st.sockets, b),
        socket_of(st.sockets, a).kind == SOCK_STREAM,
        socket_of(st.sockets, a).peer == Some(b),
        socket_of(st.sockets, b).kind == SOCK_STREAM,
        socket_of(st.sockets, b).stream.len() == 0,
        !socket_of(st.sockets, b).shut_rd,
        socket_of(st.sockets, b).recv_size + data.len() <= socket_of(st.sockets, b).rcvbuf,
        0 < data.len() <= len,
    ensures
        spec_send_to(st, a, data, None).1 == Ok::<usize, SysErr>(data.len() as usize),
        spec_receive(spec_send_to(st, a, data, None).0, b, len, false, false).1 == Ok::<
            (Seq<u8>, Option<Seq<u8>>, Option<AncillaryView>, u32),
            SysErr,
        >((data, None, None, 0)),
{
    let sb = socket_of(st.sockets, b);
    let (sb2, w) = spec_enqueue_stream(sb, data, None);
    assert(w == Ok::<usize, SysErr>(data.len() as usize));
    let st1 = UnixState { sockets: with_socket(st.sockets, b, sb2), ..st };
    lemma_with_socket(st.sockets, b, sb2);
    let sb3 = UnixSocketView { version: bumped(sb2.version), ..sb2 };
    lemma_with_socket(st1.sockets, b, sb3);
    let st2 = spec_notify(st1, b, POLL_READ);
    assert(spec_send_to(st, a, data, None) == (st2, w));
    assert(socket_of(st2.sockets, b) == sb3);
    let chunk = ChunkView { data: data.take(data.len() as int), read_offset: 0, ancillary: None };
    assert(sb3.stream == seq![chunk]);
    assert(data.take(data.len() as int) =~= data);
    let rest = seq![chunk].drop_first();
    assert(stream_take(rest, len - data.len(), false, None) == (rest, Seq::<u8>::empty(), None::<AncillaryView>));
    assert(data.subrange(0, data.len() as int) + Seq::<u8>::empty() =~= data);
}

} // verus!
