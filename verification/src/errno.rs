use vstd::prelude::*;

verus! {
/// System error codes compatible with Linux x86_64.
///
/// The numeric values match the Linux kernel's error codes for the x86_64 architecture.
/// A system call that fails returns the negated code.
#[derive(Debug, Clone, Copy, PartialEq, Eq, Structural)]
pub enum SysErr {
    /// Operation not permitted (EPERM = 1)
    Perm,
    /// No such file or directory (ENOENT = 2)
    NoEnt,
    /// No such process (ESRCH = 3)
    Srch,
    /// Interrupted system call (EINTR = 4)
    Intr,
    /// I/O error (EIO = 5)
    Io,
    /// No such device or address (ENXIO = 6)
    Nxio,
    /// Argument list too long (E2BIG = 7)
    TooBig,
    /// Exec format error (ENOEXEC = 8)
    NoExec,
    /// Bad file number (EBADF = 9)
    BadFd,
    /// No child processes (ECHILD = 10)
    Child,
    /// Try again (EAGAIN = 11)
    Again,
    /// Out of memory (ENOMEM = 12)
    NoMem,
    /// Permission denied (EACCES = 13)
    Access,
    /// Bad address (EFAULT = 14)
    Fault,
    /// Block device required (ENOTBLK = 15)
    NotBlk,
    /// Device or resource busy (EBUSY = 16)
    Busy,
    /// File exists (EEXIST = 17)
    Exists,
    /// Cross-device link (EXDEV = 18)
    XDev,
    /// No such device (ENODEV = 19)
    NoDev,
    /// Not a directory (ENOTDIR = 20)
    NotDir,
    /// Is a directory (EISDIR = 21)
    IsDir,
    /// Invalid argument (EINVAL = 22)
    Inval,
    /// File table overflow (ENFILE = 23)
    NFile,
    /// Too many open files (EMFILE = 24)
    MFile,
    /// Not a typewriter (ENOTTY = 25)
    NoTty,
    /// Text file busy (ETXTBSY = 26)
    TxtBsy,
    /// File too large (EFBIG = 27)
    FBig,
    /// No space left on device (ENOSPC = 28)
    NoSpc,
    /// Illegal seek (ESPIPE = 29)
    SPipe,
    /// Read-only file system (EROFS = 30)
    RoFs,
    /// Too many links (EMLINK = 31)
    MLink,
    /// Broken pipe (EPIPE = 32)
    Pipe,
    /// Math argument out of domain (EDOM = 33)
    Dom,
    /// Math result not representable (ERANGE = 34)
    Range,
    /// Resource deadlock would occur (EDEADLK = 35)
    DeadLk,
    /// File name too long (ENAMETOOLONG = 36)
    NameTooLong,
    /// No record locks available (ENOLCK = 37)
    NoLck,
    /// Function not implemented (ENOSYS = 38)
    NoSys,
    /// Directory not empty (ENOTEMPTY = 39)
    NotEmpty,
    /// Too many symbolic links encountered (ELOOP = 40)
    Loop,
    /// No message of desired type (ENOMSG = 42)
    NoMsg,
    /// Identifier removed (EIDRM = 43)
    IdRm,
    /// Channel number out of range (ECHRNG = 44)
    Chrng,
    /// Level 2 not synchronized (EL2NSYNC = 45)
    L2Nsyc,
    /// Level 3 halted (EL3HLT = 46)
    L3Hlt,
    /// Level 3 reset (EL3RST = 47)
    L3Rst,
    /// Link number out of range (ELNRNG = 48)
    LnRng,
    /// Protocol driver not attached (EUNATCH = 49)
    Unatch,
    /// No CSI structure available (ENOCSI = 50)
    NoCsi,
    /// Level 2 halted (EL2HLT = 51)
    L2Hlt,
    /// Invalid exchange (EBADE = 52)
    Bade,
    /// Invalid request descriptor (EBADR = 53)
    Badr,
    /// Exchange full (EXFULL = 54)
    XFull,
    /// No anode (ENOANO = 55)
    NoAno,
    /// Invalid request code (EBADRQC = 56)
    BadRqc,
    /// Invalid slot (EBADSLT = 57)
    BadSlt,
    /// Deadlock (EDEADLOCK = 58, same as EDEADLK on some architectures)
    DeadLock,
    /// Bad font file format (EBFONT = 59)
    Bfont,
    /// Device not a stream (ENOSTR = 60)
    NoStr,
    /// No data available (ENODATA = 61)
    NoData,
    /// Timer expired (ETIME = 62)
    Time,
    /// Out of streams resources (ENOSR = 63)
    NoSr,
    /// Machine is not on the network (ENONET = 64)
    NoNet,
    /// Package not installed (ENOPKG = 65)
    NoPkg,
    /// Object is remote (EREMOTE = 66)
    Remote,
    /// Link has been severed (ENOLINK = 67)
    NoLink,
    /// Advertise error (EADV = 68)
    Adv,
    /// Srmount error (ESRMNT = 69)
    SrMnt,
    /// Communication error on send (ECOMM = 70)
    Comm,
    /// Protocol error (EPROTO = 71)
    Proto,
    /// Multihop attempted (EMULTIHOP = 72)
    MultiHop,
    /// RFS specific error (EDOTDOT = 73)
    DotDot,
    /// Not a data message (EBADMSG = 74)
    BadMsg,
    /// Value too large for defined data type (EOVERFLOW = 75)
    Overflow,
    /// Name not unique on network (ENOTUNIQ = 76)
    NotUniq,
    /// File descriptor in bad state (EBADFD = 77)
    BadFdState,
    /// Remote address changed (EREMCHG = 78)
    RemChg,
    /// Can not access a needed shared library (ELIBACC = 79)
    LibAcc,
    /// Accessing a corrupted shared library (ELIBBAD = 80)
    LibBad,
    /// .lib section in a.out corrupted (ELIBSCN = 81)
    LibScn,
    /// Attempting to link in too many shared libraries (ELIBMAX = 82)
    LibMax,
    /// Cannot exec a shared library directly (ELIBEXEC = 83)
    LibExec,
    /// Illegal byte sequence (EILSEQ = 84)
    IlSeq,
    /// Interrupted system call should be restarted (ERESTART = 85)
    Restart,
    /// Streams pipe error (ESTRPIPE = 86)
    StrPipe,
    /// Too many users (EUSERS = 87)
    Users,
    /// Socket operation on non-socket (ENOTSOCK = 88)
    NotSock,
    /// Destination address required (EDESTADDRREQ = 89)
    DestAddrReq,
    /// Message too long (EMSGSIZE = 90)
    MsgSize,
    /// Protocol wrong type for socket (EPROTOTYPE = 91)
    ProtoType,
    /// Protocol not available (ENOPROTOOPT = 92)
    NoProtoOpt,
    /// Protocol not supported (EPROTONOSUPPORT = 93)
    ProtoNoSupport,
    /// Socket type not supported (ESOCKTNOSUPPORT = 94)
    SockTNoSupport,
    /// Operation not supported on transport endpoint (EOPNOTSUPP = 95)
    NotSup,
    /// Protocol family not supported (EPFNOSUPPORT = 96)
    PfNoSupport,
    /// Address family not supported by protocol (EAFNOSUPPORT = 97)
    AfNoSupport,
    /// Address already in use (EADDRINUSE = 98)
    AddrInUse,
    /// Cannot assign requested address (EADDRNOTAVAIL = 99)
    AddrNotAvail,
    /// Network is down (ENETDOWN = 100)
    NetDown,
    /// Network is unreachable (ENETUNREACH = 101)
    NetUnreach,
    /// Network dropped connection because of reset (ENETRESET = 102)
    NetReset,
    /// Software caused connection abort (ECONNABORTED = 103)
    ConnAborted,
    /// Connection reset by peer (ECONNRESET = 104)
    ConnReset,
    /// No buffer space available (ENOBUFS = 105)
    NoBufs,
    /// Transport endpoint is already connected (EISCONN = 106)
    IsConn,
    /// Transport endpoint is not connected (ENOTCONN = 107)
    NotConn,
    /// Cannot send after transport endpoint shutdown (ESHUTDOWN = 108)
    Shutdown,
    /// Too many references: cannot splice (ETOOMANYREFS = 109)
    TooManyRefs,
    /// Connection timed out (ETIMEDOUT = 110)
    TimedOut,
    /// Connection refused (ECONNREFUSED = 111)
    ConnRefused,
    /// Host is down (EHOSTDOWN = 112)
    HostDown,
    /// No route to host (EHOSTUNREACH = 113)
    HostUnreach,
    /// Operation already in progress (EALREADY = 114)
    Already,
    /// Operation now in progress (EINPROGRESS = 115)
    InProgress,
    /// Stale NFS file handle (ESTALE = 116)
    Stale,
    /// Structure needs cleaning (EUCLEAN = 117)
    Uclean,
    /// Not a XENIX named type file (ENOTNAM = 118)
    NotNam,
    /// No XENIX semaphores available (ENAVAIL = 119)
    Navail,
    /// Is a named type file (EISNAM = 120)
    IsNam,
    /// Remote I/O error (EREMOTEIO = 121)
    RemoteIo,
    /// Quota exceeded (EDQUOT = 122)
    DQuot,
    /// No medium found (ENOMEDIUM = 123)
    NoMedium,
    /// Wrong medium type (EMEDIUMTYPE = 124)
    MediumType,
    /// Operation canceled (ECANCELED = 125)
    Canceled,
    /// Required key not available (ENOKEY = 126)
    NoKey,
    /// Key has expired (EKEYEXPIRED = 127)
    KeyExpired,
    /// Key has been revoked (EKEYREVOKED = 128)
    KeyRevoked,
    /// Key was rejected by service (EKEYREJECTED = 129)
    KeyRejected,
    /// Owner died (EOWNERDEAD = 130)
    OwnerDead,
    /// State not recoverable (ENOTRECOVERABLE = 131)
    NotRecoverable,
    /// Operation not possible due to RF-kill (ERFKILL = 132)
    RfKill,
    /// Memory page has hardware error (EHWPOISON = 133)
    HwPoison,
}

/// Result type of the kernel's system-call paths.
pub type SysResult<T> = Result<T, SysErr>;

impl SysErr {
    /// The Linux error number of each error.
    pub open spec fn spec_code(self) -> int {
        match self {
            SysErr::Perm => 1,
            SysErr::NoEnt => 2,
            SysErr::Srch => 3,
            SysErr::Intr => 4,
            SysErr::Io => 5,
            SysErr::Nxio => 6,
            SysErr::TooBig => 7,
            SysErr::NoExec => 8,
            SysErr::BadFd => 9,
            SysErr::Child => 10,
            SysErr::Again => 11,
            SysErr::NoMem => 12,
            SysErr::Access => 13,
            SysErr::Fault => 14,
            SysErr::NotBlk => 15,
            SysErr::Busy => 16,
            SysErr::Exists => 17,
            SysErr::XDev => 18,
            SysErr::NoDev => 19,
            SysErr::NotDir => 20,
            SysErr::IsDir => 21,
            SysErr::Inval => 22,
            SysErr::NFile => 23,
            SysErr::MFile => 24,
            SysErr::NoTty => 25,
            SysErr::TxtBsy => 26,
            SysErr::FBig => 27,
            SysErr::NoSpc => 28,
            SysErr::SPipe => 29,
            SysErr::RoFs => 30,
            SysErr::MLink => 31,
            SysErr::Pipe => 32,
            SysErr::Dom => 33,
            SysErr::Range => 34,
            SysErr::DeadLk => 35,
            SysErr::NameTooLong => 36,
            SysErr::NoLck => 37,
            SysErr::NoSys => 38,
            SysErr::NotEmpty => 39,
            SysErr::Loop => 40,
            SysErr::NoMsg => 42,
            SysErr::IdRm => 43,
            SysErr::Chrng => 44,
            SysErr::L2Nsyc => 45,
            SysErr::L3Hlt => 46,
            SysErr::L3Rst => 47,
            SysErr::LnRng => 48,
            SysErr::Unatch => 49,
            SysErr::NoCsi => 50,
            SysErr::L2Hlt => 51,
            SysErr::Bade => 52,
            SysErr::Badr => 53,
            SysErr::XFull => 54,
            SysErr::NoAno => 55,
            SysErr::BadRqc => 56,
            SysErr::BadSlt => 57,
            SysErr::DeadLock => 58,
            SysErr::Bfont => 59,
            SysErr::NoStr => 60,
            SysErr::NoData => 61,
            SysErr::Time => 62,
            SysErr::NoSr => 63,
            SysErr::NoNet => 64,
            SysErr::NoPkg => 65,
            SysErr::Remote => 66,
            SysErr::NoLink => 67,
            SysErr::Adv => 68,
            SysErr::SrMnt => 69,
            SysErr::Comm => 70,
            SysErr::Proto => 71,
            SysErr::MultiHop => 72,
            SysErr::DotDot => 73,
            SysErr::BadMsg => 74,
            SysErr::Overflow => 75,
            SysErr::NotUniq => 76,
            SysErr::BadFdState => 77,
            SysErr::RemChg => 78,
            SysErr::LibAcc => 79,
            SysErr::LibBad => 80,
            SysErr::LibScn => 81,
            SysErr::LibMax => 82,
            SysErr::LibExec => 83,
            SysErr::IlSeq => 84,
            SysErr::Restart => 85,
            SysErr::StrPipe => 86,
            SysErr::Users => 87,
            SysErr::NotSock => 88,
            SysErr::DestAddrReq => 89,
            SysErr::MsgSize => 90,
            SysErr::ProtoType => 91,
            SysErr::NoProtoOpt => 92,
            SysErr::ProtoNoSupport => 93,
            SysErr::SockTNoSupport => 94,
            SysErr::NotSup => 95,
            SysErr::PfNoSupport => 96,
            SysErr::AfNoSupport => 97,
            SysErr::AddrInUse => 98,
            SysErr::AddrNotAvail => 99,
            SysErr::NetDown => 100,
            SysErr::NetUnreach => 101,
            SysErr::NetReset => 102,
            SysErr::ConnAborted => 103,
            SysErr::ConnReset => 104,
            SysErr::NoBufs => 105,
            SysErr::IsConn => 106,
            SysErr::NotConn => 107,
            SysErr::Shutdown => 108,
            SysErr::TooManyRefs => 109,
            SysErr::TimedOut => 110,
            SysErr::ConnRefused => 111,
            SysErr::HostDown => 112,
            SysErr::HostUnreach => 113,
            SysErr::Already => 114,
            SysErr::InProgress => 115,
            SysErr::Stale => 116,
            SysErr::Uclean => 117,
            SysErr::NotNam => 118,
            SysErr::Navail => 119,
            SysErr::IsNam => 120,
            SysErr::RemoteIo => 121,
            SysErr::DQuot => 122,
            SysErr::NoMedium => 123,
            SysErr::MediumType => 124,
            SysErr::Canceled => 125,
            SysErr::NoKey => 126,
            SysErr::KeyExpired => 127,
            SysErr::KeyRevoked => 128,
            SysErr::KeyRejected => 129,
            SysErr::OwnerDead => 130,
            SysErr::NotRecoverable => 131,
            SysErr::RfKill => 132,
            SysErr::HwPoison => 133,
        }
    }

    /// Returns the Linux error code number for this error.
    pub fn code(self) -> (r: i64)
        ensures
            r == self.spec_code(),
    {
        match self {
            SysErr::Perm => 1,
            SysErr::NoEnt => 2,
            SysErr::Srch => 3,
            SysErr::Intr => 4,
            SysErr::Io => 5,
            SysErr::Nxio => 6,
            SysErr::TooBig => 7,
            SysErr::NoExec => 8,
            SysErr::BadFd => 9,
            SysErr::Child => 10,
            SysErr::Again => 11,
            SysErr::NoMem => 12,
            SysErr::Access => 13,
            SysErr::Fault => 14,
            SysErr::NotBlk => 15,
            SysErr::Busy => 16,
            SysErr::Exists => 17,
            SysErr::XDev => 18,
            SysErr::NoDev => 19,
            SysErr::NotDir => 20,
            SysErr::IsDir => 21,
            SysErr::Inval => 22,
            SysErr::NFile => 23,
            SysErr::MFile => 24,
            SysErr::NoTty => 25,
            SysErr::TxtBsy => 26,
            SysErr::FBig => 27,
            SysErr::NoSpc => 28,
            SysErr::SPipe => 29,
            SysErr::RoFs => 30,
            SysErr::MLink => 31,
            SysErr::Pipe => 32,
            SysErr::Dom => 33,
            SysErr::Range => 34,
            SysErr::DeadLk => 35,
            SysErr::NameTooLong => 36,
            SysErr::NoLck => 37,
            SysErr::NoSys => 38,
            SysErr::NotEmpty => 39,
            SysErr::Loop => 40,
            SysErr::NoMsg => 42,
            SysErr::IdRm => 43,
            SysErr::Chrng => 44,
            SysErr::L2Nsyc => 45,
            SysErr::L3Hlt => 46,
            SysErr::L3Rst => 47,
            SysErr::LnRng => 48,
            SysErr::Unatch => 49,
            SysErr::NoCsi => 50,
            SysErr::L2Hlt => 51,
            SysErr::Bade => 52,
            SysErr::Badr => 53,
            SysErr::XFull => 54,
            SysErr::NoAno => 55,
            SysErr::BadRqc => 56,
            SysErr::BadSlt => 57,
            SysErr::DeadLock => 58,
            SysErr::Bfont => 59,
            SysErr::NoStr => 60,
            SysErr::NoData => 61,
            SysErr::Time => 62,
            SysErr::NoSr => 63,
            SysErr::NoNet => 64,
            SysErr::NoPkg => 65,
            SysErr::Remote => 66,
            SysErr::NoLink => 67,
            SysErr::Adv => 68,
            SysErr::SrMnt => 69,
            SysErr::Comm => 70,
            SysErr::Proto => 71,
            SysErr::MultiHop => 72,
            SysErr::DotDot => 73,
            SysErr::BadMsg => 74,
            SysErr::Overflow => 75,
            SysErr::NotUniq => 76,
            SysErr::BadFdState => 77,
            SysErr::RemChg => 78,
            SysErr::LibAcc => 79,
            SysErr::LibBad => 80,
            SysErr::LibScn => 81,
            SysErr::LibMax => 82,
            SysErr::LibExec => 83,
            SysErr::IlSeq => 84,
            SysErr::Restart => 85,
            SysErr::StrPipe => 86,
            SysErr::Users => 87,
            SysErr::NotSock => 88,
            SysErr::DestAddrReq => 89,
            SysErr::MsgSize => 90,
            SysErr::ProtoType => 91,
            SysErr::NoProtoOpt => 92,
            SysErr::ProtoNoSupport => 93,
            SysErr::SockTNoSupport => 94,
            SysErr::NotSup => 95,
            SysErr::PfNoSupport => 96,
            SysErr::AfNoSupport => 97,
            SysErr::AddrInUse => 98,
            SysErr::AddrNotAvail => 99,
            SysErr::NetDown => 100,
            SysErr::NetUnreach => 101,
            SysErr::NetReset => 102,
            SysErr::ConnAborted => 103,
            SysErr::ConnReset => 104,
            SysErr::NoBufs => 105,
            SysErr::IsConn => 106,
            SysErr::NotConn => 107,
            SysErr::Shutdown => 108,
            SysErr::TooManyRefs => 109,
            SysErr::TimedOut => 110,
            SysErr::ConnRefused => 111,
            SysErr::HostDown => 112,
            SysErr::HostUnreach => 113,
            SysErr::Already => 114,
            SysErr::InProgress => 115,
            SysErr::Stale => 116,
            SysErr::Uclean => 117,
            SysErr::NotNam => 118,
            SysErr::Navail => 119,
            SysErr::IsNam => 120,
            SysErr::RemoteIo => 121,
            SysErr::DQuot => 122,
            SysErr::NoMedium => 123,
            SysErr::MediumType => 124,
            SysErr::Canceled => 125,
            SysErr::NoKey => 126,
            SysErr::KeyExpired => 127,
            SysErr::KeyRevoked => 128,
            SysErr::KeyRejected => 129,
            SysErr::OwnerDead => 130,
            SysErr::NotRecoverable => 131,
            SysErr::RfKill => 132,
            SysErr::HwPoison => 133,
        }
    }

    /// Returns the negative error code suitable for returning from system calls.
    pub fn errno(self) -> (r: i64)
        ensures
            r == -self.spec_code(),
    {
        -self.code()
    }

    /// Creates a `SysErr` from a Linux error number; `None` when the number names no known error.
    pub fn from_code(code: i64) -> (r: Option<SysErr>)
        ensures
            r == spec_from_code(code),
    {
        match code {
            1 => Some(SysErr::Perm),
            2 => Some(SysErr::NoEnt),
            3 => Some(SysErr::Srch),
            4 => Some(SysErr::Intr),
            5 => Some(SysErr::Io),
            6 => Some(SysErr::Nxio),
            7 => Some(SysErr::TooBig),
            8 => Some(SysErr::NoExec),
            9 => Some(SysErr::BadFd),
            10 => Some(SysErr::Child),
            11 => Some(SysErr::Again),
            12 => Some(SysErr::NoMem),
            13 => Some(SysErr::Access),
            14 => Some(SysErr::Fault),
            15 => Some(SysErr::NotBlk),
            16 => Some(SysErr::Busy),
            17 => Some(SysErr::Exists),
            18 => Some(SysErr::XDev),
            19 => Some(SysErr::NoDev),
            20 => Some(SysErr::NotDir),
            21 => Some(SysErr::IsDir),
            22 => Some(SysErr::Inval),
            23 => Some(SysErr::NFile),
            24 => Some(SysErr::MFile),
            25 => Some(SysErr::NoTty),
            26 => Some(SysErr::TxtBsy),
            27 => Some(SysErr::FBig),
            28 => Some(SysErr::NoSpc),
            29 => Some(SysErr::SPipe),
            30 => Some(SysErr::RoFs),
            31 => Some(SysErr::MLink),
            32 => Some(SysErr::Pipe),
            33 => Some(SysErr::Dom),
            34 => Some(SysErr::Range),
            35 => Some(SysErr::DeadLk),
            36 => Some(SysErr::NameTooLong),
            37 => Some(SysErr::NoLck),
            38 => Some(SysErr::NoSys),
            39 => Some(SysErr::NotEmpty),
            40 => Some(SysErr::Loop),
            42 => Some(SysErr::NoMsg),
            43 => Some(SysErr::IdRm),
            44 => Some(SysErr::Chrng),
            45 => Some(SysErr::L2Nsyc),
            46 => Some(SysErr::L3Hlt),
            47 => Some(SysErr::L3Rst),
            48 => Some(SysErr::LnRng),
            49 => Some(SysErr::Unatch),
            50 => Some(SysErr::NoCsi),
            51 => Some(SysErr::L2Hlt),
            52 => Some(SysErr::Bade),
            53 => Some(SysErr::Badr),
            54 => Some(SysErr::XFull),
            55 => Some(SysErr::NoAno),
            56 => Some(SysErr::BadRqc),
            57 => Some(SysErr::BadSlt),
            58 => Some(SysErr::DeadLock),
            59 => Some(SysErr::Bfont),
            60 => Some(SysErr::NoStr),
            61 => Some(SysErr::NoData),
            62 => Some(SysErr::Time),
            63 => Some(SysErr::NoSr),
            64 => Some(SysErr::NoNet),
            65 => Some(SysErr::NoPkg),
            66 => Some(SysErr::Remote),
            67 => Some(SysErr::NoLink),
            68 => Some(SysErr::Adv),
            69 => Some(SysErr::SrMnt),
            70 => Some(SysErr::Comm),
            71 => Some(SysErr::Proto),
            72 => Some(SysErr::MultiHop),
            73 => Some(SysErr::DotDot),
            74 => Some(SysErr::BadMsg),
            75 => Some(SysErr::Overflow),
            76 => Some(SysErr::NotUniq),
            77 => Some(SysErr::BadFdState),
            78 => Some(SysErr::RemChg),
            79 => Some(SysErr::LibAcc),
            80 => Some(SysErr::LibBad),
            81 => Some(SysErr::LibScn),
            82 => Some(SysErr::LibMax),
            83 => Some(SysErr::LibExec),
            84 => Some(SysErr::IlSeq),
            85 => Some(SysErr::Restart),
            86 => Some(SysErr::StrPipe),
            87 => Some(SysErr::Users),
            88 => Some(SysErr::NotSock),
            89 => Some(SysErr::DestAddrReq),
            90 => Some(SysErr::MsgSize),
            91 => Some(SysErr::ProtoType),
            92 => Some(SysErr::NoProtoOpt),
            93 => Some(SysErr::ProtoNoSupport),
            94 => Some(SysErr::SockTNoSupport),
            95 => Some(SysErr::NotSup),
            96 => Some(SysErr::PfNoSupport),
            97 => Some(SysErr::AfNoSupport),
            98 => Some(SysErr::AddrInUse),
            99 => Some(SysErr::AddrNotAvail),
            100 => Some(SysErr::NetDown),
            101 => Some(SysErr::NetUnreach),
            102 => Some(SysErr::NetReset),
            103 => Some(SysErr::ConnAborted),
            104 => Some(SysErr::ConnReset),
            105 => Some(SysErr::NoBufs),
            106 => Some(SysErr::IsConn),
            107 => Some(SysErr::NotConn),
            108 => Some(SysErr::Shutdown),
            109 => Some(SysErr::TooManyRefs),
            110 => Some(SysErr::TimedOut),
            111 => Some(SysErr::ConnRefused),
            112 => Some(SysErr::HostDown),
            113 => Some(SysErr::HostUnreach),
            114 => Some(SysErr::Already),
            115 => Some(SysErr::InProgress),
            116 => Some(SysErr::Stale),
            117 => Some(SysErr::Uclean),
            118 => Some(SysErr::NotNam),
            119 => Some(SysErr::Navail),
            120 => Some(SysErr::IsNam),
            121 => Some(SysErr::RemoteIo),
            122 => Some(SysErr::DQuot),
            123 => Some(SysErr::NoMedium),
            124 => Some(SysErr::MediumType),
            125 => Some(SysErr::Canceled),
            126 => Some(SysErr::NoKey),
            127 => Some(SysErr::KeyExpired),
            128 => Some(SysErr::KeyRevoked),
            129 => Some(SysErr::KeyRejected),
            130 => Some(SysErr::OwnerDead),
            131 => Some(SysErr::NotRecoverable),
            132 => Some(SysErr::RfKill),
            133 => Some(SysErr::HwPoison),
            _ => None,
        }
    }
}

/// The error whose Linux number is `code`, if there is one.
pub open spec fn spec_from_code(code: i64) -> Option<SysErr> {
    match code {
        1 => Some(SysErr::Perm),
        2 => Some(SysErr::NoEnt),
        3 => Some(SysErr::Srch),
        4 => Some(SysErr::Intr),
        5 => Some(SysErr::Io),
        6 => Some(SysErr::Nxio),
        7 => Some(SysErr::TooBig),
        8 => Some(SysErr::NoExec),
        9 => Some(SysErr::BadFd),
        10 => Some(SysErr::Child),
        11 => Some(SysErr::Again),
        12 => Some(SysErr::NoMem),
        13 => Some(SysErr::Access),
        14 => Some(SysErr::Fault),
        15 => Some(SysErr::NotBlk),
        16 => Some(SysErr::Busy),
        17 => Some(SysErr::Exists),
        18 => Some(SysErr::XDev),
        19 => Some(SysErr::NoDev),
        20 => Some(SysErr::NotDir),
        21 => Some(SysErr::IsDir),
        22 => Some(SysErr::Inval),
        23 => Some(SysErr::NFile),
        24 => Some(SysErr::MFile),
        25 => Some(SysErr::NoTty),
        26 => Some(SysErr::TxtBsy),
        27 => Some(SysErr::FBig),
        28 => Some(SysErr::NoSpc),
        29 => Some(SysErr::SPipe),
        30 => Some(SysErr::RoFs),
        31 => Some(SysErr::MLink),
        32 => Some(SysErr::Pipe),
        33 => Some(SysErr::Dom),
        34 => Some(SysErr::Range),
        35 => Some(SysErr::DeadLk),
        36 => Some(SysErr::NameTooLong),
        37 => Some(SysErr::NoLck),
        38 => Some(SysErr::NoSys),
        39 => Some(SysErr::NotEmpty),
        40 => Some(SysErr::Loop),
        42 => Some(SysErr::NoMsg),
        43 => Some(SysErr::IdRm),
        44 => Some(SysErr::Chrng),
        45 => Some(SysErr::L2Nsyc),
        46 => Some(SysErr::L3Hlt),
        47 => Some(SysErr::L3Rst),
        48 => Some(SysErr::LnRng),
        49 => Some(SysErr::Unatch),
        50 => Some(SysErr::NoCsi),
        51 => Some(SysErr::L2Hlt),
        52 => Some(SysErr::Bade),
        53 => Some(SysErr::Badr),
        54 => Some(SysErr::XFull),
        55 => Some(SysErr::NoAno),
        56 => Some(SysErr::BadRqc),
        57 => Some(SysErr::BadSlt),
        58 => Some(SysErr::DeadLock),
        59 => Some(SysErr::Bfont),
        60 => Some(SysErr::NoStr),
        61 => Some(SysErr::NoData),
        62 => Some(SysErr::Time),
        63 => Some(SysErr::NoSr),
        64 => Some(SysErr::NoNet),
        65 => Some(SysErr::NoPkg),
        66 => Some(SysErr::Remote),
        67 => Some(SysErr::NoLink),
        68 => Some(SysErr::Adv),
        69 => Some(SysErr::SrMnt),
        70 => Some(SysErr::Comm),
        71 => Some(SysErr::Proto),
        72 => Some(SysErr::MultiHop),
        73 => Some(SysErr::DotDot),
        74 => Some(SysErr::BadMsg),
        75 => Some(SysErr::Overflow),
        76 => Some(SysErr::NotUniq),
        77 => Some(SysErr::BadFdState),
        78 => Some(SysErr::RemChg),
        79 => Some(SysErr::LibAcc),
        80 => Some(SysErr::LibBad),
        81 => Some(SysErr::LibScn),
        82 => Some(SysErr::LibMax),
        83 => Some(SysErr::LibExec),
        84 => Some(SysErr::IlSeq),
        85 => Some(SysErr::Restart),
        86 => Some(SysErr::StrPipe),
        87 => Some(SysErr::Users),
        88 => Some(SysErr::NotSock),
        89 => Some(SysErr::DestAddrReq),
        90 => Some(SysErr::MsgSize),
        91 => Some(SysErr::ProtoType),
        92 => Some(SysErr::NoProtoOpt),
        93 => Some(SysErr::ProtoNoSupport),
        94 => Some(SysErr::SockTNoSupport),
        95 => Some(SysErr::NotSup),
        96 => Some(SysErr::PfNoSupport),
        97 => Some(SysErr::AfNoSupport),
        98 => Some(SysErr::AddrInUse),
        99 => Some(SysErr::AddrNotAvail),
        100 => Some(SysErr::NetDown),
        101 => Some(SysErr::NetUnreach),
        102 => Some(SysErr::NetReset),
        103 => Some(SysErr::ConnAborted),
        104 => Some(SysErr::ConnReset),
        105 => Some(SysErr::NoBufs),
        106 => Some(SysErr::IsConn),
        107 => Some(SysErr::NotConn),
        108 => Some(SysErr::Shutdown),
        109 => Some(SysErr::TooManyRefs),
        110 => Some(SysErr::TimedOut),
        111 => Some(SysErr::ConnRefused),
        112 => Some(SysErr::HostDown),
        113 => Some(SysErr::HostUnreach),
        114 => Some(SysErr::Already),
        115 => Some(SysErr::InProgress),
        116 => Some(SysErr::Stale),
        117 => Some(SysErr::Uclean),
        118 => Some(SysErr::NotNam),
        119 => Some(SysErr::Navail),
        120 => Some(SysErr::IsNam),
        121 => Some(SysErr::RemoteIo),
        122 => Some(SysErr::DQuot),
        123 => Some(SysErr::NoMedium),
        124 => Some(SysErr::MediumType),
        125 => Some(SysErr::Canceled),
        126 => Some(SysErr::NoKey),
        127 => Some(SysErr::KeyExpired),
        128 => Some(SysErr::KeyRevoked),
        129 => Some(SysErr::KeyRejected),
        130 => Some(SysErr::OwnerDead),
        131 => Some(SysErr::NotRecoverable),
        132 => Some(SysErr::RfKill),
        133 => Some(SysErr::HwPoison),
        _ => None,
    }
}

/// Every error's number lies in 1..=133 and is never 41, which Linux leaves to `EWOULDBLOCK`.
pub proof fn lemma_code_range(e: SysErr)
    ensures
        1 <= e.spec_code() <= 133,
        e.spec_code() != 41,
{
}

/// Converting an error to its number and back gives the same error.
pub proof fn lemma_from_code_of_code(e: SysErr)
    ensures
        spec_from_code(e.spec_code() as i64) == Some(e),
{
}

/// A number names an error exactly when it lies in 1..=133 and is not 41, and the error
/// it names has that number.
pub proof fn lemma_code_of_from_code(code: i64)
    ensures
        spec_from_code(code) is Some <==> (1 <= code <= 133 && code != 41),
        spec_from_code(code) is Some ==> spec_from_code(code)->0.spec_code() == code,
{
}

/// Two errors with the same number are the same error.
pub proof fn lemma_code_injective(a: SysErr, b: SysErr)
    requires
        a.spec_code() == b.spec_code(),
    ensures
        a == b,
{
    lemma_from_code_of_code(a);
    lemma_from_code_of_code(b);
}

} // verus!
