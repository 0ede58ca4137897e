//! Error values: what the accessor reports, what a system call reports, and
//! the code the guest finally sees.

use vstd::prelude::*;

verus! {

/// A contiguous range of guest memory: `len` bytes from `start`.
#[derive(Clone, Copy, Debug, PartialEq, Eq, Structural)]
pub struct Region {
    pub start: u32,
    pub len: u32,
}

impl Region {
    /// One past the last byte of the range.
    pub open spec fn end(self) -> int {
        self.start + self.len
    }

    /// Two ranges overlap when they share a byte; an empty range shares none.
    pub open spec fn spec_overlaps(self, rhs: Region) -> bool {
        self.len > 0 && rhs.len > 0 && self.start < rhs.end() && rhs.start < self.end()
    }

    pub fn new(start: u32, len: u32) -> (r: Region)
        ensures
            r.start == start,
            r.len == len,
    {
        Region { start, len }
    }

    pub fn overlaps(&self, rhs: Region) -> (b: bool)
        ensures
            b == self.spec_overlaps(rhs),
    {
        if self.len == 0 || rhs.len == 0 {
            return false;
        }
        let self_end: u64 = self.start as u64 + self.len as u64;
        let rhs_end: u64 = rhs.start as u64 + rhs.len as u64;
        (self.start as u64) < rhs_end && (rhs.start as u64) < self_end
    }
}

/// Why an access to guest memory, or the decoding of a guest value, failed.
#[derive(Clone, Copy, Debug, PartialEq, Eq, Structural)]
pub enum GuestError {
    InvalidFlagValue,
    InvalidEnumValue,
    PtrOverflow,
    PtrOutOfBounds(Region),
    PtrNotAligned(Region, u32),
    PtrBorrowed(Region),
    BorrowCheckerOutOfHandles,
    SliceLengthsDiffer,
    InFunc,
    InDataField,
    InvalidUtf8,
    TryFromIntError,
}

/// The error code a system call hands back to the guest.
#[derive(Clone, Copy, Debug, PartialEq, Eq, Structural)]
pub enum Errno {
    Success,
    TooBig,
    Acces,
    Addrinuse,
    Addrnotavail,
    Afnosupport,
    Again,
    Already,
    Badf,
    Badmsg,
    Busy,
    Canceled,
    Child,
    Connaborted,
    Connrefused,
    Connreset,
    Deadlk,
    Destaddrreq,
    Dom,
    Dquot,
    Exist,
    Fault,
    Fbig,
    Hostunreach,
    Idrm,
    Ilseq,
    Inprogress,
    Intr,
    Inval,
    Io,
    Isconn,
    Isdir,
    Loop,
    Mfile,
    Mlink,
    Msgsize,
    Multihop,
    Nametoolong,
    Netdown,
    Netreset,
    Netunreach,
    Nfile,
    Nobufs,
    Nodev,
    Noent,
    Noexec,
    Nolck,
    Nolink,
    Nomem,
    Nomsg,
    Noprotoopt,
    Nospc,
    Nosys,
    Notconn,
    Notdir,
    Notempty,
    Notrecoverable,
    Notsock,
    Notsup,
    Notty,
    Nxio,
    Overflow,
    Ownerdead,
    Perm,
    Pipe,
    Proto,
    Protonosupport,
    Prototype,
    Range,
    Rofs,
    Spipe,
    Srch,
    Stale,
    Timedout,
    Txtbsy,
    Xdev,
    Notcapable,
}

impl Errno {
    /// The number the guest sees for this code.
    pub open spec fn spec_raw(self) -> u16 {
        match self {
            Errno::Success => 0,
            Errno::TooBig => 1,
            Errno::Acces => 2,
            Errno::Addrinuse => 3,
            Errno::Addrnotavail => 4,
            Errno::Afnosupport => 5,
            Errno::Again => 6,
            Errno::Already => 7,
            Errno::Badf => 8,
            Errno::Badmsg => 9,
            Errno::Busy => 10,
            Errno::Canceled => 11,
            Errno::Child => 12,
            Errno::Connaborted => 13,
            Errno::Connrefused => 14,
            Errno::Connreset => 15,
            Errno::Deadlk => 16,
            Errno::Destaddrreq => 17,
            Errno::Dom => 18,
            Errno::Dquot => 19,
            Errno::Exist => 20,
            Errno::Fault => 21,
            Errno::Fbig => 22,
            Errno::Hostunreach => 23,
            Errno::Idrm => 24,
            Errno::Ilseq => 25,
            Errno::Inprogress => 26,
            Errno::Intr => 27,
            Errno::Inval => 28,
            Errno::Io => 29,
            Errno::Isconn => 30,
            Errno::Isdir => 31,
            Errno::Loop => 32,
            Errno::Mfile => 33,
            Errno::Mlink => 34,
            Errno::Msgsize => 35,
            Errno::Multihop => 36,
            Errno::Nametoolong => 37,
            Errno::Netdown => 38,
            Errno::Netreset => 39,
            Errno::Netunreach => 40,
            Errno::Nfile => 41,
            Errno::Nobufs => 42,
            Errno::Nodev => 43,
            Errno::Noent => 44,
            Errno::Noexec => 45,
            Errno::Nolck => 46,
            Errno::Nolink => 47,
            Errno::Nomem => 48,
            Errno::Nomsg => 49,
            Errno::Noprotoopt => 50,
            Errno::Nospc => 51,
            Errno::Nosys => 52,
            Errno::Notconn => 53,
            Errno::Notdir => 54,
            Errno::Notempty => 55,
            Errno::Notrecoverable => 56,
            Errno::Notsock => 57,
            Errno::Notsup => 58,
            Errno::Notty => 59,
            Errno::Nxio => 60,
            Errno::Overflow => 61,
            Errno::Ownerdead => 62,
            Errno::Perm => 63,
            Errno::Pipe => 64,
            Errno::Proto => 65,
            Errno::Protonosupport => 66,
            Errno::Prototype => 67,
            Errno::Range => 68,
            Errno::Rofs => 69,
            Errno::Spipe => 70,
            Errno::Srch => 71,
            Errno::Stale => 72,
            Errno::Timedout => 73,
            Errno::Txtbsy => 74,
            Errno::Xdev => 75,
            Errno::Notcapable => 76,
        }
    }

    pub fn raw(self) -> (code: u16)
        ensures
            code == self.spec_raw(),
            code <= 76,
    {
        match self {
            Errno::Success => 0,
            Errno::TooBig => 1,
            Errno::Acces => 2,
            Errno::Addrinuse => 3,
            Errno::Addrnotavail => 4,
            Errno::Afnosupport => 5,
            Errno::Again => 6,
            Errno::Already => 7,
            Errno::Badf => 8,
            Errno::Badmsg => 9,
            Errno::Busy => 10,
            Errno::Canceled => 11,
            Errno::Child => 12,
            Errno::Connaborted => 13,
            Errno::Connrefused => 14,
            Errno::Connreset => 15,
            Errno::Deadlk => 16,
            Errno::Destaddrreq => 17,
            Errno::Dom => 18,
            Errno::Dquot => 19,
            Errno::Exist => 20,
            Errno::Fault => 21,
            Errno::Fbig => 22,
            Errno::Hostunreach => 23,
            Errno::Idrm => 24,
            Errno::Ilseq => 25,
            Errno::Inprogress => 26,
            Errno::Intr => 27,
            Errno::Inval => 28,
            Errno::Io => 29,
            Errno::Isconn => 30,
            Errno::Isdir => 31,
            Errno::Loop => 32,
            Errno::Mfile => 33,
            Errno::Mlink => 34,
            Errno::Msgsize => 35,
            Errno::Multihop => 36,
            Errno::Nametoolong => 37,
            Errno::Netdown => 38,
            Errno::Netreset => 39,
            Errno::Netunreach => 40,
            Errno::Nfile => 41,
            Errno::Nobufs => 42,
            Errno::Nodev => 43,
            Errno::Noent => 44,
            Errno::Noexec => 45,
            Errno::Nolck => 46,
            Errno::Nolink => 47,
            Errno::Nomem => 48,
            Errno::Nomsg => 49,
            Errno::Noprotoopt => 50,
            Errno::Nospc => 51,
            Errno::Nosys => 52,
            Errno::Notconn => 53,
            Errno::Notdir => 54,
            Errno::Notempty => 55,
            Errno::Notrecoverable => 56,
            Errno::Notsock => 57,
            Errno::Notsup => 58,
            Errno::Notty => 59,
            Errno::Nxio => 60,
            Errno::Overflow => 61,
            Errno::Ownerdead => 62,
            Errno::Perm => 63,
            Errno::Pipe => 64,
            Errno::Proto => 65,
            Errno::Protonosupport => 66,
            Errno::Prototype => 67,
            Errno::Range => 68,
            Errno::Rofs => 69,
            Errno::Spipe => 70,
            Errno::Srch => 71,
            Errno::Stale => 72,
            Errno::Timedout => 73,
            Errno::Txtbsy => 74,
            Errno::Xdev => 75,
            Errno::Notcapable => 76,
        }
    }

    /// The code that reports no error.
    pub fn success() -> (e: Errno)
        ensures
            e == Errno::Success,
            e.spec_raw() == 0,
    {
        Errno::Success
    }

    /// The code for an access that failed: a bad pointer or a refused claim
    /// is a fault, a bad value is an invalid argument.
    pub open spec fn of_guest_error(err: GuestError) -> Errno {
        match err {
            GuestError::InvalidFlagValue => Errno::Inval,
            GuestError::InvalidEnumValue => Errno::Inval,
            GuestError::PtrOverflow => Errno::Fault,
            GuestError::PtrOutOfBounds(_) => Errno::Fault,
            GuestError::PtrNotAligned(_, _) => Errno::Inval,
            GuestError::PtrBorrowed(_) => Errno::Fault,
            GuestError::InvalidUtf8 => Errno::Ilseq,
            GuestError::TryFromIntError => Errno::Overflow,
            GuestError::InFunc => Errno::Inval,
            GuestError::InDataField => Errno::Inval,
            GuestError::SliceLengthsDiffer => Errno::Fault,
            GuestError::BorrowCheckerOutOfHandles => Errno::Fault,
        }
    }

    /// The code for a failed system call, where it has one.
    pub open spec fn of_error(err: Error) -> Option<Errno> {
        match err {
            Error::Guest(e) => Some(Errno::of_guest_error(e)),
            Error::TryFromInt => Some(Errno::Overflow),
            Error::Utf8 => Some(Errno::Ilseq),
            Error::UnexpectedIo => Some(Errno::Io),
            Error::GetRandom => Some(Errno::Io),
            Error::TooBig => Some(Errno::TooBig),
            Error::Acces => Some(Errno::Acces),
            Error::Badf => Some(Errno::Badf),
            Error::Busy => Some(Errno::Busy),
            Error::Exist => Some(Errno::Exist),
            Error::Fault => Some(Errno::Fault),
            Error::Fbig => Some(Errno::Fbig),
            Error::Ilseq => Some(Errno::Ilseq),
            Error::Inval => Some(Errno::Inval),
            Error::Io => Some(Errno::Io),
            Error::Isdir => Some(Errno::Isdir),
            Error::Loop => Some(Errno::Loop),
            Error::Mfile => Some(Errno::Mfile),
            Error::Mlink => Some(Errno::Mlink),
            Error::Nametoolong => Some(Errno::Nametoolong),
            Error::Nfile => Some(Errno::Nfile),
            Error::Noent => Some(Errno::Noent),
            Error::Nomem => Some(Errno::Nomem),
            Error::Nospc => Some(Errno::Nospc),
            Error::Notdir => Some(Errno::Notdir),
            Error::Notempty => Some(Errno::Notempty),
            Error::Notsup => Some(Errno::Notsup),
            Error::Overflow => Some(Errno::Overflow),
            Error::Pipe => Some(Errno::Pipe),
            Error::Perm => Some(Errno::Perm),
            Error::Spipe => Some(Errno::Spipe),
            Error::Notcapable => Some(Errno::Notcapable),
            Error::Unsupported(_) => None,
        }
    }

    /// Turns a failed system call into the code the guest gets. Only an
    /// unsupported feature has no code: it stops the run, and the trap names
    /// the feature.
    pub fn try_from(e: Error) -> (res: Result<Errno, Trap>)
        ensures
            match res {
                Ok(errno) => Errno::of_error(e) == Some(errno),
                Err(trap) => match e {
                    Error::Unsupported(feature) => trap.is_unsupported(feature),
                    _ => false,
                },
            },
    {
        match e {
            Error::Guest(e) => Ok(Errno::from(e)),
            Error::TryFromInt => Ok(Errno::Overflow),
            Error::Utf8 => Ok(Errno::Ilseq),
            Error::UnexpectedIo => Ok(Errno::Io),
            Error::GetRandom => Ok(Errno::Io),
            Error::TooBig => Ok(Errno::TooBig),
            Error::Acces => Ok(Errno::Acces),
            Error::Badf => Ok(Errno::Badf),
            Error::Busy => Ok(Errno::Busy),
            Error::Exist => Ok(Errno::Exist),
            Error::Fault => Ok(Errno::Fault),
            Error::Fbig => Ok(Errno::Fbig),
            Error::Ilseq => Ok(Errno::Ilseq),
            Error::Inval => Ok(Errno::Inval),
            Error::Io => Ok(Errno::Io),
            Error::Isdir => Ok(Errno::Isdir),
            Error::Loop => Ok(Errno::Loop),
            Error::Mfile => Ok(Errno::Mfile),
            Error::Mlink => Ok(Errno::Mlink),
            Error::Nametoolong => Ok(Errno::Nametoolong),
            Error::Nfile => Ok(Errno::Nfile),
            Error::Noent => Ok(Errno::Noent),
            Error::Nomem => Ok(Errno::Nomem),
            Error::Nospc => Ok(Errno::Nospc),
            Error::Notdir => Ok(Errno::Notdir),
            Error::Notempty => Ok(Errno::Notempty),
            Error::Notsup => Ok(Errno::Notsup),
            Error::Overflow => Ok(Errno::Overflow),
            Error::Pipe => Ok(Errno::Pipe),
            Error::Perm => Ok(Errno::Perm),
            Error::Spipe => Ok(Errno::Spipe),
            Error::Notcapable => Ok(Errno::Notcapable),
            Error::Unsupported(feature) => Err(Trap::String(unsupported_message(feature))),
        }
    }
}

impl From<GuestError> for Errno {
    fn from(err: GuestError) -> (e: Errno) {
        match err {
            GuestError::InvalidFlagValue => Errno::Inval,
            GuestError::InvalidEnumValue => Errno::Inval,
            GuestError::PtrOverflow => Errno::Fault,
            GuestError::PtrOutOfBounds(_) => Errno::Fault,
            GuestError::PtrNotAligned(_, _) => Errno::Inval,
            GuestError::PtrBorrowed(_) => Errno::Fault,
            GuestError::InvalidUtf8 => Errno::Ilseq,
            GuestError::TryFromIntError => Errno::Overflow,
            GuestError::InFunc => Errno::Inval,
            GuestError::InDataField => Errno::Inval,
            GuestError::SliceLengthsDiffer => Errno::Fault,
            GuestError::BorrowCheckerOutOfHandles => Errno::Fault,
        }
    }
}

impl vstd::std_specs::convert::FromSpecImpl<GuestError> for Errno {
    open spec fn obeys_from_spec() -> bool {
        true
    }

    open spec fn from_spec(err: GuestError) -> Errno {
        Errno::of_guest_error(err)
    }
}

/// Why a system call failed.
#[derive(Clone, Copy, Debug, PartialEq, Eq)]
pub enum Error {
    /// The accessor refused a pointer or a value of the guest.
    Guest(GuestError),
    /// A number did not fit where it had to go.
    TryFromInt,
    Utf8,
    UnexpectedIo,
    GetRandom,
    TooBig,
    Acces,
    Badf,
    Busy,
    Exist,
    Fault,
    Fbig,
    Ilseq,
    Inval,
    Io,
    Isdir,
    Loop,
    Mfile,
    Mlink,
    Nametoolong,
    Nfile,
    Noent,
    Nomem,
    Nospc,
    Notdir,
    Notempty,
    Notsup,
    Overflow,
    Pipe,
    Perm,
    Spipe,
    Notcapable,
    /// The guest asked for something this host does not offer.
    Unsupported(&'static str),
}

/// What stops a run instead of returning to the guest.
#[derive(Debug, PartialEq, Eq)]
pub enum Trap {
    /// The guest asked to exit with this code.
    I32Exit(i32),
    /// Anything else, as text.
    String(String),
}

impl Trap {
    /// This trap reports that `feature` is unsupported.
    pub open spec fn is_unsupported(self, feature: &str) -> bool {
        match self {
            Trap::String(s) => s@ == "unsupported: "@ + feature@,
            Trap::I32Exit(_) => false,
        }
    }
}

/// `format!` on a fixed prefix and `feature`: the two texts, one after the
/// other.
#[verifier::external_body]
fn unsupported_message(feature: &str) -> (s: String)
    ensures
        s@ == "unsupported: "@ + feature@,
{
    format!("unsupported: {}", feature)
}

} // verus!
