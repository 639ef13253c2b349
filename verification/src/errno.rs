//! The WASI error numbers, and what becomes of the host's errors.
use vstd::prelude::*;

verus! {

pub const ERRNO_SUCCESS: i32 = 0;

pub const ERRNO_BADF: i32 = 8;

pub const ERRNO_FAULT: i32 = 21;

pub const ERRNO_INVAL: i32 = 28;

pub const ERRNO_IO: i32 = 29;

pub const ERRNO_NOENT: i32 = 44;

pub const ERRNO_NOTDIR: i32 = 54;

pub const ERRNO_NOSYS: i32 = 52;

pub const ERRNO_PERM: i32 = 63;

/// Why a host operation failed, as far as the guest is told.
#[derive(Clone, Copy, Debug, PartialEq, Eq, Structural)]
pub enum IoErrorKind {
    NotFound,
    PermissionDenied,
    InvalidInput,
    NotADirectory,
    Other,
}

/// The error number for a failed host operation.
pub open spec fn errno_of(kind: IoErrorKind) -> i32 {
    match kind {
        IoErrorKind::NotFound => ERRNO_NOENT,
        IoErrorKind::PermissionDenied => ERRNO_PERM,
        IoErrorKind::InvalidInput => ERRNO_INVAL,
        IoErrorKind::NotADirectory => ERRNO_NOTDIR,
        IoErrorKind::Other => ERRNO_IO,
    }
}

/// The error number for a failed host operation.
pub fn io_error_to_errno(kind: IoErrorKind) -> (errno: i32)
    ensures
        errno == errno_of(kind),
{
    match kind {
        IoErrorKind::NotFound => ERRNO_NOENT,
        IoErrorKind::PermissionDenied => ERRNO_PERM,
        IoErrorKind::InvalidInput => ERRNO_INVAL,
        IoErrorKind::NotADirectory => ERRNO_NOTDIR,
        IoErrorKind::Other => ERRNO_IO,
    }
}

/// The error numbers of WASI.
pub proof fn law_error_numbers()
    ensures
        ERRNO_SUCCESS == 0,
        ERRNO_BADF == 8,
        ERRNO_FAULT == 21,
        ERRNO_INVAL == 28,
        ERRNO_IO == 29,
        ERRNO_NOENT == 44,
        ERRNO_NOSYS == 52,
        ERRNO_NOTDIR == 54,
        ERRNO_PERM == 63,
        errno_of(IoErrorKind::NotFound) == 44,
        errno_of(IoErrorKind::PermissionDenied) == 63,
        errno_of(IoErrorKind::InvalidInput) == 28,
        errno_of(IoErrorKind::NotADirectory) == 54,
        errno_of(IoErrorKind::Other) == 29,
{
}

} // verus!
