//! What the library takes from the system it runs on: errors by name, and the
//! file-type bits of a mode, which are the same on every Linux target.

use vstd::prelude::*;

verus! {

/// Why a request fails, by the name that the C library has for it. The number
/// behind a name is the target's own (`ENOTEMPTY` is 39 on most and 93 on
/// some), so the library keeps to the names.
#[derive(Debug, Clone, Copy, PartialEq, Eq, Structural)]
pub enum Errno {
    EPERM,
    ENOENT,
    EIO,
    EBADF,
    EAGAIN,
    EACCES,
    EBUSY,
    EEXIST,
    EXDEV,
    ENOTDIR,
    EISDIR,
    EINVAL,
    ENOSPC,
    EROFS,
    ENAMETOOLONG,
    ENOSYS,
    ENOTEMPTY,
    /// A number that the system gave, handed on as it came.
    Os(i32),
}

/// The bits of a mode that hold the file type.
pub const S_IFMT: u32 = 0o170000;

pub const S_IFSOCK: u32 = 0o140000;

pub const S_IFLNK: u32 = 0o120000;

pub const S_IFREG: u32 = 0o100000;

pub const S_IFBLK: u32 = 0o060000;

pub const S_IFDIR: u32 = 0o040000;

pub const S_IFCHR: u32 = 0o020000;

pub const S_IFIFO: u32 = 0o010000;

} // verus!
