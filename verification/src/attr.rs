//! What the kernel is told of a file.

use crate::mount_opts::FsOptions;
use crate::parse::{FileMeta, MetaView};
use crate::sys::{S_IFBLK, S_IFCHR, S_IFDIR, S_IFIFO, S_IFLNK, S_IFMT, S_IFSOCK};
use crate::time::FileTime;
use fuser::FopenFlags;
use vstd::prelude::*;

verus! {

#[derive(Debug, Clone, Copy, PartialEq, Eq, Structural)]
pub enum FileType {
    NamedPipe,
    CharDevice,
    BlockDevice,
    Directory,
    RegularFile,
    Symlink,
    Socket,
}

/// The attributes of a file, as `stat` gives them.
#[derive(Debug, Clone, Copy, PartialEq, Eq, Structural)]
pub struct FileAttr {
    pub ino: u64,
    pub size: u64,
    pub blocks: u64,
    pub atime: FileTime,
    pub mtime: FileTime,
    pub ctime: FileTime,
    pub crtime: FileTime,
    pub kind: FileType,
    pub perm: u16,
    pub nlink: u32,
    pub uid: u32,
    pub gid: u32,
    pub rdev: u32,
    pub blksize: u32,
    pub flags: u32,
}

/// The kind of file that the type bits of a mode stand for.
pub open spec fn kind_of(mode: u32) -> FileType {
    let bits = mode & S_IFMT;
    if bits == S_IFDIR {
        FileType::Directory
    } else if bits == S_IFLNK {
        FileType::Symlink
    } else if bits == S_IFBLK {
        FileType::BlockDevice
    } else if bits == S_IFCHR {
        FileType::CharDevice
    } else if bits == S_IFIFO {
        FileType::NamedPipe
    } else if bits == S_IFSOCK {
        FileType::Socket
    } else {
        FileType::RegularFile
    }
}

pub fn mode_to_filetype(mode: u32) -> (kind: FileType)
    ensures
        kind == kind_of(mode),
{
    let bits: u32 = mode & S_IFMT;
    if bits == S_IFDIR {
        FileType::Directory
    } else if bits == S_IFLNK {
        FileType::Symlink
    } else if bits == S_IFBLK {
        FileType::BlockDevice
    } else if bits == S_IFCHR {
        FileType::CharDevice
    } else if bits == S_IFIFO {
        FileType::NamedPipe
    } else if bits == S_IFSOCK {
        FileType::Socket
    } else {
        FileType::RegularFile
    }
}

/// How many blocks of 512 bytes hold `size` bytes.
pub open spec fn blocks_for(size: u64) -> int {
    (size + 511) / 512
}

/// The attributes that a file with the metadata `meta` and the inode `ino` has
/// under the mount options `opts`.
pub open spec fn attr_of(opts: FsOptions, ino: u64, meta: MetaView) -> FileAttr {
    let mode = opts.shown_mode(meta.mode);
    FileAttr {
        ino,
        size: meta.size,
        blocks: blocks_for(meta.size) as u64,
        atime: meta.mtime,
        mtime: meta.mtime,
        ctime: meta.mtime,
        crtime: FileTime::epoch(),
        kind: kind_of(mode),
        perm: (mode & 0o7777) as u16,
        nlink: meta.nlink,
        uid: opts.shown_uid(meta.uid),
        gid: opts.shown_gid(meta.gid),
        rdev: meta.rdev as u32,
        blksize: 512,
        flags: 0,
    }
}

pub fn meta_to_attr(opts: &FsOptions, ino: u64, meta: &FileMeta) -> (attr: FileAttr)
    ensures
        attr == attr_of(*opts, ino, meta@),
{
    let mut uid = meta.uid;
    let mut gid = meta.gid;
    let mode: u32 = opts.apply_ownership(meta.mode, &mut uid, &mut gid);
    let rest: u64 = if meta.size % 512 == 0 {
        0
    } else {
        1
    };
    FileAttr {
        ino,
        size: meta.size,
        blocks: meta.size / 512 + rest,
        atime: meta.mtime,
        mtime: meta.mtime,
        ctime: meta.mtime,
        crtime: FileTime::epoch(),
        kind: mode_to_filetype(mode),
        perm: (mode & 0o7777) as u16,
        nlink: meta.nlink,
        uid,
        gid,
        rdev: #[verifier::truncate] (meta.rdev as u32),
        blksize: 512,
        flags: 0,
    }
}

/// A cacheable miss: an entry with inode zero. The kernel reads nothing else
/// from it, so every other field is left empty.
pub open spec fn no_entry() -> FileAttr {
    FileAttr {
        ino: 0,
        size: 0,
        blocks: 0,
        atime: FileTime::epoch(),
        mtime: FileTime::epoch(),
        ctime: FileTime::epoch(),
        crtime: FileTime::epoch(),
        kind: FileType::RegularFile,
        perm: 0,
        nlink: 0,
        uid: 0,
        gid: 0,
        rdev: 0,
        blksize: 0,
        flags: 0,
    }
}

pub fn negative_entry() -> (attr: FileAttr)
    ensures
        attr == no_entry(),
{
    FileAttr {
        ino: 0,
        size: 0,
        blocks: 0,
        atime: FileTime::epoch(),
        mtime: FileTime::epoch(),
        ctime: FileTime::epoch(),
        crtime: FileTime::epoch(),
        kind: FileType::RegularFile,
        perm: 0,
        nlink: 0,
        uid: 0,
        gid: 0,
        rdev: 0,
        blksize: 0,
        flags: 0,
    }
}

/// The bits of the open flags under the mount options: 1 where the page cache
/// is to be bypassed, 2 where what it holds is to be kept.
pub open spec fn open_bits(opts: FsOptions) -> int {
    (if opts.direct_io {
        1int
    } else {
        0int
    }) + (if opts.kernel_cache {
        2int
    } else {
        0int
    })
}

/// `FopenFlags::empty`, `set` and `bits`: from no flags, `FOPEN_DIRECT_IO` (bit
/// 0) is set where `direct_io` says so and `FOPEN_KEEP_CACHE` (bit 1) where
/// `keep_cache` does.
#[verifier::external_body]
fn fopen_bits(direct_io: bool, keep_cache: bool) -> (bits: u32)
    ensures
        bits == (if direct_io {
            1int
        } else {
            0int
        }) + (if keep_cache {
            2int
        } else {
            0int
        }),
{
    let mut flags = FopenFlags::empty();
    flags.set(FopenFlags::FOPEN_DIRECT_IO, direct_io);
    flags.set(FopenFlags::FOPEN_KEEP_CACHE, keep_cache);
    flags.bits()
}

/// Cache hints for an open file handle, from `-o direct_io` and
/// `-o kernel_cache`.
pub fn file_open_flags(opts: &FsOptions) -> (bits: u32)
    ensures
        bits == open_bits(*opts),
{
    fopen_bits(opts.direct_io, opts.kernel_cache)
}

// ---- laws ----

/// The blocks reported hold the file, and one block fewer would not.
pub proof fn law_blocks_hold_the_file(opts: FsOptions, ino: u64, meta: MetaView)
    ensures
        ({
            let attr = attr_of(opts, ino, meta);
            &&& attr.blocks * 512 >= meta.size
            &&& meta.size > 0 ==> (attr.blocks - 1) * 512 < meta.size
            &&& meta.size == 0 ==> attr.blocks == 0
        }),
{
}

/// The kind of file that is reported is the device's, whatever ownership and
/// permissions the mount options put in place of the device's.
pub proof fn law_options_keep_the_kind(opts: FsOptions, ino: u64, meta: MetaView)
    ensures
        attr_of(opts, ino, meta).kind == kind_of(meta.mode),
{
    let mode = meta.mode;
    match opts.umask {
        Some(mask) => {
            assert(((mode & 0o170000) | (0o777 & !mask)) & 0o170000 == mode & 0o170000)
                by (bit_vector);
        },
        None => {},
    }
}

/// The size in the attributes is the file's, and so are the times, the number
/// of links and the device number; the inode is the one asked about.
pub proof fn law_attributes_are_those_of_the_file(opts: FsOptions, ino: u64, meta: MetaView)
    ensures
        ({
            let attr = attr_of(opts, ino, meta);
            &&& attr.ino == ino
            &&& attr.size == meta.size
            &&& attr.atime == meta.mtime
            &&& attr.mtime == meta.mtime
            &&& attr.ctime == meta.mtime
            &&& attr.crtime.secs == 0 && attr.crtime.nanos == 0
            &&& attr.nlink == meta.nlink
            &&& meta.rdev <= u32::MAX ==> attr.rdev == meta.rdev
            &&& attr.blksize == 512
            &&& attr.flags == 0
        }),
{
}

/// Owner, group and permissions are the device's where the mount options leave
/// them alone, and those of the options where they do not.
pub proof fn law_ownership_is_given_or_the_device_has_it(
    opts: FsOptions,
    ino: u64,
    meta: MetaView,
)
    ensures
        ({
            let attr = attr_of(opts, ino, meta);
            &&& attr.uid == (match opts.uid {
                Some(uid) => uid,
                None => meta.uid,
            })
            &&& attr.gid == (match opts.gid {
                Some(gid) => gid,
                None => meta.gid,
            })
            &&& opts.umask is None ==> attr.perm == meta.mode % 4096
            &&& opts.umask matches Some(mask) ==> attr.perm == 511 - mask % 512
        }),
{
    let mode = meta.mode;
    match opts.umask {
        Some(mask) => {
            assert((((mode & 0o170000) | (0o777 & !mask)) & 0o7777) as u16 == 511 - mask % 512)
                by (bit_vector);
        },
        None => {
            assert((mode & 0o7777) as u16 == mode % 4096) by (bit_vector);
        },
    }
}

/// The kind of a file is what the digit above its permissions says; where that
/// says nothing it is a regular file.
pub proof fn law_kind_is_the_type_digit(mode: u32)
    ensures
        ({
            let t = (mode / 4096) % 16;
            &&& t == 0o01 <==> kind_of(mode) == FileType::NamedPipe
            &&& t == 0o02 <==> kind_of(mode) == FileType::CharDevice
            &&& t == 0o04 <==> kind_of(mode) == FileType::Directory
            &&& t == 0o06 <==> kind_of(mode) == FileType::BlockDevice
            &&& t == 0o12 <==> kind_of(mode) == FileType::Symlink
            &&& t == 0o14 <==> kind_of(mode) == FileType::Socket
        }),
{
    assert(mode & 0o170000 == ((mode / 4096) % 16) * 4096) by (bit_vector);
}

/// The open flags say to bypass the page cache in the first bit and to keep it
/// in the second, each exactly where its option is given, and nothing more.
pub proof fn law_open_flags_are_the_options(opts: FsOptions)
    ensures
        0 <= open_bits(opts) < 4,
        open_bits(opts) % 2 == 1 <==> opts.direct_io,
        open_bits(opts) / 2 == 1 <==> opts.kernel_cache,
{
}

/// An entry that stands for a miss has no inode, which no file goes without.
pub proof fn law_a_miss_has_no_inode(opts: FsOptions, ino: u64, meta: MetaView)
    requires
        ino > 0,
    ensures
        no_entry().ino == 0,
        no_entry() != attr_of(opts, ino, meta),
{
}

} // verus!
