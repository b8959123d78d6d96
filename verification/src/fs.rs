//! The filesystem: what each request of the kernel asks of the device, what it
//! leaves behind in the tables, and what it is answered.
//!
//! Requests run one at a time, each on the whole filesystem. Work on local
//! files is handed out: a request that needs some gives a [`LocalWork`] in
//! place of an answer and goes on when it is told how that went.

pub mod dirs;
pub mod files;
pub mod laws;
pub mod names;
pub mod requests;
pub mod step;

use crate::adb::{continued, AdbDevice, Exchange};
use crate::cache::{
    age_of, dir_prefix, found, read_at, rows_after_read, CacheEntry, MetadataCache,
};
use crate::fs::step::{held_by, Task};
use crate::handles::{law_starts_balanced, HandleView, Handles, LocalCopy};
use crate::inodes::{law_initial_is_exact, InodeView, Inodes};
use crate::mount_opts::FsOptions;
use crate::ops::{
    answer, asked, described, ended, fault_errno, metadata_command, shown, wrapped, DeviceError,
    DeviceOps, Fault,
};
use crate::parse::{FileMeta, MetaView};
use crate::sys::Errno;
use crate::text::{decimal, decimal_text, ends_with, same_text};
use crate::time::Span;
use std::time::Instant;
use vstd::prelude::*;
use vstd::string::*;

verus! {

/// The filesystem on one device.
pub struct AdbFs<D: AdbDevice> {
    pub ops: DeviceOps<D>,
    pub cache: MetadataCache,
    pub inodes: Inodes,
    pub handles: Handles,
    /// The directory of the local copies.
    pub tmp_dir: String,
    pub opts: FsOptions,
    /// The number of the next special file that is made locally.
    pub next_node: u64,
    /// The request that waits for local work.
    pub pending: Option<Task>,
}

/// How [`AdbFs::acquire_copy`] should populate a copy.
#[derive(Debug)]
pub enum CopyInit {
    /// Pull the device's contents, where the copy does not have them yet.
    Pull,
    /// Start from an empty file, for `create` and truncate-to-zero. The local
    /// file was made, or could not be.
    Empty { created: Result<(), Errno> },
}

/// The path of `name` in the directory `parent`.
pub open spec fn child(parent: Seq<char>, name: Seq<char>) -> Seq<char> {
    if parent == "/"@ {
        "/"@ + name
    } else {
        parent + "/"@ + name
    }
}

pub fn child_path(parent: &str, name: &str) -> (r: String)
    ensures
        r@ == child(parent@, name@),
{
    if same_text(parent, "/") {
        let mut r = "/".to_owned();
        r.append(name);
        r
    } else {
        let mut r = parent.to_owned();
        r.append("/");
        r.append(name);
        r
    }
}

/// The local file of an inode's copy.
pub open spec fn local_path(tmp_dir: Seq<char>, ino: u64) -> Seq<char> {
    dir_prefix(tmp_dir) + decimal(ino as nat)
}

/// Every copy is where its inode says.
pub open spec fn in_place(v: HandleView, tmp_dir: Seq<char>) -> bool {
    forall|ino: u64| #[trigger]
        v.copies.contains_key(ino) ==> v.copies[ino].path == local_path(tmp_dir, ino)
}

/// `after` is `before` and then a push of `local` to `remote`; where that went
/// through, the device was also told to flush its writes.
pub open spec fn sent(
    before: Seq<Exchange>,
    after: Seq<Exchange>,
    local: Seq<char>,
    remote: Seq<char>,
    result: Result<(), Fault>,
) -> bool {
    let from = before.len() as int;
    &&& from < after.len()
    &&& after.take(from) == before
    &&& match after[from] {
        Exchange::Push { local: a, remote: b, done } => {
            &&& a == local
            &&& b == remote
            &&& match done {
                Ok(_) => {
                    &&& after.len() == from + 2
                    &&& after[from + 1] matches Exchange::Sync { done: flushed }
                    &&& result == wrapped(flushed)
                },
                Err(e) => after.len() == from + 1 && result == Err::<(), Fault>(Fault::Adb(e)),
            }
        },
        _ => false,
    }
}

/// `after` is `before` and then a pull of `remote` to `local`.
pub open spec fn pulled(
    before: Seq<Exchange>,
    after: Seq<Exchange>,
    remote: Seq<char>,
    local: Seq<char>,
    result: Result<(), Fault>,
) -> bool {
    &&& after.len() == before.len() + 1
    &&& after.drop_last() == before
    &&& match after.last() {
        Exchange::Pull { remote: a, local: b, done } => {
            &&& a == remote
            &&& b == local
            &&& result == wrapped(done)
        },
        _ => false,
    }
}

/// What the answer to the last call says of the file at `path`.
pub open spec fn answered(path: Seq<char>, history: Seq<Exchange>) -> Result<MetaView, Fault> {
    match answer(history) {
        Ok(output) => described(path, output),
        Err(e) => Err(Fault::Adb(e)),
    }
}

/// What is cached of a path says this.
pub open spec fn meta_shown(meta: Option<FileMeta>) -> Option<MetaView> {
    match meta {
        Some(meta) => Some(meta@),
        None => None,
    }
}

/// `after` is `before` with `meta` noted of `path`.
pub open spec fn noted(
    before: Map<Seq<char>, CacheEntry>,
    after: Map<Seq<char>, CacheEntry>,
    path: Seq<char>,
    meta: Option<MetaView>,
) -> bool {
    &&& after.contains_key(path)
    &&& meta_shown(after[path].meta) == meta
    &&& after == before.insert(path, after[path])
}

/// What asking the device about `path` leaves in the cache: what it said, or
/// that there is no such file. Other failures are not remembered.
pub open spec fn learned(
    before: Map<Seq<char>, CacheEntry>,
    after: Map<Seq<char>, CacheEntry>,
    path: Seq<char>,
    result: Result<MetaView, Fault>,
) -> bool {
    match result {
        Ok(meta) => noted(before, after, path, Some(meta)),
        Err(Fault::NotFound { .. }) => noted(before, after, path, None),
        Err(_) => after == before,
    }
}

/// How the metadata of `path` is found when the cache gives `hit`: from the
/// cache without a call, or from the device.
pub open spec fn known(
    before: Seq<Exchange>,
    after: Seq<Exchange>,
    rows: Map<Seq<char>, CacheEntry>,
    rows_after: Map<Seq<char>, CacheEntry>,
    path: Seq<char>,
    hit: Option<Option<FileMeta>>,
    result: Result<MetaView, Fault>,
) -> bool {
    match hit {
        Some(Some(meta)) => {
            &&& after == before
            &&& rows_after == rows
            &&& result == Ok::<MetaView, Fault>(meta@)
        },
        Some(None) => {
            &&& after == before
            &&& rows_after == rows
            &&& result == Err::<MetaView, Fault>(Fault::NotFound { path })
        },
        None => {
            &&& asked(before, after, metadata_command(path))
            &&& result == answered(path, after)
            &&& learned(rows, rows_after, path, result)
        },
    }
}

/// How the metadata of `path` is found at the clock's reading `now`.
pub open spec fn fetched(
    before: Seq<Exchange>,
    after: Seq<Exchange>,
    cache: MetadataCache,
    rows_after: Map<Seq<char>, CacheEntry>,
    path: Seq<char>,
    now: Instant,
    result: Result<MetaView, Fault>,
) -> bool {
    let age = age_of(cache.rows(), path, now);
    known(
        before,
        after,
        rows_after_read(cache.rows(), path, age, cache.ttl),
        rows_after,
        path,
        found(cache.rows(), path, age, cache.ttl),
        result,
    )
}

/// What is left when the copy of `ino` could not be populated.
pub open spec fn unpopulated(v: HandleView, ino: u64) -> HandleView {
    if v.refs(ino) == 0 {
        HandleView { copies: v.copies.remove(ino), ..v }
    } else {
        v
    }
}

/// How a reference on the copy of `ino` is acquired when the device's contents
/// have to be pulled.
pub open spec fn pulled_in(
    before: Seq<Exchange>,
    after: Seq<Exchange>,
    v: HandleView,
    w: HandleView,
    ino: u64,
    path: Seq<char>,
    local: Seq<char>,
    result: Result<(), Errno>,
) -> bool {
    exists|done: Result<(), Fault>|
        {
            &&& #[trigger] pulled(before, after, path, v.copy_or_fresh(ino, local).path, done)
            &&& match done {
                Ok(_) => {
                    &&& result is Ok
                    &&& w == v.taken(ino, local, false)
                },
                Err(fault) => {
                    &&& result == Err::<(), Errno>(fault_errno(fault))
                    &&& w == unpopulated(v, ino)
                },
            }
        }
}

/// How a reference on the copy of `ino` is acquired. The device is asked for
/// the contents only where the copy lacks them, and a copy that could not be
/// populated is not left behind.
pub open spec fn acquired(
    before: Seq<Exchange>,
    after: Seq<Exchange>,
    v: HandleView,
    w: HandleView,
    ino: u64,
    path: Seq<char>,
    local: Seq<char>,
    init: CopyInit,
    result: Result<(), Errno>,
) -> bool {
    let copy = v.copy_or_fresh(ino, local);
    match init {
        CopyInit::Empty { created } => {
            &&& after == before
            &&& match created {
                Ok(_) => result is Ok && w == v.taken(ino, local, true),
                Err(e) => result == Err::<(), Errno>(e) && w == unpopulated(v, ino),
            }
        },
        CopyInit::Pull => if copy.pulled {
            &&& after == before
            &&& result is Ok
            &&& w == v.taken(ino, local, false)
        } else {
            pulled_in(before, after, v, w, ino, path, local, result)
        },
    }
}

/// How writes that the device lacks are brought to `path` on it.
pub open spec fn flushed_to(
    before: Seq<Exchange>,
    after: Seq<Exchange>,
    rows: Map<Seq<char>, CacheEntry>,
    rows_after: Map<Seq<char>, CacheEntry>,
    v: HandleView,
    w: HandleView,
    ino: u64,
    path: Seq<char>,
    result: Result<(), Errno>,
) -> bool {
    exists|done: Result<(), Fault>|
        {
            &&& #[trigger] sent(before, after, v.copies[ino].path, path, done)
            &&& match done {
                Ok(_) => {
                    &&& result is Ok
                    &&& w == v.marked(ino, false)
                    &&& rows_after == rows.remove(path)
                },
                Err(fault) => {
                    &&& result == Err::<(), Errno>(fault_errno(fault))
                    &&& w == v
                    &&& rows_after == rows
                },
            }
        }
}

/// How writes that the device lacks are brought to it, where there are any: to
/// the path that the inode has now. Where that fails they are still lacking.
pub open spec fn flushed(
    before: Seq<Exchange>,
    after: Seq<Exchange>,
    rows: Map<Seq<char>, CacheEntry>,
    rows_after: Map<Seq<char>, CacheEntry>,
    v: HandleView,
    w: HandleView,
    ino: u64,
    path: Option<Seq<char>>,
    result: Result<(), Errno>,
) -> bool {
    if !v.copies[ino].dirty {
        &&& after == before
        &&& rows_after == rows
        &&& w == v
        &&& result is Ok
    } else {
        match path {
            None => {
                &&& after == before
                &&& rows_after == rows
                &&& w == v
                &&& result == Err::<(), Errno>(Errno::ENOENT)
            },
            Some(path) => flushed_to(before, after, rows, rows_after, v, w, ino, path, result),
        }
    }
}

impl<D: AdbDevice> AdbFs<D> {
    /// The calls that the device was given.
    pub open spec fn history(&self) -> Seq<Exchange> {
        self.ops.adb.history()
    }

    /// What was set when the filesystem was made is as it was, and so are what
    /// is known of the device and the number of the next special file.
    pub open spec fn same_settings(&self, other: &Self) -> bool {
        &&& self.ops.same_settings(&other.ops)
        &&& self.cache.ttl == other.cache.ttl
        &&& self.tmp_dir == other.tmp_dir
        &&& self.opts == other.opts
        &&& self.next_node == other.next_node
    }

    /// Nothing of that has changed but, possibly, the form in which the device
    /// is given times.
    pub open spec fn same_settings_but_touch(&self, other: &Self) -> bool {
        &&& continued(other.ops.adb, self.ops.adb)
        &&& self.ops.compat == other.ops.compat
        &&& self.ops.rescan == other.ops.rescan
        &&& self.cache.ttl == other.cache.ttl
        &&& self.tmp_dir == other.tmp_dir
        &&& self.opts == other.opts
        &&& self.next_node == other.next_node
    }

    /// Nothing has changed but, possibly, which request waits.
    pub open spec fn untouched(&self, other: &Self) -> bool {
        &&& self.same_settings(other)
        &&& self.history() == other.history()
        &&& self.cache.rows() == other.cache.rows()
        &&& self.inodes@ == other.inodes@
        &&& self.handles@ == other.handles@
    }

    /// The copies are in balance with the handles and with the request that
    /// waits, and each is where its inode says. What the waiting request knows
    /// of its inode is what the table says, and what it creates the device
    /// still lacks.
    pub open spec fn well_formed(&self) -> bool {
        &&& self.handles@.balanced(held_by(self.pending))
        &&& 0 < self.handles@.next_fh
        &&& in_place(self.handles@, self.tmp_dir@)
        &&& match self.pending {
            Some(Task::Open { .. }) => self.handles@.next_fh < u64::MAX,
            Some(Task::Create { ino, path }) => {
                &&& self.handles@.next_fh < u64::MAX
                &&& self.inodes@.numbers(path@, ino)
            },
            Some(Task::CreateOpen { ino, path }) => {
                &&& self.handles@.next_fh < u64::MAX
                &&& self.inodes@.numbers(path@, ino)
                &&& self.handles@.copies[ino].dirty
            },
            Some(Task::Clear { ino, path, .. }) => self.inodes@.path_of(ino) == Some(path@),
            Some(Task::Cut { ino, path, .. }) => self.inodes@.path_of(ino) == Some(path@),
            _ => true,
        }
    }

    /// Nothing is open, nothing is known but the root, and nothing waits.
    pub open spec fn started(
        &self,
        ops: DeviceOps<D>,
        cache_ttl: Span,
        opts: FsOptions,
        tmp_dir: Seq<char>,
    ) -> bool {
        &&& self.ops == ops
        &&& self.cache.rows() == Map::<Seq<char>, CacheEntry>::empty()
        &&& self.cache.ttl == cache_ttl
        &&& self.inodes@ == InodeView::initial()
        &&& self.handles@ == HandleView::initial()
        &&& self.tmp_dir@ == tmp_dir
        &&& self.opts == opts
        &&& self.next_node == 0
        &&& self.pending is None
    }

    /// The filesystem on the device behind `ops`, with local copies in the
    /// directory `tmp_dir`.
    pub fn new(ops: DeviceOps<D>, cache_ttl: Span, opts: FsOptions, tmp_dir: String) -> (fs: Self)
        ensures
            fs.started(ops, cache_ttl, opts, tmp_dir@),
            fs.inodes@.exact(),
            fs.well_formed(),
    {
        proof {
            law_starts_balanced();
            law_initial_is_exact();
        }
        Self {
            ops,
            cache: MetadataCache::new(cache_ttl),
            inodes: Inodes::new(),
            handles: Handles::new(),
            tmp_dir,
            opts,
            next_node: 0,
            pending: None,
        }
    }

    /// The local file is named after the inode, not the device path: unique
    /// whatever the path contains, and never longer than `NAME_MAX`.
    pub fn local_path_for(&self, ino: u64) -> (r: String)
        ensures
            r@ == local_path(self.tmp_dir@, ino),
    {
        let name = decimal_text(ino);
        self.local_path_of(name.as_str())
    }

    /// The local file of the given name.
    pub(crate) fn local_path_of(&self, name: &str) -> (r: String)
        ensures
            r@ == dir_prefix(self.tmp_dir@) + name@,
    {
        let mut r = self.tmp_dir.clone();
        proof {
            reveal_strlit("/");
        }
        if ends_with(self.tmp_dir.as_str(), "/") {
            assert(self.tmp_dir@.subrange(
                self.tmp_dir@.len() - 1,
                self.tmp_dir@.len() as int,
            )[0] == '/');
        } else {
            proof {
                if self.tmp_dir@.len() > 0 && self.tmp_dir@.last() == '/' {
                    assert(self.tmp_dir@.subrange(
                        self.tmp_dir@.len() - 1,
                        self.tmp_dir@.len() as int,
                    ) =~= "/"@);
                }
            }
            r.append("/");
            assert(r@ =~= self.tmp_dir@.push('/'));
        }
        r.append(name);
        r
    }

    pub fn push_and_sync(&mut self, local: &str, device_path: &str) -> (r: Result<(), DeviceError>)
        ensures
            final(self).same_settings(old(self)),
            sent(old(self).history(), final(self).history(), local@, device_path@, ended(r)),
            final(self).cache == old(self).cache,
            final(self).inodes == old(self).inodes,
            final(self).handles == old(self).handles,
            final(self).pending == old(self).pending,
    {
        let ghost before = self.history();
        match self.ops.push(local, device_path) {
            Ok(()) => {},
            Err(e) => {
                assert(self.history().take(before.len() as int) =~= before);
                return Err(e);
            },
        }
        let ghost pushed = self.history();
        let r = self.ops.sync_device();
        assert(self.history().drop_last()[before.len() as int] == pushed[before.len() as int]);
        assert(self.history().take(before.len() as int) =~= pushed.drop_last());
        r
    }

    /// Takes a reference on `ino`'s local copy, populating it if this is the
    /// first reference. Every caller must pair this with
    /// [`Self::release_copy`].
    pub fn acquire_copy(&mut self, ino: u64, path: &str, init: CopyInit) -> (r: Result<(), Errno>)
        requires
            old(self).handles@.refs(ino) < u64::MAX,
        ensures
            final(self).same_settings(old(self)),
            acquired(
                old(self).history(),
                final(self).history(),
                old(self).handles@,
                final(self).handles@,
                ino,
                path@,
                local_path(old(self).tmp_dir@, ino),
                init,
                r,
            ),
            final(self).cache == old(self).cache,
            final(self).inodes == old(self).inodes,
            final(self).pending == old(self).pending,
    {
        let local = self.local_path_for(ino);
        let copy = match self.handles.copy(ino) {
            Some(copy) => copy,
            None => LocalCopy::new(local.clone()),
        };
        let ghost fresh_or_kept = self.handles@.copy_or_fresh(ino, local@);
        assert(copy@ == fresh_or_kept);
        let ghost before = self.history();
        let ghost mut outcome: Result<(), Fault> = Ok(());
        let dirty = match &init {
            CopyInit::Empty { .. } => true,
            CopyInit::Pull => false,
        };
        let populated = match init {
            CopyInit::Empty { created } => created,
            CopyInit::Pull => {
                if copy.pulled {
                    Ok(())
                } else {
                    let done = self.ops.pull(path, copy.path.as_str());
                    proof {
                        outcome = ended(done);
                    }
                    match done {
                        Ok(()) => Ok(()),
                        Err(e) => Err(e.to_errno()),
                    }
                }
            },
        };
        if let Err(e) = populated {
            if copy.refs == 0 {
                self.handles.forget_copy(ino);
            }
            assert(init is Pull ==> pulled(
                before,
                self.history(),
                path@,
                fresh_or_kept.path,
                outcome,
            ));
            return Err(e);
        }
        self.handles.take_copy(ino, local, dirty);
        assert(init is Pull && !fresh_or_kept.pulled ==> pulled(
            before,
            self.history(),
            path@,
            fresh_or_kept.path,
            outcome,
        ));
        Ok(())
    }

    /// Drops a reference taken by [`Self::acquire_copy`]. Once no handle is
    /// left, the local file that is returned is to be deleted.
    pub fn release_copy(&mut self, ino: u64) -> (r: Option<String>)
        requires
            old(self).handles@.refs(ino) > 0,
        ensures
            final(self).handles@ == old(self).handles@.given_back(ino),
            (match r {
                Some(path) => old(self).handles@.left_over(ino) == Some(path@),
                None => old(self).handles@.left_over(ino) is None,
            }),
            final(self).ops == old(self).ops,
            final(self).cache == old(self).cache,
            final(self).inodes == old(self).inodes,
            final(self).tmp_dir == old(self).tmp_dir,
            final(self).opts == old(self).opts,
            final(self).next_node == old(self).next_node,
            final(self).pending == old(self).pending,
    {
        self.handles.release_copy(ino)
    }

    /// Pushes the local copy back to the device if it has unpushed writes.
    pub fn push_if_dirty(&mut self, ino: u64) -> (r: Result<(), Errno>)
        requires
            old(self).handles@.copies.contains_key(ino),
        ensures
            final(self).same_settings(old(self)),
            flushed(
                old(self).history(),
                final(self).history(),
                old(self).cache.rows(),
                final(self).cache.rows(),
                old(self).handles@,
                final(self).handles@,
                ino,
                old(self).inodes@.path_of(ino),
                r,
            ),
            final(self).inodes == old(self).inodes,
            final(self).pending == old(self).pending,
    {
        let copy = match self.handles.copy(ino) {
            Some(copy) => copy,
            None => {
                return Ok(());
            },
        };
        if !copy.dirty {
            return Ok(());
        }
        let path = match self.inodes.get_path(ino) {
            Some(path) => path,
            None => {
                return Err(Errno::ENOENT);
            },
        };
        let ghost before = self.history();
        let done = self.push_and_sync(copy.path.as_str(), path.as_str());
        let ghost outcome = ended(done);
        match done {
            Ok(()) => {
                self.handles.set_dirty(ino, false);
                self.cache.invalidate(path.as_str());
                assert(sent(
                    before,
                    self.history(),
                    old(self).handles@.copies[ino].path,
                    path@,
                    outcome,
                ));
                Ok(())
            },
            Err(e) => Err(e.to_errno()),
        }
    }

    /// The metadata of `path`, from the cache where it has it.
    pub fn fetch_meta(&mut self, path: &str) -> (r: Result<FileMeta, DeviceError>)
        ensures
            final(self).same_settings(old(self)),
            exists|now: Instant| #[trigger]
                fetched(
                    old(self).history(),
                    final(self).history(),
                    old(self).cache,
                    final(self).cache.rows(),
                    path@,
                    now,
                    shown(r),
                ),
            final(self).inodes == old(self).inodes,
            final(self).handles == old(self).handles,
            final(self).pending == old(self).pending,
    {
        let hit = self.cache.get(path);
        let ghost now = choose|now: Instant| #[trigger]
            read_at(
                old(self).cache.rows(),
                self.cache.rows(),
                path@,
                now,
                old(self).cache.ttl,
                hit,
            );
        let r = self.fetch_known(path, hit);
        assert(fetched(
            old(self).history(),
            self.history(),
            old(self).cache,
            self.cache.rows(),
            path@,
            now,
            shown(r),
        ));
        r
    }

    /// The metadata of `path`, when the cache gives `hit`.
    pub fn fetch_known(&mut self, path: &str, hit: Option<Option<FileMeta>>) -> (r: Result<
        FileMeta,
        DeviceError,
    >)
        ensures
            final(self).same_settings(old(self)),
            known(
                old(self).history(),
                final(self).history(),
                old(self).cache.rows(),
                final(self).cache.rows(),
                path@,
                hit,
                shown(r),
            ),
            final(self).inodes == old(self).inodes,
            final(self).handles == old(self).handles,
            final(self).pending == old(self).pending,
    {
        match hit {
            Some(Some(meta)) => {
                return Ok(meta);
            },
            Some(None) => {
                return Err(DeviceError::NotFound { path: path.to_owned() });
            },
            None => {},
        }
        match self.ops.get_metadata(path) {
            Ok(meta) => {
                self.cache.insert(path.to_owned(), Some(meta.clone()));
                Ok(meta)
            },
            Err(DeviceError::NotFound { path: missing }) => {
                self.cache.insert(path.to_owned(), None);
                Err(DeviceError::NotFound { path: missing })
            },
            Err(e) => Err(e),
        }
    }
}

} // verus!
