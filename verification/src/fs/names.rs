//! Requests about names and attributes.

use crate::adb::{AdbDevice, Exchange};
use crate::attr::{attr_of, meta_to_attr, negative_entry, no_entry};
use crate::cache::{dir_prefix, rows_outside, CacheEntry, MetadataCache};
use crate::fs::{answered, child, child_path, fetched, noted, sent, AdbFs};
use crate::fs::step::{replied, waits, Entry, LocalWork, Step, Task, TaskView, WorkView};
use crate::inodes::{law_assigning_keeps_step, successor, InodeView};
use crate::mount_opts::FsOptions;
use crate::ops::{
    asked, ended, fault_errno, linked, metadata_command, mkdir_command, mv_command, performed,
    rm_command, rmdir_command, scans, shown, unmounted_command, DeviceError, Fault,
};
use crate::parse::{FileMeta, MetaView};
use crate::sys::Errno;
use crate::text::{decimal, decimal_text};
use std::time::Instant;
use vstd::prelude::*;
use vstd::string::*;

verus! {

/// The answer to a request for attributes.
pub open spec fn attr_reply(opts: FsOptions, ino: u64, result: Result<MetaView, Fault>) -> Result<
    Entry,
    Errno,
> {
    match result {
        Ok(meta) => Ok(Entry { ttl: opts.attr_timeout, attr: attr_of(opts, ino, meta) }),
        Err(fault) => Err(fault_errno(fault)),
    }
}

/// The answer to a request that makes an entry.
pub open spec fn entry_reply(opts: FsOptions, ino: u64, result: Result<MetaView, Fault>) -> Result<
    Entry,
    Errno,
> {
    match result {
        Ok(meta) => Ok(Entry { ttl: opts.entry_timeout, attr: attr_of(opts, ino, meta) }),
        Err(fault) => Err(fault_errno(fault)),
    }
}

/// The answer to a lookup. A miss is one the kernel may keep, where the mount
/// options give it a time.
pub open spec fn lookup_reply(opts: FsOptions, ino: u64, result: Result<MetaView, Fault>) -> Result<
    Entry,
    Errno,
> {
    if result is Err && result->Err_0 is NotFound && opts.negative_timeout.length() != 0 {
        Ok(Entry { ttl: opts.negative_timeout, attr: no_entry() })
    } else {
        entry_reply(opts, ino, result)
    }
}

/// How a request for the attributes of `ino`, at `path`, is answered.
pub open spec fn attr_found(
    before: Seq<Exchange>,
    after: Seq<Exchange>,
    cache: MetadataCache,
    rows_after: Map<Seq<char>, CacheEntry>,
    opts: FsOptions,
    ino: u64,
    path: Seq<char>,
    r: Result<Entry, Errno>,
) -> bool {
    exists|now: Instant, result: Result<MetaView, Fault>|
        {
            &&& #[trigger] fetched(before, after, cache, rows_after, path, now, result)
            &&& r == attr_reply(opts, ino, result)
        }
}

/// How a lookup of `path` is answered. A file that is there gets an inode.
pub open spec fn looked_up(
    before: Seq<Exchange>,
    after: Seq<Exchange>,
    cache: MetadataCache,
    rows_after: Map<Seq<char>, CacheEntry>,
    v: InodeView,
    w: InodeView,
    opts: FsOptions,
    path: Seq<char>,
    r: Result<Entry, Errno>,
) -> bool {
    exists|now: Instant, result: Result<MetaView, Fault>|
        {
            &&& #[trigger] fetched(before, after, cache, rows_after, path, now, result)
            &&& w == with_answered(v, path, result)
            &&& r == lookup_reply(opts, v.ino_of(path), result)
        }
}

/// The answer to a request for the target of the link at `path`.
pub open spec fn link_reply(path: Seq<char>, result: Result<MetaView, Fault>) -> Result<
    Seq<char>,
    Errno,
> {
    match result {
        Err(fault) => Err(fault_errno(fault)),
        Ok(meta) => match linked(path, meta.raw_line) {
            Ok(target) => Ok(target),
            Err(fault) => Err(fault_errno(fault)),
        },
    }
}

/// A text or an error.
pub open spec fn text_shown(r: Result<String, Errno>) -> Result<Seq<char>, Errno> {
    match r {
        Ok(text) => Ok(text@),
        Err(e) => Err(e),
    }
}

/// How a request for the target of the link at `path` is answered.
pub open spec fn link_read(
    before: Seq<Exchange>,
    after: Seq<Exchange>,
    cache: MetadataCache,
    rows_after: Map<Seq<char>, CacheEntry>,
    path: Seq<char>,
    r: Result<Seq<char>, Errno>,
) -> bool {
    exists|now: Instant, result: Result<MetaView, Fault>|
        {
            &&& #[trigger] fetched(before, after, cache, rows_after, path, now, result)
            &&& r == link_reply(path, result)
        }
}

/// The device is asked about `path` and the answer is remembered.
pub open spec fn queried(
    before: Seq<Exchange>,
    after: Seq<Exchange>,
    rows: Map<Seq<char>, CacheEntry>,
    rows_after: Map<Seq<char>, CacheEntry>,
    path: Seq<char>,
) -> bool {
    &&& asked(before, after, metadata_command(path))
    &&& match answered(path, after) {
        Ok(meta) => noted(rows, rows_after, path, Some(meta)),
        Err(_) => rows_after == rows,
    }
}

/// The table of inodes once the device was asked about `path`: a file that is
/// there has an inode.
pub open spec fn with_answered(
    v: InodeView,
    path: Seq<char>,
    result: Result<MetaView, Fault>,
) -> InodeView {
    if result is Ok {
        v.with(path)
    } else {
        v
    }
}

/// The device is asked about `path`, the answer is remembered, and a file that
/// is there gets an inode.
pub open spec fn entered(
    before: Seq<Exchange>,
    after: Seq<Exchange>,
    rows: Map<Seq<char>, CacheEntry>,
    rows_after: Map<Seq<char>, CacheEntry>,
    v: InodeView,
    w: InodeView,
    opts: FsOptions,
    path: Seq<char>,
    r: Result<Entry, Errno>,
) -> bool {
    &&& queried(before, after, rows, rows_after, path)
    &&& w == with_answered(v, path, answered(path, after))
    &&& r == entry_reply(opts, v.ino_of(path), answered(path, after))
}

/// How a directory is made at `path`.
pub open spec fn dir_made(
    before: Seq<Exchange>,
    after: Seq<Exchange>,
    rows: Map<Seq<char>, CacheEntry>,
    rows_after: Map<Seq<char>, CacheEntry>,
    v: InodeView,
    w: InodeView,
    opts: FsOptions,
    path: Seq<char>,
    r: Result<Entry, Errno>,
) -> bool {
    exists|mid: Seq<Exchange>, done: Result<(), Fault>|
        {
            &&& #[trigger] performed(before, mid, mkdir_command(path), Seq::empty(), done)
            &&& match done {
                Ok(_) => entered(mid, after, rows.remove(path), rows_after, v, w, opts, path, r),
                Err(fault) => {
                    &&& after == mid
                    &&& rows_after == rows
                    &&& w == v
                    &&& r == Err::<Entry, Errno>(fault_errno(fault))
                },
            }
        }
}

/// How something at `path` is removed by `command`. What was known of it, and
/// of what was below it where it was a directory, is forgotten.
pub open spec fn removed(
    before: Seq<Exchange>,
    after: Seq<Exchange>,
    rows: Map<Seq<char>, CacheEntry>,
    rows_after: Map<Seq<char>, CacheEntry>,
    command: Seq<char>,
    notices: Seq<Seq<char>>,
    path: Seq<char>,
    directory: bool,
    r: Result<(), Errno>,
) -> bool {
    exists|done: Result<(), Fault>|
        {
            &&& #[trigger] performed(before, after, command, notices, done)
            &&& match done {
                Ok(_) => {
                    &&& r is Ok
                    &&& rows_after == (if directory {
                        rows_outside(rows, path)
                    } else {
                        rows.remove(path)
                    })
                },
                Err(fault) => {
                    &&& r == Err::<(), Errno>(fault_errno(fault))
                    &&& rows_after == rows
                },
            }
        }
}

/// How `from` is renamed to `to`. The inodes move along, and what was known at
/// or below either is forgotten.
pub open spec fn moved(
    before: Seq<Exchange>,
    after: Seq<Exchange>,
    rows: Map<Seq<char>, CacheEntry>,
    rows_after: Map<Seq<char>, CacheEntry>,
    v: InodeView,
    w: InodeView,
    from: Seq<char>,
    to: Seq<char>,
    notices: Seq<Seq<char>>,
    r: Result<(), Errno>,
) -> bool {
    exists|done: Result<(), Fault>|
        {
            &&& #[trigger] performed(before, after, mv_command(from, to), notices, done)
            &&& match done {
                Ok(_) => {
                    &&& r is Ok
                    &&& v.rekeyed(w, from, to)
                    &&& rows_after == rows_outside(rows_outside(rows, from), to)
                },
                Err(fault) => {
                    &&& r == Err::<(), Errno>(fault_errno(fault))
                    &&& w == v
                    &&& rows_after == rows
                },
            }
        }
}

/// The local file that the special file of the given number is made as, before
/// it is pushed.
pub open spec fn node_path(tmp_dir: Seq<char>, number: u64) -> Seq<char> {
    dir_prefix(tmp_dir) + ("node"@ + decimal(number as nat))
}

/// How a special file that was made locally comes to `path` on the device.
pub open spec fn node_made(
    before: Seq<Exchange>,
    after: Seq<Exchange>,
    rows: Map<Seq<char>, CacheEntry>,
    rows_after: Map<Seq<char>, CacheEntry>,
    v: InodeView,
    w: InodeView,
    opts: FsOptions,
    local: Seq<char>,
    path: Seq<char>,
    r: Result<Entry, Errno>,
) -> bool {
    exists|mid: Seq<Exchange>, done: Result<(), Fault>|
        {
            &&& #[trigger] sent(before, mid, local, path, done)
            &&& match done {
                Ok(_) => entered(mid, after, rows.remove(path), rows_after, v, w, opts, path, r),
                Err(fault) => {
                    &&& after == mid
                    &&& rows_after == rows
                    &&& w == v
                    &&& r == Err::<Entry, Errno>(fault_errno(fault))
                },
            }
        }
}

/// The answer to a request for attributes, when the metadata was found or
/// could not be.
pub fn answer_attr(
    opts: &FsOptions,
    ino: u64,
    found: Result<FileMeta, DeviceError>,
) -> (r: Result<Entry, Errno>)
    ensures
        r == attr_reply(*opts, ino, shown(found)),
{
    match found {
        Ok(meta) => Ok(Entry { ttl: opts.attr_timeout, attr: meta_to_attr(opts, ino, &meta) }),
        Err(e) => Err(e.to_errno()),
    }
}

impl<D: AdbDevice> AdbFs<D> {
    /// The answer to a request for the attributes of `ino`, and what it takes.
    pub open spec fn attributes_given(
        &self,
        was: &Self,
        ino: u64,
        r: Result<Entry, Errno>,
    ) -> bool {
        match was.inodes@.path_of(ino) {
            None => r == Err::<Entry, Errno>(Errno::ENOENT) && self.untouched(was),
            Some(path) => attr_found(
                was.history(),
                self.history(),
                was.cache,
                self.cache.rows(),
                was.opts,
                ino,
                path,
                r,
            ),
        }
    }

    /// The answer to a lookup of `name` in the directory `parent`, and what it
    /// takes.
    pub open spec fn name_found(
        &self,
        was: &Self,
        parent: u64,
        name: Seq<char>,
        r: Result<Entry, Errno>,
    ) -> bool {
        match was.inodes@.path_of(parent) {
            None => r == Err::<Entry, Errno>(Errno::ENOENT) && self.untouched(was),
            Some(dir) => looked_up(
                was.history(),
                self.history(),
                was.cache,
                self.cache.rows(),
                was.inodes@,
                self.inodes@,
                was.opts,
                child(dir, name),
                r,
            ),
        }
    }

    /// The answer to a request for the target of the link `ino`, and what it
    /// takes.
    pub open spec fn link_given(
        &self,
        was: &Self,
        ino: u64,
        r: Result<String, Errno>,
    ) -> bool {
        match was.inodes@.path_of(ino) {
            None => r == Err::<String, Errno>(Errno::ENOENT) && self.untouched(was),
            Some(path) => link_read(
                was.history(),
                self.history(),
                was.cache,
                self.cache.rows(),
                path,
                text_shown(r),
            ),
        }
    }

    /// How the directory `name` is made in `parent`.
    pub open spec fn directory_made(
        &self,
        was: &Self,
        parent: u64,
        name: Seq<char>,
        r: Result<Entry, Errno>,
    ) -> bool {
        match was.inodes@.path_of(parent) {
            None => r == Err::<Entry, Errno>(Errno::ENOENT) && self.untouched(was),
            Some(dir) => dir_made(
                was.history(),
                self.history(),
                was.cache.rows(),
                self.cache.rows(),
                was.inodes@,
                self.inodes@,
                was.opts,
                child(dir, name),
                r,
            ),
        }
    }

    /// How the file `name` is removed from `parent`.
    pub open spec fn file_removed(
        &self,
        was: &Self,
        parent: u64,
        name: Seq<char>,
        r: Result<(), Errno>,
    ) -> bool {
        match was.inodes@.path_of(parent) {
            None => r == Err::<(), Errno>(Errno::ENOENT) && self.untouched(was),
            Some(dir) => removed(
                was.history(),
                self.history(),
                was.cache.rows(),
                self.cache.rows(),
                rm_command(child(dir, name)),
                scans(was.ops.rescan, seq![child(dir, name)]),
                child(dir, name),
                false,
                r,
            ),
        }
    }

    /// How the directory `name` is removed from `parent`.
    pub open spec fn directory_removed(
        &self,
        was: &Self,
        parent: u64,
        name: Seq<char>,
        r: Result<(), Errno>,
    ) -> bool {
        match was.inodes@.path_of(parent) {
            None => r == Err::<(), Errno>(Errno::ENOENT) && self.untouched(was),
            Some(dir) => removed(
                was.history(),
                self.history(),
                was.cache.rows(),
                self.cache.rows(),
                rmdir_command(child(dir, name)),
                (if was.ops.rescan {
                    seq![unmounted_command(child(dir, name))]
                } else {
                    Seq::empty()
                }),
                child(dir, name),
                true,
                r,
            ),
        }
    }

    /// How `name` in `parent` becomes `newname` in `newparent`.
    pub open spec fn file_renamed(
        &self,
        was: &Self,
        parent: u64,
        name: Seq<char>,
        newparent: u64,
        newname: Seq<char>,
        r: Result<(), Errno>,
    ) -> bool {
        match (was.inodes@.path_of(parent), was.inodes@.path_of(newparent)) {
            (Some(dir), Some(newdir)) => moved(
                was.history(),
                self.history(),
                was.cache.rows(),
                self.cache.rows(),
                was.inodes@,
                self.inodes@,
                child(dir, name),
                child(newdir, newname),
                scans(was.ops.rescan, seq![child(dir, name), child(newdir, newname)]),
                r,
            ),
            _ => r == Err::<(), Errno>(Errno::ENOENT) && self.untouched(was),
        }
    }

    /// How the special file `name` in `parent` is begun.
    pub open spec fn node_begun(
        &self,
        was: &Self,
        parent: u64,
        name: Seq<char>,
        mode: u32,
        rdev: u32,
        r: Step<Entry>,
    ) -> bool {
        match was.inodes@.path_of(parent) {
            None => {
                &&& replied(r, Err(Errno::ENOENT), None)
                &&& self.pending is None
                &&& self.next_node == was.next_node
            },
            Some(dir) => {
                let local = node_path(was.tmp_dir@, was.next_node);
                &&& waits(r, WorkView::Node { path: local, mode, rdev })
                &&& self.pending matches Some(task)
                &&& task@ == (TaskView::Node { path: child(dir, name), local })
                &&& self.next_node == successor(was.next_node)
            },
        }
    }

    /// How a special file goes on that was made locally or could not be.
    pub open spec fn node_finished(
        &self,
        was: &Self,
        outcome: Result<(), Errno>,
        r: Step<Entry>,
    ) -> bool {
        let path = (was.pending->0)->Node_path@;
        let local = (was.pending->0)->Node_local@;
        &&& r matches Step::Done { reply, remove: Some(remove) }
        &&& remove@ == local
        &&& match outcome {
            Ok(_) => node_made(
                was.history(),
                self.history(),
                was.cache.rows(),
                self.cache.rows(),
                was.inodes@,
                self.inodes@,
                was.opts,
                local,
                path,
                reply,
            ),
            Err(e) => reply == Err::<Entry, Errno>(e) && self.untouched(was),
        }
    }
}

impl<D: AdbDevice> AdbFs<D> {
    pub fn getattr(&mut self, ino: u64) -> (r: Result<Entry, Errno>)
        ensures
            old(self).well_formed() ==> final(self).well_formed(),
            final(self).attributes_given(old(self), ino, r),
            final(self).same_settings(old(self)),
            final(self).inodes == old(self).inodes,
            final(self).handles == old(self).handles,
            final(self).pending == old(self).pending,
    {
        let path = match self.inodes.get_path(ino) {
            Some(path) => path,
            None => {
                return Err(Errno::ENOENT);
            },
        };
        let found = self.fetch_meta(path.as_str());
        answer_attr(&self.opts, ino, found)
    }

    /// Every access is allowed; the device has the last word.
    pub fn access(&self) -> (r: Result<(), Errno>)
        ensures
            r is Ok,
    {
        Ok(())
    }

    pub fn lookup(&mut self, parent: u64, name: &str) -> (r: Result<Entry, Errno>)
        ensures
            old(self).well_formed() && old(self).pending is None ==> final(self).well_formed(),
            final(self).name_found(old(self), parent, name@, r),
            old(self).inodes@.next < u64::MAX ==> old(self).inodes@.kept_in_step(
                final(self).inodes@,
            ),
            final(self).same_settings(old(self)),
            final(self).handles == old(self).handles,
            final(self).pending == old(self).pending,
    {
        let dir = match self.inodes.get_path(parent) {
            Some(path) => path,
            None => {
                return Err(Errno::ENOENT);
            },
        };
        let path = child_path(dir.as_str(), name);
        let found = self.fetch_meta(path.as_str());
        let ghost result = shown(found);
        let ghost now = choose|now: Instant| #[trigger]
            fetched(
                old(self).history(),
                self.history(),
                old(self).cache,
                self.cache.rows(),
                path@,
                now,
                result,
            );
        let r = self.answer_lookup(path.as_str(), found);
        assert(fetched(
            old(self).history(),
            self.history(),
            old(self).cache,
            self.cache.rows(),
            path@,
            now,
            result,
        ));
        r
    }

    /// The answer to a lookup of `path`, when its metadata was found or could
    /// not be. A file that is there gets an inode.
    pub fn answer_lookup(&mut self, path: &str, found: Result<FileMeta, DeviceError>) -> (r: Result<
        Entry,
        Errno,
    >)
        ensures
            final(self).inodes@ == with_answered(old(self).inodes@, path@, shown(found)),
            r == lookup_reply(old(self).opts, old(self).inodes@.ino_of(path@), shown(found)),
            old(self).inodes@.next < u64::MAX ==> old(self).inodes@.kept_in_step(
                final(self).inodes@,
            ),
            final(self).ops == old(self).ops,
            final(self).cache == old(self).cache,
            final(self).handles == old(self).handles,
            final(self).tmp_dir == old(self).tmp_dir,
            final(self).opts == old(self).opts,
            final(self).next_node == old(self).next_node,
            final(self).pending == old(self).pending,
    {
        match found {
            Ok(meta) => {
                let ino = self.inodes.get_or_assign_ino(path);
                proof {
                    if old(self).inodes@.next < u64::MAX {
                        law_assigning_keeps_step(old(self).inodes@, path@);
                    }
                }
                Ok(Entry {
                    ttl: self.opts.entry_timeout,
                    attr: meta_to_attr(&self.opts, ino, &meta),
                })
            },
            Err(e) => {
                let missing = match &e {
                    DeviceError::NotFound { .. } => true,
                    _ => false,
                };
                if missing && !self.opts.negative_timeout.is_zero() {
                    Ok(Entry { ttl: self.opts.negative_timeout, attr: negative_entry() })
                } else {
                    Err(e.to_errno())
                }
            },
        }
    }

    /// The answer to a request for the target of the link at `path`, when its
    /// metadata was found or could not be.
    pub fn answer_link(&self, path: &str, found: Result<FileMeta, DeviceError>) -> (r: Result<
        String,
        Errno,
    >)
        ensures
            text_shown(r) == link_reply(path@, shown(found)),
    {
        match found {
            Ok(meta) => match self.ops.resolve_symlink(path, meta.raw_line.as_str()) {
                Ok(target) => Ok(target),
                Err(e) => Err(e.to_errno()),
            },
            Err(e) => Err(e.to_errno()),
        }
    }

    /// The target of a link, as it is to be read below the mount point.
    pub fn readlink(&mut self, ino: u64) -> (r: Result<String, Errno>)
        ensures
            old(self).well_formed() ==> final(self).well_formed(),
            final(self).link_given(old(self), ino, r),
            final(self).same_settings(old(self)),
            final(self).inodes == old(self).inodes,
            final(self).handles == old(self).handles,
            final(self).pending == old(self).pending,
    {
        let path = match self.inodes.get_path(ino) {
            Some(path) => path,
            None => {
                return Err(Errno::ENOENT);
            },
        };
        let found = self.fetch_meta(path.as_str());
        self.answer_link(path.as_str(), found)
    }

    /// Asks the device about `path` and gives what is there an inode.
    fn enter(&mut self, path: String) -> (r: Result<Entry, Errno>)
        ensures
            entered(
                old(self).history(),
                final(self).history(),
                old(self).cache.rows(),
                final(self).cache.rows(),
                old(self).inodes@,
                final(self).inodes@,
                old(self).opts,
                path@,
                r,
            ),
            old(self).inodes@.next < u64::MAX ==> old(self).inodes@.kept_in_step(
                final(self).inodes@,
            ),
            final(self).same_settings(old(self)),
            final(self).handles == old(self).handles,
            final(self).pending == old(self).pending,
    {
        match self.ops.get_metadata(path.as_str()) {
            Ok(meta) => {
                let ino = self.inodes.get_or_assign_ino(path.as_str());
                proof {
                    if old(self).inodes@.next < u64::MAX {
                        law_assigning_keeps_step(old(self).inodes@, path@);
                    }
                }
                let attr = meta_to_attr(&self.opts, ino, &meta);
                self.cache.insert(path, Some(meta));
                Ok(Entry { ttl: self.opts.entry_timeout, attr })
            },
            Err(e) => Err(e.to_errno()),
        }
    }

    pub fn mkdir(&mut self, parent: u64, name: &str) -> (r: Result<Entry, Errno>)
        ensures
            old(self).well_formed() && old(self).pending is None ==> final(self).well_formed(),
            final(self).directory_made(old(self), parent, name@, r),
            old(self).inodes@.next < u64::MAX ==> old(self).inodes@.kept_in_step(
                final(self).inodes@,
            ),
            final(self).same_settings(old(self)),
            final(self).handles == old(self).handles,
            final(self).pending == old(self).pending,
    {
        let dir = match self.inodes.get_path(parent) {
            Some(path) => path,
            None => {
                return Err(Errno::ENOENT);
            },
        };
        let path = child_path(dir.as_str(), name);
        let ghost before = self.history();
        let done = self.ops.mkdir(path.as_str());
        assert(performed(
            before,
            self.history(),
            mkdir_command(path@),
            Seq::empty(),
            ended(done),
        ));
        if let Err(e) = done {
            return Err(e.to_errno());
        }
        self.cache.invalidate(path.as_str());
        self.enter(path)
    }

    pub fn unlink(&mut self, parent: u64, name: &str) -> (r: Result<(), Errno>)
        ensures
            old(self).well_formed() ==> final(self).well_formed(),
            final(self).file_removed(old(self), parent, name@, r),
            final(self).same_settings(old(self)),
            final(self).inodes == old(self).inodes,
            final(self).handles == old(self).handles,
            final(self).pending == old(self).pending,
    {
        let dir = match self.inodes.get_path(parent) {
            Some(path) => path,
            None => {
                return Err(Errno::ENOENT);
            },
        };
        let path = child_path(dir.as_str(), name);
        let ghost before = self.history();
        let done = self.ops.rm(path.as_str());
        let ghost result = ended(done);
        if let Err(e) = done {
            return Err(e.to_errno());
        }
        self.cache.invalidate(path.as_str());
        assert(performed(
            before,
            self.history(),
            rm_command(path@),
            scans(self.ops.rescan, seq![path@]),
            result,
        ));
        Ok(())
    }

    pub fn rmdir(&mut self, parent: u64, name: &str) -> (r: Result<(), Errno>)
        ensures
            old(self).well_formed() ==> final(self).well_formed(),
            final(self).directory_removed(old(self), parent, name@, r),
            final(self).same_settings(old(self)),
            final(self).inodes == old(self).inodes,
            final(self).handles == old(self).handles,
            final(self).pending == old(self).pending,
    {
        let dir = match self.inodes.get_path(parent) {
            Some(path) => path,
            None => {
                return Err(Errno::ENOENT);
            },
        };
        let path = child_path(dir.as_str(), name);
        let ghost before = self.history();
        let done = self.ops.rmdir(path.as_str());
        let ghost result = ended(done);
        if let Err(e) = done {
            return Err(e.to_errno());
        }
        self.cache.invalidate_prefix(path.as_str());
        assert(performed(
            before,
            self.history(),
            rmdir_command(path@),
            (if self.ops.rescan {
                seq![unmounted_command(path@)]
            } else {
                Seq::empty()
            }),
            result,
        ));
        Ok(())
    }

    pub fn rename(
        &mut self,
        parent: u64,
        name: &str,
        newparent: u64,
        newname: &str,
    ) -> (r: Result<(), Errno>)
        ensures
            old(self).well_formed() && old(self).pending is None ==> final(self).well_formed(),
            final(self).file_renamed(old(self), parent, name@, newparent, newname@, r),
            old(self).inodes@.consistent() ==> final(self).inodes@.consistent(),
            final(self).same_settings(old(self)),
            final(self).handles == old(self).handles,
            final(self).pending == old(self).pending,
    {
        let dir = match self.inodes.get_path(parent) {
            Some(path) => path,
            None => {
                return Err(Errno::ENOENT);
            },
        };
        let newdir = match self.inodes.get_path(newparent) {
            Some(path) => path,
            None => {
                return Err(Errno::ENOENT);
            },
        };
        let from = child_path(dir.as_str(), name);
        let to = child_path(newdir.as_str(), newname);
        let ghost before = self.history();
        let done = self.ops.mv(from.as_str(), to.as_str());
        let ghost result = ended(done);
        if let Err(e) = done {
            return Err(e.to_errno());
        }
        self.inodes.rekey_paths(from.as_str(), to.as_str());
        // Prefix, not exact: renaming a directory moves every descendant with it.
        self.cache.invalidate_prefix(from.as_str());
        self.cache.invalidate_prefix(to.as_str());
        assert(performed(
            before,
            self.history(),
            mv_command(from@, to@),
            scans(self.ops.rescan, seq![from@, to@]),
            result,
        ));
        Ok(())
    }

    /// Makes a special file. It is to be made locally first, at a path that
    /// was not handed out before: `mknod(2)` needs one that does not exist yet.
    /// [`Self::mknod_made`] goes on from there.
    pub fn mknod(&mut self, parent: u64, name: &str, mode: u32, rdev: u32) -> (r: Step<Entry>)
        requires
            old(self).well_formed(),
            old(self).pending is None,
        ensures
            final(self).well_formed(),
            final(self).node_begun(old(self), parent, name@, mode, rdev, r),
            final(self).ops == old(self).ops,
            final(self).cache == old(self).cache,
            final(self).inodes == old(self).inodes,
            final(self).handles == old(self).handles,
            final(self).tmp_dir == old(self).tmp_dir,
            final(self).opts == old(self).opts,
    {
        let dir = match self.inodes.get_path(parent) {
            Some(path) => path,
            None => {
                return Step::Done { reply: Err(Errno::ENOENT), remove: None };
            },
        };
        let path = child_path(dir.as_str(), name);
        let mut file = "node".to_owned();
        let number = decimal_text(self.next_node);
        file.append(number.as_str());
        let local = self.local_path_of(file.as_str());
        self.next_node = self.next_node.wrapping_add(1);
        self.pending = Some(Task::Node { path, local: local.clone() });
        Step::Work(LocalWork::Node { path: local, mode, rdev })
    }

    /// Goes on with making a special file, once it was made locally or could
    /// not be. The local one is scratch: only the push matters.
    pub fn mknod_made(&mut self, outcome: Result<(), Errno>) -> (r: Step<Entry>)
        requires
            old(self).well_formed(),
            old(self).pending is Some,
            old(self).pending->0 is Node,
        ensures
            final(self).well_formed(),
            final(self).pending is None,
            final(self).node_finished(old(self), outcome, r),
            old(self).inodes@.next < u64::MAX ==> old(self).inodes@.kept_in_step(
                final(self).inodes@,
            ),
            final(self).same_settings(old(self)),
            final(self).handles == old(self).handles,
    {
        let (path, local) = match self.pending.take() {
            Some(Task::Node { path, local }) => (path, local),
            _ => {
                return Step::Done { reply: Err(Errno::EBADF), remove: None };
            },
        };
        if let Err(e) = outcome {
            return Step::Done { reply: Err(e), remove: Some(local) };
        }
        let ghost before = self.history();
        let done = self.push_and_sync(local.as_str(), path.as_str());
        assert(sent(before, self.history(), local@, path@, ended(done)));
        if let Err(e) = done {
            return Step::Done { reply: Err(e.to_errno()), remove: Some(local) };
        }
        self.cache.invalidate(path.as_str());
        let reply = self.enter(path);
        Step::Done { reply, remove: Some(local) }
    }
}

/// What is shown of a text is the text, and of an error the error.
pub proof fn law_texts_are_shown(text: String, e: Errno)
    ensures
        text_shown(Ok(text)) == Ok::<Seq<char>, Errno>(text@),
        text_shown(Err(e)) == Err::<Seq<char>, Errno>(e),
{
}

} // verus!
