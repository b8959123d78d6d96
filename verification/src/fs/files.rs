//! Requests about the contents of files.

use crate::adb::{AdbDevice, Exchange};
use crate::attr::{file_open_flags, meta_to_attr, open_bits};
use crate::cache::CacheEntry;
use crate::fs::{
    acquired, answered, child, child_path, flushed, in_place, local_path, unpopulated, AdbFs,
    CopyInit,
};
use crate::fs::names::{attr_reply, entry_reply, queried};
use crate::fs::step::{
    held_by, replied, waits, Created, Entry, LocalWork, Opened, Step, Task, TaskView, WorkView,
};
use crate::handles::{
    law_closing_is_balanced, law_giving_back_is_balanced, law_handle_has_its_copy,
    law_marking_is_balanced, law_opening_is_balanced, law_references_can_be_counted,
    law_taking_is_balanced, HandleView,
};
use crate::inodes::law_assigning_keeps_step;
use crate::mount_opts::FsOptions;
use crate::ops::{ended, fault_errno, times_set, Fault};
use crate::sys::Errno;
use crate::time::{resolve_time, resolved, FileTime, TimeOrNow};
use vstd::prelude::*;
use vstd::string::*;

verus! {

/// How the file `ino` at `path` is opened, up to the local file.
pub open spec fn open_begun(
    before: Seq<Exchange>,
    after: Seq<Exchange>,
    v: HandleView,
    w: HandleView,
    tmp_dir: Seq<char>,
    ino: u64,
    path: Seq<char>,
    pending: Option<Task>,
    r: Step<Opened>,
) -> bool {
    exists|done: Result<(), Errno>|
        {
            &&& #[trigger] acquired(
                before,
                after,
                v,
                w,
                ino,
                path,
                local_path(tmp_dir, ino),
                CopyInit::Pull,
                done,
            )
            &&& match done {
                Ok(_) => {
                    &&& waits(r, WorkView::Open { path: local_path(tmp_dir, ino) })
                    &&& pending == Some(Task::Open { ino })
                },
                Err(e) => replied(r, Err(e), None) && pending is None,
            }
        }
}

/// How the copy of `ino`, whose local file was emptied or could not be, is
/// acquired; `next` is what comes then.
pub open spec fn emptied<T>(
    before: Seq<Exchange>,
    after: Seq<Exchange>,
    v: HandleView,
    w: HandleView,
    tmp_dir: Seq<char>,
    ino: u64,
    path: Seq<char>,
    outcome: Result<(), Errno>,
    next: WorkView,
    task: TaskView,
    pending: Option<Task>,
    r: Step<T>,
) -> bool {
    &&& after == before
    &&& match outcome {
        Ok(_) => {
            &&& w == v.taken(ino, local_path(tmp_dir, ino), true)
            &&& waits(r, next)
            &&& pending matches Some(t)
            &&& t@ == task
        },
        Err(e) => w == v && replied(r, Err(e), None) && pending is None,
    }
}

/// How a new file `ino` at `path`, whose local copy is open, comes to be on
/// the device and gets its handle. Where any of it fails, the reference on the
/// copy is given back.
pub open spec fn created(
    before: Seq<Exchange>,
    after: Seq<Exchange>,
    rows: Map<Seq<char>, CacheEntry>,
    rows_after: Map<Seq<char>, CacheEntry>,
    v: HandleView,
    w: HandleView,
    opts: FsOptions,
    ino: u64,
    path: Seq<char>,
    target: Option<Seq<char>>,
    r: Step<Created>,
) -> bool {
    exists|
        mid: Seq<Exchange>,
        rows_mid: Map<Seq<char>, CacheEntry>,
        v_mid: HandleView,
        done: Result<(), Errno>,
    |
        {
            &&& #[trigger] flushed(before, mid, rows, rows_mid, v, v_mid, ino, target, done)
            &&& match done {
                Ok(_) => {
                    &&& queried(mid, after, rows_mid, rows_after, path)
                    &&& match answered(path, after) {
                        Ok(meta) => {
                            &&& w == v_mid.opened(ino)
                            &&& r matches Step::Done { reply: Ok(reply), remove: None }
                            &&& Ok::<Entry, Errno>(reply.entry) == entry_reply(opts, ino, Ok(meta))
                            &&& reply.opened.fh == v_mid.next_fh
                            &&& reply.opened.flags == open_bits(opts)
                        },
                        Err(fault) => {
                            &&& w == v_mid.given_back(ino)
                            &&& replied(r, Err(fault_errno(fault)), v_mid.left_over(ino))
                        },
                    }
                },
                Err(e) => {
                    &&& after == mid
                    &&& rows_after == rows_mid
                    &&& w == v_mid.given_back(ino)
                    &&& replied(r, Err(e), v_mid.left_over(ino))
                },
            }
        }
}

/// How a write through the handle `fh` is noted and answered.
pub open spec fn written(
    v: HandleView,
    w: HandleView,
    fh: u64,
    outcome: Result<usize, Errno>,
    r: Result<u32, Errno>,
) -> bool {
    if v.files.contains_key(fh) {
        match outcome {
            Ok(n) => {
                &&& r == Ok::<u32, Errno>(n as u32)
                &&& w == v.marked(v.files[fh], true)
            },
            Err(e) => {
                &&& r == Err::<u32, Errno>(e)
                &&& w == v
            },
        }
    } else {
        &&& r == Err::<u32, Errno>(Errno::EBADF)
        &&& w == v
    }
}

/// What the handle `fh` is open on.
pub open spec fn open_on(v: HandleView, fh: u64) -> Result<u64, Errno> {
    if v.files.contains_key(fh) {
        Ok(v.files[fh])
    } else {
        Err(Errno::EBADF)
    }
}

/// How the handle `fh` is closed; `remove` is the local file that goes with it.
pub open spec fn released(v: HandleView, w: HandleView, fh: u64, remove: Option<Seq<char>>) -> bool {
    if v.files.contains_key(fh) {
        let ino = v.files[fh];
        &&& w == v.closed(fh).given_back(ino)
        &&& remove == v.closed(fh).left_over(ino)
    } else {
        remove is None && w == v
    }
}

/// How a file whose local copy was opened, or could not be, gets its handle.
pub open spec fn handle_given(
    v: HandleView,
    w: HandleView,
    opts: FsOptions,
    ino: u64,
    outcome: Result<(), Errno>,
    r: Step<Opened>,
) -> bool {
    match outcome {
        Ok(_) => {
            &&& w == v.opened(ino)
            &&& r matches Step::Done { reply: Ok(opened), remove: None }
            &&& opened.fh == v.next_fh
            &&& opened.flags == open_bits(opts)
        },
        Err(e) => {
            &&& w == v.given_back(ino)
            &&& replied(r, Err(e), v.left_over(ino))
        },
    }
}

/// How the times of `path` are set, where any are given, and what its
/// attributes are then.
pub open spec fn settled(
    before: Seq<Exchange>,
    after: Seq<Exchange>,
    rows: Map<Seq<char>, CacheEntry>,
    rows_after: Map<Seq<char>, CacheEntry>,
    opts: FsOptions,
    rescan: bool,
    gnu: bool,
    gnu_after: bool,
    ino: u64,
    path: Seq<char>,
    atime: Option<FileTime>,
    mtime: Option<FileTime>,
    reply: Result<Entry, Errno>,
) -> bool {
    if atime is None && mtime is None {
        &&& gnu_after == gnu
        &&& queried(before, after, rows, rows_after, path)
        &&& reply == attr_reply(opts, ino, answered(path, after))
    } else {
        exists|mid: Seq<Exchange>, done: Result<(), Fault>|
            {
                &&& before.len() <= mid.len()
                &&& mid.take(before.len() as int) == before
                &&& #[trigger] times_set(
                    mid,
                    before.len() as int,
                    path,
                    atime,
                    mtime,
                    gnu,
                    rescan,
                    done,
                    gnu_after,
                )
                &&& match done {
                    Ok(_) => {
                        &&& queried(mid, after, rows.remove(path), rows_after, path)
                        &&& reply == attr_reply(opts, ino, answered(path, after))
                    },
                    Err(fault) => {
                        &&& after == mid
                        &&& rows_after == rows
                        &&& reply == Err::<Entry, Errno>(fault_errno(fault))
                    },
                }
            }
    }
}

/// How the times of `path` are set that are asked for, the present one among
/// them, and what its attributes are then.
pub open spec fn settled_by_clock(
    before: Seq<Exchange>,
    after: Seq<Exchange>,
    rows: Map<Seq<char>, CacheEntry>,
    rows_after: Map<Seq<char>, CacheEntry>,
    opts: FsOptions,
    rescan: bool,
    gnu: bool,
    gnu_after: bool,
    ino: u64,
    path: Seq<char>,
    atime: Option<TimeOrNow>,
    mtime: Option<TimeOrNow>,
    reply: Result<Entry, Errno>,
) -> bool {
    exists|at: Option<FileTime>, mt: Option<FileTime>|
        {
            &&& resolved(atime, at)
            &&& resolved(mtime, mt)
            &&& #[trigger] settled(
                before,
                after,
                rows,
                rows_after,
                opts,
                rescan,
                gnu,
                gnu_after,
                ino,
                path,
                at,
                mt,
                reply,
            )
        }
}

/// How the copy of `ino` at `path` is made ready to be cut to `len`.
pub open spec fn cut_begun(
    before: Seq<Exchange>,
    after: Seq<Exchange>,
    v: HandleView,
    w: HandleView,
    tmp_dir: Seq<char>,
    ino: u64,
    path: Seq<char>,
    len: u64,
    task: TaskView,
    pending: Option<Task>,
    r: Step<Entry>,
) -> bool {
    exists|done: Result<(), Errno>|
        {
            &&& #[trigger] acquired(
                before,
                after,
                v,
                w,
                ino,
                path,
                local_path(tmp_dir, ino),
                CopyInit::Pull,
                done,
            )
            &&& match done {
                Ok(_) => {
                    &&& waits(r, WorkView::SetLen { path: local_path(tmp_dir, ino), len })
                    &&& pending matches Some(t)
                    &&& t@ == task
                },
                Err(e) => replied(r, Err(e), None) && pending is None,
            }
        }
}

/// How the copy of `ino`, which was cut, comes to the device, and what else
/// was asked for is done. The reference on the copy is given back in any case.
pub open spec fn cut(
    before: Seq<Exchange>,
    after: Seq<Exchange>,
    rows: Map<Seq<char>, CacheEntry>,
    rows_after: Map<Seq<char>, CacheEntry>,
    v: HandleView,
    w: HandleView,
    opts: FsOptions,
    rescan: bool,
    gnu: bool,
    gnu_after: bool,
    ino: u64,
    path: Seq<char>,
    atime: Option<TimeOrNow>,
    mtime: Option<TimeOrNow>,
    reply: Result<Entry, Errno>,
    remove: Option<Seq<char>>,
) -> bool {
    exists|
        mid: Seq<Exchange>,
        rows_mid: Map<Seq<char>, CacheEntry>,
        v_mid: HandleView,
        done: Result<(), Errno>,
    |
        {
            &&& #[trigger] flushed(
                before,
                mid,
                rows,
                rows_mid,
                v.marked(ino, true),
                v_mid,
                ino,
                Some(path),
                done,
            )
            &&& w == v_mid.given_back(ino)
            &&& remove == v_mid.left_over(ino)
            &&& match done {
                Ok(_) => settled_by_clock(
                    mid,
                    after,
                    rows_mid,
                    rows_after,
                    opts,
                    rescan,
                    gnu,
                    gnu_after,
                    ino,
                    path,
                    atime,
                    mtime,
                    reply,
                ),
                Err(e) => {
                    &&& after == mid
                    &&& rows_after == rows_mid
                    &&& gnu_after == gnu
                    &&& reply == Err::<Entry, Errno>(e)
                },
            }
        }
}

/// A reference that was acquired is held, and one that was not changes
/// nothing.
proof fn lemma_acquired(
    before: Seq<Exchange>,
    after: Seq<Exchange>,
    v: HandleView,
    w: HandleView,
    ino: u64,
    path: Seq<char>,
    tmp_dir: Seq<char>,
    init: CopyInit,
    r: Result<(), Errno>,
)
    requires
        v.balanced(None),
        in_place(v, tmp_dir),
        acquired(before, after, v, w, ino, path, local_path(tmp_dir, ino), init, r),
    ensures
        r is Ok ==> w.balanced(Some(ino)) && in_place(w, tmp_dir) && w.copies.contains_key(ino),
        r is Err ==> w == v,
        w.next_fh == v.next_fh,
{
    law_taking_is_balanced(v, ino, local_path(tmp_dir, ino), true);
    law_taking_is_balanced(v, ino, local_path(tmp_dir, ino), false);
    if r is Err {
        assert(unpopulated(v, ino).copies =~= v.copies);
        assert(unpopulated(v, ino) == v);
    }
}

/// Bringing writes to the device keeps the balance.
proof fn lemma_flushed(
    before: Seq<Exchange>,
    after: Seq<Exchange>,
    rows: Map<Seq<char>, CacheEntry>,
    rows_after: Map<Seq<char>, CacheEntry>,
    v: HandleView,
    w: HandleView,
    ino: u64,
    path: Option<Seq<char>>,
    r: Result<(), Errno>,
    held: Option<u64>,
    tmp_dir: Seq<char>,
)
    requires
        v.balanced(held),
        in_place(v, tmp_dir),
        v.copies.contains_key(ino),
        flushed(before, after, rows, rows_after, v, w, ino, path, r),
    ensures
        w.balanced(held),
        in_place(w, tmp_dir),
        w.copies.contains_key(ino),
        w.next_fh == v.next_fh,
{
    law_marking_is_balanced(v, held, ino, false);
}

impl<D: AdbDevice> AdbFs<D> {
    /// How the opening of the file `ino` is begun.
    pub open spec fn opening_begun(
        &self,
        was: &Self,
        ino: u64,
        r: Step<Opened>,
    ) -> bool {
        match was.inodes@.path_of(ino) {
            None => {
                &&& replied(r, Err(Errno::ENOENT), None)
                &&& self.untouched(was)
                &&& self.pending is None
            },
            Some(path) => open_begun(
                was.history(),
                self.history(),
                was.handles@,
                self.handles@,
                was.tmp_dir@,
                ino,
                path,
                self.pending,
                r,
            ),
        }
    }

    /// How what was written through `fh` is brought to the device.
    pub open spec fn handle_flushed(
        &self,
        was: &Self,
        fh: u64,
        r: Result<(), Errno>,
    ) -> bool {
        if was.handles@.files.contains_key(fh) {
            flushed(
                was.history(),
                self.history(),
                was.cache.rows(),
                self.cache.rows(),
                was.handles@,
                self.handles@,
                was.handles@.files[fh],
                was.inodes@.path_of(was.handles@.files[fh]),
                r,
            )
        } else {
            r == Err::<(), Errno>(Errno::EBADF) && self.untouched(was)
        }
    }

    /// How the new file `name` in `parent` is begun.
    pub open spec fn creation_begun(
        &self,
        was: &Self,
        parent: u64,
        name: Seq<char>,
        r: Step<Created>,
    ) -> bool {
        match was.inodes@.path_of(parent) {
            None => {
                &&& replied(r, Err(Errno::ENOENT), None)
                &&& self.inodes@ == was.inodes@
                &&& self.pending is None
            },
            Some(dir) => {
                let path = child(dir, name);
                let ino = was.inodes@.ino_of(path);
                &&& self.inodes@ == was.inodes@.with(path)
                &&& waits(r, WorkView::Create { path: local_path(was.tmp_dir@, ino) })
                &&& self.pending matches Some(task)
                &&& task@ == (TaskView::Create { ino, path })
            },
        }
    }

    /// How a new file goes on whose local copy was made or could not be.
    pub open spec fn creation_made(
        &self,
        was: &Self,
        outcome: Result<(), Errno>,
        r: Step<Created>,
    ) -> bool {
        let ino = (was.pending->0)->Create_ino;
        let path = (was.pending->0)->Create_path@;
        emptied(
            was.history(),
            self.history(),
            was.handles@,
            self.handles@,
            was.tmp_dir@,
            ino,
            path,
            outcome,
            WorkView::Open { path: local_path(was.tmp_dir@, ino) },
            TaskView::CreateOpen { ino, path },
            self.pending,
            r,
        )
    }

    /// How a new file goes on whose local copy was opened or could not be.
    pub open spec fn creation_finished(
        &self,
        was: &Self,
        outcome: Result<(), Errno>,
        r: Step<Created>,
    ) -> bool {
        let ino = (was.pending->0)->CreateOpen_ino;
        let path = (was.pending->0)->CreateOpen_path@;
        match outcome {
            Ok(_) => {
                let target = was.inodes@.path_of(ino);
                &&& was.inodes@.consistent() ==> target == Some(path)
                &&& created(
                    was.history(),
                    self.history(),
                    was.cache.rows(),
                    self.cache.rows(),
                    was.handles@,
                    self.handles@,
                    was.opts,
                    ino,
                    path,
                    target,
                    r,
                )
            },
            Err(e) => {
                &&& self.ops == was.ops
                &&& self.cache == was.cache
                &&& self.handles@ == was.handles@.given_back(ino)
                &&& replied(r, Err(e), was.handles@.left_over(ino))
            },
        }
    }

    /// How the setting of attributes of `ino` is begun.
    pub open spec fn setting_begun(
        &self,
        was: &Self,
        ino: u64,
        size: Option<u64>,
        atime: Option<TimeOrNow>,
        mtime: Option<TimeOrNow>,
        r: Step<Entry>,
    ) -> bool {
        match was.inodes@.path_of(ino) {
            None => {
                &&& replied(r, Err(Errno::ENOENT), None)
                &&& self.untouched(was)
                &&& self.pending is None
            },
            Some(path) => match size {
                None => {
                    &&& r matches Step::Done { reply, remove: None }
                    &&& settled_by_clock(
                        was.history(),
                        self.history(),
                        was.cache.rows(),
                        self.cache.rows(),
                        was.opts,
                        was.ops.rescan,
                        was.ops.touch_gnu_mode,
                        self.ops.touch_gnu_mode,
                        ino,
                        path,
                        atime,
                        mtime,
                        reply,
                    )
                    &&& self.handles == was.handles
                    &&& self.pending is None
                },
                Some(len) => if len == 0 {
                    &&& self.untouched(was)
                    &&& waits(r, WorkView::Create { path: local_path(was.tmp_dir@, ino) })
                    &&& self.pending matches Some(task)
                    &&& task@ == (TaskView::Clear { ino, path, atime, mtime })
                } else {
                    &&& cut_begun(
                        was.history(),
                        self.history(),
                        was.handles@,
                        self.handles@,
                        was.tmp_dir@,
                        ino,
                        path,
                        len,
                        TaskView::Cut { ino, path, atime, mtime },
                        self.pending,
                        r,
                    )
                    &&& self.same_settings(was)
                    &&& self.cache.rows() == was.cache.rows()
                },
            },
        }
    }

    /// How the setting of attributes goes on where the local copy was emptied
    /// or could not be.
    pub open spec fn clearing_finished(
        &self,
        was: &Self,
        outcome: Result<(), Errno>,
        r: Step<Entry>,
    ) -> bool {
        let ino = (was.pending->0)->Clear_ino;
        let path = (was.pending->0)->Clear_path@;
        let atime = (was.pending->0)->Clear_atime;
        let mtime = (was.pending->0)->Clear_mtime;
        emptied(
            was.history(),
            self.history(),
            was.handles@,
            self.handles@,
            was.tmp_dir@,
            ino,
            path,
            outcome,
            WorkView::SetLen { path: local_path(was.tmp_dir@, ino), len: 0 },
            TaskView::Cut { ino, path, atime, mtime },
            self.pending,
            r,
        )
    }

    /// How the setting of attributes goes on where the local copy was cut or
    /// could not be.
    pub open spec fn cutting_finished(
        &self,
        was: &Self,
        outcome: Result<(), Errno>,
        r: Step<Entry>,
    ) -> bool {
        let ino = (was.pending->0)->Cut_ino;
        let path = (was.pending->0)->Cut_path@;
        let atime = (was.pending->0)->Cut_atime;
        let mtime = (was.pending->0)->Cut_mtime;
        match outcome {
            Ok(_) => {
                &&& r matches Step::Done { reply, remove }
                &&& cut(
                    was.history(),
                    self.history(),
                    was.cache.rows(),
                    self.cache.rows(),
                    was.handles@,
                    self.handles@,
                    was.opts,
                    was.ops.rescan,
                    was.ops.touch_gnu_mode,
                    self.ops.touch_gnu_mode,
                    ino,
                    path,
                    atime,
                    mtime,
                    reply,
                    (match remove {
                        Some(local) => Some(local@),
                        None => None,
                    }),
                )
            },
            Err(e) => {
                &&& self.ops == was.ops
                &&& self.cache == was.cache
                &&& self.handles@ == was.handles@.given_back(ino)
                &&& replied(r, Err(e), was.handles@.left_over(ino))
            },
        }
    }
}

impl<D: AdbDevice> AdbFs<D> {
    /// Opens a file. The local copy is pulled where no handle has it yet, and
    /// is then to be opened; [`Self::opened`] goes on from there.
    pub fn open(&mut self, ino: u64) -> (r: Step<Opened>)
        requires
            old(self).well_formed(),
            old(self).pending is None,
            old(self).handles@.next_fh < u64::MAX,
        ensures
            final(self).well_formed(),
            final(self).opening_begun(old(self), ino, r),
            final(self).same_settings(old(self)),
            final(self).cache == old(self).cache,
            final(self).inodes == old(self).inodes,
    {
        let path = match self.inodes.get_path(ino) {
            Some(path) => path,
            None => {
                return Step::Done { reply: Err(Errno::ENOENT), remove: None };
            },
        };
        proof {
            law_references_can_be_counted(self.handles@, ino);
        }
        let done = self.acquire_copy(ino, path.as_str(), CopyInit::Pull);
        proof {
            lemma_acquired(
                old(self).history(),
                self.history(),
                old(self).handles@,
                self.handles@,
                ino,
                path@,
                self.tmp_dir@,
                CopyInit::Pull,
                done,
            );
        }
        match done {
            Ok(()) => {
                self.pending = Some(Task::Open { ino });
                Step::Work(LocalWork::Open { path: self.local_path_for(ino) })
            },
            Err(e) => Step::Done { reply: Err(e), remove: None },
        }
    }

    /// Goes on with opening a file, once its local copy was opened or could
    /// not be.
    pub fn opened(&mut self, outcome: Result<(), Errno>) -> (r: Step<Opened>)
        requires
            old(self).well_formed(),
            old(self).pending is Some,
            old(self).pending->0 is Open,
        ensures
            final(self).well_formed(),
            final(self).pending is None,
            handle_given(
                old(self).handles@,
                final(self).handles@,
                old(self).opts,
                (old(self).pending->0)->Open_ino,
                outcome,
                r,
            ),
            final(self).ops == old(self).ops,
            final(self).cache == old(self).cache,
            final(self).inodes == old(self).inodes,
            final(self).same_settings(old(self)),
    {
        let ino = match self.pending.take() {
            Some(Task::Open { ino }) => ino,
            _ => {
                return Step::Done { reply: Err(Errno::EBADF), remove: None };
            },
        };
        match outcome {
            Ok(()) => {
                proof {
                    law_opening_is_balanced(self.handles@, ino);
                }
                let fh = self.handles.open_file(ino);
                Step::Done {
                    reply: Ok(Opened { fh, flags: file_open_flags(&self.opts) }),
                    remove: None,
                }
            },
            Err(e) => {
                proof {
                    law_giving_back_is_balanced(self.handles@, ino);
                    assert(self.handles@.refs(ino) > 0);
                }
                let remove = self.release_copy(ino);
                Step::Done { reply: Err(e), remove }
            },
        }
    }

    /// The inode that a file handle is open on. Reading and writing go to its
    /// local copy.
    pub fn handle_ino(&self, fh: u64) -> (r: Result<u64, Errno>)
        ensures
            r == open_on(self.handles@, fh),
    {
        match self.handles.file(fh) {
            Some(ino) => Ok(ino),
            None => Err(Errno::EBADF),
        }
    }

    /// Notes how a write to the local copy behind a handle went: one that went
    /// through is something the device lacks.
    pub fn write(&mut self, fh: u64, outcome: Result<usize, Errno>) -> (r: Result<u32, Errno>)
        requires
            old(self).well_formed(),
        ensures
            final(self).well_formed(),
            written(old(self).handles@, final(self).handles@, fh, outcome, r),
            final(self).ops == old(self).ops,
            final(self).cache == old(self).cache,
            final(self).inodes == old(self).inodes,
            final(self).tmp_dir == old(self).tmp_dir,
            final(self).opts == old(self).opts,
            final(self).next_node == old(self).next_node,
            final(self).pending == old(self).pending,
    {
        let ino = match self.handles.file(fh) {
            Some(ino) => ino,
            None => {
                return Err(Errno::EBADF);
            },
        };
        match outcome {
            Ok(n) => {
                proof {
                    law_handle_has_its_copy(self.handles@, fh, held_by(self.pending));
                    law_marking_is_balanced(self.handles@, held_by(self.pending), ino, true);
                }
                self.handles.set_dirty(ino, true);
                Ok(#[verifier::truncate] (n as u32))
            },
            Err(e) => Err(e),
        }
    }

    /// Brings what was written through a handle to the device.
    pub fn flush(&mut self, fh: u64) -> (r: Result<(), Errno>)
        requires
            old(self).well_formed(),
        ensures
            old(self).pending is None ==> final(self).well_formed(),
            final(self).handle_flushed(old(self), fh, r),
            final(self).same_settings(old(self)),
            final(self).inodes == old(self).inodes,
            final(self).pending == old(self).pending,
    {
        let ino = match self.handles.file(fh) {
            Some(ino) => ino,
            None => {
                return Err(Errno::EBADF);
            },
        };
        proof {
            law_handle_has_its_copy(self.handles@, fh, held_by(self.pending));
        }
        let r = self.push_if_dirty(ino);
        proof {
            lemma_flushed(
                old(self).history(),
                self.history(),
                old(self).cache.rows(),
                self.cache.rows(),
                old(self).handles@,
                self.handles@,
                ino,
                old(self).inodes@.path_of(ino),
                r,
                held_by(self.pending),
                self.tmp_dir@,
            );
        }
        r
    }

    /// Closes a file handle. The local file that is returned, if any, is to be
    /// deleted: no handle is left on it.
    pub fn release(&mut self, fh: u64) -> (r: Option<String>)
        requires
            old(self).well_formed(),
            old(self).pending is None,
        ensures
            final(self).well_formed(),
            released(
                old(self).handles@,
                final(self).handles@,
                fh,
                (match r {
                    Some(path) => Some(path@),
                    None => None,
                }),
            ),
            final(self).ops == old(self).ops,
            final(self).cache == old(self).cache,
            final(self).inodes == old(self).inodes,
            final(self).tmp_dir == old(self).tmp_dir,
            final(self).opts == old(self).opts,
            final(self).next_node == old(self).next_node,
            final(self).pending == old(self).pending,
    {
        proof {
            if !self.handles@.files.contains_key(fh) {
                assert(self.handles@.files.remove(fh) =~= self.handles@.files);
                assert(self.handles@.closed(fh) == self.handles@);
            } else {
                law_closing_is_balanced(self.handles@, fh);
            }
        }
        match self.handles.close_file(fh) {
            Some(ino) => {
                proof {
                    law_giving_back_is_balanced(self.handles@, ino);
                    assert(self.handles@.refs(ino) > 0);
                }
                self.release_copy(ino)
            },
            None => None,
        }
    }

    /// Creates a file. Its local copy is to be made first;
    /// [`Self::create_made`] goes on from there.
    pub fn create(&mut self, parent: u64, name: &str) -> (r: Step<Created>)
        requires
            old(self).well_formed(),
            old(self).pending is None,
            old(self).handles@.next_fh < u64::MAX,
        ensures
            final(self).well_formed(),
            final(self).creation_begun(old(self), parent, name@, r),
            old(self).inodes@.next < u64::MAX ==> old(self).inodes@.kept_in_step(
                final(self).inodes@,
            ),
            final(self).same_settings(old(self)),
            final(self).ops == old(self).ops,
            final(self).cache == old(self).cache,
            final(self).handles == old(self).handles,
    {
        let dir = match self.inodes.get_path(parent) {
            Some(path) => path,
            None => {
                return Step::Done { reply: Err(Errno::ENOENT), remove: None };
            },
        };
        let path = child_path(dir.as_str(), name);
        let ino = self.inodes.get_or_assign_ino(path.as_str());
        proof {
            if old(self).inodes@.next < u64::MAX {
                law_assigning_keeps_step(old(self).inodes@, path@);
            }
        }
        let local = self.local_path_for(ino);
        self.pending = Some(Task::Create { ino, path });
        Step::Work(LocalWork::Create { path: local })
    }

    /// Goes on with creating a file, once its local copy was made or could not
    /// be. It is then to be opened; [`Self::create_opened`] goes on from there.
    pub fn create_made(&mut self, outcome: Result<(), Errno>) -> (r: Step<Created>)
        requires
            old(self).well_formed(),
            old(self).pending is Some,
            old(self).pending->0 is Create,
        ensures
            final(self).well_formed(),
            final(self).creation_made(old(self), outcome, r),
            final(self).same_settings(old(self)),
            final(self).cache == old(self).cache,
            final(self).inodes == old(self).inodes,
    {
        let (ino, path) = match self.pending.take() {
            Some(Task::Create { ino, path }) => (ino, path),
            _ => {
                return Step::Done { reply: Err(Errno::EBADF), remove: None };
            },
        };
        proof {
            law_references_can_be_counted(self.handles@, ino);
        }
        let init = CopyInit::Empty { created: outcome };
        let done = self.acquire_copy(ino, path.as_str(), init);
        proof {
            lemma_acquired(
                old(self).history(),
                self.history(),
                old(self).handles@,
                self.handles@,
                ino,
                path@,
                self.tmp_dir@,
                init,
                done,
            );
        }
        match done {
            Ok(()) => {
                let local = self.local_path_for(ino);
                self.pending = Some(Task::CreateOpen { ino, path });
                Step::Work(LocalWork::Open { path: local })
            },
            Err(e) => Step::Done { reply: Err(e), remove: None },
        }
    }

    /// Goes on with creating a file, once its local copy was opened or could
    /// not be. The file is created on the device now, so that a lookup between
    /// here and the first flush finds it.
    pub fn create_opened(&mut self, outcome: Result<(), Errno>) -> (r: Step<Created>)
        requires
            old(self).well_formed(),
            old(self).pending is Some,
            old(self).pending->0 is CreateOpen,
        ensures
            final(self).well_formed(),
            final(self).pending is None,
            final(self).creation_finished(old(self), outcome, r),
            final(self).same_settings(old(self)),
            final(self).inodes == old(self).inodes,
    {
        let (ino, path) = match self.pending.take() {
            Some(Task::CreateOpen { ino, path }) => (ino, path),
            _ => {
                return Step::Done { reply: Err(Errno::EBADF), remove: None };
            },
        };
        proof {
            law_giving_back_is_balanced(self.handles@, ino);
            assert(self.handles@.refs(ino) > 0);
        }
        if let Err(e) = outcome {
            let remove = self.release_copy(ino);
            return Step::Done { reply: Err(e), remove };
        }
        let done = self.push_if_dirty(ino);
        let ghost mid = self.history();
        let ghost rows_mid = self.cache.rows();
        let ghost v_mid = self.handles@;
        proof {
            lemma_flushed(
                old(self).history(),
                mid,
                old(self).cache.rows(),
                rows_mid,
                old(self).handles@,
                v_mid,
                ino,
                old(self).inodes@.path_of(ino),
                done,
                Some(ino),
                self.tmp_dir@,
            );
            law_giving_back_is_balanced(v_mid, ino);
            law_opening_is_balanced(v_mid, ino);
            assert(v_mid.refs(ino) > 0);
        }
        let r = match done {
            Err(e) => {
                let remove = self.release_copy(ino);
                Step::Done { reply: Err(e), remove }
            },
            Ok(()) => {
                let got = self.ops.get_metadata(path.as_str());
                match got {
                    Err(e) => {
                        let remove = self.release_copy(ino);
                        Step::Done { reply: Err(e.to_errno()), remove }
                    },
                    Ok(meta) => {
                        let attr = meta_to_attr(&self.opts, ino, &meta);
                        self.cache.insert(path, Some(meta));
                        let fh = self.handles.open_file(ino);
                        let entry = Entry { ttl: self.opts.entry_timeout, attr };
                        let opened = Opened { fh, flags: file_open_flags(&self.opts) };
                        Step::Done { reply: Ok(Created { entry, opened }), remove: None }
                    },
                }
            },
        };
        assert(flushed(
            old(self).history(),
            mid,
            old(self).cache.rows(),
            rows_mid,
            old(self).handles@,
            v_mid,
            ino,
            old(self).inodes@.path_of(ino),
            done,
        ));
        r
    }

    /// Sets the times that are given, and says what the attributes are then.
    pub fn settle(
        &mut self,
        ino: u64,
        path: String,
        atime: Option<FileTime>,
        mtime: Option<FileTime>,
    ) -> (r: Result<Entry, Errno>)
        ensures
            settled(
                old(self).history(),
                final(self).history(),
                old(self).cache.rows(),
                final(self).cache.rows(),
                old(self).opts,
                old(self).ops.rescan,
                old(self).ops.touch_gnu_mode,
                final(self).ops.touch_gnu_mode,
                ino,
                path@,
                atime,
                mtime,
                r,
            ),
            final(self).same_settings_but_touch(old(self)),
            final(self).inodes == old(self).inodes,
            final(self).handles == old(self).handles,
            final(self).pending == old(self).pending,
    {
        let ghost mut mid = self.history();
        let ghost mut result: Result<(), Fault> = Ok(());
        if atime.is_some() || mtime.is_some() {
            let done = self.ops.touch(path.as_str(), atime, mtime);
            proof {
                mid = self.history();
                result = ended(done);
            }
            if let Err(e) = done {
                assert(times_set(
                    mid,
                    old(self).history().len() as int,
                    path@,
                    atime,
                    mtime,
                    old(self).ops.touch_gnu_mode,
                    old(self).ops.rescan,
                    result,
                    self.ops.touch_gnu_mode,
                ));
                return Err(e.to_errno());
            }
            self.cache.invalidate(path.as_str());
        }
        let got = self.ops.get_metadata(path.as_str());
        let r = match got {
            Ok(meta) => {
                let attr = meta_to_attr(&self.opts, ino, &meta);
                self.cache.insert(path, Some(meta));
                Ok(Entry { ttl: self.opts.attr_timeout, attr })
            },
            Err(e) => Err(e.to_errno()),
        };
        proof {
            if atime is Some || mtime is Some {
                assert(times_set(
                    mid,
                    old(self).history().len() as int,
                    path@,
                    atime,
                    mtime,
                    old(self).ops.touch_gnu_mode,
                    old(self).ops.rescan,
                    result,
                    self.ops.touch_gnu_mode,
                ));
            }
        }
        r
    }

    /// Sets the times that are asked for, by the clock as it is now, and says
    /// what the attributes are then.
    fn settle_by_clock(
        &mut self,
        ino: u64,
        path: String,
        atime: Option<TimeOrNow>,
        mtime: Option<TimeOrNow>,
    ) -> (r: Result<Entry, Errno>)
        ensures
            settled_by_clock(
                old(self).history(),
                final(self).history(),
                old(self).cache.rows(),
                final(self).cache.rows(),
                old(self).opts,
                old(self).ops.rescan,
                old(self).ops.touch_gnu_mode,
                final(self).ops.touch_gnu_mode,
                ino,
                path@,
                atime,
                mtime,
                r,
            ),
            final(self).same_settings_but_touch(old(self)),
            final(self).inodes == old(self).inodes,
            final(self).handles == old(self).handles,
            final(self).pending == old(self).pending,
    {
        let at = resolve_time(atime);
        let mt = resolve_time(mtime);
        self.settle(ino, path, at, mt)
    }

    /// Sets the size and the times that are asked for. Cutting is done on the local
    /// copy: where the file is to be empty the copy is to be emptied, with no
    /// pull, and [`Self::setattr_cleared`] goes on; otherwise it is pulled
    /// where no handle has it yet and is to be cut, and [`Self::setattr_cut`]
    /// goes on.
    pub fn setattr(
        &mut self,
        ino: u64,
        size: Option<u64>,
        atime: Option<TimeOrNow>,
        mtime: Option<TimeOrNow>,
    ) -> (r: Step<Entry>)
        requires
            old(self).well_formed(),
            old(self).pending is None,
        ensures
            final(self).well_formed(),
            final(self).setting_begun(old(self), ino, size, atime, mtime, r),
            final(self).same_settings_but_touch(old(self)),
            final(self).inodes == old(self).inodes,
    {
        let path = match self.inodes.get_path(ino) {
            Some(path) => path,
            None => {
                return Step::Done { reply: Err(Errno::ENOENT), remove: None };
            },
        };
        let len = match size {
            Some(len) => len,
            None => {
                let reply = self.settle_by_clock(ino, path, atime, mtime);
                return Step::Done { reply, remove: None };
            },
        };
        // Truncating to zero replaces the whole file, so the pull is pointless.
        if len == 0 {
            let local = self.local_path_for(ino);
            self.pending = Some(Task::Clear { ino, path, atime, mtime });
            return Step::Work(LocalWork::Create { path: local });
        }
        proof {
            law_references_can_be_counted(self.handles@, ino);
        }
        let done = self.acquire_copy(ino, path.as_str(), CopyInit::Pull);
        proof {
            lemma_acquired(
                old(self).history(),
                self.history(),
                old(self).handles@,
                self.handles@,
                ino,
                path@,
                self.tmp_dir@,
                CopyInit::Pull,
                done,
            );
        }
        match done {
            Ok(()) => {
                let local = self.local_path_for(ino);
                self.pending = Some(Task::Cut { ino, path, atime, mtime });
                Step::Work(LocalWork::SetLen { path: local, len })
            },
            Err(e) => Step::Done { reply: Err(e), remove: None },
        }
    }

    /// Goes on with emptying a file, once its local copy was emptied or could
    /// not be. [`Self::setattr_cut`] goes on from there.
    pub fn setattr_cleared(&mut self, outcome: Result<(), Errno>) -> (r: Step<Entry>)
        requires
            old(self).well_formed(),
            old(self).pending is Some,
            old(self).pending->0 is Clear,
        ensures
            final(self).well_formed(),
            final(self).clearing_finished(old(self), outcome, r),
            final(self).same_settings(old(self)),
            final(self).cache == old(self).cache,
            final(self).inodes == old(self).inodes,
    {
        let (ino, path, atime, mtime) = match self.pending.take() {
            Some(Task::Clear { ino, path, atime, mtime }) => (ino, path, atime, mtime),
            _ => {
                return Step::Done { reply: Err(Errno::EBADF), remove: None };
            },
        };
        proof {
            law_references_can_be_counted(self.handles@, ino);
        }
        let init = CopyInit::Empty { created: outcome };
        let done = self.acquire_copy(ino, path.as_str(), init);
        proof {
            lemma_acquired(
                old(self).history(),
                self.history(),
                old(self).handles@,
                self.handles@,
                ino,
                path@,
                self.tmp_dir@,
                init,
                done,
            );
        }
        match done {
            Ok(()) => {
                let local = self.local_path_for(ino);
                self.pending = Some(Task::Cut { ino, path, atime, mtime });
                Step::Work(LocalWork::SetLen { path: local, len: 0 })
            },
            Err(e) => Step::Done { reply: Err(e), remove: None },
        }
    }

    /// Goes on with setting attributes, once the local copy was cut or could
    /// not be.
    pub fn setattr_cut(&mut self, outcome: Result<(), Errno>) -> (r: Step<Entry>)
        requires
            old(self).well_formed(),
            old(self).pending is Some,
            old(self).pending->0 is Cut,
        ensures
            final(self).well_formed(),
            final(self).pending is None,
            final(self).cutting_finished(old(self), outcome, r),
            final(self).same_settings_but_touch(old(self)),
            final(self).inodes == old(self).inodes,
    {
        let (ino, path, atime, mtime) = match self.pending.take() {
            Some(Task::Cut { ino, path, atime, mtime }) => (ino, path, atime, mtime),
            _ => {
                return Step::Done { reply: Err(Errno::EBADF), remove: None };
            },
        };
        proof {
            law_giving_back_is_balanced(self.handles@, ino);
            assert(self.handles@.refs(ino) > 0);
            law_marking_is_balanced(self.handles@, Some(ino), ino, true);
        }
        if let Err(e) = outcome {
            let remove = self.release_copy(ino);
            return Step::Done { reply: Err(e), remove };
        }
        self.handles.set_dirty(ino, true);
        let ghost marked = self.handles@;
        let done = self.push_if_dirty(ino);
        let ghost mid = self.history();
        let ghost rows_mid = self.cache.rows();
        let ghost v_mid = self.handles@;
        proof {
            lemma_flushed(
                old(self).history(),
                mid,
                old(self).cache.rows(),
                rows_mid,
                marked,
                v_mid,
                ino,
                old(self).inodes@.path_of(ino),
                done,
                Some(ino),
                self.tmp_dir@,
            );
            law_giving_back_is_balanced(v_mid, ino);
            assert(v_mid.refs(ino) > 0);
        }
        let remove = self.release_copy(ino);
        let reply = match done {
            Ok(()) => self.settle_by_clock(ino, path, atime, mtime),
            Err(e) => Err(e),
        };
        assert(flushed(
            old(self).history(),
            mid,
            old(self).cache.rows(),
            rows_mid,
            old(self).handles@.marked(ino, true),
            v_mid,
            ino,
            Some(old(self).pending->0->Cut_path@),
            done,
        ));
        Step::Done { reply, remove }
    }
}

} // verus!
