//! What each request of the kernel comes to, from the inodes and names that it
//! gives to what the device is told and what is answered.

use crate::adb::{AdbDevice, Exchange};
use crate::attr::{attr_of, open_bits};
use crate::cache::at_or_below;
use crate::escape::shell_words;
use crate::fs::dirs::{all_assigned, all_listed};
use crate::fs::files::settled;
use crate::fs::laws::{
    asked_at_most, law_a_child_is_behind_a_slash, law_a_cut_file_is_pushed,
    law_a_directory_is_listed_once, law_a_directory_is_made_on_the_device,
    law_a_link_is_read_from_its_line, law_a_lookup_gives_the_inode,
    law_a_removal_is_made_on_the_device, law_a_rename_is_made_on_the_device,
    law_a_special_file_is_pushed, law_attributes_come_from_the_device,
    law_created_file_is_on_the_device, law_cutting_waits_for_the_local_file,
    law_emptying_goes_on_or_fails, law_opening_waits_for_the_local_file,
    law_times_are_set_before_the_answer,
};
use crate::fs::names::{link_reply, node_path};
use crate::fs::step::{Created, Entry, LocalWork, Opened, Step, Task, TaskView, WorkView};
use crate::fs::{child, local_path, AdbFs};
use crate::handles::{law_references_can_be_counted, law_the_last_reference_takes_the_copy};
use crate::inodes::{apart, is_under, law_renaming_moves_every_row, renamed};
use crate::ops::{
    described, entries_in, law_broadcasts_name_the_path, law_each_path_is_scanned,
    law_making_and_removing_name_the_path, rm_command, rmdir_command, scans, unmounted_command,
};
use crate::sys::Errno;
use crate::text::texts;
use crate::time::{resolved, FileTime, TimeOrNow};
use vstd::prelude::*;

verus! {

/// An inode that has no path is not there, and nothing is done about it. The
/// attributes of any other are those that the device gives for its path, which
/// it is asked for at most once.
pub proof fn law_getattr_asks_about_the_path<D: AdbDevice>(
    now: AdbFs<D>,
    was: AdbFs<D>,
    ino: u64,
    r: Result<Entry, Errno>,
)
    requires
        now.attributes_given(&was, ino, r),
    ensures
        was.inodes@.path_of(ino) is None ==> r == Err::<Entry, Errno>(Errno::ENOENT)
            && now.history() == was.history() && now.cache.rows() == was.cache.rows(),
        was.inodes@.path_of(ino) matches Some(path) ==> {
            &&& asked_at_most(was.history(), now.history(), path)
            &&& r matches Ok(entry) ==> entry.attr.ino == ino && entry.ttl
                == was.opts.attr_timeout
            &&& (now.history() != was.history() && (now.history().last() matches Exchange::Run {
                output: Ok(o),
                ..
            } && described(path, o) is Ok)) ==> {
                let meta = described(path, now.history().last()->Run_output->Ok_0)->Ok_0;
                &&& r matches Ok(entry)
                &&& entry.attr.size == meta.size
                &&& entry.attr == attr_of(was.opts, ino, meta)
            }
        },
{
    if let Some(path) = was.inodes@.path_of(ino) {
        law_attributes_come_from_the_device(
            was.history(),
            now.history(),
            was.cache,
            now.cache.rows(),
            was.opts,
            ino,
            path,
            r,
        );
    }
}

/// A name is looked up as the path of its directory, a slash and itself. What
/// is there gets an inode that leads back to that path, and no other path gets
/// one.
pub proof fn law_lookup_is_of_the_name_in_the_directory<D: AdbDevice>(
    now: AdbFs<D>,
    was: AdbFs<D>,
    parent: u64,
    name: Seq<char>,
    r: Result<Entry, Errno>,
)
    requires
        now.name_found(&was, parent, name, r),
    ensures
        was.inodes@.path_of(parent) is None ==> r == Err::<Entry, Errno>(Errno::ENOENT)
            && now.history() == was.history() && now.inodes@ == was.inodes@,
        was.inodes@.path_of(parent) matches Some(dir) ==> {
            let path = if dir == seq!['/'] {
                seq!['/'] + name
            } else {
                dir + seq!['/'] + name
            };
            &&& asked_at_most(was.history(), now.history(), path)
            &&& now.inodes@ == was.inodes@ || now.inodes@ == was.inodes@.with(path)
            &&& r is Err ==> now.inodes@ == was.inodes@
            &&& r matches Ok(entry) ==> (entry.attr.ino == was.inodes@.ino_of(path) && entry.ttl
                == was.opts.entry_timeout && now.inodes@.numbers(path, entry.attr.ino)) || (
            entry.attr.ino == 0 && entry.ttl == was.opts.negative_timeout)
        },
{
    if let Some(dir) = was.inodes@.path_of(parent) {
        law_a_child_is_behind_a_slash(dir, name);
        law_a_lookup_gives_the_inode(
            was.history(),
            now.history(),
            was.cache,
            now.cache.rows(),
            was.inodes@,
            now.inodes@,
            was.opts,
            child(dir, name),
            r,
        );
    }
}

/// A link is read at the path of its inode.
pub proof fn law_readlink_asks_about_the_path<D: AdbDevice>(
    now: AdbFs<D>,
    was: AdbFs<D>,
    ino: u64,
    r: Result<String, Errno>,
)
    requires
        now.link_given(&was, ino, r),
    ensures
        was.inodes@.path_of(ino) is None ==> r == Err::<String, Errno>(Errno::ENOENT)
            && now.history() == was.history(),
        was.inodes@.path_of(ino) matches Some(path) ==> {
            &&& asked_at_most(was.history(), now.history(), path)
            &&& (now.history() != was.history() && (now.history().last() matches Exchange::Run {
                output: Ok(o),
                ..
            } && described(path, o) is Ok)) ==> (match link_reply(
                path,
                described(path, now.history().last()->Run_output->Ok_0),
            ) {
                Ok(target) => r matches Ok(text) && text@ == target,
                Err(e) => r == Err::<String, Errno>(e),
            })
        },
{
    if let Some(path) = was.inodes@.path_of(ino) {
        let shown = match r {
            Ok(text) => Ok(text@),
            Err(e) => Err(e),
        };
        law_a_link_is_read_from_its_line(
            was.history(),
            now.history(),
            was.cache,
            now.cache.rows(),
            path,
            shown,
        );
    }
}

/// A directory is made at the path of its parent, a slash and its name.
pub proof fn law_mkdir_makes_the_directory<D: AdbDevice>(
    now: AdbFs<D>,
    was: AdbFs<D>,
    parent: u64,
    name: Seq<char>,
    r: Result<Entry, Errno>,
)
    requires
        now.directory_made(&was, parent, name, r),
    ensures
        was.inodes@.path_of(parent) is None ==> r == Err::<Entry, Errno>(Errno::ENOENT)
            && now.history() == was.history(),
        was.inodes@.path_of(parent) matches Some(dir) ==> {
            let path = if dir == seq!['/'] {
                seq!['/'] + name
            } else {
                dir + seq!['/'] + name
            };
            let from = was.history().len() as int;
            &&& from < now.history().len()
            &&& now.history()[from] matches Exchange::Run { command, .. }
            &&& shell_words(command) == Some(seq!["mkdir"@, path])
            &&& r matches Ok(entry) ==> entry.attr.ino == was.inodes@.ino_of(path)
                && now.inodes@.numbers(path, entry.attr.ino)
        },
{
    if let Some(dir) = was.inodes@.path_of(parent) {
        law_a_child_is_behind_a_slash(dir, name);
        law_a_directory_is_made_on_the_device(
            was.history(),
            now.history(),
            was.cache.rows(),
            now.cache.rows(),
            was.inodes@,
            now.inodes@,
            was.opts,
            child(dir, name),
            r,
        );
    }
}

/// A file is removed by `rm` of its path and is not known any more then; the
/// media scanner is told of that path alone, and only where it is to be told.
pub proof fn law_unlink_removes_the_file<D: AdbDevice>(
    now: AdbFs<D>,
    was: AdbFs<D>,
    parent: u64,
    name: Seq<char>,
    r: Result<(), Errno>,
)
    requires
        now.file_removed(&was, parent, name, r),
    ensures
        was.inodes@.path_of(parent) is None ==> r == Err::<(), Errno>(Errno::ENOENT)
            && now.history() == was.history(),
        was.inodes@.path_of(parent) matches Some(dir) ==> {
            let path = if dir == seq!['/'] {
                seq!['/'] + name
            } else {
                dir + seq!['/'] + name
            };
            let from = was.history().len() as int;
            &&& from < now.history().len()
            &&& now.history()[from] matches Exchange::Run { command, .. }
            &&& shell_words(command) == Some(seq!["rm"@, path])
            &&& r is Ok ==> !now.cache.rows().contains_key(path)
            &&& r is Ok && !was.ops.rescan ==> now.history().len() == from + 1
            &&& r is Ok && was.ops.rescan ==> {
                &&& now.history().len() == from + 2
                &&& now.history()[from + 1] matches Exchange::Shell { command: notice, .. }
                &&& shell_words(notice) == Some(
                    seq![
                        "am"@,
                        "broadcast"@,
                        "-a"@,
                        "android.intent.action.MEDIA_SCANNER_SCAN_FILE"@,
                        "-d"@,
                        "file://"@ + path,
                    ],
                )
            }
            &&& r is Err ==> now.cache.rows() == was.cache.rows()
        },
{
    if let Some(dir) = was.inodes@.path_of(parent) {
        let path = child(dir, name);
        law_a_child_is_behind_a_slash(dir, name);
        law_making_and_removing_name_the_path(path);
        law_each_path_is_scanned(was.ops.rescan, seq![path], 0);
        let from = was.history().len();
        law_a_removal_is_made_on_the_device(
            was.history(),
            now.history(),
            was.cache.rows(),
            now.cache.rows(),
            rm_command(path),
            scans(was.ops.rescan, seq![path]),
            path,
            false,
            r,
        );
        if r is Ok && was.ops.rescan {
            let first: int = 0;
            assert(now.history()[from + 1 + first] is Shell);
        }
    }
}

/// A directory is removed by `rmdir` of its path, and nothing at or below it is
/// known any more then.
pub proof fn law_rmdir_removes_the_directory<D: AdbDevice>(
    now: AdbFs<D>,
    was: AdbFs<D>,
    parent: u64,
    name: Seq<char>,
    r: Result<(), Errno>,
    other: Seq<char>,
)
    requires
        now.directory_removed(&was, parent, name, r),
    ensures
        was.inodes@.path_of(parent) is None ==> r == Err::<(), Errno>(Errno::ENOENT)
            && now.history() == was.history(),
        was.inodes@.path_of(parent) matches Some(dir) ==> {
            let path = if dir == seq!['/'] {
                seq!['/'] + name
            } else {
                dir + seq!['/'] + name
            };
            let from = was.history().len() as int;
            &&& from < now.history().len()
            &&& now.history()[from] matches Exchange::Run { command, .. }
            &&& shell_words(command) == Some(seq!["rmdir"@, path])
            &&& r is Ok && at_or_below(other, path) ==> !now.cache.rows().contains_key(other)
            &&& r is Ok && !at_or_below(other, path) ==> now.cache.rows().contains_key(other)
                == was.cache.rows().contains_key(other)
            &&& r is Ok && !was.ops.rescan ==> now.history().len() == from + 1
            &&& r is Ok && was.ops.rescan ==> {
                &&& now.history().len() == from + 2
                &&& now.history()[from + 1] matches Exchange::Shell { command: notice, .. }
                &&& shell_words(notice) == Some(
                    seq![
                        "am"@,
                        "broadcast"@,
                        "-a"@,
                        "android.intent.action.MEDIA_UNMOUNTED"@,
                        "-d"@,
                        "file://"@ + path,
                    ],
                )
            }
            &&& r is Err ==> now.cache.rows() == was.cache.rows()
        },
{
    if let Some(dir) = was.inodes@.path_of(parent) {
        let path = child(dir, name);
        let notices = if was.ops.rescan {
            seq![unmounted_command(path)]
        } else {
            Seq::empty()
        };
        law_a_child_is_behind_a_slash(dir, name);
        law_making_and_removing_name_the_path(path);
        law_a_removal_is_made_on_the_device(
            was.history(),
            now.history(),
            was.cache.rows(),
            now.cache.rows(),
            rmdir_command(path),
            notices,
            path,
            true,
            r,
        );
        if r is Ok && was.ops.rescan {
            law_broadcasts_name_the_path(path);
            let first: int = 0;
            assert(now.history()[was.history().len() + 1 + first] is Shell);
        }
    }
}

/// A rename gives the device `mv`, the path that the file has and the path that
/// it gets, in that order. Where it went through, the inodes at and below the
/// old path lead to the new one, and nothing is known at or below either; where
/// it did not, nothing has changed.
#[verifier::rlimit(40)]
pub proof fn law_rename_moves_the_file<D: AdbDevice>(
    now: AdbFs<D>,
    was: AdbFs<D>,
    parent: u64,
    name: Seq<char>,
    newparent: u64,
    newname: Seq<char>,
    r: Result<(), Errno>,
    path: Seq<char>,
)
    requires
        now.file_renamed(&was, parent, name, newparent, newname, r),
    ensures
        was.inodes@.path_of(parent) is None || was.inodes@.path_of(newparent) is None ==> r
            == Err::<(), Errno>(Errno::ENOENT) && now.history() == was.history() && now.inodes@
            == was.inodes@,
        was.inodes@.path_of(parent) is Some && was.inodes@.path_of(newparent) is Some ==> {
            let dir = was.inodes@.path_of(parent)->0;
            let newdir = was.inodes@.path_of(newparent)->0;
            let from = if dir == seq!['/'] {
                seq!['/'] + name
            } else {
                dir + seq!['/'] + name
            };
            let to = if newdir == seq!['/'] {
                seq!['/'] + newname
            } else {
                newdir + seq!['/'] + newname
            };
            let n = was.history().len() as int;
            &&& n < now.history().len()
            &&& now.history()[n] matches Exchange::Run { command, .. }
            &&& shell_words(command) == Some(seq!["mv"@, from, to])
            &&& r is Ok ==> now.history().len() == n + (if was.ops.rescan {
                3int
            } else {
                1int
            })
            &&& r is Ok && was.ops.rescan ==> {
                &&& now.history()[n + 1] matches Exchange::Shell { command: notice, .. }
                &&& shell_words(notice) == Some(
                    seq![
                        "am"@,
                        "broadcast"@,
                        "-a"@,
                        "android.intent.action.MEDIA_SCANNER_SCAN_FILE"@,
                        "-d"@,
                        "file://"@ + from,
                    ],
                )
                &&& now.history()[n + 2] matches Exchange::Shell { command: second, .. }
                &&& shell_words(second) == Some(
                    seq![
                        "am"@,
                        "broadcast"@,
                        "-a"@,
                        "android.intent.action.MEDIA_SCANNER_SCAN_FILE"@,
                        "-d"@,
                        "file://"@ + to,
                    ],
                )
            }
            &&& r is Ok && (at_or_below(path, from) || at_or_below(path, to))
                ==> !now.cache.rows().contains_key(path)
            &&& (r is Ok && was.inodes@.exact() && apart(from, to)
                && was.inodes@.by_path.contains_key(path) && is_under(path, from))
                ==> now.inodes@.numbers(renamed(path, from, to), was.inodes@.by_path[path])
                && now.inodes@.path_of(was.inodes@.by_path[path]) == Some(renamed(path, from, to))
            &&& (r is Ok && was.inodes@.exact() && apart(from, to)
                && was.inodes@.by_path.contains_key(path) && !is_under(path, from) && !is_under(
                path,
                to,
            )) ==> now.inodes@.numbers(path, was.inodes@.by_path[path])
            &&& r is Err ==> now.inodes@ == was.inodes@ && now.cache.rows() == was.cache.rows()
        },
{
    if was.inodes@.path_of(parent) is Some && was.inodes@.path_of(newparent) is Some {
        let dir = was.inodes@.path_of(parent)->0;
        let newdir = was.inodes@.path_of(newparent)->0;
        law_a_child_is_behind_a_slash(dir, name);
        law_a_child_is_behind_a_slash(newdir, newname);
        let from = child(dir, name);
        let to = child(newdir, newname);
        law_each_path_is_scanned(was.ops.rescan, seq![from, to], 0);
        law_each_path_is_scanned(was.ops.rescan, seq![from, to], 1);
        let n = was.history().len();
        law_a_rename_is_made_on_the_device(
            was.history(),
            now.history(),
            was.cache.rows(),
            now.cache.rows(),
            was.inodes@,
            now.inodes@,
            from,
            to,
            scans(was.ops.rescan, seq![from, to]),
            r,
            path,
        );
        if r is Ok && was.ops.rescan {
            let (first, second): (int, int) = (0, 1);
            assert(now.history()[n + 1 + first] is Shell);
            assert(now.history()[n + 1 + second] is Shell);
        }
        if r is Ok && was.inodes@.exact() && apart(from, to) && was.inodes@.by_path.contains_key(
            path,
        ) {
            law_renaming_moves_every_row(was.inodes@, now.inodes@, from, to, path);
        }
    }
}

/// A special file waits for one to be made locally, of the mode and the device
/// number asked for and at a path that was not used before.
pub proof fn law_mknod_waits_for_a_local_file<D: AdbDevice>(
    now: AdbFs<D>,
    was: AdbFs<D>,
    parent: u64,
    name: Seq<char>,
    mode: u32,
    rdev: u32,
    r: Step<Entry>,
)
    requires
        now.node_begun(&was, parent, name, mode, rdev, r),
    ensures
        was.inodes@.path_of(parent) is None ==> {
            &&& r matches Step::Done { reply, remove: None }
            &&& reply == Err::<Entry, Errno>(Errno::ENOENT)
            &&& now.pending is None
        },
        was.inodes@.path_of(parent) matches Some(dir) ==> {
            let path = if dir == seq!['/'] {
                seq!['/'] + name
            } else {
                dir + seq!['/'] + name
            };
            &&& r matches Step::Work(LocalWork::Node { path: local, mode: m, rdev: d })
            &&& local@ == node_path(was.tmp_dir@, was.next_node)
            &&& m == mode && d == rdev
            &&& now.pending matches Some(Task::Node { path: p, local: l })
            &&& p@ == path && l@ == local@
            &&& now.next_node != was.next_node
        },
{
    if let Some(dir) = was.inodes@.path_of(parent) {
        law_a_child_is_behind_a_slash(dir, name);
    }
}

/// The local special file is deleted whatever comes of it. Where it was made it
/// is pushed to the path asked for.
pub proof fn law_mknod_pushes_the_local_file<D: AdbDevice>(
    now: AdbFs<D>,
    was: AdbFs<D>,
    path: String,
    local: String,
    outcome: Result<(), Errno>,
    r: Step<Entry>,
)
    requires
        was.pending == Some(Task::Node { path, local }),
        now.node_finished(&was, outcome, r),
    ensures
        (r matches Step::Done { remove: Some(remove), .. } && remove@ == local@),
        outcome matches Err(e) ==> (r matches Step::Done { reply, .. } && reply == Err::<
            Entry,
            Errno,
        >(e)) && now.history() == was.history(),
        outcome is Ok ==> {
            let from = was.history().len() as int;
            &&& from < now.history().len()
            &&& now.history()[from] matches Exchange::Push { local: a, remote: b, .. }
            &&& a == local@ && b == path@
        },
{
    if outcome is Ok {
        match r {
            Step::Done { reply, .. } => {
                law_a_special_file_is_pushed(
                    was.history(),
                    now.history(),
                    was.cache.rows(),
                    now.cache.rows(),
                    was.inodes@,
                    now.inodes@,
                    was.opts,
                    local@,
                    path@,
                    reply,
                );
            },
            _ => {},
        }
    }
}

/// A directory is opened by one `ls` of the path of its inode, and the handle
/// that it gets lists what the device printed.
pub proof fn law_opendir_lists_the_directory<D: AdbDevice>(
    now: AdbFs<D>,
    was: AdbFs<D>,
    ino: u64,
    r: Result<Opened, Errno>,
)
    requires
        was.handles@.next_fh < u64::MAX,
        now.directory_opened(&was, ino, r),
    ensures
        was.inodes@.path_of(ino) is None ==> r == Err::<Opened, Errno>(Errno::ENOENT)
            && now.history() == was.history() && now.handles@ == was.handles@,
        was.inodes@.path_of(ino) matches Some(path) ==> {
            &&& now.history().len() == was.history().len() + 1
            &&& now.history().last() matches Exchange::Shell { command, lines }
            &&& shell_words(command) == Some(seq!["ls"@, "-l"@, "-a"@, path])
            &&& lines matches Ok(l) ==> {
                &&& r matches Ok(opened)
                &&& opened.fh == was.handles@.next_fh
                &&& now.handles@.dirs.contains_key(opened.fh)
                &&& now.handles@.dirs[opened.fh] == all_listed(
                    was.inodes@,
                    ino,
                    path,
                    entries_in(texts(l@)),
                )
                &&& now.inodes@ == all_assigned(was.inodes@, path, entries_in(texts(l@)))
            }
            &&& lines is Err ==> r == Err::<Opened, Errno>(Errno::EIO) && now.handles@
                == was.handles@ && now.inodes@ == was.inodes@
        },
{
    if let Some(path) = was.inodes@.path_of(ino) {
        law_a_directory_is_listed_once(
            was.history(),
            now.history(),
            was.cache.rows(),
            now.cache.rows(),
            was.inodes@,
            now.inodes@,
            was.handles@,
            now.handles@,
            ino,
            path,
            r,
        );
    }
}

/// A file is pulled from the path of its inode to the inode's local file, where
/// no handle has it yet, and waits for that file to be opened.
pub proof fn law_open_pulls_the_file<D: AdbDevice>(
    now: AdbFs<D>,
    was: AdbFs<D>,
    ino: u64,
    r: Step<Opened>,
)
    requires
        was.handles@.balanced(None),
        now.opening_begun(&was, ino, r),
    ensures
        was.inodes@.path_of(ino) is None ==> {
            &&& r matches Step::Done { reply, remove: None }
            &&& reply == Err::<Opened, Errno>(Errno::ENOENT)
            &&& now.history() == was.history()
        },
        was.inodes@.path_of(ino) matches Some(path) ==> {
            &&& now.pending is Some ==> {
                &&& r matches Step::Work(LocalWork::Open { path: local })
                &&& local@ == local_path(was.tmp_dir@, ino)
                &&& now.pending == Some(Task::Open { ino })
                &&& now.handles@.refs(ino) == was.handles@.refs(ino) + 1
            }
            &&& was.handles@.copies.contains_key(ino) ==> now.history() == was.history()
            &&& !was.handles@.copies.contains_key(ino) ==> {
                &&& now.history().len() == was.history().len() + 1
                &&& now.history().last() matches Exchange::Pull { remote, local, done }
                &&& remote == path && local == local_path(was.tmp_dir@, ino)
                &&& now.pending is Some <==> done is Ok
            }
        },
{
    if let Some(path) = was.inodes@.path_of(ino) {
        law_opening_waits_for_the_local_file(
            was.history(),
            now.history(),
            was.handles@,
            now.handles@,
            was.tmp_dir@,
            ino,
            path,
            now.pending,
            r,
        );
    }
}

/// A flush through a handle pushes the copy of its file, where that holds
/// writes, to the path that the inode has, and calls nothing where it holds
/// none. Through no handle it is an error.
pub proof fn law_flush_pushes_what_was_written<D: AdbDevice>(
    now: AdbFs<D>,
    was: AdbFs<D>,
    fh: u64,
    r: Result<(), Errno>,
)
    requires
        now.handle_flushed(&was, fh, r),
    ensures
        !was.handles@.files.contains_key(fh) ==> r == Err::<(), Errno>(Errno::EBADF)
            && now.history() == was.history(),
        was.handles@.files.contains_key(fh) ==> {
            let ino = was.handles@.files[fh];
            let from = was.history().len() as int;
            &&& !was.handles@.copies[ino].dirty ==> r is Ok && now.history() == was.history()
            &&& was.handles@.copies[ino].dirty && was.inodes@.path_of(ino) is Some ==> {
                &&& from < now.history().len()
                &&& now.history()[from] matches Exchange::Push { local, remote, .. }
                &&& local == was.handles@.copies[ino].path
                &&& Some(remote) == was.inodes@.path_of(ino)
                &&& r is Ok ==> !now.handles@.copies[ino].dirty
            }
            &&& r is Err ==> now.handles@ == was.handles@
        },
{
}

/// A new file gets an inode for the path of its directory, a slash and its name,
/// and waits for its local copy to be made.
pub proof fn law_create_waits_for_the_local_copy<D: AdbDevice>(
    now: AdbFs<D>,
    was: AdbFs<D>,
    parent: u64,
    name: Seq<char>,
    r: Step<Created>,
)
    requires
        now.creation_begun(&was, parent, name, r),
    ensures
        was.inodes@.path_of(parent) is None ==> {
            &&& r matches Step::Done { reply, remove: None }
            &&& reply == Err::<Created, Errno>(Errno::ENOENT)
            &&& now.inodes@ == was.inodes@
            &&& now.pending is None
        },
        was.inodes@.path_of(parent) matches Some(dir) ==> {
            let path = if dir == seq!['/'] {
                seq!['/'] + name
            } else {
                dir + seq!['/'] + name
            };
            let ino = was.inodes@.ino_of(path);
            &&& now.inodes@ == was.inodes@.with(path)
            &&& now.inodes@.numbers(path, ino)
            &&& r matches Step::Work(LocalWork::Create { path: local })
            &&& local@ == local_path(was.tmp_dir@, ino)
            &&& now.pending matches Some(Task::Create { ino: i, path: p })
            &&& i == ino && p@ == path
        },
{
    if let Some(dir) = was.inodes@.path_of(parent) {
        law_a_child_is_behind_a_slash(dir, name);
    }
}

/// A new file whose local copy was made holds that copy, which the device
/// lacks, and waits for it to be opened; otherwise the error is the answer.
pub proof fn law_create_holds_the_local_copy<D: AdbDevice>(
    now: AdbFs<D>,
    was: AdbFs<D>,
    ino: u64,
    path: String,
    outcome: Result<(), Errno>,
    r: Step<Created>,
)
    requires
        was.handles@.balanced(None),
        was.pending == Some(Task::Create { ino, path }),
        now.creation_made(&was, outcome, r),
    ensures
        now.history() == was.history(),
        outcome is Ok ==> {
            &&& r matches Step::Work(LocalWork::Open { path: local })
            &&& local@ == local_path(was.tmp_dir@, ino)
            &&& now.pending matches Some(Task::CreateOpen { ino: i, path: p })
            &&& i == ino && p@ == path@
            &&& now.handles@.copies[ino].dirty
            &&& now.handles@.refs(ino) == was.handles@.refs(ino) + 1
        },
        outcome matches Err(e) ==> {
            &&& r matches Step::Done { reply, remove: None }
            &&& reply == Err::<Created, Errno>(e)
            &&& now.pending is None
            &&& now.handles@ == was.handles@
        },
{
    law_references_can_be_counted(was.handles@, ino);
    law_emptying_goes_on_or_fails(
        was.history(),
        now.history(),
        was.handles@,
        now.handles@,
        was.tmp_dir@,
        ino,
        path@,
        outcome,
        WorkView::Open { path: local_path(was.tmp_dir@, ino) },
        TaskView::CreateOpen { ino, path: path@ },
        now.pending,
        r,
    );
}

/// A new file is on the device when its creation is answered, at the path asked
/// for and with a handle open on it. Where its copy could not be opened, the
/// error is the answer and the copy is given back.
pub proof fn law_create_puts_the_file_on_the_device<D: AdbDevice>(
    now: AdbFs<D>,
    was: AdbFs<D>,
    ino: u64,
    path: String,
    outcome: Result<(), Errno>,
    r: Step<Created>,
)
    requires
        was.well_formed(),
        was.inodes@.consistent(),
        was.pending == Some(Task::CreateOpen { ino, path }),
        now.creation_finished(&was, outcome, r),
    ensures
        outcome matches Err(e) ==> {
            &&& r matches Step::Done { reply, .. }
            &&& reply == Err::<Created, Errno>(e)
            &&& now.history() == was.history()
        },
        outcome is Ok && (r matches Step::Done { reply, .. } && reply is Ok) ==> {
            let from = was.history().len() as int;
            &&& now.history().len() == from + 3
            &&& now.history()[from] matches Exchange::Push { local, remote, done: Ok(_) }
            &&& remote == path@ && local == local_path(was.tmp_dir@, ino)
            &&& now.history()[from + 1] matches Exchange::Sync { done: Ok(_) }
            &&& now.handles@.files.contains_key(was.handles@.next_fh)
            &&& now.handles@.files[was.handles@.next_fh] == ino
            &&& r matches Step::Done { reply: Ok(created), remove: None }
            &&& created.opened.fh == was.handles@.next_fh
            &&& created.opened.flags == open_bits(was.opts)
            &&& created.entry.attr.ino == ino
            &&& created.entry.ttl == was.opts.entry_timeout
        },
{
    if outcome is Ok && (r matches Step::Done { reply, .. } && reply is Ok) {
        assert(was.inodes@.path_of(ino) == Some(path@));
        assert(was.handles@.refs(ino) > 0);
        assert(was.handles@.copies.contains_key(ino));
        law_created_file_is_on_the_device(
            was.history(),
            now.history(),
            was.cache.rows(),
            now.cache.rows(),
            was.handles@,
            now.handles@,
            was.opts,
            ino,
            path@,
            r,
        );
    }
}

/// Setting a size waits for work on the local copy: to be emptied for none, and
/// otherwise to be cut to that size. Without one the times are set at once, and
/// with neither the attributes are only asked for.
pub proof fn law_setattr_cuts_the_local_copy<D: AdbDevice>(
    now: AdbFs<D>,
    was: AdbFs<D>,
    ino: u64,
    size: Option<u64>,
    atime: Option<TimeOrNow>,
    mtime: Option<TimeOrNow>,
    r: Step<Entry>,
)
    requires
        was.handles@.balanced(None),
        now.setting_begun(&was, ino, size, atime, mtime, r),
    ensures
        was.inodes@.path_of(ino) is None ==> {
            &&& r matches Step::Done { reply, remove: None }
            &&& reply == Err::<Entry, Errno>(Errno::ENOENT)
            &&& now.history() == was.history()
        },
        (was.inodes@.path_of(ino) is Some && size == Some(0u64)) ==> {
            &&& r matches Step::Work(LocalWork::Create { path: local })
            &&& local@ == local_path(was.tmp_dir@, ino)
            &&& now.history() == was.history()
            &&& now.pending matches Some(Task::Clear { ino: i, path: p, atime: a, mtime: m })
            &&& i == ino && Some(p@) == was.inodes@.path_of(ino)
            &&& a == atime && m == mtime
        },
        (was.inodes@.path_of(ino) is Some && size is Some && size->0 > 0 && now.pending is Some)
            ==> {
            &&& r matches Step::Work(LocalWork::SetLen { path: local, len })
            &&& local@ == local_path(was.tmp_dir@, ino)
            &&& len == size->0
            &&& now.pending matches Some(Task::Cut { ino: i, path: p, atime: a, mtime: m })
            &&& i == ino && Some(p@) == was.inodes@.path_of(ino)
            &&& a == atime && m == mtime
        },
        (was.inodes@.path_of(ino) is Some && size is None) ==> {
            &&& r matches Step::Done { reply, remove: None }
            &&& now.handles@ == was.handles@
            &&& reply matches Ok(entry) ==> entry.attr.ino == ino && entry.ttl
                == was.opts.attr_timeout
            &&& was.history().len() < now.history().len()
        },
{
    if let Some(path) = was.inodes@.path_of(ino) {
        match size {
            None => {
                match r {
                    Step::Done { reply, .. } => {
                        let (at, mt) = choose|at: Option<FileTime>, mt: Option<FileTime>|
                            {
                                &&& resolved(atime, at)
                                &&& resolved(mtime, mt)
                                &&& #[trigger] settled(
                                    was.history(),
                                    now.history(),
                                    was.cache.rows(),
                                    now.cache.rows(),
                                    was.opts,
                                    was.ops.rescan,
                                    was.ops.touch_gnu_mode,
                                    now.ops.touch_gnu_mode,
                                    ino,
                                    path,
                                    at,
                                    mt,
                                    reply,
                                )
                            };
                        law_times_are_set_before_the_answer(
                            was.history(),
                            now.history(),
                            was.cache.rows(),
                            now.cache.rows(),
                            was.opts,
                            was.ops.rescan,
                            was.ops.touch_gnu_mode,
                            now.ops.touch_gnu_mode,
                            ino,
                            path,
                            at,
                            mt,
                            reply,
                        );
                    },
                    _ => {},
                }
            },
            Some(len) => {
                if len > 0 {
                    law_cutting_waits_for_the_local_file(
                        was.history(),
                        now.history(),
                        was.handles@,
                        now.handles@,
                        was.tmp_dir@,
                        ino,
                        path,
                        len,
                        TaskView::Cut { ino, path, atime, mtime },
                        now.pending,
                        r,
                    );
                }
            },
        }
    }
}

/// A file whose local copy was emptied is then cut to nothing, with what is
/// still to be set kept; otherwise the error is the answer.
pub proof fn law_setattr_goes_on_after_emptying<D: AdbDevice>(
    now: AdbFs<D>,
    was: AdbFs<D>,
    ino: u64,
    path: String,
    atime: Option<TimeOrNow>,
    mtime: Option<TimeOrNow>,
    outcome: Result<(), Errno>,
    r: Step<Entry>,
)
    requires
        was.handles@.balanced(None),
        was.pending == Some(Task::Clear { ino, path, atime, mtime }),
        now.clearing_finished(&was, outcome, r),
    ensures
        now.history() == was.history(),
        outcome is Ok ==> {
            &&& r matches Step::Work(LocalWork::SetLen { path: local, len })
            &&& local@ == local_path(was.tmp_dir@, ino) && len == 0
            &&& now.pending matches Some(Task::Cut { ino: i, path: p, atime: a, mtime: m })
            &&& i == ino && p@ == path@
            &&& a == atime && m == mtime
            &&& now.handles@.copies[ino].dirty
        },
        outcome matches Err(e) ==> {
            &&& r matches Step::Done { reply, remove: None }
            &&& reply == Err::<Entry, Errno>(e)
            &&& now.handles@ == was.handles@
        },
{
    law_references_can_be_counted(was.handles@, ino);
    law_emptying_goes_on_or_fails(
        was.history(),
        now.history(),
        was.handles@,
        now.handles@,
        was.tmp_dir@,
        ino,
        path@,
        outcome,
        WorkView::SetLen { path: local_path(was.tmp_dir@, ino), len: 0 },
        TaskView::Cut { ino, path: path@, atime, mtime },
        now.pending,
        r,
    );
}

/// A file whose local copy was cut is pushed to its path. The copy is given back
/// in any case; where it could not be cut, that is all.
pub proof fn law_setattr_pushes_the_cut_file<D: AdbDevice>(
    now: AdbFs<D>,
    was: AdbFs<D>,
    ino: u64,
    path: String,
    atime: Option<TimeOrNow>,
    mtime: Option<TimeOrNow>,
    outcome: Result<(), Errno>,
    r: Step<Entry>,
)
    requires
        was.well_formed(),
        was.pending == Some(Task::Cut { ino, path, atime, mtime }),
        now.cutting_finished(&was, outcome, r),
    ensures
        now.handles@.refs(ino) == was.handles@.refs(ino) - 1,
        outcome matches Err(e) ==> {
            &&& r matches Step::Done { reply, .. }
            &&& reply == Err::<Entry, Errno>(e)
            &&& now.history() == was.history()
        },
        outcome is Ok ==> {
            let from = was.history().len() as int;
            &&& from < now.history().len()
            &&& now.history()[from] matches Exchange::Push { local, remote, .. }
            &&& remote == path@ && local == local_path(was.tmp_dir@, ino)
        },
{
    assert(was.handles@.refs(ino) > 0);
    assert(was.handles@.copies.contains_key(ino));
    law_the_last_reference_takes_the_copy(was.handles@, ino, ino);
    if outcome is Ok {
        match r {
            Step::Done { reply, remove } => {
                law_a_cut_file_is_pushed(
                    was.history(),
                    now.history(),
                    was.cache.rows(),
                    now.cache.rows(),
                    was.handles@,
                    now.handles@,
                    was.opts,
                    was.ops.rescan,
                    was.ops.touch_gnu_mode,
                    now.ops.touch_gnu_mode,
                    ino,
                    path@,
                    atime,
                    mtime,
                    reply,
                    match remove {
                        Some(local) => Some(local@),
                        None => None,
                    },
                );
            },
            _ => {},
        }
    }
}

} // verus!
