use adbfs::adb::mock::{failed, out, MockAdb};
use adbfs::adb::{AdbError, ShellOutput};
use adbfs::attr::{file_open_flags, meta_to_attr, mode_to_filetype, negative_entry, FileType};
use adbfs::fs::step::{Created, Entry, LocalWork, Opened, Step};
use adbfs::fs::{child_path, AdbFs, CopyInit};
use adbfs::mount_opts::FsOptions;
use adbfs::ops::{DeviceOps, ResolvedCompat};
use adbfs::parse::FileMeta;
use adbfs::sys::Errno;
use adbfs::time::{FileTime, Span, TimeOrNow};
use std::collections::HashSet;
use std::time::{Duration, SystemTime};

const FILE: &str = "-rw-r--r-- root root 100 2024-01-15 10:30 a.txt";
const EMPTY: &str = "-rw-r--r-- root root 0 2024-01-15 10:30 a.txt";

fn test_fs(adb: MockAdb) -> AdbFs<MockAdb> {
    fs_with(adb, FsOptions::default())
}

fn fs_with(adb: MockAdb, opts: FsOptions) -> AdbFs<MockAdb> {
    let ops = DeviceOps::new(adb, ResolvedCompat::legacy());
    AdbFs::new(ops, Span::from_secs(30), opts, "/tmp/adbfs".to_string())
}

fn answering(replies: Vec<Result<ShellOutput, AdbError>>) -> AdbFs<MockAdb> {
    test_fs(MockAdb::new(replies))
}

/// Two opens of one file must share one local copy, so that a write through
/// one handle is visible to the other and neither pushes a stale copy.
#[test]
fn concurrent_opens_share_one_local_copy() {
    let adb = MockAdb::silent().with_content(b"device contents");
    let mut fs = test_fs(adb);
    let ino = fs.inodes.get_or_assign_ino("/sdcard/a.txt");

    fs.acquire_copy(ino, "/sdcard/a.txt", CopyInit::Pull).unwrap();
    let first = fs.handles.copy(ino).unwrap();
    fs.acquire_copy(ino, "/sdcard/a.txt", CopyInit::Pull).unwrap();
    let second = fs.handles.copy(ino).unwrap();

    assert_eq!(first.path, second.path);
    assert_eq!(fs.ops.adb.pulls().len(), 1);
    assert_eq!(fs.ops.adb.pulls()[0].0, first.path);
    assert_eq!(fs.ops.adb.pulls()[0].1, b"device contents");

    // The copy outlives the first release; only the last one deletes it.
    assert_eq!(fs.release_copy(ino), None);
    assert!(fs.handles.copy(ino).is_some());
    assert_eq!(fs.release_copy(ino), Some(first.path));
    assert!(fs.handles.open_copies.is_empty());
}

/// The local name comes from the inode, so paths that differ only in a
/// separator cannot collide, and no path is too long to open.
#[test]
fn local_paths_do_not_collide() {
    let mut fs = test_fs(MockAdb::silent());
    let deep = format!("/sdcard/{}", "x/".repeat(200));

    let mut paths: Vec<String> = Vec::new();
    for p in ["/a/b", "/a_b", &deep] {
        let ino = fs.inodes.get_or_assign_ino(p);
        paths.push(fs.local_path_for(ino));
    }

    assert_eq!(paths.iter().collect::<HashSet<_>>().len(), 3);
    for path in &paths {
        assert!(path.rsplit('/').next().unwrap().len() <= 255);
    }
    assert_eq!(paths[0], "/tmp/adbfs/2");
    assert_eq!(fs.local_path_for(u64::MAX), "/tmp/adbfs/18446744073709551615");
}

/// A failed pull must not leave an unpopulated copy in the map for the next
/// open to find and treat as the file's contents.
#[test]
fn failed_pull_leaves_no_copy_behind() {
    let mut fs = test_fs(MockAdb::silent().with_failing_pull());
    let ino = fs.inodes.get_or_assign_ino("/sdcard/a.txt");

    assert!(fs.acquire_copy(ino, "/sdcard/a.txt", CopyInit::Pull).is_err());
    assert!(fs.handles.open_copies.is_empty());
    assert!(fs.ops.adb.pulls().is_empty());
}

#[test]
fn rename_remaps_the_inode() {
    let mut fs = test_fs(MockAdb::silent());
    let ino = fs.inodes.get_or_assign_ino("/sdcard/old.txt");

    fs.inodes.rekey_paths("/sdcard/old.txt", "/sdcard/new.txt");

    assert_eq!(fs.inodes.get_path(ino).as_deref(), Some("/sdcard/new.txt"));
    assert_eq!(fs.inodes.get_or_assign_ino("/sdcard/new.txt"), ino);
    assert_ne!(fs.inodes.get_or_assign_ino("/sdcard/old.txt"), ino);
}

/// A handle open across a rename pushes to the new path: the device path is
/// resolved from the inode at flush time, not captured at open time.
#[test]
fn dirty_copy_pushes_to_the_renamed_path() {
    let adb = MockAdb::silent().with_content(b"x");
    let mut fs = test_fs(adb);
    let ino = fs.inodes.get_or_assign_ino("/sdcard/old.txt");
    fs.acquire_copy(ino, "/sdcard/old.txt", CopyInit::Pull).unwrap();
    let copy = fs.handles.copy(ino).unwrap();
    fs.handles.set_dirty(ino, true);

    fs.inodes.rekey_paths("/sdcard/old.txt", "/sdcard/new.txt");
    fs.push_if_dirty(ino).unwrap();

    let (local, remote) = fs.ops.adb.pushes().pop().expect("a push");
    assert_eq!(remote, "/sdcard/new.txt");
    assert_eq!(local, copy.path);
    assert!(!fs.handles.copy(ino).unwrap().dirty);
    fs.release_copy(ino);
}

#[test]
fn rename_remaps_descendants_but_not_siblings() {
    let mut fs = test_fs(MockAdb::silent());
    let child = fs.inodes.get_or_assign_ino("/sdcard/dir/deep/file.txt");
    let sibling = fs.inodes.get_or_assign_ino("/sdcard/dirtyfile");

    fs.inodes.rekey_paths("/sdcard/dir", "/sdcard/moved");

    assert_eq!(fs.inodes.get_path(child).as_deref(), Some("/sdcard/moved/deep/file.txt"));
    assert_eq!(fs.inodes.get_path(sibling).as_deref(), Some("/sdcard/dirtyfile"));
}

/// Renaming onto an existing file makes the overwritten inode unreachable.
#[test]
fn rename_over_existing_drops_the_replaced_inode() {
    let mut fs = test_fs(MockAdb::silent());
    let source = fs.inodes.get_or_assign_ino("/sdcard/a.txt");
    let replaced = fs.inodes.get_or_assign_ino("/sdcard/b.txt");

    fs.inodes.rekey_paths("/sdcard/a.txt", "/sdcard/b.txt");

    assert_eq!(fs.inodes.get_path(source).as_deref(), Some("/sdcard/b.txt"));
    assert_eq!(fs.inodes.get_path(replaced), None);
}

// ---- inodes ----

#[test]
fn the_root_has_inode_one() {
    let mut fs = test_fs(MockAdb::silent());
    assert_eq!(fs.inodes.get_path(1).as_deref(), Some("/"));
    assert_eq!(fs.inodes.get_or_assign_ino("/"), 1);
    assert_eq!(fs.inodes.get_path(2), None);
}

#[test]
fn inodes_are_stable_and_distinct() {
    let mut fs = test_fs(MockAdb::silent());
    let a = fs.inodes.get_or_assign_ino("/a");
    let b = fs.inodes.get_or_assign_ino("/b");
    assert_eq!((a, b), (2, 3));
    assert_eq!(fs.inodes.get_or_assign_ino("/a"), a);
    assert_eq!(fs.inodes.get_path(b).as_deref(), Some("/b"));
}

#[test]
fn a_renamed_tree_moves_whole() {
    let mut fs = test_fs(MockAdb::silent());
    let mut inos = Vec::new();
    for i in 0..50 {
        inos.push(fs.inodes.get_or_assign_ino(&format!("/d/{i}/x")));
    }
    fs.inodes.rekey_paths("/d", "/e/f");
    for (i, ino) in inos.iter().enumerate() {
        assert_eq!(fs.inodes.get_path(*ino), Some(format!("/e/f/{i}/x")));
        assert_eq!(fs.inodes.get_or_assign_ino(&format!("/e/f/{i}/x")), *ino);
    }
}

// ---- attributes ----

fn meta(mode: u32, size: u64) -> FileMeta {
    FileMeta {
        mode,
        nlink: 2,
        uid: 10,
        gid: 20,
        size,
        rdev: 0x1_0000_0103,
        mtime: FileTime { secs: 99, nanos: 7 },
        raw_line: String::new(),
    }
}

#[test]
fn types_come_from_the_mode() {
    let cases = [
        (libc::S_IFDIR, FileType::Directory),
        (libc::S_IFLNK, FileType::Symlink),
        (libc::S_IFBLK, FileType::BlockDevice),
        (libc::S_IFCHR, FileType::CharDevice),
        (libc::S_IFIFO, FileType::NamedPipe),
        (libc::S_IFSOCK, FileType::Socket),
        (libc::S_IFREG, FileType::RegularFile),
        (0, FileType::RegularFile),
    ];
    for (bits, kind) in cases {
        assert_eq!(mode_to_filetype(bits | 0o755), kind);
    }
}

#[test]
fn attributes_come_from_the_metadata() {
    let attr = meta_to_attr(&FsOptions::default(), 5, &meta(libc::S_IFREG | 0o4755, 1025));
    assert_eq!(attr.ino, 5);
    assert_eq!(attr.size, 1025);
    assert_eq!(attr.blocks, 3);
    assert_eq!(attr.atime, FileTime { secs: 99, nanos: 7 });
    assert_eq!(attr.mtime, attr.atime);
    assert_eq!(attr.ctime, attr.atime);
    assert_eq!(attr.crtime, FileTime { secs: 0, nanos: 0 });
    assert_eq!(attr.kind, FileType::RegularFile);
    assert_eq!(attr.perm, 0o4755);
    assert_eq!((attr.nlink, attr.uid, attr.gid), (2, 10, 20));
    assert_eq!(attr.rdev, 0x103);
    assert_eq!((attr.blksize, attr.flags), (512, 0));
}

#[test]
fn blocks_are_rounded_up() {
    let opts = FsOptions::default();
    for (size, blocks) in [(0, 0), (1, 1), (512, 1), (513, 2), (u64::MAX, 1 << 55)] {
        assert_eq!(meta_to_attr(&opts, 1, &meta(libc::S_IFREG, size)).blocks, blocks);
    }
}

#[test]
fn options_change_owner_and_permissions_but_not_the_type() {
    let opts = FsOptions { uid: Some(1), gid: Some(2), umask: Some(0o27), ..FsOptions::default() };
    let attr = meta_to_attr(&opts, 5, &meta(libc::S_IFDIR | 0o1700, 0));
    assert_eq!((attr.uid, attr.gid, attr.perm), (1, 2, 0o750));
    assert_eq!(attr.kind, FileType::Directory);
}

#[test]
fn open_flags_come_from_the_options() {
    for (direct_io, kernel_cache, flags) in
        [
            (false, false, fuser::FopenFlags::empty()),
            (true, false, fuser::FopenFlags::FOPEN_DIRECT_IO),
            (false, true, fuser::FopenFlags::FOPEN_KEEP_CACHE),
            (
                true,
                true,
                fuser::FopenFlags::FOPEN_DIRECT_IO | fuser::FopenFlags::FOPEN_KEEP_CACHE,
            ),
        ]
    {
        let opts = FsOptions { direct_io, kernel_cache, ..FsOptions::default() };
        assert_eq!(file_open_flags(&opts), flags.bits());
    }
    let opts = FsOptions { direct_io: true, kernel_cache: true, ..FsOptions::default() };
    assert_eq!(file_open_flags(&opts), 3);
}

// ---- names ----

#[test]
fn children_are_joined_with_one_slash() {
    assert_eq!(child_path("/", "a"), "/a");
    assert_eq!(child_path("/a", "b"), "/a/b");
}

#[test]
fn getattr_asks_once_and_then_remembers() {
    let mut fs = answering(vec![out(&[FILE])]);
    let ino = fs.inodes.get_or_assign_ino("/a.txt");
    let first = fs.getattr(ino).unwrap();
    let second = fs.getattr(ino).unwrap();
    assert_eq!(first, second);
    assert_eq!(first.attr.size, 100);
    assert_eq!(first.attr.ino, ino);
    assert_eq!(first.ttl, Span::from_secs(1));
    assert_eq!(fs.ops.adb.commands(), ["ls -l -a -d '/a.txt'"]);
}

#[test]
fn misses_are_remembered_but_other_failures_are_not() {
    let mut fs = answering(vec![
        out(&["ls: /a: Permission denied"]),
        out(&["ls: /a: No such file or directory"]),
    ]);
    let ino = fs.inodes.get_or_assign_ino("/a");
    assert_eq!(fs.getattr(ino), Err(Errno::EACCES));
    assert_eq!(fs.getattr(ino), Err(Errno::ENOENT));
    assert_eq!(fs.getattr(ino), Err(Errno::ENOENT));
    assert_eq!(fs.ops.adb.commands().len(), 2);
}

#[test]
fn what_the_cache_gave_decides_the_call() {
    let mut fs = answering(vec![out(&[FILE])]);
    let known = fs.fetch_known("/k", Some(Some(meta(libc::S_IFREG, 3)))).unwrap();
    assert_eq!(known.size, 3);
    assert_eq!(fs.fetch_known("/k", Some(None)).unwrap_err().message(), "file not found: /k");
    assert!(fs.ops.adb.commands().is_empty());
    assert_eq!(fs.fetch_known("/k", None).unwrap().size, 100);
    assert_eq!(fs.ops.adb.commands().len(), 1);
}

#[test]
fn unknown_inodes_are_not_found() {
    let mut fs = test_fs(MockAdb::silent());
    assert_eq!(fs.getattr(77), Err(Errno::ENOENT));
    assert_eq!(fs.lookup(77, "a"), Err(Errno::ENOENT));
    assert_eq!(fs.readlink(77), Err(Errno::ENOENT));
    assert_eq!(fs.mkdir(77, "a"), Err(Errno::ENOENT));
    assert_eq!(fs.unlink(77, "a"), Err(Errno::ENOENT));
    assert_eq!(fs.rmdir(77, "a"), Err(Errno::ENOENT));
    assert_eq!(fs.rename(77, "a", 1, "b"), Err(Errno::ENOENT));
    assert_eq!(fs.rename(1, "a", 77, "b"), Err(Errno::ENOENT));
    assert_eq!(fs.opendir(77), Err(Errno::ENOENT));
    assert_eq!(answered(fs.open(77)), (Err(Errno::ENOENT), None));
    assert_eq!(answered(fs.create(77, "a")), (Err(Errno::ENOENT), None));
    assert_eq!(answered(fs.setattr(77, None, None, None)), (Err(Errno::ENOENT), None));
    assert_eq!(answered(fs.mknod(77, "a", 0, 0)), (Err(Errno::ENOENT), None));
    assert!(fs.ops.adb.commands().is_empty());
}

#[test]
fn lookup_gives_an_inode() {
    let mut fs = answering(vec![out(&[FILE])]);
    let entry = fs.lookup(1, "a.txt").unwrap();
    assert_eq!(entry.attr.ino, 2);
    assert_eq!(entry.ttl, Span::from_secs(1));
    assert_eq!(fs.inodes.get_path(2).as_deref(), Some("/a.txt"));
    assert_eq!(fs.lookup(1, "a.txt"), Ok(entry));
}

#[test]
fn misses_are_cacheable_where_the_options_say_so() {
    let missing = || MockAdb::new(vec![out(&["ls: /a: No such file or directory"])]);
    assert_eq!(test_fs(missing()).lookup(1, "a"), Err(Errno::ENOENT));
    let ttl = Span { secs: 0, nanos: 1 };
    let opts = FsOptions { negative_timeout: ttl, ..FsOptions::default() };
    let mut fs = fs_with(missing(), opts);
    assert_eq!(fs.lookup(1, "a"), Ok(Entry { ttl, attr: negative_entry() }));
    assert_eq!(negative_entry().ino, 0);
    assert_eq!(fs.inodes.get_path(2), None);
}

#[test]
fn links_are_read_below_the_mount_point() {
    let line = "lrwxrwxrwx root root 2024-01-01 12:00 link -> /system/lib/libc.so";
    let mut fs = answering(vec![out(&[line]), out(&[FILE])]);
    let link = fs.inodes.get_or_assign_ino("/vendor/lib/link");
    assert_eq!(fs.readlink(link).as_deref(), Ok("../../system/lib/libc.so"));
    let file = fs.inodes.get_or_assign_ino("/a.txt");
    assert_eq!(fs.readlink(file), Err(Errno::ENOSYS));
}

#[test]
fn mkdir_answers_with_the_new_directory() {
    let line = "drwxr-xr-x root root      2024-01-15 10:30 d";
    let mut fs = answering(vec![out(&[]), out(&[line])]);
    let entry = fs.mkdir(1, "d").unwrap();
    assert_eq!(entry.attr.kind, FileType::Directory);
    assert_eq!(fs.inodes.get_path(entry.attr.ino).as_deref(), Some("/d"));
    assert_eq!(fs.ops.adb.commands(), ["mkdir '/d'", "ls -l -a -d '/d'"]);
    // The new directory is known now.
    assert!(fs.getattr(entry.attr.ino).is_ok());
    assert_eq!(fs.ops.adb.commands().len(), 2);
}

#[test]
fn failures_on_the_device_are_passed_on() {
    let mut fs = answering(vec![
        failed(1, &["mkdir: File exists"]),
        failed(1, &["rm: Is a directory"]),
        failed(1, &["rmdir: Directory not empty"]),
        failed(1, &["mv: Cross-device link"]),
    ]);
    let a = fs.inodes.get_or_assign_ino("/a");
    assert_eq!(fs.mkdir(1, "a"), Err(Errno::EEXIST));
    assert_eq!(fs.unlink(1, "a"), Err(Errno::EISDIR));
    assert_eq!(fs.rmdir(1, "a"), Err(Errno::ENOTEMPTY));
    assert_eq!(fs.rename(1, "a", 1, "b"), Err(Errno::EXDEV));
    assert_eq!(fs.inodes.get_path(a).as_deref(), Some("/a"));
}

fn cached(fs: &mut AdbFs<MockAdb>, paths: &[&str]) {
    for path in paths {
        fs.cache.insert(path.to_string(), Some(meta(libc::S_IFREG, 1)));
    }
}

#[test]
fn removal_forgets_what_is_gone() {
    let mut fs = test_fs(MockAdb::silent());
    cached(&mut fs, &["/f", "/f/x", "/d", "/d/x", "/dd"]);
    fs.unlink(1, "f").unwrap();
    assert!(fs.cache.get("/f").is_none());
    assert!(fs.cache.get("/f/x").is_some());
    fs.rmdir(1, "d").unwrap();
    assert!(fs.cache.get("/d").is_none());
    assert!(fs.cache.get("/d/x").is_none());
    assert!(fs.cache.get("/dd").is_some());
}

#[test]
fn rename_moves_the_inode_and_forgets_both_ends() {
    let mut fs = test_fs(MockAdb::silent());
    let ino = fs.inodes.get_or_assign_ino("/d/x");
    cached(&mut fs, &["/d/x", "/e", "/other"]);
    fs.rename(1, "d", 1, "e").unwrap();
    assert_eq!(fs.ops.adb.commands(), ["mv '/d' '/e'"]);
    assert_eq!(fs.inodes.get_path(ino).as_deref(), Some("/e/x"));
    assert!(fs.cache.get("/d/x").is_none());
    assert!(fs.cache.get("/e").is_none());
    assert!(fs.cache.get("/other").is_some());
}

#[test]
fn access_is_allowed() {
    assert_eq!(test_fs(MockAdb::silent()).access(), Ok(()));
}

// ---- directories ----

#[test]
fn a_directory_lists_itself_its_parent_and_its_entries() {
    let lines = [
        "total 8",
        "drwxr-xr-x root root      2024-01-15 10:30 .",
        "drwxr-xr-x root root      2024-01-15 10:30 ..",
        FILE,
        "drwxr-xr-x root root      2024-01-15 10:30 sub",
        "lstat '//efs' failed: Permission denied",
    ];
    let mut fs = answering(vec![out(&lines)]);
    let opened = fs.opendir(1).unwrap();
    assert_eq!(opened, Opened { fh: 1, flags: 0 });
    let rows = fs.readdir(opened.fh, 0).unwrap();
    let shown: Vec<(u64, u64, FileType, &str)> =
        rows.iter().map(|(next, e)| (*next, e.ino, e.kind, e.name.as_str())).collect();
    assert_eq!(
        shown,
        [
            (1, 1, FileType::Directory, "."),
            (2, 1, FileType::Directory, ".."),
            (3, 2, FileType::RegularFile, "a.txt"),
            (4, 3, FileType::Directory, "sub"),
            (5, 4, FileType::RegularFile, "efs"),
        ]
    );
    // What the listing said is known without a call; of `efs` it said nothing.
    assert_eq!(fs.getattr(2).unwrap().attr.size, 100);
    assert_eq!(fs.ops.adb.commands().len(), 1);
    assert!(fs.cache.get("/efs").is_none());
}

#[test]
fn reading_goes_on_where_it_stopped() {
    let mut fs = answering(vec![out(&[FILE])]);
    let fh = fs.opendir(1).unwrap().fh;
    let all = fs.readdir(fh, 0).unwrap();
    assert_eq!(all.len(), 3);
    let rest = fs.readdir(fh, all[0].0).unwrap();
    let names: Vec<&str> = rest.iter().map(|(_, e)| e.name.as_str()).collect();
    assert_eq!(names, ["..", "a.txt"]);
    assert!(fs.readdir(fh, 3).unwrap().is_empty());
    assert!(fs.readdir(fh, u64::MAX).unwrap().is_empty());
}

#[test]
fn a_closed_directory_cannot_be_read() {
    let mut fs = answering(vec![out(&[])]);
    let fh = fs.opendir(1).unwrap().fh;
    fs.releasedir(fh);
    assert!(matches!(fs.readdir(fh, 0), Err(Errno::EBADF)));
}

#[test]
fn a_listing_that_fails_opens_nothing() {
    let mut fs = answering(vec![Err(AdbError::DeviceNotFound)]);
    assert_eq!(fs.opendir(1), Err(Errno::EIO));
    assert!(fs.handles.open_dirs.is_empty());
}

// ---- files ----

fn answered<T>(step: Step<T>) -> (Result<T, Errno>, Option<String>) {
    match step {
        Step::Done { reply, remove } => (reply, remove),
        Step::Work(work) => panic!("{work:?}"),
    }
}

fn work<T: std::fmt::Debug>(step: Step<T>) -> LocalWork {
    match step {
        Step::Work(work) => work,
        Step::Done { reply, .. } => panic!("{reply:?}"),
    }
}

fn opened(fs: &mut AdbFs<MockAdb>, ino: u64) -> u64 {
    let step = fs.open(ino);
    let local = fs.local_path_for(ino);
    assert!(matches!(work(step), LocalWork::Open { path } if path == local));
    answered(fs.opened(Ok(()))).0.unwrap().fh
}

#[test]
fn two_handles_share_a_copy_until_both_are_closed() {
    let mut fs = test_fs(MockAdb::silent());
    let ino = fs.inodes.get_or_assign_ino("/a");
    let first = opened(&mut fs, ino);
    let second = opened(&mut fs, ino);
    assert_ne!(first, second);
    assert_eq!(fs.ops.adb.pulls().len(), 1);
    assert_eq!(fs.handles.copy(ino).unwrap().refs, 2);
    assert_eq!(fs.release(first), None);
    assert_eq!(fs.release(first), None);
    assert_eq!(fs.handle_ino(first), Err(Errno::EBADF));
    assert_eq!(fs.handle_ino(second), Ok(ino));
    assert_eq!(fs.release(second), Some(fs.local_path_for(ino)));
    assert!(fs.handles.open_copies.is_empty());
}

#[test]
fn a_failed_pull_fails_the_open() {
    let mut fs = test_fs(MockAdb::silent().with_failing_pull());
    let ino = fs.inodes.get_or_assign_ino("/a");
    assert_eq!(answered(fs.open(ino)), (Err(Errno::EIO), None));
    assert!(fs.handles.open_copies.is_empty());
    assert!(fs.pending.is_none());
}

#[test]
fn a_copy_that_cannot_be_opened_is_given_up() {
    let mut fs = test_fs(MockAdb::silent());
    let ino = fs.inodes.get_or_assign_ino("/a");
    work(fs.open(ino));
    let local = fs.local_path_for(ino);
    assert_eq!(answered(fs.opened(Err(Errno::Os(libc::EMFILE)))), (Err(Errno::Os(libc::EMFILE)), Some(local)));
    assert!(fs.handles.open_copies.is_empty());
    assert!(fs.handles.open_files.is_empty());
}

#[test]
fn writes_reach_the_device_on_flush() {
    let mut fs = test_fs(MockAdb::silent());
    let ino = fs.inodes.get_or_assign_ino("/a");
    let fh = opened(&mut fs, ino);
    cached(&mut fs, &["/a"]);
    fs.flush(fh).unwrap();
    assert!(fs.ops.adb.pushes().is_empty());
    assert_eq!(fs.write(fh, Err(Errno::ENOSPC)), Err(Errno::ENOSPC));
    fs.flush(fh).unwrap();
    assert!(fs.ops.adb.pushes().is_empty());
    assert_eq!(fs.write(fh, Ok(12)), Ok(12));
    fs.flush(fh).unwrap();
    assert_eq!(fs.ops.adb.pushes(), [(fs.local_path_for(ino), "/a".to_string())]);
    assert!(fs.cache.get("/a").is_none());
    // Nothing is left to be pushed.
    fs.flush(fh).unwrap();
    assert_eq!(fs.ops.adb.pushes().len(), 1);
}

#[test]
fn closed_handles_are_bad() {
    let mut fs = test_fs(MockAdb::silent());
    assert_eq!(fs.write(9, Ok(1)), Err(Errno::EBADF));
    assert_eq!(fs.flush(9), Err(Errno::EBADF));
    assert_eq!(fs.handle_ino(9), Err(Errno::EBADF));
    assert_eq!(fs.release(9), None);
}

#[test]
fn writes_without_a_path_stay_dirty() {
    let mut fs = test_fs(MockAdb::silent());
    let ino = fs.inodes.get_or_assign_ino("/a");
    fs.inodes.get_or_assign_ino("/b");
    let fh = opened(&mut fs, ino);
    fs.write(fh, Ok(1)).unwrap();
    // `/b` takes the path, so that the inode has none.
    fs.inodes.rekey_paths("/b", "/a");
    assert_eq!(fs.flush(fh), Err(Errno::ENOENT));
    assert!(fs.handles.copy(ino).unwrap().dirty);
}

#[test]
fn a_new_file_is_pushed_empty_and_then_open() {
    let mut fs = answering(vec![out(&[EMPTY])]);
    let step = fs.create(1, "a.txt");
    let local = fs.local_path_for(2);
    assert!(matches!(work(step), LocalWork::Create { path } if path == local));
    let step = fs.create_made(Ok(()));
    assert!(matches!(work(step), LocalWork::Open { path } if path == local));
    let (reply, remove) = answered(fs.create_opened(Ok(())));
    let Created { entry, opened } = reply.unwrap();
    assert_eq!(remove, None);
    assert_eq!(entry.attr.ino, 2);
    assert_eq!(entry.attr.size, 0);
    assert_eq!(opened.fh, 1);
    assert_eq!(fs.ops.adb.pushes(), [(local.clone(), "/a.txt".to_string())]);
    assert_eq!(fs.ops.adb.commands(), ["ls -l -a -d '/a.txt'"]);
    assert!(fs.ops.adb.pulls().is_empty());
    assert!(!fs.handles.copy(2).unwrap().dirty);
    assert_eq!(fs.release(1), Some(local));
}

#[test]
fn a_creation_that_fails_leaves_no_copy() {
    // The local file cannot be made.
    let mut fs = test_fs(MockAdb::silent());
    work(fs.create(1, "a"));
    assert_eq!(answered(fs.create_made(Err(Errno::ENOSPC))), (Err(Errno::ENOSPC), None));
    assert!(fs.handles.open_copies.is_empty());
    // It cannot be opened.
    work(fs.create(1, "a"));
    work(fs.create_made(Ok(())));
    let local = fs.local_path_for(2);
    assert_eq!(
        answered(fs.create_opened(Err(Errno::Os(libc::EMFILE)))),
        (Err(Errno::Os(libc::EMFILE)), Some(local.clone()))
    );
    // The device does not show it.
    work(fs.create(1, "a"));
    work(fs.create_made(Ok(())));
    assert_eq!(answered(fs.create_opened(Ok(()))), (Err(Errno::EAGAIN), Some(local)));
    assert!(fs.handles.open_copies.is_empty());
    assert!(fs.handles.open_files.is_empty());
}

#[test]
fn truncating_to_zero_pulls_nothing() {
    let mut fs = answering(vec![out(&[EMPTY])]);
    let ino = fs.inodes.get_or_assign_ino("/a.txt");
    let local = fs.local_path_for(ino);
    let step = fs.setattr(ino, Some(0), None, None);
    assert!(matches!(work(step), LocalWork::Create { path } if path == local));
    let step = fs.setattr_cleared(Ok(()));
    assert!(matches!(work(step), LocalWork::SetLen { path, len: 0 } if path == local));
    let (reply, remove) = answered(fs.setattr_cut(Ok(())));
    assert_eq!(reply.unwrap().attr.size, 0);
    assert_eq!(remove, Some(local.clone()));
    assert!(fs.ops.adb.pulls().is_empty());
    assert_eq!(fs.ops.adb.pushes(), [(local, "/a.txt".to_string())]);
    assert!(fs.handles.open_copies.is_empty());
}

#[test]
fn truncating_elsewhere_pulls_first() {
    let mut fs = answering(vec![out(&[FILE])]);
    let ino = fs.inodes.get_or_assign_ino("/a.txt");
    let fh = opened(&mut fs, ino);
    let step = fs.setattr(ino, Some(100), None, None);
    assert!(matches!(work(step), LocalWork::SetLen { len: 100, .. }));
    let (reply, remove) = answered(fs.setattr_cut(Ok(())));
    assert_eq!(reply.unwrap().attr.size, 100);
    // The handle still has the copy, which was pulled once.
    assert_eq!(remove, None);
    assert_eq!(fs.ops.adb.pulls().len(), 1);
    assert_eq!(fs.ops.adb.pushes().len(), 1);
    assert!(fs.release(fh).is_some());
}

#[test]
fn a_truncation_that_fails_gives_the_copy_back() {
    let mut fs = test_fs(MockAdb::silent());
    let ino = fs.inodes.get_or_assign_ino("/a");
    work(fs.setattr(ino, Some(0), None, None));
    assert_eq!(answered(fs.setattr_cleared(Err(Errno::EROFS))), (Err(Errno::EROFS), None));
    work(fs.setattr(ino, Some(7), None, None));
    let local = fs.local_path_for(ino);
    assert_eq!(
        answered(fs.setattr_cut(Err(Errno::Os(libc::EFBIG)))),
        (Err(Errno::Os(libc::EFBIG)), Some(local))
    );
    assert!(fs.handles.open_copies.is_empty());
    assert!(fs.ops.adb.pushes().is_empty());
}

#[test]
fn a_truncation_of_what_cannot_be_pulled_fails() {
    let mut fs = test_fs(MockAdb::silent().with_failing_pull());
    let ino = fs.inodes.get_or_assign_ino("/a");
    assert_eq!(answered(fs.setattr(ino, Some(7), None, None)), (Err(Errno::EIO), None));
    assert!(fs.handles.open_copies.is_empty());
}

#[test]
fn times_are_set_and_the_answer_is_fresh() {
    let mut fs = answering(vec![out(&[]), out(&[FILE])]);
    let ino = fs.inodes.get_or_assign_ino("/a.txt");
    cached(&mut fs, &["/a.txt"]);
    let time = TimeOrNow::SpecificTime(FileTime { secs: 5, nanos: 0 });
    let (reply, remove) = answered(fs.setattr(ino, None, None, Some(time)));
    assert_eq!(reply.unwrap().attr.size, 100);
    assert_eq!(remove, None);
    assert_eq!(
        fs.ops.adb.commands(),
        ["touch -m -d @5.000000000 '/a.txt'", "ls -l -a -d '/a.txt'"]
    );
}

fn since_epoch() -> Duration {
    SystemTime::now().duration_since(SystemTime::UNIX_EPOCH).unwrap()
}

#[test]
fn the_present_time_is_that_of_the_setting() {
    let mut fs = answering(vec![out(&[]), out(&[FILE])]);
    let ino = fs.inodes.get_or_assign_ino("/a.txt");
    work(fs.setattr(ino, Some(7), None, Some(TimeOrNow::Now)));
    let earliest = since_epoch();
    let (reply, _) = answered(fs.setattr_cut(Ok(())));
    let latest = since_epoch();
    assert_eq!(reply.unwrap().attr.size, 100);
    let command = fs.ops.adb.commands()[0].clone();
    let time = command.strip_prefix("touch -m -d @").unwrap().strip_suffix(" '/a.txt'").unwrap();
    let (secs, nanos) = time.split_once('.').unwrap();
    let set = Duration::new(secs.parse().unwrap(), nanos.parse().unwrap());
    assert!(earliest <= set && set <= latest, "{command}");
}

#[test]
fn what_gets_an_inode_is_found_by_it() {
    let listed = "drwxr-xr-x root root 2024-01-15 10:30 d";
    let mut fs = answering(vec![
        out(&[FILE]),
        out(&[]),
        out(&[listed]),
        out(&[listed]),
        out(&[FILE]),
    ]);
    let file = fs.lookup(1, "a.txt").unwrap().attr.ino;
    let dir = fs.mkdir(1, "d").unwrap().attr.ino;
    let fh = fs.opendir(1).unwrap().fh;
    let rows = fs.readdir(fh, 2).unwrap();
    assert_eq!(rows.len(), 1);
    assert_eq!(rows[0].1.ino, dir);
    work(fs.create(dir, "n"));
    work(fs.create_made(Ok(())));
    let new = answered(fs.create_opened(Ok(()))).0.unwrap().entry.attr.ino;
    let paths = [(1, "/"), (file, "/a.txt"), (dir, "/d"), (new, "/d/n")];
    for (ino, path) in paths {
        assert_eq!(fs.inodes.get_path(ino).as_deref(), Some(path));
        assert_eq!(fs.inodes.get_or_assign_ino(path), ino);
    }
    assert_eq!(fs.ops.adb.pushes(), [(fs.local_path_for(new), "/d/n".to_string())]);
}

#[test]
fn times_that_cannot_be_set_are_an_error() {
    let mut fs = answering(vec![failed(1, &["touch: Read-only file system"])]);
    let ino = fs.inodes.get_or_assign_ino("/a.txt");
    let time = TimeOrNow::SpecificTime(FileTime { secs: 5, nanos: 0 });
    assert_eq!(answered(fs.setattr(ino, None, Some(time), None)), (Err(Errno::EROFS), None));
    assert_eq!(fs.ops.adb.commands().len(), 1);
}

#[test]
fn setting_nothing_asks_for_the_attributes() {
    let mut fs = answering(vec![out(&[FILE])]);
    let ino = fs.inodes.get_or_assign_ino("/a.txt");
    assert_eq!(answered(fs.setattr(ino, None, None, None)).0.unwrap().attr.size, 100);
    assert_eq!(fs.ops.adb.commands(), ["ls -l -a -d '/a.txt'"]);
}

#[test]
fn a_special_file_is_made_locally_and_pushed() {
    let line = "prw-r--r-- root root 0 2024-01-15 10:30 pipe";
    let mut fs = answering(vec![out(&[line])]);
    let step = fs.mknod(1, "pipe", libc::S_IFIFO | 0o644, 0);
    let node = "/tmp/adbfs/node0".to_string();
    match work(step) {
        LocalWork::Node { path, mode, rdev } => {
            assert_eq!((path, mode, rdev), (node.clone(), libc::S_IFIFO | 0o644, 0));
        }
        other => panic!("{other:?}"),
    }
    let (reply, remove) = answered(fs.mknod_made(Ok(())));
    assert_eq!(reply.unwrap().attr.kind, FileType::NamedPipe);
    assert_eq!(remove, Some(node.clone()));
    assert_eq!(fs.ops.adb.pushes(), [(node.clone(), "/pipe".to_string())]);

    // The next one is made elsewhere, whether or not the first was deleted.
    let next = "/tmp/adbfs/node1".to_string();
    let step = fs.mknod(1, "pipe", libc::S_IFIFO, 0);
    assert!(matches!(work(step), LocalWork::Node { path, .. } if path == next));
    assert_eq!(answered(fs.mknod_made(Err(Errno::EPERM))), (Err(Errno::EPERM), Some(next)));
    assert_eq!(fs.ops.adb.pushes().len(), 1);
}
