use adbfs::adb::mock::{failed, out, MockAdb};
use adbfs::adb::AdbError;
use adbfs::ops::{
    errno_for_message, extract_name_from_perm_error, first_message, format_touch_time, DeviceError,
    DeviceOps, ResolvedCompat,
};
use adbfs::sys::Errno;
use adbfs::time::FileTime;

#[test]
fn get_metadata_parses_ls_output() {
    let mock = MockAdb::new(vec![out(&[
        "-rw-r--r-- root root 1234 2024-01-15 10:30 test.txt",
    ])]);
    let mut ops = DeviceOps::new(mock, ResolvedCompat::legacy());
    let meta = ops.get_metadata("/sdcard/test.txt").unwrap();
    assert_eq!(meta.size, 1234);
    assert_eq!(meta.mode & libc::S_IFREG as u32, libc::S_IFREG as u32);
}

#[test]
fn get_metadata_permission_denied() {
    let mock = MockAdb::new(vec![out(&[
        "/sbin/healthd: Permission denied",
    ])]);
    let mut ops = DeviceOps::new(mock, ResolvedCompat::legacy());
    let result = ops.get_metadata("/sbin/healthd");
    assert!(matches!(result, Err(DeviceError::PermissionDenied { .. })));
}

#[test]
fn get_metadata_no_device() {
    let mock = MockAdb::new(vec![out(&[])]);
    let mut ops = DeviceOps::new(mock, ResolvedCompat::legacy());
    let result = ops.get_metadata("/any");
    assert!(matches!(result, Err(DeviceError::NoDevice)));
}

#[test]
fn get_metadata_not_found() {
    let mock = MockAdb::new(vec![out(&[
        "/sdcard/nofile: No such file or directory",
    ])]);
    let mut ops = DeviceOps::new(mock, ResolvedCompat::legacy());
    let result = ops.get_metadata("/sdcard/nofile");
    assert!(matches!(result, Err(DeviceError::NotFound { .. })));
}

#[test]
fn list_dir_parses_entries() {
    let mock = MockAdb::new(vec![out(&[
        "-rw-r--r-- root root 100 2024-01-15 10:30 a.txt",
        "drwxr-xr-x root root      2024-01-15 10:30 subdir",
    ])]);
    let mut ops = DeviceOps::new(mock, ResolvedCompat::legacy());
    let entries = ops.list_dir("/sdcard").unwrap();
    assert_eq!(entries.len(), 2);
    assert_eq!(entries[0].0, "a.txt");
    assert_eq!(entries[1].0, "subdir");
    assert!(entries[0].1.is_some());
    assert!(entries[1].1.is_some());
}

#[test]
fn list_dir_handles_permission_errors() {
    let mock = MockAdb::new(vec![out(&[
        "-rw-r--r-- root root 100 2024-01-15 10:30 ok.txt",
        "lstat '//efs' failed: Permission denied",
    ])]);
    let mut ops = DeviceOps::new(mock, ResolvedCompat::legacy());
    let entries = ops.list_dir("/").unwrap();
    assert_eq!(entries.len(), 2);
    assert_eq!(entries[0].0, "ok.txt");
    assert_eq!(entries[1].0, "efs");
    assert!(entries[1].1.is_none());
}

#[test]
fn touch_gnu_fallback() {
    let mock = MockAdb::new(vec![
        // First attempt: GNU format fails
        out(&["touch: bad '@1700000000.000000000'"]),
        // Second attempt: legacy format succeeds
        out(&[]),
    ]);
    let mut ops = DeviceOps::new(mock, ResolvedCompat::legacy());
    let time = FileTime { secs: 1700000000, nanos: 0 };
    ops.touch("/sdcard/test", None, Some(time)).unwrap();
    assert!(!ops.touch_gnu_mode);
}

/// The number that the C library has for an error.
fn number(errno: Errno) -> i32 {
    match errno {
        Errno::EPERM => libc::EPERM,
        Errno::ENOENT => libc::ENOENT,
        Errno::EIO => libc::EIO,
        Errno::EBADF => libc::EBADF,
        Errno::EAGAIN => libc::EAGAIN,
        Errno::EACCES => libc::EACCES,
        Errno::EBUSY => libc::EBUSY,
        Errno::EEXIST => libc::EEXIST,
        Errno::EXDEV => libc::EXDEV,
        Errno::ENOTDIR => libc::ENOTDIR,
        Errno::EISDIR => libc::EISDIR,
        Errno::EINVAL => libc::EINVAL,
        Errno::ENOSPC => libc::ENOSPC,
        Errno::EROFS => libc::EROFS,
        Errno::ENAMETOOLONG => libc::ENAMETOOLONG,
        Errno::ENOSYS => libc::ENOSYS,
        Errno::ENOTEMPTY => libc::ENOTEMPTY,
        Errno::Os(code) => code,
    }
}

fn errno_of(result: Result<(), DeviceError>) -> i32 {
    number(result.expect_err("should have failed").to_errno())
}

#[test]
fn silent_mutation_succeeds() {
    let mut ops = DeviceOps::new(MockAdb::silent(), ResolvedCompat::legacy());
    assert!(ops.mkdir("/sdcard/new").is_ok());
    assert!(ops.rm("/sdcard/old").is_ok());
    assert!(ops.mv("/sdcard/a", "/sdcard/b").is_ok());
}

#[test]
fn mutation_maps_device_message_to_errno() {
    let cases: &[(&str, i32)] = &[
        (
            "rmdir: '/sdcard/d' failed: Directory not empty",
            libc::ENOTEMPTY,
        ),
        ("mkdir: '/sdcard/d': File exists", libc::EEXIST),
        ("rm: /system/x: Permission denied", libc::EACCES),
        ("mv: '/a' -> '/b': Cross-device link", libc::EXDEV),
        ("rm: /sdcard/gone: No such file or directory", libc::ENOENT),
        ("mkdir: '/system/x': Read-only file system", libc::EROFS),
        ("rm: /sdcard/d: Is a directory", libc::EISDIR),
        ("something the table does not know", libc::EIO),
    ];
    for (message, errno) in cases {
        let mock = MockAdb::new(vec![failed(1, &[message])]);
        let mut ops = DeviceOps::new(mock, ResolvedCompat::legacy());
        assert_eq!(errno_of(ops.rmdir("/sdcard/d")), *errno, "for {message}");
    }
}

/// Devices without shell protocol v2 exit 0 whatever happened and fold the
/// message into stdout. The message is the only signal there.
#[test]
fn mutation_fails_on_legacy_device_that_exits_zero() {
    let mock = MockAdb::new(vec![out(&[
        "mkdir failed for /sdcard/d, File exists",
    ])]);
    let mut ops = DeviceOps::new(mock, ResolvedCompat::legacy());
    assert_eq!(errno_of(ops.mkdir("/sdcard/d")), libc::EEXIST);
}

#[test]
fn mutation_fails_on_exit_code_without_message() {
    let mock = MockAdb::new(vec![failed(1, &[])]);
    let mut ops = DeviceOps::new(mock, ResolvedCompat::legacy());
    assert_eq!(errno_of(ops.rm("/sdcard/x")), libc::EIO);
}

#[test]
fn touch_reports_failure() {
    let mock = MockAdb::new(vec![failed(
        1,
        &["touch: '/system/x': Read-only file system"],
    )]);
    let mut ops = DeviceOps::new(mock, ResolvedCompat::legacy());
    let time = FileTime { secs: 1700000000, nanos: 0 };
    assert_eq!(
        errno_of(ops.touch("/system/x", None, Some(time))),
        libc::EROFS
    );
}

#[test]
fn rescan_escapes_the_path() {
    let mock = MockAdb::silent();
    let mut ops = DeviceOps::new(mock, ResolvedCompat::legacy()).with_rescan(true);
    ops.rm("/sdcard/'; reboot; '.mp3").unwrap();

    let rescan = ops.adb.commands().pop().expect("rescan command");
    assert!(
        rescan.contains(r"'\''; reboot; '\''"),
        "quote left unescaped: {rescan}"
    );
}

#[test]
fn resolve_symlink_works() {
    let ops = DeviceOps::new(MockAdb::silent(), ResolvedCompat::legacy());
    let raw = "lrwxrwxrwx root root 2024-01-01 12:00 link -> /system/lib/libc.so";
    let target = ops.resolve_symlink("/vendor/lib/link", raw).unwrap();
    assert_eq!(target, "../../system/lib/libc.so");
}

const TIME: FileTime = FileTime { secs: 1700000000, nanos: 5 };

fn silent() -> DeviceOps<MockAdb> {
    DeviceOps::new(MockAdb::silent(), ResolvedCompat::legacy())
}

#[test]
fn each_operation_is_one_quoted_command() {
    let mut ops = silent();
    ops.mkdir("/a b").unwrap();
    ops.rm("/it's").unwrap();
    ops.rmdir("/d").unwrap();
    ops.mv("/a", "/b").unwrap();
    let _ = ops.get_metadata("/m");
    let _ = ops.list_dir("/l");
    assert_eq!(
        ops.adb.commands(),
        [
            "mkdir '/a b'",
            "rm '/it'\\''s'",
            "rmdir '/d'",
            "mv '/a' '/b'",
            "ls -l -a -d '/m'",
            "ls -l -a '/l'",
        ]
    );
}

#[test]
fn the_media_scanner_is_told() {
    let mut ops = silent().with_rescan(true);
    ops.mkdir("/new").unwrap();
    ops.rmdir("/d").unwrap();
    ops.mv("/a", "/b").unwrap();
    ops.touch("/t", None, Some(TIME)).unwrap();
    assert_eq!(
        ops.adb.commands(),
        [
            "mkdir '/new'",
            "rmdir '/d'",
            "am broadcast -a android.intent.action.MEDIA_UNMOUNTED -d 'file:///d'",
            "mv '/a' '/b'",
            "am broadcast -a android.intent.action.MEDIA_SCANNER_SCAN_FILE -d 'file:///a'",
            "am broadcast -a android.intent.action.MEDIA_SCANNER_SCAN_FILE -d 'file:///b'",
            "touch -m -d @1700000000.000000005 '/t'",
            "am broadcast -a android.intent.action.MEDIA_SCANNER_SCAN_FILE -d 'file:///t'",
        ]
    );
}

/// A failed command is not announced, and an announcement that does not get
/// through is a failure.
#[test]
fn announcements_follow_success() {
    let mock = MockAdb::new(vec![failed(1, &["rm: no"]), out(&[]), Err(AdbError::DeviceNotFound)]);
    let mut ops = DeviceOps::new(mock, ResolvedCompat::legacy()).with_rescan(true);
    assert!(ops.rm("/a").is_err());
    assert_eq!(ops.adb.commands().len(), 1);
    assert!(matches!(ops.rm("/b"), Err(DeviceError::Adb(AdbError::DeviceNotFound))));
    assert_eq!(ops.adb.commands().len(), 3);
}

#[test]
fn touch_sets_what_is_given() {
    let mut ops = silent();
    ops.touch("/f", None, None).unwrap();
    assert!(ops.adb.commands().is_empty());
    ops.touch("/f", Some(TIME), None).unwrap();
    ops.touch("/f", Some(TIME), Some(FileTime { secs: 1, nanos: 0 })).unwrap();
    assert_eq!(
        ops.adb.commands(),
        [
            "touch -a -d @1700000000.000000005 '/f'",
            "touch -a -d @1700000000.000000005 '/f' && touch -m -d @1.000000000 '/f'",
        ]
    );
    assert!(ops.touch_gnu_mode);
}

/// The older form is used from the first refusal on.
#[test]
fn touch_remembers_the_form() {
    let mock = MockAdb::new(vec![
        failed(1, &["touch: invalid date '@1700000000.000000005'"]),
        out(&[]),
        out(&[]),
    ]);
    let mut ops = DeviceOps::new(mock, ResolvedCompat::legacy());
    ops.touch("/f", None, Some(TIME)).unwrap();
    ops.touch("/g", None, Some(TIME)).unwrap();
    assert_eq!(
        ops.adb.commands(),
        [
            "touch -m -d @1700000000.000000005 '/f'",
            "touch -m -d `date -ud @1700000000.000000005 +%Y-%m-%dT%H:%M:%S` '/f'",
            "touch -m -d `date -ud @1700000000.000000005 +%Y-%m-%dT%H:%M:%S` '/g'",
        ]
    );
}

#[test]
fn a_date_refused_in_both_forms_is_not_supported() {
    let mock = MockAdb::new(vec![out(&["touch: bad '@1'"]), out(&["touch: bad '@1'"])]);
    let mut ops = DeviceOps::new(mock, ResolvedCompat::legacy());
    let e = ops.touch("/f", None, Some(TIME)).unwrap_err();
    assert_eq!(number(e.to_errno()), libc::ENOSYS);
}

#[test]
fn times_are_formatted() {
    assert_eq!(format_touch_time(TIME, true), "@1700000000.000000005");
    assert_eq!(
        format_touch_time(FileTime { secs: 0, nanos: 123456789 }, false),
        "`date -ud @0.123456789 +%Y-%m-%dT%H:%M:%S`"
    );
    // A time before the epoch is taken for the epoch.
    assert_eq!(format_touch_time(FileTime { secs: -5, nanos: 7 }, true), "@0.000000000");
}

#[test]
fn every_known_message_has_its_number() {
    let cases = [
        ("Operation not permitted", libc::EPERM),
        ("NOT A DIRECTORY", libc::ENOTDIR),
        ("No space left on device", libc::ENOSPC),
        ("Device or resource busy", libc::EBUSY),
        ("File name too long", libc::ENAMETOOLONG),
        ("Invalid argument", libc::EINVAL),
        ("permission DENIED", libc::EACCES),
        // The end decides, whatever comes before it says.
        ("rmdir: '/sdcard/permission denied': Directory not empty", libc::ENOTEMPTY),
        ("mv: file exists, not overwritten", libc::EIO),
        ("", libc::EIO),
    ];
    for (message, errno) in cases {
        assert_eq!(number(errno_for_message(message)), errno, "{message}");
    }
}

#[test]
fn every_failure_has_its_number_and_words() {
    let cases = [
        (DeviceError::NoDevice, libc::EAGAIN, "no device connected"),
        (
            DeviceError::PermissionDenied { path: "/a".to_string() },
            libc::EACCES,
            "permission denied: /a",
        ),
        (DeviceError::NotFound { path: "/a".to_string() }, libc::ENOENT, "file not found: /a"),
        (DeviceError::NotSupported, libc::ENOSYS, "not supported"),
        (DeviceError::Failed { errno: Errno::Os(95), message: "odd".to_string() }, 95, "odd"),
        (DeviceError::Adb(AdbError::DeviceNotFound), libc::EIO, "no device found"),
        (
            DeviceError::Adb(AdbError::CommandFailed { exit_code: -1, stderr: "x".to_string() }),
            libc::EIO,
            "adb exited with -1: x",
        ),
        (DeviceError::Adb(AdbError::Io { message: "pipe".to_string() }), libc::EIO, "pipe"),
    ];
    for (e, errno, words) in cases {
        assert_eq!(number(e.to_errno()), errno);
        assert_eq!(e.message(), words);
    }
}

#[test]
fn standard_error_is_read_first() {
    let output = adbfs::adb::ShellOutput {
        stdout: vec!["out".to_string()],
        stderr: vec![" \t".to_string(), "  err \u{3000}".to_string()],
        exit_code: 0,
    };
    assert_eq!(first_message(&output).as_deref(), Some("err"));
    assert_eq!(first_message(&failed(1, &["  "]).unwrap()), None);
    assert_eq!(first_message(&out(&["", " x"]).unwrap()).as_deref(), Some("x"));
}

#[test]
fn an_exit_code_is_reported_with_its_command() {
    let mock = MockAdb::new(vec![failed(-3, &[" "])]);
    let mut ops = DeviceOps::new(mock, ResolvedCompat::legacy());
    assert_eq!(ops.rm("/x").unwrap_err().message(), "`rm '/x'` exited with -3");
}

#[test]
fn metadata_errors_are_read_on_standard_error() {
    let mock = MockAdb::new(vec![
        failed(1, &["ls: /x: Permission denied"]),
        failed(1, &["ls: /x: No such file or directory"]),
        Err(AdbError::DeviceNotFound),
    ]);
    let mut ops = DeviceOps::new(mock, ResolvedCompat::legacy());
    assert_eq!(number(ops.get_metadata("/x").unwrap_err().to_errno()), libc::EACCES);
    assert_eq!(number(ops.get_metadata("/x").unwrap_err().to_errno()), libc::ENOENT);
    assert_eq!(number(ops.get_metadata("/x").unwrap_err().to_errno()), libc::EIO);
}

#[test]
fn names_are_taken_from_permission_errors() {
    let name = |line| extract_name_from_perm_error(line);
    assert_eq!(name("lstat '//efs' failed: Permission denied").as_deref(), Some("efs"));
    assert_eq!(name("lstat '/a/b c' failed: Permission denied").as_deref(), Some("b c"));
    assert_eq!(name("no slash' here"), None);
    assert_eq!(name("no quote /here"), None);
    assert_eq!(name("' before / the slash"), None);
}

#[test]
fn a_line_without_a_link_has_no_target() {
    let e = silent().resolve_symlink("/a", "-rw-r--r-- root root 1 2024-01-01 12:00 a").unwrap_err();
    assert_eq!(number(e.to_errno()), libc::ENOSYS);
}

#[test]
fn files_are_copied_and_storage_flushed() {
    let mut ops = silent();
    ops.pull("/remote", "/local").unwrap();
    ops.push("/local", "/remote").unwrap();
    ops.sync_device().unwrap();
    assert_eq!(ops.adb.pushes(), [("/local".to_string(), "/remote".to_string())]);
    assert_eq!(ops.adb.pulls().len(), 1);
    assert_eq!(ops.adb.pulls()[0].0, "/local");
    let mut broken = DeviceOps::new(MockAdb::silent().with_failing_pull(), ResolvedCompat::legacy());
    assert_eq!(number(broken.pull("/remote", "/local").unwrap_err().to_errno()), libc::EIO);
}
