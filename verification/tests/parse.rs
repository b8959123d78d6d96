use adbfs::parse::{extract_filename, is_valid_ls_output, parse_ls_line, parse_symlink_target};
use adbfs::time::FileTime;

const TOOLBOX: &str = "-rw-r--r-- root root 1234 2024-01-15 10:30 test.txt";
const TOYBOX: &str = "drwxrwx--x 4 1000 1023 4096 2024-02-29 23:59 Photos";

#[test]
fn a_line_of_toolbox_is_read() {
    let meta = parse_ls_line(TOOLBOX).unwrap();
    assert_eq!(meta.mode, libc::S_IFREG | 0o644);
    assert_eq!(meta.nlink, 1);
    assert_eq!(meta.size, 1234);
    assert_eq!(meta.rdev, 0);
    assert_eq!(meta.mtime, FileTime { secs: 1705314600, nanos: 0 });
    assert_eq!(meta.raw_line, TOOLBOX);
}

#[test]
fn a_line_of_toybox_is_read() {
    let meta = parse_ls_line(TOYBOX).unwrap();
    assert_eq!(meta.mode, libc::S_IFDIR | 0o771);
    assert_eq!(meta.nlink, 4);
    assert_eq!((meta.uid, meta.gid), (1000, 1023));
    assert_eq!(meta.size, 4096);
    assert_eq!(meta.mtime, FileTime { secs: 1709251140, nanos: 0 });
}

#[test]
fn a_directory_may_have_no_size() {
    let meta = parse_ls_line("drwxr-xr-x root root      2024-01-15 10:30 subdir").unwrap();
    assert_eq!(meta.mode, libc::S_IFDIR | 0o755);
    assert_eq!(meta.size, 0);
}

#[test]
fn special_bits_are_read() {
    let mode = |s: &str| parse_ls_line(&format!("{s} root root 0 2024-01-15 10:30 f")).map(|m| m.mode);
    assert_eq!(mode("-rwsr-sr-t"), Some(libc::S_IFREG | 0o7755));
    assert_eq!(mode("-rwSr-Sr-T"), Some(libc::S_IFREG | 0o7644));
    assert_eq!(mode("prw-r--r--"), Some(libc::S_IFIFO | 0o644));
    assert_eq!(mode("srw-r--r--"), Some(libc::S_IFSOCK | 0o644));
    assert_eq!(mode("?rw-r--r--"), None);
    assert_eq!(mode("-rw-r--r-x-"), None);
}

#[test]
fn device_numbers_are_read() {
    let meta = parse_ls_line("crw-rw-rw- root root 1, 3 2024-01-15 10:30 null").unwrap();
    assert_eq!(meta.mode, libc::S_IFCHR | 0o666);
    assert_eq!(meta.rdev, 0x103);
    assert_eq!(meta.size, 0);
}

#[test]
fn lines_that_are_no_entries_are_told_apart() {
    assert!(is_valid_ls_output(TOOLBOX));
    assert!(!is_valid_ls_output("total 12"));
    assert!(!is_valid_ls_output(""));
    assert!(!is_valid_ls_output("ls: /x: No such file or directory"));
    assert!(parse_ls_line("total 12").is_none());
    assert!(parse_ls_line("-rw-r--r-- root root 1 yesterday f").is_none());
}

#[test]
fn names_are_what_follows_the_date() {
    assert_eq!(extract_filename(TOOLBOX).as_deref(), Some("test.txt"));
    assert_eq!(
        extract_filename("-rw-r--r-- root root 1 2024-01-15 10:30 a  b -> c").as_deref(),
        Some("a  b -> c")
    );
    assert_eq!(
        extract_filename("lrwxrwxrwx root root 2024-01-15 10:30 l -> /t").as_deref(),
        Some("l")
    );
}

#[test]
fn link_targets_are_read_relative_to_the_mount_point() {
    let line = |target: &str| format!("lrwxrwxrwx root root 2024-01-01 12:00 link -> {target}");
    assert_eq!(parse_symlink_target(&line("/a"), 1).as_deref(), Some("a"));
    assert_eq!(parse_symlink_target(&line("/a/b"), 3).as_deref(), Some("../../a/b"));
    assert_eq!(parse_symlink_target(&line("x/y"), 3).as_deref(), Some("x/y"));
    assert_eq!(parse_symlink_target(TOOLBOX, 3), None);
}

#[test]
fn dates_are_days_of_the_calendar() {
    let secs = |date: &str| {
        parse_ls_line(&format!("-rw-r--r-- root root 0 {date} f")).map(|m| m.mtime.secs)
    };
    assert_eq!(secs("1970-01-01 00:00"), Some(0));
    assert_eq!(secs("2000-03-01 00:00"), Some(951868800));
    assert_eq!(secs("1969-12-31 23:59"), Some(-60));
    assert_eq!(secs("2024-13-01 00:00"), None);
}
