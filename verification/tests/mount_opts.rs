use adbfs::mount_opts::{split_option, FsOptions, MountArg};
use adbfs::time::Span;
use std::time::Duration;

fn seconds(value: &str) -> Option<Span> {
    let secs: f64 = value.parse().ok()?;
    let span = Duration::try_from_secs_f64(secs).ok()?;
    Some(Span { secs: span.as_secs(), nanos: span.subsec_nanos() })
}

fn arg(text: &str) -> MountArg {
    let (_, value) = split_option(text);
    MountArg { text: text.to_string(), seconds: value.and_then(|v| seconds(&v)) }
}

fn split(args: &[&str]) -> (FsOptions, Vec<String>) {
    FsOptions::split(args.iter().map(|s| arg(s)).collect()).unwrap()
}

#[test]
fn unknown_options_pass_through() {
    let (fs, mount) = split(&["allow_other", "max_read=65536", "ro"]);
    assert_eq!(fs, FsOptions::default());
    assert_eq!(mount, ["allow_other", "max_read=65536", "ro"]);
}

#[test]
fn known_options_are_consumed() {
    let (fs, mount) = split(&["allow_other", "direct_io", "uid=1000", "attr_timeout=2.5"]);
    assert_eq!(mount, ["allow_other"]);
    assert!(fs.direct_io);
    assert_eq!(fs.uid, Some(1000));
    assert_eq!(fs.attr_timeout, Span { secs: 2, nanos: 500_000_000 });
}

#[test]
fn umask_is_octal() {
    let (fs, _) = split(&["umask=022"]);
    assert_eq!(fs.umask, Some(0o22));
    let mut uid = 0;
    let mut gid = 0;
    let mode = fs.apply_ownership(libc::S_IFREG | 0o600, &mut uid, &mut gid);
    assert_eq!(mode, libc::S_IFREG | 0o755);
}

#[test]
fn ownership_defaults_to_device_values() {
    let (fs, _) = split(&[]);
    let mut uid = 2000;
    let mut gid = 3000;
    let mode = fs.apply_ownership(libc::S_IFREG | 0o600, &mut uid, &mut gid);
    assert_eq!((uid, gid, mode), (2000, 3000, libc::S_IFREG | 0o600));
}

#[test]
fn bad_values_are_rejected() {
    for bad in [
        "uid=root",
        "umask=999",
        "attr_timeout=soon",
        "attr_timeout=-1",
    ] {
        assert!(FsOptions::split(vec![arg(bad)]).is_err(), "{bad}");
    }
}

#[test]
fn flags_with_values_are_not_flags() {
    // `-o debug=1` is not libfuse syntax; it must reach the mount unchanged.
    let (fs, mount) = split(&["debug=1"]);
    assert!(!fs.debug);
    assert_eq!(mount, ["debug=1"]);
}

#[test]
fn every_option_is_applied() {
    let (fs, mount) = split(&[
        "entry_timeout=3",
        "attr_timeout=0.25",
        "negative_timeout=60",
        "uid=1",
        "gid=+2",
        "umask=777",
        "direct_io",
        "kernel_cache",
        "debug",
    ]);
    assert!(mount.is_empty());
    let expected = FsOptions {
        entry_timeout: Span { secs: 3, nanos: 0 },
        attr_timeout: Span { secs: 0, nanos: 250_000_000 },
        negative_timeout: Span { secs: 60, nanos: 0 },
        uid: Some(1),
        gid: Some(2),
        umask: Some(0o777),
        direct_io: true,
        kernel_cache: true,
        debug: true,
    };
    assert_eq!(fs, expected);
}

#[test]
fn the_last_of_two_values_counts() {
    let (fs, _) = split(&["uid=1", "uid=2"]);
    assert_eq!(fs.uid, Some(2));
}

#[test]
fn the_first_equals_sign_splits() {
    assert_eq!(split_option("a=b=c"), ("a".to_string(), Some("b=c".to_string())));
    assert_eq!(split_option("a"), ("a".to_string(), None));
    assert_eq!(split_option("=b"), (String::new(), Some("b".to_string())));
    let (_, mount) = split(&["=b", "context=a=b"]);
    assert_eq!(mount, ["=b", "context=a=b"]);
}

#[test]
fn keys_without_their_value_pass_through() {
    let (fs, mount) = split(&["uid", "umask", "attr_timeout"]);
    assert_eq!(fs, FsOptions::default());
    assert_eq!(mount, ["uid", "umask", "attr_timeout"]);
}

#[test]
fn numbers_beyond_32_bits_are_rejected() {
    assert_eq!(split(&["uid=4294967295"]).0.uid, Some(u32::MAX));
    assert!(FsOptions::split(vec![arg("uid=4294967296")]).is_err());
    assert!(FsOptions::split(vec![arg("uid=")]).is_err());
    assert!(FsOptions::split(vec![arg("gid=-1")]).is_err());
}

#[test]
fn the_first_bad_option_is_reported() {
    let e = FsOptions::split(vec![arg("ro"), arg("uid=root"), arg("gid=wheel")]).unwrap_err();
    assert_eq!(e.message(), "invalid mount option -o uid=root");
}

#[test]
fn owners_are_replaced() {
    let (fs, _) = split(&["uid=7", "gid=8"]);
    let mut uid = 2000;
    let mut gid = 3000;
    let mode = fs.apply_ownership(libc::S_IFDIR | 0o711, &mut uid, &mut gid);
    assert_eq!((uid, gid, mode), (7, 8, libc::S_IFDIR | 0o711));
}

#[test]
fn umask_keeps_the_type_and_drops_special_bits() {
    let (fs, _) = split(&["umask=077"]);
    let mut uid = 0;
    let mut gid = 0;
    let mode = fs.apply_ownership(libc::S_IFDIR | 0o1777, &mut uid, &mut gid);
    assert_eq!(mode, libc::S_IFDIR | 0o700);
}
