use adbfs::run::{default_filter, run_mode, thread_count, RunMode};
use adbfs::sys;
use adbfs::text::{
    count_char, decimal_text, lower_text, nine_digits, parse_number, repeat_text,
    signed_decimal_text, trim, white,
};
use adbfs::mount_opts::FsOptions;
use adbfs::time::Span;

#[test]
fn the_bits_are_those_of_the_system() {
    let bits = [
        (sys::S_IFMT, libc::S_IFMT),
        (sys::S_IFSOCK, libc::S_IFSOCK),
        (sys::S_IFLNK, libc::S_IFLNK),
        (sys::S_IFREG, libc::S_IFREG),
        (sys::S_IFBLK, libc::S_IFBLK),
        (sys::S_IFDIR, libc::S_IFDIR),
        (sys::S_IFCHR, libc::S_IFCHR),
        (sys::S_IFIFO, libc::S_IFIFO),
    ];
    for (ours, theirs) in bits {
        assert_eq!(ours, theirs);
    }
}

#[test]
fn white_space_is_that_of_unicode() {
    for c in '\0'..=char::MAX {
        assert_eq!(white(c), c.is_whitespace(), "{:x}", c as u32);
    }
}

#[test]
fn text_is_trimmed_like_a_string() {
    for s in ["", " ", " a ", "\u{2003}a b\t\n", "a"] {
        assert_eq!(trim(s), s.trim());
    }
}

#[test]
fn only_ascii_letters_are_lowered() {
    for s in ["", "AbZ", "\u{c4}B[`", "@Z"] {
        assert_eq!(lower_text(s), s.to_ascii_lowercase());
    }
}

#[test]
fn numbers_are_written_in_decimal() {
    for n in [0, 9, 10, 99, 1234567890, u64::MAX] {
        assert_eq!(decimal_text(n), n.to_string());
    }
    for n in [0, -1, 42, i32::MIN, i32::MAX] {
        assert_eq!(signed_decimal_text(n), n.to_string());
    }
    assert_eq!(nine_digits(0), "000000000");
    assert_eq!(nine_digits(120034), "000120034");
    assert_eq!(nine_digits(999999999), "999999999");
}

#[test]
fn numbers_are_read_like_the_standard_library_reads_them() {
    for s in ["", "+", "-", "0", "+7", "-7", "007", "8", "777", "37777777777", "40000000000", "1 "] {
        assert_eq!(parse_number(s, 8), u32::from_str_radix(s, 8).ok(), "{s}");
        assert_eq!(parse_number(s, 10), s.parse::<u32>().ok(), "{s}");
    }
}

#[test]
fn text_is_counted_and_repeated() {
    assert_eq!(count_char("/a/b/", '/'), 3);
    assert_eq!(repeat_text("../", 2), "../../");
    assert_eq!(repeat_text("../", 0), "");
}

#[test]
fn spans_compare_by_length() {
    let a = Span { secs: 1, nanos: 0 };
    let b = Span { secs: 0, nanos: 1_500_000_000 };
    assert!(b.longer_than(a) && !a.longer_than(b) && !a.longer_than(a));
    assert!(Span::from_secs(0).is_zero() && !b.is_zero());
}

#[test]
fn debugging_implies_the_foreground() {
    let plain = FsOptions::default();
    let debug = FsOptions { debug: true, ..FsOptions::default() };
    assert_eq!(run_mode(false, false, &plain), RunMode { debug: false, foreground: false });
    assert_eq!(run_mode(false, true, &plain), RunMode { debug: false, foreground: true });
    assert_eq!(run_mode(true, false, &plain), RunMode { debug: true, foreground: true });
    assert_eq!(run_mode(false, false, &debug), RunMode { debug: true, foreground: true });
    assert_eq!(default_filter(true), "adbfs=debug");
    assert_eq!(default_filter(false), "adbfs=warn");
}

#[test]
fn requests_are_served_on_all_processors_or_one() {
    assert_eq!(thread_count(true, Some(8)), 1);
    assert_eq!(thread_count(false, Some(8)), 8);
    assert_eq!(thread_count(false, None), 4);
}
