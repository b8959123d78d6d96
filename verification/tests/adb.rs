use adbfs::adb::cli::{shell_output, shell_reply, split_lines, to_lines, transfer_reply, AdbCli};
use adbfs::adb::mock::{out, MockAdb};
use adbfs::adb::{AdbDevice, AdbError};

#[test]
fn lines_end_at_line_feeds() {
    assert_eq!(split_lines("a\nb\r\nc"), ["a", "b", "c"]);
    assert_eq!(split_lines("a\r\r\n\n"), ["a", ""]);
    assert_eq!(split_lines("a\rb"), ["a\rb"]);
    assert!(split_lines("").is_empty());
    assert_eq!(split_lines("\n"), [""]);
}

#[test]
fn bytes_that_are_no_text_are_replaced() {
    assert_eq!(to_lines("gr\u{fc}n\n".as_bytes()), ["gr\u{fc}n"]);
    assert_eq!(to_lines(b"a\xffb\nc"), ["a\u{fffd}b", "c"]);
}

#[test]
fn arguments_name_the_device() {
    let any = AdbCli::new(None);
    assert_eq!(any.shell_args("ls '/a'"), ["shell", "ls '/a'"]);
    let one = AdbCli::new(Some("emulator-5554".to_string()));
    assert_eq!(one.shell_args("id"), ["-s", "emulator-5554", "shell", "id"]);
    assert_eq!(one.pull_args("/r", "/l"), ["-s", "emulator-5554", "pull", "/r", "/l"]);
    assert_eq!(one.push_args("/l", "/r"), ["-s", "emulator-5554", "push", "/l", "/r"]);
    assert_eq!(any.push_args("/l", "/r"), ["push", "/l", "/r"]);
    assert_eq!(any.sync_args(), ["shell", "sync"]);
    assert_eq!(any.run_args(vec!["devices".to_string()]), ["devices"]);
}

#[test]
fn silence_and_failure_mean_no_device() {
    assert!(matches!(shell_reply(b"", Some(1)), Err(AdbError::DeviceNotFound)));
    assert!(matches!(shell_reply(b"", None), Err(AdbError::DeviceNotFound)));
    assert!(shell_reply(b"", Some(0)).unwrap().is_empty());
    assert_eq!(shell_reply(b"x\n", Some(1)).unwrap(), ["x"]);
}

#[test]
fn both_streams_are_kept() {
    let output = shell_output(b"a\n", b"b\r\n", None);
    assert_eq!(output.stdout, ["a"]);
    assert_eq!(output.stderr, ["b"]);
    assert_eq!(output.exit_code, -1);
    assert_eq!(shell_output(b"", b"", Some(7)).exit_code, 7);
}

#[test]
fn a_failed_copy_says_why() {
    assert!(transfer_reply(b"", Some(0)).is_ok());
    match transfer_reply(b"no such file", Some(1)) {
        Err(AdbError::CommandFailed { exit_code, stderr }) => {
            assert_eq!((exit_code, stderr.as_str()), (1, "no such file"));
        }
        other => panic!("{other:?}"),
    }
    assert!(matches!(
        transfer_reply(b"", None),
        Err(AdbError::CommandFailed { exit_code: -1, .. })
    ));
}

#[test]
fn the_double_answers_in_order_and_then_with_silence() {
    let mut mock = MockAdb::new(vec![out(&["1"]), Err(AdbError::DeviceNotFound)]);
    assert_eq!(mock.shell("a").unwrap(), ["1"]);
    assert!(mock.shell_with_stderr("b").is_err());
    let silence = mock.shell_with_stderr("c").unwrap();
    assert!(silence.stdout.is_empty() && silence.stderr.is_empty());
    assert_eq!(silence.exit_code, 0);
    assert_eq!(mock.commands(), ["a", "b", "c"]);
}
