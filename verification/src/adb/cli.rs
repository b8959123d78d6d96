//! The `adb` command line: which arguments it is given, and what is made of
//! what it prints.

use crate::adb::{AdbError, ShellOutput};
use crate::text::{chars_of, text_between, texts, without_trailing};
use vstd::prelude::*;
use vstd::utf8::*;

verus! {

/// The text that `String::from_utf8_lossy` makes of bytes.
pub uninterp spec fn lossy(bytes: Seq<u8>) -> Seq<char>;

/// `String::from_utf8_lossy`: bytes that are UTF-8 are decoded as they stand.
/// What stands in for the others is given a name and not spelled out.
#[verifier::external_body]
fn lossy_text(bytes: &[u8]) -> (text: String)
    ensures
        text@ == lossy(bytes@),
        valid_utf8(bytes@) ==> text@ == decode_utf8(bytes@),
{
    String::from_utf8_lossy(bytes).into_owned()
}

/// The text that bytes stand for.
pub open spec fn text_in(bytes: Seq<u8>) -> Seq<char> {
    if valid_utf8(bytes) {
        decode_utf8(bytes)
    } else {
        lossy(bytes)
    }
}

/// The text that a process wrote.
pub fn read_text(bytes: &[u8]) -> (text: String)
    ensures
        text@ == text_in(bytes@),
{
    lossy_text(bytes)
}

/// Where the first line of `s` ends: at its first line feed, or at its end.
pub open spec fn line_end(s: Seq<char>) -> nat
    decreases s.len(),
{
    if s.len() == 0 || s[0] == '\n' {
        0
    } else {
        1 + line_end(s.skip(1))
    }
}

/// The lines of `s`, each without the carriage returns at its end. Line feeds
/// end a line, so that one at the end of `s` opens no further line.
pub open spec fn lines_in(s: Seq<char>) -> Seq<Seq<char>>
    decreases s.len(),
{
    if s.len() == 0 {
        Seq::empty()
    } else {
        let end = line_end(s) as int;
        let line = without_trailing(s.take(end), '\r');
        if end < s.len() {
            seq![line] + lines_in(s.skip(end + 1))
        } else {
            seq![line]
        }
    }
}

/// The arguments of an `adb` call: the device it is meant for, where one was
/// chosen, then the call's own.
pub open spec fn addressed(serial: Option<String>, args: Seq<Seq<char>>) -> Seq<Seq<char>> {
    match serial {
        Some(serial) => seq!["-s"@, serial@] + args,
        None => args,
    }
}

/// The arguments for a shell command on the device.
pub open spec fn shell_call(serial: Option<String>, command: Seq<char>) -> Seq<Seq<char>> {
    addressed(serial, seq!["shell"@, command])
}

/// The arguments for copying `remote` on the device to the local file `local`.
pub open spec fn pull_call(
    serial: Option<String>,
    remote: Seq<char>,
    local: Seq<char>,
) -> Seq<Seq<char>> {
    addressed(serial, seq!["pull"@, remote, local])
}

/// The arguments for copying the local file `local` to `remote` on the device.
pub open spec fn push_call(
    serial: Option<String>,
    local: Seq<char>,
    remote: Seq<char>,
) -> Seq<Seq<char>> {
    addressed(serial, seq!["push"@, local, remote])
}

/// What a shell command came to where `adb` wrote `stdout` and `stderr` and
/// ended with `code`.
pub open spec fn output_read(
    stdout: Seq<u8>,
    stderr: Seq<u8>,
    code: Option<i32>,
    r: ShellOutput,
) -> bool {
    &&& texts(r.stdout@) == lines_in(text_in(stdout))
    &&& texts(r.stderr@) == lines_in(text_in(stderr))
    &&& r.exit_code == reported(code)
}

/// The exit code to report for a process: its own, or -1 where a signal ended
/// it.
pub open spec fn reported(code: Option<i32>) -> i32 {
    match code {
        Some(code) => code,
        None => -1i32,
    }
}

/// The `adb` program, for one device or for the only one there is.
pub struct AdbCli {
    pub serial: Option<String>,
}

impl AdbCli {
    pub fn new(serial: Option<String>) -> (cli: Self)
        ensures
            cli.serial == serial,
    {
        Self { serial }
    }

    /// The arguments with which `adb` is run.
    pub fn run_args(&self, args: Vec<String>) -> (r: Vec<String>)
        ensures
            texts(r@) == addressed(self.serial, texts(args@)),
    {
        match &self.serial {
            Some(serial) => {
                let mut all: Vec<String> = Vec::new();
                all.push("-s".to_owned());
                all.push(serial.clone());
                let ghost head = all@;
                let mut args = args;
                let ghost own = args@;
                all.append(&mut args);
                assert(all@ == head + own);
                assert(texts(all@) =~= addressed(self.serial, texts(own)));
                all
            },
            None => args,
        }
    }

    /// The arguments for a shell command on the device.
    pub fn shell_args(&self, command: &str) -> (r: Vec<String>)
        ensures
            texts(r@) == shell_call(self.serial, command@),
    {
        let mut args: Vec<String> = Vec::new();
        args.push("shell".to_owned());
        args.push(command.to_owned());
        assert(texts(args@) =~= seq!["shell"@, command@]);
        self.run_args(args)
    }

    /// The arguments for flushing the device's writes to storage.
    pub fn sync_args(&self) -> (r: Vec<String>)
        ensures
            texts(r@) == shell_call(self.serial, "sync"@),
    {
        self.shell_args("sync")
    }

    /// The arguments for copying a file from the device.
    pub fn pull_args(&self, remote: &str, local: &str) -> (r: Vec<String>)
        ensures
            texts(r@) == pull_call(self.serial, remote@, local@),
    {
        self.transfer_args("pull", remote, local)
    }

    /// The arguments for copying a file to the device.
    pub fn push_args(&self, local: &str, remote: &str) -> (r: Vec<String>)
        ensures
            texts(r@) == push_call(self.serial, local@, remote@),
    {
        self.transfer_args("push", local, remote)
    }

    /// The arguments for copying a file in the direction that `verb` names.
    fn transfer_args(&self, verb: &str, from: &str, to: &str) -> (r: Vec<String>)
        ensures
            texts(r@) == addressed(self.serial, seq![verb@, from@, to@]),
    {
        let mut args: Vec<String> = Vec::new();
        args.push(verb.to_owned());
        args.push(from.to_owned());
        args.push(to.to_owned());
        assert(texts(args@) =~= seq![verb@, from@, to@]);
        self.run_args(args)
    }
}

/// The lines of a text.
pub fn split_lines(text: &str) -> (lines: Vec<String>)
    ensures
        texts(lines@) == lines_in(text@),
{
    let chars = chars_of(text);
    let mut lines: Vec<String> = Vec::new();
    let mut start: usize = 0;
    assert(chars@.skip(0) == chars@);
    assert(texts(lines@) + lines_in(chars@) =~= lines_in(chars@));
    while start < chars.len()
        invariant
            start <= chars.len(),
            chars@ == text@,
            texts(lines@) + lines_in(chars@.skip(start as int)) == lines_in(chars@),
        decreases chars.len() - start,
    {
        let ghost rest = chars@.skip(start as int);
        let mut end: usize = start;
        assert(rest.skip(0) == rest);
        while end < chars.len() && chars[end] != '\n'
            invariant
                start <= end <= chars.len(),
                rest == chars@.skip(start as int),
                line_end(rest) == end - start + line_end(rest.skip(end - start)),
            decreases chars.len() - end,
        {
            assert(rest.skip(end - start).skip(1) == rest.skip(end + 1 - start));
            end += 1;
        }
        assert(line_end(rest) == end - start);
        let mut to: usize = end;
        assert(rest.take(end - start) == chars@.subrange(start as int, to as int));
        while to > start && chars[to - 1] == '\r'
            invariant
                start <= to <= end <= chars.len(),
                without_trailing(rest.take(end - start), '\r') == without_trailing(
                    chars@.subrange(start as int, to as int),
                    '\r',
                ),
            decreases to,
        {
            assert(chars@.subrange(start as int, to as int).drop_last() == chars@.subrange(
                start as int,
                to - 1,
            ));
            to -= 1;
        }
        let ghost before = lines@;
        let line = text_between(&chars, start, to);
        lines.push(line);
        assert(texts(lines@) =~= texts(before).push(line@));
        if end == chars.len() {
            assert(lines_in(rest) == seq![line@]);
            assert(texts(before) + seq![line@] =~= texts(lines@));
            return lines;
        }
        assert(rest.skip(end - start + 1) == chars@.skip(end + 1));
        assert(texts(before) + (seq![line@] + lines_in(chars@.skip(end + 1))) =~= texts(lines@)
            + lines_in(chars@.skip(end + 1)));
        start = end + 1;
    }
    assert(texts(lines@) + lines_in(chars@.skip(start as int)) =~= texts(lines@));
    lines
}

/// The lines that a process wrote.
pub fn to_lines(bytes: &[u8]) -> (lines: Vec<String>)
    ensures
        texts(lines@) == lines_in(text_in(bytes@)),
{
    let text = read_text(bytes);
    split_lines(text.as_str())
}

/// The exit code to report for a process that ended with `code`.
pub fn exit_code(code: Option<i32>) -> (r: i32)
    ensures
        r == reported(code),
{
    match code {
        Some(code) => code,
        None => -1,
    }
}

/// How a shell command is answered where `adb` wrote `stdout` and ended with
/// `code`.
pub open spec fn shell_replied(
    stdout: Seq<u8>,
    code: Option<i32>,
    r: Result<Vec<String>, AdbError>,
) -> bool {
    match r {
        Ok(lines) => {
            &&& texts(lines@) == lines_in(text_in(stdout))
            &&& lines@.len() > 0 || code == Some(0i32)
        },
        Err(e) => {
            &&& e is DeviceNotFound
            &&& lines_in(text_in(stdout)).len() == 0
            &&& code != Some(0i32)
        },
    }
}

/// How the copying of a file ended where `adb` wrote `stderr` and ended with
/// `code`.
pub open spec fn transferred(stderr: Seq<u8>, code: Option<i32>, r: Result<(), AdbError>) -> bool {
    match r {
        Ok(_) => code == Some(0i32),
        Err(AdbError::CommandFailed { exit_code, stderr: text }) => {
            &&& code != Some(0i32)
            &&& exit_code == reported(code)
            &&& text@ == text_in(stderr)
        },
        Err(_) => false,
    }
}

/// The answer to a shell command, from what `adb` wrote and how it ended.
/// Silence together with a failure means that no device was there.
pub fn shell_reply(stdout: &[u8], code: Option<i32>) -> (r: Result<Vec<String>, AdbError>)
    ensures
        shell_replied(stdout@, code, r),
{
    let lines = to_lines(stdout);
    let ok = match code {
        Some(code) => code == 0,
        None => false,
    };
    assert(texts(lines@).len() == lines@.len());
    if lines.len() == 0 && !ok {
        return Err(AdbError::DeviceNotFound);
    }
    Ok(lines)
}

/// The full answer to a shell command, from what `adb` wrote on both streams
/// and how it ended.
pub fn shell_output(stdout: &[u8], stderr: &[u8], code: Option<i32>) -> (r: ShellOutput)
    ensures
        output_read(stdout@, stderr@, code, r),
{
    ShellOutput {
        stdout: to_lines(stdout),
        stderr: to_lines(stderr),
        exit_code: exit_code(code),
    }
}

/// The outcome of copying a file, from what `adb` wrote and how it ended.
pub fn transfer_reply(stderr: &[u8], code: Option<i32>) -> (r: Result<(), AdbError>)
    ensures
        transferred(stderr@, code, r),
{
    let ok = match code {
        Some(code) => code == 0,
        None => false,
    };
    if !ok {
        return Err(
            AdbError::CommandFailed { exit_code: exit_code(code), stderr: read_text(stderr) },
        );
    }
    Ok(())
}

// ---- laws ----

/// A call is meant for the device with the chosen serial number, which `-s`
/// gives before everything else; without one it is given as it is.
pub proof fn law_calls_are_addressed(serial: String, args: Seq<Seq<char>>)
    ensures
        addressed(None, args) == args,
        addressed(Some(serial), args).len() == args.len() + 2,
        addressed(Some(serial), args)[0] == seq!['-', 's'],
        addressed(Some(serial), args)[1] == serial@,
        addressed(Some(serial), args).skip(2) == args,
{
    reveal_strlit("-s");
    assert("-s"@ =~= seq!['-', 's']);
    assert(addressed(Some(serial), args).skip(2) =~= args);
}

/// A line feed ends a line, and carriage returns before it are not part of it;
/// the rest is read in the same way. What comes after the last line feed is a
/// line where it is anything.
pub proof fn law_text_is_read_line_by_line(line: Seq<char>, rest: Seq<char>)
    requires
        !line.contains('\n'),
    ensures
        lines_in(Seq::empty()) == Seq::<Seq<char>>::empty(),
        lines_in(line + seq!['\n'] + rest) == seq![without_trailing(line, '\r')] + lines_in(rest),
        line.len() > 0 ==> lines_in(line) == seq![without_trailing(line, '\r')],
{
    let text = line + seq!['\n'] + rest;
    lemma_line_end(line, seq!['\n'] + rest);
    assert(text =~= line + (seq!['\n'] + rest));
    assert(text.take(line.len() as int) =~= line);
    assert(text.skip((line.len() + 1) as int) =~= rest);
    lemma_line_end(line, Seq::empty());
    assert(line + Seq::empty() =~= line);
    assert(line.take(line.len() as int) =~= line);
}

proof fn lemma_line_end(line: Seq<char>, rest: Seq<char>)
    requires
        !line.contains('\n'),
        rest.len() > 0 ==> rest[0] == '\n',
    ensures
        line_end(line + rest) == line.len(),
    decreases line.len(),
{
    let text = line + rest;
    if line.len() == 0 {
        assert(text =~= rest);
    } else {
        assert(line.contains(line[0]));
        assert(text[0] == line[0]);
        assert(text.skip(1) =~= line.skip(1) + rest);
        assert(!line.skip(1).contains('\n')) by {
            if line.skip(1).contains('\n') {
                let i = choose|i: int| 0 <= i < line.skip(1).len() && line.skip(1)[i] == '\n';
                assert(line[i + 1] == '\n');
            }
        }
        lemma_line_end(line.skip(1), rest);
    }
}

/// Bytes that are UTF-8 are read as the text they encode.
pub proof fn law_text_is_decoded(bytes: Seq<u8>)
    requires
        valid_utf8(bytes),
    ensures
        text_in(bytes) == decode_utf8(bytes),
{
}

/// A process that ended by itself is reported with its own exit code, one that
/// a signal ended with a code that no process has.
pub proof fn law_exit_codes_are_reported(code: i32)
    ensures
        reported(Some(code)) == code,
        reported(None) == -1,
{
}

/// A shell command that printed anything is answered with its lines, however it
/// ended, and so is one that ended well. Only silence and a failure together
/// mean that there is no device.
pub proof fn law_silence_and_failure_mean_no_device(
    stdout: Seq<u8>,
    code: Option<i32>,
    r: Result<Vec<String>, AdbError>,
)
    requires
        shell_replied(stdout, code, r),
    ensures
        r is Err <==> lines_in(text_in(stdout)).len() == 0 && code != Some(0i32),
        r matches Ok(lines) ==> texts(lines@) == lines_in(text_in(stdout)),
        r matches Err(e) ==> e is DeviceNotFound,
{
    if let Ok(lines) = r {
        assert(texts(lines@).len() == lines@.len());
    }
}

/// A file was copied where `adb` ended with zero; otherwise the failure has the
/// code that it ended with and all that it wrote.
pub proof fn law_a_transfer_ends_with_zero(
    stderr: Seq<u8>,
    code: Option<i32>,
    r: Result<(), AdbError>,
)
    requires
        transferred(stderr, code, r),
    ensures
        r is Ok <==> code == Some(0i32),
        r matches Err(e) ==> (e matches AdbError::CommandFailed { exit_code, stderr: text }
            && text@ == text_in(stderr) && (code matches Some(c) ==> exit_code == c)),
{
}

/// A shell command is handed to the device whole, as one argument. A pull names
/// the path on the device first and the local file last, a push the other way
/// round. With a serial number both come behind it.
pub proof fn law_calls_name_what_they_copy(
    serial: String,
    command: Seq<char>,
    remote: Seq<char>,
    local: Seq<char>,
)
    ensures
        shell_call(None, command) == seq!["shell"@, command],
        pull_call(None, remote, local) == seq!["pull"@, remote, local],
        push_call(None, local, remote) == seq!["push"@, local, remote],
        shell_call(Some(serial), command) == seq!["-s"@, serial@, "shell"@, command],
        pull_call(Some(serial), remote, local) == seq!["-s"@, serial@, "pull"@, remote, local],
        push_call(Some(serial), local, remote) == seq!["-s"@, serial@, "push"@, local, remote],
{
    assert(shell_call(Some(serial), command) =~= seq!["-s"@, serial@, "shell"@, command]);
    assert(pull_call(Some(serial), remote, local) =~= seq![
        "-s"@,
        serial@,
        "pull"@,
        remote,
        local,
    ]);
    assert(push_call(Some(serial), local, remote) =~= seq![
        "-s"@,
        serial@,
        "push"@,
        local,
        remote,
    ]);
}

/// Each stream is read on its own, line by line, and the exit code is the
/// process's.
pub proof fn law_streams_are_kept_apart(
    stdout: Seq<u8>,
    stderr: Seq<u8>,
    code: i32,
    r: ShellOutput,
)
    requires
        output_read(stdout, stderr, Some(code), r),
    ensures
        texts(r.stdout@) == lines_in(text_in(stdout)),
        texts(r.stderr@) == lines_in(text_in(stderr)),
        r.exit_code == code,
{
}

} // verus!
