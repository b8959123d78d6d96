//! File operations on the device, each a shell command and what is made of
//! the answer.

use crate::adb::{continued, AdbDevice, AdbError, Exchange, ShellOutput};
use crate::escape::{
    begun, is_plain, law_path_round_trips, lemma_backtick_word, lemma_plain_word,
    lemma_quoted_word, lemma_space, path_escaped, quoted, shell_escape_path, shell_word,
    shell_words, words_from, Reading,
};
use crate::parse::{
    after, extract_filename, is_valid_ls_output, law_a_text_parts_at_the_pattern,
    law_links_lead_back_to_the_root, lemma_first_at, meta_in, mode_in, name_in, parse_ls_line,
    parse_symlink_target, rerooted, FileMeta, MetaView,
};
use crate::sys::Errno;
use crate::text::{
    all_digits, chars_of, count_char, count_of, decimal, decimal_text, digit_value, digits_value,
    ends_with, find_from, first_at, last_index, law_decimal_reads_back,
    law_nine_digits_hold_the_nanoseconds, law_padding_keeps_the_value, lower, lower_text,
    nine_digits, occurs, occurs_at, signed_decimal, signed_decimal_text, starts_with, text_between, texts,
    trim, trimmed, zero_padded,
};
use crate::time::FileTime;
use vstd::prelude::*;
use vstd::string::*;

verus! {

/// Why an operation on the device failed.
#[derive(Debug)]
pub enum DeviceError {
    NoDevice,
    PermissionDenied { path: String },
    NotFound { path: String },
    NotSupported,
    /// A command on the device reported a failure. `errno` is the translation
    /// of the device's own error message, so callers see `ENOTEMPTY`, `EEXIST`
    /// and the like, and not a blanket `EIO`.
    Failed { errno: Errno, message: String },
    Adb(AdbError),
}

/// What a [`DeviceError`] says.
pub enum Fault {
    NoDevice,
    PermissionDenied { path: Seq<char> },
    NotFound { path: Seq<char> },
    NotSupported,
    Failed { errno: Errno, message: Seq<char> },
    Adb(AdbError),
}

impl View for DeviceError {
    type V = Fault;

    open spec fn view(&self) -> Fault {
        match *self {
            DeviceError::NoDevice => Fault::NoDevice,
            DeviceError::PermissionDenied { path } => Fault::PermissionDenied { path: path@ },
            DeviceError::NotFound { path } => Fault::NotFound { path: path@ },
            DeviceError::NotSupported => Fault::NotSupported,
            DeviceError::Failed { errno, message } => Fault::Failed { errno, message: message@ },
            DeviceError::Adb(e) => Fault::Adb(e),
        }
    }
}

/// What a result shows, on either side.
pub open spec fn shown<T: View>(r: Result<T, DeviceError>) -> Result<T::V, Fault> {
    match r {
        Ok(value) => Ok(value@),
        Err(e) => Err(e@),
    }
}

/// What a result without a value shows.
pub open spec fn ended(r: Result<(), DeviceError>) -> Result<(), Fault> {
    match r {
        Ok(_) => Ok(()),
        Err(e) => Err(e@),
    }
}

/// The error that a failure is reported as.
pub open spec fn fault_errno(fault: Fault) -> Errno {
    match fault {
        Fault::NoDevice => Errno::EAGAIN,
        Fault::PermissionDenied { .. } => Errno::EACCES,
        Fault::NotFound { .. } => Errno::ENOENT,
        Fault::NotSupported => Errno::ENOSYS,
        Fault::Failed { errno, .. } => errno,
        Fault::Adb(_) => Errno::EIO,
    }
}

/// A failure in words.
pub open spec fn fault_words(fault: Fault) -> Seq<char> {
    match fault {
        Fault::NoDevice => "no device connected"@,
        Fault::PermissionDenied { path } => "permission denied: "@ + path,
        Fault::NotFound { path } => "file not found: "@ + path,
        Fault::NotSupported => "not supported"@,
        Fault::Failed { message, .. } => message,
        Fault::Adb(e) => e.words(),
    }
}

impl DeviceError {
    pub fn to_errno(&self) -> (errno: Errno)
        ensures
            errno == fault_errno(self@),
    {
        match self {
            DeviceError::NoDevice => Errno::EAGAIN,
            DeviceError::PermissionDenied { .. } => Errno::EACCES,
            DeviceError::NotFound { .. } => Errno::ENOENT,
            DeviceError::NotSupported => Errno::ENOSYS,
            DeviceError::Failed { errno, .. } => *errno,
            DeviceError::Adb(_) => Errno::EIO,
        }
    }

    /// The failure in words.
    pub fn message(&self) -> (r: String)
        ensures
            r@ == fault_words(self@),
    {
        match self {
            DeviceError::NoDevice => "no device connected".to_owned(),
            DeviceError::PermissionDenied { path } => {
                let mut r = "permission denied: ".to_owned();
                r.append(path.as_str());
                r
            },
            DeviceError::NotFound { path } => {
                let mut r = "file not found: ".to_owned();
                r.append(path.as_str());
                r
            },
            DeviceError::NotSupported => "not supported".to_owned(),
            DeviceError::Failed { message, .. } => message.clone(),
            DeviceError::Adb(e) => e.message(),
        }
    }
}

// ---- messages ----

/// The errno whose `strerror` text a lower-case message ends with.
pub open spec fn errno_at_end(lower: Seq<char>) -> Option<Errno> {
    if "permission denied"@.is_suffix_of(lower) {
        Some(Errno::EACCES)
    } else if "operation not permitted"@.is_suffix_of(lower) {
        Some(Errno::EPERM)
    } else if "no such file or directory"@.is_suffix_of(lower) {
        Some(Errno::ENOENT)
    } else if "directory not empty"@.is_suffix_of(lower) {
        Some(Errno::ENOTEMPTY)
    } else if "file exists"@.is_suffix_of(lower) {
        Some(Errno::EEXIST)
    } else if "read-only file system"@.is_suffix_of(lower) {
        Some(Errno::EROFS)
    } else if "is a directory"@.is_suffix_of(lower) {
        Some(Errno::EISDIR)
    } else if "not a directory"@.is_suffix_of(lower) {
        Some(Errno::ENOTDIR)
    } else if "cross-device link"@.is_suffix_of(lower) {
        Some(Errno::EXDEV)
    } else if "no space left on device"@.is_suffix_of(lower) {
        Some(Errno::ENOSPC)
    } else if "device or resource busy"@.is_suffix_of(lower) {
        Some(Errno::EBUSY)
    } else if "file name too long"@.is_suffix_of(lower) {
        Some(Errno::ENAMETOOLONG)
    } else if "invalid argument"@.is_suffix_of(lower) {
        Some(Errno::EINVAL)
    } else {
        None
    }
}

/// The errno that a device's message stands for, whatever its case. toybox,
/// toolbox and busybox word the start of a message differently, and all of
/// them end it with the `strerror` text, so the match is on that tail.
pub open spec fn message_errno(message: Seq<char>) -> Errno {
    match errno_at_end(message.map_values(|c: char| lower(c))) {
        Some(errno) => errno,
        None => Errno::EIO,
    }
}

/// Translates a device error message to an errno.
pub fn errno_for_message(message: &str) -> (errno: Errno)
    ensures
        errno == message_errno(message@),
{
    let text = lower_text(message);
    let lower = text.as_str();
    if ends_with(lower, "permission denied") {
        Errno::EACCES
    } else if ends_with(lower, "operation not permitted") {
        Errno::EPERM
    } else if ends_with(lower, "no such file or directory") {
        Errno::ENOENT
    } else if ends_with(lower, "directory not empty") {
        Errno::ENOTEMPTY
    } else if ends_with(lower, "file exists") {
        Errno::EEXIST
    } else if ends_with(lower, "read-only file system") {
        Errno::EROFS
    } else if ends_with(lower, "is a directory") {
        Errno::EISDIR
    } else if ends_with(lower, "not a directory") {
        Errno::ENOTDIR
    } else if ends_with(lower, "cross-device link") {
        Errno::EXDEV
    } else if ends_with(lower, "no space left on device") {
        Errno::ENOSPC
    } else if ends_with(lower, "device or resource busy") {
        Errno::EBUSY
    } else if ends_with(lower, "file name too long") {
        Errno::ENAMETOOLONG
    } else if ends_with(lower, "invalid argument") {
        Errno::EINVAL
    } else {
        Errno::EIO
    }
}

/// The first line that is not blank, without the white space around it.
pub open spec fn first_not_blank(lines: Seq<Seq<char>>) -> Option<Seq<char>>
    decreases lines.len(),
{
    if lines.len() == 0 {
        None
    } else if trimmed(lines[0]).len() > 0 {
        Some(trimmed(lines[0]))
    } else {
        first_not_blank(lines.skip(1))
    }
}

/// What the device had to say: the first line on standard error that is not
/// blank, or else on standard output, since devices without shell protocol v2
/// fold one into the other.
pub open spec fn message_in(output: ShellOutput) -> Option<Seq<char>> {
    first_not_blank(texts(output.stderr@) + texts(output.stdout@))
}

/// The first line in a list that is not blank, trimmed.
fn find_not_blank(lines: &Vec<String>) -> (r: Option<String>)
    ensures
        (match r {
            Some(line) => first_not_blank(texts(lines@)) == Some(line@),
            None => first_not_blank(texts(lines@)) is None,
        }),
        forall|more: Seq<Seq<char>>|
            #[trigger] first_not_blank(texts(lines@) + more) == (match r {
                Some(line) => Some(line@),
                None => first_not_blank(more),
            }),
{
    let mut i: usize = 0;
    assert(texts(lines@).skip(0) == texts(lines@));
    while i < lines.len()
        invariant
            i <= lines.len(),
            first_not_blank(texts(lines@).skip(i as int)) == first_not_blank(texts(lines@)),
            forall|more: Seq<Seq<char>>|
                #[trigger] first_not_blank(texts(lines@) + more) == first_not_blank(
                    texts(lines@).skip(i as int) + more,
                ),
        decreases lines.len() - i,
    {
        let line = trim(lines[i].as_str());
        let ghost rest = texts(lines@).skip(i as int);
        assert(rest[0] == lines@[i as int]@);
        assert(rest.skip(1) == texts(lines@).skip(i + 1));
        let found = line.as_str().unicode_len() > 0;
        proof {
            assert forall|more: Seq<Seq<char>>|
                #[trigger] first_not_blank(texts(lines@) + more) == (if found {
                    Some(line@)
                } else {
                    first_not_blank(rest.skip(1) + more)
                }) by {
                assert((rest + more)[0] == rest[0]);
                assert((rest + more).skip(1) == rest.skip(1) + more);
            }
        }
        if found {
            return Some(line);
        }
        i += 1;
    }
    proof {
        let rest = texts(lines@).skip(i as int);
        assert forall|more: Seq<Seq<char>>|
            #[trigger] first_not_blank(texts(lines@) + more) == first_not_blank(more) by {
            assert(rest + more == more);
        }
    }
    None
}

/// The first non-blank line the device wrote, on either stream.
pub fn first_message(output: &ShellOutput) -> (r: Option<String>)
    ensures
        (match r {
            Some(message) => message_in(*output) == Some(message@),
            None => message_in(*output) is None,
        }),
{
    match find_not_blank(&output.stderr) {
        Some(message) => Some(message),
        None => find_not_blank(&output.stdout),
    }
}

// ---- what is made of an answer ----

/// `at` is the last place of `c` in `s`.
pub open spec fn last_at(s: Seq<char>, c: char, at: int) -> bool {
    &&& 0 <= at < s.len()
    &&& s[at] == c
    &&& forall|j: int| at < j < s.len() ==> s[j] != c
}

/// The file that a message such as `lstat '//efs' failed: Permission denied`
/// is about: what stands between its last slash and the first quote with a
/// space behind it.
pub open spec fn denied_name(line: Seq<char>) -> Option<Seq<char>> {
    if line.contains('/') && occurs(line, "' "@) {
        let slash = choose|at: int| last_at(line, '/', at);
        let end = choose|at: int| first_at(line, "' "@, at);
        if slash < end {
            Some(line.subrange(slash + 1, end))
        } else {
            None
        }
    } else {
        None
    }
}

pub fn extract_name_from_perm_error(line: &str) -> (r: Option<String>)
    ensures
        (match r {
            Some(name) => denied_name(line@) == Some(name@),
            None => denied_name(line@) is None,
        }),
{
    let chars = chars_of(line);
    let quote = chars_of("' ");
    let slash = match last_index(&chars, '/') {
        Some(at) => at,
        None => {
            return None;
        },
    };
    let end = match find_from(&chars, &quote, 0) {
        Some(at) => at,
        None => {
            return None;
        },
    };
    proof {
        assert(line@[slash as int] == '/');
        let chosen = choose|at: int| last_at(line@, '/', at);
        assert(last_at(line@, '/', slash as int));
        assert(last_at(line@, '/', chosen));
        assert(chosen == slash);
        let first = choose|at: int| first_at(line@, quote@, at);
        assert(first_at(line@, quote@, end as int));
        assert(first_at(line@, quote@, first));
        assert(first == end);
    }
    if slash < end {
        Some(text_between(&chars, slash + 1, end))
    } else {
        None
    }
}

/// What the answer to a query for one file says of it.
pub open spec fn described(path: Seq<char>, output: ShellOutput) -> Result<MetaView, Fault> {
    let lines = texts(
        if output.stdout@.len() == 0 && output.stderr@.len() > 0 {
            output.stderr@
        } else {
            output.stdout@
        },
    );
    if lines.len() == 0 {
        Err(Fault::NoDevice)
    } else if ": Permission denied"@.is_suffix_of(lines[0]) {
        Err(Fault::PermissionDenied { path })
    } else {
        match meta_in(lines[0]) {
            Some(meta) => Ok(meta),
            None => Err(Fault::NotFound { path }),
        }
    }
}

/// What the answer to a query for one file says of it. `ls` writes its errors
/// on standard error where the device keeps the streams apart.
pub fn metadata_from(path: &str, output: &ShellOutput) -> (r: Result<FileMeta, DeviceError>)
    ensures
        shown(r) == described(path@, *output),
{
    let lines = if output.stdout.len() == 0 && output.stderr.len() > 0 {
        &output.stderr
    } else {
        &output.stdout
    };
    assert(texts(lines@).len() == lines@.len());
    if lines.len() == 0 {
        return Err(DeviceError::NoDevice);
    }
    let first = lines[0].as_str();
    assert(texts(lines@)[0] == first@);
    if ends_with(first, ": Permission denied") {
        return Err(DeviceError::PermissionDenied { path: path.to_owned() });
    }
    match parse_ls_line(first) {
        Some(meta) => Ok(meta),
        None => Err(DeviceError::NotFound { path: path.to_owned() }),
    }
}

/// The target of the link at `path`, from its line, as it is to be read below
/// the mount point.
pub open spec fn linked(path: Seq<char>, line: Seq<char>) -> Result<Seq<char>, Fault> {
    match after(line, " -> "@) {
        Some(target) => Ok(rerooted(target, count_of(path, '/'))),
        None => Err(Fault::NotSupported),
    }
}

/// The entry that a line of a directory listing stands for. A file that may
/// not be looked at has a name and nothing else.
pub open spec fn entry_in(line: Seq<char>) -> Option<(Seq<char>, Option<MetaView>)> {
    if mode_in(line) is None {
        if ": Permission denied"@.is_suffix_of(line) {
            match denied_name(line) {
                Some(name) => Some((name, None)),
                None => None,
            }
        } else {
            None
        }
    } else {
        match name_in(line) {
            Some(name) => Some((name, meta_in(line))),
            None => None,
        }
    }
}

/// The entries of a directory listing, in order.
pub open spec fn entries_in(lines: Seq<Seq<char>>) -> Seq<(Seq<char>, Option<MetaView>)>
    decreases lines.len(),
{
    if lines.len() == 0 {
        Seq::empty()
    } else {
        let before = entries_in(lines.drop_last());
        match entry_in(lines.last()) {
            Some(entry) => before.push(entry),
            None => before,
        }
    }
}

/// What one entry of a listing says.
pub open spec fn entry_view(entry: (String, Option<FileMeta>)) -> (Seq<char>, Option<MetaView>) {
    (
        entry.0@,
        match entry.1 {
            Some(meta) => Some(meta@),
            None => None,
        },
    )
}

/// What the entries of a listing say.
pub open spec fn entry_views(entries: Seq<(String, Option<FileMeta>)>) -> Seq<
    (Seq<char>, Option<MetaView>),
> {
    entries.map_values(|e: (String, Option<FileMeta>)| entry_view(e))
}

/// The entry that a line of a directory listing stands for.
fn entry_from(line: &str) -> (r: Option<(String, Option<FileMeta>)>)
    ensures
        (match r {
            Some(entry) => entry_in(line@) == Some(entry_view(entry)),
            None => entry_in(line@) is None,
        }),
{
    if !is_valid_ls_output(line) {
        if ends_with(line, ": Permission denied") {
            match extract_name_from_perm_error(line) {
                Some(name) => Some((name, None)),
                None => None,
            }
        } else {
            None
        }
    } else {
        match extract_filename(line) {
            Some(name) => Some((name, parse_ls_line(line))),
            None => None,
        }
    }
}

/// The entries of a directory listing.
pub fn entries_from(lines: &Vec<String>) -> (entries: Vec<(String, Option<FileMeta>)>)
    ensures
        entry_views(entries@) == entries_in(texts(lines@)),
{
    let mut entries: Vec<(String, Option<FileMeta>)> = Vec::new();
    let mut i: usize = 0;
    assert(entry_views(entries@) =~= entries_in(texts(lines@).take(0)));
    while i < lines.len()
        invariant
            i <= lines.len(),
            entry_views(entries@) == entries_in(texts(lines@).take(i as int)),
        decreases lines.len() - i,
    {
        let ghost before = entries@;
        assert(texts(lines@).take(i + 1).drop_last() == texts(lines@).take(i as int));
        assert(texts(lines@).take(i + 1).last() == lines@[i as int]@);
        match entry_from(lines[i].as_str()) {
            Some(entry) => {
                entries.push(entry);
                assert(entry_views(entries@) =~= entry_views(before).push(entry_view(entry)));
            },
            None => {},
        }
        i += 1;
    }
    assert(texts(lines@).take(i as int) == texts(lines@));
    entries
}

/// What the answer to a command that is silent on success says of it. Any line
/// that is printed is a failure: that is the only sign on devices without
/// shell protocol v2, which exit with zero whatever happened.
pub open spec fn mutated(command: Seq<char>, output: ShellOutput) -> Result<(), Fault> {
    match message_in(output) {
        Some(message) => Err(Fault::Failed { errno: message_errno(message), message }),
        None => if output.exit_code != 0 {
            Err(
                Fault::Failed {
                    errno: Errno::EIO,
                    message: "`"@ + command + "` exited with "@ + signed_decimal(
                        output.exit_code as int,
                    ),
                },
            )
        } else {
            Ok(())
        },
    }
}

/// What the answer to a command that is silent on success says of it.
pub fn mutation_from(command: &str, output: &ShellOutput) -> (r: Result<(), DeviceError>)
    ensures
        ended(r) == mutated(command@, *output),
{
    match first_message(output) {
        Some(message) => Err(
            DeviceError::Failed { errno: errno_for_message(message.as_str()), message },
        ),
        None => if output.exit_code != 0 {
            let mut message = "`".to_owned();
            message.append(command);
            message.append("` exited with ");
            let code = signed_decimal_text(output.exit_code);
            message.append(code.as_str());
            Err(DeviceError::Failed { errno: Errno::EIO, message })
        } else {
            Ok(())
        },
    }
}

/// What comes after a `touch`.
pub enum Touched {
    /// The times are set.
    Done,
    /// The device does not understand the date; it is to be asked again in the
    /// older form.
    Retry,
    Failed(DeviceError),
}

/// A message by which toybox or busybox refuses a date.
pub open spec fn refuses_date(message: Seq<char>) -> bool {
    "touch: bad '@"@.is_prefix_of(message) || "touch: invalid date '@"@.is_prefix_of(message)
}

/// Whether a `touch` in the newer form of date is to be made again in the
/// older one.
pub open spec fn touch_again(output: ShellOutput, gnu: bool) -> bool {
    &&& gnu
    &&& message_in(output) matches Some(message)
    &&& refuses_date(message)
}

/// What the answer to a `touch` says of it, where it is not to be made again.
pub open spec fn touched(output: ShellOutput) -> Result<(), Fault> {
    match message_in(output) {
        Some(message) => if refuses_date(message) {
            Err(Fault::NotSupported)
        } else {
            Err(Fault::Failed { errno: message_errno(message), message })
        },
        None => Ok(()),
    }
}

/// What the answer to a `touch` says of it.
pub fn touch_from(output: &ShellOutput, gnu: bool) -> (r: Touched)
    ensures
        (match r {
            Touched::Retry => touch_again(*output, gnu),
            Touched::Done => !touch_again(*output, gnu) && touched(*output) == Ok::<(), Fault>(()),
            Touched::Failed(e) => !touch_again(*output, gnu) && touched(*output) == Err::<
                (),
                Fault,
            >(e@),
        }),
{
    match first_message(output) {
        Some(message) => {
            let refused = starts_with(message.as_str(), "touch: bad '@") || starts_with(
                message.as_str(),
                "touch: invalid date '@",
            );
            if refused {
                if gnu {
                    Touched::Retry
                } else {
                    Touched::Failed(DeviceError::NotSupported)
                }
            } else {
                Touched::Failed(
                    DeviceError::Failed { errno: errno_for_message(message.as_str()), message },
                )
            }
        },
        None => Touched::Done,
    }
}

// ---- the commands ----

/// The query for one file.
pub open spec fn metadata_command(path: Seq<char>) -> Seq<char> {
    "ls -l -a -d "@ + quoted(path)
}

/// The query for the entries of a directory.
pub open spec fn list_command(path: Seq<char>) -> Seq<char> {
    "ls -l -a "@ + quoted(path)
}

pub open spec fn mkdir_command(path: Seq<char>) -> Seq<char> {
    "mkdir "@ + quoted(path)
}

pub open spec fn rm_command(path: Seq<char>) -> Seq<char> {
    "rm "@ + quoted(path)
}

pub open spec fn rmdir_command(path: Seq<char>) -> Seq<char> {
    "rmdir "@ + quoted(path)
}

pub open spec fn mv_command(from: Seq<char>, to: Seq<char>) -> Seq<char> {
    "mv "@ + quoted(from) + " "@ + quoted(to)
}

/// A path as the media scanner takes it: quoted, as a `file` URL.
pub open spec fn quoted_url(path: Seq<char>) -> Seq<char> {
    "'file://"@ + path_escaped(path) + "'"@
}

/// The command that has the media scanner look at a file again.
pub open spec fn scan_command(path: Seq<char>) -> Seq<char> {
    "am broadcast -a android.intent.action.MEDIA_SCANNER_SCAN_FILE -d "@ + quoted_url(path)
}

/// The command that tells the media scanner that a directory is gone.
pub open spec fn unmounted_command(path: Seq<char>) -> Seq<char> {
    "am broadcast -a android.intent.action.MEDIA_UNMOUNTED -d "@ + quoted_url(path)
}

/// A time as `touch -d` takes it: seconds and nanoseconds since the epoch, or
/// in the older form a date that the device's own `date` makes of them.
pub open spec fn touch_time(time: FileTime, gnu: bool) -> Seq<char> {
    let (secs, nanos) = time.elapsed();
    let stamp = "@"@ + decimal(secs as nat) + "."@ + zero_padded(decimal(nanos as nat), 9);
    if gnu {
        stamp
    } else {
        "`date -ud "@ + stamp + " +%Y-%m-%dT%H:%M:%S`"@
    }
}

/// One `touch`: `which` is `-a` for the time of access or `-m` for that of
/// modification.
pub open spec fn touch_part(
    which: Seq<char>,
    path: Seq<char>,
    time: FileTime,
    gnu: bool,
) -> Seq<char> {
    "touch "@ + which + " -d "@ + touch_time(time, gnu) + " "@ + quoted(path)
}

/// The command that sets the times that are given; at least one is.
pub open spec fn touch_command(
    path: Seq<char>,
    atime: Option<FileTime>,
    mtime: Option<FileTime>,
    gnu: bool,
) -> Seq<char> {
    match (atime, mtime) {
        (Some(at), Some(mt)) => touch_part("-a"@, path, at, gnu) + " && "@ + touch_part(
            "-m"@,
            path,
            mt,
            gnu,
        ),
        (Some(at), None) => touch_part("-a"@, path, at, gnu),
        (None, Some(mt)) => touch_part("-m"@, path, mt, gnu),
        (None, None) => Seq::empty(),
    }
}

/// `command`, then the path in quotes.
fn with_path(command: &str, path: &str) -> (r: String)
    ensures
        r@ == command@ + quoted(path@),
{
    let mut r = command.to_owned();
    r.append("'");
    let escaped = shell_escape_path(path);
    r.append(escaped.as_str());
    r.append("'");
    proof {
        reveal_strlit("'");
        assert(r@ =~= command@ + quoted(path@));
    }
    r
}

pub fn format_touch_time(time: FileTime, gnu_format: bool) -> (r: String)
    ensures
        r@ == touch_time(time, gnu_format),
{
    let (secs, nanos) = time.since_epoch();
    let mut stamp = "@".to_owned();
    let secs_text = decimal_text(secs);
    stamp.append(secs_text.as_str());
    stamp.append(".");
    let nanos_text = nine_digits(nanos);
    stamp.append(nanos_text.as_str());
    if gnu_format {
        stamp
    } else {
        let mut r = "`date -ud ".to_owned();
        r.append(stamp.as_str());
        r.append(" +%Y-%m-%dT%H:%M:%S`");
        r
    }
}

fn touch_one(which: &str, path: &str, time: FileTime, gnu: bool) -> (r: String)
    ensures
        r@ == touch_part(which@, path@, time, gnu),
{
    let mut head = "touch ".to_owned();
    head.append(which);
    head.append(" -d ");
    let when = format_touch_time(time, gnu);
    head.append(when.as_str());
    head.append(" ");
    with_path(head.as_str(), path)
}

fn touch_text(
    path: &str,
    atime: Option<FileTime>,
    mtime: Option<FileTime>,
    gnu: bool,
) -> (r: String)
    ensures
        r@ == touch_command(path@, atime, mtime, gnu),
{
    match (atime, mtime) {
        (Some(at), Some(mt)) => {
            let mut r = touch_one("-a", path, at, gnu);
            r.append(" && ");
            let second = touch_one("-m", path, mt, gnu);
            r.append(second.as_str());
            r
        },
        (Some(at), None) => touch_one("-a", path, at, gnu),
        (None, Some(mt)) => touch_one("-m", path, mt, gnu),
        (None, None) => String::new(),
    }
}

/// `command`, then the path as a quoted `file` URL.
fn with_url(command: &str, path: &str) -> (r: String)
    ensures
        r@ == command@ + quoted_url(path@),
{
    let mut r = command.to_owned();
    r.append("'file://");
    let escaped = shell_escape_path(path);
    r.append(escaped.as_str());
    r.append("'");
    assert(r@ =~= command@ + quoted_url(path@));
    r
}

// ---- the calls that an operation makes ----

/// `after` is `before` and one more call, the shell command `command`.
pub open spec fn asked(
    before: Seq<Exchange>,
    after: Seq<Exchange>,
    command: Seq<char>,
) -> bool {
    &&& after.len() == before.len() + 1
    &&& after.drop_last() == before
    &&& after.last() matches Exchange::Run { command: c, .. }
    &&& c == command
}

/// The answer to the last call, where that was a command whose streams were
/// both kept.
pub open spec fn answer(history: Seq<Exchange>) -> Result<ShellOutput, AdbError> {
    history.last()->output
}

/// From the call at `from` on, the media scanner is told by `commands`, up to
/// the first that does not get through, and nothing else is called.
pub open spec fn notified(
    history: Seq<Exchange>,
    from: int,
    commands: Seq<Seq<char>>,
    result: Result<(), Fault>,
) -> bool
    decreases commands.len(),
{
    if commands.len() == 0 {
        &&& history.len() == from
        &&& result is Ok
    } else {
        &&& 0 <= from < history.len()
        &&& match history[from] {
            Exchange::Shell { command, lines } => {
                &&& command == commands[0]
                &&& match lines {
                    Ok(_) => notified(history, from + 1, commands.skip(1), result),
                    Err(e) => history.len() == from + 1 && result == Err::<(), Fault>(
                        Fault::Adb(e),
                    ),
                }
            },
            _ => false,
        }
    }
}

/// `after` is `before` and then `command`; where that succeeded, the media
/// scanner is told by `notices`.
pub open spec fn performed(
    before: Seq<Exchange>,
    after: Seq<Exchange>,
    command: Seq<char>,
    notices: Seq<Seq<char>>,
    result: Result<(), Fault>,
) -> bool {
    let from = before.len() as int;
    &&& from < after.len()
    &&& after.take(from) == before
    &&& match after[from] {
        Exchange::Run { command: c, output } => {
            &&& c == command
            &&& match output {
                Ok(output) => match mutated(command, output) {
                    Ok(_) => notified(after, from + 1, notices, result),
                    Err(fault) => after.len() == from + 1 && result == Err::<(), Fault>(fault),
                },
                Err(e) => after.len() == from + 1 && result == Err::<(), Fault>(Fault::Adb(e)),
            }
        },
        _ => false,
    }
}

/// The commands that tell the media scanner about `paths`, where it is to be
/// told.
pub open spec fn scans(rescan: bool, paths: Seq<Seq<char>>) -> Seq<Seq<char>> {
    if rescan {
        paths.map_values(|p: Seq<char>| scan_command(p))
    } else {
        Seq::empty()
    }
}

/// From the call at `from` on, the times of `path` are set: first in the newer
/// form of date, where the device is still thought to understand it, then in
/// the older one. `gnu_after` says which form is used from then on.
pub open spec fn times_set(
    history: Seq<Exchange>,
    from: int,
    path: Seq<char>,
    atime: Option<FileTime>,
    mtime: Option<FileTime>,
    gnu: bool,
    rescan: bool,
    result: Result<(), Fault>,
    gnu_after: bool,
) -> bool
    decreases (if gnu {
        1int
    } else {
        0int
    }),
{
    &&& 0 <= from < history.len()
    &&& match history[from] {
        Exchange::Run { command, output } => {
            &&& command == touch_command(path, atime, mtime, gnu)
            &&& match output {
                Ok(output) => if touch_again(output, gnu) {
                    gnu && times_set(
                        history,
                        from + 1,
                        path,
                        atime,
                        mtime,
                        false,
                        rescan,
                        result,
                        gnu_after,
                    )
                } else {
                    &&& gnu_after == gnu
                    &&& match touched(output) {
                        Ok(_) => notified(history, from + 1, scans(rescan, seq![path]), result),
                        Err(fault) => history.len() == from + 1 && result == Err::<(), Fault>(
                            fault,
                        ),
                    }
                },
                Err(e) => {
                    &&& gnu_after == gnu
                    &&& history.len() == from + 1
                    &&& result == Err::<(), Fault>(Fault::Adb(e))
                },
            }
        },
        _ => false,
    }
}

/// What is known of the tools on a device.
pub struct ResolvedCompat {}

impl ResolvedCompat {
    pub fn legacy() -> (r: Self) {
        Self {  }
    }
}

/// File operations on one device.
pub struct DeviceOps<D: AdbDevice> {
    pub adb: D,
    pub compat: ResolvedCompat,
    /// Whether `touch` is thought to take seconds since the epoch.
    pub touch_gnu_mode: bool,
    /// Whether the media scanner is told about changes.
    pub rescan: bool,
}

impl<D: AdbDevice> DeviceOps<D> {
    /// Nothing has changed but how far the device has come.
    pub open spec fn same_settings(&self, other: &Self) -> bool {
        &&& continued(other.adb, self.adb)
        &&& self.compat == other.compat
        &&& self.touch_gnu_mode == other.touch_gnu_mode
        &&& self.rescan == other.rescan
    }

    pub fn new(adb: D, compat: ResolvedCompat) -> (ops: Self)
        ensures
            ops.adb == adb,
            ops.compat == compat,
            ops.touch_gnu_mode,
            !ops.rescan,
    {
        Self { adb, compat, touch_gnu_mode: true, rescan: false }
    }

    pub fn with_rescan(self, rescan: bool) -> (ops: Self)
        ensures
            ops == (Self { rescan, ..self }),
    {
        let mut ops = self;
        ops.rescan = rescan;
        ops
    }

    /// What the device says of one file.
    pub fn get_metadata(&mut self, path: &str) -> (r: Result<FileMeta, DeviceError>)
        ensures
            final(self).same_settings(old(self)),
            asked(
                old(self).adb.history(),
                final(self).adb.history(),
                metadata_command(path@),
            ),
            shown(r) == (match answer(final(self).adb.history()) {
                Ok(output) => described(path@, output),
                Err(e) => Err(Fault::Adb(e)),
            }),
    {
        let cmd = with_path("ls -l -a -d ", path);
        let ghost before = self.adb.history();
        let reply = self.adb.shell_with_stderr(cmd.as_str());
        assert(self.adb.history().drop_last() =~= before);
        match reply {
            Ok(output) => metadata_from(path, &output),
            Err(e) => Err(DeviceError::Adb(e)),
        }
    }

    /// The entries of a directory, in the order in which the device lists them.
    pub fn list_dir(&mut self, path: &str) -> (r: Result<
        Vec<(String, Option<FileMeta>)>,
        DeviceError,
    >)
        ensures
            final(self).same_settings(old(self)),
            final(self).adb.history().len() == old(self).adb.history().len() + 1,
            final(self).adb.history().drop_last() == old(self).adb.history(),
            (match final(self).adb.history().last() {
                Exchange::Shell { command, lines } => {
                    &&& command == list_command(path@)
                    &&& match (lines, r) {
                        (Ok(lines), Ok(entries)) => entry_views(entries@) == entries_in(
                            texts(lines@),
                        ),
                        (Err(e), Err(fault)) => fault@ == Fault::Adb(e),
                        _ => false,
                    }
                },
                _ => false,
            }),
    {
        let cmd = with_path("ls -l -a ", path);
        let ghost before = self.adb.history();
        let reply = self.adb.shell(cmd.as_str());
        assert(self.adb.history().drop_last() =~= before);
        match reply {
            Ok(lines) => Ok(entries_from(&lines)),
            Err(e) => Err(DeviceError::Adb(e)),
        }
    }

    /// The target of the link at `path`, from its line, as it is to be read
    /// below the mount point.
    pub fn resolve_symlink(&self, path: &str, raw_line: &str) -> (r: Result<String, DeviceError>)
        ensures
            shown(r) == linked(path@, raw_line@),
    {
        let num_slashes = count_char(path, '/');
        match parse_symlink_target(raw_line, num_slashes) {
            Some(target) => Ok(target),
            None => Err(DeviceError::NotSupported),
        }
    }

    /// Sets the times that are given. A device that does not understand
    /// seconds since the epoch is asked again with a date, and from then on
    /// gets dates.
    pub fn touch(
        &mut self,
        path: &str,
        atime: Option<FileTime>,
        mtime: Option<FileTime>,
    ) -> (r: Result<(), DeviceError>)
        ensures
            continued(old(self).adb, final(self).adb),
            final(self).compat == old(self).compat,
            final(self).rescan == old(self).rescan,
            atime is None && mtime is None ==> {
                &&& r is Ok
                &&& *final(self) == *old(self)
            },
            atime is Some || mtime is Some ==> {
                let from = old(self).adb.history().len() as int;
                &&& from <= final(self).adb.history().len()
                &&& final(self).adb.history().take(from) == old(self).adb.history()
                &&& times_set(
                    final(self).adb.history(),
                    from,
                    path@,
                    atime,
                    mtime,
                    old(self).touch_gnu_mode,
                    old(self).rescan,
                    ended(r),
                    final(self).touch_gnu_mode,
                )
            },
        decreases (if old(self).touch_gnu_mode {
            1int
        } else {
            0int
        }),
    {
        if atime.is_none() && mtime.is_none() {
            return Ok(());
        }
        let gnu = self.touch_gnu_mode;
        let cmd = touch_text(path, atime, mtime, gnu);
        let ghost before = self.adb.history();
        let reply = self.adb.shell_with_stderr(cmd.as_str());
        let ghost asked_once = self.adb.history();
        assert(asked_once.take(before.len() as int) =~= before);
        let output = match reply {
            Ok(output) => output,
            Err(e) => {
                return Err(DeviceError::Adb(e));
            },
        };
        match touch_from(&output, gnu) {
            Touched::Failed(e) => Err(e),
            Touched::Retry => {
                self.touch_gnu_mode = false;
                let r = self.touch(path, atime, mtime);
                assert(self.adb.history()[before.len() as int] == asked_once[before.len() as int])
                    by {
                    assert(self.adb.history().take(asked_once.len() as int)[before.len() as int]
                        == asked_once[before.len() as int]);
                }
                assert(self.adb.history().take(before.len() as int) =~= before) by {
                    assert(self.adb.history().take(before.len() as int) =~= self.adb.history().take(
                        asked_once.len() as int,
                    ).take(before.len() as int));
                }
                r
            },
            Touched::Done => {
                if self.rescan {
                    let r = self.rescan_file(path);
                    proof {
                        lemma_notified_once(
                            asked_once,
                            self.adb.history(),
                            scan_command(path@),
                            ended(r),
                        );
                        assert(scans(true, seq![path@]) =~= seq![scan_command(path@)]);
                        assert(self.adb.history().take(before.len() as int) =~= before);
                    }
                    r
                } else {
                    Ok(())
                }
            },
        }
    }

    pub fn mkdir(&mut self, path: &str) -> (r: Result<(), DeviceError>)
        ensures
            final(self).same_settings(old(self)),
            performed(
                old(self).adb.history(),
                final(self).adb.history(),
                mkdir_command(path@),
                Seq::empty(),
                ended(r),
            ),
    {
        let cmd = with_path("mkdir ", path);
        self.run_mutation(cmd.as_str())
    }

    pub fn rm(&mut self, path: &str) -> (r: Result<(), DeviceError>)
        ensures
            final(self).same_settings(old(self)),
            performed(
                old(self).adb.history(),
                final(self).adb.history(),
                rm_command(path@),
                scans(old(self).rescan, seq![path@]),
                ended(r),
            ),
    {
        let cmd = with_path("rm ", path);
        let ghost before = self.adb.history();
        match self.run_mutation(cmd.as_str()) {
            Ok(()) => {},
            Err(e) => {
                return Err(e);
            },
        }
        let ghost done = self.adb.history();
        if self.rescan {
            let r = self.rescan_file(path);
            proof {
                lemma_notified_once(done, self.adb.history(), scan_command(path@), ended(r));
                assert(scans(true, seq![path@]) =~= seq![scan_command(path@)]);
                assert(self.adb.history().take(before.len() as int) =~= before);
            }
            return r;
        }
        Ok(())
    }

    pub fn rmdir(&mut self, path: &str) -> (r: Result<(), DeviceError>)
        ensures
            final(self).same_settings(old(self)),
            performed(
                old(self).adb.history(),
                final(self).adb.history(),
                rmdir_command(path@),
                (if old(self).rescan {
                    seq![unmounted_command(path@)]
                } else {
                    Seq::empty()
                }),
                ended(r),
            ),
    {
        let cmd = with_path("rmdir ", path);
        let ghost before = self.adb.history();
        match self.run_mutation(cmd.as_str()) {
            Ok(()) => {},
            Err(e) => {
                return Err(e);
            },
        }
        let ghost done = self.adb.history();
        if self.rescan {
            let r = self.rescan_dir_removed(path);
            proof {
                lemma_notified_once(done, self.adb.history(), unmounted_command(path@), ended(r));
                assert(self.adb.history().take(before.len() as int) =~= before);
            }
            return r;
        }
        Ok(())
    }

    pub fn mv(&mut self, from: &str, to: &str) -> (r: Result<(), DeviceError>)
        ensures
            final(self).same_settings(old(self)),
            performed(
                old(self).adb.history(),
                final(self).adb.history(),
                mv_command(from@, to@),
                scans(old(self).rescan, seq![from@, to@]),
                ended(r),
            ),
    {
        let mut head = with_path("mv ", from);
        head.append(" ");
        let cmd = with_path(head.as_str(), to);
        let ghost before = self.adb.history();
        match self.run_mutation(cmd.as_str()) {
            Ok(()) => {},
            Err(e) => {
                return Err(e);
            },
        }
        let ghost done = self.adb.history();
        if self.rescan {
            let first = self.rescan_file(from);
            let ghost told = self.adb.history();
            let ghost notices = scans(true, seq![from@, to@]);
            assert(notices =~= seq![scan_command(from@), scan_command(to@)]);
            assert(notices.skip(1) =~= seq![scan_command(to@)]);
            assert(told.take(before.len() as int) =~= before);
            match first {
                Ok(()) => {},
                Err(e) => {
                    return Err(e);
                },
            }
            let r = self.rescan_file(to);
            proof {
                lemma_notified_once(told, self.adb.history(), scan_command(to@), ended(r));
                assert(self.adb.history().take(before.len() as int) =~= before);
            }
            return r;
        }
        Ok(())
    }

    /// Runs a command that is silent on success.
    fn run_mutation(&mut self, cmd: &str) -> (r: Result<(), DeviceError>)
        ensures
            final(self).same_settings(old(self)),
            final(self).adb.history().len() == old(self).adb.history().len() + 1,
            performed(
                old(self).adb.history(),
                final(self).adb.history(),
                cmd@,
                Seq::empty(),
                ended(r),
            ),
    {
        let ghost before = self.adb.history();
        let reply = self.adb.shell_with_stderr(cmd);
        assert(self.adb.history().take(before.len() as int) =~= before);
        match reply {
            Ok(output) => mutation_from(cmd, &output),
            Err(e) => Err(DeviceError::Adb(e)),
        }
    }

    /// Copies a file from the device.
    pub fn pull(&mut self, remote: &str, local: &str) -> (r: Result<(), DeviceError>)
        ensures
            final(self).same_settings(old(self)),
            final(self).adb.history().len() == old(self).adb.history().len() + 1,
            final(self).adb.history().drop_last() == old(self).adb.history(),
            (match final(self).adb.history().last() {
                Exchange::Pull { remote: a, local: b, done } => {
                    &&& a == remote@
                    &&& b == local@
                    &&& ended(r) == wrapped(done)
                },
                _ => false,
            }),
    {
        let ghost before = self.adb.history();
        let reply = self.adb.pull(remote, local);
        assert(self.adb.history().drop_last() =~= before);
        match reply {
            Ok(()) => Ok(()),
            Err(e) => Err(DeviceError::Adb(e)),
        }
    }

    /// Copies a file to the device.
    pub fn push(&mut self, local: &str, remote: &str) -> (r: Result<(), DeviceError>)
        ensures
            final(self).same_settings(old(self)),
            final(self).adb.history().len() == old(self).adb.history().len() + 1,
            final(self).adb.history().drop_last() == old(self).adb.history(),
            (match final(self).adb.history().last() {
                Exchange::Push { local: a, remote: b, done } => {
                    &&& a == local@
                    &&& b == remote@
                    &&& ended(r) == wrapped(done)
                },
                _ => false,
            }),
    {
        let ghost before = self.adb.history();
        let reply = self.adb.push(local, remote);
        assert(self.adb.history().drop_last() =~= before);
        match reply {
            Ok(()) => Ok(()),
            Err(e) => Err(DeviceError::Adb(e)),
        }
    }

    /// Has the device flush its writes to storage.
    pub fn sync_device(&mut self) -> (r: Result<(), DeviceError>)
        ensures
            final(self).same_settings(old(self)),
            final(self).adb.history().len() == old(self).adb.history().len() + 1,
            final(self).adb.history().drop_last() == old(self).adb.history(),
            (match final(self).adb.history().last() {
                Exchange::Sync { done } => ended(r) == wrapped(done),
                _ => false,
            }),
    {
        let ghost before = self.adb.history();
        let reply = self.adb.sync_device();
        assert(self.adb.history().drop_last() =~= before);
        match reply {
            Ok(()) => Ok(()),
            Err(e) => Err(DeviceError::Adb(e)),
        }
    }

    // `am broadcast` prints the intent it sent on success, so what these print
    // is no sign of failure.

    fn rescan_file(&mut self, path: &str) -> (r: Result<(), DeviceError>)
        ensures
            final(self).same_settings(old(self)),
            told(old(self).adb.history(), final(self).adb.history(), scan_command(path@), ended(r)),
    {
        let cmd = with_url("am broadcast -a android.intent.action.MEDIA_SCANNER_SCAN_FILE -d ", path);
        let ghost before = self.adb.history();
        let reply = self.adb.shell(cmd.as_str());
        assert(self.adb.history().drop_last() =~= before);
        match reply {
            Ok(_) => Ok(()),
            Err(e) => Err(DeviceError::Adb(e)),
        }
    }

    fn rescan_dir_removed(&mut self, path: &str) -> (r: Result<(), DeviceError>)
        ensures
            final(self).same_settings(old(self)),
            told(
                old(self).adb.history(),
                final(self).adb.history(),
                unmounted_command(path@),
                ended(r),
            ),
    {
        let cmd = with_url("am broadcast -a android.intent.action.MEDIA_UNMOUNTED -d ", path);
        let ghost before = self.adb.history();
        let reply = self.adb.shell(cmd.as_str());
        assert(self.adb.history().drop_last() =~= before);
        match reply {
            Ok(_) => Ok(()),
            Err(e) => Err(DeviceError::Adb(e)),
        }
    }
}

/// The outcome of a call as the outcome of an operation.
pub open spec fn wrapped(done: Result<(), AdbError>) -> Result<(), Fault> {
    match done {
        Ok(_) => Ok(()),
        Err(e) => Err(Fault::Adb(e)),
    }
}

/// `after` is `before` and one more call, `command`, of which only whether it
/// got through matters.
pub open spec fn told(
    before: Seq<Exchange>,
    after: Seq<Exchange>,
    command: Seq<char>,
    result: Result<(), Fault>,
) -> bool {
    &&& after.len() == before.len() + 1
    &&& after.drop_last() == before
    &&& match after.last() {
        Exchange::Shell { command: c, lines } => {
            &&& c == command
            &&& result == match lines {
                Ok(_) => Ok::<(), Fault>(()),
                Err(e) => Err(Fault::Adb(e)),
            }
        },
        _ => false,
    }
}

proof fn lemma_notified_once(
    before: Seq<Exchange>,
    after: Seq<Exchange>,
    command: Seq<char>,
    result: Result<(), Fault>,
)
    requires
        told(before, after, command, result),
    ensures
        notified(after, before.len() as int, seq![command], result),
        forall|i: int| 0 <= i < before.len() ==> #[trigger] after[i] == before[i],
        forall|i: int| 0 <= i <= before.len() ==> #[trigger] after.take(i) == before.take(i),
{
    reveal_with_fuel(notified, 3);
    assert forall|i: int| 0 <= i < before.len() implies #[trigger] after[i] == before[i] by {
        assert(after.drop_last()[i] == after[i]);
    }
    assert forall|i: int| 0 <= i <= before.len() implies #[trigger] after.take(i)
        == before.take(i) by {
        assert(after.take(i) =~= before.take(i));
    }
}

// ---- laws ----

/// A command that is silent on success has failed if and only if it printed
/// something or exited with another code than zero.
pub proof fn law_silence_is_success(command: Seq<char>, output: ShellOutput)
    ensures
        mutated(command, output) is Ok <==> message_in(output) is None && output.exit_code == 0,
{
}

/// What the device failed at is always reported by a name, and so never as the
/// number zero, which would read as success.
pub proof fn law_failures_have_a_name(command: Seq<char>, path: Seq<char>, output: ShellOutput)
    ensures
        mutated(command, output) matches Err(fault) ==> !(fault_errno(fault) is Os),
        touched(output) matches Err(fault) ==> !(fault_errno(fault) is Os),
        described(path, output) matches Err(fault) ==> !(fault_errno(fault) is Os),
{
}

/// The texts by which a message is known.
spec fn is_known_text(text: Seq<char>) -> bool {
    ||| text == "permission denied"@
    ||| text == "operation not permitted"@
    ||| text == "no such file or directory"@
    ||| text == "directory not empty"@
    ||| text == "file exists"@
    ||| text == "read-only file system"@
    ||| text == "is a directory"@
    ||| text == "not a directory"@
    ||| text == "cross-device link"@
    ||| text == "no space left on device"@
    ||| text == "device or resource busy"@
    ||| text == "file name too long"@
    ||| text == "invalid argument"@
}

/// No known text is the end of another: their last characters, or those
/// thirteen places from the end, differ.
proof fn lemma_known_texts_differ(a: Seq<char>, b: Seq<char>)
    requires
        is_known_text(a),
        is_known_text(b),
        a.is_suffix_of(b),
    ensures
        a == b,
{
    reveal_strlit("permission denied");
    reveal_strlit("operation not permitted");
    reveal_strlit("no such file or directory");
    reveal_strlit("directory not empty");
    reveal_strlit("file exists");
    reveal_strlit("read-only file system");
    reveal_strlit("is a directory");
    reveal_strlit("not a directory");
    reveal_strlit("cross-device link");
    reveal_strlit("no space left on device");
    reveal_strlit("device or resource busy");
    reveal_strlit("file name too long");
    reveal_strlit("invalid argument");
    let shift = b.len() - a.len();
    let end = b.subrange(shift, b.len() as int);
    assert(end[a.len() - 1] == b[b.len() - 1]);
    if a.len() >= 13 {
        assert(end[a.len() - 13] == b[b.len() - 13]);
    }
}

proof fn lemma_same_end(start: Seq<char>, end: Seq<char>, known: Seq<char>, text: Seq<char>)
    requires
        is_known_text(known),
        is_known_text(text),
        known.is_suffix_of(end),
    ensures
        text.is_suffix_of(start + end) == text.is_suffix_of(end),
{
    let all = start + end;
    if text.len() <= end.len() {
        assert(all.subrange(all.len() - text.len(), all.len() as int) =~= end.subrange(
            end.len() - text.len(),
            end.len() as int,
        ));
    } else if text.is_suffix_of(all) {
        assert(text.subrange(text.len() - known.len(), text.len() as int) =~= end.subrange(
            end.len() - known.len(),
            end.len() as int,
        ));
        lemma_known_texts_differ(known, text);
    }
}

/// How a message starts, the path that it is about included, does not matter
/// where its end is known.
pub proof fn law_the_end_of_a_message_decides(start: Seq<char>, end: Seq<char>)
    requires
        errno_at_end(end.map_values(|c: char| lower(c))) is Some,
    ensures
        message_errno(start + end) == message_errno(end),
{
    let low = |s: Seq<char>| s.map_values(|c: char| lower(c));
    assert(low(start + end) =~= low(start) + low(end));
    let start = low(start);
    let end = low(end);
    let known = if "permission denied"@.is_suffix_of(end) {
        "permission denied"@
    } else if "operation not permitted"@.is_suffix_of(end) {
        "operation not permitted"@
    } else if "no such file or directory"@.is_suffix_of(end) {
        "no such file or directory"@
    } else if "directory not empty"@.is_suffix_of(end) {
        "directory not empty"@
    } else if "file exists"@.is_suffix_of(end) {
        "file exists"@
    } else if "read-only file system"@.is_suffix_of(end) {
        "read-only file system"@
    } else if "is a directory"@.is_suffix_of(end) {
        "is a directory"@
    } else if "not a directory"@.is_suffix_of(end) {
        "not a directory"@
    } else if "cross-device link"@.is_suffix_of(end) {
        "cross-device link"@
    } else if "no space left on device"@.is_suffix_of(end) {
        "no space left on device"@
    } else if "device or resource busy"@.is_suffix_of(end) {
        "device or resource busy"@
    } else if "file name too long"@.is_suffix_of(end) {
        "file name too long"@
    } else {
        "invalid argument"@
    };
    lemma_same_end(start, end, known, "permission denied"@);
    lemma_same_end(start, end, known, "operation not permitted"@);
    lemma_same_end(start, end, known, "no such file or directory"@);
    lemma_same_end(start, end, known, "directory not empty"@);
    lemma_same_end(start, end, known, "file exists"@);
    lemma_same_end(start, end, known, "read-only file system"@);
    lemma_same_end(start, end, known, "is a directory"@);
    lemma_same_end(start, end, known, "not a directory"@);
    lemma_same_end(start, end, known, "cross-device link"@);
    lemma_same_end(start, end, known, "no space left on device"@);
    lemma_same_end(start, end, known, "device or resource busy"@);
    lemma_same_end(start, end, known, "file name too long"@);
    lemma_same_end(start, end, known, "invalid argument"@);
}

/// The case of a device's message does not matter.
pub proof fn law_messages_are_read_in_any_case(a: Seq<char>, b: Seq<char>)
    requires
        a.len() == b.len(),
        forall|i: int| 0 <= i < a.len() ==> lower(#[trigger] a[i]) == lower(b[i]),
    ensures
        message_errno(a) == message_errno(b),
{
    assert(a.map_values(|c: char| lower(c)) =~= b.map_values(|c: char| lower(c)));
}

/// The shell on the device reads the URL that the media scanner is given back
/// as one word, the path behind `file://`, whatever characters the path holds.
pub proof fn law_url_round_trips(path: Seq<char>)
    ensures
        shell_word(quoted_url(path)) == Some("file://"@ + path),
{
    reveal_strlit("'file://");
    reveal_strlit("file://");
    reveal_strlit("'");
    let url = "file://"@ + path;
    lemma_plain_prefix("file://"@, path);
    assert(quoted_url(path) =~= quoted(url));
    law_path_round_trips(url);
}

/// Text without quotes needs no escape.
proof fn lemma_plain_prefix(plain: Seq<char>, path: Seq<char>)
    requires
        forall|i: int| 0 <= i < plain.len() ==> plain[i] != '\'',
    ensures
        path_escaped(plain + path) == plain + path_escaped(path),
    decreases plain.len(),
{
    if plain.len() == 0 {
        assert(plain + path =~= path);
        assert(plain + path_escaped(path) =~= path_escaped(path));
    } else {
        lemma_plain_prefix(plain.skip(1), path);
        assert((plain + path).skip(1) =~= plain.skip(1) + path);
        assert(seq![plain[0]] + (plain.skip(1) + path_escaped(path)) =~= plain + path_escaped(path));
    }
}

/// A device that has refused a date is given the older form from then on.
pub proof fn law_touch_form_does_not_come_back(
    history: Seq<Exchange>,
    from: int,
    path: Seq<char>,
    atime: Option<FileTime>,
    mtime: Option<FileTime>,
    gnu: bool,
    rescan: bool,
    result: Result<(), Fault>,
    gnu_after: bool,
)
    requires
        times_set(history, from, path, atime, mtime, gnu, rescan, result, gnu_after),
    ensures
        gnu_after ==> gnu,
        (answer(history.take(from + 1)) matches Ok(output) && touch_again(output, gnu))
            ==> !gnu_after,
    decreases (if gnu {
        1int
    } else {
        0int
    }),
{
    reveal_with_fuel(times_set, 3);
    assert(history.take(from + 1).last() == history[from]);
}

// ---- what the device is asked to do ----

/// One more plain word and the space behind it.
proof fn lemma_next_word(plain: Seq<char>, rest: Seq<char>, done: Seq<Seq<char>>)
    requires
        is_plain(plain),
        plain.len() > 0,
    ensures
        words_from(plain + seq![' '] + rest, Reading::Bare, None, done) == words_from(
            rest,
            Reading::Bare,
            None,
            done.push(plain),
        ),
{
    assert(plain + seq![' '] + rest =~= plain + (seq![' '] + rest));
    lemma_plain_word(plain, seq![' '] + rest, None, done);
    assert(begun(None) + plain =~= plain);
    lemma_space(rest, plain, done);
}

/// A path at the end of a command is its last word.
proof fn lemma_last_path(path: Seq<char>, done: Seq<Seq<char>>)
    ensures
        words_from(quoted(path), Reading::Bare, None, done) == Some(done.push(path)),
{
    lemma_quoted_word(path, Seq::empty(), done);
    assert(quoted(path) + Seq::empty() =~= quoted(path));
}

/// A plain word, then a path.
proof fn lemma_verb_and_path(verb: Seq<char>, path: Seq<char>)
    requires
        is_plain(verb),
        verb.len() > 0,
    ensures
        shell_words(verb + seq![' '] + quoted(path)) == Some(seq![verb, path]),
{
    lemma_next_word(verb, quoted(path), Seq::empty());
    lemma_last_path(path, Seq::empty().push(verb));
    assert(Seq::empty().push(verb).push(path) =~= seq![verb, path]);
}

/// A rename gives the device three words: `mv`, the path that the file has, and
/// the path that it gets, whatever characters the two hold.
pub proof fn law_rename_moves_the_first_to_the_second(from: Seq<char>, to: Seq<char>)
    ensures
        shell_words(mv_command(from, to)) == Some(seq!["mv"@, from, to]),
{
    reveal_strlit("mv ");
    reveal_strlit("mv");
    reveal_strlit(" ");
    let rest = quoted(from) + (seq![' '] + quoted(to));
    assert(mv_command(from, to) =~= "mv"@ + seq![' '] + rest);
    let first = Seq::empty().push("mv"@);
    lemma_next_word("mv"@, rest, Seq::empty());
    lemma_quoted_word(from, seq![' '] + quoted(to), first);
    lemma_space(quoted(to), from, first);
    lemma_last_path(to, first.push(from));
    assert(first.push(from).push(to) =~= seq!["mv"@, from, to]);
}

/// Making and removing give the device two words: what to do, and the path.
pub proof fn law_making_and_removing_name_the_path(path: Seq<char>)
    ensures
        shell_words(mkdir_command(path)) == Some(seq!["mkdir"@, path]),
        shell_words(rm_command(path)) == Some(seq!["rm"@, path]),
        shell_words(rmdir_command(path)) == Some(seq!["rmdir"@, path]),
{
    reveal_strlit("mkdir ");
    reveal_strlit("mkdir");
    reveal_strlit("rm ");
    reveal_strlit("rm");
    reveal_strlit("rmdir ");
    reveal_strlit("rmdir");
    lemma_verb_and_path("mkdir"@, path);
    lemma_verb_and_path("rm"@, path);
    lemma_verb_and_path("rmdir"@, path);
    assert(mkdir_command(path) =~= "mkdir"@ + seq![' '] + quoted(path));
    assert(rm_command(path) =~= "rm"@ + seq![' '] + quoted(path));
    assert(rmdir_command(path) =~= "rmdir"@ + seq![' '] + quoted(path));
}

/// The queries are `ls` in its long form with hidden files shown: of the path
/// itself for one file, of what is in it for a directory.
pub proof fn law_queries_list_the_path(path: Seq<char>)
    ensures
        shell_words(metadata_command(path)) == Some(seq!["ls"@, "-l"@, "-a"@, "-d"@, path]),
        shell_words(list_command(path)) == Some(seq!["ls"@, "-l"@, "-a"@, path]),
{
    reveal_strlit("ls -l -a -d ");
    reveal_strlit("ls -l -a ");
    reveal_strlit("ls");
    reveal_strlit("-l");
    reveal_strlit("-a");
    reveal_strlit("-d");
    let gap = seq![' '];
    let last = "-d"@ + gap + quoted(path);
    let none = Seq::<Seq<char>>::empty();
    let three = none.push("ls"@).push("-l"@).push("-a"@);
    assert(metadata_command(path) =~= "ls"@ + gap + ("-l"@ + gap + ("-a"@ + gap + last)));
    assert(list_command(path) =~= "ls"@ + gap + ("-l"@ + gap + ("-a"@ + gap + quoted(path))));
    lemma_next_word("ls"@, "-l"@ + gap + ("-a"@ + gap + last), none);
    lemma_next_word("-l"@, "-a"@ + gap + last, none.push("ls"@));
    lemma_next_word("-a"@, last, none.push("ls"@).push("-l"@));
    lemma_next_word("-d"@, quoted(path), three);
    lemma_last_path(path, three.push("-d"@));
    assert(three.push("-d"@).push(path) =~= seq!["ls"@, "-l"@, "-a"@, "-d"@, path]);
    lemma_next_word("ls"@, "-l"@ + gap + ("-a"@ + gap + quoted(path)), none);
    lemma_next_word("-l"@, "-a"@ + gap + quoted(path), none.push("ls"@));
    lemma_next_word("-a"@, quoted(path), none.push("ls"@).push("-l"@));
    lemma_last_path(path, three);
    assert(three.push(path) =~= seq!["ls"@, "-l"@, "-a"@, path]);
}

proof fn lemma_url_is_quoted(path: Seq<char>)
    ensures
        quoted_url(path) == quoted("file://"@ + path),
{
    reveal_strlit("'file://");
    reveal_strlit("file://");
    reveal_strlit("'");
    lemma_plain_prefix("file://"@, path);
    assert(quoted_url(path) =~= quoted("file://"@ + path));
}

proof fn lemma_broadcast(action: Seq<char>, path: Seq<char>)
    requires
        is_plain(action),
        action.len() > 0,
    ensures
        shell_words("am broadcast -a "@ + action + " -d "@ + quoted_url(path)) == Some(
            seq!["am"@, "broadcast"@, "-a"@, action, "-d"@, "file://"@ + path],
        ),
{
    reveal_strlit("am broadcast -a ");
    reveal_strlit(" -d ");
    reveal_strlit("am");
    reveal_strlit("broadcast");
    reveal_strlit("-a");
    reveal_strlit("-d");
    lemma_url_is_quoted(path);
    let gap = seq![' '];
    let url = "file://"@ + path;
    let d = "-d"@ + gap + quoted(url);
    let c = action + gap + d;
    let b = "-a"@ + gap + c;
    let a = "broadcast"@ + gap + b;
    let none = Seq::<Seq<char>>::empty();
    let two = none.push("am"@).push("broadcast"@);
    let four = two.push("-a"@).push(action);
    assert("am broadcast -a "@ + action + " -d "@ + quoted_url(path) =~= "am"@ + gap + a);
    lemma_next_word("am"@, a, none);
    lemma_next_word("broadcast"@, b, none.push("am"@));
    lemma_next_word("-a"@, c, two);
    lemma_next_word(action, d, two.push("-a"@));
    lemma_next_word("-d"@, quoted(url), four);
    lemma_last_path(url, four.push("-d"@));
    assert(four.push("-d"@).push(url) =~= seq![
        "am"@,
        "broadcast"@,
        "-a"@,
        action,
        "-d"@,
        url,
    ]);
}

/// The media scanner is told by a broadcast, of a file to look at or of a
/// directory that is gone, and is given the path as a URL in one word.
pub proof fn law_broadcasts_name_the_path(path: Seq<char>)
    ensures
        shell_words(scan_command(path)) == Some(
            seq![
                "am"@,
                "broadcast"@,
                "-a"@,
                "android.intent.action.MEDIA_SCANNER_SCAN_FILE"@,
                "-d"@,
                "file://"@ + path,
            ],
        ),
        shell_words(unmounted_command(path)) == Some(
            seq![
                "am"@,
                "broadcast"@,
                "-a"@,
                "android.intent.action.MEDIA_UNMOUNTED"@,
                "-d"@,
                "file://"@ + path,
            ],
        ),
{
    reveal_strlit("am broadcast -a android.intent.action.MEDIA_SCANNER_SCAN_FILE -d ");
    reveal_strlit("am broadcast -a android.intent.action.MEDIA_UNMOUNTED -d ");
    reveal_strlit("android.intent.action.MEDIA_SCANNER_SCAN_FILE");
    reveal_strlit("android.intent.action.MEDIA_UNMOUNTED");
    reveal_strlit("am broadcast -a ");
    reveal_strlit(" -d ");
    let scan = "android.intent.action.MEDIA_SCANNER_SCAN_FILE"@;
    let unmounted = "android.intent.action.MEDIA_UNMOUNTED"@;
    lemma_broadcast(scan, path);
    lemma_broadcast(unmounted, path);
    assert(scan_command(path) =~= "am broadcast -a "@ + scan + " -d "@ + quoted_url(path));
    assert(unmounted_command(path) =~= "am broadcast -a "@ + unmounted + " -d "@ + quoted_url(
        path,
    ));
}

/// A time is given as the seconds since the epoch, a point, and nine digits of
/// nanoseconds; in the older form the device's `date` makes a date of that. A
/// time before the epoch is given as the epoch.
pub proof fn law_times_are_seconds_and_nanoseconds(time: FileTime, gnu: bool)
    requires
        time.nanos < 1_000_000_000,
    ensures
        time.secs >= 0 ==> exists|secs: Seq<char>, nanos: Seq<char>|
            {
                &&& touch_time(time, true) == #[trigger] (seq!['@'] + secs + seq!['.'] + nanos)
                &&& secs.len() > 0 && all_digits(secs, 10)
                &&& digits_value(secs, 10) == time.secs
                &&& nanos.len() == 9 && all_digits(nanos, 10)
                &&& digits_value(nanos, 10) == time.nanos
            },
        time.secs < 0 ==> touch_time(time, gnu) == touch_time(FileTime { secs: 0, nanos: 0 }, gnu),
        touch_time(time, false) == "`date -ud "@ + touch_time(time, true)
            + " +%Y-%m-%dT%H:%M:%S`"@,
{
    if time.secs >= 0 {
        reveal_strlit("@");
        reveal_strlit(".");
        let secs = decimal(time.secs as nat);
        let nanos = zero_padded(decimal(time.nanos as nat), 9);
        law_decimal_reads_back(time.secs as nat);
        law_nine_digits_hold_the_nanoseconds(time.nanos as nat);
        assert(touch_time(time, true) =~= seq!['@'] + secs + seq!['.'] + nanos);
    }
}

/// A time is one word of the shell.
proof fn lemma_time_is_a_word(time: FileTime, gnu: bool, rest: Seq<char>, done: Seq<Seq<char>>)
    ensures
        words_from(touch_time(time, gnu) + seq![' '] + rest, Reading::Bare, None, done)
            == words_from(rest, Reading::Bare, None, done.push(touch_time(time, gnu))),
{
    reveal_strlit("@");
    reveal_strlit(".");
    let (secs, nanos) = time.elapsed();
    let a = decimal(secs as nat);
    let b = zero_padded(decimal(nanos as nat), 9);
    law_decimal_reads_back(secs as nat);
    law_decimal_reads_back(nanos as nat);
    law_padding_keeps_the_value(decimal(nanos as nat), 9);
    let stamp = "@"@ + a + "."@ + b;
    assert forall|i: int| 0 <= i < stamp.len() implies (#[trigger] stamp[i]) != ' ' && stamp[i]
        != '\'' && stamp[i] != '`' && stamp[i] != '\\' by {
        if 1 <= i < 1 + a.len() {
            assert(stamp[i] == a[i - 1]);
            assert(digit_value(a[i - 1], 10) is Some);
        } else if i > 1 + a.len() {
            assert(stamp[i] == b[i - 2 - a.len()]);
            assert(digit_value(b[i - 2 - a.len()], 10) is Some);
        }
    }
    if gnu {
        lemma_next_word(stamp, rest, done);
    } else {
        reveal_strlit("`date -ud ");
        reveal_strlit("date -ud ");
        reveal_strlit(" +%Y-%m-%dT%H:%M:%S`");
        reveal_strlit(" +%Y-%m-%dT%H:%M:%S");
        let inner = "date -ud "@ + stamp + " +%Y-%m-%dT%H:%M:%S"@;
        let word = seq!['`'] + inner + seq!['`'];
        assert(touch_time(time, gnu) =~= word);
        assert forall|i: int| 0 <= i < inner.len() implies inner[i] != '`' by {
            if 9 <= i < 9 + stamp.len() {
                assert(inner[i] == stamp[i - 9]);
            }
        }
        assert(touch_time(time, gnu) + seq![' '] + rest =~= word + (seq![' '] + rest));
        lemma_backtick_word(inner, seq![' '] + rest, done);
        lemma_space(rest, word, done);
    }
}

/// The words of one `touch`, after others and before what follows.
proof fn lemma_touch_part(
    which: Seq<char>,
    path: Seq<char>,
    time: FileTime,
    gnu: bool,
    rest: Seq<char>,
    done: Seq<Seq<char>>,
)
    requires
        is_plain(which),
        which.len() > 0,
    ensures
        words_from(touch_part(which, path, time, gnu) + rest, Reading::Bare, None, done)
            == words_from(
            rest,
            Reading::Bare,
            Some(path),
            done + seq!["touch"@, which, "-d"@, touch_time(time, gnu)],
        ),
{
    reveal_strlit("touch ");
    reveal_strlit("touch");
    reveal_strlit(" -d ");
    reveal_strlit("-d");
    reveal_strlit(" ");
    let gap = seq![' '];
    let t = touch_time(time, gnu);
    let d = quoted(path) + rest;
    let c = t + gap + d;
    let b = "-d"@ + gap + c;
    let a = which + gap + b;
    assert(touch_part(which, path, time, gnu) + rest =~= "touch"@ + gap + a);
    lemma_next_word("touch"@, a, done);
    let one = done.push("touch"@);
    lemma_next_word(which, b, one);
    lemma_next_word("-d"@, c, one.push(which));
    let three = one.push(which).push("-d"@);
    lemma_time_is_a_word(time, gnu, d, three);
    lemma_quoted_word(path, rest, three.push(t));
    assert(three.push(t) =~= done + seq!["touch"@, which, "-d"@, t]);
}

/// Setting times gives the device a `touch` for each that is given: `-a` with
/// the time of access, `-m` with that of modification, both on the path, the
/// second only where the first went through.
#[verifier::rlimit(40)]
pub proof fn law_touch_sets_each_time_of_the_path(
    path: Seq<char>,
    at: FileTime,
    mt: FileTime,
    gnu: bool,
)
    ensures
        shell_words(touch_command(path, Some(at), None, gnu)) == Some(
            seq!["touch"@, "-a"@, "-d"@, touch_time(at, gnu), path],
        ),
        shell_words(touch_command(path, None, Some(mt), gnu)) == Some(
            seq!["touch"@, "-m"@, "-d"@, touch_time(mt, gnu), path],
        ),
        shell_words(touch_command(path, Some(at), Some(mt), gnu)) == Some(
            seq!["touch"@, "-a"@, "-d"@, touch_time(at, gnu), path, "&&"@]
                + seq!["touch"@, "-m"@, "-d"@, touch_time(mt, gnu), path],
        ),
{
    reveal_strlit("-a");
    reveal_strlit("-m");
    reveal_strlit(" && ");
    reveal_strlit("&&");
    let none = Seq::<Seq<char>>::empty();
    let nothing = Seq::<char>::empty();
    let a = seq!["touch"@, "-a"@, "-d"@, touch_time(at, gnu)];
    let m = seq!["touch"@, "-m"@, "-d"@, touch_time(mt, gnu)];
    let first = touch_part("-a"@, path, at, gnu);
    let second = touch_part("-m"@, path, mt, gnu);
    lemma_touch_part("-a"@, path, at, gnu, nothing, none);
    lemma_touch_part("-m"@, path, mt, gnu, nothing, none);
    assert(first + nothing =~= first);
    assert(second + nothing =~= second);
    assert((none + a).push(path) =~= seq!["touch"@, "-a"@, "-d"@, touch_time(at, gnu), path]);
    assert((none + m).push(path) =~= seq!["touch"@, "-m"@, "-d"@, touch_time(mt, gnu), path]);
    let gap = seq![' '];
    let rest = gap + ("&&"@ + gap + second);
    assert(touch_command(path, Some(at), Some(mt), gnu) =~= first + rest);
    lemma_touch_part("-a"@, path, at, gnu, rest, none);
    lemma_space("&&"@ + gap + second, path, none + a);
    let five = (none + a).push(path);
    lemma_next_word("&&"@, second, five);
    lemma_touch_part("-m"@, path, mt, gnu, nothing, five.push("&&"@));
    assert((five.push("&&"@) + m).push(path) =~= seq![
        "touch"@,
        "-a"@,
        "-d"@,
        touch_time(at, gnu),
        path,
        "&&"@,
    ] + seq!["touch"@, "-m"@, "-d"@, touch_time(mt, gnu), path]);
}

// ---- what is made of what the device says ----

/// A failure without a message of its own has a fixed number: no device to ask
/// again later, no permission, no such file, not supported, and an error of
/// input and output where `adb` itself failed. Otherwise it is the message's.
pub proof fn law_failures_are_reported_as(
    path: Seq<char>,
    errno: Errno,
    message: Seq<char>,
    e: AdbError,
)
    ensures
        fault_errno(Fault::NoDevice) == Errno::EAGAIN,
        fault_errno(Fault::PermissionDenied { path }) == Errno::EACCES,
        fault_errno(Fault::NotFound { path }) == Errno::ENOENT,
        fault_errno(Fault::NotSupported) == Errno::ENOSYS,
        fault_errno(Fault::Failed { errno, message }) == errno,
        fault_errno(Fault::Adb(e)) == Errno::EIO,
{
}

proof fn lemma_low_ends(start: Seq<char>, text: Seq<char>)
    requires
        forall|i: int| 0 <= i < text.len() ==> lower(#[trigger] text[i]) == text[i],
    ensures
        text.is_suffix_of((start + text).map_values(|c: char| lower(c))),
{
    let low = (start + text).map_values(|c: char| lower(c));
    assert(low.subrange(low.len() - text.len(), low.len() as int) =~= text);
}

/// Each text of the C library that a message may end with stands for its error,
/// whatever comes before it.
pub proof fn law_known_messages_have_their_errors(start: Seq<char>, text: Seq<char>)
    ensures
        text == "permission denied"@ ==> message_errno(start + text) == Errno::EACCES,
        text == "operation not permitted"@ ==> message_errno(start + text) == Errno::EPERM,
        text == "no such file or directory"@ ==> message_errno(start + text) == Errno::ENOENT,
        text == "directory not empty"@ ==> message_errno(start + text) == Errno::ENOTEMPTY,
        text == "file exists"@ ==> message_errno(start + text) == Errno::EEXIST,
        text == "read-only file system"@ ==> message_errno(start + text) == Errno::EROFS,
        text == "is a directory"@ ==> message_errno(start + text) == Errno::EISDIR,
        text == "not a directory"@ ==> message_errno(start + text) == Errno::ENOTDIR,
        text == "cross-device link"@ ==> message_errno(start + text) == Errno::EXDEV,
        text == "no space left on device"@ ==> message_errno(start + text) == Errno::ENOSPC,
        text == "device or resource busy"@ ==> message_errno(start + text) == Errno::EBUSY,
        text == "file name too long"@ ==> message_errno(start + text) == Errno::ENAMETOOLONG,
        text == "invalid argument"@ ==> message_errno(start + text) == Errno::EINVAL,
{
    lemma_texts_apart();
    if is_known_text(text) {
        lemma_known_message(start, text);
    }
}

/// The error that a known text stands for.
spec fn text_errno(text: Seq<char>) -> Errno {
    if text == "permission denied"@ {
        Errno::EACCES
    } else if text == "operation not permitted"@ {
        Errno::EPERM
    } else if text == "no such file or directory"@ {
        Errno::ENOENT
    } else if text == "directory not empty"@ {
        Errno::ENOTEMPTY
    } else if text == "file exists"@ {
        Errno::EEXIST
    } else if text == "read-only file system"@ {
        Errno::EROFS
    } else if text == "is a directory"@ {
        Errno::EISDIR
    } else if text == "not a directory"@ {
        Errno::ENOTDIR
    } else if text == "cross-device link"@ {
        Errno::EXDEV
    } else if text == "no space left on device"@ {
        Errno::ENOSPC
    } else if text == "device or resource busy"@ {
        Errno::EBUSY
    } else if text == "file name too long"@ {
        Errno::ENAMETOOLONG
    } else if text == "invalid argument"@ {
        Errno::EINVAL
    } else {
        Errno::EIO
    }
}

/// The known texts by length and first character, which tell them apart.
proof fn lemma_texts_apart()
    ensures
        "permission denied"@.len() == 17 && "permission denied"@[0] == 'p',
        "operation not permitted"@.len() == 23 && "operation not permitted"@[0] == 'o',
        "no such file or directory"@.len() == 25 && "no such file or directory"@[0] == 'n',
        "directory not empty"@.len() == 19 && "directory not empty"@[0] == 'd',
        "file exists"@.len() == 11 && "file exists"@[0] == 'f',
        "read-only file system"@.len() == 21 && "read-only file system"@[0] == 'r',
        "is a directory"@.len() == 14 && "is a directory"@[0] == 'i',
        "not a directory"@.len() == 15 && "not a directory"@[0] == 'n',
        "cross-device link"@.len() == 17 && "cross-device link"@[0] == 'c',
        "no space left on device"@.len() == 23 && "no space left on device"@[0] == 'n',
        "device or resource busy"@.len() == 23 && "device or resource busy"@[0] == 'd',
        "file name too long"@.len() == 18 && "file name too long"@[0] == 'f',
        "invalid argument"@.len() == 16 && "invalid argument"@[0] == 'i',
{
    reveal_strlit("permission denied");
    reveal_strlit("operation not permitted");
    reveal_strlit("no such file or directory");
    reveal_strlit("directory not empty");
    reveal_strlit("file exists");
    reveal_strlit("read-only file system");
    reveal_strlit("is a directory");
    reveal_strlit("not a directory");
    reveal_strlit("cross-device link");
    reveal_strlit("no space left on device");
    reveal_strlit("device or resource busy");
    reveal_strlit("file name too long");
    reveal_strlit("invalid argument");
}

proof fn lemma_texts_are_low(text: Seq<char>)
    requires
        is_known_text(text),
    ensures
        forall|i: int| 0 <= i < text.len() ==> lower(#[trigger] text[i]) == text[i],
{
    reveal_strlit("permission denied");
    reveal_strlit("operation not permitted");
    reveal_strlit("no such file or directory");
    reveal_strlit("directory not empty");
    reveal_strlit("file exists");
    reveal_strlit("read-only file system");
    reveal_strlit("is a directory");
    reveal_strlit("not a directory");
    reveal_strlit("cross-device link");
    reveal_strlit("no space left on device");
    reveal_strlit("device or resource busy");
    reveal_strlit("file name too long");
    reveal_strlit("invalid argument");
}

/// A message that ends with a known text ends with no other.
proof fn lemma_other_text(low: Seq<char>, text: Seq<char>, other: Seq<char>)
    requires
        is_known_text(text),
        is_known_text(other),
        text.is_suffix_of(low),
    ensures
        other.is_suffix_of(low) <==> other == text,
{
    if other.is_suffix_of(low) {
        if other.len() <= text.len() {
            assert(text.subrange(text.len() - other.len(), text.len() as int) =~= low.subrange(
                low.len() - other.len(),
                low.len() as int,
            ));
            lemma_known_texts_differ(other, text);
        } else {
            assert(other.subrange(other.len() - text.len(), other.len() as int) =~= low.subrange(
                low.len() - text.len(),
                low.len() as int,
            ));
            lemma_known_texts_differ(text, other);
        }
    }
}

#[verifier::rlimit(40)]
proof fn lemma_known_message(start: Seq<char>, text: Seq<char>)
    requires
        is_known_text(text),
    ensures
        message_errno(start + text) == text_errno(text),
{
    let low = (start + text).map_values(|c: char| lower(c));
    lemma_texts_are_low(text);
    lemma_low_ends(start, text);
    lemma_other_text(low, text, "permission denied"@);
    lemma_other_text(low, text, "operation not permitted"@);
    lemma_other_text(low, text, "no such file or directory"@);
    lemma_other_text(low, text, "directory not empty"@);
    lemma_other_text(low, text, "file exists"@);
    lemma_other_text(low, text, "read-only file system"@);
    lemma_other_text(low, text, "is a directory"@);
    lemma_other_text(low, text, "not a directory"@);
    lemma_other_text(low, text, "cross-device link"@);
    lemma_other_text(low, text, "no space left on device"@);
    lemma_other_text(low, text, "device or resource busy"@);
    lemma_other_text(low, text, "file name too long"@);
    lemma_other_text(low, text, "invalid argument"@);
}

/// A message that ends with none of these texts is an error of input and
/// output.
pub proof fn law_other_messages_are_io_errors(message: Seq<char>)
    ensures
        message_errno(message) != Errno::EIO ==> exists|start: Seq<char>, text: Seq<char>|
            {
                &&& message.map_values(|c: char| lower(c)) == #[trigger] (start + text)
                &&& (text == "permission denied"@ || text == "operation not permitted"@ || text
                    == "no such file or directory"@ || text == "directory not empty"@ || text
                    == "file exists"@ || text == "read-only file system"@ || text
                    == "is a directory"@ || text == "not a directory"@ || text
                    == "cross-device link"@ || text == "no space left on device"@ || text
                    == "device or resource busy"@ || text == "file name too long"@ || text
                    == "invalid argument"@)
            },
{
    let low = message.map_values(|c: char| lower(c));
    if message_errno(message) != Errno::EIO {
        let text = choose|text: Seq<char>| is_known_text(text) && text.is_suffix_of(low);
        assert(is_known_text(text) && text.is_suffix_of(low)) by {
            assert(is_known_text("permission denied"@));
            assert(is_known_text("operation not permitted"@));
            assert(is_known_text("no such file or directory"@));
            assert(is_known_text("directory not empty"@));
            assert(is_known_text("file exists"@));
            assert(is_known_text("read-only file system"@));
            assert(is_known_text("is a directory"@));
            assert(is_known_text("not a directory"@));
            assert(is_known_text("cross-device link"@));
            assert(is_known_text("no space left on device"@));
            assert(is_known_text("device or resource busy"@));
            assert(is_known_text("file name too long"@));
            assert(is_known_text("invalid argument"@));
        }
        let start = low.take(low.len() - text.len());
        assert(low =~= start + text);
    }
}

/// The first line that says anything is the message: those before it hold
/// nothing but white space, which it loses at both ends.
pub proof fn law_the_first_line_that_speaks(lines: Seq<Seq<char>>, i: int)
    requires
        0 <= i < lines.len(),
        forall|j: int| 0 <= j < i ==> trimmed(#[trigger] lines[j]).len() == 0,
        trimmed(lines[i]).len() > 0,
    ensures
        first_not_blank(lines) == Some(trimmed(lines[i])),
    decreases i,
{
    if i > 0 {
        assert(trimmed(lines[0]).len() == 0);
        assert forall|j: int| 0 <= j < i - 1 implies trimmed(#[trigger] lines.skip(1)[j]).len()
            == 0 by {
            assert(lines.skip(1)[j] == lines[j + 1]);
        }
        assert(lines.skip(1)[i - 1] == lines[i]);
        law_the_first_line_that_speaks(lines.skip(1), i - 1);
    }
}

/// Where no line says anything there is no message.
pub proof fn law_blank_lines_say_nothing(lines: Seq<Seq<char>>)
    requires
        forall|j: int| 0 <= j < lines.len() ==> trimmed(#[trigger] lines[j]).len() == 0,
    ensures
        first_not_blank(lines) is None,
    decreases lines.len(),
{
    if lines.len() > 0 {
        assert(trimmed(lines[0]).len() == 0);
        assert forall|j: int| 0 <= j < lines.skip(1).len() implies trimmed(
            #[trigger] lines.skip(1)[j],
        ).len() == 0 by {
            assert(lines.skip(1)[j] == lines[j + 1]);
        }
        law_blank_lines_say_nothing(lines.skip(1));
    }
}

/// What is written on standard error speaks first; standard output is listened
/// to where that is silent.
pub proof fn law_errors_speak_first(output: ShellOutput)
    ensures
        first_not_blank(texts(output.stderr@)) is Some ==> message_in(output) == first_not_blank(
            texts(output.stderr@),
        ),
        first_not_blank(texts(output.stderr@)) is None ==> message_in(output) == first_not_blank(
            texts(output.stdout@),
        ),
{
    lemma_first_of_two(texts(output.stderr@), texts(output.stdout@));
}

proof fn lemma_first_of_two(a: Seq<Seq<char>>, b: Seq<Seq<char>>)
    ensures
        first_not_blank(a + b) == (match first_not_blank(a) {
            Some(line) => Some(line),
            None => first_not_blank(b),
        }),
    decreases a.len(),
{
    if a.len() == 0 {
        assert(a + b =~= b);
    } else {
        assert((a + b)[0] == a[0]);
        assert((a + b).skip(1) =~= a.skip(1) + b);
        lemma_first_of_two(a.skip(1), b);
    }
}

/// What a command that changes something fails with: the device's message and
/// the error that it stands for, or, where it only exited with a code, an error
/// that names the command and the code.
pub proof fn law_a_failed_change_says_why(command: Seq<char>, output: ShellOutput)
    ensures
        message_in(output) matches Some(message) ==> mutated(command, output) == Err::<(), Fault>(
            Fault::Failed { errno: message_errno(message), message },
        ),
        message_in(output) is None && output.exit_code != 0 ==> mutated(command, output) == Err::<
            (),
            Fault,
        >(
            Fault::Failed {
                errno: Errno::EIO,
                message: seq!['`'] + command + "` exited with "@ + signed_decimal(
                    output.exit_code as int,
                ),
            },
        ),
{
    reveal_strlit("`");
    assert("`"@ =~= seq!['`']);
}

/// A `touch` that says nothing has set the times. One that says that the date
/// is bad is made again in the older form, or is not supported where that was
/// the older form; anything else that it says is its error.
pub proof fn law_touch_tries_the_older_form(output: ShellOutput, gnu: bool)
    ensures
        message_in(output) is None ==> touched(output) is Ok && !touch_again(output, gnu),
        message_in(output) matches Some(message) ==> {
            let refused = "touch: bad '@"@.is_prefix_of(message)
                || "touch: invalid date '@"@.is_prefix_of(message);
            &&& touch_again(output, gnu) == (refused && gnu)
            &&& refused ==> touched(output) == Err::<(), Fault>(Fault::NotSupported)
            &&& !refused ==> touched(output) == Err::<(), Fault>(
                Fault::Failed { errno: message_errno(message), message },
            )
        },
{
}

/// What the answer about one file means: nothing at all is no device, a line
/// that ends in a refusal is one, a line of `ls -l` describes the file, and
/// anything else says that there is none. The line is the first on standard
/// output, or on standard error where that is all there is.
pub proof fn law_an_answer_about_a_file(path: Seq<char>, output: ShellOutput)
    ensures
        ({
            let lines = if output.stdout@.len() > 0 {
                output.stdout@
            } else {
                output.stderr@
            };
            let refused = ": Permission denied"@.is_suffix_of(lines[0]@);
            &&& lines.len() == 0 ==> described(path, output) == Err::<MetaView, Fault>(
                Fault::NoDevice,
            )
            &&& lines.len() > 0 && refused ==> described(path, output) == Err::<MetaView, Fault>(
                Fault::PermissionDenied { path },
            )
            &&& lines.len() > 0 && !refused ==> match meta_in(lines[0]@) {
                Some(meta) => described(path, output) == Ok::<MetaView, Fault>(meta),
                None => described(path, output) == Err::<MetaView, Fault>(
                    Fault::NotFound { path },
                ),
            }
        }),
{
}

/// A listing is read line by line, in order: what two parts of it say, they say
/// together.
pub proof fn law_listings_are_read_line_by_line(a: Seq<Seq<char>>, b: Seq<Seq<char>>)
    ensures
        entries_in(a + b) == entries_in(a) + entries_in(b),
        entries_in(Seq::empty()) == Seq::<(Seq<char>, Option<MetaView>)>::empty(),
    decreases b.len(),
{
    if b.len() == 0 {
        assert(a + b =~= a);
        assert(entries_in(a) + entries_in(b) =~= entries_in(a));
    } else {
        law_listings_are_read_line_by_line(a, b.drop_last());
        assert((a + b).drop_last() =~= a + b.drop_last());
        assert((a + b).last() == b.last());
        match entry_in(b.last()) {
            Some(entry) => {
                assert((entries_in(a) + entries_in(b.drop_last())).push(entry) =~= entries_in(a)
                    + entries_in(b.drop_last()).push(entry));
            },
            None => {},
        }
    }
}

/// A line that describes a file is an entry with its name and what it says of
/// the file. A line that starts with no mode is an entry only where it is a
/// refusal that names a file, of which nothing else is known then. Every other
/// line, such as a total, is none.
pub proof fn law_a_line_of_a_listing(line: Seq<char>)
    ensures
        ({
            let refused = ": Permission denied"@.is_suffix_of(line);
            &&& mode_in(line) is Some ==> (match name_in(line) {
                Some(name) => entries_in(seq![line]) == seq![(name, meta_in(line))],
                None => entries_in(seq![line]).len() == 0,
            })
            &&& mode_in(line) is None && refused ==> (match denied_name(line) {
                Some(name) => entries_in(seq![line]) == seq![(name, None::<MetaView>)],
                None => entries_in(seq![line]).len() == 0,
            })
            &&& mode_in(line) is None && !refused ==> entries_in(seq![line]).len() == 0
        }),
{
    reveal_with_fuel(entries_in, 2);
    assert(seq![line].drop_last() =~= Seq::<Seq<char>>::empty());
    match entry_in(line) {
        Some(entry) => {
            assert(entries_in(seq![line]) =~= seq![entry]);
        },
        None => {},
    }
}

/// A refusal names the file in the last part of the path that it quotes: a
/// message in which `name` stands between a slash and the closing quote, with no
/// slash behind and no such quote before, is about `name`.
#[verifier::rlimit(40)]
pub proof fn law_a_refusal_names_the_file(a: Seq<char>, name: Seq<char>, b: Seq<char>)
    requires
        !name.contains('/'),
        !b.contains('/'),
        !occurs(a + seq!['/'] + name + seq!['\''], "' "@),
    ensures
        denied_name(a + seq!['/'] + name + "' "@ + b) == Some(name),
{
    reveal_strlit("' ");
    let line = a + seq!['/'] + name + "' "@ + b;
    let slash = a.len() as int;
    let end = slash + 1 + name.len();
    lemma_last_slash(a, name, b);
    lemma_closing_quote(a, name, b);
    assert(line[slash] == '/');
    assert(occurs_at(line, "' "@, end));
    assert(line.subrange(slash + 1, end) =~= name);
}

proof fn lemma_last_slash(a: Seq<char>, name: Seq<char>, b: Seq<char>)
    requires
        !name.contains('/'),
        !b.contains('/'),
    ensures
        (choose|at: int| last_at(a + seq!['/'] + name + "' "@ + b, '/', at)) == a.len(),
{
    reveal_strlit("' ");
    let line = a + seq!['/'] + name + "' "@ + b;
    let slash = a.len() as int;
    let end = slash + 1 + name.len();
    assert forall|j: int| slash < j < line.len() implies line[j] != '/' by {
        if j < end {
            assert(line[j] == name[j - slash - 1]);
        } else if j >= end + 2 {
            assert(line[j] == b[j - end - 2]);
        }
    }
    assert(last_at(line, '/', slash));
    let chosen = choose|at: int| last_at(line, '/', at);
    assert(last_at(line, '/', chosen));
}

proof fn lemma_closing_quote(a: Seq<char>, name: Seq<char>, b: Seq<char>)
    requires
        !occurs(a + seq!['/'] + name + seq!['\''], "' "@),
    ensures
        (choose|at: int| first_at(a + seq!['/'] + name + "' "@ + b, "' "@, at)) == a.len() + 1
            + name.len(),
        occurs_at(
            a + seq!['/'] + name + "' "@ + b,
            "' "@,
            (a.len() + 1 + name.len()) as int,
        ),
{
    reveal_strlit("' ");
    let line = a + seq!['/'] + name + "' "@ + b;
    let end = (a.len() + 1 + name.len()) as int;
    let head = a + seq!['/'] + name + seq!['\''];
    assert(line.subrange(end, end + 2) =~= "' "@);
    assert forall|j: int| j < end implies !occurs_at(line, "' "@, j) by {
        if occurs_at(line, "' "@, j) {
            assert(head.subrange(j, j + 2) =~= line.subrange(j, j + 2));
            assert(occurs_at(head, "' "@, j));
        }
    }
    assert(first_at(line, "' "@, end));
    lemma_first_at(line, "' "@, end);
}

/// A message without a slash or without a closing quote names no file.
pub proof fn law_other_refusals_name_no_file(line: Seq<char>)
    requires
        !line.contains('/') || !occurs(line, "' "@),
    ensures
        denied_name(line) is None,
{
}

// ---- what an operation calls ----

/// An operation that succeeds has called its command, which the device took in
/// silence, and then told the media scanner each of its notices, in order and
/// nothing else. What was called before is as it was.
pub proof fn law_a_change_is_made_and_told(
    before: Seq<Exchange>,
    after: Seq<Exchange>,
    command: Seq<char>,
    notices: Seq<Seq<char>>,
    result: Result<(), Fault>,
)
    requires
        performed(before, after, command, notices, result),
    ensures
        before.len() < after.len(),
        forall|i: int| 0 <= i < before.len() ==> #[trigger] after[i] == before[i],
        (after[before.len() as int] matches Exchange::Run { command: c, output } && {
            &&& c == command
            &&& result is Ok ==> {
                &&& output matches Ok(o)
                &&& message_in(o) is None
                &&& o.exit_code == 0
            }
            &&& output matches Err(e) ==> result == Err::<(), Fault>(Fault::Adb(e))
            &&& (output matches Ok(o) && mutated(command, o) is Err) ==> {
                &&& after.len() == before.len() + 1
                &&& result is Err && result->Err_0 == mutated(command, output->Ok_0)->Err_0
            }
        }),
        result is Ok ==> after.len() == before.len() + 1 + notices.len(),
        result is Ok ==> forall|i: int|
            0 <= i < notices.len() ==> (#[trigger] after[before.len() + 1 + i] matches
                Exchange::Shell { command: c, lines } && c == notices[i] && lines is Ok),
{
    let from = before.len() as int;
    assert forall|i: int| 0 <= i < before.len() implies #[trigger] after[i] == before[i] by {
        assert(after.take(from)[i] == after[i]);
    }
    if result is Ok {
        lemma_all_told(after, from + 1, notices, result);
    }
}

proof fn lemma_all_told(
    history: Seq<Exchange>,
    from: int,
    commands: Seq<Seq<char>>,
    result: Result<(), Fault>,
)
    requires
        notified(history, from, commands, result),
        result is Ok,
    ensures
        history.len() == from + commands.len(),
        forall|i: int|
            0 <= i < commands.len() ==> (#[trigger] history[from + i] matches Exchange::Shell {
                command: c,
                lines,
            } && c == commands[i] && lines is Ok),
    decreases commands.len(),
{
    if commands.len() > 0 {
        lemma_all_told(history, from + 1, commands.skip(1), result);
        assert forall|i: int| 0 <= i < commands.len() implies (#[trigger] history[from + i] matches
            Exchange::Shell { command: c, lines } && c == commands[i] && lines is Ok) by {
            if i > 0 {
                assert(commands.skip(1)[i - 1] == commands[i]);
                assert(history[from + 1 + (i - 1)] == history[from + i]);
            }
        }
    }
}

/// A change that the device refused, or that did not get through, is not told
/// to anybody.
pub proof fn law_a_failed_change_is_not_told(
    before: Seq<Exchange>,
    after: Seq<Exchange>,
    command: Seq<char>,
    notices: Seq<Seq<char>>,
    result: Result<(), Fault>,
)
    requires
        performed(before, after, command, notices, result),
        (after[before.len() as int] matches Exchange::Run { output, .. } && match output {
            Ok(o) => message_in(o) is Some || o.exit_code != 0,
            Err(_) => true,
        }),
    ensures
        after.len() == before.len() + 1,
        result is Err,
{
}

/// A notice that does not get through is the last, and the operation fails with
/// it.
pub proof fn law_a_lost_notice_is_the_last(
    history: Seq<Exchange>,
    from: int,
    commands: Seq<Seq<char>>,
    result: Result<(), Fault>,
)
    requires
        notified(history, from, commands, result),
        result is Err,
    ensures
        0 <= from < history.len() <= from + commands.len(),
        (history.last() matches Exchange::Shell { command, lines } && {
            &&& command == commands[history.len() - 1 - from]
            &&& lines matches Err(e)
            &&& result == Err::<(), Fault>(Fault::Adb(e))
        }),
    decreases commands.len(),
{
    if commands.len() > 0 {
        match history[from] {
            Exchange::Shell { command, lines } => {
                if lines is Ok {
                    law_a_lost_notice_is_the_last(history, from + 1, commands.skip(1), result);
                    assert(commands.skip(1)[history.len() - 2 - from] == commands[history.len() - 1
                        - from]);
                }
            },
            _ => {},
        }
    }
}

/// The media scanner is told of each path, in order, where it is to be told,
/// and of nothing where it is not.
pub proof fn law_each_path_is_scanned(rescan: bool, paths: Seq<Seq<char>>, i: int)
    requires
        0 <= i < paths.len(),
    ensures
        !rescan ==> scans(rescan, paths).len() == 0,
        rescan ==> scans(rescan, paths).len() == paths.len(),
        rescan ==> shell_words(scans(rescan, paths)[i]) == Some(
            seq![
                "am"@,
                "broadcast"@,
                "-a"@,
                "android.intent.action.MEDIA_SCANNER_SCAN_FILE"@,
                "-d"@,
                "file://"@ + paths[i],
            ],
        ),
{
    law_broadcasts_name_the_path(paths[i]);
}

/// Setting times gives the device one `touch` in the form that it is thought to
/// understand, and a second in the older form only where it refused the first.
/// It succeeds only where the last was taken in silence.
pub proof fn law_times_are_set_by_touch(
    history: Seq<Exchange>,
    from: int,
    path: Seq<char>,
    atime: Option<FileTime>,
    mtime: Option<FileTime>,
    gnu: bool,
    rescan: bool,
    result: Result<(), Fault>,
    gnu_after: bool,
)
    requires
        times_set(history, from, path, atime, mtime, gnu, rescan, result, gnu_after),
    ensures
        0 <= from < history.len(),
        (history[from] matches Exchange::Run { command, output } && {
            let again = output matches Ok(o) && touch_again(o, gnu);
            &&& command == touch_command(path, atime, mtime, gnu)
            &&& !again ==> gnu_after == gnu
            &&& again ==> {
                &&& !gnu_after
                &&& from + 1 < history.len()
                &&& history[from + 1] matches Exchange::Run { command: second, .. }
                &&& second == touch_command(path, atime, mtime, false)
            }
            &&& !again && result is Ok ==> {
                &&& output matches Ok(o)
                &&& message_in(o) is None
                &&& history.len() == from + 1 + scans(rescan, seq![path]).len()
            }
            &&& !again && output is Err ==> result == Err::<(), Fault>(Fault::Adb(output->Err_0))
        }),
{
    reveal_with_fuel(times_set, 3);
    match history[from] {
        Exchange::Run { command, output } => {
            let again = output matches Ok(o) && touch_again(o, gnu);
            if !again && result is Ok {
                lemma_all_told(history, from + 1, scans(rescan, seq![path]), result);
            }
        },
        _ => {},
    }
}

/// A failure is told in the words of its cause: what was denied or not
/// found is named, and a message of the device or of `adb` stands as it is.
pub proof fn law_failures_are_told(
    path: Seq<char>,
    errno: Errno,
    message: Seq<char>,
    e: AdbError,
)
    ensures
        fault_words(Fault::NoDevice) == "no device connected"@,
        fault_words(Fault::PermissionDenied { path }) == "permission denied: "@ + path,
        fault_words(Fault::NotFound { path }) == "file not found: "@ + path,
        fault_words(Fault::NotSupported) == "not supported"@,
        fault_words(Fault::Failed { errno, message }) == message,
        fault_words(Fault::Adb(e)) == e.words(),
{
}

/// A device error says what it holds.
pub proof fn law_an_error_says_what_it_holds(
    path: String,
    errno: Errno,
    message: String,
    e: AdbError,
)
    ensures
        DeviceError::NoDevice@ == Fault::NoDevice,
        (DeviceError::PermissionDenied { path })@ == (Fault::PermissionDenied { path: path@ }),
        (DeviceError::NotFound { path })@ == (Fault::NotFound { path: path@ }),
        DeviceError::NotSupported@ == Fault::NotSupported,
        (DeviceError::Failed { errno, message })@ == (Fault::Failed { errno, message: message@ }),
        DeviceError::Adb(e)@ == Fault::Adb(e),
{
}

/// A link is read as what follows the first arrow in its line: a relative
/// target as it stands, an absolute one as a climb of one directory for each
/// slash in the link's path but the first, and then the target without its
/// leading slashes. A line without an arrow is no link.
pub proof fn law_a_link_climbs_to_the_root(
    path: Seq<char>,
    line: Seq<char>,
    head: Seq<char>,
    lead: nat,
    below: Seq<char>,
)
    requires
        count_of(path, '/') >= 1,
        below.len() > 0 ==> below[0] != '/',
        line == head + " -> "@ + (Seq::new(lead, |i: int| '/') + below),
        forall|j: int| j < head.len() ==> !occurs_at(line, " -> "@, j),
    ensures
        ({
            let up: int = if lead > 0 {
                count_of(path, '/') - 1
            } else {
                0
            };
            &&& linked(path, line) matches Ok(r)
            &&& r.len() == 3 * up + below.len()
            &&& forall|j: int|
                0 <= j < 3 * up ==> r[j] == (if j % 3 == 2 {
                    '/'
                } else {
                    '.'
                })
            &&& r.skip(3 * up) == below
        }),
        forall|other: Seq<char>| (forall|j: int| !occurs_at(other, " -> "@, j)) ==> #[trigger] linked(
            path,
            other,
        ) == Err::<Seq<char>, Fault>(Fault::NotSupported),
{
    let target = Seq::new(lead, |i: int| '/') + below;
    law_a_text_parts_at_the_pattern(head, " -> "@, target);
    if lead > 0 {
        law_links_lead_back_to_the_root(lead, below, count_of(path, '/'));
    } else {
        law_links_lead_back_to_the_root(1, below, count_of(path, '/'));
        assert(target =~= below);
        assert(below.skip(0) =~= below);
    }
}

/// What is shown of a result is its value or its failure, and of a listing each
/// name with its metadata, in order.
pub proof fn law_results_are_shown_as_they_are(
    text: String,
    meta: FileMeta,
    e: DeviceError,
    entries: Seq<(String, Option<FileMeta>)>,
    i: int,
)
    ensures
        shown(Ok::<String, DeviceError>(text)) == Ok::<Seq<char>, Fault>(text@),
        shown(Ok::<FileMeta, DeviceError>(meta)) == Ok::<MetaView, Fault>(meta@),
        shown(Err::<FileMeta, DeviceError>(e)) == Err::<MetaView, Fault>(e@),
        ended(Ok(())) is Ok,
        ended(Err(e)) == Err::<(), Fault>(e@),
        entry_views(entries).len() == entries.len(),
        0 <= i < entries.len() ==> entry_views(entries)[i].0 == entries[i].0@,
        0 <= i < entries.len() ==> (match entries[i].1 {
            Some(m) => entry_views(entries)[i].1 == Some(m@),
            None => entry_views(entries)[i].1 is None,
        }),
{
}

/// A call is one more in the history, with what came back; those before it are
/// as they were.
pub proof fn law_a_call_is_one_more(
    before: Seq<Exchange>,
    after: Seq<Exchange>,
    command: Seq<char>,
)
    requires
        asked(before, after, command),
    ensures
        after.len() == before.len() + 1,
        forall|i: int| 0 <= i < before.len() ==> #[trigger] after[i] == before[i],
        (after[before.len() as int] matches Exchange::Run { command: c, output } && c == command
            && answer(after) == output),
{
    assert forall|i: int| 0 <= i < before.len() implies #[trigger] after[i] == before[i] by {
        assert(after.drop_last()[i] == after[i]);
    }
}

/// What was set when the operations were made stays set.
pub proof fn law_settings_stay<D: AdbDevice>(a: DeviceOps<D>, b: DeviceOps<D>)
    requires
        a.same_settings(&b),
    ensures
        a.rescan == b.rescan,
        a.touch_gnu_mode == b.touch_gnu_mode,
        a.compat == b.compat,
        a.adb.possible() == b.adb.possible(),
{
}

} // verus!
