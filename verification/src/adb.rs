//! The device at the other end of `adb`.

pub mod cli;
pub mod mock;

use crate::text::{signed_decimal, signed_decimal_text};
use vstd::prelude::*;
use vstd::string::*;

verus! {

/// What a shell command on the device printed, line by line, and how it
/// exited.
#[derive(Debug)]
pub struct ShellOutput {
    pub stdout: Vec<String>,
    pub stderr: Vec<String>,
    pub exit_code: i32,
}

/// Why a command never got an answer from the device.
#[derive(Debug)]
pub enum AdbError {
    DeviceNotFound,
    CommandFailed { exit_code: i32, stderr: String },
    Io { message: String },
}

impl AdbError {
    /// The failure in words.
    pub open spec fn words(&self) -> Seq<char> {
        match *self {
            AdbError::DeviceNotFound => "no device found"@,
            AdbError::CommandFailed { exit_code, stderr } => "adb exited with "@ + signed_decimal(
                exit_code as int,
            ) + ": "@ + stderr@,
            AdbError::Io { message } => message@,
        }
    }

    pub fn message(&self) -> (r: String)
        ensures
            r@ == self.words(),
    {
        match self {
            AdbError::DeviceNotFound => "no device found".to_owned(),
            AdbError::CommandFailed { exit_code, stderr } => {
                let mut r = "adb exited with ".to_owned();
                let code = signed_decimal_text(*exit_code);
                r.append(code.as_str());
                r.append(": ");
                r.append(stderr.as_str());
                r
            },
            AdbError::Io { message } => message.clone(),
        }
    }
}

/// One call to the device and what came back.
pub enum Exchange {
    /// A shell command of which only standard output was kept.
    Shell { command: Seq<char>, lines: Result<Vec<String>, AdbError> },
    /// A shell command of which everything was kept.
    Run { command: Seq<char>, output: Result<ShellOutput, AdbError> },
    /// A file copied from the device.
    Pull { remote: Seq<char>, local: Seq<char>, done: Result<(), AdbError> },
    /// A file copied to the device.
    Push { local: Seq<char>, remote: Seq<char>, done: Result<(), AdbError> },
    /// Writes flushed to the device's storage.
    Sync { done: Result<(), AdbError> },
}

/// The calls to a device, in order, each with its answer.
pub type Calls = Seq<Exchange>;

/// What the calls to a device can come to.
pub type Outcomes = Set<Calls>;

/// A device, and the calls it was given.
pub trait AdbDevice {
    /// The calls so far.
    spec fn history(&self) -> Calls;

    /// The calls and answers that this device can come to. A device of which
    /// nothing is known can come to any.
    spec fn possible(&self) -> Outcomes;

    /// Runs a shell command and keeps what it writes on standard output.
    fn shell(&mut self, command: &str) -> (reply: Result<Vec<String>, AdbError>)
        ensures
            final(self).history() == old(self).history().push(
                Exchange::Shell { command: command@, lines: reply },
            ),
            final(self).possible() == old(self).possible(),
            final(self).possible().contains(final(self).history()),
    ;

    /// Runs a shell command and keeps everything.
    fn shell_with_stderr(&mut self, command: &str) -> (reply: Result<ShellOutput, AdbError>)
        ensures
            final(self).history() == old(self).history().push(
                Exchange::Run { command: command@, output: reply },
            ),
            final(self).possible() == old(self).possible(),
            final(self).possible().contains(final(self).history()),
    ;

    /// Copies a file from the device.
    fn pull(&mut self, remote: &str, local: &str) -> (reply: Result<(), AdbError>)
        ensures
            final(self).history() == old(self).history().push(
                Exchange::Pull { remote: remote@, local: local@, done: reply },
            ),
            final(self).possible() == old(self).possible(),
            final(self).possible().contains(final(self).history()),
    ;

    /// Copies a file to the device.
    fn push(&mut self, local: &str, remote: &str) -> (reply: Result<(), AdbError>)
        ensures
            final(self).history() == old(self).history().push(
                Exchange::Push { local: local@, remote: remote@, done: reply },
            ),
            final(self).possible() == old(self).possible(),
            final(self).possible().contains(final(self).history()),
    ;

    /// Has the device flush its writes to storage.
    fn sync_device(&mut self) -> (reply: Result<(), AdbError>)
        ensures
            final(self).history() == old(self).history().push(Exchange::Sync { done: reply }),
            final(self).possible() == old(self).possible(),
            final(self).possible().contains(final(self).history()),
    ;
}

/// `after` is the device `before` at the same or a later time: what it can come
/// to is the same, and it has come to nothing else.
pub open spec fn continued<D: AdbDevice>(before: D, after: D) -> bool {
    &&& after.possible() == before.possible()
    &&& before.possible().contains(before.history()) ==> after.possible().contains(
        after.history(),
    )
}

// ---- laws ----

/// A failed call is told as what it was: no device, the code that `adb` exited
/// with and what it wrote, or the message of the system.
pub proof fn law_failed_calls_are_told(exit_code: i32, text: String)
    ensures
        AdbError::DeviceNotFound.words() == "no device found"@,
        (AdbError::CommandFailed { exit_code, stderr: text }).words() == "adb exited with "@
            + signed_decimal(exit_code as int) + ": "@ + text@,
        (AdbError::Io { message: text }).words() == text@,
{
}

} // verus!
