//! Points in time and stretches of time, in seconds and nanoseconds.

use std::time::SystemTime;
use vstd::prelude::*;

verus! {

/// A point in time: `secs` whole seconds from the Unix epoch, negative before
/// it, and `nanos` nanoseconds after that.
#[derive(Debug, Clone, Copy, PartialEq, Eq, Structural)]
pub struct FileTime {
    pub secs: i64,
    pub nanos: u32,
}

impl FileTime {
    pub open spec fn start() -> FileTime {
        FileTime { secs: 0, nanos: 0 }
    }

    /// The Unix epoch.
    #[verifier::when_used_as_spec(start)]
    pub fn epoch() -> (r: FileTime)
        ensures
            r == Self::start(),
    {
        FileTime { secs: 0, nanos: 0 }
    }

    /// The seconds and nanoseconds since the Unix epoch; both are zero for a
    /// time before it.
    pub open spec fn elapsed(self) -> (u64, u32) {
        if self.secs < 0 {
            (0, 0)
        } else {
            (self.secs as u64, self.nanos)
        }
    }

    pub fn since_epoch(self) -> (r: (u64, u32))
        ensures
            r == self.elapsed(),
    {
        if self.secs < 0 {
            (0, 0)
        } else {
            (self.secs as u64, self.nanos)
        }
    }
}

/// A reading of the system's clock.
#[verifier::external_type_specification]
#[verifier::external_body]
pub struct ExSystemTime(std::time::SystemTime);

/// `SystemTime::now`: the clock's reading. Nothing is known of it beforehand.
pub assume_specification[ std::time::SystemTime::now ]() -> std::time::SystemTime;

/// The point in time that a reading of the clock stands for.
pub uninterp spec fn clock_time(reading: SystemTime) -> FileTime;

/// `SystemTime::duration_since` the Unix epoch: the time that a reading stands
/// for, the epoch itself where the clock is set before it. It depends on the
/// reading alone and has a name; of which time it is, nothing is known but that
/// it is a whole number of seconds and less than one more.
#[verifier::external_body]
fn time_at(reading: SystemTime) -> (time: FileTime)
    ensures
        time == clock_time(reading),
        time.nanos < 1_000_000_000,
{
    let since = reading.duration_since(SystemTime::UNIX_EPOCH).unwrap_or_default();
    FileTime { secs: since.as_secs() as i64, nanos: since.subsec_nanos() }
}

/// A time that a file is to get.
#[derive(Debug, Clone, Copy, PartialEq, Eq, Structural)]
pub enum TimeOrNow {
    SpecificTime(FileTime),
    /// The time at which it gets it.
    Now,
}

/// `time` is what `asked` comes to at some reading of the clock, where it needs
/// one.
pub open spec fn resolved(asked: Option<TimeOrNow>, time: Option<FileTime>) -> bool {
    match asked {
        None => time is None,
        Some(TimeOrNow::SpecificTime(given)) => time == Some(given),
        Some(TimeOrNow::Now) => exists|reading: SystemTime|
            time == Some(#[trigger] clock_time(reading)),
    }
}

/// The time that is asked for, by the clock where it is the present one.
pub fn resolve_time(asked: Option<TimeOrNow>) -> (time: Option<FileTime>)
    ensures
        resolved(asked, time),
{
    match asked {
        None => None,
        Some(TimeOrNow::SpecificTime(given)) => Some(given),
        Some(TimeOrNow::Now) => Some(time_at(SystemTime::now())),
    }
}

/// A stretch of time.
#[derive(Debug, Clone, Copy, PartialEq, Eq, Structural)]
pub struct Span {
    pub secs: u64,
    pub nanos: u32,
}

impl Span {
    /// The length in nanoseconds.
    pub open spec fn length(self) -> int {
        self.secs * 1_000_000_000 + self.nanos
    }

    pub fn from_secs(secs: u64) -> (r: Span)
        ensures
            r == (Span { secs, nanos: 0 }),
    {
        Span { secs, nanos: 0 }
    }

    pub fn longer_than(self, other: Span) -> (r: bool)
        ensures
            r == (self.length() > other.length()),
    {
        let a: u128 = self.secs as u128 * 1_000_000_000 + self.nanos as u128;
        let b: u128 = other.secs as u128 * 1_000_000_000 + other.nanos as u128;
        a > b
    }

    pub fn is_zero(self) -> (r: bool)
        ensures
            r == (self.length() == 0),
    {
        self.secs == 0 && self.nanos == 0
    }
}

// ---- laws ----

/// A stretch of time is longer than another where it has more seconds, or as
/// many and more nanoseconds; it is none where it has neither.
pub proof fn law_spans_are_ordered(a: Span, b: Span)
    requires
        a.nanos < 1_000_000_000,
        b.nanos < 1_000_000_000,
    ensures
        a.length() > b.length() <==> a.secs > b.secs || (a.secs == b.secs && a.nanos > b.nanos),
        a.length() == 0 <==> a.secs == 0 && a.nanos == 0,
{
}

/// A time that is given is kept, none is made up, and the present one is there
/// whatever the clock says.
pub proof fn law_given_times_are_kept(time: Option<FileTime>, given: FileTime)
    ensures
        resolved(None, time) <==> time is None,
        resolved(Some(TimeOrNow::SpecificTime(given)), time) <==> time == Some(given),
        resolved(Some(TimeOrNow::Now), time) ==> time is Some,
{
}

/// The time since the epoch is the time itself, or nothing before the epoch.
pub proof fn law_time_starts_with_the_epoch(time: FileTime)
    ensures
        FileTime::epoch().secs == 0 && FileTime::epoch().nanos == 0,
        time.secs >= 0 ==> time.elapsed().0 == time.secs && time.elapsed().1 == time.nanos,
        time.secs < 0 ==> time.elapsed().0 == 0 && time.elapsed().1 == 0,
{
}

} // verus!
