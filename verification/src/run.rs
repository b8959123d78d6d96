//! How the program runs: in the foreground or not, how much it logs, and on how
//! many threads.

use crate::mount_opts::FsOptions;
use vstd::prelude::*;
use vstd::string::*;

verus! {

/// What the switches of the command line and the mount options come to.
#[derive(Debug, Clone, Copy, PartialEq, Eq, Structural)]
pub struct RunMode {
    pub debug: bool,
    pub foreground: bool,
}

/// What the switches come to.
pub open spec fn mode_for(debug: bool, foreground: bool, opts: FsOptions) -> RunMode {
    RunMode { debug: debug || opts.debug, foreground: foreground || debug || opts.debug }
}

/// `-d` and `-o debug` are the same switch, and both imply foreground.
pub fn run_mode(debug: bool, foreground: bool, opts: &FsOptions) -> (mode: RunMode)
    ensures
        mode == mode_for(debug, foreground, *opts),
{
    let debug = debug || opts.debug;
    RunMode { debug, foreground: foreground || debug }
}

/// What is logged, as the logger takes it.
pub open spec fn filter_for(debug: bool) -> Seq<char> {
    if debug {
        "adbfs=debug"@
    } else {
        "adbfs=warn"@
    }
}

/// What is logged where the environment does not say.
pub fn default_filter(debug: bool) -> (filter: String)
    ensures
        filter@ == filter_for(debug),
{
    if debug {
        "adbfs=debug".to_owned()
    } else {
        "adbfs=warn".to_owned()
    }
}

/// How many threads serve requests.
pub open spec fn threads_for(single_threaded: bool, available: Option<usize>) -> usize {
    if single_threaded {
        1
    } else {
        match available {
            Some(n) => n,
            None => 4,
        }
    }
}

/// The number of threads that serve requests, on a machine that can run
/// `available` at once, where that is known.
pub fn thread_count(single_threaded: bool, available: Option<usize>) -> (n: usize)
    ensures
        n == threads_for(single_threaded, available),
{
    if single_threaded {
        1
    } else {
        match available {
            Some(n) => n,
            None => 4,
        }
    }
}

// ---- laws ----

/// Debugging, however it is asked for, keeps the program in the foreground;
/// nothing else does but asking for that.
pub proof fn law_debugging_stays_in_the_foreground(debug: bool, foreground: bool, opts: FsOptions)
    ensures
        mode_for(debug, foreground, opts).debug <==> debug || opts.debug,
        mode_for(debug, foreground, opts).debug ==> mode_for(debug, foreground, opts).foreground,
        foreground ==> mode_for(debug, foreground, opts).foreground,
        mode_for(debug, foreground, opts).foreground && !mode_for(debug, foreground, opts).debug
            ==> foreground,
{
}

/// Debugging logs what the program does; otherwise only warnings are logged.
pub proof fn law_debugging_logs_more()
    ensures
        filter_for(true) == "adbfs=debug"@,
        filter_for(false) == "adbfs=warn"@,
{
}

/// One thread where that is asked for, else as many as the machine runs at
/// once, and four where that is not known.
pub proof fn law_threads_are_those_of_the_machine(n: usize, available: Option<usize>)
    ensures
        threads_for(true, available) == 1,
        threads_for(false, Some(n)) == n,
        threads_for(false, None) == 4,
{
}

} // verus!
