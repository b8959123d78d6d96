//! What a request comes to: an answer, or local work to be done first.

use crate::attr::FileAttr;
use crate::sys::Errno;
use crate::time::{Span, TimeOrNow};
use vstd::prelude::*;

verus! {

/// Work on local files that a request waits for.
#[derive(Debug)]
pub enum LocalWork {
    /// Make an empty file, or empty the one that is there.
    Create { path: String },
    /// Open a file for reading and writing.
    Open { path: String },
    /// Cut or extend a file to a length.
    SetLen { path: String, len: u64 },
    /// Make a special file.
    Node { path: String, mode: u32, rdev: u32 },
}

/// What a [`LocalWork`] says.
pub enum WorkView {
    Create { path: Seq<char> },
    Open { path: Seq<char> },
    SetLen { path: Seq<char>, len: u64 },
    Node { path: Seq<char>, mode: u32, rdev: u32 },
}

impl View for LocalWork {
    type V = WorkView;

    open spec fn view(&self) -> WorkView {
        match *self {
            LocalWork::Create { path } => WorkView::Create { path: path@ },
            LocalWork::Open { path } => WorkView::Open { path: path@ },
            LocalWork::SetLen { path, len } => WorkView::SetLen { path: path@, len },
            LocalWork::Node { path, mode, rdev } => WorkView::Node { path: path@, mode, rdev },
        }
    }
}

/// The request that waits for local work, and what it still has to know.
#[derive(Debug)]
pub enum Task {
    /// The local copy is being opened for a new handle.
    Open { ino: u64 },
    /// The local copy of a new file is being made.
    Create { ino: u64, path: String },
    /// The local copy of a new file is being opened for its handle.
    CreateOpen { ino: u64, path: String },
    /// The local copy is being emptied.
    Clear { ino: u64, path: String, atime: Option<TimeOrNow>, mtime: Option<TimeOrNow> },
    /// The local copy is being cut or extended.
    Cut { ino: u64, path: String, atime: Option<TimeOrNow>, mtime: Option<TimeOrNow> },
    /// A special file is being made at `local`, to be pushed to `path`.
    Node { path: String, local: String },
}

/// What a [`Task`] says.
pub enum TaskView {
    Open { ino: u64 },
    Create { ino: u64, path: Seq<char> },
    CreateOpen { ino: u64, path: Seq<char> },
    Clear { ino: u64, path: Seq<char>, atime: Option<TimeOrNow>, mtime: Option<TimeOrNow> },
    Cut { ino: u64, path: Seq<char>, atime: Option<TimeOrNow>, mtime: Option<TimeOrNow> },
    Node { path: Seq<char>, local: Seq<char> },
}

impl View for Task {
    type V = TaskView;

    open spec fn view(&self) -> TaskView {
        match *self {
            Task::Open { ino } => TaskView::Open { ino },
            Task::Create { ino, path } => TaskView::Create { ino, path: path@ },
            Task::CreateOpen { ino, path } => TaskView::CreateOpen { ino, path: path@ },
            Task::Clear { ino, path, atime, mtime } => TaskView::Clear {
                ino,
                path: path@,
                atime,
                mtime,
            },
            Task::Cut { ino, path, atime, mtime } => TaskView::Cut {
                ino,
                path: path@,
                atime,
                mtime,
            },
            Task::Node { path, local } => TaskView::Node { path: path@, local: local@ },
        }
    }
}

/// The inode on whose copy the waiting request holds a reference.
pub open spec fn held_by(task: Option<Task>) -> Option<u64> {
    match task {
        Some(Task::Open { ino }) => Some(ino),
        Some(Task::CreateOpen { ino, .. }) => Some(ino),
        Some(Task::Cut { ino, .. }) => Some(ino),
        _ => None,
    }
}

// ---- requests ----

/// Attributes, and for how long the kernel may keep them.
#[derive(Debug, Clone, Copy, PartialEq, Eq, Structural)]
pub struct Entry {
    pub ttl: Span,
    pub attr: FileAttr,
}

/// A new handle, and the bits of its open flags.
#[derive(Debug, Clone, Copy, PartialEq, Eq, Structural)]
pub struct Opened {
    pub fh: u64,
    pub flags: u32,
}

/// A new file and the handle on it.
#[derive(Debug, Clone, Copy, PartialEq, Eq, Structural)]
pub struct Created {
    pub entry: Entry,
    pub opened: Opened,
}

/// How a request goes on.
#[derive(Debug)]
pub enum Step<T> {
    /// It waits for this work.
    Work(LocalWork),
    /// It is answered, with a value or an error. The local file that
    /// is named, if any, is to be deleted; how that goes does not matter.
    Done { reply: Result<T, Errno>, remove: Option<String> },
}

/// The request waits for `work`.
pub open spec fn waits<T>(step: Step<T>, work: WorkView) -> bool {
    step matches Step::Work(w) && w@ == work
}

/// The request is answered `reply`, and the local file `remove` is to go.
pub open spec fn replied<T>(
    step: Step<T>,
    reply: Result<T, Errno>,
    remove: Option<Seq<char>>,
) -> bool {
    match step {
        Step::Work(_) => false,
        Step::Done { reply: a, remove: b } => {
            &&& a == reply
            &&& match b {
                Some(path) => remove == Some(path@),
                None => remove is None,
            }
        },
    }
}

// ---- laws ----

/// Work on local files says which file, and what is to be done with it.
pub proof fn law_work_says_what_it_is(path: String, len: u64, mode: u32, rdev: u32)
    ensures
        (LocalWork::Create { path })@ == (WorkView::Create { path: path@ }),
        (LocalWork::Open { path })@ == (WorkView::Open { path: path@ }),
        (LocalWork::SetLen { path, len })@ == (WorkView::SetLen { path: path@, len }),
        (LocalWork::Node { path, mode, rdev })@ == (WorkView::Node { path: path@, mode, rdev }),
{
}

/// A waiting request says what it knows, each time and path under its own name,
/// and on whose copy it holds a reference: on none while the copy is still being
/// made.
pub proof fn law_a_waiting_request_says_what_it_knows(
    ino: u64,
    path: String,
    local: String,
    atime: Option<TimeOrNow>,
    mtime: Option<TimeOrNow>,
)
    ensures
        (Task::Open { ino })@ == (TaskView::Open { ino }),
        (Task::Create { ino, path })@ == (TaskView::Create { ino, path: path@ }),
        (Task::CreateOpen { ino, path })@ == (TaskView::CreateOpen { ino, path: path@ }),
        (Task::Clear { ino, path, atime, mtime })@ == (TaskView::Clear {
            ino,
            path: path@,
            atime,
            mtime,
        }),
        (Task::Cut { ino, path, atime, mtime })@ == (TaskView::Cut {
            ino,
            path: path@,
            atime,
            mtime,
        }),
        (Task::Node { path, local })@ == (TaskView::Node { path: path@, local: local@ }),
        held_by(None) is None,
        held_by(Some(Task::Open { ino })) == Some(ino),
        held_by(Some(Task::Create { ino, path })) is None,
        held_by(Some(Task::CreateOpen { ino, path })) == Some(ino),
        held_by(Some(Task::Clear { ino, path, atime, mtime })) is None,
        held_by(Some(Task::Cut { ino, path, atime, mtime })) == Some(ino),
        held_by(Some(Task::Node { path, local })) is None,
{
}

/// A request either waits for one piece of work or is answered with one reply,
/// and names one local file to delete or none.
pub proof fn law_a_step_is_work_or_an_answer<T>(
    step: Step<T>,
    work: WorkView,
    reply: Result<T, Errno>,
    remove: Option<Seq<char>>,
)
    ensures
        waits(step, work) ==> (step matches Step::Work(w) && w@ == work),
        replied(step, reply, remove) ==> (step matches Step::Done { reply: a, remove: b } && a
            == reply && (b is Some <==> remove is Some) && (b matches Some(p) ==> remove == Some(
            p@,
        ))),
        !(waits(step, work) && replied(step, reply, remove)),
{
}

} // verus!
