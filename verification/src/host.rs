//! What the engine asks of the operating system and what it hears back.
//!
//! The engine never touches a process or a descriptor itself. It hands its host one
//! `Request` at a time, the host carries it out and answers with a `Reply`, and the
//! engine decides what comes next.

use vstd::prelude::*;

verus! {

/// One step that a new child takes before it becomes the program.
#[derive(Debug, Clone, Copy, PartialEq, Eq, Structural)]
pub enum ChildOp {
    /// Make descriptor `onto` refer to what `from` refers to.
    Duplicate { from: i32, onto: i32 },
    /// Close descriptor `fd`.
    Close { fd: i32 },
}

/// Something for the host to do.
#[derive(Debug, Clone, PartialEq, Eq)]
pub enum Request {
    /// Say whether a file exists at `path`. Answered by `Reply::Exists`.
    Probe { path: String },
    /// Open the file at `path` for reading. Answered by `Reply::Opened` or
    /// `Reply::Failed`.
    OpenInput { path: String },
    /// Open the file at `path` for writing, created with the permission bits `mode`
    /// where it is missing and emptied where it is not. Answered as `OpenInput` is.
    OpenOutput { path: String, mode: u32 },
    /// Create a pipe. Answered by `Reply::Piped` or `Reply::Failed`.
    Pipe,
    /// Create a child process. The child takes the steps of `setup` in order and then
    /// becomes the program at `path` with the arguments `argv`. Where it cannot become
    /// the program, it prints `complaint` and ends with the exit status `status`. The
    /// child never answers; the parent answers with `Reply::Forked`.
    Fork { path: String, argv: Vec<String>, setup: Vec<ChildOp>, complaint: String, status: i32 },
    /// Close descriptor `fd` in the shell itself.
    Close { fd: i32 },
    /// Wait for a child: `pid` names it, or is -1 for any child, and `options` is what
    /// the system's wait call takes. Answered by `Reply::Waited`.
    Wait { pid: i32, options: i32 },
    /// Print `line` and end the line.
    Say { line: String },
    /// Nothing is left to do.
    Finish,
}

/// A `Request` with its texts as sequences of characters.
pub enum RequestView {
    Probe { path: Seq<char> },
    OpenInput { path: Seq<char> },
    OpenOutput { path: Seq<char>, mode: u32 },
    Pipe,
    Fork {
        path: Seq<char>,
        argv: Seq<Seq<char>>,
        setup: Seq<ChildOp>,
        complaint: Seq<char>,
        status: i32,
    },
    Close { fd: i32 },
    Wait { pid: i32, options: i32 },
    Say { line: Seq<char> },
    Finish,
}

impl View for Request {
    type V = RequestView;

    open spec fn view(&self) -> RequestView {
        match self {
            Request::Probe { path } => RequestView::Probe { path: path@ },
            Request::OpenInput { path } => RequestView::OpenInput { path: path@ },
            Request::OpenOutput { path, mode } => RequestView::OpenOutput {
                path: path@,
                mode: *mode,
            },
            Request::Pipe => RequestView::Pipe,
            Request::Fork { path, argv, setup, complaint, status } => RequestView::Fork {
                path: path@,
                argv: argv.deep_view(),
                setup: setup@,
                complaint: complaint@,
                status: *status,
            },
            Request::Close { fd } => RequestView::Close { fd: *fd },
            Request::Wait { pid, options } => RequestView::Wait { pid: *pid, options: *options },
            Request::Say { line } => RequestView::Say { line: line@ },
            Request::Finish => RequestView::Finish,
        }
    }
}

impl DeepView for Request {
    type V = RequestView;

    open spec fn deep_view(&self) -> RequestView {
        self@
    }
}

/// What the host reports after a `Request`.
#[derive(Debug, Clone, PartialEq, Eq)]
pub enum Reply {
    /// The request was carried out and there is nothing to report.
    Done,
    /// Whether the probed file exists.
    Exists(bool),
    /// The descriptor of the file that was opened.
    Opened { fd: i32 },
    /// The two ends of the pipe that was created.
    Piped { read: i32, write: i32 },
    /// What creating the child returned to the parent: the child's process id, or a
    /// negative number where no child was created.
    Forked { pid: i32 },
    /// What waiting returned: the process id of the child that has ended, 0 where none
    /// has and the wait was not to block, or a negative number.
    Waited { pid: i32 },
    /// The request could not be carried out; `reason` is the system's message.
    Failed { reason: String },
}

/// The descriptor of standard input.
pub open spec fn standard_input() -> i32 {
    0
}

/// The descriptor of standard output.
pub open spec fn standard_output() -> i32 {
    1
}

/// The wait option that returns at once where no child has ended.
pub open spec fn no_hang() -> i32 {
    1
}

/// The wait options of a wait that blocks.
pub open spec fn blocking() -> i32 {
    0
}

/// The process id that stands for any child in a wait.
pub open spec fn any_child() -> i32 {
    -1i32
}

/// The permission bits of a file made for output: read and write for its owner.
pub open spec fn owner_only() -> u32 {
    0o600
}

/// Reads the constant `libc::STDIN_FILENO`. Taken on trust: its value is 0, the
/// descriptor of standard input.
#[verifier::external_body]
pub(crate) fn stdin_fileno() -> (fd: i32)
    ensures
        fd == standard_input(),
{
    libc::STDIN_FILENO
}

/// Reads the constant `libc::STDOUT_FILENO`. Taken on trust: its value is 1, the
/// descriptor of standard output.
#[verifier::external_body]
pub(crate) fn stdout_fileno() -> (fd: i32)
    ensures
        fd == standard_output(),
{
    libc::STDOUT_FILENO
}

/// Reads the constant `libc::WNOHANG`. Taken on trust: its value is 1, as it is on
/// Linux, the system that this library is built for.
#[verifier::external_body]
pub(crate) fn wnohang() -> (options: i32)
    ensures
        options == no_hang(),
{
    libc::WNOHANG
}

} // verus!
