//! Launching a pipeline: one command or several joined by pipes, with the files that
//! replace the standard streams of a single command.
//!
//! A `Launch` is a state machine. Each call of `advance` takes the host's reply to the
//! request before and returns the next request, until it returns `Request::Finish`.
//! All pipes are made before any child is created; every stage is then resolved along
//! the search path and forked with its streams wired; the shell closes every descriptor
//! it was given exactly once; and a foreground launch waits for each child it created.

use vstd::prelude::*;
use vstd::string::*;
use crate::host::{
    any_child, blocking, owner_only, standard_input, standard_output, stdin_fileno, stdout_fileno,
    ChildOp, Reply, Request, RequestView,
};
use crate::jobs::{announcement, announcement_text, JobTable, JobTableView};
use crate::redirection::Redirection;
use crate::search::{candidates, search_candidates};
use crate::text::{copy_words, join, join_words};

verus! {

/// How the attempt to start one stage ended.
#[derive(Debug, Clone, Copy, PartialEq, Eq, Structural)]
pub enum SpawnResult {
    /// A child was created; this is its process id.
    Spawned(i32),
    /// No entry of the search path holds the program. No child was created.
    PathNotFound,
    /// The system could not create a child.
    ForkFailed,
}

/// How a launch ended as a whole.
#[derive(Debug, Clone, Copy, PartialEq, Eq, Structural)]
pub enum BuildResult {
    /// The launch has not finished.
    Unfinished,
    /// Every stage was attempted; its `SpawnResult` says how each one fared.
    Built,
    /// A file named by a redirection could not be opened. No child was created.
    RedirectionFileError,
    /// A pipe could not be made. No child was created.
    PipeCreationFailed,
}

/// Where a launch stands: which request the host is carrying out.
#[derive(Debug, Clone, Copy, PartialEq, Eq, Structural)]
pub enum Phase {
    /// Nothing was asked yet.
    Ready,
    /// The input file is being opened.
    OpeningInput,
    /// The output file is being opened.
    OpeningOutput,
    /// The next pipe is being made.
    Piping,
    /// Candidate `candidate` of the current stage is being probed.
    Probing { candidate: usize },
    /// The current stage is being forked.
    Forking,
    /// A line about the stage that was just attempted is being printed.
    Noting,
    /// A line about the failure that ends the launch is being printed.
    Aborting,
    /// Descriptor `next` of the shell's descriptors is being closed.
    Closing { next: usize },
    /// A child is being waited for; `done` waits came back before.
    Waiting { done: usize },
    /// The launch is over.
    Finished,
}

/// A `Phase` with its counters as mathematical integers.
pub enum PhaseView {
    Ready,
    OpeningInput,
    OpeningOutput,
    Piping,
    Probing { candidate: int },
    Forking,
    Noting,
    Aborting,
    Closing { next: int },
    Waiting { done: int },
    Finished,
}

impl View for Phase {
    type V = PhaseView;

    open spec fn view(&self) -> PhaseView {
        match self {
            Phase::Ready => PhaseView::Ready,
            Phase::OpeningInput => PhaseView::OpeningInput,
            Phase::OpeningOutput => PhaseView::OpeningOutput,
            Phase::Piping => PhaseView::Piping,
            Phase::Probing { candidate } => PhaseView::Probing { candidate: *candidate as int },
            Phase::Forking => PhaseView::Forking,
            Phase::Noting => PhaseView::Noting,
            Phase::Aborting => PhaseView::Aborting,
            Phase::Closing { next } => PhaseView::Closing { next: *next as int },
            Phase::Waiting { done } => PhaseView::Waiting { done: *done as int },
            Phase::Finished => PhaseView::Finished,
        }
    }
}

/// The line printed where no entry of the search path holds the program.
pub open spec fn path_not_found() -> Seq<char> {
    "Command Path Not Found"@
}

/// The line printed where the system could not create a child.
pub open spec fn fork_failed() -> Seq<char> {
    "External Command Failed"@
}

/// The line that a child prints where it cannot become its program.
pub open spec fn exec_failed() -> Seq<char> {
    "Command execution failed"@
}

/// The exit status of a child that could not become its program.
pub open spec fn exec_failed_status() -> i32 {
    1
}

/// The line printed where a pipe could not be made.
pub open spec fn pipe_failed() -> Seq<char> {
    "Failed to create pipe"@
}

/// The system's message in a reply that reports a failure, and nothing for any other.
pub open spec fn reason_of(reply: Reply) -> Seq<char> {
    match reply {
        Reply::Failed { reason } => reason@,
        _ => Seq::empty(),
    }
}

/// The line printed where the input file could not be opened.
pub open spec fn input_failed(reply: Reply) -> Seq<char> {
    "Error opening input file: "@ + reason_of(reply)
}

/// The line printed where the output file could not be opened.
pub open spec fn output_failed(reply: Reply) -> Seq<char> {
    "Error creating output file: "@ + reason_of(reply)
}

/// The token that separates the stages of a pipeline.
pub open spec fn bar() -> Seq<char> {
    seq!['|']
}

/// The line a launch is shown by: the words of its stages, a `|` between two stages
/// and a blank between two words.
pub open spec fn display_line(stages: Seq<Seq<Seq<char>>>) -> Seq<char> {
    join(join(stages, seq![bar()]), seq![' '])
}

/// The process ids of the children among the results, in order.
pub open spec fn spawned(results: Seq<SpawnResult>) -> Seq<i32>
    decreases results.len(),
{
    if results.len() == 0 {
        Seq::empty()
    } else {
        match results.last() {
            SpawnResult::Spawned(pid) => spawned(results.drop_last()).push(pid),
            _ => spawned(results.drop_last()),
        }
    }
}

/// The two ends of every pipe, pipe by pipe, the read end first.
pub open spec fn pipe_ends(pipes: Seq<(i32, i32)>) -> Seq<i32> {
    Seq::new(
        2 * pipes.len(),
        |k: int|
            if k % 2 == 0 {
                pipes[k / 2].0
            } else {
                pipes[k / 2].1
            },
    )
}

/// The descriptor, if there is one, as a sequence.
pub open spec fn maybe(fd: Option<i32>) -> Seq<i32> {
    match fd {
        Some(fd) => seq![fd],
        None => Seq::empty(),
    }
}

/// The state of a `Launch`.
pub struct LaunchView {
    /// The commands, one for each stage.
    pub stages: Seq<Seq<Seq<char>>>,
    /// The file that replaces the standard input of a single command.
    pub input: Option<Seq<char>>,
    /// The file that replaces the standard output of a single command.
    pub output: Option<Seq<char>>,
    /// Whether the launch is not to be waited for.
    pub background: bool,
    /// The search path, where the environment has one.
    pub search_path: Option<Seq<char>>,
    /// Which request is being carried out.
    pub phase: PhaseView,
    /// How the launch ended, once that is decided.
    pub outcome: BuildResult,
    /// The descriptor of the input file, once it is open.
    pub input_fd: Option<i32>,
    /// The descriptor of the output file, once it is open.
    pub output_fd: Option<i32>,
    /// The read and write end of each pipe made so far.
    pub pipes: Seq<(i32, i32)>,
    /// How each stage attempted so far fared.
    pub results: Seq<SpawnResult>,
    /// The process ids of the children created so far.
    pub pids: Seq<i32>,
    /// The files that may be the current stage's program.
    pub candidates: Seq<Seq<char>>,
}

impl LaunchView {
    /// Whether the pipes are made and the stages are being attempted.
    pub open spec fn staging(self) -> bool {
        &&& self.outcome == BuildResult::Unfinished
        &&& self.pipes.len() + 1 == self.stages.len()
        &&& self.input is Some ==> self.input_fd is Some
        &&& self.output is Some ==> self.output_fd is Some
    }

    /// Whether the current stage is being resolved: it is one of the stages and the
    /// candidates are those of its program.
    pub open spec fn resolving(self) -> bool {
        &&& self.staging()
        &&& self.results.len() < self.stages.len()
        &&& self.candidates == candidates(
            self.search_path,
            self.stages[self.results.len() as int][0],
        )
    }

    /// The part of the invariant that holds in every phase alike.
    pub open spec fn sound(self) -> bool {
        &&& self.stages.len() >= 1
        &&& forall|i: int| 0 <= i < self.stages.len() ==> (#[trigger] self.stages[i]).len() >= 1
        &&& (self.input is Some || self.output is Some) ==> self.stages.len() == 1
        &&& self.pipes.len() < self.stages.len()
        &&& self.results.len() <= self.stages.len()
        &&& self.results.len() > 0 ==> self.pipes.len() + 1 == self.stages.len()
        &&& self.pids == spawned(self.results)
        &&& self.input_fd is Some ==> self.input is Some
        &&& self.output_fd is Some ==> self.output is Some
        &&& self.outcome == BuildResult::Built ==> self.results.len() == self.stages.len()
        &&& self.outcome != BuildResult::Built && self.outcome != BuildResult::Unfinished
            ==> self.results.len() == 0
        &&& self.outcome == BuildResult::PipeCreationFailed ==> self.pipes.len() + 1
            < self.stages.len()
    }

    /// The invariant of a launch: it is sound, and it is where its phase says.
    pub open spec fn wf(self) -> bool {
        &&& self.sound()
        &&& match self.phase {
            PhaseView::Ready => {
                &&& self.outcome == BuildResult::Unfinished
                &&& self.pipes.len() == 0
                &&& self.results.len() == 0
                &&& self.input_fd is None
                &&& self.output_fd is None
            },
            PhaseView::OpeningInput => {
                &&& self.outcome == BuildResult::Unfinished
                &&& self.pipes.len() == 0
                &&& self.results.len() == 0
                &&& self.input is Some
                &&& self.input_fd is None
                &&& self.output_fd is None
            },
            PhaseView::OpeningOutput => {
                &&& self.outcome == BuildResult::Unfinished
                &&& self.pipes.len() == 0
                &&& self.results.len() == 0
                &&& self.output is Some
                &&& self.output_fd is None
                &&& self.input is Some ==> self.input_fd is Some
            },
            PhaseView::Piping => {
                &&& self.outcome == BuildResult::Unfinished
                &&& self.pipes.len() + 1 < self.stages.len()
                &&& self.results.len() == 0
            },
            PhaseView::Probing { candidate } => {
                &&& self.resolving()
                &&& 0 <= candidate < self.candidates.len()
            },
            PhaseView::Forking => self.resolving(),
            PhaseView::Noting => {
                &&& self.staging()
                &&& self.results.len() >= 1
            },
            PhaseView::Aborting => {
                &&& self.outcome != BuildResult::Unfinished
                &&& self.outcome != BuildResult::Built
            },
            PhaseView::Closing { next } => {
                &&& self.outcome != BuildResult::Unfinished
                &&& 0 <= next < self.descriptors().len()
            },
            PhaseView::Waiting { done } => {
                &&& self.outcome == BuildResult::Built
                &&& !self.background
                &&& 0 <= done < self.pids.len()
            },
            PhaseView::Finished => self.outcome != BuildResult::Unfinished,
        }
    }

    /// A launch of these stages that has asked for nothing yet.
    pub open spec fn fresh(
        stages: Seq<Seq<Seq<char>>>,
        input: Option<Seq<char>>,
        output: Option<Seq<char>>,
        background: bool,
        search_path: Option<Seq<char>>,
    ) -> LaunchView {
        LaunchView {
            stages,
            input,
            output,
            background,
            search_path,
            phase: PhaseView::Ready,
            outcome: BuildResult::Unfinished,
            input_fd: None,
            output_fd: None,
            pipes: Seq::empty(),
            results: Seq::empty(),
            pids: Seq::empty(),
            candidates: Seq::empty(),
        }
    }

    /// The line the launch is shown by.
    pub open spec fn line(self) -> Seq<char> {
        display_line(self.stages)
    }

    /// Every descriptor that the shell holds for this launch: the ends of the pipes,
    /// then the input file, then the output file.
    pub open spec fn descriptors(self) -> Seq<i32> {
        pipe_ends(self.pipes) + maybe(self.input_fd) + maybe(self.output_fd)
    }

    /// What stage `i` reads its standard input from, if not from the shell's own: the
    /// input file for the first stage, the pipe before it for any other.
    pub open spec fn source(self, i: int) -> Option<i32> {
        if i == 0 {
            self.input_fd
        } else {
            Some(self.pipes[i - 1].0)
        }
    }

    /// What stage `i` writes its standard output to, if not to the shell's own: the
    /// output file for the last stage, the pipe after it for any other.
    pub open spec fn sink(self, i: int) -> Option<i32> {
        if i == self.stages.len() - 1 {
            self.output_fd
        } else {
            Some(self.pipes[i].1)
        }
    }

    /// The steps that put the source and the sink of stage `i` in the place of its
    /// standard input and output.
    pub open spec fn wiring(self, i: int) -> Seq<ChildOp> {
        (match self.source(i) {
            Some(fd) => seq![ChildOp::Duplicate { from: fd, onto: standard_input() }],
            None => Seq::empty(),
        }) + (match self.sink(i) {
            Some(fd) => seq![ChildOp::Duplicate { from: fd, onto: standard_output() }],
            None => Seq::empty(),
        })
    }

    /// The steps that the child of stage `i` takes before it becomes the program: it
    /// wires its streams and then closes every descriptor of the launch, each once.
    pub open spec fn setup(self, i: int) -> Seq<ChildOp> {
        self.wiring(i) + Seq::new(
            self.descriptors().len(),
            |k: int| ChildOp::Close { fd: self.descriptors()[k] },
        )
    }

    /// The same launch in another phase.
    pub open spec fn at(self, phase: PhaseView) -> LaunchView {
        LaunchView { phase, ..self }
    }

    /// What is asked once the input file is settled: the output file, if one is named.
    pub open spec fn begin_output(self) -> (LaunchView, RequestView) {
        match self.output {
            Some(path) => (
                self.at(PhaseView::OpeningOutput),
                RequestView::OpenOutput { path, mode: owner_only() },
            ),
            None => self.begin_pipes(),
        }
    }

    /// What is asked once the files are open and some pipes are made: the next pipe,
    /// while there are fewer pipes than places between stages.
    pub open spec fn begin_pipes(self) -> (LaunchView, RequestView) {
        if self.pipes.len() + 1 < self.stages.len() {
            (self.at(PhaseView::Piping), RequestView::Pipe)
        } else {
            self.begin_stage()
        }
    }

    /// What is asked at the start of the next stage: a probe of the first candidate for
    /// its program. Without any candidate the stage has failed already, and this is said.
    pub open spec fn begin_stage(self) -> (LaunchView, RequestView) {
        let found = candidates(self.search_path, self.stages[self.results.len() as int][0]);
        if found.len() == 0 {
            (
                LaunchView {
                    phase: PhaseView::Noting,
                    results: self.results.push(SpawnResult::PathNotFound),
                    candidates: found,
                    ..self
                },
                RequestView::Say { line: path_not_found() },
            )
        } else {
            (
                LaunchView {
                    phase: PhaseView::Probing { candidate: 0 },
                    candidates: found,
                    ..self
                },
                RequestView::Probe { path: found[0] },
            )
        }
    }

    /// What is asked once a stage is dealt with: the next stage, or, after the last
    /// one, the closing of the shell's descriptors.
    pub open spec fn next_stage(self) -> (LaunchView, RequestView) {
        if self.results.len() < self.stages.len() {
            self.begin_stage()
        } else {
            LaunchView { outcome: BuildResult::Built, ..self }.close_from(0)
        }
    }

    /// What is asked when the launch is given up: the failure is said first.
    pub open spec fn abort(self, outcome: BuildResult, line: Seq<char>) -> (
        LaunchView,
        RequestView,
    ) {
        (LaunchView { phase: PhaseView::Aborting, outcome, ..self }, RequestView::Say { line })
    }

    /// What is asked once the descriptors before `next` are closed: the closing of
    /// descriptor `next`, or, after the last one, the first wait.
    pub open spec fn close_from(self, next: int) -> (LaunchView, RequestView) {
        if 0 <= next < self.descriptors().len() {
            (
                self.at(PhaseView::Closing { next }),
                RequestView::Close { fd: self.descriptors()[next] },
            )
        } else {
            self.wait_from(0)
        }
    }

    /// The process that a wait names: the child itself where there is one stage, any
    /// child where there are several, since they may end in any order.
    pub open spec fn awaited(self) -> i32 {
        if self.stages.len() == 1 {
            self.pids[0]
        } else {
            any_child()
        }
    }

    /// What is asked once `done` waits came back: one more wait, while a launch in the
    /// foreground has created more children than that; else nothing.
    pub open spec fn wait_from(self, done: int) -> (LaunchView, RequestView) {
        if self.outcome == BuildResult::Built && !self.background && 0 <= done < self.pids.len() {
            (
                self.at(PhaseView::Waiting { done }),
                RequestView::Wait { pid: self.awaited(), options: blocking() },
            )
        } else {
            (self.at(PhaseView::Finished), RequestView::Finish)
        }
    }

    /// The launch after a child was created for the current stage.
    pub open spec fn with_child(self, pid: i32) -> LaunchView {
        LaunchView {
            results: self.results.push(SpawnResult::Spawned(pid)),
            pids: self.pids.push(pid),
            ..self
        }
    }

    /// Whether the child just created is to be added to the job table: it is the child
    /// of the last stage of a launch in the background.
    pub open spec fn registers(self) -> bool {
        self.background && self.results.len() + 1 == self.stages.len()
    }

    /// One step of the launch: from the state, the job table and the host's reply to
    /// the request before, to the new state, the new job table and the next request.
    ///
    /// - At the start the files are opened, the input file first. A file that cannot be
    ///   opened ends the launch: this is said, what was opened is closed, and no child
    ///   is created.
    /// - Then the pipes are made, one fewer than there are stages. A pipe that cannot be
    ///   made ends the launch in the same way.
    /// - Then the stages are attempted in order. The candidates for a stage's program
    ///   are probed in the order of the search path, and a child is asked for with the
    ///   first that exists; a reply that does not say that the file exists counts as a
    ///   miss. A reply to the fork with a process id above zero is a child; any other
    ///   reply is a failure, which is said. A stage without a program is said to have
    ///   none. Either failure ends that stage only.
    /// - The child of the last stage of a launch in the background is added to the job
    ///   table and announced, where a number is reserved for it.
    /// - After the last stage the shell's descriptors are closed, each once.
    /// - Then a launch in the foreground waits once for each child that it created.
    pub open spec fn step(self, jobs: JobTableView, reply: Reply) -> (
        LaunchView,
        JobTableView,
        RequestView,
    ) {
        match self.phase {
            PhaseView::Ready => {
                let (next, request) = match self.input {
                    Some(path) => (
                        self.at(PhaseView::OpeningInput),
                        RequestView::OpenInput { path },
                    ),
                    None => self.begin_output(),
                };
                (next, jobs, request)
            },
            PhaseView::OpeningInput => {
                let (next, request) = match reply {
                    Reply::Opened { fd } => LaunchView {
                        input_fd: Some(fd),
                        ..self
                    }.begin_output(),
                    _ => self.abort(BuildResult::RedirectionFileError, input_failed(reply)),
                };
                (next, jobs, request)
            },
            PhaseView::OpeningOutput => {
                let (next, request) = match reply {
                    Reply::Opened { fd } => LaunchView {
                        output_fd: Some(fd),
                        ..self
                    }.begin_pipes(),
                    _ => self.abort(BuildResult::RedirectionFileError, output_failed(reply)),
                };
                (next, jobs, request)
            },
            PhaseView::Piping => {
                let (next, request) = match reply {
                    Reply::Piped { read, write } => LaunchView {
                        pipes: self.pipes.push((read, write)),
                        ..self
                    }.begin_pipes(),
                    _ => self.abort(BuildResult::PipeCreationFailed, pipe_failed()),
                };
                (next, jobs, request)
            },
            PhaseView::Probing { candidate } => {
                let stage = self.results.len() as int;
                if reply == Reply::Exists(true) {
                    (
                        self.at(PhaseView::Forking),
                        jobs,
                        RequestView::Fork {
                            path: self.candidates[candidate],
                            argv: self.stages[stage],
                            setup: self.setup(stage),
                            complaint: exec_failed(),
                            status: exec_failed_status(),
                        },
                    )
                } else if candidate + 1 < self.candidates.len() {
                    (
                        self.at(PhaseView::Probing { candidate: candidate + 1 }),
                        jobs,
                        RequestView::Probe { path: self.candidates[candidate + 1] },
                    )
                } else {
                    (
                        LaunchView {
                            phase: PhaseView::Noting,
                            results: self.results.push(SpawnResult::PathNotFound),
                            ..self
                        },
                        jobs,
                        RequestView::Say { line: path_not_found() },
                    )
                }
            },
            PhaseView::Forking => {
                match reply {
                    Reply::Forked { pid } if pid > 0 => {
                        if self.registers() && jobs.pending {
                            (
                                self.with_child(pid).at(PhaseView::Noting),
                                jobs.add(pid, self.line()),
                                RequestView::Say {
                                    line: announcement((jobs.next_number - 1) as i32, pid),
                                },
                            )
                        } else {
                            let (next, request) = self.with_child(pid).next_stage();
                            (next, jobs, request)
                        }
                    },
                    _ => (
                        LaunchView {
                            phase: PhaseView::Noting,
                            results: self.results.push(SpawnResult::ForkFailed),
                            ..self
                        },
                        jobs,
                        RequestView::Say { line: fork_failed() },
                    ),
                }
            },
            PhaseView::Noting => {
                let (next, request) = self.next_stage();
                (next, jobs, request)
            },
            PhaseView::Aborting => {
                let (next, request) = self.close_from(0);
                (next, jobs, request)
            },
            PhaseView::Closing { next } => {
                let (after, request) = self.close_from(next + 1);
                (after, jobs, request)
            },
            PhaseView::Waiting { done } => {
                let (after, request) = self.wait_from(done + 1);
                (after, jobs, request)
            },
            PhaseView::Finished => (self, jobs, RequestView::Finish),
        }
    }
}

/// Whether the stages can be launched: there is at least one, and none is empty.
pub open spec fn runnable(stages: Seq<Seq<Seq<char>>>) -> bool {
    &&& stages.len() >= 1
    &&& forall|i: int| 0 <= i < stages.len() ==> (#[trigger] stages[i]).len() >= 1
}

/// A launch under way. See the module's description.
pub struct Launch {
    stages: Vec<Vec<String>>,
    input: Option<String>,
    output: Option<String>,
    background: bool,
    search_path: Option<String>,
    line: String,
    phase: Phase,
    outcome: BuildResult,
    input_fd: Option<i32>,
    output_fd: Option<i32>,
    pipes: Vec<(i32, i32)>,
    results: Vec<SpawnResult>,
    pids: Vec<i32>,
    candidates: Vec<String>,
}

impl View for Launch {
    type V = LaunchView;

    closed spec fn view(&self) -> LaunchView {
        LaunchView {
            stages: self.stages.deep_view(),
            input: self.input.deep_view(),
            output: self.output.deep_view(),
            background: self.background,
            search_path: self.search_path.deep_view(),
            phase: self.phase@,
            outcome: self.outcome,
            input_fd: self.input_fd,
            output_fd: self.output_fd,
            pipes: self.pipes@,
            results: self.results@,
            pids: self.pids@,
            candidates: self.candidates.deep_view(),
        }
    }
}

/// The words of the stages in one row, a `|` between two stages.
fn flatten(stages: &Vec<Vec<String>>) -> (words: Vec<String>)
    ensures
        words.deep_view() == join(stages.deep_view(), seq![bar()]),
{
    let mut words: Vec<String> = Vec::new();
    let mut i: usize = 0;
    while i < stages.len()
        invariant
            i <= stages.len(),
            words.deep_view() == join(stages.deep_view().take(i as int), seq![bar()]),
        decreases stages.len() - i,
    {
        if i > 0 {
            words.push(String::from_str("|"));
            proof {
                reveal_strlit("|");
                assert("|"@ =~= bar());
            }
        }
        let ghost middle = words.deep_view();
        let stage = &stages[i];
        let mut k: usize = 0;
        while k < stage.len()
            invariant
                k <= stage.len(),
                words.deep_view() == middle + stage.deep_view().take(k as int),
            decreases stage.len() - k,
        {
            let ghost sofar = words.deep_view();
            words.push(stage[k].clone());
            assert(words.deep_view() =~~= sofar.push(stage[k as int]@));
            k += 1;
        }
        proof {
            let upto = stages.deep_view().take(i + 1);
            assert(stage.deep_view().take(stage.len() as int) =~~= stage.deep_view());
            assert(upto.drop_last() =~~= stages.deep_view().take(i as int));
        }
        i += 1;
    }
    assert(stages.deep_view().take(stages.len() as int) =~~= stages.deep_view());
    words
}

/// Whether there is a stage and no stage is empty.
fn is_runnable(stages: &Vec<Vec<String>>) -> (ok: bool)
    ensures
        ok == runnable(stages.deep_view()),
{
    if stages.len() == 0 {
        return false;
    }
    let mut i: usize = 0;
    while i < stages.len()
        invariant
            i <= stages.len(),
            forall|k: int| 0 <= k < i ==> (#[trigger] stages.deep_view()[k]).len() >= 1,
        decreases stages.len() - i,
    {
        assert(stages.deep_view()[i as int] == stages[i as int].deep_view());
        if stages[i].len() == 0 {
            return false;
        }
        i += 1;
    }
    true
}

impl Launch {
    /// Whether the line the launch is shown by is the one its stages give.
    pub closed spec fn line_kept(&self) -> bool {
        self.line@ == self@.line()
    }

    /// The invariant of a launch, which every operation keeps.
    pub open spec fn wf(&self) -> bool {
        &&& self@.wf()
        &&& self.line_kept()
    }

    fn build(
        stages: Vec<Vec<String>>,
        input: Option<String>,
        output: Option<String>,
        background: bool,
        search_path: Option<String>,
    ) -> (launch: Option<Launch>)
        requires
            (input is Some || output is Some) ==> stages.len() == 1,
        ensures
            launch is Some <==> runnable(stages.deep_view()),
            launch matches Some(l) ==> l.wf() && l@ == LaunchView::fresh(
                stages.deep_view(),
                input.deep_view(),
                output.deep_view(),
                background,
                search_path.deep_view(),
            ),
    {
        if !is_runnable(&stages) {
            return None;
        }
        let words = flatten(&stages);
        let line = join_words(&words, " ");
        proof {
            reveal_strlit(" ");
            assert(" "@ =~= seq![' ']);
        }
        let launch = Launch {
            stages,
            input,
            output,
            background,
            search_path,
            line,
            phase: Phase::Ready,
            outcome: BuildResult::Unfinished,
            input_fd: None,
            output_fd: None,
            pipes: Vec::new(),
            results: Vec::new(),
            pids: Vec::new(),
            candidates: Vec::new(),
        };
        proof {
            assert(launch@.candidates =~~= Seq::empty());
        }
        Some(launch)
    }

    /// A launch of one command. Returns `None` where the command is empty.
    pub fn command(
        command: Vec<String>,
        background: bool,
        search_path: Option<String>,
    ) -> (launch: Option<Launch>)
        ensures
            launch is Some <==> command.len() >= 1,
            launch matches Some(l) ==> l.wf() && l@ == LaunchView::fresh(
                seq![command.deep_view()],
                None,
                None,
                background,
                search_path.deep_view(),
            ),
    {
        let ghost words = command.deep_view();
        let mut stages: Vec<Vec<String>> = Vec::new();
        stages.push(command);
        assert(stages.deep_view() =~~= seq![words]);
        Launch::build(stages, None, None, background, search_path)
    }

    /// A launch of one command whose standard input and output are the files that the
    /// redirection names. Returns `None` where the command is empty.
    pub fn redirected(
        redirection: Redirection,
        background: bool,
        search_path: Option<String>,
    ) -> (launch: Option<Launch>)
        ensures
            launch is Some <==> redirection.command.len() >= 1,
            launch matches Some(l) ==> l.wf() && l@ == LaunchView::fresh(
                seq![redirection@.command],
                redirection@.input,
                redirection@.output,
                background,
                search_path.deep_view(),
            ),
    {
        let ghost words = redirection.command.deep_view();
        let mut stages: Vec<Vec<String>> = Vec::new();
        stages.push(redirection.command);
        assert(stages.deep_view() =~~= seq![words]);
        Launch::build(stages, redirection.input, redirection.output, background, search_path)
    }

    /// A launch of the commands as the stages of a pipeline. Returns `None` where there
    /// is no stage or a stage is empty.
    pub fn pipeline(
        stages: Vec<Vec<String>>,
        background: bool,
        search_path: Option<String>,
    ) -> (launch: Option<Launch>)
        ensures
            launch is Some <==> runnable(stages.deep_view()),
            launch matches Some(l) ==> l.wf() && l@ == LaunchView::fresh(
                stages.deep_view(),
                None,
                None,
                background,
                search_path.deep_view(),
            ),
    {
        Launch::build(stages, None, None, background, search_path)
    }

    /// Which request is being carried out.
    pub fn phase(&self) -> (phase: Phase)
        ensures
            phase@ == self@.phase,
    {
        self.phase
    }

    /// Whether the launch is over.
    pub fn is_finished(&self) -> (finished: bool)
        ensures
            finished == (self@.phase is Finished),
    {
        match self.phase {
            Phase::Finished => true,
            _ => false,
        }
    }

    /// How the launch ended, or `Unfinished`.
    pub fn outcome(&self) -> (outcome: BuildResult)
        ensures
            outcome == self@.outcome,
    {
        self.outcome
    }

    /// How each stage attempted so far fared.
    pub fn results(&self) -> (results: &Vec<SpawnResult>)
        ensures
            results@ == self@.results,
    {
        &self.results
    }

    /// Whether the launch did all it was asked: every stage was attempted and every
    /// attempt created a child.
    pub fn succeeded(&self) -> (yes: bool)
        ensures
            yes == (self@.outcome == BuildResult::Built && forall|i: int|
                0 <= i < self@.results.len() ==> #[trigger] self@.results[i] is Spawned),
    {
        let built = match self.outcome {
            BuildResult::Built => true,
            _ => false,
        };
        if !built {
            return false;
        }
        let mut i: usize = 0;
        while i < self.results.len()
            invariant
                i <= self.results.len(),
                forall|k: int| 0 <= k < i ==> #[trigger] self.results@[k] is Spawned,
            decreases self.results.len() - i,
        {
            match self.results[i] {
                SpawnResult::Spawned(_) => {},
                _ => {
                    return false;
                },
            }
            i += 1;
        }
        true
    }

    /// The line the launch is shown by.
    pub fn line(&self) -> (line: &String)
        requires
            self.wf(),
        ensures
            line@ == self@.line(),
    {
        &self.line
    }

    fn descriptors(&self) -> (fds: Vec<i32>)
        ensures
            fds@ == self@.descriptors(),
    {
        let mut fds: Vec<i32> = Vec::new();
        let mut j: usize = 0;
        while j < self.pipes.len()
            invariant
                j <= self.pipes.len(),
                fds@ == pipe_ends(self.pipes@.take(j as int)),
            decreases self.pipes.len() - j,
        {
            let ghost before = fds@;
            fds.push(self.pipes[j].0);
            fds.push(self.pipes[j].1);
            assert(fds@ =~= pipe_ends(self.pipes@.take(j + 1))) by {
                assert forall|k: int| 0 <= k < fds@.len() implies fds@[k] == pipe_ends(
                    self.pipes@.take(j + 1),
                )[k] by {
                    if k < 2 * j {
                        assert(fds@[k] == before[k]);
                    }
                }
            }
            j += 1;
        }
        match self.input_fd {
            Some(fd) => {
                fds.push(fd);
            },
            None => {},
        }
        let ghost middle = fds@;
        match self.output_fd {
            Some(fd) => {
                fds.push(fd);
            },
            None => {},
        }
        assert(fds@ =~= middle + maybe(self.output_fd));
        fds
    }

    fn setup(&self, stage: usize) -> (ops: Vec<ChildOp>)
        requires
            stage < self.stages.len(),
            self.pipes.len() + 1 == self.stages.len(),
        ensures
            ops@ == self@.setup(stage as int),
    {
        let mut ops: Vec<ChildOp> = Vec::new();
        let source = if stage == 0 {
            self.input_fd
        } else {
            Some(self.pipes[stage - 1].0)
        };
        let sink = if stage + 1 == self.stages.len() {
            self.output_fd
        } else {
            Some(self.pipes[stage].1)
        };
        assert(source == self@.source(stage as int));
        match source {
            Some(fd) => {
                ops.push(ChildOp::Duplicate { from: fd, onto: stdin_fileno() });
            },
            None => {},
        }
        match sink {
            Some(fd) => {
                ops.push(ChildOp::Duplicate { from: fd, onto: stdout_fileno() });
            },
            None => {},
        }
        assert(ops@ =~= self@.wiring(stage as int));
        let fds = self.descriptors();
        let ghost wired = ops@;
        let mut k: usize = 0;
        while k < fds.len()
            invariant
                k <= fds.len(),
                ops@.len() == wired.len() + k,
                forall|j: int| 0 <= j < wired.len() ==> ops@[j] == wired[j],
                forall|j: int|
                    0 <= j < k ==> ops@[wired.len() + j] == (ChildOp::Close { fd: fds@[j] }),
            decreases fds.len() - k,
        {
            ops.push(ChildOp::Close { fd: fds[k] });
            k += 1;
        }
        ops
    }

    fn wait_from(&mut self, done: usize) -> (request: Request)
        requires
            old(self)@.sound(),
        ensures
            (final(self)@, request@) == old(self)@.wait_from(done as int),
            final(self).line == old(self).line,
    {
        let built = match self.outcome {
            BuildResult::Built => true,
            _ => false,
        };
        if built && !self.background && done < self.pids.len() {
            let pid = if self.stages.len() == 1 {
                self.pids[0]
            } else {
                -1
            };
            self.phase = Phase::Waiting { done };
            Request::Wait { pid, options: 0 }
        } else {
            self.phase = Phase::Finished;
            Request::Finish
        }
    }

    fn close_from(&mut self, next: usize) -> (request: Request)
        requires
            old(self)@.sound(),
        ensures
            (final(self)@, request@) == old(self)@.close_from(next as int),
            final(self).line == old(self).line,
    {
        let fds = self.descriptors();
        if next < fds.len() {
            self.phase = Phase::Closing { next };
            Request::Close { fd: fds[next] }
        } else {
            self.wait_from(0)
        }
    }

    fn abort(&mut self, outcome: BuildResult, line: String) -> (request: Request)
        ensures
            (final(self)@, request@) == old(self)@.abort(outcome, line@),
            final(self).line == old(self).line,
    {
        self.phase = Phase::Aborting;
        self.outcome = outcome;
        Request::Say { line }
    }

    fn begin_stage(&mut self) -> (request: Request)
        requires
            old(self)@.sound(),
            old(self)@.results.len() < old(self)@.stages.len(),
        ensures
            (final(self)@, request@) == old(self)@.begin_stage(),
            final(self).line == old(self).line,
    {
        let stage = self.results.len();
        assert(self@.stages[stage as int] == self.stages[stage as int].deep_view());
        let found = search_candidates(&self.search_path, &self.stages[stage][0]);
        if found.len() == 0 {
            self.candidates = found;
            self.results.push(SpawnResult::PathNotFound);
            self.phase = Phase::Noting;
            let request = Request::Say { line: String::from_str("Command Path Not Found") };
            request
        } else {
            let request = Request::Probe { path: found[0].clone() };
            self.candidates = found;
            self.phase = Phase::Probing { candidate: 0 };
            request
        }
    }

    fn next_stage(&mut self) -> (request: Request)
        requires
            old(self)@.sound(),
            old(self)@.staging(),
        ensures
            (final(self)@, request@) == old(self)@.next_stage(),
            final(self).line == old(self).line,
    {
        assert(self@.stages.len() == self.stages.len());
        if self.results.len() < self.stages.len() {
            self.begin_stage()
        } else {
            self.outcome = BuildResult::Built;
            self.close_from(0)
        }
    }

    fn begin_pipes(&mut self) -> (request: Request)
        requires
            old(self)@.sound(),
            old(self)@.results.len() == 0,
        ensures
            (final(self)@, request@) == old(self)@.begin_pipes(),
            final(self).line == old(self).line,
    {
        assert(self@.stages.len() == self.stages.len());
        if self.pipes.len() + 1 < self.stages.len() {
            self.phase = Phase::Piping;
            Request::Pipe
        } else {
            self.begin_stage()
        }
    }

    fn begin_output(&mut self) -> (request: Request)
        requires
            old(self)@.sound(),
            old(self)@.results.len() == 0,
        ensures
            (final(self)@, request@) == old(self)@.begin_output(),
            final(self).line == old(self).line,
    {
        let path = match &self.output {
            Some(path) => Some(path.clone()),
            None => None,
        };
        match path {
            Some(path) => {
                self.phase = Phase::OpeningOutput;
                Request::OpenOutput { path, mode: 0o600 }
            },
            None => self.begin_pipes(),
        }
    }

    fn after_ready(&mut self) -> (request: Request)
        requires
            old(self).wf(),
            old(self)@.phase is Ready,
        ensures
            final(self).line == old(self).line,
            forall|jobs: JobTableView, reply: Reply|
                (final(self)@, jobs, request@) == #[trigger] old(self)@.step(jobs, reply),
    {
        let path = match &self.input {
            Some(path) => Some(path.clone()),
            None => None,
        };
        match path {
            Some(path) => {
                self.phase = Phase::OpeningInput;
                Request::OpenInput { path }
            },
            None => self.begin_output(),
        }
    }

    fn after_input(&mut self, reply: &Reply) -> (request: Request)
        requires
            old(self).wf(),
            old(self)@.phase is OpeningInput,
        ensures
            final(self).line == old(self).line,
            forall|jobs: JobTableView|
                (final(self)@, jobs, request@) == #[trigger] old(self)@.step(jobs, *reply),
    {
        match reply {
            Reply::Opened { fd } => {
                self.input_fd = Some(*fd);
                self.begin_output()
            },
            Reply::Failed { reason } => {
                let mut line = String::from_str("Error opening input file: ");
                line.append(reason.as_str());
                self.abort(BuildResult::RedirectionFileError, line)
            },
            _ => {
                let line = String::from_str("Error opening input file: ");
                self.abort(BuildResult::RedirectionFileError, line)
            },
        }
    }

    fn after_output(&mut self, reply: &Reply) -> (request: Request)
        requires
            old(self).wf(),
            old(self)@.phase is OpeningOutput,
        ensures
            final(self).line == old(self).line,
            forall|jobs: JobTableView|
                (final(self)@, jobs, request@) == #[trigger] old(self)@.step(jobs, *reply),
    {
        match reply {
            Reply::Opened { fd } => {
                self.output_fd = Some(*fd);
                self.begin_pipes()
            },
            Reply::Failed { reason } => {
                let mut line = String::from_str("Error creating output file: ");
                line.append(reason.as_str());
                self.abort(BuildResult::RedirectionFileError, line)
            },
            _ => {
                let line = String::from_str("Error creating output file: ");
                self.abort(BuildResult::RedirectionFileError, line)
            },
        }
    }

    fn after_pipe(&mut self, reply: &Reply) -> (request: Request)
        requires
            old(self).wf(),
            old(self)@.phase is Piping,
        ensures
            final(self).line == old(self).line,
            forall|jobs: JobTableView|
                (final(self)@, jobs, request@) == #[trigger] old(self)@.step(jobs, *reply),
    {
        match reply {
            Reply::Piped { read, write } => {
                self.pipes.push((*read, *write));
                self.begin_pipes()
            },
            _ => {
                self.abort(
                    BuildResult::PipeCreationFailed,
                    String::from_str("Failed to create pipe"),
                )
            },
        }
    }

    fn after_probe(&mut self, candidate: usize, reply: &Reply) -> (request: Request)
        requires
            old(self).wf(),
            old(self)@.phase == (PhaseView::Probing { candidate: candidate as int }),
        ensures
            final(self).line == old(self).line,
            forall|jobs: JobTableView|
                (final(self)@, jobs, request@) == #[trigger] old(self)@.step(jobs, *reply),
    {
        let exists = match reply {
            Reply::Exists(found) => *found,
            _ => false,
        };
        let stage = self.results.len();
        assert(self@.candidates.len() == self.candidates.len());
        if exists {
            let request = Request::Fork {
                path: self.candidates[candidate].clone(),
                argv: copy_words(&self.stages[stage]),
                setup: self.setup(stage),
                complaint: String::from_str("Command execution failed"),
                status: 1,
            };
            self.phase = Phase::Forking;
            request
        } else if candidate + 1 < self.candidates.len() {
            self.phase = Phase::Probing { candidate: candidate + 1 };
            Request::Probe { path: self.candidates[candidate + 1].clone() }
        } else {
            self.results.push(SpawnResult::PathNotFound);
            self.phase = Phase::Noting;
            Request::Say { line: String::from_str("Command Path Not Found") }
        }
    }

    fn after_fork(&mut self, jobs: &mut JobTable, reply: &Reply) -> (request: Request)
        requires
            old(self).wf(),
            old(self)@.phase is Forking,
            old(jobs).wf(),
        ensures
            final(self).line == old(self).line,
            (final(self)@, final(jobs)@, request@) == old(self)@.step(old(jobs)@, *reply),
    {
        let ghost before = self@;
        let child = match reply {
            Reply::Forked { pid } => if *pid > 0 {
                Some(*pid)
            } else {
                None
            },
            _ => None,
        };
        assert(self@.stages.len() == self.stages.len());
        match child {
            Some(pid) => {
                let registers = self.background && self.results.len() + 1 == self.stages.len();
                self.results.push(SpawnResult::Spawned(pid));
                self.pids.push(pid);
                proof {
                    lemma_spawned_push(before.results, SpawnResult::Spawned(pid));
                }
                let number = if registers {
                    jobs.add(pid, self.line.clone())
                } else {
                    None
                };
                match number {
                    Some(number) => {
                        self.phase = Phase::Noting;
                        Request::Say { line: announcement_text(number, pid) }
                    },
                    None => self.next_stage(),
                }
            },
            None => {
                self.results.push(SpawnResult::ForkFailed);
                self.phase = Phase::Noting;
                Request::Say { line: String::from_str("External Command Failed") }
            },
        }
    }

    fn after_close(&mut self, next: usize) -> (request: Request)
        requires
            old(self).wf(),
            old(self)@.phase == (PhaseView::Closing { next: next as int }),
        ensures
            final(self).line == old(self).line,
            forall|jobs: JobTableView, reply: Reply|
                (final(self)@, jobs, request@) == #[trigger] old(self)@.step(jobs, reply),
    {
        let held = self.descriptors().len();
        self.close_from(next + 1)
    }

    fn after_wait(&mut self, done: usize) -> (request: Request)
        requires
            old(self).wf(),
            old(self)@.phase == (PhaseView::Waiting { done: done as int }),
        ensures
            final(self).line == old(self).line,
            forall|jobs: JobTableView, reply: Reply|
                (final(self)@, jobs, request@) == #[trigger] old(self)@.step(jobs, reply),
    {
        assert(done < self.pids.len());
        self.wait_from(done + 1)
    }

    /// Takes the host's reply to the request before and returns the next request. The
    /// first call, for which there is no request before, takes any reply. A child of
    /// the last stage of a launch in the background is added to `jobs` under the
    /// number reserved there, and announced.
    pub fn advance(&mut self, jobs: &mut JobTable, reply: &Reply) -> (request: Request)
        requires
            old(self).wf(),
            old(jobs).wf(),
        ensures
            final(self).wf(),
            final(jobs).wf(),
            (final(self)@, final(jobs)@, request@) == old(self)@.step(old(jobs)@, *reply),
    {
        proof {
            lemma_step_keeps_wf(self@, jobs@, *reply);
        }
        match self.phase {
            Phase::Ready => self.after_ready(),
            Phase::OpeningInput => self.after_input(reply),
            Phase::OpeningOutput => self.after_output(reply),
            Phase::Piping => self.after_pipe(reply),
            Phase::Probing { candidate } => self.after_probe(candidate, reply),
            Phase::Forking => self.after_fork(jobs, reply),
            Phase::Noting => self.next_stage(),
            Phase::Aborting => self.close_from(0),
            Phase::Closing { next } => self.after_close(next),
            Phase::Waiting { done } => self.after_wait(done),
            Phase::Finished => Request::Finish,
        }
    }
}

/// The children among the results and one more result.
pub proof fn lemma_spawned_push(results: Seq<SpawnResult>, result: SpawnResult)
    ensures
        spawned(results.push(result)) == match result {
            SpawnResult::Spawned(pid) => spawned(results).push(pid),
            _ => spawned(results),
        },
{
    assert(results.push(result).drop_last() =~= results);
}

proof fn lemma_wait_from_keeps_wf(launch: LaunchView, done: int)
    requires
        launch.sound(),
        launch.outcome != BuildResult::Unfinished,
    ensures
        launch.wait_from(done).0.wf(),
{
}

proof fn lemma_close_from_keeps_wf(launch: LaunchView, next: int)
    requires
        launch.sound(),
        launch.outcome != BuildResult::Unfinished,
    ensures
        launch.close_from(next).0.wf(),
{
    lemma_wait_from_keeps_wf(launch, 0);
}

proof fn lemma_begin_stage_keeps_wf(launch: LaunchView)
    requires
        launch.sound(),
        launch.staging(),
        launch.results.len() < launch.stages.len(),
    ensures
        launch.begin_stage().0.wf(),
{
    lemma_spawned_push(launch.results, SpawnResult::PathNotFound);
}

proof fn lemma_next_stage_keeps_wf(launch: LaunchView)
    requires
        launch.sound(),
        launch.staging(),
    ensures
        launch.next_stage().0.wf(),
{
    if launch.results.len() < launch.stages.len() {
        lemma_begin_stage_keeps_wf(launch);
    } else {
        lemma_close_from_keeps_wf(LaunchView { outcome: BuildResult::Built, ..launch }, 0);
    }
}

proof fn lemma_begin_pipes_keeps_wf(launch: LaunchView)
    requires
        launch.sound(),
        launch.outcome == BuildResult::Unfinished,
        launch.results.len() == 0,
        launch.input is Some ==> launch.input_fd is Some,
        launch.output is Some ==> launch.output_fd is Some,
    ensures
        launch.begin_pipes().0.wf(),
{
    if launch.pipes.len() + 1 >= launch.stages.len() {
        lemma_begin_stage_keeps_wf(launch);
    }
}

proof fn lemma_begin_output_keeps_wf(launch: LaunchView)
    requires
        launch.sound(),
        launch.outcome == BuildResult::Unfinished,
        launch.results.len() == 0,
        launch.pipes.len() == 0,
        launch.output_fd is None,
        launch.input is Some ==> launch.input_fd is Some,
    ensures
        launch.begin_output().0.wf(),
{
    if launch.output is None {
        lemma_begin_pipes_keeps_wf(launch);
    }
}

/// One step keeps the invariants of the launch and of the job table.
pub proof fn lemma_step_keeps_wf(launch: LaunchView, jobs: JobTableView, reply: Reply)
    requires
        launch.wf(),
        jobs.wf(),
    ensures
        launch.step(jobs, reply).0.wf(),
        launch.step(jobs, reply).1.wf(),
{
    match launch.phase {
        PhaseView::Ready => {
            if launch.input is None {
                lemma_begin_output_keeps_wf(launch);
            }
        },
        PhaseView::OpeningInput => {
            match reply {
                Reply::Opened { fd } => {
                    lemma_begin_output_keeps_wf(LaunchView { input_fd: Some(fd), ..launch });
                },
                _ => {},
            }
        },
        PhaseView::OpeningOutput => {
            match reply {
                Reply::Opened { fd } => {
                    lemma_begin_pipes_keeps_wf(LaunchView { output_fd: Some(fd), ..launch });
                },
                _ => {},
            }
        },
        PhaseView::Piping => {
            match reply {
                Reply::Piped { read, write } => {
                    lemma_begin_pipes_keeps_wf(
                        LaunchView { pipes: launch.pipes.push((read, write)), ..launch },
                    );
                },
                _ => {},
            }
        },
        PhaseView::Probing { candidate } => {
            lemma_spawned_push(launch.results, SpawnResult::PathNotFound);
        },
        PhaseView::Forking => {
            lemma_spawned_push(launch.results, SpawnResult::ForkFailed);
            match reply {
                Reply::Forked { pid } => {
                    lemma_spawned_push(launch.results, SpawnResult::Spawned(pid));
                    if pid > 0 {
                        lemma_next_stage_keeps_wf(launch.with_child(pid));
                    }
                },
                _ => {},
            }
        },
        PhaseView::Noting => {
            lemma_next_stage_keeps_wf(launch);
        },
        PhaseView::Aborting => {
            lemma_close_from_keeps_wf(launch, 0);
        },
        PhaseView::Closing { next } => {
            lemma_close_from_keeps_wf(launch, next + 1);
        },
        PhaseView::Waiting { done } => {
            lemma_wait_from_keeps_wf(launch, done + 1);
        },
        PhaseView::Finished => {},
    }
}

} // verus!
