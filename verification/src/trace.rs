//! Whole runs of a launch: what it asks of the host from its first request to its last,
//! whatever the host replies.

use vstd::prelude::*;
use crate::host::{blocking, ChildOp, Reply, RequestView};
use crate::jobs::{announcement, JobTableView};
use crate::search::candidates;
use crate::launch::{
    exec_failed, exec_failed_status, lemma_spawned_push, lemma_step_keeps_wf, maybe, pipe_ends,
    BuildResult, LaunchView, PhaseView, SpawnResult,
};

verus! {

/// The launch and the job table after the replies were taken one by one, and the
/// requests that were made in return.
pub open spec fn run(launch: LaunchView, jobs: JobTableView, replies: Seq<Reply>) -> (
    LaunchView,
    JobTableView,
    Seq<RequestView>,
)
    decreases replies.len(),
{
    if replies.len() == 0 {
        (launch, jobs, Seq::empty())
    } else {
        let (before, table, asked) = run(launch, jobs, replies.drop_last());
        let (after, table, request) = before.step(table, replies.last());
        (after, table, asked.push(request))
    }
}

/// How many pipes were asked for.
pub open spec fn pipes_asked(asked: Seq<RequestView>) -> nat
    decreases asked.len(),
{
    if asked.len() == 0 {
        0
    } else {
        pipes_asked(asked.drop_last()) + if asked.last() is Pipe {
            1nat
        } else {
            0nat
        }
    }
}

/// How many children were asked for.
pub open spec fn forks_asked(asked: Seq<RequestView>) -> nat
    decreases asked.len(),
{
    if asked.len() == 0 {
        0
    } else {
        forks_asked(asked.drop_last()) + if asked.last() is Fork {
            1nat
        } else {
            0nat
        }
    }
}

/// How many waits were asked for.
pub open spec fn waits_asked(asked: Seq<RequestView>) -> nat
    decreases asked.len(),
{
    if asked.len() == 0 {
        0
    } else {
        waits_asked(asked.drop_last()) + if asked.last() is Wait {
            1nat
        } else {
            0nat
        }
    }
}

/// The descriptors that the shell was asked to close, in the order of the requests.
pub open spec fn closed(asked: Seq<RequestView>) -> Seq<i32>
    decreases asked.len(),
{
    if asked.len() == 0 {
        Seq::empty()
    } else {
        match asked.last() {
            RequestView::Close { fd } => closed(asked.drop_last()).push(fd),
            _ => closed(asked.drop_last()),
        }
    }
}

/// How many of the stages got as far as a fork: those whose program was found.
pub open spec fn attempts(results: Seq<SpawnResult>) -> nat
    decreases results.len(),
{
    if results.len() == 0 {
        0
    } else {
        attempts(results.drop_last()) + if results.last() is PathNotFound {
            0nat
        } else {
            1nat
        }
    }
}

/// How many pipes a launch in this state has asked for: those it holds, and the one
/// that is being made or could not be made.
pub open spec fn pipes_due(launch: LaunchView) -> int {
    launch.pipes.len() + if launch.phase is Piping || launch.outcome
        == BuildResult::PipeCreationFailed {
        1int
    } else {
        0int
    }
}

/// How many children a launch in this state has asked for.
pub open spec fn forks_due(launch: LaunchView) -> int {
    attempts(launch.results) + if launch.phase is Forking {
        1int
    } else {
        0int
    }
}

/// How many of its descriptors a launch in this state has asked to close.
pub open spec fn closes_due(launch: LaunchView) -> int {
    match launch.phase {
        PhaseView::Closing { next } => next + 1,
        PhaseView::Waiting { .. } => launch.descriptors().len() as int,
        PhaseView::Finished => launch.descriptors().len() as int,
        _ => 0,
    }
}

/// How many waits a launch in this state has asked for.
pub open spec fn waits_due(launch: LaunchView) -> int {
    match launch.phase {
        PhaseView::Waiting { done } => done + 1,
        PhaseView::Finished => if launch.outcome == BuildResult::Built && !launch.background {
            launch.pids.len() as int
        } else {
            0
        },
        _ => 0,
    }
}

/// Whether the requests made so far are those that the state of the launch accounts
/// for.
pub open spec fn tallied(launch: LaunchView, asked: Seq<RequestView>) -> bool {
    &&& pipes_asked(asked) == pipes_due(launch)
    &&& forks_asked(asked) == forks_due(launch)
    &&& closed(asked) == launch.descriptors().take(closes_due(launch))
    &&& waits_asked(asked) == waits_due(launch)
}

proof fn lemma_tally_push(asked: Seq<RequestView>, request: RequestView)
    ensures
        pipes_asked(asked.push(request)) == pipes_asked(asked) + if request is Pipe {
            1nat
        } else {
            0nat
        },
        forks_asked(asked.push(request)) == forks_asked(asked) + if request is Fork {
            1nat
        } else {
            0nat
        },
        waits_asked(asked.push(request)) == waits_asked(asked) + if request is Wait {
            1nat
        } else {
            0nat
        },
        closed(asked.push(request)) == match request {
            RequestView::Close { fd } => closed(asked).push(fd),
            _ => closed(asked),
        },
{
    assert(asked.push(request).drop_last() =~= asked);
}

proof fn lemma_attempts_push(results: Seq<SpawnResult>, result: SpawnResult)
    ensures
        attempts(results.push(result)) == attempts(results) + if result is PathNotFound {
            0nat
        } else {
            1nat
        },
        attempts(results) <= results.len(),
    decreases results.len(),
{
    assert(results.push(result).drop_last() =~= results);
    if results.len() > 0 {
        lemma_attempts_push(results.drop_last(), results.last());
        assert(results.drop_last().push(results.last()) =~= results);
    }
}

proof fn lemma_wait_from_tally(launch: LaunchView, asked: Seq<RequestView>, done: int)
    requires
        launch.sound(),
        launch.outcome != BuildResult::Unfinished,
        pipes_asked(asked) == launch.pipes.len() + if launch.outcome
            == BuildResult::PipeCreationFailed {
            1int
        } else {
            0int
        },
        forks_asked(asked) == attempts(launch.results),
        closed(asked) == launch.descriptors(),
        waits_asked(asked) == done,
        0 <= done,
        if launch.outcome == BuildResult::Built && !launch.background {
            done <= launch.pids.len()
        } else {
            done == 0
        },
    ensures
        tallied(launch.wait_from(done).0, asked.push(launch.wait_from(done).1)),
{
    let (after, request) = launch.wait_from(done);
    lemma_tally_push(asked, request);
    assert(after.descriptors() == launch.descriptors());
    assert(launch.descriptors().take(launch.descriptors().len() as int)
        =~= launch.descriptors());
}

proof fn lemma_close_from_tally(launch: LaunchView, asked: Seq<RequestView>, next: int)
    requires
        launch.sound(),
        launch.outcome != BuildResult::Unfinished,
        pipes_asked(asked) == launch.pipes.len() + if launch.outcome
            == BuildResult::PipeCreationFailed {
            1int
        } else {
            0int
        },
        forks_asked(asked) == attempts(launch.results),
        0 <= next <= launch.descriptors().len(),
        closed(asked) == launch.descriptors().take(next),
        waits_asked(asked) == 0,
    ensures
        tallied(launch.close_from(next).0, asked.push(launch.close_from(next).1)),
{
    let (after, request) = launch.close_from(next);
    if next < launch.descriptors().len() {
        lemma_tally_push(asked, request);
        assert(after.descriptors() == launch.descriptors());
        assert(launch.descriptors().take(next).push(launch.descriptors()[next])
            =~= launch.descriptors().take(next + 1));
    } else {
        assert(launch.descriptors().take(next) =~= launch.descriptors());
        lemma_wait_from_tally(launch, asked, 0);
    }
}

proof fn lemma_begin_stage_tally(launch: LaunchView, asked: Seq<RequestView>)
    requires
        launch.sound(),
        launch.staging(),
        launch.results.len() < launch.stages.len(),
        pipes_asked(asked) == launch.pipes.len(),
        forks_asked(asked) == attempts(launch.results),
        closed(asked) == Seq::<i32>::empty(),
        waits_asked(asked) == 0,
    ensures
        tallied(launch.begin_stage().0, asked.push(launch.begin_stage().1)),
{
    let (after, request) = launch.begin_stage();
    lemma_tally_push(asked, request);
    lemma_attempts_push(launch.results, SpawnResult::PathNotFound);
    assert(after.descriptors().take(0) =~= Seq::<i32>::empty());
}

proof fn lemma_next_stage_tally(launch: LaunchView, asked: Seq<RequestView>)
    requires
        launch.sound(),
        launch.staging(),
        pipes_asked(asked) == launch.pipes.len(),
        forks_asked(asked) == attempts(launch.results),
        closed(asked) == Seq::<i32>::empty(),
        waits_asked(asked) == 0,
    ensures
        tallied(launch.next_stage().0, asked.push(launch.next_stage().1)),
{
    if launch.results.len() < launch.stages.len() {
        lemma_begin_stage_tally(launch, asked);
    } else {
        let built = LaunchView { outcome: BuildResult::Built, ..launch };
        assert(built.descriptors().take(0) =~= Seq::<i32>::empty());
        lemma_close_from_tally(built, asked, 0);
    }
}

proof fn lemma_begin_pipes_tally(launch: LaunchView, asked: Seq<RequestView>)
    requires
        launch.sound(),
        launch.outcome == BuildResult::Unfinished,
        launch.results.len() == 0,
        launch.input is Some ==> launch.input_fd is Some,
        launch.output is Some ==> launch.output_fd is Some,
        pipes_asked(asked) == launch.pipes.len(),
        forks_asked(asked) == 0,
        closed(asked) == Seq::<i32>::empty(),
        waits_asked(asked) == 0,
    ensures
        tallied(launch.begin_pipes().0, asked.push(launch.begin_pipes().1)),
{
    let (after, request) = launch.begin_pipes();
    if launch.pipes.len() + 1 < launch.stages.len() {
        lemma_tally_push(asked, request);
        assert(after.descriptors().take(0) =~= Seq::<i32>::empty());
    } else {
        lemma_begin_stage_tally(launch, asked);
    }
}

proof fn lemma_begin_output_tally(launch: LaunchView, asked: Seq<RequestView>)
    requires
        launch.sound(),
        launch.outcome == BuildResult::Unfinished,
        launch.results.len() == 0,
        launch.pipes.len() == 0,
        launch.output_fd is None,
        launch.input is Some ==> launch.input_fd is Some,
        pipes_asked(asked) == 0,
        forks_asked(asked) == 0,
        closed(asked) == Seq::<i32>::empty(),
        waits_asked(asked) == 0,
    ensures
        tallied(launch.begin_output().0, asked.push(launch.begin_output().1)),
{
    let (after, request) = launch.begin_output();
    if launch.output is None {
        lemma_begin_pipes_tally(launch, asked);
    } else {
        lemma_tally_push(asked, request);
        assert(after.descriptors().take(0) =~= Seq::<i32>::empty());
    }
}

proof fn lemma_abort_tally(
    launch: LaunchView,
    asked: Seq<RequestView>,
    outcome: BuildResult,
    line: Seq<char>,
)
    requires
        forks_asked(asked) == 0,
        launch.results.len() == 0,
        closed(asked) == Seq::<i32>::empty(),
        waits_asked(asked) == 0,
        pipes_asked(asked) == launch.pipes.len() + if outcome == BuildResult::PipeCreationFailed {
            1int
        } else {
            0int
        },
    ensures
        tallied(launch.abort(outcome, line).0, asked.push(launch.abort(outcome, line).1)),
{
    let (after, request) = launch.abort(outcome, line);
    lemma_tally_push(asked, request);
    assert(after.descriptors().take(0) =~= Seq::<i32>::empty());
}

/// One step keeps the tally.
proof fn lemma_step_keeps_tally(
    launch: LaunchView,
    jobs: JobTableView,
    reply: Reply,
    asked: Seq<RequestView>,
)
    requires
        launch.wf(),
        jobs.wf(),
        tallied(launch, asked),
    ensures
        tallied(launch.step(jobs, reply).0, asked.push(launch.step(jobs, reply).2)),
{
    let (after, table, request) = launch.step(jobs, reply);
    assert(launch.descriptors().take(0) =~= Seq::<i32>::empty());
    match launch.phase {
        PhaseView::Ready => {
            if launch.input is None {
                lemma_begin_output_tally(launch, asked);
            } else {
                lemma_tally_push(asked, request);
                assert(after.descriptors().take(0) =~= Seq::<i32>::empty());
            }
        },
        PhaseView::OpeningInput => {
            match reply {
                Reply::Opened { fd } => {
                    lemma_begin_output_tally(LaunchView { input_fd: Some(fd), ..launch }, asked);
                },
                _ => {
                    lemma_abort_tally(
                        launch,
                        asked,
                        BuildResult::RedirectionFileError,
                        crate::launch::input_failed(reply),
                    );
                },
            }
        },
        PhaseView::OpeningOutput => {
            match reply {
                Reply::Opened { fd } => {
                    lemma_begin_pipes_tally(LaunchView { output_fd: Some(fd), ..launch }, asked);
                },
                _ => {
                    lemma_abort_tally(
                        launch,
                        asked,
                        BuildResult::RedirectionFileError,
                        crate::launch::output_failed(reply),
                    );
                },
            }
        },
        PhaseView::Piping => {
            match reply {
                Reply::Piped { read, write } => {
                    lemma_begin_pipes_tally(
                        LaunchView { pipes: launch.pipes.push((read, write)), ..launch },
                        asked,
                    );
                },
                _ => {
                    lemma_abort_tally(
                        launch,
                        asked,
                        BuildResult::PipeCreationFailed,
                        crate::launch::pipe_failed(),
                    );
                },
            }
        },
        PhaseView::Probing { candidate } => {
            lemma_tally_push(asked, request);
            lemma_attempts_push(launch.results, SpawnResult::PathNotFound);
            assert(after.descriptors().take(0) =~= Seq::<i32>::empty());
        },
        PhaseView::Forking => {
            lemma_attempts_push(launch.results, SpawnResult::ForkFailed);
            lemma_spawned_push(launch.results, SpawnResult::ForkFailed);
            match reply {
                Reply::Forked { pid } => {
                    lemma_attempts_push(launch.results, SpawnResult::Spawned(pid));
                    lemma_spawned_push(launch.results, SpawnResult::Spawned(pid));
                    if pid > 0 {
                        if launch.registers() && jobs.pending {
                            lemma_tally_push(asked, request);
                            assert(after.descriptors().take(0) =~= Seq::<i32>::empty());
                        } else {
                            lemma_next_stage_tally(launch.with_child(pid), asked);
                        }
                    } else {
                        lemma_tally_push(asked, request);
                        assert(after.descriptors().take(0) =~= Seq::<i32>::empty());
                    }
                },
                _ => {
                    lemma_tally_push(asked, request);
                    assert(after.descriptors().take(0) =~= Seq::<i32>::empty());
                },
            }
        },
        PhaseView::Noting => {
            lemma_next_stage_tally(launch, asked);
        },
        PhaseView::Aborting => {
            lemma_close_from_tally(launch, asked, 0);
        },
        PhaseView::Closing { next } => {
            lemma_close_from_tally(launch, asked, next + 1);
        },
        PhaseView::Waiting { done } => {
            assert(launch.descriptors().take(launch.descriptors().len() as int)
                =~= launch.descriptors());
            lemma_wait_from_tally(launch, asked, done + 1);
        },
        PhaseView::Finished => {
            lemma_tally_push(asked, request);
        },
    }
}

/// A run keeps the invariants and the tally.
pub proof fn lemma_run_is_tallied(launch: LaunchView, jobs: JobTableView, replies: Seq<Reply>)
    requires
        launch.wf(),
        launch.phase is Ready,
        jobs.wf(),
    ensures
        run(launch, jobs, replies).0.wf(),
        run(launch, jobs, replies).1.wf(),
        tallied(run(launch, jobs, replies).0, run(launch, jobs, replies).2),
        run(launch, jobs, replies).0.stages == launch.stages,
        run(launch, jobs, replies).0.background == launch.background,
    decreases replies.len(),
{
    if replies.len() == 0 {
        assert(launch.descriptors().take(0) =~= Seq::<i32>::empty());
    } else {
        lemma_run_is_tallied(launch, jobs, replies.drop_last());
        let (before, table, asked) = run(launch, jobs, replies.drop_last());
        lemma_step_keeps_wf(before, table, replies.last());
        lemma_step_keeps_tally(before, table, replies.last(), asked);
        lemma_step_keeps_stages(before, table, replies.last());
    }
}

proof fn lemma_closing_keeps_stages(launch: LaunchView, next: int, done: int)
    ensures
        launch.wait_from(done).0 == launch.at(launch.wait_from(done).0.phase),
        launch.close_from(next).0 == launch.at(launch.close_from(next).0.phase),
{
}

proof fn lemma_staging_keeps_stages(launch: LaunchView)
    ensures
        launch.begin_stage().0.stages == launch.stages,
        launch.begin_stage().0.background == launch.background,
        launch.begin_stage().0.input == launch.input,
        launch.begin_stage().0.output == launch.output,
        launch.begin_stage().0.search_path == launch.search_path,
        launch.begin_stage().0.pipes == launch.pipes,
        launch.begin_stage().0.input_fd == launch.input_fd,
        launch.begin_stage().0.output_fd == launch.output_fd,
        launch.next_stage().0.stages == launch.stages,
        launch.next_stage().0.background == launch.background,
        launch.next_stage().0.input == launch.input,
        launch.next_stage().0.output == launch.output,
        launch.next_stage().0.search_path == launch.search_path,
        launch.next_stage().0.pipes == launch.pipes,
        launch.next_stage().0.input_fd == launch.input_fd,
        launch.next_stage().0.output_fd == launch.output_fd,
{
    lemma_closing_keeps_stages(LaunchView { outcome: BuildResult::Built, ..launch }, 0, 0);
}

proof fn lemma_opening_keeps_stages(launch: LaunchView)
    ensures
        launch.begin_pipes().0.stages == launch.stages,
        launch.begin_pipes().0.background == launch.background,
        launch.begin_pipes().0.input == launch.input,
        launch.begin_pipes().0.output == launch.output,
        launch.begin_pipes().0.search_path == launch.search_path,
        launch.begin_pipes().0.pipes == launch.pipes,
        launch.begin_pipes().0.input_fd == launch.input_fd,
        launch.begin_pipes().0.output_fd == launch.output_fd,
        launch.begin_output().0.stages == launch.stages,
        launch.begin_output().0.background == launch.background,
        launch.begin_output().0.input == launch.input,
        launch.begin_output().0.output == launch.output,
        launch.begin_output().0.search_path == launch.search_path,
        launch.begin_output().0.pipes == launch.pipes,
        launch.begin_output().0.input_fd == launch.input_fd,
        launch.begin_output().0.output_fd == launch.output_fd,
{
    lemma_staging_keeps_stages(launch);
}

/// One step changes neither the stages nor whether the launch is in the background,
/// and it changes the descriptors that the launch holds only by those that the reply
/// hands to it.
pub proof fn lemma_step_keeps_stages(launch: LaunchView, jobs: JobTableView, reply: Reply)
    ensures
        launch.step(jobs, reply).0.stages == launch.stages,
        launch.step(jobs, reply).0.background == launch.background,
        launch.step(jobs, reply).0.input == launch.input,
        launch.step(jobs, reply).0.output == launch.output,
        launch.step(jobs, reply).0.search_path == launch.search_path,
        launch.step(jobs, reply).0.pipes == match reply {
            Reply::Piped { read, write } => if launch.phase is Piping {
                launch.pipes.push((read, write))
            } else {
                launch.pipes
            },
            _ => launch.pipes,
        },
        launch.step(jobs, reply).0.input_fd == match reply {
            Reply::Opened { fd } => if launch.phase is OpeningInput {
                Some(fd)
            } else {
                launch.input_fd
            },
            _ => launch.input_fd,
        },
        launch.step(jobs, reply).0.output_fd == match reply {
            Reply::Opened { fd } => if launch.phase is OpeningOutput {
                Some(fd)
            } else {
                launch.output_fd
            },
            _ => launch.output_fd,
        },
{
    match launch.phase {
        PhaseView::Ready => {
            lemma_opening_keeps_stages(launch);
        },
        PhaseView::OpeningInput => {
            match reply {
                Reply::Opened { fd } => {
                    lemma_opening_keeps_stages(LaunchView { input_fd: Some(fd), ..launch });
                },
                _ => {},
            }
        },
        PhaseView::OpeningOutput => {
            match reply {
                Reply::Opened { fd } => {
                    lemma_opening_keeps_stages(LaunchView { output_fd: Some(fd), ..launch });
                },
                _ => {},
            }
        },
        PhaseView::Piping => {
            match reply {
                Reply::Piped { read, write } => {
                    lemma_opening_keeps_stages(
                        LaunchView { pipes: launch.pipes.push((read, write)), ..launch },
                    );
                },
                _ => {},
            }
        },
        PhaseView::Probing { candidate } => {},
        PhaseView::Forking => {
            match reply {
                Reply::Forked { pid } => {
                    lemma_staging_keeps_stages(launch.with_child(pid));
                },
                _ => {},
            }
        },
        PhaseView::Noting => {
            lemma_staging_keeps_stages(launch);
        },
        PhaseView::Aborting => {
            lemma_closing_keeps_stages(launch, 0, 0);
        },
        PhaseView::Closing { next } => {
            lemma_closing_keeps_stages(launch, next + 1, 0);
        },
        PhaseView::Waiting { done } => {
            lemma_closing_keeps_stages(launch, 0, done + 1);
        },
        PhaseView::Finished => {},
    }
}

/// Pipes, children, descriptors and waits of a pipeline.
///
/// Take a launch of `n` stages from its start through any replies. It never asks for
/// more than `n - 1` pipes or more than `n` children, and for no child before it holds
/// all its pipes. Once it has finished with every stage attempted, it has asked for
/// exactly `n - 1` pipes; for one child for each stage whose program was found, so for
/// exactly `n` children where every program was found; for the closing of every
/// descriptor it was given, each once and in order; and, in the foreground, for as many
/// waits as it created children, in the background for none. Once it has finished
/// otherwise, it has asked for no child and no wait, and for the closing of every
/// descriptor it was given, each once.
pub proof fn lemma_pipeline_counts(launch: LaunchView, jobs: JobTableView, replies: Seq<Reply>)
    requires
        launch.wf(),
        launch.phase is Ready,
        jobs.wf(),
    ensures
        ({
            let n = launch.stages.len();
            let (last, table, asked) = run(launch, jobs, replies);
            &&& pipes_asked(asked) <= n - 1
            &&& forks_asked(asked) <= n
            &&& forks_asked(asked) > 0 ==> last.pipes.len() == n - 1
            &&& last.phase is Finished ==> closed(asked) == last.descriptors()
            &&& last.phase is Finished && last.outcome == BuildResult::Built ==> {
                &&& pipes_asked(asked) == n - 1
                &&& last.pipes.len() == n - 1
                &&& last.results.len() == n
                &&& forks_asked(asked) == attempts(last.results)
                &&& (forall|i: int| 0 <= i < n ==> !(#[trigger] last.results[i] is PathNotFound))
                    ==> forks_asked(asked) == n
                &&& waits_asked(asked) == if last.background {
                    0
                } else {
                    last.pids.len()
                }
            }
            &&& last.phase is Finished && last.outcome != BuildResult::Built ==> {
                &&& forks_asked(asked) == 0
                &&& waits_asked(asked) == 0
            }
        }),
{
    lemma_run_is_tallied(launch, jobs, replies);
    let (last, table, asked) = run(launch, jobs, replies);
    lemma_attempts_push(last.results, SpawnResult::PathNotFound);
    assert(last.descriptors().take(last.descriptors().len() as int) =~= last.descriptors());
    if forall|i: int|
        0 <= i < last.results.len() ==> !(#[trigger] last.results[i] is PathNotFound) {
        lemma_attempts_all(last.results);
    }
}

/// Where no stage failed for want of its program, every stage got as far as a fork.
pub proof fn lemma_attempts_all(results: Seq<SpawnResult>)
    requires
        forall|i: int| 0 <= i < results.len() ==> !(#[trigger] results[i] is PathNotFound),
    ensures
        attempts(results) == results.len(),
    decreases results.len(),
{
    if results.len() > 0 {
        lemma_attempts_all(results.drop_last());
    }
}

/// A run through `first` and then through `then` is the run through `then` that starts
/// where the run through `first` ends.
pub proof fn lemma_run_in_two(
    launch: LaunchView,
    jobs: JobTableView,
    first: Seq<Reply>,
    then: Seq<Reply>,
)
    ensures
        ({
            let (middle, table, asked) = run(launch, jobs, first);
            let (last, after, more) = run(middle, table, then);
            run(launch, jobs, first + then) == (last, after, asked + more)
        }),
    decreases then.len(),
{
    let (middle, table, asked) = run(launch, jobs, first);
    if then.len() == 0 {
        assert(first + then =~= first);
        assert(asked + Seq::<RequestView>::empty() =~= asked);
    } else {
        lemma_run_in_two(launch, jobs, first, then.drop_last());
        assert((first + then).drop_last() =~= first + then.drop_last());
        let (before, held, more) = run(middle, table, then.drop_last());
        let (last, after, request) = before.step(held, then.last());
        assert((asked + more).push(request) =~= asked + more.push(request));
    }
}

/// `count` replies that say that the probed file does not exist.
pub open spec fn misses(count: int) -> Seq<Reply> {
    Seq::new(count as nat, |j: int| Reply::Exists(false))
}

/// Probes of the `count` candidates that follow candidate `from`.
pub open spec fn probes(found: Seq<Seq<char>>, from: int, count: int) -> Seq<RequestView> {
    Seq::new(count as nat, |j: int| RequestView::Probe { path: found[from + 1 + j] })
}

/// While the probed candidates do not exist, the launch probes the next one.
pub proof fn lemma_misses_move_on(launch: LaunchView, jobs: JobTableView, count: int)
    requires
        launch.phase matches PhaseView::Probing { candidate } && 0 <= candidate && candidate
            + count < launch.candidates.len(),
        0 <= count,
    ensures
        run(launch, jobs, misses(count)) == (
            launch.at(PhaseView::Probing { candidate: launch.phase->Probing_candidate + count }),
            jobs,
            probes(launch.candidates, launch.phase->Probing_candidate, count),
        ),
    decreases count,
{
    let from = launch.phase->Probing_candidate;
    if count == 0 {
        assert(misses(0) =~= Seq::<Reply>::empty());
        assert(probes(launch.candidates, from, 0) =~= Seq::<RequestView>::empty());
        assert(launch.at(PhaseView::Probing { candidate: from + 0 }) == launch);
    } else {
        lemma_misses_move_on(launch, jobs, count - 1);
        assert(misses(count).drop_last() =~= misses(count - 1));
        assert(misses(count).last() == Reply::Exists(false));
        assert(probes(launch.candidates, from, count - 1).push(
            RequestView::Probe { path: launch.candidates[from + count] },
        ) =~= probes(launch.candidates, from, count));
    }
}

/// The first candidate that exists is the program.
///
/// A launch that probes a candidate goes through the candidates in the order of the
/// search path. When the first one that exists is found, it asks for a child that
/// becomes that file, with the stage's words as arguments and the stage's wiring.
pub proof fn lemma_first_existing_candidate_is_forked(
    launch: LaunchView,
    jobs: JobTableView,
    count: int,
)
    requires
        launch.phase matches PhaseView::Probing { candidate } && 0 <= candidate && candidate
            + count < launch.candidates.len(),
        0 <= count,
    ensures
        ({
            let from = launch.phase->Probing_candidate;
            let stage = launch.results.len() as int;
            run(launch, jobs, misses(count).push(Reply::Exists(true))) == (
                launch.at(PhaseView::Forking),
                jobs,
                probes(launch.candidates, from, count).push(
                    RequestView::Fork {
                        path: launch.candidates[from + count],
                        argv: launch.stages[stage],
                        setup: launch.setup(stage),
                        complaint: exec_failed(),
                        status: exec_failed_status(),
                    },
                ),
            )
        }),
{
    lemma_misses_move_on(launch, jobs, count);
    assert(misses(count).push(Reply::Exists(true)).drop_last() =~= misses(count));
}

/// A program that no entry of the search path holds is not forked.
///
/// When the last candidate turns out not to exist either, the stage ends as
/// `PathNotFound`: the launch says so, and it has asked for no child.
pub proof fn lemma_missing_program_is_not_forked(launch: LaunchView, jobs: JobTableView)
    requires
        launch.phase matches PhaseView::Probing { candidate } && 0 <= candidate
            < launch.candidates.len(),
    ensures
        ({
            let from = launch.phase->Probing_candidate;
            let left = launch.candidates.len() - from;
            let (last, table, asked) = run(launch, jobs, misses(left));
            &&& last == LaunchView {
                phase: PhaseView::Noting,
                results: launch.results.push(SpawnResult::PathNotFound),
                ..launch
            }
            &&& table == jobs
            &&& asked == probes(launch.candidates, from, left - 1).push(
                RequestView::Say { line: crate::launch::path_not_found() },
            )
            &&& forks_asked(asked) == 0
        }),
{
    let from = launch.phase->Probing_candidate;
    let left = launch.candidates.len() - from;
    lemma_misses_move_on(launch, jobs, left - 1);
    assert(misses(left).drop_last() =~= misses(left - 1));
    assert(misses(left).last() == Reply::Exists(false));
    let asked = run(launch, jobs, misses(left)).2;
    lemma_no_fork_among_probes(launch.candidates, from, left - 1);
    lemma_tally_push(
        probes(launch.candidates, from, left - 1),
        RequestView::Say { line: crate::launch::path_not_found() },
    );
}

proof fn lemma_no_fork_among_probes(found: Seq<Seq<char>>, from: int, count: int)
    requires
        0 <= count,
    ensures
        forks_asked(probes(found, from, count)) == 0,
        pipes_asked(probes(found, from, count)) == 0,
        waits_asked(probes(found, from, count)) == 0,
        closed(probes(found, from, count)) == Seq::<i32>::empty(),
    decreases count,
{
    if count > 0 {
        lemma_no_fork_among_probes(found, from, count - 1);
        assert(probes(found, from, count).drop_last() =~= probes(found, from, count - 1));
    }
}

/// The requests of a single command whose program is candidate `hit` of the search
/// path: a probe of each candidate up to that one, then the fork.
pub open spec fn resolve_and_fork(command: Seq<Seq<char>>, found: Seq<Seq<char>>, hit: int) -> Seq<
    RequestView,
> {
    seq![RequestView::Probe { path: found[0] }] + probes(found, 0, hit).push(
        RequestView::Fork {
            path: found[hit],
            argv: command,
            setup: Seq::<ChildOp>::empty(),
            complaint: exec_failed(),
            status: exec_failed_status(),
        },
    )
}

/// The replies to `resolve_and_fork`: nothing for the start, a miss for each candidate
/// before the program, the hit, and the child's process id.
pub open spec fn found_and_forked(hit: int, pid: i32) -> Seq<Reply> {
    seq![Reply::Done] + misses(hit).push(Reply::Exists(true)).push(Reply::Forked { pid })
}

/// A single command in the foreground.
///
/// Take one command without redirections whose program is found at candidate `hit`,
/// and let the fork give the child `pid`. In the foreground, the launch probes the
/// candidates up to that one, asks for the child with nothing to wire, waits for that
/// very child, and finishes with `Spawned(pid)`. It asks for no pipe and closes
/// nothing, and the job table is as it was: it holds no job for a child that was
/// waited for. A pipeline of one stage is this same launch.
pub proof fn lemma_single_command_in_foreground(
    command: Seq<Seq<char>>,
    search_path: Option<Seq<char>>,
    jobs: JobTableView,
    hit: int,
    pid: i32,
)
    requires
        command.len() >= 1,
        0 <= hit < candidates(search_path, command[0]).len(),
        pid > 0,
    ensures
        ({
            let launch = LaunchView::fresh(seq![command], None, None, false, search_path);
            let found = candidates(search_path, command[0]);
            let replies = found_and_forked(hit, pid).push(Reply::Waited { pid });
            let (last, table, asked) = run(launch, jobs, replies);
            &&& asked == resolve_and_fork(command, found, hit).push(
                RequestView::Wait { pid, options: blocking() },
            ).push(RequestView::Finish)
            &&& last.phase is Finished
            &&& last.outcome == BuildResult::Built
            &&& last.results == seq![SpawnResult::Spawned(pid)]
            &&& table == jobs
        }),
{
    let launch = LaunchView::fresh(seq![command], None, None, false, search_path);
    let found = candidates(search_path, command[0]);
    lemma_single_command_is_forked(command, search_path, false, jobs, hit);
    let forking = LaunchView { candidates: found, ..launch }.at(PhaseView::Forking);
    let resolved = seq![Reply::Done] + misses(hit).push(Reply::Exists(true));
    assert(run(launch, jobs, resolved).0 == forking);
    lemma_spawned_push(forking.results, SpawnResult::Spawned(pid));
    assert(forking.descriptors() =~= Seq::<i32>::empty());
    let forked = resolved.push(Reply::Forked { pid });
    assert(forked.drop_last() =~= resolved);
    assert(forked =~= found_and_forked(hit, pid));
    let (waiting, table, asked) = run(launch, jobs, forked);
    assert(waiting.results =~= seq![SpawnResult::Spawned(pid)]);
    assert(waiting.pids =~= seq![pid]);
    assert(waiting.phase == PhaseView::Waiting { done: 0 });
    let replies = forked.push(Reply::Waited { pid });
    assert(replies.drop_last() =~= forked);
    assert(run(launch, jobs, replies).2 =~= resolve_and_fork(command, found, hit).push(
        RequestView::Wait { pid, options: blocking() },
    ).push(RequestView::Finish));
}

/// A single command in the background.
///
/// Take the command of `lemma_single_command_in_foreground` in the background, with a
/// job number reserved for it. The launch probes and forks in the same way; it then
/// adds the child to the job table under the reserved number, announces it, and
/// finishes without a wait.
pub proof fn lemma_single_command_in_background(
    command: Seq<Seq<char>>,
    search_path: Option<Seq<char>>,
    jobs: JobTableView,
    hit: int,
    pid: i32,
)
    requires
        command.len() >= 1,
        0 <= hit < candidates(search_path, command[0]).len(),
        pid > 0,
        jobs.pending,
    ensures
        ({
            let launch = LaunchView::fresh(seq![command], None, None, true, search_path);
            let found = candidates(search_path, command[0]);
            let replies = found_and_forked(hit, pid).push(Reply::Done);
            let (last, table, asked) = run(launch, jobs, replies);
            &&& asked == resolve_and_fork(command, found, hit).push(
                RequestView::Say { line: announcement((jobs.next_number - 1) as i32, pid) },
            ).push(RequestView::Finish)
            &&& last.phase is Finished
            &&& last.outcome == BuildResult::Built
            &&& last.results == seq![SpawnResult::Spawned(pid)]
            &&& table == jobs.add(pid, launch.line())
        }),
{
    let launch = LaunchView::fresh(seq![command], None, None, true, search_path);
    let found = candidates(search_path, command[0]);
    lemma_single_command_is_forked(command, search_path, true, jobs, hit);
    let forking = LaunchView { candidates: found, ..launch }.at(PhaseView::Forking);
    let resolved = seq![Reply::Done] + misses(hit).push(Reply::Exists(true));
    assert(run(launch, jobs, resolved).0 == forking);
    lemma_spawned_push(forking.results, SpawnResult::Spawned(pid));
    let forked = resolved.push(Reply::Forked { pid });
    assert(forked.drop_last() =~= resolved);
    assert(forked =~= found_and_forked(hit, pid));
    let (noting, table, asked) = run(launch, jobs, forked);
    assert(noting.results =~= seq![SpawnResult::Spawned(pid)]);
    assert(noting.pids =~= seq![pid]);
    assert(noting.phase == PhaseView::Noting);
    assert(noting.descriptors() =~= Seq::<i32>::empty());
    let replies = forked.push(Reply::Done);
    assert(replies.drop_last() =~= forked);
    assert(run(launch, jobs, replies).2 =~= resolve_and_fork(command, found, hit).push(
        RequestView::Say { line: announcement((jobs.next_number - 1) as i32, pid) },
    ).push(RequestView::Finish));
}

proof fn lemma_single_command_is_forked(
    command: Seq<Seq<char>>,
    search_path: Option<Seq<char>>,
    background: bool,
    jobs: JobTableView,
    hit: int,
)
    requires
        command.len() >= 1,
        0 <= hit < candidates(search_path, command[0]).len(),
    ensures
        ({
            let launch = LaunchView::fresh(seq![command], None, None, background, search_path);
            let found = candidates(search_path, command[0]);
            run(launch, jobs, seq![Reply::Done] + misses(hit).push(Reply::Exists(true))) == (
                LaunchView { candidates: found, ..launch }.at(PhaseView::Forking),
                jobs,
                resolve_and_fork(command, found, hit),
            )
        }),
{
    let launch = LaunchView::fresh(seq![command], None, None, background, search_path);
    let found = candidates(search_path, command[0]);
    let start = seq![Reply::Done];
    assert(start.drop_last() =~= Seq::<Reply>::empty());
    let probing = LaunchView { candidates: found, ..launch }.at(
        PhaseView::Probing { candidate: 0 },
    );
    assert(run(launch, jobs, Seq::<Reply>::empty()) == (launch, jobs, Seq::<RequestView>::empty()));
    assert(launch.step(jobs, Reply::Done) == (
        probing,
        jobs,
        RequestView::Probe { path: found[0] },
    ));
    assert(run(launch, jobs, start) == (
        probing,
        jobs,
        Seq::<RequestView>::empty().push(RequestView::Probe { path: found[0] }),
    ));
    assert(Seq::<RequestView>::empty().push(RequestView::Probe { path: found[0] })
        =~= seq![RequestView::Probe { path: found[0] }]);
    lemma_first_existing_candidate_is_forked(probing, jobs, hit);
    lemma_run_in_two(launch, jobs, start, misses(hit).push(Reply::Exists(true)));
    assert(probing.descriptors() =~= Seq::<i32>::empty());
    assert(probing.setup(0) =~= Seq::<ChildOp>::empty());
    assert(probing.at(PhaseView::Forking) == LaunchView { candidates: found, ..launch }.at(
        PhaseView::Forking,
    ));
}

/// The descriptors that a reply hands to a launch in this phase: the file that was
/// opened, or the two ends of the pipe that was made.
pub open spec fn handed(phase: PhaseView, reply: Reply) -> Seq<i32> {
    match reply {
        Reply::Opened { fd } => if phase is OpeningInput || phase is OpeningOutput {
            seq![fd]
        } else {
            Seq::empty()
        },
        Reply::Piped { read, write } => if phase is Piping {
            seq![read, write]
        } else {
            Seq::empty()
        },
        _ => Seq::empty(),
    }
}

/// All the descriptors that the replies of a run hand to the launch, in order.
pub open spec fn handed_over(launch: LaunchView, jobs: JobTableView, replies: Seq<Reply>) -> Seq<
    i32,
>
    decreases replies.len(),
{
    if replies.len() == 0 {
        Seq::empty()
    } else {
        handed_over(launch, jobs, replies.drop_last()) + handed(
            run(launch, jobs, replies.drop_last()).0.phase,
            replies.last(),
        )
    }
}

proof fn lemma_pipe_ends_push(pipes: Seq<(i32, i32)>, read: i32, write: i32)
    ensures
        pipe_ends(pipes.push((read, write))) == pipe_ends(pipes) + seq![read, write],
{
    let more = pipes.push((read, write));
    assert forall|k: int| 0 <= k < 2 * more.len() implies pipe_ends(more)[k] == (pipe_ends(pipes)
        + seq![read, write])[k] by {
        if k < 2 * pipes.len() {
            assert(k / 2 < pipes.len());
        } else {
            assert(k / 2 == pipes.len());
        }
    }
    assert(pipe_ends(more) =~= pipe_ends(pipes) + seq![read, write]);
}

/// One step adds to the descriptors of a launch those that the reply hands to it.
proof fn lemma_step_takes_what_is_handed(launch: LaunchView, jobs: JobTableView, reply: Reply)
    requires
        launch.wf(),
    ensures
        launch.step(jobs, reply).0.descriptors() == launch.descriptors() + handed(
            launch.phase,
            reply,
        ),
{
    lemma_step_keeps_stages(launch, jobs, reply);
    let after = launch.step(jobs, reply).0;
    let given = handed(launch.phase, reply);
    match reply {
        Reply::Opened { fd } => {
            if launch.phase is OpeningInput {
                assert(launch.descriptors() =~= Seq::<i32>::empty());
                assert(after.descriptors() =~= seq![fd]);
            } else if launch.phase is OpeningOutput {
                assert(after.descriptors() =~= launch.descriptors() + seq![fd]);
            } else {
                assert(launch.descriptors() + given =~= launch.descriptors());
            }
        },
        Reply::Piped { read, write } => {
            if launch.phase is Piping {
                lemma_pipe_ends_push(launch.pipes, read, write);
                assert(after.descriptors() =~= launch.descriptors() + seq![read, write]);
            } else {
                assert(launch.descriptors() + given =~= launch.descriptors());
            }
        },
        _ => {
            assert(launch.descriptors() + given =~= launch.descriptors());
        },
    }
}

/// No descriptor is lost or left open.
///
/// The descriptors that a launch holds are at every moment those that the host has
/// handed to it, in the order in which it got them. When the launch has finished, it
/// has asked for the closing of each of them once, in that order, and of nothing else.
pub proof fn lemma_every_descriptor_is_closed(
    launch: LaunchView,
    jobs: JobTableView,
    replies: Seq<Reply>,
)
    requires
        launch.wf(),
        launch.phase is Ready,
        jobs.wf(),
    ensures
        run(launch, jobs, replies).0.descriptors() == handed_over(launch, jobs, replies),
        run(launch, jobs, replies).0.phase is Finished ==> closed(run(launch, jobs, replies).2)
            == handed_over(launch, jobs, replies),
    decreases replies.len(),
{
    lemma_pipeline_counts(launch, jobs, replies);
    if replies.len() == 0 {
        assert(launch.descriptors() =~= Seq::<i32>::empty());
    } else {
        lemma_every_descriptor_is_closed(launch, jobs, replies.drop_last());
        lemma_run_is_tallied(launch, jobs, replies.drop_last());
        let (before, table, asked) = run(launch, jobs, replies.drop_last());
        lemma_step_takes_what_is_handed(before, table, replies.last());
    }
}

/// The job table after a run.
///
/// A launch in the foreground leaves the job table as it was: no job is kept for a
/// child that the launch itself waits for. A launch in the background changes the table
/// at most once: when the child of its last stage is created and a number is reserved,
/// that child is added under that number with the line of the launch. The children
/// of earlier stages are not added.
pub proof fn lemma_jobs_after_a_run(launch: LaunchView, jobs: JobTableView, replies: Seq<Reply>)
    requires
        launch.wf(),
        launch.phase is Ready,
        jobs.wf(),
    ensures
        ({
            let n = launch.stages.len() as int;
            let (last, table, asked) = run(launch, jobs, replies);
            &&& !launch.background ==> table == jobs
            &&& last.results.len() < n ==> table == jobs
            &&& table != jobs ==> {
                &&& jobs.pending
                &&& last.results[n - 1] matches SpawnResult::Spawned(pid)
                &&& table == jobs.add(pid, launch.line())
            }
        }),
    decreases replies.len(),
{
    if replies.len() > 0 {
        lemma_jobs_after_a_run(launch, jobs, replies.drop_last());
        lemma_run_is_tallied(launch, jobs, replies.drop_last());
        let (before, table, asked) = run(launch, jobs, replies.drop_last());
        lemma_step_keeps_stages(before, table, replies.last());
        let (after, held, request) = before.step(table, replies.last());
        assert(before.line() == launch.line());
        if held != table {
            assert(before.phase is Forking);
            assert(table == jobs);
        } else {
            assert(after.results.len() >= before.results.len());
            if before.results.len() == launch.stages.len() {
                assert(after.results == before.results);
            }
        }
    }
}

} // verus!
