//! Every launch comes to an end: a bound on the steps that a launch has left.

use vstd::prelude::*;
use crate::host::Reply;
use crate::jobs::JobTableView;
use crate::launch::{
    lemma_spawned_push, lemma_step_keeps_wf, spawned, BuildResult, LaunchView, PhaseView,
    SpawnResult,
};
use crate::text::split;
use crate::trace::{lemma_step_keeps_stages, run};

verus! {

/// How many entries the search path has: as many candidates as any program has, where
/// it has any.
pub open spec fn width(search_path: Option<Seq<char>>) -> int {
    match search_path {
        None => 0,
        Some(path) => if path.len() == 0 {
            0
        } else {
            split(path, ':').len() as int
        },
    }
}

/// The most steps that closing and waiting can take, and one more.
pub open spec fn tail(launch: LaunchView) -> int {
    3 * (launch.stages.len() as int) + 3
}

/// The most steps that one stage can take: a probe for each entry of the search path,
/// the fork, and a line about it; and one more.
pub open spec fn stage_cost(launch: LaunchView) -> int {
    width(launch.search_path) + 3
}

/// A bound on the steps that the launch takes before it has finished.
pub open spec fn steps_left(launch: LaunchView) -> int {
    let n = launch.stages.len() as int;
    let left = n - launch.results.len();
    let all = n + n * stage_cost(launch) + tail(launch);
    match launch.phase {
        PhaseView::Ready => all + 4,
        PhaseView::OpeningInput => all + 3,
        PhaseView::OpeningOutput => all + 2,
        PhaseView::Piping => all - launch.pipes.len(),
        PhaseView::Probing { candidate } => (left - 1) * stage_cost(launch) + tail(launch) + 2 + (
        width(launch.search_path) - candidate),
        PhaseView::Forking => (left - 1) * stage_cost(launch) + tail(launch) + 1,
        PhaseView::Noting => left * stage_cost(launch) + tail(launch),
        PhaseView::Aborting => launch.descriptors().len() + n + 1,
        PhaseView::Closing { next } => launch.descriptors().len() - next + n,
        PhaseView::Waiting { done } => launch.pids.len() - done,
        PhaseView::Finished => 0,
    }
}

proof fn lemma_spawned_is_short(results: Seq<SpawnResult>)
    ensures
        spawned(results).len() <= results.len(),
    decreases results.len(),
{
    if results.len() > 0 {
        lemma_spawned_is_short(results.drop_last());
    }
}

proof fn lemma_stages_cost(left: int, cost: int)
    requires
        cost >= 0,
    ensures
        (left - 1) * cost == left * cost - cost,
        (left - 2) * cost == left * cost - 2 * cost,
        left >= 0 ==> left * cost >= 0,
        0 * cost == 0,
{
    assert((left - 1) * cost == left * cost - cost) by (nonlinear_arith);
    assert((left - 2) * cost == left * cost - 2 * cost) by (nonlinear_arith);
    assert(left >= 0 ==> left * cost >= 0) by (nonlinear_arith)
        requires
            cost >= 0,
    ;
}

/// What the bound rests on: a sound launch holds at most two descriptors for each
/// stage and has created at most one child for each, and the steps left are never
/// fewer than none.
proof fn lemma_sizes(launch: LaunchView)
    requires
        launch.wf(),
    ensures
        launch.descriptors().len() <= 2 * launch.stages.len(),
        launch.pids.len() <= launch.results.len() <= launch.stages.len(),
        width(launch.search_path) >= 0,
        launch.candidates.len() > 0 && launch.resolving() ==> launch.candidates.len() == width(
            launch.search_path,
        ),
{
    lemma_spawned_is_short(launch.results);
}

proof fn lemma_closing_makes_progress(launch: LaunchView, next: int, bound: int)
    requires
        launch.sound(),
        launch.outcome != BuildResult::Unfinished,
        0 <= next,
        launch.pids == spawned(launch.results),
        bound > launch.descriptors().len() - next + launch.stages.len(),
        bound > launch.stages.len(),
    ensures
        0 <= steps_left(launch.close_from(next).0) < bound,
{
    lemma_spawned_is_short(launch.results);
}

proof fn lemma_waiting_makes_progress(launch: LaunchView, done: int, bound: int)
    requires
        launch.sound(),
        0 <= done,
        bound > launch.pids.len() - done,
        bound > 0,
    ensures
        0 <= steps_left(launch.wait_from(done).0) < bound,
{
}

proof fn lemma_staging_makes_progress(launch: LaunchView, bound: int)
    requires
        launch.sound(),
        launch.staging(),
        bound >= (launch.stages.len() - launch.results.len()) * stage_cost(launch) + tail(
            launch,
        ),
    ensures
        0 <= steps_left(launch.next_stage().0) < bound,
{
    let n = launch.stages.len() as int;
    let left = n - launch.results.len();
    let cost = stage_cost(launch);
    lemma_stages_cost(left, cost);
    lemma_spawned_is_short(launch.results);
    let after = launch.next_stage().0;
    if launch.results.len() < launch.stages.len() {
        lemma_spawned_push(launch.results, SpawnResult::PathNotFound);
        assert(after.descriptors() == launch.descriptors());
    } else {
        let built = LaunchView { outcome: BuildResult::Built, ..launch };
        assert(left == 0);
        assert(built.descriptors().len() <= 2 * n);
        lemma_closing_makes_progress(built, 0, tail(launch));
    }
}

proof fn lemma_opening_makes_progress(launch: LaunchView, bound: int)
    requires
        launch.sound(),
        launch.outcome == BuildResult::Unfinished,
        launch.results.len() == 0,
        launch.input is Some ==> launch.input_fd is Some,
        launch.output is Some ==> launch.output_fd is Some,
        bound > launch.stages.len() + launch.stages.len() * stage_cost(launch) + tail(launch)
            - launch.pipes.len(),
    ensures
        0 <= steps_left(launch.begin_pipes().0) < bound,
{
    let n = launch.stages.len() as int;
    lemma_stages_cost(n, stage_cost(launch));
    if launch.pipes.len() + 1 >= launch.stages.len() {
        lemma_staging_makes_progress(launch, bound - 1);
    }
}

/// Every step but the last brings a launch nearer to its end.
pub proof fn lemma_step_makes_progress(launch: LaunchView, jobs: JobTableView, reply: Reply)
    requires
        launch.wf(),
        jobs.wf(),
        !(launch.phase is Finished),
    ensures
        0 <= steps_left(launch.step(jobs, reply).0) < steps_left(launch),
{
    let n = launch.stages.len() as int;
    let left = n - launch.results.len();
    let cost = stage_cost(launch);
    let after = launch.step(jobs, reply).0;
    lemma_sizes(launch);
    lemma_stages_cost(left, cost);
    lemma_stages_cost(n, cost);
    lemma_step_keeps_stages(launch, jobs, reply);
    lemma_step_keeps_wf(launch, jobs, reply);
    lemma_sizes(after);
    match launch.phase {
        PhaseView::Ready => {
            if launch.input is None {
                if launch.output is None {
                    lemma_opening_makes_progress(launch, steps_left(launch));
                }
            }
        },
        PhaseView::OpeningInput => {
            match reply {
                Reply::Opened { fd } => {
                    let opened = LaunchView { input_fd: Some(fd), ..launch };
                    if launch.output is None {
                        lemma_opening_makes_progress(opened, steps_left(launch));
                    }
                },
                _ => {},
            }
        },
        PhaseView::OpeningOutput => {
            match reply {
                Reply::Opened { fd } => {
                    let opened = LaunchView { output_fd: Some(fd), ..launch };
                    lemma_opening_makes_progress(opened, steps_left(launch));
                },
                _ => {},
            }
        },
        PhaseView::Piping => {
            match reply {
                Reply::Piped { read, write } => {
                    let piped = LaunchView { pipes: launch.pipes.push((read, write)), ..launch };
                    lemma_opening_makes_progress(piped, steps_left(launch));
                },
                _ => {},
            }
        },
        PhaseView::Probing { candidate } => {
            lemma_spawned_push(launch.results, SpawnResult::PathNotFound);
        },
        PhaseView::Forking => {
            lemma_spawned_push(launch.results, SpawnResult::ForkFailed);
            match reply {
                Reply::Forked { pid } => {
                    lemma_spawned_push(launch.results, SpawnResult::Spawned(pid));
                    if pid > 0 && !(launch.registers() && jobs.pending) {
                        let grown = launch.with_child(pid);
                        assert(stage_cost(grown) == cost);
                        assert(tail(grown) == tail(launch));
                        lemma_staging_makes_progress(grown, steps_left(launch));
                    }
                },
                _ => {},
            }
        },
        PhaseView::Noting => {
            lemma_staging_makes_progress(launch, steps_left(launch));
        },
        PhaseView::Aborting => {
            lemma_closing_makes_progress(launch, 0, steps_left(launch));
        },
        PhaseView::Closing { next } => {
            lemma_closing_makes_progress(launch, next + 1, steps_left(launch));
        },
        PhaseView::Waiting { done } => {
            lemma_waiting_makes_progress(launch, done + 1, steps_left(launch));
        },
        PhaseView::Finished => {},
    }
}

/// Every launch finishes.
///
/// Whatever the host replies, a launch has finished once it has taken as many steps
/// as `steps_left` says at its start, and it stays finished.
pub proof fn lemma_launch_finishes(launch: LaunchView, jobs: JobTableView, replies: Seq<Reply>)
    requires
        launch.wf(),
        jobs.wf(),
    ensures
        run(launch, jobs, replies).0.wf(),
        run(launch, jobs, replies).1.wf(),
        run(launch, jobs, replies).0.phase is Finished || 0 <= steps_left(
            run(launch, jobs, replies).0,
        ) <= steps_left(launch) - replies.len(),
        replies.len() >= steps_left(launch) ==> run(launch, jobs, replies).0.phase is Finished,
    decreases replies.len(),
{
    if replies.len() == 0 {
        lemma_sizes(launch);
        if !(launch.phase is Finished) {
            lemma_step_makes_progress(launch, jobs, Reply::Done);
        }
    } else {
        lemma_launch_finishes(launch, jobs, replies.drop_last());
        let (before, table, asked) = run(launch, jobs, replies.drop_last());
        lemma_step_keeps_wf(before, table, replies.last());
        if !(before.phase is Finished) {
            lemma_step_makes_progress(before, table, replies.last());
        }
    }
}

} // verus!
