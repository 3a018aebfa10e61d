//! The table of background jobs, the numbers it gives out, and the passes that reap
//! the jobs whose process has ended.

use vstd::prelude::*;
use vstd::string::*;
use crate::host::{blocking, no_hang, wnohang, Reply, Request, RequestView};
use crate::text::{decimal, push_number};

verus! {

/// A process that runs in the background.
#[derive(Debug, Clone, PartialEq, Eq)]
pub struct Job {
    /// The id of the process.
    pub pid: i32,
    /// The command line, as it is shown to the user.
    pub line: String,
    /// The number the job is known by.
    pub number: i32,
}

/// A `Job` with its line as a sequence of characters.
pub struct JobView {
    pub pid: i32,
    pub line: Seq<char>,
    pub number: i32,
}

impl View for Job {
    type V = JobView;

    open spec fn view(&self) -> JobView {
        JobView { pid: self.pid, line: self.line@, number: self.number }
    }
}

impl DeepView for Job {
    type V = JobView;

    open spec fn deep_view(&self) -> JobView {
        self@
    }
}

/// What is printed when a job starts: `[number] [pid]`.
pub open spec fn announcement(number: i32, pid: i32) -> Seq<char> {
    "["@ + decimal(number as int) + "] ["@ + decimal(pid as int) + "]"@
}

/// What is printed when a job is found to have ended: `[number] + done [line]`.
pub open spec fn notice(job: JobView) -> Seq<char> {
    "["@ + decimal(job.number as int) + "] + done ["@ + job.line + "]"@
}

/// A job's row in the listing: `[number] + [pid][line]`.
pub open spec fn row(job: JobView) -> Seq<char> {
    "["@ + decimal(job.number as int) + "] + ["@ + decimal(job.pid as int) + "]["@ + job.line
        + "]"@
}

/// The one row of the listing of an empty table.
pub open spec fn no_jobs() -> Seq<char> {
    "No background processes running"@
}

/// Whether the replies of a sweep say that job `i` has ended. The jobs are asked about
/// from the last to the first, so the reply about job `i` of `n` is reply `n - 1 - i`;
/// the job has ended where waiting for it returned its own process id.
pub open spec fn ended(jobs: Seq<JobView>, replies: Seq<Reply>, i: int) -> bool {
    let k = jobs.len() - 1 - i;
    &&& 0 <= k < replies.len()
    &&& replies[k] matches Reply::Waited { pid }
    &&& pid == jobs[i].pid
}

/// The jobs from index `from` on that have not ended, in their order.
pub open spec fn kept(jobs: Seq<JobView>, replies: Seq<Reply>, from: int) -> Seq<JobView>
    decreases jobs.len() - from,
{
    if from < 0 || from >= jobs.len() {
        Seq::empty()
    } else if ended(jobs, replies, from) {
        kept(jobs, replies, from + 1)
    } else {
        seq![jobs[from]] + kept(jobs, replies, from + 1)
    }
}

/// The notices for the jobs from index `from` on that have ended, the last job first.
pub open spec fn noticed(jobs: Seq<JobView>, replies: Seq<Reply>, from: int) -> Seq<Seq<char>>
    decreases jobs.len() - from,
{
    if from < 0 || from >= jobs.len() {
        Seq::empty()
    } else if ended(jobs, replies, from) {
        noticed(jobs, replies, from + 1).push(notice(jobs[from]))
    } else {
        noticed(jobs, replies, from + 1)
    }
}

/// The state of a `JobTable`.
pub struct JobTableView {
    /// The jobs, in the order in which they were added.
    pub jobs: Seq<JobView>,
    /// The number that the next reservation gives out.
    pub next_number: i32,
    /// Whether the newest number, `next_number - 1`, is reserved and not yet used.
    pub pending: bool,
}

impl JobTableView {
    /// The numbers in the table grow from each job to the next, and all of them have
    /// been given out; a pending number is above them all.
    pub open spec fn wf(self) -> bool {
        &&& 1 <= self.next_number
        &&& self.pending ==> 2 <= self.next_number
        &&& forall|i: int|
            0 <= i < self.jobs.len() ==> 1 <= (#[trigger] self.jobs[i]).number
                < self.unused_from()
        &&& forall|i: int, j: int|
            0 <= i < j < self.jobs.len() ==> (#[trigger] self.jobs[i]).number
                < (#[trigger] self.jobs[j]).number
    }

    /// The least number that no job was ever given: the pending number, or else the
    /// next one.
    pub open spec fn unused_from(self) -> int {
        if self.pending {
            self.next_number - 1
        } else {
            self.next_number as int
        }
    }

    /// A table without jobs whose first number is 1.
    pub open spec fn fresh() -> JobTableView {
        JobTableView { jobs: Seq::empty(), next_number: 1, pending: false }
    }

    /// Whether a number is left to give out.
    pub open spec fn has_number(self) -> bool {
        self.next_number < i32::MAX
    }

    /// The table after a reservation: the next number is pending. Nothing changes
    /// where no number is left.
    pub open spec fn reserve(self) -> JobTableView {
        if self.has_number() {
            JobTableView {
                jobs: self.jobs,
                next_number: (self.next_number + 1) as i32,
                pending: true,
            }
        } else {
            self
        }
    }

    /// The table after a process is added under the pending number. Nothing changes
    /// where no number is pending.
    pub open spec fn add(self, pid: i32, line: Seq<char>) -> JobTableView {
        if self.pending {
            JobTableView {
                jobs: self.jobs.push(
                    JobView { pid, line, number: (self.next_number - 1) as i32 },
                ),
                next_number: self.next_number,
                pending: false,
            }
        } else {
            self
        }
    }

    /// The table after a sweep with these replies: the jobs that have ended are gone.
    pub open spec fn sweep(self, replies: Seq<Reply>) -> JobTableView {
        JobTableView {
            jobs: kept(self.jobs, replies, 0),
            next_number: self.next_number,
            pending: self.pending,
        }
    }

    /// The table after it is drained: no job is left.
    pub open spec fn drain(self) -> JobTableView {
        JobTableView { jobs: Seq::empty(), next_number: self.next_number, pending: self.pending }
    }

    /// The requests of a sweep: a wait that does not block for each job's process, from
    /// the last job to the first.
    pub open spec fn sweep_requests(self) -> Seq<RequestView> {
        Seq::new(
            self.jobs.len(),
            |k: int|
                RequestView::Wait {
                    pid: self.jobs[self.jobs.len() - 1 - k].pid,
                    options: no_hang(),
                },
        )
    }

    /// The requests of a drain: a wait that blocks for each job's process, from the
    /// first job to the last.
    pub open spec fn drain_requests(self) -> Seq<RequestView> {
        Seq::new(
            self.jobs.len(),
            |k: int| RequestView::Wait { pid: self.jobs[k].pid, options: blocking() },
        )
    }

    /// The listing: a row for each job in order, or the one row that says there is none.
    pub open spec fn rows(self) -> Seq<Seq<char>> {
        if self.jobs.len() == 0 {
            seq![no_jobs()]
        } else {
            Seq::new(self.jobs.len(), |k: int| row(self.jobs[k]))
        }
    }
}

/// The registry of background jobs. It also gives out the job numbers: a number is
/// reserved when a line is sent to the background, and the job that the line starts,
/// if it starts one, is added under it.
pub struct JobTable {
    jobs: Vec<Job>,
    next_number: i32,
    pending: bool,
}

impl View for JobTable {
    type V = JobTableView;

    closed spec fn view(&self) -> JobTableView {
        JobTableView {
            jobs: self.jobs.deep_view(),
            next_number: self.next_number,
            pending: self.pending,
        }
    }
}

/// The line that announces a new job.
pub fn announcement_text(number: i32, pid: i32) -> (text: String)
    ensures
        text@ == announcement(number, pid),
{
    let mut text = String::from_str("[");
    push_number(&mut text, number);
    text.append("] [");
    push_number(&mut text, pid);
    text.append("]");
    text
}

fn notice_text(job: &Job) -> (text: String)
    ensures
        text@ == notice(job@),
{
    let mut text = String::from_str("[");
    push_number(&mut text, job.number);
    text.append("] + done [");
    text.append(job.line.as_str());
    text.append("]");
    text
}

fn row_text(job: &Job) -> (text: String)
    ensures
        text@ == row(job@),
{
    let mut text = String::from_str("[");
    push_number(&mut text, job.number);
    text.append("] + [");
    push_number(&mut text, job.pid);
    text.append("][");
    text.append(job.line.as_str());
    text.append("]");
    text
}

impl JobTable {
    /// The table's invariant, which every operation keeps.
    pub open spec fn wf(&self) -> bool {
        self@.wf()
    }

    /// An empty table. The first number it gives out is 1.
    pub fn new() -> (table: JobTable)
        ensures
            table.wf(),
            table@ == JobTableView::fresh(),
    {
        let table = JobTable { jobs: Vec::new(), next_number: 1, pending: false };
        assert(table@.jobs =~= Seq::empty());
        table
    }

    /// How many jobs the table holds.
    pub fn len(&self) -> (n: usize)
        ensures
            n == self@.jobs.len(),
    {
        self.jobs.len()
    }

    /// Whether the table holds no job.
    pub fn is_empty(&self) -> (empty: bool)
        ensures
            empty == (self@.jobs.len() == 0),
    {
        self.jobs.len() == 0
    }

    /// The jobs, in the order in which they were added.
    pub fn jobs(&self) -> (jobs: &Vec<Job>)
        ensures
            jobs.deep_view() == self@.jobs,
    {
        &self.jobs
    }

    /// The number that the next reservation gives out.
    pub fn next_number(&self) -> (n: i32)
        ensures
            n == self@.next_number,
    {
        self.next_number
    }

    /// Reserves the next job number for the line that is being sent to the background
    /// and returns it. A number that was reserved before and never used is given up.
    /// Returns `None`, and changes nothing, where the numbers have run out.
    pub fn reserve(&mut self) -> (number: Option<i32>)
        requires
            old(self).wf(),
        ensures
            final(self).wf(),
            final(self)@ == old(self)@.reserve(),
            number == if old(self)@.has_number() {
                Some(old(self)@.next_number)
            } else {
                None
            },
    {
        if self.next_number < i32::MAX {
            let number = self.next_number;
            self.next_number = number + 1;
            self.pending = true;
            Some(number)
        } else {
            None
        }
    }

    /// Adds the process `pid` under the reserved number and returns that number.
    /// Returns `None`, and changes nothing, where no number is reserved.
    pub fn add(&mut self, pid: i32, line: String) -> (number: Option<i32>)
        requires
            old(self).wf(),
        ensures
            final(self).wf(),
            final(self)@ == old(self)@.add(pid, line@),
            number == if old(self)@.pending {
                Some((old(self)@.next_number - 1) as i32)
            } else {
                None
            },
    {
        if self.pending {
            let number = self.next_number - 1;
            let ghost before = self.jobs.deep_view();
            self.jobs.push(Job { pid, line, number });
            self.pending = false;
            assert(self.jobs.deep_view() =~= before.push(JobView { pid, line: line@, number }));
            Some(number)
        } else {
            None
        }
    }

    /// The listing of the table: a row for each job, or one row that says there is none.
    pub fn list(&self) -> (rows: Vec<String>)
        ensures
            rows.deep_view() == self@.rows(),
    {
        let mut rows: Vec<String> = Vec::new();
        if self.jobs.len() == 0 {
            rows.push(String::from_str("No background processes running"));
            return rows;
        }
        let mut i: usize = 0;
        while i < self.jobs.len()
            invariant
                i <= self.jobs.len(),
                rows.len() == i,
                forall|k: int| 0 <= k < i ==> (#[trigger] rows[k])@ == row(self.jobs[k]@),
            decreases self.jobs.len() - i,
        {
            rows.push(row_text(&self.jobs[i]));
            i += 1;
        }
        rows
    }

    /// The waits of a sweep, in the order in which they are to be made. The replies to
    /// them, in the same order, are what `sweep` takes.
    pub fn sweep_requests(&self) -> (requests: Vec<Request>)
        ensures
            requests.deep_view() == self@.sweep_requests(),
    {
        let n = self.jobs.len();
        let options = wnohang();
        let mut requests: Vec<Request> = Vec::new();
        let mut k: usize = 0;
        while k < n
            invariant
                k <= n,
                n == self.jobs.len(),
                options == no_hang(),
                requests.len() == k,
                forall|j: int|
                    0 <= j < k ==> (#[trigger] requests[j])@ == (RequestView::Wait {
                        pid: self.jobs[n - 1 - j].pid,
                        options: no_hang(),
                    }),
            decreases n - k,
        {
            requests.push(Request::Wait { pid: self.jobs[n - 1 - k].pid, options });
            k += 1;
        }
        requests
    }

    /// Takes out the jobs that the replies of a sweep report as ended and returns the
    /// notices to print, in the order in which the jobs were asked about. A job without
    /// a reply stays.
    pub fn sweep(&mut self, replies: &Vec<Reply>) -> (notices: Vec<String>)
        requires
            old(self).wf(),
        ensures
            final(self).wf(),
            final(self)@ == old(self)@.sweep(replies@),
            notices.deep_view() == noticed(old(self)@.jobs, replies@, 0),
    {
        let ghost before = self@;
        let mut notices: Vec<String> = Vec::new();
        let n = self.jobs.len();
        let mut i: usize = n;
        while i > 0
            invariant
                i <= n,
                n == before.jobs.len(),
                self.next_number == before.next_number,
                self.pending == before.pending,
                self.jobs.deep_view() == before.jobs.take(i as int) + kept(
                    before.jobs,
                    replies@,
                    i as int,
                ),
                notices.deep_view() == noticed(before.jobs, replies@, i as int),
            decreases i,
        {
            assert(self.jobs.deep_view().len() == self.jobs.len());
            i -= 1;
            let k = n - 1 - i;
            let ghost current = self.jobs.deep_view();
            assert(current[i as int] == before.jobs[i as int]);
            let gone = k < replies.len() && match &replies[k] {
                Reply::Waited { pid } => *pid == self.jobs[i].pid,
                _ => false,
            };
            if gone {
                notices.push(notice_text(&self.jobs[i]));
                self.jobs.remove(i);
                assert(self.jobs.deep_view() =~= current.remove(i as int));
            }
        }
        proof {
            lemma_sweep_keeps_wf(before, replies@);
        }
        notices
    }

    /// Hands over every job to be waited for: returns a blocking wait for each job's
    /// process, in the order of the table, and empties the table.
    pub fn drain_blocking(&mut self) -> (requests: Vec<Request>)
        requires
            old(self).wf(),
        ensures
            final(self).wf(),
            final(self)@ == old(self)@.drain(),
            requests.deep_view() == old(self)@.drain_requests(),
    {
        let n = self.jobs.len();
        let mut requests: Vec<Request> = Vec::new();
        let mut k: usize = 0;
        while k < n
            invariant
                k <= n,
                n == self.jobs.len(),
                requests.len() == k,
                forall|j: int|
                    0 <= j < k ==> (#[trigger] requests[j])@ == (RequestView::Wait {
                        pid: self.jobs[j].pid,
                        options: blocking(),
                    }),
            decreases n - k,
        {
            requests.push(Request::Wait { pid: self.jobs[k].pid, options: 0 });
            k += 1;
        }
        self.jobs.clear();
        assert(self.jobs.deep_view() =~= Seq::empty());
        requests
    }
}

/// Whether `job` is one of the jobs from index `from` on that have not ended.
pub open spec fn stays(jobs: Seq<JobView>, replies: Seq<Reply>, from: int, job: JobView) -> bool {
    exists|i: int| from <= i < jobs.len() && !ended(jobs, replies, i) && jobs[i] == job
}

/// Every job that a sweep keeps is one of the table's jobs that have not ended.
pub proof fn lemma_kept_stays(jobs: Seq<JobView>, replies: Seq<Reply>, from: int)
    requires
        0 <= from <= jobs.len(),
    ensures
        forall|k: int|
            0 <= k < kept(jobs, replies, from).len() ==> stays(
                jobs,
                replies,
                from,
                #[trigger] kept(jobs, replies, from)[k],
            ),
    decreases jobs.len() - from,
{
    let here = kept(jobs, replies, from);
    if from < jobs.len() {
        let rest = kept(jobs, replies, from + 1);
        lemma_kept_stays(jobs, replies, from + 1);
        assert forall|k: int| 0 <= k < here.len() implies stays(
            jobs,
            replies,
            from,
            #[trigger] here[k],
        ) by {
            if !ended(jobs, replies, from) && k == 0 {
                assert(jobs[from] == here[k]);
            } else {
                let below = if ended(jobs, replies, from) {
                    k
                } else {
                    k - 1
                };
                assert(here[k] == rest[below]);
                assert(stays(jobs, replies, from + 1, rest[below]));
                let i = choose|i: int|
                    from + 1 <= i < jobs.len() && !ended(jobs, replies, i) && jobs[i]
                        == rest[below];
                assert(from <= i < jobs.len() && !ended(jobs, replies, i) && jobs[i] == here[k]);
            }
        }
    }
}

/// Where the numbers grow along the table and lie between 1 and `bound`, so do the
/// numbers of the jobs that a sweep keeps.
pub proof fn lemma_kept_numbers(jobs: Seq<JobView>, replies: Seq<Reply>, from: int, bound: int)
    requires
        0 <= from <= jobs.len(),
        forall|i: int| 0 <= i < jobs.len() ==> 1 <= (#[trigger] jobs[i]).number < bound,
        forall|i: int, j: int|
            0 <= i < j < jobs.len() ==> (#[trigger] jobs[i]).number < (#[trigger] jobs[j]).number,
    ensures
        forall|k: int|
            0 <= k < kept(jobs, replies, from).len() ==> 1 <= (#[trigger] kept(
                jobs,
                replies,
                from,
            )[k]).number < bound,
        forall|k: int|
            0 <= k < kept(jobs, replies, from).len() ==> jobs[from].number <= (#[trigger] kept(
                jobs,
                replies,
                from,
            )[k]).number,
        forall|k: int, l: int|
            0 <= k < l < kept(jobs, replies, from).len() ==> (#[trigger] kept(
                jobs,
                replies,
                from,
            )[k]).number < (#[trigger] kept(jobs, replies, from)[l]).number,
    decreases jobs.len() - from,
{
    let here = kept(jobs, replies, from);
    if from < jobs.len() {
        let rest = kept(jobs, replies, from + 1);
        lemma_kept_numbers(jobs, replies, from + 1, bound);
        if from + 1 < jobs.len() {
            assert(jobs[from].number < jobs[from + 1].number);
        }
        if ended(jobs, replies, from) {
            assert(here == rest);
        } else {
            assert(here =~= seq![jobs[from]] + rest);
            assert forall|k: int| 0 <= k < here.len() implies 1 <= (#[trigger] here[k]).number
                < bound && jobs[from].number <= here[k].number by {
                if k > 0 {
                    assert(here[k] == rest[k - 1]);
                }
            }
            assert forall|k: int, l: int| 0 <= k < l < here.len() implies (
            #[trigger] here[k]).number < (#[trigger] here[l]).number by {
                assert(here[l] == rest[l - 1]);
                if k > 0 {
                    assert(here[k] == rest[k - 1]);
                }
            }
        }
    }
}

/// A sweep keeps the table's invariant.
pub proof fn lemma_sweep_keeps_wf(table: JobTableView, replies: Seq<Reply>)
    requires
        table.wf(),
    ensures
        table.sweep(replies).wf(),
{
    lemma_kept_numbers(table.jobs, replies, 0, table.unused_from());
}

/// Where no job from index `from` on has ended, a sweep keeps them all and has nothing
/// to say.
pub proof fn lemma_nothing_ended(jobs: Seq<JobView>, replies: Seq<Reply>, from: int)
    requires
        0 <= from <= jobs.len(),
        forall|i: int| from <= i < jobs.len() ==> !ended(jobs, replies, i),
    ensures
        kept(jobs, replies, from) == jobs.subrange(from, jobs.len() as int),
        noticed(jobs, replies, from) == Seq::<Seq<char>>::empty(),
    decreases jobs.len() - from,
{
    if from < jobs.len() {
        lemma_nothing_ended(jobs, replies, from + 1);
        assert(seq![jobs[from]] + jobs.subrange(from + 1, jobs.len() as int) =~= jobs.subrange(
            from,
            jobs.len() as int,
        ));
    } else {
        assert(jobs.subrange(from, jobs.len() as int) =~= Seq::empty());
    }
}

/// The replies of a sweep over `jobs` at a time when asking about the process `pid`
/// without blocking gives `state(pid)`.
pub open spec fn polls(jobs: Seq<JobView>, state: spec_fn(i32) -> Reply) -> Seq<Reply> {
    Seq::new(jobs.len(), |k: int| state(jobs[jobs.len() - 1 - k].pid))
}

/// Sweeping twice.
///
/// A second sweep, made while every process is in the state in which the first sweep
/// found it, has nothing to say and leaves the table as the first sweep left it.
pub proof fn lemma_second_sweep_changes_nothing(table: JobTableView, state: spec_fn(i32) -> Reply)
    requires
        table.wf(),
    ensures
        ({
            let once = table.sweep(polls(table.jobs, state));
            &&& once.sweep(polls(once.jobs, state)) == once
            &&& noticed(once.jobs, polls(once.jobs, state), 0) == Seq::<Seq<char>>::empty()
        }),
{
    let first = polls(table.jobs, state);
    let once = table.sweep(first);
    let second = polls(once.jobs, state);
    lemma_kept_stays(table.jobs, first, 0);
    assert forall|k: int| 0 <= k < once.jobs.len() implies !ended(once.jobs, second, k) by {
        let job = once.jobs[k];
        assert(stays(table.jobs, first, 0, job));
        let i = choose|i: int|
            0 <= i < table.jobs.len() && !ended(table.jobs, first, i) && table.jobs[i] == job;
        assert(first[table.jobs.len() - 1 - i] == state(job.pid));
        assert(second[once.jobs.len() - 1 - k] == state(job.pid));
    }
    lemma_nothing_ended(once.jobs, second, 0);
    assert(once.jobs.subrange(0, once.jobs.len() as int) =~= once.jobs);
}

/// Reaping a job.
///
/// After a sweep in which every job of the process `pid` is reported as ended, the
/// table holds no job of that process.
pub proof fn lemma_reaped_job_is_gone(table: JobTableView, replies: Seq<Reply>, pid: i32)
    requires
        forall|i: int|
            0 <= i < table.jobs.len() && table.jobs[i].pid == pid ==> ended(
                table.jobs,
                replies,
                i,
            ),
    ensures
        forall|k: int|
            0 <= k < table.sweep(replies).jobs.len() ==> (#[trigger] table.sweep(
                replies,
            ).jobs[k]).pid != pid,
{
    let after = table.sweep(replies);
    lemma_kept_stays(table.jobs, replies, 0);
    assert forall|k: int| 0 <= k < after.jobs.len() implies (#[trigger] after.jobs[k]).pid
        != pid by {
        assert(stays(table.jobs, replies, 0, after.jobs[k]));
    }
}

/// Something done to a job table.
pub enum TableOp {
    /// A number is reserved.
    Reserve,
    /// A process is added under the reserved number.
    Add { pid: i32, line: Seq<char> },
    /// A sweep is made with these replies.
    Sweep { replies: Seq<Reply> },
    /// The table is drained.
    Drain,
}

impl JobTableView {
    /// The table after `op`.
    pub open spec fn apply(self, op: TableOp) -> JobTableView {
        match op {
            TableOp::Reserve => self.reserve(),
            TableOp::Add { pid, line } => self.add(pid, line),
            TableOp::Sweep { replies } => self.sweep(replies),
            TableOp::Drain => self.drain(),
        }
    }

    /// The table after each of `ops` in turn.
    pub open spec fn apply_all(self, ops: Seq<TableOp>) -> JobTableView
        decreases ops.len(),
    {
        if ops.len() == 0 {
            self
        } else {
            self.apply_all(ops.drop_last()).apply(ops.last())
        }
    }
}

/// Job numbers are never reused.
///
/// Whatever is done to a table, its invariant holds afterwards, so that the numbers of
/// its jobs differ and grow in the order in which the jobs were added; the numbers it
/// gives out later are above all those it gave out before; and a job that holds a number
/// given out before is a job that was in the table before. A number whose job has gone
/// therefore never comes back, neither for a new job nor from a new reservation.
pub proof fn lemma_job_numbers_are_never_reused(table: JobTableView, ops: Seq<TableOp>)
    requires
        table.wf(),
    ensures
        table.apply_all(ops).wf(),
        table.apply_all(ops).next_number >= table.next_number,
        table.apply_all(ops).unused_from() >= table.unused_from(),
        forall|k: int|
            0 <= k < table.apply_all(ops).jobs.len() && (#[trigger] table.apply_all(
                ops,
            ).jobs[k]).number < table.unused_from() ==> table.jobs.contains(
                table.apply_all(ops).jobs[k],
            ),
    decreases ops.len(),
{
    let after = table.apply_all(ops);
    if ops.len() == 0 {
        assert forall|k: int| 0 <= k < after.jobs.len() implies table.jobs.contains(
            #[trigger] after.jobs[k],
        ) by {
            assert(table.jobs[k] == after.jobs[k]);
        }
    } else {
        let before = table.apply_all(ops.drop_last());
        lemma_job_numbers_are_never_reused(table, ops.drop_last());
        match ops.last() {
            TableOp::Sweep { replies } => {
                lemma_sweep_keeps_wf(before, replies);
                lemma_kept_stays(before.jobs, replies, 0);
                assert forall|k: int|
                    0 <= k < after.jobs.len() && (#[trigger] after.jobs[k]).number
                        < table.unused_from() implies table.jobs.contains(after.jobs[k]) by {
                    assert(stays(before.jobs, replies, 0, after.jobs[k]));
                    let i = choose|i: int|
                        0 <= i < before.jobs.len() && !ended(before.jobs, replies, i)
                            && before.jobs[i] == after.jobs[k];
                    assert(before.jobs[i].number < table.unused_from());
                }
            },
            TableOp::Add { pid, line } => {
                assert forall|k: int|
                    0 <= k < after.jobs.len() && (#[trigger] after.jobs[k]).number
                        < table.unused_from() implies table.jobs.contains(after.jobs[k]) by {
                    if k < before.jobs.len() {
                        assert(after.jobs[k] == before.jobs[k]);
                    }
                }
            },
            TableOp::Reserve => {},
            TableOp::Drain => {},
        }
    }
}

/// Job numbers grow from one reservation to the next.
///
/// The number that a reservation gives out is below the number that any later
/// reservation gives out, whatever is done to the table in between.
pub proof fn lemma_job_numbers_grow(table: JobTableView, between: Seq<TableOp>)
    requires
        table.wf(),
        table.has_number(),
    ensures
        table.next_number < table.reserve().apply_all(between).next_number,
{
    lemma_job_numbers_are_never_reused(table.reserve(), between);
}

} // verus!
