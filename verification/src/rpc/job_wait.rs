//! Waiting for a job: the decisions of the wait, as a machine that the
//! caller drives. The caller asks what to do next, sleeps and runs the
//! query it is handed, and hands back what the query printed.
use crate::commands::slurm::{
    is_terminal_name, is_terminal_state, uppercase_of, ArrayWaitMode, CompletedJob,
    CompletedJobView, JobWaitRequest, JobWaitResponse,
};
use crate::error::SshError;
use crate::rpc::handlers::{
    command_failed, failure_of, plan_of, CommandPlan, RpcState,
};
use crate::rpc::types::RpcError;
use crate::ssh::CommandOutput;
use crate::text::{
    chars_of, contains, contains_str, decimal, join, lines, lines_of, push_decimal, push_str,
    split_char, split_on, string_of, trim, trim_of, vviews,
};
use vstd::prelude::*;

verus! {

// ---------------------------------------------------------------------------
// Reading the accounting lines
// ---------------------------------------------------------------------------

/// What one line of `sacct -o JobID,State,ExitCode,Elapsed` says of a job.
pub enum WaitLine {
    /// No job line, or a `.batch` or `.extern` step.
    Skip,
    /// A job that has ended.
    Ended(CompletedJobView),
    /// A job that has not ended yet.
    Pending,
}

/// The reading of one line: four `|`-separated fields, trimmed.
pub open spec fn wait_line(line: Seq<char>) -> WaitLine {
    let parts = split_char(line, '|');
    if parts.len() < 4 {
        WaitLine::Skip
    } else {
        let id = trim(parts[0]);
        let state = trim(parts[1]);
        if contains(id, ".batch"@) || contains(id, ".extern"@) {
            WaitLine::Skip
        } else if is_terminal_name(uppercase_of(state)) {
            WaitLine::Ended(
                CompletedJobView {
                    job_id: id,
                    state,
                    exit_code: trim(parts[2]),
                    elapsed: trim(parts[3]),
                },
            )
        } else {
            WaitLine::Pending
        }
    }
}

/// The ended jobs that the lines report, in order.
pub open spec fn ended_in(ls: Seq<Seq<char>>) -> Seq<CompletedJobView>
    decreases ls.len(),
{
    if ls.len() == 0 {
        Seq::empty()
    } else {
        match wait_line(ls.last()) {
            WaitLine::Ended(j) => ended_in(ls.drop_last()).push(j),
            _ => ended_in(ls.drop_last()),
        }
    }
}

/// How many jobs the lines report as not ended.
pub open spec fn pending_in(ls: Seq<Seq<char>>) -> nat
    decreases ls.len(),
{
    if ls.len() == 0 {
        0
    } else {
        match wait_line(ls.last()) {
            WaitLine::Pending => pending_in(ls.drop_last()) + 1,
            _ => pending_in(ls.drop_last()),
        }
    }
}

/// Whether a job with this id is among the jobs.
pub open spec fn has_id(jobs: Seq<CompletedJobView>, id: Seq<char>) -> bool {
    exists|k: int| 0 <= k < jobs.len() && jobs[k].job_id == id
}

/// The jobs, with each newly ended job added at the end unless a job with
/// its id is there already.
pub open spec fn merge_jobs(jobs: Seq<CompletedJobView>, found: Seq<CompletedJobView>) -> Seq<
    CompletedJobView,
>
    decreases found.len(),
{
    if found.len() == 0 {
        jobs
    } else {
        let m = merge_jobs(jobs, found.drop_last());
        if has_id(m, found.last().job_id) {
            m
        } else {
            m.push(found.last())
        }
    }
}

/// No two jobs share an id.
pub open spec fn distinct_ids(jobs: Seq<CompletedJobView>) -> bool {
    forall|a: int, b: int|
        0 <= a < b < jobs.len() ==> #[trigger] jobs[a].job_id != #[trigger] jobs[b].job_id
}

/// Every job has ended.
pub open spec fn all_ended(jobs: Seq<CompletedJobView>) -> bool {
    forall|k: int| 0 <= k < jobs.len() ==> is_terminal_name(uppercase_of(#[trigger] jobs[k].state))
}

/// Merging keeps the jobs that were there, in place.
pub proof fn lemma_merge_keeps(jobs: Seq<CompletedJobView>, found: Seq<CompletedJobView>)
    ensures
        merge_jobs(jobs, found).len() >= jobs.len(),
        merge_jobs(jobs, found).take(jobs.len() as int) == jobs,
    decreases found.len(),
{
    if found.len() > 0 {
        lemma_merge_keeps(jobs, found.drop_last());
        let m = merge_jobs(jobs, found.drop_last());
        assert(m.push(found.last()).take(jobs.len() as int) =~= m.take(jobs.len() as int));
    }
}

/// Merging keeps ids distinct, and ended jobs ended.
pub proof fn lemma_merge_distinct(jobs: Seq<CompletedJobView>, found: Seq<CompletedJobView>)
    requires
        distinct_ids(jobs),
        all_ended(jobs),
        all_ended(found),
    ensures
        distinct_ids(merge_jobs(jobs, found)),
        all_ended(merge_jobs(jobs, found)),
    decreases found.len(),
{
    if found.len() > 0 {
        let f = found.drop_last();
        assert forall|k: int| 0 <= k < f.len() implies is_terminal_name(
            uppercase_of(#[trigger] f[k].state),
        ) by {
            assert(f[k] == found[k]);
        }
        lemma_merge_distinct(jobs, f);
        let m = merge_jobs(jobs, f);
        let x = found.last();
        assert(is_terminal_name(uppercase_of(found[found.len() - 1].state)));
        if !has_id(m, x.job_id) {
            let n = m.push(x);
            assert forall|a: int, b: int| 0 <= a < b < n.len() implies #[trigger] n[a].job_id
                != #[trigger] n[b].job_id by {
                if b == m.len() {
                    assert(n[a] == m[a]);
                    assert(!(0 <= a < m.len() && m[a].job_id == x.job_id));
                } else {
                    assert(n[a] == m[a] && n[b] == m[b]);
                }
            }
            assert forall|k: int| 0 <= k < n.len() implies is_terminal_name(
                uppercase_of(#[trigger] n[k].state),
            ) by {
                if k < m.len() {
                    assert(n[k] == m[k]);
                }
            }
        }
    }
}

proof fn lemma_ended_in_ended(ls: Seq<Seq<char>>)
    ensures
        all_ended(ended_in(ls)),
    decreases ls.len(),
{
    if ls.len() > 0 {
        lemma_ended_in_ended(ls.drop_last());
        let r = ended_in(ls.drop_last());
        match wait_line(ls.last()) {
            WaitLine::Ended(j) => {
                let n = r.push(j);
                assert forall|k: int| 0 <= k < n.len() implies is_terminal_name(
                    uppercase_of(#[trigger] n[k].state),
                ) by {
                    if k < r.len() {
                        assert(n[k] == r[k]);
                    }
                }
            },
            _ => {},
        }
    }
}

// ---------------------------------------------------------------------------
// The decision
// ---------------------------------------------------------------------------

/// An answer to a wait, as values.
pub struct WaitAnswer {
    pub job_id: Seq<char>,
    pub completed_jobs: Seq<CompletedJobView>,
    pub all_completed: bool,
    pub wait_time_secs: u64,
}

/// A wait answer as values.
pub open spec fn answer_view(r: JobWaitResponse) -> WaitAnswer {
    WaitAnswer {
        job_id: r.job_id@,
        completed_jobs: r.completed_jobs@.map_values(|j: CompletedJob| j@),
        all_completed: r.all_completed,
        wait_time_secs: r.wait_time_secs,
    }
}

/// The index of the first job with the id, or -1.
pub open spec fn first_with_id(jobs: Seq<CompletedJobView>, id: Seq<char>) -> int
    decreases jobs.len(),
{
    if jobs.len() == 0 {
        -1
    } else if jobs[0].job_id == id {
        0
    } else {
        let k = first_with_id(jobs.drop_first(), id);
        if k < 0 {
            -1
        } else {
            k + 1
        }
    }
}

/// The id of one task of an array job.
pub open spec fn task_id(base: Seq<char>, index: u32) -> Seq<char> {
    base + "_"@ + decimal(index as nat)
}

/// Whether the wait is over, after a query, and its answer: with `Any`, as
/// soon as a job has ended; with `All`, once one has and none is pending;
/// with `Index`, once that task has ended, which alone is reported.
pub open spec fn wait_decision(
    mode: ArrayWaitMode,
    job_id: Seq<char>,
    base: Seq<char>,
    jobs: Seq<CompletedJobView>,
    pending: nat,
    elapsed: u64,
) -> Option<WaitAnswer> {
    match mode {
        ArrayWaitMode::Any => if jobs.len() > 0 {
            Some(
                WaitAnswer {
                    job_id,
                    completed_jobs: jobs,
                    all_completed: pending == 0,
                    wait_time_secs: elapsed,
                },
            )
        } else {
            None
        },
        ArrayWaitMode::All => if pending == 0 && jobs.len() > 0 {
            Some(
                WaitAnswer { job_id, completed_jobs: jobs, all_completed: true, wait_time_secs: elapsed },
            )
        } else {
            None
        },
        ArrayWaitMode::Index(i) => {
            let k = first_with_id(jobs, task_id(base, i));
            if k >= 0 {
                Some(
                    WaitAnswer {
                        job_id,
                        completed_jobs: seq![jobs[k]],
                        all_completed: true,
                        wait_time_secs: elapsed,
                    },
                )
            } else {
                None
            }
        },
    }
}

/// The query that reports the jobs of a base id.
pub open spec fn wait_query_line(base: Seq<char>) -> Seq<char> {
    "sacct -j "@ + base + " --parsable2 --noheader --format=JobID,State,ExitCode,Elapsed"@
}

/// The pause before the `k`th query: none before the first, then five
/// seconds more each time, up to a minute.
pub open spec fn pause_before(k: nat) -> u64 {
    if k * 5 < 60 {
        (k * 5) as u64
    } else {
        60
    }
}

// ---------------------------------------------------------------------------
// The machine
// ---------------------------------------------------------------------------

/// What the waiting side does next.
pub enum WaitAction {
    /// Sleep this many seconds, run the query, and hand its output to
    /// `observe`.
    Poll { sleep_secs: u64, query: CommandPlan },
    /// The time is up: answer with the jobs that ended so far.
    Finish(JobWaitResponse),
}

/// A wait in progress.
pub struct JobWait {
    job_id: String,
    base_job_id: String,
    array_mode: ArrayWaitMode,
    max_wait_secs: u64,
    completed: Vec<CompletedJob>,
    poll_count: u32,
}

impl JobWait {
    /// The job id as requested.
    pub closed spec fn job_id(&self) -> Seq<char> {
        self.job_id@
    }

    /// The id without an array index.
    pub closed spec fn base_job_id(&self) -> Seq<char> {
        self.base_job_id@
    }

    pub closed spec fn mode(&self) -> ArrayWaitMode {
        self.array_mode
    }

    pub closed spec fn max_wait_secs(&self) -> u64 {
        self.max_wait_secs
    }

    /// The jobs that have ended so far, in the order they were seen.
    pub closed spec fn completed(&self) -> Seq<CompletedJobView> {
        self.completed@.map_values(|j: CompletedJob| j@)
    }

    /// How many queries have been handed out.
    pub closed spec fn polls(&self) -> nat {
        self.poll_count as nat
    }

    /// What every state of a wait keeps: the ended jobs have distinct ids and
    /// have all ended.
    pub open spec fn wf(&self) -> bool {
        distinct_ids(self.completed()) && all_ended(self.completed())
    }

    /// Start waiting for a job: nothing has ended yet and no query has run.
    pub fn new(request: &JobWaitRequest) -> (res: Self)
        ensures
            res.wf(),
            res.job_id() == request.job_id@,
            res.base_job_id() == split_char(request.job_id@, '_')[0],
            res.mode() == request.array_mode,
            res.max_wait_secs() == request.max_wait_secs,
            res.completed() == Seq::<CompletedJobView>::empty(),
            res.polls() == 0,
    {
        let c = chars_of(request.job_id.as_str());
        let pieces = split_on(&c, '_');
        proof {
            crate::text::lemma_split_by_nonempty(c@, crate::text::eq_pred('_'));
        }
        let base = string_of(&pieces[0]);
        let res = JobWait {
            job_id: request.job_id.clone(),
            base_job_id: base,
            array_mode: request.array_mode,
            max_wait_secs: request.max_wait_secs,
            completed: Vec::new(),
            poll_count: 0,
        };
        assert(res.completed() =~= Seq::<CompletedJobView>::empty());
        res
    }

    fn completed_copy(&self) -> (res: Vec<CompletedJob>)
        ensures
            res@.map_values(|j: CompletedJob| j@) == self.completed(),
    {
        let mut res: Vec<CompletedJob> = Vec::new();
        let mut i: usize = 0;
        while i < self.completed.len()
            invariant
                i <= self.completed@.len(),
                res@.map_values(|j: CompletedJob| j@) == self.completed().take(i as int),
            decreases self.completed@.len() - i,
        {
            let j = copy_job(&self.completed[i]);
            let ghost before = res@.map_values(|j: CompletedJob| j@);
            res.push(j);
            assert(res@.map_values(|j: CompletedJob| j@) =~= before.push(self.completed()[i as int]));
            assert(self.completed().take(i as int + 1) =~= self.completed().take(i as int).push(
                self.completed()[i as int],
            ));
            i = i + 1;
        }
        assert(self.completed().take(self.completed@.len() as int) =~= self.completed());
        res
    }

    /// What to do next, `elapsed_secs` into the wait: give up once the time
    /// is over, else pause and query again.
    pub fn next(&mut self, elapsed_secs: u64) -> (res: WaitAction)
        requires
            old(self).wf(),
        ensures
            final(self).wf(),
            final(self).job_id() == old(self).job_id(),
            final(self).base_job_id() == old(self).base_job_id(),
            final(self).mode() == old(self).mode(),
            final(self).max_wait_secs() == old(self).max_wait_secs(),
            final(self).completed() == old(self).completed(),
            elapsed_secs > old(self).max_wait_secs() ==> {
                &&& final(self).polls() == old(self).polls()
                &&& res matches WaitAction::Finish(r) && answer_view(r) == WaitAnswer {
                    job_id: old(self).job_id(),
                    completed_jobs: old(self).completed(),
                    all_completed: false,
                    wait_time_secs: elapsed_secs,
                }
            },
            elapsed_secs <= old(self).max_wait_secs() ==> {
                &&& final(self).polls() == if old(self).polls() < u32::MAX {
                    old(self).polls() + 1
                } else {
                    old(self).polls()
                }
                &&& res matches WaitAction::Poll { sleep_secs, query } && sleep_secs
                    == pause_before(old(self).polls()) && query@ == plan_of(
                    Seq::empty(),
                    wait_query_line(old(self).base_job_id()),
                    30,
                )
            },
    {
        if elapsed_secs > self.max_wait_secs {
            let jobs = self.completed_copy();
            return WaitAction::Finish(
                JobWaitResponse {
                    job_id: self.job_id.clone(),
                    completed_jobs: jobs,
                    all_completed: false,
                    wait_time_secs: elapsed_secs,
                },
            );
        }
        let sleep_secs: u64 = if self.poll_count < 12 {
            self.poll_count as u64 * 5
        } else {
            60
        };
        if self.poll_count < u32::MAX {
            self.poll_count = self.poll_count + 1;
        }
        let mut v: Vec<char> = Vec::new();
        push_str(&mut v, "sacct -j ");
        push_str(&mut v, self.base_job_id.as_str());
        push_str(&mut v, " --parsable2 --noheader --format=JobID,State,ExitCode,Elapsed");
        let command = string_of(&v);
        assert(command@ =~= wait_query_line(self.base_job_id@));
        WaitAction::Poll {
            sleep_secs,
            query: CommandPlan { path: String::new(), command, timeout_secs: 30 },
        }
    }

    /// Take in what a query printed, `elapsed_secs` into the wait: the jobs
    /// that ended are added, and the wait is over where the mode says so.
    /// A query that could not run ends the wait with its error.
    pub fn observe(&mut self, output: Result<CommandOutput, SshError>, elapsed_secs: u64) -> (res:
        Option<Result<JobWaitResponse, RpcError>>)
        requires
            old(self).wf(),
        ensures
            final(self).wf(),
            final(self).job_id() == old(self).job_id(),
            final(self).base_job_id() == old(self).base_job_id(),
            final(self).mode() == old(self).mode(),
            final(self).max_wait_secs() == old(self).max_wait_secs(),
            final(self).polls() == old(self).polls(),
            match output {
                Err(e) => {
                    &&& final(self).completed() == old(self).completed()
                    &&& res matches Some(Err(x)) && x@ == command_failed(e)
                },
                Ok(o) => {
                    let ls = lines(o.stdout@);
                    &&& final(self).completed() == merge_jobs(old(self).completed(), ended_in(ls))
                    &&& match wait_decision(
                        old(self).mode(),
                        old(self).job_id(),
                        old(self).base_job_id(),
                        final(self).completed(),
                        pending_in(ls),
                        elapsed_secs,
                    ) {
                        None => res is None,
                        Some(a) => res matches Some(Ok(r)) && answer_view(r) == a,
                    }
                },
            },
    {
        let o = match output {
            Err(e) => return Some(Err(failure_of(e))),
            Ok(o) => o,
        };
        let (found, pending) = read_wait_lines(o.stdout.as_str());
        let ghost ls = lines(o.stdout@);
        proof {
            lemma_ended_in_ended(ls);
            lemma_merge_distinct(self.completed(), ended_in(ls));
        }
        self.merge(found);
        let ghost jobs = self.completed();
        match self.array_mode {
            ArrayWaitMode::Any => {
                if self.completed.len() > 0 {
                    return Some(
                        Ok(
                            JobWaitResponse {
                                job_id: self.job_id.clone(),
                                completed_jobs: self.completed_copy(),
                                all_completed: pending == 0,
                                wait_time_secs: elapsed_secs,
                            },
                        ),
                    );
                }
                None
            },
            ArrayWaitMode::All => {
                if pending == 0 && self.completed.len() > 0 {
                    return Some(
                        Ok(
                            JobWaitResponse {
                                job_id: self.job_id.clone(),
                                completed_jobs: self.completed_copy(),
                                all_completed: true,
                                wait_time_secs: elapsed_secs,
                            },
                        ),
                    );
                }
                None
            },
            ArrayWaitMode::Index(idx) => {
                let mut t: Vec<char> = Vec::new();
                push_str(&mut t, self.base_job_id.as_str());
                push_str(&mut t, "_");
                push_decimal(&mut t, idx as u64);
                let target = string_of(&t);
                assert(target@ =~= task_id(self.base_job_id@, idx));
                match self.find_id(&target) {
                    Some(k) => {
                        let job = copy_job(&self.completed[k]);
                        let ghost one = seq![job@];
                        let mut v: Vec<CompletedJob> = Vec::new();
                        v.push(job);
                        assert(v@.map_values(|j: CompletedJob| j@) =~= one);
                        Some(
                            Ok(
                                JobWaitResponse {
                                    job_id: self.job_id.clone(),
                                    completed_jobs: v,
                                    all_completed: true,
                                    wait_time_secs: elapsed_secs,
                                },
                            ),
                        )
                    },
                    None => None,
                }
            },
        }
    }

    fn find_id(&self, id: &String) -> (res: Option<usize>)
        ensures
            match res {
                Some(k) => k < self.completed@.len() && first_with_id(self.completed(), id@) == k,
                None => first_with_id(self.completed(), id@) < 0,
            },
    {
        let ghost jobs = self.completed();
        let mut i: usize = 0;
        assert(jobs.skip(0) =~= jobs);
        while i < self.completed.len()
            invariant
                jobs == self.completed(),
                i <= self.completed@.len(),
                first_with_id(jobs, id@) == if first_with_id(jobs.skip(i as int), id@) < 0 {
                    -1
                } else {
                    first_with_id(jobs.skip(i as int), id@) + i
                },
            decreases self.completed@.len() - i,
        {
            let ghost rest = jobs.skip(i as int);
            assert(rest[0] == jobs[i as int]);
            assert(rest.drop_first() =~= jobs.skip(i as int + 1));
            if self.completed[i].job_id == *id {
                assert(jobs[i as int].job_id == id@);
                return Some(i);
            }
            i = i + 1;
        }
        assert(jobs.skip(i as int) =~= Seq::<CompletedJobView>::empty());
        None
    }

    /// Adds each found job whose id is not there yet.
    fn merge(&mut self, found: Vec<CompletedJob>)
        ensures
            final(self).completed() == merge_jobs(
                old(self).completed(),
                found@.map_values(|j: CompletedJob| j@),
            ),
            final(self).job_id() == old(self).job_id(),
            final(self).base_job_id() == old(self).base_job_id(),
            final(self).mode() == old(self).mode(),
            final(self).max_wait_secs() == old(self).max_wait_secs(),
            final(self).polls() == old(self).polls(),
    {
        let ghost start = self.completed();
        let ghost fv = found@.map_values(|j: CompletedJob| j@);
        let mut i: usize = 0;
        while i < found.len()
            invariant
                i <= found@.len(),
                fv == found@.map_values(|j: CompletedJob| j@),
                self.completed() == merge_jobs(start, fv.take(i as int)),
                self.job_id() == old(self).job_id(),
                self.base_job_id() == old(self).base_job_id(),
                self.mode() == old(self).mode(),
                self.max_wait_secs() == old(self).max_wait_secs(),
                self.polls() == old(self).polls(),
            decreases found@.len() - i,
        {
            assert(fv.take(i as int + 1).drop_last() =~= fv.take(i as int));
            assert(fv.take(i as int + 1).last() == found@[i as int]@);
            let present = self.find_id(&found[i].job_id);
            proof {
                let jobs = self.completed();
                let id = found@[i as int]@.job_id;
                lemma_first_with_id(jobs, id);
            }
            if present.is_none() {
                let ghost before = self.completed();
                let job = copy_job(&found[i]);
                self.completed.push(job);
                assert(self.completed() =~= before.push(found@[i as int]@));
            }
            i = i + 1;
        }
        assert(fv.take(found@.len() as int) =~= fv);
    }
}

/// `first_with_id` finds a job exactly where there is one.
pub proof fn lemma_first_with_id(jobs: Seq<CompletedJobView>, id: Seq<char>)
    ensures
        (first_with_id(jobs, id) >= 0) == has_id(jobs, id),
        first_with_id(jobs, id) >= 0 ==> first_with_id(jobs, id) < jobs.len() && jobs[first_with_id(
            jobs,
            id,
        )].job_id == id,
    decreases jobs.len(),
{
    if jobs.len() > 0 {
        let rest = jobs.drop_first();
        lemma_first_with_id(rest, id);
        if jobs[0].job_id != id {
            if has_id(jobs, id) {
                let k = choose|k: int| 0 <= k < jobs.len() && jobs[k].job_id == id;
                assert(rest[k - 1] == jobs[k]);
            }
            if has_id(rest, id) {
                let k = choose|k: int| 0 <= k < rest.len() && rest[k].job_id == id;
                assert(jobs[k + 1] == rest[k]);
            }
        }
    }
}

fn copy_job(j: &CompletedJob) -> (res: CompletedJob)
    ensures
        res@ == j@,
{
    CompletedJob {
        job_id: j.job_id.clone(),
        state: j.state.clone(),
        exit_code: j.exit_code.clone(),
        elapsed: j.elapsed.clone(),
    }
}

fn wait_line_of(line: &[char]) -> (res: (Option<CompletedJob>, bool))
    ensures
        match wait_line(line@) {
            WaitLine::Skip => res.0 is None && !res.1,
            WaitLine::Pending => res.0 is None && res.1,
            WaitLine::Ended(j) => res.0 matches Some(x) && x@ == j && !res.1,
        },
{
    let parts = split_on(line, '|');
    if parts.len() < 4 {
        return (None, false);
    }
    let id = trim_of(&parts[0]);
    let state = trim_of(&parts[1]);
    assert(parts@[0]@ == split_char(line@, '|')[0]);
    assert(parts@[1]@ == split_char(line@, '|')[1]);
    assert(parts@[2]@ == split_char(line@, '|')[2]);
    assert(parts@[3]@ == split_char(line@, '|')[3]);
    if contains_str(&id, ".batch") || contains_str(&id, ".extern") {
        return (None, false);
    }
    let state_text = string_of(&state);
    if is_terminal_state(state_text.as_str()) {
        let exit_code = trim_of(&parts[2]);
        let elapsed = trim_of(&parts[3]);
        (
            Some(
                CompletedJob {
                    job_id: string_of(&id),
                    state: state_text,
                    exit_code: string_of(&exit_code),
                    elapsed: string_of(&elapsed),
                },
            ),
            false,
        )
    } else {
        (None, true)
    }
}

/// The ended jobs that the output reports, and how many are pending.
fn read_wait_lines(output: &str) -> (res: (Vec<CompletedJob>, usize))
    ensures
        res.0@.map_values(|j: CompletedJob| j@) == ended_in(lines(output@)),
        res.1 == pending_in(lines(output@)),
{
    let c = chars_of(output);
    let ls = lines_of(&c);
    let ghost lv = vviews(ls@);
    let mut found: Vec<CompletedJob> = Vec::new();
    let mut pending: usize = 0;
    let mut i: usize = 0;
    while i < ls.len()
        invariant
            lv == vviews(ls@),
            lv == lines(output@),
            i <= ls@.len(),
            found@.map_values(|j: CompletedJob| j@) == ended_in(lv.take(i as int)),
            pending == pending_in(lv.take(i as int)),
            pending <= i,
        decreases ls@.len() - i,
    {
        assert(lv.take(i as int + 1).drop_last() =~= lv.take(i as int));
        assert(ls@[i as int]@ == lv[i as int]);
        let (job, is_pending) = wait_line_of(&ls[i]);
        match job {
            Some(j) => {
                let ghost before = found@.map_values(|j: CompletedJob| j@);
                found.push(j);
                assert(found@.map_values(|j: CompletedJob| j@) =~= before.push(
                    found@.last()@,
                ));
            },
            None => {},
        }
        if is_pending {
            pending = pending + 1;
        }
        i = i + 1;
    }
    assert(lv.take(ls@.len() as int) =~= lv);
    (found, pending)
}

impl RpcState {
    /// Wait for a job to complete, polling with increasing intervals: the
    /// wait, ready for its first query.
    pub fn job_wait(&self, request: &JobWaitRequest) -> (res: JobWait)
        ensures
            res.wf(),
            res.job_id() == request.job_id@,
            res.base_job_id() == split_char(request.job_id@, '_')[0],
            res.mode() == request.array_mode,
            res.max_wait_secs() == request.max_wait_secs,
            res.completed() == Seq::<CompletedJobView>::empty(),
            res.polls() == 0,
    {
        JobWait::new(request)
    }
}

/// A field of `sacct --parsable2` output: no `|`, no white space at either
/// end.
pub open spec fn sacct_field(f: Seq<char>) -> bool {
    !crate::text::has_char(f, '|') && crate::commands::slurm::bare(f)
}

/// An accounting line `id|state|exit code|elapsed` reads back as its job:
/// ended, with each field in its own place, exactly when its state names an
/// end; otherwise the job is still pending.
pub proof fn lemma_wait_line_fields(
    id: Seq<char>,
    state: Seq<char>,
    exit: Seq<char>,
    elapsed: Seq<char>,
)
    requires
        sacct_field(id),
        sacct_field(state),
        sacct_field(exit),
        sacct_field(elapsed),
        !contains(id, ".batch"@),
        !contains(id, ".extern"@),
    ensures
        wait_line(join(seq![id, state, exit, elapsed], seq!['|'])) == if is_terminal_name(
            uppercase_of(state),
        ) {
            WaitLine::Ended(CompletedJobView { job_id: id, state, exit_code: exit, elapsed })
        } else {
            WaitLine::Pending
        },
{
    let fs = seq![id, state, exit, elapsed];
    let p = crate::text::eq_pred('|');
    assert forall|k: int| 0 <= k < fs.len() implies crate::text::no_match(#[trigger] fs[k], p) by {
        assert(sacct_field(fs[k]));
        assert forall|i: int| 0 <= i < fs[k].len() implies !p(#[trigger] fs[k][i]) by {
            if fs[k][i] == '|' {
                assert(crate::text::has_char(fs[k], '|'));
            }
        }
    }
    crate::commands::slurm::lemma_split_of_join(fs, '|', p);
    assert forall|k: int| 0 <= k < 4 implies trim(#[trigger] fs[k]) == fs[k] by {
        assert(sacct_field(fs[k]));
        crate::commands::slurm::lemma_bare_trimmed(fs[k]);
    }
    assert(trim(fs[0]) == id && trim(fs[1]) == state && trim(fs[2]) == exit && trim(fs[3])
        == elapsed);
}

/// When a wait is over, and what it answers: with `Any`, once some job has
/// ended; with `All`, once some job has ended and none is pending, and then
/// all are complete; with an index, once the task `<base>_<index>` has
/// ended, answering that task alone. The answer names the job, reports the
/// jobs that ended (all of them but for an index) and the time waited.
pub proof fn lemma_wait_decision(
    mode: ArrayWaitMode,
    job_id: Seq<char>,
    base: Seq<char>,
    jobs: Seq<CompletedJobView>,
    pending: nat,
    elapsed: u64,
)
    ensures
        wait_decision(mode, job_id, base, jobs, pending, elapsed) is Some <==> match mode {
            ArrayWaitMode::Any => jobs.len() > 0,
            ArrayWaitMode::All => jobs.len() > 0 && pending == 0,
            ArrayWaitMode::Index(i) => has_id(jobs, base + seq!['_'] + decimal(i as nat)),
        },
        wait_decision(mode, job_id, base, jobs, pending, elapsed) matches Some(a) ==> {
            &&& a.job_id == job_id
            &&& a.wait_time_secs == elapsed
            &&& match mode {
                ArrayWaitMode::Any => a.completed_jobs == jobs && a.all_completed == (pending == 0),
                ArrayWaitMode::All => a.completed_jobs == jobs && a.all_completed,
                ArrayWaitMode::Index(i) => {
                    &&& a.completed_jobs.len() == 1
                    &&& a.completed_jobs[0].job_id == base + seq!['_'] + decimal(i as nat)
                    &&& jobs.contains(a.completed_jobs[0])
                    &&& a.all_completed
                },
            }
        },
{
    reveal_strlit("_");
    if let ArrayWaitMode::Index(i) = mode {
        let id = task_id(base, i);
        assert(id =~= base + seq!['_'] + decimal(i as nat));
        lemma_first_with_id(jobs, id);
        let k = first_with_id(jobs, id);
        if k >= 0 {
            assert(jobs[k] == seq![jobs[k]][0]);
        }
    }
}

/// The pauses between queries: none before the first, then five seconds
/// more each time, never more than a minute, and never shorter than the one
/// before.
pub proof fn lemma_pauses(k: nat)
    ensures
        pause_before(0) == 0,
        pause_before(k) <= 60,
        k < 12 ==> pause_before(k) == 5 * k,
        k >= 12 ==> pause_before(k) == 60,
        pause_before(k) <= pause_before(k + 1),
{
}

} // verus!

