//! The steps of the `git_pull`, `squeue`, `sacct`, `sbatch` and `scancel`
//! methods.
use crate::commands::git::{
    files_changed_of, parse_git_pull_output, up_to_date_of, GitPullRequest, GitPullResponse,
};
use crate::commands::slurm::{
    after_lines, parse_sacct_output, parse_sbatch_output, parse_squeue_rows, sacct_jobs,
    sbatch_job_id, squeue_jobs, state_filter, JobAccounting, QueuedJob, SacctRequest,
    SacctResponse, SbatchRequest, SbatchResponse, ScancelRequest, ScancelResponse,
    SqueueRequest, SqueueResponse,
};
use crate::commands::validation::clone_strings;
use crate::error::SshError;
use crate::rpc::handlers::{
    command_failed, failure_of, plan_of, plan_result, CommandPlan, CommandPlanView, RpcState,
};
use crate::rpc::types::{
    rpc_error, rpc_failure, RpcError, RpcErrorView, ERR_COMMAND_FAILED, ERR_VALIDATION,
};
use crate::shell::{
    all_plain, lemma_line_words, line_words, push_quoted_arg, push_single_quoted, quote_arg,
    shell_form, single_quoted,
};
use crate::ssh::CommandOutput;
use crate::text::{chars_of, join, push_str, string_of};
use vstd::prelude::*;

verus! {

/// Each word as `quote_arg` writes it.
pub open spec fn quoted_words(xs: Seq<Seq<char>>) -> Seq<Seq<char>> {
    xs.map_values(|a: Seq<char>| quote_arg(a))
}

/// Appends the words, each as `quote_arg` writes it, separated by `sep`.
pub fn push_quoted_words(out: &mut Vec<char>, xs: &Vec<String>, sep: char)
    ensures
        final(out)@ == old(out)@ + join(quoted_words(xs.deep_view()), seq![sep]),
{
    let ghost start = out@;
    let ghost a = xs.deep_view();
    let mut i: usize = 0;
    assert(quoted_words(a.take(0)) =~= Seq::<Seq<char>>::empty());
    while i < xs.len()
        invariant
            i <= xs@.len(),
            a == xs.deep_view(),
            out@ == start + join(quoted_words(a.take(i as int)), seq![sep]),
        decreases xs@.len() - i,
    {
        if i > 0 {
            out.push(sep);
        }
        let w = chars_of(xs[i].as_str());
        push_quoted_arg(out, &w);
        proof {
            let q = quoted_words(a.take(i as int + 1));
            assert(a[i as int] == xs@[i as int]@);
            assert(q.drop_last() =~= quoted_words(a.take(i as int)));
            assert(q.last() == quote_arg(a[i as int]));
            if i == 0 {
                assert(q.len() == 1);
            }
            assert(out@ =~= start + join(q, seq![sep]));
        }
        i = i + 1;
    }
    assert(a.take(xs@.len() as int) =~= a);
}

/// `prefix` and the word, where there is one.
pub open spec fn opt_word(prefix: Seq<char>, v: Option<Seq<char>>) -> Seq<char> {
    match v {
        Some(w) => prefix + quote_arg(w),
        None => Seq::empty(),
    }
}

fn push_opt_word(out: &mut Vec<char>, prefix: &str, v: &Option<String>)
    ensures
        final(out)@ == old(out)@ + opt_word(prefix@, v.deep_view()),
{
    if let Some(w) = v {
        push_str(out, prefix);
        let c = chars_of(w.as_str());
        push_quoted_arg(out, &c);
    }
}

// ---------------------------------------------------------------------------
// git pull
// ---------------------------------------------------------------------------

/// The `git pull` line, run in the repository: the remote, and the branch
/// where one is named.
pub open spec fn git_pull_line(req: GitPullRequest, path: Seq<char>) -> Seq<char> {
    "cd "@ + single_quoted(path) + " && git pull "@ + single_quoted(req.remote@) + match req.branch {
        Some(b) => if b@.len() > 0 {
            " "@ + single_quoted(b@)
        } else {
            Seq::empty()
        },
        None => Seq::empty(),
    }
}

impl RpcState {
    /// What a `git_pull` request runs.
    pub open spec fn git_pull_plan(&self, req: GitPullRequest) -> Result<
        CommandPlanView,
        RpcErrorView,
    > {
        match self.readable(req.path@) {
            Err(e) => Err(e),
            Ok(p) => Ok(plan_of(p, git_pull_line(req, p), 120)),
        }
    }

    /// Execute git pull command: the repository must be readable.
    pub fn git_pull(&self, request: &GitPullRequest) -> (res: Result<
        CommandPlan,
        RpcError,
    >)
        ensures
            plan_result(res) == self.git_pull_plan(*request),
    {
        let path = match self.check_read(request.path.as_str()) {
            Ok(p) => p,
            Err(e) => return Err(e),
        };
        let pc = chars_of(path.as_str());
        let rc = chars_of(request.remote.as_str());
        let mut v: Vec<char> = Vec::new();
        push_str(&mut v, "cd ");
        push_single_quoted(&mut v, &pc);
        push_str(&mut v, " && git pull ");
        push_single_quoted(&mut v, &rc);
        if let Some(b) = &request.branch {
            if b.as_str().unicode_len() > 0 {
                push_str(&mut v, " ");
                let bc = chars_of(b.as_str());
                push_single_quoted(&mut v, &bc);
            }
        }
        let command = string_of(&v);
        assert(command@ =~= git_pull_line(*request, path@));
        Ok(CommandPlan { path, command, timeout_secs: 120 })
    }
}

/// The `git pull` answer: its output, whether it was up to date, and how
/// many files changed.
pub fn git_pull_response(
    plan: &CommandPlan,
    output: Result<CommandOutput, SshError>,
    duration_ms: u64,
) -> (res: Result<GitPullResponse, RpcError>)
    ensures
        match output {
            Err(e) => res matches Err(x) && x@ == command_failed(e),
            Ok(o) => res matches Ok(r) && {
                &&& r.path@ == plan.path@
                &&& r.output@ == o.stdout@
                &&& r.already_up_to_date == up_to_date_of(o.stdout@)
                &&& r.files_changed == files_changed_of(o.stdout@)
                &&& r.duration_ms == duration_ms
            },
        },
{
    match output {
        Err(e) => Err(failure_of(e)),
        Ok(o) => {
            let (already_up_to_date, files_changed) = parse_git_pull_output(o.stdout.as_str());
            Ok(
                GitPullResponse {
                    path: plan.path.clone(),
                    output: o.stdout,
                    already_up_to_date,
                    files_changed,
                    duration_ms,
                },
            )
        },
    }
}

// ---------------------------------------------------------------------------
// squeue
// ---------------------------------------------------------------------------

/// The `squeue` line: the filters that the request names, without a header,
/// in the eight-field format that the queue parser reads.
pub open spec fn squeue_line(req: SqueueRequest) -> Seq<char> {
    "squeue"@ + opt_word(" -u "@, req.user.deep_view()) + (if req.job_ids@.len() > 0 {
        " -j "@ + join(quoted_words(req.job_ids.deep_view()), seq![','])
    } else {
        Seq::empty()
    }) + opt_word(" -p "@, req.partition.deep_view()) + (match req.state {
        Some(s) => " -t "@ + state_filter(s),
        None => Seq::empty(),
    }) + " -h -o '%i %P %j %u %t %M %D %R'"@
}

impl RpcState {
    /// Execute squeue command.
    pub fn squeue(&self, request: &SqueueRequest) -> (res: CommandPlan)
        ensures
            res@ == plan_of(Seq::empty(), squeue_line(*request), 30),
    {
        let mut v: Vec<char> = Vec::new();
        push_str(&mut v, "squeue");
        push_opt_word(&mut v, " -u ", &request.user);
        if request.job_ids.len() > 0 {
            push_str(&mut v, " -j ");
            push_quoted_words(&mut v, &request.job_ids, ',');
        }
        push_opt_word(&mut v, " -p ", &request.partition);
        if let Some(s) = &request.state {
            push_str(&mut v, " -t ");
            push_str(&mut v, s.to_slurm_filter());
        }
        push_str(&mut v, " -h -o '%i %P %j %u %t %M %D %R'");
        let command = string_of(&v);
        assert(command@ =~= squeue_line(*request));
        CommandPlan { path: String::new(), command, timeout_secs: 30 }
    }
}

/// The `squeue` answer: the jobs that the output lists, every line a job's,
/// as the command asks for no header (`-h`).
pub fn squeue_response(output: Result<CommandOutput, SshError>, duration_ms: u64) -> (res: Result<
    SqueueResponse,
    RpcError,
>)
    ensures
        match output {
            Err(e) => res matches Err(x) && x@ == command_failed(e),
            Ok(o) => res matches Ok(r) && {
                &&& r.jobs@.map_values(|j: QueuedJob| j@) == squeue_jobs(after_lines(o.stdout@, 0))
                &&& r.duration_ms == duration_ms
            },
        },
{
    match output {
        Err(e) => Err(failure_of(e)),
        Ok(o) => {
            let jobs = parse_squeue_rows(o.stdout.as_str());
            Ok(SqueueResponse { jobs, duration_ms })
        },
    }
}

// ---------------------------------------------------------------------------
// sacct
// ---------------------------------------------------------------------------

/// The `sacct` line: parseable output with the accounting fields, then the
/// filters that the request names.
pub open spec fn sacct_line(req: SacctRequest) -> Seq<char> {
    "sacct --parsable2 --format=JobID,JobName,Partition,State,ExitCode,Elapsed,MaxRSS,MaxVMSize,NCPUs,NTasks"@
        + (if req.job_ids@.len() > 0 {
        " -j "@ + join(quoted_words(req.job_ids.deep_view()), seq![','])
    } else {
        Seq::empty()
    }) + opt_word(" -u "@, req.user.deep_view()) + opt_word(" -S "@, req.start_time.deep_view())
        + opt_word(" -E "@, req.end_time.deep_view()) + (match req.state {
        Some(s) => " -s "@ + state_filter(s),
        None => Seq::empty(),
    })
}

impl RpcState {
    /// Execute sacct command.
    pub fn sacct(&self, request: &SacctRequest) -> (res: CommandPlan)
        ensures
            res@ == plan_of(Seq::empty(), sacct_line(*request), 30),
    {
        let mut v: Vec<char> = Vec::new();
        push_str(
            &mut v,
            "sacct --parsable2 --format=JobID,JobName,Partition,State,ExitCode,Elapsed,MaxRSS,MaxVMSize,NCPUs,NTasks",
        );
        if request.job_ids.len() > 0 {
            push_str(&mut v, " -j ");
            push_quoted_words(&mut v, &request.job_ids, ',');
        }
        push_opt_word(&mut v, " -u ", &request.user);
        push_opt_word(&mut v, " -S ", &request.start_time);
        push_opt_word(&mut v, " -E ", &request.end_time);
        if let Some(s) = &request.state {
            push_str(&mut v, " -s ");
            push_str(&mut v, s.to_slurm_filter());
        }
        let command = string_of(&v);
        assert(command@ =~= sacct_line(*request));
        CommandPlan { path: String::new(), command, timeout_secs: 30 }
    }
}

/// The `sacct` answer: the jobs that the output lists.
pub fn sacct_response(output: Result<CommandOutput, SshError>, duration_ms: u64) -> (res: Result<
    SacctResponse,
    RpcError,
>)
    ensures
        match output {
            Err(e) => res matches Err(x) && x@ == command_failed(e),
            Ok(o) => res matches Ok(r) && {
                &&& r.jobs@.map_values(|j: JobAccounting| j@) == sacct_jobs(
                    after_lines(o.stdout@, 2),
                )
                &&& r.duration_ms == duration_ms
            },
        },
{
    match output {
        Err(e) => Err(failure_of(e)),
        Ok(o) => {
            let jobs = parse_sacct_output(o.stdout.as_str());
            Ok(SacctResponse { jobs, duration_ms })
        },
    }
}

// ---------------------------------------------------------------------------
// sbatch
// ---------------------------------------------------------------------------

/// The `sbatch` line: in the working directory where one is named.
pub open spec fn sbatch_line(script: Seq<char>, working_dir: Option<Seq<char>>) -> Seq<char> {
    match working_dir {
        Some(wd) => "cd "@ + single_quoted(wd) + " && sbatch "@ + single_quoted(script),
        None => "sbatch "@ + single_quoted(script),
    }
}

impl RpcState {
    /// What an `sbatch` request runs: the script, and the working directory
    /// where one is named, must be readable.
    pub open spec fn sbatch_plan(&self, req: SbatchRequest) -> Result<
        CommandPlanView,
        RpcErrorView,
    > {
        match self.readable(req.script_path@) {
            Err(e) => Err(e),
            Ok(s) => match req.working_dir {
                None => Ok(plan_of(s, sbatch_line(s, None), 30)),
                Some(wd) => match self.readable(wd@) {
                    Err(e) => Err(e),
                    Ok(w) => Ok(plan_of(s, sbatch_line(s, Some(w)), 30)),
                },
            },
        }
    }

    /// Execute sbatch command.
    pub fn sbatch(&self, request: &SbatchRequest) -> (res: Result<CommandPlan, RpcError>)
        ensures
            plan_result(res) == self.sbatch_plan(*request),
    {
        let script = match self.check_read(request.script_path.as_str()) {
            Ok(p) => p,
            Err(e) => return Err(e),
        };
        let sc = chars_of(script.as_str());
        let mut v: Vec<char> = Vec::new();
        if let Some(wd) = &request.working_dir {
            let w = match self.check_read(wd.as_str()) {
                Ok(p) => p,
                Err(e) => return Err(e),
            };
            let wc = chars_of(w.as_str());
            push_str(&mut v, "cd ");
            push_single_quoted(&mut v, &wc);
            push_str(&mut v, " && sbatch ");
            push_single_quoted(&mut v, &sc);
            let command = string_of(&v);
            assert(command@ =~= sbatch_line(script@, Some(w@)));
            Ok(CommandPlan { path: script, command, timeout_secs: 30 })
        } else {
            push_str(&mut v, "sbatch ");
            push_single_quoted(&mut v, &sc);
            let command = string_of(&v);
            assert(command@ =~= sbatch_line(script@, None));
            Ok(CommandPlan { path: script, command, timeout_secs: 30 })
        }
    }
}

/// The error of `sbatch` output that names no job.
pub open spec fn unparsed_sbatch(stdout: Seq<char>) -> RpcErrorView {
    rpc_failure(ERR_COMMAND_FAILED, "Failed to parse sbatch output: "@ + stdout)
}

/// The error of `sbatch` output that names no job.
pub fn unparsed_sbatch_error(stdout: &str) -> (res: RpcError)
    ensures
        res@ == unparsed_sbatch(stdout@),
{
    let mut v: Vec<char> = Vec::new();
    push_str(&mut v, "Failed to parse sbatch output: ");
    push_str(&mut v, stdout);
    rpc_error(ERR_COMMAND_FAILED, string_of(&v))
}

/// The `sbatch` answer: the id of the submitted job.
pub fn sbatch_response(
    plan: &CommandPlan,
    output: Result<CommandOutput, SshError>,
    duration_ms: u64,
) -> (res: Result<SbatchResponse, RpcError>)
    ensures
        match output {
            Err(e) => res matches Err(x) && x@ == command_failed(e),
            Ok(o) => match sbatch_job_id(o.stdout@) {
                None => res matches Err(x) && x@ == unparsed_sbatch(o.stdout@),
                Some(id) => res matches Ok(r) && {
                    &&& r.job_id@ == id
                    &&& r.script_path@ == plan.path@
                    &&& r.duration_ms == duration_ms
                },
            },
        },
{
    match output {
        Err(e) => Err(failure_of(e)),
        Ok(o) => match parse_sbatch_output(o.stdout.as_str()) {
            None => Err(unparsed_sbatch_error(o.stdout.as_str())),
            Some(job_id) => Ok(SbatchResponse { job_id, script_path: plan.path.clone(), duration_ms }),
        },
    }
}

// ---------------------------------------------------------------------------
// scancel
// ---------------------------------------------------------------------------

/// The `scancel` line.
pub open spec fn scancel_line(ids: Seq<Seq<char>>) -> Seq<char> {
    "scancel "@ + join(quoted_words(ids), seq![' '])
}

/// What a `scancel` request runs: it must name at least one job.
pub open spec fn scancel_plan(req: ScancelRequest) -> Result<CommandPlanView, RpcErrorView> {
    if req.job_ids@.len() == 0 {
        Err(rpc_failure(ERR_VALIDATION, "No job IDs provided"@))
    } else {
        Ok(plan_of(Seq::empty(), scancel_line(req.job_ids.deep_view()), 30))
    }
}

impl RpcState {
    /// Execute scancel command: it must name at least one job.
    pub fn scancel(&self, request: &ScancelRequest) -> (res: Result<CommandPlan, RpcError>)
        ensures
            plan_result(res) == scancel_plan(*request),
    {
        if request.job_ids.len() == 0 {
            return Err(rpc_error(ERR_VALIDATION, String::from_str("No job IDs provided")));
        }
        let mut v: Vec<char> = Vec::new();
        push_str(&mut v, "scancel ");
        push_quoted_words(&mut v, &request.job_ids, ' ');
        let command = string_of(&v);
        Ok(CommandPlan { path: String::new(), command, timeout_secs: 30 })
    }
}

/// The `scancel` answer: the jobs that were named, and what `scancel` said.
pub fn scancel_response(
    request: &ScancelRequest,
    output: Result<CommandOutput, SshError>,
    duration_ms: u64,
) -> (res: Result<ScancelResponse, RpcError>)
    ensures
        match output {
            Err(e) => res matches Err(x) && x@ == command_failed(e),
            Ok(o) => res matches Ok(r) && {
                &&& r.cancelled_jobs.deep_view() == request.job_ids.deep_view()
                &&& r.output@ == o.stdout@
                &&& r.duration_ms == duration_ms
            },
        },
{
    match output {
        Err(e) => Err(failure_of(e)),
        Ok(o) => Ok(
            ScancelResponse {
                cancelled_jobs: clone_strings(&request.job_ids),
                output: o.stdout,
                duration_ms,
            },
        ),
    }
}

/// The job ids of a `scancel` request reach `scancel` as single words,
/// unchanged.
pub proof fn lemma_scancel_line_words(ids: Seq<Seq<char>>)
    requires
        ids.len() >= 1,
    ensures
        line_words(scancel_line(ids)) == Some(seq!["scancel"@] + ids),
{
    reveal_strlit("scancel ");
    reveal_strlit("scancel");
    let ws = quoted_words(ids);
    assert forall|k: int| 0 <= k < ws.len() implies shell_form(#[trigger] ws[k], ids[k]) by {}
    assert("scancel "@ =~= "scancel"@ + seq![' ']);
    assert(all_plain("scancel"@));
    lemma_line_words("scancel"@, ws, ids);
}

} // verus!
