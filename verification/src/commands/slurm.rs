//! SLURM commands: job states, partitions, resource specifications, and the
//! parsing of `squeue`, `sacct` and `sbatch` output.
use crate::text::{
    chars_of, decimal, decimal_pad2, join, join_from, lines, lines_of, parse_bounded,
    parse_unsigned, push_decimal, push_decimal_pad2, push_str, split_char, split_on,
    starts_with, starts_with_str, string_of, tokens, tokens_of, trim, trim_of, vviews,
};
use vstd::prelude::*;

verus! {

/// Job state filter for squeue/sacct
#[derive(Debug, Clone, Copy, PartialEq, Eq, Structural)]
pub enum JobState {
    Pending,
    Running,
    Suspended,
    Completed,
    Cancelled,
    Failed,
    Timeout,
    All,
}

/// The state code that SLURM's filters take for a state.
pub open spec fn state_filter(st: JobState) -> Seq<char> {
    match st {
        JobState::Pending => "PD"@,
        JobState::Running => "R"@,
        JobState::Suspended => "S"@,
        JobState::Completed => "CD"@,
        JobState::Cancelled => "CA"@,
        JobState::Failed => "F"@,
        JobState::Timeout => "TO"@,
        JobState::All => "all"@,
    }
}

impl JobState {
    pub fn to_slurm_filter(&self) -> (res: &'static str)
        ensures
            res@ == state_filter(*self),
    {
        match self {
            JobState::Pending => "PD",
            JobState::Running => "R",
            JobState::Suspended => "S",
            JobState::Completed => "CD",
            JobState::Cancelled => "CA",
            JobState::Failed => "F",
            JobState::Timeout => "TO",
            JobState::All => "all",
        }
    }
}

/// Request for squeue command
#[derive(Debug)]
pub struct SqueueRequest {
    /// Filter by user (default: current user)
    pub user: Option<String>,
    /// Filter by specific job IDs
    pub job_ids: Vec<String>,
    /// Filter by partition
    pub partition: Option<String>,
    /// Filter by state
    pub state: Option<JobState>,
}

/// Response from squeue command
#[derive(Debug)]
pub struct SqueueResponse {
    pub jobs: Vec<QueuedJob>,
    pub duration_ms: u64,
}

/// A job in the queue
#[derive(Debug)]
pub struct QueuedJob {
    pub job_id: String,
    pub name: String,
    pub user: String,
    pub partition: String,
    pub state: String,
    pub time: String,
    pub nodes: String,
    pub reason: Option<String>,
}

/// A queued job, as values.
pub struct QueuedJobView {
    pub job_id: Seq<char>,
    pub name: Seq<char>,
    pub user: Seq<char>,
    pub partition: Seq<char>,
    pub state: Seq<char>,
    pub time: Seq<char>,
    pub nodes: Seq<char>,
    pub reason: Option<Seq<char>>,
}

impl View for QueuedJob {
    type V = QueuedJobView;

    open spec fn view(&self) -> QueuedJobView {
        QueuedJobView {
            job_id: self.job_id@,
            name: self.name@,
            user: self.user@,
            partition: self.partition@,
            state: self.state@,
            time: self.time@,
            nodes: self.nodes@,
            reason: self.reason.deep_view(),
        }
    }
}

/// Request for sacct command
#[derive(Debug)]
pub struct SacctRequest {
    /// Filter by specific job IDs
    pub job_ids: Vec<String>,
    /// Filter by user
    pub user: Option<String>,
    /// Start time (e.g., "now-1day", "2024-01-01")
    pub start_time: Option<String>,
    /// End time
    pub end_time: Option<String>,
    /// Filter by state
    pub state: Option<JobState>,
}

/// Response from sacct command
#[derive(Debug)]
pub struct SacctResponse {
    pub jobs: Vec<JobAccounting>,
    pub duration_ms: u64,
}

/// Job accounting information
#[derive(Debug)]
pub struct JobAccounting {
    pub job_id: String,
    pub job_name: String,
    pub partition: String,
    pub state: String,
    pub exit_code: String,
    pub elapsed: String,
    pub max_rss: Option<String>,
    pub max_vmem: Option<String>,
    pub n_cpus: u32,
    pub n_tasks: u32,
}

/// Job accounting, as values.
pub struct JobAccountingView {
    pub job_id: Seq<char>,
    pub job_name: Seq<char>,
    pub partition: Seq<char>,
    pub state: Seq<char>,
    pub exit_code: Seq<char>,
    pub elapsed: Seq<char>,
    pub max_rss: Option<Seq<char>>,
    pub max_vmem: Option<Seq<char>>,
    pub n_cpus: u32,
    pub n_tasks: u32,
}

impl View for JobAccounting {
    type V = JobAccountingView;

    open spec fn view(&self) -> JobAccountingView {
        JobAccountingView {
            job_id: self.job_id@,
            job_name: self.job_name@,
            partition: self.partition@,
            state: self.state@,
            exit_code: self.exit_code@,
            elapsed: self.elapsed@,
            max_rss: self.max_rss.deep_view(),
            max_vmem: self.max_vmem.deep_view(),
            n_cpus: self.n_cpus,
            n_tasks: self.n_tasks,
        }
    }
}

/// Partition selection - typed enum
#[derive(Debug, Clone, Copy, PartialEq, Eq, Structural)]
pub enum Partition {
    Priority,
    Short,
    Medium,
    Long,
    Interactive,
    Highmem,
    Gpu,
    Mpi,
}

impl Partition {
    pub fn as_str(&self) -> (res: &'static str)
        ensures
            res@ == partition_name(*self),
    {
        match self {
            Partition::Priority => "priority",
            Partition::Short => "short",
            Partition::Medium => "medium",
            Partition::Long => "long",
            Partition::Interactive => "interactive",
            Partition::Highmem => "highmem",
            Partition::Gpu => "gpu",
            Partition::Mpi => "mpi",
        }
    }

    pub fn max_time_hours(&self) -> (res: u32)
        ensures
            res == match self {
                Partition::Priority => 120u32,
                Partition::Short => 12,
                Partition::Medium => 120,
                Partition::Long => 720,
                Partition::Interactive => 12,
                Partition::Highmem => 120,
                Partition::Gpu => 120,
                Partition::Mpi => 120,
            },
    {
        match self {
            Partition::Priority => 120,  // 5 days
            Partition::Short => 12,
            Partition::Medium => 120,  // 5 days
            Partition::Long => 720,  // 30 days
            Partition::Interactive => 12,
            Partition::Highmem => 120,
            Partition::Gpu => 120,
            Partition::Mpi => 120,
        }
    }
}

pub open spec fn partition_name(p: Partition) -> Seq<char> {
    match p {
        Partition::Priority => "priority"@,
        Partition::Short => "short"@,
        Partition::Medium => "medium"@,
        Partition::Long => "long"@,
        Partition::Interactive => "interactive"@,
        Partition::Highmem => "highmem"@,
        Partition::Gpu => "gpu"@,
        Partition::Mpi => "mpi"@,
    }
}

/// Time specification for SLURM jobs
#[derive(Debug, Clone)]
pub struct TimeSpec {
    pub days: u32,
    pub hours: u32,
    pub minutes: u32,
}

/// `D-HH:MM`, as SLURM reads a time limit.
pub open spec fn time_format(t: TimeSpec) -> Seq<char> {
    decimal(t.days as nat) + "-"@ + decimal_pad2(t.hours as nat) + ":"@ + decimal_pad2(
        t.minutes as nat,
    )
}

impl TimeSpec {
    pub fn to_slurm_format(&self) -> (res: String)
        ensures
            res@ == time_format(*self),
    {
        let mut v: Vec<char> = Vec::new();
        push_decimal(&mut v, self.days as u64);
        push_str(&mut v, "-");
        push_decimal_pad2(&mut v, self.hours as u64);
        push_str(&mut v, ":");
        push_decimal_pad2(&mut v, self.minutes as u64);
        string_of(&v)
    }

    /// Whole hours of the limit; minutes are not counted.
    pub fn total_hours(&self) -> (res: u32)
        requires
            self.days * 24 + self.hours <= u32::MAX,
        ensures
            res == self.days * 24 + self.hours,
    {
        self.days * 24 + self.hours
    }
}

/// Memory specification
#[derive(Debug, Clone)]
pub struct MemorySpec {
    pub amount: u32,
    pub unit: MemoryUnit,
}

#[derive(Debug, Clone, Copy, PartialEq, Eq, Structural)]
pub enum MemoryUnit {
    MB,
    GB,
    TB,
}

pub open spec fn memory_format(m: MemorySpec) -> Seq<char> {
    decimal(m.amount as nat) + match m.unit {
        MemoryUnit::MB => "M"@,
        MemoryUnit::GB => "G"@,
        MemoryUnit::TB => "T"@,
    }
}

/// Whole gigabytes: megabytes round down.
pub open spec fn memory_gb(m: MemorySpec) -> int {
    match m.unit {
        MemoryUnit::MB => (m.amount / 1024) as int,
        MemoryUnit::GB => m.amount as int,
        MemoryUnit::TB => m.amount * 1024,
    }
}

impl MemorySpec {
    pub fn to_slurm_format(&self) -> (res: String)
        ensures
            res@ == memory_format(*self),
    {
        let mut v: Vec<char> = Vec::new();
        push_decimal(&mut v, self.amount as u64);
        let suffix = match self.unit {
            MemoryUnit::MB => "M",
            MemoryUnit::GB => "G",
            MemoryUnit::TB => "T",
        };
        push_str(&mut v, suffix);
        string_of(&v)
    }

    pub fn to_gb(&self) -> (res: u32)
        requires
            memory_gb(*self) <= u32::MAX,
        ensures
            res == memory_gb(*self),
    {
        match self.unit {
            MemoryUnit::MB => self.amount / 1024,
            MemoryUnit::GB => self.amount,
            MemoryUnit::TB => self.amount * 1024,
        }
    }
}

/// GPU specification
#[derive(Debug, Clone)]
pub struct GpuSpec {
    pub count: u32,
    pub gpu_type: Option<GpuType>,
}

#[derive(Debug, Clone, Copy, PartialEq, Eq, Structural)]
pub enum GpuType {
    Tesla,
    V100,
    A100,
}

pub open spec fn gpu_gres(g: GpuSpec) -> Seq<char> {
    match g.gpu_type {
        Some(t) => "gpu:"@ + match t {
            GpuType::Tesla => "tesla"@,
            GpuType::V100 => "v100"@,
            GpuType::A100 => "a100"@,
        } + ":"@ + decimal(g.count as nat),
        None => "gpu:"@ + decimal(g.count as nat),
    }
}

impl GpuSpec {
    pub fn to_slurm_gres(&self) -> (res: String)
        ensures
            res@ == gpu_gres(*self),
    {
        let mut v: Vec<char> = Vec::new();
        push_str(&mut v, "gpu:");
        match &self.gpu_type {
            Some(t) => {
                let type_str = match t {
                    GpuType::Tesla => "tesla",
                    GpuType::V100 => "v100",
                    GpuType::A100 => "a100",
                };
                push_str(&mut v, type_str);
                push_str(&mut v, ":");
            },
            None => {},
        }
        push_decimal(&mut v, self.count as u64);
        string_of(&v)
    }
}

/// The job that one data line of `squeue` output gives: eight fields or more.
pub open spec fn squeue_job(line: Seq<char>) -> Option<QueuedJobView> {
    let parts = tokens(line);
    if parts.len() >= 8 {
        Some(
            QueuedJobView {
                job_id: parts[0],
                partition: parts[1],
                name: parts[2],
                user: parts[3],
                state: parts[4],
                time: parts[5],
                nodes: parts[6],
                reason: if parts.len() > 7 {
                    Some(join(parts.skip(7), " "@))
                } else {
                    None
                },
            },
        )
    } else {
        None
    }
}

pub open spec fn squeue_jobs(ls: Seq<Seq<char>>) -> Seq<QueuedJobView>
    decreases ls.len(),
{
    if ls.len() == 0 {
        Seq::empty()
    } else {
        let r = squeue_jobs(ls.drop_last());
        match squeue_job(ls.last()) {
            Some(j) => r.push(j),
            None => r,
        }
    }
}

/// The lines after the first `n`.
pub open spec fn after_lines(output: Seq<char>, n: int) -> Seq<Seq<char>> {
    if lines(output).len() <= n {
        Seq::empty()
    } else {
        lines(output).skip(n)
    }
}

fn squeue_job_of(line: &Vec<char>) -> (res: Option<QueuedJob>)
    ensures
        match res {
            Some(j) => squeue_job(line@) == Some(j@),
            None => squeue_job(line@) is None,
        },
{
    let parts = tokens_of(line);
    let ghost ps = vviews(parts@);
    if parts.len() >= 8 {
        assert forall|k: int| 0 <= k < 8 implies parts@[k]@ == ps[k] by {}
        let reason = if parts.len() > 7 {
            let r = join_from(&parts, 7, &[' ']);
            assert([' ']@ =~= " "@) by {
                reveal_strlit(" ");
            }
            Some(string_of(&r))
        } else {
            None
        };
        Some(
            QueuedJob {
                job_id: string_of(&parts[0]),
                partition: string_of(&parts[1]),
                name: string_of(&parts[2]),
                user: string_of(&parts[3]),
                state: string_of(&parts[4]),
                time: string_of(&parts[5]),
                nodes: string_of(&parts[6]),
                reason,
            },
        )
    } else {
        None
    }
}

/// Parse squeue output (the first line is the header)
pub fn parse_squeue_output(output: &str) -> (res: Vec<QueuedJob>)
    ensures
        res@.map_values(|j: QueuedJob| j@) == squeue_jobs(after_lines(output@, 1)),
{
    parse_squeue_after(output, 1)
}

/// Parse squeue output printed without a header (`squeue -h`): every line
/// is a job's.
pub fn parse_squeue_rows(output: &str) -> (res: Vec<QueuedJob>)
    ensures
        res@.map_values(|j: QueuedJob| j@) == squeue_jobs(after_lines(output@, 0)),
{
    parse_squeue_after(output, 0)
}

/// The jobs of the lines after the first `first`.
fn parse_squeue_after(output: &str, first: usize) -> (res: Vec<QueuedJob>)
    ensures
        res@.map_values(|j: QueuedJob| j@) == squeue_jobs(after_lines(output@, first as int)),
{
    let chars = chars_of(output);
    let ls = lines_of(&chars);
    let ghost lv = vviews(ls@);
    let ghost rest = after_lines(output@, first as int);
    let mut jobs: Vec<QueuedJob> = Vec::new();
    if ls.len() <= first {
        assert(jobs@.map_values(|j: QueuedJob| j@) =~= Seq::<QueuedJobView>::empty());
        return jobs;
    }
    let mut i: usize = first;
    assert(rest.take(0) =~= Seq::<Seq<char>>::empty());
    while i < ls.len()
        invariant
            lv == vviews(ls@),
            lv == lines(output@),
            lv.len() > first,
            rest == lv.skip(first as int),
            first <= i <= ls@.len(),
            jobs@.map_values(|j: QueuedJob| j@) == squeue_jobs(rest.take(i - first)),
        decreases ls@.len() - i,
    {
        assert(rest.take(i - first + 1).drop_last() =~= rest.take(i - first));
        assert(rest.take(i - first + 1).last() == lv[i as int]);
        assert(ls@[i as int]@ == lv[i as int]);
        let ghost before = jobs@.map_values(|j: QueuedJob| j@);
        match squeue_job_of(&ls[i]) {
            Some(j) => {
                jobs.push(j);
                assert(jobs@.map_values(|j: QueuedJob| j@) =~= before.push(jobs@.last()@));
            },
            None => {},
        }
        i = i + 1;
    }
    assert(rest.take(ls@.len() - first) =~= rest);
    jobs
}

/// Request for sbatch command
#[derive(Debug)]
pub struct SbatchRequest {
    /// Path to the sbatch script file (must exist on remote)
    pub script_path: String,
    /// Working directory for the job
    pub working_dir: Option<String>,
}

/// Response from sbatch command
#[derive(Debug)]
pub struct SbatchResponse {
    pub job_id: String,
    pub script_path: String,
    pub duration_ms: u64,
}

/// How to wait for job arrays
#[derive(Debug, Clone, Copy, PartialEq, Eq, Structural)]
pub enum ArrayWaitMode {
    /// Wait for any array task to complete (default)
    Any,
    /// Wait for all array tasks to complete
    All,
    /// Wait for a specific array index
    Index(u32),
}

impl Default for ArrayWaitMode {
    fn default() -> (res: Self)
        ensures
            res == ArrayWaitMode::Any,
    {
        ArrayWaitMode::Any
    }
}

/// Request for job_wait command
#[derive(Debug)]
pub struct JobWaitRequest {
    /// Job ID to wait for (e.g., "12345678" or "12345678_5" for specific array task)
    pub job_id: String,
    /// For job arrays: wait for any (default), all, or specific index
    pub array_mode: ArrayWaitMode,
    /// Maximum time to wait in seconds (default: 86400 = 24 hours)
    pub max_wait_secs: u64,
}

/// The longest wait when the request names none: a day.
pub fn default_max_wait() -> (n: u64)
    ensures
        n == 86400,
{
    86400
}

/// Response from job_wait command
#[derive(Debug)]
pub struct JobWaitResponse {
    pub job_id: String,
    /// Jobs that completed (for arrays, may be multiple)
    pub completed_jobs: Vec<CompletedJob>,
    /// Whether all requested jobs completed (vs timeout)
    pub all_completed: bool,
    /// Total time spent waiting
    pub wait_time_secs: u64,
}

/// Information about a completed job
#[derive(Debug, Clone)]
pub struct CompletedJob {
    pub job_id: String,
    pub state: String,
    pub exit_code: String,
    pub elapsed: String,
}

/// A completed job, as values.
pub struct CompletedJobView {
    pub job_id: Seq<char>,
    pub state: Seq<char>,
    pub exit_code: Seq<char>,
    pub elapsed: Seq<char>,
}

impl View for CompletedJob {
    type V = CompletedJobView;

    open spec fn view(&self) -> CompletedJobView {
        CompletedJobView {
            job_id: self.job_id@,
            state: self.state@,
            exit_code: self.exit_code@,
            elapsed: self.elapsed@,
        }
    }
}

/// Request for scancel command
#[derive(Debug)]
pub struct ScancelRequest {
    /// Job IDs to cancel
    pub job_ids: Vec<String>,
}

/// Response from scancel command
#[derive(Debug)]
pub struct ScancelResponse {
    pub cancelled_jobs: Vec<String>,
    pub output: String,
    pub duration_ms: u64,
}

/// What `str::to_uppercase` gives for a text.
pub uninterp spec fn uppercase_of(s: Seq<char>) -> Seq<char>;

/// The uppercase of an ASCII character: `a` to `z` become `A` to `Z`.
pub open spec fn ascii_upper(c: char) -> char {
    if 'a' <= c && c <= 'z' {
        ((c as int) - 32) as char
    } else {
        c
    }
}

/// `str::to_uppercase`: the Unicode uppercase of the text. Named, not
/// described: the Unicode case tables are not restated here; stated is only
/// that ASCII text has its letters `a` to `z` made capitals and keeps the
/// rest.
#[verifier::external_body]
fn to_uppercase(s: &str) -> (res: String)
    ensures
        res@ == uppercase_of(s@),
        (forall|i: int| 0 <= i < s@.len() ==> #[trigger] s@[i] <= '\u{7f}') ==> res@
            == s@.map_values(|c: char| ascii_upper(c)),
{
    s.to_uppercase()
}

/// The SLURM states in which a job has ended, in capitals.
pub open spec fn is_terminal_name(upper: Seq<char>) -> bool {
    ||| upper == "COMPLETED"@
    ||| upper == "FAILED"@
    ||| upper == "CANCELLED"@
    ||| upper == "TIMEOUT"@
    ||| upper == "OUT_OF_MEMORY"@
    ||| upper == "NODE_FAIL"@
    ||| upper == "PREEMPTED"@
    ||| upper == "BOOT_FAIL"@
    ||| upper == "DEADLINE"@
}

/// Whether an uppercased state is one in which a job has ended.
pub fn is_terminal_upper(upper: &str) -> (b: bool)
    ensures
        b == is_terminal_name(upper@),
{
    let u = chars_of(upper);
    let names = [
        "COMPLETED",
        "FAILED",
        "CANCELLED",
        "TIMEOUT",
        "OUT_OF_MEMORY",
        "NODE_FAIL",
        "PREEMPTED",
        "BOOT_FAIL",
        "DEADLINE",
    ];
    let mut i: usize = 0;
    while i < 9
        invariant
            u@ == upper@,
            names@ == seq![
                "COMPLETED",
                "FAILED",
                "CANCELLED",
                "TIMEOUT",
                "OUT_OF_MEMORY",
                "NODE_FAIL",
                "PREEMPTED",
                "BOOT_FAIL",
                "DEADLINE",
            ],
            i <= 9,
            forall|j: int| 0 <= j < i ==> upper@ != (#[trigger] names@[j])@,
        decreases 9 - i,
    {
        let n = chars_of(names[i]);
        if n.len() == u.len() && crate::text::starts_with_chars(&u, &n) {
            assert(u@.take(n@.len() as int) =~= u@);
            return true;
        }
        proof {
            if n@.len() == u@.len() {
                assert(u@.take(n@.len() as int) =~= u@);
            }
            assert(upper@ != names@[i as int]@);
        }
        i = i + 1;
    }
    false
}

/// Check if a job state indicates completion
pub fn is_terminal_state(state: &str) -> (b: bool)
    ensures
        b == is_terminal_name(uppercase_of(state@)),
        (forall|i: int| 0 <= i < state@.len() ==> #[trigger] state@[i] <= '\u{7f}') ==> b
            == is_terminal_name(state@.map_values(|c: char| ascii_upper(c))),
{
    let upper = to_uppercase(state);
    is_terminal_upper(upper.as_str())
}

/// The first line that reports a submitted batch job, if any.
pub open spec fn first_submitted_line(ls: Seq<Seq<char>>) -> Option<Seq<char>>
    decreases ls.len(),
{
    if ls.len() == 0 {
        None
    } else if starts_with(ls[0], "Submitted batch job"@) {
        Some(ls[0])
    } else {
        first_submitted_line(ls.drop_first())
    }
}

/// The job ID that `sbatch` reports: the last field of its first
/// `Submitted batch job` line.
pub open spec fn sbatch_job_id(output: Seq<char>) -> Option<Seq<char>> {
    match first_submitted_line(lines(output)) {
        None => None,
        Some(line) => {
            let t = tokens(line);
            if t.len() == 0 {
                None
            } else {
                Some(t.last())
            }
        },
    }
}

/// Parse sbatch output to extract job ID
/// Output format: "Submitted batch job 12345678"
pub fn parse_sbatch_output(output: &str) -> (res: Option<String>)
    ensures
        res.deep_view() == sbatch_job_id(output@),
{
    let chars = chars_of(output);
    let ls = lines_of(&chars);
    let ghost lv = vviews(ls@);
    let mut i: usize = 0;
    assert(lv.skip(0) =~= lv);
    while i < ls.len()
        invariant
            lv == vviews(ls@),
            lv == lines(output@),
            i <= ls@.len(),
            first_submitted_line(lv) == first_submitted_line(lv.skip(i as int)),
        decreases ls@.len() - i,
    {
        assert(ls@[i as int]@ == lv[i as int]);
        assert(lv.skip(i as int)[0] == lv[i as int]);
        if starts_with_str(&ls[i], "Submitted batch job") {
            let t = tokens_of(&ls[i]);
            if t.len() == 0 {
                return None;
            }
            assert(t@[t@.len() - 1]@ == vviews(t@).last());
            return Some(string_of(&t[t.len() - 1]));
        }
        assert(lv.skip(i as int).drop_first() =~= lv.skip(i as int + 1));
        i = i + 1;
    }
    assert(lv.skip(i as int) =~= Seq::<Seq<char>>::empty());
    None
}

/// `None` for a blank field, else the field.
pub open spec fn nonblank(s: Seq<char>) -> Option<Seq<char>> {
    if s.len() == 0 {
        None
    } else {
        Some(s)
    }
}

/// A count field of `sacct`, 0 where it is no number.
pub open spec fn count_field(s: Seq<char>) -> u32 {
    match parse_unsigned(s, u32::MAX as nat) {
        Some(v) => v as u32,
        None => 0,
    }
}

/// The record that one data line of `sacct --parsable2` output gives: ten
/// `|`-separated fields or more, each trimmed.
pub open spec fn sacct_job(line: Seq<char>) -> Option<JobAccountingView> {
    let parts = split_char(line, '|');
    if parts.len() >= 10 {
        Some(
            JobAccountingView {
                job_id: trim(parts[0]),
                job_name: trim(parts[1]),
                partition: trim(parts[2]),
                state: trim(parts[3]),
                exit_code: trim(parts[4]),
                elapsed: trim(parts[5]),
                max_rss: nonblank(trim(parts[6])),
                max_vmem: nonblank(trim(parts[7])),
                n_cpus: count_field(trim(parts[8])),
                n_tasks: count_field(trim(parts[9])),
            },
        )
    } else {
        None
    }
}

pub open spec fn sacct_jobs(ls: Seq<Seq<char>>) -> Seq<JobAccountingView>
    decreases ls.len(),
{
    if ls.len() == 0 {
        Seq::empty()
    } else {
        let r = sacct_jobs(ls.drop_last());
        match sacct_job(ls.last()) {
            Some(j) => r.push(j),
            None => r,
        }
    }
}

fn trimmed_string(v: &Vec<char>) -> (res: String)
    ensures
        res@ == trim(v@),
{
    let t = trim_of(v);
    string_of(&t)
}

fn optional_field(v: &Vec<char>) -> (res: Option<String>)
    ensures
        res.deep_view() == nonblank(trim(v@)),
{
    let t = trim_of(v);
    if t.len() == 0 {
        None
    } else {
        Some(string_of(&t))
    }
}

fn count_field_of(v: &Vec<char>) -> (res: u32)
    ensures
        res == count_field(trim(v@)),
{
    let t = trim_of(v);
    match parse_bounded(&t, u32::MAX as u64) {
        Some(n) => n as u32,
        None => 0,
    }
}

fn sacct_job_of(line: &Vec<char>) -> (res: Option<JobAccounting>)
    ensures
        match res {
            Some(j) => sacct_job(line@) == Some(j@),
            None => sacct_job(line@) is None,
        },
{
    let parts = split_on(line, '|');
    let ghost ps = vviews(parts@);
    if parts.len() >= 10 {
        assert forall|k: int| 0 <= k < 10 implies parts@[k]@ == ps[k] by {}
        Some(
            JobAccounting {
                job_id: trimmed_string(&parts[0]),
                job_name: trimmed_string(&parts[1]),
                partition: trimmed_string(&parts[2]),
                state: trimmed_string(&parts[3]),
                exit_code: trimmed_string(&parts[4]),
                elapsed: trimmed_string(&parts[5]),
                max_rss: optional_field(&parts[6]),
                max_vmem: optional_field(&parts[7]),
                n_cpus: count_field_of(&parts[8]),
                n_tasks: count_field_of(&parts[9]),
            },
        )
    } else {
        None
    }
}

/// Parse sacct output into structured data (the first two lines are headers)
pub fn parse_sacct_output(output: &str) -> (res: Vec<JobAccounting>)
    ensures
        res@.map_values(|j: JobAccounting| j@) == sacct_jobs(after_lines(output@, 2)),
{
    let chars = chars_of(output);
    let ls = lines_of(&chars);
    let ghost lv = vviews(ls@);
    let ghost rest = after_lines(output@, 2);
    let mut jobs: Vec<JobAccounting> = Vec::new();
    if ls.len() <= 2 {
        assert(jobs@.map_values(|j: JobAccounting| j@) =~= Seq::<JobAccountingView>::empty());
        return jobs;
    }
    let mut i: usize = 2;
    assert(rest.take(0) =~= Seq::<Seq<char>>::empty());
    while i < ls.len()
        invariant
            lv == vviews(ls@),
            lv == lines(output@),
            lv.len() > 2,
            rest == lv.skip(2),
            2 <= i <= ls@.len(),
            jobs@.map_values(|j: JobAccounting| j@) == sacct_jobs(rest.take(i - 2)),
        decreases ls@.len() - i,
    {
        assert(rest.take(i - 1).drop_last() =~= rest.take(i - 2));
        assert(rest.take(i - 1).last() == lv[i as int]);
        assert(ls@[i as int]@ == lv[i as int]);
        let ghost before = jobs@.map_values(|j: JobAccounting| j@);
        match sacct_job_of(&ls[i]) {
            Some(j) => {
                jobs.push(j);
                assert(jobs@.map_values(|j: JobAccounting| j@) =~= before.push(jobs@.last()@));
            },
            None => {},
        }
        i = i + 1;
    }
    assert(rest.take(ls@.len() - 2) =~= rest);
    jobs
}

// ============================================================================
// Sandboxed sbatch types (Singularity-based execution)
// ============================================================================

/// Request for sandboxed sbatch command
///
/// This generates and submits an sbatch script that runs the command inside
/// a Singularity container with restricted bind mounts for security.
#[derive(Debug)]
pub struct SandboxedSbatchRequest {
    /// Job name (--job-name)
    pub job_name: String,
    /// The command to run inside the container
    pub command: String,
    /// Container image to use (path to .sif or docker:// URI)
    /// If not specified, uses the default from singularity config
    pub image: Option<String>,
    /// Partition (--partition)
    pub partition: Option<Partition>,
    /// Number of CPUs (--cpus-per-task)
    pub cpus: u32,
    /// Memory specification (--mem)
    pub memory: Option<MemorySpec>,
    /// Time limit (--time)
    pub time: Option<TimeSpec>,
    /// GPU specification (--gres)
    pub gpu: Option<GpuSpec>,
    /// Array job specification (--array), e.g., "1-100" or "1-100%10"
    pub array: Option<String>,
    /// Working directory inside the container (--chdir)
    /// Must be within an allowed write path
    pub working_dir: Option<String>,
    /// Output file path (--output)
    pub output: Option<String>,
    /// Error file path (--error)
    pub error: Option<String>,
    /// Input paths that will be bind-mounted as read-only
    /// These are validated against paths.read in the config
    pub input_paths: Vec<String>,
    /// Output paths that will be bind-mounted as read-write
    /// These are validated against paths.write in the config
    pub output_paths: Vec<String>,
    /// Environment variables to pass to the job, in the order they are exported
    pub environment: Vec<(String, String)>,
    /// Additional SLURM directives (key-value pairs), in the order they are written
    pub extra_directives: Vec<(String, String)>,
    /// If true, also return the generated script content (for debugging)
    pub return_script: bool,
    /// If true, write the script but do not submit it
    pub dry_run: bool,
}

/// The number of CPUs when the request names none.
pub fn default_cpus() -> (n: u32)
    ensures
        n == 1,
{
    1
}

/// Response from sandboxed sbatch command
#[derive(Debug)]
pub struct SandboxedSbatchResponse {
    /// SLURM job ID
    pub job_id: String,
    /// Path to the generated sbatch script on remote
    pub script_path: String,
    /// The generated script content (only if return_script was true)
    pub script_content: Option<String>,
    /// Container image that was used
    pub image_used: String,
    /// Bind mounts that were configured
    pub bind_mounts: Vec<BindMount>,
    /// Path where job stdout will be written (with job_id substituted for %j)
    pub stdout_path: String,
    /// Path where job stderr will be written (with job_id substituted for %j)
    pub stderr_path: String,
    /// Execution time in milliseconds
    pub duration_ms: u64,
}

/// A bind mount specification
#[derive(Debug, Clone)]
pub struct BindMount {
    /// Host path
    pub host: String,
    /// Container path (usually same as host)
    pub container: String,
    /// Mount mode: "ro" (read-only) or "rw" (read-write)
    pub mode: String,
}

/// A bind mount, as values.
pub struct BindMountView {
    pub host: Seq<char>,
    pub container: Seq<char>,
    pub mode: Seq<char>,
}

impl View for BindMount {
    type V = BindMountView;

    open spec fn view(&self) -> BindMountView {
        BindMountView { host: self.host@, container: self.container@, mode: self.mode@ }
    }
}

// ---------------------------------------------------------------------------
// Laws of the parsers and of the end states
// ---------------------------------------------------------------------------

/// A field with no white space at either end.
pub open spec fn bare(f: Seq<char>) -> bool {
    f.len() == 0 || (!crate::text::is_ws(f[0]) && !crate::text::is_ws(f.last()))
}

pub proof fn lemma_bare_trimmed(f: Seq<char>)
    requires
        bare(f),
    ensures
        trim(f) == f,
{
    if f.len() > 0 {
        assert(crate::text::trim_start(f) == f);
        assert(crate::text::trim_end(f) == f);
    }
}

/// Pieces joined by a separator split back into the same pieces, where no
/// piece holds the separator.
pub proof fn lemma_split_of_join(ps: Seq<Seq<char>>, c: char, p: spec_fn(char) -> bool)
    requires
        ps.len() > 0,
        p(c),
        forall|k: int| 0 <= k < ps.len() ==> crate::text::no_match(#[trigger] ps[k], p),
    ensures
        crate::text::split_by(join(ps, seq![c]), p) == ps,
    decreases ps.len(),
{
    assert(crate::text::no_match(ps[0], p));
    if ps.len() == 1 {
        crate::text::lemma_split_by_none(ps[0], p);
        assert(seq![ps[0]] =~= ps);
    } else {
        crate::shell::lemma_join_first(ps, seq![c]);
        let rest = ps.drop_first();
        assert forall|k: int| 0 <= k < rest.len() implies crate::text::no_match(
            #[trigger] rest[k],
            p,
        ) by {
            assert(rest[k] == ps[k + 1]);
        }
        lemma_split_of_join(rest, c, p);
        crate::text::lemma_split_by_at_sep(ps[0], c, join(rest, seq![c]), p);
        assert(seq![ps[0]] + rest =~= ps);
    }
}

pub proof fn lemma_nonempty_pieces_all(ps: Seq<Seq<char>>)
    requires
        forall|k: int| 0 <= k < ps.len() ==> (#[trigger] ps[k]).len() > 0,
    ensures
        crate::text::nonempty_pieces(ps) == ps,
    decreases ps.len(),
{
    if ps.len() > 0 {
        let d = ps.drop_last();
        assert forall|k: int| 0 <= k < d.len() implies (#[trigger] d[k]).len() > 0 by {
            assert(d[k] == ps[k]);
        }
        lemma_nonempty_pieces_all(d);
        assert(ps.last().len() > 0);
        assert(d.push(ps.last()) =~= ps);
    }
}

/// An `sacct --parsable2` line reads back as its fields, in the order of
/// the `--format` list `JobID,JobName,Partition,State,ExitCode,Elapsed,
/// MaxRSS,MaxVMSize,NCPUS,NTasks`: whatever fields are written, each comes
/// back in its own place.
pub proof fn lemma_sacct_fields(fs: Seq<Seq<char>>)
    requires
        fs.len() >= 10,
        forall|k: int|
            0 <= k < fs.len() ==> !crate::text::has_char(#[trigger] fs[k], '|') && bare(fs[k]),
    ensures
        sacct_job(join(fs, seq!['|'])) matches Some(j) && {
            &&& j.job_id == fs[0]
            &&& j.job_name == fs[1]
            &&& j.partition == fs[2]
            &&& j.state == fs[3]
            &&& j.exit_code == fs[4]
            &&& j.elapsed == fs[5]
            &&& (fs[6].len() > 0 ==> j.max_rss == Some(fs[6]))
            &&& (fs[6].len() == 0 ==> j.max_rss is None)
            &&& (fs[7].len() > 0 ==> j.max_vmem == Some(fs[7]))
            &&& (fs[7].len() == 0 ==> j.max_vmem is None)
        },
{
    let p = crate::text::eq_pred('|');
    assert forall|k: int| 0 <= k < fs.len() implies crate::text::no_match(#[trigger] fs[k], p) by {
        assert forall|i: int| 0 <= i < fs[k].len() implies !p(#[trigger] fs[k][i]) by {
            if fs[k][i] == '|' {
                assert(crate::text::has_char(fs[k], '|'));
            }
        }
    }
    lemma_split_of_join(fs, '|', p);
    assert(split_char(join(fs, seq!['|']), '|') == fs);
    assert forall|k: int| 0 <= k < 8 implies trim(#[trigger] fs[k]) == fs[k] by {
        lemma_bare_trimmed(fs[k]);
    }
}

/// A `squeue -o '%i %P %j %u %t %M %D %R'` line reads back as its columns:
/// job id, partition, name, user, state, time, nodes, then the reason (the
/// rest, joined by spaces), each column in its own place.
pub proof fn lemma_squeue_columns(ts: Seq<Seq<char>>)
    requires
        ts.len() >= 8,
        forall|k: int|
            0 <= k < ts.len() ==> (#[trigger] ts[k]).len() > 0 && crate::text::no_match(
                ts[k],
                crate::text::ws_pred(),
            ),
    ensures
        squeue_job(join(ts, seq![' '])) matches Some(j) && {
            &&& j.job_id == ts[0]
            &&& j.partition == ts[1]
            &&& j.name == ts[2]
            &&& j.user == ts[3]
            &&& j.state == ts[4]
            &&& j.time == ts[5]
            &&& j.nodes == ts[6]
            &&& j.reason == Some(join(ts.skip(7), seq![' ']))
        },
{
    let p = crate::text::ws_pred();
    assert(p(' '));
    lemma_split_of_join(ts, ' ', p);
    lemma_nonempty_pieces_all(ts);
    assert(tokens(join(ts, seq![' '])) == ts);
    reveal_strlit(" ");
    assert(" "@ =~= seq![' ']);
}

/// The states in which SLURM reports a job as ended.
pub open spec fn slurm_end_states() -> Set<Seq<char>> {
    set![
        "COMPLETED"@,
        "FAILED"@,
        "CANCELLED"@,
        "TIMEOUT"@,
        "OUT_OF_MEMORY"@,
        "NODE_FAIL"@,
        "PREEMPTED"@,
        "BOOT_FAIL"@,
        "DEADLINE"@,
    ]
}

/// A job state names an end exactly when, in capitals, it is one of SLURM's
/// end states; for ASCII states, `is_terminal_state` answers so in any case
/// of the letters.
pub proof fn lemma_end_states(state: Seq<char>)
    ensures
        is_terminal_name(state) <==> slurm_end_states().contains(state),
        (forall|i: int| 0 <= i < state.len() ==> #[trigger] state[i] <= '\u{7f}') ==> (
        is_terminal_name(state.map_values(|c: char| ascii_upper(c))) <==> slurm_end_states().contains(
            state.map_values(|c: char| ascii_upper(c)),
        )),
{
}

// ---------------------------------------------------------------------------
// Laws of the formats that SLURM reads
// ---------------------------------------------------------------------------

pub proof fn lemma_decimal_value(n: nat)
    ensures
        decimal(n).len() > 0,
        crate::text::all_digits(decimal(n)),
        crate::text::digits_value(decimal(n)) == n,
    decreases n,
{
    let s = decimal(n);
    if n < 10 {
        assert(s.drop_last() =~= Seq::<char>::empty());
        assert(crate::text::digits_value(Seq::<char>::empty()) == 0);
        assert(s.last() == crate::text::digit_char(n));
        assert((crate::text::digit_char(n) as int) == 48 + n);
        assert(crate::text::digit_value(s.last()) == n);
    } else {
        lemma_decimal_value(n / 10);
        assert(s.drop_last() =~= decimal(n / 10));
        assert(s.last() == crate::text::digit_char(n % 10));
        assert((crate::text::digit_char(n % 10) as int) == 48 + n % 10);
        assert(crate::text::digit_value(s.last()) == n % 10);
        assert(n == (n / 10) * 10 + n % 10);
        assert forall|i: int| 0 <= i < s.len() implies crate::text::is_digit(#[trigger] s[i]) by {
            if i < s.len() - 1 {
                assert(s[i] == decimal(n / 10)[i]);
            }
        }
    }
}

proof fn lemma_leading_zero(d: Seq<char>)
    ensures
        crate::text::digits_value(seq!['0'] + d) == crate::text::digits_value(d),
    decreases d.len(),
{
    if d.len() == 0 {
        assert((seq!['0'] + d).drop_last() =~= Seq::<char>::empty());
        assert((seq!['0'] + d).last() == '0');
        assert(crate::text::digits_value(Seq::<char>::empty()) == 0);
        assert(crate::text::digit_value('0') == 0);
    } else {
        lemma_leading_zero(d.drop_last());
        assert((seq!['0'] + d).drop_last() =~= seq!['0'] + d.drop_last());
        assert((seq!['0'] + d).last() == d.last());
    }
}

proof fn lemma_pad2_value(n: nat)
    ensures
        decimal_pad2(n).len() > 0,
        crate::text::all_digits(decimal_pad2(n)),
        crate::text::digits_value(decimal_pad2(n)) == n,
        n < 100 ==> decimal_pad2(n).len() == 2,
{
    lemma_decimal_value(n);
    if n < 10 {
        lemma_leading_zero(decimal(n));
        let s = decimal_pad2(n);
        assert forall|i: int| 0 <= i < s.len() implies crate::text::is_digit(#[trigger] s[i]) by {
            if i > 0 {
                assert(s[i] == decimal(n)[i - 1]);
            }
        }
    } else if n < 100 {
        assert(decimal(n).drop_last() =~= decimal(n / 10));
        assert(n / 10 < 10);
    }
}

proof fn lemma_digits_avoid(s: Seq<char>, c: char)
    requires
        crate::text::all_digits(s),
        !crate::text::is_digit(c),
    ensures
        crate::text::no_match(s, crate::text::eq_pred(c)),
{
    assert forall|i: int| 0 <= i < s.len() implies !crate::text::eq_pred(c)(#[trigger] s[i]) by {
        assert(crate::text::is_digit(s[i]));
    }
}

/// `D-HH:MM` reads back as the time limit: the days before the `-`, the
/// hours and the minutes on either side of the `:`, two digits each where
/// they are under 100.
pub proof fn lemma_time_format_reads_back(t: TimeSpec)
    ensures
        ({
            let parts = split_char(time_format(t), '-');
            let hm = split_char(parts[1], ':');
            &&& parts.len() == 2
            &&& crate::text::all_digits(parts[0])
            &&& crate::text::digits_value(parts[0]) == t.days
            &&& hm.len() == 2
            &&& crate::text::all_digits(hm[0]) && crate::text::all_digits(hm[1])
            &&& crate::text::digits_value(hm[0]) == t.hours
            &&& crate::text::digits_value(hm[1]) == t.minutes
            &&& (t.hours < 100 ==> hm[0].len() == 2)
            &&& (t.minutes < 100 ==> hm[1].len() == 2)
        }),
{
    reveal_strlit("-");
    reveal_strlit(":");
    let d = decimal(t.days as nat);
    let h = decimal_pad2(t.hours as nat);
    let m = decimal_pad2(t.minutes as nat);
    lemma_decimal_value(t.days as nat);
    lemma_pad2_value(t.hours as nat);
    lemma_pad2_value(t.minutes as nat);
    let pd = crate::text::eq_pred('-');
    let pc = crate::text::eq_pred(':');
    lemma_digits_avoid(d, '-');
    lemma_digits_avoid(h, '-');
    lemma_digits_avoid(m, '-');
    lemma_digits_avoid(h, ':');
    lemma_digits_avoid(m, ':');
    let rest = h + seq![':'] + m;
    assert(time_format(t) =~= d + seq!['-'] + rest);
    crate::text::lemma_split_by_at_sep(d, '-', rest, pd);
    assert(crate::text::no_match(rest, pd)) by {
        assert forall|i: int| 0 <= i < rest.len() implies !pd(#[trigger] rest[i]) by {
            if i < h.len() {
                assert(rest[i] == h[i]);
            } else if i > h.len() {
                assert(rest[i] == m[i - h.len() - 1]);
            }
        }
    }
    crate::text::lemma_split_by_none(rest, pd);
    assert(split_char(time_format(t), '-') =~= seq![d, rest]);
    crate::text::lemma_split_by_at_sep(h, ':', m, pc);
    crate::text::lemma_split_by_none(m, pc);
    assert(split_char(rest, ':') =~= seq![h, m]);
}

/// A memory request reads back from what `--mem` gets: the amount in
/// decimal digits, then `M`, `G` or `T` for its unit.
pub proof fn lemma_memory_format_reads_back(m: MemorySpec)
    ensures
        ({
            let s = memory_format(m);
            &&& s.len() >= 2
            &&& crate::text::all_digits(s.drop_last())
            &&& crate::text::digits_value(s.drop_last()) == m.amount
            &&& s.last() == match m.unit {
                MemoryUnit::MB => 'M',
                MemoryUnit::GB => 'G',
                MemoryUnit::TB => 'T',
            }
        }),
{
    reveal_strlit("M");
    reveal_strlit("G");
    reveal_strlit("T");
    lemma_decimal_value(m.amount as nat);
    let d = decimal(m.amount as nat);
    let s = memory_format(m);
    assert(s.drop_last() =~= d);
}

/// A GPU request reads back from what `--gres` gets: `gpu`, the type where
/// one is named (`tesla`, `v100` or `a100`), and the count in decimal
/// digits, separated by `:`.
pub proof fn lemma_gpu_gres_reads_back(g: GpuSpec)
    ensures
        ({
            let parts = split_char(gpu_gres(g), ':');
            &&& parts[0] == seq!['g', 'p', 'u']
            &&& crate::text::all_digits(parts.last())
            &&& crate::text::digits_value(parts.last()) == g.count
            &&& match g.gpu_type {
                None => parts.len() == 2,
                Some(t) => parts.len() == 3 && parts[1] == match t {
                    GpuType::Tesla => seq!['t', 'e', 's', 'l', 'a'],
                    GpuType::V100 => seq!['v', '1', '0', '0'],
                    GpuType::A100 => seq!['a', '1', '0', '0'],
                },
            }
        }),
{
    reveal_strlit("gpu:");
    reveal_strlit(":");
    reveal_strlit("tesla");
    reveal_strlit("v100");
    reveal_strlit("a100");
    let p = crate::text::eq_pred(':');
    let d = decimal(g.count as nat);
    lemma_decimal_value(g.count as nat);
    lemma_digits_avoid(d, ':');
    crate::text::lemma_split_by_none(d, p);
    let gpu = seq!['g', 'p', 'u'];
    assert(crate::text::no_match(gpu, p));
    match g.gpu_type {
        None => {
            assert(gpu_gres(g) =~= gpu + seq![':'] + d);
            crate::text::lemma_split_by_at_sep(gpu, ':', d, p);
            assert(split_char(gpu_gres(g), ':') =~= seq![gpu, d]);
        },
        Some(t) => {
            let name = match t {
                GpuType::Tesla => seq!['t', 'e', 's', 'l', 'a'],
                GpuType::V100 => seq!['v', '1', '0', '0'],
                GpuType::A100 => seq!['a', '1', '0', '0'],
            };
            assert(crate::text::no_match(name, p));
            assert(gpu_gres(g) =~= gpu + seq![':'] + (name + seq![':'] + d));
            crate::text::lemma_split_by_at_sep(name, ':', d, p);
            crate::text::lemma_split_by_at_sep(gpu, ':', name + seq![':'] + d, p);
            assert(split_char(gpu_gres(g), ':') =~= seq![gpu, name, d]);
        },
    }
}

/// Each partition reaches `--partition` as SLURM's name for it, and no two
/// partitions share a name.
pub proof fn lemma_partition_names(p: Partition, q: Partition)
    ensures
        partition_name(Partition::Priority) == seq!['p', 'r', 'i', 'o', 'r', 'i', 't', 'y'],
        partition_name(Partition::Short) == seq!['s', 'h', 'o', 'r', 't'],
        partition_name(Partition::Medium) == seq!['m', 'e', 'd', 'i', 'u', 'm'],
        partition_name(Partition::Long) == seq!['l', 'o', 'n', 'g'],
        partition_name(Partition::Interactive) == seq![
            'i',
            'n',
            't',
            'e',
            'r',
            'a',
            'c',
            't',
            'i',
            'v',
            'e',
        ],
        partition_name(Partition::Highmem) == seq!['h', 'i', 'g', 'h', 'm', 'e', 'm'],
        partition_name(Partition::Gpu) == seq!['g', 'p', 'u'],
        partition_name(Partition::Mpi) == seq!['m', 'p', 'i'],
        p != q ==> partition_name(p) != partition_name(q),
{
    reveal_strlit("priority");
    reveal_strlit("short");
    reveal_strlit("medium");
    reveal_strlit("long");
    reveal_strlit("interactive");
    reveal_strlit("highmem");
    reveal_strlit("gpu");
    reveal_strlit("mpi");
    if p != q {
        let a = partition_name(p);
        let b = partition_name(q);
        assert(a.len() != b.len() || a[0] != b[0] || a[1] != b[1]);
    }
}

/// Each job state reaches SLURM's `-t`/`-s` filter as SLURM's code for it,
/// and no two states share a code.
pub proof fn lemma_state_filter_codes(a: JobState, b: JobState)
    ensures
        state_filter(JobState::Pending) == seq!['P', 'D'],
        state_filter(JobState::Running) == seq!['R'],
        state_filter(JobState::Suspended) == seq!['S'],
        state_filter(JobState::Completed) == seq!['C', 'D'],
        state_filter(JobState::Cancelled) == seq!['C', 'A'],
        state_filter(JobState::Failed) == seq!['F'],
        state_filter(JobState::Timeout) == seq!['T', 'O'],
        state_filter(JobState::All) == seq!['a', 'l', 'l'],
        a != b ==> state_filter(a) != state_filter(b),
{
    reveal_strlit("PD");
    reveal_strlit("R");
    reveal_strlit("S");
    reveal_strlit("CD");
    reveal_strlit("CA");
    reveal_strlit("F");
    reveal_strlit("TO");
    reveal_strlit("all");
    if a != b {
        let x = state_filter(a);
        let y = state_filter(b);
        assert(x.len() != y.len() || x[0] != y[0] || x[x.len() - 1] != y[y.len() - 1]);
    }
}

/// Where `sbatch` first reports `Submitted batch job <id>`, the id is what
/// the submission answers.
pub proof fn lemma_sbatch_job_id(output: Seq<char>, id: Seq<char>)
    requires
        id.len() > 0,
        crate::text::no_match(id, crate::text::ws_pred()),
        lines(output).len() > 0,
        lines(output)[0] == "Submitted batch job "@ + id,
    ensures
        sbatch_job_id(output) == Some(id),
{
    reveal_strlit("Submitted batch job ");
    reveal_strlit("Submitted batch job");
    reveal_strlit("Submitted");
    reveal_strlit("batch");
    reveal_strlit("job");
    let line = "Submitted batch job "@ + id;
    let ts = seq!["Submitted"@, "batch"@, "job"@, id];
    let p = crate::text::ws_pred();
    assert(p(' '));
    assert forall|k: int| 0 <= k < ts.len() implies (#[trigger] ts[k]).len() > 0
        && crate::text::no_match(ts[k], p) by {
        if k < 3 {
            assert forall|i: int| 0 <= i < ts[k].len() implies !p(#[trigger] ts[k][i]) by {}
        }
    }
    crate::shell::lemma_join_first(ts, seq![' ']);
    crate::shell::lemma_join_first(ts.drop_first(), seq![' ']);
    crate::shell::lemma_join_first(ts.drop_first().drop_first(), seq![' ']);
    assert(ts.drop_first().drop_first().drop_first() =~= seq![id]);
    assert(join(ts, seq![' ']) =~= line);
    lemma_split_of_join(ts, ' ', p);
    lemma_nonempty_pieces_all(ts);
    assert(tokens(line) == ts);
    assert(starts_with(line, "Submitted batch job"@)) by {
        assert(line.take(19) =~= "Submitted batch job"@);
    }
    assert(first_submitted_line(lines(output)) == Some(line));
}

} // verus!


