//! The steps of the `sandboxed_sbatch` method: generate the script, create
//! the scripts directory, write the script there, make it executable, and
//! submit it unless the request is a dry run.
use crate::commands::slurm::{
    memory_gb, parse_sbatch_output, sbatch_job_id, BindMountView, MemoryUnit,
    SandboxedSbatchRequest, SandboxedSbatchResponse,
};
use crate::config::PermissionConfig;
use crate::error::{ssh_message, SshError};
use crate::rpc::handlers::{plan_of, CommandPlan, CommandPlanView, RpcState};
use crate::rpc::jobs::{unparsed_sbatch, unparsed_sbatch_error};
use crate::rpc::types::{
    rpc_error, rpc_failure, RpcError, RpcErrorView, ERR_COMMAND_FAILED, ERR_VALIDATION,
};
use crate::sbatch::{
    array_computable, array_range_part, collect_bind_mounts, generate_script_at,
    lemma_sanitized_has_no_separator, mount_views, resources_computable, script_computable,
    script_error_message, script_filename, script_outcome, timestamp_char, timestamp_shape, validate_resources,
    GeneratedScript, ScriptError, ScriptErrorView,
};
use crate::shell::{push_single_quoted, single_quoted};
use crate::ssh::CommandOutput;
use crate::text::{
    chars_of, parse_bounded, push_chars, push_str, split_char, split_on, split_once_of, string_of,
    vviews,
};
use vstd::prelude::*;

verus! {

// ---------------------------------------------------------------------------
// Whether generation can be computed
// ---------------------------------------------------------------------------

fn memory_gb_wide(amount: u32, unit: MemoryUnit) -> (res: u64)
    ensures
        res == memory_gb(crate::commands::slurm::MemorySpec { amount, unit }),
{
    match unit {
        MemoryUnit::MB => (amount / 1024) as u64,
        MemoryUnit::GB => amount as u64,
        MemoryUnit::TB => amount as u64 * 1024,
    }
}

fn array_is_computable(spec: &str, config: &PermissionConfig) -> (b: bool)
    ensures
        b == array_computable(spec@, *config),
{
    let s = chars_of(spec);
    let pieces = split_on(&s, '%');
    proof {
        crate::text::lemma_split_by_nonempty(s@, crate::text::eq_pred('%'));
    }
    assert(pieces@[0]@ == array_range_part(spec@));
    match split_once_of(&pieces[0], '-') {
        Some((start, end)) => {
            let start = parse_bounded(&start, u32::MAX as u64);
            let end = parse_bounded(&end, u32::MAX as u64);
            match (start, end) {
                (Some(a), Some(z)) => {
                    if config.resources.is_some() {
                        a <= z && z - a + 1 <= u32::MAX as u64
                    } else {
                        true
                    }
                },
                _ => true,
            }
        },
        None => true,
    }
}

/// Whether generating the script for a request can be computed without
/// overflow (see `script_computable`).
pub fn script_is_computable(request: &SandboxedSbatchRequest, config: &PermissionConfig) -> (b:
    bool)
    ensures
        b == script_computable(*request, *config),
{
    if request.image.is_none() && config.singularity.default_image.is_none() {
        return true;
    }
    match collect_bind_mounts(request, config, &config.singularity) {
        Err(_) => return true,
        Ok(_) => {},
    }
    if let Some(l) = &config.resources {
        if request.cpus <= l.max_cpus {
            let mut within = true;
            if let Some(m) = &request.memory {
                let gb = memory_gb_wide(m.amount, m.unit);
                if gb > u32::MAX as u64 {
                    return false;
                }
                within = gb <= l.max_memory_gb as u64;
            }
            if within {
                if let Some(t) = &request.time {
                    if t.days as u64 * 24 + t.hours as u64 > u32::MAX as u64 {
                        return false;
                    }
                }
            }
        }
    }
    assert(resources_computable(*request, *config));
    let fine = validate_resources(request, config).is_ok();
    if fine {
        if let Some(a) = &request.array {
            return array_is_computable(a.as_str(), config);
        }
    }
    true
}

// ---------------------------------------------------------------------------
// Writing the script through a here-document
// ---------------------------------------------------------------------------

/// `SCRIPT_EOF` followed by `n` underscores.
pub open spec fn delimiter_n(n: nat) -> Seq<char> {
    "SCRIPT_EOF"@ + Seq::new(n, |i: int| '_')
}

/// Whether no line of the text is the delimiter, so that a here-document
/// ends only at the delimiter's own line.
pub open spec fn fresh_delimiter(text: Seq<char>, d: Seq<char>) -> bool {
    !split_char(text, '\n').contains(d)
}

/// The shortest `SCRIPT_EOF___...` that no line of the text is.
pub open spec fn heredoc_delimiter(text: Seq<char>) -> Seq<char> {
    delimiter_n(
        choose|n: nat|
            fresh_delimiter(text, delimiter_n(n)) && forall|m: nat|
                m < n ==> !fresh_delimiter(text, #[trigger] delimiter_n(m)),
    )
}

/// The body of the here-document: the text, ended by a newline.
pub open spec fn heredoc_body(text: Seq<char>) -> Seq<char> {
    if text.len() > 0 && text.last() == '\n' {
        text
    } else {
        text + seq!['\n']
    }
}

/// The line that writes the text to the path.
pub open spec fn write_line(path: Seq<char>, text: Seq<char>) -> Seq<char> {
    "cat > "@ + single_quoted(path) + " << '"@ + heredoc_delimiter(text) + "'\n"@ + heredoc_body(
        text,
    ) + heredoc_delimiter(text)
}

/// The length of the longest piece.
pub open spec fn longest_piece(ps: Seq<Seq<char>>) -> nat
    decreases ps.len(),
{
    if ps.len() == 0 {
        0
    } else {
        let m = longest_piece(ps.drop_last());
        if ps.last().len() > m {
            ps.last().len()
        } else {
            m
        }
    }
}

proof fn lemma_longest_piece(ps: Seq<Seq<char>>)
    ensures
        forall|k: int| 0 <= k < ps.len() ==> (#[trigger] ps[k]).len() <= longest_piece(ps),
    decreases ps.len(),
{
    if ps.len() > 0 {
        lemma_longest_piece(ps.drop_last());
        assert forall|k: int| 0 <= k < ps.len() implies (#[trigger] ps[k]).len() <= longest_piece(
            ps,
        ) by {
            if k < ps.len() - 1 {
                assert(ps[k] == ps.drop_last()[k]);
            }
        }
    }
}

proof fn lemma_least_fresh(text: Seq<char>, b: nat)
    requires
        fresh_delimiter(text, delimiter_n(b)),
    ensures
        exists|n: nat|
            fresh_delimiter(text, delimiter_n(n)) && forall|m: nat|
                m < n ==> !fresh_delimiter(text, #[trigger] delimiter_n(m)),
    decreases b,
{
    if exists|m: nat| m < b && fresh_delimiter(text, #[trigger] delimiter_n(m)) {
        let m = choose|m: nat| m < b && fresh_delimiter(text, #[trigger] delimiter_n(m));
        lemma_least_fresh(text, m);
    } else {
        assert(forall|m: nat| m < b ==> !fresh_delimiter(text, #[trigger] delimiter_n(m)));
    }
}

/// No line of a script is the delimiter of the here-document that writes
/// it, so the document carries the script unchanged.
pub proof fn lemma_heredoc_delimiter_fresh(text: Seq<char>)
    ensures
        fresh_delimiter(text, heredoc_delimiter(text)),
{
    reveal_strlit("SCRIPT_EOF");
    let ps = split_char(text, '\n');
    lemma_longest_piece(ps);
    let b = longest_piece(ps) + 1;
    assert(delimiter_n(b).len() == 10 + b);
    if ps.contains(delimiter_n(b)) {
        let k = choose|k: int| 0 <= k < ps.len() && ps[k] == delimiter_n(b);
        assert(ps[k].len() <= longest_piece(ps));
    }
    lemma_least_fresh(text, b);
}

fn chars_eq(a: &Vec<char>, b: &Vec<char>) -> (r: bool)
    ensures
        r == (a@ == b@),
{
    if a.len() != b.len() {
        return false;
    }
    let mut i: usize = 0;
    while i < a.len()
        invariant
            a@.len() == b@.len(),
            i <= a@.len(),
            forall|k: int| 0 <= k < i ==> a@[k] == b@[k],
        decreases a@.len() - i,
    {
        if a[i] != b[i] {
            return false;
        }
        i = i + 1;
    }
    assert(a@ =~= b@);
    true
}

fn pieces_contain(pieces: &Vec<Vec<char>>, d: &Vec<char>) -> (b: bool)
    ensures
        b == vviews(pieces@).contains(d@),
{
    let ghost pv = vviews(pieces@);
    let mut i: usize = 0;
    while i < pieces.len()
        invariant
            pv == vviews(pieces@),
            i <= pieces@.len(),
            forall|k: int| 0 <= k < i ==> pv[k] != d@,
        decreases pieces@.len() - i,
    {
        if chars_eq(&pieces[i], d) {
            assert(pv[i as int] == d@);
            return true;
        }
        i = i + 1;
    }
    false
}

/// The delimiter of a here-document that carries the text unchanged.
pub fn delimiter_for(text: &[char]) -> (res: Vec<char>)
    ensures
        res@ == heredoc_delimiter(text@),
        fresh_delimiter(text@, res@),
{
    let pieces = split_on(text, '\n');
    let ghost pv = vviews(pieces@);
    let mut longest: usize = 0;
    let mut i: usize = 0;
    while i < pieces.len()
        invariant
            pv == vviews(pieces@),
            i <= pieces@.len(),
            forall|k: int| 0 <= k < i ==> (#[trigger] pv[k]).len() <= longest,
        decreases pieces@.len() - i,
    {
        if pieces[i].len() > longest {
            longest = pieces[i].len();
        }
        i = i + 1;
    }
    let mut d = chars_of("SCRIPT_EOF");
    let mut n: usize = 0;
    proof {
        reveal_strlit("SCRIPT_EOF");
    }
    assert(d@ =~= delimiter_n(0));
    while pieces_contain(&pieces, &d)
        invariant
            pv == vviews(pieces@),
            pv == split_char(text@, '\n'),
            forall|k: int| 0 <= k < pv.len() ==> (#[trigger] pv[k]).len() <= longest,
            d@ == delimiter_n(n as nat),
            n <= longest + 1,
            forall|m: nat| m < n ==> !fresh_delimiter(text@, #[trigger] delimiter_n(m)),
        decreases longest + 1 - n,
    {
        proof {
            reveal_strlit("SCRIPT_EOF");
            let k = choose|k: int| 0 <= k < pv.len() && pv[k] == d@;
            assert(pv[k].len() <= longest);
            assert(delimiter_n(n as nat).len() == 10 + n);
        }
        d.push('_');
        proof {
            assert(d@ =~= delimiter_n(n as nat + 1));
        }
        n = n + 1;
    }
    proof {
        let c = choose|m: nat|
            fresh_delimiter(text@, delimiter_n(m)) && forall|j: nat|
                j < m ==> !fresh_delimiter(text@, #[trigger] delimiter_n(j));
        assert(fresh_delimiter(text@, delimiter_n(n as nat)));
        if c < n {
            assert(!fresh_delimiter(text@, delimiter_n(c)));
        }
        if c > n {
            assert(!fresh_delimiter(text@, delimiter_n(n as nat)));
        }
        assert(c == n);
    }
    d
}

// ---------------------------------------------------------------------------
// The plan
// ---------------------------------------------------------------------------

/// A script file in a directory.
pub open spec fn file_in(dir: Seq<char>, name: Seq<char>) -> Seq<char> {
    if dir.len() > 0 && dir.last() == '/' {
        dir + name
    } else {
        dir + seq!['/'] + name
    }
}

/// The commands that bring a script onto the cluster and submit it.
pub open spec fn sandbox_steps(
    dir: Seq<char>,
    path: Seq<char>,
    content: Seq<char>,
    dry_run: bool,
) -> Seq<CommandPlanView> {
    let prepare = seq![
        plan_of(dir, "mkdir -p "@ + single_quoted(dir), 30),
        plan_of(path, write_line(path, content), 60),
        plan_of(path, "chmod +x "@ + single_quoted(path), 30),
    ];
    if dry_run {
        prepare
    } else {
        prepare.push(plan_of(path, "sbatch "@ + single_quoted(path), 30))
    }
}

/// A submission plan.
pub struct SandboxPlan {
    /// The generated script.
    pub script: GeneratedScript,
    /// Where the script is written.
    pub script_path: String,
    /// The commands to run in order; the last submits the script, unless
    /// this is a dry run.
    pub steps: Vec<CommandPlan>,
}

/// A submission plan, as values.
pub struct SandboxPlanView {
    pub content: Seq<char>,
    pub image: Seq<char>,
    pub bind_mounts: Seq<BindMountView>,
    pub script_path: Seq<char>,
    pub steps: Seq<CommandPlanView>,
}

impl View for SandboxPlan {
    type V = SandboxPlanView;

    open spec fn view(&self) -> SandboxPlanView {
        SandboxPlanView {
            content: self.script.content@,
            image: self.script.image@,
            bind_mounts: mount_views(self.script.bind_mounts@),
            script_path: self.script_path@,
            steps: self.steps@.map_values(|p: CommandPlan| p@),
        }
    }
}

/// The refusal of a request whose script cannot be generated.
pub open spec fn script_failure(e: ScriptErrorView) -> RpcErrorView {
    rpc_failure(ERR_VALIDATION, script_error_message(e))
}

/// What a sandboxed submission runs, with the time that names its script:
/// the script must generate, and the scripts directory be configured.
pub open spec fn sandbox_outcome(
    req: SandboxedSbatchRequest,
    cfg: PermissionConfig,
    timestamp: Seq<char>,
) -> Result<SandboxPlanView, RpcErrorView> {
    match script_outcome(req, cfg) {
        Err(e) => Err(script_failure(e)),
        Ok(sv) => match cfg.singularity.scripts_dir {
            None => Err(script_failure(ScriptErrorView::NoScriptsDir)),
            Some(dir) => {
                let path = file_in(dir@, script_filename(req.job_name@, timestamp));
                Ok(
                    SandboxPlanView {
                        content: sv.content,
                        image: sv.image,
                        bind_mounts: sv.bind_mounts,
                        script_path: path,
                        steps: sandbox_steps(dir@, path, sv.content, req.dry_run),
                    },
                )
            },
        },
    }
}

/// A plan or an error, as values.
pub open spec fn sandbox_result(r: Result<SandboxPlan, RpcError>) -> Result<
    SandboxPlanView,
    RpcErrorView,
> {
    match r {
        Ok(p) => Ok(p@),
        Err(e) => Err(e@),
    }
}

fn single_quoted_line(prefix: &str, path: &[char]) -> (res: String)
    ensures
        res@ == prefix@ + single_quoted(path@),
{
    let mut v: Vec<char> = Vec::new();
    push_str(&mut v, prefix);
    push_single_quoted(&mut v, path);
    string_of(&v)
}

fn script_path_in(dir: &[char], name: &str) -> (res: Vec<char>)
    ensures
        res@ == file_in(dir@, name@),
{
    let mut p: Vec<char> = Vec::new();
    push_chars(&mut p, dir);
    let slash = dir.len() > 0 && dir[dir.len() - 1] == '/';
    if !slash {
        p.push('/');
    }
    let fc = chars_of(name);
    push_chars(&mut p, &fc);
    proof {
        if slash {
            assert(dir@.last() == '/');
        }
    }
    assert(p@ =~= file_in(dir@, name@));
    p
}

fn write_command(path: &[char], content: &str) -> (res: String)
    ensures
        res@ == write_line(path@, content@),
{
    let cc = chars_of(content);
    let delim = delimiter_for(&cc);
    let mut w: Vec<char> = Vec::new();
    push_str(&mut w, "cat > ");
    push_single_quoted(&mut w, path);
    push_str(&mut w, " << '");
    push_chars(&mut w, &delim);
    push_str(&mut w, "'\n");
    let ghost before = w@;
    push_chars(&mut w, &cc);
    let ends = cc.len() > 0 && cc[cc.len() - 1] == '\n';
    if !ends {
        w.push('\n');
    }
    proof {
        if ends {
            assert(cc@.last() == '\n');
        }
        assert(w@ =~= before + heredoc_body(content@));
    }
    push_chars(&mut w, &delim);
    let write = string_of(&w);
    assert(write@ =~= write_line(path@, content@));
    write
}

fn sandbox_step_plans(dir: &String, path: &Vec<char>, content: &str, dry_run: bool) -> (res: Vec<
    CommandPlan,
>)
    ensures
        res@.map_values(|p: CommandPlan| p@) == sandbox_steps(dir@, path@, content@, dry_run),
{
    let dc = chars_of(dir.as_str());
    let ps = string_of(path);
    let mut steps: Vec<CommandPlan> = Vec::new();
    steps.push(
        CommandPlan { path: dir.clone(), command: single_quoted_line("mkdir -p ", &dc), timeout_secs: 30 },
    );
    steps.push(
        CommandPlan { path: ps.clone(), command: write_command(path, content), timeout_secs: 60 },
    );
    steps.push(
        CommandPlan {
            path: ps.clone(),
            command: single_quoted_line("chmod +x ", path),
            timeout_secs: 30,
        },
    );
    if !dry_run {
        steps.push(
            CommandPlan { path: ps, command: single_quoted_line("sbatch ", path), timeout_secs: 30 },
        );
    }
    assert(steps@.map_values(|p: CommandPlan| p@) =~= sandbox_steps(dir@, path@, content@, dry_run));
    steps
}

impl RpcState {
    /// Execute sandboxed sbatch, with the time now in the script's name.
    pub fn sandboxed_sbatch(&self, request: &SandboxedSbatchRequest) -> (res: Result<
        SandboxPlan,
        RpcError,
    >)
        requires
            script_computable(*request, self.permissions()),
        ensures
            exists|ts: Seq<char>|
                {
                    &&& timestamp_shape(ts)
                    &&& forall|i: int| 0 <= i < ts.len() ==> timestamp_char(#[trigger] ts[i])
                    &&& sandbox_result(res) == sandbox_outcome(*request, self.permissions(), ts)
                },
    {
        let timestamp = crate::sbatch::utc_timestamp();
        self.sandboxed_sbatch_at(request, timestamp.as_str())
    }

    /// Execute sandboxed sbatch, with the given time in the script's name:
    /// the request's script must generate, and the scripts directory be
    /// configured.
    pub fn sandboxed_sbatch_at(&self, request: &SandboxedSbatchRequest, timestamp: &str) -> (res:
        Result<SandboxPlan, RpcError>)
        requires
            script_computable(*request, self.permissions()),
        ensures
            sandbox_result(res) == sandbox_outcome(*request, self.permissions(), timestamp@),
    {
        let config = self.config();
        let script = match generate_script_at(request, config, timestamp) {
            Ok(g) => g,
            Err(e) => return Err(rpc_error(ERR_VALIDATION, e.message())),
        };
        let dir = match &config.singularity.scripts_dir {
            Some(d) => d,
            None => return Err(rpc_error(ERR_VALIDATION, ScriptError::NoScriptsDir.message())),
        };
        let dc = chars_of(dir.as_str());
        let p = script_path_in(&dc, script.filename.as_str());
        let steps = sandbox_step_plans(dir, &p, script.content.as_str(), request.dry_run);
        let script_path = string_of(&p);
        Ok(SandboxPlan { script, script_path, steps })
    }
}

// ---------------------------------------------------------------------------
// The outcome
// ---------------------------------------------------------------------------

/// The error of a step that could not run.
pub open spec fn step_failure(step: int, e: SshError) -> RpcErrorView {
    rpc_failure(
        ERR_COMMAND_FAILED,
        (if step == 0 {
            "Failed to create scripts directory: "@
        } else if step == 1 {
            "Failed to write script: "@
        } else if step == 2 {
            "Failed to make script executable: "@
        } else {
            "sbatch failed: "@
        }) + ssh_message(e),
    )
}

/// The error of a step that could not run.
pub fn step_error(step: usize, e: SshError) -> (res: RpcError)
    ensures
        res@ == step_failure(step as int, e),
{
    let mut v: Vec<char> = Vec::new();
    if step == 0 {
        push_str(&mut v, "Failed to create scripts directory: ");
    } else if step == 1 {
        push_str(&mut v, "Failed to write script: ");
    } else if step == 2 {
        push_str(&mut v, "Failed to make script executable: ");
    } else {
        push_str(&mut v, "sbatch failed: ");
    }
    let m = e.message();
    push_str(&mut v, m.as_str());
    rpc_error(ERR_COMMAND_FAILED, string_of(&v))
}

/// `%j` in a file pattern replaced by the job id.
pub open spec fn with_job_id(pattern: Seq<char>, job_id: Seq<char>) -> Seq<char>
    decreases pattern.len(),
{
    if pattern.len() == 0 {
        Seq::empty()
    } else if pattern.len() >= 2 && pattern[0] == '%' && pattern[1] == 'j' {
        job_id + with_job_id(pattern.skip(2), job_id)
    } else {
        seq![pattern[0]] + with_job_id(pattern.skip(1), job_id)
    }
}

proof fn lemma_with_job_id_step(pattern: Seq<char>, job_id: Seq<char>, i: int)
    requires
        0 <= i <= pattern.len(),
    ensures
        with_job_id(pattern.skip(i), job_id) == if i == pattern.len() {
            Seq::<char>::empty()
        } else if i + 2 <= pattern.len() && pattern[i] == '%' && pattern[i + 1] == 'j' {
            job_id + with_job_id(pattern.skip(i + 2), job_id)
        } else {
            seq![pattern[i]] + with_job_id(pattern.skip(i + 1), job_id)
        },
{
    let s = pattern.skip(i);
    if i < pattern.len() {
        assert(s[0] == pattern[i]);
        if i + 2 <= pattern.len() {
            assert(s[1] == pattern[i + 1]);
        }
        assert(s.skip(1) =~= pattern.skip(i + 1));
        if i + 2 <= pattern.len() {
            assert(s.skip(2) =~= pattern.skip(i + 2));
        }
    } else {
        assert(s.len() == 0);
    }
}

fn substitute_job_id(pattern: &str, job_id: &str) -> (res: String)
    ensures
        res@ == with_job_id(pattern@, job_id@),
{
    let p = chars_of(pattern);
    let id = chars_of(job_id);
    let mut out: Vec<char> = Vec::new();
    let mut i: usize = 0;
    assert(p@.skip(0) =~= p@);
    while i < p.len()
        invariant
            i <= p@.len(),
            out@ + with_job_id(p@.skip(i as int), id@) == with_job_id(p@, id@),
        decreases p@.len() - i,
    {
        proof {
            lemma_with_job_id_step(p@, id@, i as int);
        }
        if i + 1 < p.len() && p[i] == '%' && p[i + 1] == 'j' {
            let ghost before = out@;
            push_chars(&mut out, &id);
            assert(out@ + with_job_id(p@.skip(i as int + 2), id@) =~= before + (id@ + with_job_id(
                p@.skip(i as int + 2),
                id@,
            )));
            i = i + 2;
        } else {
            let ghost before = out@;
            out.push(p[i]);
            assert(out@ + with_job_id(p@.skip(i as int + 1), id@) =~= before + (seq![p@[i as int]]
                + with_job_id(p@.skip(i as int + 1), id@)));
            i = i + 1;
        }
    }
    proof {
        lemma_with_job_id_step(p@, id@, i as int);
    }
    assert(out@ =~= with_job_id(p@, id@));
    string_of(&out)
}

/// Where SLURM writes the job's output: the `--output` pattern, or SLURM's
/// default `slurm-%j.out`.
pub open spec fn stdout_pattern(req: SandboxedSbatchRequest) -> Seq<char> {
    match req.output {
        Some(o) => o@,
        None => "slurm-%j.out"@,
    }
}

/// Where SLURM writes the job's errors: the `--error` pattern, or the
/// output's.
pub open spec fn stderr_pattern(req: SandboxedSbatchRequest) -> Seq<char> {
    match req.error {
        Some(e) => e@,
        None => stdout_pattern(req),
    }
}

/// The job id of a submission: `DRY_RUN` for a dry run, else what `sbatch`
/// printed.
pub open spec fn submitted_id(req: SandboxedSbatchRequest, submit: Option<Seq<char>>) -> Option<
    Seq<char>,
> {
    if req.dry_run {
        Some("DRY_RUN"@)
    } else {
        sbatch_job_id(
            match submit {
                Some(s) => s,
                None => Seq::empty(),
            },
        )
    }
}

/// The answer to a sandboxed submission, once its steps have run: the job
/// id, where the script lies, the script itself where it was asked for or
/// the request is a dry run, the image and mounts, and where the job writes.
pub fn sandbox_response(
    request: &SandboxedSbatchRequest,
    plan: SandboxPlan,
    submit: Option<CommandOutput>,
    duration_ms: u64,
) -> (res: Result<SandboxedSbatchResponse, RpcError>)
    ensures
        ({
            let printed = match submit {
                Some(o) => Some(o.stdout@),
                None => None::<Seq<char>>,
            };
            match submitted_id(*request, printed) {
                None => res matches Err(x) && x@ == unparsed_sbatch(
                    match printed {
                        Some(s) => s,
                        None => Seq::empty(),
                    },
                ),
                Some(id) => res matches Ok(r) && {
                    &&& r.job_id@ == id
                    &&& r.script_path@ == plan@.script_path
                    &&& r.script_content.deep_view() == if request.return_script
                        || request.dry_run {
                        Some(plan@.content)
                    } else {
                        None
                    }
                    &&& r.image_used@ == plan@.image
                    &&& mount_views(r.bind_mounts@) == plan@.bind_mounts
                    &&& r.stdout_path@ == with_job_id(stdout_pattern(*request), id)
                    &&& r.stderr_path@ == with_job_id(stderr_pattern(*request), id)
                    &&& r.duration_ms == duration_ms
                },
            }
        }),
{
    let job_id = if request.dry_run {
        String::from_str("DRY_RUN")
    } else {
        let printed = match &submit {
            Some(o) => o.stdout.clone(),
            None => String::new(),
        };
        match parse_sbatch_output(printed.as_str()) {
            Some(id) => id,
            None => return Err(unparsed_sbatch_error(printed.as_str())),
        }
    };
    let out_pattern = match &request.output {
        Some(o) => o.clone(),
        None => String::from_str("slurm-%j.out"),
    };
    let err_pattern = match &request.error {
        Some(e) => e.clone(),
        None => out_pattern.clone(),
    };
    let stdout_path = substitute_job_id(out_pattern.as_str(), job_id.as_str());
    let stderr_path = substitute_job_id(err_pattern.as_str(), job_id.as_str());
    let SandboxPlan { script, script_path, steps } = plan;
    let GeneratedScript { content, filename, image, bind_mounts } = script;
    let script_content = if request.return_script || request.dry_run {
        Some(content)
    } else {
        None
    };
    Ok(
        SandboxedSbatchResponse {
            job_id,
            script_path,
            script_content,
            image_used: image,
            bind_mounts,
            stdout_path,
            stderr_path,
            duration_ms,
        },
    )
}

/// A script is written directly inside the scripts directory: its file name
/// is not empty and holds no `/`, whatever the job is called.
pub proof fn lemma_script_stays_in_dir(
    req: SandboxedSbatchRequest,
    cfg: PermissionConfig,
    timestamp: Seq<char>,
)
    requires
        forall|i: int| 0 <= i < timestamp.len() ==> timestamp_char(#[trigger] timestamp[i]),
        sandbox_outcome(req, cfg, timestamp) is Ok,
    ensures
        ({
            let dir = cfg.singularity.scripts_dir->0@;
            let name = script_filename(req.job_name@, timestamp);
            &&& cfg.singularity.scripts_dir is Some
            &&& sandbox_outcome(req, cfg, timestamp)->Ok_0.script_path == file_in(dir, name)
            &&& name.len() > 0
            &&& forall|i: int| 0 <= i < name.len() ==> #[trigger] name[i] != '/'
        }),
{
    let name = script_filename(req.job_name@, timestamp);
    let s = crate::sbatch::sanitized(req.job_name@);
    lemma_sanitized_has_no_separator(req.job_name@);
    reveal_strlit("_");
    reveal_strlit(".sh");
    assert(name =~= s + seq!['_'] + timestamp + seq!['.', 's', 'h']);
    assert forall|i: int| 0 <= i < name.len() implies #[trigger] name[i] != '/' by {
        if i < s.len() {
            assert(name[i] == s[i]);
        } else if i == s.len() {
        } else if i < s.len() + 1 + timestamp.len() {
            assert(name[i] == timestamp[i - s.len() - 1]);
        } else {
        }
    }
}

} // verus!
