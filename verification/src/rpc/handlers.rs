//! The state that the RPC methods share, and the steps of the file methods:
//! each method first checks its request and writes the command line that it
//! runs, then builds its answer from what the command printed.
use crate::commands::filesystem::{
    entry_views, ls_entries, ls_flag_arg, parse_ls_output, CatRequest, CatResponse, LsFlag,
    LsRequest, LsResponse,
};
use crate::commands::validation::{lemma_validated_is_confined, validation_outcome, PathValidator};
use crate::config::under_any;
use crate::paths::{is_plain_name, render_absolute};
use crate::config::PermissionConfig;
use crate::error::{ssh_message, validation_message, SshError, ValidationErrorView};
use crate::rpc::types::{
    rpc_error, rpc_failure, ConnectionStatus, RpcError, RpcErrorView, ERR_COMMAND_FAILED,
    ERR_PERMISSION_DENIED,
};
use crate::shell::{
    all_plain, build_command_with_args, command_with_args, lemma_command_with_args_words,
    line_words, push_single_quoted, single_quoted,
};
use crate::ssh::CommandOutput;
use crate::text::{chars_of, decimal, lines, lines_of, push_decimal, push_str, string_of};
use vstd::prelude::*;

verus! {

/// A command to run on the remote side: the path it works on (empty where
/// there is none), the command line, and how long it may take.
#[derive(Debug)]
pub struct CommandPlan {
    pub path: String,
    pub command: String,
    pub timeout_secs: u64,
}

/// A command plan, as values.
pub struct CommandPlanView {
    pub path: Seq<char>,
    pub command: Seq<char>,
    pub timeout_secs: u64,
}

impl View for CommandPlan {
    type V = CommandPlanView;

    open spec fn view(&self) -> CommandPlanView {
        CommandPlanView { path: self.path@, command: self.command@, timeout_secs: self.timeout_secs }
    }
}

/// A plan or an error, as values.
pub open spec fn plan_result(r: Result<CommandPlan, RpcError>) -> Result<
    CommandPlanView,
    RpcErrorView,
> {
    match r {
        Ok(p) => Ok(p@),
        Err(e) => Err(e@),
    }
}

/// A text or an error, as values.
pub open spec fn text_result(r: Result<String, RpcError>) -> Result<Seq<char>, RpcErrorView> {
    match r {
        Ok(p) => Ok(p@),
        Err(e) => Err(e@),
    }
}

/// The answer to a request whose path the permissions refuse.
pub open spec fn denied(e: ValidationErrorView) -> RpcErrorView {
    rpc_failure(ERR_PERMISSION_DENIED, validation_message(e))
}

/// The answer to a request whose command could not run.
pub open spec fn command_failed(e: SshError) -> RpcErrorView {
    rpc_failure(ERR_COMMAND_FAILED, ssh_message(e))
}

/// The error of a command that could not run.
pub fn failure_of(e: SshError) -> (res: RpcError)
    ensures
        res@ == command_failed(e),
{
    rpc_error(ERR_COMMAND_FAILED, e.message())
}

/// A plan with the given parts.
pub open spec fn plan_of(path: Seq<char>, command: Seq<char>, timeout_secs: u64) -> CommandPlanView {
    CommandPlanView { path, command, timeout_secs }
}

/// Shared state for RPC handlers
pub struct RpcState {
    validator: PathValidator,
}

impl RpcState {
    /// The permissions that the bridge enforces.
    pub closed spec fn permissions(&self) -> PermissionConfig {
        self.validator.permissions()
    }

    /// The remote home directory, once known.
    pub closed spec fn home(&self) -> Option<Seq<char>> {
        self.validator.home()
    }

    pub fn new(config: PermissionConfig) -> (res: Self)
        ensures
            res.permissions() == config,
            res.home() is None,
    {
        Self { validator: PathValidator::new(config) }
    }

    /// Set the remote home directory, once the session knows it.
    pub fn set_home_dir(&mut self, home: String)
        ensures
            final(self).home() == Some(home@),
            final(self).permissions() == old(self).permissions(),
    {
        self.validator.set_home_dir(home);
    }

    /// The permissions, for the methods that read them directly.
    pub fn config(&self) -> (res: &PermissionConfig)
        ensures
            *res == self.permissions(),
    {
        self.validator.config()
    }

    /// The resolved path of a request that may be read, or its refusal.
    pub open spec fn readable(&self, path: Seq<char>) -> Result<Seq<char>, RpcErrorView> {
        match validation_outcome(path, self.home(), self.permissions().read_paths()) {
            Ok(p) => Ok(p),
            Err(e) => Err(denied(e)),
        }
    }

    /// Checks a path for reading.
    pub fn check_read(&self, path: &str) -> (res: Result<String, RpcError>)
        ensures
            text_result(res) == self.readable(path@),
    {
        match self.validator.validate_read_path(path) {
            Ok(v) => Ok(v.to_string()),
            Err(e) => Err(rpc_error(ERR_PERMISSION_DENIED, e.message())),
        }
    }
}

impl RpcState {
    /// Connection status as the clients read it: where the session is down, the
    /// status says how to bring it back.
    pub fn connection_status(&self, connected: bool, user: &str, host: &str) -> (res: ConnectionStatus)
        ensures
            res.connected == connected,
            res.user@ == user@,
            res.host@ == host@,
            res.socket_path@ == "N/A (persistent session)"@,
            res.instructions.deep_view() == if connected {
                None::<Seq<char>>
            } else {
                Some("SSH session not connected. Restart the bridge."@)
            },
    {
        ConnectionStatus {
            connected,
            user: String::from_str(user),
            host: String::from_str(host),
            socket_path: String::from_str("N/A (persistent session)"),
            instructions: if connected {
                None
            } else {
                Some(String::from_str("SSH session not connected. Restart the bridge."))
            },
        }
    }
}

// ---------------------------------------------------------------------------
// ls
// ---------------------------------------------------------------------------

/// The options of the `ls` flags, in order.
pub open spec fn ls_flag_args(flags: Seq<LsFlag>) -> Seq<Seq<char>> {
    flags.map_values(|f: LsFlag| ls_flag_arg(f))
}

/// The `ls` line: colours off, the flags, the path; each argument quoted.
pub open spec fn ls_line(flags: Seq<LsFlag>, path: Seq<char>) -> Seq<char> {
    command_with_args("ls"@, seq!["--color=never"@] + ls_flag_args(flags) + seq![path])
}

/// Whether a flag is among the flags.
pub fn has_ls_flag(flags: &Vec<LsFlag>, f: LsFlag) -> (b: bool)
    ensures
        b == flags@.contains(f),
{
    let mut i: usize = 0;
    while i < flags.len()
        invariant
            i <= flags@.len(),
            forall|k: int| 0 <= k < i ==> flags@[k] != f,
        decreases flags@.len() - i,
    {
        if flags[i] == f {
            assert(flags@[i as int] == f);
            return true;
        }
        i = i + 1;
    }
    false
}

impl RpcState {
    /// What an `ls` request runs.
    pub open spec fn ls_plan(&self, req: LsRequest) -> Result<CommandPlanView, RpcErrorView> {
        match self.readable(req.path@) {
            Err(e) => Err(e),
            Ok(p) => Ok(plan_of(p, ls_line(req.flags@, p), 30)),
        }
    }

    /// Execute ls command: the path must be readable.
    pub fn ls(&self, request: &LsRequest) -> (res: Result<CommandPlan, RpcError>)
        ensures
            plan_result(res) == self.ls_plan(*request),
    {
        let path = match self.check_read(request.path.as_str()) {
            Ok(p) => p,
            Err(e) => return Err(e),
        };
        let mut args: Vec<String> = Vec::new();
        args.push(String::from_str("--color=never"));
        let ghost head = seq!["--color=never"@];
        let mut i: usize = 0;
        while i < request.flags.len()
            invariant
                i <= request.flags@.len(),
                args.deep_view() == head + ls_flag_args(request.flags@.take(i as int)),
            decreases request.flags@.len() - i,
        {
            let ghost before = args.deep_view();
            args.push(String::from_str(request.flags[i].to_arg()));
            proof {
                assert(args.deep_view() =~= before.push(ls_flag_arg(request.flags@[i as int])));
                assert(ls_flag_args(request.flags@.take(i as int + 1)) =~= ls_flag_args(
                    request.flags@.take(i as int),
                ).push(ls_flag_arg(request.flags@[i as int])));
            }
            i = i + 1;
        }
        let ghost before = args.deep_view();
        args.push(path.clone());
        proof {
            assert(request.flags@.take(request.flags@.len() as int) =~= request.flags@);
            assert(args.deep_view() =~= head + ls_flag_args(request.flags@) + seq![path@]);
        }
        let command = build_command_with_args("ls", &args);
        Ok(CommandPlan { path, command, timeout_secs: 30 })
    }
}

/// The `ls` answer: the entries of the listing, long where `-l` was asked.
pub fn ls_response(
    request: &LsRequest,
    plan: &CommandPlan,
    output: Result<CommandOutput, SshError>,
    duration_ms: u64,
) -> (res: Result<LsResponse, RpcError>)
    ensures
        match output {
            Err(e) => res matches Err(x) && x@ == command_failed(e),
            Ok(o) => res matches Ok(r) && {
                &&& entry_views(r.entries@) == ls_entries(
                    lines(o.stdout@),
                    request.flags@.contains(LsFlag::Long),
                )
                &&& r.path@ == plan.path@
                &&& r.duration_ms == duration_ms
            },
        },
{
    match output {
        Err(e) => Err(failure_of(e)),
        Ok(o) => {
            let long = has_ls_flag(&request.flags, LsFlag::Long);
            let entries = parse_ls_output(o.stdout.as_str(), long);
            Ok(LsResponse { entries, path: plan.path.clone(), duration_ms })
        },
    }
}

// ---------------------------------------------------------------------------
// cat
// ---------------------------------------------------------------------------

/// The command of a `cat` request: the first lines, the last lines, a range
/// of lines, the lines from one on, or the whole file.
pub open spec fn cat_line(req: CatRequest, path: Seq<char>) -> Seq<char> {
    match req.head {
        Some(n) => "head -n "@ + decimal(n as nat) + " "@ + single_quoted(path),
        None => match req.tail {
            Some(n) => "tail -n "@ + decimal(n as nat) + " "@ + single_quoted(path),
            None => match req.offset {
                Some(o) => match req.limit {
                    Some(l) => "sed -n '"@ + decimal(o as nat) + ","@ + decimal((o + l - 1) as nat)
                        + "p' "@ + single_quoted(path),
                    None => "tail -n +"@ + decimal(o as nat) + " "@ + single_quoted(path),
                },
                None => "cat "@ + single_quoted(path),
            },
        },
    }
}

/// Whether the last line of a range can be computed: `offset + limit - 1`
/// neither overflows nor goes below zero.
pub open spec fn cat_range_computable(req: CatRequest) -> bool {
    (req.head is None && req.tail is None && req.offset is Some && req.limit is Some) ==> 1
        <= req.offset->0 + req.limit->0 <= usize::MAX
}

impl RpcState {
    /// What a `cat` request runs.
    pub open spec fn cat_plan(&self, req: CatRequest) -> Result<CommandPlanView, RpcErrorView> {
        match self.readable(req.path@) {
            Err(e) => Err(e),
            Ok(p) => Ok(plan_of(p, cat_line(req, p), 60)),
        }
    }

    /// Execute cat command: the path must be readable.
    pub fn cat(&self, request: &CatRequest) -> (res: Result<CommandPlan, RpcError>)
        requires
            cat_range_computable(*request),
        ensures
            plan_result(res) == self.cat_plan(*request),
    {
        let path = match self.check_read(request.path.as_str()) {
            Ok(p) => p,
            Err(e) => return Err(e),
        };
        let pc = chars_of(path.as_str());
        let mut v: Vec<char> = Vec::new();
        if let Some(head) = request.head {
            push_str(&mut v, "head -n ");
            push_decimal(&mut v, head as u64);
            push_str(&mut v, " ");
        } else if let Some(tail) = request.tail {
            push_str(&mut v, "tail -n ");
            push_decimal(&mut v, tail as u64);
            push_str(&mut v, " ");
        } else if let Some(offset) = request.offset {
            if let Some(limit) = request.limit {
                push_str(&mut v, "sed -n '");
                push_decimal(&mut v, offset as u64);
                push_str(&mut v, ",");
                push_decimal(&mut v, (offset + limit - 1) as u64);
                push_str(&mut v, "p' ");
            } else {
                push_str(&mut v, "tail -n +");
                push_decimal(&mut v, offset as u64);
                push_str(&mut v, " ");
            }
        } else {
            push_str(&mut v, "cat ");
        }
        push_single_quoted(&mut v, &pc);
        let command = string_of(&v);
        assert(command@ =~= cat_line(*request, path@));
        Ok(CommandPlan { path, command, timeout_secs: 60 })
    }
}

/// The `cat` answer: the text and its number of lines.
pub fn cat_response(
    plan: &CommandPlan,
    output: Result<CommandOutput, SshError>,
    duration_ms: u64,
) -> (res: Result<CatResponse, RpcError>)
    ensures
        match output {
            Err(e) => res matches Err(x) && x@ == command_failed(e),
            Ok(o) => res matches Ok(r) && {
                &&& r.content@ == o.stdout@
                &&& r.path@ == plan.path@
                &&& r.total_lines == lines(o.stdout@).len()
                &&& !r.truncated
                &&& r.duration_ms == duration_ms
            },
        },
{
    match output {
        Err(e) => Err(failure_of(e)),
        Ok(o) => {
            let total_lines = line_count(o.stdout.as_str());
            Ok(
                CatResponse {
                    content: o.stdout,
                    path: plan.path.clone(),
                    total_lines,
                    truncated: false,
                    duration_ms,
                },
            )
        },
    }
}

/// `str::lines().count()`.
pub fn line_count(s: &str) -> (n: usize)
    ensures
        n == lines(s@).len(),
{
    let c = chars_of(s);
    let ls = lines_of(&c);
    ls.len()
}

impl RpcState {
    /// Every path that a file method runs on lies under a read path, as an
    /// absolute path without `.` or `..`.
    pub proof fn lemma_readable_confined(&self, path: Seq<char>)
        requires
            self.readable(path) is Ok,
        ensures
            ({
                let r = self.readable(path)->Ok_0;
                &&& under_any(self.permissions().read_paths(), r)
                &&& exists|names: Seq<Seq<char>>|
                    {
                        &&& r == render_absolute(names)
                        &&& forall|k: int| 0 <= k < names.len() ==> is_plain_name(#[trigger] names[k])
                    }
            }),
    {
        lemma_validated_is_confined(path, self.home(), self.permissions().read_paths());
    }
}

/// The path and flags of an `ls` request reach `ls` as single words,
/// unchanged.
pub proof fn lemma_ls_line_words(flags: Seq<LsFlag>, path: Seq<char>)
    ensures
        line_words(ls_line(flags, path)) == Some(
            seq!["ls"@] + (seq!["--color=never"@] + ls_flag_args(flags) + seq![path]),
        ),
{
    reveal_strlit("ls");
    assert(all_plain("ls"@));
    lemma_command_with_args_words("ls"@, seq!["--color=never"@] + ls_flag_args(flags) + seq![path]);
}

/// A `cat` request runs the command that shows what it asks for: the first
/// `n` lines, else the last `n`, else `l` lines from line `o` (lines `o` to
/// `o + l - 1`) or every line from `o` on, else the whole file; the path is
/// always one quoted word.
pub proof fn lemma_cat_commands(req: CatRequest, path: Seq<char>)
    ensures
        req.head is Some ==> cat_line(req, path) == "head -n "@ + decimal(req.head->0 as nat) + " "@
            + single_quoted(path),
        req.head is None && req.tail is Some ==> cat_line(req, path) == "tail -n "@ + decimal(
            req.tail->0 as nat,
        ) + " "@ + single_quoted(path),
        req.head is None && req.tail is None && req.offset is Some && req.limit is Some
            ==> cat_line(req, path) == "sed -n '"@ + decimal(req.offset->0 as nat) + ","@
            + decimal((req.offset->0 + req.limit->0 - 1) as nat) + "p' "@ + single_quoted(path),
        req.head is None && req.tail is None && req.offset is Some && req.limit is None
            ==> cat_line(req, path) == "tail -n +"@ + decimal(req.offset->0 as nat) + " "@
            + single_quoted(path),
        req.head is None && req.tail is None && req.offset is None ==> cat_line(req, path)
            == "cat "@ + single_quoted(path),
{
}

} // verus!

