//! The steps of the `head`, `wc`, `find`, `download` and `grep` methods.
use crate::commands::filesystem::{
    find_type_arg, grep_flag_arg, grep_matches, match_views, parse_grep_output, parse_u64_of,
    parse_u64_spec, DownloadRequest, DownloadResponse, DownloadTooLargeError,
    DownloadTooLargeErrorView, FindRequest, FindResponse, GrepFlag, GrepRequest, GrepResponse,
    HeadRequest, HeadResponse, WcRequest, WcResponse, MAX_DOWNLOAD_SIZE,
};
use crate::error::SshError;
use crate::rpc::handlers::{
    command_failed, failure_of, line_count, plan_of, plan_result, CommandPlan, CommandPlanView,
    RpcState,
};
use crate::rpc::types::{
    rpc_error, rpc_failure, RpcError, RpcErrorView, ERR_COMMAND_FAILED, ERR_INVALID_REGEX,
    ERR_VALIDATION,
};
use crate::shell::{
    all_plain, lemma_line_words, line_words, push_single_quoted, quoted_args, shell_form,
    single_quoted,
};
use crate::ssh::CommandOutput;
use crate::text::{
    chars_of, decimal, join, join_from, lines, lines_of, nonempty_pieces, push_chars,
    push_decimal, push_decimal_wide, push_str, string_of, tokens, tokens_of, trim, trim_of,
    vviews,
};
use vstd::prelude::*;

verus! {

// ---------------------------------------------------------------------------
// head
// ---------------------------------------------------------------------------

/// The `head` line.
pub open spec fn head_line(n: usize, path: Seq<char>) -> Seq<char> {
    "head -n "@ + decimal(n as nat) + " "@ + single_quoted(path)
}

impl RpcState {
    /// What a `head` request runs.
    pub open spec fn head_plan(&self, req: HeadRequest) -> Result<CommandPlanView, RpcErrorView> {
        match self.readable(req.path@) {
            Err(e) => Err(e),
            Ok(p) => Ok(plan_of(p, head_line(req.lines, p), 30)),
        }
    }

    /// Execute head command: the path must be readable.
    pub fn head(&self, request: &HeadRequest) -> (res: Result<CommandPlan, RpcError>)
        ensures
            plan_result(res) == self.head_plan(*request),
    {
        let path = match self.check_read(request.path.as_str()) {
            Ok(p) => p,
            Err(e) => return Err(e),
        };
        let pc = chars_of(path.as_str());
        let mut v: Vec<char> = Vec::new();
        push_str(&mut v, "head -n ");
        push_decimal(&mut v, request.lines as u64);
        push_str(&mut v, " ");
        push_single_quoted(&mut v, &pc);
        let command = string_of(&v);
        assert(command@ =~= head_line(request.lines, path@));
        Ok(CommandPlan { path, command, timeout_secs: 30 })
    }
}

/// The `head` answer: the text and the number of its lines.
pub fn head_response(
    plan: &CommandPlan,
    output: Result<CommandOutput, SshError>,
    duration_ms: u64,
) -> (res: Result<HeadResponse, RpcError>)
    ensures
        match output {
            Err(e) => res matches Err(x) && x@ == command_failed(e),
            Ok(o) => res matches Ok(r) && {
                &&& r.content@ == o.stdout@
                &&& r.path@ == plan.path@
                &&& r.lines_returned == lines(o.stdout@).len()
                &&& r.duration_ms == duration_ms
            },
        },
{
    match output {
        Err(e) => Err(failure_of(e)),
        Ok(o) => {
            let lines_returned = line_count(o.stdout.as_str());
            Ok(HeadResponse { path: plan.path.clone(), content: o.stdout, lines_returned, duration_ms })
        },
    }
}

// ---------------------------------------------------------------------------
// wc
// ---------------------------------------------------------------------------

/// The counts that a `wc` request reports: those it names, or all three
/// where it names none.
pub open spec fn wc_selection(req: WcRequest) -> (bool, bool, bool) {
    if !req.lines_only && !req.words_only && !req.bytes_only {
        (true, true, true)
    } else {
        (req.lines_only, req.words_only, req.bytes_only)
    }
}

/// The options of a `wc` request, separated by spaces.
pub open spec fn wc_options(req: WcRequest) -> Seq<char> {
    let ls: Seq<Seq<char>> = if req.lines_only {
        seq!["-l"@]
    } else {
        Seq::empty()
    };
    let ws: Seq<Seq<char>> = if req.words_only {
        seq!["-w"@]
    } else {
        Seq::empty()
    };
    let cs: Seq<Seq<char>> = if req.bytes_only {
        seq!["-c"@]
    } else {
        Seq::empty()
    };
    join(ls + ws + cs, seq![' '])
}

/// The `wc` line: the options, then the path.
pub open spec fn wc_line(req: WcRequest, path: Seq<char>) -> Seq<char> {
    "wc "@ + wc_options(req) + " "@ + single_quoted(path)
}

/// The counts that a `wc` answer reads from the output: lines, words and
/// bytes, each where it was asked for, from the fields in that order.
pub open spec fn wc_counts(req: WcRequest, stdout: Seq<char>) -> (Option<u64>, Option<u64>, Option<u64>) {
    let sel = wc_selection(req);
    let fields = tokens(stdout);
    let words_at: int = if sel.0 {
        1
    } else {
        0
    };
    let bytes_at: int = words_at + if sel.1 {
        1int
    } else {
        0int
    };
    (
        if sel.0 {
            wc_field(fields, 0)
        } else {
            None
        },
        if sel.1 {
            wc_field(fields, words_at)
        } else {
            None
        },
        if sel.2 {
            wc_field(fields, bytes_at)
        } else {
            None
        },
    )
}

/// The number in the `i`th field of the output, if there is one.
pub open spec fn wc_field(fields: Seq<Seq<char>>, i: int) -> Option<u64> {
    if 0 <= i < fields.len() {
        parse_u64_spec(fields[i])
    } else {
        None
    }
}

impl RpcState {
    /// What a `wc` request runs.
    pub open spec fn wc_plan(&self, req: WcRequest) -> Result<CommandPlanView, RpcErrorView> {
        match self.readable(req.path@) {
            Err(e) => Err(e),
            Ok(p) => Ok(plan_of(p, wc_line(req, p), 30)),
        }
    }

    /// Execute wc command: the path must be readable.
    pub fn wc(&self, request: &WcRequest) -> (res: Result<CommandPlan, RpcError>)
        ensures
            plan_result(res) == self.wc_plan(*request),
    {
        let path = match self.check_read(request.path.as_str()) {
            Ok(p) => p,
            Err(e) => return Err(e),
        };
        let mut opts: Vec<Vec<char>> = Vec::new();
        if request.lines_only {
            opts.push(chars_of("-l"));
        }
        if request.words_only {
            opts.push(chars_of("-w"));
        }
        if request.bytes_only {
            opts.push(chars_of("-c"));
        }
        proof {
            let ls: Seq<Seq<char>> = if request.lines_only {
                seq!["-l"@]
            } else {
                Seq::empty()
            };
            let ws: Seq<Seq<char>> = if request.words_only {
                seq!["-w"@]
            } else {
                Seq::empty()
            };
            let cs: Seq<Seq<char>> = if request.bytes_only {
                seq!["-c"@]
            } else {
                Seq::empty()
            };
            assert(vviews(opts@) =~= ls + ws + cs);
            assert(vviews(opts@).skip(0) =~= vviews(opts@));
        }
        let mut sp: Vec<char> = Vec::new();
        sp.push(' ');
        assert(sp@ =~= seq![' ']);
        let joined = join_from(&opts, 0, &sp);
        assert(joined@ == wc_options(*request));
        let pc = chars_of(path.as_str());
        let mut v: Vec<char> = Vec::new();
        push_str(&mut v, "wc ");
        push_chars(&mut v, &joined);
        push_str(&mut v, " ");
        push_single_quoted(&mut v, &pc);
        let command = string_of(&v);
        assert(command@ =~= wc_line(*request, path@));
        Ok(CommandPlan { path, command, timeout_secs: 30 })
    }
}

fn field_number(fields: &Vec<Vec<char>>, i: usize) -> (res: Option<u64>)
    ensures
        res == wc_field(vviews(fields@), i as int),
{
    if i < fields.len() {
        parse_u64_of(&fields[i])
    } else {
        None
    }
}

/// The `wc` answer: the counts it was asked for, in the order in which `wc`
/// prints them (lines, words, bytes); a count is absent where it was not
/// asked for or its field is no number.
pub fn wc_response(
    request: &WcRequest,
    plan: &CommandPlan,
    output: Result<CommandOutput, SshError>,
    duration_ms: u64,
) -> (res: Result<WcResponse, RpcError>)
    ensures
        match output {
            Err(e) => res matches Err(x) && x@ == command_failed(e),
            Ok(o) => res matches Ok(r) && {
                let sel = wc_selection(*request);
                let fields = tokens(o.stdout@);
                let words_at: int = if sel.0 {
                    1
                } else {
                    0
                };
                let bytes_at: int = words_at + if sel.1 {
                    1int
                } else {
                    0int
                };
                &&& r.lines == if sel.0 {
                    wc_field(fields, 0)
                } else {
                    None
                }
                &&& r.words == if sel.1 {
                    wc_field(fields, words_at)
                } else {
                    None
                }
                &&& r.bytes == if sel.2 {
                    wc_field(fields, bytes_at)
                } else {
                    None
                }
                &&& (r.lines, r.words, r.bytes) == wc_counts(*request, o.stdout@)
                &&& r.path@ == plan.path@
                &&& r.duration_ms == duration_ms
            },
        },
{
    match output {
        Err(e) => Err(failure_of(e)),
        Ok(o) => {
            let none = !request.lines_only && !request.words_only && !request.bytes_only;
            let want_lines = none || request.lines_only;
            let want_words = none || request.words_only;
            let want_bytes = none || request.bytes_only;
            let c = chars_of(o.stdout.as_str());
            let fields = tokens_of(&c);
            let mut at: usize = 0;
            let lines = if want_lines {
                at = 1;
                field_number(&fields, 0)
            } else {
                None
            };
            let words = if want_words {
                let w = field_number(&fields, at);
                at = at + 1;
                w
            } else {
                None
            };
            let bytes = if want_bytes {
                field_number(&fields, at)
            } else {
                None
            };
            Ok(WcResponse { path: plan.path.clone(), lines, words, bytes, duration_ms })
        },
    }
}

// ---------------------------------------------------------------------------
// find
// ---------------------------------------------------------------------------

/// The `find` line: the path, the depth, name and type filters, and one
/// result more than the limit, so that a cut can be seen.
pub open spec fn find_line(req: FindRequest, path: Seq<char>) -> Seq<char> {
    "find "@ + single_quoted(path) + (match req.max_depth {
        Some(d) => " -maxdepth "@ + decimal(d as nat),
        None => Seq::empty(),
    }) + (match req.name {
        Some(n) => " -name "@ + single_quoted(n@),
        None => Seq::empty(),
    }) + (match req.file_type {
        Some(t) => " -type "@ + find_type_arg(t),
        None => Seq::empty(),
    }) + " 2>/dev/null | head -n "@ + decimal(req.limit as nat + 1)
}

impl RpcState {
    /// What a `find` request runs.
    pub open spec fn find_plan(&self, req: FindRequest) -> Result<CommandPlanView, RpcErrorView> {
        match self.readable(req.path@) {
            Err(e) => Err(e),
            Ok(p) => Ok(plan_of(p, find_line(req, p), 60)),
        }
    }

    /// Execute find command: the path must be readable.
    pub fn find(&self, request: &FindRequest) -> (res: Result<CommandPlan, RpcError>)
        ensures
            plan_result(res) == self.find_plan(*request),
    {
        let path = match self.check_read(request.path.as_str()) {
            Ok(p) => p,
            Err(e) => return Err(e),
        };
        let pc = chars_of(path.as_str());
        let mut v: Vec<char> = Vec::new();
        push_str(&mut v, "find ");
        push_single_quoted(&mut v, &pc);
        if let Some(d) = request.max_depth {
            push_str(&mut v, " -maxdepth ");
            push_decimal(&mut v, d as u64);
        }
        if let Some(n) = &request.name {
            push_str(&mut v, " -name ");
            let nc = chars_of(n.as_str());
            push_single_quoted(&mut v, &nc);
        }
        if let Some(t) = &request.file_type {
            push_str(&mut v, " -type ");
            push_str(&mut v, t.to_arg());
        }
        push_str(&mut v, " 2>/dev/null | head -n ");
        push_decimal_wide(&mut v, request.limit as u128 + 1);
        let command = string_of(&v);
        assert(command@ =~= find_line(*request, path@));
        Ok(CommandPlan { path, command, timeout_secs: 60 })
    }
}

/// The files that `find` printed: its non-empty lines.
pub open spec fn found_files(stdout: Seq<char>) -> Seq<Seq<char>> {
    nonempty_pieces(lines(stdout))
}

fn nonempty_lines(s: &str) -> (res: Vec<String>)
    ensures
        res.deep_view() == found_files(s@),
{
    let c = chars_of(s);
    let ls = lines_of(&c);
    let ghost lv = vviews(ls@);
    let mut res: Vec<String> = Vec::new();
    let mut i: usize = 0;
    while i < ls.len()
        invariant
            lv == vviews(ls@),
            lv == lines(s@),
            i <= ls@.len(),
            res.deep_view() == nonempty_pieces(lv.take(i as int)),
        decreases ls@.len() - i,
    {
        assert(lv.take(i as int + 1).drop_last() =~= lv.take(i as int));
        assert(ls@[i as int]@ == lv[i as int]);
        if ls[i].len() > 0 {
            let ghost before = res.deep_view();
            res.push(string_of(&ls[i]));
            assert(res.deep_view() =~= before.push(lv[i as int]));
        }
        i = i + 1;
    }
    assert(lv.take(ls@.len() as int) =~= lv);
    res
}

/// The `find` answer: at most `limit` files, and whether more were found.
pub fn find_response(
    request: &FindRequest,
    output: Result<CommandOutput, SshError>,
    duration_ms: u64,
) -> (res: Result<FindResponse, RpcError>)
    ensures
        match output {
            Err(e) => res matches Err(x) && x@ == command_failed(e),
            Ok(o) => res matches Ok(r) && {
                let found = found_files(o.stdout@);
                &&& r.total_found == found.len()
                &&& r.truncated == (found.len() > request.limit)
                &&& r.files.deep_view() == if found.len() > request.limit {
                    found.take(request.limit as int)
                } else {
                    found
                }
                &&& r.duration_ms == duration_ms
            },
        },
{
    match output {
        Err(e) => Err(failure_of(e)),
        Ok(o) => {
            let mut files = nonempty_lines(o.stdout.as_str());
            let total_found = files.len();
            let truncated = total_found > request.limit;
            if truncated {
                let ghost before = files.deep_view();
                files.truncate(request.limit);
                assert(files.deep_view() =~= before.take(request.limit as int));
            }
            Ok(FindResponse { files, total_found, truncated, duration_ms })
        },
    }
}

// ---------------------------------------------------------------------------
// download
// ---------------------------------------------------------------------------

/// The line that prints the size of a file, with GNU `stat` or else BSD's.
pub open spec fn size_line(path: Seq<char>) -> Seq<char> {
    "stat -c%s "@ + single_quoted(path) + " 2>/dev/null || stat -f%z "@ + single_quoted(path)
}

/// The line that prints a file in base64.
pub open spec fn base64_line(path: Seq<char>) -> Seq<char> {
    "base64 "@ + single_quoted(path)
}

/// The `scp` command that fetches a file too large for the bridge.
pub open spec fn scp_line(user: Seq<char>, host: Seq<char>, path: Seq<char>) -> Seq<char> {
    "scp "@ + user + "@"@ + host + ":"@ + single_quoted(path) + " ."@
}

impl RpcState {
    /// What a `download` request runs first: the size of the file.
    pub open spec fn download_plan(&self, req: DownloadRequest) -> Result<
        CommandPlanView,
        RpcErrorView,
    > {
        match self.readable(req.path@) {
            Err(e) => Err(e),
            Ok(p) => Ok(plan_of(p, size_line(p), 30)),
        }
    }

    /// Execute download command, first step: the path must be readable.
    pub fn download(&self, request: &DownloadRequest) -> (res: Result<
        CommandPlan,
        RpcError,
    >)
        ensures
            plan_result(res) == self.download_plan(*request),
    {
        let path = match self.check_read(request.path.as_str()) {
            Ok(p) => p,
            Err(e) => return Err(e),
        };
        let pc = chars_of(path.as_str());
        let mut v: Vec<char> = Vec::new();
        push_str(&mut v, "stat -c%s ");
        push_single_quoted(&mut v, &pc);
        push_str(&mut v, " 2>/dev/null || stat -f%z ");
        push_single_quoted(&mut v, &pc);
        let command = string_of(&v);
        assert(command@ =~= size_line(path@));
        Ok(CommandPlan { path, command, timeout_secs: 30 })
    }
}

/// What the size step leads to: the size and the line that fetches the
/// content; or the refusal of a file over the limit, with the `scp` command
/// that fetches it; or the error of a size that is no number.
pub open spec fn download_next(
    path: Seq<char>,
    stdout: Seq<char>,
    user: Seq<char>,
    host: Seq<char>,
) -> Result<(u64, CommandPlanView), RpcErrorView> {
    match parse_u64_spec(trim(stdout)) {
        None => Err(rpc_failure(ERR_COMMAND_FAILED, "Failed to read file size: "@ + stdout)),
        Some(n) => if n > MAX_DOWNLOAD_SIZE {
            Err(
                RpcErrorView {
                    code: ERR_VALIDATION,
                    message: "File too large: "@ + decimal(n as nat) + " bytes (max "@ + decimal(
                        MAX_DOWNLOAD_SIZE as nat,
                    ) + " bytes). Use scp instead: "@ + scp_line(user, host, path),
                    data: Some(
                        DownloadTooLargeErrorView {
                            path,
                            size_bytes: n,
                            max_bytes: MAX_DOWNLOAD_SIZE,
                            scp_command: scp_line(user, host, path),
                        },
                    ),
                },
            )
        } else {
            Ok((n, plan_of(path, base64_line(path), 60)))
        },
    }
}

/// Execute download command, second step: check the size that `stat`
/// printed and write the line that fetches the content.
pub fn download_content_command(
    plan: &CommandPlan,
    output: Result<CommandOutput, SshError>,
    user: &str,
    host: &str,
) -> (res: Result<(u64, CommandPlan), RpcError>)
    ensures
        match output {
            Err(e) => res matches Err(x) && x@ == command_failed(e),
            Ok(o) => match res {
                Ok((n, p)) => download_next(plan.path@, o.stdout@, user@, host@) == Ok::<
                    (u64, CommandPlanView),
                    RpcErrorView,
                >((n, p@)),
                Err(x) => download_next(plan.path@, o.stdout@, user@, host@) == Err::<
                    (u64, CommandPlanView),
                    RpcErrorView,
                >(x@),
            },
        },
{
    let o = match output {
        Err(e) => return Err(failure_of(e)),
        Ok(o) => o,
    };
    let sc = chars_of(o.stdout.as_str());
    let t = trim_of(&sc);
    let pc = chars_of(plan.path.as_str());
    match parse_u64_of(&t) {
        None => {
            let mut v: Vec<char> = Vec::new();
            push_str(&mut v, "Failed to read file size: ");
            push_chars(&mut v, &sc);
            Err(rpc_error(ERR_COMMAND_FAILED, string_of(&v)))
        },
        Some(n) => {
            if n > MAX_DOWNLOAD_SIZE {
                let mut scp: Vec<char> = Vec::new();
                push_str(&mut scp, "scp ");
                push_str(&mut scp, user);
                push_str(&mut scp, "@");
                push_str(&mut scp, host);
                push_str(&mut scp, ":");
                push_single_quoted(&mut scp, &pc);
                push_str(&mut scp, " .");
                let mut m: Vec<char> = Vec::new();
                push_str(&mut m, "File too large: ");
                push_decimal(&mut m, n);
                push_str(&mut m, " bytes (max ");
                push_decimal(&mut m, MAX_DOWNLOAD_SIZE);
                push_str(&mut m, " bytes). Use scp instead: ");
                push_chars(&mut m, &scp);
                let data = DownloadTooLargeError {
                    path: plan.path.clone(),
                    size_bytes: n,
                    max_bytes: MAX_DOWNLOAD_SIZE,
                    scp_command: string_of(&scp),
                };
                let e = RpcError { code: ERR_VALIDATION, message: string_of(&m), data: Some(data) };
                assert(e@ == download_next(plan.path@, o.stdout@, user@, host@)->Err_0);
                Err(e)
            } else {
                let mut v: Vec<char> = Vec::new();
                push_str(&mut v, "base64 ");
                push_single_quoted(&mut v, &pc);
                let command = string_of(&v);
                assert(command@ =~= base64_line(plan.path@));
                Ok((n, CommandPlan { path: plan.path.clone(), command, timeout_secs: 60 }))
            }
        },
    }
}

/// The `download` answer: the base64 text without its line breaks.
pub fn download_response(
    plan: &CommandPlan,
    size_bytes: u64,
    output: Result<CommandOutput, SshError>,
    duration_ms: u64,
) -> (res: Result<DownloadResponse, RpcError>)
    ensures
        match output {
            Err(e) => res matches Err(x) && x@ == command_failed(e),
            Ok(o) => res matches Ok(r) && {
                &&& r.content@ == join(tokens(o.stdout@), Seq::empty())
                &&& r.path@ == plan.path@
                &&& r.size_bytes == size_bytes
                &&& r.duration_ms == duration_ms
            },
        },
{
    match output {
        Err(e) => Err(failure_of(e)),
        Ok(o) => {
            let c = chars_of(o.stdout.as_str());
            let pieces = tokens_of(&c);
            let none: Vec<char> = Vec::new();
            let joined = join_from(&pieces, 0, &none);
            assert(none@ =~= Seq::<char>::empty());
            assert(vviews(pieces@).skip(0) =~= vviews(pieces@));
            Ok(
                DownloadResponse {
                    path: plan.path.clone(),
                    content: string_of(&joined),
                    size_bytes,
                    duration_ms,
                },
            )
        },
    }
}

// ---------------------------------------------------------------------------
// grep
// ---------------------------------------------------------------------------

/// What `regex::Regex::new` reports for a pattern: `None` where it
/// compiles, else the text of its error.
pub uninterp spec fn regex_compile_error(pattern: Seq<char>) -> Option<Seq<char>>;

/// `regex::Regex::new` with the default limits, and the `Display` text of
/// its error. Named, not described: the regular-expression syntax and the
/// crate's messages are not restated here. The outcome depends on the
/// pattern alone.
#[verifier::external_body]
fn regex_error(pattern: &str) -> (res: Option<String>)
    ensures
        res.deep_view() == regex_compile_error(pattern@),
{
    match regex::Regex::new(pattern) {
        Ok(_) => None,
        Err(e) => Some(e.to_string()),
    }
}

/// The options of the `grep` flags, in order.
pub open spec fn grep_flag_args(flags: Seq<GrepFlag>) -> Seq<Seq<char>> {
    flags.map_values(|f: GrepFlag| grep_flag_arg(f))
}

/// The `grep` line: extended expressions, the flags, the pattern and the
/// paths, the last two in single quotes.
pub open spec fn grep_line(flags: Seq<GrepFlag>, pattern: Seq<char>, paths: Seq<Seq<char>>) -> Seq<
    char,
> {
    "grep "@ + join(
        seq!["-E"@] + grep_flag_args(flags) + seq![single_quoted(pattern)] + quoted_args(paths),
        seq![' '],
    )
}

impl RpcState {
    /// The resolved paths of a request that may all be read, or the refusal
    /// of the first that may not.
    pub open spec fn readable_all(&self, paths: Seq<Seq<char>>) -> Result<
        Seq<Seq<char>>,
        RpcErrorView,
    >
        decreases paths.len(),
    {
        if paths.len() == 0 {
            Ok(Seq::empty())
        } else {
            match self.readable_all(paths.drop_last()) {
                Err(e) => Err(e),
                Ok(ps) => match self.readable(paths.last()) {
                    Err(e) => Err(e),
                    Ok(p) => Ok(ps.push(p)),
                },
            }
        }
    }

    proof fn lemma_readable_all_prefix(&self, paths: Seq<Seq<char>>, j: int)
        requires
            0 <= j <= paths.len(),
            self.readable_all(paths.take(j)) is Err,
        ensures
            self.readable_all(paths) == self.readable_all(paths.take(j)),
        decreases paths.len() - j,
    {
        if j == paths.len() {
            assert(paths.take(j) =~= paths);
        } else {
            assert(paths.take(j + 1).drop_last() =~= paths.take(j));
            self.lemma_readable_all_prefix(paths, j + 1);
        }
    }

    /// What a `grep` request runs, given what compiling its pattern gave:
    /// the pattern must compile and every path must be readable.
    pub open spec fn grep_plan(&self, req: GrepRequest, regex_err: Option<Seq<char>>) -> Result<
        CommandPlanView,
        RpcErrorView,
    > {
        match regex_err {
            Some(m) => Err(rpc_failure(ERR_INVALID_REGEX, "Invalid regex: "@ + m)),
            None => match self.readable_all(req.paths.deep_view()) {
                Err(e) => Err(e),
                Ok(ps) => Ok(plan_of(Seq::empty(), grep_line(req.flags@, req.pattern@, ps), 120)),
            },
        }
    }

    /// Execute grep command, once its pattern has been compiled.
    pub fn grep_checked(&self, request: &GrepRequest, regex_err: Option<String>) -> (res:
        Result<CommandPlan, RpcError>)
        ensures
            plan_result(res) == self.grep_plan(*request, regex_err.deep_view()),
    {
        if let Some(m) = regex_err {
            let mut v: Vec<char> = Vec::new();
            push_str(&mut v, "Invalid regex: ");
            push_str(&mut v, m.as_str());
            return Err(rpc_error(ERR_INVALID_REGEX, string_of(&v)));
        }
        let ghost paths = request.paths.deep_view();
        let mut pieces: Vec<Vec<char>> = Vec::new();
        pieces.push(chars_of("-E"));
        let mut i: usize = 0;
        while i < request.flags.len()
            invariant
                i <= request.flags@.len(),
                vviews(pieces@) == seq!["-E"@] + grep_flag_args(request.flags@.take(i as int)),
            decreases request.flags@.len() - i,
        {
            let ghost before = vviews(pieces@);
            pieces.push(chars_of(request.flags[i].to_arg()));
            proof {
                assert(vviews(pieces@) =~= before.push(grep_flag_arg(request.flags@[i as int])));
                assert(grep_flag_args(request.flags@.take(i as int + 1)) =~= grep_flag_args(
                    request.flags@.take(i as int),
                ).push(grep_flag_arg(request.flags@[i as int])));
            }
            i = i + 1;
        }
        assert(request.flags@.take(request.flags@.len() as int) =~= request.flags@);
        let pat = chars_of(request.pattern.as_str());
        let mut q: Vec<char> = Vec::new();
        push_single_quoted(&mut q, &pat);
        let ghost before = vviews(pieces@);
        pieces.push(q);
        assert(vviews(pieces@) =~= before.push(single_quoted(request.pattern@)));
        let ghost head = vviews(pieces@);
        let mut k: usize = 0;
        assert(quoted_args(Seq::<Seq<char>>::empty()) =~= Seq::<Seq<char>>::empty());
        assert(self.readable_all(paths.take(0)) == Ok::<Seq<Seq<char>>, RpcErrorView>(
            Seq::empty(),
        )) by {
            assert(paths.take(0) =~= Seq::<Seq<char>>::empty());
        }
        while k < request.paths.len()
            invariant
                k <= request.paths@.len(),
                paths == request.paths.deep_view(),
                regex_err is None,
                exists|ps: Seq<Seq<char>>|
                    {
                        &&& self.readable_all(paths.take(k as int)) == Ok::<
                            Seq<Seq<char>>,
                            RpcErrorView,
                        >(ps)
                        &&& vviews(pieces@) == head + quoted_args(ps)
                    },
            decreases request.paths@.len() - k,
        {
            let ghost ps = choose|ps: Seq<Seq<char>>|
                {
                    &&& self.readable_all(paths.take(k as int)) == Ok::<
                        Seq<Seq<char>>,
                        RpcErrorView,
                    >(ps)
                    &&& vviews(pieces@) == head + quoted_args(ps)
                };
            assert(paths.take(k as int + 1).drop_last() =~= paths.take(k as int));
            assert(paths.take(k as int + 1).last() == paths[k as int]);
            assert(paths[k as int] == request.paths@[k as int]@);
            match self.check_read(request.paths[k].as_str()) {
                Err(e) => {
                    proof {
                        assert(self.readable_all(paths.take(k as int + 1)) == Err::<
                            Seq<Seq<char>>,
                            RpcErrorView,
                        >(e@));
                        self.lemma_readable_all_prefix(paths, k as int + 1);
                    }
                    return Err(e);
                },
                Ok(p) => {
                    let pc = chars_of(p.as_str());
                    let mut w: Vec<char> = Vec::new();
                    push_single_quoted(&mut w, &pc);
                    let ghost before = vviews(pieces@);
                    pieces.push(w);
                    proof {
                        assert(vviews(pieces@) =~= before.push(single_quoted(p@)));
                        assert(quoted_args(ps.push(p@)) =~= quoted_args(ps).push(single_quoted(p@)));
                        assert(vviews(pieces@) =~= head + quoted_args(ps.push(p@)));
                    }
                },
            }
            k = k + 1;
        }
        assert(paths.take(request.paths@.len() as int) =~= paths);
        let ghost ps = choose|ps: Seq<Seq<char>>|
            {
                &&& self.readable_all(paths.take(k as int)) == Ok::<Seq<Seq<char>>, RpcErrorView>(
                    ps,
                )
                &&& vviews(pieces@) == head + quoted_args(ps)
            };
        assert(head == seq!["-E"@] + grep_flag_args(request.flags@) + seq![
            single_quoted(request.pattern@),
        ]);
        let mut sp: Vec<char> = Vec::new();
        sp.push(' ');
        assert(sp@ =~= seq![' ']);
        let joined = join_from(&pieces, 0, &sp);
        assert(vviews(pieces@).skip(0) =~= vviews(pieces@));
        let mut v: Vec<char> = Vec::new();
        push_str(&mut v, "grep ");
        push_chars(&mut v, &joined);
        let command = string_of(&v);
        assert(command@ =~= grep_line(request.flags@, request.pattern@, ps));
        Ok(CommandPlan { path: String::new(), command, timeout_secs: 120 })
    }

    /// Execute grep command: the pattern must compile, and every path must
    /// be readable.
    pub fn grep(&self, request: &GrepRequest) -> (res: Result<CommandPlan, RpcError>)
        ensures
            plan_result(res) == self.grep_plan(*request, regex_compile_error(request.pattern@)),
    {
        let checked = regex_error(request.pattern.as_str());
        self.grep_checked(request, checked)
    }
}

/// Whether a flag is among the flags.
pub fn has_grep_flag(flags: &Vec<GrepFlag>, f: GrepFlag) -> (b: bool)
    ensures
        b == flags@.contains(f),
{
    let mut i: usize = 0;
    while i < flags.len()
        invariant
            i <= flags@.len(),
            forall|k: int| 0 <= k < i ==> flags@[k] != f,
        decreases flags@.len() - i,
    {
        if flags[i] == f {
            assert(flags@[i as int] == f);
            return true;
        }
        i = i + 1;
    }
    false
}

/// The `grep` answer: the matches, with line numbers where `-n` was asked,
/// and how many paths were searched.
pub fn grep_response(
    request: &GrepRequest,
    output: Result<CommandOutput, SshError>,
    duration_ms: u64,
) -> (res: Result<GrepResponse, RpcError>)
    ensures
        match output {
            Err(e) => res matches Err(x) && x@ == command_failed(e),
            Ok(o) => res matches Ok(r) && {
                &&& match_views(r.matches@) == grep_matches(
                    lines(o.stdout@),
                    request.flags@.contains(GrepFlag::LineNumbers),
                )
                &&& r.total_matches == r.matches@.len()
                &&& r.files_searched == request.paths@.len()
                &&& r.duration_ms == duration_ms
            },
        },
{
    match output {
        Err(e) => Err(failure_of(e)),
        Ok(o) => {
            let numbered = has_grep_flag(&request.flags, GrepFlag::LineNumbers);
            let matches = parse_grep_output(o.stdout.as_str(), numbered);
            let total_matches = matches.len();
            Ok(
                GrepResponse {
                    matches,
                    total_matches,
                    files_searched: request.paths.len(),
                    duration_ms,
                },
            )
        },
    }
}

/// A `grep` request's pattern and paths reach `grep` as single words,
/// unchanged: the line reads back as `grep`, `-E`, the flags' options, the
/// pattern, and the paths.
pub proof fn lemma_grep_line_words(flags: Seq<GrepFlag>, pattern: Seq<char>, paths: Seq<Seq<char>>)
    ensures
        line_words(grep_line(flags, pattern, paths)) == Some(
            seq!["grep"@] + (seq!["-E"@] + grep_flag_args(flags) + seq![pattern] + paths),
        ),
{
    reveal_strlit("grep ");
    reveal_strlit("grep");
    reveal_strlit("-E");
    reveal_strlit("-i");
    reveal_strlit("-r");
    reveal_strlit("-n");
    reveal_strlit("-l");
    reveal_strlit("-c");
    reveal_strlit("-v");
    reveal_strlit("-w");
    let fa = grep_flag_args(flags);
    let ws = seq!["-E"@] + fa + seq![single_quoted(pattern)] + quoted_args(paths);
    let args = seq!["-E"@] + fa + seq![pattern] + paths;
    assert forall|k: int| 0 <= k < ws.len() implies shell_form(#[trigger] ws[k], args[k]) by {
        if k == 0 {
            assert(ws[0] == "-E"@ && args[0] == "-E"@);
            assert(all_plain("-E"@));
        } else if k < 1 + fa.len() {
            let f = flags[k - 1];
            assert(ws[k] == grep_flag_arg(f) && args[k] == grep_flag_arg(f));
            assert(all_plain(grep_flag_arg(f)));
        } else if k == 1 + fa.len() {
            assert(ws[k] == single_quoted(pattern) && args[k] == pattern);
        } else {
            let i = k - 2 - fa.len();
            assert(ws[k] == single_quoted(paths[i]) && args[k] == paths[i]);
        }
    }
    assert("grep "@ =~= "grep"@ + seq![' ']);
    assert(all_plain("grep"@));
    lemma_line_words("grep"@, ws, args);
}

/// A `head` request's count and path reach `head` as single words: the line
/// reads back as `head`, `-n`, the count in decimal digits, and the path.
pub proof fn lemma_head_line_words(n: usize, path: Seq<char>)
    ensures
        line_words(head_line(n, path)) == Some(seq!["head"@, "-n"@, decimal(n as nat), path]),
        crate::text::digits_value(decimal(n as nat)) == n,
{
    reveal_strlit("head -n ");
    reveal_strlit("head");
    reveal_strlit("-n");
    reveal_strlit(" ");
    let d = decimal(n as nat);
    crate::commands::slurm::lemma_decimal_value(n as nat);
    assert(all_plain(d)) by {
        assert forall|i: int| 0 <= i < d.len() implies crate::shell::is_plain_char(#[trigger] d[i]) by {
            assert(crate::text::is_digit(d[i]));
        }
    }
    let ws = seq!["-n"@, d, single_quoted(path)];
    let args = seq!["-n"@, d, path];
    assert(all_plain("-n"@));
    assert forall|k: int| 0 <= k < ws.len() implies shell_form(#[trigger] ws[k], args[k]) by {}
    crate::shell::lemma_join_first(ws, seq![' ']);
    crate::shell::lemma_join_first(ws.drop_first(), seq![' ']);
    assert(ws.drop_first().drop_first() =~= seq![single_quoted(path)]);
    assert(head_line(n, path) =~= "head"@ + seq![' '] + crate::text::join(ws, seq![' ']));
    assert(all_plain("head"@));
    lemma_line_words("head"@, ws, args);
    assert(seq!["head"@] + args =~= seq!["head"@, "-n"@, d, path]);
}

/// A count that `wc` prints: decimal digits, within `u64`.
pub open spec fn count_text(d: Seq<char>) -> bool {
    d.len() > 0 && crate::text::all_digits(d) && crate::text::digits_value(d) <= u64::MAX
}

/// `wc` prints the counts asked for (all three where none is) in the order
/// lines, words, bytes, then the path; the answer reads each count from its
/// own place and gives none for a count not asked for.
pub proof fn lemma_wc_counts(
    req: WcRequest,
    l: Seq<char>,
    w: Seq<char>,
    b: Seq<char>,
    path: Seq<char>,
)
    requires
        count_text(l),
        count_text(w),
        count_text(b),
        path.len() > 0,
        crate::text::no_match(path, crate::text::ws_pred()),
    ensures
        ({
            let asked_none = !req.lines_only && !req.words_only && !req.bytes_only;
            let on_l = req.lines_only || asked_none;
            let on_w = req.words_only || asked_none;
            let on_b = req.bytes_only || asked_none;
            let shown = (if on_l {
                seq![l]
            } else {
                Seq::empty()
            }) + (if on_w {
                seq![w]
            } else {
                Seq::empty()
            }) + (if on_b {
                seq![b]
            } else {
                Seq::empty()
            }) + seq![path];
            wc_counts(req, crate::text::join(shown, seq![' '])) == (
                if on_l {
                    Some(crate::text::digits_value(l) as u64)
                } else {
                    None
                },
                if on_w {
                    Some(crate::text::digits_value(w) as u64)
                } else {
                    None
                },
                if on_b {
                    Some(crate::text::digits_value(b) as u64)
                } else {
                    None
                },
            )
        }),
{
    let asked_none = !req.lines_only && !req.words_only && !req.bytes_only;
    let on_l = req.lines_only || asked_none;
    let on_w = req.words_only || asked_none;
    let on_b = req.bytes_only || asked_none;
    let sl: Seq<Seq<char>> = if on_l {
        seq![l]
    } else {
        Seq::empty()
    };
    let sw: Seq<Seq<char>> = if on_w {
        seq![w]
    } else {
        Seq::empty()
    };
    let sb: Seq<Seq<char>> = if on_b {
        seq![b]
    } else {
        Seq::empty()
    };
    let shown = sl + sw + sb + seq![path];
    let p = crate::text::ws_pred();
    assert(p(' '));
    assert forall|d: Seq<char>| #[trigger] count_text(d) implies d.len() > 0 && crate::text::no_match(d, p)
        && parse_u64_spec(d) == Some(crate::text::digits_value(d) as u64) by {
        assert forall|i: int| 0 <= i < d.len() implies !p(#[trigger] d[i]) by {
            assert(crate::text::is_digit(d[i]));
        }
        assert(crate::text::is_digit(d[0]));
    }
    assert forall|k: int| 0 <= k < shown.len() implies (#[trigger] shown[k]).len() > 0
        && crate::text::no_match(shown[k], p) by {
        if k < shown.len() - 1 {
            assert(shown[k] == l || shown[k] == w || shown[k] == b);
        }
    }
    crate::commands::slurm::lemma_split_of_join(shown, ' ', p);
    crate::commands::slurm::lemma_nonempty_pieces_all(shown);
    assert(tokens(crate::text::join(shown, seq![' '])) == shown);
    assert(wc_selection(req) == (on_l, on_w, on_b));
}

} // verus!
