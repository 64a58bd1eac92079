//! Which method a JSON-RPC request names, whether it must carry parameters,
//! and the protocol's own errors.
use crate::rpc::types::{rpc_error, rpc_failure, RpcError};
use crate::paths::{comp_views, components_of, path_components, PathComp};
use crate::text::{chars_of, push_chars, push_str, slice_chars, string_of};
use vstd::prelude::*;

verus! {

/// The methods of the bridge.
#[derive(Debug, Clone, Copy, PartialEq, Eq, Structural)]
pub enum Method {
    ConnectionStatus,
    Ls,
    Cat,
    Grep,
    Head,
    Wc,
    Find,
    Download,
    GitPull,
    Squeue,
    Sacct,
    Sbatch,
    SandboxedSbatch,
    JobWait,
    Scancel,
    Shutdown,
}

/// The method that a name stands for.
pub open spec fn method_named(name: Seq<char>) -> Option<Method> {
    if name == "connection_status"@ {
        Some(Method::ConnectionStatus)
    } else if name == "ls"@ {
        Some(Method::Ls)
    } else if name == "cat"@ {
        Some(Method::Cat)
    } else if name == "grep"@ {
        Some(Method::Grep)
    } else if name == "head"@ {
        Some(Method::Head)
    } else if name == "wc"@ {
        Some(Method::Wc)
    } else if name == "find"@ {
        Some(Method::Find)
    } else if name == "download"@ {
        Some(Method::Download)
    } else if name == "git_pull"@ {
        Some(Method::GitPull)
    } else if name == "squeue"@ {
        Some(Method::Squeue)
    } else if name == "sacct"@ {
        Some(Method::Sacct)
    } else if name == "sbatch"@ {
        Some(Method::Sbatch)
    } else if name == "sandboxed_sbatch"@ {
        Some(Method::SandboxedSbatch)
    } else if name == "job_wait"@ {
        Some(Method::JobWait)
    } else if name == "scancel"@ {
        Some(Method::Scancel)
    } else if name == "shutdown"@ {
        Some(Method::Shutdown)
    } else {
        None
    }
}

fn is_name(c: &Vec<char>, name: &str) -> (b: bool)
    ensures
        b == (c@ == name@),
{
    let n = chars_of(name);
    if c.len() != n.len() {
        return false;
    }
    let mut i: usize = 0;
    while i < c.len()
        invariant
            c@.len() == n@.len(),
            n@ == name@,
            i <= c@.len(),
            forall|k: int| 0 <= k < i ==> c@[k] == n@[k],
        decreases c@.len() - i,
    {
        if c[i] != n[i] {
            return false;
        }
        i = i + 1;
    }
    assert(c@ =~= name@);
    true
}

/// The method that a request names, if the bridge has it.
pub fn method_of(name: &str) -> (res: Option<Method>)
    ensures
        res == method_named(name@),
{
    let c = chars_of(name);
    if is_name(&c, "connection_status") {
        Some(Method::ConnectionStatus)
    } else if is_name(&c, "ls") {
        Some(Method::Ls)
    } else if is_name(&c, "cat") {
        Some(Method::Cat)
    } else if is_name(&c, "grep") {
        Some(Method::Grep)
    } else if is_name(&c, "head") {
        Some(Method::Head)
    } else if is_name(&c, "wc") {
        Some(Method::Wc)
    } else if is_name(&c, "find") {
        Some(Method::Find)
    } else if is_name(&c, "download") {
        Some(Method::Download)
    } else if is_name(&c, "git_pull") {
        Some(Method::GitPull)
    } else if is_name(&c, "squeue") {
        Some(Method::Squeue)
    } else if is_name(&c, "sacct") {
        Some(Method::Sacct)
    } else if is_name(&c, "sbatch") {
        Some(Method::Sbatch)
    } else if is_name(&c, "sandboxed_sbatch") {
        Some(Method::SandboxedSbatch)
    } else if is_name(&c, "job_wait") {
        Some(Method::JobWait)
    } else if is_name(&c, "scancel") {
        Some(Method::Scancel)
    } else if is_name(&c, "shutdown") {
        Some(Method::Shutdown)
    } else {
        None
    }
}

/// Whether a method refuses a request without parameters; `squeue` and
/// `sacct` read a missing object as an empty one.
pub open spec fn requires_params(m: Method) -> bool {
    !(m == Method::ConnectionStatus || m == Method::Squeue || m == Method::Sacct || m
        == Method::Shutdown)
}

/// Whether a method refuses a request without parameters.
pub fn needs_params(m: Method) -> (b: bool)
    ensures
        b == requires_params(m),
{
    !(m == Method::ConnectionStatus || m == Method::Squeue || m == Method::Sacct || m
        == Method::Shutdown)
}

/// JSON-RPC: the request is no JSON.
pub const ERR_PARSE: i32 = -32700;

/// JSON-RPC: the method does not exist.
pub const ERR_METHOD_NOT_FOUND: i32 = -32601;

/// JSON-RPC: the parameters are missing or do not fit the method.
pub const ERR_INVALID_PARAMS: i32 = -32602;

/// The answer to a request that is no JSON-RPC request.
pub fn parse_error(detail: &str) -> (res: RpcError)
    ensures
        res@ == rpc_failure(ERR_PARSE, "Parse error: "@ + detail@),
{
    let mut v: Vec<char> = Vec::new();
    push_str(&mut v, "Parse error: ");
    push_str(&mut v, detail);
    rpc_error(ERR_PARSE, string_of(&v))
}

/// The answer to a request for a method the bridge does not have.
pub fn method_not_found(name: &str) -> (res: RpcError)
    ensures
        res@ == rpc_failure(ERR_METHOD_NOT_FOUND, "Method not found: "@ + name@),
{
    let mut v: Vec<char> = Vec::new();
    push_str(&mut v, "Method not found: ");
    push_str(&mut v, name);
    rpc_error(ERR_METHOD_NOT_FOUND, string_of(&v))
}

/// The answer to a request without the parameters its method needs.
pub fn missing_params() -> (res: RpcError)
    ensures
        res@ == rpc_failure(ERR_INVALID_PARAMS, "Missing params"@),
{
    rpc_error(ERR_INVALID_PARAMS, String::from_str("Missing params"))
}

/// The answer to a request whose parameters do not fit its method.
pub fn invalid_params(detail: &str) -> (res: RpcError)
    ensures
        res@ == rpc_failure(ERR_INVALID_PARAMS, "Invalid params: "@ + detail@),
{
    let mut v: Vec<char> = Vec::new();
    push_str(&mut v, "Invalid params: ");
    push_str(&mut v, detail);
    rpc_error(ERR_INVALID_PARAMS, string_of(&v))
}

// ---------------------------------------------------------------------------
// Logging
// ---------------------------------------------------------------------------

/// `Path::file_name`: the last component, where it is a name.
pub open spec fn file_name_of(path: Seq<char>) -> Option<Seq<char>> {
    let cs = path_components(path);
    if cs.len() > 0 && cs.last() is Normal {
        Some(cs.last()->Normal_0)
    } else {
        None
    }
}

/// What the log shows of a path: its file name; where it has none, past 30
/// characters `...` and its last 27, else the whole path.
pub open spec fn truncated_path(path: Seq<char>) -> Seq<char> {
    match file_name_of(path) {
        Some(n) => n,
        None => if path.len() > 30 {
            "..."@ + path.skip(path.len() - 27)
        } else {
            path
        },
    }
}

/// A path shortened for the log (see `truncated_path`).
pub fn truncate_path(path: &str) -> (res: String)
    ensures
        res@ == truncated_path(path@),
{
    let cs = chars_of(path);
    let comps = components_of(&cs);
    let n = comps.len();
    if n > 0 {
        assert(comp_views(comps@).last() == comps@[n - 1]@);
        if let PathComp::Normal(name) = &comps[n - 1] {
            return string_of(name);
        }
    }
    if cs.len() > 30 {
        let mut v: Vec<char> = Vec::new();
        push_str(&mut v, "...");
        let len = cs.len();
        let tail = slice_chars(&cs, len - 27, len);
        push_chars(&mut v, &tail);
        assert(v@ =~= "..."@ + path@.skip(path@.len() - 27));
        string_of(&v)
    } else {
        string_of(&cs)
    }
}

} // verus!
