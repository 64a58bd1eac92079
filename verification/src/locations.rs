//! Where the bridge keeps its files: the configuration path with `~`
//! expanded, and the socket of a named bridge.
use crate::paths::{join_path, join_path_of};
use crate::text::{chars_of, push_str, starts_with, starts_with_str, string_of};
use vstd::prelude::*;

verus! {

/// `dirs::home_dir`, as text. It depends on the environment and the user
/// database, so nothing is stated of what comes back.
#[verifier::external_body]
fn home_dir() -> (res: Option<String>) {
    match dirs::home_dir() {
        Some(p) => Some(p.to_string_lossy().into_owned()),
        None => None,
    }
}

/// A path that begins with `~/` lies in the home directory, where that is
/// known; any other path is kept.
pub open spec fn tilde_expanded(path: Seq<char>, home: Option<Seq<char>>) -> Seq<char> {
    match home {
        Some(h) => if starts_with(path, "~/"@) {
            join_path(h, path.skip(2))
        } else {
            path
        },
        None => path,
    }
}

/// Expands `~/` with the given home directory.
pub fn expand_tilde_in(path: &str, home: Option<String>) -> (res: String)
    ensures
        res@ == tilde_expanded(path@, home.deep_view()),
{
    let pc = chars_of(path);
    match home {
        Some(h) => {
            if starts_with_str(&pc, "~/") {
                proof {
                    reveal_strlit("~/");
                }
                let rest = crate::text::slice_chars(&pc, 2, pc.len());
                assert(rest@ =~= path@.skip(2));
                let hc = chars_of(h.as_str());
                string_of(&join_path_of(&hc, &rest))
            } else {
                String::from_str(path)
            }
        },
        None => String::from_str(path),
    }
}

/// Expands `~/` with the user's home directory.
pub fn expand_tilde(path: &str) -> (res: String)
    ensures
        exists|home: Option<Seq<char>>| res@ == tilde_expanded(path@, home),
{
    let home = home_dir();
    expand_tilde_in(path, home)
}

/// The socket of a named bridge: `~/.remote-bridge/remote-bridge-<name>.sock`,
/// or under the working directory where the home directory is unknown.
pub open spec fn socket_file(home: Option<Seq<char>>, name: Seq<char>) -> Seq<char> {
    join_path(
        join_path(
            match home {
                Some(h) => h,
                None => "."@,
            },
            ".remote-bridge"@,
        ),
        "remote-bridge-"@ + name + ".sock"@,
    )
}

/// The socket of a named bridge, with the given home directory.
pub fn socket_path_in(home: Option<String>, name: &str) -> (res: String)
    ensures
        res@ == socket_file(home.deep_view(), name@),
{
    let base = match home {
        Some(h) => chars_of(h.as_str()),
        None => chars_of("."),
    };
    let dir = join_path_of(&base, &chars_of(".remote-bridge"));
    let mut f: Vec<char> = Vec::new();
    push_str(&mut f, "remote-bridge-");
    push_str(&mut f, name);
    push_str(&mut f, ".sock");
    string_of(&join_path_of(&dir, &f))
}

/// The socket of a named bridge, in the user's home directory.
pub fn socket_path(name: &str) -> (res: String)
    ensures
        exists|home: Option<Seq<char>>| res@ == socket_file(home, name@),
{
    let home = home_dir();
    socket_path_in(home, name)
}

} // verus!
