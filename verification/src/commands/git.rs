//! Git commands: requests, responses, and the parsing of their output.
use crate::commands::filesystem::{parse_usize_of, parse_usize_spec};
use crate::text::{
    chars_of, contains, contains_str, lines, lines_of, string_of, tokens, tokens_of, vviews,
};
use vstd::prelude::*;

verus! {

/// Request for git pull command
#[derive(Debug)]
pub struct GitPullRequest {
    /// Directory containing the git repository
    pub path: String,
    /// Remote name (default: origin)
    pub remote: String,
    /// Branch name (default: current branch)
    pub branch: Option<String>,
}

/// The remote that `git pull` uses when the request names none.
pub fn default_remote() -> (res: String)
    ensures
        res@ == "origin"@,
{
    String::from_str("origin")
}

/// Response from git pull command
#[derive(Debug)]
pub struct GitPullResponse {
    pub path: String,
    pub output: String,
    pub already_up_to_date: bool,
    pub files_changed: usize,
    pub duration_ms: u64,
}

/// Whether a line of `git pull` output is its summary of changed files.
pub open spec fn is_change_summary(line: Seq<char>) -> bool {
    contains(line, "files changed"@) || contains(line, "file changed"@)
}

/// The first summary line, if any.
pub open spec fn first_change_summary(ls: Seq<Seq<char>>) -> Option<Seq<char>>
    decreases ls.len(),
{
    if ls.len() == 0 {
        None
    } else if is_change_summary(ls[0]) {
        Some(ls[0])
    } else {
        first_change_summary(ls.drop_first())
    }
}

/// The number of changed files that `git pull` reports: the first field of
/// its first summary line, or 0 where there is none or it is no number.
pub open spec fn files_changed_of(output: Seq<char>) -> usize {
    match first_change_summary(lines(output)) {
        None => 0,
        Some(line) => {
            let t = tokens(line);
            if t.len() == 0 {
                0
            } else {
                match parse_usize_spec(t[0]) {
                    Some(n) => n,
                    None => 0,
                }
            }
        },
    }
}

/// Whether `git pull` reports that nothing changed.
pub open spec fn up_to_date_of(output: Seq<char>) -> bool {
    contains(output, "Already up to date"@) || contains(output, "Already up-to-date"@)
}

/// Parse git pull output to extract info
pub fn parse_git_pull_output(output: &str) -> (res: (bool, usize))
    ensures
        res.0 == up_to_date_of(output@),
        res.1 == files_changed_of(output@),
{
    let chars = chars_of(output);
    let already_up_to_date = contains_str(&chars, "Already up to date") || contains_str(
        &chars,
        "Already up-to-date",
    );
    let ls = lines_of(&chars);
    let ghost lv = vviews(ls@);
    let mut i: usize = 0;
    assert(lv.skip(0) =~= lv);
    while i < ls.len()
        invariant
            lv == vviews(ls@),
            lv == lines(output@),
            already_up_to_date == up_to_date_of(output@),
            i <= ls@.len(),
            first_change_summary(lv) == first_change_summary(lv.skip(i as int)),
        decreases ls@.len() - i,
    {
        assert(ls@[i as int]@ == lv[i as int]);
        assert(lv.skip(i as int)[0] == lv[i as int]);
        if contains_str(&ls[i], "files changed") || contains_str(&ls[i], "file changed") {
            let t = tokens_of(&ls[i]);
            let n = if t.len() == 0 {
                0
            } else {
                assert(t@[0]@ == vviews(t@)[0]);
                match parse_usize_of(&t[0]) {
                    Some(n) => n,
                    None => 0,
                }
            };
            return (already_up_to_date, n);
        }
        assert(lv.skip(i as int).drop_first() =~= lv.skip(i as int + 1));
        i = i + 1;
    }
    assert(lv.skip(i as int) =~= Seq::<Seq<char>>::empty());
    (already_up_to_date, 0)
}

/// Request for git status command
#[derive(Debug)]
pub struct GitStatusRequest {
    /// Directory containing the git repository
    pub path: String,
}

/// Response from git status command
#[derive(Debug)]
pub struct GitStatusResponse {
    pub path: String,
    pub branch: String,
    pub clean: bool,
    pub ahead: usize,
    pub behind: usize,
    pub modified: Vec<String>,
    pub untracked: Vec<String>,
    pub duration_ms: u64,
}

/// The number of bytes that UTF-8 takes for a character.
pub open spec fn utf8_len(c: char) -> nat {
    if (c as u32) < 0x80 {
        1
    } else if (c as u32) < 0x800 {
        2
    } else if (c as u32) < 0x10000 {
        3
    } else {
        4
    }
}

/// The number of bytes that UTF-8 takes for a text.
pub open spec fn byte_len(s: Seq<char>) -> nat
    decreases s.len(),
{
    if s.len() == 0 {
        0
    } else {
        byte_len(s.drop_last()) + utf8_len(s.last())
    }
}

/// Whether the byte offset `b` falls between characters.
pub open spec fn is_boundary(s: Seq<char>, b: nat) -> bool {
    exists|k: int| 0 <= k <= s.len() && byte_len(#[trigger] s.take(k)) == b
}

/// The character index at byte offset `b`.
pub open spec fn char_index(s: Seq<char>, b: nat) -> int {
    choose|k: int| 0 <= k <= s.len() && byte_len(#[trigger] s.take(k)) == b
}

/// Lines of `git status --porcelain` that the parser slices: byte offsets 2 and
/// 3 must fall between characters (else slicing the line would panic).
pub open spec fn porcelain_sliceable(output: Seq<char>) -> bool {
    forall|k: int|
        0 <= k < lines(output).len() && byte_len(#[trigger] lines(output)[k]) >= 3 ==> {
            &&& is_boundary(lines(output)[k], 2)
            &&& is_boundary(lines(output)[k], 3)
        }
}

/// Modified and untracked files of the given status lines: a line of three
/// bytes or more has a two-byte status, a separator, then the file.
pub open spec fn status_entries(ls: Seq<Seq<char>>) -> (Seq<Seq<char>>, Seq<Seq<char>>)
    decreases ls.len(),
{
    if ls.len() == 0 {
        (Seq::empty(), Seq::empty())
    } else {
        let (m, u) = status_entries(ls.drop_last());
        let line = ls.last();
        if byte_len(line) < 3 {
            (m, u)
        } else {
            let status = line.take(char_index(line, 2));
            let file = line.skip(char_index(line, 3));
            if status == "??"@ {
                (m, u.push(file))
            } else {
                (m.push(file), u)
            }
        }
    }
}

pub proof fn lemma_byte_len_take(s: Seq<char>, k: int)
    requires
        0 <= k < s.len(),
    ensures
        byte_len(s.take(k + 1)) == byte_len(s.take(k)) + utf8_len(s[k]),
        byte_len(s.take(k)) < byte_len(s.take(k + 1)),
{
    assert(s.take(k + 1).drop_last() =~= s.take(k));
}

/// Byte length is strictly increasing in the number of characters, so a
/// boundary has one character index.
proof fn lemma_byte_len_mono(s: Seq<char>, j: int, k: int)
    requires
        0 <= j < k <= s.len(),
    ensures
        byte_len(s.take(j)) < byte_len(s.take(k)),
    decreases k - j,
{
    lemma_byte_len_take(s, k - 1);
    if j < k - 1 {
        lemma_byte_len_mono(s, j, k - 1);
    }
}

pub(crate) fn utf8_len_of(c: char) -> (n: usize)
    ensures
        n == utf8_len(c),
{
    let u = c as u32;
    if u < 0x80 {
        1
    } else if u < 0x800 {
        2
    } else if u < 0x10000 {
        3
    } else {
        4
    }
}

/// The parts of one status line: `None` for a line under three bytes.
fn status_parts(line: &Vec<char>) -> (res: Option<(bool, Vec<char>)>)
    requires
        byte_len(line@) >= 3 ==> is_boundary(line@, 2) && is_boundary(line@, 3),
    ensures
        match res {
            None => byte_len(line@) < 3,
            Some((untracked, file)) => {
                &&& byte_len(line@) >= 3
                &&& untracked == (line@.take(char_index(line@, 2)) == "??"@)
                &&& file@ == line@.skip(char_index(line@, 3))
            },
        },
{
    // Walk the characters, recording the indices at byte offsets 2 and 3.
    let n = line.len();
    let mut k: usize = 0;
    let mut bytes: usize = 0;
    let mut at2: usize = 0;
    let mut at3: usize = 0;
    let mut found2 = false;
    let mut found3 = false;
    assert(line@.take(0) =~= Seq::<char>::empty());
    while k < n && bytes < 3
        invariant
            n == line@.len(),
            k <= n,
            bytes == byte_len(line@.take(k as int)),
            bytes <= 6,
            found2 ==> at2 <= k && byte_len(line@.take(at2 as int)) == 2,
            found3 ==> at3 <= k && byte_len(line@.take(at3 as int)) == 3,
            bytes == 2 ==> found2 && at2 == k,
            bytes == 3 ==> found3 && at3 == k,
            !found2 ==> forall|j: int| 0 <= j <= k ==> byte_len(#[trigger] line@.take(j)) != 2,
            !found3 ==> forall|j: int| 0 <= j <= k ==> byte_len(#[trigger] line@.take(j)) != 3,
        decreases n - k,
    {
        proof {
            lemma_byte_len_take(line@, k as int);
        }
        bytes = bytes + utf8_len_of(line[k]);
        k = k + 1;
        proof {
            if !found2 || !found3 {
                assert forall|j: int| 0 <= j < k implies byte_len(#[trigger] line@.take(j))
                    < bytes by {
                    if j < k {
                        lemma_byte_len_mono(line@, j, k as int);
                    }
                }
            }
        }
        if bytes == 2 {
            at2 = k;
            found2 = true;
        }
        if bytes == 3 {
            at3 = k;
            found3 = true;
        }
    }
    // Past the walk, byte offsets only grow.
    if bytes < 3 {
        assert(k == n);
        assert(line@.take(n as int) =~= line@);
        return None;
    }
    proof {
        assert(line@.take(n as int) =~= line@);
        if k < n {
            lemma_byte_len_mono(line@, k as int, n as int);
        }
        assert(byte_len(line@) >= 3);
        if !found3 {
            let j = choose|j: int| 0 <= j <= line@.len() && byte_len(#[trigger] line@.take(j)) == 3;
            if j > k {
                lemma_byte_len_mono(line@, k as int, j);
            }
        }
        if !found2 {
            let j = choose|j: int| 0 <= j <= line@.len() && byte_len(#[trigger] line@.take(j)) == 2;
            if j > k {
                lemma_byte_len_mono(line@, k as int, j);
            }
        }
        let c2 = char_index(line@, 2);
        let c3 = char_index(line@, 3);
        if c2 != at2 {
            if c2 < at2 {
                lemma_byte_len_mono(line@, c2, at2 as int);
            } else {
                lemma_byte_len_mono(line@, at2 as int, c2);
            }
        }
        if c3 != at3 {
            if c3 < at3 {
                lemma_byte_len_mono(line@, c3, at3 as int);
            } else {
                lemma_byte_len_mono(line@, at3 as int, c3);
            }
        }
    }
    let status = crate::text::slice_chars(line, 0, at2);
    let file = crate::text::slice_chars(line, at3, n);
    assert(status@ =~= line@.take(at2 as int));
    assert(file@ =~= line@.skip(at3 as int));
    let q = chars_of("??");
    let untracked = status.len() == q.len() && crate::text::starts_with_chars(&status, &q);
    proof {
        if status@.len() == q@.len() {
            assert(status@.take(q@.len() as int) =~= status@);
        }
    }
    Some((untracked, file))
}

/// Parse git status --porcelain output
pub fn parse_git_status_output(output: &str) -> (res: (Vec<String>, Vec<String>))
    requires
        porcelain_sliceable(output@),
    ensures
        res.0.deep_view() == status_entries(lines(output@)).0,
        res.1.deep_view() == status_entries(lines(output@)).1,
{
    let chars = chars_of(output);
    let ls = lines_of(&chars);
    let ghost lv = vviews(ls@);
    let mut modified: Vec<String> = Vec::new();
    let mut untracked: Vec<String> = Vec::new();
    let mut i: usize = 0;
    while i < ls.len()
        invariant
            lv == vviews(ls@),
            lv == lines(output@),
            porcelain_sliceable(output@),
            i <= ls@.len(),
            modified.deep_view() == status_entries(lv.take(i as int)).0,
            untracked.deep_view() == status_entries(lv.take(i as int)).1,
        decreases ls@.len() - i,
    {
        assert(lv.take(i as int + 1).drop_last() =~= lv.take(i as int));
        assert(ls@[i as int]@ == lv[i as int]);
        assert(lv.take(i as int + 1).last() == lv[i as int]);
        let ghost m0 = modified.deep_view();
        let ghost u0 = untracked.deep_view();
        match status_parts(&ls[i]) {
            None => {},
            Some((is_untracked, file)) => {
                let f = string_of(&file);
                if is_untracked {
                    untracked.push(f);
                    assert(untracked.deep_view() =~= u0.push(file@));
                } else {
                    modified.push(f);
                    assert(modified.deep_view() =~= m0.push(file@));
                }
            },
        }
        i = i + 1;
    }
    assert(lv.take(ls@.len() as int) =~= lv);
    (modified, untracked)
}

} // verus!
