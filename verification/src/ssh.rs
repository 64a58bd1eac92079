//! What the SSH session hands back, and how its output is read: each command
//! is sent between two fresh markers, and what the session prints between
//! them is the command's output.
use crate::commands::git::{byte_len, lemma_byte_len_take, utf8_len};
use crate::text::{
    chars_of, contains, contains_str, find_char, first_index, join, parse_bounded,
    parse_unsigned, push_str, slice_chars, starts_with, starts_with_chars, string_of, trim, trim_of,
    vviews,
};
use vstd::prelude::*;

verus! {

/// Output from a remote command
#[derive(Debug)]
pub struct CommandOutput {
    pub stdout: String,
    pub stderr: String,
    pub exit_code: i32,
}

/// What the last check of a connection found.
#[derive(Debug, Clone, Copy, PartialEq, Eq, Structural)]
pub enum ConnectionState {
    Unknown,
    Connected,
    Disconnected,
}

// ---------------------------------------------------------------------------
// Markers
// ---------------------------------------------------------------------------

pub open spec fn is_lower_hex(c: char) -> bool {
    ('0' <= c && c <= '9') || ('a' <= c && c <= 'f')
}

/// `uuid::Uuid::new_v4` in its `simple` form: 32 lowercase hexadecimal
/// digits. The value is random; only its form is stated.
#[verifier::external_body]
fn random_hex_id() -> (res: String)
    ensures
        res@.len() == 32,
        forall|i: int| 0 <= i < 32 ==> is_lower_hex(#[trigger] res@[i]),
{
    uuid::Uuid::new_v4().simple().to_string()
}

/// A marker `__KIND_<32 hex digits>__`.
pub open spec fn is_marker(m: Seq<char>, kind: Seq<char>) -> bool {
    exists|id: Seq<char>|
        {
            &&& id.len() == 32
            &&& forall|i: int| 0 <= i < 32 ==> is_lower_hex(#[trigger] id[i])
            &&& m == "__"@ + kind + "_"@ + id + "__"@
        }
}

/// A fresh marker of the given kind, with a random id.
pub fn fresh_marker(kind: &str) -> (res: String)
    ensures
        is_marker(res@, kind@),
{
    let id = random_hex_id();
    let mut v: Vec<char> = Vec::new();
    push_str(&mut v, "__");
    push_str(&mut v, kind);
    push_str(&mut v, "_");
    push_str(&mut v, id.as_str());
    push_str(&mut v, "__");
    let res = string_of(&v);
    assert(res@ =~= "__"@ + kind@ + "_"@ + id@ + "__"@);
    res
}

/// The line sent to the shell: the start marker, the command with its errors
/// folded into its output, then the end marker and the exit status.
pub open spec fn wrapped_command(command: Seq<char>, start: Seq<char>, end: Seq<char>) -> Seq<char> {
    "echo '"@ + start + "'; "@ + command + " 2>&1; echo '"@ + end + "'$?\n"@
}

/// Wraps a command between its markers.
pub fn wrap_command(command: &str, start: &str, end: &str) -> (res: String)
    ensures
        res@ == wrapped_command(command@, start@, end@),
{
    let mut v: Vec<char> = Vec::new();
    push_str(&mut v, "echo '");
    push_str(&mut v, start);
    push_str(&mut v, "'; ");
    push_str(&mut v, command);
    push_str(&mut v, " 2>&1; echo '");
    push_str(&mut v, end);
    push_str(&mut v, "'$?\n");
    string_of(&v)
}

// ---------------------------------------------------------------------------
// Reading the session's output
// ---------------------------------------------------------------------------

/// The text without the carriage returns at its end.
pub open spec fn trim_end_cr(s: Seq<char>) -> Seq<char>
    decreases s.len(),
{
    if s.len() > 0 && s.last() == '\r' {
        trim_end_cr(s.drop_last())
    } else {
        s
    }
}

/// Splits off the first complete line of what the session has printed: the
/// line without its carriage returns, and the rest after its newline. `None`
/// while no line is complete.
pub open spec fn first_line(acc: Seq<char>) -> Option<(Seq<char>, Seq<char>)> {
    let i = first_index(acc, '\n');
    if i < 0 {
        None
    } else {
        Some((trim_end_cr(acc.take(i)), acc.skip(i + 1)))
    }
}

fn trim_end_cr_of(s: &[char]) -> (res: Vec<char>)
    ensures
        res@ == trim_end_cr(s@),
{
    let mut n = s.len();
    assert(s@.take(n as int) =~= s@);
    while n > 0 && s[n - 1] == '\r'
        invariant
            n <= s@.len(),
            trim_end_cr(s@.take(n as int)) == trim_end_cr(s@),
        decreases n,
    {
        assert(s@.take(n as int).drop_last() =~= s@.take(n as int - 1));
        n = n - 1;
    }
    assert(s@.take(n as int) == trim_end_cr(s@.take(n as int)));
    crate::text::slice_chars(s, 0, n)
}

/// Takes the first complete line off what the session has printed.
pub fn take_line(acc: &mut String) -> (res: Option<String>)
    ensures
        match first_line(old(acc)@) {
            None => res is None && final(acc)@ == old(acc)@,
            Some((line, rest)) => res matches Some(l) && l@ == line && final(acc)@ == rest,
        },
{
    let c = chars_of(acc.as_str());
    proof {
        crate::text::lemma_first_index(c@, '\n');
    }
    match find_char(&c, '\n') {
        None => None,
        Some(i) => {
            let head = crate::text::slice_chars(&c, 0, i);
            let line = trim_end_cr_of(&head);
            let rest = crate::text::slice_chars(&c, i + 1, c.len());
            assert(head@ =~= c@.take(i as int));
            assert(rest@ =~= c@.skip(i as int + 1));
            *acc = string_of(&rest);
            Some(string_of(&line))
        },
    }
}

/// `str::parse::<i32>`: an optional sign, then decimal digits within range.
pub open spec fn parse_i32_spec(s: Seq<char>) -> Option<i32> {
    if s.len() > 0 && s[0] == '-' {
        let d = s.drop_first();
        if d.len() > 0 && d[0] == '+' {
            None
        } else {
            match parse_unsigned(d, 2147483648) {
                Some(v) => Some((0 - v) as i32),
                None => None,
            }
        }
    } else {
        match parse_unsigned(s, 2147483647) {
            Some(v) => Some(v as i32),
            None => None,
        }
    }
}

fn parse_i32_of(s: &[char]) -> (res: Option<i32>)
    ensures
        res == parse_i32_spec(s@),
{
    if s.len() > 0 && s[0] == '-' {
        let d = crate::text::slice_chars(s, 1, s.len());
        assert(d@ =~= s@.drop_first());
        if d.len() > 0 && d[0] == '+' {
            return None;
        }
        match parse_bounded(&d, 2147483648) {
            Some(v) => Some((0i64 - v as i64) as i32),
            None => None,
        }
    } else {
        match parse_bounded(s, 2147483647) {
            Some(v) => Some(v as i32),
            None => None,
        }
    }
}

/// The exit status on the end marker's line: what follows the marker, as a
/// number; 0 where it is none or the line does not begin with the marker.
pub open spec fn exit_status(line: Seq<char>, end: Seq<char>) -> i32 {
    if starts_with(line, end) {
        match parse_i32_spec(trim(line.skip(end.len() as int))) {
            Some(v) => v,
            None => 0,
        }
    } else {
        0
    }
}

/// What reading the session's lines gives, from a state of the reading: a
/// line with the start marker starts the output, a line with the end marker
/// finishes it, other lines after the start are output. `None` while no
/// line has finished it.
pub open spec fn scan_lines(
    start: Seq<char>,
    end: Seq<char>,
    capturing: bool,
    captured: Seq<Seq<char>>,
    ls: Seq<Seq<char>>,
) -> Option<(Seq<char>, i32)>
    decreases ls.len(),
{
    if ls.len() == 0 {
        None
    } else {
        let l = ls[0];
        if contains(l, start) {
            scan_lines(start, end, true, captured, ls.drop_first())
        } else if contains(l, end) {
            Some((join(captured, seq!['\n']), exit_status(l, end)))
        } else {
            scan_lines(
                start,
                end,
                capturing,
                if capturing {
                    captured.push(l)
                } else {
                    captured
                },
                ls.drop_first(),
            )
        }
    }
}

/// A line that holds neither marker.
pub open spec fn unmarked(l: Seq<char>, start: Seq<char>, end: Seq<char>) -> bool {
    !contains(l, start) && !contains(l, end)
}

proof fn lemma_scan_skips(
    start: Seq<char>,
    end: Seq<char>,
    capturing: bool,
    captured: Seq<Seq<char>>,
    before: Seq<Seq<char>>,
    rest: Seq<Seq<char>>,
)
    requires
        !capturing,
        forall|k: int| 0 <= k < before.len() ==> unmarked(#[trigger] before[k], start, end),
    ensures
        scan_lines(start, end, capturing, captured, before + rest) == scan_lines(
            start,
            end,
            capturing,
            captured,
            rest,
        ),
    decreases before.len(),
{
    if before.len() > 0 {
        assert((before + rest)[0] == before[0]);
        assert((before + rest).drop_first() =~= before.drop_first() + rest);
        assert forall|k: int| 0 <= k < before.drop_first().len() implies unmarked(
            #[trigger] before.drop_first()[k],
            start,
            end,
        ) by {
            assert(before.drop_first()[k] == before[k + 1]);
        }
        lemma_scan_skips(start, end, capturing, captured, before.drop_first(), rest);
    } else {
        assert(before + rest =~= rest);
    }
}

proof fn lemma_scan_captures(
    start: Seq<char>,
    end: Seq<char>,
    captured: Seq<Seq<char>>,
    out: Seq<Seq<char>>,
    rest: Seq<Seq<char>>,
)
    requires
        forall|k: int| 0 <= k < out.len() ==> unmarked(#[trigger] out[k], start, end),
    ensures
        scan_lines(start, end, true, captured, out + rest) == scan_lines(
            start,
            end,
            true,
            captured + out,
            rest,
        ),
    decreases out.len(),
{
    if out.len() > 0 {
        assert((out + rest)[0] == out[0]);
        assert((out + rest).drop_first() =~= out.drop_first() + rest);
        assert forall|k: int| 0 <= k < out.drop_first().len() implies unmarked(
            #[trigger] out.drop_first()[k],
            start,
            end,
        ) by {
            assert(out.drop_first()[k] == out[k + 1]);
        }
        lemma_scan_captures(start, end, captured.push(out[0]), out.drop_first(), rest);
        assert(captured.push(out[0]) + out.drop_first() =~= captured + out);
    } else {
        assert(out + rest =~= rest);
        assert(captured + out =~= captured);
    }
}

proof fn lemma_scan_starts(
    start: Seq<char>,
    end: Seq<char>,
    capturing: bool,
    starts: Seq<Seq<char>>,
    rest: Seq<Seq<char>>,
)
    requires
        starts.len() > 0,
        forall|k: int| 0 <= k < starts.len() ==> contains(#[trigger] starts[k], start),
    ensures
        scan_lines(start, end, capturing, Seq::empty(), starts + rest) == scan_lines(
            start,
            end,
            true,
            Seq::empty(),
            rest,
        ),
    decreases starts.len(),
{
    assert((starts + rest)[0] == starts[0]);
    assert((starts + rest).drop_first() =~= starts.drop_first() + rest);
    if starts.len() > 1 {
        assert forall|k: int| 0 <= k < starts.drop_first().len() implies contains(
            #[trigger] starts.drop_first()[k],
            start,
        ) by {
            assert(starts.drop_first()[k] == starts[k + 1]);
        }
        lemma_scan_starts(start, end, true, starts.drop_first(), rest);
    } else {
        assert(starts.drop_first() + rest =~= rest);
    }
}

/// The output of a command is exactly what the session printed between the
/// markers: whatever came before (unmarked), the lines that hold the start
/// marker (the echo of the sent line and the marker itself), the output
/// lines, and the end marker's line give the output lines joined by
/// newlines, with the status after the end marker.
pub proof fn lemma_marked_output_reads_back(
    start: Seq<char>,
    end: Seq<char>,
    before: Seq<Seq<char>>,
    starts: Seq<Seq<char>>,
    out: Seq<Seq<char>>,
    end_line: Seq<char>,
    after: Seq<Seq<char>>,
)
    requires
        forall|k: int| 0 <= k < before.len() ==> unmarked(#[trigger] before[k], start, end),
        starts.len() > 0,
        forall|k: int| 0 <= k < starts.len() ==> contains(#[trigger] starts[k], start),
        forall|k: int| 0 <= k < out.len() ==> unmarked(#[trigger] out[k], start, end),
        !contains(end_line, start),
        contains(end_line, end),
    ensures
        scan_lines(start, end, false, Seq::empty(), before + starts + out + seq![end_line] + after)
            == Some((join(out, seq!['\n']), exit_status(end_line, end))),
{
    let tail = seq![end_line] + after;
    let all = before + starts + out + seq![end_line] + after;
    assert(all =~= before + (starts + (out + tail)));
    lemma_scan_skips(start, end, false, Seq::empty(), before, starts + (out + tail));
    lemma_scan_starts(start, end, false, starts, out + tail);
    lemma_scan_captures(start, end, Seq::empty(), out, tail);
    assert(Seq::<Seq<char>>::empty() + out =~= out);
    assert(tail[0] == end_line);
    assert(scan_lines(start, end, true, out, tail) == Some((join(out, seq!['\n']), exit_status(end_line, end))));
}

/// The reading of one command's output.
pub struct OutputScan {
    start: String,
    end: String,
    capturing: bool,
    captured: Vec<String>,
}

impl OutputScan {
    pub closed spec fn start_marker(&self) -> Seq<char> {
        self.start@
    }

    pub closed spec fn end_marker(&self) -> Seq<char> {
        self.end@
    }

    /// Whether the start marker has been seen.
    pub closed spec fn capturing(&self) -> bool {
        self.capturing
    }

    /// The output lines so far.
    pub closed spec fn captured(&self) -> Seq<Seq<char>> {
        self.captured.deep_view()
    }

    /// Starts reading the output of the command sent between the markers.
    pub fn new(start: String, end: String) -> (res: Self)
        ensures
            res.start_marker() == start@,
            res.end_marker() == end@,
            !res.capturing(),
            res.captured() == Seq::<Seq<char>>::empty(),
    {
        let res = OutputScan { start, end, capturing: false, captured: Vec::new() };
        assert(res.captured() =~= Seq::<Seq<char>>::empty());
        res
    }

    /// Takes in one line that the session printed. A line with the start
    /// marker (the echo of the sent line too) starts the output; a line with
    /// the end marker finishes it, with the lines in between as its text and
    /// the status after the marker as its exit code; other lines after the
    /// start are output.
    pub fn feed_line(&mut self, line: &str) -> (res: Option<CommandOutput>)
        ensures
            final(self).start_marker() == old(self).start_marker(),
            final(self).end_marker() == old(self).end_marker(),
            forall|rest: Seq<Seq<char>>|
                scan_lines(
                    old(self).start_marker(),
                    old(self).end_marker(),
                    old(self).capturing(),
                    old(self).captured(),
                    #[trigger] seq![line@].add(rest),
                ) == match res {
                    Some(o) => Some((o.stdout@, o.exit_code)),
                    None => scan_lines(
                        final(self).start_marker(),
                        final(self).end_marker(),
                        final(self).capturing(),
                        final(self).captured(),
                        rest,
                    ),
                },
            if contains(line@, old(self).start_marker()) {
                &&& res is None
                &&& final(self).capturing()
                &&& final(self).captured() == old(self).captured()
            } else if contains(line@, old(self).end_marker()) {
                res matches Some(o) && {
                    &&& o.stdout@ == join(old(self).captured(), seq!['\n'])
                    &&& o.stderr@ == Seq::<char>::empty()
                    &&& o.exit_code == exit_status(line@, old(self).end_marker())
                }
            } else {
                &&& res is None
                &&& final(self).capturing() == old(self).capturing()
                &&& final(self).captured() == if old(self).capturing() {
                    old(self).captured().push(line@)
                } else {
                    old(self).captured()
                }
            },
    {
        proof {
            assert forall|rest: Seq<Seq<char>>|
                (#[trigger] seq![line@].add(rest)).drop_first() =~= rest && seq![line@].add(
                    rest,
                )[0] == line@ by {}
        }
        let lc = chars_of(line);
        if contains_str(&lc, self.start.as_str()) {
            self.capturing = true;
            return None;
        }
        if contains_str(&lc, self.end.as_str()) {
            let ec = chars_of(self.end.as_str());
            let mut exit_code: i32 = 0;
            if starts_with_chars(&lc, &ec) {
                let after = crate::text::slice_chars(&lc, ec.len(), lc.len());
                assert(after@ =~= lc@.skip(ec@.len() as int));
                let t = trim_of(&after);
                match parse_i32_of(&t) {
                    Some(v) => {
                        exit_code = v;
                    },
                    None => {},
                }
            }
            let mut parts: Vec<Vec<char>> = Vec::new();
            let mut i: usize = 0;
            while i < self.captured.len()
                invariant
                    i <= self.captured@.len(),
                    vviews(parts@) == self.captured().take(i as int),
                decreases self.captured@.len() - i,
            {
                let ghost before = vviews(parts@);
                parts.push(chars_of(self.captured[i].as_str()));
                assert(vviews(parts@) =~= before.push(self.captured()[i as int]));
                assert(self.captured().take(i as int + 1) =~= self.captured().take(i as int).push(
                    self.captured()[i as int],
                ));
                i = i + 1;
            }
            assert(self.captured().take(self.captured@.len() as int) =~= self.captured());
            let mut nl: Vec<char> = Vec::new();
            nl.push('\n');
            assert(nl@ =~= seq!['\n']);
            let text = crate::text::join_from(&parts, 0, &nl);
            assert(vviews(parts@).skip(0) =~= vviews(parts@));
            return Some(
                CommandOutput { stdout: string_of(&text), stderr: String::new(), exit_code },
            );
        }
        if self.capturing {
            let ghost before = self.captured();
            self.captured.push(String::from_str(line));
            assert(self.captured() =~= before.push(line@));
        }
        None
    }
}

// ---------------------------------------------------------------------------
// Signing in
// ---------------------------------------------------------------------------

/// Whether the session has printed Duo's prompt for a passcode or option.
pub fn duo_prompt_seen(text: &str) -> (b: bool)
    ensures
        b == contains(text@, "Passcode or option"@),
{
    let c = chars_of(text);
    contains_str(&c, "Passcode or option")
}

/// Whether to send the next readiness probe: once five seconds have passed
/// since answering Duo, or, where Duo never asked, three seconds since the
/// start; and three seconds since the last probe.
pub open spec fn probe_due_spec(duo_answered_ms: Option<u64>, since_start_ms: u64, since_probe_ms: u64) -> bool {
    (match duo_answered_ms {
        Some(d) => d > 5000,
        None => since_start_ms > 3000,
    }) && since_probe_ms > 3000
}

/// Whether to send the next readiness probe (see `probe_due_spec`).
pub fn probe_due(duo_answered_ms: Option<u64>, since_start_ms: u64, since_probe_ms: u64) -> (b: bool)
    ensures
        b == probe_due_spec(duo_answered_ms, since_start_ms, since_probe_ms),
{
    let waited = match duo_answered_ms {
        Some(d) => d > 5000,
        None => since_start_ms > 3000,
    };
    waited && since_probe_ms > 3000
}

/// The probe: the shell echoes the marker followed by its process id, which
/// a local echo of the typed line cannot show.
pub fn probe_line(marker: &str) -> (res: String)
    ensures
        res@ == "echo "@ + marker@ + "$$\n"@,
{
    let mut v: Vec<char> = Vec::new();
    push_str(&mut v, "echo ");
    push_str(&mut v, marker);
    push_str(&mut v, "$$\n");
    string_of(&v)
}

/// The arguments of the `ssh` that holds the session: a terminal even
/// without one here, new host keys accepted, keep-alives every minute.
pub open spec fn session_args(user: Seq<char>, host: Seq<char>) -> Seq<Seq<char>> {
    seq![
        "-tt"@,
        "-o"@,
        "StrictHostKeyChecking=accept-new"@,
        "-o"@,
        "ServerAliveInterval=60"@,
        "-o"@,
        "ServerAliveCountMax=3"@,
        user + "@"@ + host,
    ]
}

/// The arguments of the `ssh` that holds the session.
pub fn ssh_session_args(user: &str, host: &str) -> (res: Vec<String>)
    ensures
        res.deep_view() == session_args(user@, host@),
{
    let mut dest: Vec<char> = Vec::new();
    push_str(&mut dest, user);
    push_str(&mut dest, "@");
    push_str(&mut dest, host);
    let mut res: Vec<String> = Vec::new();
    res.push(String::from_str("-tt"));
    res.push(String::from_str("-o"));
    res.push(String::from_str("StrictHostKeyChecking=accept-new"));
    res.push(String::from_str("-o"));
    res.push(String::from_str("ServerAliveInterval=60"));
    res.push(String::from_str("-o"));
    res.push(String::from_str("ServerAliveCountMax=3"));
    res.push(string_of(&dest));
    assert(res.deep_view() =~= session_args(user@, host@));
    res
}

// ---------------------------------------------------------------------------
// Waiting for the shell after signing in
// ---------------------------------------------------------------------------

/// Whether the text holds the shell's answer to the probe: the marker
/// followed by its process id.
pub uninterp spec fn ready_match(marker: Seq<char>, text: Seq<char>) -> bool;

/// `regex::Regex::new` on `regex::escape(marker)` followed by `\d+`, then
/// `is_match` on the text: whether the text holds the marker followed by
/// digits. Named, not described, as `\d` is Unicode's class of decimal
/// digits; stated is only that a match holds the marker. Where the pattern
/// does not compile, there is no match.
#[verifier::external_body]
fn ready_seen(marker: &str, text: &str) -> (b: bool)
    ensures
        b == ready_match(marker@, text@),
        b ==> contains(text@, marker@),
{
    match regex::Regex::new(&format!(r"{}\d+", regex::escape(marker))) {
        Ok(re) => re.is_match(text),
        Err(_) => false,
    }
}

/// The text with whole characters dropped from its front until at least `n`
/// bytes of UTF-8 are gone: the rest starts at the first character boundary
/// at or after byte `n`.
pub open spec fn skip_bytes(s: Seq<char>, n: int) -> Seq<char>
    decreases s.len(),
{
    if n <= 0 || s.len() == 0 {
        s
    } else {
        skip_bytes(s.drop_first(), n - utf8_len(s[0]))
    }
}

/// What is kept of the session's output while waiting: once it passes 4000
/// bytes of UTF-8, the text from the first character boundary at or after
/// 2000 bytes before its end.
pub open spec fn keep_tail(s: Seq<char>) -> Seq<char> {
    if byte_len(s) > 4000 {
        skip_bytes(s, byte_len(s) - 2000)
    } else {
        s
    }
}

/// The number of UTF-8 bytes of a text.
fn byte_len_of(v: &Vec<char>) -> (n: u128)
    ensures
        n == byte_len(v@),
        n <= 4 * v@.len(),
{
    let mut total: u128 = 0;
    let mut i: usize = 0;
    while i < v.len()
        invariant
            i <= v@.len(),
            total == byte_len(v@.take(i as int)),
            total <= 4 * i,
        decreases v@.len() - i,
    {
        proof {
            lemma_byte_len_take(v@, i as int);
        }
        total = total + crate::commands::git::utf8_len_of(v[i]) as u128;
        i = i + 1;
    }
    assert(v@.take(v@.len() as int) =~= v@);
    total
}

/// `keep_tail`, computed.
fn kept_tail(all: Vec<char>) -> (res: Vec<char>)
    ensures
        res@ == keep_tail(all@),
{
    let total = byte_len_of(&all);
    if total <= 4000 {
        return all;
    }
    let cut: u128 = total - 2000;
    let n = all.len();
    let mut i: usize = 0;
    let mut dropped: u128 = 0;
    assert(all@.skip(0) =~= all@);
    while i < n && dropped < cut
        invariant
            n == all@.len(),
            i <= n,
            dropped <= cut,
            cut <= 4 * n,
            skip_bytes(all@, cut as int) == skip_bytes(all@.skip(i as int), cut - dropped),
        decreases n - i,
    {
        let ghost rest = all@.skip(i as int);
        assert(rest.drop_first() =~= all@.skip(i as int + 1));
        assert(rest[0] == all@[i as int]);
        let b = crate::commands::git::utf8_len_of(all[i]) as u128;
        assert(skip_bytes(rest, cut - dropped) == skip_bytes(rest.drop_first(), cut - dropped - b));
        let ghost before = dropped;
        if dropped + b >= cut {
            dropped = cut;
        } else {
            dropped = dropped + b;
        }
        assert(skip_bytes(rest.drop_first(), cut - before - b) == skip_bytes(
            rest.drop_first(),
            cut - dropped,
        ));
        i = i + 1;
    }
    slice_chars(&all, i, n)
}

/// Whether Duo has asked for a passcode or option.
pub open spec fn duo_prompt(text: Seq<char>) -> bool {
    contains(text, "Passcode or option"@)
}

/// How long to wait for the shell, in milliseconds.
pub open spec fn auth_limit_ms() -> int {
    120_000
}

/// Whether the wait for the shell has run out.
pub fn auth_timed_out(elapsed_ms: u64) -> (b: bool)
    ensures
        b == (elapsed_ms > auth_limit_ms()),
{
    elapsed_ms > 120_000
}

/// What to do after a piece of output: answer Duo with a push, stop because
/// the shell answered, or stop because the wait ran out.
pub struct AuthStep {
    pub answer_duo: bool,
    pub ready: bool,
    pub timed_out: bool,
}

/// The wait for the shell after signing in: the tail of the output, whether
/// Duo was answered, whether a probe was sent, and the probe's marker.
pub struct AuthWait {
    tail: Vec<char>,
    duo_requested: bool,
    probe_sent: bool,
    marker: String,
}

impl AuthWait {
    pub closed spec fn tail(&self) -> Seq<char> {
        self.tail@
    }

    pub closed spec fn duo_requested(&self) -> bool {
        self.duo_requested
    }

    pub closed spec fn probe_sent(&self) -> bool {
        self.probe_sent
    }

    pub closed spec fn marker(&self) -> Seq<char> {
        self.marker@
    }

    /// A wait that has seen nothing yet, for the probe with this marker.
    pub fn new(marker: String) -> (res: Self)
        ensures
            res.tail() == Seq::<char>::empty(),
            !res.duo_requested(),
            !res.probe_sent(),
            res.marker() == marker@,
    {
        AuthWait { tail: Vec::new(), duo_requested: false, probe_sent: false, marker }
    }

    /// The probe to send (see `probe_line`).
    pub fn probe(&self) -> (res: String)
        ensures
            res@ == "echo "@ + self.marker() + "$$\n"@,
    {
        probe_line(self.marker.as_str())
    }

    /// Notes that a probe has gone out.
    pub fn note_probe_sent(&mut self)
        ensures
            final(self).probe_sent(),
            final(self).tail() == old(self).tail(),
            final(self).duo_requested() == old(self).duo_requested(),
            final(self).marker() == old(self).marker(),
    {
        self.probe_sent = true;
    }

    /// Takes the next piece of output: Duo is answered once, the first time
    /// its prompt shows in the tail; the shell is ready once a probe has gone
    /// out and the tail holds its answer; the wait runs out after two
    /// minutes.
    pub fn feed(&mut self, chunk: &str, elapsed_ms: u64) -> (res: AuthStep)
        ensures
            final(self).tail() == keep_tail(old(self).tail() + chunk@),
            res.answer_duo == (!old(self).duo_requested() && duo_prompt(final(self).tail())),
            final(self).duo_requested() == (old(self).duo_requested() || res.answer_duo),
            res.ready == (old(self).probe_sent() && ready_match(
                final(self).marker(),
                final(self).tail(),
            )),
            res.timed_out == (elapsed_ms > auth_limit_ms()),
            final(self).probe_sent() == old(self).probe_sent(),
            final(self).marker() == old(self).marker(),
    {
        let c = chars_of(chunk);
        let mut joined: Vec<char> = Vec::new();
        crate::text::push_chars(&mut joined, self.tail.as_slice());
        crate::text::push_chars(&mut joined, c.as_slice());
        let ghost all = old(self).tail() + chunk@;
        assert(joined@ =~= all);
        self.tail = kept_tail(joined);
        let answer_duo = !self.duo_requested && contains_str(self.tail.as_slice(), "Passcode or option");
        if answer_duo {
            self.duo_requested = true;
        }
        let ready = if self.probe_sent {
            let text = string_of(self.tail.as_slice());
            ready_seen(self.marker.as_str(), text.as_str())
        } else {
            false
        };
        AuthStep { answer_duo, ready, timed_out: auth_timed_out(elapsed_ms) }
    }
}

} // verus!

