//! File-system commands: requests, responses, and the parsing of `ls` and
//! `grep` output.
use crate::text::{
    join, join_from, lines, lines_of, parse_bounded, parse_unsigned, push_chars, split_once,
    split_once_of, splitn3, splitn3_of, starts_with, starts_with_str, string_of, tokens, tokens_of,
    trim, trim_of, vviews,
};
use vstd::prelude::*;

verus! {

/// Flags for ls command - type-safe, no arbitrary flags
#[derive(Debug, Clone, Copy, PartialEq, Eq, Structural)]
pub enum LsFlag {
    Long,  // -l
    All,  // -a (include hidden)
    Human,  // -h (human-readable sizes)
    Recursive,  // -R
    SortByTime,  // -t
    SortBySize,  // -S
}

/// The option that an `ls` flag stands for.
pub open spec fn ls_flag_arg(f: LsFlag) -> Seq<char> {
    match f {
        LsFlag::Long => "-l"@,
        LsFlag::All => "-a"@,
        LsFlag::Human => "-h"@,
        LsFlag::Recursive => "-R"@,
        LsFlag::SortByTime => "-t"@,
        LsFlag::SortBySize => "-S"@,
    }
}

impl LsFlag {
    pub fn to_arg(&self) -> (res: &'static str)
        ensures
            res@ == ls_flag_arg(*self),
    {
        match self {
            LsFlag::Long => "-l",
            LsFlag::All => "-a",
            LsFlag::Human => "-h",
            LsFlag::Recursive => "-R",
            LsFlag::SortByTime => "-t",
            LsFlag::SortBySize => "-S",
        }
    }
}

/// Request for ls command
#[derive(Debug)]
pub struct LsRequest {
    pub path: String,
    pub flags: Vec<LsFlag>,
}

/// Response from ls command
#[derive(Debug, Clone)]
pub struct LsResponse {
    pub entries: Vec<DirEntry>,
    pub path: String,
    pub duration_ms: u64,
}

/// Directory entry
#[derive(Debug, Clone)]
pub struct DirEntry {
    pub name: String,
    pub entry_type: EntryType,
    pub size: Option<u64>,
    pub modified: Option<String>,
    pub permissions: Option<String>,
}

#[derive(Debug, Clone, Copy, PartialEq, Eq, Structural)]
pub enum EntryType {
    File,
    Directory,
    Symlink,
    Other,
}

/// A directory entry, as values.
pub struct DirEntryView {
    pub name: Seq<char>,
    pub entry_type: EntryType,
    pub size: Option<u64>,
    pub modified: Option<Seq<char>>,
    pub permissions: Option<Seq<char>>,
}

impl View for DirEntry {
    type V = DirEntryView;

    open spec fn view(&self) -> DirEntryView {
        DirEntryView {
            name: self.name@,
            entry_type: self.entry_type,
            size: self.size,
            modified: self.modified.deep_view(),
            permissions: self.permissions.deep_view(),
        }
    }
}

/// The number that `str::parse::<u64>` reads, if any.
pub open spec fn parse_u64_spec(s: Seq<char>) -> Option<u64> {
    match parse_unsigned(s, u64::MAX as nat) {
        Some(v) => Some(v as u64),
        None => None,
    }
}

/// The number that `str::parse::<usize>` reads, if any.
pub open spec fn parse_usize_spec(s: Seq<char>) -> Option<usize> {
    match parse_unsigned(s, usize::MAX as nat) {
        Some(v) => Some(v as usize),
        None => None,
    }
}

pub fn parse_u64_of(s: &[char]) -> (res: Option<u64>)
    ensures
        res == parse_u64_spec(s@),
{
    parse_bounded(s, u64::MAX)
}

pub fn parse_usize_of(s: &[char]) -> (res: Option<usize>)
    ensures
        res == parse_usize_spec(s@),
{
    match parse_bounded(s, usize::MAX as u64) {
        Some(v) => Some(v as usize),
        None => None,
    }
}

/// The kind of entry that the first character of a permission string shows.
pub open spec fn entry_type_of(perms: Seq<char>) -> EntryType {
    if perms.len() > 0 && perms[0] == 'd' {
        EntryType::Directory
    } else if perms.len() > 0 && perms[0] == 'l' {
        EntryType::Symlink
    } else if perms.len() > 0 && perms[0] == '-' {
        EntryType::File
    } else {
        EntryType::Other
    }
}

/// The entry that one line of `ls` output gives: blank lines and the `total`
/// line give none; in long format the line needs at least nine fields.
pub open spec fn ls_entry(raw: Seq<char>, long_format: bool) -> Option<DirEntryView> {
    let line = trim(raw);
    if line.len() == 0 || starts_with(line, "total"@) {
        None
    } else if long_format {
        let parts = tokens(line);
        if parts.len() >= 9 {
            Some(
                DirEntryView {
                    name: join(parts.skip(8), " "@),
                    entry_type: entry_type_of(parts[0]),
                    size: parse_u64_spec(parts[4]),
                    modified: Some(parts[5] + " "@ + parts[6] + " "@ + parts[7]),
                    permissions: Some(parts[0]),
                },
            )
        } else {
            None
        }
    } else {
        Some(
            DirEntryView {
                name: line,
                entry_type: EntryType::Other,
                size: None,
                modified: None,
                permissions: None,
            },
        )
    }
}

/// The entries of the given lines, in order.
pub open spec fn ls_entries(ls: Seq<Seq<char>>, long_format: bool) -> Seq<DirEntryView>
    decreases ls.len(),
{
    if ls.len() == 0 {
        Seq::empty()
    } else {
        let r = ls_entries(ls.drop_last(), long_format);
        match ls_entry(ls.last(), long_format) {
            Some(e) => r.push(e),
            None => r,
        }
    }
}

pub open spec fn entry_views(v: Seq<DirEntry>) -> Seq<DirEntryView> {
    v.map_values(|e: DirEntry| e@)
}

fn ls_entry_of(raw: &Vec<char>, long_format: bool) -> (res: Option<DirEntry>)
    ensures
        match res {
            Some(e) => ls_entry(raw@, long_format) == Some(e@),
            None => ls_entry(raw@, long_format) is None,
        },
{
    let line = trim_of(raw);
    if line.len() == 0 || starts_with_str(&line, "total") {
        return None;
    }
    if long_format {
        let parts = tokens_of(&line);
        let ghost ps = vviews(parts@);
        if parts.len() >= 9 {
            let perms = &parts[0];
            let entry_type = if perms.len() > 0 && perms[0] == 'd' {
                EntryType::Directory
            } else if perms.len() > 0 && perms[0] == 'l' {
                EntryType::Symlink
            } else if perms.len() > 0 && perms[0] == '-' {
                EntryType::File
            } else {
                EntryType::Other
            };
            assert(perms@ == ps[0]);
            let size = parse_u64_of(&parts[4]);
            assert(parts@[4]@ == ps[4]);
            let name = join_from(&parts, 8, &[' ']);
            let mut modified: Vec<char> = Vec::new();
            push_chars(&mut modified, &parts[5]);
            modified.push(' ');
            push_chars(&mut modified, &parts[6]);
            modified.push(' ');
            push_chars(&mut modified, &parts[7]);
            assert(parts@[5]@ == ps[5] && parts@[6]@ == ps[6] && parts@[7]@ == ps[7]);
            assert(modified@ =~= ps[5] + " "@ + ps[6] + " "@ + ps[7]) by {
                reveal_strlit(" ");
            }
            assert([' ']@ =~= " "@) by {
                reveal_strlit(" ");
            }
            Some(
                DirEntry {
                    name: string_of(&name),
                    entry_type,
                    size,
                    modified: Some(string_of(&modified)),
                    permissions: Some(string_of(perms)),
                },
            )
        } else {
            None
        }
    } else {
        Some(
            DirEntry {
                name: string_of(&line),
                entry_type: EntryType::Other,
                size: None,
                modified: None,
                permissions: None,
            },
        )
    }
}

/// Parse ls output into structured entries
pub fn parse_ls_output(output: &str, long_format: bool) -> (res: Vec<DirEntry>)
    ensures
        entry_views(res@) == ls_entries(lines(output@), long_format),
{
    let chars = crate::text::chars_of(output);
    let ls = lines_of(&chars);
    let ghost lv = vviews(ls@);
    let mut entries: Vec<DirEntry> = Vec::new();
    let mut i: usize = 0;
    while i < ls.len()
        invariant
            lv == vviews(ls@),
            lv == lines(output@),
            i <= ls@.len(),
            entry_views(entries@) == ls_entries(lv.take(i as int), long_format),
        decreases ls@.len() - i,
    {
        assert(lv.take(i as int + 1).drop_last() =~= lv.take(i as int));
        assert(ls@[i as int]@ == lv[i as int]);
        let ghost before = entry_views(entries@);
        match ls_entry_of(&ls[i], long_format) {
            Some(e) => {
                entries.push(e);
                assert(entry_views(entries@) =~= before.push(entries@.last()@));
            },
            None => {},
        }
        i = i + 1;
    }
    assert(lv.take(ls@.len() as int) =~= lv);
    entries
}

/// Flags for cat command
#[derive(Debug, Clone, Copy, PartialEq, Eq, Structural)]
pub enum CatFlag {
    NumberLines,  // -n
}

/// Request for cat command
#[derive(Debug)]
pub struct CatRequest {
    pub path: String,
    pub flags: Vec<CatFlag>,
    pub head: Option<usize>,  // Only return first N lines
    pub tail: Option<usize>,  // Only return last N lines
    pub offset: Option<usize>,  // Start from line N
    pub limit: Option<usize>,  // Number of lines to return
}

/// Response from cat command
#[derive(Debug, Clone)]
pub struct CatResponse {
    pub content: String,
    pub path: String,
    pub total_lines: usize,
    pub truncated: bool,
    pub duration_ms: u64,
}

/// Flags for grep command
#[derive(Debug, Clone, Copy, PartialEq, Eq, Structural)]
pub enum GrepFlag {
    IgnoreCase,  // -i
    Recursive,  // -r
    LineNumbers,  // -n
    FilesWithMatches,  // -l
    Count,  // -c
    InvertMatch,  // -v
    WholeWord,  // -w
}

/// The option that a `grep` flag stands for.
pub open spec fn grep_flag_arg(f: GrepFlag) -> Seq<char> {
    match f {
        GrepFlag::IgnoreCase => "-i"@,
        GrepFlag::Recursive => "-r"@,
        GrepFlag::LineNumbers => "-n"@,
        GrepFlag::FilesWithMatches => "-l"@,
        GrepFlag::Count => "-c"@,
        GrepFlag::InvertMatch => "-v"@,
        GrepFlag::WholeWord => "-w"@,
    }
}

impl GrepFlag {
    pub fn to_arg(&self) -> (res: &'static str)
        ensures
            res@ == grep_flag_arg(*self),
    {
        match self {
            GrepFlag::IgnoreCase => "-i",
            GrepFlag::Recursive => "-r",
            GrepFlag::LineNumbers => "-n",
            GrepFlag::FilesWithMatches => "-l",
            GrepFlag::Count => "-c",
            GrepFlag::InvertMatch => "-v",
            GrepFlag::WholeWord => "-w",
        }
    }
}

/// Request for grep command
#[derive(Debug)]
pub struct GrepRequest {
    pub pattern: String,
    pub paths: Vec<String>,
    pub flags: Vec<GrepFlag>,
}

/// Response from grep command
#[derive(Debug, Clone)]
pub struct GrepResponse {
    pub matches: Vec<GrepMatch>,
    pub total_matches: usize,
    pub files_searched: usize,
    pub duration_ms: u64,
}

/// A single grep match
#[derive(Debug, Clone)]
pub struct GrepMatch {
    pub file: String,
    pub line_number: Option<usize>,
    pub content: String,
}

/// A grep match, as values.
pub struct GrepMatchView {
    pub file: Seq<char>,
    pub line_number: Option<usize>,
    pub content: Seq<char>,
}

impl View for GrepMatch {
    type V = GrepMatchView;

    open spec fn view(&self) -> GrepMatchView {
        GrepMatchView { file: self.file@, line_number: self.line_number, content: self.content@ }
    }
}

/// The match that one line of `grep` output gives. With line numbers the line
/// reads `file:line:content`; without, `file:content` or just the content.
pub open spec fn grep_match(line: Seq<char>, with_line_numbers: bool) -> Option<GrepMatchView> {
    if line.len() == 0 {
        None
    } else if with_line_numbers {
        let parts = splitn3(line, ':');
        if parts.len() >= 3 {
            Some(
                GrepMatchView {
                    file: parts[0],
                    line_number: parse_usize_spec(parts[1]),
                    content: parts[2],
                },
            )
        } else if parts.len() == 2 {
            Some(GrepMatchView { file: parts[0], line_number: None, content: parts[1] })
        } else {
            None
        }
    } else {
        match split_once(line, ':') {
            Some((file, content)) => Some(GrepMatchView { file, line_number: None, content }),
            None => Some(GrepMatchView { file: Seq::empty(), line_number: None, content: line }),
        }
    }
}

/// The matches of the given lines, in order.
pub open spec fn grep_matches(ls: Seq<Seq<char>>, with_line_numbers: bool) -> Seq<GrepMatchView>
    decreases ls.len(),
{
    if ls.len() == 0 {
        Seq::empty()
    } else {
        let r = grep_matches(ls.drop_last(), with_line_numbers);
        match grep_match(ls.last(), with_line_numbers) {
            Some(m) => r.push(m),
            None => r,
        }
    }
}

pub open spec fn match_views(v: Seq<GrepMatch>) -> Seq<GrepMatchView> {
    v.map_values(|m: GrepMatch| m@)
}

fn grep_match_of(line: &Vec<char>, with_line_numbers: bool) -> (res: Option<GrepMatch>)
    ensures
        match res {
            Some(m) => grep_match(line@, with_line_numbers) == Some(m@),
            None => grep_match(line@, with_line_numbers) is None,
        },
{
    if line.len() == 0 {
        return None;
    }
    if with_line_numbers {
        let parts = splitn3_of(line, ':');
        let ghost ps = vviews(parts@);
        if parts.len() >= 3 {
            assert(parts@[0]@ == ps[0] && parts@[1]@ == ps[1] && parts@[2]@ == ps[2]);
            Some(
                GrepMatch {
                    file: string_of(&parts[0]),
                    line_number: parse_usize_of(&parts[1]),
                    content: string_of(&parts[2]),
                },
            )
        } else if parts.len() == 2 {
            assert(parts@[0]@ == ps[0] && parts@[1]@ == ps[1]);
            Some(
                GrepMatch {
                    file: string_of(&parts[0]),
                    line_number: None,
                    content: string_of(&parts[1]),
                },
            )
        } else {
            None
        }
    } else {
        match split_once_of(line, ':') {
            Some((file, content)) => Some(
                GrepMatch { file: string_of(&file), line_number: None, content: string_of(&content) },
            ),
            None => Some(GrepMatch { file: String::new(), line_number: None, content: string_of(line) }),
        }
    }
}

/// Parse grep output into structured matches
pub fn parse_grep_output(output: &str, with_line_numbers: bool) -> (res: Vec<GrepMatch>)
    ensures
        match_views(res@) == grep_matches(lines(output@), with_line_numbers),
{
    let chars = crate::text::chars_of(output);
    let ls = lines_of(&chars);
    let ghost lv = vviews(ls@);
    let mut matches: Vec<GrepMatch> = Vec::new();
    let mut i: usize = 0;
    while i < ls.len()
        invariant
            lv == vviews(ls@),
            lv == lines(output@),
            i <= ls@.len(),
            match_views(matches@) == grep_matches(lv.take(i as int), with_line_numbers),
        decreases ls@.len() - i,
    {
        assert(lv.take(i as int + 1).drop_last() =~= lv.take(i as int));
        assert(ls@[i as int]@ == lv[i as int]);
        let ghost before = match_views(matches@);
        match grep_match_of(&ls[i], with_line_numbers) {
            Some(m) => {
                matches.push(m);
                assert(match_views(matches@) =~= before.push(matches@.last()@));
            },
            None => {},
        }
        i = i + 1;
    }
    assert(lv.take(ls@.len() as int) =~= lv);
    matches
}

/// Maximum file size for download (1 MB)
pub const MAX_DOWNLOAD_SIZE: u64 = 1048576;

/// Request for download command
#[derive(Debug)]
pub struct DownloadRequest {
    pub path: String,
}

/// Response from download command
#[derive(Debug, Clone)]
pub struct DownloadResponse {
    pub path: String,
    pub content: String,  // base64-encoded
    pub size_bytes: u64,
    pub duration_ms: u64,
}

/// Error when file is too large for download
#[derive(Debug, Clone)]
pub struct DownloadTooLargeError {
    pub path: String,
    pub size_bytes: u64,
    pub max_bytes: u64,
    pub scp_command: String,
}

/// A refused download, as values.
pub struct DownloadTooLargeErrorView {
    pub path: Seq<char>,
    pub size_bytes: u64,
    pub max_bytes: u64,
    pub scp_command: Seq<char>,
}

impl View for DownloadTooLargeError {
    type V = DownloadTooLargeErrorView;

    open spec fn view(&self) -> DownloadTooLargeErrorView {
        DownloadTooLargeErrorView {
            path: self.path@,
            size_bytes: self.size_bytes,
            max_bytes: self.max_bytes,
            scp_command: self.scp_command@,
        }
    }
}

/// Flags for find command
#[derive(Debug, Clone, Copy, PartialEq, Eq, Structural)]
pub enum FindType {
    File,  // -type f
    Directory,  // -type d
    Symlink,  // -type l
}

/// The letter that `find -type` takes for a file type.
pub open spec fn find_type_arg(t: FindType) -> Seq<char> {
    match t {
        FindType::File => "f"@,
        FindType::Directory => "d"@,
        FindType::Symlink => "l"@,
    }
}

impl FindType {
    pub fn to_arg(&self) -> (res: &'static str)
        ensures
            res@ == find_type_arg(*self),
    {
        match self {
            FindType::File => "f",
            FindType::Directory => "d",
            FindType::Symlink => "l",
        }
    }
}

/// Request for find command
#[derive(Debug)]
pub struct FindRequest {
    pub path: String,
    /// Name pattern (e.g., "*.py")
    pub name: Option<String>,
    /// File type filter
    pub file_type: Option<FindType>,
    /// Max depth to search
    pub max_depth: Option<u32>,
    /// Max results to return
    pub limit: usize,
}

/// The result limit of `find` when the request names none.
pub fn default_find_limit() -> (n: usize)
    ensures
        n == 1000,
{
    1000
}

/// Response from find command
#[derive(Debug, Clone)]
pub struct FindResponse {
    pub files: Vec<String>,
    pub total_found: usize,
    pub truncated: bool,
    pub duration_ms: u64,
}

/// Request for wc command
#[derive(Debug)]
pub struct WcRequest {
    pub path: String,
    /// Count lines only (-l)
    pub lines_only: bool,
    /// Count words only (-w)
    pub words_only: bool,
    /// Count bytes only (-c)
    pub bytes_only: bool,
}

/// Response from wc command
#[derive(Debug, Clone)]
pub struct WcResponse {
    pub path: String,
    pub lines: Option<u64>,
    pub words: Option<u64>,
    pub bytes: Option<u64>,
    pub duration_ms: u64,
}

/// Request for head command
#[derive(Debug)]
pub struct HeadRequest {
    pub path: String,
    /// Number of lines (default 10)
    pub lines: usize,
}

/// The number of lines of `head` when the request names none.
pub fn default_head_lines() -> (n: usize)
    ensures
        n == 10,
{
    10
}

/// Response from head command
#[derive(Debug, Clone)]
pub struct HeadResponse {
    pub path: String,
    pub content: String,
    pub lines_returned: usize,
    pub duration_ms: u64,
}

// ---------------------------------------------------------------------------
// Laws of the options
// ---------------------------------------------------------------------------

/// Each `grep` flag reaches `grep` as the option that grep documents for it,
/// and no two flags share an option: `-i` ignores case, `-r` recurses, `-n`
/// numbers lines, `-l` lists files with matches, `-c` counts, `-v` inverts
/// the match, `-w` matches whole words.
pub proof fn lemma_grep_flag_options(f: GrepFlag, g: GrepFlag)
    ensures
        grep_flag_arg(GrepFlag::IgnoreCase) == seq!['-', 'i'],
        grep_flag_arg(GrepFlag::Recursive) == seq!['-', 'r'],
        grep_flag_arg(GrepFlag::LineNumbers) == seq!['-', 'n'],
        grep_flag_arg(GrepFlag::FilesWithMatches) == seq!['-', 'l'],
        grep_flag_arg(GrepFlag::Count) == seq!['-', 'c'],
        grep_flag_arg(GrepFlag::InvertMatch) == seq!['-', 'v'],
        grep_flag_arg(GrepFlag::WholeWord) == seq!['-', 'w'],
        f != g ==> grep_flag_arg(f) != grep_flag_arg(g),
{
    reveal_strlit("-i");
    reveal_strlit("-r");
    reveal_strlit("-n");
    reveal_strlit("-l");
    reveal_strlit("-c");
    reveal_strlit("-v");
    reveal_strlit("-w");
    assert(grep_flag_arg(f)[1] != grep_flag_arg(g)[1] || f == g);
}

/// Each `ls` flag reaches `ls` as the option that ls documents for it, and
/// no two flags share an option: `-l` long, `-a` all, `-h` human sizes, `-R`
/// recursive, `-t` by time, `-S` by size.
pub proof fn lemma_ls_flag_options(f: LsFlag, g: LsFlag)
    ensures
        ls_flag_arg(LsFlag::Long) == seq!['-', 'l'],
        ls_flag_arg(LsFlag::All) == seq!['-', 'a'],
        ls_flag_arg(LsFlag::Human) == seq!['-', 'h'],
        ls_flag_arg(LsFlag::Recursive) == seq!['-', 'R'],
        ls_flag_arg(LsFlag::SortByTime) == seq!['-', 't'],
        ls_flag_arg(LsFlag::SortBySize) == seq!['-', 'S'],
        f != g ==> ls_flag_arg(f) != ls_flag_arg(g),
{
    reveal_strlit("-l");
    reveal_strlit("-a");
    reveal_strlit("-h");
    reveal_strlit("-R");
    reveal_strlit("-t");
    reveal_strlit("-S");
    assert(ls_flag_arg(f)[1] != ls_flag_arg(g)[1] || f == g);
}

/// Each `find` type reaches `find -type` as its letter: `f` files, `d`
/// directories, `l` symbolic links.
pub proof fn lemma_find_type_letters(t: FindType, u: FindType)
    ensures
        find_type_arg(FindType::File) == seq!['f'],
        find_type_arg(FindType::Directory) == seq!['d'],
        find_type_arg(FindType::Symlink) == seq!['l'],
        t != u ==> find_type_arg(t) != find_type_arg(u),
{
    reveal_strlit("f");
    reveal_strlit("d");
    reveal_strlit("l");
    assert(find_type_arg(t)[0] != find_type_arg(u)[0] || t == u);
}

pub proof fn lemma_split_once_at(a: Seq<char>, c: char, b: Seq<char>)
    requires
        !crate::text::has_char(a, c),
    ensures
        split_once(a + seq![c] + b, c) == Some((a, b)),
{
    let s = a + seq![c] + b;
    crate::text::lemma_first_index(s, c);
    assert(s[a.len() as int] == c);
    assert(crate::text::has_char(s, c));
    let i = crate::text::first_index(s, c);
    if i < a.len() {
        assert(s[i] == a[i]);
        assert(crate::text::has_char(a, c));
    }
    assert(i == a.len());
    assert(s.take(i) =~= a);
    assert(s.skip(i + 1) =~= b);
}

/// A line of `grep -n` output, `file:number:content`, reads back as its
/// match, with the number as the line number and the content whole (colons
/// and all); without `-n`, `file:content` reads back as file and content.
pub proof fn lemma_grep_match_reads_back(file: Seq<char>, num: Seq<char>, content: Seq<char>)
    requires
        !crate::text::has_char(file, ':'),
        num.len() > 0,
        crate::text::all_digits(num),
        crate::text::digits_value(num) <= usize::MAX,
    ensures
        grep_match(file + seq![':'] + num + seq![':'] + content, true) == Some(
            GrepMatchView {
                file,
                line_number: Some(crate::text::digits_value(num) as usize),
                content,
            },
        ),
        grep_match(file + seq![':'] + content, false) == Some(
            GrepMatchView { file, line_number: None, content },
        ),
{
    let rest = num + seq![':'] + content;
    assert(file + seq![':'] + num + seq![':'] + content =~= file + seq![':'] + rest);
    lemma_split_once_at(file, ':', rest);
    assert(!crate::text::has_char(num, ':')) by {
        if crate::text::has_char(num, ':') {
            let k = choose|k: int| 0 <= k < num.len() && num[k] == ':';
            assert(crate::text::is_digit(num[k]));
        }
    }
    lemma_split_once_at(num, ':', content);
    assert(num[0] != '+') by {
        assert(crate::text::is_digit(num[0]));
    }
    assert(parse_usize_spec(num) == Some(crate::text::digits_value(num) as usize));
    lemma_split_once_at(file, ':', content);
}

/// A line of `ls -l` output reads back as its entry: the permissions from
/// the first column, the size from the fifth, the date from the sixth to
/// eighth, and the name from the rest, joined by spaces; a first column
/// starting with `d`, `l` or `-` makes a directory, a link or a file.
pub proof fn lemma_ls_long_entry(ts: Seq<Seq<char>>)
    requires
        ts.len() >= 9,
        forall|k: int|
            0 <= k < ts.len() ==> (#[trigger] ts[k]).len() > 0 && crate::text::no_match(
                ts[k],
                crate::text::ws_pred(),
            ),
        ts[0][0] != 't',
    ensures
        ls_entry(join(ts, seq![' ']), true) matches Some(e) && {
            &&& e.name == join(ts.skip(8), seq![' '])
            &&& e.permissions == Some(ts[0])
            &&& e.size == parse_u64_spec(ts[4])
            &&& e.modified == Some(ts[5] + seq![' '] + ts[6] + seq![' '] + ts[7])
            &&& (ts[0][0] == 'd' ==> e.entry_type == EntryType::Directory)
            &&& (ts[0][0] == 'l' ==> e.entry_type == EntryType::Symlink)
            &&& (ts[0][0] == '-' ==> e.entry_type == EntryType::File)
        },
{
    let line = join(ts, seq![' ']);
    let p = crate::text::ws_pred();
    assert(p(' '));
    crate::commands::slurm::lemma_split_of_join(ts, ' ', p);
    crate::commands::slurm::lemma_nonempty_pieces_all(ts);
    crate::shell::lemma_join_first(ts, seq![' ']);
    assert(line[0] == ts[0][0]);
    let d = ts.drop_last();
    assert(line == join(d, seq![' ']) + seq![' '] + ts.last());
    assert(line.last() == ts.last().last());
    assert(crate::text::no_match(ts[0], p));
    assert(!crate::text::is_ws(ts[0][0]));
    assert(crate::text::no_match(ts.last(), p));
    assert(!crate::text::is_ws(ts.last()[ts.last().len() - 1]));
    crate::commands::slurm::lemma_bare_trimmed(line);
    reveal_strlit("total");
    assert(!starts_with(line, "total"@)) by {
        if starts_with(line, "total"@) {
            assert(line.take(5)[0] == line[0]);
            assert("total"@[0] == 't');
        }
    }
    reveal_strlit(" ");
    assert(" "@ =~= seq![' ']);
}

} // verus!


