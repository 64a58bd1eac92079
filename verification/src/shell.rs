//! Shell quoting: each argument travels inside single quotes, with every
//! single quote in it written as `'"'"'`.
use crate::text::{chars_of, join, string_of};
use vstd::prelude::*;

verus! {

/// How one character of an argument is written inside single quotes.
pub open spec fn escape_char(c: char) -> Seq<char> {
    if c == '\'' {
        seq!['\'', '"', '\'', '"', '\'']
    } else {
        seq![c]
    }
}

/// An argument with each single quote written as `'"'"'`.
pub open spec fn escape_quotes(a: Seq<char>) -> Seq<char>
    decreases a.len(),
{
    if a.len() == 0 {
        Seq::empty()
    } else {
        escape_char(a[0]) + escape_quotes(a.drop_first())
    }
}

/// An argument in single quotes.
pub open spec fn single_quoted(a: Seq<char>) -> Seq<char> {
    seq!['\''] + escape_quotes(a) + seq!['\'']
}

pub proof fn lemma_escape_push(a: Seq<char>, c: char)
    ensures
        escape_quotes(a.push(c)) == escape_quotes(a) + escape_char(c),
    decreases a.len(),
{
    if a.len() == 0 {
        assert(a.push(c).drop_first() =~= Seq::<char>::empty());
        assert(a.push(c)[0] == c);
        assert(escape_quotes(Seq::<char>::empty()) == Seq::<char>::empty());
        assert(escape_quotes(a) == Seq::<char>::empty());
        assert(escape_char(c) + Seq::<char>::empty() =~= escape_char(c));
        assert(escape_quotes(a.push(c)) =~= escape_char(c));
        assert(escape_quotes(a) + escape_char(c) =~= escape_char(c));
    } else {
        assert(a.push(c).drop_first() =~= a.drop_first().push(c));
        lemma_escape_push(a.drop_first(), c);
        assert(escape_quotes(a.push(c)) =~= escape_quotes(a) + escape_char(c));
    }
}

/// Appends an argument with its single quotes escaped.
pub fn push_escaped(out: &mut Vec<char>, a: &[char])
    ensures
        final(out)@ == old(out)@ + escape_quotes(a@),
{
    let ghost start = out@;
    let mut i: usize = 0;
    assert(a@.take(0) =~= Seq::<char>::empty());
    while i < a.len()
        invariant
            i <= a@.len(),
            out@ == start + escape_quotes(a@.take(i as int)),
        decreases a@.len() - i,
    {
        let c = a[i];
        let ghost before = out@;
        if c == '\'' {
            out.push('\'');
            out.push('"');
            out.push('\'');
            out.push('"');
            out.push('\'');
        } else {
            out.push(c);
        }
        proof {
            assert(out@ =~= before + escape_char(c));
            assert(a@.take(i as int + 1) =~= a@.take(i as int).push(c));
            lemma_escape_push(a@.take(i as int), c);
        }
        i = i + 1;
    }
    assert(a@.take(a@.len() as int) =~= a@);
}

/// Appends an argument in single quotes.
pub fn push_single_quoted(out: &mut Vec<char>, a: &[char])
    ensures
        final(out)@ == old(out)@ + single_quoted(a@),
{
    let ghost start = out@;
    out.push('\'');
    push_escaped(out, a);
    out.push('\'');
    assert(out@ =~= start + single_quoted(a@));
}

/// Where a POSIX shell is while it reads a word: outside quotes, inside
/// single quotes, or inside double quotes.
pub enum QuoteState {
    Bare,
    Single,
    Double,
}

/// The characters that a POSIX shell takes from a word written only with
/// plain characters, single quotes and double quotes without backslashes,
/// `$` or backquotes; `None` where the word leaves a quote open or uses
/// what this reading does not cover.
pub open spec fn shell_word_from(st: QuoteState, s: Seq<char>) -> Option<Seq<char>>
    decreases s.len(),
{
    if s.len() == 0 {
        match st {
            QuoteState::Bare => Some(Seq::empty()),
            _ => None,
        }
    } else {
        let c = s[0];
        let rest = s.drop_first();
        match st {
            QuoteState::Bare => if c == '\'' {
                shell_word_from(QuoteState::Single, rest)
            } else if c == '"' {
                shell_word_from(QuoteState::Double, rest)
            } else if is_shell_special(c) {
                None
            } else {
                match shell_word_from(QuoteState::Bare, rest) {
                    Some(w) => Some(seq![c] + w),
                    None => None,
                }
            },
            QuoteState::Single => if c == '\'' {
                shell_word_from(QuoteState::Bare, rest)
            } else {
                match shell_word_from(QuoteState::Single, rest) {
                    Some(w) => Some(seq![c] + w),
                    None => None,
                }
            },
            QuoteState::Double => if c == '"' {
                shell_word_from(QuoteState::Bare, rest)
            } else if c == '\\' || c == '$' || c == '`' {
                None
            } else {
                match shell_word_from(QuoteState::Double, rest) {
                    Some(w) => Some(seq![c] + w),
                    None => None,
                }
            },
        }
    }
}

/// Characters that end or change a bare word in a POSIX shell.
pub open spec fn is_shell_special(c: char) -> bool {
    c == ' ' || c == '\t' || c == '\n' || c == '\\' || c == '$' || c == '`' || c == ';' || c
        == '&' || c == '|' || c == '<' || c == '>' || c == '(' || c == ')' || c == '*' || c == '?'
        || c == '[' || c == '#' || c == '~' || c == '=' || c == '%' || c == '{' || c == '}'
}

/// The word that a POSIX shell reads.
pub open spec fn shell_word(s: Seq<char>) -> Option<Seq<char>> {
    shell_word_from(QuoteState::Bare, s)
}

proof fn lemma_unquote_escaped(a: Seq<char>, rest: Seq<char>)
    ensures
        shell_word_from(QuoteState::Single, escape_quotes(a) + rest) == match shell_word_from(
            QuoteState::Single,
            rest,
        ) {
            Some(w) => Some(a + w),
            None => None::<Seq<char>>,
        },
    decreases a.len(),
{
    if a.len() == 0 {
        assert(escape_quotes(a) + rest =~= rest);
        match shell_word_from(QuoteState::Single, rest) {
            Some(w) => assert(a + w =~= w),
            None => {},
        }
    } else {
        let c = a[0];
        let a1 = a.drop_first();
        lemma_unquote_escaped(a1, rest);
        let tail = escape_quotes(a1) + rest;
        assert(escape_quotes(a) + rest =~= escape_char(c) + tail);
        if c == '\'' {
            // '  "  '  "  '  : close, a double-quoted quote, reopen
            let s0 = escape_char(c) + tail;
            assert(s0.drop_first() =~= seq!['"', '\'', '"', '\''] + tail);
            let s1 = seq!['"', '\'', '"', '\''] + tail;
            assert(s1.drop_first() =~= seq!['\'', '"', '\''] + tail);
            let s2 = seq!['\'', '"', '\''] + tail;
            assert(s2.drop_first() =~= seq!['"', '\''] + tail);
            let s3 = seq!['"', '\''] + tail;
            assert(s3.drop_first() =~= seq!['\''] + tail);
            let s4 = seq!['\''] + tail;
            assert(s4.drop_first() =~= tail);
            assert(shell_word_from(QuoteState::Single, s0) == shell_word_from(QuoteState::Bare, s1));
            assert(shell_word_from(QuoteState::Bare, s1) == shell_word_from(QuoteState::Double, s2));
            assert(shell_word_from(QuoteState::Double, s3) == shell_word_from(QuoteState::Bare, s4));
            assert(shell_word_from(QuoteState::Bare, s4) == shell_word_from(QuoteState::Single, tail));
            match shell_word_from(QuoteState::Single, tail) {
                Some(w) => {
                    assert(shell_word_from(QuoteState::Double, s3) == Some(w));
                    assert(shell_word_from(QuoteState::Double, s2) == Some(seq!['\''] + w));
                    assert(seq!['\''] + (a1 + w) =~= a + w);
                },
                None => {},
            }
        } else {
            let s0 = seq![c] + tail;
            assert(s0.drop_first() =~= tail);
            match shell_word_from(QuoteState::Single, rest) {
                Some(w) => {
                    assert(seq![c] + (a1 + w) =~= a + w);
                },
                None => {},
            }
        }
    }
}

/// A POSIX shell reads back exactly the argument from its single-quoted form.
pub proof fn lemma_single_quoted_reads_back(a: Seq<char>)
    ensures
        shell_word(single_quoted(a)) == Some(a),
{
    let q = single_quoted(a);
    assert(q.drop_first() =~= escape_quotes(a) + seq!['\'']);
    lemma_unquote_escaped(a, seq!['\'']);
    let close = seq!['\''];
    assert(close.drop_first() =~= Seq::<char>::empty());
    assert(close[0] == '\'');
    assert(shell_word_from(QuoteState::Bare, Seq::<char>::empty()) == Some(Seq::<char>::empty()));
    assert(shell_word_from(QuoteState::Single, close) == Some(Seq::<char>::empty()));
    assert(a + Seq::<char>::empty() =~= a);
}

// ---------------------------------------------------------------------------
// Arguments that need no quotes
// ---------------------------------------------------------------------------

/// Characters that a POSIX shell takes literally in a bare word.
pub open spec fn is_plain_char(c: char) -> bool {
    ||| ('a' <= c && c <= 'z')
    ||| ('A' <= c && c <= 'Z')
    ||| ('0' <= c && c <= '9')
    ||| c == '_'
    ||| c == '-'
    ||| c == '.'
    ||| c == ','
    ||| c == ':'
    ||| c == '/'
    ||| c == '@'
    ||| c == '+'
}

pub open spec fn all_plain(a: Seq<char>) -> bool {
    forall|i: int| 0 <= i < a.len() ==> is_plain_char(#[trigger] a[i])
}

/// An argument as one shell word: as it is where it is non-empty and plain,
/// else in single quotes.
pub open spec fn quote_arg(a: Seq<char>) -> Seq<char> {
    if a.len() > 0 && all_plain(a) {
        a
    } else {
        single_quoted(a)
    }
}

proof fn lemma_plain_reads_back(a: Seq<char>)
    requires
        all_plain(a),
    ensures
        shell_word(a) == Some(a),
    decreases a.len(),
{
    if a.len() > 0 {
        let rest = a.drop_first();
        assert(is_plain_char(a[0]));
        assert forall|i: int| 0 <= i < rest.len() implies is_plain_char(#[trigger] rest[i]) by {
            assert(rest[i] == a[i + 1]);
        }
        lemma_plain_reads_back(rest);
        assert(seq![a[0]] + rest =~= a);
    } else {
        assert(a =~= Seq::<char>::empty());
    }
}

/// A POSIX shell reads back exactly the argument from `quote_arg`.
pub proof fn lemma_quote_arg_reads_back(a: Seq<char>)
    ensures
        shell_word(quote_arg(a)) == Some(a),
{
    if a.len() > 0 && all_plain(a) {
        lemma_plain_reads_back(a);
    } else {
        lemma_single_quoted_reads_back(a);
    }
}

fn plain_chars(a: &[char]) -> (b: bool)
    ensures
        b == all_plain(a@),
{
    let mut i: usize = 0;
    while i < a.len()
        invariant
            i <= a@.len(),
            forall|k: int| 0 <= k < i ==> is_plain_char(#[trigger] a@[k]),
        decreases a@.len() - i,
    {
        let c = a[i];
        let plain = ('a' <= c && c <= 'z') || ('A' <= c && c <= 'Z') || ('0' <= c && c <= '9')
            || c == '_' || c == '-' || c == '.' || c == ',' || c == ':' || c == '/' || c == '@'
            || c == '+';
        if !plain {
            return false;
        }
        i = i + 1;
    }
    true
}

/// Appends an argument as one shell word (see `quote_arg`).
pub fn push_quoted_arg(out: &mut Vec<char>, a: &[char])
    ensures
        final(out)@ == old(out)@ + quote_arg(a@),
{
    if a.len() > 0 && plain_chars(a) {
        crate::text::push_chars(out, a);
    } else {
        push_single_quoted(out, a);
    }
}

// ---------------------------------------------------------------------------
// Command lines
// ---------------------------------------------------------------------------

/// Each argument in single quotes.
pub open spec fn quoted_args(args: Seq<Seq<char>>) -> Seq<Seq<char>> {
    args.map_values(|a: Seq<char>| single_quoted(a))
}

/// The line that runs `program` with the arguments: the program, a space,
/// and the arguments in single quotes, separated by spaces.
pub open spec fn command_with_args(program: Seq<char>, args: Seq<Seq<char>>) -> Seq<char> {
    program + seq![' '] + join(quoted_args(args), seq![' '])
}

/// Builds the command line that runs `program` with each argument in single
/// quotes, so that the remote shell passes every argument on unchanged.
pub fn build_command_with_args(program: &str, args: &Vec<String>) -> (res: String)
    ensures
        res@ == command_with_args(program@, args.deep_view()),
{
    let mut out = chars_of(program);
    out.push(' ');
    let ghost head = out@;
    let ghost a = args.deep_view();
    let mut i: usize = 0;
    assert(quoted_args(a.take(0)) =~= Seq::<Seq<char>>::empty());
    while i < args.len()
        invariant
            i <= args@.len(),
            a == args.deep_view(),
            head == program@ + seq![' '],
            out@ == head + join(quoted_args(a.take(i as int)), seq![' ']),
        decreases args@.len() - i,
    {
        let ghost before = out@;
        if i > 0 {
            out.push(' ');
        }
        let arg = chars_of(args[i].as_str());
        push_single_quoted(&mut out, &arg);
        proof {
            let q = quoted_args(a.take(i as int + 1));
            assert(a[i as int] == args@[i as int]@);
            assert(q.drop_last() =~= quoted_args(a.take(i as int)));
            assert(q.last() == single_quoted(a[i as int]));
            if i == 0 {
                assert(q.len() == 1);
                assert(out@ =~= head + join(q, seq![' ']));
            } else {
                assert(out@ =~= head + join(q, seq![' ']));
            }
        }
        i = i + 1;
    }
    assert(a.take(args@.len() as int) =~= a);
    string_of(&out)
}

// ---------------------------------------------------------------------------
// Reading a command line back
// ---------------------------------------------------------------------------

/// The words that a POSIX shell reads from a simple command line whose words
/// are separated by single spaces, written with plain characters, single
/// quotes and double quotes without backslashes, `$` or backquotes; `cur` is
/// the word read so far. `None` where the line leaves a quote open or uses
/// what this reading does not cover.
pub open spec fn words_from(st: QuoteState, cur: Seq<char>, s: Seq<char>) -> Option<
    Seq<Seq<char>>,
>
    decreases s.len(),
{
    if s.len() == 0 {
        match st {
            QuoteState::Bare => Some(seq![cur]),
            _ => None,
        }
    } else {
        let c = s[0];
        let rest = s.drop_first();
        match st {
            QuoteState::Bare => if c == ' ' {
                match words_from(QuoteState::Bare, Seq::empty(), rest) {
                    Some(ws) => Some(seq![cur] + ws),
                    None => None,
                }
            } else if c == '\'' {
                words_from(QuoteState::Single, cur, rest)
            } else if c == '"' {
                words_from(QuoteState::Double, cur, rest)
            } else if is_shell_special(c) {
                None
            } else {
                words_from(QuoteState::Bare, cur.push(c), rest)
            },
            QuoteState::Single => if c == '\'' {
                words_from(QuoteState::Bare, cur, rest)
            } else {
                words_from(QuoteState::Single, cur.push(c), rest)
            },
            QuoteState::Double => if c == '"' {
                words_from(QuoteState::Bare, cur, rest)
            } else if c == '\\' || c == '$' || c == '`' {
                None
            } else {
                words_from(QuoteState::Double, cur.push(c), rest)
            },
        }
    }
}

/// The words of a command line (see `words_from`).
pub open spec fn line_words(s: Seq<char>) -> Option<Seq<Seq<char>>> {
    words_from(QuoteState::Bare, Seq::empty(), s)
}

proof fn lemma_words_escaped(a: Seq<char>, cur: Seq<char>, rest: Seq<char>)
    ensures
        words_from(QuoteState::Single, cur, escape_quotes(a) + rest) == words_from(
            QuoteState::Single,
            cur + a,
            rest,
        ),
    decreases a.len(),
{
    if a.len() == 0 {
        assert(escape_quotes(a) + rest =~= rest);
        assert(cur + a =~= cur);
    } else {
        let c = a[0];
        let a1 = a.drop_first();
        let tail = escape_quotes(a1) + rest;
        assert(escape_quotes(a) + rest =~= escape_char(c) + tail);
        if c == '\'' {
            let s0 = escape_char(c) + tail;
            let s1 = seq!['"', '\'', '"', '\''] + tail;
            let s2 = seq!['\'', '"', '\''] + tail;
            let s3 = seq!['"', '\''] + tail;
            let s4 = seq!['\''] + tail;
            assert(s0.drop_first() =~= s1);
            assert(s1.drop_first() =~= s2);
            assert(s2.drop_first() =~= s3);
            assert(s3.drop_first() =~= s4);
            assert(s4.drop_first() =~= tail);
            assert(words_from(QuoteState::Single, cur, s0) == words_from(QuoteState::Bare, cur, s1));
            assert(words_from(QuoteState::Bare, cur, s1) == words_from(QuoteState::Double, cur, s2));
            assert(words_from(QuoteState::Double, cur, s2) == words_from(
                QuoteState::Double,
                cur.push('\''),
                s3,
            ));
            assert(words_from(QuoteState::Double, cur.push('\''), s3) == words_from(
                QuoteState::Bare,
                cur.push('\''),
                s4,
            ));
            assert(words_from(QuoteState::Bare, cur.push('\''), s4) == words_from(
                QuoteState::Single,
                cur.push('\''),
                tail,
            ));
            lemma_words_escaped(a1, cur.push('\''), rest);
            assert(cur.push('\'') + a1 =~= cur + a);
        } else {
            let s0 = seq![c] + tail;
            assert(s0.drop_first() =~= tail);
            lemma_words_escaped(a1, cur.push(c), rest);
            assert(cur.push(c) + a1 =~= cur + a);
        }
    }
}

proof fn lemma_words_quoted(a: Seq<char>, cur: Seq<char>, rest: Seq<char>)
    ensures
        words_from(QuoteState::Bare, cur, single_quoted(a) + rest) == words_from(
            QuoteState::Bare,
            cur + a,
            rest,
        ),
{
    let s0 = single_quoted(a) + rest;
    let close = seq!['\''] + rest;
    assert(s0.drop_first() =~= escape_quotes(a) + close);
    lemma_words_escaped(a, cur, close);
    assert(close.drop_first() =~= rest);
}

proof fn lemma_words_plain(a: Seq<char>, cur: Seq<char>, rest: Seq<char>)
    requires
        all_plain(a),
    ensures
        words_from(QuoteState::Bare, cur, a + rest) == words_from(QuoteState::Bare, cur + a, rest),
    decreases a.len(),
{
    if a.len() == 0 {
        assert(a + rest =~= rest);
        assert(cur + a =~= cur);
    } else {
        let a1 = a.drop_first();
        assert(is_plain_char(a[0]));
        assert forall|i: int| 0 <= i < a1.len() implies is_plain_char(#[trigger] a1[i]) by {
            assert(a1[i] == a[i + 1]);
        }
        assert((a + rest).drop_first() =~= a1 + rest);
        lemma_words_plain(a1, cur.push(a[0]), rest);
        assert(cur.push(a[0]) + a1 =~= cur + a);
    }
}

/// `join` seen from the front.
pub proof fn lemma_join_first(ps: Seq<Seq<char>>, sep: Seq<char>)
    requires
        ps.len() >= 2,
    ensures
        join(ps, sep) == ps[0] + sep + join(ps.drop_first(), sep),
    decreases ps.len(),
{
    if ps.len() == 2 {
        assert(ps.drop_last().len() == 1);
        assert(ps.drop_first().len() == 1);
        assert(join(ps.drop_last(), sep) == ps[0]);
        assert(join(ps.drop_first(), sep) == ps[1]);
        assert(join(ps, sep) == join(ps.drop_last(), sep) + sep + ps.last());
    } else {
        lemma_join_first(ps.drop_last(), sep);
        assert(ps.drop_last().drop_first() =~= ps.drop_first().drop_last());
        assert(ps.drop_first().last() == ps.last());
        assert(ps.drop_last()[0] == ps[0]);
        assert(join(ps, sep) == join(ps.drop_last(), sep) + sep + ps.last());
        assert(join(ps.drop_first(), sep) == join(ps.drop_first().drop_last(), sep) + sep
            + ps.drop_first().last());
        assert(join(ps, sep) =~= ps[0] + sep + join(ps.drop_first(), sep));
    }
}

proof fn lemma_words_args(args: Seq<Seq<char>>)
    requires
        args.len() >= 1,
    ensures
        line_words(join(quoted_args(args), seq![' '])) == Some(args),
    decreases args.len(),
{
    let q = quoted_args(args);
    if args.len() == 1 {
        assert(join(q, seq![' ']) == single_quoted(args[0]));
        assert(single_quoted(args[0]) + Seq::<char>::empty() =~= single_quoted(args[0]));
        lemma_words_quoted(args[0], Seq::empty(), Seq::empty());
        assert(Seq::<char>::empty() + args[0] =~= args[0]);
        assert(seq![args[0]] =~= args);
    } else {
        lemma_join_first(q, seq![' ']);
        let rest = args.drop_first();
        assert(q.drop_first() =~= quoted_args(rest));
        let j = join(quoted_args(rest), seq![' ']);
        lemma_words_args(rest);
        assert(q[0] + seq![' '] + j =~= single_quoted(args[0]) + (seq![' '] + j));
        lemma_words_quoted(args[0], Seq::empty(), seq![' '] + j);
        assert(Seq::<char>::empty() + args[0] =~= args[0]);
        assert((seq![' '] + j).drop_first() =~= j);
        assert(seq![args[0]] + rest =~= args);
    }
}

/// The line that `build_command_with_args` writes reads back, word for word,
/// as the program followed by exactly the arguments: no argument can split,
/// merge or reach the shell as anything but text.
pub proof fn lemma_command_with_args_words(program: Seq<char>, args: Seq<Seq<char>>)
    requires
        program.len() > 0,
        all_plain(program),
        args.len() >= 1,
    ensures
        line_words(command_with_args(program, args)) == Some(seq![program] + args),
{
    let j = join(quoted_args(args), seq![' ']);
    assert(command_with_args(program, args) =~= program + (seq![' '] + j));
    lemma_words_plain(program, Seq::empty(), seq![' '] + j);
    assert(Seq::<char>::empty() + program =~= program);
    assert((seq![' '] + j).drop_first() =~= j);
    lemma_words_args(args);
}

/// How a word stands on a command line for an argument: as it is, where it
/// is non-empty and plain, or in single quotes.
pub open spec fn shell_form(w: Seq<char>, a: Seq<char>) -> bool {
    (a.len() > 0 && all_plain(a) && w == a) || w == single_quoted(a)
}

proof fn lemma_words_form(w: Seq<char>, a: Seq<char>, rest: Seq<char>)
    requires
        shell_form(w, a),
    ensures
        words_from(QuoteState::Bare, Seq::empty(), w + rest) == words_from(QuoteState::Bare, a, rest),
{
    if w == single_quoted(a) {
        lemma_words_quoted(a, Seq::empty(), rest);
    } else {
        lemma_words_plain(a, Seq::empty(), rest);
    }
    assert(Seq::<char>::empty() + a =~= a);
}

/// Words that stand for the arguments, joined by single spaces, read back
/// as exactly the arguments.
pub proof fn lemma_words_forms(ws: Seq<Seq<char>>, args: Seq<Seq<char>>)
    requires
        ws.len() == args.len(),
        args.len() >= 1,
        forall|k: int| 0 <= k < ws.len() ==> shell_form(#[trigger] ws[k], args[k]),
    ensures
        line_words(join(ws, seq![' '])) == Some(args),
    decreases args.len(),
{
    assert(shell_form(ws[0], args[0]));
    if args.len() == 1 {
        assert(join(ws, seq![' ']) == ws[0]);
        assert(ws[0] + Seq::<char>::empty() =~= ws[0]);
        lemma_words_form(ws[0], args[0], Seq::empty());
        assert(seq![args[0]] =~= args);
    } else {
        lemma_join_first(ws, seq![' ']);
        let wr = ws.drop_first();
        let ar = args.drop_first();
        assert forall|k: int| 0 <= k < wr.len() implies shell_form(#[trigger] wr[k], ar[k]) by {
            assert(wr[k] == ws[k + 1] && ar[k] == args[k + 1]);
        }
        lemma_words_forms(wr, ar);
        let j = join(wr, seq![' ']);
        assert(ws[0] + seq![' '] + j =~= ws[0] + (seq![' '] + j));
        lemma_words_form(ws[0], args[0], seq![' '] + j);
        assert((seq![' '] + j).drop_first() =~= j);
        assert(seq![args[0]] + ar =~= args);
    }
}

/// A program followed by words that stand for the arguments reads back as
/// the program and exactly the arguments.
pub proof fn lemma_line_words(program: Seq<char>, ws: Seq<Seq<char>>, args: Seq<Seq<char>>)
    requires
        program.len() > 0,
        all_plain(program),
        ws.len() == args.len(),
        args.len() >= 1,
        forall|k: int| 0 <= k < ws.len() ==> shell_form(#[trigger] ws[k], args[k]),
    ensures
        line_words(program + seq![' '] + join(ws, seq![' '])) == Some(seq![program] + args),
{
    let j = join(ws, seq![' ']);
    assert(program + seq![' '] + j =~= program + (seq![' '] + j));
    lemma_words_plain(program, Seq::empty(), seq![' '] + j);
    assert(Seq::<char>::empty() + program =~= program);
    assert((seq![' '] + j).drop_first() =~= j);
    lemma_words_forms(ws, args);
}

/// Each argument as one shell word (see `quote_arg`).
pub open spec fn quote_args(args: Seq<Seq<char>>) -> Seq<Seq<char>> {
    args.map_values(|a: Seq<char>| quote_arg(a))
}

/// The line that runs `program` with the arguments, each written as one
/// shell word, separated by single spaces.
pub open spec fn quoted_command(program: Seq<char>, args: Seq<Seq<char>>) -> Seq<char> {
    program + seq![' '] + join(quote_args(args), seq![' '])
}

/// Builds the line that runs `program` with the arguments, each as one
/// shell word.
pub fn build_quoted_command(program: &str, args: &Vec<String>) -> (res: String)
    ensures
        res@ == quoted_command(program@, args.deep_view()),
{
    let mut out = chars_of(program);
    out.push(' ');
    let ghost head = out@;
    let ghost a = args.deep_view();
    let mut i: usize = 0;
    assert(quote_args(a.take(0)) =~= Seq::<Seq<char>>::empty());
    while i < args.len()
        invariant
            i <= args@.len(),
            a == args.deep_view(),
            head == program@ + seq![' '],
            out@ == head + join(quote_args(a.take(i as int)), seq![' ']),
        decreases args@.len() - i,
    {
        if i > 0 {
            out.push(' ');
        }
        let arg = chars_of(args[i].as_str());
        push_quoted_arg(&mut out, &arg);
        proof {
            let q = quote_args(a.take(i as int + 1));
            assert(a[i as int] == args@[i as int]@);
            assert(q.drop_last() =~= quote_args(a.take(i as int)));
            assert(q.last() == quote_arg(a[i as int]));
            assert(out@ =~= head + join(q, seq![' ']));
        }
        i = i + 1;
    }
    assert(a.take(args@.len() as int) =~= a);
    string_of(&out)
}

/// The line that `build_quoted_command` writes reads back, word for word,
/// as the program followed by exactly the arguments.
pub proof fn lemma_quoted_command_words(program: Seq<char>, args: Seq<Seq<char>>)
    requires
        program.len() > 0,
        all_plain(program),
        args.len() >= 1,
    ensures
        line_words(quoted_command(program, args)) == Some(seq![program] + args),
{
    let ws = quote_args(args);
    assert forall|k: int| 0 <= k < ws.len() implies shell_form(#[trigger] ws[k], args[k]) by {
        assert(ws[k] == quote_arg(args[k]));
    }
    lemma_line_words(program, ws, args);
}

} // verus!
