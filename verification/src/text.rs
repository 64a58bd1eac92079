//! Character-level text handling: the line, field and number conventions of
//! the command outputs that the bridge reads, and the strings it builds.
use vstd::prelude::*;

verus! {

// ---------------------------------------------------------------------------
// Character classes
// ---------------------------------------------------------------------------

/// Unicode `White_Space`, the class that `char::is_whitespace` tests.
pub open spec fn is_ws(c: char) -> bool {
    ||| ('\u{9}' <= c && c <= '\u{d}')
    ||| c == ' '
    ||| c == '\u{85}'
    ||| c == '\u{a0}'
    ||| c == '\u{1680}'
    ||| ('\u{2000}' <= c && c <= '\u{200a}')
    ||| c == '\u{2028}'
    ||| c == '\u{2029}'
    ||| c == '\u{202f}'
    ||| c == '\u{205f}'
    ||| c == '\u{3000}'
}

pub fn is_whitespace(c: char) -> (b: bool)
    ensures
        b == is_ws(c),
{
    ('\u{9}' <= c && c <= '\u{d}') || c == ' ' || c == '\u{85}' || c == '\u{a0}' || c
        == '\u{1680}' || ('\u{2000}' <= c && c <= '\u{200a}') || c == '\u{2028}' || c
        == '\u{2029}' || c == '\u{202f}' || c == '\u{205f}' || c == '\u{3000}'
}

pub open spec fn ws_pred() -> spec_fn(char) -> bool {
    |c: char| is_ws(c)
}

pub open spec fn eq_pred(sep: char) -> spec_fn(char) -> bool {
    |c: char| c == sep
}

pub open spec fn is_digit(c: char) -> bool {
    '0' <= c && c <= '9'
}

pub open spec fn no_match(s: Seq<char>, p: spec_fn(char) -> bool) -> bool {
    forall|i: int| 0 <= i < s.len() ==> !p(#[trigger] s[i])
}

pub open spec fn has_char(s: Seq<char>, c: char) -> bool {
    exists|i: int| 0 <= i < s.len() && s[i] == c
}

// ---------------------------------------------------------------------------
// Splitting
// ---------------------------------------------------------------------------

/// The pieces of `s` between the characters that satisfy `p`, as `str::split`
/// gives them: always at least one piece, empty pieces kept.
pub open spec fn split_by(s: Seq<char>, p: spec_fn(char) -> bool) -> Seq<Seq<char>>
    decreases s.len(),
{
    if s.len() == 0 {
        seq![Seq::<char>::empty()]
    } else {
        let r = split_by(s.drop_first(), p);
        if p(s[0]) {
            seq![Seq::<char>::empty()] + r
        } else {
            r.update(0, seq![s[0]] + r[0])
        }
    }
}

/// `str::split` on one character.
pub open spec fn split_char(s: Seq<char>, sep: char) -> Seq<Seq<char>> {
    split_by(s, eq_pred(sep))
}

pub proof fn lemma_split_by_nonempty(s: Seq<char>, p: spec_fn(char) -> bool)
    ensures
        split_by(s, p).len() >= 1,
    decreases s.len(),
{
    if s.len() > 0 {
        lemma_split_by_nonempty(s.drop_first(), p);
    }
}

/// Splitting a text that starts with a run free of separators.
pub proof fn lemma_split_by_prefix(a: Seq<char>, b: Seq<char>, p: spec_fn(char) -> bool)
    requires
        no_match(a, p),
    ensures
        split_by(a + b, p) == split_by(b, p).update(0, a + split_by(b, p)[0]),
    decreases a.len(),
{
    lemma_split_by_nonempty(b, p);
    if a.len() == 0 {
        assert(a + b =~= b);
        assert(a + split_by(b, p)[0] =~= split_by(b, p)[0]);
        assert(split_by(b, p).update(0, split_by(b, p)[0]) =~= split_by(b, p));
    } else {
        let a1 = a.drop_first();
        assert((a + b).drop_first() =~= a1 + b);
        assert(!p(a[0]));
        lemma_split_by_prefix(a1, b, p);
        assert((a + b)[0] == a[0]);
        let r = split_by(a1 + b, p);
        assert(r == split_by(b, p).update(0, a1 + split_by(b, p)[0]));
        assert(seq![a[0]] + (a1 + split_by(b, p)[0]) =~= a + split_by(b, p)[0]);
        assert(r.update(0, seq![a[0]] + r[0]) =~= split_by(b, p).update(
            0,
            a + split_by(b, p)[0],
        ));
    }
}

/// Splitting at a separator.
pub proof fn lemma_split_by_at_sep(a: Seq<char>, c: char, b: Seq<char>, p: spec_fn(char) -> bool)
    requires
        no_match(a, p),
        p(c),
    ensures
        split_by(a + seq![c] + b, p) == seq![a] + split_by(b, p),
{
    lemma_split_by_nonempty(b, p);
    assert(a + seq![c] + b =~= a + (seq![c] + b));
    lemma_split_by_prefix(a, seq![c] + b, p);
    assert((seq![c] + b).drop_first() =~= b);
    assert((seq![c] + b)[0] == c);
    let r = split_by(seq![c] + b, p);
    assert(r == seq![Seq::<char>::empty()] + split_by(b, p));
    assert(a + r[0] =~= a);
    assert(r.update(0, a + r[0]) =~= seq![a] + split_by(b, p));
}

/// A text without separators is one piece.
pub proof fn lemma_split_by_none(a: Seq<char>, p: spec_fn(char) -> bool)
    requires
        no_match(a, p),
    ensures
        split_by(a, p) == seq![a],
{
    lemma_split_by_prefix(a, Seq::empty(), p);
    assert(a + Seq::<char>::empty() =~= a);
    assert(split_by(Seq::<char>::empty(), p) == seq![Seq::<char>::empty()]);
    assert(seq![Seq::<char>::empty()].update(0, a + Seq::<char>::empty()) =~= seq![a]);
}

/// No piece holds a separator.
pub proof fn lemma_split_by_pieces(s: Seq<char>, p: spec_fn(char) -> bool)
    ensures
        forall|k: int| 0 <= k < split_by(s, p).len() ==> no_match(#[trigger] split_by(s, p)[k], p),
    decreases s.len(),
{
    if s.len() > 0 {
        lemma_split_by_pieces(s.drop_first(), p);
        lemma_split_by_nonempty(s.drop_first(), p);
        let r = split_by(s.drop_first(), p);
        if !p(s[0]) {
            let h = seq![s[0]] + r[0];
            assert(no_match(r[0], p));
            assert forall|i: int| 0 <= i < h.len() implies !p(#[trigger] h[i]) by {
                if i > 0 {
                    assert(h[i] == r[0][i - 1]);
                }
            }
            assert forall|k: int| 0 <= k < split_by(s, p).len() implies no_match(
                #[trigger] split_by(s, p)[k],
                p,
            ) by {
                if k > 0 {
                    assert(split_by(s, p)[k] == r[k]);
                }
            }
        } else {
            assert forall|k: int| 0 <= k < split_by(s, p).len() implies no_match(
                #[trigger] split_by(s, p)[k],
                p,
            ) by {
                if k > 0 {
                    assert(split_by(s, p)[k] == r[k - 1]);
                }
            }
        }
    }
}

/// The characters of a string, in order.
pub fn chars_of(s: &str) -> (res: Vec<char>)
    ensures
        res@ == s@,
{
    let mut res: Vec<char> = Vec::new();
    for c in it: s.chars()
        invariant
            res@ == it.seq().take(it.index() as int),
            it.seq() == s@,
    {
        res.push(c);
    }
    res
}

/// `String::push`: appends one character.
#[verifier::external_body]
pub fn push_char(s: &mut String, c: char)
    ensures
        final(s)@ == old(s)@.push(c),
{
    s.push(c);
}

/// A string holding exactly the given characters.
pub fn string_of(v: &[char]) -> (res: String)
    ensures
        res@ == v@,
{
    let mut res = String::new();
    let mut i: usize = 0;
    while i < v.len()
        invariant
            i <= v@.len(),
            res@ == v@.take(i as int),
        decreases v@.len() - i,
    {
        push_char(&mut res, v[i]);
        i = i + 1;
        assert(res@ =~= v@.take(i as int));
    }
    assert(v@.take(v@.len() as int) =~= v@);
    res
}

/// A copy of a run of characters.
pub fn slice_chars(v: &[char], from: usize, to: usize) -> (res: Vec<char>)
    requires
        from <= to <= v@.len(),
    ensures
        res@ == v@.subrange(from as int, to as int),
{
    let mut res: Vec<char> = Vec::new();
    let mut i = from;
    while i < to
        invariant
            from <= i <= to <= v@.len(),
            res@ == v@.subrange(from as int, i as int),
        decreases to - i,
    {
        res.push(v[i]);
        i = i + 1;
        assert(res@ =~= v@.subrange(from as int, i as int));
    }
    res
}

pub open spec fn sep_pred(by_ws: bool, sep: char) -> spec_fn(char) -> bool {
    if by_ws {
        ws_pred()
    } else {
        eq_pred(sep)
    }
}

/// The views of a sequence of character vectors.
pub open spec fn vviews(v: Seq<Vec<char>>) -> Seq<Seq<char>> {
    v.map_values(|x: Vec<char>| x@)
}

fn split_general(s: &[char], by_ws: bool, sep: char) -> (res: Vec<Vec<char>>)
    ensures
        vviews(res@) == split_by(s@, sep_pred(by_ws, sep)),
{
    let ghost p = sep_pred(by_ws, sep);
    let mut pieces: Vec<Vec<char>> = Vec::new();
    let mut cur: Vec<char> = Vec::new();
    let mut i: usize = 0;
    proof {
        assert(cur@ + s@.skip(0) =~= s@);
        assert(vviews(pieces@) + split_by(s@, p) =~= split_by(s@, p));
    }
    while i < s.len()
        invariant
            p == sep_pred(by_ws, sep),
            i <= s@.len(),
            no_match(cur@, p),
            split_by(s@, p) == vviews(pieces@) + split_by(cur@ + s@.skip(i as int), p),
        decreases s@.len() - i,
    {
        let c = s[i];
        let ghost rest = s@.skip(i as int + 1);
        assert(s@.skip(i as int) =~= seq![c] + rest);
        let hit = if by_ws {
            is_whitespace(c)
        } else {
            c == sep
        };
        if hit {
            let ghost old_pieces = vviews(pieces@);
            proof {
                assert(cur@ + s@.skip(i as int) =~= cur@ + seq![c] + rest);
                lemma_split_by_at_sep(cur@, c, rest, p);
            }
            pieces.push(cur);
            cur = Vec::new();
            proof {
                assert(vviews(pieces@) =~= old_pieces.push(pieces@.last()@));
                assert(cur@ + rest =~= rest);
                assert(old_pieces + (seq![pieces@.last()@] + split_by(rest, p)) =~= vviews(pieces@)
                    + split_by(rest, p));
            }
        } else {
            let ghost old_cur = cur@;
            cur.push(c);
            proof {
                assert(cur@ + rest =~= old_cur + s@.skip(i as int));
                assert forall|j: int| 0 <= j < cur@.len() implies !p(#[trigger] cur@[j]) by {
                    if j < old_cur.len() {
                        assert(cur@[j] == old_cur[j]);
                    }
                }
            }
        }
        i = i + 1;
    }
    let ghost old_pieces = vviews(pieces@);
    proof {
        assert(s@.skip(i as int) =~= Seq::<char>::empty());
        assert(cur@ + s@.skip(i as int) =~= cur@);
        lemma_split_by_none(cur@, p);
    }
    pieces.push(cur);
    assert(vviews(pieces@) =~= old_pieces.push(pieces@.last()@));
    pieces
}

/// `str::split` on one character.
pub fn split_on(s: &[char], sep: char) -> (res: Vec<Vec<char>>)
    ensures
        vviews(res@) == split_char(s@, sep),
{
    split_general(s, false, sep)
}

// ---------------------------------------------------------------------------
// Lines, fields, trimming
// ---------------------------------------------------------------------------

pub open spec fn strip_cr(l: Seq<char>) -> Seq<char> {
    if l.len() > 0 && l.last() == '\r' {
        l.drop_last()
    } else {
        l
    }
}

/// `str::lines`: pieces ended by `\n` lose it and one `\r` before it; a final
/// piece without `\n` is kept as it is, unless it is empty.
pub open spec fn lines(s: Seq<char>) -> Seq<Seq<char>> {
    let ps = split_char(s, '\n');
    let init = ps.drop_last().map_values(|l: Seq<char>| strip_cr(l));
    if ps.last().len() == 0 {
        init
    } else {
        init.push(ps.last())
    }
}

/// The non-empty pieces, in order.
pub open spec fn nonempty_pieces(ps: Seq<Seq<char>>) -> Seq<Seq<char>>
    decreases ps.len(),
{
    if ps.len() == 0 {
        Seq::empty()
    } else {
        let r = nonempty_pieces(ps.drop_last());
        if ps.last().len() > 0 {
            r.push(ps.last())
        } else {
            r
        }
    }
}

/// `str::split_whitespace`.
pub open spec fn tokens(s: Seq<char>) -> Seq<Seq<char>> {
    nonempty_pieces(split_by(s, ws_pred()))
}

fn strip_cr_vec(l: Vec<char>) -> (res: Vec<char>)
    ensures
        res@ == strip_cr(l@),
{
    let mut l = l;
    if l.len() > 0 && l[l.len() - 1] == '\r' {
        l.pop();
    }
    l
}

/// `str::lines`.
pub fn lines_of(s: &[char]) -> (res: Vec<Vec<char>>)
    ensures
        vviews(res@) == lines(s@),
{
    let pieces = split_on(s, '\n');
    let ghost ps = split_char(s@, '\n');
    proof {
        lemma_split_by_nonempty(s@, eq_pred('\n'));
    }
    assert(pieces@.len() == ps.len());
    let n = pieces.len();
    let mut res: Vec<Vec<char>> = Vec::new();
    let mut pieces = pieces;
    let last = pieces.pop().unwrap();
    assert(last@ == ps.last()) by {
        assert(vviews(pieces@.push(last))[n - 1] == ps[n - 1]);
    }
    let mut i: usize = 0;
    while i < pieces.len()
        invariant
            pieces@.len() == n - 1,
            n == ps.len(),
            forall|k: int| 0 <= k < n - 1 ==> #[trigger] pieces@[k]@ == ps[k],
            i <= n - 1,
            vviews(res@) == ps.drop_last().take(i as int).map_values(|l: Seq<char>| strip_cr(l)),
        decreases n - 1 - i,
    {
        let ghost old_res = vviews(res@);
        let l = strip_cr_vec(pieces[i].clone());
        res.push(l);
        i = i + 1;
        assert(vviews(res@) =~= ps.drop_last().take(i as int).map_values(
            |l: Seq<char>| strip_cr(l),
        )) by {
            assert(vviews(res@) =~= old_res.push(res@.last()@));
        }
    }
    assert(ps.drop_last().take(n - 1) =~= ps.drop_last());
    if last.len() > 0 {
        let ghost old_res = vviews(res@);
        res.push(last);
        assert(vviews(res@) =~= old_res.push(ps.last()));
    }
    res
}

/// `str::split_whitespace`.
pub fn tokens_of(s: &[char]) -> (res: Vec<Vec<char>>)
    ensures
        vviews(res@) == tokens(s@),
{
    let pieces = split_general(s, true, ' ');
    let ghost ps = split_by(s@, ws_pred());
    let mut res: Vec<Vec<char>> = Vec::new();
    let mut i: usize = 0;
    while i < pieces.len()
        invariant
            vviews(pieces@) == ps,
            i <= pieces@.len(),
            vviews(res@) == nonempty_pieces(ps.take(i as int)),
        decreases pieces@.len() - i,
    {
        assert(ps.take(i as int + 1).drop_last() =~= ps.take(i as int));
        assert(pieces@[i as int]@ == ps[i as int]);
        if pieces[i].len() > 0 {
            let ghost old_res = vviews(res@);
            res.push(pieces[i].clone());
            assert(vviews(res@) =~= old_res.push(ps[i as int]));
        }
        i = i + 1;
    }
    assert(ps.take(pieces@.len() as int) =~= ps);
    res
}

pub open spec fn trim_start(s: Seq<char>) -> Seq<char>
    decreases s.len(),
{
    if s.len() > 0 && is_ws(s[0]) {
        trim_start(s.drop_first())
    } else {
        s
    }
}

pub open spec fn trim_end(s: Seq<char>) -> Seq<char>
    decreases s.len(),
{
    if s.len() > 0 && is_ws(s.last()) {
        trim_end(s.drop_last())
    } else {
        s
    }
}

/// `str::trim`.
pub open spec fn trim(s: Seq<char>) -> Seq<char> {
    trim_end(trim_start(s))
}

/// `str::trim`.
pub fn trim_of(s: &[char]) -> (res: Vec<char>)
    ensures
        res@ == trim(s@),
{
    let mut a: usize = 0;
    assert(s@.skip(0) =~= s@);
    while a < s.len() && is_whitespace(s[a])
        invariant
            a <= s@.len(),
            trim_start(s@) == trim_start(s@.skip(a as int)),
        decreases s@.len() - a,
    {
        assert(s@.skip(a as int).drop_first() =~= s@.skip(a as int + 1));
        a = a + 1;
    }
    let mut b: usize = s.len();
    assert(s@.subrange(a as int, b as int) =~= s@.skip(a as int));
    while b > a && is_whitespace(s[b - 1])
        invariant
            a <= b <= s@.len(),
            trim(s@) == trim_end(s@.subrange(a as int, b as int)),
        decreases b,
    {
        assert(s@.subrange(a as int, b as int).drop_last() =~= s@.subrange(a as int, b - 1));
        b = b - 1;
    }
    slice_chars(s, a, b)
}

/// Joins pieces with a separator.
pub open spec fn join(ps: Seq<Seq<char>>, sep: Seq<char>) -> Seq<char>
    decreases ps.len(),
{
    if ps.len() == 0 {
        Seq::empty()
    } else if ps.len() == 1 {
        ps[0]
    } else {
        join(ps.drop_last(), sep) + sep + ps.last()
    }
}

/// Joins `ps[from..]` with a separator.
pub fn join_from(ps: &Vec<Vec<char>>, from: usize, sep: &[char]) -> (res: Vec<char>)
    requires
        from <= ps@.len(),
    ensures
        res@ == join(vviews(ps@).skip(from as int), sep@),
{
    let mut res: Vec<char> = Vec::new();
    let mut i = from;
    let ghost v = vviews(ps@);
    assert(v.subrange(from as int, from as int) =~= Seq::<Seq<char>>::empty());
    while i < ps.len()
        invariant
            from <= i <= ps@.len(),
            v == vviews(ps@),
            res@ == join(v.subrange(from as int, i as int), sep@),
        decreases ps@.len() - i,
    {
        let ghost old_res = res@;
        assert(v.subrange(from as int, i as int + 1).drop_last() =~= v.subrange(
            from as int,
            i as int,
        ));
        if i > from {
            let mut k: usize = 0;
            while k < sep.len()
                invariant
                    k <= sep@.len(),
                    res@ == old_res + sep@.take(k as int),
                decreases sep@.len() - k,
            {
                res.push(sep[k]);
                k = k + 1;
                assert(res@ =~= old_res + sep@.take(k as int));
            }
            assert(sep@.take(sep@.len() as int) =~= sep@);
        }
        let ghost mid = res@;
        let mut k: usize = 0;
        while k < ps[i].len()
            invariant
                i < ps@.len(),
                k <= ps@[i as int]@.len(),
                res@ == mid + ps@[i as int]@.take(k as int),
            decreases ps@[i as int]@.len() - k,
        {
            res.push(ps[i][k]);
            k = k + 1;
            assert(res@ =~= mid + ps@[i as int]@.take(k as int));
        }
        assert(ps@[i as int]@.take(ps@[i as int]@.len() as int) =~= ps@[i as int]@);
        if i == from {
            assert(res@ =~= v.subrange(from as int, i as int + 1)[0]);
        }
        i = i + 1;
    }
    assert(v.subrange(from as int, ps@.len() as int) =~= v.skip(from as int));
    res
}

// ---------------------------------------------------------------------------
// Searching
// ---------------------------------------------------------------------------

pub open spec fn starts_with(s: Seq<char>, t: Seq<char>) -> bool {
    t.len() <= s.len() && s.take(t.len() as int) == t
}

pub open spec fn occurs_at(s: Seq<char>, t: Seq<char>, i: int) -> bool {
    0 <= i && i + t.len() <= s.len() && s.subrange(i, i + t.len()) == t
}

/// `str::contains` for a pattern string.
pub open spec fn contains(s: Seq<char>, t: Seq<char>) -> bool {
    exists|i: int| occurs_at(s, t, i)
}

fn matches_at(s: &[char], t: &[char], i: usize) -> (b: bool)
    requires
        i + t@.len() <= s@.len(),
    ensures
        b == (s@.subrange(i as int, i + t@.len()) == t@),
{
    let n = s.len();
    let mut k: usize = 0;
    while k < t.len()
        invariant
            n == s@.len(),
            i + t@.len() <= s@.len(),
            k <= t@.len(),
            forall|j: int| 0 <= j < k ==> s@[i + j] == t@[j],
        decreases t@.len() - k,
    {
        if s[i + k] != t[k] {
            assert(s@.subrange(i as int, i + t@.len())[k as int] != t@[k as int]);
            return false;
        }
        k = k + 1;
    }
    assert(s@.subrange(i as int, i + t@.len()) =~= t@);
    true
}

pub fn starts_with_chars(s: &[char], t: &[char]) -> (b: bool)
    ensures
        b == starts_with(s@, t@),
{
    if t.len() > s.len() {
        false
    } else {
        let r = matches_at(s, t, 0);
        assert(s@.subrange(0, t@.len() as int) =~= s@.take(t@.len() as int));
        r
    }
}

pub fn contains_chars(s: &[char], t: &[char]) -> (b: bool)
    ensures
        b == contains(s@, t@),
{
    if t.len() > s.len() {
        assert(!contains(s@, t@));
        return false;
    }
    let last = s.len() - t.len();
    let mut i: usize = 0;
    loop
        invariant
            t@.len() <= s@.len(),
            last == s@.len() - t@.len(),
            i <= last,
            forall|j: int| 0 <= j < i ==> !occurs_at(s@, t@, j),
        ensures
            forall|j: int| 0 <= j <= last ==> !occurs_at(s@, t@, j),
        decreases last - i,
    {
        if matches_at(s, t, i) {
            assert(occurs_at(s@, t@, i as int));
            return true;
        }
        assert(!occurs_at(s@, t@, i as int));
        if i == last {
            break;
        }
        i = i + 1;
    }
    assert forall|j: int| !occurs_at(s@, t@, j) by {
        if 0 <= j <= last {
        }
    }
    false
}

pub fn contains_str(s: &[char], t: &str) -> (b: bool)
    ensures
        b == contains(s@, t@),
{
    let tc = chars_of(t);
    contains_chars(s, &tc)
}

pub fn starts_with_str(s: &[char], t: &str) -> (b: bool)
    ensures
        b == starts_with(s@, t@),
{
    let tc = chars_of(t);
    starts_with_chars(s, &tc)
}

/// Index of the first occurrence of `c`.
pub open spec fn first_index(s: Seq<char>, c: char) -> int
    decreases s.len(),
{
    if s.len() == 0 {
        -1
    } else if s[0] == c {
        0
    } else {
        let r = first_index(s.drop_first(), c);
        if r < 0 {
            -1
        } else {
            r + 1
        }
    }
}

pub proof fn lemma_first_index(s: Seq<char>, c: char)
    ensures
        first_index(s, c) < 0 <==> !has_char(s, c),
        first_index(s, c) >= 0 ==> {
            &&& first_index(s, c) < s.len()
            &&& s[first_index(s, c)] == c
            &&& forall|j: int| 0 <= j < first_index(s, c) ==> s[j] != c
        },
    decreases s.len(),
{
    if s.len() > 0 {
        lemma_first_index(s.drop_first(), c);
        if s[0] != c {
            if has_char(s, c) {
                let k = choose|k: int| 0 <= k < s.len() && s[k] == c;
                assert(s.drop_first()[k - 1] == c);
            }
            if has_char(s.drop_first(), c) {
                let k = choose|k: int| 0 <= k < s.len() - 1 && s.drop_first()[k] == c;
                assert(s[k + 1] == c);
            }
            let r = first_index(s.drop_first(), c);
            if r >= 0 {
                assert forall|j: int| 0 <= j < r + 1 implies s[j] != c by {
                    if j > 0 {
                        assert(s[j] == s.drop_first()[j - 1]);
                    }
                }
            }
        }
    }
}

/// `str::split_once` on one character.
pub open spec fn split_once(s: Seq<char>, c: char) -> Option<(Seq<char>, Seq<char>)> {
    let i = first_index(s, c);
    if i < 0 {
        None
    } else {
        Some((s.take(i), s.skip(i + 1)))
    }
}

/// `str::splitn(3, c)`.
pub open spec fn splitn3(s: Seq<char>, c: char) -> Seq<Seq<char>> {
    match split_once(s, c) {
        None => seq![s],
        Some((a, r)) => match split_once(r, c) {
            None => seq![a, r],
            Some((b, t)) => seq![a, b, t],
        },
    }
}

pub fn find_char(s: &[char], c: char) -> (res: Option<usize>)
    ensures
        match res {
            Some(i) => i == first_index(s@, c),
            None => first_index(s@, c) < 0,
        },
{
    proof {
        lemma_first_index(s@, c);
    }
    let mut i: usize = 0;
    while i < s.len()
        invariant
            i <= s@.len(),
            forall|j: int| 0 <= j < i ==> s@[j] != c,
            first_index(s@, c) < 0 <==> !has_char(s@, c),
            first_index(s@, c) >= 0 ==> {
                &&& first_index(s@, c) < s@.len()
                &&& s@[first_index(s@, c)] == c
                &&& forall|j: int| 0 <= j < first_index(s@, c) ==> s@[j] != c
            },
        decreases s@.len() - i,
    {
        if s[i] == c {
            return Some(i);
        }
        i = i + 1;
    }
    None
}

/// `str::split_once` on one character.
pub fn split_once_of(s: &[char], c: char) -> (res: Option<(Vec<char>, Vec<char>)>)
    ensures
        match res {
            Some((a, b)) => split_once(s@, c) == Some((a@, b@)),
            None => split_once(s@, c) is None,
        },
{
    proof {
        lemma_first_index(s@, c);
    }
    match find_char(s, c) {
        Some(i) => {
            let n = s.len();
            let a = slice_chars(s, 0, i);
            let b = slice_chars(s, i + 1, n);
            assert(a@ =~= s@.take(i as int));
            assert(b@ =~= s@.skip(i + 1));
            Some((a, b))
        },
        None => None,
    }
}

/// `str::splitn(3, c)`.
pub fn splitn3_of(s: &[char], c: char) -> (res: Vec<Vec<char>>)
    ensures
        vviews(res@) == splitn3(s@, c),
{
    let mut res: Vec<Vec<char>> = Vec::new();
    match split_once_of(s, c) {
        None => {
            res.push(slice_chars(s, 0, s.len()));
            assert(s@.subrange(0, s@.len() as int) =~= s@);
        },
        Some((a, r)) => match split_once_of(&r, c) {
            None => {
                res.push(a);
                res.push(r);
            },
            Some((b, t)) => {
                res.push(a);
                res.push(b);
                res.push(t);
            },
        },
    }
    assert(vviews(res@) =~= splitn3(s@, c));
    res
}

// ---------------------------------------------------------------------------
// Numbers
// ---------------------------------------------------------------------------

pub open spec fn digit_value(c: char) -> nat {
    (c as int - '0' as int) as nat
}

pub open spec fn all_digits(s: Seq<char>) -> bool {
    forall|i: int| 0 <= i < s.len() ==> is_digit(#[trigger] s[i])
}

/// The number written by a run of decimal digits.
pub open spec fn digits_value(s: Seq<char>) -> nat
    decreases s.len(),
{
    if s.len() == 0 {
        0
    } else {
        digits_value(s.drop_last()) * 10 + digit_value(s.last())
    }
}

/// `str::parse` for an unsigned integer type whose largest value is `max`:
/// an optional `+`, then at least one decimal digit, and no overflow.
pub open spec fn parse_unsigned(s: Seq<char>, max: nat) -> Option<nat> {
    let d = if s.len() > 0 && s[0] == '+' {
        s.drop_first()
    } else {
        s
    };
    if d.len() > 0 && all_digits(d) && digits_value(d) <= max {
        Some(digits_value(d))
    } else {
        None
    }
}

proof fn lemma_digits_value_prefix(s: Seq<char>, j: int)
    requires
        0 <= j <= s.len(),
    ensures
        digits_value(s.take(j)) <= digits_value(s),
    decreases s.len(),
{
    if j < s.len() {
        assert(s.drop_last().take(j) =~= s.take(j));
        lemma_digits_value_prefix(s.drop_last(), j);
    } else {
        assert(s.take(j) =~= s);
    }
}

/// `str::parse` for an unsigned integer no larger than `max`.
pub fn parse_bounded(s: &[char], max: u64) -> (res: Option<u64>)
    ensures
        match res {
            Some(v) => parse_unsigned(s@, max as nat) == Some(v as nat),
            None => parse_unsigned(s@, max as nat) is None,
        },
{
    let n = s.len();
    let start: usize = if n > 0 && s[0] == '+' {
        1
    } else {
        0
    };
    let ghost d = if s@.len() > 0 && s@[0] == '+' {
        s@.drop_first()
    } else {
        s@
    };
    assert(d =~= s@.skip(start as int));
    assert(parse_unsigned(s@, max as nat) == (if d.len() > 0 && all_digits(d) && digits_value(d)
        <= max as nat {
        Some(digits_value(d))
    } else {
        None
    }));
    if start == n {
        return None;
    }
    let mut acc: u64 = 0;
    let mut i = start;
    assert(d.take(0) =~= Seq::<char>::empty());
    while i < n
        invariant
            n == s@.len(),
            start <= i <= n,
            d == s@.skip(start as int),
            d.len() > 0,
            parse_unsigned(s@, max as nat) == (if d.len() > 0 && all_digits(d) && digits_value(d)
                <= max as nat {
                Some(digits_value(d))
            } else {
                None
            }),
            acc as nat == digits_value(d.take(i - start)),
            acc <= max,
            all_digits(d.take(i - start)),
        decreases n - i,
    {
        let c = s[i];
        let k = i - start;
        assert(d[k as int] == c);
        if !('0' <= c && c <= '9') {
            assert(!is_digit(d[k as int]));
            assert(!all_digits(d));
            assert(parse_unsigned(s@, max as nat) is None);
            return None;
        }
        let dv = (c as u32 - '0' as u32) as u64;
        let next: u128 = acc as u128 * 10 + dv as u128;
        assert(d.take(k + 1).drop_last() =~= d.take(k as int));
        assert(next == digits_value(d.take(k + 1)));
        if next > max as u128 {
            proof {
                lemma_digits_value_prefix(d, k + 1);
            }
            assert(parse_unsigned(s@, max as nat) is None);
            return None;
        }
        acc = next as u64;
        i = i + 1;
        assert forall|j: int| 0 <= j < d.take(i - start).len() implies is_digit(
            #[trigger] d.take(i - start)[j],
        ) by {
            if j < k {
                assert(d.take(i - start)[j] == d.take(k as int)[j]);
            }
        }
    }
    assert(d.take(n - start) =~= d);
    Some(acc)
}

pub open spec fn digit_char(d: nat) -> char {
    (48 + d) as char
}

/// The decimal numeral of `n`, as `Display` writes an unsigned integer.
pub open spec fn decimal(n: nat) -> Seq<char>
    decreases n,
{
    if n < 10 {
        seq![digit_char(n)]
    } else {
        decimal(n / 10).push(digit_char(n % 10))
    }
}

/// `{:02}`: the numeral padded with zeros to two characters.
pub open spec fn decimal_pad2(n: nat) -> Seq<char> {
    if n < 10 {
        seq!['0'] + decimal(n)
    } else {
        decimal(n)
    }
}

fn digit_char_of(d: u8) -> (c: char)
    requires
        d < 10,
    ensures
        c == digit_char(d as nat),
{
    (48u8 + d) as char
}

/// Appends the decimal numeral of `n`.
pub fn push_decimal(out: &mut Vec<char>, n: u64)
    ensures
        final(out)@ == old(out)@ + decimal(n as nat),
    decreases n,
{
    if n >= 10 {
        push_decimal(out, n / 10);
    }
    let d = (n % 10) as u8;
    let c = digit_char_of(d);
    out.push(c);
    proof {
        if n < 10 {
            assert(n % 10 == n);
        }
    }
}

/// Appends the decimal numeral of a 128-bit `n`.
pub fn push_decimal_wide(out: &mut Vec<char>, n: u128)
    ensures
        final(out)@ == old(out)@ + decimal(n as nat),
    decreases n,
{
    if n >= 10 {
        push_decimal_wide(out, n / 10);
    }
    let d = (n % 10) as u8;
    let c = digit_char_of(d);
    out.push(c);
    proof {
        if n < 10 {
            assert(n % 10 == n);
        }
    }
}

/// Appends `{:02}` of `n`.
pub fn push_decimal_pad2(out: &mut Vec<char>, n: u64)
    ensures
        final(out)@ == old(out)@ + decimal_pad2(n as nat),
{
    if n < 10 {
        out.push('0');
    }
    push_decimal(out, n);
}

/// Appends the characters of a string.
pub fn push_str(out: &mut Vec<char>, s: &str)
    ensures
        final(out)@ == old(out)@ + s@,
{
    let c = chars_of(s);
    push_chars(out, &c);
}

/// Appends a run of characters.
pub fn push_chars(out: &mut Vec<char>, s: &[char])
    ensures
        final(out)@ == old(out)@ + s@,
{
    let ghost start = out@;
    let mut i: usize = 0;
    while i < s.len()
        invariant
            i <= s@.len(),
            out@ == start + s@.take(i as int),
        decreases s@.len() - i,
    {
        out.push(s[i]);
        i = i + 1;
        assert(out@ =~= start + s@.take(i as int));
    }
    assert(s@.take(s@.len() as int) =~= s@);
}

} // verus!
