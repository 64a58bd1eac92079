//! Unix paths as `std::path` sees them: components, prefixes, and the lexical
//! resolution of `.` and `..` that the path validator applies.
use crate::text::{
    eq_pred, has_char, join, lemma_split_by_nonempty, lemma_split_by_pieces, no_match, split_char,
    split_on, vviews,
};
use vstd::prelude::*;

verus! {

/// A path component, as `std::path::Component` on Unix.
pub enum Component {
    RootDir,
    CurDir,
    ParentDir,
    Normal(Seq<char>),
}

/// The component that a piece between separators gives, after the first.
pub open spec fn piece_component(p: Seq<char>) -> Option<Component> {
    if p.len() == 0 || p == seq!['.'] {
        None
    } else if p == seq!['.', '.'] {
        Some(Component::ParentDir)
    } else {
        Some(Component::Normal(p))
    }
}

pub open spec fn piece_components(ps: Seq<Seq<char>>) -> Seq<Component>
    decreases ps.len(),
{
    if ps.len() == 0 {
        Seq::empty()
    } else {
        let rest = piece_components(ps.drop_first());
        match piece_component(ps[0]) {
            Some(c) => seq![c] + rest,
            None => rest,
        }
    }
}

/// `Path::components` on Unix: a leading `/` is the root; empty pieces and
/// `.` pieces are dropped, except a `.` that begins a relative path.
pub open spec fn path_components(s: Seq<char>) -> Seq<Component> {
    let ps = split_char(s, '/');
    if s.len() > 0 && s[0] == '/' {
        seq![Component::RootDir] + piece_components(ps.drop_first())
    } else if ps[0] == seq!['.'] {
        seq![Component::CurDir] + piece_components(ps.drop_first())
    } else {
        piece_components(ps)
    }
}

/// `Path::starts_with`: the base's components begin the path's components.
pub open spec fn path_starts_with(path: Seq<char>, base: Seq<char>) -> bool {
    let pc = path_components(path);
    let bc = path_components(base);
    bc.len() <= pc.len() && pc.take(bc.len() as int) == bc
}

/// A component held at run time.
pub enum PathComp {
    Root,
    Cur,
    Parent,
    Normal(Vec<char>),
}

impl View for PathComp {
    type V = Component;

    open spec fn view(&self) -> Component {
        match self {
            PathComp::Root => Component::RootDir,
            PathComp::Cur => Component::CurDir,
            PathComp::Parent => Component::ParentDir,
            PathComp::Normal(v) => Component::Normal(v@),
        }
    }
}

pub open spec fn comp_views(v: Seq<PathComp>) -> Seq<Component> {
    v.map_values(|c: PathComp| c@)
}

fn is_dot(p: &Vec<char>) -> (b: bool)
    ensures
        b == (p@ == seq!['.']),
{
    let r = p.len() == 1 && p[0] == '.';
    proof {
        if p@.len() == 1 && p@[0] == '.' {
            assert(p@ =~= seq!['.']);
        }
    }
    r
}

fn is_dot_dot(p: &Vec<char>) -> (b: bool)
    ensures
        b == (p@ == seq!['.', '.']),
{
    let r = p.len() == 2 && p[0] == '.' && p[1] == '.';
    proof {
        if p@.len() == 2 && p@[0] == '.' && p@[1] == '.' {
            assert(p@ =~= seq!['.', '.']);
        }
    }
    r
}

/// `Path::components` on Unix.
pub fn components_of(s: &[char]) -> (res: Vec<PathComp>)
    ensures
        comp_views(res@) == path_components(s@),
{
    let pieces = split_on(s, '/');
    let ghost ps = split_char(s@, '/');
    proof {
        lemma_split_by_nonempty(s@, eq_pred('/'));
    }
    assert(pieces@[0]@ == ps[0]);
    let mut res: Vec<PathComp> = Vec::new();
    let mut i: usize = 0;
    let ghost head: Seq<Component>;
    if s.len() > 0 && s[0] == '/' {
        res.push(PathComp::Root);
        i = 1;
        proof {
            head = seq![Component::RootDir];
        }
    } else if is_dot(&pieces[0]) {
        res.push(PathComp::Cur);
        i = 1;
        proof {
            head = seq![Component::CurDir];
        }
    } else {
        proof {
            head = Seq::empty();
        }
    }
    assert(comp_views(res@) =~= head);
    proof {
        if i == 1 {
            assert(ps.skip(1) =~= ps.drop_first());
        } else {
            assert(ps.skip(0) =~= ps);
        }
    }
    let ghost target = head + piece_components(ps.skip(i as int));
    assert(target == path_components(s@)) by {
        if i == 0 {
            assert(head + piece_components(ps) =~= piece_components(ps));
        }
    }
    while i < pieces.len()
        invariant
            vviews(pieces@) == ps,
            i <= ps.len(),
            target == comp_views(res@) + piece_components(ps.skip(i as int)),
        decreases ps.len() - i,
    {
        let ghost before = comp_views(res@);
        assert(ps.skip(i as int).drop_first() =~= ps.skip(i as int + 1));
        assert(ps.skip(i as int)[0] == ps[i as int]);
        assert(pieces@[i as int]@ == ps[i as int]);
        let p = &pieces[i];
        if p.len() == 0 || is_dot(p) {
        } else if is_dot_dot(p) {
            res.push(PathComp::Parent);
            assert(comp_views(res@) =~= before.push(Component::ParentDir));
            assert(before.push(Component::ParentDir) + piece_components(ps.skip(i as int + 1))
                =~= before + (seq![Component::ParentDir] + piece_components(
                ps.skip(i as int + 1),
            )));
        } else {
            res.push(PathComp::Normal(p.clone()));
            assert(comp_views(res@) =~= before.push(Component::Normal(p@)));
            assert(before.push(Component::Normal(p@)) + piece_components(ps.skip(i as int + 1))
                =~= before + (seq![Component::Normal(p@)] + piece_components(
                ps.skip(i as int + 1),
            )));
        }
        i = i + 1;
    }
    assert(ps.skip(i as int) =~= Seq::<Seq<char>>::empty());
    assert(comp_views(res@) + Seq::<Component>::empty() =~= comp_views(res@));
    res
}

fn comp_eq(a: &PathComp, b: &PathComp) -> (r: bool)
    ensures
        r == (a@ == b@),
{
    match (a, b) {
        (PathComp::Root, PathComp::Root) => true,
        (PathComp::Cur, PathComp::Cur) => true,
        (PathComp::Parent, PathComp::Parent) => true,
        (PathComp::Normal(x), PathComp::Normal(y)) => {
            if x.len() != y.len() {
                assert(x@.len() != y@.len());
                return false;
            }
            let mut k: usize = 0;
            while k < x.len()
                invariant
                    a@ == Component::Normal(x@),
                    b@ == Component::Normal(y@),
                    x@.len() == y@.len(),
                    k <= x@.len(),
                    forall|j: int| 0 <= j < k ==> x@[j] == y@[j],
                decreases x@.len() - k,
            {
                if x[k] != y[k] {
                    assert(x@[k as int] != y@[k as int]);
                    return false;
                }
                k = k + 1;
            }
            assert(x@ =~= y@);
            true
        },
        _ => false,
    }
}

/// `Path::starts_with`.
pub fn starts_with_path(path: &[char], base: &[char]) -> (b: bool)
    ensures
        b == path_starts_with(path@, base@),
{
    let pc = components_of(path);
    let bc = components_of(base);
    let ghost pv = comp_views(pc@);
    let ghost bv = comp_views(bc@);
    if bc.len() > pc.len() {
        return false;
    }
    let mut k: usize = 0;
    while k < bc.len()
        invariant
            pv == comp_views(pc@),
            bv == comp_views(bc@),
            pv == path_components(path@),
            bv == path_components(base@),
            bc@.len() <= pc@.len(),
            k <= bc@.len(),
            forall|j: int| 0 <= j < k ==> pv[j] == bv[j],
        decreases bc@.len() - k,
    {
        if !comp_eq(&pc[k], &bc[k]) {
            assert(pv.take(bv.len() as int)[k as int] != bv[k as int]);
            return false;
        }
        k = k + 1;
    }
    assert(pv.take(bv.len() as int) =~= bv);
    true
}

/// A path under a path that is under a base is under that base.
pub proof fn lemma_starts_with_trans(a: Seq<char>, b: Seq<char>, c: Seq<char>)
    requires
        path_starts_with(a, b),
        path_starts_with(b, c),
    ensures
        path_starts_with(a, c),
{
    let ac = path_components(a);
    let bc = path_components(b);
    let cc = path_components(c);
    assert(ac.take(cc.len() as int) =~= bc.take(cc.len() as int));
}

// ---------------------------------------------------------------------------
// Lexical resolution
// ---------------------------------------------------------------------------

/// What resolving components has built so far: whether it is rooted, and the
/// names below the root (or below the start, for a relative path).
pub struct Resolved {
    pub absolute: bool,
    pub names: Seq<Seq<char>>,
}

/// One step of resolution, as `PathBuf::push` and `PathBuf::pop` apply it:
/// the root restarts at `/`, `.` is skipped, `..` removes the last name and
/// fails where there is none.
pub open spec fn resolve_step(st: Resolved, c: Component) -> Option<Resolved> {
    match c {
        Component::RootDir => Some(Resolved { absolute: true, names: Seq::empty() }),
        Component::CurDir => Some(st),
        Component::ParentDir => if st.names.len() == 0 {
            None
        } else {
            Some(Resolved { absolute: st.absolute, names: st.names.drop_last() })
        },
        Component::Normal(n) => Some(Resolved { absolute: st.absolute, names: st.names.push(n) }),
    }
}

pub open spec fn resolve_from(st: Resolved, cs: Seq<Component>) -> Option<Resolved>
    decreases cs.len(),
{
    if cs.len() == 0 {
        Some(st)
    } else {
        match resolve_step(st, cs[0]) {
            None => None,
            Some(next) => resolve_from(next, cs.drop_first()),
        }
    }
}

pub open spec fn empty_resolved() -> Resolved {
    Resolved { absolute: false, names: Seq::empty() }
}

/// The path that resolved names spell: `/` and the names joined by `/`.
pub open spec fn render_absolute(names: Seq<Seq<char>>) -> Seq<char> {
    seq!['/'] + join(names, seq!['/'])
}

/// Whether a name could be a normal component.
pub open spec fn is_plain_name(n: Seq<char>) -> bool {
    &&& n.len() > 0
    &&& !has_char(n, '/')
    &&& n != seq!['.']
    &&& n != seq!['.', '.']
}

pub proof fn lemma_resolve_names_plain(st: Resolved, cs: Seq<Component>)
    requires
        forall|k: int| 0 <= k < st.names.len() ==> is_plain_name(#[trigger] st.names[k]),
        forall|k: int|
            0 <= k < cs.len() ==> (#[trigger] cs[k] matches Component::Normal(n) ==> is_plain_name(
                n,
            )),
    ensures
        resolve_from(st, cs) matches Some(r) ==> forall|k: int|
            0 <= k < r.names.len() ==> is_plain_name(#[trigger] r.names[k]),
    decreases cs.len(),
{
    if cs.len() > 0 {
        if let Some(next) = resolve_step(st, cs[0]) {
            assert forall|k: int| 0 <= k < next.names.len() implies is_plain_name(
                #[trigger] next.names[k],
            ) by {
                if k < st.names.len() {
                    assert(next.names[k] == st.names[k]);
                } else {
                    assert(cs[0] matches Component::Normal(n));
                }
            }
            assert forall|k: int| 0 <= k < cs.drop_first().len() implies (
            #[trigger] cs.drop_first()[k] matches Component::Normal(n) ==> is_plain_name(n)) by {
                assert(cs.drop_first()[k] == cs[k + 1]);
            }
            lemma_resolve_names_plain(next, cs.drop_first());
        }
    }
}

/// Every normal component of a path is a plain name.
pub proof fn lemma_components_plain(s: Seq<char>)
    ensures
        forall|k: int|
            0 <= k < path_components(s).len() ==> (#[trigger] path_components(s)[k] matches Component::Normal(n)
                ==> is_plain_name(n)),
{
    let ps = split_char(s, '/');
    lemma_split_by_pieces(s, eq_pred('/'));
    lemma_split_by_nonempty(s, eq_pred('/'));
    assert forall|k: int| 0 <= k < ps.drop_first().len() implies no_match(
        #[trigger] ps.drop_first()[k],
        eq_pred('/'),
    ) by {
        assert(ps.drop_first()[k] == ps[k + 1]);
    }
    lemma_piece_components_plain(ps.drop_first());
    lemma_piece_components_plain(ps);
}

proof fn lemma_piece_components_plain(ps: Seq<Seq<char>>)
    requires
        forall|k: int| 0 <= k < ps.len() ==> no_match(#[trigger] ps[k], eq_pred('/')),
    ensures
        forall|k: int|
            0 <= k < piece_components(ps).len() ==> (#[trigger] piece_components(ps)[k] matches Component::Normal(n)
                ==> is_plain_name(n)),
    decreases ps.len(),
{
    if ps.len() > 0 {
        assert forall|k: int| 0 <= k < ps.drop_first().len() implies no_match(
            #[trigger] ps.drop_first()[k],
            eq_pred('/'),
        ) by {
            assert(ps.drop_first()[k] == ps[k + 1]);
        }
        lemma_piece_components_plain(ps.drop_first());
        let rest = piece_components(ps.drop_first());
        let p0 = ps[0];
        assert(no_match(p0, eq_pred('/')));
        if !has_char(p0, '/') {
        } else {
            let j = choose|j: int| 0 <= j < p0.len() && p0[j] == '/';
            assert(eq_pred('/')(p0[j]));
        }
        match piece_component(p0) {
            Some(c) => {
                assert forall|k: int| 0 <= k < piece_components(ps).len() implies (
                #[trigger] piece_components(ps)[k] matches Component::Normal(n) ==> is_plain_name(
                    n,
                )) by {
                    if k > 0 {
                        assert(piece_components(ps)[k] == rest[k - 1]);
                    }
                }
            },
            None => {},
        }
    }
}

/// `PathBuf::join` on Unix: an absolute second path replaces the first;
/// otherwise a separator is added where the first does not end with one.
pub open spec fn join_path(base: Seq<char>, p: Seq<char>) -> Seq<char> {
    if p.len() > 0 && p[0] == '/' {
        p
    } else if base.len() > 0 && base.last() != '/' {
        base + seq!['/'] + p
    } else {
        base + p
    }
}

/// `PathBuf::join`.
pub fn join_path_of(base: &[char], p: &[char]) -> (res: Vec<char>)
    ensures
        res@ == join_path(base@, p@),
{
    let mut out: Vec<char> = Vec::new();
    if p.len() > 0 && p[0] == '/' {
        crate::text::push_chars(&mut out, p);
        assert(out@ =~= p@);
        return out;
    }
    crate::text::push_chars(&mut out, base);
    if base.len() > 0 && base[base.len() - 1] != '/' {
        out.push('/');
    }
    crate::text::push_chars(&mut out, p);
    out
}

/// Resolves components from the start: `None` where a `..` would climb above
/// the first name.
pub fn resolve_of(cs: &Vec<PathComp>) -> (res: Option<(bool, Vec<Vec<char>>)>)
    ensures
        match res {
            Some((abs, names)) => resolve_from(empty_resolved(), comp_views(cs@)) == Some(
                Resolved { absolute: abs, names: vviews(names@) },
            ),
            None => resolve_from(empty_resolved(), comp_views(cs@)) is None,
        },
{
    let ghost all = comp_views(cs@);
    let mut abs = false;
    let mut names: Vec<Vec<char>> = Vec::new();
    let mut i: usize = 0;
    assert(all.skip(0) =~= all);
    assert(Resolved { absolute: abs, names: vviews(names@) } == empty_resolved()) by {
        assert(vviews(names@) =~= Seq::<Seq<char>>::empty());
    }
    while i < cs.len()
        invariant
            all == comp_views(cs@),
            i <= cs@.len(),
            resolve_from(empty_resolved(), all) == resolve_from(
                Resolved { absolute: abs, names: vviews(names@) },
                all.skip(i as int),
            ),
        decreases cs@.len() - i,
    {
        let ghost st = Resolved { absolute: abs, names: vviews(names@) };
        assert(all.skip(i as int).drop_first() =~= all.skip(i as int + 1));
        assert(all.skip(i as int)[0] == cs@[i as int]@);
        match &cs[i] {
            PathComp::Root => {
                abs = true;
                names = Vec::new();
                assert(vviews(names@) =~= Seq::<Seq<char>>::empty());
            },
            PathComp::Cur => {},
            PathComp::Parent => {
                if names.len() == 0 {
                    return None;
                }
                let ghost before = vviews(names@);
                names.pop();
                assert(vviews(names@) =~= before.drop_last());
            },
            PathComp::Normal(n) => {
                let ghost before = vviews(names@);
                names.push(n.clone());
                assert(vviews(names@) =~= before.push(n@));
            },
        }
        i = i + 1;
    }
    assert(all.skip(i as int) =~= Seq::<Component>::empty());
    Some((abs, names))
}

/// The absolute path that resolved names spell.
pub fn render_absolute_of(names: &Vec<Vec<char>>) -> (res: Vec<char>)
    ensures
        res@ == render_absolute(vviews(names@)),
{
    let mut out: Vec<char> = Vec::new();
    out.push('/');
    let sep = vec!['/'];
    let j = crate::text::join_from(names, 0, &sep);
    assert(vviews(names@).skip(0) =~= vviews(names@));
    assert(sep@ =~= seq!['/']);
    crate::text::push_chars(&mut out, &j);
    assert(out@ =~= seq!['/'] + j@);
    out
}

} // verus!
