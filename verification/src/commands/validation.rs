//! Validation of the paths that requests name, against the permissions.
use crate::config::{under_any, PermissionConfig};
use crate::error::{ValidationError, ValidationErrorView};
use crate::paths::{
    components_of, empty_resolved, is_plain_name, join_path, join_path_of, path_components,
    piece_component, piece_components, render_absolute, render_absolute_of, resolve_from,
    resolve_of, resolve_step, Component, Resolved,
};
use crate::text::{
    chars_of, find_char, has_char, join, lemma_first_index, split_by, split_char, starts_with,
    string_of,
};
use vstd::prelude::*;

verus! {

/// A validated path that has been checked against permissions
#[derive(Debug, Clone)]
pub struct ValidatedPath {
    path: String,
    original: String,
}

impl View for ValidatedPath {
    type V = Seq<char>;

    /// The resolved absolute path.
    closed spec fn view(&self) -> Seq<char> {
        self.path@
    }
}

impl ValidatedPath {
    /// The path as the request wrote it.
    pub closed spec fn original(&self) -> Seq<char> {
        self.original@
    }

    fn new(path: String, original: String) -> (res: Self)
        ensures
            res@ == path@,
            res.original() == original@,
    {
        Self { path, original }
    }

    pub fn as_path(&self) -> (res: &str)
        ensures
            res@ == self@,
    {
        self.path.as_str()
    }

    pub fn as_str(&self) -> (res: &str)
        ensures
            res@ == self@,
    {
        self.path.as_str()
    }

    /// The path as `Display` writes it.
    pub fn to_string(&self) -> (res: String)
        ensures
            res@ == self@,
    {
        self.path.clone()
    }
}

/// `~` and `~/...` stand for the home directory, where it is known.
pub open spec fn expand_home(path: Seq<char>, home: Option<Seq<char>>) -> Seq<char> {
    match home {
        Some(h) => if starts_with(path, seq!['~', '/']) {
            join_path(h, path.skip(2))
        } else if path == seq!['~'] {
            h
        } else {
            path
        },
        None => path,
    }
}

/// What lexical canonicalization makes of a path.
pub enum Canonical {
    /// The path names an environment variable.
    EnvVar,
    /// A `..` climbs above the start.
    Traversal,
    /// The resolved path is not absolute.
    Relative,
    /// The names of the resolved absolute path.
    Absolute(Seq<Seq<char>>),
}

/// Lexical canonicalization: no `$`; `~` expanded; then `.` and `..` resolved
/// component by component, where a `..` may not climb above the start.
pub open spec fn canonical_form(path: Seq<char>, home: Option<Seq<char>>) -> Canonical {
    if has_char(path, '$') {
        Canonical::EnvVar
    } else {
        match resolve_from(empty_resolved(), path_components(expand_home(path, home))) {
            None => Canonical::Traversal,
            Some(r) => if r.absolute {
                Canonical::Absolute(r.names)
            } else {
                Canonical::Relative
            },
        }
    }
}

/// The outcome of validating `path` against the allowed bases: the resolved
/// path, or the error.
pub open spec fn validation_outcome(
    path: Seq<char>,
    home: Option<Seq<char>>,
    allowed: Seq<Seq<char>>,
) -> Result<Seq<char>, ValidationErrorView> {
    match canonical_form(path, home) {
        Canonical::EnvVar => Err(ValidationErrorView::EnvironmentVariableNotAllowed(path)),
        Canonical::Traversal => Err(ValidationErrorView::PathTraversal(path)),
        Canonical::Relative => Err(
            ValidationErrorView::PathNotAllowed {
                path,
                allowed: seq!["Paths must be absolute"@],
            },
        ),
        Canonical::Absolute(names) => if under_any(allowed, render_absolute(names)) {
            Ok(render_absolute(names))
        } else {
            Err(ValidationErrorView::PathNotAllowed { path, allowed })
        },
    }
}

/// Path validator that checks against permission config
pub struct PathValidator {
    config: PermissionConfig,
    home_dir: Option<String>,
}

impl PathValidator {
    /// The permissions that the validator applies.
    pub closed spec fn permissions(&self) -> PermissionConfig {
        self.config
    }

    /// The remote home directory, once known.
    pub closed spec fn home(&self) -> Option<Seq<char>> {
        match self.home_dir {
            Some(h) => Some(h@),
            None => None,
        }
    }

    pub fn new(config: PermissionConfig) -> (res: Self)
        ensures
            res.permissions() == config,
            res.home() is None,
    {
        // The remote home directory is set once it is known; until then `~`
        // is left for the remote side to expand.
        Self { config, home_dir: None }
    }

    /// The permissions that the validator applies.
    pub fn config(&self) -> (res: &PermissionConfig)
        ensures
            *res == self.permissions(),
    {
        &self.config
    }

    /// Set the remote home directory (fetched from SSH)
    pub fn set_home_dir(&mut self, home: String)
        ensures
            final(self).home() == Some(home@),
            final(self).permissions() == old(self).permissions(),
    {
        self.home_dir = Some(home);
    }

    /// Validate a path for reading
    pub fn validate_read_path(&self, path: &str) -> (res: Result<ValidatedPath, ValidationError>)
        ensures
            match res {
                Ok(v) => validation_outcome(path@, self.home(), self.permissions().read_paths())
                    == Ok::<Seq<char>, ValidationErrorView>(v@) && v.original() == path@,
                Err(e) => validation_outcome(path@, self.home(), self.permissions().read_paths())
                    == Err::<Seq<char>, ValidationErrorView>(e@),
            },
    {
        self.validate_against(path, &self.config.paths.read)
    }

    /// Validate a path for writing
    pub fn validate_write_path(&self, path: &str) -> (res: Result<ValidatedPath, ValidationError>)
        ensures
            match res {
                Ok(v) => validation_outcome(path@, self.home(), self.permissions().write_paths())
                    == Ok::<Seq<char>, ValidationErrorView>(v@) && v.original() == path@,
                Err(e) => validation_outcome(path@, self.home(), self.permissions().write_paths())
                    == Err::<Seq<char>, ValidationErrorView>(e@),
            },
    {
        self.validate_against(path, &self.config.paths.write)
    }

    fn validate_against(&self, path: &str, allowed: &Vec<String>) -> (res: Result<
        ValidatedPath,
        ValidationError,
    >)
        ensures
            match res {
                Ok(v) => validation_outcome(path@, self.home(), allowed.deep_view())
                    == Ok::<Seq<char>, ValidationErrorView>(v@) && v.original() == path@,
                Err(e) => validation_outcome(path@, self.home(), allowed.deep_view())
                    == Err::<Seq<char>, ValidationErrorView>(e@),
            },
    {
        validate_with(path, &self.home_dir, allowed)
    }
}

/// Validates a path against the allowed bases, with the home directory
/// where it is known.
fn validate_with(path: &str, home_dir: &Option<String>, allowed: &Vec<String>) -> (res: Result<
    ValidatedPath,
    ValidationError,
>)
    ensures
        match res {
            Ok(v) => validation_outcome(path@, home_view(home_dir), allowed.deep_view())
                == Ok::<Seq<char>, ValidationErrorView>(v@) && v.original() == path@,
            Err(e) => validation_outcome(path@, home_view(home_dir), allowed.deep_view())
                == Err::<Seq<char>, ValidationErrorView>(e@),
        },
{
    match canonicalize_path(path, home_dir) {
        Err(e) => Err(e),
        Ok(names) => {
            let rendered = render_absolute_of(&names);
            let canonical = string_of(&rendered);
            let found = crate::config::allowed_under(allowed, canonical.as_str());
            if found {
                Ok(ValidatedPath::new(canonical, String::from_str(path)))
            } else {
                Err(
                    ValidationError::PathNotAllowed {
                        path: String::from_str(path),
                        allowed: clone_strings(allowed),
                    },
                )
            }
        },
    }
}

/// The home directory, as a value.
pub open spec fn home_view(home_dir: &Option<String>) -> Option<Seq<char>> {
    match home_dir {
        Some(h) => Some(h@),
        None => None,
    }
}

/// Canonicalize a path (lexical, without filesystem access): the names of
/// the resolved absolute path.
fn canonicalize_path(path: &str, home_dir: &Option<String>) -> (res: Result<
    Vec<Vec<char>>,
    ValidationError,
>)
    ensures
        match res {
            Ok(names) => canonical_form(path@, home_view(home_dir)) == Canonical::Absolute(
                crate::text::vviews(names@),
            ),
            Err(e) => match canonical_form(path@, home_view(home_dir)) {
                Canonical::EnvVar => e@ == ValidationErrorView::EnvironmentVariableNotAllowed(
                    path@,
                ),
                Canonical::Traversal => e@ == ValidationErrorView::PathTraversal(path@),
                Canonical::Relative => e@ == (ValidationErrorView::PathNotAllowed {
                    path: path@,
                    allowed: seq!["Paths must be absolute"@],
                }),
                Canonical::Absolute(_) => false,
            },
        },
{
    let p = chars_of(path);
    proof {
        lemma_first_index(p@, '$');
    }
    if find_char(&p, '$').is_some() {
        return Err(ValidationError::EnvironmentVariableNotAllowed(String::from_str(path)));
    }
    let expanded = match home_dir {
        Some(home) => {
            let h = chars_of(home.as_str());
            let tilde_slash = vec!['~', '/'];
            assert(tilde_slash@ =~= seq!['~', '/']);
            if crate::text::starts_with_chars(&p, &tilde_slash) {
                let n = p.len();
                let rest = crate::text::slice_chars(&p, 2, n);
                assert(rest@ =~= p@.skip(2));
                join_path_of(&h, &rest)
            } else if p.len() == 1 && p[0] == '~' {
                assert(p@ =~= seq!['~']);
                h
            } else {
                assert(p@.len() == 1 ==> p@ != seq!['~'] || p@[0] == '~');
                p
            }
        },
        None => p,
    };
    let comps = components_of(&expanded);
    match resolve_of(&comps) {
        None => Err(ValidationError::PathTraversal(String::from_str(path))),
        Some((abs, names)) => {
            if abs {
                Ok(names)
            } else {
                let mut allowed: Vec<String> = Vec::new();
                allowed.push(String::from_str("Paths must be absolute"));
                assert(allowed.deep_view() =~= seq!["Paths must be absolute"@]);
                Err(ValidationError::PathNotAllowed { path: String::from_str(path), allowed })
            }
        },
    }
}

/// Validates a path against the allowed bases, with no home directory
/// known: the resolved path, or the refusal.
pub fn validate_path_in(path: &str, allowed: &Vec<String>) -> (res: Result<String, ValidationError>)
    ensures
        match res {
            Ok(v) => validation_outcome(path@, None, allowed.deep_view()) == Ok::<
                Seq<char>,
                ValidationErrorView,
            >(v@),
            Err(e) => validation_outcome(path@, None, allowed.deep_view()) == Err::<
                Seq<char>,
                ValidationErrorView,
            >(e@),
        },
{
    let none: Option<String> = None;
    match validate_with(path, &none, allowed) {
        Ok(v) => Ok(v.to_string()),
        Err(e) => Err(e),
    }
}

/// A copy of a list of strings.
pub fn clone_strings(v: &Vec<String>) -> (res: Vec<String>)
    ensures
        res.deep_view() == v.deep_view(),
{
    let mut res: Vec<String> = Vec::new();
    let mut i: usize = 0;
    while i < v.len()
        invariant
            i <= v@.len(),
            res.deep_view() == v.deep_view().take(i as int),
        decreases v@.len() - i,
    {
        let ghost before = res.deep_view();
        let s = v[i].clone();
        assert(s@ == v.deep_view()[i as int]);
        res.push(s);
        assert(res.deep_view() =~= before.push(s@));
        i = i + 1;
        assert(res.deep_view() =~= v.deep_view().take(i as int));
    }
    assert(v.deep_view().take(v@.len() as int) =~= v.deep_view());
    res
}

/// A path that validation accepts is absolute, has no `.` or `..` left, and
/// lies under one of the allowed bases.
pub proof fn lemma_validated_is_confined(
    path: Seq<char>,
    home: Option<Seq<char>>,
    allowed: Seq<Seq<char>>,
)
    requires
        validation_outcome(path, home, allowed) is Ok,
    ensures
        ({
            let r = validation_outcome(path, home, allowed)->Ok_0;
            &&& under_any(allowed, r)
            &&& exists|names: Seq<Seq<char>>|
                {
                    &&& r == render_absolute(names)
                    &&& forall|k: int|
                        0 <= k < names.len() ==> crate::paths::is_plain_name(#[trigger] names[k])
                }
        }),
{
    let cs = path_components(expand_home(path, home));
    crate::paths::lemma_components_plain(expand_home(path, home));
    crate::paths::lemma_resolve_names_plain(empty_resolved(), cs);
    match canonical_form(path, home) {
        Canonical::Absolute(names) => {
            assert(render_absolute(names) == validation_outcome(path, home, allowed)->Ok_0);
        },
        _ => {},
    }
}

// ---------------------------------------------------------------------------
// Validated paths are fixed points
// ---------------------------------------------------------------------------

proof fn lemma_pieces_avoid(s: Seq<char>, p: spec_fn(char) -> bool, c: char)
    requires
        !has_char(s, c),
    ensures
        forall|k: int|
            0 <= k < split_by(s, p).len() ==> !has_char(#[trigger] split_by(s, p)[k], c),
    decreases s.len(),
{
    if s.len() > 0 {
        let t = s.drop_first();
        assert(!has_char(t, c)) by {
            if has_char(t, c) {
                let j = choose|j: int| 0 <= j < t.len() && t[j] == c;
                assert(s[j + 1] == c);
            }
        }
        lemma_pieces_avoid(t, p, c);
        crate::text::lemma_split_by_nonempty(t, p);
        let r = split_by(t, p);
        if !p(s[0]) {
            let h = seq![s[0]] + r[0];
            assert(!has_char(h, c)) by {
                if has_char(h, c) {
                    let j = choose|j: int| 0 <= j < h.len() && h[j] == c;
                    if j == 0 {
                        assert(s[0] == c);
                    } else {
                        assert(r[0][j - 1] == c);
                    }
                }
            }
            assert forall|k: int| 0 <= k < split_by(s, p).len() implies !has_char(
                #[trigger] split_by(s, p)[k],
                c,
            ) by {
                if k > 0 {
                    assert(split_by(s, p)[k] == r[k]);
                }
            }
        } else {
            assert forall|k: int| 0 <= k < split_by(s, p).len() implies !has_char(
                #[trigger] split_by(s, p)[k],
                c,
            ) by {
                if k > 0 {
                    assert(split_by(s, p)[k] == r[k - 1]);
                } else {
                    assert(split_by(s, p)[0] =~= Seq::<char>::empty());
                }
            }
        }
    }
}

proof fn lemma_piece_components_avoid(ps: Seq<Seq<char>>, c: char)
    requires
        forall|k: int| 0 <= k < ps.len() ==> !has_char(#[trigger] ps[k], c),
    ensures
        forall|k: int|
            0 <= k < piece_components(ps).len() ==> (#[trigger] piece_components(ps)[k] matches Component::Normal(n)
                ==> !has_char(n, c)),
    decreases ps.len(),
{
    if ps.len() > 0 {
        assert forall|k: int| 0 <= k < ps.drop_first().len() implies !has_char(
            #[trigger] ps.drop_first()[k],
            c,
        ) by {
            assert(ps.drop_first()[k] == ps[k + 1]);
        }
        lemma_piece_components_avoid(ps.drop_first(), c);
        let rest = piece_components(ps.drop_first());
        assert(!has_char(ps[0], c));
        match piece_component(ps[0]) {
            Some(x) => {
                assert forall|k: int| 0 <= k < piece_components(ps).len() implies (
                #[trigger] piece_components(ps)[k] matches Component::Normal(n) ==> !has_char(
                    n,
                    c,
                )) by {
                    if k > 0 {
                        assert(piece_components(ps)[k] == rest[k - 1]);
                    }
                }
            },
            None => {},
        }
    }
}

proof fn lemma_components_avoid(s: Seq<char>, c: char)
    requires
        !has_char(s, c),
    ensures
        forall|k: int|
            0 <= k < path_components(s).len() ==> (#[trigger] path_components(s)[k] matches Component::Normal(n)
                ==> !has_char(n, c)),
{
    let ps = split_char(s, '/');
    lemma_pieces_avoid(s, crate::text::eq_pred('/'), c);
    crate::text::lemma_split_by_nonempty(s, crate::text::eq_pred('/'));
    assert forall|k: int| 0 <= k < ps.drop_first().len() implies !has_char(
        #[trigger] ps.drop_first()[k],
        c,
    ) by {
        assert(ps.drop_first()[k] == ps[k + 1]);
    }
    lemma_piece_components_avoid(ps.drop_first(), c);
    lemma_piece_components_avoid(ps, c);
}

proof fn lemma_resolve_avoid(st: Resolved, cs: Seq<Component>, c: char)
    requires
        forall|k: int| 0 <= k < st.names.len() ==> !has_char(#[trigger] st.names[k], c),
        forall|k: int|
            0 <= k < cs.len() ==> (#[trigger] cs[k] matches Component::Normal(n) ==> !has_char(
                n,
                c,
            )),
    ensures
        resolve_from(st, cs) matches Some(r) ==> forall|k: int|
            0 <= k < r.names.len() ==> !has_char(#[trigger] r.names[k], c),
    decreases cs.len(),
{
    if cs.len() > 0 {
        if let Some(next) = resolve_step(st, cs[0]) {
            assert forall|k: int| 0 <= k < next.names.len() implies !has_char(
                #[trigger] next.names[k],
                c,
            ) by {
                if k < st.names.len() {
                    assert(next.names[k] == st.names[k]);
                } else {
                    assert(cs[0] matches Component::Normal(n));
                }
            }
            assert forall|k: int| 0 <= k < cs.drop_first().len() implies (
            #[trigger] cs.drop_first()[k] matches Component::Normal(n) ==> !has_char(n, c)) by {
                assert(cs.drop_first()[k] == cs[k + 1]);
            }
            lemma_resolve_avoid(next, cs.drop_first(), c);
        }
    }
}

proof fn lemma_join_avoids(names: Seq<Seq<char>>, c: char)
    requires
        c != '/',
        forall|k: int| 0 <= k < names.len() ==> !has_char(#[trigger] names[k], c),
    ensures
        !has_char(join(names, seq!['/']), c),
    decreases names.len(),
{
    if names.len() > 1 {
        let init = names.drop_last();
        assert forall|k: int| 0 <= k < init.len() implies !has_char(#[trigger] init[k], c) by {
            assert(init[k] == names[k]);
        }
        lemma_join_avoids(init, c);
        let a = join(init, seq!['/']);
        let j = a + seq!['/'] + names.last();
        assert(!has_char(names[names.len() - 1], c));
        if has_char(j, c) {
            let i = choose|i: int| 0 <= i < j.len() && j[i] == c;
            if i < a.len() {
                assert(a[i] == c);
            } else if i == a.len() {
            } else {
                assert(names.last()[i - a.len() - 1] == c);
            }
        }
    } else if names.len() == 1 {
        assert(!has_char(names[0], c));
    }
}

proof fn lemma_split_join(names: Seq<Seq<char>>)
    requires
        names.len() > 0,
        forall|k: int| 0 <= k < names.len() ==> !has_char(#[trigger] names[k], '/'),
    ensures
        split_char(join(names, seq!['/']), '/') == names,
    decreases names.len(),
{
    let p = crate::text::eq_pred('/');
    assert(!has_char(names[0], '/'));
    assert(crate::text::no_match(names[0], p)) by {
        assert forall|i: int| 0 <= i < names[0].len() implies !p(#[trigger] names[0][i]) by {
            if names[0][i] == '/' {
                assert(has_char(names[0], '/'));
            }
        }
    }
    if names.len() == 1 {
        crate::text::lemma_split_by_none(names[0], p);
        assert(seq![names[0]] =~= names);
    } else {
        crate::shell::lemma_join_first(names, seq!['/']);
        let rest = names.drop_first();
        assert forall|k: int| 0 <= k < rest.len() implies !has_char(#[trigger] rest[k], '/') by {
            assert(rest[k] == names[k + 1]);
        }
        lemma_split_join(rest);
        crate::text::lemma_split_by_at_sep(names[0], '/', join(rest, seq!['/']), p);
        assert(seq![names[0]] + rest =~= names);
    }
}

proof fn lemma_plain_components(names: Seq<Seq<char>>)
    requires
        forall|k: int| 0 <= k < names.len() ==> is_plain_name(#[trigger] names[k]),
    ensures
        piece_components(names) == names.map_values(|n: Seq<char>| Component::Normal(n)),
    decreases names.len(),
{
    if names.len() > 0 {
        let rest = names.drop_first();
        assert forall|k: int| 0 <= k < rest.len() implies is_plain_name(#[trigger] rest[k]) by {
            assert(rest[k] == names[k + 1]);
        }
        lemma_plain_components(rest);
        assert(is_plain_name(names[0]));
        assert(piece_component(names[0]) == Some(Component::Normal(names[0])));
        assert(seq![Component::Normal(names[0])] + rest.map_values(
            |n: Seq<char>| Component::Normal(n),
        ) =~= names.map_values(|n: Seq<char>| Component::Normal(n)));
    } else {
        assert(names.map_values(|n: Seq<char>| Component::Normal(n)) =~= Seq::<Component>::empty());
    }
}

proof fn lemma_resolve_normals(prefix: Seq<Seq<char>>, names: Seq<Seq<char>>)
    ensures
        resolve_from(
            Resolved { absolute: true, names: prefix },
            names.map_values(|n: Seq<char>| Component::Normal(n)),
        ) == Some(Resolved { absolute: true, names: prefix + names }),
    decreases names.len(),
{
    let cs = names.map_values(|n: Seq<char>| Component::Normal(n));
    if names.len() == 0 {
        assert(prefix + names =~= prefix);
    } else {
        assert(cs[0] == Component::Normal(names[0]));
        assert(cs.drop_first() =~= names.drop_first().map_values(
            |n: Seq<char>| Component::Normal(n),
        ));
        lemma_resolve_normals(prefix.push(names[0]), names.drop_first());
        assert(prefix.push(names[0]) + names.drop_first() =~= prefix + names);
    }
}

/// Canonicalization is idempotent: the path that canonicalization resolves
/// to canonicalizes to itself, with the same names. (A home directory that
/// brings a `$` into the path is left out: the path it gives holds the `$`,
/// which canonicalization refuses.)
pub proof fn lemma_canonical_idempotent(path: Seq<char>, home: Option<Seq<char>>)
    requires
        canonical_form(path, home) is Absolute,
        !has_char(expand_home(path, home), '$'),
    ensures
        canonical_form(render_absolute(canonical_form(path, home)->Absolute_0), home)
            == canonical_form(path, home),
{
    let s = expand_home(path, home);
    let cs = path_components(s);
    crate::paths::lemma_components_plain(s);
    crate::paths::lemma_resolve_names_plain(empty_resolved(), cs);
    lemma_components_avoid(s, '$');
    lemma_resolve_avoid(empty_resolved(), cs, '$');
    let names = match canonical_form(path, home) {
        Canonical::Absolute(names) => names,
        _ => Seq::empty(),
    };
    assert(canonical_form(path, home) == Canonical::Absolute(names));
    let r = render_absolute(names);
    // no `$` in the result
    lemma_join_avoids(names, '$');
    let j = join(names, seq!['/']);
    assert(r =~= seq!['/'] + j);
    assert(!has_char(r, '$')) by {
        if has_char(r, '$') {
            let i = choose|i: int| 0 <= i < r.len() && r[i] == '$';
            if i > 0 {
                assert(j[i - 1] == '$');
            }
        }
    }
    // nothing to expand
    assert(r[0] == '/');
    assert(!starts_with(r, seq!['~', '/']));
    assert(r != seq!['~']);
    assert(expand_home(r, home) == r);
    // the components of the result
    let p = crate::text::eq_pred('/');
    assert forall|k: int| 0 <= k < names.len() implies !has_char(#[trigger] names[k], '/') by {
        assert(is_plain_name(names[k]));
    }
    crate::text::lemma_split_by_at_sep(Seq::empty(), '/', j, p);
    assert(Seq::<char>::empty() + seq!['/'] + j =~= r);
    let normals = names.map_values(|n: Seq<char>| Component::Normal(n));
    if names.len() > 0 {
        lemma_split_join(names);
    } else {
        assert(j =~= Seq::<char>::empty());
        assert(split_char(j, '/') == seq![Seq::<char>::empty()]);
        assert(piece_components(seq![Seq::<char>::empty()]) =~= Seq::<Component>::empty()) by {
            let e = seq![Seq::<char>::empty()];
            assert(e.drop_first() =~= Seq::<Seq<char>>::empty());
            assert(e[0].len() == 0);
            assert(piece_component(e[0]) is None);
            assert(piece_components(e.drop_first()) =~= Seq::<Component>::empty());
        }
        assert(normals =~= Seq::<Component>::empty());
    }
    lemma_plain_components(names);
    assert(split_char(r, '/').drop_first() =~= split_char(j, '/'));
    assert(path_components(r) =~= seq![Component::RootDir] + normals);
    // resolving them
    let st = resolve_step(empty_resolved(), Component::RootDir)->0;
    lemma_resolve_normals(Seq::empty(), names);
    assert(Seq::<Seq<char>>::empty() + names =~= names);
    assert((seq![Component::RootDir] + normals).drop_first() =~= normals);
    assert(st.names =~= Seq::<Seq<char>>::empty());
    assert(resolve_from(empty_resolved(), path_components(r)) == Some(
        Resolved { absolute: true, names },
    ));
    assert(canonical_form(r, home) == Canonical::Absolute(names));
}


/// Validation is idempotent: the path that validation gives back is
/// accepted again, unchanged. (A home directory that brings a `$` into the
/// path is left out: the path it gives holds the `$`, which validation
/// refuses.)
pub proof fn lemma_validation_idempotent(
    path: Seq<char>,
    home: Option<Seq<char>>,
    allowed: Seq<Seq<char>>,
)
    requires
        validation_outcome(path, home, allowed) is Ok,
        !has_char(expand_home(path, home), '$'),
    ensures
        ({
            let r = validation_outcome(path, home, allowed)->Ok_0;
            validation_outcome(r, home, allowed) == Ok::<Seq<char>, ValidationErrorView>(r)
        }),
{
    lemma_canonical_idempotent(path, home);
}

} // verus!
