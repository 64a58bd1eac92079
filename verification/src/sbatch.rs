//! Sandboxed sbatch script generation
//!
//! This module generates SLURM sbatch scripts that run commands inside
//! Singularity containers with restricted bind mounts for security.
use crate::commands::slurm::{
    gpu_gres, memory_format, memory_gb, partition_name, time_format, BindMount, BindMountView,
    MemoryUnit, SandboxedSbatchRequest,
};
use crate::commands::validation::{
    lemma_validated_is_confined, validate_path_in, validation_outcome,
};
use crate::config::{under_any, PermissionConfig, SingularityConfig};
use crate::shell::{
    all_plain, build_quoted_command, lemma_quoted_command_words, line_words, push_single_quoted,
    quoted_command, single_quoted,
};
use crate::text::{
    chars_of, contains, decimal, parse_bounded, parse_unsigned, push_decimal, push_str, split_char,
    split_on, split_once, split_once_of, string_of, vviews,
};
use vstd::prelude::*;

verus! {

/// Error type for script generation
#[derive(Debug, Clone)]
pub enum ScriptError {
    NoImage,
    NoScriptsDir,
    InputPathNotAllowed(String),
    OutputPathNotAllowed(String),
    ResourceLimitExceeded(String),
    InvalidArraySpec(String),
    InvalidField(String),
}

/// A script error, as values.
pub enum ScriptErrorView {
    NoImage,
    NoScriptsDir,
    InputPathNotAllowed(Seq<char>),
    OutputPathNotAllowed(Seq<char>),
    ResourceLimitExceeded(Seq<char>),
    InvalidArraySpec(Seq<char>),
    InvalidField(Seq<char>),
}

impl View for ScriptError {
    type V = ScriptErrorView;

    open spec fn view(&self) -> ScriptErrorView {
        match self {
            ScriptError::NoImage => ScriptErrorView::NoImage,
            ScriptError::NoScriptsDir => ScriptErrorView::NoScriptsDir,
            ScriptError::InputPathNotAllowed(p) => ScriptErrorView::InputPathNotAllowed(p@),
            ScriptError::OutputPathNotAllowed(p) => ScriptErrorView::OutputPathNotAllowed(p@),
            ScriptError::ResourceLimitExceeded(m) => ScriptErrorView::ResourceLimitExceeded(m@),
            ScriptError::InvalidArraySpec(s) => ScriptErrorView::InvalidArraySpec(s@),
            ScriptError::InvalidField(f) => ScriptErrorView::InvalidField(f@),
        }
    }
}

/// The message that `Display` gives a script error.
pub open spec fn script_error_message(e: ScriptErrorView) -> Seq<char> {
    match e {
        ScriptErrorView::NoImage => "No container image specified and no default configured"@,
        ScriptErrorView::NoScriptsDir => "Singularity scripts_dir not configured"@,
        ScriptErrorView::InputPathNotAllowed(p) => "Input path not allowed: "@ + p,
        ScriptErrorView::OutputPathNotAllowed(p) => "Output path not allowed: "@ + p,
        ScriptErrorView::ResourceLimitExceeded(m) => "Resource limit exceeded: "@ + m,
        ScriptErrorView::InvalidArraySpec(s) => "Invalid array specification: "@ + s,
        ScriptErrorView::InvalidField(f) => "Invalid value for field: "@ + f,
    }
}

impl ScriptError {
    /// The message that `Display` gives this error.
    pub fn message(&self) -> (res: String)
        ensures
            res@ == script_error_message(self@),
    {
        let mut v: Vec<char> = Vec::new();
        match self {
            ScriptError::NoImage => push_str(
                &mut v,
                "No container image specified and no default configured",
            ),
            ScriptError::NoScriptsDir => push_str(&mut v, "Singularity scripts_dir not configured"),
            ScriptError::InputPathNotAllowed(p) => {
                push_str(&mut v, "Input path not allowed: ");
                push_str(&mut v, p.as_str());
            },
            ScriptError::OutputPathNotAllowed(p) => {
                push_str(&mut v, "Output path not allowed: ");
                push_str(&mut v, p.as_str());
            },
            ScriptError::ResourceLimitExceeded(m) => {
                push_str(&mut v, "Resource limit exceeded: ");
                push_str(&mut v, m.as_str());
            },
            ScriptError::InvalidArraySpec(s) => {
                push_str(&mut v, "Invalid array specification: ");
                push_str(&mut v, s.as_str());
            },
            ScriptError::InvalidField(f) => {
                push_str(&mut v, "Invalid value for field: ");
                push_str(&mut v, f.as_str());
            },
        }
        string_of(&v)
    }
}

/// Result of script generation
pub struct GeneratedScript {
    /// The script content
    pub content: String,
    /// Suggested filename (based on job name and timestamp)
    pub filename: String,
    /// The container image that will be used
    pub image: String,
    /// All bind mounts that were configured
    pub bind_mounts: Vec<BindMount>,
}

pub open spec fn mount_views(v: Seq<BindMount>) -> Seq<BindMountView> {
    v.map_values(|m: BindMount| m@)
}

// ---------------------------------------------------------------------------
// Bind mounts
// ---------------------------------------------------------------------------

/// The mount that a configured bind gives: `path:mode` or
/// `host:container:mode`.
pub open spec fn bind_spec(spec: Seq<char>) -> Option<BindMountView> {
    let parts = split_char(spec, ':');
    if parts.len() == 2 {
        Some(BindMountView { host: parts[0], container: parts[0], mode: parts[1] })
    } else if parts.len() == 3 {
        Some(BindMountView { host: parts[0], container: parts[1], mode: parts[2] })
    } else {
        None
    }
}

/// Parse a bind spec string like "path:mode" or "host:container:mode"
pub fn parse_bind_spec(spec: &str) -> (res: Option<BindMount>)
    ensures
        match res {
            Some(m) => bind_spec(spec@) == Some(m@),
            None => bind_spec(spec@) is None,
        },
{
    let s = chars_of(spec);
    let parts = split_on(&s, ':');
    let ghost ps = vviews(parts@);
    if parts.len() == 2 {
        assert(parts@[0]@ == ps[0] && parts@[1]@ == ps[1]);
        Some(
            BindMount {
                host: string_of(&parts[0]),
                container: string_of(&parts[0]),
                mode: string_of(&parts[1]),
            },
        )
    } else if parts.len() == 3 {
        assert(parts@[0]@ == ps[0] && parts@[1]@ == ps[1] && parts@[2]@ == ps[2]);
        Some(
            BindMount {
                host: string_of(&parts[0]),
                container: string_of(&parts[1]),
                mode: string_of(&parts[2]),
            },
        )
    } else {
        None
    }
}

/// How a mount is written after `--bind`: `host:container:mode`.
pub open spec fn bind_text(m: BindMountView) -> Seq<char> {
    m.host + seq![':'] + m.container + seq![':'] + m.mode
}

/// A mount written as `host:container:mode` reads back as the same mount,
/// where none of its parts holds a `:`.
pub proof fn lemma_bind_text_reads_back(m: BindMountView)
    requires
        !crate::text::has_char(m.host, ':'),
        !crate::text::has_char(m.container, ':'),
        !crate::text::has_char(m.mode, ':'),
    ensures
        bind_spec(bind_text(m)) == Some(m),
{
    let p = crate::text::eq_pred(':');
    assert forall|s: Seq<char>| !crate::text::has_char(s, ':') implies crate::text::no_match(
        s,
        p,
    ) by {
        assert forall|i: int| 0 <= i < s.len() implies !p(#[trigger] s[i]) by {
            if s[i] == ':' {
                assert(crate::text::has_char(s, ':'));
            }
        }
    }
    let tail = m.container + seq![':'] + m.mode;
    crate::text::lemma_split_by_none(m.mode, p);
    crate::text::lemma_split_by_at_sep(m.container, ':', m.mode, p);
    assert(bind_text(m) =~= m.host + seq![':'] + tail);
    crate::text::lemma_split_by_at_sep(m.host, ':', tail, p);
    assert(split_char(bind_text(m), ':') =~= seq![m.host, m.container, m.mode]);
}

/// The mounts of the configured binds that parse, in order.
pub open spec fn extra_mounts(specs: Seq<Seq<char>>) -> Seq<BindMountView>
    decreases specs.len(),
{
    if specs.len() == 0 {
        Seq::empty()
    } else {
        let r = extra_mounts(specs.drop_last());
        match bind_spec(specs.last()) {
            Some(m) => r.push(m),
            None => r,
        }
    }
}

/// Whether validation accepts a path under the bases (no home directory is
/// known to a job): its canonical form, with `.` and `..` resolved, lies
/// under one of them.
pub open spec fn admitted(bases: Seq<Seq<char>>, p: Seq<char>) -> bool {
    validation_outcome(p, None, bases) is Ok
}

/// The first path that validation refuses under the bases, if any.
pub open spec fn first_outside(bases: Seq<Seq<char>>, paths: Seq<Seq<char>>) -> int
    decreases paths.len(),
{
    if paths.len() == 0 {
        -1
    } else if !admitted(bases, paths[0]) {
        0
    } else {
        let r = first_outside(bases, paths.drop_first());
        if r < 0 {
            -1
        } else {
            r + 1
        }
    }
}

proof fn lemma_first_outside(bases: Seq<Seq<char>>, paths: Seq<Seq<char>>)
    ensures
        first_outside(bases, paths) < paths.len(),
        first_outside(bases, paths) >= 0 ==> !admitted(bases, paths[first_outside(bases, paths)]),
        forall|j: int|
            0 <= j < paths.len() && (first_outside(bases, paths) < 0 || j < first_outside(
                bases,
                paths,
            )) ==> admitted(bases, #[trigger] paths[j]),
    decreases paths.len(),
{
    if paths.len() > 0 {
        lemma_first_outside(bases, paths.drop_first());
        assert forall|j: int|
            0 <= j < paths.len() && (first_outside(bases, paths) < 0 || j < first_outside(
                bases,
                paths,
            )) implies admitted(bases, #[trigger] paths[j]) by {
            if j > 0 {
                assert(paths[j] == paths.drop_first()[j - 1]);
            }
        }
    }
}

pub open spec fn same_path_mount(p: Seq<char>, mode: Seq<char>) -> BindMountView {
    BindMountView { host: p, container: p, mode }
}

/// The bind mounts of a request, or the refusal: input paths read-only and
/// admitted under a read path; output paths and the working directory
/// read-write and admitted under a write path; then the configured binds.
/// A path that climbs out of its base with `..` is refused.
pub open spec fn mounts_outcome(req: SandboxedSbatchRequest, cfg: PermissionConfig) -> Result<
    Seq<BindMountView>,
    ScriptErrorView,
> {
    let ins = req.input_paths.deep_view();
    let outs = req.output_paths.deep_view();
    let ki = first_outside(cfg.read_paths(), ins);
    let ko = first_outside(cfg.write_paths(), outs);
    if ki >= 0 {
        Err(ScriptErrorView::InputPathNotAllowed(ins[ki]))
    } else if ko >= 0 {
        Err(ScriptErrorView::OutputPathNotAllowed(outs[ko]))
    } else {
        let base = ins.map_values(|p: Seq<char>| same_path_mount(p, "ro"@)) + outs.map_values(
            |p: Seq<char>| same_path_mount(p, "rw"@),
        );
        match req.working_dir {
            Some(wd) => if !admitted(cfg.write_paths(), wd@) {
                Err(ScriptErrorView::OutputPathNotAllowed(wd@))
            } else if outs.contains(wd@) {
                Ok(base + extra_mounts(cfg.singularity.extra_binds.deep_view()))
            } else {
                Ok(
                    base.push(same_path_mount(wd@, "rw"@)) + extra_mounts(
                        cfg.singularity.extra_binds.deep_view(),
                    ),
                )
            },
            None => Ok(base + extra_mounts(cfg.singularity.extra_binds.deep_view())),
        }
    }
}

/// Whether a mount is one that the permissions allow a request to ask for:
/// the same path inside and out, read-only and admitted under a read path,
/// or read-write and admitted under a write path (so its canonical form lies
/// under such a base: see `lemma_validated_is_confined`).
pub open spec fn permitted_mount(m: BindMountView, cfg: PermissionConfig) -> bool {
    &&& m.container == m.host
    &&& ((m.mode == "ro"@ && admitted(cfg.read_paths(), m.host)) || (m.mode == "rw"@ && admitted(
        cfg.write_paths(),
        m.host,
    )))
}

/// Whether the canonical form of a mount's host path, with `.` and `..`
/// resolved, lies under a read path (read-only) or a write path (read-write).
pub open spec fn confined_mount(m: BindMountView, cfg: PermissionConfig) -> bool {
    ||| (m.mode == "ro"@ && under_any(
        cfg.read_paths(),
        validation_outcome(m.host, None, cfg.read_paths())->Ok_0,
    ))
    ||| (m.mode == "rw"@ && under_any(
        cfg.write_paths(),
        validation_outcome(m.host, None, cfg.write_paths())->Ok_0,
    ))
}

/// A sandboxed job sees only what the permissions allow: each mount that
/// the request asks for is permitted, its canonical form lies under a base
/// of its mode (read-only under a read path, read-write under a write path),
/// and the only others are the binds that the configuration itself names,
/// which come last.
pub proof fn lemma_request_mounts_permitted(req: SandboxedSbatchRequest, cfg: PermissionConfig)
    requires
        mounts_outcome(req, cfg) is Ok,
    ensures
        ({
            let ms = mounts_outcome(req, cfg)->Ok_0;
            let extra = extra_mounts(cfg.singularity.extra_binds.deep_view());
            &&& ms.len() >= extra.len()
            &&& ms.skip(ms.len() - extra.len()) == extra
            &&& forall|k: int|
                0 <= k < ms.len() - extra.len() ==> permitted_mount(#[trigger] ms[k], cfg)
            &&& forall|k: int|
                0 <= k < ms.len() - extra.len() ==> confined_mount(#[trigger] ms[k], cfg)
        }),
{
    let ins = req.input_paths.deep_view();
    let outs = req.output_paths.deep_view();
    lemma_first_outside(cfg.read_paths(), ins);
    lemma_first_outside(cfg.write_paths(), outs);
    let ms = mounts_outcome(req, cfg)->Ok_0;
    let extra = extra_mounts(cfg.singularity.extra_binds.deep_view());
    let base = ins.map_values(|p: Seq<char>| same_path_mount(p, "ro"@)) + outs.map_values(
        |p: Seq<char>| same_path_mount(p, "rw"@),
    );
    assert forall|k: int| 0 <= k < base.len() implies permitted_mount(#[trigger] base[k], cfg) by {
        if k < ins.len() {
            assert(base[k] == same_path_mount(ins[k], "ro"@));
        } else {
            assert(base[k] == same_path_mount(outs[k - ins.len()], "rw"@));
        }
    }
    let body = match req.working_dir {
        Some(wd) => if outs.contains(wd@) {
            base
        } else {
            base.push(same_path_mount(wd@, "rw"@))
        },
        None => base,
    };
    assert forall|k: int| 0 <= k < body.len() implies permitted_mount(#[trigger] body[k], cfg) by {
        if k < base.len() {
            assert(body[k] == base[k]);
        }
    }
    assert(ms =~= body + extra);
    assert(ms.skip(ms.len() - extra.len()) =~= extra);
    assert forall|k: int| 0 <= k < ms.len() - extra.len() implies permitted_mount(
        #[trigger] ms[k],
        cfg,
    ) by {
        assert(ms[k] == body[k]);
    }
    assert forall|k: int| 0 <= k < ms.len() - extra.len() implies confined_mount(
        #[trigger] ms[k],
        cfg,
    ) by {
        assert(permitted_mount(ms[k], cfg));
        if ms[k].mode == "ro"@ && admitted(cfg.read_paths(), ms[k].host) {
            lemma_validated_is_confined(ms[k].host, None, cfg.read_paths());
        } else {
            lemma_validated_is_confined(ms[k].host, None, cfg.write_paths());
        }
    }
}

fn push_same_path_mounts(
    mounts: &mut Vec<BindMount>,
    paths: &Vec<String>,
    mode: &str,
    cfg: &PermissionConfig,
    writable: bool,
) -> (res: Result<(), ScriptError>)
    ensures
        ({
            let bases = if writable {
                cfg.write_paths()
            } else {
                cfg.read_paths()
            };
            let k = first_outside(bases, paths.deep_view());
            match res {
                Ok(()) => k < 0 && mount_views(final(mounts)@) == mount_views(old(mounts)@)
                    + paths.deep_view().map_values(|p: Seq<char>| same_path_mount(p, mode@)),
                Err(e) => k >= 0 && if writable {
                    e@ == ScriptErrorView::OutputPathNotAllowed(paths.deep_view()[k])
                } else {
                    e@ == ScriptErrorView::InputPathNotAllowed(paths.deep_view()[k])
                },
            }
        }),
{
    let ghost bases = if writable {
        cfg.write_paths()
    } else {
        cfg.read_paths()
    };
    let ghost pv = paths.deep_view();
    let ghost start = mount_views(mounts@);
    proof {
        lemma_first_outside(bases, pv);
    }
    let mut i: usize = 0;
    assert(pv.take(0).map_values(|p: Seq<char>| same_path_mount(p, mode@)) =~= Seq::<
        BindMountView,
    >::empty());
    assert(start + Seq::<BindMountView>::empty() =~= start);
    while i < paths.len()
        invariant
            pv == paths.deep_view(),
            bases == (if writable {
                cfg.write_paths()
            } else {
                cfg.read_paths()
            }),
            i <= pv.len(),
            forall|j: int| 0 <= j < i ==> admitted(bases, #[trigger] pv[j]),
            mount_views(mounts@) == start + pv.take(i as int).map_values(
                |p: Seq<char>| same_path_mount(p, mode@),
            ),
            first_outside(bases, pv) < pv.len(),
            first_outside(bases, pv) >= 0 ==> !admitted(bases, pv[first_outside(bases, pv)]),
            forall|j: int|
                0 <= j < pv.len() && (first_outside(bases, pv) < 0 || j < first_outside(bases, pv))
                    ==> admitted(bases, #[trigger] pv[j]),
        decreases pv.len() - i,
    {
        let p = &paths[i];
        assert(p@ == pv[i as int]);
        let checked = if writable {
            validate_path_in(p.as_str(), &cfg.paths.write)
        } else {
            validate_path_in(p.as_str(), &cfg.paths.read)
        };
        let allowed = checked.is_ok();
        if !allowed {
            assert(first_outside(bases, pv) == i);
            if writable {
                return Err(ScriptError::OutputPathNotAllowed(p.clone()));
            } else {
                return Err(ScriptError::InputPathNotAllowed(p.clone()));
            }
        }
        let ghost before = mount_views(mounts@);
        mounts.push(BindMount { host: p.clone(), container: p.clone(), mode: String::from_str(mode) });
        i = i + 1;
        assert(mount_views(mounts@) =~= before.push(same_path_mount(pv[i - 1], mode@)));
        assert(pv.take(i as int).map_values(|p: Seq<char>| same_path_mount(p, mode@)) =~= pv.take(
            i - 1,
        ).map_values(|p: Seq<char>| same_path_mount(p, mode@)).push(
            same_path_mount(pv[i - 1], mode@),
        ));
    }
    assert(pv.take(pv.len() as int) =~= pv);
    assert(first_outside(bases, pv) < 0) by {
        let k = first_outside(bases, pv);
        if k >= 0 {
            assert(admitted(bases, pv[k]));
        }
    }
    Ok(())
}

fn contains_string(v: &Vec<String>, s: &String) -> (b: bool)
    ensures
        b == v.deep_view().contains(s@),
{
    let c = chars_of(s.as_str());
    let mut i: usize = 0;
    while i < v.len()
        invariant
            c@ == s@,
            i <= v@.len(),
            forall|j: int| 0 <= j < i ==> v.deep_view()[j] != s@,
        decreases v@.len() - i,
    {
        assert(v.deep_view()[i as int] == v@[i as int]@);
        if crate::config::string_eq_chars(&v[i], &c) {
            return true;
        }
        i = i + 1;
    }
    false
}

/// Collect and validate all bind mounts
pub fn collect_bind_mounts(
    request: &SandboxedSbatchRequest,
    config: &PermissionConfig,
    singularity: &SingularityConfig,
) -> (res: Result<Vec<BindMount>, ScriptError>)
    requires
        *singularity == config.singularity,
    ensures
        match res {
            Ok(m) => mounts_outcome(*request, *config) == Ok::<
                Seq<BindMountView>,
                ScriptErrorView,
            >(mount_views(m@)),
            Err(e) => mounts_outcome(*request, *config) == Err::<Seq<BindMountView>, ScriptErrorView>(
                e@,
            ),
        },
{
    let mut mounts: Vec<BindMount> = Vec::new();
    let ghost ins = request.input_paths.deep_view();
    let ghost outs = request.output_paths.deep_view();
    // Input paths, read-only
    match push_same_path_mounts(&mut mounts, &request.input_paths, "ro", config, false) {
        Err(e) => return Err(e),
        Ok(()) => {},
    }
    // Output paths, read-write
    match push_same_path_mounts(&mut mounts, &request.output_paths, "rw", config, true) {
        Err(e) => return Err(e),
        Ok(()) => {},
    }
    let ghost base = ins.map_values(|p: Seq<char>| same_path_mount(p, "ro"@)) + outs.map_values(
        |p: Seq<char>| same_path_mount(p, "rw"@),
    );
    assert(mount_views(mounts@) =~= base);
    // Working directory, which must be writable
    let ghost with_wd: Seq<BindMountView>;
    match &request.working_dir {
        Some(wd) => {
            if validate_path_in(wd.as_str(), &config.paths.write).is_err() {
                return Err(ScriptError::OutputPathNotAllowed(wd.clone()));
            }
            if !contains_string(&request.output_paths, wd) {
                mounts.push(
                    BindMount { host: wd.clone(), container: wd.clone(), mode: String::from_str("rw") },
                );
                proof {
                    with_wd = base.push(same_path_mount(wd@, "rw"@));
                }
                assert(mount_views(mounts@) =~= with_wd);
            } else {
                proof {
                    with_wd = base;
                }
            }
        },
        None => {
            proof {
                with_wd = base;
            }
        },
    }
    // Extra binds from the configuration
    let binds = &singularity.extra_binds;
    let ghost bv = binds.deep_view();
    let mut i: usize = 0;
    assert(extra_mounts(bv.take(0)) =~= Seq::<BindMountView>::empty());
    assert(with_wd + Seq::<BindMountView>::empty() =~= with_wd);
    while i < binds.len()
        invariant
            bv == binds.deep_view(),
            i <= bv.len(),
            mount_views(mounts@) == with_wd + extra_mounts(bv.take(i as int)),
        decreases bv.len() - i,
    {
        assert(bv.take(i as int + 1).drop_last() =~= bv.take(i as int));
        assert(bv.take(i as int + 1).last() == binds@[i as int]@);
        let ghost before = mount_views(mounts@);
        match parse_bind_spec(binds[i].as_str()) {
            Some(m) => {
                mounts.push(m);
                assert(mount_views(mounts@) =~= before.push(mounts@.last()@));
            },
            None => {},
        }
        i = i + 1;
    }
    assert(bv.take(bv.len() as int) =~= bv);
    Ok(mounts)
}

// ---------------------------------------------------------------------------
// Resources
// ---------------------------------------------------------------------------

/// Whether the limit checks can be computed without overflow, in the order
/// in which they run.
pub open spec fn resources_computable(req: SandboxedSbatchRequest, cfg: PermissionConfig) -> bool {
    match cfg.resources {
        None => true,
        Some(l) => req.cpus <= l.max_cpus ==> {
            &&& (req.memory matches Some(m) ==> memory_gb(m) <= u32::MAX)
            &&& ((req.memory matches Some(m) ==> memory_gb(m) <= l.max_memory_gb) ==> (
            req.time matches Some(t) ==> t.days * 24 + t.hours <= u32::MAX))
        },
    }
}

/// The first limit that the request exceeds, as its message; `None` where it
/// keeps to all of them or no limits are configured.
pub open spec fn resource_problem(req: SandboxedSbatchRequest, cfg: PermissionConfig) -> Option<
    Seq<char>,
> {
    match cfg.resources {
        None => None,
        Some(l) => if req.cpus > l.max_cpus {
            Some(
                "CPUs "@ + decimal(req.cpus as nat) + " exceeds max "@ + decimal(
                    l.max_cpus as nat,
                ),
            )
        } else if req.memory matches Some(m) && memory_gb(m) > l.max_memory_gb {
            Some(
                "Memory "@ + decimal(memory_gb(req.memory->0) as nat) + "GB exceeds max "@
                    + decimal(l.max_memory_gb as nat) + "GB"@,
            )
        } else if req.time matches Some(t) && t.days * 24 + t.hours > l.max_time_hours {
            Some(
                "Time "@ + decimal((req.time->0.days * 24 + req.time->0.hours) as nat)
                    + "h exceeds max "@ + decimal(l.max_time_hours as nat) + "h"@,
            )
        } else if req.gpu matches Some(g) && g.count > l.max_gpus {
            Some(
                "GPUs "@ + decimal(req.gpu->0.count as nat) + " exceeds max "@ + decimal(
                    l.max_gpus as nat,
                ),
            )
        } else {
            None
        },
    }
}

/// Validate resource limits against config (if limits are configured)
pub fn validate_resources(request: &SandboxedSbatchRequest, config: &PermissionConfig) -> (res:
    Result<(), ScriptError>)
    requires
        resources_computable(*request, *config),
    ensures
        match res {
            Ok(()) => resource_problem(*request, *config) is None,
            Err(ScriptError::ResourceLimitExceeded(m)) => resource_problem(*request, *config)
                == Some(m@),
            Err(_) => false,
        },
{
    // If no resource limits configured, let O2 handle enforcement
    let limits = match &config.resources {
        Some(limits) => limits,
        None => return Ok(()),
    };
    let mut v: Vec<char> = Vec::new();
    if request.cpus > limits.max_cpus {
        push_str(&mut v, "CPUs ");
        push_decimal(&mut v, request.cpus as u64);
        push_str(&mut v, " exceeds max ");
        push_decimal(&mut v, limits.max_cpus as u64);
        return Err(ScriptError::ResourceLimitExceeded(string_of(&v)));
    }
    if let Some(mem) = &request.memory {
        let mem_gb = mem.to_gb();
        if mem_gb > limits.max_memory_gb {
            push_str(&mut v, "Memory ");
            push_decimal(&mut v, mem_gb as u64);
            push_str(&mut v, "GB exceeds max ");
            push_decimal(&mut v, limits.max_memory_gb as u64);
            push_str(&mut v, "GB");
            return Err(ScriptError::ResourceLimitExceeded(string_of(&v)));
        }
    }
    if let Some(time) = &request.time {
        let total_hours = time.total_hours();
        if total_hours > limits.max_time_hours {
            push_str(&mut v, "Time ");
            push_decimal(&mut v, total_hours as u64);
            push_str(&mut v, "h exceeds max ");
            push_decimal(&mut v, limits.max_time_hours as u64);
            push_str(&mut v, "h");
            return Err(ScriptError::ResourceLimitExceeded(string_of(&v)));
        }
    }
    if let Some(gpu) = &request.gpu {
        if gpu.count > limits.max_gpus {
            push_str(&mut v, "GPUs ");
            push_decimal(&mut v, gpu.count as u64);
            push_str(&mut v, " exceeds max ");
            push_decimal(&mut v, limits.max_gpus as u64);
            return Err(ScriptError::ResourceLimitExceeded(string_of(&v)));
        }
    }
    Ok(())
}

// ---------------------------------------------------------------------------
// Array specifications
// ---------------------------------------------------------------------------

/// The range part of an array specification: what precedes any `%`.
pub open spec fn array_range_part(spec: Seq<char>) -> Seq<char> {
    split_char(spec, '%')[0]
}

pub open spec fn parse_u32_spec(s: Seq<char>) -> Option<u32> {
    match parse_unsigned(s, u32::MAX as nat) {
        Some(v) => Some(v as u32),
        None => None,
    }
}

/// Whether the size of a parsed range can be computed without overflow:
/// the end is not below the start, and the size fits in 32 bits.
pub open spec fn array_computable(spec: Seq<char>, cfg: PermissionConfig) -> bool {
    match split_once(array_range_part(spec), '-') {
        Some((s, e)) => match (parse_u32_spec(s), parse_u32_spec(e)) {
            (Some(start), Some(end)) => cfg.resources is Some ==> start <= end && end - start + 1
                <= u32::MAX,
            _ => true,
        },
        None => true,
    }
}

/// What the array check refuses: a range whose ends are not numbers, or one
/// larger than the configured limit.
pub open spec fn array_problem(spec: Seq<char>, cfg: PermissionConfig) -> Option<ScriptErrorView> {
    match split_once(array_range_part(spec), '-') {
        Some((s, e)) => match (parse_u32_spec(s), parse_u32_spec(e)) {
            (Some(start), Some(end)) => match cfg.resources {
                Some(l) => if end - start + 1 > l.max_array_size {
                    Some(
                        ScriptErrorView::ResourceLimitExceeded(
                            "Array size "@ + decimal((end - start + 1) as nat) + " exceeds max "@
                                + decimal(l.max_array_size as nat),
                        ),
                    )
                } else {
                    None
                },
                None => None,
            },
            _ => Some(ScriptErrorView::InvalidArraySpec(spec)),
        },
        None => None,
    }
}

/// Validate array job specification
pub fn validate_array_spec(spec: &str, config: &PermissionConfig) -> (res: Result<(), ScriptError>)
    requires
        array_computable(spec@, *config),
    ensures
        match res {
            Ok(()) => array_problem(spec@, *config) is None,
            Err(e) => array_problem(spec@, *config) == Some(e@),
        },
{
    // Parse array spec like "1-100" or "1-100%10"
    let s = chars_of(spec);
    let pieces = split_on(&s, '%');
    proof {
        crate::text::lemma_split_by_nonempty(s@, crate::text::eq_pred('%'));
    }
    assert(pieces@[0]@ == array_range_part(spec@));
    match split_once_of(&pieces[0], '-') {
        Some((start, end)) => {
            let start = parse_bounded(&start, u32::MAX as u64);
            let end = parse_bounded(&end, u32::MAX as u64);
            match (start, end) {
                (Some(start), Some(end)) => {
                    let start = start as u32;
                    let end = end as u32;
                    // Only check array size limit if resources are configured
                    if let Some(limits) = &config.resources {
                        let array_size = end - start + 1;
                        if array_size > limits.max_array_size {
                            let mut v: Vec<char> = Vec::new();
                            push_str(&mut v, "Array size ");
                            push_decimal(&mut v, array_size as u64);
                            push_str(&mut v, " exceeds max ");
                            push_decimal(&mut v, limits.max_array_size as u64);
                            return Err(ScriptError::ResourceLimitExceeded(string_of(&v)));
                        }
                    }
                    Ok(())
                },
                _ => Err(ScriptError::InvalidArraySpec(String::from_str(spec))),
            }
        },
        None => Ok(()),
    }
}

// ---------------------------------------------------------------------------
// Script content
// ---------------------------------------------------------------------------

/// A line of a script before its `singularity exec` line: a comment (the
/// whole line, from its `#`), a blank line, the module load, or an export of
/// a value in single quotes.
pub enum HeadLine {
    Comment(Seq<char>),
    Blank,
    ModuleLoad,
    Export(Seq<char>, Seq<char>),
}

/// How a line is written, without its newline.
pub open spec fn head_line_text(l: HeadLine) -> Seq<char> {
    match l {
        HeadLine::Comment(t) => t,
        HeadLine::Blank => Seq::empty(),
        HeadLine::ModuleLoad => "module load singularity"@,
        HeadLine::Export(n, v) => "export "@ + n + "="@ + single_quoted(v),
    }
}

/// The lines, each followed by a newline.
pub open spec fn lines_text(ls: Seq<HeadLine>) -> Seq<char>
    decreases ls.len(),
{
    if ls.len() == 0 {
        Seq::empty()
    } else {
        lines_text(ls.drop_last()) + head_line_text(ls.last()) + "\n"@
    }
}

proof fn lemma_lines_push(ls: Seq<HeadLine>, l: HeadLine)
    ensures
        lines_text(ls.push(l)) == lines_text(ls) + head_line_text(l) + "\n"@,
{
    assert(ls.push(l).drop_last() =~= ls);
}

proof fn lemma_lines_append(a: Seq<HeadLine>, b: Seq<HeadLine>)
    ensures
        lines_text(a + b) == lines_text(a) + lines_text(b),
    decreases b.len(),
{
    if b.len() == 0 {
        assert(a + b =~= a);
        assert(lines_text(a) + Seq::<char>::empty() =~= lines_text(a));
    } else {
        lemma_lines_append(a, b.drop_last());
        assert((a + b).drop_last() =~= a + b.drop_last());
        assert((a + b).last() == b.last());
        assert(lines_text(a + b) =~= lines_text(a) + lines_text(b));
    }
}

/// A comment line of `prefix` and the value; none where there is no value.
pub open spec fn opt_comment(prefix: Seq<char>, v: Option<Seq<char>>) -> Seq<HeadLine> {
    match v {
        Some(x) => seq![HeadLine::Comment(prefix + x)],
        None => Seq::empty(),
    }
}

/// `#SBATCH --key=value` for each extra directive, in order.
pub open spec fn directive_comments(ds: Seq<(Seq<char>, Seq<char>)>) -> Seq<HeadLine> {
    ds.map_values(
        |d: (Seq<char>, Seq<char>)| HeadLine::Comment("#SBATCH --"@ + d.0 + "="@ + d.1),
    )
}

/// A comment line for each bind mount.
pub open spec fn mount_comments(ms: Seq<BindMountView>) -> Seq<HeadLine> {
    ms.map_values(
        |m: BindMountView|
            HeadLine::Comment("#   "@ + m.host + ":"@ + m.container + " ("@ + m.mode + ")"@),
    )
}

/// An export for each environment variable, its value in single quotes.
pub open spec fn env_exports(env: Seq<(Seq<char>, Seq<char>)>) -> Seq<HeadLine> {
    env.map_values(|e: (Seq<char>, Seq<char>)| HeadLine::Export(e.0, e.1))
}

/// The shebang, the job name, the partition and the CPUs.
pub open spec fn job_lines(req: SandboxedSbatchRequest) -> Seq<HeadLine> {
    seq![
        HeadLine::Comment("#!/bin/bash"@),
        HeadLine::Blank,
        HeadLine::Comment("#SBATCH --job-name="@ + req.job_name@),
    ] + opt_comment(
        "#SBATCH --partition="@,
        match req.partition {
            Some(p) => Some(partition_name(p)),
            None => None,
        },
    ) + seq![HeadLine::Comment("#SBATCH --cpus-per-task="@ + decimal(req.cpus as nat))]
}

/// Memory, time and GPU directives.
pub open spec fn resource_lines(req: SandboxedSbatchRequest) -> Seq<HeadLine> {
    opt_comment(
        "#SBATCH --mem="@,
        match req.memory {
            Some(m) => Some(memory_format(m)),
            None => None,
        },
    ) + opt_comment(
        "#SBATCH --time="@,
        match req.time {
            Some(t) => Some(time_format(t)),
            None => None,
        },
    ) + opt_comment(
        "#SBATCH --gres="@,
        match req.gpu {
            Some(g) => Some(gpu_gres(g)),
            None => None,
        },
    )
}

/// Array, output and error directives, and the extra ones.
pub open spec fn io_lines(req: SandboxedSbatchRequest) -> Seq<HeadLine> {
    opt_comment("#SBATCH --array="@, req.array.deep_view()) + opt_comment(
        "#SBATCH --output="@,
        req.output.deep_view(),
    ) + opt_comment("#SBATCH --error="@, req.error.deep_view()) + directive_comments(
        req.extra_directives.deep_view(),
    )
}

/// The shebang and the `#SBATCH` directives.
pub open spec fn directive_lines(req: SandboxedSbatchRequest) -> Seq<HeadLine> {
    job_lines(req) + resource_lines(req) + io_lines(req)
}

/// The comment that names the container and the mounts, and the module load.
pub open spec fn header_lines(image: Seq<char>, ms: Seq<BindMountView>) -> Seq<HeadLine> {
    seq![
        HeadLine::Blank,
        HeadLine::Comment("# Generated by remote-bridge sandboxed_sbatch"@),
        HeadLine::Comment("# Container: "@ + image),
        HeadLine::Comment("# Bind mounts:"@),
    ] + mount_comments(ms) + seq![HeadLine::Blank, HeadLine::ModuleLoad, HeadLine::Blank]
}

/// The cache directory and the environment.
pub open spec fn env_lines(req: SandboxedSbatchRequest, sing: SingularityConfig) -> Seq<HeadLine> {
    (match sing.cache_dir {
        Some(d) => seq![HeadLine::Export("SINGULARITY_CACHEDIR"@, d@), HeadLine::Blank],
        None => Seq::empty(),
    }) + env_exports(req.environment.deep_view()) + (if req.environment@.len() > 0 {
        seq![HeadLine::Blank]
    } else {
        Seq::empty()
    })
}

/// Every line before the `singularity exec` line.
pub open spec fn head_lines(
    req: SandboxedSbatchRequest,
    image: Seq<char>,
    ms: Seq<BindMountView>,
    sing: SingularityConfig,
) -> Seq<HeadLine> {
    directive_lines(req) + header_lines(image, ms) + env_lines(req, sing)
}

/// `--bind` and the mount for each mount, in order.
pub open spec fn bind_args(ms: Seq<BindMountView>) -> Seq<Seq<char>>
    decreases ms.len(),
{
    if ms.len() == 0 {
        Seq::empty()
    } else {
        bind_args(ms.drop_last()) + seq!["--bind"@, bind_text(ms.last())]
    }
}

/// The arguments of `singularity`: `exec`, the binds, the working
/// directory, the image, and `bash -c` with the command as one argument.
pub open spec fn exec_args(
    req: SandboxedSbatchRequest,
    image: Seq<char>,
    ms: Seq<BindMountView>,
) -> Seq<Seq<char>> {
    seq!["exec"@] + bind_args(ms) + (match req.working_dir {
        Some(wd) => seq!["--pwd"@, wd@],
        None => Seq::empty(),
    }) + seq![image, "bash"@, "-c"@, req.command@]
}

/// The `singularity exec` line, each argument one shell word.
pub open spec fn exec_line(
    req: SandboxedSbatchRequest,
    image: Seq<char>,
    ms: Seq<BindMountView>,
) -> Seq<char> {
    quoted_command("singularity"@, exec_args(req, image, ms))
}

/// The whole script.
pub open spec fn script_text(
    req: SandboxedSbatchRequest,
    image: Seq<char>,
    ms: Seq<BindMountView>,
    sing: SingularityConfig,
) -> Seq<char> {
    lines_text(head_lines(req, image, ms, sing)) + exec_line(req, image, ms) + "\n"@
}

fn push_line_break(out: &mut Vec<char>, Ghost(ls): Ghost<Seq<HeadLine>>, Ghost(l): Ghost<HeadLine>, Ghost(start): Ghost<Seq<char>>)
    requires
        old(out)@ == start + lines_text(ls) + head_line_text(l),
    ensures
        final(out)@ == start + lines_text(ls.push(l)),
{
    push_str(out, "\n");
    proof {
        lemma_lines_push(ls, l);
        assert(out@ =~= start + lines_text(ls.push(l)));
    }
}

fn push_opt_comment(out: &mut Vec<char>, prefix: &str, v: Option<&String>)
    ensures
        final(out)@ == old(out)@ + lines_text(
            opt_comment(
                prefix@,
                match v {
                    Some(x) => Some(x@),
                    None => None,
                },
            ),
        ),
{
    match v {
        Some(x) => {
            let ghost start = out@;
            push_str(out, prefix);
            push_str(out, x.as_str());
            push_str(out, "\n");
            proof {
                lemma_lines_push(Seq::empty(), HeadLine::Comment(prefix@ + x@));
                assert(seq![HeadLine::Comment(prefix@ + x@)] =~= Seq::<HeadLine>::empty().push(
                    HeadLine::Comment(prefix@ + x@),
                ));
            }
            assert(out@ =~= start + lines_text(seq![HeadLine::Comment(prefix@ + x@)]));
        },
        None => {
            assert(out@ =~= old(out)@ + lines_text(Seq::<HeadLine>::empty()));
        },
    }
}

fn push_job_lines(out: &mut Vec<char>, request: &SandboxedSbatchRequest)
    ensures
        final(out)@ == old(out)@ + lines_text(job_lines(*request)),
{
    let ghost start = out@;
    let ghost l0 = HeadLine::Comment("#!/bin/bash"@);
    let ghost l2 = HeadLine::Comment("#SBATCH --job-name="@ + request.job_name@);
    push_str(out, "#!/bin/bash");
    assert(out@ =~= start + lines_text(Seq::empty()) + head_line_text(l0));
    push_line_break(out, Ghost(Seq::empty()), Ghost(l0), Ghost(start));
    let ghost q1 = seq![l0];
    assert(Seq::<HeadLine>::empty().push(l0) =~= q1);
    assert(out@ =~= start + lines_text(q1) + head_line_text(HeadLine::Blank));
    push_line_break(out, Ghost(q1), Ghost(HeadLine::Blank), Ghost(start));
    let ghost q2 = seq![l0, HeadLine::Blank];
    assert(q1.push(HeadLine::Blank) =~= q2);
    push_str(out, "#SBATCH --job-name=");
    push_str(out, request.job_name.as_str());
    assert(out@ =~= start + lines_text(q2) + head_line_text(l2));
    push_line_break(out, Ghost(q2), Ghost(l2), Ghost(start));
    assert(q2.push(l2) =~= seq![l0, HeadLine::Blank, l2]);
    let ghost a = out@;
    match &request.partition {
        Some(p) => {
            let name = String::from_str(p.as_str());
            push_opt_comment(out, "#SBATCH --partition=", Some(&name));
        },
        None => push_opt_comment(out, "#SBATCH --partition=", None),
    }
    let ghost b = out@;
    let ghost l3 = HeadLine::Comment("#SBATCH --cpus-per-task="@ + decimal(request.cpus as nat));
    push_str(out, "#SBATCH --cpus-per-task=");
    push_decimal(out, request.cpus as u64);
    assert(out@ =~= b + lines_text(Seq::empty()) + head_line_text(l3));
    push_line_break(out, Ghost(Seq::empty()), Ghost(l3), Ghost(b));
    assert(Seq::<HeadLine>::empty().push(l3) =~= seq![l3]);
    proof {
        let req = *request;
        let p1 = seq![l0, HeadLine::Blank, l2];
        let p2 = opt_comment(
            "#SBATCH --partition="@,
            match req.partition {
                Some(p) => Some(partition_name(p)),
                None => None,
            },
        );
        let p3 = seq![l3];
        lemma_lines_append(p1, p2);
        lemma_lines_append(p1 + p2, p3);
        assert(job_lines(req) == p1 + p2 + p3);
        assert(out@ =~= start + lines_text(job_lines(req)));
    }
}

fn push_resource_lines(out: &mut Vec<char>, request: &SandboxedSbatchRequest)
    ensures
        final(out)@ == old(out)@ + lines_text(resource_lines(*request)),
{
    let ghost start = out@;
    match &request.memory {
        Some(m) => {
            let f = m.to_slurm_format();
            push_opt_comment(out, "#SBATCH --mem=", Some(&f));
        },
        None => push_opt_comment(out, "#SBATCH --mem=", None),
    }
    match &request.time {
        Some(t) => {
            let f = t.to_slurm_format();
            push_opt_comment(out, "#SBATCH --time=", Some(&f));
        },
        None => push_opt_comment(out, "#SBATCH --time=", None),
    }
    match &request.gpu {
        Some(g) => {
            let f = g.to_slurm_gres();
            push_opt_comment(out, "#SBATCH --gres=", Some(&f));
        },
        None => push_opt_comment(out, "#SBATCH --gres=", None),
    }
    proof {
        let req = *request;
        let p4 = opt_comment(
            "#SBATCH --mem="@,
            match req.memory {
                Some(m) => Some(memory_format(m)),
                None => None,
            },
        );
        let p5 = opt_comment(
            "#SBATCH --time="@,
            match req.time {
                Some(t) => Some(time_format(t)),
                None => None,
            },
        );
        let p6 = opt_comment(
            "#SBATCH --gres="@,
            match req.gpu {
                Some(g) => Some(gpu_gres(g)),
                None => None,
            },
        );
        lemma_lines_append(p4, p5);
        lemma_lines_append(p4 + p5, p6);
        assert(out@ =~= start + lines_text(resource_lines(req)));
    }
}

fn push_io_lines(out: &mut Vec<char>, request: &SandboxedSbatchRequest)
    ensures
        final(out)@ == old(out)@ + lines_text(io_lines(*request)),
{
    let ghost start = out@;
    push_opt_comment(out, "#SBATCH --array=", request.array.as_ref());
    push_opt_comment(out, "#SBATCH --output=", request.output.as_ref());
    push_opt_comment(out, "#SBATCH --error=", request.error.as_ref());
    push_directive_comments(out, &request.extra_directives);
    proof {
        let req = *request;
        let p7 = opt_comment("#SBATCH --array="@, req.array.deep_view());
        let p8 = opt_comment("#SBATCH --output="@, req.output.deep_view());
        let p9 = opt_comment("#SBATCH --error="@, req.error.deep_view());
        let p10 = directive_comments(req.extra_directives.deep_view());
        lemma_lines_append(p7, p8);
        lemma_lines_append(p7 + p8, p9);
        lemma_lines_append(p7 + p8 + p9, p10);
        assert(out@ =~= start + lines_text(io_lines(req)));
    }
}

fn push_directive_lines(out: &mut Vec<char>, request: &SandboxedSbatchRequest)
    ensures
        final(out)@ == old(out)@ + lines_text(directive_lines(*request)),
{
    let ghost start = out@;
    push_job_lines(out, request);
    push_resource_lines(out, request);
    push_io_lines(out, request);
    proof {
        let req = *request;
        lemma_lines_append(job_lines(req), resource_lines(req));
        lemma_lines_append(job_lines(req) + resource_lines(req), io_lines(req));
        assert(out@ =~= start + lines_text(directive_lines(req)));
    }
}

fn push_directive_comments(out: &mut Vec<char>, ds: &Vec<(String, String)>)
    ensures
        final(out)@ == old(out)@ + lines_text(directive_comments(ds.deep_view())),
{
    let ghost start = out@;
    let ghost dv = ds.deep_view();
    let mut i: usize = 0;
    assert(directive_comments(dv.take(0)) =~= Seq::<HeadLine>::empty());
    assert(start + Seq::<char>::empty() =~= start);
    while i < ds.len()
        invariant
            dv == ds.deep_view(),
            i <= dv.len(),
            out@ == start + lines_text(directive_comments(dv.take(i as int))),
        decreases dv.len() - i,
    {
        let ghost prev = directive_comments(dv.take(i as int));
        let ghost l = HeadLine::Comment("#SBATCH --"@ + ds@[i as int].0@ + "="@ + ds@[i as int].1@);
        assert(dv[i as int] == (ds@[i as int].0@, ds@[i as int].1@));
        assert(directive_comments(dv.take(i as int + 1)) =~= prev.push(l));
        let ghost before = out@;
        push_str(out, "#SBATCH --");
        push_str(out, ds[i].0.as_str());
        push_str(out, "=");
        push_str(out, ds[i].1.as_str());
        assert(out@ =~= start + lines_text(prev) + head_line_text(l));
        push_line_break(out, Ghost(prev), Ghost(l), Ghost(start));
        i = i + 1;
    }
    assert(dv.take(dv.len() as int) =~= dv);
}

fn push_mount_comments(out: &mut Vec<char>, mounts: &Vec<BindMount>)
    ensures
        final(out)@ == old(out)@ + lines_text(mount_comments(mount_views(mounts@))),
{
    let ghost start = out@;
    let ghost mv = mount_views(mounts@);
    let mut i: usize = 0;
    assert(mount_comments(mv.take(0)) =~= Seq::<HeadLine>::empty());
    assert(start + Seq::<char>::empty() =~= start);
    while i < mounts.len()
        invariant
            mv == mount_views(mounts@),
            i <= mv.len(),
            out@ == start + lines_text(mount_comments(mv.take(i as int))),
        decreases mv.len() - i,
    {
        let m = &mounts[i];
        let ghost prev = mount_comments(mv.take(i as int));
        let ghost l = HeadLine::Comment(
            "#   "@ + m.host@ + ":"@ + m.container@ + " ("@ + m.mode@ + ")"@,
        );
        assert(mv[i as int] == m@);
        assert(mount_comments(mv.take(i as int + 1)) =~= prev.push(l));
        push_str(out, "#   ");
        push_str(out, m.host.as_str());
        push_str(out, ":");
        push_str(out, m.container.as_str());
        push_str(out, " (");
        push_str(out, m.mode.as_str());
        push_str(out, ")");
        assert(out@ =~= start + lines_text(prev) + head_line_text(l));
        push_line_break(out, Ghost(prev), Ghost(l), Ghost(start));
        i = i + 1;
    }
    assert(mv.take(mv.len() as int) =~= mv);
}

fn push_header_lines(out: &mut Vec<char>, image: &str, mounts: &Vec<BindMount>)
    ensures
        final(out)@ == old(out)@ + lines_text(header_lines(image@, mount_views(mounts@))),
{
    let ghost start = out@;
    let ghost l1 = HeadLine::Comment("# Generated by remote-bridge sandboxed_sbatch"@);
    let ghost l2 = HeadLine::Comment("# Container: "@ + image@);
    let ghost l3 = HeadLine::Comment("# Bind mounts:"@);
    let ghost p1 = seq![HeadLine::Blank, l1, l2, l3];
    assert(out@ =~= start + lines_text(Seq::empty()) + head_line_text(HeadLine::Blank));
    push_line_break(out, Ghost(Seq::empty()), Ghost(HeadLine::Blank), Ghost(start));
    let ghost q3 = seq![HeadLine::Blank];
    assert(Seq::<HeadLine>::empty().push(HeadLine::Blank) =~= q3);
    push_str(out, "# Generated by remote-bridge sandboxed_sbatch");
    assert(out@ =~= start + lines_text(q3) + head_line_text(l1));
    push_line_break(out, Ghost(q3), Ghost(l1), Ghost(start));
    let ghost q4 = seq![HeadLine::Blank, l1];
    assert(q3.push(l1) =~= q4);
    push_str(out, "# Container: ");
    push_str(out, image);
    assert(out@ =~= start + lines_text(q4) + head_line_text(l2));
    push_line_break(out, Ghost(q4), Ghost(l2), Ghost(start));
    let ghost q5 = seq![HeadLine::Blank, l1, l2];
    assert(q4.push(l2) =~= q5);
    push_str(out, "# Bind mounts:");
    assert(out@ =~= start + lines_text(q5) + head_line_text(l3));
    push_line_break(out, Ghost(q5), Ghost(l3), Ghost(start));
    assert(q5.push(l3) =~= p1);
    let ghost a = out@;
    push_mount_comments(out, mounts);
    let ghost b = out@;
    let ghost p3 = seq![HeadLine::Blank, HeadLine::ModuleLoad, HeadLine::Blank];
    assert(out@ =~= b + lines_text(Seq::empty()) + head_line_text(HeadLine::Blank));
    push_line_break(out, Ghost(Seq::empty()), Ghost(HeadLine::Blank), Ghost(b));
    let ghost q6 = seq![HeadLine::Blank];
    assert(Seq::<HeadLine>::empty().push(HeadLine::Blank) =~= q6);
    push_str(out, "module load singularity");
    assert(out@ =~= b + lines_text(q6) + head_line_text(HeadLine::ModuleLoad));
    push_line_break(out, Ghost(q6), Ghost(HeadLine::ModuleLoad), Ghost(b));
    let ghost q_ml = seq![HeadLine::Blank, HeadLine::ModuleLoad];
    assert(q6.push(HeadLine::ModuleLoad) =~= q_ml);
    assert(out@ =~= b + lines_text(q_ml) + head_line_text(HeadLine::Blank));
    push_line_break(out, Ghost(q_ml), Ghost(HeadLine::Blank), Ghost(b));
    assert(q_ml.push(HeadLine::Blank) =~= p3);
    proof {
        let p2 = mount_comments(mount_views(mounts@));
        lemma_lines_append(p1, p2);
        lemma_lines_append(p1 + p2, p3);
        assert(header_lines(image@, mount_views(mounts@)) == p1 + p2 + p3);
        assert(out@ =~= start + lines_text(header_lines(image@, mount_views(mounts@))));
    }
}

fn push_env_lines(out: &mut Vec<char>, request: &SandboxedSbatchRequest, singularity: &SingularityConfig)
    ensures
        final(out)@ == old(out)@ + lines_text(env_lines(*request, *singularity)),
{
    let ghost start = out@;
    let ghost p1: Seq<HeadLine> = if singularity.cache_dir is Some {
        seq![HeadLine::Export("SINGULARITY_CACHEDIR"@, singularity.cache_dir->0@), HeadLine::Blank]
    } else {
        Seq::empty()
    };
    // The singularity cache directory, if configured
    if let Some(cache_dir) = &singularity.cache_dir {
        let ghost l = HeadLine::Export("SINGULARITY_CACHEDIR"@, cache_dir@);
        push_str(out, "export ");
        push_str(out, "SINGULARITY_CACHEDIR");
        push_str(out, "=");
        let value = chars_of(cache_dir.as_str());
        push_single_quoted(out, &value);
        assert(out@ =~= start + lines_text(Seq::empty()) + head_line_text(l));
        push_line_break(out, Ghost(Seq::empty()), Ghost(l), Ghost(start));
        assert(Seq::<HeadLine>::empty().push(l) =~= seq![l]);
        assert(out@ =~= start + lines_text(seq![l]) + head_line_text(HeadLine::Blank));
        let ghost q7 = seq![l];
        push_line_break(out, Ghost(q7), Ghost(HeadLine::Blank), Ghost(start));
        assert(Seq::<HeadLine>::empty().push(l) =~= seq![l]);
        assert(seq![l].push(HeadLine::Blank) =~= p1);
    } else {
        assert(out@ =~= start + lines_text(p1));
    }
    let ghost s1 = out@;
    // The environment, each value in single quotes
    let env = &request.environment;
    let ghost ev = env.deep_view();
    let mut i: usize = 0;
    assert(env_exports(ev.take(0)) =~= Seq::<HeadLine>::empty());
    assert(s1 + Seq::<char>::empty() =~= s1);
    while i < env.len()
        invariant
            ev == env.deep_view(),
            i <= ev.len(),
            out@ == s1 + lines_text(env_exports(ev.take(i as int))),
        decreases ev.len() - i,
    {
        let ghost prev = env_exports(ev.take(i as int));
        let ghost l = HeadLine::Export(env@[i as int].0@, env@[i as int].1@);
        assert(ev[i as int] == (env@[i as int].0@, env@[i as int].1@));
        assert(env_exports(ev.take(i as int + 1)) =~= prev.push(l));
        push_str(out, "export ");
        push_str(out, env[i].0.as_str());
        push_str(out, "=");
        let value = chars_of(env[i].1.as_str());
        push_single_quoted(out, &value);
        assert(out@ =~= s1 + lines_text(prev) + head_line_text(l));
        push_line_break(out, Ghost(prev), Ghost(l), Ghost(s1));
        i = i + 1;
    }
    assert(ev.take(ev.len() as int) =~= ev);
    let ghost s2 = out@;
    let ghost p3: Seq<HeadLine> = if env@.len() > 0 {
        seq![HeadLine::Blank]
    } else {
        Seq::empty()
    };
    if env.len() > 0 {
        assert(out@ =~= s2 + lines_text(Seq::empty()) + head_line_text(HeadLine::Blank));
        push_line_break(out, Ghost(Seq::empty()), Ghost(HeadLine::Blank), Ghost(s2));
        assert(Seq::<HeadLine>::empty().push(HeadLine::Blank) =~= p3);
    } else {
        assert(out@ =~= s2 + lines_text(p3));
    }
    proof {
        let p2 = env_exports(ev);
        lemma_lines_append(p1, p2);
        lemma_lines_append(p1 + p2, p3);
        assert(env_lines(*request, *singularity) == p1 + p2 + p3);
        assert(out@ =~= start + lines_text(env_lines(*request, *singularity)));
    }
}

/// `host:container:mode`, as it follows `--bind`.
fn bind_text_of(m: &BindMount) -> (res: String)
    ensures
        res@ == bind_text(m@),
{
    let mut v: Vec<char> = Vec::new();
    push_str(&mut v, m.host.as_str());
    v.push(':');
    push_str(&mut v, m.container.as_str());
    v.push(':');
    push_str(&mut v, m.mode.as_str());
    assert(v@ =~= bind_text(m@));
    string_of(&v)
}

fn exec_arg_list(request: &SandboxedSbatchRequest, image: &str, mounts: &Vec<BindMount>) -> (res:
    Vec<String>)
    ensures
        res.deep_view() == exec_args(*request, image@, mount_views(mounts@)),
{
    let mut args: Vec<String> = Vec::new();
    args.push(String::from_str("exec"));
    let ghost mv = mount_views(mounts@);
    let mut i: usize = 0;
    assert(args.deep_view() =~= seq!["exec"@] + bind_args(mv.take(0)));
    while i < mounts.len()
        invariant
            mv == mount_views(mounts@),
            i <= mv.len(),
            args.deep_view() == seq!["exec"@] + bind_args(mv.take(i as int)),
        decreases mv.len() - i,
    {
        let ghost before = args.deep_view();
        assert(mv.take(i as int + 1).drop_last() =~= mv.take(i as int));
        assert(mv.take(i as int + 1).last() == mounts@[i as int]@);
        args.push(String::from_str("--bind"));
        args.push(bind_text_of(&mounts[i]));
        assert(args.deep_view() =~= before + seq!["--bind"@, bind_text(mounts@[i as int]@)]);
        i = i + 1;
    }
    assert(mv.take(mv.len() as int) =~= mv);
    let ghost with_binds = args.deep_view();
    if let Some(wd) = &request.working_dir {
        args.push(String::from_str("--pwd"));
        args.push(wd.clone());
        assert(args.deep_view() =~= with_binds + seq!["--pwd"@, wd@]);
    } else {
        assert(args.deep_view() =~= with_binds + Seq::<Seq<char>>::empty());
    }
    let ghost with_wd = args.deep_view();
    args.push(String::from_str(image));
    args.push(String::from_str("bash"));
    args.push(String::from_str("-c"));
    args.push(request.command.clone());
    assert(args.deep_view() =~= with_wd + seq![image@, "bash"@, "-c"@, request.command@]);
    args
}

/// Generate the actual script content
pub fn generate_script_content(
    request: &SandboxedSbatchRequest,
    image: &str,
    bind_mounts: &Vec<BindMount>,
    singularity: &SingularityConfig,
) -> (res: String)
    requires
        field_problem(*request, image@, mount_views(bind_mounts@)) is None,
    ensures
        res@ == script_text(*request, image@, mount_views(bind_mounts@), *singularity),
{
    let mut out: Vec<char> = Vec::new();
    push_directive_lines(&mut out, request);
    push_header_lines(&mut out, image, bind_mounts);
    push_env_lines(&mut out, request, singularity);
    let args = exec_arg_list(request, image, bind_mounts);
    let line = build_quoted_command("singularity", &args);
    push_str(&mut out, line.as_str());
    push_str(&mut out, "\n");
    proof {
        let req = *request;
        let ms = mount_views(bind_mounts@);
        lemma_lines_append(directive_lines(req), header_lines(image@, ms));
        lemma_lines_append(
            directive_lines(req) + header_lines(image@, ms),
            env_lines(req, *singularity),
        );
    }
    assert(out@ =~= script_text(*request, image@, mount_views(bind_mounts@), *singularity));
    string_of(&out)
}

// ---------------------------------------------------------------------------
// Fields that the script holds
// ---------------------------------------------------------------------------

/// Whether text holds a line break, which would end a line of the script.
pub open spec fn breaks_line(s: Seq<char>) -> bool {
    exists|i: int| 0 <= i < s.len() && (s[i] == '\n' || s[i] == '\r')
}

/// Whether a directive's name or value holds a line break.
pub open spec fn directive_breaks(d: (Seq<char>, Seq<char>)) -> bool {
    breaks_line(d.0) || breaks_line(d.1)
}

pub open spec fn opt_breaks(v: Option<Seq<char>>) -> bool {
    match v {
        Some(x) => breaks_line(x),
        None => false,
    }
}

/// A character of an environment variable's name: an ASCII letter, a digit
/// or `_`.
pub open spec fn env_name_char(c: char) -> bool {
    ('a' <= c && c <= 'z') || ('A' <= c && c <= 'Z') || ('0' <= c && c <= '9') || c == '_'
}

/// A name that the shell takes as a variable's: not empty, not starting
/// with a digit, made of letters, digits and `_`.
pub open spec fn is_env_name(n: Seq<char>) -> bool {
    &&& n.len() > 0
    &&& !('0' <= n[0] && n[0] <= '9')
    &&& forall|i: int| 0 <= i < n.len() ==> env_name_char(#[trigger] n[i])
}

/// A part of a mount that keeps to its line and to its place after
/// `--bind`: no line break and no `:`.
pub open spec fn mount_part_ok(s: Seq<char>) -> bool {
    !breaks_line(s) && !crate::text::has_char(s, ':')
}

pub open spec fn mount_ok(m: BindMountView) -> bool {
    mount_part_ok(m.host) && mount_part_ok(m.container) && mount_part_ok(m.mode)
}

/// The first field, in script order, that the script cannot hold as it is:
/// text that would break out of its comment line, a mount that would not
/// read back as itself, an environment name that the shell does not take as
/// a name, or a directive or variable named twice (each is a map from name
/// to value). Everything else the script writes in single quotes.
pub open spec fn field_problem(
    req: SandboxedSbatchRequest,
    image: Seq<char>,
    ms: Seq<BindMountView>,
) -> Option<Seq<char>> {
    let ds = req.extra_directives.deep_view();
    let env = req.environment.deep_view();
    if breaks_line(req.job_name@) {
        Some("job_name"@)
    } else if opt_breaks(req.array.deep_view()) {
        Some("array"@)
    } else if opt_breaks(req.output.deep_view()) {
        Some("output"@)
    } else if opt_breaks(req.error.deep_view()) {
        Some("error"@)
    } else if (exists|k: int| 0 <= k < ds.len() && directive_breaks(#[trigger] ds[k]))
        || !keys_distinct(ds) {
        Some("extra_directives"@)
    } else if breaks_line(image) {
        Some("image"@)
    } else if exists|k: int| 0 <= k < ms.len() && !mount_ok(#[trigger] ms[k]) {
        Some("bind mount"@)
    } else if (exists|k: int| 0 <= k < env.len() && !is_env_name(#[trigger] env[k].0))
        || !keys_distinct(env) {
        Some("environment"@)
    } else {
        None
    }
}

/// Whether no name occurs twice among the pairs.
pub open spec fn keys_distinct(ps: Seq<(Seq<char>, Seq<char>)>) -> bool {
    forall|i: int, j: int| 0 <= i < j < ps.len() ==> #[trigger] ps[i].0 != #[trigger] ps[j].0
}

fn keys_distinct_of(ps: &Vec<(String, String)>) -> (b: bool)
    ensures
        b == keys_distinct(ps.deep_view()),
{
    let ghost pv = ps.deep_view();
    let mut j: usize = 0;
    while j < ps.len()
        invariant
            pv == ps.deep_view(),
            j <= pv.len(),
            forall|a: int, c: int| 0 <= a < c < j ==> #[trigger] pv[a].0 != #[trigger] pv[c].0,
        decreases pv.len() - j,
    {
        let mut i: usize = 0;
        while i < j
            invariant
                pv == ps.deep_view(),
                i <= j < pv.len(),
                forall|a: int, c: int| 0 <= a < c < j ==> #[trigger] pv[a].0 != #[trigger] pv[c].0,
                forall|a: int| 0 <= a < i ==> #[trigger] pv[a].0 != pv[j as int].0,
            decreases j - i,
        {
            assert(pv[i as int] == (ps@[i as int].0@, ps@[i as int].1@));
            assert(pv[j as int] == (ps@[j as int].0@, ps@[j as int].1@));
            if crate::config::string_eq_str(&ps[i].0, ps[j].0.as_str()) {
                assert(pv[i as int].0 == pv[j as int].0);
                assert(!keys_distinct(pv));
                return false;
            }
            i = i + 1;
        }
        j = j + 1;
    }
    true
}

fn text_breaks_line(s: &str) -> (b: bool)
    ensures
        b == breaks_line(s@),
{
    let cs = chars_of(s);
    let mut i: usize = 0;
    while i < cs.len()
        invariant
            cs@ == s@,
            i <= cs@.len(),
            forall|k: int| 0 <= k < i ==> cs@[k] != '\n' && cs@[k] != '\r',
        decreases cs@.len() - i,
    {
        if cs[i] == '\n' || cs[i] == '\r' {
            return true;
        }
        i = i + 1;
    }
    false
}

fn opt_text_breaks_line(v: &Option<String>) -> (b: bool)
    ensures
        b == opt_breaks(v.deep_view()),
{
    match v {
        Some(x) => text_breaks_line(x.as_str()),
        None => false,
    }
}

fn mount_part_ok_of(s: &str) -> (b: bool)
    ensures
        b == mount_part_ok(s@),
{
    let cs = chars_of(s);
    let mut i: usize = 0;
    while i < cs.len()
        invariant
            cs@ == s@,
            i <= cs@.len(),
            forall|k: int| 0 <= k < i ==> cs@[k] != '\n' && cs@[k] != '\r' && cs@[k] != ':',
        decreases cs@.len() - i,
    {
        if cs[i] == '\n' || cs[i] == '\r' || cs[i] == ':' {
            assert(cs@[i as int] == ':' ==> crate::text::has_char(s@, ':'));
            return false;
        }
        i = i + 1;
    }
    true
}

fn is_env_name_of(n: &str) -> (b: bool)
    ensures
        b == is_env_name(n@),
{
    let cs = chars_of(n);
    if cs.len() == 0 {
        return false;
    }
    if '0' <= cs[0] && cs[0] <= '9' {
        return false;
    }
    let mut i: usize = 0;
    while i < cs.len()
        invariant
            cs@ == n@,
            i <= cs@.len(),
            forall|k: int| 0 <= k < i ==> env_name_char(#[trigger] cs@[k]),
        decreases cs@.len() - i,
    {
        let c = cs[i];
        if !(('a' <= c && c <= 'z') || ('A' <= c && c <= 'Z') || ('0' <= c && c <= '9') || c
            == '_') {
            assert(!env_name_char(cs@[i as int]));
            return false;
        }
        i = i + 1;
    }
    true
}

fn invalid_field(name: &str) -> (res: Result<(), ScriptError>)
    ensures
        res is Err,
        res->Err_0@ == ScriptErrorView::InvalidField(name@),
{
    Err(ScriptError::InvalidField(String::from_str(name)))
}

fn directives_break_line(ds: &Vec<(String, String)>) -> (b: bool)
    ensures
        b == exists|k: int| 0 <= k < ds.deep_view().len() && directive_breaks(#[trigger] ds.deep_view()[k]),
{
    let ghost dv = ds.deep_view();
    let mut i: usize = 0;
    while i < ds.len()
        invariant
            dv == ds.deep_view(),
            i <= dv.len(),
            forall|k: int| 0 <= k < i ==> !directive_breaks(#[trigger] dv[k]),
        decreases dv.len() - i,
    {
        let d = &ds[i];
        assert(dv[i as int] == (d.0@, d.1@));
        if text_breaks_line(d.0.as_str()) || text_breaks_line(d.1.as_str()) {
            assert(ds.deep_view().len() == ds@.len());
            assert(directive_breaks(ds.deep_view()[i as int]));
            return true;
        }
        i = i + 1;
    }
    false
}

fn mounts_ok(mounts: &Vec<BindMount>) -> (b: bool)
    ensures
        b == forall|k: int|
            0 <= k < mount_views(mounts@).len() ==> mount_ok(#[trigger] mount_views(mounts@)[k]),
{
    let ghost ms = mount_views(mounts@);
    let mut j: usize = 0;
    while j < mounts.len()
        invariant
            ms == mount_views(mounts@),
            j <= ms.len(),
            forall|k: int| 0 <= k < j ==> mount_ok(#[trigger] ms[k]),
        decreases ms.len() - j,
    {
        let m = &mounts[j];
        assert(ms[j as int] == m@);
        if !(mount_part_ok_of(m.host.as_str()) && mount_part_ok_of(m.container.as_str())
            && mount_part_ok_of(m.mode.as_str())) {
            assert(!mount_ok(mount_views(mounts@)[j as int]));
            return false;
        }
        j = j + 1;
    }
    true
}

fn env_names_ok(env: &Vec<(String, String)>) -> (b: bool)
    ensures
        b == forall|k: int|
            0 <= k < env.deep_view().len() ==> is_env_name(#[trigger] env.deep_view()[k].0),
{
    let ghost ev = env.deep_view();
    let mut e: usize = 0;
    while e < env.len()
        invariant
            ev == env.deep_view(),
            e <= ev.len(),
            forall|k: int| 0 <= k < e ==> is_env_name(#[trigger] ev[k].0),
        decreases ev.len() - e,
    {
        let v = &env[e];
        assert(ev[e as int] == (v.0@, v.1@));
        if !is_env_name_of(v.0.as_str()) {
            assert(!is_env_name(env.deep_view()[e as int].0));
            return false;
        }
        e = e + 1;
    }
    true
}

/// Checks that the script can hold every field of the request as it is
/// (see `field_problem`).
pub fn check_script_fields(
    request: &SandboxedSbatchRequest,
    image: &str,
    mounts: &Vec<BindMount>,
) -> (res: Result<(), ScriptError>)
    ensures
        match res {
            Ok(()) => field_problem(*request, image@, mount_views(mounts@)) is None,
            Err(e) => field_problem(*request, image@, mount_views(mounts@)) == Some(
                e@->InvalidField_0,
            ) && e@ is InvalidField,
        },
{
    let ghost ms = mount_views(mounts@);
    let ghost ds = request.extra_directives.deep_view();
    let ghost env = request.environment.deep_view();
    if text_breaks_line(request.job_name.as_str()) {
        return invalid_field("job_name");
    }
    if opt_text_breaks_line(&request.array) {
        return invalid_field("array");
    }
    if opt_text_breaks_line(&request.output) {
        return invalid_field("output");
    }
    if opt_text_breaks_line(&request.error) {
        return invalid_field("error");
    }
    if directives_break_line(&request.extra_directives) || !keys_distinct_of(
        &request.extra_directives,
    ) {
        return invalid_field("extra_directives");
    }
    if text_breaks_line(image) {
        return invalid_field("image");
    }
    if !mounts_ok(mounts) {
        return invalid_field("bind mount");
    }
    if !env_names_ok(&request.environment) || !keys_distinct_of(&request.environment) {
        return invalid_field("environment");
    }
    Ok(())
}

// ---------------------------------------------------------------------------
// Whole scripts
// ---------------------------------------------------------------------------

/// Whether `char::is_alphanumeric` holds of a character.
pub uninterp spec fn is_alphanumeric(c: char) -> bool;

/// `char::is_alphanumeric`: whether the character is alphabetic or numeric
/// in Unicode. Named, not described: the Unicode tables are not restated;
/// only that among ASCII characters these are the letters and digits.
#[verifier::external_body]
fn char_is_alphanumeric(c: char) -> (b: bool)
    ensures
        b == is_alphanumeric(c),
        c <= '\u{7f}' ==> (b == (('a' <= c && c <= 'z') || ('A' <= c && c <= 'Z') || ('0' <= c
            && c <= '9'))),
{
    c.is_alphanumeric()
}

/// Whether a character stays in a job name: letters and digits (the ASCII
/// ones among the ASCII characters), `-` and `_`.
pub open spec fn kept_in_name(c: char) -> bool {
    if c <= '\u{7f}' {
        ('a' <= c && c <= 'z') || ('A' <= c && c <= 'Z') || ('0' <= c && c <= '9') || c == '-'
            || c == '_'
    } else {
        is_alphanumeric(c)
    }
}

/// A job name with every character other than letters, digits, `-` and `_`
/// replaced by `_`.
pub open spec fn sanitized(name: Seq<char>) -> Seq<char> {
    name.map_values(|c: char| if kept_in_name(c) { c } else { '_' })
}

/// A sanitized job name holds no `/` and no `.`, so it can name no other
/// directory.
pub proof fn lemma_sanitized_has_no_separator(name: Seq<char>)
    ensures
        forall|i: int|
            0 <= i < sanitized(name).len() ==> #[trigger] sanitized(name)[i] != '/'
                && sanitized(name)[i] != '.',
{
}

/// Sanitize job name for use in filename
pub fn sanitize_job_name(name: &str) -> (res: String)
    ensures
        res@ == sanitized(name@),
        forall|i: int| 0 <= i < res@.len() ==> #[trigger] res@[i] != '/' && res@[i] != '.',
{
    let cs = chars_of(name);
    let mut out: Vec<char> = Vec::new();
    let mut i: usize = 0;
    while i < cs.len()
        invariant
            cs@ == name@,
            i <= cs@.len(),
            out@ == sanitized(name@).take(i as int),
            forall|k: int| 0 <= k < out@.len() ==> #[trigger] out@[k] != '/' && out@[k] != '.',
        decreases cs@.len() - i,
    {
        let c = cs[i];
        if char_is_alphanumeric(c) || c == '-' || c == '_' {
            out.push(c);
        } else {
            out.push('_');
        }
        i = i + 1;
        assert(out@ =~= sanitized(name@).take(i as int));
    }
    assert(sanitized(name@).take(cs@.len() as int) =~= sanitized(name@));
    string_of(&out)
}

/// A character that `chrono` writes for `%Y%m%d_%H%M%S`: a digit, the sign
/// of a year outside 0 to 9999, or the `_`.
pub open spec fn timestamp_char(c: char) -> bool {
    ('0' <= c && c <= '9') || c == '+' || c == '-' || c == '_'
}

/// The form of `%Y%m%d_%H%M%S`: the year in four digits or more (with a
/// sign first outside 0 to 9999), then two digits each of month and day,
/// `_`, and two digits each of hour, minute and second.
pub open spec fn timestamp_shape(ts: Seq<char>) -> bool {
    let n = ts.len();
    &&& n >= 15
    &&& ts[n - 7] == '_'
    &&& ('0' <= ts[0] && ts[0] <= '9') || ts[0] == '+' || ts[0] == '-'
    &&& forall|i: int| 0 < i < n && i != n - 7 ==> '0' <= #[trigger] ts[i] && ts[i] <= '9'
}

/// `chrono::Utc::now().format("%Y%m%d_%H%M%S")`: the time now. The time is
/// not stated; only the form of the text (see `timestamp_shape`), which
/// holds only digits, a year's sign and `_`.
#[verifier::external_body]
pub(crate) fn utc_timestamp() -> (res: String)
    ensures
        timestamp_shape(res@),
        forall|i: int| 0 <= i < res@.len() ==> timestamp_char(#[trigger] res@[i]),
{
    chrono::Utc::now().format("%Y%m%d_%H%M%S").to_string()
}

/// The image a request runs: its own, else the configured default.
pub open spec fn image_of(req: SandboxedSbatchRequest, cfg: PermissionConfig) -> Option<Seq<char>> {
    match req.image {
        Some(i) => Some(i@),
        None => cfg.singularity.default_image.deep_view(),
    }
}

/// Whether generation runs without overflow: the limit checks are computable
/// where they are reached, and so is the array size.
pub open spec fn script_computable(req: SandboxedSbatchRequest, cfg: PermissionConfig) -> bool {
    image_of(req, cfg) is Some && mounts_outcome(req, cfg) is Ok ==> {
        &&& resources_computable(req, cfg)
        &&& (resource_problem(req, cfg) is None && req.array is Some) ==> array_computable(
            req.array->0@,
            cfg,
        )
    }
}

/// A generated script, as values.
pub struct ScriptView {
    pub content: Seq<char>,
    pub image: Seq<char>,
    pub bind_mounts: Seq<BindMountView>,
}

/// What generation gives for a request, apart from the file name: the image
/// must be known, the mounts and resources allowed, an array range valid,
/// and every field one that the script can hold (see `field_problem`).
pub open spec fn script_outcome(req: SandboxedSbatchRequest, cfg: PermissionConfig) -> Result<
    ScriptView,
    ScriptErrorView,
> {
    match image_of(req, cfg) {
        None => Err(ScriptErrorView::NoImage),
        Some(image) => match mounts_outcome(req, cfg) {
            Err(e) => Err(e),
            Ok(ms) => match resource_problem(req, cfg) {
                Some(m) => Err(ScriptErrorView::ResourceLimitExceeded(m)),
                None => match (match req.array {
                    Some(a) => array_problem(a@, cfg),
                    None => None,
                }) {
                    Some(e) => Err(e),
                    None => match field_problem(req, image, ms) {
                        Some(f) => Err(ScriptErrorView::InvalidField(f)),
                        None => Ok(
                            ScriptView {
                                content: script_text(req, image, ms, cfg.singularity),
                                image,
                                bind_mounts: ms,
                            },
                        ),
                    },
                },
            },
        },
    }
}

/// Whether a line is what its kind says: a comment starts with `#`, and an
/// export names a variable the shell takes as such (the cache directory's,
/// or a name of the request that `is_env_name` accepts).
pub open spec fn head_line_ok(l: HeadLine) -> bool {
    match l {
        HeadLine::Comment(t) => t.len() > 0 && t[0] == '#',
        HeadLine::Export(n, _) => n == "SINGULARITY_CACHEDIR"@ || is_env_name(n),
        _ => true,
    }
}

pub open spec fn head_lines_ok(ls: Seq<HeadLine>) -> bool {
    forall|k: int| 0 <= k < ls.len() ==> head_line_ok(#[trigger] ls[k])
}

proof fn lemma_head_lines_ok_append(a: Seq<HeadLine>, b: Seq<HeadLine>)
    requires
        head_lines_ok(a),
        head_lines_ok(b),
    ensures
        head_lines_ok(a + b),
{
    assert forall|k: int| 0 <= k < (a + b).len() implies head_line_ok(#[trigger] (a + b)[k]) by {
        if k < a.len() {
            assert((a + b)[k] == a[k]);
        } else {
            assert((a + b)[k] == b[k - a.len()]);
        }
    }
}

proof fn lemma_head_lines_ok(
    req: SandboxedSbatchRequest,
    image: Seq<char>,
    ms: Seq<BindMountView>,
    sing: SingularityConfig,
)
    requires
        field_problem(req, image, ms) is None,
    ensures
        head_lines_ok(head_lines(req, image, ms, sing)),
{
    reveal_strlit("#!/bin/bash");
    reveal_strlit("#SBATCH --job-name=");
    reveal_strlit("#SBATCH --partition=");
    reveal_strlit("#SBATCH --cpus-per-task=");
    reveal_strlit("#SBATCH --mem=");
    reveal_strlit("#SBATCH --time=");
    reveal_strlit("#SBATCH --gres=");
    reveal_strlit("#SBATCH --array=");
    reveal_strlit("#SBATCH --output=");
    reveal_strlit("#SBATCH --error=");
    reveal_strlit("#SBATCH --");
    reveal_strlit("# Generated by remote-bridge sandboxed_sbatch");
    reveal_strlit("# Container: ");
    reveal_strlit("# Bind mounts:");
    reveal_strlit("#   ");
    let j1 = seq![
        HeadLine::Comment("#!/bin/bash"@),
        HeadLine::Blank,
        HeadLine::Comment("#SBATCH --job-name="@ + req.job_name@),
    ];
    let j2 = opt_comment(
        "#SBATCH --partition="@,
        match req.partition {
            Some(p) => Some(partition_name(p)),
            None => None,
        },
    );
    let j3 = seq![HeadLine::Comment("#SBATCH --cpus-per-task="@ + decimal(req.cpus as nat))];
    assert(head_lines_ok(j1));
    assert(head_lines_ok(j3));
    lemma_head_lines_ok_append(j1, j2);
    lemma_head_lines_ok_append(j1 + j2, j3);
    let r = resource_lines(req);
    assert(head_lines_ok(r));
    let dc = directive_comments(req.extra_directives.deep_view());
    assert(head_lines_ok(dc));
    let i3 = opt_comment("#SBATCH --array="@, req.array.deep_view()) + opt_comment(
        "#SBATCH --output="@,
        req.output.deep_view(),
    ) + opt_comment("#SBATCH --error="@, req.error.deep_view());
    assert(head_lines_ok(i3));
    lemma_head_lines_ok_append(i3, dc);
    lemma_head_lines_ok_append(job_lines(req), r);
    lemma_head_lines_ok_append(job_lines(req) + r, io_lines(req));
    let h1 = seq![
        HeadLine::Blank,
        HeadLine::Comment("# Generated by remote-bridge sandboxed_sbatch"@),
        HeadLine::Comment("# Container: "@ + image),
        HeadLine::Comment("# Bind mounts:"@),
    ];
    let h2 = mount_comments(ms);
    let h3 = seq![HeadLine::Blank, HeadLine::ModuleLoad, HeadLine::Blank];
    assert(head_lines_ok(h1));
    assert(head_lines_ok(h2));
    assert(head_lines_ok(h3));
    lemma_head_lines_ok_append(h1, h2);
    lemma_head_lines_ok_append(h1 + h2, h3);
    let env = req.environment.deep_view();
    let e1: Seq<HeadLine> = match sing.cache_dir {
        Some(d) => seq![HeadLine::Export("SINGULARITY_CACHEDIR"@, d@), HeadLine::Blank],
        None => Seq::empty(),
    };
    let e2 = env_exports(env);
    let e3: Seq<HeadLine> = if req.environment@.len() > 0 {
        seq![HeadLine::Blank]
    } else {
        Seq::empty()
    };
    assert(head_lines_ok(e1));
    assert forall|k: int| 0 <= k < e2.len() implies head_line_ok(#[trigger] e2[k]) by {
        assert(e2[k] == HeadLine::Export(env[k].0, env[k].1));
        assert(is_env_name(env[k].0));
    }
    assert(head_lines_ok(e3));
    lemma_head_lines_ok_append(e1, e2);
    lemma_head_lines_ok_append(e1 + e2, e3);
    lemma_head_lines_ok_append(directive_lines(req), header_lines(image, ms));
    lemma_head_lines_ok_append(
        directive_lines(req) + header_lines(image, ms),
        env_lines(req, sing),
    );
}

/// A generated script runs nothing on the host but its module load, its
/// exports and one `singularity exec`. Every line before the last is a
/// comment, a blank line, the module load, or an export of a value in
/// single quotes to a variable name; no field written into a comment holds a
/// line break; each `--bind` argument reads back as exactly its mount; and
/// the last line reads back, word for word, as `singularity exec`, the
/// binds, the working directory, the image and `bash -c` with the whole
/// command as one word, so that all of the command runs inside the
/// container.
pub proof fn lemma_script_runs_in_container(req: SandboxedSbatchRequest, cfg: PermissionConfig)
    requires
        script_outcome(req, cfg) is Ok,
    ensures
        ({
            let s = script_outcome(req, cfg)->Ok_0;
            let ls = head_lines(req, s.image, s.bind_mounts, cfg.singularity);
            let args = exec_args(req, s.image, s.bind_mounts);
            &&& s.content == lines_text(ls) + exec_line(req, s.image, s.bind_mounts) + "\n"@
            &&& field_problem(req, s.image, s.bind_mounts) is None
            &&& head_lines_ok(ls)
            &&& forall|k: int|
                0 <= k < s.bind_mounts.len() ==> bind_spec(bind_text(#[trigger] s.bind_mounts[k]))
                    == Some(s.bind_mounts[k])
            &&& line_words(exec_line(req, s.image, s.bind_mounts)) == Some(
                seq!["singularity"@] + args,
            )
            &&& args.len() >= 4
            &&& args[0] == "exec"@
            &&& args.skip(args.len() - 3) == seq!["bash"@, "-c"@, req.command@]
        }),
{
    let s = script_outcome(req, cfg)->Ok_0;
    let ms = s.bind_mounts;
    let args = exec_args(req, s.image, ms);
    lemma_head_lines_ok(req, s.image, ms, cfg.singularity);
    assert forall|k: int| 0 <= k < ms.len() implies bind_spec(bind_text(#[trigger] ms[k])) == Some(
        ms[k],
    ) by {
        assert(mount_ok(ms[k]));
        lemma_bind_text_reads_back(ms[k]);
    }
    reveal_strlit("singularity");
    assert(all_plain("singularity"@));
    lemma_quoted_command_words("singularity"@, args);
    assert(args.skip(args.len() - 3) =~= seq!["bash"@, "-c"@, req.command@]);
}

/// Whether the text holds the line, whole: a newline, the line, a newline.
pub open spec fn has_line(text: Seq<char>, line: Seq<char>) -> bool {
    contains(text, "\n"@ + line + "\n"@)
}

proof fn lemma_contains_prefix(s: Seq<char>, t: Seq<char>, x: Seq<char>)
    requires
        contains(s, x),
    ensures
        contains(s + t, x),
{
    let i = choose|i: int| crate::text::occurs_at(s, x, i);
    assert((s + t).subrange(i, i + x.len()) =~= s.subrange(i, i + x.len()));
    assert(crate::text::occurs_at(s + t, x, i));
}

proof fn lemma_line_in_text(ls: Seq<HeadLine>, k: int)
    requires
        0 < k < ls.len(),
    ensures
        has_line(lines_text(ls), head_line_text(ls[k])),
{
    let a = ls.take(k);
    let b = ls.skip(k);
    assert(a + b =~= ls);
    lemma_lines_append(a, b);
    let b1 = seq![ls[k]];
    let b2 = ls.skip(k + 1);
    assert(b1 + b2 =~= b);
    lemma_lines_append(b1, b2);
    lemma_lines_push(Seq::empty(), ls[k]);
    assert(Seq::<HeadLine>::empty().push(ls[k]) =~= b1);
    let pre = lines_text(a.drop_last()) + head_line_text(a.last());
    assert(lines_text(a) == pre + "\n"@);
    let t = "\n"@ + head_line_text(ls[k]) + "\n"@;
    let whole = lines_text(ls);
    assert(whole =~= pre + t + lines_text(b2));
    assert(whole.subrange(pre.len() as int, pre.len() + t.len() as int) =~= t);
    assert(crate::text::occurs_at(whole, t, pre.len() as int));
}

proof fn lemma_directive_in_script(
    req: SandboxedSbatchRequest,
    image: Seq<char>,
    ms: Seq<BindMountView>,
    sing: SingularityConfig,
    i: int,
)
    requires
        0 < i < directive_lines(req).len(),
    ensures
        has_line(script_text(req, image, ms, sing), head_line_text(directive_lines(req)[i])),
{
    let hl = head_lines(req, image, ms, sing);
    assert(hl[i] == directive_lines(req)[i]);
    lemma_line_in_text(hl, i);
    lemma_contains_prefix(
        lines_text(hl),
        exec_line(req, image, ms) + "\n"@,
        "\n"@ + head_line_text(hl[i]) + "\n"@,
    );
    assert(lines_text(hl) + (exec_line(req, image, ms) + "\n"@) =~= script_text(
        req,
        image,
        ms,
        sing,
    ));
}

proof fn lemma_job_directives(
    req: SandboxedSbatchRequest,
    image: Seq<char>,
    ms: Seq<BindMountView>,
    sing: SingularityConfig,
)
    ensures
        ({
            let c = script_text(req, image, ms, sing);
            &&& has_line(c, "#SBATCH --job-name="@ + req.job_name@)
            &&& has_line(c, "#SBATCH --cpus-per-task="@ + decimal(req.cpus as nat))
            &&& (req.partition matches Some(p) ==> has_line(
                c,
                "#SBATCH --partition="@ + partition_name(p),
            ))
        }),
{
    let dl = directive_lines(req);
    let jl = job_lines(req);
    let op = opt_comment(
        "#SBATCH --partition="@,
        match req.partition {
            Some(p) => Some(partition_name(p)),
            None => None,
        },
    );
    let np = op.len() as int;
    assert(dl[2] == jl[2]);
    lemma_directive_in_script(req, image, ms, sing, 2);
    assert(dl[3 + np] == jl[3 + np]);
    lemma_directive_in_script(req, image, ms, sing, 3 + np);
    if req.partition is Some {
        assert(dl[3] == jl[3]);
        lemma_directive_in_script(req, image, ms, sing, 3);
    }
}

proof fn lemma_resource_directives(
    req: SandboxedSbatchRequest,
    image: Seq<char>,
    ms: Seq<BindMountView>,
    sing: SingularityConfig,
)
    ensures
        ({
            let c = script_text(req, image, ms, sing);
            &&& (req.memory matches Some(m) ==> has_line(c, "#SBATCH --mem="@ + memory_format(m)))
            &&& (req.time matches Some(t) ==> has_line(c, "#SBATCH --time="@ + time_format(t)))
            &&& (req.gpu matches Some(g) ==> has_line(c, "#SBATCH --gres="@ + gpu_gres(g)))
        }),
{
    let dl = directive_lines(req);
    let jl = job_lines(req);
    let rl = resource_lines(req);
    let om = opt_comment(
        "#SBATCH --mem="@,
        match req.memory {
            Some(m) => Some(memory_format(m)),
            None => None,
        },
    );
    let ot = opt_comment(
        "#SBATCH --time="@,
        match req.time {
            Some(t) => Some(time_format(t)),
            None => None,
        },
    );
    assert(jl.len() >= 4);
    let nj = jl.len() as int;
    let nm = om.len() as int;
    let nt = ot.len() as int;
    if req.memory is Some {
        assert(dl[nj] == rl[0]);
        lemma_directive_in_script(req, image, ms, sing, nj);
    }
    if req.time is Some {
        assert(dl[nj + nm] == rl[nm]);
        lemma_directive_in_script(req, image, ms, sing, nj + nm);
    }
    if req.gpu is Some {
        assert(dl[nj + nm + nt] == rl[nm + nt]);
        lemma_directive_in_script(req, image, ms, sing, nj + nm + nt);
    }
}

proof fn lemma_io_directives(
    req: SandboxedSbatchRequest,
    image: Seq<char>,
    ms: Seq<BindMountView>,
    sing: SingularityConfig,
)
    ensures
        ({
            let c = script_text(req, image, ms, sing);
            let ds = req.extra_directives.deep_view();
            &&& (req.array matches Some(a) ==> has_line(c, "#SBATCH --array="@ + a@))
            &&& (req.output matches Some(o) ==> has_line(c, "#SBATCH --output="@ + o@))
            &&& (req.error matches Some(e) ==> has_line(c, "#SBATCH --error="@ + e@))
            &&& forall|k: int|
                0 <= k < ds.len() ==> has_line(c, "#SBATCH --"@ + (#[trigger] ds[k]).0 + "="@ + ds[k].1)
        }),
{
    let dl = directive_lines(req);
    let jl = job_lines(req);
    let il = io_lines(req);
    let oa = opt_comment("#SBATCH --array="@, req.array.deep_view());
    let oo = opt_comment("#SBATCH --output="@, req.output.deep_view());
    let oe = opt_comment("#SBATCH --error="@, req.error.deep_view());
    let dc = directive_comments(req.extra_directives.deep_view());
    assert(jl.len() >= 4);
    let n0 = jl.len() + resource_lines(req).len() as int;
    let na = oa.len() as int;
    let no = oo.len() as int;
    let ne = oe.len() as int;
    if req.array is Some {
        assert(dl[n0] == il[0]);
        lemma_directive_in_script(req, image, ms, sing, n0);
    }
    if req.output is Some {
        assert(dl[n0 + na] == il[na]);
        lemma_directive_in_script(req, image, ms, sing, n0 + na);
    }
    if req.error is Some {
        assert(dl[n0 + na + no] == il[na + no]);
        lemma_directive_in_script(req, image, ms, sing, n0 + na + no);
    }
    let base = n0 + na + no + ne;
    let c = script_text(req, image, ms, sing);
    let ds = req.extra_directives.deep_view();
    assert forall|k: int| 0 <= k < ds.len() implies has_line(
        c,
        "#SBATCH --"@ + (#[trigger] ds[k]).0 + "="@ + ds[k].1,
    ) by {
        assert(dl[base + k] == dc[k]);
        lemma_directive_in_script(req, image, ms, sing, base + k);
    }
}

/// A generated script asks SLURM for exactly what the request asks for: the
/// job name, the CPUs, and each of partition, memory, time, GPUs, array,
/// output and error files that the request gives, and each extra directive,
/// each on a `#SBATCH` line of its own.
pub proof fn lemma_script_directives(req: SandboxedSbatchRequest, cfg: PermissionConfig)
    requires
        script_outcome(req, cfg) is Ok,
    ensures
        ({
            let c = script_outcome(req, cfg)->Ok_0.content;
            let ds = req.extra_directives.deep_view();
            &&& has_line(c, "#SBATCH --job-name="@ + req.job_name@)
            &&& has_line(c, "#SBATCH --cpus-per-task="@ + decimal(req.cpus as nat))
            &&& (req.partition matches Some(p) ==> has_line(
                c,
                "#SBATCH --partition="@ + partition_name(p),
            ))
            &&& (req.memory matches Some(m) ==> has_line(c, "#SBATCH --mem="@ + memory_format(m)))
            &&& (req.time matches Some(t) ==> has_line(c, "#SBATCH --time="@ + time_format(t)))
            &&& (req.gpu matches Some(g) ==> has_line(c, "#SBATCH --gres="@ + gpu_gres(g)))
            &&& (req.array matches Some(a) ==> has_line(c, "#SBATCH --array="@ + a@))
            &&& (req.output matches Some(o) ==> has_line(c, "#SBATCH --output="@ + o@))
            &&& (req.error matches Some(e) ==> has_line(c, "#SBATCH --error="@ + e@))
            &&& forall|k: int|
                0 <= k < ds.len() ==> has_line(c, "#SBATCH --"@ + (#[trigger] ds[k]).0 + "="@ + ds[k].1)
        }),
{
    let s = script_outcome(req, cfg)->Ok_0;
    lemma_job_directives(req, s.image, s.bind_mounts, cfg.singularity);
    lemma_resource_directives(req, s.image, s.bind_mounts, cfg.singularity);
    lemma_io_directives(req, s.image, s.bind_mounts, cfg.singularity);
}

/// A request keeps to the configured limits exactly when its CPUs, its
/// memory in whole gigabytes (megabytes rounded down, terabytes times 1024),
/// its time in whole hours (days times 24 plus hours) and its GPUs are each
/// at most the limit; with no limits configured, every request does.
pub proof fn lemma_resource_limits(req: SandboxedSbatchRequest, cfg: PermissionConfig)
    ensures
        cfg.resources is None ==> resource_problem(req, cfg) is None,
        cfg.resources is Some ==> (resource_problem(req, cfg) is None <==> {
            let l = cfg.resources->0;
            &&& req.cpus <= l.max_cpus
            &&& (req.memory is Some ==> (match req.memory->0.unit {
                MemoryUnit::MB => (req.memory->0.amount / 1024) as int,
                MemoryUnit::GB => req.memory->0.amount as int,
                MemoryUnit::TB => req.memory->0.amount * 1024,
            }) <= l.max_memory_gb)
            &&& (req.time is Some ==> req.time->0.days * 24 + req.time->0.hours <= l.max_time_hours)
            &&& (req.gpu is Some ==> req.gpu->0.count <= l.max_gpus)
        }),
{
}

/// A range `start-end`, with or without a `%` throttle after it, keeps to
/// the configured array limit exactly when it has at most that many tasks,
/// `end - start + 1`; with no limits configured, any range of numbers does.
pub proof fn lemma_array_limit(
    start: Seq<char>,
    end: Seq<char>,
    throttle: Option<Seq<char>>,
    cfg: PermissionConfig,
)
    requires
        start.len() > 0 && crate::text::all_digits(start) && crate::text::digits_value(start)
            <= u32::MAX,
        end.len() > 0 && crate::text::all_digits(end) && crate::text::digits_value(end)
            <= u32::MAX,
        crate::text::digits_value(start) <= crate::text::digits_value(end),
    ensures
        ({
            let spec = start + seq!['-'] + end + match throttle {
                Some(k) => seq!['%'] + k,
                None => Seq::empty(),
            };
            let size = crate::text::digits_value(end) - crate::text::digits_value(start) + 1;
            &&& cfg.resources is None ==> array_problem(spec, cfg) is None
            &&& cfg.resources is Some ==> (array_problem(spec, cfg) is None <==> size
                <= cfg.resources->0.max_array_size)
        }),
{
    let range = start + seq!['-'] + end;
    let spec = range + match throttle {
        Some(k) => seq!['%'] + k,
        None => Seq::empty(),
    };
    assert forall|d: Seq<char>, c: char|
        crate::text::all_digits(d) && !crate::text::is_digit(c) implies #[trigger] crate::text::no_match(
        d,
        crate::text::eq_pred(c),
    ) by {
        assert forall|i: int| 0 <= i < d.len() implies !crate::text::eq_pred(c)(#[trigger] d[i]) by {
            assert(crate::text::is_digit(d[i]));
        }
    }
    let pp = crate::text::eq_pred('%');
    assert(crate::text::no_match(start, pp));
    assert(crate::text::no_match(end, pp));
    assert(crate::text::no_match(range, pp)) by {
        assert forall|i: int| 0 <= i < range.len() implies !pp(#[trigger] range[i]) by {
            if i < start.len() {
                assert(range[i] == start[i]);
            } else if i > start.len() {
                assert(range[i] == end[i - start.len() - 1]);
            }
        }
    }
    match throttle {
        Some(k) => {
            assert(spec =~= range + seq!['%'] + k);
            crate::text::lemma_split_by_at_sep(range, '%', k, pp);
        },
        None => {
            assert(spec =~= range);
            crate::text::lemma_split_by_none(range, pp);
        },
    }
    assert(array_range_part(spec) == range);
    assert(!crate::text::has_char(start, '-')) by {
        if crate::text::has_char(start, '-') {
            let i = choose|i: int| 0 <= i < start.len() && start[i] == '-';
            assert(crate::text::is_digit(start[i]));
        }
    }
    crate::commands::filesystem::lemma_split_once_at(start, '-', end);
    assert(crate::text::is_digit(start[0]));
    assert(crate::text::is_digit(end[0]));
    assert(parse_u32_spec(start) == Some(crate::text::digits_value(start) as u32));
    assert(parse_u32_spec(end) == Some(crate::text::digits_value(end) as u32));
}

/// The file name of a script: the sanitized job name and the time.
pub open spec fn script_filename(job_name: Seq<char>, timestamp: Seq<char>) -> Seq<char> {
    sanitized(job_name) + "_"@ + timestamp + ".sh"@
}

/// Generate a sandboxed sbatch script, with the given time in its name
pub fn generate_script_at(
    request: &SandboxedSbatchRequest,
    config: &PermissionConfig,
    timestamp: &str,
) -> (res: Result<GeneratedScript, ScriptError>)
    requires
        script_computable(*request, *config),
    ensures
        match res {
            Ok(g) => {
                &&& script_outcome(*request, *config) == Ok::<ScriptView, ScriptErrorView>(
                    ScriptView {
                        content: g.content@,
                        image: g.image@,
                        bind_mounts: mount_views(g.bind_mounts@),
                    },
                )
                &&& g.filename@ == script_filename(request.job_name@, timestamp@)
            },
            Err(e) => script_outcome(*request, *config) == Err::<ScriptView, ScriptErrorView>(e@),
        },
{
    let singularity = &config.singularity;
    // Determine container image
    let image = match &request.image {
        Some(i) => i.clone(),
        None => match &singularity.default_image {
            Some(i) => i.clone(),
            None => return Err(ScriptError::NoImage),
        },
    };
    // Validate and collect bind mounts
    let bind_mounts = match collect_bind_mounts(request, config, singularity) {
        Ok(m) => m,
        Err(e) => return Err(e),
    };
    // Validate resource limits
    match validate_resources(request, config) {
        Ok(()) => {},
        Err(e) => return Err(e),
    }
    // Validate array spec if provided
    if let Some(array) = &request.array {
        match validate_array_spec(array.as_str(), config) {
            Ok(()) => {},
            Err(e) => return Err(e),
        }
    }
    // Refuse fields that the script cannot hold as they are
    match check_script_fields(request, image.as_str(), &bind_mounts) {
        Ok(()) => {},
        Err(e) => return Err(e),
    }
    // Generate the script content
    let content = generate_script_content(request, image.as_str(), &bind_mounts, singularity);
    // Generate filename
    let safe_name = sanitize_job_name(request.job_name.as_str());
    let mut f: Vec<char> = Vec::new();
    push_str(&mut f, safe_name.as_str());
    push_str(&mut f, "_");
    push_str(&mut f, timestamp);
    push_str(&mut f, ".sh");
    let filename = string_of(&f);
    Ok(GeneratedScript { content, filename, image, bind_mounts })
}

/// Generate a sandboxed sbatch script
pub fn generate_script(request: &SandboxedSbatchRequest, config: &PermissionConfig) -> (res: Result<
    GeneratedScript,
    ScriptError,
>)
    requires
        script_computable(*request, *config),
    ensures
        match res {
            Ok(g) => {
                &&& script_outcome(*request, *config) == Ok::<ScriptView, ScriptErrorView>(
                    ScriptView {
                        content: g.content@,
                        image: g.image@,
                        bind_mounts: mount_views(g.bind_mounts@),
                    },
                )
                &&& exists|ts: Seq<char>|
                    {
                        &&& timestamp_shape(ts)
                        &&& forall|i: int| 0 <= i < ts.len() ==> timestamp_char(#[trigger] ts[i])
                        &&& g.filename@ == script_filename(request.job_name@, ts)
                    }
            },
            Err(e) => script_outcome(*request, *config) == Err::<ScriptView, ScriptErrorView>(e@),
        },
{
    let timestamp = utc_timestamp();
    generate_script_at(request, config, timestamp.as_str())
}

} // verus!
