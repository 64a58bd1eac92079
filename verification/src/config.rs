//! The permission configuration: which paths may be read and written, the
//! resource limits, containers and modules; and its integrity check.
use crate::error::ConfigError;
use crate::paths::{path_starts_with, starts_with_path};
use crate::text::{chars_of, push_str, string_of, trim, trim_of};
use sha2::Digest;
use vstd::prelude::*;

verus! {

/// Permission configuration, as read from TOML.
#[derive(Debug, Clone)]
pub struct PermissionConfig {
    pub paths: PathPermissions,
    pub resources: Option<ResourceLimits>,
    pub containers: ContainerConfig,
    pub modules: ModuleConfig,
    pub singularity: SingularityConfig,
}

#[derive(Debug, Clone)]
pub struct PathPermissions {
    /// Directories the agent can read from
    pub read: Vec<String>,
    /// Directories the agent can write to
    pub write: Vec<String>,
}

#[derive(Debug, Clone)]
pub struct ResourceLimits {
    pub max_cpus: u32,
    pub max_memory_gb: u32,
    pub max_time_hours: u32,
    pub max_gpus: u32,
    pub max_array_size: u32,
}

#[derive(Debug, Clone, Default)]
pub struct ContainerConfig {
    pub allowed: Vec<ContainerSpec>,
}

#[derive(Debug, Clone)]
pub struct ContainerSpec {
    pub registry: String,
    pub name: String,
    pub tags: Vec<String>,
}

#[derive(Debug, Clone, Default)]
pub struct ModuleConfig {
    pub allowed: Vec<String>,
}

#[derive(Debug, Clone, Default)]
pub struct SingularityConfig {
    /// Default container image (path to .sif or docker:// URI)
    pub default_image: Option<String>,
    /// Directory where generated sbatch scripts are written
    pub scripts_dir: Option<String>,
    /// Singularity cache directory
    pub cache_dir: Option<String>,
    /// Additional bind mounts (format: "path:mode" or "host:container:mode")
    pub extra_binds: Vec<String>,
}

/// The array size limit when the configuration names none.
pub fn default_max_array_size() -> (n: u32)
    ensures
        n == 1000,
{
    1000
}

/// Whether `p` lies under one of `bases`, component by component.
pub open spec fn under_any(bases: Seq<Seq<char>>, p: Seq<char>) -> bool {
    exists|i: int| 0 <= i < bases.len() && path_starts_with(p, #[trigger] bases[i])
}

/// The first write path that lies under no read path, if any.
pub open spec fn first_unreadable_write(read: Seq<Seq<char>>, write: Seq<Seq<char>>) -> int
    decreases write.len(),
{
    if write.len() == 0 {
        -1
    } else if !under_any(read, write[0]) {
        0
    } else {
        let r = first_unreadable_write(read, write.drop_first());
        if r < 0 {
            -1
        } else {
            r + 1
        }
    }
}

/// What `validate` refuses, as its message; `None` where it accepts.
pub open spec fn config_problem(cfg: PermissionConfig) -> Option<Seq<char>> {
    let read = cfg.paths.read.deep_view();
    let write = cfg.paths.write.deep_view();
    let k = first_unreadable_write(read, write);
    if k >= 0 {
        Some("Write path "@ + write[k] + " is not under any read path"@)
    } else {
        match cfg.resources {
            Some(r) => if r.max_cpus == 0 {
                Some("max_cpus must be > 0"@)
            } else if r.max_memory_gb == 0 {
                Some("max_memory_gb must be > 0"@)
            } else if r.max_time_hours == 0 {
                Some("max_time_hours must be > 0"@)
            } else {
                None
            },
            None => None,
        }
    }
}

pub proof fn lemma_first_unreadable_write(read: Seq<Seq<char>>, write: Seq<Seq<char>>)
    ensures
        first_unreadable_write(read, write) < write.len(),
        first_unreadable_write(read, write) >= 0 ==> !under_any(
            read,
            write[first_unreadable_write(read, write)],
        ),
        forall|j: int|
            0 <= j < write.len() && (first_unreadable_write(read, write) < 0 || j
                < first_unreadable_write(read, write)) ==> under_any(read, #[trigger] write[j]),
    decreases write.len(),
{
    if write.len() > 0 {
        lemma_first_unreadable_write(read, write.drop_first());
        assert forall|j: int|
            0 <= j < write.len() && (first_unreadable_write(read, write) < 0 || j
                < first_unreadable_write(read, write)) implies under_any(read, #[trigger] write[j]) by {
            if j > 0 {
                assert(write[j] == write.drop_first()[j - 1]);
            }
        }
    }
}

impl PermissionConfig {
    pub open spec fn read_paths(&self) -> Seq<Seq<char>> {
        self.paths.read.deep_view()
    }

    pub open spec fn write_paths(&self) -> Seq<Seq<char>> {
        self.paths.write.deep_view()
    }

    /// Validate the configuration: every write path lies under a read path,
    /// and limits that are given are positive.
    pub fn validate(&self) -> (res: Result<(), ConfigError>)
        ensures
            match res {
                Ok(()) => config_problem(*self) is None,
                Err(ConfigError::Validation(m)) => config_problem(*self) == Some(m@),
                Err(_) => false,
            },
    {
        let ghost read = self.read_paths();
        let ghost write = self.write_paths();
        proof {
            lemma_first_unreadable_write(read, write);
        }
        let mut i: usize = 0;
        while i < self.paths.write.len()
            invariant
                read == self.read_paths(),
                write == self.write_paths(),
                i <= write.len(),
                forall|j: int| 0 <= j < i ==> under_any(read, #[trigger] write[j]),
                first_unreadable_write(read, write) < write.len(),
                first_unreadable_write(read, write) >= 0 ==> !under_any(
                    read,
                    write[first_unreadable_write(read, write)],
                ),
                forall|j: int|
                    0 <= j < write.len() && (first_unreadable_write(read, write) < 0 || j
                        < first_unreadable_write(read, write)) ==> under_any(
                        read,
                        #[trigger] write[j],
                    ),
            decreases write.len() - i,
        {
            if !self.is_read_allowed(self.paths.write[i].as_str()) {
                assert(!under_any(read, write[i as int]));
                assert(first_unreadable_write(read, write) == i);
                let mut v: Vec<char> = Vec::new();
                push_str(&mut v, "Write path ");
                push_str(&mut v, self.paths.write[i].as_str());
                push_str(&mut v, " is not under any read path");
                return Err(ConfigError::Validation(string_of(&v)));
            }
            i = i + 1;
        }
        assert(first_unreadable_write(read, write) < 0) by {
            let k = first_unreadable_write(read, write);
            if k >= 0 {
                assert(under_any(read, write[k]));
            }
        }
        if let Some(resources) = &self.resources {
            if resources.max_cpus == 0 {
                return Err(ConfigError::Validation(String::from_str("max_cpus must be > 0")));
            }
            if resources.max_memory_gb == 0 {
                return Err(ConfigError::Validation(String::from_str("max_memory_gb must be > 0")));
            }
            if resources.max_time_hours == 0 {
                return Err(
                    ConfigError::Validation(String::from_str("max_time_hours must be > 0")),
                );
            }
        }
        Ok(())
    }

    /// Check if a path is allowed for reading
    pub fn is_read_allowed(&self, path: &str) -> (b: bool)
        ensures
            b == under_any(self.read_paths(), path@),
    {
        allowed_under(&self.paths.read, path)
    }

    /// Check if a path is allowed for writing
    pub fn is_write_allowed(&self, path: &str) -> (b: bool)
        ensures
            b == under_any(self.write_paths(), path@),
    {
        allowed_under(&self.paths.write, path)
    }

    /// Check if a container image is allowed
    pub fn is_container_allowed(&self, registry: &str, name: &str, tag: &str) -> (b: bool)
        ensures
            b == exists|i: int|
                0 <= i < self.containers.allowed@.len() && container_matches(
                    #[trigger] self.containers.allowed@[i],
                    registry@,
                    name@,
                    tag@,
                ),
    {
        let reg = chars_of(registry);
        let nm = chars_of(name);
        let tg = chars_of(tag);
        let mut i: usize = 0;
        while i < self.containers.allowed.len()
            invariant
                reg@ == registry@,
                nm@ == name@,
                tg@ == tag@,
                i <= self.containers.allowed@.len(),
                forall|j: int|
                    0 <= j < i ==> !container_matches(
                        #[trigger] self.containers.allowed@[j],
                        registry@,
                        name@,
                        tag@,
                    ),
            decreases self.containers.allowed@.len() - i,
        {
            let spec = &self.containers.allowed[i];
            if string_eq_chars(&spec.registry, &reg) && string_eq_chars(&spec.name, &nm) {
                let mut k: usize = 0;
                while k < spec.tags.len()
                    invariant
                        tg@ == tag@,
                        spec.registry@ == registry@,
                        spec.name@ == name@,
                        *spec == self.containers.allowed@[i as int],
                        i < self.containers.allowed@.len(),
                        k <= spec.tags@.len(),
                        forall|j: int|
                            0 <= j < k ==> !(#[trigger] spec.tags@[j]@ == tag@ || spec.tags@[j]@
                                == "*"@),
                    decreases spec.tags@.len() - k,
                {
                    if string_eq_chars(&spec.tags[k], &tg) || string_eq_str(&spec.tags[k], "*") {
                        assert(container_matches(*spec, registry@, name@, tag@)) by {
                            assert(spec.tags.deep_view()[k as int] == spec.tags@[k as int]@);
                        }
                        assert(container_matches(
                            self.containers.allowed@[i as int],
                            registry@,
                            name@,
                            tag@,
                        ));
                        return true;
                    }
                    k = k + 1;
                }
                assert(!container_matches(*spec, registry@, name@, tag@)) by {
                    assert forall|j: int| 0 <= j < spec.tags.deep_view().len() implies !(
                    #[trigger] spec.tags.deep_view()[j] == tag@ || spec.tags.deep_view()[j]
                        == "*"@) by {
                        assert(spec.tags.deep_view()[j] == spec.tags@[j]@);
                    }
                }
            }
            i = i + 1;
        }
        false
    }

    /// Check if a module is allowed (empty list = allow all)
    pub fn is_module_allowed(&self, module: &str) -> (b: bool)
        ensures
            b == (self.modules.allowed@.len() == 0 || self.modules.allowed.deep_view().contains(
                module@,
            )),
    {
        if self.modules.allowed.len() == 0 {
            return true;
        }
        let m = chars_of(module);
        let mut i: usize = 0;
        while i < self.modules.allowed.len()
            invariant
                m@ == module@,
                i <= self.modules.allowed@.len(),
                forall|j: int| 0 <= j < i ==> self.modules.allowed@[j]@ != module@,
            decreases self.modules.allowed@.len() - i,
        {
            if string_eq_chars(&self.modules.allowed[i], &m) {
                assert(self.modules.allowed.deep_view()[i as int] == module@);
                return true;
            }
            i = i + 1;
        }
        assert(!self.modules.allowed.deep_view().contains(module@)) by {
            if self.modules.allowed.deep_view().contains(module@) {
                let j = choose|j: int|
                    0 <= j < self.modules.allowed.deep_view().len()
                        && self.modules.allowed.deep_view()[j] == module@;
                assert(self.modules.allowed@[j]@ == module@);
            }
        }
        false
    }
}

/// Whether a container specification admits the image.
pub open spec fn container_matches(
    spec: ContainerSpec,
    registry: Seq<char>,
    name: Seq<char>,
    tag: Seq<char>,
) -> bool {
    &&& spec.registry@ == registry
    &&& spec.name@ == name
    &&& exists|k: int|
        0 <= k < spec.tags.deep_view().len() && (#[trigger] spec.tags.deep_view()[k] == tag
            || spec.tags.deep_view()[k] == "*"@)
}

/// Whether a string holds exactly the given characters.
pub fn string_eq_chars(s: &String, c: &Vec<char>) -> (b: bool)
    ensures
        b == (s@ == c@),
{
    let sc = chars_of(s.as_str());
    if sc.len() != c.len() {
        return false;
    }
    let mut k: usize = 0;
    while k < sc.len()
        invariant
            sc@ == s@,
            sc@.len() == c@.len(),
            k <= sc@.len(),
            forall|j: int| 0 <= j < k ==> sc@[j] == c@[j],
        decreases sc@.len() - k,
    {
        if sc[k] != c[k] {
            assert(sc@[k as int] != c@[k as int]);
            return false;
        }
        k = k + 1;
    }
    assert(sc@ =~= c@);
    true
}

/// Whether a string equals a literal.
pub fn string_eq_str(s: &String, t: &str) -> (b: bool)
    ensures
        b == (s@ == t@),
{
    let tc = chars_of(t);
    string_eq_chars(s, &tc)
}

pub fn allowed_under(bases: &Vec<String>, path: &str) -> (b: bool)
    ensures
        b == under_any(bases.deep_view(), path@),
{
    let p = chars_of(path);
    let mut i: usize = 0;
    while i < bases.len()
        invariant
            p@ == path@,
            i <= bases@.len(),
            forall|j: int| 0 <= j < i ==> !path_starts_with(path@, #[trigger] bases.deep_view()[j]),
        decreases bases@.len() - i,
    {
        let b = chars_of(bases[i].as_str());
        assert(bases.deep_view()[i as int] == b@);
        if starts_with_path(&p, &b) {
            return true;
        }
        i = i + 1;
    }
    false
}

/// Every write path lies under a read path, so whatever may be written may
/// also be read, in a configuration that `validate` accepts.
pub proof fn lemma_writable_is_readable(cfg: PermissionConfig, path: Seq<char>)
    requires
        config_problem(cfg) is None,
        under_any(cfg.write_paths(), path),
    ensures
        under_any(cfg.read_paths(), path),
{
    let read = cfg.read_paths();
    let write = cfg.write_paths();
    lemma_first_unreadable_write(read, write);
    let i = choose|i: int| 0 <= i < write.len() && path_starts_with(path, #[trigger] write[i]);
    assert(under_any(read, write[i]));
    let j = choose|j: int| 0 <= j < read.len() && path_starts_with(write[i], #[trigger] read[j]);
    crate::paths::lemma_starts_with_trans(path, write[i], read[j]);
}

// ---------------------------------------------------------------------------
// Integrity of the configuration file
// ---------------------------------------------------------------------------

/// Result of integrity check
#[derive(Debug, Clone)]
pub enum IntegrityStatus {
    /// Checksum matches
    Valid,
    /// Checksum does not match
    Modified { stored: String, current: String },
    /// No checksum file exists yet
    NoBaseline,
}

/// The SHA-256 digest of a byte string.
pub uninterp spec fn sha256_of(data: Seq<u8>) -> Seq<u8>;

/// `sha2::Sha256::digest`: the SHA-256 digest of the data. Named, not
/// described: the contract says only that the digest is a function of the
/// data, 32 bytes long.
#[verifier::external_body]
fn sha256_digest(data: &[u8]) -> (res: Vec<u8>)
    ensures
        res@ == sha256_of(data@),
        res@.len() == 32,
{
    sha2::Sha256::digest(data).to_vec()
}

pub open spec fn hex_digit_lower(d: u8) -> char {
    if d < 10 {
        (48 + d) as char
    } else {
        (87 + d) as char
    }
}

/// Lowercase hexadecimal, two characters per byte, high nibble first.
pub open spec fn hex_lower(data: Seq<u8>) -> Seq<char>
    decreases data.len(),
{
    if data.len() == 0 {
        Seq::empty()
    } else {
        hex_lower(data.drop_last()) + seq![
            hex_digit_lower(data.last() / 16),
            hex_digit_lower(data.last() % 16),
        ]
    }
}

/// `hex::encode`: each byte as two lowercase hexadecimal digits.
#[verifier::external_body]
fn hex_encode(data: &[u8]) -> (res: String)
    ensures
        res@ == hex_lower(data@),
{
    hex::encode(data)
}

/// The checksum that the integrity file records: the SHA-256 digest of the
/// file's content, in lowercase hexadecimal.
pub fn checksum_of(content: &[u8]) -> (res: String)
    ensures
        res@ == hex_lower(sha256_of(content@)),
        res@.len() == 64,
{
    let digest = sha256_digest(content);
    let res = hex_encode(digest.as_slice());
    proof {
        lemma_hex_lower_len(digest@);
    }
    res
}

proof fn lemma_hex_lower_len(data: Seq<u8>)
    ensures
        hex_lower(data).len() == 2 * data.len(),
    decreases data.len(),
{
    if data.len() > 0 {
        lemma_hex_lower_len(data.drop_last());
    }
}

/// The integrity status of a configuration file, from the recorded checksum
/// (`None` where no checksum file exists) and the checksum of its content now.
pub open spec fn integrity_of(stored: Option<Seq<char>>, current: Seq<char>) -> IntegrityView {
    match stored {
        None => IntegrityView::NoBaseline,
        Some(s) => if trim(s) == current {
            IntegrityView::Valid
        } else {
            IntegrityView::Modified { stored: trim(s), current }
        },
    }
}

pub enum IntegrityView {
    Valid,
    Modified { stored: Seq<char>, current: Seq<char> },
    NoBaseline,
}

impl View for IntegrityStatus {
    type V = IntegrityView;

    open spec fn view(&self) -> IntegrityView {
        match self {
            IntegrityStatus::Valid => IntegrityView::Valid,
            IntegrityStatus::Modified { stored, current } => IntegrityView::Modified {
                stored: stored@,
                current: current@,
            },
            IntegrityStatus::NoBaseline => IntegrityView::NoBaseline,
        }
    }
}

/// A character of lowercase hexadecimal.
pub open spec fn is_hex_char(c: char) -> bool {
    ('0' <= c && c <= '9') || ('a' <= c && c <= 'f')
}

proof fn lemma_hex_lower_chars(data: Seq<u8>)
    ensures
        forall|i: int| 0 <= i < hex_lower(data).len() ==> is_hex_char(#[trigger] hex_lower(data)[i]),
    decreases data.len(),
{
    if data.len() > 0 {
        lemma_hex_lower_chars(data.drop_last());
        let h = hex_lower(data.drop_last());
        let x = data.last();
        assert(is_hex_char(hex_digit_lower(x / 16)));
        assert(is_hex_char(hex_digit_lower(x % 16)));
        assert forall|i: int| 0 <= i < hex_lower(data).len() implies is_hex_char(
            #[trigger] hex_lower(data)[i],
        ) by {
            if i < h.len() {
                assert(hex_lower(data)[i] == h[i]);
            }
        }
    }
}

proof fn lemma_hex_digit_injective(x: u8, y: u8)
    requires
        x < 16,
        y < 16,
        hex_digit_lower(x) == hex_digit_lower(y),
    ensures
        x == y,
{
}

proof fn lemma_hex_lower_injective(a: Seq<u8>, b: Seq<u8>)
    requires
        hex_lower(a) == hex_lower(b),
    ensures
        a == b,
    decreases a.len(),
{
    lemma_hex_lower_len(a);
    lemma_hex_lower_len(b);
    if a.len() > 0 {
        let ha = hex_lower(a);
        let n = ha.len();
        let pa = hex_lower(a.drop_last());
        let pb = hex_lower(b.drop_last());
        lemma_hex_lower_len(a.drop_last());
        lemma_hex_lower_len(b.drop_last());
        assert(ha[n - 2] == hex_digit_lower(a.last() / 16));
        assert(hex_lower(b)[n - 2] == hex_digit_lower(b.last() / 16));
        assert(ha[n - 1] == hex_digit_lower(a.last() % 16));
        assert(hex_lower(b)[n - 1] == hex_digit_lower(b.last() % 16));
        lemma_hex_digit_injective(a.last() / 16, b.last() / 16);
        lemma_hex_digit_injective(a.last() % 16, b.last() % 16);
        assert(a.last() == b.last());
        assert(pa =~= ha.subrange(0, n - 2));
        assert(pb =~= hex_lower(b).subrange(0, n - 2));
        lemma_hex_lower_injective(a.drop_last(), b.drop_last());
        assert(a =~= a.drop_last().push(a.last()));
        assert(b =~= b.drop_last().push(b.last()));
    } else {
        assert(a =~= b);
    }
}

proof fn lemma_hex_trimmed(data: Seq<u8>)
    ensures
        trim(hex_lower(data)) == hex_lower(data),
{
    let h = hex_lower(data);
    lemma_hex_lower_chars(data);
    if h.len() > 0 {
        assert(is_hex_char(h[0]));
        assert(is_hex_char(h[h.len() - 1]));
        assert(crate::text::trim_start(h) == h);
        assert(crate::text::trim_end(h) == h);
    }
}

/// The integrity check over a configuration's life: with no checksum
/// recorded there is no baseline; the checksum recorded for a content
/// validates that same content; and against a later content the file is
/// valid exactly when the two digests agree, and otherwise reported
/// modified, with the recorded and the current checksum.
pub proof fn lemma_integrity_workflow(first: Seq<u8>, later: Seq<u8>)
    ensures
        integrity_of(None, hex_lower(sha256_of(first))) == IntegrityView::NoBaseline,
        integrity_of(Some(hex_lower(sha256_of(first))), hex_lower(sha256_of(first)))
            == IntegrityView::Valid,
        integrity_of(Some(hex_lower(sha256_of(first))), hex_lower(sha256_of(later))) == if sha256_of(
            first,
        ) == sha256_of(later) {
            IntegrityView::Valid
        } else {
            IntegrityView::Modified {
                stored: hex_lower(sha256_of(first)),
                current: hex_lower(sha256_of(later)),
            }
        },
{
    lemma_hex_trimmed(sha256_of(first));
    if hex_lower(sha256_of(first)) == hex_lower(sha256_of(later)) {
        lemma_hex_lower_injective(sha256_of(first), sha256_of(later));
    }
}

/// Compare the recorded checksum with the current one.
pub fn integrity_status(stored: Option<&str>, current: &str) -> (res: IntegrityStatus)
    ensures
        res@ == integrity_of(
            match stored {
                Some(s) => Some(s@),
                None => None,
            },
            current@,
        ),
{
    match stored {
        None => IntegrityStatus::NoBaseline,
        Some(s) => {
            let sc = chars_of(s);
            let t = trim_of(&sc);
            let cur = chars_of(current);
            let ts = string_of(&t);
            if string_eq_chars(&ts, &cur) {
                IntegrityStatus::Valid
            } else {
                IntegrityStatus::Modified { stored: ts, current: string_of(&cur) }
            }
        },
    }
}

/// Whether the file must be refused; otherwise whether a first checksum must
/// be recorded before it is loaded.
pub fn integrity_gate(status: &IntegrityStatus) -> (res: Result<bool, ConfigError>)
    ensures
        match status@ {
            IntegrityView::Valid => res == Ok::<bool, ConfigError>(false),
            IntegrityView::NoBaseline => res == Ok::<bool, ConfigError>(true),
            IntegrityView::Modified { .. } => res matches Err(ConfigError::IntegrityViolation),
        },
{
    match status {
        IntegrityStatus::Valid => Ok(false),
        IntegrityStatus::NoBaseline => Ok(true),
        IntegrityStatus::Modified { .. } => Err(ConfigError::IntegrityViolation),
    }
}

} // verus!
