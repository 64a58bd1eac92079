//! Errors of the bridge, and the messages that clients read.
use vstd::prelude::*;

verus! {

/// A path or resource request that the permissions refuse.
#[derive(Debug, Clone)]
pub enum ValidationError {
    PathNotAllowed { path: String, allowed: Vec<String> },
    PathTraversal(String),
    EnvironmentVariableNotAllowed(String),
    PathNotFound(String),
    InvalidRegex(String),
    ResourceLimitExceeded(String),
}

/// What a validation error holds, as values.
pub enum ValidationErrorView {
    PathNotAllowed { path: Seq<char>, allowed: Seq<Seq<char>> },
    PathTraversal(Seq<char>),
    EnvironmentVariableNotAllowed(Seq<char>),
    PathNotFound(Seq<char>),
    InvalidRegex(Seq<char>),
    ResourceLimitExceeded(Seq<char>),
}

impl View for ValidationError {
    type V = ValidationErrorView;

    open spec fn view(&self) -> ValidationErrorView {
        match self {
            ValidationError::PathNotAllowed { path, allowed } => ValidationErrorView::PathNotAllowed {
                path: path@,
                allowed: allowed.deep_view(),
            },
            ValidationError::PathTraversal(p) => ValidationErrorView::PathTraversal(p@),
            ValidationError::EnvironmentVariableNotAllowed(p) => ValidationErrorView::EnvironmentVariableNotAllowed(p@),
            ValidationError::PathNotFound(p) => ValidationErrorView::PathNotFound(p@),
            ValidationError::InvalidRegex(p) => ValidationErrorView::InvalidRegex(p@),
            ValidationError::ResourceLimitExceeded(p) => ValidationErrorView::ResourceLimitExceeded(p@),
        }
    }
}

/// What `format!("{:?}", v)` writes for a list of strings.
pub uninterp spec fn debug_string_list(items: Seq<Seq<char>>) -> Seq<char>;

/// `<Vec<String> as Debug>::fmt`, through `format!("{:?}", ..)`. The result
/// is named, not described: it is what std's `Debug` writes for the list.
#[verifier::external_body]
fn debug_list(items: &Vec<String>) -> (res: String)
    ensures
        res@ == debug_string_list(items.deep_view()),
{
    format!("{:?}", items)
}

/// The message of a validation error, as its `Display` writes it.
pub open spec fn validation_message(e: ValidationErrorView) -> Seq<char> {
    match e {
        ValidationErrorView::PathNotAllowed { path, allowed } => "Path not allowed: "@ + path
            + ". Allowed paths: "@ + debug_string_list(allowed),
        ValidationErrorView::PathTraversal(p) => "Path traversal detected in: "@ + p,
        ValidationErrorView::EnvironmentVariableNotAllowed(p) => "Environment variables not allowed in paths: "@
            + p,
        ValidationErrorView::PathNotFound(p) => "Path does not exist: "@ + p,
        ValidationErrorView::InvalidRegex(p) => "Invalid regex pattern: "@ + p,
        ValidationErrorView::ResourceLimitExceeded(p) => "Resource limit exceeded: "@ + p,
    }
}

fn concat2(a: &str, b: &String) -> (res: String)
    ensures
        res@ == a@ + b@,
{
    let mut s = String::from_str(a);
    s.append(b.as_str());
    s
}

impl ValidationError {
    /// The message that `Display` gives this error.
    pub fn message(&self) -> (res: String)
        ensures
            res@ == validation_message(self@),
    {
        match self {
            ValidationError::PathNotAllowed { path, allowed } => {
                let mut s = String::from_str("Path not allowed: ");
                s.append(path.as_str());
                s.append(". Allowed paths: ");
                let l = debug_list(allowed);
                s.append(l.as_str());
                s
            },
            ValidationError::PathTraversal(p) => concat2("Path traversal detected in: ", p),
            ValidationError::EnvironmentVariableNotAllowed(p) => concat2(
                "Environment variables not allowed in paths: ",
                p,
            ),
            ValidationError::PathNotFound(p) => concat2("Path does not exist: ", p),
            ValidationError::InvalidRegex(p) => concat2("Invalid regex pattern: ", p),
            ValidationError::ResourceLimitExceeded(p) => concat2("Resource limit exceeded: ", p),
        }
    }
}

/// Errors of loading and checking the permission configuration.
#[derive(Debug, Clone)]
pub enum ConfigError {
    NotFound(String),
    Parse(String),
    Validation(String),
    IntegrityViolation,
    Io(String),
}

impl ConfigError {
    /// The message that `Display` gives this error.
    pub fn message(&self) -> (res: String)
        ensures
            res@ == match self {
                ConfigError::NotFound(p) => "Config file not found: "@ + p@,
                ConfigError::Parse(m) => "Failed to parse config: "@ + m@,
                ConfigError::Validation(m) => "Config validation failed: "@ + m@,
                ConfigError::IntegrityViolation => "Config integrity check failed: file was modified"@,
                ConfigError::Io(m) => "IO error: "@ + m@,
            },
    {
        match self {
            ConfigError::NotFound(p) => concat2("Config file not found: ", p),
            ConfigError::Parse(m) => concat2("Failed to parse config: ", m),
            ConfigError::Validation(m) => concat2("Config validation failed: ", m),
            ConfigError::IntegrityViolation => String::from_str(
                "Config integrity check failed: file was modified",
            ),
            ConfigError::Io(m) => concat2("IO error: ", m),
        }
    }
}

/// Errors of the SSH session.
#[derive(Debug, Clone)]
pub enum SshError {
    NotConnected(String, String),
    ConnectionCheckFailed(String),
    CommandFailed(String),
    Timeout(u64),
    Io(String),
}

/// The message that `Display` gives an SSH error.
pub open spec fn ssh_message(e: SshError) -> Seq<char> {
    match e {
        SshError::NotConnected(user, host) => "SSH connection not established. Run: ssh -M -S <socket> -o ControlPersist=yes -fN "@
            + user@ + "@"@ + host@,
        SshError::ConnectionCheckFailed(m) => "SSH connection check failed: "@ + m@,
        SshError::CommandFailed(m) => "Command execution failed: "@ + m@,
        SshError::Timeout(secs) => "Command timed out after "@ + crate::text::decimal(secs as nat)
            + " seconds"@,
        SshError::Io(m) => "IO error: "@ + m@,
    }
}

impl SshError {
    /// The message that `Display` gives this error.
    pub fn message(&self) -> (res: String)
        ensures
            res@ == ssh_message(*self),
    {
        match self {
            SshError::NotConnected(user, host) => {
                let mut s = String::from_str(
                    "SSH connection not established. Run: ssh -M -S <socket> -o ControlPersist=yes -fN ",
                );
                s.append(user.as_str());
                s.append("@");
                s.append(host.as_str());
                s
            },
            SshError::ConnectionCheckFailed(m) => concat2("SSH connection check failed: ", m),
            SshError::CommandFailed(m) => concat2("Command execution failed: ", m),
            SshError::Timeout(secs) => {
                let mut v: Vec<char> = Vec::new();
                crate::text::push_str(&mut v, "Command timed out after ");
                crate::text::push_decimal(&mut v, *secs);
                crate::text::push_str(&mut v, " seconds");
                crate::text::string_of(&v)
            },
            SshError::Io(m) => concat2("IO error: ", m),
        }
    }
}

/// Any error of the bridge.
#[derive(Debug, Clone)]
pub enum BridgeError {
    Config(ConfigError),
    Ssh(SshError),
    Permission(ValidationError),
    Slurm(String),
    Rpc(String),
    Io(String),
}

} // verus!
