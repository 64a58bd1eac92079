use remote_bridge::commands::{PathValidator, ValidatedPath};
use remote_bridge::config::{
    ContainerConfig, ModuleConfig, PathPermissions, PermissionConfig, ResourceLimits,
    SingularityConfig,
};
use remote_bridge::error::ValidationError;

fn test_config() -> PermissionConfig {
    PermissionConfig {
        paths: PathPermissions {
            read: vec!["/data/lab/".to_string(), "/scratch/".to_string()],
            write: vec!["/data/lab/projects/".to_string()],
        },
        resources: Some(ResourceLimits {
            max_cpus: 8,
            max_memory_gb: 32,
            max_time_hours: 24,
            max_gpus: 0,
            max_array_size: 100,
        }),
        containers: Default::default(),
        modules: Default::default(),
        singularity: SingularityConfig::default(),
    }
}

#[test]
fn test_valid_read_path() {
    let validator = PathValidator::new(test_config());

    let result = validator.validate_read_path("/data/lab/file.txt");
    assert!(result.is_ok());
}

#[test]
fn test_invalid_read_path() {
    let validator = PathValidator::new(test_config());

    let result = validator.validate_read_path("/etc/passwd");
    assert!(result.is_err());
}

#[test]
fn test_path_traversal_blocked() {
    let validator = PathValidator::new(test_config());

    // Try to escape via ..
    let result = validator.validate_read_path("/data/lab/../../../etc/passwd");
    assert!(result.is_err());
}

#[test]
fn test_env_var_blocked() {
    let validator = PathValidator::new(test_config());

    let result = validator.validate_read_path("$HOME/file.txt");
    assert!(matches!(
        result,
        Err(ValidationError::EnvironmentVariableNotAllowed(_))
    ));
}

#[test]
fn test_write_path_validation() {
    let validator = PathValidator::new(test_config());

    // Valid write path
    let result = validator.validate_write_path("/data/lab/projects/output.txt");
    assert!(result.is_ok());

    // Read-only path
    let result = validator.validate_write_path("/data/lab/readonly.txt");
    assert!(result.is_err());
}

fn canonical(v: &PathValidator, p: &str) -> Result<String, ValidationError> {
    v.validate_read_path(p).map(|x: ValidatedPath| x.as_str().to_string())
}

#[test]
fn validated_path_is_resolved() {
    let v = PathValidator::new(test_config());
    assert_eq!(canonical(&v, "/data/lab/").unwrap(), "/data/lab");
    assert_eq!(canonical(&v, "/data//lab/./x/../file.txt").unwrap(), "/data/lab/file.txt");
    assert_eq!(canonical(&v, "/scratch").unwrap(), "/scratch");
    let ok = v.validate_read_path("/data/lab/a").unwrap();
    assert_eq!(ok.to_string(), "/data/lab/a");
    assert_eq!(ok.as_path(), "/data/lab/a");
}

#[test]
fn traversal_above_root_is_its_own_error() {
    let v = PathValidator::new(test_config());
    match v.validate_read_path("/data/lab/../../../etc/passwd") {
        Err(ValidationError::PathTraversal(p)) => assert_eq!(p, "/data/lab/../../../etc/passwd"),
        other => panic!("unexpected {:?}", other),
    }
    // Climbing stays allowed while it stays below the root.
    match v.validate_read_path("/data/lab/../../etc/passwd") {
        Err(ValidationError::PathNotAllowed { path, allowed }) => {
            assert_eq!(path, "/data/lab/../../etc/passwd");
            assert_eq!(allowed, vec!["/data/lab/".to_string(), "/scratch/".to_string()]);
        }
        other => panic!("unexpected {:?}", other),
    }
}

#[test]
fn relative_paths_are_refused() {
    let v = PathValidator::new(test_config());
    match v.validate_read_path("data/lab/file") {
        Err(ValidationError::PathNotAllowed { allowed, .. }) => {
            assert_eq!(allowed, vec!["Paths must be absolute".to_string()])
        }
        other => panic!("unexpected {:?}", other),
    }
    // Without a known home, `~` stays and the path is relative.
    assert!(v.validate_read_path("~/x").is_err());
}

#[test]
fn home_directory_expands() {
    let mut v = PathValidator::new(test_config());
    v.set_home_dir("/data/lab".to_string());
    assert_eq!(canonical(&v, "~/results").unwrap(), "/data/lab/results");
    assert_eq!(canonical(&v, "~").unwrap(), "/data/lab");
    v.set_home_dir("/data/lab/".to_string());
    assert_eq!(canonical(&v, "~/results").unwrap(), "/data/lab/results");
}

#[test]
fn prefix_of_a_name_is_not_a_parent() {
    let v = PathValidator::new(test_config());
    // "/data/labx" shares characters with "/data/lab" but not components.
    assert!(v.validate_read_path("/data/labx/file").is_err());
}

#[test]
fn validation_error_messages() {
    let e = ValidationError::PathTraversal("/a/../..".to_string());
    assert_eq!(e.message(), "Path traversal detected in: /a/../..");
    let e = ValidationError::PathNotAllowed {
        path: "/etc".to_string(),
        allowed: vec!["/data/".to_string()],
    };
    assert_eq!(e.message(), "Path not allowed: /etc. Allowed paths: [\"/data/\"]");
    let e = ValidationError::EnvironmentVariableNotAllowed("$HOME".to_string());
    assert_eq!(e.message(), "Environment variables not allowed in paths: $HOME");
}

#[test]
fn unused_config_parts_do_not_matter() {
    let mut c = test_config();
    c.containers = ContainerConfig::default();
    c.modules = ModuleConfig::default();
    let v = PathValidator::new(c);
    assert!(v.validate_read_path("/scratch/a").is_ok());
}

#[test]
fn validated_path_validates_to_itself() {
    let mut validator = PathValidator::new(test_config());
    validator.set_home_dir("/data/lab".to_string());
    for p in [
        "/data/lab/projects/../projects/./x//y/",
        "~/projects/a/../b",
        "/scratch/./tmp/..",
    ] {
        let first = validator.validate_read_path(p).unwrap();
        let again = validator.validate_read_path(first.as_str()).unwrap();
        assert_eq!(first.as_str(), again.as_str());
        assert!(!first.as_str().contains("/./") && !first.as_str().contains(".."));
    }
    assert_eq!(
        validator.validate_read_path("~/projects/a/../b").unwrap().as_str(),
        "/data/lab/projects/b"
    );
}
