use remote_bridge::config::{
    integrity_gate, integrity_status, checksum_of, ContainerConfig, ContainerSpec, IntegrityStatus,
    ModuleConfig, PathPermissions, PermissionConfig, ResourceLimits, SingularityConfig,
};
use remote_bridge::error::ConfigError;

#[test]
fn test_path_permissions() {
    let config = PermissionConfig {
        paths: PathPermissions {
            read: vec!["/data/lab/".to_string()],
            write: vec!["/data/lab/projects/".to_string()],
        },
        resources: None, // No resource limits
        containers: ContainerConfig::default(),
        modules: ModuleConfig::default(),
        singularity: SingularityConfig::default(),
    };

    assert!(config.is_read_allowed("/data/lab/file.txt"));
    assert!(config.is_read_allowed("/data/lab/projects/file.txt"));
    assert!(!config.is_read_allowed("/other/file.txt"));

    assert!(config.is_write_allowed("/data/lab/projects/file.txt"));
    assert!(!config.is_write_allowed("/data/lab/file.txt"));
}

/// Test permission config
fn integration_config() -> PermissionConfig {
    PermissionConfig {
        paths: PathPermissions {
            read: vec!["/data/input/".to_string(), "/data/output/".to_string()],
            write: vec!["/data/output/".to_string()],
        },
        resources: Some(ResourceLimits {
            max_cpus: 32,
            max_memory_gb: 128,
            max_time_hours: 120,
            max_gpus: 2,
            max_array_size: 1000,
        }),
        containers: ContainerConfig::default(),
        modules: ModuleConfig::default(),
        singularity: SingularityConfig::default(),
    }
}

#[test]
fn test_config_creation() {
    let config = integration_config();

    assert_eq!(config.resources.as_ref().unwrap().max_cpus, 32);
    assert_eq!(config.resources.as_ref().unwrap().max_memory_gb, 128);
    assert!(config.paths.read.contains(&"/data/input/".to_string()));
    assert!(config.paths.write.contains(&"/data/output/".to_string()));
}

#[test]
fn validate_accepts_write_under_read() {
    assert!(integration_config().validate().is_ok());
}

#[test]
fn validate_refuses_write_outside_read() {
    let mut c = integration_config();
    c.paths.write.push("/elsewhere/".to_string());
    match c.validate() {
        Err(ConfigError::Validation(m)) => {
            assert_eq!(m, "Write path /elsewhere/ is not under any read path")
        }
        other => panic!("unexpected {:?}", other),
    }
}

#[test]
fn validate_refuses_zero_limits() {
    let mut c = integration_config();
    c.resources.as_mut().unwrap().max_cpus = 0;
    assert!(matches!(c.validate(), Err(ConfigError::Validation(m)) if m == "max_cpus must be > 0"));
    let mut c = integration_config();
    c.resources.as_mut().unwrap().max_memory_gb = 0;
    assert!(matches!(c.validate(), Err(ConfigError::Validation(m)) if m == "max_memory_gb must be > 0"));
    let mut c = integration_config();
    c.resources.as_mut().unwrap().max_time_hours = 0;
    assert!(matches!(c.validate(), Err(ConfigError::Validation(m)) if m == "max_time_hours must be > 0"));
    let mut c = integration_config();
    c.resources = None;
    assert!(c.validate().is_ok());
}

#[test]
fn writable_paths_are_readable_in_a_valid_config() {
    let c = integration_config();
    assert!(c.validate().is_ok());
    for p in ["/data/output/x", "/data/output/a/b", "/data/output"] {
        assert!(c.is_write_allowed(p));
        assert!(c.is_read_allowed(p));
    }
}

#[test]
fn containers_and_modules() {
    let mut c = integration_config();
    c.containers.allowed.push(ContainerSpec {
        registry: "docker://ghcr.io".to_string(),
        name: "python".to_string(),
        tags: vec!["3.9".to_string(), "3.10".to_string()],
    });
    c.containers.allowed.push(ContainerSpec {
        registry: "docker://ghcr.io".to_string(),
        name: "r".to_string(),
        tags: vec!["*".to_string()],
    });
    assert!(c.is_container_allowed("docker://ghcr.io", "python", "3.10"));
    assert!(!c.is_container_allowed("docker://ghcr.io", "python", "3.11"));
    assert!(c.is_container_allowed("docker://ghcr.io", "r", "anything"));
    assert!(!c.is_container_allowed("docker://other", "r", "4.0"));
    // An empty module list allows every module.
    assert!(c.is_module_allowed("gcc/9.2.0"));
    c.modules.allowed = vec!["gcc/9.2.0".to_string()];
    assert!(c.is_module_allowed("gcc/9.2.0"));
    assert!(!c.is_module_allowed("python/3.9.14"));
}

#[test]
fn checksum_is_sha256_hex() {
    assert_eq!(
        checksum_of(b""),
        "e3b0c44298fc1c149afbf4c8996fb92427ae41e4649b934ca495991b7852b855"
    );
    assert_eq!(
        checksum_of(b"abc"),
        "ba7816bf8f01cfea414140de5dae2223b00361a396177a9cb410ff61f20015ad"
    );
}

#[test]
fn test_checksum_workflow() {
    let content = b"[paths]\nread = [\"/data/\"]\n";
    let current = checksum_of(content);
    assert!(matches!(integrity_status(None, &current), IntegrityStatus::NoBaseline));
    let stored = format!("{}\n", current);
    assert!(matches!(integrity_status(Some(&stored), &current), IntegrityStatus::Valid));
    let modified = checksum_of(b"[paths]\nread = [\"/data/\"]\n# modified\n");
    match integrity_status(Some(&stored), &modified) {
        IntegrityStatus::Modified { stored: s, current: c } => {
            assert_eq!(s, current);
            assert_eq!(c, modified);
        }
        other => panic!("unexpected {:?}", other),
    }
    assert_eq!(integrity_gate(&IntegrityStatus::Valid).unwrap(), false);
    assert_eq!(integrity_gate(&IntegrityStatus::NoBaseline).unwrap(), true);
    assert!(matches!(
        integrity_gate(&IntegrityStatus::Modified { stored: "a".into(), current: "b".into() }),
        Err(ConfigError::IntegrityViolation)
    ));
}
