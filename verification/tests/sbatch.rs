use remote_bridge::commands::slurm::{
    GpuSpec, MemorySpec, MemoryUnit, Partition, SandboxedSbatchRequest, TimeSpec,
};
use remote_bridge::config::{
    ContainerConfig, ModuleConfig, PathPermissions, PermissionConfig, ResourceLimits,
    SingularityConfig,
};
use remote_bridge::sbatch::{
    generate_script, generate_script_at, parse_bind_spec, sanitize_job_name, validate_array_spec,
    ScriptError,
};

fn test_config() -> PermissionConfig {
    PermissionConfig {
        paths: PathPermissions {
            read: vec!["/data/input/".to_string(), "/data/output/".to_string()],
            write: vec!["/data/output/".to_string()],
        },
        resources: Some(ResourceLimits {
            max_cpus: 32,
            max_memory_gb: 128,
            max_time_hours: 120,
            max_gpus: 2,
            max_array_size: 1000,
        }),
        containers: ContainerConfig::default(),
        modules: ModuleConfig::default(),
        singularity: SingularityConfig {
            default_image: Some("/containers/python.sif".to_string()),
            scripts_dir: Some("/scratch/scripts/".to_string()),
            cache_dir: Some("/scratch/.singularity".to_string()),
            extra_binds: vec!["/n/app:ro".to_string()],
        },
    }
}

fn simple_request() -> SandboxedSbatchRequest {
    SandboxedSbatchRequest {
        job_name: "test".to_string(),
        command: "echo hello".to_string(),
        image: Some("/test.sif".to_string()),
        partition: None,
        cpus: 1,
        memory: None,
        time: None,
        gpu: None,
        array: None,
        working_dir: None,
        output: None,
        error: None,
        input_paths: vec![],
        output_paths: vec![],
        environment: Default::default(),
        extra_directives: Default::default(),
        return_script: false,
        dry_run: false,
    }
}

#[test]
fn test_generate_basic_script() {
    let config = test_config();
    let request = SandboxedSbatchRequest {
        job_name: "test-job".to_string(),
        command: "python script.py".to_string(),
        image: None, // Use default
        partition: Some(Partition::Short),
        cpus: 4,
        memory: Some(MemorySpec {
            amount: 16,
            unit: MemoryUnit::GB,
        }),
        time: Some(TimeSpec {
            days: 0,
            hours: 2,
            minutes: 0,
        }),
        gpu: None,
        array: None,
        working_dir: Some("/data/output/project".to_string()),
        output: Some("/data/output/logs/%j.out".to_string()),
        error: Some("/data/output/logs/%j.err".to_string()),
        input_paths: vec!["/data/input/dataset".to_string()],
        output_paths: vec!["/data/output/results".to_string()],
        environment: [("PYTHONPATH".to_string(), "/app".to_string())]
            .into_iter()
            .collect(),
        extra_directives: Default::default(),
        return_script: false,
        dry_run: false,
    };

    let result = generate_script(&request, &config).unwrap();

    assert!(result.content.contains("#SBATCH --job-name=test-job"));
    assert!(result.content.contains("#SBATCH --partition=short"));
    assert!(result.content.contains("#SBATCH --cpus-per-task=4"));
    assert!(result.content.contains("#SBATCH --mem=16G"));
    assert!(result.content.contains("module load singularity"));
    assert!(result.content.contains("singularity exec"));
    assert!(result.content.contains("/data/input/dataset:/data/input/dataset:ro"));
    assert!(result.content.contains("/data/output/results:/data/output/results:rw"));
    assert!(result.content.contains("python script.py"));
    assert_eq!(result.image, "/containers/python.sif");
}

#[test]
fn test_input_path_validation() {
    let config = test_config();
    let mut request = simple_request();
    request.input_paths = vec!["/unauthorized/path".to_string()];

    let result = generate_script(&request, &config);
    assert!(matches!(result, Err(ScriptError::InputPathNotAllowed(_))));
}

#[test]
fn test_resource_limit_validation() {
    let config = test_config();
    let mut request = simple_request();
    request.cpus = 64; // Exceeds max of 32

    let result = generate_script(&request, &config);
    assert!(matches!(result, Err(ScriptError::ResourceLimitExceeded(_))));
}

#[test]
fn test_parse_bind_spec() {
    // Short form
    let mount = parse_bind_spec("/path:ro").unwrap();
    assert_eq!(mount.host, "/path");
    assert_eq!(mount.container, "/path");
    assert_eq!(mount.mode, "ro");

    // Long form
    let mount = parse_bind_spec("/host:/container:rw").unwrap();
    assert_eq!(mount.host, "/host");
    assert_eq!(mount.container, "/container");
    assert_eq!(mount.mode, "rw");
}

#[test]
fn bind_spec_with_wrong_field_count() {
    assert!(parse_bind_spec("/only").is_none());
    assert!(parse_bind_spec("a:b:c:d").is_none());
}

#[test]
fn whole_script_text() {
    let config = test_config();
    let mut request = simple_request();
    request.job_name = "my job/1".to_string();
    request.working_dir = Some("/data/output/w".to_string());
    request.output_paths = vec!["/data/output/r".to_string()];
    request.environment = vec![("MSG".to_string(), "it's".to_string())];
    request.extra_directives = vec![("mail-type".to_string(), "END".to_string())];
    request.gpu = Some(GpuSpec { count: 1, gpu_type: None });
    request.array = Some("1-10%2".to_string());
    let g = generate_script_at(&request, &config, "20240101_000000").unwrap();
    let expected = "#!/bin/bash

#SBATCH --job-name=my job/1
#SBATCH --cpus-per-task=1
#SBATCH --gres=gpu:1
#SBATCH --array=1-10%2
#SBATCH --mail-type=END

# Generated by remote-bridge sandboxed_sbatch
# Container: /test.sif
# Bind mounts:
#   /data/output/r:/data/output/r (rw)
#   /data/output/w:/data/output/w (rw)
#   /n/app:/n/app (ro)

module load singularity

export SINGULARITY_CACHEDIR='/scratch/.singularity'

export MSG='it'\"'\"'s'

singularity exec --bind /data/output/r:/data/output/r:rw --bind /data/output/w:/data/output/w:rw --bind /n/app:/n/app:ro --pwd /data/output/w /test.sif bash -c 'echo hello'
";
    assert_eq!(g.content, expected);
    assert_eq!(g.filename, "my_job_1_20240101_000000.sh");
    assert_eq!(g.bind_mounts.len(), 3);
}

#[test]
fn working_dir_already_an_output_is_bound_once() {
    let config = test_config();
    let mut request = simple_request();
    request.working_dir = Some("/data/output/r".to_string());
    request.output_paths = vec!["/data/output/r".to_string()];
    let g = generate_script(&request, &config).unwrap();
    assert_eq!(g.bind_mounts.len(), 2);
    assert!(g.filename.starts_with("test_"));
    assert!(g.filename.ends_with(".sh"));
}

#[test]
fn script_errors() {
    let mut config = test_config();
    let mut request = simple_request();
    request.output_paths = vec!["/data/input/x".to_string()];
    assert!(matches!(generate_script(&request, &config), Err(ScriptError::OutputPathNotAllowed(p)) if p == "/data/input/x"));
    request.output_paths = vec![];
    request.working_dir = Some("/data/input".to_string());
    assert!(matches!(generate_script(&request, &config), Err(ScriptError::OutputPathNotAllowed(_))));
    request.working_dir = None;
    request.memory = Some(MemorySpec { amount: 1, unit: MemoryUnit::TB });
    match generate_script(&request, &config) {
        Err(e @ ScriptError::ResourceLimitExceeded(_)) => {
            assert_eq!(e.message(), "Resource limit exceeded: Memory 1024GB exceeds max 128GB")
        }
        _ => panic!("expected a memory refusal"),
    }
    request.memory = None;
    request.time = Some(TimeSpec { days: 5, hours: 1, minutes: 0 });
    assert!(matches!(generate_script(&request, &config), Err(ScriptError::ResourceLimitExceeded(m)) if m == "Time 121h exceeds max 120h"));
    request.time = None;
    request.gpu = Some(GpuSpec { count: 3, gpu_type: None });
    assert!(matches!(generate_script(&request, &config), Err(ScriptError::ResourceLimitExceeded(m)) if m == "GPUs 3 exceeds max 2"));
    request.gpu = None;
    request.array = Some("1-5000".to_string());
    assert!(matches!(generate_script(&request, &config), Err(ScriptError::ResourceLimitExceeded(m)) if m == "Array size 5000 exceeds max 1000"));
    request.array = Some("a-5".to_string());
    assert!(matches!(generate_script(&request, &config), Err(ScriptError::InvalidArraySpec(s)) if s == "a-5"));
    request.array = Some("7".to_string());
    assert!(generate_script(&request, &config).is_ok());
    request.image = None;
    config.singularity.default_image = None;
    let e = generate_script(&request, &config).err().unwrap();
    assert!(matches!(e, ScriptError::NoImage));
    assert!(e.message().contains("image"));
}

#[test]
fn array_spec_without_limits() {
    let mut config = test_config();
    config.resources = None;
    assert!(validate_array_spec("1-999999", &config).is_ok());
    assert!(validate_array_spec("x-1", &config).is_err());
}

#[test]
fn sanitize() {
    assert_eq!(sanitize_job_name("a b/c-d_e.f"), "a_b_c-d_e_f");
    assert_eq!(sanitize_job_name("été"), "été");
}

#[test]
fn command_runs_as_one_word_inside_the_container() {
    let config = test_config();
    let mut request = simple_request();
    request.command = "a; rm -rf ~".to_string();
    let g = generate_script(&request, &config).unwrap();
    let last = g.content.lines().last().unwrap().to_string();
    assert_eq!(
        last,
        "singularity exec --bind /n/app:/n/app:ro /test.sif bash -c 'a; rm -rf ~'"
    );
    assert!(!g.content.contains("\na; rm"));
}

#[test]
fn fields_that_would_break_a_line_are_refused() {
    let config = test_config();
    let mut request = simple_request();
    request.job_name = "x\nrm -rf ~".to_string();
    match generate_script(&request, &config) {
        Err(e @ ScriptError::InvalidField(_)) => {
            assert_eq!(e.message(), "Invalid value for field: job_name")
        }
        _ => panic!("expected a refusal of the job name"),
    }
    request.job_name = "ok".to_string();
    request.extra_directives = vec![("mail-type".to_string(), "END\r".to_string())];
    assert!(matches!(generate_script(&request, &config), Err(ScriptError::InvalidField(f)) if f == "extra_directives"));
    request.extra_directives = vec![];
    request.image = Some("/x.sif\nreboot".to_string());
    assert!(matches!(generate_script(&request, &config), Err(ScriptError::InvalidField(f)) if f == "image"));
    request.image = Some("/test.sif".to_string());
    request.environment = vec![("A=B; reboot #".to_string(), "v".to_string())];
    assert!(matches!(generate_script(&request, &config), Err(ScriptError::InvalidField(f)) if f == "environment"));
    request.environment = vec![("1ABC".to_string(), "v".to_string())];
    assert!(matches!(generate_script(&request, &config), Err(ScriptError::InvalidField(f)) if f == "environment"));
    request.environment = vec![("_OK1".to_string(), "line\nbreak'quote".to_string())];
    let g = generate_script(&request, &config).unwrap();
    assert!(g.content.contains("export _OK1='line\nbreak'\"'\"'quote'\n"));
    request.output_paths = vec!["/data/output/a:b".to_string()];
    assert!(matches!(generate_script(&request, &config), Err(ScriptError::InvalidField(f)) if f == "bind mount"));
}

#[test]
fn mounts_that_climb_out_are_refused() {
    let config = test_config();
    let mut request = simple_request();
    request.output_paths = vec!["/data/output/../../home".to_string()];
    assert!(matches!(generate_script(&request, &config), Err(ScriptError::OutputPathNotAllowed(p)) if p == "/data/output/../../home"));
    request.output_paths = vec![];
    request.input_paths = vec!["/data/input/../../etc".to_string()];
    assert!(matches!(generate_script(&request, &config), Err(ScriptError::InputPathNotAllowed(p)) if p == "/data/input/../../etc"));
    request.input_paths = vec![];
    request.working_dir = Some("/data/output/x/../../../tmp".to_string());
    assert!(matches!(generate_script(&request, &config), Err(ScriptError::OutputPathNotAllowed(_))));
    request.working_dir = Some("/data/output/x/../y".to_string());
    let g = generate_script(&request, &config).unwrap();
    assert_eq!(g.bind_mounts[0].host, "/data/output/x/../y");
}

#[test]
fn names_given_twice_are_refused() {
    let config = test_config();
    let mut request = simple_request();
    request.environment = vec![
        ("A".to_string(), "1".to_string()),
        ("A".to_string(), "2".to_string()),
    ];
    assert!(matches!(generate_script(&request, &config), Err(ScriptError::InvalidField(f)) if f == "environment"));
    request.environment = vec![
        ("A".to_string(), "1".to_string()),
        ("B".to_string(), "1".to_string()),
    ];
    assert!(generate_script(&request, &config).is_ok());
    request.extra_directives = vec![
        ("mail-type".to_string(), "END".to_string()),
        ("mail-type".to_string(), "FAIL".to_string()),
    ];
    assert!(matches!(generate_script(&request, &config), Err(ScriptError::InvalidField(f)) if f == "extra_directives"));
}
