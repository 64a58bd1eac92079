use base64::Engine;
use remote_bridge::commands::filesystem::{
    CatRequest, DownloadRequest, FindRequest, FindType, GrepFlag, GrepRequest, HeadRequest,
    LsFlag, LsRequest, WcRequest,
};
use remote_bridge::commands::git::GitPullRequest;
use remote_bridge::commands::slurm::{
    ArrayWaitMode, GpuSpec, JobState, JobWaitRequest, MemorySpec, MemoryUnit, Partition,
    SacctRequest, SandboxedSbatchRequest, SandboxedSbatchResponse, SbatchRequest,
    ScancelRequest, SqueueRequest, TimeSpec,
};
use remote_bridge::config::{
    ContainerConfig, ModuleConfig, PathPermissions, PermissionConfig, ResourceLimits,
    SingularityConfig,
};
use remote_bridge::error::SshError;
use remote_bridge::rpc::files::{
    download_content_command, download_response, find_response, grep_response, head_response,
    wc_response,
};
use remote_bridge::rpc::handlers::{cat_response, ls_response, RpcState};
use remote_bridge::rpc::job_wait::{JobWait, WaitAction};
use remote_bridge::rpc::jobs::{
    git_pull_response, sacct_response, sbatch_response, scancel_response, squeue_response,
};
use remote_bridge::rpc::sandbox::{sandbox_response, script_is_computable, step_error};
use remote_bridge::rpc::types::{
    RpcError, ERR_COMMAND_FAILED, ERR_INVALID_REGEX, ERR_PERMISSION_DENIED, ERR_VALIDATION,
};
use remote_bridge::ssh::CommandOutput;

const LS_RESPONSE: &str = "total 16
drwxr-xr-x  4 user group 4096 Jan 17 10:00 .
drwxr-xr-x  3 user group 4096 Jan 17 09:00 ..
-rw-r--r--  1 user group 1234 Jan 17 10:00 file1.txt
-rw-r--r--  1 user group 5678 Jan 17 09:30 file2.py";
const CAT_RESPONSE: &str = "line1\nline2\nline3";
const SACCT_RESPONSE: &str = "JobID|JobName|Partition|State|ExitCode|Elapsed|MaxRSS|MaxVMSize|NCPUS|NTasks
12345678|test-job|short|COMPLETED|0:0|00:05:32|1024K|2048K|4|1";
const GIT_PULL_UP_TO_DATE: &str = "Already up to date.";
const WC_RESPONSE: &str = "      10      50     500 /path/to/file.txt";
const HEAD_RESPONSE: &str = "line1\nline2\nline3\nline4\nline5";
const GREP_RESPONSE: &str = "/path/file.py:10:def main():
/path/file.py:25:    main()";
const FIND_RESPONSE: &str = "/data/input/file1.py
/data/input/subdir/file2.py
/data/input/subdir/file3.py";

fn test_config() -> PermissionConfig {
    PermissionConfig {
        paths: PathPermissions {
            read: vec![
                "/data/input/".to_string(),
                "/data/output/".to_string(),
                "/scratch/".to_string(),
            ],
            write: vec!["/data/output/".to_string(), "/scratch/".to_string()],
        },
        resources: Some(ResourceLimits {
            max_cpus: 32,
            max_memory_gb: 128,
            max_time_hours: 120,
            max_gpus: 2,
            max_array_size: 1000,
        }),
        containers: ContainerConfig::default(),
        modules: ModuleConfig::default(),
        singularity: SingularityConfig {
            default_image: Some("/containers/python.sif".to_string()),
            scripts_dir: Some("/scratch/scripts/".to_string()),
            cache_dir: Some("/scratch/.singularity".to_string()),
            extra_binds: vec!["/n/app:ro".to_string()],
        },
    }
}

fn config_no_default_image() -> PermissionConfig {
    let mut config = test_config();
    config.singularity.default_image = None;
    config
}

fn config_no_scripts_dir() -> PermissionConfig {
    let mut config = test_config();
    config.singularity.scripts_dir = None;
    config
}

fn ok(stdout: &str) -> Result<CommandOutput, SshError> {
    Ok(CommandOutput { stdout: stdout.to_string(), stderr: String::new(), exit_code: 0 })
}

fn fail(message: &str) -> Result<CommandOutput, SshError> {
    Err(SshError::CommandFailed(message.to_string()))
}

fn state() -> RpcState {
    RpcState::new(test_config())
}

// ---------------------------------------------------------------------------
// connection_status
// ---------------------------------------------------------------------------

#[test]
fn test_connection_status_connected() {
    let status = state().connection_status(true, "testuser", "testhost");
    assert!(status.connected);
    assert_eq!(status.user, "testuser");
    assert_eq!(status.host, "testhost");
    assert!(status.instructions.is_none());
}

#[test]
fn test_connection_status_disconnected() {
    let status = state().connection_status(false, "testuser", "testhost");
    assert!(!status.connected);
    assert!(status.instructions.is_some());
}

// ---------------------------------------------------------------------------
// ls
// ---------------------------------------------------------------------------

#[test]
fn test_ls_basic() {
    let state = state();
    let request = LsRequest { path: "/data/input/".to_string(), flags: vec![] };
    let plan = state.ls(&request).unwrap();
    assert_eq!(plan.command, "ls '--color=never' '/data/input'");
    let response = ls_response(&request, &plan, ok(LS_RESPONSE), 0).unwrap();
    assert!(!response.entries.is_empty());
    assert_eq!(response.path, "/data/input");
}

#[test]
fn test_ls_flags_in_order() {
    let state = state();
    let request = LsRequest {
        path: "/data/input".to_string(),
        flags: vec![LsFlag::Long, LsFlag::All],
    };
    let plan = state.ls(&request).unwrap();
    assert_eq!(plan.command, "ls '--color=never' '-l' '-a' '/data/input'");
    let response = ls_response(&request, &plan, ok(LS_RESPONSE), 3).unwrap();
    // long format: the "total" line is no entry; ".", "..", and two files are
    assert_eq!(response.entries.len(), 4);
    assert_eq!(response.entries[2].name, "file1.txt");
    assert_eq!(response.entries[2].size, Some(1234));
    assert_eq!(response.duration_ms, 3);
}

#[test]
fn test_ls_permission_denied() {
    let state = state();
    let request = LsRequest { path: "/unauthorized/path/".to_string(), flags: vec![] };
    let err = state.ls(&request).unwrap_err();
    assert_eq!(err.code, ERR_PERMISSION_DENIED);
    assert!(err.message.contains("not allowed"));
}

#[test]
fn test_ls_command_failure() {
    let state = state();
    let request = LsRequest { path: "/data/input".to_string(), flags: vec![] };
    let plan = state.ls(&request).unwrap();
    let err = ls_response(&request, &plan, fail("boom"), 0).unwrap_err();
    assert_eq!(err.code, ERR_COMMAND_FAILED);
    assert_eq!(err.message, "Command execution failed: boom");
}

#[test]
fn test_ls_quote_in_path_is_escaped() {
    let state = state();
    let request = LsRequest { path: "/data/input/it's".to_string(), flags: vec![] };
    let plan = state.ls(&request).unwrap();
    assert_eq!(plan.command, "ls '--color=never' '/data/input/it'\"'\"'s'");
}

// ---------------------------------------------------------------------------
// cat
// ---------------------------------------------------------------------------

fn cat_request(path: &str) -> CatRequest {
    CatRequest { path: path.to_string(), flags: vec![], head: None, tail: None, offset: None, limit: None }
}

#[test]
fn test_cat_basic() {
    let state = state();
    let request = cat_request("/data/input/file.txt");
    let plan = state.cat(&request).unwrap();
    assert_eq!(plan.command, "cat '/data/input/file.txt'");
    let response = cat_response(&plan, ok(CAT_RESPONSE), 0).unwrap();
    assert_eq!(response.content, CAT_RESPONSE);
    assert_eq!(response.total_lines, 3);
    assert!(!response.truncated);
}

#[test]
fn test_cat_permission_denied() {
    let state = state();
    let request = cat_request("/unauthorized/file.txt");
    assert!(state.cat(&request).is_err());
}

#[test]
fn test_cat_line_selections() {
    let state = state();
    let mut request = cat_request("/data/input/f");
    request.head = Some(5);
    assert_eq!(state.cat(&request).unwrap().command, "head -n 5 '/data/input/f'");
    request.head = None;
    request.tail = Some(7);
    assert_eq!(state.cat(&request).unwrap().command, "tail -n 7 '/data/input/f'");
    request.tail = None;
    request.offset = Some(10);
    assert_eq!(state.cat(&request).unwrap().command, "tail -n +10 '/data/input/f'");
    request.limit = Some(5);
    assert_eq!(state.cat(&request).unwrap().command, "sed -n '10,14p' '/data/input/f'");
}

// ---------------------------------------------------------------------------
// grep
// ---------------------------------------------------------------------------

#[test]
fn test_grep_basic() {
    let state = state();
    let request = GrepRequest {
        pattern: "def main".to_string(),
        paths: vec!["/data/input/file.py".to_string()],
        flags: vec![GrepFlag::LineNumbers],
    };
    let plan = state.grep(&request).unwrap();
    assert_eq!(plan.command, "grep -E -n 'def main' '/data/input/file.py'");
    let response = grep_response(&request, ok(GREP_RESPONSE), 0).unwrap();
    assert!(!response.matches.is_empty());
    assert_eq!(response.matches[0].line_number, Some(10));
    assert_eq!(response.total_matches, 2);
    assert_eq!(response.files_searched, 1);
}

#[test]
fn test_grep_permission_denied() {
    let state = state();
    let request = GrepRequest {
        pattern: "test".to_string(),
        paths: vec!["/unauthorized/file.txt".to_string()],
        flags: vec![],
    };
    let err = state.grep(&request).unwrap_err();
    assert!(err.message.contains("not allowed"));
}

#[test]
fn test_grep_invalid_regex() {
    let state = state();
    let request = GrepRequest {
        pattern: "[invalid".to_string(),
        paths: vec!["/data/input/file.txt".to_string()],
        flags: vec![],
    };
    let err = state.grep(&request).unwrap_err();
    assert_eq!(err.code, ERR_INVALID_REGEX);
    assert!(err.message.contains("regex") || err.message.contains("Invalid"));
}

#[test]
fn test_grep_checked_regex_error_is_reported() {
    let state = state();
    let request = GrepRequest {
        pattern: "x".to_string(),
        paths: vec!["/data/input/a".to_string()],
        flags: vec![],
    };
    let err = state.grep_checked(&request, Some("bad".to_string())).unwrap_err();
    assert_eq!(err.message, "Invalid regex: bad");
}

#[test]
fn test_grep_pattern_quote_and_second_path_refused() {
    let state = state();
    let request = GrepRequest {
        pattern: "it's".to_string(),
        paths: vec!["/data/input/a".to_string(), "/data/output/b".to_string()],
        flags: vec![GrepFlag::IgnoreCase, GrepFlag::Count],
    };
    let plan = state.grep(&request).unwrap();
    assert_eq!(
        plan.command,
        "grep -E -i -c 'it'\"'\"'s' '/data/input/a' '/data/output/b'"
    );
    let refused = GrepRequest {
        pattern: "x".to_string(),
        paths: vec!["/data/input/a".to_string(), "/etc/passwd".to_string()],
        flags: vec![],
    };
    let err = state.grep(&refused).unwrap_err();
    assert!(err.message.contains("/etc/passwd"));
}

// ---------------------------------------------------------------------------
// head, wc, find
// ---------------------------------------------------------------------------

#[test]
fn test_head_basic() {
    let state = state();
    let request = HeadRequest { path: "/data/input/file.txt".to_string(), lines: 5 };
    let plan = state.head(&request).unwrap();
    assert_eq!(plan.command, "head -n 5 '/data/input/file.txt'");
    let response = head_response(&plan, ok(HEAD_RESPONSE), 0).unwrap();
    assert_eq!(response.lines_returned, 5);
    assert!(response.content.contains("line1"));
}

#[test]
fn test_head_permission_denied() {
    let state = state();
    let request = HeadRequest { path: "/unauthorized/file.txt".to_string(), lines: 10 };
    let err = state.head(&request).unwrap_err();
    assert!(err.message.contains("not allowed"));
}

fn wc_request(lines_only: bool, words_only: bool, bytes_only: bool) -> WcRequest {
    WcRequest { path: "/data/input/file.txt".to_string(), lines_only, words_only, bytes_only }
}

#[test]
fn test_wc_basic() {
    let state = state();
    let request = wc_request(false, false, false);
    let plan = state.wc(&request).unwrap();
    assert_eq!(plan.command, "wc  '/data/input/file.txt'");
    let response = wc_response(&request, &plan, ok(WC_RESPONSE), 0).unwrap();
    assert_eq!(response.lines, Some(10));
    assert_eq!(response.words, Some(50));
    assert_eq!(response.bytes, Some(500));
}

#[test]
fn test_wc_lines_only() {
    let state = state();
    let request = wc_request(true, false, false);
    let plan = state.wc(&request).unwrap();
    assert_eq!(plan.command, "wc -l '/data/input/file.txt'");
    let response = wc_response(&request, &plan, ok("      10 /path/to/file.txt"), 0).unwrap();
    assert_eq!(response.lines, Some(10));
    assert!(response.words.is_none());
    assert!(response.bytes.is_none());
}

#[test]
fn test_wc_words_and_bytes() {
    let state = state();
    let request = wc_request(false, true, true);
    let plan = state.wc(&request).unwrap();
    assert_eq!(plan.command, "wc -w -c '/data/input/file.txt'");
    let response = wc_response(&request, &plan, ok("  50  500 /p"), 0).unwrap();
    assert_eq!(response.lines, None);
    assert_eq!(response.words, Some(50));
    assert_eq!(response.bytes, Some(500));
}

#[test]
fn test_wc_permission_denied() {
    let state = state();
    let mut request = wc_request(false, false, false);
    request.path = "/unauthorized/file.txt".to_string();
    assert!(state.wc(&request).is_err());
}

#[test]
fn test_find_basic() {
    let state = state();
    let request = FindRequest {
        path: "/data/input".to_string(),
        name: Some("*.py".to_string()),
        file_type: None,
        max_depth: None,
        limit: 100,
    };
    let plan = state.find(&request).unwrap();
    assert_eq!(plan.command, "find '/data/input' -name '*.py' 2>/dev/null | head -n 101");
    let response = find_response(&request, ok(FIND_RESPONSE), 0).unwrap();
    assert_eq!(response.files.len(), 3);
    assert!(!response.truncated);
}

#[test]
fn test_find_with_depth() {
    let state = state();
    let request = FindRequest {
        path: "/data/input".to_string(),
        name: None,
        file_type: Some(FindType::File),
        max_depth: Some(2),
        limit: 50,
    };
    let plan = state.find(&request).unwrap();
    assert_eq!(plan.command, "find '/data/input' -maxdepth 2 -type f 2>/dev/null | head -n 51");
    let response = find_response(&request, ok("/data/input/file.txt"), 0).unwrap();
    assert_eq!(response.files.len(), 1);
}

#[test]
fn test_find_truncates_past_limit() {
    let request = FindRequest {
        path: "/data/input".to_string(),
        name: None,
        file_type: None,
        max_depth: None,
        limit: 2,
    };
    let response = find_response(&request, ok(FIND_RESPONSE), 0).unwrap();
    assert!(response.truncated);
    assert_eq!(response.total_found, 3);
    assert_eq!(response.files, vec!["/data/input/file1.py", "/data/input/subdir/file2.py"]);
}

#[test]
fn test_find_largest_limit() {
    let state = state();
    let request = FindRequest {
        path: "/data/input".to_string(),
        name: None,
        file_type: None,
        max_depth: None,
        limit: usize::MAX,
    };
    let plan = state.find(&request).unwrap();
    let expected = format!(
        "find '/data/input' 2>/dev/null | head -n {}",
        usize::MAX as u128 + 1
    );
    assert_eq!(plan.command, expected);
}

#[test]
fn test_find_permission_denied() {
    let state = state();
    let request = FindRequest {
        path: "/unauthorized/path".to_string(),
        name: None,
        file_type: None,
        max_depth: None,
        limit: 100,
    };
    assert!(state.find(&request).is_err());
}

// ---------------------------------------------------------------------------
// download
// ---------------------------------------------------------------------------

#[test]
fn test_download_basic() {
    let content = "Hello, World!";
    let encoded = base64::engine::general_purpose::STANDARD.encode(content);
    let state = state();
    let request = DownloadRequest { path: "/data/input/file.txt".to_string() };
    let plan = state.download(&request).unwrap();
    assert_eq!(
        plan.command,
        "stat -c%s '/data/input/file.txt' 2>/dev/null || stat -f%z '/data/input/file.txt'"
    );
    let (size, fetch) = download_content_command(&plan, ok("13"), "testuser", "testhost").unwrap();
    assert_eq!(size, 13);
    assert_eq!(fetch.command, "base64 '/data/input/file.txt'");
    let response = download_response(&fetch, size, ok(&format!("{}\n", encoded)), 0).unwrap();
    assert_eq!(response.size_bytes, 13);
    let decoded = base64::engine::general_purpose::STANDARD.decode(&response.content);
    assert!(decoded.is_ok());
    assert_eq!(decoded.unwrap(), content.as_bytes());
}

#[test]
fn test_download_file_too_large() {
    let state = state();
    let request = DownloadRequest { path: "/data/input/large.bin".to_string() };
    let plan = state.download(&request).unwrap();
    assert_eq!(
        plan.command,
        "stat -c%s '/data/input/large.bin' 2>/dev/null || stat -f%z '/data/input/large.bin'"
    );
    let err: RpcError =
        download_content_command(&plan, ok("104857601"), "testuser", "testhost").unwrap_err();
    assert!(err.message.contains("too large") || err.message.contains("File too large"));
    let data = err.data.unwrap();
    assert_eq!(data.size_bytes, 104857601);
    assert_eq!(data.max_bytes, 1048576);
    assert_eq!(data.scp_command, "scp testuser@testhost:'/data/input/large.bin' .");
}

#[test]
fn test_download_unreadable_size() {
    let state = state();
    let request = DownloadRequest { path: "/data/input/x".to_string() };
    let plan = state.download(&request).unwrap();
    let err = download_content_command(&plan, ok("stat: no such file"), "u", "h").unwrap_err();
    assert_eq!(err.code, ERR_COMMAND_FAILED);
    assert!(err.data.is_none());
}

#[test]
fn test_download_permission_denied() {
    let state = state();
    let request = DownloadRequest { path: "/unauthorized/file.txt".to_string() };
    assert!(state.download(&request).is_err());
}

// ---------------------------------------------------------------------------
// git, squeue, sacct, sbatch, scancel
// ---------------------------------------------------------------------------

#[test]
fn test_git_pull_up_to_date() {
    let state = state();
    let request = GitPullRequest {
        path: "/data/output/project".to_string(),
        remote: "origin".to_string(),
        branch: Some("main".to_string()),
    };
    let plan = state.git_pull(&request).unwrap();
    assert_eq!(plan.command, "cd '/data/output/project' && git pull 'origin' 'main'");
    let response = git_pull_response(&plan, ok(GIT_PULL_UP_TO_DATE), 0).unwrap();
    assert!(response.already_up_to_date);
}

#[test]
fn test_git_pull_without_branch() {
    let state = state();
    let request = GitPullRequest {
        path: "/data/output/project".to_string(),
        remote: "origin".to_string(),
        branch: Some(String::new()),
    };
    let plan = state.git_pull(&request).unwrap();
    assert_eq!(plan.command, "cd '/data/output/project' && git pull 'origin'");
}

#[test]
fn test_squeue_empty() {
    let request = SqueueRequest {
        user: Some("testuser".to_string()),
        job_ids: vec![],
        partition: None,
        state: None,
    };
    let plan = state().squeue(&request);
    assert_eq!(plan.command, "squeue -u testuser -h -o '%i %P %j %u %t %M %D %R'");
    let response = squeue_response(ok(""), 0).unwrap();
    assert!(response.jobs.is_empty());
}

#[test]
fn test_squeue_filters_and_quoting() {
    let request = SqueueRequest {
        user: Some("bob; rm -rf ~".to_string()),
        job_ids: vec!["1".to_string(), "2".to_string()],
        partition: Some("short".to_string()),
        state: Some(JobState::Running),
    };
    let plan = state().squeue(&request);
    assert_eq!(
        plan.command,
        "squeue -u 'bob; rm -rf ~' -j 1,2 -p short -t R -h -o '%i %P %j %u %t %M %D %R'"
    );
}

#[test]
fn test_sacct_by_job_id() {
    let request = SacctRequest {
        job_ids: vec!["12345678".to_string()],
        user: None,
        start_time: None,
        end_time: None,
        state: None,
    };
    let plan = state().sacct(&request);
    assert_eq!(
        plan.command,
        "sacct --parsable2 --format=JobID,JobName,Partition,State,ExitCode,Elapsed,MaxRSS,MaxVMSize,NCPUs,NTasks -j 12345678"
    );
    assert!(sacct_response(ok(SACCT_RESPONSE), 0).is_ok());
}

#[test]
fn test_sbatch_with_working_dir() {
    let state = state();
    let request = SbatchRequest {
        script_path: "/data/output/job.sh".to_string(),
        working_dir: Some("/data/output/run".to_string()),
    };
    let plan = state.sbatch(&request).unwrap();
    assert_eq!(plan.command, "cd '/data/output/run' && sbatch '/data/output/job.sh'");
    let response = sbatch_response(&plan, ok("Submitted batch job 4242"), 0).unwrap();
    assert_eq!(response.job_id, "4242");
    assert_eq!(response.script_path, "/data/output/job.sh");
    let err = sbatch_response(&plan, ok("nothing"), 0).unwrap_err();
    assert_eq!(err.message, "Failed to parse sbatch output: nothing");
}

#[test]
fn test_scancel_basic() {
    let request = ScancelRequest { job_ids: vec!["12345678".to_string()] };
    let plan = state().scancel(&request).unwrap();
    assert_eq!(plan.command, "scancel 12345678");
    let response = scancel_response(&request, ok(""), 0).unwrap();
    assert_eq!(response.cancelled_jobs, vec!["12345678"]);
}

#[test]
fn test_scancel_multiple_jobs() {
    let request = ScancelRequest {
        job_ids: vec!["12345678".to_string(), "12345679".to_string(), "12345680".to_string()],
    };
    let plan = state().scancel(&request).unwrap();
    assert_eq!(plan.command, "scancel 12345678 12345679 12345680");
    let response = scancel_response(&request, ok(""), 0).unwrap();
    assert_eq!(response.cancelled_jobs.len(), 3);
}

#[test]
fn test_scancel_empty_job_ids() {
    let request = ScancelRequest { job_ids: vec![] };
    let err = state().scancel(&request).unwrap_err();
    assert_eq!(err.code, ERR_VALIDATION);
    assert!(err.message.contains("No job IDs"));
}

// ---------------------------------------------------------------------------
// job_wait
// ---------------------------------------------------------------------------

const WAIT_QUERY: &str =
    "sacct -j 12345678 --parsable2 --noheader --format=JobID,State,ExitCode,Elapsed";

fn wait_once(mode: ArrayWaitMode, output: &str) -> Option<Result<remote_bridge::commands::slurm::JobWaitResponse, RpcError>> {
    let request = JobWaitRequest { job_id: "12345678".to_string(), array_mode: mode, max_wait_secs: 60 };
    let mut wait = JobWait::new(&request);
    match wait.next(0) {
        WaitAction::Poll { sleep_secs, query } => {
            assert_eq!(sleep_secs, 0);
            assert_eq!(query.command, WAIT_QUERY);
        }
        WaitAction::Finish(_) => panic!("the wait ended before its first query"),
    }
    wait.observe(ok(output), 1)
}

#[test]
fn test_job_wait_completed() {
    let response = wait_once(ArrayWaitMode::All, "12345678|COMPLETED|0:0|00:05:32")
        .unwrap()
        .unwrap();
    assert!(response.all_completed);
    assert_eq!(response.completed_jobs.len(), 1);
    assert_eq!(response.completed_jobs[0].state, "COMPLETED");
}

#[test]
fn test_job_wait_failed_job() {
    let response =
        wait_once(ArrayWaitMode::All, "12345678|FAILED|1:0|00:01:15").unwrap().unwrap();
    assert!(response.all_completed);
    assert_eq!(response.completed_jobs[0].state, "FAILED");
}

#[test]
fn test_job_wait_array_any() {
    let response = wait_once(
        ArrayWaitMode::Any,
        "12345678_1|COMPLETED|0:0|00:02:00\n12345678_2|RUNNING||",
    )
    .unwrap()
    .unwrap();
    assert!(!response.completed_jobs.is_empty());
    assert!(!response.all_completed);
}

#[test]
fn test_job_wait_index_and_steps() {
    let response = wait_once(
        ArrayWaitMode::Index(2),
        "12345678_1|COMPLETED|0:0|00:02:00\n12345678_2.batch|COMPLETED|0:0|1\n12345678_2|TIMEOUT|0:1|00:09:00",
    )
    .unwrap()
    .unwrap();
    assert_eq!(response.completed_jobs.len(), 1);
    assert_eq!(response.completed_jobs[0].job_id, "12345678_2");
    assert!(response.all_completed);
}

#[test]
fn test_job_wait_schedule_and_timeout() {
    let request = JobWaitRequest {
        job_id: "777_3".to_string(),
        array_mode: ArrayWaitMode::All,
        max_wait_secs: 100,
    };
    let mut wait = JobWait::new(&request);
    let mut pauses = Vec::new();
    for _ in 0..15 {
        match wait.next(10) {
            WaitAction::Poll { sleep_secs, query } => {
                assert_eq!(
                    query.command,
                    "sacct -j 777 --parsable2 --noheader --format=JobID,State,ExitCode,Elapsed"
                );
                pauses.push(sleep_secs);
                assert!(wait.observe(ok("777_1|RUNNING|0:0|1"), 10).is_none());
            }
            WaitAction::Finish(_) => panic!("no timeout yet"),
        }
    }
    assert_eq!(pauses, vec![0, 5, 10, 15, 20, 25, 30, 35, 40, 45, 50, 55, 60, 60, 60]);
    match wait.next(101) {
        WaitAction::Finish(response) => {
            assert!(!response.all_completed);
            assert_eq!(response.wait_time_secs, 101);
            assert_eq!(response.job_id, "777_3");
        }
        WaitAction::Poll { .. } => panic!("the wait should be over"),
    }
}

#[test]
fn test_job_wait_keeps_first_report_of_a_job() {
    let request = JobWaitRequest { job_id: "5".to_string(), array_mode: ArrayWaitMode::All, max_wait_secs: 60 };
    let mut wait = JobWait::new(&request);
    let _ = wait.next(0);
    assert!(wait.observe(ok("5_1|COMPLETED|0:0|1\n5_2|PENDING||"), 0).is_none());
    let _ = wait.next(0);
    let response = wait
        .observe(ok("5_1|FAILED|1:0|2\n5_2|COMPLETED|0:0|3"), 0)
        .unwrap()
        .unwrap();
    assert_eq!(response.completed_jobs.len(), 2);
    assert_eq!(response.completed_jobs[0].job_id, "5_1");
    assert_eq!(response.completed_jobs[0].state, "COMPLETED");
    assert_eq!(response.completed_jobs[1].job_id, "5_2");
}

#[test]
fn test_job_wait_query_failure() {
    let request = JobWaitRequest { job_id: "5".to_string(), array_mode: ArrayWaitMode::Any, max_wait_secs: 60 };
    let mut wait = JobWait::new(&request);
    let _ = wait.next(0);
    let err = wait.observe(fail("gone"), 0).unwrap().unwrap_err();
    assert_eq!(err.code, ERR_COMMAND_FAILED);
}

// ---------------------------------------------------------------------------
// sandboxed_sbatch
// ---------------------------------------------------------------------------

fn sandbox_request() -> SandboxedSbatchRequest {
    SandboxedSbatchRequest {
        job_name: "test-job".to_string(),
        command: "echo hello".to_string(),
        image: None,
        partition: None,
        cpus: 1,
        memory: None,
        time: None,
        gpu: None,
        array: None,
        working_dir: None,
        output: None,
        error: None,
        input_paths: vec![],
        output_paths: vec![],
        environment: Default::default(),
        extra_directives: Default::default(),
        return_script: false,
        dry_run: false,
    }
}

/// Runs a sandboxed submission as the server does, with `respond` standing
/// for the remote side; returns the commands run and the answer.
fn run_sandbox(
    config: PermissionConfig,
    request: &SandboxedSbatchRequest,
    respond: &dyn Fn(&str) -> Result<CommandOutput, SshError>,
) -> (Vec<String>, Result<SandboxedSbatchResponse, RpcError>) {
    let state = RpcState::new(config);
    assert!(script_is_computable(request, state.config()));
    let plan = match state.sandboxed_sbatch(request) {
        Ok(p) => p,
        Err(e) => return (vec![], Err(e)),
    };
    let mut ran = Vec::new();
    let mut submit = None;
    let last = plan.steps.len() - 1;
    for (i, step) in plan.steps.iter().enumerate() {
        ran.push(step.command.clone());
        match respond(&step.command) {
            Err(e) => return (ran, Err(step_error(i, e))),
            Ok(out) => {
                if i == last && !request.dry_run {
                    submit = Some(out);
                }
            }
        }
    }
    (ran, sandbox_response(request, plan, submit, 0))
}

fn submitting(id: &'static str) -> impl Fn(&str) -> Result<CommandOutput, SshError> {
    move |command: &str| {
        if command.starts_with("sbatch ") {
            ok(&format!("Submitted batch job {}", id))
        } else {
            ok("")
        }
    }
}

#[test]
fn test_sandboxed_sbatch_success() {
    let mut request = sandbox_request();
    request.command = "python /data/input/script.py".to_string();
    request.partition = Some(Partition::Short);
    request.cpus = 4;
    request.memory = Some(MemorySpec { amount: 16, unit: MemoryUnit::GB });
    request.time = Some(TimeSpec { days: 0, hours: 2, minutes: 0 });
    request.working_dir = Some("/data/output/work".to_string());
    request.input_paths = vec!["/data/input/".to_string()];
    request.output_paths = vec!["/data/output/".to_string()];
    request.return_script = true;
    let (ran, result) = run_sandbox(test_config(), &request, &submitting("12345678"));
    assert_eq!(ran[0], "mkdir -p '/scratch/scripts/'");
    assert!(ran[1].starts_with("cat > '/scratch/scripts/test-job_"));
    assert!(ran[2].starts_with("chmod +x '/scratch/scripts/"));
    assert!(ran[3].starts_with("sbatch '/scratch/scripts/"));
    let response = result.unwrap();
    assert_eq!(response.job_id, "12345678");
    assert_eq!(response.image_used, "/containers/python.sif");
    assert_eq!(response.stdout_path, "slurm-12345678.out");
    let script = response.script_content.unwrap();
    assert!(script.contains("#SBATCH --job-name=test-job"));
    assert!(script.contains("#SBATCH --partition=short"));
    assert!(script.contains("#SBATCH --cpus-per-task=4"));
    assert!(script.contains("#SBATCH --mem=16G"));
    assert!(script.contains("singularity exec"));
    assert!(script.contains("/data/input/:/data/input/:ro"));
    assert!(script.contains("/data/output/:/data/output/:rw"));
    // the here-document carries the script and ends on its delimiter
    assert!(ran[1].ends_with("\nSCRIPT_EOF"));
    assert!(ran[1].contains(&script));
}

#[test]
fn test_sandboxed_sbatch_no_default_image() {
    let request = sandbox_request();
    let (ran, result) = run_sandbox(config_no_default_image(), &request, &submitting("1"));
    assert!(ran.is_empty());
    let err = result.unwrap_err();
    assert!(err.message.contains("image"));
}

#[test]
fn test_sandboxed_sbatch_explicit_image() {
    let mut request = sandbox_request();
    request.image = Some("/custom/image.sif".to_string());
    let (_, result) = run_sandbox(config_no_default_image(), &request, &submitting("99999999"));
    let response = result.unwrap();
    assert_eq!(response.image_used, "/custom/image.sif");
    assert_eq!(response.job_id, "99999999");
    assert!(response.script_content.is_none());
}

#[test]
fn test_sandboxed_sbatch_input_path_not_allowed() {
    let mut request = sandbox_request();
    request.input_paths = vec!["/unauthorized/path/".to_string()];
    let (_, result) = run_sandbox(test_config(), &request, &submitting("1"));
    let err = result.unwrap_err();
    assert!(err.message.contains("not allowed") || err.message.contains("Input path"));
}

#[test]
fn test_sandboxed_sbatch_output_path_not_allowed() {
    let mut request = sandbox_request();
    request.output_paths = vec!["/unauthorized/output/".to_string()];
    let (_, result) = run_sandbox(test_config(), &request, &submitting("1"));
    let err = result.unwrap_err();
    assert!(err.message.contains("not allowed") || err.message.contains("Output path"));
}

#[test]
fn test_sandboxed_sbatch_resource_limit_cpus() {
    let mut request = sandbox_request();
    request.cpus = 100;
    let (_, result) = run_sandbox(test_config(), &request, &submitting("1"));
    let err = result.unwrap_err();
    assert!(err.message.contains("CPUs") || err.message.contains("exceeds"));
}

#[test]
fn test_sandboxed_sbatch_resource_limit_memory() {
    let mut request = sandbox_request();
    request.memory = Some(MemorySpec { amount: 500, unit: MemoryUnit::GB });
    let (_, result) = run_sandbox(test_config(), &request, &submitting("1"));
    let err = result.unwrap_err();
    assert!(err.message.contains("Memory") || err.message.contains("exceeds"));
}

#[test]
fn test_sandboxed_sbatch_resource_limit_gpus() {
    let mut request = sandbox_request();
    request.gpu = Some(GpuSpec { count: 10, gpu_type: None });
    let (_, result) = run_sandbox(test_config(), &request, &submitting("1"));
    let err = result.unwrap_err();
    assert!(err.message.contains("GPU") || err.message.contains("exceeds"));
}

#[test]
fn test_sandboxed_sbatch_ssh_mkdir_failure() {
    let request = sandbox_request();
    let respond = |command: &str| {
        if command.starts_with("mkdir") {
            fail("Permission denied")
        } else {
            ok("")
        }
    };
    let (ran, result) = run_sandbox(test_config(), &request, &respond);
    assert_eq!(ran, vec!["mkdir -p '/scratch/scripts/'"]);
    let err = result.unwrap_err();
    assert!(err.message.contains("directory") || err.message.contains("Permission"));
}

#[test]
fn test_sandboxed_sbatch_sbatch_failure() {
    let request = sandbox_request();
    let respond = |command: &str| {
        if command.starts_with("sbatch '/scratch/scripts/") {
            fail("sbatch: error: Batch job submission failed")
        } else {
            ok("")
        }
    };
    let (ran, result) = run_sandbox(test_config(), &request, &respond);
    assert_eq!(ran.len(), 4);
    let err = result.unwrap_err();
    assert!(err.message.contains("sbatch") || err.message.contains("failed"));
}

#[test]
fn test_sandboxed_sbatch_with_array() {
    let mut request = sandbox_request();
    request.job_name = "array-job".to_string();
    request.command = "echo $SLURM_ARRAY_TASK_ID".to_string();
    request.array = Some("1-100%10".to_string());
    request.return_script = true;
    let (_, result) = run_sandbox(test_config(), &request, &submitting("12345678"));
    let script = result.unwrap().script_content.unwrap();
    assert!(script.contains("#SBATCH --array=1-100%10"));
}

#[test]
fn test_sandboxed_sbatch_array_exceeds_limit() {
    let mut request = sandbox_request();
    request.array = Some("1-5000".to_string());
    let (_, result) = run_sandbox(test_config(), &request, &submitting("1"));
    let err = result.unwrap_err();
    assert!(err.message.contains("Array") || err.message.contains("exceeds"));
}

#[test]
fn test_sandboxed_sbatch_no_scripts_dir() {
    let mut request = sandbox_request();
    request.image = Some("/some/image.sif".to_string());
    let (_, result) = run_sandbox(config_no_scripts_dir(), &request, &submitting("1"));
    let err = result.unwrap_err();
    assert!(err.message.contains("scripts_dir") || err.message.contains("not configured"));
}

#[test]
fn test_sandboxed_sbatch_dry_run() {
    let mut request = sandbox_request();
    request.job_name = "dry-run-test".to_string();
    request.command = "python /data/input/script.py".to_string();
    request.partition = Some(Partition::Short);
    request.cpus = 4;
    request.memory = Some(MemorySpec { amount: 16, unit: MemoryUnit::GB });
    request.input_paths = vec!["/data/input/".to_string()];
    request.output_paths = vec!["/data/output/".to_string()];
    request.dry_run = true;
    let (ran, result) = run_sandbox(test_config(), &request, &submitting("1"));
    assert_eq!(ran.len(), 3);
    assert!(!ran.iter().any(|c| c.starts_with("sbatch")));
    let response = result.unwrap();
    assert_eq!(response.job_id, "DRY_RUN");
    let script = response.script_content.unwrap();
    assert!(script.contains("#SBATCH --job-name=dry-run-test"));
    assert!(script.contains("#SBATCH --partition=short"));
    assert!(script.contains("singularity exec"));
}

#[test]
fn test_sandboxed_sbatch_output_paths_name_the_job() {
    let mut request = sandbox_request();
    request.output = Some("/data/output/log-%j.out".to_string());
    let (_, result) = run_sandbox(test_config(), &request, &submitting("42"));
    let response = result.unwrap();
    assert_eq!(response.stdout_path, "/data/output/log-42.out");
    assert_eq!(response.stderr_path, "/data/output/log-42.out");
}

#[test]
fn test_sandboxed_sbatch_not_computable() {
    let mut request = sandbox_request();
    request.array = Some("10-1".to_string());
    assert!(!script_is_computable(&request, &test_config()));
    request.array = Some("1-10".to_string());
    assert!(script_is_computable(&request, &test_config()));
}

#[test]
fn test_sandboxed_script_stays_in_scripts_dir() {
    let mut request = sandbox_request();
    request.job_name = "../../etc/cron.d/x".to_string();
    let (ran, result) = run_sandbox(test_config(), &request, &submitting("7"));
    let response = result.unwrap();
    let name = response.script_path.strip_prefix("/scratch/scripts/").unwrap();
    assert!(!name.contains('/'));
    assert!(name.starts_with("______etc_cron_d_x_"));
    assert!(name.ends_with(".sh"));
    assert!(ran[1].starts_with(&format!("cat > '{}'", response.script_path)));
}

#[test]
fn test_sandboxed_script_with_delimiter_line() {
    let mut request = sandbox_request();
    request.command = "echo hi\nSCRIPT_EOF\nrm -rf /data".to_string();
    request.dry_run = true;
    let (ran, result) = run_sandbox(test_config(), &request, &submitting("7"));
    let script = result.unwrap().script_content.unwrap();
    assert!(script.lines().any(|l| l == "SCRIPT_EOF"));
    // the here-document ends on a longer delimiter that no line of the script is
    assert!(ran[1].contains("<< 'SCRIPT_EOF_'\n"));
    assert!(ran[1].ends_with("\nSCRIPT_EOF_"));
    assert!(!script.lines().any(|l| l == "SCRIPT_EOF_"));
}

#[test]
fn squeue_answer_keeps_the_first_job() {
    let response = squeue_response(
        ok("123 short job1 alice R 1:00 1 node1\n124 short job2 alice PD 0:00 1 (Priority)\n"),
        3,
    )
    .unwrap();
    assert_eq!(response.jobs.len(), 2);
    assert_eq!(response.jobs[0].job_id, "123");
    assert_eq!(response.jobs[1].reason.as_deref(), Some("(Priority)"));
    assert_eq!(response.duration_ms, 3);
}
