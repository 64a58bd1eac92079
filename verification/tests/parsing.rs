use remote_bridge::commands::filesystem::{parse_grep_output, parse_ls_output, EntryType};
use remote_bridge::commands::git::{parse_git_pull_output, parse_git_status_output};
use remote_bridge::commands::slurm::{
    is_terminal_state, parse_sacct_output, parse_sbatch_output, parse_squeue_output, GpuSpec,
    GpuType, MemorySpec, MemoryUnit, TimeSpec,
};

#[test]
fn test_parse_ls_long() {
    let output = r#"total 8
-rw-r--r-- 1 user group 1234 Jan 15 12:00 file.txt
drwxr-xr-x 2 user group 4096 Jan 14 10:30 subdir
"#;

    let entries = parse_ls_output(output, true);
    assert_eq!(entries.len(), 2);
    assert_eq!(entries[0].name, "file.txt");
    assert!(matches!(entries[0].entry_type, EntryType::File));
    assert_eq!(entries[0].size, Some(1234));

    assert_eq!(entries[1].name, "subdir");
    assert!(matches!(entries[1].entry_type, EntryType::Directory));
}

#[test]
fn test_parse_grep_with_line_numbers() {
    let output = r#"file.py:10:def main():
file.py:25:    return result
"#;

    let matches = parse_grep_output(output, true);
    assert_eq!(matches.len(), 2);
    assert_eq!(matches[0].file, "file.py");
    assert_eq!(matches[0].line_number, Some(10));
    assert_eq!(matches[0].content, "def main():");
}

#[test]
fn test_parse_git_pull_up_to_date() {
    let output = "Already up to date.";
    let (up_to_date, files) = parse_git_pull_output(output);
    assert!(up_to_date);
    assert_eq!(files, 0);
}

#[test]
fn test_parse_git_pull_with_changes() {
    let output = r#"Updating abc123..def456
Fast-forward
 file1.py | 10 +++++++---
 file2.py |  5 +++++
 2 files changed, 12 insertions(+), 3 deletions(-)"#;
    let (up_to_date, files) = parse_git_pull_output(output);
    assert!(!up_to_date);
    assert_eq!(files, 2);
}

#[test]
fn test_parse_git_status() {
    let output = r#" M src/main.rs
?? new_file.txt
MM both_modified.rs"#;
    let (modified, untracked) = parse_git_status_output(output);
    assert_eq!(modified.len(), 2);
    assert_eq!(untracked.len(), 1);
    assert!(untracked.contains(&"new_file.txt".to_string()));
}

#[test]
fn test_parse_sbatch_output() {
    let output = "Submitted batch job 12345678\n";
    assert_eq!(parse_sbatch_output(output), Some("12345678".to_string()));
}

#[test]
fn test_time_spec() {
    let time = TimeSpec {
        days: 1,
        hours: 12,
        minutes: 30,
    };
    assert_eq!(time.to_slurm_format(), "1-12:30");
    assert_eq!(time.total_hours(), 36);
}

#[test]
fn test_memory_spec() {
    let mem = MemorySpec {
        amount: 32,
        unit: MemoryUnit::GB,
    };
    assert_eq!(mem.to_slurm_format(), "32G");
    assert_eq!(mem.to_gb(), 32);
}

#[test]
fn test_gpu_spec() {
    let gpu = GpuSpec {
        count: 2,
        gpu_type: Some(GpuType::A100),
    };
    assert_eq!(gpu.to_slurm_gres(), "gpu:a100:2");

    let gpu_any = GpuSpec {
        count: 1,
        gpu_type: None,
    };
    assert_eq!(gpu_any.to_slurm_gres(), "gpu:1");
}

#[test]
fn ls_short_format_and_odd_lines() {
    let entries = parse_ls_output("total 3\n  a.txt  \n\nb c\r\n", false);
    assert_eq!(entries.len(), 2);
    assert_eq!(entries[0].name, "a.txt");
    assert!(matches!(entries[0].entry_type, EntryType::Other));
    assert_eq!(entries[1].name, "b c");
    let long = parse_ls_output(
        "lrwxrwxrwx 1 u g 7 Jan 1 00:00 my link -> target\nshort line\n",
        true,
    );
    assert_eq!(long.len(), 1);
    assert_eq!(long[0].name, "my link -> target");
    assert!(matches!(long[0].entry_type, EntryType::Symlink));
    assert_eq!(long[0].modified.as_deref(), Some("Jan 1 00:00"));
    assert_eq!(long[0].permissions.as_deref(), Some("lrwxrwxrwx"));
    let bad_size = parse_ls_output("crw-r--r-- 1 u g 4,5 Jan 1 00:00 tty", true);
    assert_eq!(bad_size[0].size, None);
    assert!(matches!(bad_size[0].entry_type, EntryType::Other));
}

#[test]
fn grep_without_line_numbers() {
    let m = parse_grep_output("a.txt:x:y\nplain\n\n", false);
    assert_eq!(m.len(), 2);
    assert_eq!(m[0].file, "a.txt");
    assert_eq!(m[0].content, "x:y");
    assert_eq!(m[1].file, "");
    assert_eq!(m[1].content, "plain");
    let n = parse_grep_output("f:notanumber:c\nf:c\nnocolon", true);
    assert_eq!(n.len(), 2);
    assert_eq!(n[0].line_number, None);
    assert_eq!(n[0].content, "c");
    assert_eq!(n[1].file, "f");
    assert_eq!(n[1].content, "c");
}

#[test]
fn git_pull_single_file_and_hyphenated() {
    let (up, n) = parse_git_pull_output("Already up-to-date.\n");
    assert!(up);
    assert_eq!(n, 0);
    let (_, n) = parse_git_pull_output(" 1 file changed, 1 insertion(+)");
    assert_eq!(n, 1);
    let (_, n) = parse_git_pull_output("x files changed");
    assert_eq!(n, 0);
}

#[test]
fn git_status_multibyte() {
    let (m, u) = parse_git_status_output("é x\n?? ünï\nab\n");
    assert_eq!(m, vec!["x".to_string()]);
    assert_eq!(u, vec!["ünï".to_string()]);
}

#[test]
fn squeue_and_sacct() {
    let out = "JOBID PARTITION NAME USER ST TIME NODES NODELIST(REASON)
12345678 short test-job testuser R 0:05:00 1 compute-a-001
12345679 medium analysis testuser PD 0:00:00 1 (Resources) more";
    let jobs = parse_squeue_output(out);
    assert_eq!(jobs.len(), 2);
    assert_eq!(jobs[0].job_id, "12345678");
    assert_eq!(jobs[0].partition, "short");
    assert_eq!(jobs[0].name, "test-job");
    assert_eq!(jobs[0].reason.as_deref(), Some("compute-a-001"));
    assert_eq!(jobs[1].reason.as_deref(), Some("(Resources) more"));
    assert!(parse_squeue_output("JOBID PARTITION NAME USER ST TIME NODES NODELIST(REASON)").is_empty());

    let sacct = "JobID|JobName|Partition|State|ExitCode|Elapsed|MaxRSS|MaxVMSize|NCPUS|NTasks
----
12345678|test-job|short|COMPLETED|0:0|00:05:32|1024K||4|x";
    let j = parse_sacct_output(sacct);
    assert_eq!(j.len(), 1);
    assert_eq!(j[0].state, "COMPLETED");
    assert_eq!(j[0].max_rss.as_deref(), Some("1024K"));
    assert_eq!(j[0].max_vmem, None);
    assert_eq!(j[0].n_cpus, 4);
    assert_eq!(j[0].n_tasks, 0);
}

#[test]
fn terminal_states() {
    assert!(is_terminal_state("COMPLETED"));
    assert!(is_terminal_state("failed"));
    assert!(is_terminal_state("Out_Of_Memory"));
    assert!(!is_terminal_state("RUNNING"));
    assert!(!is_terminal_state("PENDING"));
    assert!(!is_terminal_state("COMPLETED+"));
}

#[test]
fn sbatch_output_variants() {
    assert_eq!(parse_sbatch_output("noise\nSubmitted batch job 42 \nSubmitted batch job 43"), Some("42".to_string()));
    assert_eq!(parse_sbatch_output("sbatch: error: nope"), None);
}

#[test]
fn spec_formats() {
    assert_eq!(TimeSpec { days: 0, hours: 2, minutes: 5 }.to_slurm_format(), "0-02:05");
    assert_eq!(TimeSpec { days: 10, hours: 23, minutes: 59 }.total_hours(), 263);
    assert_eq!(MemorySpec { amount: 2047, unit: MemoryUnit::MB }.to_gb(), 1);
    assert_eq!(MemorySpec { amount: 2, unit: MemoryUnit::TB }.to_gb(), 2048);
    assert_eq!(MemorySpec { amount: 512, unit: MemoryUnit::MB }.to_slurm_format(), "512M");
    assert_eq!(GpuSpec { count: 3, gpu_type: Some(GpuType::V100) }.to_slurm_gres(), "gpu:v100:3");
}
