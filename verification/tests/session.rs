use remote_bridge::error::SshError;
use remote_bridge::locations::{expand_tilde_in, socket_path_in};
use remote_bridge::o2::SshConnection;
use remote_bridge::rpc::dispatch::{
    invalid_params, method_not_found, method_of, missing_params, needs_params, parse_error,
    truncate_path, Method, ERR_INVALID_PARAMS, ERR_METHOD_NOT_FOUND, ERR_PARSE,
};
use remote_bridge::shell::build_command_with_args;
use remote_bridge::ssh::{
    auth_timed_out, duo_prompt_seen, fresh_marker, probe_due, probe_line, ssh_session_args,
    take_line, wrap_command, AuthWait, ConnectionState, OutputScan,
};

#[test]
fn test_connection_instructions() {
    let conn = SshConnection::new(
        "testuser".to_string(),
        "o2.hms.harvard.edu".to_string(),
        "/tmp/test.sock".to_string(),
    );
    let instructions = conn.connection_instructions();
    assert!(instructions.contains("testuser@o2.hms.harvard.edu"));
    assert!(instructions.contains("-M -S"));
    assert!(instructions.contains("ControlPersist"));
}

#[test]
fn test_o2_connection_socket_and_state() {
    let mut conn = SshConnection::new(
        "alice".to_string(),
        "login.example.org".to_string(),
        "/tmp/bridge.sock".to_string(),
    );
    assert_eq!(conn.socket_path(), "/tmp/o2-bridge-ssh-alice");
    assert_eq!(conn.state(), ConnectionState::Unknown);
    conn.record_check(true);
    assert_eq!(conn.state(), ConnectionState::Connected);
    conn.record_check(false);
    assert_eq!(conn.state(), ConnectionState::Disconnected);
    assert_eq!(
        conn.check_args(),
        vec!["-S", "/tmp/o2-bridge-ssh-alice", "-O", "check", "alice@login.example.org"]
    );
    assert_eq!(
        conn.exec_args("ls -l"),
        vec!["-S", "/tmp/o2-bridge-ssh-alice", "alice@login.example.org", "ls -l"]
    );
    assert_eq!(
        conn.connection_instructions(),
        "SSH connection required. Please run:\n\n  ssh -M -S /tmp/o2-bridge-ssh-alice -o ControlPersist=yes -fN alice@login.example.org\n\nThis will prompt for Duo authentication (one-time per session)."
    );
}

#[test]
fn test_command_with_args_quotes_each_argument() {
    let args = vec!["a b".to_string(), "it's".to_string(), "$HOME".to_string()];
    assert_eq!(build_command_with_args("ls", &args), "ls 'a b' 'it'\"'\"'s' '$HOME'");
    assert_eq!(build_command_with_args("ls", &vec![]), "ls ");
}

#[test]
fn test_wrap_and_scan_output() {
    let start = fresh_marker("START");
    let end = fresh_marker("END");
    assert!(start.starts_with("__START_") && start.ends_with("__"));
    assert_eq!(start.len(), "__START___".len() + 32);
    assert_ne!(start, fresh_marker("START"));
    let wrapped = wrap_command("ls /data", &start, &end);
    assert_eq!(wrapped, format!("echo '{}'; ls /data 2>&1; echo '{}'$?\n", start, end));

    let mut scan = OutputScan::new(start.clone(), end.clone());
    let mut printed = format!(
        "{}\r\n{}\r\nfile1\r\nfile2\r\n{}2\r\nnext",
        wrapped.trim_end(),
        start,
        end
    );
    let mut result = None;
    while let Some(line) = take_line(&mut printed) {
        if let Some(out) = scan.feed_line(&line) {
            result = Some(out);
            break;
        }
    }
    let out = result.unwrap();
    assert_eq!(out.stdout, "file1\nfile2");
    assert_eq!(out.exit_code, 2);
    assert_eq!(printed, "next");
}

#[test]
fn test_take_line_waits_for_newline() {
    let mut acc = "partial".to_string();
    assert!(take_line(&mut acc).is_none());
    assert_eq!(acc, "partial");
    let mut acc = "a\r\r\nb\n".to_string();
    assert_eq!(take_line(&mut acc).unwrap(), "a");
    assert_eq!(take_line(&mut acc).unwrap(), "b");
    assert_eq!(acc, "");
}

#[test]
fn test_end_marker_without_status() {
    let mut scan = OutputScan::new("__S__".to_string(), "__E__".to_string());
    assert!(scan.feed_line("before").is_none());
    assert!(scan.feed_line("__S__").is_none());
    assert!(scan.feed_line("x").is_none());
    let out = scan.feed_line("__E__oops").unwrap();
    assert_eq!(out.stdout, "x");
    assert_eq!(out.exit_code, 0);
}

#[test]
fn test_sign_in_decisions() {
    assert!(duo_prompt_seen("Duo two-factor login\nPasscode or option (1-3): "));
    assert!(!duo_prompt_seen("Last login: today"));
    assert!(!probe_due(None, 3000, 4000));
    assert!(probe_due(None, 3001, 3001));
    assert!(!probe_due(Some(5000), 9000, 9000));
    assert!(probe_due(Some(5001), 0, 3001));
    assert_eq!(probe_line("__READY_x__"), "echo __READY_x__$$\n");
    assert_eq!(
        ssh_session_args("u", "h"),
        vec![
            "-tt",
            "-o",
            "StrictHostKeyChecking=accept-new",
            "-o",
            "ServerAliveInterval=60",
            "-o",
            "ServerAliveCountMax=3",
            "u@h"
        ]
    );
}

#[test]
fn test_ssh_error_messages() {
    assert_eq!(SshError::Timeout(30).message(), "Command timed out after 30 seconds");
}

#[test]
fn test_method_dispatch() {
    assert_eq!(method_of("ls"), Some(Method::Ls));
    assert_eq!(method_of("sandboxed_sbatch"), Some(Method::SandboxedSbatch));
    assert_eq!(method_of("shutdown"), Some(Method::Shutdown));
    assert_eq!(method_of("rm"), None);
    assert_eq!(method_of("LS"), None);
    assert!(needs_params(Method::Ls));
    assert!(!needs_params(Method::Squeue));
    assert!(!needs_params(Method::Sacct));
    assert!(!needs_params(Method::ConnectionStatus));
    let e = method_not_found("rm");
    assert_eq!(e.code, ERR_METHOD_NOT_FOUND);
    assert_eq!(e.message, "Method not found: rm");
    let e = missing_params();
    assert_eq!(e.code, ERR_INVALID_PARAMS);
    assert_eq!(e.message, "Missing params");
    assert_eq!(invalid_params("x").message, "Invalid params: x");
    let e = parse_error("eof");
    assert_eq!(e.code, ERR_PARSE);
    assert_eq!(e.message, "Parse error: eof");
}

#[test]
fn test_locations() {
    assert_eq!(
        expand_tilde_in("~/.config/remote-bridge/permissions.toml", Some("/home/u".to_string())),
        "/home/u/.config/remote-bridge/permissions.toml"
    );
    assert_eq!(expand_tilde_in("~/x", None), "~/x");
    assert_eq!(expand_tilde_in("/etc/x", Some("/home/u".to_string())), "/etc/x");
    assert_eq!(expand_tilde_in("~", Some("/home/u".to_string())), "~");
    assert_eq!(
        socket_path_in(Some("/home/u/".to_string()), "o2"),
        "/home/u/.remote-bridge/remote-bridge-o2.sock"
    );
    assert_eq!(socket_path_in(None, "o2"), "./.remote-bridge/remote-bridge-o2.sock");
}

#[test]
fn test_o2_connection_status() {
    let conn = SshConnection::new("bob".to_string(), "host".to_string(), "/tmp/b.sock".to_string());
    let up = conn.connection_status(true);
    assert!(up.connected && up.instructions.is_none());
    assert_eq!(up.socket_path, "/tmp/o2-bridge-ssh-bob");
    let down = conn.connection_status(false);
    assert_eq!(down.instructions.unwrap(), conn.connection_instructions());
}

#[test]
fn auth_wait_answers_duo_once_and_waits_for_a_probe() {
    let mut w = AuthWait::new("__READY_abc__".to_string());
    assert_eq!(w.probe(), "echo __READY_abc__$$\n");
    let s = w.feed("Passcode or option (1-3): ", 10);
    assert!(s.answer_duo && !s.ready && !s.timed_out);
    let s = w.feed("Passcode or option again", 20);
    assert!(!s.answer_duo);
    let s = w.feed("__READY_abc__4242\n", 30);
    assert!(!s.ready);
    w.note_probe_sent();
    let s = w.feed("$ ", 40);
    assert!(s.ready);
    assert!(w.feed("", 120_001).timed_out);
    assert!(!w.feed("", 120_000).timed_out);
}

#[test]
fn auth_wait_does_not_take_the_echoed_probe_for_an_answer() {
    let mut w = AuthWait::new("__READY_abc__".to_string());
    w.note_probe_sent();
    let s = w.feed("echo __READY_abc__$$\n", 5);
    assert!(!s.ready);
    let s = w.feed("__READY_abc__77\n", 6);
    assert!(s.ready);
}

#[test]
fn auth_wait_keeps_only_the_tail() {
    let mut w = AuthWait::new("__READY_abc__".to_string());
    let mut chunk = "Passcode or option".to_string();
    chunk.push_str(&"x".repeat(4000));
    let s = w.feed(&chunk, 1);
    assert!(!s.answer_duo);
    let s = w.feed("Passcode or option", 2);
    assert!(s.answer_duo);
}

#[test]
fn sign_in_time_limit() {
    assert!(!auth_timed_out(120_000));
    assert!(auth_timed_out(120_001));
}

#[test]
fn paths_shortened_for_the_log() {
    assert_eq!(truncate_path("/data/project/results.csv"), "results.csv");
    assert_eq!(truncate_path("/data/project/"), "project");
    assert_eq!(truncate_path("/data/x/."), "x");
    assert_eq!(truncate_path("/"), "/");
    assert_eq!(truncate_path(".."), "..");
    assert_eq!(
        truncate_path("/very/long/directory/path/that/goes/up/.."),
        "...ectory/path/that/goes/up/.."
    );
    assert_eq!(truncate_path("/a/b/.."), "/a/b/..");
}

#[test]
fn auth_wait_measures_its_tail_in_bytes() {
    let mut w = AuthWait::new("__READY_abc__".to_string());
    let mut chunk = "Passcode or option".to_string();
    chunk.push_str(&"é".repeat(1995));
    let s = w.feed(&chunk, 1);
    assert!(!s.answer_duo);
}
