use code_core::active_sessions::{
    active_session_model_notice, active_session_warning, conflicting_records, is_write_capable,
    model_notice_for_records, record_path, sort_records, ActiveSessionMode, ActiveSessionRecord, SandboxPolicy, SessionSource,
    SCHEMA_VERSION,
};

fn record(pid: u32, session_id: u128, source: SessionSource, root: &str) -> ActiveSessionRecord {
    ActiveSessionRecord {
        schema_version: SCHEMA_VERSION,
        product: "Every Code".to_string(),
        session_id,
        pid,
        source,
        mode: ActiveSessionMode::WriteCapable,
        started_at_unix: 100,
        heartbeat_at_unix: 100,
        cwd: root.to_string(),
        checkout_root: root.to_string(),
        git_common_dir: None,
        branch: None,
        head: None,
    }
}

#[test]
fn read_only_sessions_do_not_register() {
    assert!(!is_write_capable(&SandboxPolicy::ReadOnly));
    assert!(is_write_capable(&SandboxPolicy::WorkspaceWrite));
    assert!(is_write_capable(&SandboxPolicy::DangerFullAccess));
}

#[test]
fn second_write_capable_session_warns_in_same_checkout() {
    let first = record(11, 1, SessionSource::Cli, "/repo");
    let conflicts = conflicting_records(vec![first], 2, "/repo");
    assert_eq!(conflicts.len(), 1);
    assert_eq!(conflicts[0].source, SessionSource::Cli);
    let warning = active_session_warning(&conflicts, 130).unwrap();
    assert!(warning.contains("write-capable"));
    assert_eq!(
        warning,
        "Another write-capable Every Code session is active in this checkout (pid 11, cli, started 30s ago) at /repo. Concurrent edits can conflict; Every Code will warn the model to prefer isolated work and avoid touching unrelated changes."
    );
}

#[test]
fn model_notice_gives_concurrent_editing_guidance() {
    let records = vec![
        record(30, 3, SessionSource::Exec, "/repo"),
        record(20, 2, SessionSource::Cli, "/repo"),
        record(40, 4, SessionSource::Cli, "/other"),
        record(50, 9, SessionSource::Cli, "/repo"),
    ];
    let notice = model_notice_for_records(records, 9, "/repo", 100).unwrap();
    assert!(notice.message.starts_with(
        "CONCURRENT CHECKOUT SESSION DETECTED: 2 other write-capable Every Code sessions are active in this checkout, including pid 20, cli, started 0s ago, at /repo."
    ));
    assert!(notice.message.contains("separate git worktree"));
    assert!(notice.message.contains("re-read target files"));
    assert!(notice.message.contains("Do not revert, overwrite, stage"));
    assert_eq!(
        notice.fingerprint,
        "20:00000000-0000-0000-0000-000000000002,30:00000000-0000-0000-0000-000000000003"
    );
    assert!(model_notice_for_records(vec![record(1, 1, SessionSource::Cli, "/repo")], 1, "/repo", 0).is_none());
    assert!(active_session_model_notice(&[], 0).is_none());
}

#[test]
fn different_worktrees_do_not_conflict() {
    let first = record(11, 1, SessionSource::Cli, "/parent/repo");
    assert!(conflicting_records(vec![first], 2, "/parent/repo-worktree").is_empty());
}

#[test]
fn record_path_names_pid_and_session() {
    assert_eq!(
        record_path("/home/state/active-sessions", 7, 0x10),
        "/home/state/active-sessions/pid-7-00000000-0000-0000-0000-000000000010.json"
    );
}

#[test]
fn records_with_the_same_ids_keep_their_order() {
    let mut a = record(7, 3, SessionSource::Cli, "/repo");
    a.cwd = "/repo/first".to_string();
    let mut b = record(7, 3, SessionSource::Cli, "/repo");
    b.cwd = "/repo/second".to_string();
    let c = record(2, 9, SessionSource::Cli, "/repo");
    let sorted = sort_records(vec![a, c, b]);
    let cwds: Vec<&str> = sorted.iter().map(|r| r.cwd.as_str()).collect();
    assert_eq!(cwds, vec!["/repo", "/repo/first", "/repo/second"]);
}
