use code_core::review_detail::{
    AutoReviewDetailErrorCode, AutoReviewDetailKind, ReviewFinding, ReviewOutputEvent, SidecarContent,
};
use code_core::review_ledger::{
    LEDGER_DIAGNOSTIC_RECENT_SECS, LEDGER_IN_FLIGHT_ACTIVITY_SECS, LEDGER_RECENT_ACTIONABLE_SECS,
};
use code_core::review_run::{
    AutoReviewDuplicateDisposition, AutoReviewFindingDigest, AutoReviewFreshness, AutoReviewLedgerOptions,
    AutoReviewRun, AutoReviewRunSource, AutoReviewRunStatus,
};
use code_core::review_store::AutoReviewRunStore;
fn id(n: u128) -> u128 {
    0x5a5a_0000_0000_4000_8000_0000_0000_0000u128 + n
}

fn uuid_str(id: u128) -> String {
    uuid::Uuid::from_u128(id).to_string()
}

fn new_store() -> AutoReviewRunStore {
    AutoReviewRunStore::new(
        "/code/state/review/repo/auto".to_string(),
        "/code/state/review/repo/auto/runs.json".to_string(),
        "/code/state/review/repo/auto/outputs".to_string(),
    )
}

fn ledger_of(store: &AutoReviewRunStore, options: AutoReviewLedgerOptions) -> Option<String> {
    store.compact_ledger(&options)
}

fn review_output() -> ReviewOutputEvent {
    ReviewOutputEvent {
        findings: vec![ReviewFinding {
            title: "finding title".to_string(),
            body: "finding body".to_string(),
            confidence_text: "0.9".to_string(),
            priority: 2,
            absolute_file_path: "/repo/src/lib.rs".to_string(),
            line_start: 7,
            line_end: 9,
        }],
        overall_correctness: "incorrect".to_string(),
        overall_explanation: "summary".to_string(),
        overall_confidence_text: "0.8".to_string(),
    }
}

fn review_finding(idx: usize, body: &str) -> ReviewFinding {
    ReviewFinding {
        title: format!("finding title {idx}"),
        body: body.to_string(),
        confidence_text: "0.9".to_string(),
        priority: idx as i32,
        absolute_file_path: format!("/repo/src/file{idx}.rs"),
        line_start: idx as u32,
        line_end: idx as u32 + 1,
    }
}

fn finding_digest(idx: usize) -> AutoReviewFindingDigest {
    AutoReviewFindingDigest {
        finding_id: format!("f{idx}"),
        priority: 2,
        title: format!("finding title {idx}"),
        path: Some(format!("/repo/src/file{idx}.rs")),
        line_start: Some(idx as u32),
        line_end: Some(idx as u32 + 1),
    }
}

fn ledger_options(now: u64) -> AutoReviewLedgerOptions {
    AutoReviewLedgerOptions {
        now,
        max_bytes: 2_400,
        max_runs: 5,
        active_branch: None,
        active_head: None,
    }
}

#[test]
fn detail_lookup_returns_bounded_run_detail() {
    let run_id = id(1);
    let mut run = AutoReviewRun::new(run_id, AutoReviewRunSource::Tui, 1);
    run.branch = Some("feature".to_string());
    run.snapshot_commit = Some("abcdef1234567890".to_string());
    run.mark_status(AutoReviewRunStatus::Completed, 2);
    let mut store = new_store();
    store.upsert(run);
    let output = review_output();
    store.record_output(run_id, &output).unwrap();

    let detail = store.read_detail(run_id, None, Some(2_000), SidecarContent::Parsed(output.clone())).unwrap();

    assert_eq!(detail.run_id, run_id);
    assert_eq!(detail.detail_kind, AutoReviewDetailKind::Run);
    assert_eq!(detail.status, AutoReviewRunStatus::Completed);
    assert_eq!(detail.branch.as_deref(), Some("feature"));
    assert!(detail.content.contains("overall_correctness=incorrect"));
    assert!(detail.content.contains("finding_id=f1"));
    assert!(!detail.truncated);
    assert!(detail.bytes <= detail.max_bytes);
}

#[test]
fn detail_lookup_returns_specific_finding_by_stable_id() {
    let run_id = id(2);
    let mut output = review_output();
    output.findings = vec![review_finding(1, "first body"), review_finding(2, "second body")];
    let mut store = new_store();
    store
        .upsert(AutoReviewRun::new(run_id, AutoReviewRunSource::Tui, 1));
    store.record_output(run_id, &output).unwrap();

    let detail = store.read_detail(run_id, Some("f2"), Some(2_000), SidecarContent::Parsed(output.clone())).unwrap();

    assert_eq!(detail.finding_id.as_deref(), Some("f2"));
    assert_eq!(detail.detail_kind, AutoReviewDetailKind::Finding);
    assert_eq!(detail.finding_count, 2);
    assert_eq!(detail.omitted_findings, 1);
    assert!(detail.content.contains("title: finding title 2"));
    assert!(detail.content.contains("second body"));
    assert!(!detail.content.contains("first body"));
}

#[test]
fn detail_lookup_truncates_long_content_with_metadata() {
    let run_id = id(3);
    let mut output = review_output();
    output.findings = vec![review_finding(1, &"x".repeat(4_000))];
    let mut store = new_store();
    store
        .upsert(AutoReviewRun::new(run_id, AutoReviewRunSource::Tui, 1));
    store.record_output(run_id, &output).unwrap();

    let detail = store.read_detail(run_id, Some("f1"), Some(300), SidecarContent::Parsed(output.clone())).unwrap();

    assert!(detail.truncated);
    assert!(detail.content.contains("truncated auto review detail"));
    assert!(detail.original_bytes > detail.bytes);
    assert!(detail.bytes <= 300);
}

#[test]
fn detail_lookup_reports_missing_sidecar() {
    let run_id = id(4);
    let mut store = new_store();
    store
        .upsert(AutoReviewRun::new(run_id, AutoReviewRunSource::Tui, 1));

    let err = store.read_detail(run_id, None, None, SidecarContent::Missing).unwrap_err();

    assert_eq!(err.code, AutoReviewDetailErrorCode::MissingSidecar);
    assert!(err.message.contains("sidecar"));
}

#[test]
fn detail_lookup_reports_missing_and_invalid_finding_ids() {
    let run_id = id(5);
    let mut store = new_store();
    store
        .upsert(AutoReviewRun::new(run_id, AutoReviewRunSource::Tui, 1));
    let output = review_output();
    store.record_output(run_id, &output).unwrap();

    let invalid = store.read_detail(run_id, Some("finding-1"), None, SidecarContent::Parsed(output.clone())).unwrap_err();
    assert_eq!(invalid.code, AutoReviewDetailErrorCode::InvalidFindingId);

    let missing = store.read_detail(run_id, Some("f2"), None, SidecarContent::Parsed(output.clone())).unwrap_err();
    assert_eq!(missing.code, AutoReviewDetailErrorCode::MissingFinding);
}

#[test]
fn compact_ledger_omits_verbose_sidecar_detail() {
    let run_id = id(6);
    let mut run = AutoReviewRun::new(run_id, AutoReviewRunSource::Tui, 10);
    run.mark_status(AutoReviewRunStatus::Completed, 20);
    let mut store = new_store();
    store.upsert(run);
    let mut output = review_output();
    output.findings = vec![review_finding(1, "VERY_VERBOSE_FINDING_BODY_SHOULD_STAY_LAZY")];
    store.record_output(run_id, &output).unwrap();

    let ledger = ledger_of(&store, ledger_options(30)).expect("ledger");

    assert!(ledger.contains(&uuid_str(run_id)));
    assert!(!ledger.contains("VERY_VERBOSE_FINDING_BODY_SHOULD_STAY_LAZY"));
    assert!(!ledger.contains("overall_correctness"));
}

#[test]
fn run_store_rejects_output_for_unknown_run() {
    let mut store = new_store();

    let err = store.record_output(id(7), &review_output());
    assert!(err.is_none(), "unknown run should error");
}

#[test]
fn duplicate_lookup_prefers_in_flight_fingerprint_match() {
    let mut store = new_store();

    let completed_id = id(8);
    let mut completed = AutoReviewRun::new(completed_id, AutoReviewRunSource::Tui, 1);
    completed.diff_fingerprint = Some("diff:abc".to_string());
    completed.mark_status(AutoReviewRunStatus::Completed, 2);
    store.upsert(completed);

    let live_id = id(9);
    let mut live = AutoReviewRun::new(live_id, AutoReviewRunSource::Tui, 3);
    live.diff_fingerprint = Some("diff:abc".to_string());
    live.agent_id = Some("agent-live".to_string());
    live.snapshot_commit = Some("snap-live".to_string());
    live.mark_status(AutoReviewRunStatus::Reviewing, 4);
    store.upsert(live);

    let duplicate = store
        .find_duplicate_by_fingerprint("diff:abc")
        .expect("duplicate");
    assert_eq!(duplicate.run_id, live_id);
    assert_eq!(duplicate.disposition, AutoReviewDuplicateDisposition::Adopt);
    assert_eq!(duplicate.agent_id.as_deref(), Some("agent-live"));
}

#[test]
fn duplicate_lookup_does_not_adopt_pending_fingerprint_match() {
    let mut store = new_store();

    let pending_id = id(10);
    let mut pending = AutoReviewRun::new(pending_id, AutoReviewRunSource::Tui, 1);
    pending.diff_fingerprint = Some("diff:abc".to_string());
    store.upsert(pending);

    let duplicate = store
        .find_duplicate_by_fingerprint("diff:abc")
        .expect("duplicate");
    assert_eq!(duplicate.run_id, pending_id);
    assert_eq!(
        duplicate.disposition,
        AutoReviewDuplicateDisposition::SupersedeTerminal
    );
}

#[test]
fn duplicate_lookup_reuses_terminal_finding_match() {
    let mut store = new_store();

    let run_id = id(11);
    let mut run = AutoReviewRun::new(run_id, AutoReviewRunSource::Tui, 1);
    run.diff_fingerprint = Some("diff:abc".to_string());
    run.finding_count = 1;
    run.mark_status(AutoReviewRunStatus::Completed, 2);
    store.upsert(run);

    let duplicate = store
        .find_duplicate_by_fingerprint("diff:abc")
        .expect("duplicate");
    assert_eq!(duplicate.run_id, run_id);
    assert_eq!(
        duplicate.disposition,
        AutoReviewDuplicateDisposition::ReuseTerminal
    );
}

#[test]
fn supersede_by_fingerprint_omits_runs_with_findings_and_errors() {
    let mut store = new_store();

    let new_id = id(12);
    let clean_id = id(13);
    let finding_id = id(14);
    let failed_id = id(15);

    let mut clean = AutoReviewRun::new(clean_id, AutoReviewRunSource::Tui, 1);
    clean.diff_fingerprint = Some("diff:abc".to_string());
    clean.mark_status(AutoReviewRunStatus::Completed, 2);
    store.upsert(clean);

    let mut finding = AutoReviewRun::new(finding_id, AutoReviewRunSource::Tui, 3);
    finding.diff_fingerprint = Some("diff:abc".to_string());
    finding.finding_count = 1;
    finding.mark_status(AutoReviewRunStatus::Completed, 4);
    store.upsert(finding);

    let mut failed = AutoReviewRun::new(failed_id, AutoReviewRunSource::Tui, 5);
    failed.diff_fingerprint = Some("diff:abc".to_string());
    failed.error_class = Some("exec".to_string());
    failed.error_summary = Some("agent failed".to_string());
    failed.mark_status(AutoReviewRunStatus::Failed, 6);
    store.upsert(failed);

    let changed = store
        .mark_superseded_by_fingerprint("diff:abc", new_id, 10);
    assert_eq!(changed, 1);

    let loaded = &store;
    let clean = loaded.get(clean_id).unwrap();
    assert_eq!(clean.status, AutoReviewRunStatus::Superseded);
    assert_eq!(clean.superseded_by, Some(new_id));

    let finding = loaded.get(finding_id).unwrap();
    assert_eq!(finding.status, AutoReviewRunStatus::Completed);
    assert_eq!(finding.superseded_by, None);

    let failed = loaded.get(failed_id).unwrap();
    assert_eq!(failed.status, AutoReviewRunStatus::Failed);
    assert_eq!(failed.superseded_by, None);
    assert_eq!(failed.error_summary.as_deref(), Some("agent failed"));
}

#[test]
fn run_store_reconciles_orphaned_in_flight_agents() {
    let live_id = id(16);
    let orphan_id = id(17);
    let terminal_id = id(18);
    let mut store = new_store();

    let mut live = AutoReviewRun::new(live_id, AutoReviewRunSource::Tui, 1);
    live.agent_id = Some("agent-live".to_string());
    live.mark_status(AutoReviewRunStatus::Reviewing, 2);
    store.upsert(live);

    let mut orphan = AutoReviewRun::new(orphan_id, AutoReviewRunSource::Tui, 3);
    orphan.agent_id = Some("agent-gone".to_string());
    orphan.mark_status(AutoReviewRunStatus::Reviewing, 4);
    store.upsert(orphan);

    let mut terminal = AutoReviewRun::new(terminal_id, AutoReviewRunSource::Tui, 5);
    terminal.agent_id = Some("agent-terminal".to_string());
    terminal.mark_status(AutoReviewRunStatus::Completed, 6);
    store.upsert(terminal);

    let agentless_id = id(19);
    let mut agentless = AutoReviewRun::new(agentless_id, AutoReviewRunSource::Tui, 7);
    agentless.mark_status(AutoReviewRunStatus::Snapshotting, 8);
    store.upsert(agentless);

    let changed = store
        .reconcile_orphaned_in_flight(&vec!["agent-live".to_string()], 20);
    assert_eq!(changed, 2);
    assert_eq!(
        store.get(live_id).expect("live run").status,
        AutoReviewRunStatus::Reviewing
    );
    let orphan = store.get(orphan_id).expect("orphan run");
    assert_eq!(orphan.status, AutoReviewRunStatus::Lost);
    assert_eq!(orphan.freshness, AutoReviewFreshness::Lost);
    assert_eq!(orphan.cancel_reason.as_deref(), Some("agent_missing_after_restart"));
    assert_eq!(orphan.completed_at, Some(20));
    assert_eq!(
        store.get(terminal_id).expect("terminal run").status,
        AutoReviewRunStatus::Completed
    );
    assert_eq!(
        store.get(agentless_id).expect("agentless run").status,
        AutoReviewRunStatus::Lost
    );
}

#[test]
fn run_store_compacts_to_most_recent_runs() {
    let mut store = new_store();
    let oldest = id(20);
    let middle = id(21);
    let newest = id(22);

    store
        .upsert(AutoReviewRun::new(oldest, AutoReviewRunSource::Tui, 1));
    store
        .upsert(AutoReviewRun::new(middle, AutoReviewRunSource::Tui, 2));
    store
        .upsert(AutoReviewRun::new(newest, AutoReviewRunSource::Tui, 3));

    store.compact_in_place(2);
    let loaded = &store;
    assert!(loaded.get(oldest).is_none());
    assert!(loaded.get(middle).is_some());
    assert!(loaded.get(newest).is_some());
}

#[test]
fn compact_ledger_omits_idle_clean_runs() {
    let run_id = id(23);
    let mut run = AutoReviewRun::new(run_id, AutoReviewRunSource::Tui, 10);
    run.mark_status(AutoReviewRunStatus::Completed, 20);
    let mut store = new_store();
    store.upsert(run);

    assert!(ledger_of(&store, ledger_options(30)).is_none());
}

#[test]
fn compact_ledger_includes_active_run_activity_and_snapshot() {
    let run_id = id(24);
    let mut run = AutoReviewRun::new(run_id, AutoReviewRunSource::Tui, 100);
    run.agent_id = Some("agent-1234567890".to_string());
    run.branch = Some("auto-review".to_string());
    run.snapshot_commit = Some("abcdef1234567890".to_string());
    run.model = Some("gpt-5.4-mini".to_string());
    run.reasoning_effort = Some("medium".to_string());
    run.prompt_token_estimate = Some(42_000);
    run.token_count = Some(84_000);
    run.freshness = AutoReviewFreshness::Current;
    run.mark_activity(120);
    run.mark_status(AutoReviewRunStatus::Reviewing, 130);
    let mut store = new_store();
    store.upsert(run);

    let ledger = ledger_of(&store, ledger_options(160)).expect("ledger");
    assert!(ledger.contains("<auto_review_ledger"));
    assert!(ledger.contains(&uuid_str(run_id)));
    assert!(ledger.contains("status=Reviewing"));
    assert!(ledger.contains("last_activity=lt1m"));
    assert!(ledger.contains("snapshot=abcdef123456"));
    assert!(ledger.contains("target=unknown"));
    assert!(ledger.contains("model=gpt-5.4-mini"));
    assert!(ledger.contains("reasoning=medium"));
    assert!(ledger.contains("prompt_estimate=42000t"));
    assert!(ledger.contains("tokens=84000t"));
    assert!(ledger.contains("elapsed=lt1m"));
}

#[test]
fn compact_ledger_marks_matching_head_target_separately_from_freshness() {
    let mut run = AutoReviewRun::new(id(25), AutoReviewRunSource::Tui, 10);
    run.branch = Some("feature".to_string());
    run.snapshot_commit = Some("abcdef1234567890".to_string());
    run.finding_count = 1;
    run.finding_digests = vec![finding_digest(1)];
    run.mark_status(AutoReviewRunStatus::Completed, 20);
    let mut store = new_store();
    store.upsert(run);

    let ledger = ledger_of(&store, 
            ledger_options(30).with_active_target(
                Some("feature".to_string()),
                Some("abcdef1234567890".to_string()),
            ),
        )
        .expect("ledger");

    assert!(ledger.contains("freshness=Unknown"));
    assert!(ledger.contains("target=matching_head"));
}

#[test]
fn compact_ledger_marks_launch_head_mismatch_as_older_snapshot() {
    let mut run = AutoReviewRun::new(id(26), AutoReviewRunSource::Tui, 10);
    run.branch = Some("feature".to_string());
    run.head_at_launch = Some("aaaaaaaaaaaaaaaa".to_string());
    run.finding_count = 1;
    run.finding_digests = vec![finding_digest(1)];
    run.mark_status(AutoReviewRunStatus::Completed, 20);
    let mut store = new_store();
    store.upsert(run);

    let ledger = ledger_of(&store, 
            ledger_options(30).with_active_target(
                Some("feature".to_string()),
                Some("bbbbbbbbbbbbbbbb".to_string()),
            ),
        )
        .expect("ledger");

    assert!(ledger.contains("suppressed_stale=1"));
    assert!(!ledger.contains("target=older_snapshot"));
    assert!(!ledger.contains("target=matching_head"));
}

#[test]
fn compact_ledger_marks_detached_and_older_review_targets() {
    let mut detached = AutoReviewRun::new(id(27), AutoReviewRunSource::Tui, 10);
    detached.branch = Some("auto-review".to_string());
    detached.snapshot_commit = Some("1111111111111111".to_string());
    detached.finding_count = 1;
    detached.finding_digests = vec![finding_digest(1)];
    detached.mark_status(AutoReviewRunStatus::Completed, 20);

    let mut older = AutoReviewRun::new(id(28), AutoReviewRunSource::Tui, 30);
    older.branch = Some("feature".to_string());
    older.snapshot_commit = Some("2222222222222222".to_string());
    older.finding_count = 1;
    older.finding_digests = vec![finding_digest(2)];
    older.mark_status(AutoReviewRunStatus::Completed, 40);

    let mut store = new_store();
    store.upsert(detached);
    store.upsert(older);

    let ledger = ledger_of(&store, 
            ledger_options(50).with_active_target(
                Some("feature".to_string()),
                Some("3333333333333333".to_string()),
            ),
        )
        .expect("ledger");

    assert!(ledger.contains("suppressed_stale=2"));
    assert!(!ledger.contains("target=detached_review_worktree"));
    assert!(!ledger.contains("target=older_snapshot"));
    assert!(ledger.contains("Freshness describes run recency"));
}

#[test]
fn compact_ledger_suppresses_known_stale_terminal_findings() {
    let detached_id = id(29);
    let mut detached = AutoReviewRun::new(detached_id, AutoReviewRunSource::Tui, 10);
    detached.branch = Some("auto-review".to_string());
    detached.snapshot_commit = Some("1111111111111111".to_string());
    detached.token_count = Some(42_000);
    detached.finding_count = 1;
    detached.finding_digests = vec![finding_digest(1)];
    detached.mark_status(AutoReviewRunStatus::Completed, 20);

    let older_id = id(30);
    let mut older = AutoReviewRun::new(older_id, AutoReviewRunSource::Tui, 30);
    older.branch = Some("feature".to_string());
    older.snapshot_commit = Some("2222222222222222".to_string());
    older.finding_count = 1;
    older.finding_digests = vec![finding_digest(2)];
    older.mark_status(AutoReviewRunStatus::Completed, 40);

    let mut store = new_store();
    store.upsert(detached);
    store.upsert(older);

    let ledger = ledger_of(&store, 
            ledger_options(50).with_active_target(
                Some("feature".to_string()),
                Some("3333333333333333".to_string()),
            ),
        )
        .expect("ledger");

    assert!(ledger.contains("suppressed_stale=2"));
    assert!(ledger.contains("tokens=42000t"));
    assert!(!ledger.contains(&format!("run id={}", uuid_str(detached_id))));
    assert!(!ledger.contains(&format!("run id={}", uuid_str(older_id))));
    assert!(!ledger.contains("finding id=f1"));
    assert!(!ledger.contains("finding id=f2"));
}

#[test]
fn compact_ledger_keeps_matching_head_findings_actionable() {
    let run_id = id(31);
    let mut run = AutoReviewRun::new(run_id, AutoReviewRunSource::Tui, 10);
    run.branch = Some("feature".to_string());
    run.snapshot_commit = Some("abcdef1234567890".to_string());
    run.finding_count = 1;
    run.finding_digests = vec![finding_digest(1)];
    run.mark_status(AutoReviewRunStatus::Completed, 20);
    let mut store = new_store();
    store.upsert(run);

    let ledger = ledger_of(&store, 
            ledger_options(30).with_active_target(
                Some("feature".to_string()),
                Some("abcdef1234567890".to_string()),
            ),
        )
        .expect("ledger");

    assert!(ledger.contains(&format!("run id={}", uuid_str(run_id))));
    assert!(ledger.contains("target=matching_head"));
    assert!(ledger.contains("finding id=f1"));
    assert!(!ledger.contains("suppressed_stale"));
}

#[test]
fn compact_ledger_reports_saved_token_estimates_for_skipped_duplicates() {
    let run_id = id(32);
    let duplicate_id = id(33);
    let mut run = AutoReviewRun::new(run_id, AutoReviewRunSource::Tui, 10);
    run.prompt_token_estimate = Some(8_000);
    let mut store = new_store();
    store.upsert(run);
    store
        .mark_skipped_duplicate(run_id, duplicate_id, Some("diff:abc"), Some(84_000), 20);

    let ledger = ledger_of(&store, ledger_options(30)).expect("ledger");

    assert!(ledger.contains("saved_estimate=84000t"));
    assert!(ledger.contains("saved_runs=1"));
    assert!(!ledger.contains(&format!("run id={}", uuid_str(run_id))));
}

#[test]
fn superseded_clean_duplicate_does_not_report_saved_tokens() {
    let clean_id = id(34);
    let fresh_id = id(35);
    let mut clean = AutoReviewRun::new(clean_id, AutoReviewRunSource::Tui, 10);
    clean.diff_fingerprint = Some("diff:abc".to_string());
    clean.prompt_token_estimate = Some(42_000);
    clean.mark_status(AutoReviewRunStatus::Completed, 20);
    let mut fresh = AutoReviewRun::new(fresh_id, AutoReviewRunSource::Tui, 30);
    fresh.diff_fingerprint = Some("diff:abc".to_string());
    fresh.mark_status(AutoReviewRunStatus::Reviewing, 40);
    let mut store = new_store();
    store.upsert(clean);
    store.upsert(fresh);

    store.mark_superseded_by_fingerprint("diff:abc", fresh_id, 50);
    let ledger = ledger_of(&store, ledger_options(60)).expect("ledger");

    assert!(ledger.contains("prompt_estimate=42000t"));
    assert!(!ledger.contains("saved_estimate="));
    assert!(!ledger.contains("saved_runs="));
    assert_eq!(store.get(clean_id).unwrap().saved_token_estimate, None);
}

#[test]
fn compact_ledger_includes_recent_burn_diagnostics() {
    let mut high_token_run = AutoReviewRun::new(id(36), AutoReviewRunSource::Tui, 10);
    high_token_run.mark_activity(20);
    high_token_run.prompt_token_estimate = Some(12_000);
    high_token_run.token_count = Some(25_915);
    high_token_run.mark_status(AutoReviewRunStatus::Completed, 40);

    let mut high_prompt_run = AutoReviewRun::new(id(37), AutoReviewRunSource::Tui, 50);
    high_prompt_run.mark_activity(60);
    high_prompt_run.prompt_token_estimate = Some(42_000);
    high_prompt_run.mark_status(AutoReviewRunStatus::Reviewing, 70);
    high_prompt_run.freshness = AutoReviewFreshness::Current;

    let mut store = new_store();
    store.upsert(high_token_run);
    store.upsert(high_prompt_run);

    let ledger = ledger_of(&store, ledger_options(100)).expect("ledger");
    assert!(ledger.contains("diagnostics recent_runs=2"));
    assert!(ledger.contains("in_flight=1"));
    assert!(ledger.contains("terminal=1"));
    assert!(ledger.contains("tokens=25915t"));
    assert!(ledger.contains("token_runs=1"));
    assert!(ledger.contains("prompt_estimate=54000t"));
    assert!(ledger.contains("prompt_runs=2"));
    assert!(ledger.contains("high_burn=2"));
    assert!(ledger.contains("longest_elapsed=lt1m"));
}

#[test]
fn compact_ledger_can_include_diagnostics_without_listing_clean_run() {
    let run_id = id(38);
    let mut run = AutoReviewRun::new(run_id, AutoReviewRunSource::Tui, 10);
    run.prompt_token_estimate = Some(35_000);
    run.mark_status(AutoReviewRunStatus::Completed, 20);
    let mut store = new_store();
    store.upsert(run);

    let ledger = ledger_of(&store, ledger_options(30)).expect("ledger");
    assert!(ledger.contains("diagnostics recent_runs=1"));
    assert!(ledger.contains("prompt_estimate=35000t"));
    assert!(ledger.contains("high_burn=1"));
    assert!(!ledger.contains(&format!("run id={}", uuid_str(run_id))));
}

#[test]
fn compact_ledger_omits_diagnostics_for_old_or_signal_free_runs() {
    let mut old = AutoReviewRun::new(id(39), AutoReviewRunSource::Tui, 1);
    old.prompt_token_estimate = Some(50_000);
    old.token_count = Some(75_000);
    old.mark_status(AutoReviewRunStatus::Completed, 2);

    let mut signal_free = AutoReviewRun::new(id(40), AutoReviewRunSource::Tui, 100);
    signal_free.mark_status(AutoReviewRunStatus::Completed, 101);

    let mut store = new_store();
    store.upsert(old);
    store.upsert(signal_free);

    assert!(
        ledger_of(&store, ledger_options(LEDGER_DIAGNOSTIC_RECENT_SECS + 20))
            .is_none()
    );
}

#[test]
fn compact_ledger_omits_inactive_in_flight_run_without_current_freshness() {
    let mut run = AutoReviewRun::new(id(41), AutoReviewRunSource::Tui, 1);
    run.mark_activity(2);
    run.mark_status(AutoReviewRunStatus::Reviewing, 3);
    run.freshness = AutoReviewFreshness::Unknown;
    let mut store = new_store();
    store.upsert(run);

    assert!(
        ledger_of(&store, ledger_options(LEDGER_IN_FLIGHT_ACTIVITY_SECS + 20))
            .is_none()
    );
}

#[test]
fn compact_ledger_includes_current_long_running_run() {
    let mut run = AutoReviewRun::new(id(42), AutoReviewRunSource::Tui, 1);
    run.mark_activity(2);
    run.mark_status(AutoReviewRunStatus::Reviewing, 3);
    run.freshness = AutoReviewFreshness::LongRunning;
    let mut store = new_store();
    store.upsert(run);

    let ledger = ledger_of(&store, ledger_options(LEDGER_IN_FLIGHT_ACTIVITY_SECS + 20))
        .expect("ledger");
    assert!(ledger.contains("freshness=LongRunning"));
}

#[test]
fn compact_ledger_includes_recent_findings_with_digest_cap() {
    let mut run = AutoReviewRun::new(id(43), AutoReviewRunSource::Exec, 100);
    run.mark_status(AutoReviewRunStatus::Completed, 140);
    run.finding_count = 6;
    run.finding_digests = (1..=5).map(finding_digest).collect();
    run.omitted_finding_digest_count = 1;
    run.summary_digest = Some("review found important issues".to_string());
    let mut store = new_store();
    store.upsert(run);

    let ledger = ledger_of(&store, ledger_options(160)).expect("ledger");
    assert!(ledger.contains("findings=6"));
    assert!(ledger.contains("omitted_findings=1"));
    assert!(ledger.contains("finding id=f1"));
    assert!(ledger.contains("finding id=f3"));
    assert!(!ledger.contains("finding id=f4"));
    assert!(ledger.contains("more_findings=2"));
}

#[test]
fn compact_ledger_omits_old_terminal_findings() {
    let mut run = AutoReviewRun::new(id(44), AutoReviewRunSource::Exec, 1);
    run.mark_status(AutoReviewRunStatus::Completed, 2);
    run.finding_count = 1;
    run.finding_digests = vec![finding_digest(1)];
    let mut store = new_store();
    store.upsert(run);

    assert!(
        ledger_of(&store, ledger_options(LEDGER_RECENT_ACTIONABLE_SECS + 10))
            .is_none()
    );
}

#[test]
fn compact_ledger_omits_clean_cancelled_run() {
    let mut run = AutoReviewRun::new(id(45), AutoReviewRunSource::Exec, 1);
    run.mark_status(AutoReviewRunStatus::Cancelled, 2);
    let mut store = new_store();
    store.upsert(run);

    assert!(ledger_of(&store, ledger_options(10)).is_none());
}

#[test]
fn compact_ledger_honors_byte_cap() {
    let mut store = new_store();
    for idx in 0..10 {
        let mut run = AutoReviewRun::new(id(46 + idx as u128), AutoReviewRunSource::Tui, idx);
        run.mark_status(AutoReviewRunStatus::Reviewing, idx + 1);
        run.summary_digest = Some("a very long summary ".repeat(40));
        store.upsert(run);
    }

    let ledger = ledger_of(&store, AutoReviewLedgerOptions {
            now: 20,
            max_bytes: 180,
            max_runs: 10,
            active_branch: None,
            active_head: None,
        })
        .expect("ledger");
    assert!(ledger.len() <= 180, "ledger len was {}", ledger.len());
    assert!(ledger.contains("truncated"));
}

#[test]
fn detail_lookup_names_the_bad_finding_id() {
    let run_id = id(6);
    let mut store = new_store();
    store.upsert(AutoReviewRun::new(run_id, AutoReviewRunSource::Tui, 1));
    let output = review_output();
    store.record_output(run_id, &output).unwrap();

    let invalid = store.read_detail(run_id, Some("finding-1"), None, SidecarContent::Parsed(output.clone())).unwrap_err();
    assert_eq!(invalid.message, "invalid auto review finding id \"finding-1\"; expected a stable id like f1");

    let missing = store.read_detail(run_id, Some("f2"), None, SidecarContent::Parsed(output.clone())).unwrap_err();
    assert_eq!(
        missing.message,
        format!("auto review finding f2 was not found for run {}; this run has 1 finding(s)", uuid_str(run_id))
    );
}

#[test]
fn run_ids_render_as_hyphenated_lower_case_uuids() {
    let run_id = 0x0123_4567_89ab_cdef_fedc_ba98_7654_3210u128;
    let mut store = new_store();
    store.upsert(AutoReviewRun::new(run_id, AutoReviewRunSource::Tui, 1));
    let err = store.read_detail(run_id, None, None, SidecarContent::Missing).unwrap_err();
    assert!(err.message.contains("01234567-89ab-cdef-fedc-ba9876543210"));
}
