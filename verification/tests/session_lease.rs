use code_core::session_lease::{
    conversation_id_from_rollout_path, conversation_id_from_stem, lease_file_path,
    normalize_endpoint, owner_file_path, render_lease_holder_summary, session_in_use_details,
    session_leases_dir, LeaseMetadata,
};

#[test]
fn parses_conversation_id_from_rollout_filename_tail_uuid() {
    let path = "rollout-2026-02-20T13-43-13-b4185745-610f-4052-96d3-ed652f906bd4.jsonl";

    let conversation_id =
        conversation_id_from_rollout_path(path).expect("conversation id from rollout path");

    assert_eq!(
        uuid::Uuid::from_u128(conversation_id).to_string(),
        "b4185745-610f-4052-96d3-ed652f906bd4"
    );
}

#[test]
fn rejects_rollout_filename_without_uuid_tail() {
    let path = "rollout-2026-02-20T13-43-13-not-a-uuid.jsonl";
    assert!(conversation_id_from_rollout_path(path).is_none());
}

#[test]
fn short_stems_fall_back_to_the_text_after_the_last_dash() {
    let id = conversation_id_from_stem("x-b4185745610f405296d3ed652f906bd4").expect("simple uuid");
    assert_eq!(uuid::Uuid::from_u128(id).simple().to_string(), "b4185745610f405296d3ed652f906bd4");
    assert_eq!(conversation_id_from_stem("no-dash-here-at-all"), None);
    assert_eq!(conversation_id_from_rollout_path("/"), None);
}

#[test]
fn stems_cut_inside_a_character_are_refused() {
    // 35 ASCII bytes after a two-byte character: the last 36 bytes would
    // start in the middle of it.
    let stem = format!("é{}", "a".repeat(35));
    assert_eq!(conversation_id_from_rollout_path(&format!("/tmp/{stem}.jsonl")), None);
}

#[test]
fn lease_files_live_under_the_sessions_directory() {
    let dir = session_leases_dir("/home/u/.code");
    assert_eq!(dir, "/home/u/.code/sessions/.session-leases");
    let id = 0xb4185745_610f_4052_96d3_ed652f906bd4u128;
    assert_eq!(lease_file_path(&dir, id), format!("{dir}/b4185745-610f-4052-96d3-ed652f906bd4.lock"));
    assert_eq!(owner_file_path(&dir, id), format!("{dir}/b4185745-610f-4052-96d3-ed652f906bd4.owner.json"));
}

#[test]
fn holder_summary_lists_pid_session_and_endpoint() {
    let m = LeaseMetadata {
        pid: Some(42),
        conversation_id: Some("abc".to_string()),
        endpoint: Some("  ws://x  ".to_string()),
    };
    assert_eq!(
        render_lease_holder_summary(" {..} ", Some(&m)),
        Some("pid 42, session abc, endpoint ws://x".to_string())
    );
    let bare = LeaseMetadata { pid: None, conversation_id: None, endpoint: Some("  ".to_string()) };
    assert_eq!(render_lease_holder_summary(" {} ", Some(&bare)), Some("{}".to_string()));
    assert_eq!(render_lease_holder_summary(" not json ", None), Some("not json".to_string()));
    assert_eq!(render_lease_holder_summary("   ", Some(&m)), None);
}

#[test]
fn refused_lease_details_name_the_holder() {
    assert_eq!(session_in_use_details(Some("pid 1".to_string()), Some("pid 2".to_string())), " (pid 1)");
    assert_eq!(session_in_use_details(None, Some("pid 2".to_string())), " (pid 2)");
    assert_eq!(session_in_use_details(None, None), " (unknown owner)");
    assert_eq!(normalize_endpoint(Some("  a ")), Some("a".to_string()));
    assert_eq!(normalize_endpoint(Some("   ")), None);
    assert_eq!(normalize_endpoint(None), None);
}
