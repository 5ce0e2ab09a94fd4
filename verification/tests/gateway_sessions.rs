use code_core::gateway_sessions::{
    catalog_update_outcome, list_conversation_items, normalize_nickname, parse_conversation_id,
    session_list_limit, SessionEntry,
};

fn entry(id: u128, cwd_real: &str, rollout: &str, snippet: Option<&str>) -> SessionEntry {
    SessionEntry {
        session_id: id,
        created_at: "2024-05-01T10:00:00Z".to_string(),
        last_event_at: "2024-05-01T11:00:00Z".to_string(),
        rollout_path: rollout.to_string(),
        nickname: None,
        last_user_snippet: snippet.map(str::to_string),
        cwd_real: cwd_real.to_string(),
        cwd_display: "~/project".to_string(),
        git_branch: Some("main".to_string()),
        session_source: "cli".to_string(),
        message_count: 4,
    }
}

#[test]
fn session_listing_limit_defaults_and_is_at_least_one() {
    assert_eq!(session_list_limit(None), 200);
    assert_eq!(session_list_limit(Some(0)), 1);
    assert_eq!(session_list_limit(Some(25)), 25);
}

#[test]
fn listing_hides_sessions_in_the_working_directory() {
    let entries = vec![
        entry(1, "/home/u/project", "sessions/2024/a.jsonl", Some("one two three four five six seven eight nine ten eleven")),
        entry(2, "/home/u/.code/working/tmp", "sessions/b.jsonl", None),
        entry(3, "/home/u/.code/workingcopy", "/abs/c.jsonl", Some("   ")),
    ];
    let items = list_conversation_items(&entries, "/home/u/.code");
    assert_eq!(items.len(), 2);
    assert_eq!(items[0].conversation_id, "00000000-0000-0000-0000-000000000001");
    assert_eq!(items[0].path, "/home/u/.code/sessions/2024/a.jsonl");
    assert_eq!(items[0].summary.as_deref(), Some("one two three four five six seven eight nine ten"));
    assert_eq!(items[0].created_at.as_deref(), Some("2024-05-01T10:00:00Z"));
    assert_eq!(items[0].updated_at.as_deref(), Some("2024-05-01T11:00:00Z"));
    assert_eq!(items[0].cwd.as_deref(), Some("~/project"));
    assert_eq!(items[0].source.as_deref(), Some("cli"));
    assert_eq!(items[0].message_count, 4);
    assert_eq!(items[1].conversation_id, "00000000-0000-0000-0000-000000000003");
    assert_eq!(items[1].path, "/abs/c.jsonl");
    assert_eq!(items[1].summary, None);
}

#[test]
fn conversation_ids_must_be_uuids() {
    assert_eq!(
        parse_conversation_id("67e55044-10b1-426f-9247-bb680e5fe0c8"),
        Ok(0x67e5504410b1426f9247bb680e5fe0c8)
    );
    assert_eq!(parse_conversation_id("not-a-uuid"), Err("invalid conversation id".to_string()));
}

#[test]
fn nicknames_are_trimmed_and_blank_ones_cleared() {
    assert_eq!(normalize_nickname(Some("  release prep \n".to_string())), Some("release prep".to_string()));
    assert_eq!(normalize_nickname(Some("   ".to_string())), None);
    assert_eq!(normalize_nickname(None), None);
}

#[test]
fn catalog_updates_are_answered() {
    assert_eq!(catalog_update_outcome(Ok(true)), Ok(()));
    assert_eq!(catalog_update_outcome(Ok(false)), Err("session not found".to_string()));
    assert_eq!(catalog_update_outcome(Err("disk full".to_string())), Err("disk full".to_string()));
}
