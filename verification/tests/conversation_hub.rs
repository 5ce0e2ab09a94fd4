use code_core::conversation_hub::{capture_replay_history, ApprovalKind, HubError, HubEvent, PendingRequests};

#[test]
fn approvals_are_answered_once() {
    let mut pending = PendingRequests::new();
    pending.track(&HubEvent::ExecApprovalRequest { call_id: "c1".to_string() });
    pending.track(&HubEvent::ApplyPatchApprovalRequest { call_id: "c2".to_string() });
    assert_eq!(pending.resolve_approval("c2"), Ok(ApprovalKind::Patch));
    assert_eq!(pending.resolve_approval("c1"), Ok(ApprovalKind::Exec));
    let err = pending.resolve_approval("c1").unwrap_err();
    assert_eq!(err, HubError::UnknownApproval);
    assert_eq!(err.message(), "unknown approval request");
}

#[test]
fn a_later_request_with_the_same_id_replaces_the_kind() {
    let mut pending = PendingRequests::new();
    pending.track(&HubEvent::ExecApprovalRequest { call_id: "c".to_string() });
    pending.track(&HubEvent::ApplyPatchApprovalRequest { call_id: "c".to_string() });
    assert_eq!(pending.resolve_approval("c"), Ok(ApprovalKind::Patch));
    assert_eq!(pending.resolve_approval("c"), Err(HubError::UnknownApproval));
}

#[test]
fn user_input_and_tool_answers_need_a_request() {
    let mut pending = PendingRequests::new();
    assert_eq!(pending.resolve_user_input("u"), Err(HubError::UnknownUserInput));
    assert_eq!(pending.resolve_dynamic_tool("t"), Err(HubError::UnknownDynamicTool));
    pending.track(&HubEvent::RequestUserInput { call_id: "u".to_string() });
    pending.track(&HubEvent::DynamicToolCallRequest { call_id: "t".to_string() });
    pending.track(&HubEvent::Other);
    // A user input answer does not consume a tool request of another id.
    assert_eq!(pending.resolve_dynamic_tool("u"), Err(HubError::UnknownDynamicTool));
    assert_eq!(pending.resolve_user_input("u"), Ok(()));
    assert_eq!(pending.resolve_user_input("u"), Err(HubError::UnknownUserInput));
    assert_eq!(pending.resolve_dynamic_tool("t"), Ok(()));
    assert_eq!(HubError::UnknownDynamicTool.message(), "unknown dynamic tool request");
    assert_eq!(HubError::UnknownUserInput.message(), "unknown user input request");
}

#[test]
fn replay_history_cached_for_late_listeners() {
    let cached: Option<&str> = None;
    let cached = capture_replay_history(cached, false, "other");
    assert_eq!(cached, None);
    let cached = capture_replay_history(cached, true, "replay");
    assert_eq!(cached, Some("replay"));
    let cached = capture_replay_history(cached, false, "later");
    assert_eq!(cached, Some("replay"));
}
