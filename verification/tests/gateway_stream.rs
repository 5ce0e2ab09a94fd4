use code_core::gateway_stream::{
    closes_on_failed_send, follow_up, forward_failure_text, missing_rollout_closes, opening_snapshot, route_client_command,
    wait_step, warms_index_at_open, BrokerMessage, BrokerRequestId, BrokerStep, BrokerStream,
    ClientCommand, HandshakeStep, Outgoing, ServerRequest, ServerRequestKind, SessionOp,
    SnapshotPlan, StreamAction, StreamError, StreamKind, WaitStep,
};
use code_core::rollout_history::HistoryRequestPlan;

fn history(before: Option<usize>, after: Option<usize>, limit: Option<usize>, anchor: Option<&str>) -> ClientCommand {
    ClientCommand::HistoryRequest { before, after, limit, anchor: anchor.map(|a| a.to_string()) }
}

fn reply_text(action: &StreamAction) -> Option<&str> {
    match action {
        StreamAction::Reply { error } => Some(error.as_str()),
        _ => None,
    }
}

fn subscribed_stream() -> BrokerStream<u32> {
    let mut stream = BrokerStream::new();
    let step = stream.on_handshake_message(BrokerMessage::Response {
        id: BrokerRequestId::Integer(2),
        subscription: Ok("sub-1".to_string()),
    });
    assert!(matches!(step, HandshakeStep::Subscribed));
    stream
}

fn exec_request(call_id: &str, id: i64) -> BrokerMessage<u32> {
    BrokerMessage::Request {
        request: Some(ServerRequest {
            kind: ServerRequestKind::ExecCommand,
            call_id: call_id.to_string(),
            request_id: BrokerRequestId::Integer(id),
        }),
    }
}

fn dynamic_tool_request(call_id: &str, id: &str) -> BrokerMessage<u32> {
    BrokerMessage::Request {
        request: Some(ServerRequest {
            kind: ServerRequestKind::DynamicTool,
            call_id: call_id.to_string(),
            request_id: BrokerRequestId::Text(id.to_string()),
        }),
    }
}

#[test]
fn control_stream_manages_sessions_and_refuses_the_rest() {
    let resume = ClientCommand::ResumeConversation { conversation_id: "abc".to_string() };
    match route_client_command(StreamKind::Control, &resume) {
        StreamAction::ResumeConversation { conversation_id } => assert_eq!(conversation_id, "abc"),
        other => panic!("unexpected {other:?}"),
    }
    let rename = ClientCommand::RenameConversation { conversation_id: "abc".to_string() };
    assert!(matches!(
        route_client_command(StreamKind::Control, &rename),
        StreamAction::RenameConversation { conversation_id } if conversation_id == "abc"
    ));
    let delete = ClientCommand::DeleteConversation { conversation_id: "xyz".to_string() };
    assert!(matches!(
        route_client_command(StreamKind::Control, &delete),
        StreamAction::DeleteConversation { conversation_id } if conversation_id == "xyz"
    ));
    assert!(matches!(
        route_client_command(StreamKind::Control, &ClientCommand::ListConversations { limit: Some(7) }),
        StreamAction::ListConversations { limit: Some(7) }
    ));
    let refused = route_client_command(StreamKind::Control, &ClientCommand::SendUserMessage);
    assert_eq!(reply_text(&refused), Some("unsupported control message"));
    let refused = route_client_command(StreamKind::Control, &history(None, None, None, None));
    assert_eq!(reply_text(&refused), Some("unsupported control message"));
}

#[test]
fn conversation_stream_leaves_renames_to_the_control_stream() {
    let rename = ClientCommand::RenameConversation { conversation_id: "abc".to_string() };
    let action = route_client_command(StreamKind::Conversation, &rename);
    assert_eq!(reply_text(&action), Some("session management must be handled by the websocket host"));
    assert!(matches!(
        route_client_command(StreamKind::Conversation, &ClientCommand::Interrupt),
        StreamAction::SubmitToConversation
    ));
    assert!(matches!(
        route_client_command(StreamKind::Conversation, &ClientCommand::ApprovalResponse { call_id: "c".to_string() }),
        StreamAction::SubmitToConversation
    ));
    assert!(matches!(
        route_client_command(StreamKind::Conversation, &ClientCommand::NewConversation),
        StreamAction::NewConversation
    ));
}

#[test]
fn history_stream_only_serves_history() {
    let action = route_client_command(StreamKind::History, &ClientCommand::NewConversation);
    assert_eq!(reply_text(&action), Some("history stream only accepts history requests"));
    let action = route_client_command(StreamKind::History, &history(None, None, None, Some("head")));
    assert!(matches!(action, StreamAction::LoadHistory { plan: HistoryRequestPlan::Head { limit: 2000 } }));
}

#[test]
fn history_request_with_both_bounds_is_refused() {
    for kind in [StreamKind::Conversation, StreamKind::History, StreamKind::Broker] {
        let action = route_client_command(kind, &history(Some(10), Some(2), Some(5), None));
        assert_eq!(reply_text(&action), Some("use either before or after, not both"));
    }
}

#[test]
fn history_request_limit_is_clamped_and_anchor_chooses_the_page() {
    let action = route_client_command(StreamKind::History, &history(None, None, Some(5000), Some("end")));
    assert!(matches!(action, StreamAction::LoadHistory { plan: HistoryRequestPlan::Tail { limit: 2000 } }));
    let action = route_client_command(StreamKind::History, &history(None, None, Some(0), Some("start")));
    assert!(matches!(action, StreamAction::LoadHistory { plan: HistoryRequestPlan::Head { limit: 1 } }));
    let action = route_client_command(StreamKind::Conversation, &history(Some(40), None, Some(25), Some("middle")));
    assert!(matches!(
        action,
        StreamAction::LoadHistory { plan: HistoryRequestPlan::Around { before: Some(40), after: None, limit: 25 } }
    ));
}

#[test]
fn broker_stream_closes_on_session_management() {
    let mut stream = subscribed_stream();
    let action = stream.route(&ClientCommand::DeleteConversation { conversation_id: "abc".to_string() });
    match action {
        StreamAction::ReplyAndClose { error } => {
            assert_eq!(error, "session management is not supported via broker stream")
        }
        other => panic!("unexpected {other:?}"),
    }
    assert!(matches!(
        stream.route(&ClientCommand::ListConversations { limit: None }),
        StreamAction::ListConversations { limit: None }
    ));
}

#[test]
fn broker_request_ids_follow_the_handshake() {
    let mut stream = subscribed_stream();
    assert!(matches!(stream.route(&ClientCommand::SendUserMessage), StreamAction::BrokerRequest { request_id: 3 }));
    assert!(matches!(stream.route(&ClientCommand::Interrupt), StreamAction::BrokerRequest { request_id: 4 }));
    assert!(matches!(
        stream.route(&ClientCommand::UserInputAnswer { call_id: "u".to_string() }),
        StreamAction::BrokerRequest { request_id: 5 }
    ));
    assert_eq!(stream.closing_request_id(), 6);
    assert_eq!(stream.subscription_id().as_deref(), Some("sub-1"));
}

#[test]
fn broker_approval_is_answered_once() {
    let mut stream = subscribed_stream();
    assert!(matches!(stream.on_broker_message(exec_request("call-1", 41)), BrokerStep::Ignore));
    let approval = ClientCommand::ApprovalResponse { call_id: "call-1".to_string() };
    assert!(matches!(
        stream.route(&approval),
        StreamAction::BrokerAnswer { request_id: BrokerRequestId::Integer(41) }
    ));
    assert!(matches!(stream.route(&approval), StreamAction::Ignore));
}

#[test]
fn broker_answers_only_requests_of_their_kind() {
    let mut stream = subscribed_stream();
    stream.on_broker_message(dynamic_tool_request("tool-1", "req-7"));
    let approval = ClientCommand::ApprovalResponse { call_id: "tool-1".to_string() };
    assert!(matches!(stream.route(&approval), StreamAction::Ignore));
    let response = ClientCommand::DynamicToolResponse { call_id: "tool-1".to_string() };
    match stream.route(&response) {
        StreamAction::BrokerAnswer { request_id: BrokerRequestId::Text(id) } => assert_eq!(id, "req-7"),
        other => panic!("unexpected {other:?}"),
    }
    assert!(matches!(stream.route(&response), StreamAction::Ignore));

    stream.on_broker_message(exec_request("call-2", 50));
    assert!(matches!(
        stream.route(&ClientCommand::DynamicToolResponse { call_id: "call-2".to_string() }),
        StreamAction::Ignore
    ));
    assert!(matches!(
        stream.route(&ClientCommand::ApprovalResponse { call_id: "call-2".to_string() }),
        StreamAction::BrokerAnswer { request_id: BrokerRequestId::Integer(50) }
    ));
}

#[test]
fn handshake_holds_back_events_and_records_requests() {
    let mut stream: BrokerStream<u32> = BrokerStream::new();
    let step = stream.on_handshake_message(BrokerMessage::Notification {
        method: "codex/event/task_started".to_string(),
        event: Some(1),
    });
    assert!(matches!(step, HandshakeStep::Waiting));
    stream.on_handshake_message(BrokerMessage::Notification { method: "other/thing".to_string(), event: Some(2) });
    stream.on_handshake_message(BrokerMessage::Notification { method: "codex/event/x".to_string(), event: Some(3) });
    stream.on_handshake_message(exec_request("early", 12));
    let step = stream.on_handshake_message(BrokerMessage::Response {
        id: BrokerRequestId::Integer(1),
        subscription: Ok("ignored".to_string()),
    });
    assert!(matches!(step, HandshakeStep::Waiting));
    assert_eq!(stream.subscription_id(), None);
    let step = stream.on_handshake_message(BrokerMessage::Response {
        id: BrokerRequestId::Integer(2),
        subscription: Ok("sub-9".to_string()),
    });
    assert!(matches!(step, HandshakeStep::Subscribed));
    assert_eq!(stream.take_buffered(), vec![1, 3]);
    assert!(stream.take_buffered().is_empty());
    assert!(matches!(
        stream.route(&ClientCommand::ApprovalResponse { call_id: "early".to_string() }),
        StreamAction::BrokerAnswer { request_id: BrokerRequestId::Integer(12) }
    ));
}

#[test]
fn handshake_failures_are_reported() {
    let mut stream: BrokerStream<u32> = BrokerStream::new();
    match stream.on_handshake_message(BrokerMessage::Error { id: BrokerRequestId::Integer(2), message: "no such conversation".to_string() }) {
        HandshakeStep::Failed { error } => assert_eq!(error, "no such conversation"),
        other => panic!("unexpected {other:?}"),
    }
    match stream.on_handshake_message(BrokerMessage::Response { id: BrokerRequestId::Integer(2), subscription: Err("missing field".to_string()) }) {
        HandshakeStep::Failed { error } => assert_eq!(error, "invalid broker response: missing field"),
        other => panic!("unexpected {other:?}"),
    }
    match stream.on_handshake_message(BrokerMessage::Closed) {
        HandshakeStep::Failed { error } => assert_eq!(error, "broker connection closed"),
        other => panic!("unexpected {other:?}"),
    }
    match stream.on_handshake_message(BrokerMessage::ReadFailed { detail: "eof".to_string() }) {
        HandshakeStep::Failed { error } => assert_eq!(error, "failed to read broker message: eof"),
        other => panic!("unexpected {other:?}"),
    }
    assert!(matches!(
        stream.on_handshake_message(BrokerMessage::Error { id: BrokerRequestId::Text("2".to_string()), message: "x".to_string() }),
        HandshakeStep::Waiting
    ));
}

#[test]
fn subscribed_broker_stream_relays_messages() {
    let mut stream = subscribed_stream();
    assert!(matches!(
        stream.on_broker_message(BrokerMessage::Notification { method: "codex/event/agent_message".to_string(), event: Some(5) }),
        BrokerStep::Forward { event: 5 }
    ));
    assert!(matches!(
        stream.on_broker_message(BrokerMessage::Notification { method: "codex/other".to_string(), event: Some(6) }),
        BrokerStep::Ignore
    ));
    match stream.on_broker_message(BrokerMessage::Error { id: BrokerRequestId::Integer(99), message: "boom".to_string() }) {
        BrokerStep::Reply { error } => assert_eq!(error, "boom"),
        other => panic!("unexpected {other:?}"),
    }
    assert!(matches!(stream.on_broker_message(BrokerMessage::Closed), BrokerStep::Stop { error: None }));
    match stream.on_broker_message(BrokerMessage::ReadFailed { detail: "reset".to_string() }) {
        BrokerStep::Stop { error: Some(error) } => assert_eq!(error, "broker read failed: reset"),
        other => panic!("unexpected {other:?}"),
    }
}

#[test]
fn waiting_for_a_response_matches_its_id() {
    let expected = BrokerRequestId::Integer(1);
    let other: BrokerMessage<u32> = BrokerMessage::Response { id: BrokerRequestId::Integer(2), subscription: Err(String::new()) };
    assert!(matches!(wait_step(&expected, &other), WaitStep::Waiting));
    let answer: BrokerMessage<u32> = BrokerMessage::Response { id: BrokerRequestId::Integer(1), subscription: Err(String::new()) };
    assert!(matches!(wait_step(&expected, &answer), WaitStep::Answered));
    let error: BrokerMessage<u32> = BrokerMessage::Error { id: BrokerRequestId::Integer(1), message: "denied".to_string() };
    assert!(matches!(wait_step(&expected, &error), WaitStep::Failed { error } if error == "denied"));
    let failed: BrokerMessage<u32> = BrokerMessage::ReadFailed { detail: "bad json".to_string() };
    assert!(matches!(wait_step(&expected, &failed), WaitStep::Failed { error } if error == "failed to read broker response: bad json"));
    let text_id = BrokerRequestId::Text("r".to_string());
    let text_answer: BrokerMessage<u32> = BrokerMessage::Response { id: BrokerRequestId::Text("r".to_string()), subscription: Err(String::new()) };
    assert!(matches!(wait_step(&text_id, &text_answer), WaitStep::Answered));
}

#[test]
fn session_operations_are_followed_up_by_stream_kind() {
    let f = follow_up(StreamKind::Control, SessionOp::Create, true);
    assert!(f.reply && f.broadcast);
    let f = follow_up(StreamKind::Control, SessionOp::Rename, true);
    assert!(!f.reply && f.broadcast);
    let f = follow_up(StreamKind::Control, SessionOp::List, true);
    assert!(f.reply && !f.broadcast);
    let f = follow_up(StreamKind::Control, SessionOp::Delete, false);
    assert!(f.reply && !f.broadcast);
    let f = follow_up(StreamKind::Conversation, SessionOp::Resume, true);
    assert!(f.reply && !f.broadcast);
    let f = follow_up(StreamKind::Broker, SessionOp::Create, true);
    assert!(f.reply && !f.broadcast);
}

#[test]
fn opening_snapshot_and_index_warming() {
    assert_eq!(opening_snapshot(0), SnapshotPlan::Empty);
    assert_eq!(opening_snapshot(300), SnapshotPlan::Load { limit: 300 });
    assert!(warms_index_at_open(StreamKind::Broker, 0));
    assert!(!warms_index_at_open(StreamKind::History, 0));
    assert!(warms_index_at_open(StreamKind::Conversation, 10));
    assert!(!warms_index_at_open(StreamKind::Control, 10));
}

#[test]
fn failed_sends_close_only_some_streams() {
    assert!(closes_on_failed_send(StreamKind::Conversation, Outgoing::Reply));
    assert!(closes_on_failed_send(StreamKind::Broker, Outgoing::Event));
    assert!(closes_on_failed_send(StreamKind::Broker, Outgoing::Opening));
    assert!(!closes_on_failed_send(StreamKind::Broker, Outgoing::Reply));
    assert!(!closes_on_failed_send(StreamKind::Control, Outgoing::Reply));
    assert!(!closes_on_failed_send(StreamKind::History, Outgoing::Opening));
}

#[test]
fn stream_error_texts() {
    assert_eq!(StreamError::InvalidMessage { detail: "expected value".to_string() }.text(), "invalid client message: expected value");
    assert_eq!(StreamError::SnapshotFailed { detail: "gone".to_string() }.text(), "failed to load rollout: gone");
    assert_eq!(StreamError::ConversationNotFound.text(), "conversation not found");
    assert_eq!(StreamError::BrokerConnect { detail: "refused".to_string() }.text(), "failed to connect to broker: refused");
    assert_eq!(StreamError::BrokerInitialize.text(), "failed to send broker initialize");
    assert_eq!(StreamError::BrokerSubscribe.text(), "failed to subscribe to broker");
    assert_eq!(StreamError::UnsupportedBrokerRequest.text(), "unsupported broker request");
    assert_eq!(StreamError::InvalidBrokerResponse { detail: "x".to_string() }.text(), "invalid broker response: x");
}

#[test]
fn forward_failures_name_the_command() {
    assert_eq!(forward_failure_text(&ClientCommand::SendUserMessage, "closed"), "failed to send message: closed");
    assert_eq!(forward_failure_text(&ClientCommand::Interrupt, "closed"), "failed to interrupt: closed");
    assert_eq!(
        forward_failure_text(&ClientCommand::UserInputAnswer { call_id: "u".to_string() }, "closed"),
        "failed to submit user input: closed"
    );
    assert_eq!(
        forward_failure_text(&ClientCommand::DynamicToolResponse { call_id: "d".to_string() }, "e"),
        "failed to submit dynamic tool response: e"
    );
}

#[test]
fn only_the_history_stream_needs_a_rollout_to_open() {
    assert!(missing_rollout_closes(StreamKind::History));
    assert!(!missing_rollout_closes(StreamKind::Conversation));
    assert!(!missing_rollout_closes(StreamKind::Broker));
}
