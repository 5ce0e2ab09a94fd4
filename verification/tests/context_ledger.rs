use code_core::context_ledger::{
    content_item_bytes, estimate_tokens, response_item_bytes, ContentItem, ContextLedger,
    ContextPersistence, ContextSourceKind, FunctionCallOutputBody, FunctionCallOutputContentItem,
    ResponseItem,
};

#[test]
fn duplicate_groups_collect_repeated_keys_by_weight() {
    let mut ledger = ContextLedger::default();
    ledger.push(
        ContextSourceKind::UserInstructions,
        ContextPersistence::Contextual,
        "project instructions",
        1,
        400,
        Some("user_instructions".to_string()),
    );
    ledger.push(
        ContextSourceKind::UserInstructions,
        ContextPersistence::Contextual,
        "prepended instructions",
        2,
        600,
        Some("user_instructions".to_string()),
    );
    ledger.push(
        ContextSourceKind::ToolSchema,
        ContextPersistence::Contextual,
        "tool schemas",
        4,
        2_000,
        Some("tool_schemas".to_string()),
    );
    ledger.push(
        ContextSourceKind::EnvironmentContext,
        ContextPersistence::GeneratedPerAttempt,
        "environment context",
        1,
        20,
        None,
    );

    let groups = ledger.duplicate_groups();

    assert_eq!(groups.len(), 1);
    let group = &groups[0];
    assert_eq!(group.duplicate_key, "user_instructions");
    assert_eq!(group.entry_count, 2);
    assert_eq!(group.item_count, 3);
    assert_eq!(group.bytes, 1_000);
    assert_eq!(group.estimated_tokens, 250);
    assert_eq!(
        group.labels,
        vec!["project instructions".to_string(), "prepended instructions".to_string()]
    );
    assert_eq!(group.sources, vec![ContextSourceKind::UserInstructions]);
}

#[test]
fn estimate_tokens_rounds_up_and_saturates() {
    assert_eq!(estimate_tokens(0), 0);
    assert_eq!(estimate_tokens(1), 1);
    assert_eq!(estimate_tokens(4), 1);
    assert_eq!(estimate_tokens(5), 2);
    assert_eq!(estimate_tokens(usize::MAX), usize::MAX / 4);
}

#[test]
fn empty_pieces_are_not_recorded_and_totals_add_up() {
    let mut ledger = ContextLedger::new();
    ledger.push(ContextSourceKind::PendingInput, ContextPersistence::RequestOnly, "nothing", 0, 0, None);
    assert!(ledger.entries().is_empty());
    ledger.push(ContextSourceKind::ToolOutput, ContextPersistence::ToolResult, "out", 1, 10, None);
    ledger.push(ContextSourceKind::BaseInstructions, ContextPersistence::Persisted, "base", 1, 7, None);
    assert_eq!(ledger.entries().len(), 2);
    assert_eq!(ledger.total_bytes(), 17);
    assert_eq!(ledger.total_estimated_tokens(), 5);
    assert_eq!(
        ledger.compact_summary(),
        "total_bytes=17,total_tokens~5 [BaseInstructions:items=1,bytes=7,tokens~2; ToolOutput:items=1,bytes=10,tokens~3]"
    );
}

#[test]
fn duplicate_groups_order_by_bytes_then_key() {
    let mut ledger = ContextLedger::new();
    for (key, bytes) in [("b", 5usize), ("a", 5), ("c", 9), ("b", 5), ("a", 5), ("c", 1)] {
        ledger.push(
            ContextSourceKind::SkillsManifest,
            ContextPersistence::Contextual,
            key,
            1,
            bytes,
            Some(key.to_string()),
        );
    }
    let groups = ledger.duplicate_groups();
    let keys: Vec<&str> = groups.iter().map(|g| g.duplicate_key.as_str()).collect();
    assert_eq!(keys, vec!["a", "b", "c"]);
}

#[test]
fn response_item_bytes_adds_up_the_texts_an_item_carries() {
    let message = ResponseItem::Message {
        role: "user".to_string(),
        content: vec![
            ContentItem::InputText { text: "héllo".to_string() },
            ContentItem::InputImage { image_url: "data:x".to_string() },
        ],
    };
    assert_eq!(response_item_bytes(&message), 4 + 6 + 6);
    assert_eq!(content_item_bytes(&ContentItem::OutputText { text: "ok".to_string() }), 2);

    let output = ResponseItem::FunctionCallOutput {
        call_id: "call_1".to_string(),
        output: FunctionCallOutputBody::ContentItems(vec![
            FunctionCallOutputContentItem::InputText { text: "abc".to_string() },
            FunctionCallOutputContentItem::InputImage { image_url: "img".to_string() },
        ]),
    };
    assert_eq!(response_item_bytes(&output), 6 + 3 + 3);

    let reasoning = ResponseItem::Reasoning {
        summary: vec!["one".to_string(), "two".to_string()],
        content: None,
        encrypted_content: Some("zz".to_string()),
    };
    assert_eq!(response_item_bytes(&reasoning), 8);

    let call = ResponseItem::FunctionCall {
        name: "shell".to_string(),
        namespace: None,
        arguments: "{}".to_string(),
        call_id: "c".to_string(),
    };
    assert_eq!(response_item_bytes(&call), 5 + 2 + 1);
    assert_eq!(response_item_bytes(&ResponseItem::WebSearchCall { status: Some("done".to_string()), action_json_len: 10 }), 14);
    assert_eq!(response_item_bytes(&ResponseItem::Other), 0);
}

#[test]
fn duplicate_groups_only_need_each_key_to_fit() {
    let mut ledger = ContextLedger::default();
    ledger.push(ContextSourceKind::BaseInstructions, ContextPersistence::Contextual, "base", 1, usize::MAX, None);
    ledger.push(ContextSourceKind::ToolSchema, ContextPersistence::Contextual, "schemas", 1, 10, Some("k".to_string()));
    ledger.push(ContextSourceKind::ToolSchema, ContextPersistence::Contextual, "schemas again", 2, 30, Some("k".to_string()));
    let groups = ledger.duplicate_groups();
    assert_eq!(groups.len(), 1);
    assert_eq!(groups[0].bytes, 40);
    assert_eq!(groups[0].item_count, 3);
    assert_eq!(groups[0].estimated_tokens, 10);
}

#[test]
fn ledger_keeps_recorded_entries_in_order_and_clones_them() {
    let mut ledger = ContextLedger::default();
    ledger.push(ContextSourceKind::UserInstructions, ContextPersistence::Contextual, "a", 0, 0, None);
    ledger.push(ContextSourceKind::UserInstructions, ContextPersistence::Contextual, "b", 1, 9, None);
    ledger.push(ContextSourceKind::ToolOutput, ContextPersistence::ToolResult, "c", 0, 4, None);
    let copy = ledger.clone();
    let labels: Vec<&str> = copy.entries().iter().map(|e| e.label.as_str()).collect();
    assert_eq!(labels, vec!["b", "c"]);
    assert_eq!(copy.entries()[0].estimated_tokens, 3);
    assert_eq!(copy.entries()[1].estimated_tokens, 1);
}
