use code_core::rollout_history::{
    history_chunk, history_chunk_in_range, history_head, history_tail, is_system_status_entry,
    history_request_limit, normalize_snapshot_limit, plan_history_request, plan_indexed_chunk,
    HistoryRequestPlan, rollout_snapshot, snapshot_line_limit,
    summarize_text, HistoryItemRef, IndexedChunkPlan, LineIndexBuilder, RolloutContentItem,
    RolloutEntry, RolloutLineInfo, RolloutPayload, HISTORY_MAX_BYTES, ROLLOUT_SNAPSHOT_MAX_LINES,
};

fn line(bytes: usize) -> RolloutLineInfo {
    RolloutLineInfo { blank: false, parsed: true, system_status: false, bytes }
}

fn blank() -> RolloutLineInfo {
    RolloutLineInfo { blank: true, parsed: false, system_status: false, bytes: 0 }
}

fn status(bytes: usize) -> RolloutLineInfo {
    RolloutLineInfo { blank: false, parsed: true, system_status: true, bytes }
}

fn broken(bytes: usize) -> RolloutLineInfo {
    RolloutLineInfo { blank: false, parsed: false, system_status: false, bytes }
}

fn indexes(items: &[HistoryItemRef]) -> Vec<usize> {
    items.iter().map(|r| r.index).collect()
}

#[test]
fn after_page_takes_lines_following_the_index() {
    let lines = vec![line(10), line(10), blank(), line(10), status(10), line(10), line(10)];
    let w = history_chunk(&lines, None, Some(0), 2);
    // Index 0 is skipped; blank lines take no index; the status line is left out.
    assert_eq!(indexes(&w.items), vec![1, 2]);
    assert_eq!(w.items[1].line, 3);
    assert!(w.truncated);
    assert_eq!(w.start_index, Some(1));
    assert_eq!(w.end_index, Some(2));

    let rest = history_chunk(&lines, None, Some(2), 10);
    assert_eq!(indexes(&rest.items), vec![4, 5]);
    assert!(!rest.truncated);
}

#[test]
fn before_page_keeps_the_latest_lines_that_fit() {
    let lines = vec![line(10), line(10), line(10), line(10), line(10)];
    let w = history_chunk(&lines, Some(4), None, 2);
    assert_eq!(indexes(&w.items), vec![2, 3]);
    assert!(w.truncated);

    let all = history_chunk(&lines, None, None, 10);
    assert_eq!(indexes(&all.items), vec![0, 1, 2, 3, 4]);
    assert!(!all.truncated);

    // Asking before index 2 with room for everything still reports the cut
    // only when the page does not start at index 0.
    let head = history_chunk(&lines, Some(2), None, 10);
    assert_eq!(indexes(&head.items), vec![0, 1]);
    assert!(!head.truncated);
}

#[test]
fn before_page_drops_lines_over_the_byte_cap() {
    let big = HISTORY_MAX_BYTES / 2 + 1;
    let lines = vec![line(big), line(big), line(10)];
    let w = history_chunk(&lines, None, None, 10);
    assert_eq!(indexes(&w.items), vec![1, 2]);
    assert!(w.truncated);
}

#[test]
fn unparsable_lines_take_an_index_but_are_not_shown() {
    let lines = vec![line(5), broken(5), line(5)];
    let w = history_chunk(&lines, None, None, 10);
    assert_eq!(indexes(&w.items), vec![0, 2]);
    assert_eq!(w.items[1].line, 2);
}

#[test]
fn head_keeps_status_lines_and_stops_at_the_limit() {
    let lines = vec![status(5), line(5), line(5)];
    let w = history_head(&lines, 2);
    assert_eq!(indexes(&w.items), vec![0, 1]);
    assert!(w.truncated);
}

#[test]
fn tail_indexes_count_back_from_the_total() {
    let lines = vec![line(5), blank(), status(5), line(5)];
    let w = history_tail(&lines, 100);
    assert_eq!(indexes(&w.items), vec![96, 97, 98]);
    assert!(w.truncated);

    let snap = rollout_snapshot(&lines, 100);
    assert_eq!(indexes(&snap.items), vec![96, 98]);
    assert!(snap.truncated);

    let whole = rollout_snapshot(&lines, 4);
    assert_eq!(indexes(&whole.items), vec![0, 2]);
    assert!(!whole.truncated);
}

#[test]
fn snapshot_limits_are_clamped() {
    assert_eq!(normalize_snapshot_limit(Some(0)), 0);
    assert_eq!(normalize_snapshot_limit(Some(5)), 5);
    assert_eq!(normalize_snapshot_limit(Some(5000)), ROLLOUT_SNAPSHOT_MAX_LINES);
    assert_eq!(normalize_snapshot_limit(None), ROLLOUT_SNAPSHOT_MAX_LINES);
    assert_eq!(snapshot_line_limit(0), 1);
    assert_eq!(snapshot_line_limit(7), 7);
    assert_eq!(snapshot_line_limit(99999), ROLLOUT_SNAPSHOT_MAX_LINES);
}

#[test]
fn indexed_plan_seeks_to_the_stride_before_the_start() {
    let offsets = vec![0u64, 5000, 9000];
    let plan = plan_indexed_chunk(1500, 512, &offsets, None, Some(599), 10);
    assert_eq!(
        plan,
        IndexedChunkPlan::Read { start: 600, end: 610, seek_line: 512, offset: 5000 }
    );
    let before = plan_indexed_chunk(1500, 512, &offsets, Some(1200), None, 300);
    assert_eq!(
        before,
        IndexedChunkPlan::Read { start: 900, end: 1200, seek_line: 512, offset: 5000 }
    );
    assert_eq!(plan_indexed_chunk(0, 512, &offsets, None, None, 10), IndexedChunkPlan::Empty);
    assert_eq!(
        plan_indexed_chunk(10, 512, &offsets, Some(5), Some(1), 10),
        IndexedChunkPlan::Unindexed
    );
    assert_eq!(plan_indexed_chunk(10, 512, &offsets, None, Some(9), 10), IndexedChunkPlan::Empty);
    assert_eq!(plan_indexed_chunk(10, 512, &offsets, Some(0), None, 10), IndexedChunkPlan::Empty);
}

#[test]
fn ranged_read_counts_from_the_seek_line() {
    let lines = vec![line(5), line(5), line(5), line(5)];
    let w = history_chunk_in_range(&lines, 512, 513, 515, 10, None);
    assert_eq!(indexes(&w.items), vec![513, 514]);
    assert!(!w.truncated);
    let cut = history_chunk_in_range(&lines, 512, 513, 515, 10, Some(515));
    assert!(cut.truncated);
}

#[test]
fn line_index_counts_lines_across_chunks() {
    let mut b = LineIndexBuilder::new();
    b.feed(b"one\ntwo\n");
    b.feed(b"three");
    assert_eq!(b.total_lines(), 3);
    let (offsets, total) = b.finish();
    assert_eq!(offsets, vec![0]);
    assert_eq!(total, 3);

    let mut many = LineIndexBuilder::new();
    let text = "x\n".repeat(1025);
    many.feed(text.as_bytes());
    let (offsets, total) = many.finish();
    assert_eq!(total, 1025);
    assert_eq!(offsets, vec![0, 1024, 2048]);

    let empty = LineIndexBuilder::new();
    assert_eq!(empty.total_lines(), 0);
}

fn message(role: &str, items: Vec<(&str, &str)>) -> RolloutEntry {
    RolloutEntry {
        entry_type: Some("response_item".to_string()),
        payload: Some(RolloutPayload {
            payload_type: Some("message".to_string()),
            role: Some(role.to_string()),
            content: Some(
                items
                    .into_iter()
                    .map(|(t, text)| RolloutContentItem {
                        item_type: Some(t.to_string()),
                        text: Some(text.to_string()),
                    })
                    .collect(),
            ),
        }),
    }
}

#[test]
fn system_status_messages_are_recognized() {
    assert!(is_system_status_entry(&message("user", vec![("input_text", "  == System Status ==\ncwd: /tmp")])));
    assert!(is_system_status_entry(&message(
        "user",
        vec![("input_image", "ignored"), ("input_text", "== System Status ==")]
    )));
    assert!(!is_system_status_entry(&message("assistant", vec![("output_text", "== System Status ==")])));
    assert!(!is_system_status_entry(&message("user", vec![("input_text", "hello"), ("input_text", "== System Status ==")])));
    let mut other = message("user", vec![("input_text", "== System Status ==")]);
    other.entry_type = Some("event_msg".to_string());
    assert!(!is_system_status_entry(&other));
}

#[test]
fn summaries_keep_the_first_words() {
    assert_eq!(summarize_text("  hello   big\tworld  ", 2), Some("hello big".to_string()));
    assert_eq!(summarize_text("one two", 10), Some("one two".to_string()));
    assert_eq!(summarize_text("one two", 0), Some("one".to_string()));
    assert_eq!(summarize_text(" \n\t ", 3), None);
}

#[test]
fn history_requests_are_planned_by_anchor() {
    assert_eq!(history_request_limit(None), 2000);
    assert_eq!(history_request_limit(Some(0)), 1);
    assert_eq!(history_request_limit(Some(50)), 50);
    assert_eq!(history_request_limit(Some(5000)), 2000);
    assert_eq!(plan_history_request(Some("head"), None, None, Some(10)), HistoryRequestPlan::Head { limit: 10 });
    assert_eq!(plan_history_request(Some("start"), None, None, None), HistoryRequestPlan::Head { limit: 2000 });
    assert_eq!(plan_history_request(Some("end"), Some(3), None, Some(7)), HistoryRequestPlan::Tail { limit: 7 });
    assert_eq!(
        plan_history_request(Some("middle"), Some(30), None, Some(7)),
        HistoryRequestPlan::Around { before: Some(30), after: None, limit: 7 }
    );
    assert_eq!(
        plan_history_request(None, None, Some(4), None),
        HistoryRequestPlan::Around { before: None, after: Some(4), limit: 2000 }
    );
}
