use code_core::rollout_cache::{FileStamp, IndexLookup, LineCountCache, LineIndex, LineIndexCache};

fn stamp(len: u64, modified: Option<u128>) -> FileStamp {
    FileStamp { len, modified }
}

#[test]
fn line_counts_are_reused_until_the_file_changes() {
    let mut cache = LineCountCache::new();
    assert_eq!(cache.lookup("/r/a.jsonl", stamp(10, Some(5))), None);
    cache.record("/r/a.jsonl".to_string(), stamp(10, Some(5)), 3);
    assert_eq!(cache.lookup("/r/a.jsonl", stamp(10, Some(5))), Some(3));
    assert_eq!(cache.lookup("/r/a.jsonl", stamp(11, Some(5))), None);
    assert_eq!(cache.lookup("/r/a.jsonl", stamp(10, None)), None);
    assert_eq!(cache.lookup("/r/b.jsonl", stamp(10, Some(5))), None);
    cache.record("/r/a.jsonl".to_string(), stamp(20, Some(6)), 7);
    assert_eq!(cache.lookup("/r/a.jsonl", stamp(20, Some(6))), Some(7));
    assert_eq!(cache.lookup("/r/a.jsonl", stamp(10, Some(5))), None);
}

#[test]
fn index_is_built_once_and_reused_while_fresh() {
    let mut cache = LineIndexCache::new();
    let s = stamp(4096, Some(1_700_000_000_000));
    assert!(matches!(cache.lookup("/r/a.jsonl", s), IndexLookup::StartBuild));
    assert!(matches!(cache.lookup("/r/a.jsonl", s), IndexLookup::Pending));
    cache.finish_build(
        "/r/a.jsonl".to_string(),
        Some(LineIndex { stamp: s, stride: 512, offsets: vec![0, 900], total_lines: 700 }),
    );
    match cache.lookup("/r/a.jsonl", s) {
        IndexLookup::Ready(index) => {
            assert_eq!(index.offsets, vec![0, 900]);
            assert_eq!(index.total_lines, 700);
            assert_eq!(index.stride, 512);
        }
        other => panic!("unexpected {other:?}"),
    }
    let grown = stamp(5000, Some(1_700_000_000_500));
    assert!(matches!(cache.lookup("/r/a.jsonl", grown), IndexLookup::StartBuild));
    assert!(matches!(cache.lookup("/r/a.jsonl", grown), IndexLookup::Pending));
    cache.finish_build("/r/a.jsonl".to_string(), None);
    assert!(matches!(cache.lookup("/r/a.jsonl", grown), IndexLookup::StartBuild));
}
