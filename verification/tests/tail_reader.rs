use code_core::tail_reader::TailReader;

fn read_tail(bytes: &[u8], max_lines: usize, max_bytes: usize) -> Vec<String> {
    if bytes.is_empty() {
        return Vec::new();
    }
    let ends_with_newline = bytes[bytes.len() - 1] == b'\n';
    let mut reader = TailReader::new(bytes.len() as u64, max_lines, max_bytes);
    while let Some((start, size)) = reader.next_chunk() {
        reader.feed(bytes[start as usize..(start + size) as usize].to_vec());
    }
    reader
        .finish(ends_with_newline)
        .into_iter()
        .map(|line| String::from_utf8_lossy(&line).into_owned())
        .collect()
}

fn long_file(lines: usize) -> Vec<u8> {
    let mut bytes = Vec::new();
    for i in 0..lines {
        let line = format!("{:0>99}\n", i);
        bytes.extend_from_slice(line.as_bytes());
    }
    bytes
}

#[test]
fn tail_of_a_small_file() {
    assert_eq!(read_tail(b"a\nb\nc\n", 10, 1 << 20), vec!["a", "b", "c"]);
    assert_eq!(read_tail(b"a\nb\nc", 2, 1 << 20), vec!["b", "c"]);
    assert_eq!(read_tail(b"a\r\nb\r\n", 10, 1 << 20), vec!["a", "b"]);
    assert_eq!(read_tail(b"only", 10, 1 << 20), vec!["only"]);
}

#[test]
fn final_line_feed_counts_against_the_line_budget() {
    assert_eq!(read_tail(b"a\nb\n", 1, 1 << 20), Vec::<String>::new());
    assert_eq!(read_tail(b"a\nb\n", 2, 1 << 20), vec!["b"]);
}

#[test]
fn empty_lines_inside_are_kept_and_trailing_ones_dropped() {
    assert_eq!(read_tail(b"\n\nx\n\n", 10, 1 << 20), vec!["", "x"]);
}

#[test]
fn no_lines_asked_gives_none() {
    assert!(read_tail(b"a\nb\n", 0, 1 << 20).is_empty());
}

#[test]
fn long_file_reads_only_the_last_lines() {
    let bytes = long_file(700);
    // The empty piece after the file's final line feed takes one of the five.
    let lines = read_tail(&bytes, 5, 1 << 20);
    let expected: Vec<String> = (696..700).map(|i| format!("{:0>99}", i)).collect();
    assert_eq!(lines, expected);
}

#[test]
fn byte_budget_stops_after_the_first_chunk() {
    let bytes = long_file(700);
    let lines = read_tail(&bytes, 1000, 1);
    assert_eq!(lines.len(), 655);
    assert_eq!(lines[0], format!("{:0>99}", 45));
    assert_eq!(lines[654], format!("{:0>99}", 699));
}
