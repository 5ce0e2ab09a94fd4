use code_core::process_listing::{listener_pids, text_lines, vite_listener_pid, vite_process_pids};
use code_core::text::{contains_str, parse_i32};

#[test]
fn text_lines_split_like_str_lines() {
    for text in ["", "a", "a\n", "a\r\nb\n\nc\r", "\n\n", "x\ry\nz", "one\r\n"] {
        let expected: Vec<String> = text.lines().map(str::to_string).collect();
        assert_eq!(text_lines(text), expected, "lines of {text:?}");
    }
}

#[test]
fn parse_i32_follows_str_parse() {
    for text in ["42", "+7", "-2147483648", "2147483647", "2147483648", "-2147483649", "-+1", "+-1", "", "-", "+", "0", "-0", "00012", "1 2", "x"] {
        assert_eq!(parse_i32(text), text.parse::<i32>().ok(), "parse of {text:?}");
    }
}

#[test]
fn contains_str_finds_substrings() {
    assert!(contains_str("node /srv/code-rs/webui/vite", "code-rs/webui"));
    assert!(contains_str("abc", ""));
    assert!(!contains_str("ab", "abc"));
    assert!(!contains_str("vit e", "vite"));
}

#[test]
fn vite_processes_are_found_in_the_ps_listing() {
    let ps = "  101 /usr/bin/node /home/u/code-rs/webui/node_modules/.bin/vite --port 5173\n  202 /usr/bin/python3 server.py\nabc node vite code-rs/webui\n  303 node /x/code-rs/webui/vite.js\r\n  404 vite /elsewhere/app\n505\n";
    assert_eq!(vite_process_pids(ps), vec![101, 303]);
    assert!(vite_process_pids("").is_empty());
}

#[test]
fn vite_listener_is_the_first_node_or_vite_row() {
    let lsof = "COMMAND   PID USER   FD   TYPE DEVICE SIZE/OFF NODE NAME\npython3  4000 u    3u  IPv4 0x1      0t0  TCP *:5173 (LISTEN)\nnode     4242 u   20u  IPv6 0x2      0t0  TCP *:5173 (LISTEN)\nvite     4343 u   21u  IPv6 0x3      0t0  TCP *:5173 (LISTEN)\n";
    assert_eq!(vite_listener_pid(lsof), Some(4242));
    assert_eq!(vite_listener_pid("node 12 u\n"), None);
    assert_eq!(vite_listener_pid(""), None);
    assert_eq!(vite_listener_pid("COMMAND PID\nnode notapid\nvite 7\n"), Some(7));
}

#[test]
fn listener_pids_read_one_id_a_line() {
    assert_eq!(listener_pids("4242\n 77 \nx\n-3\n"), vec![4242, 77, -3]);
    assert!(listener_pids("").is_empty());
}
