//! Reading the process listings the gateway consults when it manages the
//! web UI's development server: which processes run its Vite server, which
//! Node or Vite process listens on a port, and which processes listen on a
//! port at all. The listings are the text `ps` and `lsof` print; running
//! them, and signalling the processes found, stays with the caller.
use vstd::prelude::*;

use crate::gateway_web::{lemma_split_on_len, split_char, split_on};
use crate::text::{
    contains_seq, contains_str, from_chars_range, is_ws, parse_i32, parse_i32_spec, split_words,
    strings_view, to_chars, trim_start, trim_start_string, trim_string, trimmed, words_of,
};

verus! {

/// A line without the `\r` of a `\r\n` ending.
pub open spec fn strip_cr(l: Seq<char>) -> Seq<char> {
    if l.len() > 0 && l.last() == '\r' {
        l.drop_last()
    } else {
        l
    }
}

/// Each of the lines without the `\r` of its ending.
pub open spec fn strip_crs(s: Seq<Seq<char>>) -> Seq<Seq<char>>
    decreases s.len(),
{
    if s.len() == 0 {
        Seq::empty()
    } else {
        strip_crs(s.drop_last()).push(strip_cr(s.last()))
    }
}

/// The lines of a text, as `str::lines` gives them: the pieces between
/// line feeds, each ended one without a carriage return just before its
/// line feed; the last piece is a line only when it is not empty.
pub open spec fn str_lines(s: Seq<char>) -> Seq<Seq<char>> {
    let p = split_on(s, '\n');
    if p.last().len() == 0 {
        strip_crs(p.drop_last())
    } else {
        strip_crs(p.drop_last()).push(p.last())
    }
}

fn strip_cr_string(l: &String) -> (r: String)
    ensures
        r@ == strip_cr(l@),
{
    let v = to_chars(l.as_str());
    if v.len() > 0 && v[v.len() - 1] == '\r' {
        from_chars_range(&v, 0, v.len() - 1)
    } else {
        from_chars_range(&v, 0, v.len())
    }
}

/// The lines of a text, as `str::lines` gives them.
pub fn text_lines(s: &str) -> (r: Vec<String>)
    ensures
        strings_view(r@) == str_lines(s@),
{
    let parts = split_char(s, '\n');
    let ghost p = split_on(s@, '\n');
    proof {
        lemma_split_on_len(s@, '\n');
    }
    let n = parts.len();
    let mut out: Vec<String> = Vec::new();
    let mut i: usize = 0;
    while i + 1 < n
        invariant
            n == parts@.len(),
            n >= 1,
            strings_view(parts@) == p,
            i + 1 <= n,
            strings_view(out@) == strip_crs(p.take(i as int)),
        decreases n - i,
    {
        let line = strip_cr_string(&parts[i]);
        proof {
            assert(p[i as int] == parts@[i as int]@);
            assert(p.take(i + 1).drop_last() =~= p.take(i as int));
        }
        out.push(line);
        proof {
            assert(strings_view(out@) =~= strip_crs(p.take(i as int)).push(strip_cr(p[i as int])));
        }
        i = i + 1;
    }
    proof {
        assert(p.take(i as int) =~= p.drop_last());
        assert(p.last() == parts@[n - 1]@);
    }
    if parts[n - 1].as_str().is_empty() {
        out
    } else {
        let last = crate::text::clone_string(&parts[n - 1]);
        let ghost out0 = strings_view(out@);
        out.push(last);
        proof {
            assert(strings_view(out@) =~= out0.push(p.last()));
        }
        out
    }
}

/// Position of the first white space character of `s`, if it has one.
pub open spec fn first_ws_pos(s: Seq<char>) -> Option<int>
    decreases s.len(),
{
    if s.len() == 0 {
        None
    } else if is_ws(s[0]) {
        Some(0)
    } else {
        match first_ws_pos(s.drop_first()) {
            Some(k) => Some(k + 1),
            None => None,
        }
    }
}

proof fn lemma_first_ws(s: Seq<char>, i: int)
    requires
        0 <= i <= s.len(),
        forall|j: int| 0 <= j < i ==> !is_ws(s[j]),
    ensures
        i < s.len() && is_ws(s[i]) ==> first_ws_pos(s) == Some(i),
        i == s.len() ==> first_ws_pos(s) is None,
    decreases i,
{
    if i > 0 {
        lemma_first_ws(s.drop_first(), i - 1);
    } else if s.len() == 0 {
    }
}

fn find_ws(v: &Vec<char>) -> (r: Option<usize>)
    ensures
        match r {
            Some(k) => k < v@.len() && first_ws_pos(v@) == Some(k as int),
            None => first_ws_pos(v@) is None,
        },
{
    let mut i: usize = 0;
    while i < v.len()
        invariant
            i <= v@.len(),
            forall|j: int| 0 <= j < i ==> !is_ws(v@[j]),
        decreases v@.len() - i,
    {
        if crate::text::char_is_ws(v[i]) {
            proof {
                lemma_first_ws(v@, i as int);
            }
            return Some(i);
        }
        i = i + 1;
    }
    proof {
        lemma_first_ws(v@, i as int);
    }
    None
}

/// The process id on a `ps -ax -o pid= -o command=` line, when its command
/// runs the web UI's Vite server: the line, without its leading white
/// space, is the id, one white space character, and a command naming both
/// `vite` and `code-rs/webui`; an id that does not parse is passed over.
pub open spec fn vite_pid_of_line(line: Seq<char>) -> Option<i32> {
    let t = trim_start(line);
    match first_ws_pos(t) {
        Some(k) => {
            let command = t.subrange(k + 1, t.len() as int);
            if contains_seq(command, "vite"@) && contains_seq(command, "code-rs/webui"@) {
                parse_i32_spec(t.take(k))
            } else {
                None
            }
        },
        None => None,
    }
}

/// The ids the lines give, in order.
pub open spec fn vite_pids_of(lines: Seq<Seq<char>>) -> Seq<i32>
    decreases lines.len(),
{
    if lines.len() == 0 {
        Seq::empty()
    } else {
        let p = vite_pids_of(lines.drop_last());
        match vite_pid_of_line(lines.last()) {
            Some(x) => p.push(x),
            None => p,
        }
    }
}

fn vite_pid_on_line(line: &String) -> (r: Option<i32>)
    ensures
        r == vite_pid_of_line(line@),
{
    let t = trim_start_string(line.as_str());
    let v = to_chars(t.as_str());
    match find_ws(&v) {
        Some(k) => {
            let command = from_chars_range(&v, k + 1, v.len());
            if contains_str(command.as_str(), "vite") && contains_str(command.as_str(), "code-rs/webui") {
                let pid = from_chars_range(&v, 0, k);
                proof {
                    assert(pid@ =~= t@.take(k as int));
                }
                parse_i32(pid.as_str())
            } else {
                None
            }
        },
        None => None,
    }
}

/// The processes running the web UI's Vite server, from the output of
/// `ps -ax -o pid= -o command=`.
pub fn vite_process_pids(ps_output: &str) -> (r: Vec<i32>)
    ensures
        r@ == vite_pids_of(str_lines(ps_output@)),
{
    let lines = text_lines(ps_output);
    let ghost ls = str_lines(ps_output@);
    let mut out: Vec<i32> = Vec::new();
    let mut i: usize = 0;
    while i < lines.len()
        invariant
            i <= lines@.len(),
            strings_view(lines@) == ls,
            out@ == vite_pids_of(ls.take(i as int)),
        decreases lines@.len() - i,
    {
        proof {
            assert(ls.take(i + 1).drop_last() =~= ls.take(i as int));
            assert(ls[i as int] == lines@[i as int]@);
        }
        match vite_pid_on_line(&lines[i]) {
            Some(pid) => out.push(pid),
            None => {},
        }
        i = i + 1;
    }
    proof {
        assert(ls.take(i as int) =~= ls);
    }
    out
}

/// The process id on an `lsof -nP -iTCP:<port> -sTCP:LISTEN` row whose
/// command is a Node or Vite process: the second of the row's fields.
pub open spec fn listener_pid_of_line(line: Seq<char>) -> Option<i32> {
    let w = words_of(line);
    if w.len() >= 2 && (contains_seq(w[0], "node"@) || contains_seq(w[0], "vite"@)) {
        parse_i32_spec(w[1])
    } else {
        None
    }
}

/// The first id the rows give.
pub open spec fn first_listener_pid(rows: Seq<Seq<char>>) -> Option<i32>
    decreases rows.len(),
{
    if rows.len() == 0 {
        None
    } else {
        match listener_pid_of_line(rows[0]) {
            Some(p) => Some(p),
            None => first_listener_pid(rows.drop_first()),
        }
    }
}

fn listener_pid_on_line(line: &String) -> (r: Option<i32>)
    ensures
        r == listener_pid_of_line(line@),
{
    let words = split_words(line.as_str());
    if words.len() >= 2 {
        proof {
            assert(words_of(line@)[0] == words@[0]@);
            assert(words_of(line@)[1] == words@[1]@);
        }
        if contains_str(words[0].as_str(), "node") || contains_str(words[0].as_str(), "vite") {
            parse_i32(words[1].as_str())
        } else {
            None
        }
    } else {
        None
    }
}

/// The Node or Vite process listening, from the output of
/// `lsof -nP -iTCP:<port> -sTCP:LISTEN`: the first matching row after the
/// header.
pub fn vite_listener_pid(lsof_output: &str) -> (r: Option<i32>)
    ensures
        r == {
            let ls = str_lines(lsof_output@);
            if ls.len() == 0 {
                None
            } else {
                first_listener_pid(ls.drop_first())
            }
        },
{
    let lines = text_lines(lsof_output);
    let ghost ls = str_lines(lsof_output@);
    if lines.len() == 0 {
        return None;
    }
    let mut i: usize = 1;
    while i < lines.len()
        invariant
            1 <= i <= lines@.len(),
            strings_view(lines@) == ls,
            ls == str_lines(lsof_output@),
            ls.len() == lines@.len(),
            first_listener_pid(ls.drop_first()) == first_listener_pid(ls.subrange(i as int, ls.len() as int)),
        decreases lines@.len() - i,
    {
        proof {
            assert(ls.subrange(i as int, ls.len() as int).drop_first() =~= ls.subrange(i + 1, ls.len() as int));
            assert(ls.subrange(i as int, ls.len() as int)[0] == lines@[i as int]@);
        }
        match listener_pid_on_line(&lines[i]) {
            Some(pid) => {
                proof {
                    assert(first_listener_pid(ls.subrange(i as int, ls.len() as int)) == Some(pid));
                }
                return Some(pid);
            },
            None => {},
        }
        i = i + 1;
    }
    proof {
        assert(ls.subrange(i as int, ls.len() as int) =~= Seq::<Seq<char>>::empty());
    }
    None
}

/// The ids on the lines that hold nothing else, in order.
pub open spec fn listed_pids(lines: Seq<Seq<char>>) -> Seq<i32>
    decreases lines.len(),
{
    if lines.len() == 0 {
        Seq::empty()
    } else {
        let p = listed_pids(lines.drop_last());
        match parse_i32_spec(trimmed(lines.last())) {
            Some(x) => p.push(x),
            None => p,
        }
    }
}

/// The processes listening on a port, from the output of
/// `lsof -nP -t -iTCP:<port> -sTCP:LISTEN`: one id a line.
pub fn listener_pids(lsof_output: &str) -> (r: Vec<i32>)
    ensures
        r@ == listed_pids(str_lines(lsof_output@)),
{
    let lines = text_lines(lsof_output);
    let ghost ls = str_lines(lsof_output@);
    let mut out: Vec<i32> = Vec::new();
    let mut i: usize = 0;
    while i < lines.len()
        invariant
            i <= lines@.len(),
            strings_view(lines@) == ls,
            out@ == listed_pids(ls.take(i as int)),
        decreases lines@.len() - i,
    {
        proof {
            assert(ls.take(i + 1).drop_last() =~= ls.take(i as int));
            assert(ls[i as int] == lines@[i as int]@);
        }
        let t = trim_string(lines[i].as_str());
        match parse_i32(t.as_str()) {
            Some(pid) => out.push(pid),
            None => {},
        }
        i = i + 1;
    }
    proof {
        assert(ls.take(i as int) =~= ls);
    }
    out
}

} // verus!
