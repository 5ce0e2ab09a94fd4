//! Session leases: one process at a time may own a conversation. This module
//! holds what the lease logic decides: where a conversation's lease and
//! owner files live, which conversation a rollout file belongs to, and how
//! the holder of a lease is described to a second process that is refused.
//! Locking and reading or writing the files is left to the caller.
use vstd::prelude::*;

use crate::review_detail::{run_id_text, uuid_text};
use crate::review_store::{join_path, path_join};
use crate::text::{
    byte_len, char_width, concat, decimal, from_chars_range, join_seqs, join_strings, push_str,
    strings_view, to_chars, to_owned_string, trim_string, trimmed, u64_to_string, utf8_width,
};

verus! {

/// The stem of the file a path names, as `std::path::Path::file_stem`
/// gives it (as text).
pub uninterp spec fn file_stem_of(path: Seq<char>) -> Option<Seq<char>>;

/// The file stem of a path: `std::path::Path::file_stem`, turned into text
/// where it is valid Unicode. The result is named, not stated: the rules
/// for the last component and its extension are std's.
#[verifier::external_body]
fn path_file_stem(path: &str) -> (r: Option<String>)
    ensures
        match r {
            Some(s) => file_stem_of(path@) == Some(s@),
            None => file_stem_of(path@) is None,
        },
{
    std::path::Path::new(path).file_stem().and_then(|s| s.to_str()).map(|s| s.to_string())
}

/// The value of a UUID text as `uuid::Uuid::parse_str` reads it.
pub uninterp spec fn uuid_parse(text: Seq<char>) -> Option<u128>;

/// Parses a UUID: `uuid::Uuid::parse_str`, the value as a `u128`. Which
/// texts are accepted (hyphenated, simple, braced, URN) is the crate's; the
/// result is named.
#[verifier::external_body]
pub(crate) fn parse_uuid(text: &str) -> (r: Option<u128>)
    ensures
        r == uuid_parse(text@),
{
    uuid::Uuid::parse_str(text).ok().map(|u| u.as_u128())
}

/// The trailing characters of `s` whose UTF-8 encoding is exactly `need`
/// bytes, if such a cut exists.
pub open spec fn tail_bytes(s: Seq<char>, need: int) -> Option<Seq<char>>
    decreases s.len(),
{
    if need == 0 {
        Some(Seq::empty())
    } else if need < 0 || s.len() == 0 {
        None
    } else {
        match tail_bytes(s.drop_last(), need - char_width(s.last())) {
            Some(t) => Some(t.push(s.last())),
            None => None,
        }
    }
}

/// Position of the last `c` in `s`, if any.
pub open spec fn last_pos(s: Seq<char>, c: char) -> Option<int>
    decreases s.len(),
{
    if s.len() == 0 {
        None
    } else if s.last() == c {
        Some(s.len() - 1)
    } else {
        last_pos(s.drop_last(), c)
    }
}

/// The conversation id a rollout file stem carries: its last 36 bytes when
/// they parse as a UUID, else the text after its last `-`.
pub open spec fn stem_conversation_id(stem: Seq<char>) -> Option<u128> {
    let tail = if byte_len(stem) >= 36 {
        match tail_bytes(stem, 36) {
            Some(t) => uuid_parse(t),
            None => None,
        }
    } else {
        None
    };
    match tail {
        Some(id) => Some(id),
        None => match last_pos(stem, '-') {
            Some(i) => uuid_parse(stem.skip(i + 1)),
            None => None,
        },
    }
}

/// The last 36 bytes of the stem start at a character boundary (or the stem
/// is shorter): the cut that `stem_conversation_id` makes is valid.
pub open spec fn stem_cut_ok(stem: Seq<char>) -> bool {
    byte_len(stem) < 36 || tail_bytes(stem, 36) is Some
}

proof fn lemma_tail_bytes_split(s: Seq<char>, k: int, need: int)
    requires
        0 <= k < s.len(),
        need >= char_width(s[k]),
    ensures
        tail_bytes(s.take(k + 1), need) == match tail_bytes(s.take(k), need - char_width(s[k])) {
            Some(t) => Some(t.push(s[k])),
            None => None::<Seq<char>>,
        },
{
    assert(s.take(k + 1).drop_last() =~= s.take(k));
}

/// The trailing characters of `v` that take exactly 36 bytes, if the cut
/// falls between characters; `None` when it falls inside one.
fn tail_36(v: &Vec<char>) -> (r: Option<String>)
    ensures
        match r {
            Some(t) => tail_bytes(v@, 36) == Some(t@),
            None => tail_bytes(v@, 36) is None,
        },
{
    let n = v.len();
    let mut k: usize = n;
    let mut need: usize = 36;
    proof {
        assert(v@.take(n as int) =~= v@);
    }
    while k > 0 && need > 0
        invariant
            k <= n == v@.len(),
            need <= 36,
            tail_bytes(v@, 36) == match tail_bytes(v@.take(k as int), need as int) {
                Some(t) => Some(t + v@.subrange(k as int, n as int)),
                None => None::<Seq<char>>,
            },
        decreases k,
    {
        let w = utf8_width(v[k - 1]);
        if w > need {
            proof {
                assert(v@.take(k as int).drop_last() =~= v@.take(k - 1));
                assert(v@.take(k as int).last() == v@[k - 1]);
            }
            return None;
        }
        proof {
            lemma_tail_bytes_split(v@, k - 1, need as int);
            match tail_bytes(v@.take(k - 1), need - w) {
                Some(t) => {
                    assert(t.push(v@[k - 1]) + v@.subrange(k as int, n as int) =~= t + v@.subrange(k - 1, n as int));
                },
                None => {},
            }
        }
        need = need - w;
        k = k - 1;
    }
    if need > 0 {
        return None;
    }
    proof {
        assert(Seq::<char>::empty() + v@.subrange(k as int, n as int) =~= v@.subrange(k as int, n as int));
    }
    Some(from_chars_range(v, k, n))
}

/// Position of the last `c` in `v`.
fn find_last(v: &Vec<char>, c: char) -> (r: Option<usize>)
    ensures
        match r {
            Some(i) => last_pos(v@, c) == Some(i as int),
            None => last_pos(v@, c) is None,
        },
{
    let mut k: usize = v.len();
    proof {
        assert(v@.take(k as int) =~= v@);
    }
    while k > 0
        invariant
            k <= v@.len(),
            last_pos(v@, c) == last_pos(v@.take(k as int), c),
        decreases k,
    {
        proof {
            assert(v@.take(k as int).drop_last() =~= v@.take(k - 1));
        }
        if v[k - 1] == c {
            return Some(k - 1);
        }
        k = k - 1;
    }
    None
}

/// The conversation id a rollout file stem carries.
pub fn conversation_id_from_stem(stem: &str) -> (r: Option<u128>)
    requires
        stem_cut_ok(stem@),
    ensures
        r == stem_conversation_id(stem@),
{
    let v = to_chars(stem);
    let blen = crate::text::str_byte_len(stem);
    let mut tail: Option<u128> = None;
    if blen >= 36 {
        if let Some(t) = tail_36(&v) {
            tail = parse_uuid(t.as_str());
        }
    }
    if let Some(id) = tail {
        return Some(id);
    }
    match find_last(&v, '-') {
        Some(i) => {
            let vlen = v.len();
            proof {
                lemma_last_pos(v@, '-');
                assert(i < v@.len());
                assert(i < vlen);
                assert(v@.subrange(i + 1, v@.len() as int) =~= v@.skip(i + 1));
            }
            let rest = from_chars_range(&v, i + 1, v.len());
            parse_uuid(rest.as_str())
        },
        None => None,
    }
}

proof fn lemma_last_pos(s: Seq<char>, c: char)
    ensures
        match last_pos(s, c) {
            Some(i) => 0 <= i < s.len(),
            None => true,
        },
    decreases s.len(),
{
    if s.len() > 0 {
        lemma_last_pos(s.drop_last(), c);
    }
}

/// The conversation a rollout file belongs to, read from the file stem of
/// its path: `None` when the path has no stem, when the stem carries no
/// conversation id, or when the last 36 bytes of the stem would cut a
/// character in two.
pub fn conversation_id_from_rollout_path(path: &str) -> (r: Option<u128>)
    ensures
        match file_stem_of(path@) {
            Some(stem) => r == if stem_cut_ok(stem) {
                stem_conversation_id(stem)
            } else {
                None
            },
            None => r is None,
        },
{
    let stem = match path_file_stem(path) {
        Some(s) => s,
        None => return None,
    };
    let v = to_chars(stem.as_str());
    let blen = crate::text::str_byte_len(stem.as_str());
    if blen >= 36 {
        if tail_36(&v).is_none() {
            return None;
        }
    }
    conversation_id_from_stem(stem.as_str())
}

/// Directory of the lease files under a code home.
pub open spec fn leases_dir_spec(code_home: Seq<char>) -> Seq<char> {
    path_join(path_join(code_home, "sessions"@), ".session-leases"@)
}

/// Directory of the lease files under a code home.
pub fn session_leases_dir(code_home: &str) -> (p: String)
    ensures
        p@ == leases_dir_spec(code_home@),
{
    proof {
        reveal_strlit("sessions");
        reveal_strlit(".session-leases");
    }
    let sessions = join_path(code_home, "sessions");
    join_path(sessions.as_str(), ".session-leases")
}

/// The lock file of a conversation's lease.
pub fn lease_file_path(leases_dir: &str, conversation_id: u128) -> (p: String)
    ensures
        p@ == path_join(leases_dir@, uuid_text(conversation_id) + ".lock"@),
{
    let mut name = run_id_text(conversation_id);
    push_str(&mut name, ".lock");
    join_path(leases_dir, name.as_str())
}

/// The owner metadata file of a conversation's lease.
pub fn owner_file_path(leases_dir: &str, conversation_id: u128) -> (p: String)
    ensures
        p@ == path_join(leases_dir@, uuid_text(conversation_id) + ".owner.json"@),
{
    let mut name = run_id_text(conversation_id);
    push_str(&mut name, ".owner.json");
    join_path(leases_dir, name.as_str())
}

/// An owner endpoint as recorded: trimmed, and absent when empty.
pub open spec fn endpoint_spec(endpoint: Option<Seq<char>>) -> Option<Seq<char>> {
    match endpoint {
        Some(e) => if trimmed(e).len() > 0 {
            Some(trimmed(e))
        } else {
            None
        },
        None => None,
    }
}

/// Normalizes an owner endpoint before it is recorded.
pub fn normalize_endpoint(endpoint: Option<&str>) -> (r: Option<String>)
    ensures
        match r {
            Some(t) => endpoint_spec(match endpoint {
                Some(e) => Some(e@),
                None => None,
            }) == Some(t@),
            None => endpoint_spec(match endpoint {
                Some(e) => Some(e@),
                None => None,
            }) is None,
        },
{
    match endpoint {
        Some(e) => {
            let t = trim_string(e);
            if t.as_str().is_empty() {
                None
            } else {
                Some(t)
            }
        },
        None => None,
    }
}

/// What a lease or owner file records, as far as the holder summary reads
/// it: `pid` where it is an unsigned integer, `conversation_id` and
/// `endpoint` where they are strings.
#[derive(Debug, Clone)]
pub struct LeaseMetadata {
    pub pid: Option<u64>,
    pub conversation_id: Option<String>,
    pub endpoint: Option<String>,
}

/// The parts of a holder summary.
pub open spec fn holder_parts(m: LeaseMetadata) -> Seq<Seq<char>> {
    let a: Seq<Seq<char>> = match m.pid {
        Some(p) => seq!["pid "@ + decimal(p as nat)],
        None => Seq::empty(),
    };
    let b: Seq<Seq<char>> = match m.conversation_id {
        Some(s) => a.push("session "@ + s@),
        None => a,
    };
    match endpoint_spec(match m.endpoint {
        Some(e) => Some(e@),
        None => None,
    }) {
        Some(e) => b.push("endpoint "@ + e),
        None => b,
    }
}

/// How the holder of a lease is described from the raw text of its file and,
/// when that text parses as JSON, what it records: `None` for an empty file,
/// the recorded pid, session and endpoint joined by `, `, else the trimmed
/// text.
pub open spec fn holder_summary_spec(raw: Seq<char>, decoded: Option<LeaseMetadata>) -> Option<Seq<char>> {
    let t = trimmed(raw);
    if t.len() == 0 {
        None
    } else {
        match decoded {
            Some(m) => if holder_parts(m).len() == 0 {
                Some(t)
            } else {
                Some(join_seqs(holder_parts(m), ", "@))
            },
            None => Some(t),
        }
    }
}

/// Describes the holder of a lease.
pub fn render_lease_holder_summary(raw: &str, decoded: Option<&LeaseMetadata>) -> (r: Option<String>)
    ensures
        match r {
            Some(s) => holder_summary_spec(raw@, match decoded {
                Some(m) => Some(*m),
                None => None,
            }) == Some(s@),
            None => holder_summary_spec(raw@, match decoded {
                Some(m) => Some(*m),
                None => None,
            }) is None,
        },
{
    let t = trim_string(raw);
    if t.as_str().is_empty() {
        return None;
    }
    let m = match decoded {
        Some(m) => m,
        None => return Some(t),
    };
    let mut parts: Vec<String> = Vec::new();
    if let Some(p) = m.pid {
        let n = u64_to_string(p);
        parts.push(concat("pid ", n.as_str()));
    }
    if let Some(s) = &m.conversation_id {
        parts.push(concat("session ", s.as_str()));
    }
    let endpoint = match &m.endpoint {
        Some(e) => normalize_endpoint(Some(e.as_str())),
        None => None,
    };
    if let Some(e) = endpoint {
        parts.push(concat("endpoint ", e.as_str()));
    }
    proof {
        assert(strings_view(parts@) =~= holder_parts(*m));
    }
    if parts.len() == 0 {
        Some(t)
    } else {
        Some(join_strings(&parts, ", "))
    }
}

/// The details of a refused lease: the owner file's summary, else the lease
/// file's, else `unknown owner`, in parentheses after a space.
pub open spec fn in_use_details_spec(owner: Option<Seq<char>>, lease: Option<Seq<char>>) -> Seq<char> {
    let holder = match owner {
        Some(o) => o,
        None => match lease {
            Some(l) => l,
            None => "unknown owner"@,
        },
    };
    " ("@ + holder + ")"@
}

/// The details of the error a second process gets for a conversation whose
/// lease is held.
pub fn session_in_use_details(owner_summary: Option<String>, lease_summary: Option<String>) -> (r: String)
    ensures
        r@ == in_use_details_spec(
            match owner_summary {
                Some(o) => Some(o@),
                None => None,
            },
            match lease_summary {
                Some(l) => Some(l@),
                None => None,
            },
        ),
{
    let holder = match owner_summary {
        Some(o) => o,
        None => match lease_summary {
            Some(l) => l,
            None => to_owned_string("unknown owner"),
        },
    };
    let mut out = to_owned_string(" (");
    push_str(&mut out, holder.as_str());
    push_str(&mut out, ")");
    out
}

} // verus!
