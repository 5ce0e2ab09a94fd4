//! Records of the write-capable sessions running in a checkout, and the
//! warnings given when several of them share one. Reading and writing the
//! record files, asking git and reading the clock are left to the caller.
use vstd::prelude::*;

use crate::review_detail::{run_id_text, uuid_text};
use crate::text::{
    concat, decimal, join_seqs, join_strings, push_line, push_str, str_eq,
    strings_view, to_owned_string, trim_string, trimmed, u64_to_string,
};

verus! {

broadcast use vstd::seq_lib::group_to_multiset_ensures;

/// Directory of the session records under the state directory.
pub const ACTIVE_SESSIONS_DIR: &'static str = "active-sessions";

/// Version of the record format.
pub const SCHEMA_VERSION: u32 = 1;

/// What a registered session may do.
#[derive(Debug, Clone, Copy, PartialEq, Eq, Structural)]
pub enum ActiveSessionMode {
    WriteCapable,
}

/// The client that started a session.
#[derive(Debug, Clone, Copy, PartialEq, Eq, Structural)]
pub enum SessionSource {
    Cli,
    Exec,
    VSCode,
    Mcp,
    SubAgent,
    Unknown,
}

/// What a session lets commands touch.
#[derive(Debug, Clone, Copy, PartialEq, Eq, Structural)]
pub enum SandboxPolicy {
    ReadOnly,
    WorkspaceWrite,
    DangerFullAccess,
}

/// Only sessions that may write register.
pub open spec fn write_capable_spec(p: SandboxPolicy) -> bool {
    p == SandboxPolicy::WorkspaceWrite || p == SandboxPolicy::DangerFullAccess
}

/// Whether a session with this policy may write to the checkout.
pub fn is_write_capable(sandbox_policy: &SandboxPolicy) -> (b: bool)
    ensures
        b == write_capable_spec(*sandbox_policy),
{
    match sandbox_policy {
        SandboxPolicy::WorkspaceWrite | SandboxPolicy::DangerFullAccess => true,
        SandboxPolicy::ReadOnly => false,
    }
}

/// The record of a running session.
#[derive(Debug, Clone)]
pub struct ActiveSessionRecord {
    pub schema_version: u32,
    pub product: String,
    pub session_id: u128,
    pub pid: u32,
    pub source: SessionSource,
    pub mode: ActiveSessionMode,
    pub started_at_unix: u64,
    pub heartbeat_at_unix: u64,
    pub cwd: String,
    pub checkout_root: String,
    pub git_common_dir: Option<String>,
    pub branch: Option<String>,
    pub head: Option<String>,
}

/// The part of a notice fingerprint one session contributes.
pub open spec fn fingerprint_text(r: ActiveSessionRecord) -> Seq<char> {
    decimal(r.pid as nat) + ":"@ + uuid_text(r.session_id)
}

impl ActiveSessionRecord {
    /// The process id and session id, as `pid:session`.
    pub fn fingerprint_component(&self) -> (s: String)
        ensures
            s@ == fingerprint_text(*self),
    {
        let mut s = u64_to_string(self.pid as u64);
        push_str(&mut s, ":");
        let id = run_id_text(self.session_id);
        push_str(&mut s, id.as_str());
        s
    }
}

/// Name of a session source.
pub open spec fn source_text(s: SessionSource) -> Seq<char> {
    match s {
        SessionSource::Cli => "cli"@,
        SessionSource::Exec => "exec"@,
        SessionSource::VSCode => "vscode"@,
        SessionSource::Mcp => "mcp"@,
        SessionSource::SubAgent => "subagent"@,
        SessionSource::Unknown => "unknown"@,
    }
}

/// Names a session source.
pub fn format_session_source(source: &SessionSource) -> (s: &'static str)
    ensures
        s@ == source_text(*source),
{
    match source {
        SessionSource::Cli => "cli",
        SessionSource::Exec => "exec",
        SessionSource::VSCode => "vscode",
        SessionSource::Mcp => "mcp",
        SessionSource::SubAgent => "subagent",
        SessionSource::Unknown => "unknown",
    }
}

/// Seconds from `start` to `now`, zero when `now` is earlier.
pub open spec fn age_secs(now: u64, start: u64) -> nat {
    if now >= start {
        (now - start) as nat
    } else {
        0
    }
}

/// How a session is described: process, source and age.
pub open spec fn detail_text(r: ActiveSessionRecord, now: u64) -> Seq<char> {
    "pid "@ + decimal(r.pid as nat) + ", "@ + source_text(r.source) + ", started "@ + decimal(age_secs(now, r.started_at_unix))
        + "s ago"@
}

/// Describes a session at time `now` (seconds since the Unix epoch).
pub fn format_session_detail(record: &ActiveSessionRecord, now: u64) -> (s: String)
    ensures
        s@ == detail_text(*record, now),
{
    let mut s = concat("pid ", u64_to_string(record.pid as u64).as_str());
    push_str(&mut s, ", ");
    push_str(&mut s, format_session_source(&record.source));
    push_str(&mut s, ", started ");
    let age = now.saturating_sub(record.started_at_unix);
    push_str(&mut s, u64_to_string(age).as_str());
    push_str(&mut s, "s ago");
    s
}

/// The warning shown to the user when other write-capable sessions run in
/// the checkout, naming the first of them.
pub open spec fn warning_text(conflicts: Seq<ActiveSessionRecord>, now: u64) -> Option<Seq<char>> {
    if conflicts.len() == 0 {
        None
    } else {
        let first = conflicts[0];
        let detail = detail_text(first, now);
        let root = first.checkout_root@;
        if conflicts.len() == 1 {
            Some(
                "Another write-capable Every Code session is active in this checkout ("@ + detail + ") at "@ + root
                    + ". Concurrent edits can conflict; Every Code will warn the model to prefer isolated work and avoid touching unrelated changes."@,
            )
        } else {
            Some(
                decimal(conflicts.len()) + " other write-capable Every Code sessions are active in this checkout, including "@
                    + detail + ", at "@ + root
                    + ". Concurrent edits can conflict; Every Code will warn the model to prefer isolated work and avoid touching unrelated changes."@,
            )
        }
    }
}

/// The warning for the user about other sessions in the checkout.
pub fn active_session_warning(conflicts: &[ActiveSessionRecord], now: u64) -> (r: Option<String>)
    ensures
        crate::text::opt_view(r) == warning_text(conflicts@, now),
{
    if conflicts.len() == 0 {
        return None;
    }
    let first = &conflicts[0];
    let detail = format_session_detail(first, now);
    if conflicts.len() == 1 {
        let mut s = concat("Another write-capable Every Code session is active in this checkout (", detail.as_str());
        push_str(&mut s, ") at ");
        push_str(&mut s, first.checkout_root.as_str());
        push_str(
            &mut s,
            ". Concurrent edits can conflict; Every Code will warn the model to prefer isolated work and avoid touching unrelated changes.",
        );
        Some(s)
    } else {
        let mut s = u64_to_string(conflicts.len() as u64);
        push_str(&mut s, " other write-capable Every Code sessions are active in this checkout, including ");
        push_str(&mut s, detail.as_str());
        push_str(&mut s, ", at ");
        push_str(&mut s, first.checkout_root.as_str());
        push_str(
            &mut s,
            ". Concurrent edits can conflict; Every Code will warn the model to prefer isolated work and avoid touching unrelated changes.",
        );
        Some(s)
    }
}

/// The notice given to the model when other write-capable sessions run in
/// the checkout.
pub open spec fn notice_text(conflicts: Seq<ActiveSessionRecord>, now: u64) -> Option<Seq<char>> {
    if conflicts.len() == 0 {
        None
    } else {
        let first = conflicts[0];
        let subject = if conflicts.len() == 1 {
            "Another write-capable Every Code session is active in this checkout"@
        } else {
            decimal(conflicts.len()) + " other write-capable Every Code sessions are active in this checkout"@
        };
        Some(
            "CONCURRENT CHECKOUT SESSION DETECTED: "@ + subject + ", including "@ + detail_text(first, now) + ", at "@
                + first.checkout_root@
                + ". Treat this checkout as concurrently edited. Prefer doing implementation work in a separate git worktree before modifying files. If you stay in this checkout, re-read target files immediately before editing and keep edits tightly scoped. Do not revert, overwrite, stage, or spend turns cataloging unrelated working-tree changes unless the user explicitly asks. Mention concurrent edits only when they affect the requested task."@,
        )
    }
}

/// The notice for the model about other sessions in the checkout.
pub fn active_session_model_notice(conflicts: &[ActiveSessionRecord], now: u64) -> (r: Option<String>)
    ensures
        crate::text::opt_view(r) == notice_text(conflicts@, now),
{
    if conflicts.len() == 0 {
        return None;
    }
    let first = &conflicts[0];
    let detail = format_session_detail(first, now);
    let subject = if conflicts.len() == 1 {
        to_owned_string("Another write-capable Every Code session is active in this checkout")
    } else {
        let mut s = u64_to_string(conflicts.len() as u64);
        push_str(&mut s, " other write-capable Every Code sessions are active in this checkout");
        s
    };
    let mut s = concat("CONCURRENT CHECKOUT SESSION DETECTED: ", subject.as_str());
    push_str(&mut s, ", including ");
    push_str(&mut s, detail.as_str());
    push_str(&mut s, ", at ");
    push_str(&mut s, first.checkout_root.as_str());
    push_str(
        &mut s,
        ". Treat this checkout as concurrently edited. Prefer doing implementation work in a separate git worktree before modifying files. If you stay in this checkout, re-read target files immediately before editing and keep edits tightly scoped. Do not revert, overwrite, stage, or spend turns cataloging unrelated working-tree changes unless the user explicitly asks. Mention concurrent edits only when they affect the requested task.",
    );
    Some(s)
}

/// A record conflicts with a session: another write-capable session in the
/// same checkout.
pub open spec fn conflicts_with(r: ActiveSessionRecord, session_id: u128, checkout_root: Seq<char>) -> bool {
    r.session_id != session_id && r.checkout_root@ == checkout_root && r.mode == ActiveSessionMode::WriteCapable
}

/// The records of other write-capable sessions in a checkout, in their
/// order.
pub open spec fn conflicts_of(rs: Seq<ActiveSessionRecord>, session_id: u128, checkout_root: Seq<char>) -> Seq<ActiveSessionRecord>
    decreases rs.len(),
{
    if rs.len() == 0 {
        rs
    } else if conflicts_with(rs.last(), session_id, checkout_root) {
        conflicts_of(rs.drop_last(), session_id, checkout_root).push(rs.last())
    } else {
        conflicts_of(rs.drop_last(), session_id, checkout_root)
    }
}

/// Keeps the records of other write-capable sessions in a checkout.
pub fn conflicting_records(records: Vec<ActiveSessionRecord>, session_id: u128, checkout_root: &str) -> (r: Vec<ActiveSessionRecord>)
    ensures
        r@ == conflicts_of(records@, session_id, checkout_root@),
{
    let ghost rs = records@;
    let total = records.len();
    let mut rest = records;
    let mut out: Vec<ActiveSessionRecord> = Vec::new();
    let mut i: usize = 0;
    let ghost n = rs.len();
    proof {
        assert(rs.take(0) =~= Seq::<ActiveSessionRecord>::empty());
    }
    while rest.len() > 0
        invariant
            i + rest@.len() == n,
            n == rs.len(),
            n == total,
            forall|q: int| 0 <= q < rest@.len() ==> #[trigger] rest@[q] == rs[q + i],
            out@ == conflicts_of(rs.take(i as int), session_id, checkout_root@),
        decreases rest@.len(),
    {
        let r = rest.remove(0);
        proof {
            assert(rs.take(i + 1).drop_last() =~= rs.take(i as int));
            assert(rs.take(i + 1).last() == r);
            assert forall|q: int| 0 <= q < rest@.len() implies #[trigger] rest@[q] == rs[q + i + 1] by {}
        }
        if r.session_id != session_id && str_eq(r.checkout_root.as_str(), checkout_root) && r.mode == ActiveSessionMode::WriteCapable {
            out.push(r);
        }
        i = i + 1;
    }
    proof {
        assert(rs.take(n as int) =~= rs);
    }
    out
}

/// Records ordered by process id, then session id.
pub open spec fn record_le(a: ActiveSessionRecord, b: ActiveSessionRecord) -> bool {
    a.pid < b.pid || (a.pid == b.pid && a.session_id <= b.session_id)
}

/// Records in order of process id, then session id.
pub open spec fn records_sorted(s: Seq<ActiveSessionRecord>) -> bool {
    forall|i: int, j: int| 0 <= i < j < s.len() ==> record_le(#[trigger] s[i], #[trigger] s[j])
}

/// The records of `s` with this process and session id, in their order.
pub open spec fn with_key(s: Seq<ActiveSessionRecord>, pid: u32, session_id: u128) -> Seq<ActiveSessionRecord>
    decreases s.len(),
{
    if s.len() == 0 {
        s
    } else if s.last().pid == pid && s.last().session_id == session_id {
        with_key(s.drop_last(), pid, session_id).push(s.last())
    } else {
        with_key(s.drop_last(), pid, session_id)
    }
}

/// Records with the same process and session id keep their order.
pub open spec fn same_key_order(a: Seq<ActiveSessionRecord>, b: Seq<ActiveSessionRecord>) -> bool {
    forall|pid: u32, session_id: u128| #[trigger] with_key(a, pid, session_id) == with_key(b, pid, session_id)
}

proof fn lemma_with_key_concat(a: Seq<ActiveSessionRecord>, b: Seq<ActiveSessionRecord>, pid: u32, session_id: u128)
    ensures
        with_key(a + b, pid, session_id) == with_key(a, pid, session_id) + with_key(b, pid, session_id),
    decreases b.len(),
{
    if b.len() == 0 {
        assert(a + b =~= a);
        assert(with_key(a, pid, session_id) + with_key(b, pid, session_id) =~= with_key(a, pid, session_id));
    } else {
        lemma_with_key_concat(a, b.drop_last(), pid, session_id);
        assert((a + b).drop_last() =~= a + b.drop_last());
        assert((a + b).last() == b.last());
        assert(with_key(a + b, pid, session_id) =~= with_key(a, pid, session_id) + with_key(b, pid, session_id));
    }
}

proof fn lemma_with_key_none(s: Seq<ActiveSessionRecord>, pid: u32, session_id: u128)
    requires
        forall|i: int| 0 <= i < s.len() ==> !(s[i].pid == pid && s[i].session_id == session_id),
    ensures
        with_key(s, pid, session_id) == Seq::<ActiveSessionRecord>::empty(),
    decreases s.len(),
{
    if s.len() > 0 {
        lemma_with_key_none(s.drop_last(), pid, session_id);
    }
}

/// Orders records by process id, then session id; records with the same
/// process and session id keep their order.
pub fn sort_records(records: Vec<ActiveSessionRecord>) -> (r: Vec<ActiveSessionRecord>)
    ensures
        records_sorted(r@),
        r@.to_multiset() == records@.to_multiset(),
        same_key_order(r@, records@),
{
    let ghost rs = records@;
    let total = records.len();
    let mut rest = records;
    let mut out: Vec<ActiveSessionRecord> = Vec::new();
    let mut i: usize = 0;
    let ghost n = rs.len();
    proof {
        assert(rs.take(0) =~= Seq::<ActiveSessionRecord>::empty());
    }
    while rest.len() > 0
        invariant
            i + rest@.len() == n,
            n == rs.len(),
            n == total,
            forall|q: int| 0 <= q < rest@.len() ==> #[trigger] rest@[q] == rs[q + i],
            records_sorted(out@),
            out@.to_multiset() == rs.take(i as int).to_multiset(),
            same_key_order(out@, rs.take(i as int)),
        decreases rest@.len(),
    {
        let r = rest.remove(0);
        proof {
            assert(rs.take(i + 1) =~= rs.take(i as int).push(r));
            assert forall|q: int| 0 <= q < rest@.len() implies #[trigger] rest@[q] == rs[q + i + 1] by {}
        }
        let mut p: usize = 0;
        while p < out.len() && (out[p].pid < r.pid || (out[p].pid == r.pid && out[p].session_id <= r.session_id))
            invariant
                p <= out.len(),
                forall|q: int| 0 <= q < p ==> record_le(#[trigger] out@[q], r),
            decreases out.len() - p,
        {
            p = p + 1;
        }
        let ghost before = out@;
        out.insert(p, r);
        proof {
            assert forall|pid: u32, sid: u128| #[trigger] with_key(out@, pid, sid) == with_key(rs.take(i + 1), pid, sid) by {
                let front = before.take(p as int);
                let back = before.skip(p as int);
                let one = seq![r];
                assert(before =~= front + back);
                assert(out@ =~= (front + one) + back);
                assert(rs.take(i + 1) =~= rs.take(i as int) + one);
                lemma_with_key_concat(front, back, pid, sid);
                lemma_with_key_concat(front + one, back, pid, sid);
                lemma_with_key_concat(front, one, pid, sid);
                lemma_with_key_concat(rs.take(i as int), one, pid, sid);
                assert(one.drop_last() =~= Seq::<ActiveSessionRecord>::empty());
                assert(one.last() == r);
                let wf = with_key(front, pid, sid);
                let wb = with_key(back, pid, sid);
                let wr = with_key(one, pid, sid);
                assert(with_key(before, pid, sid) == with_key(rs.take(i as int), pid, sid));
                assert(with_key(out@, pid, sid) == wf + wr + wb);
                assert(with_key(rs.take(i + 1), pid, sid) == wf + wb + wr);
                if r.pid == pid && r.session_id == sid {
                    assert forall|q: int| 0 <= q < back.len() implies !(back[q].pid == pid && back[q].session_id == sid) by {
                        assert(back[q] == before[p + q]);
                        if back[q].pid == pid && back[q].session_id == sid {
                            assert(record_le(before[p as int], r));
                        }
                    }
                    lemma_with_key_none(back, pid, sid);
                    assert(wf + wr + wb =~= wf + wb + wr);
                } else {
                    assert(with_key(one, pid, sid) == with_key(one.drop_last(), pid, sid));
                    assert(with_key(Seq::<ActiveSessionRecord>::empty(), pid, sid) == Seq::<ActiveSessionRecord>::empty());
                    assert(wr =~= Seq::<ActiveSessionRecord>::empty());
                    assert(wf + wr + wb =~= wf + wb + wr);
                }
            }
            assert forall|a: int, b: int| 0 <= a < b < out@.len() implies record_le(#[trigger] out@[a], #[trigger] out@[b]) by {
                if b < p {
                    assert(out@[a] == before[a] && out@[b] == before[b]);
                } else if b == p {
                    assert(out@[a] == before[a]);
                } else if a == p {
                    assert(out@[b] == before[b - 1]);
                } else if a < p {
                    assert(out@[a] == before[a] && out@[b] == before[b - 1]);
                } else {
                    assert(out@[a] == before[a - 1] && out@[b] == before[b - 1]);
                }
            }
        }
        i = i + 1;
    }
    proof {
        assert(rs.take(n as int) =~= rs);
    }
    out
}

/// The notice about other sessions, with the fingerprint that tells one
/// set of sessions from another.
#[derive(Debug, Clone, PartialEq, Eq)]
pub struct ActiveSessionModelNotice {
    pub fingerprint: String,
    pub message: String,
}

/// The fingerprint of a list of sessions: their components joined by
/// commas.
pub open spec fn fingerprint_of(rs: Seq<ActiveSessionRecord>) -> Seq<char> {
    join_seqs(rs.map_values(|r: ActiveSessionRecord| fingerprint_text(r)), ","@)
}

/// The notice for the model about the other write-capable sessions among
/// `records` in the session's checkout, ordered by process and session id;
/// records with the same ids keep their order.
pub fn model_notice_for_records(records: Vec<ActiveSessionRecord>, session_id: u128, checkout_root: &str, now: u64) -> (r:
    Option<ActiveSessionModelNotice>)
    ensures
        match r {
            None => conflicts_of(records@, session_id, checkout_root@).len() == 0,
            Some(n) => exists|sorted: Seq<ActiveSessionRecord>|
                {
                    &&& records_sorted(sorted)
                    &&& sorted.to_multiset() == conflicts_of(records@, session_id, checkout_root@).to_multiset()
                    &&& same_key_order(sorted, conflicts_of(records@, session_id, checkout_root@))
                    &&& n.fingerprint@ == fingerprint_of(sorted)
                    &&& notice_text(sorted, now) == Some(n.message@)
                },
        },
{
    let conflicts = conflicting_records(records, session_id, checkout_root);
    let sorted = sort_records(conflicts);
    let mut parts: Vec<String> = Vec::new();
    let mut i: usize = 0;
    while i < sorted.len()
        invariant
            i <= sorted.len(),
            strings_view(parts@) == sorted@.take(i as int).map_values(|r: ActiveSessionRecord| fingerprint_text(r)),
        decreases sorted.len() - i,
    {
        let c = sorted[i].fingerprint_component();
        proof {
            assert(sorted@.take(i + 1).map_values(|r: ActiveSessionRecord| fingerprint_text(r)) =~= sorted@.take(
                i as int,
            ).map_values(|r: ActiveSessionRecord| fingerprint_text(r)).push(c@));
        }
        push_line(&mut parts, c);
        i = i + 1;
    }
    proof {
        assert(sorted@.take(sorted.len() as int) =~= sorted@);
    }
    let fingerprint = join_strings(&parts, ",");
    match active_session_model_notice(sorted.as_slice(), now) {
        None => {
            proof {
                assert(sorted@.to_multiset().len() == 0);
            }
            None
        },
        Some(message) => Some(ActiveSessionModelNotice { fingerprint, message }),
    }
}

/// File name of a session's record.
pub open spec fn record_file_name(pid: u32, session_id: u128) -> Seq<char> {
    "pid-"@ + decimal(pid as nat) + "-"@ + uuid_text(session_id) + ".json"@
}

/// Path of a session's record in the records directory.
pub fn record_path(dir: &str, pid: u32, session_id: u128) -> (p: String)
    ensures
        p@ == crate::review_store::path_join(dir@, record_file_name(pid, session_id)),
{
    let mut name = concat("pid-", u64_to_string(pid as u64).as_str());
    push_str(&mut name, "-");
    push_str(&mut name, run_id_text(session_id).as_str());
    push_str(&mut name, ".json");
    crate::review_store::join_path(dir, name.as_str())
}

/// The records directory under the code home.
pub fn active_sessions_dir_path(code_home: &str) -> (p: String)
    ensures
        p@ == crate::review_store::path_join(crate::review_store::path_join(code_home@, "state"@), ACTIVE_SESSIONS_DIR@),
{
    let state = crate::review_store::join_path(code_home, "state");
    crate::review_store::join_path(state.as_str(), ACTIVE_SESSIONS_DIR)
}

/// A record read from disk counts only in the current format.
pub fn read_record(record: ActiveSessionRecord) -> (r: Option<ActiveSessionRecord>)
    ensures
        r == if record.schema_version == SCHEMA_VERSION {
            Some(record)
        } else {
            None
        },
{
    if record.schema_version == SCHEMA_VERSION {
        Some(record)
    } else {
        None
    }
}

/// What becomes of a record once its process has been checked.
#[derive(Debug, Clone, Copy, PartialEq, Eq, Structural)]
pub enum RecordLiveness {
    /// The process runs: the record counts.
    Live,
    /// The process is gone: the record file is removed.
    Stale,
    /// Whether it runs is unknown: the record is left alone.
    Unknown,
}

/// Classifies a record by whether its process is alive.
pub fn record_liveness(alive: Option<bool>) -> (l: RecordLiveness)
    ensures
        l == match alive {
            Some(true) => RecordLiveness::Live,
            Some(false) => RecordLiveness::Stale,
            None => RecordLiveness::Unknown,
        },
{
    match alive {
        Some(true) => RecordLiveness::Live,
        Some(false) => RecordLiveness::Stale,
        None => RecordLiveness::Unknown,
    }
}

/// The output of a git command, trimmed; `None` when nothing is left.
pub fn git_output_value(stdout: &str) -> (r: Option<String>)
    ensures
        crate::text::opt_view(r) == if trimmed(stdout@).len() > 0 {
            Some(trimmed(stdout@))
        } else {
            None::<Seq<char>>
        },
{
    let t = trim_string(stdout);
    if crate::text::to_chars(t.as_str()).len() > 0 {
        Some(t)
    } else {
        None
    }
}

} // verus!
