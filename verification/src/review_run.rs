//! The durable record of one auto review run and its small value types.
use vstd::prelude::*;

use crate::text::{
    all_ascii, ascii_lower_seq, has_prefix, opt_view, parse_usize,
    parse_usize_spec, starts_with, str_eq, to_chars, trim_string, trimmed,
};

verus! {

/// Schema version written into run records.
pub const SCHEMA_VERSION: u32 = 1;

/// Detail size used when the caller names none.
pub const AUTO_REVIEW_DETAIL_DEFAULT_MAX_BYTES: usize = 12_000;

/// Largest detail size a caller may ask for.
pub const AUTO_REVIEW_DETAIL_HARD_MAX_BYTES: usize = 64_000;

/// Byte budget of the compact ledger by default.
pub const DEFAULT_LEDGER_MAX_BYTES: usize = 2_400;

/// Runs listed in the compact ledger by default.
pub const DEFAULT_LEDGER_MAX_RUNS: usize = 5;

/// What started a run.
#[derive(Debug, Clone, Copy, PartialEq, Eq, Structural)]
pub enum AutoReviewRunSource {
    Tui,
    Exec,
    AutoDrive,
}

/// Lifecycle state of a run.
#[derive(Debug, Clone, Copy, PartialEq, Eq, Structural)]
pub enum AutoReviewRunStatus {
    Pending,
    Snapshotting,
    Reviewing,
    Resolving,
    Completed,
    Failed,
    Cancelled,
    Superseded,
    Skipped,
    Lost,
}

/// The status is final.
pub open spec fn is_terminal_spec(s: AutoReviewRunStatus) -> bool {
    match s {
        AutoReviewRunStatus::Completed | AutoReviewRunStatus::Failed
        | AutoReviewRunStatus::Cancelled | AutoReviewRunStatus::Superseded
        | AutoReviewRunStatus::Skipped | AutoReviewRunStatus::Lost => true,
        _ => false,
    }
}

/// A run in this status may be adopted by a duplicate request.
pub open spec fn is_adoptable_spec(s: AutoReviewRunStatus) -> bool {
    s == AutoReviewRunStatus::Reviewing || s == AutoReviewRunStatus::Resolving
}

impl AutoReviewRunStatus {
    /// The run has finished, one way or another.
    pub fn is_terminal(self) -> (b: bool)
        ensures
            b == is_terminal_spec(self),
    {
        match self {
            AutoReviewRunStatus::Completed | AutoReviewRunStatus::Failed
            | AutoReviewRunStatus::Cancelled | AutoReviewRunStatus::Superseded
            | AutoReviewRunStatus::Skipped | AutoReviewRunStatus::Lost => true,
            _ => false,
        }
    }

    /// The run has not finished yet.
    pub fn is_in_flight(self) -> (b: bool)
        ensures
            b == !is_terminal_spec(self),
    {
        !self.is_terminal()
    }

    /// A duplicate request can attach to this running review.
    pub fn is_adoptable_duplicate(self) -> (b: bool)
        ensures
            b == is_adoptable_spec(self),
    {
        match self {
            AutoReviewRunStatus::Reviewing | AutoReviewRunStatus::Resolving => true,
            _ => false,
        }
    }
}

/// How recent or relevant a run is.
#[derive(Debug, Clone, Copy, PartialEq, Eq, Structural)]
pub enum AutoReviewFreshness {
    Current,
    LongRunning,
    Inactive,
    Superseded,
    Obsolete,
    Lost,
    Unknown,
}

/// Whether a run's findings apply to the active checkout.
#[derive(Debug, Clone, Copy, PartialEq, Eq, Structural)]
pub enum AutoReviewTargetApplicability {
    MatchingHead,
    OlderSnapshot,
    DetachedReviewWorktree,
    Unknown,
}

/// The ledger word of a target applicability.
pub open spec fn target_word(t: AutoReviewTargetApplicability) -> Seq<char> {
    match t {
        AutoReviewTargetApplicability::MatchingHead => "matching_head"@,
        AutoReviewTargetApplicability::OlderSnapshot => "older_snapshot"@,
        AutoReviewTargetApplicability::DetachedReviewWorktree => "detached_review_worktree"@,
        AutoReviewTargetApplicability::Unknown => "unknown"@,
    }
}

impl AutoReviewTargetApplicability {
    /// The word the ledger prints for this value.
    pub fn as_ledger_value(self) -> (s: &'static str)
        ensures
            s@ == target_word(self),
    {
        match self {
            AutoReviewTargetApplicability::MatchingHead => "matching_head",
            AutoReviewTargetApplicability::OlderSnapshot => "older_snapshot",
            AutoReviewTargetApplicability::DetachedReviewWorktree => "detached_review_worktree",
            AutoReviewTargetApplicability::Unknown => "unknown",
        }
    }
}

/// `Debug` name of a run source.
pub open spec fn source_word(s: AutoReviewRunSource) -> Seq<char> {
    match s {
        AutoReviewRunSource::Tui => "Tui"@,
        AutoReviewRunSource::Exec => "Exec"@,
        AutoReviewRunSource::AutoDrive => "AutoDrive"@,
    }
}

/// `Debug` name of a run source.
pub fn source_name(s: AutoReviewRunSource) -> (r: &'static str)
    ensures
        r@ == source_word(s),
{
    match s {
        AutoReviewRunSource::Tui => "Tui",
        AutoReviewRunSource::Exec => "Exec",
        AutoReviewRunSource::AutoDrive => "AutoDrive",
    }
}

/// `Debug` name of a run status.
pub open spec fn status_word(s: AutoReviewRunStatus) -> Seq<char> {
    match s {
        AutoReviewRunStatus::Pending => "Pending"@,
        AutoReviewRunStatus::Snapshotting => "Snapshotting"@,
        AutoReviewRunStatus::Reviewing => "Reviewing"@,
        AutoReviewRunStatus::Resolving => "Resolving"@,
        AutoReviewRunStatus::Completed => "Completed"@,
        AutoReviewRunStatus::Failed => "Failed"@,
        AutoReviewRunStatus::Cancelled => "Cancelled"@,
        AutoReviewRunStatus::Superseded => "Superseded"@,
        AutoReviewRunStatus::Skipped => "Skipped"@,
        AutoReviewRunStatus::Lost => "Lost"@,
    }
}

/// `Debug` name of a run status.
pub fn status_name(s: AutoReviewRunStatus) -> (r: &'static str)
    ensures
        r@ == status_word(s),
{
    match s {
        AutoReviewRunStatus::Pending => "Pending",
        AutoReviewRunStatus::Snapshotting => "Snapshotting",
        AutoReviewRunStatus::Reviewing => "Reviewing",
        AutoReviewRunStatus::Resolving => "Resolving",
        AutoReviewRunStatus::Completed => "Completed",
        AutoReviewRunStatus::Failed => "Failed",
        AutoReviewRunStatus::Cancelled => "Cancelled",
        AutoReviewRunStatus::Superseded => "Superseded",
        AutoReviewRunStatus::Skipped => "Skipped",
        AutoReviewRunStatus::Lost => "Lost",
    }
}

/// `Debug` name of a freshness value.
pub open spec fn freshness_word(f: AutoReviewFreshness) -> Seq<char> {
    match f {
        AutoReviewFreshness::Current => "Current"@,
        AutoReviewFreshness::LongRunning => "LongRunning"@,
        AutoReviewFreshness::Inactive => "Inactive"@,
        AutoReviewFreshness::Superseded => "Superseded"@,
        AutoReviewFreshness::Obsolete => "Obsolete"@,
        AutoReviewFreshness::Lost => "Lost"@,
        AutoReviewFreshness::Unknown => "Unknown"@,
    }
}

/// `Debug` name of a freshness value.
pub fn freshness_name(f: AutoReviewFreshness) -> (r: &'static str)
    ensures
        r@ == freshness_word(f),
{
    match f {
        AutoReviewFreshness::Current => "Current",
        AutoReviewFreshness::LongRunning => "LongRunning",
        AutoReviewFreshness::Inactive => "Inactive",
        AutoReviewFreshness::Superseded => "Superseded",
        AutoReviewFreshness::Obsolete => "Obsolete",
        AutoReviewFreshness::Lost => "Lost",
        AutoReviewFreshness::Unknown => "Unknown",
    }
}

/// A short record of one finding, kept in the run ledger.
#[derive(Debug, Clone)]
pub struct AutoReviewFindingDigest {
    pub finding_id: String,
    pub priority: i32,
    pub title: String,
    pub path: Option<String>,
    pub line_start: Option<u32>,
    pub line_end: Option<u32>,
}

/// The durable record of one auto review run. Run ids are 128-bit values
/// (the bits of a UUID); paths are held as text.
#[derive(Debug, Clone)]
pub struct AutoReviewRun {
    pub schema_version: u32,
    pub run_id: u128,
    pub source: AutoReviewRunSource,
    pub status: AutoReviewRunStatus,
    pub freshness: AutoReviewFreshness,
    pub created_at: u64,
    pub updated_at: u64,
    pub started_at: Option<u64>,
    pub completed_at: Option<u64>,
    pub last_activity_at: Option<u64>,
    pub owner_session_id: Option<u128>,
    pub agent_id: Option<String>,
    pub batch_id: Option<String>,
    pub branch: Option<String>,
    pub worktree_path: Option<String>,
    pub base_commit: Option<String>,
    pub snapshot_commit: Option<String>,
    pub snapshot_epoch: Option<u64>,
    pub head_at_launch: Option<String>,
    pub scope_hash: Option<String>,
    pub diff_fingerprint: Option<String>,
    pub prompt_policy_version: Option<String>,
    pub changed_path_count: usize,
    pub listed_paths: Vec<String>,
    pub omitted_path_count: usize,
    pub model: Option<String>,
    pub reasoning_effort: Option<String>,
    pub prompt_token_estimate: Option<u64>,
    pub token_count: Option<u64>,
    pub saved_token_estimate: Option<u64>,
    pub finding_count: usize,
    pub finding_digests: Vec<AutoReviewFindingDigest>,
    pub omitted_finding_digest_count: usize,
    pub summary_digest: Option<String>,
    pub superseded_by: Option<u128>,
    pub cancel_reason: Option<String>,
    pub error_class: Option<String>,
    pub error_summary: Option<String>,
    pub output_path: Option<String>,
}

/// `r` is a freshly created run.
pub open spec fn is_new_run(r: AutoReviewRun, run_id: u128, source: AutoReviewRunSource, now: u64) -> bool {
    &&& r.schema_version == SCHEMA_VERSION
    &&& r.run_id == run_id
    &&& r.source == source
    &&& r.status == AutoReviewRunStatus::Pending
    &&& r.freshness == AutoReviewFreshness::Unknown
    &&& r.created_at == now
    &&& r.updated_at == now
    &&& r.started_at is None
    &&& r.completed_at is None
    &&& r.last_activity_at is None
    &&& r.owner_session_id is None
    &&& r.agent_id is None
    &&& r.batch_id is None
    &&& r.branch is None
    &&& r.worktree_path is None
    &&& r.base_commit is None
    &&& r.snapshot_commit is None
    &&& r.snapshot_epoch is None
    &&& r.head_at_launch is None
    &&& r.scope_hash is None
    &&& r.diff_fingerprint is None
    &&& r.prompt_policy_version is None
    &&& r.changed_path_count == 0
    &&& r.listed_paths@.len() == 0
    &&& r.omitted_path_count == 0
    &&& r.model is None
    &&& r.reasoning_effort is None
    &&& r.prompt_token_estimate is None
    &&& r.token_count is None
    &&& r.saved_token_estimate is None
    &&& r.finding_count == 0
    &&& r.finding_digests@.len() == 0
    &&& r.omitted_finding_digest_count == 0
    &&& r.summary_digest is None
    &&& r.superseded_by is None
    &&& r.cancel_reason is None
    &&& r.error_class is None
    &&& r.error_summary is None
    &&& r.output_path is None
}

/// The run after `mark_status(status, now)`.
pub open spec fn marked_status(r: AutoReviewRun, status: AutoReviewRunStatus, now: u64) -> AutoReviewRun {
    AutoReviewRun {
        status,
        updated_at: now,
        completed_at: if is_terminal_spec(status) && r.completed_at is None {
            Some(now)
        } else {
            r.completed_at
        },
        ..r
    }
}

/// The run after `mark_activity(now)`.
pub open spec fn marked_activity(r: AutoReviewRun, now: u64) -> AutoReviewRun {
    AutoReviewRun {
        last_activity_at: Some(now),
        updated_at: now,
        started_at: if r.started_at is None {
            Some(now)
        } else {
            r.started_at
        },
        ..r
    }
}

impl AutoReviewRun {
    /// A new pending run with no recorded details.
    pub fn new(run_id: u128, source: AutoReviewRunSource, now: u64) -> (r: Self)
        ensures
            is_new_run(r, run_id, source, now),
    {
        AutoReviewRun {
            schema_version: SCHEMA_VERSION,
            run_id,
            source,
            status: AutoReviewRunStatus::Pending,
            freshness: AutoReviewFreshness::Unknown,
            created_at: now,
            updated_at: now,
            started_at: None,
            completed_at: None,
            last_activity_at: None,
            owner_session_id: None,
            agent_id: None,
            batch_id: None,
            branch: None,
            worktree_path: None,
            base_commit: None,
            snapshot_commit: None,
            snapshot_epoch: None,
            head_at_launch: None,
            scope_hash: None,
            diff_fingerprint: None,
            prompt_policy_version: None,
            changed_path_count: 0,
            listed_paths: Vec::new(),
            omitted_path_count: 0,
            model: None,
            reasoning_effort: None,
            prompt_token_estimate: None,
            token_count: None,
            saved_token_estimate: None,
            finding_count: 0,
            finding_digests: Vec::new(),
            omitted_finding_digest_count: 0,
            summary_digest: None,
            superseded_by: None,
            cancel_reason: None,
            error_class: None,
            error_summary: None,
            output_path: None,
        }
    }

    /// Moves the run to `status` at time `now`; the first terminal status
    /// also records the completion time.
    pub fn mark_status(&mut self, status: AutoReviewRunStatus, now: u64)
        ensures
            *final(self) == marked_status(*old(self), status, now),
    {
        self.status = status;
        self.updated_at = now;
        if status.is_terminal() && self.completed_at.is_none() {
            self.completed_at = Some(now);
        }
    }

    /// Records agent activity at time `now`; the first activity also records
    /// the start time.
    pub fn mark_activity(&mut self, now: u64)
        ensures
            *final(self) == marked_activity(*old(self), now),
    {
        self.last_activity_at = Some(now);
        self.updated_at = now;
        if self.started_at.is_none() {
            self.started_at = Some(now);
        }
    }
}

/// How a duplicate request should treat an earlier run of the same scope.
#[derive(Debug, Clone, Copy, PartialEq, Eq, Structural)]
pub enum AutoReviewDuplicateDisposition {
    Adopt,
    ReuseTerminal,
    SupersedeTerminal,
}

/// An earlier run that matches a new request's diff fingerprint.
#[derive(Debug, Clone)]
pub struct AutoReviewDuplicateMatch {
    pub run_id: u128,
    pub status: AutoReviewRunStatus,
    pub disposition: AutoReviewDuplicateDisposition,
    pub agent_id: Option<String>,
    pub snapshot_commit: Option<String>,
    pub owner_session_id: Option<u128>,
    pub worktree_path: Option<String>,
    pub branch: Option<String>,
    pub finding_count: usize,
    pub summary_digest: Option<String>,
    pub token_count: Option<u64>,
    pub prompt_token_estimate: Option<u64>,
}

/// Options of the compact ledger.
#[derive(Debug, Clone)]
pub struct AutoReviewLedgerOptions {
    pub max_bytes: usize,
    pub max_runs: usize,
    pub now: u64,
    pub active_branch: Option<String>,
    pub active_head: Option<String>,
}

/// The trimmed text when it is not empty.
pub open spec fn non_empty_of(s: Seq<char>) -> Option<Seq<char>> {
    if trimmed(s).len() == 0 {
        None
    } else {
        Some(trimmed(s))
    }
}

/// Trims `value` and keeps it when something is left.
pub fn non_empty_string(value: String) -> (r: Option<String>)
    ensures
        opt_view(r) == non_empty_of(value@),
{
    let t = trim_string(value.as_str());
    if t.as_str().is_empty() {
        None
    } else {
        Some(t)
    }
}

/// Trims `value` and keeps it when something is left.
pub fn non_empty_str(value: &str) -> (r: Option<String>)
    ensures
        opt_view(r) == non_empty_of(value@),
{
    let t = trim_string(value);
    if t.as_str().is_empty() {
        None
    } else {
        Some(t)
    }
}

/// Optional text that is kept only when non-blank after trimming.
pub open spec fn opt_non_empty(s: Option<String>) -> Option<Seq<char>> {
    match s {
        Some(x) => non_empty_of(x@),
        None => None,
    }
}

impl AutoReviewLedgerOptions {
    /// Default options for a ledger built at time `now`.
    pub fn new(now: u64) -> (o: Self)
        ensures
            o.max_bytes == DEFAULT_LEDGER_MAX_BYTES,
            o.max_runs == DEFAULT_LEDGER_MAX_RUNS,
            o.now == now,
            o.active_branch is None,
            o.active_head is None,
    {
        AutoReviewLedgerOptions {
            max_bytes: DEFAULT_LEDGER_MAX_BYTES,
            max_runs: DEFAULT_LEDGER_MAX_RUNS,
            now,
            active_branch: None,
            active_head: None,
        }
    }

    /// Sets the active branch and head, dropping blank values and trimming
    /// the others.
    pub fn with_active_target(self, active_branch: Option<String>, active_head: Option<String>) -> (o: Self)
        ensures
            o.max_bytes == self.max_bytes,
            o.max_runs == self.max_runs,
            o.now == self.now,
            opt_view(o.active_branch) == opt_non_empty(active_branch),
            opt_view(o.active_head) == opt_non_empty(active_head),
    {
        let branch = match active_branch {
            Some(b) => non_empty_string(b),
            None => None,
        };
        let head = match active_head {
            Some(h) => non_empty_string(h),
            None => None,
        };
        AutoReviewLedgerOptions { active_branch: branch, active_head: head, ..self }
    }
}

/// The default byte budget of a detail lookup.
pub fn default_auto_review_detail_max_bytes() -> (n: usize)
    ensures
        n == AUTO_REVIEW_DETAIL_DEFAULT_MAX_BYTES,
{
    AUTO_REVIEW_DETAIL_DEFAULT_MAX_BYTES
}

/// The largest byte budget a detail lookup accepts.
pub fn hard_auto_review_detail_max_bytes() -> (n: usize)
    ensures
        n == AUTO_REVIEW_DETAIL_HARD_MAX_BYTES,
{
    AUTO_REVIEW_DETAIL_HARD_MAX_BYTES
}

/// The byte budget a detail lookup uses for the requested one.
pub open spec fn normalized_max_bytes(max_bytes: Option<usize>) -> usize {
    let m = match max_bytes {
        Some(m) => m,
        None => AUTO_REVIEW_DETAIL_DEFAULT_MAX_BYTES,
    };
    if m < 1 {
        1
    } else if m > AUTO_REVIEW_DETAIL_HARD_MAX_BYTES {
        AUTO_REVIEW_DETAIL_HARD_MAX_BYTES
    } else {
        m
    }
}

/// Clamps a requested detail budget to `1..=64_000`, defaulting to 12 000.
pub fn normalize_detail_max_bytes(max_bytes: Option<usize>) -> (n: usize)
    ensures
        n == normalized_max_bytes(max_bytes),
        1 <= n <= AUTO_REVIEW_DETAIL_HARD_MAX_BYTES,
{
    let m = match max_bytes {
        Some(m) => m,
        None => AUTO_REVIEW_DETAIL_DEFAULT_MAX_BYTES,
    };
    if m < 1 {
        1
    } else if m > AUTO_REVIEW_DETAIL_HARD_MAX_BYTES {
        AUTO_REVIEW_DETAIL_HARD_MAX_BYTES
    } else {
        m
    }
}

/// The zero-based finding index that a stable id such as `f3` names.
pub open spec fn finding_index_of(id: Seq<char>) -> Option<usize> {
    if id.len() > 0 && id[0] == 'f' {
        match parse_usize_spec(id.drop_first()) {
            Some(n) => if n >= 1 {
                Some((n - 1) as usize)
            } else {
                None
            },
            None => None,
        }
    } else {
        None
    }
}

/// Parses a stable finding id such as `f3` into a zero-based index.
pub fn parse_finding_id(finding_id: &str) -> (r: Option<usize>)
    ensures
        r == finding_index_of(finding_id@),
{
    let v = to_chars(finding_id);
    if v.len() == 0 || v[0] != 'f' {
        return None;
    }
    let rest = crate::text::from_chars_range(&v, 1, v.len());
    proof {
        assert(rest@ =~= finding_id@.drop_first());
    }
    match parse_usize(rest.as_str()) {
        Some(n) => n.checked_sub(1),
        None => None,
    }
}

/// Whether a branch name is one of the detached auto review branches.
pub open spec fn is_auto_review_branch_spec(v: Seq<char>) -> bool {
    v == "auto-review"@ || has_prefix(v, "auto-review-"@)
}

/// Whether a branch name is one of the detached auto review branches.
pub fn is_auto_review_branch(value: &str) -> (b: bool)
    ensures
        b == is_auto_review_branch_spec(value@),
{
    str_eq(value, "auto-review") || starts_with(value, "auto-review-")
}

/// Two commit ids agree on their common prefix (of at least seven ASCII
/// characters), ignoring ASCII case; surrounding white space is ignored.
pub open spec fn same_commit_prefix_spec(left: Seq<char>, right: Seq<char>) -> bool {
    let l = trimmed(left);
    let r = trimmed(right);
    let m = if l.len() <= r.len() {
        l.len()
    } else {
        r.len()
    };
    all_ascii(l) && all_ascii(r) && m >= 7 && ascii_lower_seq(l.take(m as int)) == ascii_lower_seq(
        r.take(m as int),
    )
}

fn chars_ascii(v: &Vec<char>) -> (b: bool)
    ensures
        b == all_ascii(v@),
{
    let mut i: usize = 0;
    while i < v.len()
        invariant
            i <= v.len(),
            forall|j: int| 0 <= j < i ==> (v@[j] as u32) < 128,
        decreases v.len() - i,
    {
        if (v[i] as u32) >= 128 {
            return false;
        }
        i = i + 1;
    }
    true
}

/// Whether two commit ids name the same commit by their common prefix.
pub fn same_commit_prefix(left: &str, right: &str) -> (b: bool)
    ensures
        b == same_commit_prefix_spec(left@, right@),
{
    let l = to_chars(trim_string(left).as_str());
    let r = to_chars(trim_string(right).as_str());
    if !chars_ascii(&l) || !chars_ascii(&r) {
        return false;
    }
    let m = if l.len() <= r.len() {
        l.len()
    } else {
        r.len()
    };
    if m < 7 {
        return false;
    }
    let mut i: usize = 0;
    while i < m
        invariant
            i <= m <= l.len(),
            m <= r.len(),
            l@ == trimmed(left@),
            r@ == trimmed(right@),
            m == (if l@.len() <= r@.len() { l@.len() } else { r@.len() }),
            all_ascii(l@),
            all_ascii(r@),
            forall|j: int| 0 <= j < i ==> crate::text::ascii_lower(l@[j]) == crate::text::ascii_lower(r@[j]),
        decreases m - i,
    {
        if crate::text::to_ascii_lower(l[i]) != crate::text::to_ascii_lower(r[i]) {
            proof {
                let a = ascii_lower_seq(l@.take(m as int));
                let b = ascii_lower_seq(r@.take(m as int));
                assert(a[i as int] == crate::text::ascii_lower(l@[i as int]));
                assert(b[i as int] == crate::text::ascii_lower(r@[i as int]));
                assert(a != b);
                assert(l@ == trimmed(left@));
                assert(r@ == trimmed(right@));
            }
            return false;
        }
        i = i + 1;
    }
    proof {
        assert(ascii_lower_seq(l@.take(m as int)) =~= ascii_lower_seq(r@.take(m as int)));
    }
    true
}

} // verus!
