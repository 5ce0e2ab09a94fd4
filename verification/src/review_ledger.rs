//! The compact auto review ledger: a bounded text block that lists the runs
//! that matter for the active checkout, with optional cost diagnostics.
use vstd::prelude::*;

use crate::review_detail::{lemma_ascii_byte_len, run_id_text, uuid_text};
use crate::review_run::{
    AutoReviewFindingDigest, AutoReviewFreshness, AutoReviewLedgerOptions, AutoReviewRun,
    AutoReviewRunStatus, AutoReviewTargetApplicability, freshness_name, freshness_word,
    is_auto_review_branch, is_auto_review_branch_spec, is_terminal_spec, non_empty_of,
    non_empty_str, same_commit_prefix, same_commit_prefix_spec, source_name, source_word,
    status_name, status_word, target_word,
};
use crate::text::{
    byte_len, chars_within, decimal, from_chars_range, join_seqs, join_strings,
    lemma_byte_len_concat, lemma_chars_within, opt_view, push_str, single_line, single_line_of,
    str_byte_len, str_eq, strings_view, to_chars, to_owned_string, trimmed, u64_to_string,
    usize_to_string,
};

verus! {

/// Terminal runs with findings or errors stay listed this long.
pub const LEDGER_RECENT_ACTIONABLE_SECS: u64 = 86_400;

/// In-flight runs stay listed this long after their last activity.
pub const LEDGER_IN_FLIGHT_ACTIVITY_SECS: u64 = 3_600;

/// Findings listed per run.
pub const LEDGER_MAX_FINDINGS_PER_RUN: usize = 3;

/// Runs count toward diagnostics this long.
pub const LEDGER_DIAGNOSTIC_RECENT_SECS: u64 = 86_400;

/// Token count at which a run counts as high burn.
pub const LEDGER_HIGH_TOKEN_COUNT: u64 = 20_000;

/// Prompt estimate at which a run counts as high burn.
pub const LEDGER_HIGH_PROMPT_ESTIMATE: u64 = 20_000;

/// Elapsed time at which a run counts as long.
pub const LEDGER_LONG_ELAPSED_SECS: u64 = 900;

/// `a - b`, or zero when `b > a`.
pub open spec fn sat_sub(a: u64, b: u64) -> u64 {
    if a >= b {
        (a - b) as u64
    } else {
        0
    }
}

/// `a + b`, capped at `u64::MAX`.
pub open spec fn sat_add(a: u64, b: u64) -> u64 {
    if a + b > u64::MAX {
        u64::MAX
    } else {
        (a + b) as u64
    }
}

/// The optional text, trimmed, when something is left.
pub open spec fn opt_trimmed(s: Option<String>) -> Option<Seq<char>> {
    match s {
        Some(x) => non_empty_of(x@),
        None => None,
    }
}

/// Whether a run's findings apply to the active checkout (branch and head
/// are the active values, already trimmed and non-empty when present).
pub open spec fn applicability_spec(
    run: AutoReviewRun,
    active_branch: Option<Seq<char>>,
    active_head: Option<Seq<char>>,
) -> AutoReviewTargetApplicability {
    let head = match active_head {
        Some(h) => non_empty_of(h),
        None => None,
    };
    let branch = match active_branch {
        Some(b) => non_empty_of(b),
        None => None,
    };
    let snapshot = opt_trimmed(run.snapshot_commit);
    let launch = opt_trimmed(run.head_at_launch);
    let review_branch = opt_trimmed(run.branch);
    if snapshot is Some && head is Some && same_commit_prefix_spec(snapshot.unwrap(), head.unwrap()) {
        AutoReviewTargetApplicability::MatchingHead
    } else if launch is Some && head is Some && same_commit_prefix_spec(launch.unwrap(), head.unwrap()) {
        AutoReviewTargetApplicability::MatchingHead
    } else if head is Some && review_branch is Some && is_auto_review_branch_spec(review_branch.unwrap())
        && review_branch != branch {
        AutoReviewTargetApplicability::DetachedReviewWorktree
    } else if snapshot is Some && head is Some {
        AutoReviewTargetApplicability::OlderSnapshot
    } else if launch is Some && head is Some {
        AutoReviewTargetApplicability::OlderSnapshot
    } else {
        AutoReviewTargetApplicability::Unknown
    }
}

fn opt_non_empty(s: &Option<String>) -> (r: Option<String>)
    ensures
        opt_view(r) == opt_trimmed(*s),
{
    match s {
        Some(x) => non_empty_str(x.as_str()),
        None => None,
    }
}

fn opt_str_non_empty(s: Option<&str>) -> (r: Option<String>)
    ensures
        opt_view(r) == match s {
            Some(x) => non_empty_of(x@),
            None => None,
        },
{
    match s {
        Some(x) => non_empty_str(x),
        None => None,
    }
}

fn opt_eq(a: &Option<String>, b: &Option<String>) -> (r: bool)
    ensures
        r == (opt_view(*a) == opt_view(*b)),
{
    match (a, b) {
        (Some(x), Some(y)) => str_eq(x.as_str(), y.as_str()),
        (None, None) => true,
        _ => false,
    }
}

/// Whether the findings of `run` apply to the checkout at `active_head` on
/// `active_branch`.
pub fn auto_review_target_applicability(
    run: &AutoReviewRun,
    active_branch: Option<&str>,
    active_head: Option<&str>,
) -> (t: AutoReviewTargetApplicability)
    ensures
        t == applicability_spec(
            *run,
            match active_branch {
                Some(b) => Some(b@),
                None => None,
            },
            match active_head {
                Some(h) => Some(h@),
                None => None,
            },
        ),
{
    let head = opt_str_non_empty(active_head);
    let branch = opt_str_non_empty(active_branch);
    let snapshot = opt_non_empty(&run.snapshot_commit);
    let launch = opt_non_empty(&run.head_at_launch);
    if let (Some(s), Some(h)) = (&snapshot, &head) {
        if same_commit_prefix(s.as_str(), h.as_str()) {
            return AutoReviewTargetApplicability::MatchingHead;
        }
    }
    if let (Some(l), Some(h)) = (&launch, &head) {
        if same_commit_prefix(l.as_str(), h.as_str()) {
            return AutoReviewTargetApplicability::MatchingHead;
        }
    }
    let review_branch = opt_non_empty(&run.branch);
    let detached = match &review_branch {
        Some(b) => is_auto_review_branch(b.as_str()),
        None => false,
    };
    if head.is_some() && detached && !opt_eq(&review_branch, &branch) {
        return AutoReviewTargetApplicability::DetachedReviewWorktree;
    }
    if snapshot.is_some() && head.is_some() {
        return AutoReviewTargetApplicability::OlderSnapshot;
    }
    if launch.is_some() && head.is_some() {
        return AutoReviewTargetApplicability::OlderSnapshot;
    }
    AutoReviewTargetApplicability::Unknown
}

/// Applicability of a run under the ledger options.
pub open spec fn run_target(run: AutoReviewRun, o: AutoReviewLedgerOptions) -> AutoReviewTargetApplicability {
    applicability_spec(run, opt_view(o.active_branch), opt_view(o.active_head))
}

fn run_target_applicability(run: &AutoReviewRun, o: &AutoReviewLedgerOptions) -> (t: AutoReviewTargetApplicability)
    ensures
        t == run_target(*run, *o),
{
    let b = match &o.active_branch {
        Some(x) => Some(x.as_str()),
        None => None,
    };
    let h = match &o.active_head {
        Some(x) => Some(x.as_str()),
        None => None,
    };
    auto_review_target_applicability(run, b, h)
}

/// The target is known not to match the active checkout.
pub open spec fn stale_target(t: AutoReviewTargetApplicability) -> bool {
    t == AutoReviewTargetApplicability::OlderSnapshot || t
        == AutoReviewTargetApplicability::DetachedReviewWorktree
}

/// The run has findings (a count or digests).
pub open spec fn has_findings(run: AutoReviewRun) -> bool {
    run.finding_count > 0 || run.finding_digests@.len() > 0
}

/// Whether the ledger lists `run` at time `o.now`.
pub open spec fn actionable_spec(run: AutoReviewRun, o: AutoReviewLedgerOptions) -> bool {
    if !is_terminal_spec(run.status) {
        let reference = match run.last_activity_at {
            Some(t) => t,
            None => run.updated_at,
        };
        sat_sub(o.now, reference) <= LEDGER_IN_FLIGHT_ACTIVITY_SECS || run.freshness
            == AutoReviewFreshness::Current || run.freshness == AutoReviewFreshness::LongRunning
    } else if run.status == AutoReviewRunStatus::Lost || run.status == AutoReviewRunStatus::Superseded
        || run.status == AutoReviewRunStatus::Skipped {
        false
    } else if !(has_findings(run) || run.error_summary is Some || run.error_class is Some) {
        false
    } else if stale_target(run_target(run, o)) {
        false
    } else {
        let reference = match run.completed_at {
            Some(t) => t,
            None => match run.last_activity_at {
                Some(t) => t,
                None => run.updated_at,
            },
        };
        sat_sub(o.now, reference) <= LEDGER_RECENT_ACTIONABLE_SECS
    }
}

fn run_is_ledger_actionable(run: &AutoReviewRun, o: &AutoReviewLedgerOptions) -> (b: bool)
    ensures
        b == actionable_spec(*run, *o),
{
    let now = o.now;
    if run.status.is_in_flight() {
        let reference = match run.last_activity_at {
            Some(t) => t,
            None => run.updated_at,
        };
        return now.saturating_sub(reference) <= LEDGER_IN_FLIGHT_ACTIVITY_SECS
            || run.freshness == AutoReviewFreshness::Current
            || run.freshness == AutoReviewFreshness::LongRunning;
    }
    if run.status == AutoReviewRunStatus::Lost || run.status == AutoReviewRunStatus::Superseded
        || run.status == AutoReviewRunStatus::Skipped {
        return false;
    }
    let terminal_actionable = run.finding_count > 0 || run.finding_digests.len() > 0
        || run.error_summary.is_some() || run.error_class.is_some();
    if !terminal_actionable {
        return false;
    }
    let t = run_target_applicability(run, o);
    if t == AutoReviewTargetApplicability::OlderSnapshot || t
        == AutoReviewTargetApplicability::DetachedReviewWorktree {
        return false;
    }
    let reference = match run.completed_at {
        Some(t) => t,
        None => match run.last_activity_at {
            Some(t) => t,
            None => run.updated_at,
        },
    };
    now.saturating_sub(reference) <= LEDGER_RECENT_ACTIONABLE_SECS
}

/// Age bucket of a duration in seconds.
pub open spec fn bucket_word(seconds: u64) -> Seq<char> {
    if seconds <= 59 {
        "lt1m"@
    } else if seconds <= 299 {
        "lt5m"@
    } else if seconds <= 899 {
        "lt15m"@
    } else if seconds <= 1799 {
        "lt30m"@
    } else if seconds <= 3599 {
        "lt1h"@
    } else if seconds <= 7199 {
        "lt2h"@
    } else {
        "gte2h"@
    }
}

/// Position of an age bucket, shortest first.
pub open spec fn bucket_rank(seconds: u64) -> nat {
    if seconds <= 59 {
        0
    } else if seconds <= 299 {
        1
    } else if seconds <= 899 {
        2
    } else if seconds <= 1799 {
        3
    } else if seconds <= 3599 {
        4
    } else if seconds <= 7199 {
        5
    } else {
        6
    }
}

/// The age bucket word of a rank.
pub open spec fn rank_word(r: nat) -> Seq<char> {
    if r == 0 {
        "lt1m"@
    } else if r == 1 {
        "lt5m"@
    } else if r == 2 {
        "lt15m"@
    } else if r == 3 {
        "lt30m"@
    } else if r == 4 {
        "lt1h"@
    } else if r == 5 {
        "lt2h"@
    } else {
        "gte2h"@
    }
}

/// Age bucket of a duration in seconds.
pub fn duration_bucket(seconds: u64) -> (s: &'static str)
    ensures
        s@ == bucket_word(seconds),
        s@ == rank_word(bucket_rank(seconds)),
{
    if seconds <= 59 {
        "lt1m"
    } else if seconds <= 299 {
        "lt5m"
    } else if seconds <= 899 {
        "lt15m"
    } else if seconds <= 1799 {
        "lt30m"
    } else if seconds <= 3599 {
        "lt1h"
    } else if seconds <= 7199 {
        "lt2h"
    } else {
        "gte2h"
    }
}

fn bucket_rank_of(seconds: u64) -> (r: u8)
    ensures
        r == bucket_rank(seconds),
{
    if seconds <= 59 {
        0
    } else if seconds <= 299 {
        1
    } else if seconds <= 899 {
        2
    } else if seconds <= 1799 {
        3
    } else if seconds <= 3599 {
        4
    } else if seconds <= 7199 {
        5
    } else {
        6
    }
}

fn rank_text(r: u8) -> (s: &'static str)
    ensures
        s@ == rank_word(r as nat),
{
    if r == 0 {
        "lt1m"
    } else if r == 1 {
        "lt5m"
    } else if r == 2 {
        "lt15m"
    } else if r == 3 {
        "lt30m"
    } else if r == 4 {
        "lt1h"
    } else if r == 5 {
        "lt2h"
    } else {
        "gte2h"
    }
}

/// Time a run has taken: from its start (or first activity, or creation)
/// to its completion, to `now` while in flight, or to its last update.
pub open spec fn elapsed_spec(run: AutoReviewRun, now: u64) -> u64 {
    let start = match run.started_at {
        Some(t) => t,
        None => match run.last_activity_at {
            Some(t) => t,
            None => run.created_at,
        },
    };
    let end = match run.completed_at {
        Some(t) => t,
        None => if !is_terminal_spec(run.status) {
            now
        } else {
            run.updated_at
        },
    };
    sat_sub(end, start)
}

fn run_elapsed_secs(run: &AutoReviewRun, now: u64) -> (e: u64)
    ensures
        e == elapsed_spec(*run, now),
{
    let start = match run.started_at {
        Some(t) => t,
        None => match run.last_activity_at {
            Some(t) => t,
            None => run.created_at,
        },
    };
    let end = match run.completed_at {
        Some(t) => t,
        None => if run.status.is_in_flight() {
            now
        } else {
            run.updated_at
        },
    };
    end.saturating_sub(start)
}

/// The run took long, and is finished or still believed live.
pub open spec fn long_elapsed_spec(run: AutoReviewRun, elapsed: u64) -> bool {
    elapsed >= LEDGER_LONG_ELAPSED_SECS && (is_terminal_spec(run.status) || run.freshness
        == AutoReviewFreshness::Current || run.freshness == AutoReviewFreshness::LongRunning)
}

/// The run used many tokens or took long.
pub open spec fn high_burn_spec(run: AutoReviewRun, elapsed: u64) -> bool {
    (run.token_count is Some && run.token_count.unwrap() >= LEDGER_HIGH_TOKEN_COUNT) || (
    run.prompt_token_estimate is Some && run.prompt_token_estimate.unwrap()
        >= LEDGER_HIGH_PROMPT_ESTIMATE) || long_elapsed_spec(run, elapsed)
}

fn run_has_long_elapsed_signal(run: &AutoReviewRun, elapsed: u64) -> (b: bool)
    ensures
        b == long_elapsed_spec(*run, elapsed),
{
    elapsed >= LEDGER_LONG_ELAPSED_SECS && (!run.status.is_in_flight() || run.freshness
        == AutoReviewFreshness::Current || run.freshness == AutoReviewFreshness::LongRunning)
}

fn run_has_high_burn_signal(run: &AutoReviewRun, elapsed: u64) -> (b: bool)
    ensures
        b == high_burn_spec(*run, elapsed),
{
    let tokens = match run.token_count {
        Some(t) => t >= LEDGER_HIGH_TOKEN_COUNT,
        None => false,
    };
    let prompt = match run.prompt_token_estimate {
        Some(p) => p >= LEDGER_HIGH_PROMPT_ESTIMATE,
        None => false,
    };
    tokens || prompt || run_has_long_elapsed_signal(run, elapsed)
}

/// The run is recent enough to count toward diagnostics.
pub open spec fn recent_for_diagnostics(run: AutoReviewRun, now: u64) -> bool {
    let reference = match run.completed_at {
        Some(t) => t,
        None => match run.last_activity_at {
            Some(t) => t,
            None => run.updated_at,
        },
    };
    sat_sub(now, reference) <= LEDGER_DIAGNOSTIC_RECENT_SECS
}

/// Counters of the diagnostics line.
#[derive(Debug, Clone, Copy)]
pub struct LedgerDiagnostics {
    pub recent_runs: usize,
    pub in_flight_runs: usize,
    pub terminal_runs: usize,
    pub token_count: u64,
    pub token_runs: usize,
    pub prompt_token_estimate: u64,
    pub prompt_runs: usize,
    pub saved_token_estimate: u64,
    pub saved_runs: usize,
    pub high_burn_runs: usize,
    pub suppressed_stale_runs: usize,
    pub longest_rank: Option<u8>,
}

/// No run counted yet.
pub open spec fn diag_zero() -> LedgerDiagnostics {
    LedgerDiagnostics {
        recent_runs: 0,
        in_flight_runs: 0,
        terminal_runs: 0,
        token_count: 0,
        token_runs: 0,
        prompt_token_estimate: 0,
        prompt_runs: 0,
        saved_token_estimate: 0,
        saved_runs: 0,
        high_burn_runs: 0,
        suppressed_stale_runs: 0,
        longest_rank: None,
    }
}

/// The run suppresses stale findings in the listing.
pub open spec fn suppresses_stale(run: AutoReviewRun, o: AutoReviewLedgerOptions) -> bool {
    is_terminal_spec(run.status) && stale_target(run_target(run, o)) && has_findings(run)
}

/// The run counts toward the diagnostics.
pub open spec fn counts_for_diagnostics(run: AutoReviewRun, o: AutoReviewLedgerOptions) -> bool {
    let e = elapsed_spec(run, o.now);
    recent_for_diagnostics(run, o.now) && (run.token_count is Some || run.prompt_token_estimate
        is Some || run.saved_token_estimate is Some || long_elapsed_spec(run, e) || high_burn_spec(
        run,
        e,
    ) || suppresses_stale(run, o))
}

/// Counters after looking at one more run.
pub open spec fn diag_step(d: LedgerDiagnostics, run: AutoReviewRun, o: AutoReviewLedgerOptions) -> LedgerDiagnostics {
    if !recent_for_diagnostics(run, o.now) {
        d
    } else if !counts_for_diagnostics(run, o) {
        LedgerDiagnostics {
            suppressed_stale_runs: if suppresses_stale(run, o) {
                (d.suppressed_stale_runs + 1) as usize
            } else {
                d.suppressed_stale_runs
            },
            ..d
        }
    } else {
        let e = elapsed_spec(run, o.now);
        let r = bucket_rank(e);
        LedgerDiagnostics {
            recent_runs: (d.recent_runs + 1) as usize,
            in_flight_runs: if !is_terminal_spec(run.status) {
                (d.in_flight_runs + 1) as usize
            } else {
                d.in_flight_runs
            },
            terminal_runs: if is_terminal_spec(run.status) {
                (d.terminal_runs + 1) as usize
            } else {
                d.terminal_runs
            },
            token_count: match run.token_count {
                Some(t) => sat_add(d.token_count, t),
                None => d.token_count,
            },
            token_runs: if run.token_count is Some {
                (d.token_runs + 1) as usize
            } else {
                d.token_runs
            },
            prompt_token_estimate: match run.prompt_token_estimate {
                Some(t) => sat_add(d.prompt_token_estimate, t),
                None => d.prompt_token_estimate,
            },
            prompt_runs: if run.prompt_token_estimate is Some {
                (d.prompt_runs + 1) as usize
            } else {
                d.prompt_runs
            },
            saved_token_estimate: match run.saved_token_estimate {
                Some(t) => sat_add(d.saved_token_estimate, t),
                None => d.saved_token_estimate,
            },
            saved_runs: if run.saved_token_estimate is Some {
                (d.saved_runs + 1) as usize
            } else {
                d.saved_runs
            },
            high_burn_runs: if high_burn_spec(run, e) {
                (d.high_burn_runs + 1) as usize
            } else {
                d.high_burn_runs
            },
            suppressed_stale_runs: if suppresses_stale(run, o) {
                (d.suppressed_stale_runs + 1) as usize
            } else {
                d.suppressed_stale_runs
            },
            longest_rank: match d.longest_rank {
                Some(x) => if x >= r {
                    Some(x)
                } else {
                    Some(r as u8)
                },
                None => Some(r as u8),
            },
        }
    }
}

/// Counters over all runs of `rs`, in order.
pub open spec fn diag_fold(rs: Seq<AutoReviewRun>, o: AutoReviewLedgerOptions) -> LedgerDiagnostics
    decreases rs.len(),
{
    if rs.len() == 0 {
        diag_zero()
    } else {
        diag_step(diag_fold(rs.drop_last(), o), rs.last(), o)
    }
}

/// The runs the diagnostics line counts: recent ones that carry a usage,
/// duration or burn signal.
pub open spec fn counted_runs(rs: Seq<AutoReviewRun>, o: AutoReviewLedgerOptions) -> Seq<AutoReviewRun> {
    rs.filter(|r: AutoReviewRun| recent_for_diagnostics(r, o.now) && counts_for_diagnostics(r, o))
}

/// The diagnostics count the runs they count: `recent_runs` is how many
/// runs are recent and carry a signal, and the in-flight and terminal
/// counts split them.
pub proof fn lemma_diag_counts(rs: Seq<AutoReviewRun>, o: AutoReviewLedgerOptions)
    requires
        rs.len() <= usize::MAX,
    ensures
        diag_fold(rs, o).recent_runs == counted_runs(rs, o).len(),
        diag_fold(rs, o).in_flight_runs + diag_fold(rs, o).terminal_runs == diag_fold(rs, o).recent_runs,
    decreases rs.len(),
{
    reveal_with_fuel(Seq::filter, 1);
    let pred = |r: AutoReviewRun| recent_for_diagnostics(r, o.now) && counts_for_diagnostics(r, o);
    assert(counted_runs(rs, o) == rs.filter(pred));
    if rs.len() > 0 {
        lemma_diag_counts(rs.drop_last(), o);
        lemma_diag_bounded(rs.drop_last(), o);
        assert(counted_runs(rs.drop_last(), o) == rs.drop_last().filter(pred));
        assert(rs.filter(pred) == if pred(rs.last()) {
            rs.drop_last().filter(pred).push(rs.last())
        } else {
            rs.drop_last().filter(pred)
        });
    }
}

/// Every counter is at most `n`.
pub open spec fn diag_bounded(d: LedgerDiagnostics, n: nat) -> bool {
    &&& d.recent_runs <= n
    &&& d.in_flight_runs <= n
    &&& d.terminal_runs <= n
    &&& d.token_runs <= n
    &&& d.prompt_runs <= n
    &&& d.saved_runs <= n
    &&& d.high_burn_runs <= n
    &&& d.suppressed_stale_runs <= n
    &&& match d.longest_rank {
        Some(x) => x <= 6,
        None => true,
    }
}

proof fn lemma_diag_bounded(rs: Seq<AutoReviewRun>, o: AutoReviewLedgerOptions)
    ensures
        diag_bounded(diag_fold(rs, o), rs.len()),
    decreases rs.len(),
{
    if rs.len() > 0 {
        lemma_diag_bounded(rs.drop_last(), o);
    }
}

/// The token part of the diagnostics line.
pub open spec fn diag_tokens_part(d: LedgerDiagnostics) -> Seq<char> {
    if d.token_runs > 0 {
        " tokens="@ + decimal(d.token_count as nat) + "t token_runs="@ + decimal(d.token_runs as nat)
    } else {
        Seq::empty()
    }
}

/// The prompt estimate part of the diagnostics line.
pub open spec fn diag_prompt_part(d: LedgerDiagnostics) -> Seq<char> {
    if d.prompt_runs > 0 {
        " prompt_estimate="@ + decimal(d.prompt_token_estimate as nat) + "t prompt_runs="@
            + decimal(d.prompt_runs as nat)
    } else {
        Seq::empty()
    }
}

/// The saved estimate part of the diagnostics line.
pub open spec fn diag_saved_part(d: LedgerDiagnostics) -> Seq<char> {
    if d.saved_runs > 0 {
        " saved_estimate="@ + decimal(d.saved_token_estimate as nat) + "t saved_runs="@ + decimal(
            d.saved_runs as nat,
        )
    } else {
        Seq::empty()
    }
}

/// A count part that is present when the count is positive.
pub open spec fn count_part(label: Seq<char>, n: usize) -> Seq<char> {
    if n > 0 {
        label + decimal(n as nat)
    } else {
        Seq::empty()
    }
}

/// The longest elapsed part of the diagnostics line.
pub open spec fn diag_longest_part(d: LedgerDiagnostics) -> Seq<char> {
    match d.longest_rank {
        Some(r) => " longest_elapsed="@ + rank_word(r as nat),
        None => Seq::<char>::empty(),
    }
}

/// The diagnostics line, when any run counted.
pub open spec fn diag_line(d: LedgerDiagnostics) -> Option<Seq<char>> {
    if d.recent_runs == 0 {
        None
    } else {
        Some(
            "diagnostics recent_runs="@ + decimal(d.recent_runs as nat) + " in_flight="@ + decimal(
                d.in_flight_runs as nat,
            ) + " terminal="@ + decimal(d.terminal_runs as nat) + diag_tokens_part(d)
                + diag_prompt_part(d) + count_part(" high_burn="@, d.high_burn_runs) + count_part(
                " suppressed_stale="@,
                d.suppressed_stale_runs,
            ) + diag_saved_part(d) + diag_longest_part(d),
        )
    }
}

fn push_count_part(line: &mut String, label: &str, n: usize)
    ensures
        final(line)@ == old(line)@ + count_part(label@, n),
{
    if n > 0 {
        push_str(line, label);
        push_str(line, usize_to_string(n).as_str());
    }
    proof {
        assert(final(line)@ =~= old(line)@ + count_part(label@, n));
    }
}

fn push_pair_part(line: &mut String, label1: &str, v: u64, label2: &str, n: usize)
    ensures
        final(line)@ == old(line)@ + (if n > 0 {
            label1@ + decimal(v as nat) + label2@ + decimal(n as nat)
        } else {
            Seq::empty()
        }),
{
    if n > 0 {
        push_str(line, label1);
        push_str(line, u64_to_string(v).as_str());
        push_str(line, label2);
        push_str(line, usize_to_string(n).as_str());
    }
    proof {
        assert(final(line)@ =~= old(line)@ + (if n > 0 {
            label1@ + decimal(v as nat) + label2@ + decimal(n as nat)
        } else {
            Seq::empty()
        }));
    }
}

fn diag_update(d: &mut LedgerDiagnostics, run: &AutoReviewRun, o: &AutoReviewLedgerOptions, bound: Ghost<nat>)
    requires
        diag_bounded(*old(d), bound@),
        bound@ < usize::MAX,
    ensures
        *final(d) == diag_step(*old(d), *run, *o),
        diag_bounded(*final(d), bound@ + 1),
{
    let now = o.now;
    let reference = match run.completed_at {
        Some(t) => t,
        None => match run.last_activity_at {
            Some(t) => t,
            None => run.updated_at,
        },
    };
    if now.saturating_sub(reference) > LEDGER_DIAGNOSTIC_RECENT_SECS {
        return;
    }
    let target = run_target_applicability(run, o);
    let has_findings = run.finding_count > 0 || run.finding_digests.len() > 0;
    let suppresses = !run.status.is_in_flight() && (target
        == AutoReviewTargetApplicability::OlderSnapshot || target
        == AutoReviewTargetApplicability::DetachedReviewWorktree) && has_findings;
    if suppresses {
        d.suppressed_stale_runs = d.suppressed_stale_runs + 1;
    }
    let has_cost = run.token_count.is_some() || run.prompt_token_estimate.is_some()
        || run.saved_token_estimate.is_some();
    let elapsed = run_elapsed_secs(run, now);
    let timing = run_has_long_elapsed_signal(run, elapsed);
    let high_burn = run_has_high_burn_signal(run, elapsed);
    if !has_cost && !timing && !high_burn && !suppresses {
        return;
    }
    d.recent_runs = d.recent_runs + 1;
    if run.status.is_in_flight() {
        d.in_flight_runs = d.in_flight_runs + 1;
    } else {
        d.terminal_runs = d.terminal_runs + 1;
    }
    if let Some(t) = run.token_count {
        d.token_count = d.token_count.saturating_add(t);
        d.token_runs = d.token_runs + 1;
    }
    if let Some(t) = run.prompt_token_estimate {
        d.prompt_token_estimate = d.prompt_token_estimate.saturating_add(t);
        d.prompt_runs = d.prompt_runs + 1;
    }
    if let Some(t) = run.saved_token_estimate {
        d.saved_token_estimate = d.saved_token_estimate.saturating_add(t);
        d.saved_runs = d.saved_runs + 1;
    }
    if high_burn {
        d.high_burn_runs = d.high_burn_runs + 1;
    }
    let r = bucket_rank_of(elapsed);
    d.longest_rank = match d.longest_rank {
        Some(x) => if x >= r {
            Some(x)
        } else {
            Some(r)
        },
        None => Some(r),
    };
}

fn push_count(line: &mut String, label: &str, n: usize)
    ensures
        final(line)@ == old(line)@ + label@ + decimal(n as nat),
{
    push_str(line, label);
    push_str(line, usize_to_string(n).as_str());
}
/// Builds the diagnostics line over the given runs.
pub fn build_ledger_diagnostics(runs: &Vec<AutoReviewRun>, o: &AutoReviewLedgerOptions) -> (r: Option<String>)
    ensures
        opt_view(r) == diag_line(diag_fold(runs@, *o)),
{
    let mut d = LedgerDiagnostics {
        recent_runs: 0,
        in_flight_runs: 0,
        terminal_runs: 0,
        token_count: 0,
        token_runs: 0,
        prompt_token_estimate: 0,
        prompt_runs: 0,
        saved_token_estimate: 0,
        saved_runs: 0,
        high_burn_runs: 0,
        suppressed_stale_runs: 0,
        longest_rank: None,
    };
    let mut i: usize = 0;
    while i < runs.len()
        invariant
            i <= runs.len(),
            d == diag_fold(runs@.take(i as int), *o),
            diag_bounded(d, i as nat),
        decreases runs.len() - i,
    {
        proof {
            assert(runs@.take(i + 1).drop_last() =~= runs@.take(i as int));
        }
        diag_update(&mut d, &runs[i], o, Ghost(i as nat));
        i = i + 1;
    }
    proof {
        assert(runs@.take(i as int) =~= runs@);
    }
    if d.recent_runs == 0 {
        return None;
    }
    let mut line = String::new();
    push_count(&mut line, "diagnostics recent_runs=", d.recent_runs);
    push_count(&mut line, " in_flight=", d.in_flight_runs);
    push_count(&mut line, " terminal=", d.terminal_runs);
    push_pair_part(&mut line, " tokens=", d.token_count, "t token_runs=", d.token_runs);
    push_pair_part(&mut line, " prompt_estimate=", d.prompt_token_estimate, "t prompt_runs=", d.prompt_runs);
    push_count_part(&mut line, " high_burn=", d.high_burn_runs);
    push_count_part(&mut line, " suppressed_stale=", d.suppressed_stale_runs);
    push_pair_part(&mut line, " saved_estimate=", d.saved_token_estimate, "t saved_runs=", d.saved_runs);
    let ghost before_longest = line@;
    if let Some(r) = d.longest_rank {
        push_str(&mut line, " longest_elapsed=");
        push_str(&mut line, rank_text(r));
    }
    proof {
        assert(line@ =~= before_longest + diag_longest_part(d));
        assert(line@ =~= diag_line(d).unwrap());
    }
    Some(line)
}

/// Listing priority: in flight, then with findings, then failed or
/// cancelled, then the rest.
pub open spec fn priority_spec(run: AutoReviewRun) -> nat {
    if !is_terminal_spec(run.status) {
        5
    } else if has_findings(run) {
        4
    } else if run.status == AutoReviewRunStatus::Failed || run.status
        == AutoReviewRunStatus::Cancelled {
        3
    } else {
        1
    }
}

fn ledger_priority(run: &AutoReviewRun) -> (p: u8)
    ensures
        p == priority_spec(*run),
{
    if run.status.is_in_flight() {
        5
    } else if run.finding_count > 0 || run.finding_digests.len() > 0 {
        4
    } else if run.status == AutoReviewRunStatus::Failed || run.status
        == AutoReviewRunStatus::Cancelled {
        3
    } else {
        1
    }
}

/// Listing order: higher priority, then later update, then later creation,
/// then larger run id first.
pub open spec fn listed_before(a: AutoReviewRun, b: AutoReviewRun) -> bool {
    ||| priority_spec(a) > priority_spec(b)
    ||| (priority_spec(a) == priority_spec(b) && a.updated_at > b.updated_at)
    ||| (priority_spec(a) == priority_spec(b) && a.updated_at == b.updated_at && a.created_at
        > b.created_at)
    ||| (priority_spec(a) == priority_spec(b) && a.updated_at == b.updated_at && a.created_at
        == b.created_at && a.run_id > b.run_id)
}

fn listed_precedes(a: &AutoReviewRun, b: &AutoReviewRun) -> (r: bool)
    ensures
        r == listed_before(*a, *b),
{
    let pa = ledger_priority(a);
    let pb = ledger_priority(b);
    if pa != pb {
        pa > pb
    } else if a.updated_at != b.updated_at {
        a.updated_at > b.updated_at
    } else if a.created_at != b.created_at {
        a.created_at > b.created_at
    } else {
        a.run_id > b.run_id
    }
}

/// Run ids are pairwise distinct.
pub open spec fn distinct_ids(rs: Seq<AutoReviewRun>) -> bool {
    forall|i: int, j: int| 0 <= i < j < rs.len() ==> rs[i].run_id != rs[j].run_id
}

/// `sel` lists, in listing order, the first `max(max_runs, 1)` of the runs
/// of `rs` that the ledger lists.
pub open spec fn is_ledger_selection(rs: Seq<AutoReviewRun>, o: AutoReviewLedgerOptions, sel: Seq<AutoReviewRun>) -> bool {
    let limit = if o.max_runs < 1 {
        1
    } else {
        o.max_runs
    };
    &&& sel.len() <= limit
    &&& forall|i: int, j: int| 0 <= i < j < sel.len() ==> listed_before(sel[i], sel[j])
    &&& forall|i: int| 0 <= i < sel.len() ==> rs.contains(sel[i]) && actionable_spec(#[trigger] sel[i], o)
    &&& forall|r: AutoReviewRun|
        rs.contains(r) && actionable_spec(r, o) && !sel.contains(r) ==> sel.len() == limit && (
        forall|i: int| 0 <= i < sel.len() ==> listed_before(#[trigger] sel[i], r))
}

/// Optional text, or `unknown`.
pub open spec fn or_unknown(s: Option<Seq<char>>) -> Seq<char> {
    match s {
        Some(x) => x,
        None => "unknown"@,
    }
}

/// Characters of `t` kept by `&t[..t.len().min(n)]`.
pub open spec fn byte_prefix(t: Seq<char>, n: nat) -> Seq<char> {
    t.take(chars_within(t, n) as int)
}

/// `&t[..t.len().min(n)]` cuts at a character boundary (else it panics).
pub open spec fn byte_cut_ok(t: Seq<char>, n: nat) -> bool {
    byte_len(t) <= n || byte_len(byte_prefix(t, n)) == n
}

/// The trimmed value cut to its first `n` bytes, when non-empty.
pub open spec fn short_prefix(s: Option<String>, n: nat) -> Option<Seq<char>> {
    match opt_trimmed(s) {
        Some(t) => Some(byte_prefix(t, n)),
        None => None,
    }
}

/// Short values of a run are cut at character boundaries.
pub open spec fn short_fields_ok(run: AutoReviewRun) -> bool {
    (opt_trimmed(run.snapshot_commit) is Some ==> byte_cut_ok(opt_trimmed(run.snapshot_commit).unwrap(), 12))
        && (opt_trimmed(run.agent_id) is Some ==> byte_cut_ok(opt_trimmed(run.agent_id).unwrap(), 8))
}

/// Whether `short_sha` and `short_agent_id` accept a run's values.
pub fn run_short_fields_ok(run: &AutoReviewRun) -> (b: bool)
    ensures
        b == short_fields_ok(*run),
{
    let a = match opt_non_empty(&run.snapshot_commit) {
        Some(t) => byte_cut_check(t.as_str(), 12),
        None => true,
    };
    let b = match opt_non_empty(&run.agent_id) {
        Some(t) => byte_cut_check(t.as_str(), 8),
        None => true,
    };
    a && b
}

fn byte_cut_check(t: &str, n: usize) -> (b: bool)
    ensures
        b == byte_cut_ok(t@, n as nat),
{
    let v = to_chars(t);
    let (k, used) = prefix_bytes(&v, n);
    str_byte_len(t) <= n || used == n
}

fn prefix_bytes(t: &Vec<char>, budget: usize) -> (r: (usize, usize))
    ensures
        r.0 == chars_within(t@, budget as nat),
        r.1 == byte_len(t@.take(r.0 as int)),
{
    let mut k: usize = 0;
    let mut used: usize = 0;
    proof {
        assert(t@.subrange(0, t.len() as int) =~= t@);
        assert(t@.take(0) =~= Seq::<char>::empty());
        assert(byte_len(Seq::<char>::empty()) == 0);
    }
    while k < t.len() && crate::text::utf8_width(t[k]) <= budget - used
        invariant
            k <= t.len(),
            used <= budget,
            used == byte_len(t@.take(k as int)),
            chars_within(t@, budget as nat) == k + chars_within(
                t@.subrange(k as int, t.len() as int),
                (budget - used) as nat,
            ),
        decreases t.len() - k,
    {
        proof {
            let r = t@.subrange(k as int, t.len() as int);
            assert(r.drop_first() =~= t@.subrange(k + 1, t.len() as int));
            assert(t@.take(k + 1) =~= t@.take(k as int).push(t@[k as int]));
            crate::text::lemma_byte_len_push(t@.take(k as int), t@[k as int]);
        }
        used = used + crate::text::utf8_width(t[k]);
        k = k + 1;
    }
    (k, used)
}

/// The trimmed value cut to `n` bytes, when non-empty.
fn short_value(s: &Option<String>, n: usize) -> (r: Option<String>)
    ensures
        opt_view(r) == short_prefix(*s, n as nat),
{
    match opt_non_empty(s) {
        Some(t) => {
            let v = to_chars(t.as_str());
            let (k, _) = prefix_bytes(&v, n);
            proof {
                lemma_chars_within(v@, n as nat);
            }
            let p = from_chars_range(&v, 0, k);
            proof {
                assert(p@ =~= byte_prefix(t@, n as nat));
            }
            Some(p)
        },
        None => None,
    }
}

/// Optional suffix `label` + value.
pub open spec fn opt_part(label: Seq<char>, v: Option<Seq<char>>) -> Seq<char> {
    match v {
        Some(x) => label + x,
        None => Seq::empty(),
    }
}

/// Optional suffix `label` + decimal + `t`.
pub open spec fn opt_tokens(label: Seq<char>, v: Option<u64>) -> Seq<char> {
    match v {
        Some(x) => label + decimal(x as nat) + "t"@,
        None => Seq::empty(),
    }
}

/// The single-line form of an optional value.
pub open spec fn opt_single(s: Option<String>, n: nat) -> Option<Seq<char>> {
    match s {
        Some(x) => Some(single_line_of(x@, n)),
        None => None,
    }
}

/// The branch shown for a run: its branch, else its batch id, else
/// `unknown`.
pub open spec fn branch_shown(run: AutoReviewRun) -> Seq<char> {
    match run.branch {
        Some(b) => b@,
        None => match run.batch_id {
            Some(b) => b@,
            None => "unknown"@,
        },
    }
}

/// The identifying head of a run's ledger line.
pub open spec fn run_line_head(run: AutoReviewRun, o: AutoReviewLedgerOptions) -> Seq<char> {
    "run id="@ + uuid_text(run.run_id) + " status="@ + status_word(run.status) + " freshness="@
        + freshness_word(run.freshness) + " target="@ + target_word(run_target(run, o))
        + " source="@ + source_word(run.source) + " branch="@ + branch_shown(run) + " snapshot="@
        + or_unknown(short_prefix(run.snapshot_commit, 12)) + " age="@ + bucket_word(
        sat_sub(o.now, run.updated_at),
    )
}

/// The activity and agent parts of a run's ledger line.
pub open spec fn run_line_activity(run: AutoReviewRun, o: AutoReviewLedgerOptions) -> Seq<char> {
    let activity = match run.last_activity_at {
        Some(t) => " last_activity="@ + bucket_word(sat_sub(o.now, t)),
        None => Seq::<char>::empty(),
    };
    activity + opt_part(" agent="@, short_prefix(run.agent_id, 8))
}

/// The model and cost parts of a run's ledger line.
pub open spec fn run_line_cost(run: AutoReviewRun, o: AutoReviewLedgerOptions) -> Seq<char> {
    opt_part(" model="@, opt_single(run.model, 40)) + opt_part(
        " reasoning="@,
        opt_single(run.reasoning_effort, 24),
    ) + opt_tokens(" prompt_estimate="@, run.prompt_token_estimate) + opt_tokens(
        " tokens="@,
        run.token_count,
    ) + opt_tokens(" saved_estimate="@, run.saved_token_estimate) + " elapsed="@ + bucket_word(
        elapsed_spec(run, o.now),
    )
}

/// The outcome parts of a run's ledger line.
pub open spec fn run_line_outcome(run: AutoReviewRun) -> Seq<char> {
    count_part(" findings="@, run.finding_count) + count_part(
        " omitted_findings="@,
        run.omitted_finding_digest_count,
    ) + opt_part(" summary="@, opt_single(run.summary_digest, 180)) + opt_part(
        " error="@,
        opt_single(run.error_summary, 180),
    )
}

/// The main ledger line of a run.
pub open spec fn run_line(run: AutoReviewRun, o: AutoReviewLedgerOptions) -> Seq<char> {
    run_line_head(run, o) + run_line_activity(run, o) + run_line_cost(run, o) + run_line_outcome(run)
}

/// The ledger line of one finding digest.
pub open spec fn finding_line(f: AutoReviewFindingDigest) -> Seq<char> {
    "  finding id="@ + f.finding_id@ + " priority="@ + crate::text::signed_decimal(
        f.priority as int,
    ) + " location="@ + or_unknown(opt_view(f.path)) + ":"@ + match f.line_start {
        Some(l) => decimal(l as nat),
        None => "?"@,
    } + " title="@ + single_line_of(f.title@, 160)
}

/// Finding lines of the first `n` digests.
pub open spec fn finding_lines(fs: Seq<AutoReviewFindingDigest>, n: nat) -> Seq<Seq<char>>
    decreases n,
{
    if n == 0 {
        Seq::empty()
    } else {
        finding_lines(fs, (n - 1) as nat).push(finding_line(fs[n - 1]))
    }
}

/// All ledger lines of a run.
pub open spec fn run_lines(run: AutoReviewRun, o: AutoReviewLedgerOptions) -> Seq<Seq<char>> {
    let n = run.finding_digests@.len();
    let shown = if n < LEDGER_MAX_FINDINGS_PER_RUN {
        n
    } else {
        LEDGER_MAX_FINDINGS_PER_RUN as nat
    };
    seq![run_line(run, o)] + finding_lines(run.finding_digests@, shown) + if n
        > LEDGER_MAX_FINDINGS_PER_RUN {
        seq!["  more_findings="@ + decimal((n - LEDGER_MAX_FINDINGS_PER_RUN) as nat) + " full_output=lazy"@]
    } else {
        Seq::<Seq<char>>::empty()
    }
}

fn push_opt_tokens(line: &mut String, label: &str, v: Option<u64>)
    ensures
        final(line)@ == old(line)@ + opt_tokens(label@, v),
{
    if let Some(x) = v {
        push_str(line, label);
        push_str(line, u64_to_string(x).as_str());
        push_str(line, "t");
        proof {
            reveal_strlit("t");
        }
    }
    proof {
        assert(final(line)@ =~= old(line)@ + opt_tokens(label@, v)) by {
            reveal_strlit("t");
        }
    }
}

fn push_opt_single(line: &mut String, label: &str, v: &Option<String>, n: usize)
    ensures
        final(line)@ == old(line)@ + opt_part(label@, opt_single(*v, n as nat)),
{
    if let Some(x) = v {
        push_str(line, label);
        push_str(line, single_line(x.as_str(), n).as_str());
    }
    proof {
        assert(final(line)@ =~= old(line)@ + opt_part(label@, opt_single(*v, n as nat)));
    }
}

fn build_run_line_head(run: &AutoReviewRun, o: &AutoReviewLedgerOptions) -> (line: String)
    requires
        short_fields_ok(*run),
    ensures
        line@ == run_line_head(*run, *o),
{
    let mut line = to_owned_string("run id=");
    push_str(&mut line, run_id_text(run.run_id).as_str());
    push_str(&mut line, " status=");
    push_str(&mut line, status_name(run.status));
    push_str(&mut line, " freshness=");
    push_str(&mut line, freshness_name(run.freshness));
    push_str(&mut line, " target=");
    push_str(&mut line, run_target_applicability(run, o).as_ledger_value());
    push_str(&mut line, " source=");
    push_str(&mut line, source_name(run.source));
    push_str(&mut line, " branch=");
    match &run.branch {
        Some(b) => push_str(&mut line, b.as_str()),
        None => match &run.batch_id {
            Some(b) => push_str(&mut line, b.as_str()),
            None => push_str(&mut line, "unknown"),
        },
    }
    push_str(&mut line, " snapshot=");
    match short_value(&run.snapshot_commit, 12) {
        Some(s) => push_str(&mut line, s.as_str()),
        None => push_str(&mut line, "unknown"),
    }
    push_str(&mut line, " age=");
    push_str(&mut line, duration_bucket(o.now.saturating_sub(run.updated_at)));
    proof {
        reveal_strlit("unknown");
        assert(line@ =~= run_line_head(*run, *o));
    }
    line
}

fn push_run_line_activity(line: &mut String, run: &AutoReviewRun, o: &AutoReviewLedgerOptions)
    requires
        short_fields_ok(*run),
    ensures
        final(line)@ == old(line)@ + run_line_activity(*run, *o),
{
    let ghost start = line@;
    if let Some(t) = run.last_activity_at {
        push_str(line, " last_activity=");
        push_str(line, duration_bucket(o.now.saturating_sub(t)));
    }
    let ghost mid = line@;
    if let Some(a) = short_value(&run.agent_id, 8) {
        push_str(line, " agent=");
        push_str(line, a.as_str());
    }
    proof {
        assert(final(line)@ =~= old(line)@ + run_line_activity(*run, *o));
    }
}

fn push_run_line_cost(line: &mut String, run: &AutoReviewRun, o: &AutoReviewLedgerOptions)
    ensures
        final(line)@ == old(line)@ + run_line_cost(*run, *o),
{
    push_opt_single(line, " model=", &run.model, 40);
    push_opt_single(line, " reasoning=", &run.reasoning_effort, 24);
    push_opt_tokens(line, " prompt_estimate=", run.prompt_token_estimate);
    push_opt_tokens(line, " tokens=", run.token_count);
    push_opt_tokens(line, " saved_estimate=", run.saved_token_estimate);
    push_str(line, " elapsed=");
    push_str(line, duration_bucket(run_elapsed_secs(run, o.now)));
    proof {
        assert(final(line)@ =~= old(line)@ + run_line_cost(*run, *o));
    }
}

fn push_run_line_outcome(line: &mut String, run: &AutoReviewRun)
    ensures
        final(line)@ == old(line)@ + run_line_outcome(*run),
{
    push_count_part(line, " findings=", run.finding_count);
    push_count_part(line, " omitted_findings=", run.omitted_finding_digest_count);
    push_opt_single(line, " summary=", &run.summary_digest, 180);
    push_opt_single(line, " error=", &run.error_summary, 180);
    proof {
        assert(final(line)@ =~= old(line)@ + run_line_outcome(*run));
    }
}

fn build_run_line(run: &AutoReviewRun, o: &AutoReviewLedgerOptions) -> (line: String)
    requires
        short_fields_ok(*run),
    ensures
        line@ == run_line(*run, *o),
{
    let mut line = build_run_line_head(run, o);
    push_run_line_activity(&mut line, run, o);
    push_run_line_cost(&mut line, run, o);
    push_run_line_outcome(&mut line, run);
    proof {
        assert(line@ =~= run_line(*run, *o));
    }
    line
}

fn build_finding_line(f: &AutoReviewFindingDigest) -> (line: String)
    ensures
        line@ == finding_line(*f),
{
    let mut line = to_owned_string("  finding id=");
    push_str(&mut line, f.finding_id.as_str());
    push_str(&mut line, " priority=");
    push_str(&mut line, crate::text::i64_to_string(f.priority as i64).as_str());
    push_str(&mut line, " location=");
    match &f.path {
        Some(p) => push_str(&mut line, p.as_str()),
        None => push_str(&mut line, "unknown"),
    }
    push_str(&mut line, ":");
    match f.line_start {
        Some(l) => push_str(&mut line, u64_to_string(l as u64).as_str()),
        None => push_str(&mut line, "?"),
    }
    push_str(&mut line, " title=");
    push_str(&mut line, single_line(f.title.as_str(), 160).as_str());
    proof {
        reveal_strlit("unknown");
        reveal_strlit("?");
        assert(line@ =~= finding_line(*f));
    }
    line
}

fn append_ledger_run(lines: &mut Vec<String>, run: &AutoReviewRun, o: &AutoReviewLedgerOptions)
    requires
        short_fields_ok(*run),
    ensures
        strings_view(final(lines)@) == strings_view(old(lines)@) + run_lines(*run, *o),
{
    let ghost start = strings_view(lines@);
    let first = build_run_line(run, o);
    proof {
        crate::text::lemma_strings_view_push(lines@, first);
    }
    lines.push(first);
    proof {
        assert(strings_view(lines@) =~= start + seq![run_line(*run, *o)] + finding_lines(
            run.finding_digests@,
            0,
        ));
    }
    let n = run.finding_digests.len();
    let shown = if n < LEDGER_MAX_FINDINGS_PER_RUN {
        n
    } else {
        LEDGER_MAX_FINDINGS_PER_RUN
    };
    let mut i: usize = 0;
    while i < shown
        invariant
            i <= shown <= n == run.finding_digests@.len(),
            strings_view(lines@) == start + seq![run_line(*run, *o)] + finding_lines(
                run.finding_digests@,
                i as nat,
            ),
        decreases shown - i,
    {
        let fl = build_finding_line(&run.finding_digests[i]);
        proof {
            crate::text::lemma_strings_view_push(lines@, fl);
        }
        lines.push(fl);
        i = i + 1;
        proof {
            assert(strings_view(lines@) =~= start + seq![run_line(*run, *o)] + finding_lines(
                run.finding_digests@,
                i as nat,
            ));
        }
    }
    if n > LEDGER_MAX_FINDINGS_PER_RUN {
        let mut more = to_owned_string("  more_findings=");
        push_str(&mut more, usize_to_string(n - LEDGER_MAX_FINDINGS_PER_RUN).as_str());
        push_str(&mut more, " full_output=lazy");
        proof {
            crate::text::lemma_strings_view_push(lines@, more);
        }
        lines.push(more);
    }
    proof {
        assert(strings_view(lines@) =~= start + run_lines(*run, *o));
    }
}

/// The ledger header line.
pub open spec fn ledger_open(max_bytes: nat) -> Seq<char> {
    "<auto_review_ledger schema_version=\"1\" max_bytes=\""@ + decimal(max_bytes) + "\">"@
}

/// The explanatory line that follows the header.
pub open spec fn ledger_intro() -> Seq<char> {
    "Auto Review state for this repo. Listed runs are active or target-applicable by default; diagnostics may include stale/detached history that is not an instruction to re-review or fix. Treat run ids as stable references for future detail lookup with the auto_review_detail tool. Freshness describes run recency; target describes whether findings match the active checkout."@
}

/// Lines of all selected runs.
pub open spec fn runs_lines(sel: Seq<AutoReviewRun>, o: AutoReviewLedgerOptions) -> Seq<Seq<char>>
    decreases sel.len(),
{
    if sel.len() == 0 {
        Seq::empty()
    } else {
        runs_lines(sel.drop_last(), o) + run_lines(sel.last(), o)
    }
}

/// The ledger lines before the byte limit is applied.
pub open spec fn ledger_lines(sel: Seq<AutoReviewRun>, diag: Option<Seq<char>>, o: AutoReviewLedgerOptions) -> Seq<Seq<char>> {
    let m = if o.max_bytes < 64 {
        64
    } else {
        o.max_bytes
    };
    seq![ledger_open(m as nat), ledger_intro()] + match diag {
        Some(d) => seq![d],
        None => Seq::<Seq<char>>::empty(),
    } + runs_lines(sel, o) + seq!["</auto_review_ledger>"@]
}

/// The marker of a cut ledger.
pub open spec fn ledger_marker() -> Seq<char> {
    "\n<truncated />\n</auto_review_ledger>"@
}

/// Characters of the ledger kept before the marker when it is cut to
/// `max_bytes`: up to the last character that starts within the budget.
pub open spec fn ledger_cut_chars(t: Seq<char>, target: nat) -> nat {
    if t.len() == 0 {
        0
    } else if chars_within(t, target) < t.len() {
        chars_within(t, target)
    } else {
        (t.len() - 1) as nat
    }
}

/// The ledger after `truncate_ledger_to_bytes`.
pub open spec fn truncated_ledger(t: Seq<char>, max_bytes: nat) -> Seq<char> {
    let m = ledger_marker();
    if max_bytes <= m.len() {
        m.take(max_bytes as int)
    } else {
        t.take(ledger_cut_chars(t, (max_bytes - m.len()) as nat) as int) + m
    }
}

/// The ledger text.
pub open spec fn ledger_text(sel: Seq<AutoReviewRun>, diag: Option<Seq<char>>, o: AutoReviewLedgerOptions) -> Seq<char> {
    let m = if o.max_bytes < 64 {
        64
    } else {
        o.max_bytes
    };
    let full = join_seqs(ledger_lines(sel, diag, o), "\n"@);
    if byte_len(full) > m {
        truncated_ledger(full, m as nat)
    } else {
        full
    }
}

fn truncate_ledger_to_bytes(ledger: &mut String, max_bytes: usize)
    requires
        byte_len(old(ledger)@) > max_bytes,
    ensures
        final(ledger)@ == truncated_ledger(old(ledger)@, max_bytes as nat),
        byte_len(final(ledger)@) <= max_bytes,
{
    let marker = "\n<truncated />\n</auto_review_ledger>";
    let mv = to_chars(marker);
    proof {
        reveal_strlit("\n<truncated />\n</auto_review_ledger>");
        assert(mv@ == ledger_marker());
        lemma_ascii_byte_len(mv@);
    }
    let ml = mv.len();
    if max_bytes <= ml {
        let s = from_chars_range(&mv, 0, max_bytes);
        proof {
            assert(s@ =~= ledger_marker().take(max_bytes as int));
            lemma_ascii_byte_len(s@);
        }
        *ledger = s;
        return;
    }
    let target = max_bytes - ml;
    let v = to_chars(ledger.as_str());
    let (k, _) = prefix_bytes(&v, target);
    proof {
        lemma_chars_within(v@, target as nat);
    }
    let cut = if v.len() == 0 {
        0
    } else if k < v.len() {
        k
    } else {
        v.len() - 1
    };
    proof {
        if v.len() > 0 && k >= v.len() {
            crate::text::lemma_byte_len_prefix_mono(v@, (v.len() - 1) as int, v.len() as int);
            assert(v@.take(v.len() as int) =~= v@);
        }
        crate::text::lemma_byte_len_prefix_mono(v@, cut as int, k as int);
    }
    let mut out = from_chars_range(&v, 0, cut);
    push_str(&mut out, marker);
    proof {
        assert(out@ =~= v@.take(cut as int) + ledger_marker());
        lemma_byte_len_concat(v@.take(cut as int), ledger_marker());
    }
    *ledger = out;
}

/// The runs at the given positions of `rs`.
pub open spec fn at_positions(rs: Seq<AutoReviewRun>, idx: Seq<usize>) -> Seq<AutoReviewRun> {
    idx.map_values(|i: usize| rs[i as int])
}

/// Positions sorted strictly in listing order.
pub open spec fn positions_sorted(rs: Seq<AutoReviewRun>, idx: Seq<usize>) -> bool {
    forall|a: int, b: int| 0 <= a < b < idx.len() ==> listed_before(rs[idx[a] as int], rs[idx[b] as int])
}

fn insert_listed(v: &mut Vec<usize>, runs: &Vec<AutoReviewRun>, j: usize)
    requires
        j < runs@.len(),
        positions_sorted(runs@, old(v)@),
        forall|i: int| 0 <= i < old(v)@.len() ==> old(v)@[i] < runs@.len() && runs@[old(v)@[i] as int].run_id != runs@[j as int].run_id,
    ensures
        positions_sorted(runs@, final(v)@),
        exists|p: int| 0 <= p <= old(v)@.len() && final(v)@ == old(v)@.insert(p, j),
{
    let mut p: usize = 0;
    while p < v.len() && !listed_precedes(&runs[j], &runs[v[p]])
        invariant
            p <= v.len(),
            j < runs@.len(),
            v@ == old(v)@,
            positions_sorted(runs@, v@),
            forall|i: int| 0 <= i < v@.len() ==> v@[i] < runs@.len() && runs@[v@[i] as int].run_id != runs@[j as int].run_id,
            forall|i: int| 0 <= i < p ==> listed_before(runs@[v@[i] as int], runs@[j as int]),
        decreases v.len() - p,
    {
        proof {
            lemma_listed_total(runs@[v@[p as int] as int], runs@[j as int]);
        }
        p = p + 1;
    }
    let ghost before = v@;
    proof {
        assert forall|b: int| p <= b < before.len() implies listed_before(runs@[j as int], runs@[before[b] as int]) by {
            if b > p {
                lemma_listed_trans(runs@[j as int], runs@[before[p as int] as int], runs@[before[b] as int]);
            }
        }
    }
    v.insert(p, j);
    proof {
        assert(v@ =~= before.insert(p as int, j));
        assert forall|a: int, b: int| 0 <= a < b < v@.len() implies listed_before(runs@[v@[a] as int], runs@[v@[b] as int]) by {
            if b < p {
            } else if a < p && b == p {
            } else if a < p && b > p {
                assert(v@[b] == before[b - 1]);
            } else if a == p {
                assert(v@[b] == before[b - 1]);
            } else {
                assert(v@[a] == before[a - 1]);
                assert(v@[b] == before[b - 1]);
            }
        }
    }
}

proof fn lemma_listed_total(a: AutoReviewRun, b: AutoReviewRun)
    requires
        a.run_id != b.run_id,
    ensures
        listed_before(a, b) || listed_before(b, a),
{
}

proof fn lemma_listed_trans(a: AutoReviewRun, b: AutoReviewRun, c: AutoReviewRun)
    requires
        listed_before(a, b),
        listed_before(b, c),
    ensures
        listed_before(a, c),
{
}
/// The ledger lists runs by priority, highest first, and among runs of
/// equal priority the most recently updated first (then the most recently
/// created, then the larger run id): the order holds between any two listed
/// runs, and between each listed run and every actionable run that the cut
/// to `max_runs` left out.
pub proof fn law_ledger_lists_by_priority_then_recency(
    rs: Seq<AutoReviewRun>,
    o: AutoReviewLedgerOptions,
    sel: Seq<AutoReviewRun>,
)
    requires
        is_ledger_selection(rs, o, sel),
    ensures
        forall|i: int, k: int|
            0 <= i < k < sel.len() ==> priority_spec(#[trigger] sel[i]) >= priority_spec(#[trigger] sel[k])
                && (priority_spec(sel[i]) == priority_spec(sel[k]) ==> sel[i].updated_at >= sel[k].updated_at),
        forall|i: int, k: int|
            0 <= i < k < sel.len() && priority_spec(#[trigger] sel[i]) == priority_spec(#[trigger] sel[k])
                && sel[i].updated_at == sel[k].updated_at ==> sel[i].created_at > sel[k].created_at || (
            sel[i].created_at == sel[k].created_at && sel[i].run_id > sel[k].run_id),
        forall|i: int, r: AutoReviewRun|
            #![trigger sel[i], rs.contains(r)]
            0 <= i < sel.len() && rs.contains(r) && actionable_spec(r, o) && !sel.contains(r)
                ==> priority_spec(sel[i]) >= priority_spec(r) && (priority_spec(sel[i]) == priority_spec(r)
                ==> sel[i].updated_at >= r.updated_at),
{
    assert forall|i: int, k: int| 0 <= i < k < sel.len() implies priority_spec(#[trigger] sel[i]) >= priority_spec(
        #[trigger] sel[k],
    ) && (priority_spec(sel[i]) == priority_spec(sel[k]) ==> sel[i].updated_at >= sel[k].updated_at) by {
        assert(listed_before(sel[i], sel[k]));
    }
    assert forall|i: int, k: int|
        0 <= i < k < sel.len() && priority_spec(#[trigger] sel[i]) == priority_spec(#[trigger] sel[k])
            && sel[i].updated_at == sel[k].updated_at implies sel[i].created_at > sel[k].created_at || (
    sel[i].created_at == sel[k].created_at && sel[i].run_id > sel[k].run_id) by {
        assert(listed_before(sel[i], sel[k]));
    }
    assert forall|i: int, r: AutoReviewRun|
        #![trigger sel[i], rs.contains(r)]
        0 <= i < sel.len() && rs.contains(r) && actionable_spec(r, o) && !sel.contains(r) implies priority_spec(
        sel[i],
    ) >= priority_spec(r) && (priority_spec(sel[i]) == priority_spec(r) ==> sel[i].updated_at >= r.updated_at) by {
        assert(listed_before(sel[i], r));
    }
}

/// Among listed runs, running reviews come before finished ones, and among
/// finished ones those with findings come first; a running review is left
/// out by the cut to `max_runs` only when every listed run is running too.
pub proof fn law_ledger_lists_running_then_findings_first(
    rs: Seq<AutoReviewRun>,
    o: AutoReviewLedgerOptions,
    sel: Seq<AutoReviewRun>,
)
    requires
        is_ledger_selection(rs, o, sel),
    ensures
        forall|i: int, k: int|
            0 <= i < k < sel.len() && !is_terminal_spec(#[trigger] sel[k].status) ==> !is_terminal_spec(
                #[trigger] sel[i].status,
            ),
        forall|i: int, k: int|
            0 <= i < k < sel.len() && is_terminal_spec(#[trigger] sel[i].status) && has_findings(#[trigger] sel[k])
                ==> has_findings(sel[i]),
        forall|i: int, r: AutoReviewRun|
            #![trigger sel[i], rs.contains(r)]
            0 <= i < sel.len() && rs.contains(r) && actionable_spec(r, o) && !sel.contains(r) && !is_terminal_spec(
                r.status,
            ) ==> !is_terminal_spec(sel[i].status),
{
    law_ledger_lists_by_priority_then_recency(rs, o, sel);
    assert forall|i: int, k: int|
        0 <= i < k < sel.len() && !is_terminal_spec(#[trigger] sel[k].status) implies !is_terminal_spec(
        #[trigger] sel[i].status,
    ) by {
        assert(priority_spec(sel[i]) >= priority_spec(sel[k]));
    }
    assert forall|i: int, k: int|
        0 <= i < k < sel.len() && is_terminal_spec(#[trigger] sel[i].status) && has_findings(#[trigger] sel[k])
            implies has_findings(sel[i]) by {
        assert(priority_spec(sel[i]) >= priority_spec(sel[k]));
    }
    assert forall|i: int, r: AutoReviewRun|
        #![trigger sel[i], rs.contains(r)]
        0 <= i < sel.len() && rs.contains(r) && actionable_spec(r, o) && !sel.contains(r) && !is_terminal_spec(
            r.status,
        ) implies !is_terminal_spec(sel[i].status) by {
        assert(priority_spec(sel[i]) >= priority_spec(r));
    }
}

/// Whether the compact ledger over `rs` has something to say: a run it
/// lists, or a diagnostics line.
pub open spec fn ledger_has_content(rs: Seq<AutoReviewRun>, o: AutoReviewLedgerOptions) -> bool {
    (exists|i: int| 0 <= i < rs.len() && actionable_spec(#[trigger] rs[i], o)) || diag_line(diag_fold(rs, o)) is Some
}

/// `r` is what the compact ledger over `rs` gives back: `None` exactly when
/// no run is listed and no diagnostics apply, otherwise the ledger text over
/// the selection, within the byte budget.
pub open spec fn is_ledger_result(rs: Seq<AutoReviewRun>, o: AutoReviewLedgerOptions, r: Option<Seq<char>>) -> bool {
    match r {
        None => diag_line(diag_fold(rs, o)) is None && forall|i: int|
            0 <= i < rs.len() ==> !actionable_spec(#[trigger] rs[i], o),
        Some(text) => ledger_has_content(rs, o) && (exists|sel: Seq<AutoReviewRun>|
            is_ledger_selection(rs, o, sel) && text == ledger_text(sel, diag_line(diag_fold(rs, o)), o))
            && byte_len(text) <= if o.max_bytes < 64 {
            64
        } else {
            o.max_bytes
        },
    }
}

/// Builds the compact ledger over `runs` (run ids distinct), or `None` when
/// no run is listed and no diagnostics apply. The text never exceeds
/// `max(max_bytes, 64)` bytes.
#[verifier::rlimit(60)]
pub fn compact_ledger_from_runs(runs: &Vec<AutoReviewRun>, options: &AutoReviewLedgerOptions) -> (r: Option<String>)
    requires
        distinct_ids(runs@),
        forall|i: int| 0 <= i < runs@.len() ==> short_fields_ok(#[trigger] runs@[i]),
    ensures
        is_ledger_result(runs@, *options, opt_view(r)),
{
    let ghost rs = runs@;
    let max_bytes: usize = if options.max_bytes < 64 {
        64
    } else {
        options.max_bytes
    };
    let mut all: Vec<usize> = Vec::new();
    let mut j: usize = 0;
    while j < runs.len()
        invariant
            j <= runs.len(),
            rs == runs@,
            distinct_ids(rs),
            positions_sorted(rs, all@),
            forall|a: int| 0 <= a < all@.len() ==> all@[a] < j && actionable_spec(rs[#[trigger] all@[a] as int], *options),
            forall|t: int| 0 <= t < j && actionable_spec(#[trigger] rs[t], *options) ==> all@.contains(t as usize),
        decreases runs.len() - j,
    {
        if run_is_ledger_actionable(&runs[j], options) {
            let ghost old_all = all@;
            insert_listed(&mut all, runs, j);
            proof {
                let p = choose|p: int| 0 <= p <= old_all.len() && all@ == old_all.insert(p, j);
                assert forall|a: int| 0 <= a < all@.len() implies all@[a] < j + 1 && actionable_spec(rs[#[trigger] all@[a] as int], *options) by {
                    if a < p {
                        assert(all@[a] == old_all[a]);
                    } else if a > p {
                        assert(all@[a] == old_all[a - 1]);
                    }
                }
                assert forall|t: int| 0 <= t < j + 1 && actionable_spec(#[trigger] rs[t], *options) implies all@.contains(t as usize) by {
                    if t == j {
                        assert(all@[p] == j);
                    } else {
                        let a = choose|a: int| 0 <= a < old_all.len() && old_all[a] == t as usize;
                        if a < p {
                            assert(all@[a] == t as usize);
                        } else {
                            assert(all@[a + 1] == t as usize);
                        }
                    }
                }
            }
        }
        j = j + 1;
    }
    let diagnostics = build_ledger_diagnostics(runs, options);
    if all.len() == 0 && diagnostics.is_none() {
        proof {
            assert forall|i: int| 0 <= i < runs@.len() implies !actionable_spec(#[trigger] runs@[i], *options) by {
                if actionable_spec(runs@[i], *options) {
                    assert(all@.contains(i as usize));
                }
            }
        }
        return None;
    }
    proof {
        if all.len() > 0 {
            assert(actionable_spec(rs[all@[0] as int], *options));
        }
        assert(ledger_has_content(rs, *options));
    }
    let limit: usize = if options.max_runs < 1 {
        1
    } else {
        options.max_runs
    };
    let ghost full_all = all@;
    all.truncate(limit);
    let ghost sel = at_positions(rs, all@);
    proof {
        assert(all@ == if limit <= full_all.len() { full_all.subrange(0, limit as int) } else { full_all });
        assert forall|i: int, k: int| 0 <= i < k < sel.len() implies listed_before(sel[i], sel[k]) by {
            assert(all@[i] == full_all[i]);
            assert(all@[k] == full_all[k]);
        }
        assert forall|i: int| 0 <= i < sel.len() implies rs.contains(sel[i]) && actionable_spec(#[trigger] sel[i], *options) by {
            assert(all@[i] == full_all[i]);
            assert(rs[all@[i] as int] == sel[i]);
        }
        assert forall|r: AutoReviewRun| rs.contains(r) && actionable_spec(r, *options) && !sel.contains(r) implies sel.len() == limit && (forall|i: int| 0 <= i < sel.len() ==> listed_before(#[trigger] sel[i], r)) by {
            let t = choose|t: int| 0 <= t < rs.len() && rs[t] == r;
            assert(actionable_spec(rs[t], *options));
            assert(full_all.contains(t as usize));
            let a = choose|a: int| 0 <= a < full_all.len() && full_all[a] == t as usize;
            if a < all@.len() {
                assert(all@[a] == full_all[a]);
                assert(sel[a] == r);
            }
            assert(a >= all@.len());
            assert forall|i: int| 0 <= i < sel.len() implies listed_before(#[trigger] sel[i], r) by {
                assert(all@[i] == full_all[i]);
            }
        }
        assert(is_ledger_selection(rs, *options, sel));
    }
    let mut lines: Vec<String> = Vec::new();
    let mut head = to_owned_string("<auto_review_ledger schema_version=\"1\" max_bytes=\"");
    push_str(&mut head, usize_to_string(max_bytes).as_str());
    push_str(&mut head, "\">");
    lines.push(head);
    lines.push(to_owned_string("Auto Review state for this repo. Listed runs are active or target-applicable by default; diagnostics may include stale/detached history that is not an instruction to re-review or fix. Treat run ids as stable references for future detail lookup with the auto_review_detail tool. Freshness describes run recency; target describes whether findings match the active checkout."));
    let ghost diag = opt_view(diagnostics);
    match diagnostics {
        Some(d) => lines.push(d),
        None => {},
    }
    let ghost start = strings_view(lines@);
    proof {
        assert(start =~= seq![ledger_open(max_bytes as nat), ledger_intro()] + match diag {
            Some(d) => seq![d],
            None => Seq::<Seq<char>>::empty(),
        });
    }
    let mut q: usize = 0;
    while q < all.len()
        invariant
            q <= all.len(),
            rs == runs@,
            sel == at_positions(rs, all@),
            forall|a: int| 0 <= a < all@.len() ==> all@[a] < rs.len(),
            forall|i: int| 0 <= i < rs.len() ==> short_fields_ok(#[trigger] rs[i]),
            strings_view(lines@) == start + runs_lines(sel.take(q as int), *options),
        decreases all.len() - q,
    {
        proof {
            assert(sel.take(q + 1).drop_last() =~= sel.take(q as int));
            assert(sel.take(q + 1).last() == rs[all@[q as int] as int]);
        }
        append_ledger_run(&mut lines, &runs[all[q]], options);
        q = q + 1;
        proof {
            assert(strings_view(lines@) =~= start + runs_lines(sel.take(q as int), *options));
        }
    }
    lines.push(to_owned_string("</auto_review_ledger>"));
    proof {
        assert(sel.take(q as int) =~= sel);
        assert(strings_view(lines@) =~= ledger_lines(sel, diag, *options));
    }
    let mut ledger = join_strings(&lines, "\n");
    let len = str_byte_len(ledger.as_str());
    if len > max_bytes {
        truncate_ledger_to_bytes(&mut ledger, max_bytes);
    }
    proof {
        assert(ledger@ == ledger_text(sel, diag, *options));
    }
    Some(ledger)
}

} // verus!
