//! The auto review run store: the runs of one repository keyed by run id,
//! with the decisions that update them. Reading and writing the runs file and
//! the output sidecars is left to the caller.
use vstd::prelude::*;

use crate::review_detail::{
    AutoReviewDetailError, AutoReviewDetailErrorCode, AutoReviewDetailResponse, ReviewOutputEvent,
    SidecarContent, detail_from_sidecar, digest_of, finding_digests, is_detail_response, opt_str_view, run_id_text, sidecar_error_message, uuid_text,
    SUMMARY_DIGEST_CHARS, MAX_FINDING_DIGESTS, finding_lookup_error, finding_error_message,
};
use crate::review_ledger::{compact_ledger_from_runs, distinct_ids, short_fields_ok, run_short_fields_ok};
use crate::review_run::{
    AutoReviewDuplicateDisposition, AutoReviewDuplicateMatch, AutoReviewFreshness,
    AutoReviewLedgerOptions, AutoReviewRun, AutoReviewRunStatus, is_adoptable_spec,
    is_terminal_spec, marked_status, non_empty_str,
};
use crate::text::{
    contains_text, clone_opt_string, clone_string, opt_view, push_str, str_eq, summarize, summary_of,
    to_owned_string, trim_string, trimmed,
};

verus! {

/// Runs a store keeps when it is opened.
pub const DEFAULT_MAX_RUNS: usize = 500;

/// The runs of one repository, ordered by run id (so each id occurs once),
/// with the paths of their files.
pub struct AutoReviewRunStore {
    root: String,
    runs_path: String,
    outputs_dir: String,
    runs: Vec<AutoReviewRun>,
}

/// Run ids strictly increase along `rs`.
pub open spec fn ids_increasing(rs: Seq<AutoReviewRun>) -> bool {
    forall|i: int, j: int| 0 <= i < j < rs.len() ==> rs[i].run_id < rs[j].run_id
}

proof fn lemma_increasing_distinct(rs: Seq<AutoReviewRun>)
    requires
        ids_increasing(rs),
    ensures
        distinct_ids(rs),
{
}

/// Position of the run with id `id` in `rs`, if any.
pub open spec fn has_id(rs: Seq<AutoReviewRun>, id: u128) -> bool {
    exists|i: int| 0 <= i < rs.len() && rs[i].run_id == id
}

/// `path` joined with the relative component `comp`.
pub open spec fn path_join(path: Seq<char>, comp: Seq<char>) -> Seq<char> {
    if path.len() == 0 {
        comp
    } else if path.last() == '/' {
        path + comp
    } else {
        path + seq!['/'] + comp
    }
}

/// Joins a relative component onto a directory path.
pub fn join_path(path: &str, comp: &str) -> (r: String)
    ensures
        r@ == path_join(path@, comp@),
{
    let v = crate::text::to_chars(path);
    let mut r = to_owned_string(path);
    if v.len() > 0 && v[v.len() - 1] != '/' {
        crate::text::push_char(&mut r, '/');
    }
    push_str(&mut r, comp);
    proof {
        if v.len() > 0 {
            assert(v@.last() == path@.last());
        }
        assert(r@ =~= path_join(path@, comp@));
    }
    r
}

/// Directory, under a repository's review state directory, that holds the
/// automatic review store.
pub fn auto_review_dir_path(state_dir: &str) -> (p: String)
    ensures
        p@ == path_join(state_dir@, "auto-review"@),
{
    proof {
        reveal_strlit("auto-review");
    }
    join_path(state_dir, "auto-review")
}

/// The runs of a runs file by id; a later run with an id replaces an
/// earlier one.
pub open spec fn latest_by_id(rs: Seq<AutoReviewRun>) -> Map<u128, AutoReviewRun>
    decreases rs.len(),
{
    if rs.len() == 0 {
        Map::empty()
    } else {
        latest_by_id(rs.drop_last()).insert(rs.last().run_id, rs.last())
    }
}

/// The runs file lists `a` before `b`: earlier creation, then smaller id.
pub open spec fn file_before(a: AutoReviewRun, b: AutoReviewRun) -> bool {
    a.created_at < b.created_at || (a.created_at == b.created_at && a.run_id < b.run_id)
}

proof fn lemma_file_before_trans(a: AutoReviewRun, b: AutoReviewRun, c: AutoReviewRun)
    requires
        file_before(a, b),
        file_before(b, c),
    ensures
        file_before(a, c),
{
}

fn file_before_exec(a: &AutoReviewRun, b: &AutoReviewRun) -> (r: bool)
    ensures
        r == file_before(*a, *b),
{
    a.created_at < b.created_at || (a.created_at == b.created_at && a.run_id < b.run_id)
}

/// Name of the sidecar file of a run.
pub open spec fn output_file_name(run_id: u128) -> Seq<char> {
    uuid_text(run_id) + ".json"@
}

/// A newer copy of a run: later update, then later creation, then larger id.
pub open spec fn newer_spec(a: AutoReviewRun, b: AutoReviewRun) -> bool {
    a.updated_at > b.updated_at || (a.updated_at == b.updated_at && (a.created_at > b.created_at
        || (a.created_at == b.created_at && a.run_id > b.run_id)))
}

/// Whether `candidate` is newer than `existing`.
pub fn run_is_newer(candidate: &AutoReviewRun, existing: &AutoReviewRun) -> (b: bool)
    ensures
        b == newer_spec(*candidate, *existing),
{
    if candidate.updated_at != existing.updated_at {
        candidate.updated_at > existing.updated_at
    } else if candidate.created_at != existing.created_at {
        candidate.created_at > existing.created_at
    } else {
        candidate.run_id > existing.run_id
    }
}

/// Recency order of compaction: later update, then later creation, then
/// smaller id first.
pub open spec fn more_recent(a: AutoReviewRun, b: AutoReviewRun) -> bool {
    a.updated_at > b.updated_at || (a.updated_at == b.updated_at && (a.created_at > b.created_at
        || (a.created_at == b.created_at && a.run_id < b.run_id)))
}

/// Number of runs of `rs` more recent than `r`.
pub open spec fn rank_of(rs: Seq<AutoReviewRun>, r: AutoReviewRun) -> nat
    decreases rs.len(),
{
    if rs.len() == 0 {
        0
    } else {
        rank_of(rs.drop_last(), r) + if more_recent(rs.last(), r) {
            1nat
        } else {
            0nat
        }
    }
}

/// The runs kept by compaction to `max_runs`, in id order.
pub open spec fn kept_runs(rs: Seq<AutoReviewRun>, max_runs: nat) -> Seq<AutoReviewRun> {
    rs.filter(|r: AutoReviewRun| rank_of(rs, r) < max_runs)
}

/// A run that a duplicate lookup may return.
pub open spec fn duplicate_candidate(r: AutoReviewRun, fp: Seq<char>, excluded: Option<u128>) -> bool {
    Some(r.run_id) != excluded && opt_view(r.diff_fingerprint) == Some(fp) && r.status
        != AutoReviewRunStatus::Lost && r.status != AutoReviewRunStatus::Skipped && r.status
        != AutoReviewRunStatus::Superseded
}

/// Preference among duplicates: adoptable, then with findings, then
/// completed, then the rest.
pub open spec fn duplicate_priority(r: AutoReviewRun) -> nat {
    if is_adoptable_spec(r.status) {
        4
    } else if r.finding_count > 0 || r.finding_digests@.len() > 0 {
        3
    } else if r.status == AutoReviewRunStatus::Completed {
        2
    } else {
        1
    }
}

/// `a` is preferred over `b` as a duplicate.
pub open spec fn preferred_dup(a: AutoReviewRun, b: AutoReviewRun) -> bool {
    duplicate_priority(a) > duplicate_priority(b) || (duplicate_priority(a) == duplicate_priority(b)
        && (a.updated_at > b.updated_at || (a.updated_at == b.updated_at && (a.created_at
        > b.created_at || (a.created_at == b.created_at && a.run_id > b.run_id)))))
}

/// The run at `k` is the duplicate a lookup picks: a candidate preferred
/// over every other candidate.
pub open spec fn best_duplicate(rs: Seq<AutoReviewRun>, fp: Seq<char>, excluded: Option<u128>, k: int) -> bool {
    &&& duplicate_candidate(rs[k], fp, excluded)
    &&& forall|i: int| 0 <= i < rs.len() && i != k && duplicate_candidate(#[trigger] rs[i], fp, excluded) ==> preferred_dup(rs[k], rs[i])
}

/// A duplicate lookup picks one run: among runs with distinct ids only one
/// candidate is preferred over all others. So the lookup without an
/// exclusion, and the excluding form with none, name the same run.
pub proof fn law_duplicate_choice_unique(rs: Seq<AutoReviewRun>, fp: Seq<char>, excluded: Option<u128>, k1: int, k2: int)
    requires
        forall|i: int, j: int| 0 <= i < j < rs.len() ==> rs[i].run_id != rs[j].run_id,
        0 <= k1 < rs.len(),
        0 <= k2 < rs.len(),
        best_duplicate(rs, fp, excluded, k1),
        best_duplicate(rs, fp, excluded, k2),
    ensures
        k1 == k2,
{
    if k1 != k2 {
        assert(preferred_dup(rs[k1], rs[k2]));
        assert(preferred_dup(rs[k2], rs[k1]));
        if k1 < k2 {
            assert(rs[k1].run_id != rs[k2].run_id);
        } else {
            assert(rs[k2].run_id != rs[k1].run_id);
        }
    }
}

fn preferred_duplicate(a: &AutoReviewRun, b: &AutoReviewRun) -> (r: bool)
    ensures
        r == preferred_dup(*a, *b),
{
    let pa = dup_priority(a);
    let pb = dup_priority(b);
    if pa != pb {
        pa > pb
    } else if a.updated_at != b.updated_at {
        a.updated_at > b.updated_at
    } else if a.created_at != b.created_at {
        a.created_at > b.created_at
    } else {
        a.run_id > b.run_id
    }
}

fn dup_priority(r: &AutoReviewRun) -> (p: u8)
    ensures
        p == duplicate_priority(*r),
{
    if r.status.is_adoptable_duplicate() {
        4
    } else if r.finding_count > 0 || r.finding_digests.len() > 0 {
        3
    } else if r.status == AutoReviewRunStatus::Completed {
        2
    } else {
        1
    }
}

/// How a duplicate request treats the run.
pub open spec fn disposition_spec(r: AutoReviewRun) -> AutoReviewDuplicateDisposition {
    if is_adoptable_spec(r.status) {
        AutoReviewDuplicateDisposition::Adopt
    } else if r.status == AutoReviewRunStatus::Completed {
        AutoReviewDuplicateDisposition::ReuseTerminal
    } else {
        AutoReviewDuplicateDisposition::SupersedeTerminal
    }
}

/// The branch a duplicate match reports: the branch, else the batch id.
pub open spec fn branch_or_batch(r: AutoReviewRun) -> Option<Seq<char>> {
    match opt_view(r.branch) {
        Some(b) => Some(b),
        None => opt_view(r.batch_id),
    }
}

/// `m` describes run `r`.
pub open spec fn is_match_of(m: AutoReviewDuplicateMatch, r: AutoReviewRun) -> bool {
    &&& m.run_id == r.run_id
    &&& m.status == r.status
    &&& m.disposition == disposition_spec(r)
    &&& opt_view(m.agent_id) == opt_view(r.agent_id)
    &&& opt_view(m.snapshot_commit) == opt_view(r.snapshot_commit)
    &&& m.owner_session_id == r.owner_session_id
    &&& opt_view(m.worktree_path) == opt_view(r.worktree_path)
    &&& opt_view(m.branch) == branch_or_batch(r)
    &&& m.finding_count == r.finding_count
    &&& opt_view(m.summary_digest) == opt_view(r.summary_digest)
    &&& m.token_count == r.token_count
    &&& m.prompt_token_estimate == r.prompt_token_estimate
}

/// A duplicate request adopts a review that is still running (reviewing
/// or resolving), reuses a completed one, and supersedes a run in any
/// other status.
pub proof fn law_duplicate_disposition_by_status(m: AutoReviewDuplicateMatch, r: AutoReviewRun)
    requires
        is_match_of(m, r),
    ensures
        r.status == AutoReviewRunStatus::Reviewing ==> m.disposition == AutoReviewDuplicateDisposition::Adopt,
        r.status == AutoReviewRunStatus::Resolving ==> m.disposition == AutoReviewDuplicateDisposition::Adopt,
        r.status == AutoReviewRunStatus::Completed ==> m.disposition == AutoReviewDuplicateDisposition::ReuseTerminal,
        r.status != AutoReviewRunStatus::Reviewing && r.status != AutoReviewRunStatus::Resolving && r.status
            != AutoReviewRunStatus::Completed ==> m.disposition == AutoReviewDuplicateDisposition::SupersedeTerminal,
{
}

/// When a review with the fingerprint is still running (reviewing or
/// resolving), the duplicate a lookup picks is a running one.
pub proof fn law_running_duplicate_preferred(rs: Seq<AutoReviewRun>, fp: Seq<char>, excluded: Option<u128>, k: int, i: int)
    requires
        0 <= k < rs.len(),
        0 <= i < rs.len(),
        best_duplicate(rs, fp, excluded, k),
        duplicate_candidate(rs[i], fp, excluded),
        rs[i].status == AutoReviewRunStatus::Reviewing || rs[i].status == AutoReviewRunStatus::Resolving,
    ensures
        rs[k].status == AutoReviewRunStatus::Reviewing || rs[k].status == AutoReviewRunStatus::Resolving,
{
    if i != k {
        assert(preferred_dup(rs[k], rs[i]));
    }
}

fn match_of(r: &AutoReviewRun) -> (m: AutoReviewDuplicateMatch)
    ensures
        is_match_of(m, *r),
{
    let disposition = if r.status.is_adoptable_duplicate() {
        AutoReviewDuplicateDisposition::Adopt
    } else if r.status == AutoReviewRunStatus::Completed {
        AutoReviewDuplicateDisposition::ReuseTerminal
    } else {
        AutoReviewDuplicateDisposition::SupersedeTerminal
    };
    let branch = match &r.branch {
        Some(b) => Some(clone_string(b)),
        None => clone_opt_string(&r.batch_id),
    };
    AutoReviewDuplicateMatch {
        run_id: r.run_id,
        status: r.status,
        disposition,
        agent_id: clone_opt_string(&r.agent_id),
        snapshot_commit: clone_opt_string(&r.snapshot_commit),
        owner_session_id: r.owner_session_id,
        worktree_path: clone_opt_string(&r.worktree_path),
        branch,
        finding_count: r.finding_count,
        summary_digest: clone_opt_string(&r.summary_digest),
        token_count: r.token_count,
        prompt_token_estimate: r.prompt_token_estimate,
    }
}

/// A terminal clean run of the fingerprint that a new run supersedes.
pub open spec fn supersedable(r: AutoReviewRun, fp: Seq<char>, by: u128) -> bool {
    r.run_id != by && opt_view(r.diff_fingerprint) == Some(fp) && is_terminal_spec(r.status)
        && r.status != AutoReviewRunStatus::Superseded && r.finding_count == 0
        && r.finding_digests@.len() == 0 && r.error_class is None && r.error_summary is None
        && r.cancel_reason is None
}

/// The run after it was superseded by `by` at `now`.
pub open spec fn superseded_run(r: AutoReviewRun, by: u128, now: u64) -> AutoReviewRun {
    marked_status(
        AutoReviewRun { freshness: AutoReviewFreshness::Superseded, superseded_by: Some(by), ..r },
        AutoReviewRunStatus::Superseded,
        now,
    )
}

/// Number of runs of `rs` that satisfy `p`.
pub open spec fn count_where(rs: Seq<AutoReviewRun>, p: spec_fn(AutoReviewRun) -> bool) -> nat
    decreases rs.len(),
{
    if rs.len() == 0 {
        0
    } else {
        count_where(rs.drop_last(), p) + if p(rs.last()) {
            1nat
        } else {
            0nat
        }
    }
}

proof fn lemma_count_le(rs: Seq<AutoReviewRun>, p: spec_fn(AutoReviewRun) -> bool)
    ensures
        count_where(rs, p) <= rs.len(),
    decreases rs.len(),
{
    if rs.len() > 0 {
        lemma_count_le(rs.drop_last(), p);
    }
}

/// A run that the restart reconciliation marks lost: in flight without a
/// live agent.
pub open spec fn orphaned(r: AutoReviewRun, live: Seq<Seq<char>>) -> bool {
    !is_terminal_spec(r.status) && match r.agent_id {
        Some(a) => !live.contains(a@),
        None => true,
    }
}

/// The run after it was marked lost at `now`.
pub open spec fn lost_run(r: AutoReviewRun, now: u64) -> AutoReviewRun {
    let m = marked_status(r, AutoReviewRunStatus::Lost, now);
    AutoReviewRun { freshness: AutoReviewFreshness::Lost, cancel_reason: m.cancel_reason, ..m }
}

/// The reason recorded on a run lost after a restart.
pub open spec fn lost_reason() -> Seq<char> {
    "agent_missing_after_restart"@
}

/// The reason recorded on a run skipped as a duplicate.
pub open spec fn duplicate_reason() -> Seq<char> {
    "duplicate_auto_review_scope"@
}

/// Index of the run with id `id` in `s`.
pub open spec fn index_of_id(s: Seq<AutoReviewRun>, id: u128) -> int {
    choose|k: int| 0 <= k < s.len() && s[k].run_id == id
}

/// The runs of `s` keyed by id.
pub open spec fn seq_map(s: Seq<AutoReviewRun>) -> Map<u128, AutoReviewRun> {
    Map::new(|id: u128| has_id(s, id), |id: u128| s[index_of_id(s, id)])
}

proof fn lemma_index_of_id(s: Seq<AutoReviewRun>, k: int)
    requires
        ids_increasing(s),
        0 <= k < s.len(),
    ensures
        index_of_id(s, s[k].run_id) == k,
        has_id(s, s[k].run_id),
{
    let j = index_of_id(s, s[k].run_id);
    assert(s[j].run_id == s[k].run_id);
}

/// The store after merging one run read back from disk.
pub open spec fn merge_one(m: Map<u128, AutoReviewRun>, r: AutoReviewRun) -> Map<u128, AutoReviewRun> {
    if !m.contains_key(r.run_id) || newer_spec(r, m[r.run_id]) {
        m.insert(r.run_id, r)
    } else {
        m
    }
}

/// The store after merging runs read back from disk, from the last to the
/// first.
pub open spec fn merge_all(m: Map<u128, AutoReviewRun>, rs: Seq<AutoReviewRun>) -> Map<u128, AutoReviewRun>
    decreases rs.len(),
{
    if rs.len() == 0 {
        m
    } else {
        merge_all(merge_one(m, rs.last()), rs.drop_last())
    }
}

fn more_recent_exec(a: &AutoReviewRun, b: &AutoReviewRun) -> (r: bool)
    ensures
        r == more_recent(*a, *b),
{
    if a.updated_at != b.updated_at {
        a.updated_at > b.updated_at
    } else if a.created_at != b.created_at {
        a.created_at > b.created_at
    } else {
        a.run_id < b.run_id
    }
}

proof fn lemma_preferred_trans(a: AutoReviewRun, b: AutoReviewRun, c: AutoReviewRun)
    requires
        a.run_id != b.run_id,
        !preferred_dup(b, a),
        preferred_dup(b, c),
    ensures
        preferred_dup(a, c),
{
}

proof fn lemma_filter_cons(s: Seq<AutoReviewRun>, f: spec_fn(AutoReviewRun) -> bool)
    requires
        s.len() > 0,
    ensures
        s.filter(f) == if f(s[0]) {
            seq![s[0]] + s.drop_first().filter(f)
        } else {
            s.drop_first().filter(f)
        },
    decreases s.len(),
{
    reveal_with_fuel(Seq::filter, 2);
    if s.len() == 1 {
        assert(s.drop_first() =~= Seq::<AutoReviewRun>::empty());
        assert(s.drop_last() =~= Seq::<AutoReviewRun>::empty());
    } else {
        lemma_filter_cons(s.drop_last(), f);
        assert(s.drop_last().drop_first() =~= s.drop_first().drop_last());
        assert(s.drop_first().last() == s.last());
        assert(s.drop_last()[0] == s[0]);
    }
}

proof fn lemma_filter_increasing(s: Seq<AutoReviewRun>, f: spec_fn(AutoReviewRun) -> bool)
    requires
        ids_increasing(s),
    ensures
        ids_increasing(s.filter(f)),
    decreases s.len(),
{
    reveal_with_fuel(Seq::filter, 1);
    if s.len() > 0 {
        lemma_filter_increasing(s.drop_last(), f);
        let p = s.drop_last().filter(f);
        if f(s.last()) {
            assert forall|i: int| 0 <= i < p.len() implies p[i].run_id < s.last().run_id by {
                s.drop_last().lemma_filter_contains_rev(f, p[i]);
                assert(p.contains(p[i]));
                let k = choose|k: int| 0 <= k < s.drop_last().len() && s.drop_last()[k] == p[i];
            }
        }
    }
}

/// Every run of `rs` more recent than `b` is more recent than `a` too, and
/// `b` itself is: `a` ranks after `b`.
proof fn lemma_rank_after(rs: Seq<AutoReviewRun>, a: AutoReviewRun, b: AutoReviewRun)
    requires
        more_recent(b, a),
    ensures
        rank_of(rs, a) >= rank_of(rs, b),
        rs.contains(b) ==> rank_of(rs, a) > rank_of(rs, b),
    decreases rs.len(),
{
    if rs.len() > 0 {
        lemma_rank_after(rs.drop_last(), a, b);
        if rs.contains(b) && !rs.drop_last().contains(b) {
            let k = choose|k: int| 0 <= k < rs.len() && rs[k] == b;
            if k < rs.len() - 1 {
                assert(rs.drop_last()[k] == b);
            }
            assert(rs.last() == b);
        }
        if rs.drop_last().contains(b) {
            assert(rs.contains(b));
        }
    }
}

/// Compaction keeps the most recent runs: at most `max_runs` of them, and
/// each kept run is more recent than each run let go.
pub proof fn law_compaction_keeps_most_recent(rs: Seq<AutoReviewRun>, max_runs: nat)
    requires
        ids_increasing(rs),
    ensures
        kept_runs(rs, max_runs).len() <= max_runs,
        forall|a: AutoReviewRun, b: AutoReviewRun|
            #![trigger kept_runs(rs, max_runs).contains(a), rs.contains(b)]
            kept_runs(rs, max_runs).contains(a) && rs.contains(b) && !kept_runs(rs, max_runs).contains(b)
                ==> more_recent(a, b),
{
    let keep = |r: AutoReviewRun| rank_of(rs, r) < max_runs;
    let kept = rs.filter(keep);
    assert(kept == kept_runs(rs, max_runs));
    lemma_filter_increasing(rs, keep);
    assert forall|i: int| 0 <= i < kept.len() implies rs.contains(#[trigger] kept[i]) && rank_of(rs, kept[i]) < max_runs by {
        rs.lemma_filter_pred(keep, i);
        assert(kept.contains(kept[i]));
        rs.lemma_filter_contains_rev(keep, kept[i]);
    }
    let x = vstd::set_lib::set_int_range(0, kept.len() as int);
    let f = |i: int| rank_of(rs, kept[i]) as int;
    vstd::set_lib::lemma_int_range(0, kept.len() as int);
    vstd::set_lib::lemma_int_range(0, max_runs as int);
    assert forall|i: int, j: int| x.contains(i) && x.contains(j) && #[trigger] f(i) == #[trigger] f(j) implies i == j by {
        if i != j {
            let (a, b) = (kept[i], kept[j]);
            if i < j {
                assert(a.run_id < b.run_id);
            } else {
                assert(b.run_id < a.run_id);
            }
            if more_recent(a, b) {
                lemma_rank_after(rs, b, a);
            } else {
                assert(more_recent(b, a));
                lemma_rank_after(rs, a, b);
            }
        }
    }
    assert(vstd::relations::injective_on(f, x));
    vstd::set_lib::lemma_map_size(x, x.map(f), f);
    assert(x.map(f).subset_of(vstd::set_lib::set_int_range(0, max_runs as int))) by {
        assert forall|v: int| x.map(f).contains(v) implies vstd::set_lib::set_int_range(0, max_runs as int).contains(v) by {
            let i = choose|i: int| x.contains(i) && f(i) == v;
        }
    }
    vstd::set_lib::lemma_len_subset(x.map(f), vstd::set_lib::set_int_range(0, max_runs as int));
    assert forall|a: AutoReviewRun, b: AutoReviewRun|
        kept.contains(a) && rs.contains(b) && !kept.contains(b) implies more_recent(a, b) by {
        let i = choose|i: int| 0 <= i < kept.len() && kept[i] == a;
        let k = choose|k: int| 0 <= k < rs.len() && rs[k] == b;
        if rank_of(rs, b) < max_runs {
            rs.lemma_filter_contains(keep, k);
        }
        if more_recent(b, a) {
            lemma_rank_after(rs, a, b);
        } else if a.run_id == b.run_id {
            let ia = choose|ia: int| 0 <= ia < rs.len() && rs[ia] == a;
            if ia != k {
                if ia < k {
                    assert(rs[ia].run_id < rs[k].run_id);
                } else {
                    assert(rs[k].run_id < rs[ia].run_id);
                }
            }
        }
    }
}

proof fn lemma_update_map(s: Seq<AutoReviewRun>, i: int, r: AutoReviewRun)
    requires
        ids_increasing(s),
        0 <= i < s.len(),
        r.run_id == s[i].run_id,
    ensures
        ids_increasing(s.update(i, r)),
        seq_map(s.update(i, r)) == seq_map(s).insert(r.run_id, r),
        seq_map(s.update(i, r))[r.run_id] == r,
{
    let t = s.update(i, r);
    assert forall|id: u128| has_id(t, id) <==> has_id(s, id) by {
        if has_id(t, id) {
            let k = choose|k: int| 0 <= k < t.len() && t[k].run_id == id;
            assert(s[k].run_id == id);
        }
        if has_id(s, id) {
            let k = choose|k: int| 0 <= k < s.len() && s[k].run_id == id;
            assert(t[k].run_id == id);
        }
    }
    lemma_index_of_id(s, i);
    assert forall|id: u128| #[trigger] has_id(t, id) implies t[index_of_id(t, id)] == seq_map(s).insert(r.run_id, r)[id] by {
        let k = index_of_id(t, id);
        lemma_index_of_id(t, k);
        if k != i {
            lemma_index_of_id(s, k);
        }
    }
    assert(seq_map(t) =~= seq_map(s).insert(r.run_id, r));
}

impl AutoReviewRunStore {
    /// The runs, in id order.
    pub closed spec fn runs_view(&self) -> Seq<AutoReviewRun> {
        self.runs@
    }

    /// The runs keyed by id.
    pub open spec fn runs_map(&self) -> Map<u128, AutoReviewRun> {
        seq_map(self.runs_view())
    }

    /// The store's directory.
    pub closed spec fn root_view(&self) -> Seq<char> {
        self.root@
    }

    /// The directory of the output sidecars.
    pub closed spec fn outputs_view(&self) -> Seq<char> {
        self.outputs_dir@
    }

    /// The path of the runs file.
    pub closed spec fn runs_path_view(&self) -> Seq<char> {
        self.runs_path@
    }

    /// Runs are held in strictly increasing id order.
    pub closed spec fn wf(&self) -> bool {
        ids_increasing(self.runs@)
    }

    /// The paths are those of `other`.
    pub open spec fn same_paths(&self, other: &Self) -> bool {
        &&& self.root_view() == other.root_view()
        &&& self.outputs_view() == other.outputs_view()
        &&& self.runs_path_view() == other.runs_path_view()
    }

    /// An empty store over the given paths.
    pub fn new(root: String, runs_path: String, outputs_dir: String) -> (s: Self)
        ensures
            s.wf(),
            s.runs_view().len() == 0,
            s.root_view() == root@,
            s.runs_path_view() == runs_path@,
            s.outputs_view() == outputs_dir@,
    {
        AutoReviewRunStore { root, runs_path, outputs_dir, runs: Vec::new() }
    }

    /// The store kept in directory `root`, holding the runs read back from
    /// its runs file; when they are more than `DEFAULT_MAX_RUNS`, only the
    /// most recent of them are kept.
    pub fn open_in_dir(root: String, stored: Vec<AutoReviewRun>) -> (s: Self)
        ensures
            s.wf(),
            s.root_view() == root@,
            s.runs_path_view() == path_join(root@, "runs.json"@),
            s.outputs_view() == path_join(root@, "outputs"@),
            exists|held: Seq<AutoReviewRun>|
                {
                    &&& ids_increasing(held)
                    &&& seq_map(held) == latest_by_id(stored@)
                    &&& s.runs_view() == if held.len() > DEFAULT_MAX_RUNS {
                        kept_runs(held, DEFAULT_MAX_RUNS as nat)
                    } else {
                        held
                    }
                },
    {
        proof {
            reveal_strlit("runs.json");
            reveal_strlit("outputs");
        }
        let runs_path = join_path(root.as_str(), "runs.json");
        let outputs_dir = join_path(root.as_str(), "outputs");
        let mut store = AutoReviewRunStore::new(root, runs_path, outputs_dir);
        let mut rest = stored;
        let ghost all = rest@;
        proof {
            assert(store.runs_map() =~= Map::<u128, AutoReviewRun>::empty());
            assert(latest_by_id(all) =~= latest_by_id(rest@).union_prefer_right(store.runs_map()));
        }
        while rest.len() > 0
            invariant
                store.wf(),
                store.root_view() == root@,
                store.runs_path_view() == path_join(root@, "runs.json"@),
                store.outputs_view() == path_join(root@, "outputs"@),
                latest_by_id(all) == latest_by_id(rest@).union_prefer_right(store.runs_map()),
            decreases rest.len(),
        {
            let ghost before = rest@;
            let ghost m0 = store.runs_map();
            let run = rest.pop().unwrap();
            proof {
                assert(before.drop_last() =~= rest@);
            }
            let (_i, found) = store.position(run.run_id);
            if !found {
                store.upsert(run);
                proof {
                    assert(!m0.dom().contains(before.last().run_id));
                    assert(latest_by_id(before).union_prefer_right(m0) =~= latest_by_id(rest@).union_prefer_right(store.runs_map()));
                }
            } else {
                proof {
                    assert(m0.dom().contains(before.last().run_id));
                    assert(latest_by_id(before).union_prefer_right(m0) =~= latest_by_id(rest@).union_prefer_right(store.runs_map()));
                }
            }
        }
        proof {
            assert(latest_by_id(rest@) =~= Map::<u128, AutoReviewRun>::empty());
            assert(latest_by_id(all) =~= store.runs_map());
        }
        let ghost held = store.runs_view();
        if store.runs.len() > DEFAULT_MAX_RUNS {
            store.compact_in_place(DEFAULT_MAX_RUNS);
        }
        store
    }

    /// The order in which the runs file lists the runs: positions into
    /// `runs()`, by creation time and then run id.
    pub fn file_order(&self) -> (order: Vec<usize>)
        requires
            self.wf(),
        ensures
            order@.len() == self.runs_view().len(),
            forall|i: int| 0 <= i < order@.len() ==> order@[i] < self.runs_view().len(),
            forall|m: usize| m < self.runs_view().len() ==> #[trigger] order@.contains(m),
            forall|i: int, j: int|
                0 <= i < j < order@.len() ==> file_before(
                    self.runs_view()[order@[i] as int],
                    self.runs_view()[order@[j] as int],
                ),
    {
        let n = self.runs.len();
        let ghost rs = self.runs@;
        let mut order: Vec<usize> = Vec::new();
        let mut k: usize = 0;
        while k < n
            invariant
                n == rs.len(),
                rs == self.runs@,
                ids_increasing(rs),
                k <= n,
                order@.len() == k,
                forall|i: int| 0 <= i < order@.len() ==> order@[i] < k,
                forall|m: usize| m < k ==> #[trigger] order@.contains(m),
                forall|i: int, j: int| 0 <= i < j < order@.len() ==> file_before(rs[order@[i] as int], rs[order@[j] as int]),
            decreases n - k,
        {
            let mut p: usize = 0;
            while p < order.len() && !file_before_exec(&self.runs[k], &self.runs[order[p]])
                invariant
                    n == rs.len(),
                    rs == self.runs@,
                    k < n,
                    ids_increasing(rs),
                    p <= order@.len(),
                    forall|i: int| 0 <= i < order@.len() ==> order@[i] < k,
                    forall|i: int| 0 <= i < p ==> file_before(rs[order@[i] as int], rs[k as int]),
                decreases order@.len() - p,
            {
                proof {
                    assert(rs[k as int].run_id != rs[order@[p as int] as int].run_id);
                }
                p = p + 1;
            }
            let ghost before = order@;
            order.insert(p, k);
            proof {
                assert forall|m: usize| m < k + 1 implies #[trigger] order@.contains(m) by {
                    if m == k {
                        assert(order@[p as int] == m);
                    } else {
                        assert(before.contains(m));
                        let i = choose|i: int| 0 <= i < before.len() && before[i] == m;
                        if i < p {
                            assert(order@[i] == m);
                        } else {
                            assert(order@[i + 1] == m);
                        }
                    }
                }
                assert forall|i: int, j: int| 0 <= i < j < order@.len() implies file_before(rs[order@[i] as int], rs[order@[j] as int]) by {
                    if j < p {
                        assert(order@[i] == before[i] && order@[j] == before[j]);
                    } else if j == p {
                        assert(order@[i] == before[i]);
                    } else if i == p {
                        assert(order@[j] == before[j - 1]);
                        if j - 1 > p {
                            lemma_file_before_trans(rs[k as int], rs[before[p as int] as int], rs[before[j - 1] as int]);
                        }
                    } else if i < p {
                        assert(order@[i] == before[i] && order@[j] == before[j - 1]);
                    } else {
                        assert(order@[i] == before[i - 1] && order@[j] == before[j - 1]);
                    }
                }
            }
            k = k + 1;
        }
        order
    }

    /// The store's directory.
    pub fn root(&self) -> (r: &str)
        ensures
            r@ == self.root_view(),
    {
        self.root.as_str()
    }

    /// The path of the runs file.
    pub fn runs_path(&self) -> (r: &str)
        ensures
            r@ == self.runs_path_view(),
    {
        self.runs_path.as_str()
    }

    /// The path of a run's output sidecar.
    pub fn output_path_for(&self, run_id: u128) -> (p: String)
        ensures
            p@ == path_join(self.outputs_view(), output_file_name(run_id)),
    {
        let mut name = run_id_text(run_id);
        push_str(&mut name, ".json");
        proof {
            reveal_strlit(".json");
        }
        join_path(self.outputs_dir.as_str(), name.as_str())
    }

    /// The runs in id order.
    pub fn runs(&self) -> (r: &[AutoReviewRun])
        ensures
            r@ == self.runs_view(),
    {
        self.runs.as_slice()
    }

    fn position(&self, run_id: u128) -> (r: (usize, bool))
        requires
            self.wf(),
        ensures
            r.0 <= self.runs_view().len(),
            forall|i: int| 0 <= i < r.0 ==> self.runs_view()[i].run_id < run_id,
            r.1 == (r.0 < self.runs_view().len() && self.runs_view()[r.0 as int].run_id == run_id),
            !r.1 ==> forall|i: int| r.0 <= i < self.runs_view().len() ==> self.runs_view()[i].run_id > run_id,
            r.1 == has_id(self.runs_view(), run_id),
    {
        let mut i: usize = 0;
        while i < self.runs.len() && self.runs[i].run_id < run_id
            invariant
                i <= self.runs.len(),
                ids_increasing(self.runs@),
                forall|j: int| 0 <= j < i ==> self.runs@[j].run_id < run_id,
            decreases self.runs.len() - i,
        {
            i = i + 1;
        }
        proof {
            if has_id(self.runs@, run_id) {
                let k = choose|k: int| 0 <= k < self.runs@.len() && self.runs@[k].run_id == run_id;
                if k > i as int {
                    assert(self.runs@[i as int].run_id < self.runs@[k].run_id);
                }
            }
        }
        (i, i < self.runs.len() && self.runs[i].run_id == run_id)
    }

    /// The run with id `run_id`, if recorded.
    pub fn get(&self, run_id: u128) -> (r: Option<&AutoReviewRun>)
        requires
            self.wf(),
        ensures
            match r {
                Some(run) => self.runs_map().contains_key(run_id) && *run == self.runs_map()[run_id],
                None => !self.runs_map().contains_key(run_id),
            },
    {
        let (i, found) = self.position(run_id);
        if found {
            proof {
                lemma_index_of_id(self.runs@, i as int);
            }
            Some(&self.runs[i])
        } else {
            None
        }
    }

    /// Records `run`, replacing the run with the same id.
    pub fn upsert(&mut self, run: AutoReviewRun)
        requires
            old(self).wf(),
        ensures
            final(self).wf(),
            final(self).same_paths(old(self)),
            final(self).runs_map() == old(self).runs_map().insert(run.run_id, run),
    {
        let (i, found) = self.position(run.run_id);
        let ghost before = self.runs@;
        let ghost rid = run.run_id;
        if found {
            self.runs.set(i, run);
        } else {
            self.runs.insert(i, run);
        }
        proof {
            let after = self.runs@;
            if found {
                assert(after =~= before.update(i as int, run));
            } else {
                assert(after =~= before.insert(i as int, run));
            }
            assert forall|a: int, b: int| 0 <= a < b < after.len() implies after[a].run_id < after[b].run_id by {
                if found {
                } else {
                    if b < i {
                    } else if a < i && b == i {
                    } else if a < i {
                        assert(after[b] == before[b - 1]);
                    } else if a == i {
                        assert(after[b] == before[b - 1]);
                    } else {
                        assert(after[a] == before[a - 1]);
                        assert(after[b] == before[b - 1]);
                    }
                }
            }
            let m0 = seq_map(before).insert(rid, after[i as int]);
            assert forall|id: u128| has_id(after, id) <==> (has_id(before, id) || id == rid) by {
                if has_id(after, id) {
                    let k = choose|k: int| 0 <= k < after.len() && after[k].run_id == id;
                    if k != i {
                        if found || k < i {
                            assert(before[k].run_id == id);
                        } else {
                            assert(before[k - 1].run_id == id);
                        }
                    }
                }
                if has_id(before, id) {
                    let k = choose|k: int| 0 <= k < before.len() && before[k].run_id == id;
                    if found || k < i {
                        assert(after[k].run_id == id);
                    } else {
                        assert(after[k + 1].run_id == id);
                    }
                }
                if id == rid {
                    assert(after[i as int].run_id == id);
                }
            }
            assert forall|id: u128| #[trigger] has_id(after, id) implies after[index_of_id(after, id)] == m0[id] by {
                let k = index_of_id(after, id);
                lemma_index_of_id(after, k);
                if id != rid {
                    let kb = if found || k < i { k } else { k - 1 };
                    assert(before[kb] == after[k]);
                    lemma_index_of_id(before, kb);
                }
            }
            assert(seq_map(after) =~= m0);
        }
    }

    /// Merges runs read back from disk (later ones first): a run not held
    /// yet is added, a held run is replaced by a newer copy.
    pub fn merge_latest(&mut self, latest: Vec<AutoReviewRun>)
        requires
            old(self).wf(),
        ensures
            final(self).wf(),
            final(self).same_paths(old(self)),
            final(self).runs_map() == merge_all(old(self).runs_map(), latest@),
    {
        let mut latest = latest;
        let ghost all = latest@;
        while latest.len() > 0
            invariant
                self.wf(),
                self.same_paths(old(self)),
                merge_all(old(self).runs_map(), all) == merge_all(self.runs_map(), latest@),
            decreases latest.len(),
        {
            let ghost before_latest = latest@;
            let run = latest.pop().unwrap();
            proof {
                assert(before_latest.drop_last() =~= latest@);
            }
            let (i, found) = self.position(run.run_id);
            if !found {
                self.upsert(run);
            } else {
                proof {
                    lemma_index_of_id(self.runs@, i as int);
                }
                if run_is_newer(&run, &self.runs[i]) {
                    self.upsert(run);
                }
            }
        }
    }

    /// Keeps the `max_runs` most recent runs (by update time, then creation
    /// time, then smaller id).
    pub fn compact_in_place(&mut self, max_runs: usize)
        requires
            old(self).wf(),
        ensures
            final(self).wf(),
            final(self).same_paths(old(self)),
            final(self).runs_view() == kept_runs(old(self).runs_view(), max_runs as nat),
    {
        let ghost rs = self.runs@;
        let mut kept: Vec<AutoReviewRun> = Vec::new();
        let mut rest: Vec<AutoReviewRun> = Vec::new();
        std::mem::swap(&mut rest, &mut self.runs);
        proof {
            assert(rest@ == rs);
        }
        let mut ranks: Vec<usize> = Vec::new();
        let mut i: usize = 0;
        while i < rest.len()
            invariant
                i <= rest.len(),
                rest@ == rs,
                ranks@.len() == i,
                forall|j: int| 0 <= j < i ==> ranks@[j] == rank_of(rs, rs[j]),
            decreases rest.len() - i,
        {
            let mut c: usize = 0;
            let mut k: usize = 0;
            while k < rest.len()
                invariant
                    k <= rest.len(),
                    i < rest.len(),
                    rest@ == rs,
                    c == rank_of(rs.take(k as int), rs[i as int]),
                    c <= k,
                decreases rest.len() - k,
            {
                proof {
                    assert(rs.take(k + 1).drop_last() =~= rs.take(k as int));
                }
                if more_recent_exec(&rest[k], &rest[i]) {
                    c = c + 1;
                }
                k = k + 1;
            }
            proof {
                assert(rs.take(k as int) =~= rs);
            }
            ranks.push(c);
            i = i + 1;
        }
        let mut out: Vec<AutoReviewRun> = Vec::new();
        let ghost filt = |r: AutoReviewRun| rank_of(rs, r) < max_runs as nat;
        while rest.len() > 0
            invariant
                filt == (|r: AutoReviewRun| rank_of(rs, r) < max_runs as nat),
                rest@.len() <= rs.len(),
                rest@ == rs.take(rest@.len() as int),
                ranks@.len() == rs.len(),
                forall|j: int| 0 <= j < rs.len() ==> ranks@[j] == rank_of(rs, rs[j]),
                out@ == rs.subrange(rest@.len() as int, rs.len() as int).filter(filt),
            decreases rest.len(),
        {
            let n = rest.len();
            let ghost before_pop = rest@;
            let r = rest.pop().unwrap();
            proof {
                assert(before_pop[n - 1] == rs.take(n as int)[n - 1]);
                assert(r == rs[n - 1]);
                assert(rest@ =~= rs.take(n - 1));
                let tail = rs.subrange(n - 1, rs.len() as int);
                assert(tail.drop_first() =~= rs.subrange(n as int, rs.len() as int));
                lemma_filter_cons(tail, filt);
            }
            let ghost before_out = out@;
            if ranks[n - 1] < max_runs {
                out.insert(0, r);
                proof {
                    assert(out@ =~= seq![r] + before_out);
                }
            }
            proof {
                assert(out@ =~= rs.subrange((n - 1) as int, rs.len() as int).filter(filt));
            }
        }
        proof {
            assert(rs.subrange(0, rs.len() as int) =~= rs);
            lemma_filter_increasing(rs, filt);
        }
        self.runs = out;
    }

    /// Marks lost every in-flight run whose agent is not among the live
    /// agents; returns how many runs changed.
    pub fn reconcile_orphaned_in_flight(&mut self, live_agent_ids: &Vec<String>, now: u64) -> (changed: usize)
        requires
            old(self).wf(),
        ensures
            final(self).wf(),
            final(self).same_paths(old(self)),
            final(self).runs_view().len() == old(self).runs_view().len(),
            forall|i: int|
                #![trigger old(self).runs_view()[i]]
                0 <= i < old(self).runs_view().len() ==> {
                    let r = old(self).runs_view()[i];
                    let n = final(self).runs_view()[i];
                    if orphaned(r, crate::text::strings_view(live_agent_ids@)) {
                        &&& n == AutoReviewRun { cancel_reason: n.cancel_reason, ..lost_run(r, now) }
                        &&& opt_view(n.cancel_reason) == Some(lost_reason())
                    } else {
                        n == r
                    }
                },
            changed == count_where(old(self).runs_view(), |r: AutoReviewRun| orphaned(r, crate::text::strings_view(live_agent_ids@))),
    {
        let ghost live = crate::text::strings_view(live_agent_ids@);
        let ghost pred = |r: AutoReviewRun| orphaned(r, live);
        let ghost rs = self.runs@;
        let mut changed: usize = 0;
        let mut i: usize = 0;
        while i < self.runs.len()
            invariant
                i <= self.runs@.len() == rs.len(),
                live == crate::text::strings_view(live_agent_ids@),
                pred == (|r: AutoReviewRun| orphaned(r, live)),
                self.same_paths(old(self)),
                rs == old(self).runs_view(),
                forall|j: int| 0 <= j < rs.len() ==> self.runs@[j].run_id == rs[j].run_id,
                forall|j: int| i <= j < rs.len() ==> self.runs@[j] == rs[j],
                forall|j: int|
                    #![trigger rs[j]]
                    0 <= j < i ==> {
                        let r = rs[j];
                        let n = self.runs@[j];
                        if orphaned(r, live) {
                            &&& n == AutoReviewRun { cancel_reason: n.cancel_reason, ..lost_run(r, now) }
                            &&& opt_view(n.cancel_reason) == Some(lost_reason())
                        } else {
                            n == r
                        }
                    },
                changed == count_where(rs.take(i as int), pred),
                changed <= i,
            decreases rs.len() - i,
        {
            proof {
                assert(rs.take(i + 1).drop_last() =~= rs.take(i as int));
            }
            let orphan = if self.runs[i].status.is_in_flight() {
                match &self.runs[i].agent_id {
                    Some(a) => !contains_text(live_agent_ids, a.as_str()),
                    None => true,
                }
            } else {
                false
            };
            proof {
                assert(self.runs@[i as int] == rs[i as int]);
                assert(orphan == pred(rs[i as int]));
            }
            let ghost before_i = self.runs@;
            if orphan {
                let mut r = self.runs.remove(i);
                r.mark_status(AutoReviewRunStatus::Lost, now);
                r.freshness = AutoReviewFreshness::Lost;
                let reason = to_owned_string("agent_missing_after_restart");
                proof {
                    reveal_strlit("agent_missing_after_restart");
                }
                r.cancel_reason = Some(reason);
                self.runs.insert(i, r);
                proof {
                    assert(self.runs@ =~= before_i.update(i as int, r));
                }
                changed = changed + 1;
            }
            i = i + 1;
        }
        proof {
            assert(rs.take(i as int) =~= rs);
            assert forall|a: int, b: int| 0 <= a < b < self.runs@.len() implies self.runs@[a].run_id < self.runs@[b].run_id by {
                assert(rs[a].run_id < rs[b].run_id);
            }
        }
        changed
    }

    /// The preferred earlier run of the same diff fingerprint, ignoring the
    /// run `excluded_run_id`; `None` for a blank fingerprint.
    pub fn find_duplicate_by_fingerprint_excluding(&self, diff_fingerprint: &str, excluded_run_id: Option<u128>) -> (m: Option<AutoReviewDuplicateMatch>)
        requires
            self.wf(),
        ensures
            trimmed(diff_fingerprint@).len() == 0 ==> m is None,
            trimmed(diff_fingerprint@).len() > 0 ==> match m {
                None => forall|i: int| 0 <= i < self.runs_view().len() ==> !duplicate_candidate(#[trigger] self.runs_view()[i], trimmed(diff_fingerprint@), excluded_run_id),
                Some(mm) => exists|k: int| #![trigger self.runs_view()[k]] 0 <= k < self.runs_view().len()
                    && best_duplicate(self.runs_view(), trimmed(diff_fingerprint@), excluded_run_id, k)
                    && is_match_of(mm, self.runs_view()[k]),
            },
    {
        let fp = trim_string(diff_fingerprint);
        if fp.as_str().is_empty() {
            return None;
        }
        let ghost rs = self.runs@;
        let mut best: Option<usize> = None;
        let mut i: usize = 0;
        while i < self.runs.len()
            invariant
                i <= self.runs@.len(),
                rs == self.runs@,
                ids_increasing(rs),
                fp@ == trimmed(diff_fingerprint@),
                match best {
                    None => forall|j: int| 0 <= j < i ==> !duplicate_candidate(#[trigger] rs[j], fp@, excluded_run_id),
                    Some(b) => b < i && duplicate_candidate(rs[b as int], fp@, excluded_run_id) && forall|j: int| 0 <= j < i && j != b && duplicate_candidate(#[trigger] rs[j], fp@, excluded_run_id) ==> preferred_dup(rs[b as int], rs[j]),
                },
            decreases rs.len() - i,
        {
            let r = &self.runs[i];
            let fp_match = match &r.diff_fingerprint {
                Some(d) => str_eq(d.as_str(), fp.as_str()),
                None => false,
            };
            let candidate = excluded_run_id != Some(r.run_id) && fp_match
                && r.status != AutoReviewRunStatus::Lost && r.status != AutoReviewRunStatus::Skipped
                && r.status != AutoReviewRunStatus::Superseded;
            if candidate {
                match best {
                    None => {
                        best = Some(i);
                    },
                    Some(b) => {
                        if !preferred_duplicate(&self.runs[b], r) {
                            proof {
                                assert(rs[b as int].run_id != rs[i as int].run_id);
                                assert forall|j: int| 0 <= j < i + 1 && j != i && duplicate_candidate(#[trigger] rs[j], fp@, excluded_run_id) implies preferred_dup(rs[i as int], rs[j]) by {
                                    if j != b {
                                        lemma_preferred_trans(rs[i as int], rs[b as int], rs[j]);
                                    }
                                }
                            }
                            best = Some(i);
                        }
                    },
                }
            }
            i = i + 1;
        }
        match best {
            Some(b) => {
                let m = match_of(&self.runs[b]);
                proof {
                    let k = b as int;
                    assert(self.runs_view()[k] == rs[k]);
                }
                Some(m)
            },
            None => None,
        }
    }

    /// The preferred earlier run of the same diff fingerprint.
    pub fn find_duplicate_by_fingerprint(&self, diff_fingerprint: &str) -> (m: Option<AutoReviewDuplicateMatch>)
        requires
            self.wf(),
        ensures
            trimmed(diff_fingerprint@).len() == 0 ==> m is None,
            trimmed(diff_fingerprint@).len() > 0 ==> match m {
                None => forall|i: int| 0 <= i < self.runs_view().len() ==> !duplicate_candidate(#[trigger] self.runs_view()[i], trimmed(diff_fingerprint@), None),
                Some(mm) => exists|k: int| #![trigger self.runs_view()[k]] 0 <= k < self.runs_view().len()
                    && best_duplicate(self.runs_view(), trimmed(diff_fingerprint@), None, k)
                    && is_match_of(mm, self.runs_view()[k]),
            },
    {
        self.find_duplicate_by_fingerprint_excluding(diff_fingerprint, None)
    }

    /// Supersedes every finished clean run of the same diff fingerprint by
    /// the run `superseded_by`; returns how many runs changed.
    pub fn mark_superseded_by_fingerprint(&mut self, diff_fingerprint: &str, superseded_by: u128, now: u64) -> (changed: usize)
        requires
            old(self).wf(),
        ensures
            final(self).wf(),
            final(self).same_paths(old(self)),
            final(self).runs_view().len() == old(self).runs_view().len(),
            trimmed(diff_fingerprint@).len() == 0 ==> changed == 0 && final(self).runs_view() == old(self).runs_view(),
            trimmed(diff_fingerprint@).len() > 0 ==> {
                &&& forall|i: int|
                    #![trigger old(self).runs_view()[i]]
                    0 <= i < old(self).runs_view().len() ==> final(self).runs_view()[i] == if supersedable(old(self).runs_view()[i], trimmed(diff_fingerprint@), superseded_by) {
                        superseded_run(old(self).runs_view()[i], superseded_by, now)
                    } else {
                        old(self).runs_view()[i]
                    }
                &&& changed == count_where(old(self).runs_view(), |r: AutoReviewRun| supersedable(r, trimmed(diff_fingerprint@), superseded_by))
            },
    {
        let fp = trim_string(diff_fingerprint);
        if fp.as_str().is_empty() {
            return 0;
        }
        let ghost rs = self.runs@;
        let ghost pred = |r: AutoReviewRun| supersedable(r, fp@, superseded_by);
        let mut changed: usize = 0;
        let mut i: usize = 0;
        while i < self.runs.len()
            invariant
                i <= self.runs@.len() == rs.len(),
                rs == old(self).runs_view(),
                fp@ == trimmed(diff_fingerprint@),
                pred == (|r: AutoReviewRun| supersedable(r, fp@, superseded_by)),
                self.same_paths(old(self)),
                forall|j: int| i <= j < rs.len() ==> self.runs@[j] == rs[j],
                forall|j: int|
                    #![trigger rs[j]]
                    0 <= j < i ==> self.runs@[j] == if pred(rs[j]) {
                        superseded_run(rs[j], superseded_by, now)
                    } else {
                        rs[j]
                    },
                changed == count_where(rs.take(i as int), pred),
                changed <= i,
            decreases rs.len() - i,
        {
            proof {
                assert(rs.take(i + 1).drop_last() =~= rs.take(i as int));
            }
            let r = &self.runs[i];
            let fp_match = match &r.diff_fingerprint {
                Some(d) => str_eq(d.as_str(), fp.as_str()),
                None => false,
            };
            let eligible = r.run_id != superseded_by && fp_match && !r.status.is_in_flight()
                && r.status != AutoReviewRunStatus::Superseded && r.finding_count == 0
                && r.finding_digests.len() == 0 && r.error_class.is_none()
                && r.error_summary.is_none() && r.cancel_reason.is_none();
            proof {
                assert(eligible == pred(rs[i as int]));
            }
            let ghost before_i = self.runs@;
            if eligible {
                let mut r = self.runs.remove(i);
                r.freshness = AutoReviewFreshness::Superseded;
                r.superseded_by = Some(superseded_by);
                r.mark_status(AutoReviewRunStatus::Superseded, now);
                self.runs.insert(i, r);
                proof {
                    assert(self.runs@ =~= before_i.update(i as int, r));
                }
                changed = changed + 1;
            }
            i = i + 1;
        }
        proof {
            assert(rs.take(i as int) =~= rs);
            assert forall|a: int, b: int| 0 <= a < b < self.runs@.len() implies self.runs@[a].run_id < self.runs@[b].run_id by {
                assert(rs[a].run_id < rs[b].run_id);
            }
        }
        changed
    }

    /// Records that run `run_id` was skipped as a duplicate of
    /// `duplicate_run_id`; nothing changes when the run is not recorded.
    pub fn mark_skipped_duplicate(&mut self, run_id: u128, duplicate_run_id: u128, diff_fingerprint: Option<&str>, saved_token_estimate: Option<u64>, now: u64)
        requires
            old(self).wf(),
        ensures
            final(self).wf(),
            final(self).same_paths(old(self)),
            !old(self).runs_map().contains_key(run_id) ==> final(self).runs_map() == old(self).runs_map(),
            old(self).runs_map().contains_key(run_id) ==> {
                let r = old(self).runs_map()[run_id];
                let n = final(self).runs_map()[run_id];
                &&& final(self).runs_map() == old(self).runs_map().insert(run_id, n)
                &&& n == AutoReviewRun {
                    diff_fingerprint: n.diff_fingerprint,
                    cancel_reason: n.cancel_reason,
                    ..marked_status(AutoReviewRun {
                        saved_token_estimate,
                        freshness: AutoReviewFreshness::Superseded,
                        superseded_by: Some(duplicate_run_id),
                        ..r
                    }, AutoReviewRunStatus::Skipped, now)
                }
                &&& opt_view(n.diff_fingerprint) == match diff_fingerprint {
                    Some(f) => if trimmed(f@).len() > 0 { Some(trimmed(f@)) } else { opt_view(r.diff_fingerprint) },
                    None => opt_view(r.diff_fingerprint),
                }
                &&& opt_view(n.cancel_reason) == Some(duplicate_reason())
            },
    {
        let (i, found) = self.position(run_id);
        if !found {
            return;
        }
        proof {
            lemma_index_of_id(self.runs@, i as int);
        }
        let ghost before = self.runs@;
        let mut r = self.runs.remove(i);
        if let Some(f) = diff_fingerprint {
            if let Some(t) = non_empty_str(f) {
                r.diff_fingerprint = Some(t);
            }
        }
        r.saved_token_estimate = saved_token_estimate;
        r.freshness = AutoReviewFreshness::Superseded;
        r.superseded_by = Some(duplicate_run_id);
        let reason = to_owned_string("duplicate_auto_review_scope");
        proof {
            reveal_strlit("duplicate_auto_review_scope");
        }
        r.cancel_reason = Some(reason);
        r.mark_status(AutoReviewRunStatus::Skipped, now);
        self.runs.insert(i, r);
        proof {
            let after = self.runs@;
            assert(after =~= before.update(i as int, r));
            lemma_update_map(before, i as int, r);
        }
    }

    /// Records the review output of run `run_id` (its sidecar path, finding
    /// count, digests and summary) and gives back the sidecar path; `None`
    /// when the run is not recorded.
    pub fn record_output(&mut self, run_id: u128, output: &ReviewOutputEvent) -> (p: Option<String>)
        requires
            old(self).wf(),
        ensures
            final(self).wf(),
            final(self).same_paths(old(self)),
            p is None <==> !old(self).runs_map().contains_key(run_id),
            p is None ==> final(self).runs_map() == old(self).runs_map(),
            p is Some ==> {
                let r = old(self).runs_map()[run_id];
                let n = final(self).runs_map()[run_id];
                let k = n.finding_digests@.len();
                &&& p.unwrap()@ == path_join(old(self).outputs_view(), output_file_name(run_id))
                &&& final(self).runs_map() == old(self).runs_map().insert(run_id, n)
                &&& n == AutoReviewRun {
                    output_path: n.output_path,
                    finding_digests: n.finding_digests,
                    summary_digest: n.summary_digest,
                    finding_count: output.findings@.len() as usize,
                    omitted_finding_digest_count: (output.findings@.len() - k) as usize,
                    ..r
                }
                &&& opt_view(n.output_path) == Some(p.unwrap()@)
                &&& k == if output.findings@.len() < MAX_FINDING_DIGESTS { output.findings@.len() } else { MAX_FINDING_DIGESTS as nat }
                &&& forall|j: int| 0 <= j < k ==> digest_of(output.findings@[j], j as nat, #[trigger] n.finding_digests@[j])
                &&& opt_view(n.summary_digest) == summary_of(output.overall_explanation@, SUMMARY_DIGEST_CHARS as nat)
            },
    {
        let (i, found) = self.position(run_id);
        if !found {
            return None;
        }
        proof {
            lemma_index_of_id(self.runs@, i as int);
        }
        let path = self.output_path_for(run_id);
        let ghost before = self.runs@;
        let mut r = self.runs.remove(i);
        r.output_path = Some(clone_string(&path));
        r.finding_count = output.findings.len();
        let digests = finding_digests(output);
        r.omitted_finding_digest_count = output.findings.len() - digests.len();
        r.finding_digests = digests;
        r.summary_digest = summarize(output.overall_explanation.as_str(), SUMMARY_DIGEST_CHARS);
        self.runs.insert(i, r);
        proof {
            let after = self.runs@;
            assert(after =~= before.update(i as int, r));
            lemma_update_map(before, i as int, r);
        }
        Some(path)
    }

    /// The path of a run's sidecar: its recorded output path, else the
    /// default one.
    pub fn sidecar_path(&self, run: &AutoReviewRun) -> (p: String)
        ensures
            p@ == match opt_view(run.output_path) {
                Some(x) => x,
                None => path_join(self.outputs_view(), output_file_name(run.run_id)),
            },
    {
        match &run.output_path {
            Some(x) => clone_string(x),
            None => self.output_path_for(run.run_id),
        }
    }

    /// Looks up the bounded detail of run `run_id` given what was found at its
    /// sidecar path (see `sidecar_path`).
    pub fn read_detail(&self, run_id: u128, finding_id: Option<&str>, max_bytes: Option<usize>, sidecar: SidecarContent) -> (r: Result<AutoReviewDetailResponse, AutoReviewDetailError>)
        requires
            self.wf(),
        ensures
            !self.runs_map().contains_key(run_id) ==> (r matches Err(e) && e.code == AutoReviewDetailErrorCode::MissingRun && e.run_id == run_id && opt_view(e.finding_id) == opt_str_view(finding_id) && e.message@ == "auto review run "@ + uuid_text(run_id) + " was not found in the durable run ledger"@),
            self.runs_map().contains_key(run_id) ==> {
                let run = self.runs_map()[run_id];
                let path = match opt_view(run.output_path) {
                    Some(x) => x,
                    None => path_join(self.outputs_view(), output_file_name(run_id)),
                };
                match sidecar {
                    SidecarContent::Parsed(o) => match finding_lookup_error(o, opt_str_view(finding_id)) {
                        Some(code) => (r matches Err(e) && e.code == code && e.run_id == run_id
                            && e.message@ == finding_error_message(o, finding_id.unwrap()@, run_id)),
                        None => (r matches Ok(resp) && is_detail_response(resp, run, path, o, opt_str_view(finding_id), max_bytes)),
                    },
                    SidecarContent::Missing => (r matches Err(e) && e.run_id == run_id && e.message@ == sidecar_error_message(run_id, path, sidecar) && e.code == AutoReviewDetailErrorCode::MissingSidecar),
                    _ => (r matches Err(e) && e.run_id == run_id && e.message@ == sidecar_error_message(run_id, path, sidecar) && e.code == AutoReviewDetailErrorCode::InvalidSidecar),
                }
            },
    {
        match self.get(run_id) {
            None => {
                let mut message = to_owned_string("auto review run ");
                push_str(&mut message, run_id_text(run_id).as_str());
                push_str(&mut message, " was not found in the durable run ledger");
                let fid = match finding_id {
                    Some(x) => Some(to_owned_string(x)),
                    None => None,
                };
                Err(AutoReviewDetailError { code: AutoReviewDetailErrorCode::MissingRun, run_id, finding_id: fid, message })
            },
            Some(run) => {
                let path = self.sidecar_path(run);
                detail_from_sidecar(run, path.as_str(), sidecar, finding_id, max_bytes)
            },
        }
    }

    /// Whether every run's short values (snapshot, agent id) are cut at
    /// character boundaries by the ledger.
    pub fn ledger_fields_ok(&self) -> (b: bool)
        ensures
            b == forall|i: int| 0 <= i < self.runs_view().len() ==> short_fields_ok(#[trigger] self.runs_view()[i]),
    {
        let mut i: usize = 0;
        while i < self.runs.len()
            invariant
                i <= self.runs.len(),
                forall|j: int| 0 <= j < i ==> short_fields_ok(#[trigger] self.runs@[j]),
            decreases self.runs.len() - i,
        {
            if !run_short_fields_ok(&self.runs[i]) {
                assert(!short_fields_ok(self.runs_view()[i as int]));
                return false;
            }
            i = i + 1;
        }
        assert forall|k: int| 0 <= k < self.runs_view().len() implies short_fields_ok(#[trigger] self.runs_view()[k]) by {
            assert(short_fields_ok(self.runs@[k]));
        }
        true
    }

    /// The compact ledger of the store's runs.
    pub fn compact_ledger(&self, options: &AutoReviewLedgerOptions) -> (r: Option<String>)
        requires
            self.wf(),
            forall|i: int| 0 <= i < self.runs_view().len() ==> short_fields_ok(#[trigger] self.runs_view()[i]),
        ensures
            crate::review_ledger::is_ledger_result(self.runs_view(), *options, opt_view(r)),
    {
        proof {
            lemma_increasing_distinct(self.runs@);
            assert forall|k: int| 0 <= k < self.runs@.len() implies short_fields_ok(#[trigger] self.runs@[k]) by {
                assert(short_fields_ok(self.runs_view()[k]));
            }
        }
        compact_ledger_from_runs(&self.runs, options)
    }
}

} // verus!
