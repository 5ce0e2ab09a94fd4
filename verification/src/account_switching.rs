//! Choosing the account to switch to when the active one hits a rate or
//! usage limit, and the account a new session should start on. Times are
//! instants of one clock (such as seconds since the Unix epoch), usage is
//! given by integers that order as the percentages do, and reading accounts
//! and usage or activating an account is left to the caller.
use vstd::prelude::*;

use crate::order::{lemma_seq_lt_irrefl, lemma_seq_lt_trans, seq_lt};
use crate::text::{clone_string, push_line, str_eq, strings_view, to_owned_string};

verus! {

/// How an account signs in.
#[derive(Debug, Clone, Copy, PartialEq, Eq, Structural)]
pub enum AuthMode {
    ApiKey,
    ChatGPT,
    ChatgptAuthTokens,
}

/// Accounts that sign in through ChatGPT.
pub open spec fn is_chatgpt_spec(m: AuthMode) -> bool {
    m == AuthMode::ChatGPT || m == AuthMode::ChatgptAuthTokens
}

impl AuthMode {
    /// Whether the account signs in through ChatGPT.
    pub fn is_chatgpt(&self) -> (b: bool)
        ensures
            b == is_chatgpt_spec(*self),
    {
        match self {
            AuthMode::ApiKey => false,
            AuthMode::ChatGPT | AuthMode::ChatgptAuthTokens => true,
        }
    }
}

/// Why a rate limit was reached.
#[derive(Debug, Clone, Copy, PartialEq, Eq, Structural)]
pub enum RateLimitReachedType {
    RateLimitReached,
    WorkspaceOwnerCreditsDepleted,
    WorkspaceMemberCreditsDepleted,
    WorkspaceOwnerUsageLimitReached,
    WorkspaceMemberUsageLimitReached,
    /// Any other kind of limit.
    Other,
}

/// The kinds of limit that block an account until its usage resets.
pub open spec fn usage_limit_kind(r: RateLimitReachedType) -> bool {
    r != RateLimitReachedType::Other
}

/// Whether a kind of limit blocks an account until its usage resets.
pub fn is_usage_limit_reached_type(reached: RateLimitReachedType) -> (b: bool)
    ensures
        b == usage_limit_kind(reached),
{
    match reached {
        RateLimitReachedType::RateLimitReached
        | RateLimitReachedType::WorkspaceOwnerCreditsDepleted
        | RateLimitReachedType::WorkspaceMemberCreditsDepleted
        | RateLimitReachedType::WorkspaceOwnerUsageLimitReached
        | RateLimitReachedType::WorkspaceMemberUsageLimitReached => true,
        RateLimitReachedType::Other => false,
    }
}

/// A stored account: its id, how it signs in, and which credentials it
/// holds.
#[derive(Debug, Clone)]
pub struct StoredAccount {
    pub id: String,
    pub mode: AuthMode,
    pub has_tokens: bool,
    pub has_api_key: bool,
}

/// The account holds the credentials its mode needs.
pub open spec fn has_credentials_spec(a: StoredAccount) -> bool {
    match a.mode {
        AuthMode::ChatGPT | AuthMode::ChatgptAuthTokens => a.has_tokens,
        AuthMode::ApiKey => a.has_api_key,
    }
}

/// Whether the account holds the credentials its mode needs.
pub fn account_has_credentials(account: &StoredAccount) -> (b: bool)
    ensures
        b == has_credentials_spec(*account),
{
    match account.mode {
        AuthMode::ChatGPT | AuthMode::ChatgptAuthTokens => account.has_tokens,
        AuthMode::ApiKey => account.has_api_key,
    }
}

/// The limits of the last rate limit report of an account.
#[derive(Debug, Clone, Copy)]
pub struct UsageLimits {
    pub rate_limit_reached_type: Option<RateLimitReachedType>,
    /// The primary window is used up (100% or more).
    pub primary_exhausted: bool,
    /// The secondary window is used up (100% or more).
    pub secondary_exhausted: bool,
    /// The larger used percentage of the two windows, as an integer that
    /// orders as the percentages do (0 for 0%); `None` when it is not a
    /// finite number.
    pub used_percent_rank: Option<i64>,
}

/// What is stored of an account's usage.
#[derive(Debug, Clone)]
pub struct StoredRateLimitSnapshot {
    pub account_id: String,
    pub snapshot: Option<UsageLimits>,
    pub primary_next_reset_at: Option<i64>,
    pub secondary_next_reset_at: Option<i64>,
    pub last_usage_limit_hit_at: Option<i64>,
}

/// The larger of two optional instants.
pub open spec fn opt_max(a: Option<i64>, b: Option<i64>) -> Option<i64> {
    match (a, b) {
        (Some(x), Some(y)) => Some(if x >= y { x } else { y }),
        (Some(x), None) => Some(x),
        (None, Some(y)) => Some(y),
        (None, None) => None,
    }
}

fn opt_max_exec(a: Option<i64>, b: Option<i64>) -> (r: Option<i64>)
    ensures
        r == opt_max(a, b),
{
    match (a, b) {
        (Some(x), Some(y)) => Some(if x >= y { x } else { y }),
        (Some(x), None) => Some(x),
        (None, Some(y)) => Some(y),
        (None, None) => None,
    }
}

/// Until when a usage report blocks its account: when a usage limit was
/// reached, a window is used up or a limit hit was noted, the later reset
/// of the affected windows, else the noted hit.
pub open spec fn usage_blocked_until_spec(s: StoredRateLimitSnapshot) -> Option<i64> {
    let reached = match s.snapshot {
        Some(l) => match l.rate_limit_reached_type {
            Some(t) => usage_limit_kind(t),
            None => false,
        },
        None => false,
    };
    let primary_exhausted = match s.snapshot {
        Some(l) => l.primary_exhausted,
        None => false,
    };
    let secondary_exhausted = match s.snapshot {
        Some(l) => l.secondary_exhausted,
        None => false,
    };
    let hinted = s.last_usage_limit_hit_at is Some;
    if reached || primary_exhausted || secondary_exhausted || hinted {
        let p = if reached || primary_exhausted || hinted {
            s.primary_next_reset_at
        } else {
            None
        };
        let q = if reached || secondary_exhausted || hinted {
            s.secondary_next_reset_at
        } else {
            None
        };
        match opt_max(p, q) {
            Some(x) => Some(x),
            None => s.last_usage_limit_hit_at,
        }
    } else {
        None
    }
}

/// Until when a usage report blocks its account.
pub fn usage_reset_blocked_until(snapshot: &StoredRateLimitSnapshot) -> (r: Option<i64>)
    ensures
        r == usage_blocked_until_spec(*snapshot),
{
    let reached = match &snapshot.snapshot {
        Some(l) => match l.rate_limit_reached_type {
            Some(t) => is_usage_limit_reached_type(t),
            None => false,
        },
        None => false,
    };
    let (primary_exhausted, secondary_exhausted) = match &snapshot.snapshot {
        Some(l) => (l.primary_exhausted, l.secondary_exhausted),
        None => (false, false),
    };
    let hinted = snapshot.last_usage_limit_hit_at.is_some();
    if reached || primary_exhausted || secondary_exhausted || hinted {
        let p = if reached || primary_exhausted || hinted {
            snapshot.primary_next_reset_at
        } else {
            None
        };
        let q = if reached || secondary_exhausted || hinted {
            snapshot.secondary_next_reset_at
        } else {
            None
        };
        return match opt_max_exec(p, q) {
            Some(x) => Some(x),
            None => snapshot.last_usage_limit_hit_at,
        };
    }
    None
}

/// The used percentage rank of a report, if it has a finite one.
pub open spec fn used_rank_spec(s: StoredRateLimitSnapshot) -> Option<i64> {
    match s.snapshot {
        Some(l) => l.used_percent_rank,
        None => None,
    }
}

/// The used percentage rank of a report.
pub fn usage_used_percent(snapshot: &StoredRateLimitSnapshot) -> (r: Option<i64>)
    ensures
        r == used_rank_spec(*snapshot),
{
    match &snapshot.snapshot {
        Some(l) => l.used_percent_rank,
        None => None,
    }
}

/// The reset an account is ranked by: the secondary window's if it lies
/// ahead, else the primary window's if it lies ahead.
pub open spec fn preferred_reset_spec(s: StoredRateLimitSnapshot, now: i64) -> Option<i64> {
    match s.secondary_next_reset_at {
        Some(x) if x > now => Some(x),
        _ => match s.primary_next_reset_at {
            Some(y) if y > now => Some(y),
            _ => None,
        },
    }
}

/// The reset an account is ranked by.
pub fn usage_preferred_reset_at(snapshot: &StoredRateLimitSnapshot, now: i64) -> (r: Option<i64>)
    ensures
        r == preferred_reset_spec(*snapshot, now),
{
    match snapshot.secondary_next_reset_at {
        Some(x) if x > now => Some(x),
        _ => match snapshot.primary_next_reset_at {
            Some(y) if y > now => Some(y),
            _ => None,
        },
    }
}

/// The report of an account: the last one for its id.
pub open spec fn snapshot_for(snaps: Seq<StoredRateLimitSnapshot>, id: Seq<char>) -> Option<StoredRateLimitSnapshot>
    decreases snaps.len(),
{
    if snaps.len() == 0 {
        None
    } else if snaps.last().account_id@ == id {
        Some(snaps.last())
    } else {
        snapshot_for(snaps.drop_last(), id)
    }
}

/// Finds the report of an account.
pub fn find_snapshot<'a>(snaps: &'a Vec<StoredRateLimitSnapshot>, id: &str) -> (r: Option<&'a StoredRateLimitSnapshot>)
    ensures
        match r {
            Some(s) => snapshot_for(snaps@, id@) == Some(*s),
            None => snapshot_for(snaps@, id@) is None,
        },
{
    let mut i: usize = snaps.len();
    proof {
        assert(snaps@.take(snaps@.len() as int) =~= snaps@);
    }
    while i > 0
        invariant
            i <= snaps.len(),
            snapshot_for(snaps@, id@) == snapshot_for(snaps@.take(i as int), id@),
        decreases i,
    {
        proof {
            assert(snaps@.take(i as int).drop_last() =~= snaps@.take(i - 1));
            assert(snaps@.take(i as int).last() == snaps@[i - 1]);
        }
        if str_eq(snaps[i - 1].account_id.as_str(), id) {
            return Some(&snaps[i - 1]);
        }
        i = i - 1;
    }
    None
}

/// How an account ranks as a candidate: its reset, then its usage.
pub struct CandidateScore {
    pub reset_at: Option<i64>,
    pub used_percent: i64,
}

/// The score of an account from its report; no report ranks as no reset
/// and no usage.
pub open spec fn score_spec(snaps: Seq<StoredRateLimitSnapshot>, id: Seq<char>, now: i64) -> CandidateScore {
    match snapshot_for(snaps, id) {
        Some(s) => CandidateScore {
            reset_at: preferred_reset_spec(s, now),
            used_percent: match used_rank_spec(s) {
                Some(r) => r,
                None => 0,
            },
        },
        None => CandidateScore { reset_at: None, used_percent: 0 },
    }
}

/// Scores the account with id `account_id`.
pub fn candidate_score(snapshots: &Vec<StoredRateLimitSnapshot>, account_id: &str, now: i64) -> (s: CandidateScore)
    ensures
        s == score_spec(snapshots@, account_id@, now),
{
    match find_snapshot(snapshots, account_id) {
        Some(snap) => CandidateScore {
            reset_at: usage_preferred_reset_at(snap, now),
            used_percent: match usage_used_percent(snap) {
                Some(r) => r,
                None => 0,
            },
        },
        None => CandidateScore { reset_at: None, used_percent: 0 },
    }
}

/// A score is better than another: an earlier reset; any reset over none;
/// else lower usage.
pub open spec fn better_spec(a: CandidateScore, b: CandidateScore) -> bool {
    match (a.reset_at, b.reset_at) {
        (Some(x), Some(y)) => if x != y {
            x < y
        } else {
            a.used_percent < b.used_percent
        },
        (Some(_), None) => true,
        (None, Some(_)) => false,
        (None, None) => a.used_percent < b.used_percent,
    }
}

/// Whether `score` is better than `best_score`.
pub fn score_is_better(score: &CandidateScore, best_score: &CandidateScore) -> (b: bool)
    ensures
        b == better_spec(*score, *best_score),
{
    match (score.reset_at, best_score.reset_at) {
        (Some(x), Some(y)) => if x != y {
            x < y
        } else {
            score.used_percent < best_score.used_percent
        },
        (Some(_), None) => true,
        (None, Some(_)) => false,
        (None, None) => score.used_percent < best_score.used_percent,
    }
}

/// An account is blocked while its block lies ahead.
pub open spec fn blocked_spec(now: i64, until: Option<i64>) -> bool {
    match until {
        Some(u) => u > now,
        None => false,
    }
}

/// Whether a block lies ahead of `now`.
pub fn is_blocked(now: i64, blocked_until: Option<i64>) -> (b: bool)
    ensures
        b == blocked_spec(now, blocked_until),
{
    match blocked_until {
        Some(u) => u > now,
        None => false,
    }
}

/// The instant stored for `k` among pairs whose keys are distinct.
pub open spec fn time_for(s: Seq<(Seq<char>, i64)>, k: Seq<char>) -> Option<i64>
    decreases s.len(),
{
    if s.len() == 0 {
        None
    } else if s.last().0 == k {
        Some(s.last().1)
    } else {
        time_for(s.drop_last(), k)
    }
}

/// Keys of the pairs are distinct.
pub open spec fn distinct_keys(s: Seq<(Seq<char>, i64)>) -> bool {
    forall|i: int, j: int| 0 <= i < j < s.len() ==> (#[trigger] s[i]).0 != (#[trigger] s[j]).0
}

/// The pairs as keys and instants.
pub open spec fn pairs_view(v: Seq<(String, i64)>) -> Seq<(Seq<char>, i64)> {
    v.map_values(|p: (String, i64)| (p.0@, p.1))
}

proof fn lemma_time_for_absent(s: Seq<(Seq<char>, i64)>, k: Seq<char>)
    requires
        forall|i: int| 0 <= i < s.len() ==> (#[trigger] s[i]).0 != k,
    ensures
        time_for(s, k) is None,
    decreases s.len(),
{
    if s.len() > 0 {
        lemma_time_for_absent(s.drop_last(), k);
    }
}

proof fn lemma_time_for_at(s: Seq<(Seq<char>, i64)>, p: int)
    requires
        distinct_keys(s),
        0 <= p < s.len(),
    ensures
        time_for(s, s[p].0) == Some(s[p].1),
    decreases s.len(),
{
    if p < s.len() - 1 {
        assert(s.last().0 != s[p].0);
        assert(s.drop_last()[p] == s[p]);
        lemma_time_for_at(s.drop_last(), p);
    }
}

proof fn lemma_time_for_update(s: Seq<(Seq<char>, i64)>, p: int, v: i64, k: Seq<char>)
    requires
        distinct_keys(s),
        0 <= p < s.len(),
    ensures
        distinct_keys(s.update(p, (s[p].0, v))),
        time_for(s.update(p, (s[p].0, v)), k) == if k == s[p].0 {
            Some(v)
        } else {
            time_for(s, k)
        },
    decreases s.len(),
{
    let n = s.update(p, (s[p].0, v));
    if p == s.len() - 1 {
        assert(n.drop_last() =~= s.drop_last());
        if k != s[p].0 {
        }
    } else {
        assert(n.drop_last() =~= s.drop_last().update(p, (s[p].0, v)));
        assert(s.drop_last()[p] == s[p]);
        lemma_time_for_update(s.drop_last(), p, v, k);
    }
}

proof fn lemma_time_for_remove(s: Seq<(Seq<char>, i64)>, p: int, k: Seq<char>)
    requires
        distinct_keys(s),
        0 <= p < s.len(),
    ensures
        distinct_keys(s.remove(p)),
        time_for(s.remove(p), k) == if k == s[p].0 {
            None
        } else {
            time_for(s, k)
        },
    decreases s.len(),
{
    let n = s.remove(p);
    if p == s.len() - 1 {
        assert(n =~= s.drop_last());
        if k == s[p].0 {
            assert forall|i: int| 0 <= i < n.len() implies (#[trigger] n[i]).0 != k by {
                assert(n[i] == s[i]);
            }
            lemma_time_for_absent(n, k);
        }
    } else {
        assert(n.drop_last() =~= s.drop_last().remove(p));
        assert(n.last() == s.last());
        assert(s.drop_last()[p] == s[p]);
        lemma_time_for_remove(s.drop_last(), p, k);
    }
}

proof fn lemma_time_for_push(s: Seq<(Seq<char>, i64)>, k: Seq<char>, v: i64, q: Seq<char>)
    requires
        distinct_keys(s),
        time_for(s, k) is None,
    ensures
        distinct_keys(s.push((k, v))),
        time_for(s.push((k, v)), q) == if q == k {
            Some(v)
        } else {
            time_for(s, q)
        },
{
    assert(s.push((k, v)).drop_last() =~= s);
    assert forall|i: int| 0 <= i < s.len() implies (#[trigger] s[i]).0 != k by {
        if s[i].0 == k {
            lemma_time_for_at(s, i);
        }
    }
}

/// What a rate limit switch remembers across attempts: the accounts tried,
/// the ChatGPT accounts found limited, and until when accounts are blocked.
#[derive(Debug)]
pub struct RateLimitSwitchState {
    tried_accounts: Vec<String>,
    limited_chatgpt_accounts: Vec<String>,
    blocked_until: Vec<(String, i64)>,
}

impl RateLimitSwitchState {
    #[verifier::type_invariant]
    closed spec fn keys_distinct(&self) -> bool {
        distinct_keys(pairs_view(self.blocked_until@))
    }

    /// The account was tried.
    pub closed spec fn tried(&self, id: Seq<char>) -> bool {
        strings_view(self.tried_accounts@).contains(id)
    }

    /// The ChatGPT account was found limited.
    pub closed spec fn limited(&self, id: Seq<char>) -> bool {
        strings_view(self.limited_chatgpt_accounts@).contains(id)
    }

    /// Until when the account is blocked.
    pub closed spec fn blocked_at(&self, id: Seq<char>) -> Option<i64> {
        time_for(pairs_view(self.blocked_until@), id)
    }

    /// A state that remembers nothing.
    pub fn new() -> (s: Self)
        ensures
            forall|id: Seq<char>| !s.tried(id) && !s.limited(id) && s.blocked_at(id) is None,
    {
        let s = RateLimitSwitchState { tried_accounts: Vec::new(), limited_chatgpt_accounts: Vec::new(), blocked_until: Vec::new() };
        proof {
            assert(strings_view(s.tried_accounts@) =~= Seq::<Seq<char>>::empty());
            assert(strings_view(s.limited_chatgpt_accounts@) =~= Seq::<Seq<char>>::empty());
            assert(pairs_view(s.blocked_until@) =~= Seq::<(Seq<char>, i64)>::empty());
        }
        s
    }

    fn find_blocked(&self, account_id: &str) -> (r: Option<usize>)
        ensures
            match r {
                Some(p) => p < self.blocked_until@.len() && self.blocked_until@[p as int].0@ == account_id@,
                None => self.blocked_at(account_id@) is None,
            },
    {
        let mut i: usize = 0;
        while i < self.blocked_until.len()
            invariant
                i <= self.blocked_until.len(),
                forall|q: int| 0 <= q < i ==> (#[trigger] pairs_view(self.blocked_until@)[q]).0 != account_id@,
            decreases self.blocked_until.len() - i,
        {
            if str_eq(self.blocked_until[i].0.as_str(), account_id) {
                return Some(i);
            }
            i = i + 1;
        }
        proof {
            lemma_time_for_absent(pairs_view(self.blocked_until@), account_id@);
        }
        None
    }

    /// Until when the account is blocked.
    pub fn blocked_until(&self, account_id: &str) -> (r: Option<i64>)
        ensures
            r == self.blocked_at(account_id@),
    {
        proof {
            use_type_invariant(self);
        }
        match self.find_blocked(account_id) {
            Some(p) => {
                proof {
                    lemma_time_for_at(pairs_view(self.blocked_until@), p as int);
                }
                Some(self.blocked_until[p].1)
            },
            None => None,
        }
    }

    /// Whether the account was tried.
    pub fn has_tried(&self, account_id: &str) -> (b: bool)
        ensures
            b == self.tried(account_id@),
    {
        crate::text::contains_text(&self.tried_accounts, account_id)
    }

    /// Whether the ChatGPT account was found limited.
    pub fn is_limited(&self, account_id: &str) -> (b: bool)
        ensures
            b == self.limited(account_id@),
    {
        crate::text::contains_text(&self.limited_chatgpt_accounts, account_id)
    }

    /// Notes that an account hit a limit: it was tried, a ChatGPT account is
    /// limited, and its block is extended to `blocked_until` (never
    /// shortened), or dropped when no block is given.
    pub fn mark_limited(&mut self, account_id: &str, mode: AuthMode, blocked_until: Option<i64>)
        ensures
            forall|id: Seq<char>| #[trigger] final(self).tried(id) == (old(self).tried(id) || id == account_id@),
            forall|id: Seq<char>|
                #[trigger] final(self).limited(id) == (old(self).limited(id) || (id == account_id@ && is_chatgpt_spec(mode))),
            forall|id: Seq<char>|
                id != account_id@ ==> #[trigger] final(self).blocked_at(id) == old(self).blocked_at(id),
            final(self).blocked_at(account_id@) == match blocked_until {
                Some(u) => opt_max(old(self).blocked_at(account_id@), Some(u)),
                None => None,
            },
    {
        proof {
            use_type_invariant(&*self);
        }
        let ghost old_tried = strings_view(self.tried_accounts@);
        let ghost old_limited = strings_view(self.limited_chatgpt_accounts@);
        let mut tried = Vec::new();
        std::mem::swap(&mut tried, &mut self.tried_accounts);
        push_line(&mut tried, to_owned_string(account_id));
        self.tried_accounts = tried;
        proof {
            assert forall|id: Seq<char>| #[trigger] strings_view(self.tried_accounts@).contains(id) == (old_tried.contains(id) || id == account_id@) by {
                let t = strings_view(self.tried_accounts@);
                if t.contains(id) {
                    let w = choose|w: int| 0 <= w < t.len() && t[w] == id;
                    if w < old_tried.len() {
                        assert(old_tried[w] == id);
                    }
                }
                if old_tried.contains(id) {
                    let w = choose|w: int| 0 <= w < old_tried.len() && old_tried[w] == id;
                    assert(t[w] == id);
                }
                if id == account_id@ {
                    assert(t[old_tried.len() as int] == id);
                }
            }
        }
        if mode.is_chatgpt() {
            let mut limited = Vec::new();
            std::mem::swap(&mut limited, &mut self.limited_chatgpt_accounts);
            push_line(&mut limited, to_owned_string(account_id));
            self.limited_chatgpt_accounts = limited;
            proof {
                assert forall|id: Seq<char>| #[trigger] strings_view(self.limited_chatgpt_accounts@).contains(id) == (old_limited.contains(id) || id == account_id@) by {
                    let t = strings_view(self.limited_chatgpt_accounts@);
                    if t.contains(id) {
                        let w = choose|w: int| 0 <= w < t.len() && t[w] == id;
                        if w < old_limited.len() {
                            assert(old_limited[w] == id);
                        }
                    }
                    if old_limited.contains(id) {
                        let w = choose|w: int| 0 <= w < old_limited.len() && old_limited[w] == id;
                        assert(t[w] == id);
                    }
                    if id == account_id@ {
                        assert(t[old_limited.len() as int] == id);
                    }
                }
            }
        }
        let ghost old_pairs = pairs_view(self.blocked_until@);
        let found = self.find_blocked(account_id);
        match blocked_until {
            Some(until) => match found {
                Some(p) => {
                    let existing = self.blocked_until[p].1;
                    if until > existing {
                        let key = clone_string(&self.blocked_until[p].0);
                        let mut pairs = Vec::new();
                        std::mem::swap(&mut pairs, &mut self.blocked_until);
                        pairs.set(p, (key, until));
                        proof {
                            assert(pairs_view(pairs@) =~= old_pairs.update(p as int, (old_pairs[p as int].0, until)));
                            lemma_time_for_update(old_pairs, p as int, until, account_id@);
                            assert forall|id: Seq<char>| true implies #[trigger] time_for(pairs_view(pairs@), id) == if id == account_id@ {
                                Some(until)
                            } else {
                                time_for(old_pairs, id)
                            } by {
                                lemma_time_for_update(old_pairs, p as int, until, id);
                            }
                            lemma_time_for_at(old_pairs, p as int);
                        }
                        self.blocked_until = pairs;
                    } else {
                        proof {
                            lemma_time_for_at(old_pairs, p as int);
                        }
                    }
                },
                None => {
                    let mut pairs = Vec::new();
                    std::mem::swap(&mut pairs, &mut self.blocked_until);
                    pairs.push((to_owned_string(account_id), until));
                    proof {
                        assert(pairs_view(pairs@) =~= old_pairs.push((account_id@, until)));
                        lemma_time_for_push(old_pairs, account_id@, until, account_id@);
                        assert forall|id: Seq<char>| true implies #[trigger] time_for(pairs_view(pairs@), id) == if id == account_id@ {
                            Some(until)
                        } else {
                            time_for(old_pairs, id)
                        } by {
                            lemma_time_for_push(old_pairs, account_id@, until, id);
                        }
                    }
                    self.blocked_until = pairs;
                },
            },
            None => match found {
                Some(p) => {
                    let mut pairs = Vec::new();
                    std::mem::swap(&mut pairs, &mut self.blocked_until);
                    pairs.remove(p);
                    proof {
                        assert(pairs_view(pairs@) =~= old_pairs.remove(p as int));
                        lemma_time_for_remove(old_pairs, p as int, account_id@);
                        assert forall|id: Seq<char>| true implies #[trigger] time_for(pairs_view(pairs@), id) == if id == account_id@ {
                            None
                        } else {
                            time_for(old_pairs, id)
                        } by {
                            lemma_time_for_remove(old_pairs, p as int, id);
                        }
                    }
                    self.blocked_until = pairs;
                },
                None => {},
            },
        }
    }
}

impl Default for RateLimitSwitchState {
    /// A state that remembers nothing.
    fn default() -> (s: Self)
        ensures
            forall|id: Seq<char>| !s.tried(id) && !s.limited(id) && s.blocked_at(id) is None,
    {
        RateLimitSwitchState::new()
    }
}

/// The account was tried and its block, if any, has not yet run out.
pub open spec fn unexpired_tried_spec(st: RateLimitSwitchState, id: Seq<char>, now: i64) -> bool {
    st.tried(id) && !(st.blocked_at(id) is Some && st.blocked_at(id)->0 <= now)
}

/// Whether the account was tried and its block has not run out.
pub fn has_unexpired_tried_marker(state: &RateLimitSwitchState, account_id: &str, now: i64) -> (b: bool)
    ensures
        b == unexpired_tried_spec(*state, account_id@, now),
{
    state.has_tried(account_id) && !match state.blocked_until(account_id) {
        Some(t) => t <= now,
        None => false,
    }
}

/// The block of an account: the later of the remembered block and the one
/// its usage report implies.
pub open spec fn combined_block(st: RateLimitSwitchState, snaps: Seq<StoredRateLimitSnapshot>, id: Seq<char>) -> Option<i64> {
    opt_max(
        st.blocked_at(id),
        match snapshot_for(snaps, id) {
            Some(s) => usage_blocked_until_spec(s),
            None => None,
        },
    )
}

fn combined_block_exec(state: &RateLimitSwitchState, snapshots: &Vec<StoredRateLimitSnapshot>, id: &str) -> (r: Option<i64>)
    ensures
        r == combined_block(*state, snapshots@, id@),
{
    let from_usage = match find_snapshot(snapshots, id) {
        Some(s) => usage_reset_blocked_until(s),
        None => None,
    };
    opt_max_exec(state.blocked_until(id), from_usage)
}

/// A ChatGPT account with credentials.
pub open spec fn in_chatgpt_pool(a: StoredAccount) -> bool {
    is_chatgpt_spec(a.mode) && has_credentials_spec(a)
}

/// A ChatGPT account the switch may move to: not the current one, not tried
/// with a running block, and not blocked.
pub open spec fn switch_candidate(
    a: StoredAccount,
    st: RateLimitSwitchState,
    now: i64,
    current: Option<Seq<char>>,
    snaps: Seq<StoredRateLimitSnapshot>,
) -> bool {
    &&& in_chatgpt_pool(a)
    &&& current != Some(a.id@)
    &&& !unexpired_tried_spec(st, a.id@, now)
    &&& !blocked_spec(now, combined_block(st, snaps, a.id@))
}

/// `a` ranks before `b`: a better score, or an equal one and a smaller id.
pub open spec fn ranks_before(a: StoredAccount, b: StoredAccount, snaps: Seq<StoredRateLimitSnapshot>, now: i64) -> bool {
    let sa = score_spec(snaps, a.id@, now);
    let sb = score_spec(snaps, b.id@, now);
    better_spec(sa, sb) || (!better_spec(sb, sa) && seq_lt(a.id@, b.id@))
}

/// The account of `accs` that passes `ok` and ranks first.
pub open spec fn best_of(
    accs: Seq<StoredAccount>,
    ok: spec_fn(StoredAccount) -> bool,
    snaps: Seq<StoredRateLimitSnapshot>,
    now: i64,
) -> Option<StoredAccount>
    decreases accs.len(),
{
    if accs.len() == 0 {
        None
    } else {
        let b = best_of(accs.drop_last(), ok, snaps, now);
        let a = accs.last();
        if !ok(a) {
            b
        } else {
            match b {
                None => Some(a),
                Some(x) => if ranks_before(a, x, snaps, now) {
                    Some(a)
                } else {
                    b
                },
            }
        }
    }
}

/// `switch_candidate` as a predicate.
pub open spec fn switch_candidate_fn(
    st: RateLimitSwitchState,
    now: i64,
    current: Option<Seq<char>>,
    snaps: Seq<StoredRateLimitSnapshot>,
) -> spec_fn(StoredAccount) -> bool {
    |a: StoredAccount| switch_candidate(a, st, now, current, snaps)
}

/// A ChatGPT account that cannot be used now: blocked, or tried and found
/// limited with a block that has not run out.
pub open spec fn unavailable(a: StoredAccount, st: RateLimitSwitchState, now: i64, snaps: Seq<StoredRateLimitSnapshot>) -> bool {
    let blocked = blocked_spec(now, combined_block(st, snaps, a.id@));
    let expired = st.blocked_at(a.id@) is Some && st.blocked_at(a.id@)->0 <= now;
    blocked || (st.tried(a.id@) && (st.limited(a.id@) && !expired))
}

/// An API key account the switch may fall back to.
pub open spec fn api_candidate(a: StoredAccount, st: RateLimitSwitchState, current: Option<Seq<char>>) -> bool {
    a.mode == AuthMode::ApiKey && has_credentials_spec(a) && current != Some(a.id@) && !st.tried(a.id@)
}

/// The account of `accs` that passes `ok` and has the smallest id.
pub open spec fn first_by_id(accs: Seq<StoredAccount>, ok: spec_fn(StoredAccount) -> bool) -> Option<StoredAccount>
    decreases accs.len(),
{
    if accs.len() == 0 {
        None
    } else {
        let b = first_by_id(accs.drop_last(), ok);
        let a = accs.last();
        if !ok(a) {
            b
        } else {
            match b {
                None => Some(a),
                Some(x) => if seq_lt(a.id@, x.id@) {
                    Some(a)
                } else {
                    b
                },
            }
        }
    }
}

/// `api_candidate` as a predicate.
pub open spec fn api_candidate_fn(st: RateLimitSwitchState, current: Option<Seq<char>>) -> spec_fn(StoredAccount) -> bool {
    |a: StoredAccount| api_candidate(a, st, current)
}

/// The account a switch moves to: the best ChatGPT candidate; else, when
/// falling back to API keys is allowed and no ChatGPT account could still
/// be used, the API key candidate with the smallest id.
pub open spec fn select_spec(
    accs: Seq<StoredAccount>,
    st: RateLimitSwitchState,
    fallback: bool,
    now: i64,
    current: Option<Seq<char>>,
    snaps: Seq<StoredRateLimitSnapshot>,
) -> Option<Seq<char>> {
    match best_of(accs, switch_candidate_fn(st, now, current, snaps), snaps, now) {
        Some(a) => Some(a.id@),
        None => if !fallback {
            None
        } else if (exists|i: int| 0 <= i < accs.len() && in_chatgpt_pool(#[trigger] accs[i])) && !(forall|i: int|
            0 <= i < accs.len() && in_chatgpt_pool(#[trigger] accs[i]) ==> unavailable(accs[i], st, now, snaps)) {
            None
        } else {
            match first_by_id(accs, api_candidate_fn(st, current)) {
                Some(a) => Some(a.id@),
                None => None,
            }
        },
    }
}

fn ranks_before_exec(
    a: &StoredAccount,
    sa: &CandidateScore,
    b: &StoredAccount,
    sb: &CandidateScore,
    Ghost(snaps): Ghost<Seq<StoredRateLimitSnapshot>>,
    Ghost(now): Ghost<i64>,
) -> (r: bool)
    requires
        *sa == score_spec(snaps, a.id@, now),
        *sb == score_spec(snaps, b.id@, now),
    ensures
        r == ranks_before(*a, *b, snaps, now),
{
    proof {
        lemma_seq_lt_irrefl(a.id@);
    }
    score_is_better(sa, sb) || (!score_is_better(sb, sa) && crate::order::compare_str(a.id.as_str(), b.id.as_str()) < 0)
}

/// The current account, as a view.
pub open spec fn current_view(current: Option<&str>) -> Option<Seq<char>> {
    match current {
        Some(x) => Some(x@),
        None => None,
    }
}

fn is_current(current: Option<&str>, id: &str) -> (b: bool)
    ensures
        b == (current_view(current) == Some(id@)),
{
    match current {
        Some(c) => str_eq(c, id),
        None => false,
    }
}

/// Picks the account to switch to after the current one hit a limit.
pub fn select_next_account_id(
    state: &RateLimitSwitchState,
    allow_api_key_fallback: bool,
    now: i64,
    current_account_id: Option<&str>,
    accounts: &Vec<StoredAccount>,
    snapshots: &Vec<StoredRateLimitSnapshot>,
) -> (r: Option<String>)
    ensures
        crate::text::opt_view(r) == select_spec(
            accounts@,
            *state,
            allow_api_key_fallback,
            now,
            current_view(current_account_id),
            snapshots@,
        ),
{
    let ghost accs = accounts@;
    let ghost snaps = snapshots@;
    let ghost cur = current_view(current_account_id);
    let ghost ok = switch_candidate_fn(*state, now, cur, snaps);
    let mut best: Option<usize> = None;
    let mut best_score = CandidateScore { reset_at: None, used_percent: 0 };
    let mut i: usize = 0;
    while i < accounts.len()
        invariant
            i <= accounts.len(),
            accs == accounts@,
            ok == switch_candidate_fn(*state, now, cur, snaps),
            cur == current_view(current_account_id),
            snaps == snapshots@,
            match best {
                Some(b) => b < i && best_of(accs.take(i as int), ok, snaps, now) == Some(accs[b as int]) && best_score
                    == score_spec(snaps, accs[b as int].id@, now),
                None => best_of(accs.take(i as int), ok, snaps, now) is None,
            },
        decreases accounts.len() - i,
    {
        let a = &accounts[i];
        proof {
            assert(accs.take(i + 1).drop_last() =~= accs.take(i as int));
            assert(accs.take(i + 1).last() == *a);
        }
        let eligible = a.mode.is_chatgpt() && account_has_credentials(a) && !is_current(current_account_id, a.id.as_str())
            && !has_unexpired_tried_marker(state, a.id.as_str(), now) && !is_blocked(
            now,
            combined_block_exec(state, snapshots, a.id.as_str()),
        );
        proof {
            assert(eligible == ok(*a));
        }
        if eligible {
            let score = candidate_score(snapshots, a.id.as_str(), now);
            match best {
                None => {
                    best = Some(i);
                    best_score = score;
                },
                Some(b) => {
                    if ranks_before_exec(a, &score, &accounts[b], &best_score, Ghost(snaps), Ghost(now)) {
                        best = Some(i);
                        best_score = score;
                    }
                },
            }
        }
        i = i + 1;
    }
    proof {
        assert(accs.take(accs.len() as int) =~= accs);
    }
    if let Some(b) = best {
        return Some(clone_string(&accounts[b].id));
    }
    if !allow_api_key_fallback {
        return None;
    }
    let mut any_pool = false;
    let mut all_unavailable = true;
    let mut j: usize = 0;
    while j < accounts.len()
        invariant
            j <= accounts.len(),
            accs == accounts@,
            snaps == snapshots@,
            any_pool == exists|q: int| 0 <= q < j && in_chatgpt_pool(#[trigger] accs[q]),
            all_unavailable == forall|q: int|
                0 <= q < j && in_chatgpt_pool(#[trigger] accs[q]) ==> unavailable(accs[q], *state, now, snaps),
        decreases accounts.len() - j,
    {
        let a = &accounts[j];
        if a.mode.is_chatgpt() && account_has_credentials(a) {
            any_pool = true;
            let blocked = is_blocked(now, combined_block_exec(state, snapshots, a.id.as_str()));
            let expired = match state.blocked_until(a.id.as_str()) {
                Some(t) => t <= now,
                None => false,
            };
            let exhausted = state.is_limited(a.id.as_str()) && !expired;
            let tried = state.has_tried(a.id.as_str());
            if !(blocked || (tried && exhausted)) {
                all_unavailable = false;
            }
            proof {
                assert(in_chatgpt_pool(accs[j as int]));
                assert((blocked || (tried && exhausted)) == unavailable(accs[j as int], *state, now, snaps));
            }
        }
        j = j + 1;
    }
    if any_pool && !all_unavailable {
        return None;
    }
    let ghost okf = api_candidate_fn(*state, cur);
    let mut pick: Option<usize> = None;
    let mut k: usize = 0;
    while k < accounts.len()
        invariant
            k <= accounts.len(),
            accs == accounts@,
            okf == api_candidate_fn(*state, cur),
            cur == current_view(current_account_id),
            match pick {
                Some(b) => b < k && first_by_id(accs.take(k as int), okf) == Some(accs[b as int]),
                None => first_by_id(accs.take(k as int), okf) is None,
            },
        decreases accounts.len() - k,
    {
        let a = &accounts[k];
        proof {
            assert(accs.take(k + 1).drop_last() =~= accs.take(k as int));
            assert(accs.take(k + 1).last() == *a);
        }
        let eligible = a.mode == AuthMode::ApiKey && account_has_credentials(a) && !is_current(current_account_id, a.id.as_str())
            && !state.has_tried(a.id.as_str());
        proof {
            assert(eligible == okf(*a));
        }
        if eligible {
            match pick {
                None => {
                    pick = Some(k);
                },
                Some(b) => {
                    proof {
                        lemma_seq_lt_irrefl(a.id@);
                    }
                    if crate::order::compare_str(a.id.as_str(), accounts[b].id.as_str()) < 0 {
                        pick = Some(k);
                    }
                },
            }
        }
        k = k + 1;
    }
    proof {
        assert(accs.take(accs.len() as int) =~= accs);
    }
    match pick {
        Some(b) => Some(clone_string(&accounts[b].id)),
        None => None,
    }
}

/// The first account with id `id`.
pub open spec fn first_with_id(accs: Seq<StoredAccount>, id: Seq<char>) -> Option<StoredAccount>
    decreases accs.len(),
{
    if accs.len() == 0 {
        None
    } else if accs[0].id@ == id {
        Some(accs[0])
    } else {
        first_with_id(accs.drop_first(), id)
    }
}

/// A ChatGPT account a new session may start on: not blocked by its usage.
pub open spec fn session_candidate(a: StoredAccount, snaps: Seq<StoredRateLimitSnapshot>, now: i64) -> bool {
    in_chatgpt_pool(a) && !blocked_spec(
        now,
        match snapshot_for(snaps, a.id@) {
            Some(s) => usage_blocked_until_spec(s),
            None => None,
        },
    )
}

/// `session_candidate` as a predicate.
pub open spec fn session_candidate_fn(snaps: Seq<StoredRateLimitSnapshot>, now: i64) -> spec_fn(StoredAccount) -> bool {
    |a: StoredAccount| session_candidate(a, snaps, now)
}

/// The account a new session switches to: none when the active account
/// does not sign in through ChatGPT; else the best unblocked ChatGPT
/// account, unless it is already the active one.
pub open spec fn new_session_spec(
    accs: Seq<StoredAccount>,
    current: Option<Seq<char>>,
    snaps: Seq<StoredRateLimitSnapshot>,
    now: i64,
) -> Option<Seq<char>> {
    let current_is_other_mode = match current {
        Some(c) => match first_with_id(accs, c) {
            Some(a) => !is_chatgpt_spec(a.mode),
            None => false,
        },
        None => false,
    };
    if current_is_other_mode {
        None
    } else {
        match best_of(accs, session_candidate_fn(snaps, now), snaps, now) {
            None => None,
            Some(a) => if current == Some(a.id@) {
                None
            } else {
                Some(a.id@)
            },
        }
    }
}

fn find_account<'a>(accounts: &'a Vec<StoredAccount>, id: &str) -> (r: Option<&'a StoredAccount>)
    ensures
        match r {
            Some(a) => first_with_id(accounts@, id@) == Some(*a),
            None => first_with_id(accounts@, id@) is None,
        },
{
    let mut i: usize = 0;
    proof {
        assert(accounts@.skip(0) =~= accounts@);
    }
    while i < accounts.len()
        invariant
            i <= accounts.len(),
            first_with_id(accounts@, id@) == first_with_id(accounts@.skip(i as int), id@),
        decreases accounts.len() - i,
    {
        proof {
            assert(accounts@.skip(i as int)[0] == accounts@[i as int]);
            assert(accounts@.skip(i as int).drop_first() =~= accounts@.skip(i + 1));
        }
        if str_eq(accounts[i].id.as_str(), id) {
            return Some(&accounts[i]);
        }
        i = i + 1;
    }
    None
}

/// The account a new session should switch to, if any.
pub fn preferred_account_for_new_session(
    current_account_id: Option<&str>,
    accounts: &Vec<StoredAccount>,
    snapshots: &Vec<StoredRateLimitSnapshot>,
    now: i64,
) -> (r: Option<String>)
    ensures
        crate::text::opt_view(r) == new_session_spec(accounts@, current_view(current_account_id), snapshots@, now),
{
    if let Some(c) = current_account_id {
        if let Some(a) = find_account(accounts, c) {
            if !a.mode.is_chatgpt() {
                return None;
            }
        }
    }
    let ghost accs = accounts@;
    let ghost snaps = snapshots@;
    let ghost ok = session_candidate_fn(snaps, now);
    let mut best: Option<usize> = None;
    let mut best_score = CandidateScore { reset_at: None, used_percent: 0 };
    let mut i: usize = 0;
    while i < accounts.len()
        invariant
            i <= accounts.len(),
            accs == accounts@,
            ok == session_candidate_fn(snaps, now),
            snaps == snapshots@,
            match best {
                Some(b) => b < i && best_of(accs.take(i as int), ok, snaps, now) == Some(accs[b as int]) && best_score
                    == score_spec(snaps, accs[b as int].id@, now),
                None => best_of(accs.take(i as int), ok, snaps, now) is None,
            },
        decreases accounts.len() - i,
    {
        let a = &accounts[i];
        proof {
            assert(accs.take(i + 1).drop_last() =~= accs.take(i as int));
            assert(accs.take(i + 1).last() == *a);
        }
        let from_usage = match find_snapshot(snapshots, a.id.as_str()) {
            Some(snap) => usage_reset_blocked_until(snap),
            None => None,
        };
        let eligible = a.mode.is_chatgpt() && account_has_credentials(a) && !is_blocked(now, from_usage);
        proof {
            assert(eligible == ok(*a));
        }
        if eligible {
            let score = candidate_score(snapshots, a.id.as_str(), now);
            match best {
                None => {
                    best = Some(i);
                    best_score = score;
                },
                Some(b) => {
                    if ranks_before_exec(a, &score, &accounts[b], &best_score, Ghost(snaps), Ghost(now)) {
                        best = Some(i);
                        best_score = score;
                    }
                },
            }
        }
        i = i + 1;
    }
    proof {
        assert(accs.take(accs.len() as int) =~= accs);
    }
    match best {
        None => None,
        Some(b) => {
            if is_current(current_account_id, accounts[b].id.as_str()) {
                None
            } else {
                Some(clone_string(&accounts[b].id))
            }
        },
    }
}

/// Notes that the current account hit a limit and picks the account to
/// switch to.
pub fn next_account_after_rate_limit(
    state: &mut RateLimitSwitchState,
    allow_api_key_fallback: bool,
    now: i64,
    current_account_id: &str,
    current_mode: AuthMode,
    blocked_until: Option<i64>,
    accounts: &Vec<StoredAccount>,
    snapshots: &Vec<StoredRateLimitSnapshot>,
) -> (r: Option<String>)
    ensures
        forall|id: Seq<char>| #[trigger] final(state).tried(id) == (old(state).tried(id) || id == current_account_id@),
        forall|id: Seq<char>|
            #[trigger] final(state).limited(id) == (old(state).limited(id) || (id == current_account_id@ && is_chatgpt_spec(
                current_mode,
            ))),
        forall|id: Seq<char>|
            id != current_account_id@ ==> #[trigger] final(state).blocked_at(id) == old(state).blocked_at(id),
        final(state).blocked_at(current_account_id@) == match blocked_until {
            Some(u) => opt_max(old(state).blocked_at(current_account_id@), Some(u)),
            None => None,
        },
        crate::text::opt_view(r) == select_spec(
            accounts@,
            *final(state),
            allow_api_key_fallback,
            now,
            Some(current_account_id@),
            snapshots@,
        ),
{
    state.mark_limited(current_account_id, current_mode, blocked_until);
    select_next_account_id(state, allow_api_key_fallback, now, Some(current_account_id), accounts, snapshots)
}

proof fn lemma_ranks_before_trans(a: StoredAccount, b: StoredAccount, c: StoredAccount, snaps: Seq<StoredRateLimitSnapshot>, now: i64)
    requires
        ranks_before(a, b, snaps, now),
        ranks_before(b, c, snaps, now),
    ensures
        ranks_before(a, c, snaps, now),
{
    let sa = score_spec(snaps, a.id@, now);
    let sb = score_spec(snaps, b.id@, now);
    let sc = score_spec(snaps, c.id@, now);
    if seq_lt(a.id@, b.id@) && seq_lt(b.id@, c.id@) {
        lemma_seq_lt_trans(a.id@, b.id@, c.id@);
    }
}

proof fn lemma_ranks_before_irrefl(a: StoredAccount, snaps: Seq<StoredRateLimitSnapshot>, now: i64)
    ensures
        !ranks_before(a, a, snaps, now),
{
    lemma_seq_lt_irrefl(a.id@);
}

/// The account a ranking picks passes the test, is one of the accounts,
/// and no account that passes the test ranks before it.
pub proof fn law_best_is_first_ranked(
    accs: Seq<StoredAccount>,
    ok: spec_fn(StoredAccount) -> bool,
    snaps: Seq<StoredRateLimitSnapshot>,
    now: i64,
)
    ensures
        match best_of(accs, ok, snaps, now) {
            Some(a) => {
                &&& ok(a)
                &&& accs.contains(a)
                &&& forall|j: int| 0 <= j < accs.len() && ok(#[trigger] accs[j]) ==> !ranks_before(accs[j], a, snaps, now)
            },
            None => forall|j: int| 0 <= j < accs.len() ==> !ok(#[trigger] accs[j]),
        },
    decreases accs.len(),
{
    if accs.len() > 0 {
        let d = accs.drop_last();
        law_best_is_first_ranked(d, ok, snaps, now);
        let a = accs.last();
        assert forall|j: int| 0 <= j < d.len() implies #[trigger] accs[j] == d[j] by {}
        match best_of(d, ok, snaps, now) {
            Some(x) => {
                let wx = choose|w: int| 0 <= w < d.len() && d[w] == x;
                assert(accs[wx] == x);
                if ok(a) && ranks_before(a, x, snaps, now) {
                    assert(accs[accs.len() - 1] == a);
                    assert forall|j: int| 0 <= j < accs.len() && ok(#[trigger] accs[j]) implies !ranks_before(accs[j], a, snaps, now) by {
                        if j < accs.len() - 1 {
                            if ranks_before(accs[j], a, snaps, now) {
                                lemma_ranks_before_trans(accs[j], a, x, snaps, now);
                            }
                        } else {
                            lemma_ranks_before_irrefl(a, snaps, now);
                        }
                    }
                } else {
                    assert forall|j: int| 0 <= j < accs.len() && ok(#[trigger] accs[j]) implies !ranks_before(accs[j], x, snaps, now) by {
                        if j == accs.len() - 1 {
                            assert(accs[j] == a);
                        }
                    }
                }
            },
            None => {
                if ok(a) {
                    assert(accs[accs.len() - 1] == a);
                    assert forall|j: int| 0 <= j < accs.len() && ok(#[trigger] accs[j]) implies !ranks_before(accs[j], a, snaps, now) by {
                        if j == accs.len() - 1 {
                            lemma_ranks_before_irrefl(a, snaps, now);
                        }
                    }
                } else {
                    assert forall|j: int| 0 <= j < accs.len() implies !ok(#[trigger] accs[j]) by {
                        if j == accs.len() - 1 {
                            assert(accs[j] == a);
                        }
                    }
                }
            },
        }
    }
}

proof fn lemma_first_by_id_ok(accs: Seq<StoredAccount>, ok: spec_fn(StoredAccount) -> bool)
    ensures
        first_by_id(accs, ok) is Some ==> ok(first_by_id(accs, ok)->0),
    decreases accs.len(),
{
    if accs.len() > 0 {
        lemma_first_by_id_ok(accs.drop_last(), ok);
    }
}

/// A switch never picks the account that just hit the limit.
pub proof fn law_switch_never_picks_current(
    accs: Seq<StoredAccount>,
    st: RateLimitSwitchState,
    fallback: bool,
    now: i64,
    current: Seq<char>,
    snaps: Seq<StoredRateLimitSnapshot>,
)
    ensures
        select_spec(accs, st, fallback, now, Some(current), snaps) != Some(current),
{
    law_best_is_first_ranked(accs, switch_candidate_fn(st, now, Some(current), snaps), snaps, now);
    lemma_first_by_id_ok(accs, api_candidate_fn(st, Some(current)));
}


/// The account a ranking picks has, against every account that passes the
/// same test, the earliest reset (a reset beats none), and among equal
/// resets the lowest used percentage.
proof fn lemma_pick_has_earliest_reset_then_lowest_usage(
    accs: Seq<StoredAccount>,
    ok: spec_fn(StoredAccount) -> bool,
    snaps: Seq<StoredRateLimitSnapshot>,
    now: i64,
    j: int,
)
    requires
        0 <= j < accs.len(),
        ok(accs[j]),
    ensures
        best_of(accs, ok, snaps, now) is Some,
        ({
            let sa = score_spec(snaps, best_of(accs, ok, snaps, now)->0.id@, now);
            let sc = score_spec(snaps, accs[j].id@, now);
            &&& sc.reset_at is Some ==> (sa.reset_at is Some && sa.reset_at->0 <= sc.reset_at->0)
            &&& sa.reset_at == sc.reset_at ==> sa.used_percent <= sc.used_percent
        }),
{
    law_best_is_first_ranked(accs, ok, snaps, now);
    let a = best_of(accs, ok, snaps, now)->0;
    assert(!ranks_before(accs[j], a, snaps, now));
}

/// After a limit, the switch moves to the eligible ChatGPT account whose
/// reset comes first (one with a reset before one without), and among
/// accounts with the same reset, or none, to the one with the lowest used
/// percentage.
pub proof fn law_switch_prefers_earliest_reset_then_lowest_usage(
    accs: Seq<StoredAccount>,
    st: RateLimitSwitchState,
    fallback: bool,
    now: i64,
    current: Option<Seq<char>>,
    snaps: Seq<StoredRateLimitSnapshot>,
    j: int,
)
    requires
        0 <= j < accs.len(),
        switch_candidate(accs[j], st, now, current, snaps),
    ensures
        select_spec(accs, st, fallback, now, current, snaps) is Some,
        ({
            let sa = score_spec(snaps, select_spec(accs, st, fallback, now, current, snaps)->0, now);
            let sc = score_spec(snaps, accs[j].id@, now);
            &&& sc.reset_at is Some ==> (sa.reset_at is Some && sa.reset_at->0 <= sc.reset_at->0)
            &&& sa.reset_at == sc.reset_at ==> sa.used_percent <= sc.used_percent
        }),
{
    let ok = switch_candidate_fn(st, now, current, snaps);
    assert(ok(accs[j]));
    lemma_pick_has_earliest_reset_then_lowest_usage(accs, ok, snaps, now, j);
}

/// A new session that switches moves to the unblocked ChatGPT account whose
/// reset comes first (one with a reset before one without), and among
/// accounts with the same reset, or none, to the one with the lowest used
/// percentage.
pub proof fn law_new_session_prefers_earliest_reset_then_lowest_usage(
    accs: Seq<StoredAccount>,
    current: Option<Seq<char>>,
    snaps: Seq<StoredRateLimitSnapshot>,
    now: i64,
    j: int,
)
    requires
        0 <= j < accs.len(),
        session_candidate(accs[j], snaps, now),
        new_session_spec(accs, current, snaps, now) is Some,
    ensures
        ({
            let sa = score_spec(snaps, new_session_spec(accs, current, snaps, now)->0, now);
            let sc = score_spec(snaps, accs[j].id@, now);
            &&& sc.reset_at is Some ==> (sa.reset_at is Some && sa.reset_at->0 <= sc.reset_at->0)
            &&& sa.reset_at == sc.reset_at ==> sa.used_percent <= sc.used_percent
        }),
{
    let ok = session_candidate_fn(snaps, now);
    assert(ok(accs[j]));
    lemma_pick_has_earliest_reset_then_lowest_usage(accs, ok, snaps, now, j);
}

/// An account is ranked by a reset that still lies ahead: the secondary
/// window's when it does, else the primary window's when it does, else by
/// none.
pub proof fn law_preferred_reset_lies_ahead(s: StoredRateLimitSnapshot, now: i64)
    ensures
        preferred_reset_spec(s, now) is Some ==> preferred_reset_spec(s, now)->0 > now,
        s.secondary_next_reset_at is Some && s.secondary_next_reset_at->0 > now ==> preferred_reset_spec(s, now)
            == s.secondary_next_reset_at,
        !(s.secondary_next_reset_at is Some && s.secondary_next_reset_at->0 > now) && s.primary_next_reset_at is Some
            && s.primary_next_reset_at->0 > now ==> preferred_reset_spec(s, now) == s.primary_next_reset_at,
        preferred_reset_spec(s, now) is Some ==> preferred_reset_spec(s, now) == s.secondary_next_reset_at
            || preferred_reset_spec(s, now) == s.primary_next_reset_at,
{
}

/// A usage report blocks its account no earlier than the reset of each
/// window it shows limited (both windows when a usage limit was reached or
/// a hit was noted), falls back to the noted hit when no such reset is
/// known, and does not block at all without a sign of a limit.
pub proof fn law_block_not_before_limited_resets(s: StoredRateLimitSnapshot)
    ensures
        ({
            let b = usage_blocked_until_spec(s);
            let reached = s.snapshot is Some && s.snapshot->0.rate_limit_reached_type is Some && usage_limit_kind(
                s.snapshot->0.rate_limit_reached_type->0,
            );
            let primary_out = s.snapshot is Some && s.snapshot->0.primary_exhausted;
            let secondary_out = s.snapshot is Some && s.snapshot->0.secondary_exhausted;
            let hinted = s.last_usage_limit_hit_at is Some;
            &&& (reached || primary_out || hinted) && s.primary_next_reset_at is Some ==> b is Some && b->0
                >= s.primary_next_reset_at->0
            &&& (reached || secondary_out || hinted) && s.secondary_next_reset_at is Some ==> b is Some && b->0
                >= s.secondary_next_reset_at->0
            &&& !(reached || primary_out || secondary_out || hinted) ==> b is None
            &&& b is Some ==> b == s.primary_next_reset_at || b == s.secondary_next_reset_at || b
                == s.last_usage_limit_hit_at
            &&& hinted ==> b is Some
        }),
{
}

} // verus!
