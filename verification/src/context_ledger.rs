//! Accounting of what goes into a model request: each entry records a source,
//! its persistence, a size in bytes and an estimate in tokens, and entries
//! that share a duplicate key can be grouped to show repeated context.
use vstd::prelude::*;

use crate::order::{compare_str, lemma_seq_lt_asym, lemma_seq_lt_irrefl, lemma_seq_lt_total, lemma_seq_lt_trans, seq_lt};
use crate::text::{
    clone_string, decimal, join_seqs, join_strings, push_str, str_eq, strings_view,
    to_owned_string, usize_to_string,
};

verus! {

/// Bytes per token in the token estimate.
pub const ESTIMATED_BYTES_PER_TOKEN: usize = 4;

/// Where a piece of request context came from.
#[derive(Debug, Clone, Copy, PartialEq, Eq, Structural, PartialOrd, Ord, Hash)]
pub enum ContextSourceKind {
    BaseInstructions,
    DeveloperInstructions,
    MemoryInstructions,
    UserInstructions,
    SkillsManifest,
    ExplicitSkill,
    EnvironmentContext,
    BrowserStatus,
    StatusItem,
    ConversationHistory,
    PendingInput,
    ToolOutput,
    ToolSchema,
    Unknown,
}

/// How long a piece of request context lives.
#[derive(Debug, Clone, Copy, PartialEq, Eq, Structural)]
pub enum ContextPersistence {
    Persisted,
    Contextual,
    RequestOnly,
    GeneratedPerAttempt,
    ToolResult,
}

/// One recorded piece of request context.
#[derive(Debug, Clone)]
pub struct ContextLedgerEntry {
    pub source: ContextSourceKind,
    pub persistence: ContextPersistence,
    pub label: String,
    pub item_count: usize,
    pub bytes: usize,
    pub estimated_tokens: usize,
    pub duplicate_key: Option<String>,
}

/// Entries that share one duplicate key.
#[derive(Debug, Clone)]
pub struct ContextDuplicateGroup {
    pub duplicate_key: String,
    pub entry_count: usize,
    pub item_count: usize,
    pub bytes: usize,
    pub estimated_tokens: usize,
    pub labels: Vec<String>,
    pub sources: Vec<ContextSourceKind>,
}

/// The ordered list of context entries of one request.
#[derive(Debug)]
pub struct ContextLedger {
    entries: Vec<ContextLedgerEntry>,
}

/// An entry as the ledger records it: it holds items or bytes, and its
/// token estimate is that of its bytes.
pub open spec fn recorded_entry(e: ContextLedgerEntry) -> bool {
    &&& !(e.item_count == 0 && e.bytes == 0)
    &&& e.estimated_tokens == estimate_spec(e.bytes as nat)
}

/// Token estimate of a byte count: bytes divided by four, rounded up, with
/// the rounding addition saturating at `usize::MAX`.
pub open spec fn estimate_spec(bytes: nat) -> nat {
    if bytes + 3 > usize::MAX {
        (usize::MAX as nat) / 4
    } else {
        ((bytes + 3) / 4) as nat
    }
}

/// The token estimate is the byte count divided by four, rounded up: four
/// bytes per token cover the bytes, with less than one token to spare.
pub proof fn law_estimate_rounds_bytes_up_to_tokens(bytes: nat)
    requires
        bytes + 3 <= usize::MAX,
    ensures
        4 * estimate_spec(bytes) >= bytes,
        4 * estimate_spec(bytes) < bytes + 4,
{
}

/// Estimates the tokens that `bytes` bytes of text take.
pub fn estimate_tokens(bytes: usize) -> (t: usize)
    ensures
        t == estimate_spec(bytes as nat),
{
    bytes.saturating_add(ESTIMATED_BYTES_PER_TOKEN - 1) / ESTIMATED_BYTES_PER_TOKEN
}

/// Position of a source kind in declaration order.
pub open spec fn source_rank(k: ContextSourceKind) -> nat {
    match k {
        ContextSourceKind::BaseInstructions => 0,
        ContextSourceKind::DeveloperInstructions => 1,
        ContextSourceKind::MemoryInstructions => 2,
        ContextSourceKind::UserInstructions => 3,
        ContextSourceKind::SkillsManifest => 4,
        ContextSourceKind::ExplicitSkill => 5,
        ContextSourceKind::EnvironmentContext => 6,
        ContextSourceKind::BrowserStatus => 7,
        ContextSourceKind::StatusItem => 8,
        ContextSourceKind::ConversationHistory => 9,
        ContextSourceKind::PendingInput => 10,
        ContextSourceKind::ToolOutput => 11,
        ContextSourceKind::ToolSchema => 12,
        ContextSourceKind::Unknown => 13,
    }
}

/// The source kind at a position in declaration order.
pub open spec fn source_at(r: nat) -> ContextSourceKind {
    if r == 0 {
        ContextSourceKind::BaseInstructions
    } else if r == 1 {
        ContextSourceKind::DeveloperInstructions
    } else if r == 2 {
        ContextSourceKind::MemoryInstructions
    } else if r == 3 {
        ContextSourceKind::UserInstructions
    } else if r == 4 {
        ContextSourceKind::SkillsManifest
    } else if r == 5 {
        ContextSourceKind::ExplicitSkill
    } else if r == 6 {
        ContextSourceKind::EnvironmentContext
    } else if r == 7 {
        ContextSourceKind::BrowserStatus
    } else if r == 8 {
        ContextSourceKind::StatusItem
    } else if r == 9 {
        ContextSourceKind::ConversationHistory
    } else if r == 10 {
        ContextSourceKind::PendingInput
    } else if r == 11 {
        ContextSourceKind::ToolOutput
    } else if r == 12 {
        ContextSourceKind::ToolSchema
    } else {
        ContextSourceKind::Unknown
    }
}

fn source_of_index(r: usize) -> (k: ContextSourceKind)
    requires
        r < 14,
    ensures
        k == source_at(r as nat),
        source_rank(k) == r,
{
    if r == 0 {
        ContextSourceKind::BaseInstructions
    } else if r == 1 {
        ContextSourceKind::DeveloperInstructions
    } else if r == 2 {
        ContextSourceKind::MemoryInstructions
    } else if r == 3 {
        ContextSourceKind::UserInstructions
    } else if r == 4 {
        ContextSourceKind::SkillsManifest
    } else if r == 5 {
        ContextSourceKind::ExplicitSkill
    } else if r == 6 {
        ContextSourceKind::EnvironmentContext
    } else if r == 7 {
        ContextSourceKind::BrowserStatus
    } else if r == 8 {
        ContextSourceKind::StatusItem
    } else if r == 9 {
        ContextSourceKind::ConversationHistory
    } else if r == 10 {
        ContextSourceKind::PendingInput
    } else if r == 11 {
        ContextSourceKind::ToolOutput
    } else if r == 12 {
        ContextSourceKind::ToolSchema
    } else {
        ContextSourceKind::Unknown
    }
}

/// The `Debug` name of a source kind.
pub open spec fn source_name(k: ContextSourceKind) -> Seq<char> {
    match k {
        ContextSourceKind::BaseInstructions => "BaseInstructions"@,
        ContextSourceKind::DeveloperInstructions => "DeveloperInstructions"@,
        ContextSourceKind::MemoryInstructions => "MemoryInstructions"@,
        ContextSourceKind::UserInstructions => "UserInstructions"@,
        ContextSourceKind::SkillsManifest => "SkillsManifest"@,
        ContextSourceKind::ExplicitSkill => "ExplicitSkill"@,
        ContextSourceKind::EnvironmentContext => "EnvironmentContext"@,
        ContextSourceKind::BrowserStatus => "BrowserStatus"@,
        ContextSourceKind::StatusItem => "StatusItem"@,
        ContextSourceKind::ConversationHistory => "ConversationHistory"@,
        ContextSourceKind::PendingInput => "PendingInput"@,
        ContextSourceKind::ToolOutput => "ToolOutput"@,
        ContextSourceKind::ToolSchema => "ToolSchema"@,
        ContextSourceKind::Unknown => "Unknown"@,
    }
}

/// The `Debug` name of a source kind.
pub fn source_debug_name(k: ContextSourceKind) -> (s: &'static str)
    ensures
        s@ == source_name(k),
{
    match k {
        ContextSourceKind::BaseInstructions => "BaseInstructions",
        ContextSourceKind::DeveloperInstructions => "DeveloperInstructions",
        ContextSourceKind::MemoryInstructions => "MemoryInstructions",
        ContextSourceKind::UserInstructions => "UserInstructions",
        ContextSourceKind::SkillsManifest => "SkillsManifest",
        ContextSourceKind::ExplicitSkill => "ExplicitSkill",
        ContextSourceKind::EnvironmentContext => "EnvironmentContext",
        ContextSourceKind::BrowserStatus => "BrowserStatus",
        ContextSourceKind::StatusItem => "StatusItem",
        ContextSourceKind::ConversationHistory => "ConversationHistory",
        ContextSourceKind::PendingInput => "PendingInput",
        ContextSourceKind::ToolOutput => "ToolOutput",
        ContextSourceKind::ToolSchema => "ToolSchema",
        ContextSourceKind::Unknown => "Unknown",
    }
}

/// Sum of the byte counts of `es`.
pub open spec fn total_bytes_of(es: Seq<ContextLedgerEntry>) -> nat
    decreases es.len(),
{
    if es.len() == 0 {
        0
    } else {
        total_bytes_of(es.drop_last()) + es.last().bytes as nat
    }
}

/// Sum of the item counts of `es`.
pub open spec fn total_items_of(es: Seq<ContextLedgerEntry>) -> nat
    decreases es.len(),
{
    if es.len() == 0 {
        0
    } else {
        total_items_of(es.drop_last()) + es.last().item_count as nat
    }
}

/// Sum of the byte counts of the entries of `es` from source `k`.
pub open spec fn source_bytes(es: Seq<ContextLedgerEntry>, k: ContextSourceKind) -> nat
    decreases es.len(),
{
    if es.len() == 0 {
        0
    } else {
        source_bytes(es.drop_last(), k) + if es.last().source == k {
            es.last().bytes as nat
        } else {
            0
        }
    }
}

/// Sum of the item counts of the entries of `es` from source `k`.
pub open spec fn source_items(es: Seq<ContextLedgerEntry>, k: ContextSourceKind) -> nat
    decreases es.len(),
{
    if es.len() == 0 {
        0
    } else {
        source_items(es.drop_last(), k) + if es.last().source == k {
            es.last().item_count as nat
        } else {
            0
        }
    }
}

/// Whether some entry of `es` comes from source `k`.
pub open spec fn has_source(es: Seq<ContextLedgerEntry>, k: ContextSourceKind) -> bool
    decreases es.len(),
{
    es.len() > 0 && (es.last().source == k || has_source(es.drop_last(), k))
}

/// `n` capped at `usize::MAX`.
pub open spec fn sat(n: nat) -> nat {
    if n > usize::MAX {
        usize::MAX as nat
    } else {
        n
    }
}

/// The summary part of one source kind.
pub open spec fn summary_part(es: Seq<ContextLedgerEntry>, k: ContextSourceKind) -> Seq<char> {
    source_name(k) + ":items="@ + decimal(sat(source_items(es, k))) + ",bytes="@ + decimal(
        sat(source_bytes(es, k)),
    ) + ",tokens~"@ + decimal(estimate_spec(sat(source_bytes(es, k))))
}

/// Summary parts of the sources with rank below `r` that occur in `es`, in
/// declaration order.
pub open spec fn summary_parts(es: Seq<ContextLedgerEntry>, r: nat) -> Seq<Seq<char>>
    decreases r,
{
    if r == 0 {
        Seq::empty()
    } else {
        let prev = summary_parts(es, (r - 1) as nat);
        if has_source(es, source_at((r - 1) as nat)) {
            prev.push(summary_part(es, source_at((r - 1) as nat)))
        } else {
            prev
        }
    }
}

/// The full compact summary of a ledger with entries `es`.
pub open spec fn compact_summary_of(es: Seq<ContextLedgerEntry>) -> Seq<char> {
    "total_bytes="@ + decimal(total_bytes_of(es)) + ",total_tokens~"@ + decimal(
        estimate_spec(total_bytes_of(es)),
    ) + " ["@ + join_seqs(summary_parts(es, 14), "; "@) + "]"@
}

/// Sum of the item counts that the first `r` source kinds, in declaration
/// order, report.
pub open spec fn items_over_sources(es: Seq<ContextLedgerEntry>, r: nat) -> nat
    decreases r,
{
    if r == 0 {
        0
    } else {
        items_over_sources(es, (r - 1) as nat) + source_items(es, source_at((r - 1) as nat))
    }
}

/// Sum of the byte counts that the first `r` source kinds, in declaration
/// order, report.
pub open spec fn bytes_over_sources(es: Seq<ContextLedgerEntry>, r: nat) -> nat
    decreases r,
{
    if r == 0 {
        0
    } else {
        bytes_over_sources(es, (r - 1) as nat) + source_bytes(es, source_at((r - 1) as nat))
    }
}

proof fn lemma_source_rank_at(k: ContextSourceKind, r: nat)
    requires
        r < 14,
    ensures
        source_rank(k) < 14,
        source_rank(source_at(r)) == r,
        (source_at(r) == k) == (source_rank(k) == r),
{
}

proof fn lemma_over_sources_step(es: Seq<ContextLedgerEntry>, r: nat)
    requires
        es.len() > 0,
        r <= 14,
    ensures
        items_over_sources(es, r) == items_over_sources(es.drop_last(), r) + (if source_rank(es.last().source) < r {
            es.last().item_count as nat
        } else {
            0
        }),
        bytes_over_sources(es, r) == bytes_over_sources(es.drop_last(), r) + (if source_rank(es.last().source) < r {
            es.last().bytes as nat
        } else {
            0
        }),
    decreases r,
{
    if r > 0 {
        lemma_over_sources_step(es, (r - 1) as nat);
        lemma_source_rank_at(es.last().source, (r - 1) as nat);
    }
}

/// The per-source figures of the summary add up to the ledger's totals:
/// over all source kinds, the items reported sum to the items of all
/// entries, and the bytes reported to the bytes of all entries.
pub proof fn law_source_figures_add_up(es: Seq<ContextLedgerEntry>)
    ensures
        items_over_sources(es, 14) == total_items_of(es),
        bytes_over_sources(es, 14) == total_bytes_of(es),
    decreases es.len(),
{
    if es.len() == 0 {
        lemma_over_sources_empty(es, 14);
    } else {
        law_source_figures_add_up(es.drop_last());
        lemma_over_sources_step(es, 14);
        lemma_source_rank_at(es.last().source, 0);
    }
}

proof fn lemma_over_sources_empty(es: Seq<ContextLedgerEntry>, r: nat)
    requires
        es.len() == 0,
    ensures
        items_over_sources(es, r) == 0,
        bytes_over_sources(es, r) == 0,
    decreases r,
{
    if r > 0 {
        lemma_over_sources_empty(es, (r - 1) as nat);
    }
}

/// Recording an entry adds its item count and its byte count to the
/// figures of its own source and leaves every other source unchanged.
pub proof fn law_entry_counts_toward_its_source(es: Seq<ContextLedgerEntry>, e: ContextLedgerEntry, k: ContextSourceKind)
    ensures
        source_items(es.push(e), k) == source_items(es, k) + (if e.source == k {
            e.item_count as nat
        } else {
            0
        }),
        source_bytes(es.push(e), k) == source_bytes(es, k) + (if e.source == k {
            e.bytes as nat
        } else {
            0
        }),
        has_source(es.push(e), e.source),
{
    assert(es.push(e).drop_last() =~= es);
}

/// The duplicate key of an entry, when it has a non-empty one.
pub open spec fn entry_key(e: ContextLedgerEntry) -> Option<Seq<char>> {
    match e.duplicate_key {
        Some(k) => if k@.len() > 0 {
            Some(k@)
        } else {
            None
        },
        None => None,
    }
}

/// Number of entries of `es` with duplicate key `k`.
pub open spec fn key_count(es: Seq<ContextLedgerEntry>, k: Seq<char>) -> nat
    decreases es.len(),
{
    if es.len() == 0 {
        0
    } else {
        key_count(es.drop_last(), k) + if entry_key(es.last()) == Some(k) {
            1nat
        } else {
            0nat
        }
    }
}

/// Sum of the item counts of the entries of `es` with duplicate key `k`.
pub open spec fn key_items(es: Seq<ContextLedgerEntry>, k: Seq<char>) -> nat
    decreases es.len(),
{
    if es.len() == 0 {
        0
    } else {
        key_items(es.drop_last(), k) + if entry_key(es.last()) == Some(k) {
            es.last().item_count as nat
        } else {
            0
        }
    }
}

/// Sum of the byte counts of the entries of `es` with duplicate key `k`.
pub open spec fn key_bytes(es: Seq<ContextLedgerEntry>, k: Seq<char>) -> nat
    decreases es.len(),
{
    if es.len() == 0 {
        0
    } else {
        key_bytes(es.drop_last(), k) + if entry_key(es.last()) == Some(k) {
            es.last().bytes as nat
        } else {
            0
        }
    }
}

/// Distinct labels of the entries with duplicate key `k`, in order of first
/// appearance.
pub open spec fn key_labels(es: Seq<ContextLedgerEntry>, k: Seq<char>) -> Seq<Seq<char>>
    decreases es.len(),
{
    if es.len() == 0 {
        Seq::empty()
    } else {
        let prev = key_labels(es.drop_last(), k);
        if entry_key(es.last()) == Some(k) && !prev.contains(es.last().label@) {
            prev.push(es.last().label@)
        } else {
            prev
        }
    }
}

/// Distinct sources of the entries with duplicate key `k`, in order of first
/// appearance.
pub open spec fn key_sources(es: Seq<ContextLedgerEntry>, k: Seq<char>) -> Seq<
    ContextSourceKind,
>
    decreases es.len(),
{
    if es.len() == 0 {
        Seq::empty()
    } else {
        let prev = key_sources(es.drop_last(), k);
        if entry_key(es.last()) == Some(k) && !prev.contains(es.last().source) {
            prev.push(es.last().source)
        } else {
            prev
        }
    }
}

/// `g` is the duplicate group of key `k` over the entries `es`.
pub open spec fn group_of(g: ContextDuplicateGroup, es: Seq<ContextLedgerEntry>, k: Seq<char>) -> bool {
    &&& g.duplicate_key@ == k
    &&& g.entry_count == key_count(es, k)
    &&& g.item_count == key_items(es, k)
    &&& g.bytes == key_bytes(es, k)
    &&& g.estimated_tokens == estimate_spec(key_bytes(es, k))
    &&& strings_view(g.labels@) == key_labels(es, k)
    &&& g.sources@ == key_sources(es, k)
}

/// Order of the duplicate groups: more estimated tokens first, then more
/// entries, then by key.
pub open spec fn group_before(a: ContextDuplicateGroup, b: ContextDuplicateGroup) -> bool {
    ||| a.estimated_tokens > b.estimated_tokens
    ||| (a.estimated_tokens == b.estimated_tokens && a.entry_count > b.entry_count)
    ||| (a.estimated_tokens == b.estimated_tokens && a.entry_count == b.entry_count && seq_lt(
        a.duplicate_key@,
        b.duplicate_key@,
    ))
}

proof fn lemma_group_before_trans(a: ContextDuplicateGroup, b: ContextDuplicateGroup, c: ContextDuplicateGroup)
    requires
        group_before(a, b),
        group_before(b, c),
    ensures
        group_before(a, c),
{
    if a.estimated_tokens == b.estimated_tokens && a.entry_count == b.entry_count
        && b.estimated_tokens == c.estimated_tokens && b.entry_count == c.entry_count {
        lemma_seq_lt_trans(a.duplicate_key@, b.duplicate_key@, c.duplicate_key@);
    }
}

proof fn lemma_group_before_total(a: ContextDuplicateGroup, b: ContextDuplicateGroup)
    requires
        a.duplicate_key@ != b.duplicate_key@,
    ensures
        group_before(a, b) || group_before(b, a),
        !(group_before(a, b) && group_before(b, a)),
{
    lemma_seq_lt_total(a.duplicate_key@, b.duplicate_key@);
    lemma_seq_lt_asym(a.duplicate_key@, b.duplicate_key@);
}

fn group_precedes(a: &ContextDuplicateGroup, b: &ContextDuplicateGroup) -> (r: bool)
    ensures
        r == group_before(*a, *b),
{
    if a.estimated_tokens != b.estimated_tokens {
        a.estimated_tokens > b.estimated_tokens
    } else if a.entry_count != b.entry_count {
        a.entry_count > b.entry_count
    } else {
        proof {
            lemma_seq_lt_irrefl(a.duplicate_key@);
        }
        compare_str(a.duplicate_key.as_str(), b.duplicate_key.as_str()) < 0
    }
}

/// Whether `v` is sorted strictly by `group_before`.
pub open spec fn groups_sorted(v: Seq<ContextDuplicateGroup>) -> bool {
    forall|i: int, j: int| 0 <= i < j < v.len() ==> group_before(v[i], v[j])
}

fn insert_sorted(v: &mut Vec<ContextDuplicateGroup>, g: ContextDuplicateGroup)
    requires
        groups_sorted(old(v)@),
        forall|i: int| 0 <= i < old(v)@.len() ==> old(v)@[i].duplicate_key@ != g.duplicate_key@,
    ensures
        groups_sorted(final(v)@),
        exists|p: int| 0 <= p <= old(v)@.len() && final(v)@ == old(v)@.insert(p, g),
{
    let mut p: usize = 0;
    while p < v.len() && !group_precedes(&g, &v[p])
        invariant
            p <= v.len(),
            v@ == old(v)@,
            groups_sorted(v@),
            forall|i: int| 0 <= i < v@.len() ==> v@[i].duplicate_key@ != g.duplicate_key@,
            forall|i: int| 0 <= i < p ==> group_before(v@[i], g),
        decreases v.len() - p,
    {
        proof {
            lemma_group_before_total(v@[p as int], g);
        }
        p = p + 1;
    }
    let ghost before = v@;
    proof {
        assert forall|j: int| p <= j < before.len() implies group_before(g, before[j]) by {
            if j > p {
                lemma_group_before_trans(g, before[p as int], before[j]);
            }
        }
    }
    v.insert(p, g);
    proof {
        assert(v@ =~= before.insert(p as int, g));
        assert forall|i: int, j: int| 0 <= i < j < v@.len() implies group_before(v@[i], v@[j]) by {
            if j < p {
            } else if i < p && j == p {
            } else if i < p && j > p {
                assert(v@[j] == before[j - 1]);
            } else if i == p {
                assert(v@[j] == before[j - 1]);
            } else {
                assert(v@[i] == before[i - 1]);
                assert(v@[j] == before[j - 1]);
            }
        }
    }
}

proof fn lemma_prefix_step(es: Seq<ContextLedgerEntry>, i: int)
    requires
        0 <= i < es.len(),
    ensures
        es.take(i + 1).drop_last() == es.take(i),
        es.take(i + 1).last() == es[i],
{
    assert(es.take(i + 1).drop_last() =~= es.take(i));
}

proof fn lemma_totals_prefix(es: Seq<ContextLedgerEntry>, i: int)
    requires
        0 <= i <= es.len(),
    ensures
        total_bytes_of(es.take(i)) <= total_bytes_of(es),
        total_items_of(es.take(i)) <= total_items_of(es),
    decreases es.len() - i,
{
    if i < es.len() {
        lemma_totals_prefix(es, i + 1);
        lemma_prefix_step(es, i);
    } else {
        assert(es.take(i) =~= es);
    }
}

proof fn lemma_key_prefix(es: Seq<ContextLedgerEntry>, k: Seq<char>, i: int)
    requires
        0 <= i <= es.len(),
    ensures
        key_bytes(es.take(i), k) <= key_bytes(es, k),
        key_items(es.take(i), k) <= key_items(es, k),
    decreases es.len() - i,
{
    if i < es.len() {
        lemma_key_prefix(es, k, i + 1);
        lemma_prefix_step(es, i);
    } else {
        assert(es.take(i) =~= es);
    }
}

proof fn lemma_key_count_pos(es: Seq<ContextLedgerEntry>, k: Seq<char>, i: int)
    requires
        0 <= i < es.len(),
        entry_key(es[i]) == Some(k),
    ensures
        key_count(es, k) > 0,
    decreases es.len(),
{
    if i < es.len() - 1 {
        lemma_key_count_pos(es.drop_last(), k, i);
    }
}

fn contains_label(v: &Vec<String>, s: &String) -> (r: bool)
    ensures
        r == strings_view(v@).contains(s@),
{
    let mut i: usize = 0;
    while i < v.len()
        invariant
            i <= v.len(),
            forall|j: int| 0 <= j < i ==> v@[j]@ != s@,
        decreases v.len() - i,
    {
        if str_eq(v[i].as_str(), s.as_str()) {
            proof {
                assert(strings_view(v@)[i as int] == s@);
            }
            return true;
        }
        i = i + 1;
    }
    false
}

fn contains_source(v: &Vec<ContextSourceKind>, k: ContextSourceKind) -> (r: bool)
    ensures
        r == v@.contains(k),
{
    let mut i: usize = 0;
    while i < v.len()
        invariant
            i <= v.len(),
            forall|j: int| 0 <= j < i ==> v@[j] != k,
        decreases v.len() - i,
    {
        if v[i] == k {
            return true;
        }
        i = i + 1;
    }
    false
}

/// Whether the duplicate key of `e` is the non-empty key `k`.
fn entry_has_key(e: &ContextLedgerEntry, k: &String) -> (r: bool)
    requires
        k@.len() > 0,
    ensures
        r == (entry_key(*e) == Some(k@)),
{
    match &e.duplicate_key {
        Some(d) => str_eq(d.as_str(), k.as_str()),
        None => false,
    }
}

/// The non-empty duplicate key of `e`, if any.
fn entry_key_exec(e: &ContextLedgerEntry) -> (r: Option<&String>)
    ensures
        match r {
            Some(k) => entry_key(*e) == Some(k@),
            None => entry_key(*e) is None,
        },
{
    match &e.duplicate_key {
        Some(d) => {
            if d.as_str().is_empty() {
                None
            } else {
                Some(d)
            }
        },
        None => None,
    }
}

/// A copy of an entry, field for field.
fn copy_entry(e: &ContextLedgerEntry) -> (c: ContextLedgerEntry)
    ensures
        c.source == e.source,
        c.persistence == e.persistence,
        c.label@ == e.label@,
        c.item_count == e.item_count,
        c.bytes == e.bytes,
        c.estimated_tokens == e.estimated_tokens,
        opt_key_view(c.duplicate_key) == opt_key_view(e.duplicate_key),
{
    ContextLedgerEntry {
        source: e.source,
        persistence: e.persistence,
        label: clone_string(&e.label),
        item_count: e.item_count,
        bytes: e.bytes,
        estimated_tokens: e.estimated_tokens,
        duplicate_key: match &e.duplicate_key {
            Some(k) => Some(clone_string(k)),
            None => None,
        },
    }
}

impl Clone for ContextLedger {
    /// A copy of the ledger: the same entries, field for field, in order.
    fn clone(&self) -> (c: Self)
        ensures
            c.entries_view().len() == self.entries_view().len(),
            forall|i: int| 0 <= i < c.entries_view().len() ==> {
                let (a, b) = (#[trigger] c.entries_view()[i], self.entries_view()[i]);
                &&& a.source == b.source && a.persistence == b.persistence && a.label@ == b.label@
                &&& a.item_count == b.item_count && a.bytes == b.bytes && a.estimated_tokens == b.estimated_tokens
                &&& opt_key_view(a.duplicate_key) == opt_key_view(b.duplicate_key)
            },
    {
        proof {
            use_type_invariant(self);
        }
        let mut entries: Vec<ContextLedgerEntry> = Vec::new();
        let mut i: usize = 0;
        while i < self.entries.len()
            invariant
                i <= self.entries@.len(),
                entries@.len() == i,
                forall|j: int| 0 <= j < self.entries@.len() ==> recorded_entry(#[trigger] self.entries@[j]),
                forall|j: int| 0 <= j < i ==> {
                    let (a, b) = (#[trigger] entries@[j], self.entries@[j]);
                    &&& a.source == b.source && a.persistence == b.persistence && a.label@ == b.label@
                    &&& a.item_count == b.item_count && a.bytes == b.bytes && a.estimated_tokens == b.estimated_tokens
                    &&& opt_key_view(a.duplicate_key) == opt_key_view(b.duplicate_key)
                },
            decreases self.entries@.len() - i,
        {
            let e = copy_entry(&self.entries[i]);
            entries.push(e);
            i = i + 1;
        }
        proof {
            assert forall|j: int| 0 <= j < entries@.len() implies recorded_entry(#[trigger] entries@[j]) by {
                assert(recorded_entry(self.entries@[j]));
            }
        }
        ContextLedger { entries }
    }
}

impl Default for ContextLedger {
    /// A ledger with no entries.
    fn default() -> (l: Self)
        ensures
            l.entries_view() == Seq::<ContextLedgerEntry>::empty(),
    {
        ContextLedger { entries: Vec::new() }
    }
}

impl ContextLedger {
    /// The entries of the ledger.
    pub closed spec fn entries_view(&self) -> Seq<ContextLedgerEntry> {
        self.entries@
    }

    /// Every entry a ledger holds is one it recorded: pushes of nothing
    /// leave no entry.
    #[verifier::type_invariant]
    closed spec fn entries_recorded(&self) -> bool {
        forall|i: int| 0 <= i < self.entries@.len() ==> recorded_entry(#[trigger] self.entries@[i])
    }

    /// A ledger with no entries.
    pub fn new() -> (l: Self)
        ensures
            l.entries_view() == Seq::<ContextLedgerEntry>::empty(),
    {
        ContextLedger { entries: Vec::new() }
    }

    /// The recorded entries, in the order they were pushed; each holds
    /// items or bytes and its token estimate is that of its bytes.
    pub fn entries(&self) -> (r: &[ContextLedgerEntry])
        ensures
            r@ == self.entries_view(),
            forall|i: int| 0 <= i < r@.len() ==> recorded_entry(#[trigger] r@[i]),
    {
        proof {
            use_type_invariant(self);
        }
        self.entries.as_slice()
    }

    /// Records a piece of context; a piece with no items and no bytes is not
    /// recorded.
    pub fn push(
        &mut self,
        source: ContextSourceKind,
        persistence: ContextPersistence,
        label: &str,
        item_count: usize,
        bytes: usize,
        duplicate_key: Option<String>,
    )
        ensures
            item_count == 0 && bytes == 0 ==> final(self).entries_view() == old(self).entries_view(),
            !(item_count == 0 && bytes == 0) ==> {
                let e = final(self).entries_view().last();
                &&& final(self).entries_view().len() == old(self).entries_view().len() + 1
                &&& final(self).entries_view().drop_last() == old(self).entries_view()
                &&& e.source == source
                &&& e.persistence == persistence
                &&& e.label@ == label@
                &&& e.item_count == item_count
                &&& e.bytes == bytes
                &&& e.estimated_tokens == estimate_spec(bytes as nat)
                &&& opt_key_view(e.duplicate_key) == opt_key_view(duplicate_key)
            },
    {
        if item_count == 0 && bytes == 0 {
            return;
        }
        let entry = ContextLedgerEntry {
            source,
            persistence,
            label: to_owned_string(label),
            item_count,
            bytes,
            estimated_tokens: estimate_tokens(bytes),
            duplicate_key,
        };
        proof {
            use_type_invariant(&*self);
        }
        let mut entries: Vec<ContextLedgerEntry> = Vec::new();
        std::mem::swap(&mut entries, &mut self.entries);
        entries.push(entry);
        self.entries = entries;
        proof {
            assert(self.entries@.drop_last() =~= old(self).entries@);
        }
    }

    /// Sum of the byte counts of all entries.
    pub fn total_bytes(&self) -> (n: usize)
        requires
            total_bytes_of(self.entries_view()) <= usize::MAX,
        ensures
            n == total_bytes_of(self.entries_view()),
    {
        let mut n: usize = 0;
        let mut i: usize = 0;
        while i < self.entries.len()
            invariant
                i <= self.entries.len(),
                n == total_bytes_of(self.entries@.take(i as int)),
                total_bytes_of(self.entries@) <= usize::MAX,
            decreases self.entries.len() - i,
        {
            proof {
                lemma_prefix_step(self.entries@, i as int);
                lemma_totals_prefix(self.entries@, i + 1);
            }
            n = n + self.entries[i].bytes;
            i = i + 1;
        }
        proof {
            assert(self.entries@.take(i as int) =~= self.entries@);
        }
        n
    }

    /// Token estimate of the total byte count.
    pub fn total_estimated_tokens(&self) -> (n: usize)
        requires
            total_bytes_of(self.entries_view()) <= usize::MAX,
        ensures
            n == estimate_spec(total_bytes_of(self.entries_view())),
    {
        estimate_tokens(self.total_bytes())
    }

    /// One-line summary: totals, then per source kind (in declaration order)
    /// its items, bytes and token estimate; per-source sums saturate.
    pub fn compact_summary(&self) -> (s: String)
        requires
            total_bytes_of(self.entries_view()) <= usize::MAX,
        ensures
            s@ == compact_summary_of(self.entries_view()),
    {
        let es = &self.entries;
        let mut parts: Vec<String> = Vec::new();
        let mut r: usize = 0;
        while r < 14
            invariant
                r <= 14,
                strings_view(parts@) == summary_parts(es@, r as nat),
            decreases 14 - r,
        {
            let k = source_of_index(r);
            let mut found = false;
            let mut items: usize = 0;
            let mut bytes: usize = 0;
            let mut i: usize = 0;
            while i < es.len()
                invariant
                    i <= es.len(),
                    items == sat(source_items(es@.take(i as int), k)),
                    bytes == sat(source_bytes(es@.take(i as int), k)),
                    found == has_source(es@.take(i as int), k),
                decreases es.len() - i,
            {
                proof {
                    lemma_prefix_step(es@, i as int);
                }
                if es[i].source == k {
                    items = items.saturating_add(es[i].item_count);
                    bytes = bytes.saturating_add(es[i].bytes);
                    found = true;
                }
                i = i + 1;
            }
            proof {
                assert(es@.take(es.len() as int) =~= es@);
            }
            proof {
                reveal_strlit(":items=");
                reveal_strlit(",bytes=");
                reveal_strlit(",tokens~");
            }
            if found {
                let mut part = to_owned_string(source_debug_name(k));
                push_str(&mut part, ":items=");
                push_str(&mut part, usize_to_string(items).as_str());
                push_str(&mut part, ",bytes=");
                push_str(&mut part, usize_to_string(bytes).as_str());
                push_str(&mut part, ",tokens~");
                push_str(&mut part, usize_to_string(estimate_tokens(bytes)).as_str());
                proof {
                    assert(part@ =~= summary_part(es@, k));
                }
                parts.push(part);
                proof {
                    assert(strings_view(parts@) =~= summary_parts(es@, (r + 1) as nat));
                }
            }
            r = r + 1;
        }
        let total = self.total_bytes();
        let mut out = to_owned_string("total_bytes=");
        push_str(&mut out, usize_to_string(total).as_str());
        push_str(&mut out, ",total_tokens~");
        push_str(&mut out, usize_to_string(estimate_tokens(total)).as_str());
        push_str(&mut out, " [");
        push_str(&mut out, join_strings(&parts, "; ").as_str());
        push_str(&mut out, "]");
        proof {
            assert(out@ =~= compact_summary_of(self.entries_view()));
        }
        out
    }

    /// Groups the entries that share a non-empty duplicate key, keeping the
    /// keys used by two or more entries, ordered by estimated tokens
    /// (descending), then entry count (descending), then key.
    #[verifier::rlimit(100)]
    pub fn duplicate_groups(&self) -> (r: Vec<ContextDuplicateGroup>)
        requires
            forall|k: Seq<char>| #[trigger] key_bytes(self.entries_view(), k) <= usize::MAX
                && key_items(self.entries_view(), k) <= usize::MAX,
        ensures
            groups_sorted(r@),
            forall|i: int|
                0 <= i < r@.len() ==> {
                    &&& group_of(r@[i], self.entries_view(), r@[i].duplicate_key@)
                    &&& r@[i].duplicate_key@.len() > 0
                    &&& key_count(self.entries_view(), r@[i].duplicate_key@) >= 2
                },
            forall|k: Seq<char>|
                k.len() > 0 && key_count(self.entries_view(), k) >= 2 ==> exists|i: int|
                    0 <= i < r@.len() && r@[i].duplicate_key@ == k,
    {
        let es = &self.entries;
        let ghost E = es@;
        let mut keys: Vec<String> = Vec::new();
        let mut i: usize = 0;
        while i < es.len()
            invariant
                i <= es.len(),
                E == es@,
                forall|a: int, b: int| 0 <= a < b < keys@.len() ==> keys@[a]@ != keys@[b]@,
                forall|a: int| 0 <= a < keys@.len() ==> keys@[a]@.len() > 0 && key_count(E, keys@[a]@) > 0,
                forall|j: int| 0 <= j < i ==> (#[trigger] entry_key(E[j])) is Some ==> exists|a: int|
                    0 <= a < keys@.len() && Some(keys@[a]@) == entry_key(E[j]),
            decreases es.len() - i,
        {
            let ghost old_keys = keys@;
            match entry_key_exec(&es[i]) {
                Some(k) => {
                    if !contains_label(&keys, k) {
                        proof {
                            lemma_key_count_pos(E, k@, i as int);
                            assert forall|a: int| 0 <= a < keys@.len() implies keys@[a]@ != k@ by {
                                assert(strings_view(keys@)[a] == keys@[a]@);
                            }
                        }
                        keys.push(clone_string(k));
                        proof {
                            assert(Some(keys@[old_keys.len() as int]@) == entry_key(E[i as int]));
                        }
                    } else {
                        proof {
                            let a = choose|a: int| 0 <= a < strings_view(keys@).len() && strings_view(keys@)[a] == k@;
                            assert(Some(keys@[a]@) == entry_key(E[i as int]));
                        }
                    }
                },
                None => {},
            }
            proof {
                assert forall|j: int| 0 <= j < i + 1 && (#[trigger] entry_key(E[j])) is Some implies exists|a: int|
                    0 <= a < keys@.len() && Some(keys@[a]@) == entry_key(E[j]) by {
                    if j < i {
                        let a = choose|a: int| 0 <= a < old_keys.len() && Some(old_keys[a]@) == entry_key(E[j]);
                        assert(keys@[a] == old_keys[a]);
                    }
                }
            }
            i = i + 1;
        }
        proof {
            assert(E == self.entries_view());
            assert forall|k: Seq<char>| #[trigger] key_bytes(E, k) <= usize::MAX && key_items(E, k) <= usize::MAX by {
                assert(key_bytes(self.entries_view(), k) <= usize::MAX);
            }
        }
        let mut groups: Vec<ContextDuplicateGroup> = Vec::new();
        let mut q: usize = 0;
        while q < keys.len()
            invariant
                q <= keys.len(),
                E == es@,
                forall|k: Seq<char>| #[trigger] key_bytes(E, k) <= usize::MAX && key_items(E, k) <= usize::MAX,
                forall|a: int, b: int| 0 <= a < b < keys@.len() ==> keys@[a]@ != keys@[b]@,
                forall|a: int| 0 <= a < keys@.len() ==> keys@[a]@.len() > 0,
                groups_sorted(groups@),
                forall|x: int|
                    0 <= x < groups@.len() ==> {
                        &&& group_of(groups@[x], E, groups@[x].duplicate_key@)
                        &&& groups@[x].duplicate_key@.len() > 0
                        &&& key_count(E, groups@[x].duplicate_key@) >= 2
                        &&& exists|a: int| 0 <= a < q && keys@[a]@ == groups@[x].duplicate_key@
                    },
                forall|a: int|
                    0 <= a < q && key_count(E, keys@[a]@) >= 2 ==> exists|x: int|
                        0 <= x < groups@.len() && groups@[x].duplicate_key@ == keys@[a]@,
            decreases keys.len() - q,
        {
            proof {
                assert(key_bytes(E, keys@[q as int]@) <= usize::MAX);
            }
            let g = build_group(es, &keys[q]);
            if g.entry_count >= 2 {
                let ghost old_groups = groups@;
                proof {
                    assert forall|x: int| #![trigger groups@[x]] 0 <= x < groups@.len() implies groups@[x].duplicate_key@ != g.duplicate_key@ by {
                        let a = choose|a: int| 0 <= a < q && keys@[a]@ == groups@[x].duplicate_key@;
                    }
                }
                insert_sorted(&mut groups, g);
                proof {
                    let p = choose|p: int| 0 <= p <= old_groups.len() && groups@ == old_groups.insert(p, g);
                    assert forall|x: int| #![trigger groups@[x]] 0 <= x < groups@.len() implies {
                        &&& group_of(groups@[x], E, groups@[x].duplicate_key@)
                        &&& groups@[x].duplicate_key@.len() > 0
                        &&& key_count(E, groups@[x].duplicate_key@) >= 2
                        &&& exists|a: int| 0 <= a < q + 1 && keys@[a]@ == groups@[x].duplicate_key@
                    } by {
                        if x < p {
                            assert(groups@[x] == old_groups[x]);
                            let a = choose|a: int| 0 <= a < q && keys@[a]@ == groups@[x].duplicate_key@;
                        } else if x > p {
                            assert(groups@[x] == old_groups[x - 1]);
                            let a = choose|a: int| 0 <= a < q && keys@[a]@ == groups@[x].duplicate_key@;
                        } else {
                            assert(keys@[q as int]@ == groups@[x].duplicate_key@);
                        }
                    }
                    assert forall|a: int| 0 <= a < q + 1 && key_count(E, keys@[a]@) >= 2 implies exists|x: int|
                        0 <= x < groups@.len() && groups@[x].duplicate_key@ == keys@[a]@ by {
                        if a == q {
                            assert(groups@[p].duplicate_key@ == keys@[a]@);
                        } else {
                            let x = choose|x: int| 0 <= x < old_groups.len() && old_groups[x].duplicate_key@ == keys@[a]@;
                            if x < p {
                                assert(groups@[x] == old_groups[x]);
                            } else {
                                assert(groups@[x + 1] == old_groups[x]);
                            }
                        }
                    }
                }
            } else {
                proof {
                    assert forall|x: int| #![trigger groups@[x]] 0 <= x < groups@.len() implies exists|a: int| 0 <= a < q + 1 && keys@[a]@ == groups@[x].duplicate_key@ by {
                        let a = choose|a: int| 0 <= a < q && keys@[a]@ == groups@[x].duplicate_key@;
                    }
                }
            }
            q = q + 1;
        }
        proof {
            assert forall|k: Seq<char>| k.len() > 0 && key_count(E, k) >= 2 implies exists|x: int|
                0 <= x < groups@.len() && groups@[x].duplicate_key@ == k by {
                let j = lemma_key_witness(E, k);
                assert(entry_key(E[j]) is Some);
                let a = choose|a: int| 0 <= a < keys@.len() && Some(keys@[a]@) == entry_key(E[j]);
            }
        }
        groups
    }
}

proof fn lemma_key_witness(es: Seq<ContextLedgerEntry>, k: Seq<char>) -> (j: int)
    requires
        key_count(es, k) > 0,
    ensures
        0 <= j < es.len(),
        entry_key(es[j]) == Some(k),
    decreases es.len(),
{
    if entry_key(es.last()) == Some(k) {
        (es.len() - 1) as int
    } else {
        lemma_key_witness(es.drop_last(), k)
    }
}

/// View of an optional duplicate key.
pub open spec fn opt_key_view(k: Option<String>) -> Option<Seq<char>> {
    match k {
        Some(s) => Some(s@),
        None => None,
    }
}

fn build_group(es: &Vec<ContextLedgerEntry>, key: &String) -> (g: ContextDuplicateGroup)
    requires
        key@.len() > 0,
        key_bytes(es@, key@) <= usize::MAX,
        key_items(es@, key@) <= usize::MAX,
    ensures
        group_of(g, es@, key@),
{
    let mut count: usize = 0;
    let mut items: usize = 0;
    let mut bytes: usize = 0;
    let mut labels: Vec<String> = Vec::new();
    let mut sources: Vec<ContextSourceKind> = Vec::new();
    let mut i: usize = 0;
    while i < es.len()
        invariant
            i <= es.len(),
            key@.len() > 0,
            key_bytes(es@, key@) <= usize::MAX,
            key_items(es@, key@) <= usize::MAX,
            count == key_count(es@.take(i as int), key@),
            count <= i,
            items == key_items(es@.take(i as int), key@),
            bytes == key_bytes(es@.take(i as int), key@),
            strings_view(labels@) == key_labels(es@.take(i as int), key@),
            sources@ == key_sources(es@.take(i as int), key@),
        decreases es.len() - i,
    {
        proof {
            lemma_prefix_step(es@, i as int);
            lemma_key_prefix(es@, key@, i + 1);
        }
        let e = &es[i];
        if entry_has_key(e, key) {
            count = count + 1;
            items = items + e.item_count;
            bytes = bytes + e.bytes;
            if !contains_label(&labels, &e.label) {
                labels.push(clone_string(&e.label));
                proof {
                    assert(strings_view(labels@) =~= strings_view(labels@.drop_last()).push(e.label@));
                }
            }
            if !contains_source(&sources, e.source) {
                sources.push(e.source);
            }
        }
        i = i + 1;
    }
    proof {
        assert(es@.take(es.len() as int) =~= es@);
    }
    ContextDuplicateGroup {
        duplicate_key: clone_string(key),
        entry_count: count,
        item_count: items,
        bytes,
        estimated_tokens: estimate_tokens(bytes),
        labels,
        sources,
    }
}

/// A piece of message content.
#[derive(Debug, Clone)]
pub enum ContentItem {
    InputText { text: String },
    InputImage { image_url: String },
    OutputText { text: String },
}

/// A piece of a tool's output.
#[derive(Debug, Clone)]
pub enum FunctionCallOutputContentItem {
    InputText { text: String },
    InputImage { image_url: String },
}

/// The body of a tool's output.
#[derive(Debug, Clone)]
pub enum FunctionCallOutputBody {
    Text(String),
    ContentItems(Vec<FunctionCallOutputContentItem>),
}

/// A conversation item, holding what its size is counted from. A part the
/// protocol carries as a structured value (a shell action, search arguments
/// and results, a snapshot record) is given by the length of its text form.
#[derive(Debug, Clone)]
pub enum ResponseItem {
    Message { role: String, content: Vec<ContentItem> },
    Reasoning { summary: Vec<String>, content: Option<Vec<String>>, encrypted_content: Option<String> },
    LocalShellCall { call_id: Option<String>, action_text_len: usize },
    FunctionCall { name: String, namespace: Option<String>, arguments: String, call_id: String },
    ToolSearchCall { call_id: Option<String>, status: Option<String>, execution: String, arguments_json_len: usize },
    FunctionCallOutput { call_id: String, output: FunctionCallOutputBody },
    CustomToolCall { call_id: String, name: String, input: String },
    CustomToolCallOutput { call_id: String, name: Option<String>, output: FunctionCallOutputBody },
    ToolSearchOutput { call_id: Option<String>, status: String, execution: String, tools_json_len: usize },
    WebSearchCall { status: Option<String>, action_json_len: usize },
    ImageGenerationCall { status: String, revised_prompt: Option<String>, result: String },
    GhostSnapshot { ghost_commit_json_len: usize },
    CompactionSummary { encrypted_content: String },
    ContextCompaction { encrypted_content: Option<String> },
    Other,
}

/// The sum of `f` over a sequence.
pub open spec fn sum_of<T>(s: Seq<T>, f: spec_fn(T) -> nat) -> nat
    decreases s.len(),
{
    if s.len() == 0 {
        0
    } else {
        sum_of(s.drop_last(), f) + f(s.last())
    }
}

proof fn lemma_sum_prefix<T>(s: Seq<T>, f: spec_fn(T) -> nat, i: int)
    requires
        0 <= i <= s.len(),
    ensures
        sum_of(s.take(i), f) <= sum_of(s, f),
        i < s.len() ==> sum_of(s.take(i + 1), f) == sum_of(s.take(i), f) + f(s[i]),
    decreases s.len(),
{
    if i < s.len() {
        assert(s.take(i + 1).drop_last() =~= s.take(i));
        lemma_sum_prefix(s.drop_last(), f, i);
        assert(s.drop_last().take(i) =~= s.take(i));
    } else {
        assert(s.take(i) =~= s);
    }
}

/// The UTF-8 length of a text.
pub open spec fn text_size(t: String) -> nat {
    crate::text::byte_len(t@)
}

/// The length of an optional text; nothing counts as zero.
pub open spec fn opt_text_size(t: Option<String>) -> nat {
    match t {
        Some(x) => text_size(x),
        None => 0,
    }
}

/// The bytes a piece of message content counts for: its text, or the
/// image's URL.
pub open spec fn content_item_size(c: ContentItem) -> nat {
    match c {
        ContentItem::InputText { text } => text_size(text),
        ContentItem::OutputText { text } => text_size(text),
        ContentItem::InputImage { image_url } => text_size(image_url),
    }
}

/// The size function of message content.
pub open spec fn content_size_fn() -> spec_fn(ContentItem) -> nat {
    |c: ContentItem| content_item_size(c)
}

/// The bytes a piece of tool output counts for.
pub open spec fn output_item_size(c: FunctionCallOutputContentItem) -> nat {
    match c {
        FunctionCallOutputContentItem::InputText { text } => text_size(text),
        FunctionCallOutputContentItem::InputImage { image_url } => text_size(image_url),
    }
}

/// The size function of tool output pieces.
pub open spec fn output_size_fn() -> spec_fn(FunctionCallOutputContentItem) -> nat {
    |c: FunctionCallOutputContentItem| output_item_size(c)
}

/// The size function of texts.
pub open spec fn text_size_fn() -> spec_fn(String) -> nat {
    |t: String| text_size(t)
}

/// The bytes a tool's output counts for: its text, or the sum of its
/// pieces.
pub open spec fn output_body_size(b: FunctionCallOutputBody) -> nat {
    match b {
        FunctionCallOutputBody::Text(text) => text_size(text),
        FunctionCallOutputBody::ContentItems(items) => sum_of(items@, output_size_fn()),
    }
}

/// The bytes a conversation item counts for: the lengths of the texts it
/// carries, added up; an item of no known kind counts for nothing.
pub open spec fn response_item_size(item: ResponseItem) -> nat {
    match item {
        ResponseItem::Message { role, content } => text_size(role) + sum_of(content@, content_size_fn()),
        ResponseItem::Reasoning { summary, content, encrypted_content } =>
            sum_of(summary@, text_size_fn()) + match content {
                Some(c) => sum_of(c@, text_size_fn()),
                None => 0,
            } + opt_text_size(encrypted_content),
        ResponseItem::LocalShellCall { call_id, action_text_len } => opt_text_size(call_id) + action_text_len as nat,
        ResponseItem::FunctionCall { name, namespace, arguments, call_id } =>
            text_size(name) + opt_text_size(namespace) + text_size(arguments) + text_size(call_id),
        ResponseItem::ToolSearchCall { call_id, status, execution, arguments_json_len } =>
            opt_text_size(call_id) + opt_text_size(status) + text_size(execution) + arguments_json_len as nat,
        ResponseItem::FunctionCallOutput { call_id, output } => text_size(call_id) + output_body_size(output),
        ResponseItem::CustomToolCall { call_id, name, input } => text_size(call_id) + text_size(name) + text_size(input),
        ResponseItem::CustomToolCallOutput { call_id, name, output } =>
            text_size(call_id) + opt_text_size(name) + output_body_size(output),
        ResponseItem::ToolSearchOutput { call_id, status, execution, tools_json_len } =>
            opt_text_size(call_id) + text_size(status) + text_size(execution) + tools_json_len as nat,
        ResponseItem::WebSearchCall { status, action_json_len } => opt_text_size(status) + action_json_len as nat,
        ResponseItem::ImageGenerationCall { status, revised_prompt, result } =>
            text_size(status) + opt_text_size(revised_prompt) + text_size(result),
        ResponseItem::GhostSnapshot { ghost_commit_json_len } => ghost_commit_json_len as nat,
        ResponseItem::CompactionSummary { encrypted_content } => text_size(encrypted_content),
        ResponseItem::ContextCompaction { encrypted_content } => opt_text_size(encrypted_content),
        ResponseItem::Other => 0,
    }
}

/// The bytes a piece of message content counts for.
pub fn content_item_bytes(item: &ContentItem) -> (n: usize)
    ensures
        n == content_item_size(*item),
{
    match item {
        ContentItem::InputText { text } => crate::text::str_byte_len(text.as_str()),
        ContentItem::OutputText { text } => crate::text::str_byte_len(text.as_str()),
        ContentItem::InputImage { image_url } => crate::text::str_byte_len(image_url.as_str()),
    }
}

fn opt_text_bytes(t: &Option<String>) -> (n: usize)
    ensures
        n == opt_text_size(*t),
{
    match t {
        Some(x) => crate::text::str_byte_len(x.as_str()),
        None => 0,
    }
}

fn content_items_bytes(items: &Vec<ContentItem>) -> (n: usize)
    requires
        sum_of(items@, content_size_fn()) <= usize::MAX,
    ensures
        n == sum_of(items@, content_size_fn()),
{
    let mut acc: usize = 0;
    let mut i: usize = 0;
    while i < items.len()
        invariant
            i <= items@.len(),
            acc == sum_of(items@.take(i as int), content_size_fn()),
            sum_of(items@, content_size_fn()) <= usize::MAX,
        decreases items@.len() - i,
    {
        proof {
            lemma_sum_prefix(items@, content_size_fn(), i as int);
            lemma_sum_prefix(items@, content_size_fn(), i as int + 1);
        }
        acc = acc + content_item_bytes(&items[i]);
        i = i + 1;
    }
    proof {
        assert(items@.take(items@.len() as int) =~= items@);
    }
    acc
}

fn output_item_bytes(item: &FunctionCallOutputContentItem) -> (n: usize)
    ensures
        n == output_item_size(*item),
{
    match item {
        FunctionCallOutputContentItem::InputText { text } => crate::text::str_byte_len(text.as_str()),
        FunctionCallOutputContentItem::InputImage { image_url } => crate::text::str_byte_len(image_url.as_str()),
    }
}

fn output_body_bytes(body: &FunctionCallOutputBody) -> (n: usize)
    requires
        output_body_size(*body) <= usize::MAX,
    ensures
        n == output_body_size(*body),
{
    match body {
        FunctionCallOutputBody::Text(text) => crate::text::str_byte_len(text.as_str()),
        FunctionCallOutputBody::ContentItems(items) => {
            let mut acc: usize = 0;
            let mut i: usize = 0;
            while i < items.len()
                invariant
                    i <= items@.len(),
                    acc == sum_of(items@.take(i as int), output_size_fn()),
                    sum_of(items@, output_size_fn()) <= usize::MAX,
                decreases items@.len() - i,
            {
                proof {
                    lemma_sum_prefix(items@, output_size_fn(), i as int);
                    lemma_sum_prefix(items@, output_size_fn(), i as int + 1);
                }
                acc = acc + output_item_bytes(&items[i]);
                i = i + 1;
            }
            proof {
                assert(items@.take(items@.len() as int) =~= items@);
            }
            acc
        },
    }
}

fn texts_bytes(texts: &Vec<String>) -> (n: usize)
    requires
        sum_of(texts@, text_size_fn()) <= usize::MAX,
    ensures
        n == sum_of(texts@, text_size_fn()),
{
    let mut acc: usize = 0;
    let mut i: usize = 0;
    while i < texts.len()
        invariant
            i <= texts@.len(),
            acc == sum_of(texts@.take(i as int), text_size_fn()),
            sum_of(texts@, text_size_fn()) <= usize::MAX,
        decreases texts@.len() - i,
    {
        proof {
            lemma_sum_prefix(texts@, text_size_fn(), i as int);
            lemma_sum_prefix(texts@, text_size_fn(), i as int + 1);
        }
        acc = acc + crate::text::str_byte_len(texts[i].as_str());
        i = i + 1;
    }
    proof {
        assert(texts@.take(texts@.len() as int) =~= texts@);
    }
    acc
}

/// The bytes a conversation item counts for in the ledger. Its size must
/// be one a `usize` holds.
pub fn response_item_bytes(item: &ResponseItem) -> (n: usize)
    requires
        response_item_size(*item) <= usize::MAX,
    ensures
        n == response_item_size(*item),
{
    match item {
        ResponseItem::Message { role, content } =>
            crate::text::str_byte_len(role.as_str()) + content_items_bytes(content),
        ResponseItem::Reasoning { summary, content, encrypted_content } => {
            let a = texts_bytes(summary);
            let b = match content {
                Some(c) => texts_bytes(c),
                None => 0,
            };
            a + b + opt_text_bytes(encrypted_content)
        },
        ResponseItem::LocalShellCall { call_id, action_text_len } => opt_text_bytes(call_id) + *action_text_len,
        ResponseItem::FunctionCall { name, namespace, arguments, call_id } =>
            crate::text::str_byte_len(name.as_str()) + opt_text_bytes(namespace)
                + crate::text::str_byte_len(arguments.as_str()) + crate::text::str_byte_len(call_id.as_str()),
        ResponseItem::ToolSearchCall { call_id, status, execution, arguments_json_len } =>
            opt_text_bytes(call_id) + opt_text_bytes(status) + crate::text::str_byte_len(execution.as_str())
                + *arguments_json_len,
        ResponseItem::FunctionCallOutput { call_id, output } =>
            crate::text::str_byte_len(call_id.as_str()) + output_body_bytes(output),
        ResponseItem::CustomToolCall { call_id, name, input } =>
            crate::text::str_byte_len(call_id.as_str()) + crate::text::str_byte_len(name.as_str())
                + crate::text::str_byte_len(input.as_str()),
        ResponseItem::CustomToolCallOutput { call_id, name, output } =>
            crate::text::str_byte_len(call_id.as_str()) + opt_text_bytes(name) + output_body_bytes(output),
        ResponseItem::ToolSearchOutput { call_id, status, execution, tools_json_len } =>
            opt_text_bytes(call_id) + crate::text::str_byte_len(status.as_str())
                + crate::text::str_byte_len(execution.as_str()) + *tools_json_len,
        ResponseItem::WebSearchCall { status, action_json_len } => opt_text_bytes(status) + *action_json_len,
        ResponseItem::ImageGenerationCall { status, revised_prompt, result } =>
            crate::text::str_byte_len(status.as_str()) + opt_text_bytes(revised_prompt)
                + crate::text::str_byte_len(result.as_str()),
        ResponseItem::GhostSnapshot { ghost_commit_json_len } => *ghost_commit_json_len,
        ResponseItem::CompactionSummary { encrypted_content } => crate::text::str_byte_len(encrypted_content.as_str()),
        ResponseItem::ContextCompaction { encrypted_content } => opt_text_bytes(encrypted_content),
        ResponseItem::Other => 0,
    }
}

} // verus!
