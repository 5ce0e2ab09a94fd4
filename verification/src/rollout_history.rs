//! Paging through the lines of a rollout file for the web gateway: which
//! lines a page holds, what index each gets, and when a page reports that it
//! was cut. Reading the file and parsing its JSON lines is left to the
//! caller, which hands over what it learned of each line.
use vstd::prelude::*;

use crate::text::{
    has_prefix, join_seqs, join_strings, push_char, push_str, split_words, starts_with,
    strings_view, trim_start, trim_start_string, words_of,
};

verus! {

/// Most bytes of rollout lines one history page holds.
pub const HISTORY_MAX_BYTES: usize = 8388608;
/// Most lines one history request may ask for.
pub const HISTORY_MAX_LINES: usize = 2000;
/// Most lines of a rollout snapshot.
pub const ROLLOUT_SNAPSHOT_MAX_LINES: usize = 1200;
/// Most bytes read from the end of a rollout file for a snapshot.
pub const ROLLOUT_SNAPSHOT_MAX_BYTES: usize = 2097152;

/// What the reader learned of one line of a rollout file.
#[derive(Debug, Clone, Copy, PartialEq, Eq, Structural)]
pub struct RolloutLineInfo {
    /// Nothing but white space.
    pub blank: bool,
    /// The trimmed line parses as JSON.
    pub parsed: bool,
    /// The parsed value is a system status message.
    pub system_status: bool,
    /// Length of the line in bytes.
    pub bytes: usize,
}

/// A line that a page holds: its rollout index, and its position in the
/// lines handed over.
#[derive(Debug, Clone, Copy, PartialEq, Eq, Structural)]
pub struct HistoryItemRef {
    pub index: usize,
    pub line: usize,
}

/// One page of history.
#[derive(Debug)]
pub struct HistoryWindow {
    pub items: Vec<HistoryItemRef>,
    pub start_index: Option<usize>,
    pub end_index: Option<usize>,
    pub truncated: bool,
}

/// A line that a page may hold: not blank, parsed, and not a system status
/// message where those are left out.
pub open spec fn eligible(l: RolloutLineInfo, skip_status: bool) -> bool {
    !l.blank && l.parsed && !(skip_status && l.system_status)
}

/// Lines among the first `k` that are not blank: blank lines take no index.
pub open spec fn nonblank_before(lines: Seq<RolloutLineInfo>, k: int) -> nat
    decreases k,
{
    if k <= 0 {
        0
    } else {
        nonblank_before(lines, k - 1) + if lines[k - 1].blank {
            0nat
        } else {
            1nat
        }
    }
}

/// Index of the line at position `k` when the first line gets `first`.
pub open spec fn index_at(lines: Seq<RolloutLineInfo>, first: nat, k: int) -> nat {
    first + nonblank_before(lines, k)
}

/// The eligible lines among the first `k`, in order, whose index lies in
/// `[from, until)`.
pub open spec fn selected(
    lines: Seq<RolloutLineInfo>,
    k: int,
    first: nat,
    from: nat,
    until: nat,
    skip_status: bool,
) -> Seq<HistoryItemRef>
    decreases k,
{
    if k <= 0 {
        Seq::empty()
    } else {
        let prev = selected(lines, k - 1, first, from, until, skip_status);
        let idx = index_at(lines, first, k - 1);
        if eligible(lines[k - 1], skip_status) && from <= idx && idx < until {
            prev.push(HistoryItemRef { index: idx as usize, line: (k - 1) as usize })
        } else {
            prev
        }
    }
}

/// Bytes of the lines that `refs` point at.
pub open spec fn refs_bytes(lines: Seq<RolloutLineInfo>, refs: Seq<HistoryItemRef>) -> nat
    decreases refs.len(),
{
    if refs.len() == 0 {
        0
    } else {
        (refs_bytes(lines, refs.drop_last()) + lines[refs.last().line as int].bytes) as nat
    }
}

/// Bytes of the first `k` lines.
pub open spec fn prefix_bytes(lines: Seq<RolloutLineInfo>, k: int) -> nat
    decreases k,
{
    if k <= 0 {
        0
    } else {
        (prefix_bytes(lines, k - 1) + lines[k - 1].bytes) as nat
    }
}

/// The forward reader stops after the line at position `k`: the line is
/// looked at (not blank, index in range) and the page is then full.
pub open spec fn stops_at(
    lines: Seq<RolloutLineInfo>,
    k: int,
    first: nat,
    from: nat,
    until: nat,
    skip_status: bool,
    limit: nat,
    max_bytes: nat,
) -> bool {
    let idx = index_at(lines, first, k);
    let page = selected(lines, k + 1, first, from, until, skip_status);
    &&& 0 <= k < lines.len()
    &&& !lines[k].blank
    &&& from <= idx < until
    &&& (page.len() >= limit || refs_bytes(lines, page) > max_bytes)
}

proof fn lemma_nonblank_bounds(lines: Seq<RolloutLineInfo>, k: int)
    requires
        0 <= k,
    ensures
        nonblank_before(lines, k) <= k,
    decreases k,
{
    if k > 0 {
        lemma_nonblank_bounds(lines, k - 1);
    }
}

proof fn lemma_selected_bytes(lines: Seq<RolloutLineInfo>, k: int, first: nat, from: nat, until: nat, skip_status: bool)
    requires
        0 <= k <= lines.len(),
        lines.len() <= usize::MAX,
    ensures
        refs_bytes(lines, selected(lines, k, first, from, until, skip_status)) <= prefix_bytes(lines, k),
        forall|i: int|
            0 <= i < selected(lines, k, first, from, until, skip_status).len() ==> (#[trigger] selected(
                lines,
                k,
                first,
                from,
                until,
                skip_status,
            )[i]).line < k,
    decreases k,
{
    if k > 0 {
        lemma_selected_bytes(lines, k - 1, first, from, until, skip_status);
        let prev = selected(lines, k - 1, first, from, until, skip_status);
        let cur = selected(lines, k, first, from, until, skip_status);
        let idx = index_at(lines, first, k - 1);
        if eligible(lines[k - 1], skip_status) && from <= idx && idx < until {
            assert(cur.drop_last() == prev);
            assert(cur.last().line == k - 1);
            assert(refs_bytes(lines, cur) == refs_bytes(lines, prev) + lines[k - 1].bytes);
        } else {
            assert(cur == prev);
        }
    }
}

proof fn lemma_prefix_bytes_mono(lines: Seq<RolloutLineInfo>, j: int, k: int)
    requires
        0 <= j <= k,
    ensures
        prefix_bytes(lines, j) <= prefix_bytes(lines, k),
    decreases k - j,
{
    if j < k {
        lemma_prefix_bytes_mono(lines, j, k - 1);
    }
}

/// The lines a forward reader keeps: it takes the eligible lines whose index
/// lies in `[from, until)` and stops once it holds `limit` of them or more
/// than `max_bytes` bytes. The flag says whether it stopped early.
pub fn forward_window(
    lines: &Vec<RolloutLineInfo>,
    first: usize,
    from: usize,
    until: usize,
    skip_status: bool,
    limit: usize,
    max_bytes: usize,
) -> (r: (Vec<HistoryItemRef>, bool))
    requires
        first + lines@.len() <= usize::MAX,
        prefix_bytes(lines@, lines@.len() as int) <= usize::MAX,
    ensures
        r.1 == exists|k: int| stops_at(lines@, k, first as nat, from as nat, until as nat, skip_status, limit as nat, max_bytes as nat),
        !r.1 ==> r.0@ == selected(lines@, lines@.len() as int, first as nat, from as nat, until as nat, skip_status),
        r.1 ==> exists|k: int|
            {
                &&& stops_at(lines@, k, first as nat, from as nat, until as nat, skip_status, limit as nat, max_bytes as nat)
                &&& forall|q: int| 0 <= q < k ==> !stops_at(lines@, q, first as nat, from as nat, until as nat, skip_status, limit as nat, max_bytes as nat)
                &&& r.0@ == selected(lines@, k + 1, first as nat, from as nat, until as nat, skip_status)
            },
{
    let ghost ls = lines@;
    let ghost f = first as nat;
    let ghost fr = from as nat;
    let ghost un = until as nat;
    let ghost lim = limit as nat;
    let ghost mx = max_bytes as nat;
    let mut items: Vec<HistoryItemRef> = Vec::new();
    let mut bytes: usize = 0;
    let mut idx: usize = first;
    let mut i: usize = 0;
    let mut stopped = false;
    while i < lines.len()
        invariant_except_break
            !stopped,
            idx == index_at(ls, f, i as int),
            idx <= first + i,
            items@ == selected(ls, i as int, f, fr, un, skip_status),
            bytes == refs_bytes(ls, items@),
        invariant
            ls == lines@,
            f == first as nat,
            fr == from as nat,
            un == until as nat,
            lim == limit as nat,
            mx == max_bytes as nat,
            first + ls.len() <= usize::MAX,
            prefix_bytes(ls, ls.len() as int) <= usize::MAX,
            i <= ls.len(),
            forall|q: int| 0 <= q < i ==> !stops_at(ls, q, f, fr, un, skip_status, lim, mx),
        ensures
            stopped ==> (i < ls.len() && stops_at(ls, i as int, f, fr, un, skip_status, lim, mx)
                && items@ == selected(ls, i + 1, f, fr, un, skip_status)
                && forall|q: int| 0 <= q < i ==> !stops_at(ls, q, f, fr, un, skip_status, lim, mx)),
            !stopped ==> (i == ls.len() && items@ == selected(ls, i as int, f, fr, un, skip_status)
                && forall|q: int| 0 <= q < i ==> !stops_at(ls, q, f, fr, un, skip_status, lim, mx)),
        decreases ls.len() - i,
    {
        let line = lines[i];
        proof {
            lemma_nonblank_bounds(ls, i as int);
            lemma_selected_bytes(ls, i + 1, f, fr, un, skip_status);
            lemma_prefix_bytes_mono(ls, i + 1, ls.len() as int);
        }
        if line.blank {
            proof {
                assert(selected(ls, i + 1, f, fr, un, skip_status) == selected(ls, i as int, f, fr, un, skip_status));
                assert(!stops_at(ls, i as int, f, fr, un, skip_status, lim, mx));
            }
            i = i + 1;
            continue;
        }
        if idx < from || idx >= until {
            proof {
                assert(index_at(ls, f, i as int) == idx as nat);
                assert(!(fr <= (idx as nat) && (idx as nat) < un));
                assert(selected(ls, i + 1, f, fr, un, skip_status) == selected(ls, i as int, f, fr, un, skip_status));
                assert(!stops_at(ls, i as int, f, fr, un, skip_status, lim, mx));
            }
            idx = idx + 1;
            i = i + 1;
            continue;
        }
        if line.parsed && !(skip_status && line.system_status) {
            let ghost before = items@;
            items.push(HistoryItemRef { index: idx, line: i });
            proof {
                assert(items@.drop_last() == before);
            }
            bytes = bytes + line.bytes;
        }
        proof {
            assert(items@ == selected(ls, i + 1, f, fr, un, skip_status));
        }
        idx = idx + 1;
        if items.len() >= limit || bytes > max_bytes {
            stopped = true;
            break;
        }
        i = i + 1;
    }
    (items, stopped)
}

/// A page fits: at most `limit` lines and at most `max_bytes` bytes.
pub open spec fn fits(lines: Seq<RolloutLineInfo>, refs: Seq<HistoryItemRef>, limit: nat, max_bytes: nat) -> bool {
    refs.len() <= limit && refs_bytes(lines, refs) <= max_bytes
}

proof fn lemma_refs_bytes_front(lines: Seq<RolloutLineInfo>, refs: Seq<HistoryItemRef>, s: int)
    requires
        0 <= s < refs.len(),
    ensures
        refs_bytes(lines, refs.skip(s)) == lines[refs[s].line as int].bytes + refs_bytes(lines, refs.skip(s + 1)),
    decreases refs.len(),
{
    if s + 1 == refs.len() {
        assert(refs.skip(s + 1) =~= Seq::<HistoryItemRef>::empty());
        assert(refs.skip(s).drop_last() =~= Seq::<HistoryItemRef>::empty());
    } else {
        lemma_refs_bytes_front(lines, refs.drop_last(), s);
        assert(refs.skip(s).drop_last() =~= refs.drop_last().skip(s));
        assert(refs.skip(s + 1).drop_last() =~= refs.drop_last().skip(s + 1));
    }
}

proof fn lemma_push_keeps_misfit(
    lines: Seq<RolloutLineInfo>,
    a: Seq<HistoryItemRef>,
    x: HistoryItemRef,
    t: int,
    limit: nat,
    max_bytes: nat,
)
    requires
        0 <= t <= a.len(),
        !fits(lines, a.skip(t), limit, max_bytes),
    ensures
        !fits(lines, a.push(x).skip(t), limit, max_bytes),
{
    assert(a.push(x).skip(t).drop_last() =~= a.skip(t));
}

/// The eligible lines, system status messages left out, whose index lies
/// below `until`.
pub open spec fn before_candidates(lines: Seq<RolloutLineInfo>, until: nat) -> Seq<HistoryItemRef> {
    selected(lines, lines.len() as int, 0, 0, until, true)
}

/// The lines a backward reader keeps: of the eligible lines with an index
/// below `until`, the longest tail that holds at most `limit` lines and at
/// most `max_bytes` bytes. The flag says whether any line was let go.
pub fn backward_window(lines: &Vec<RolloutLineInfo>, until: usize, limit: usize, max_bytes: usize) -> (r: (
    Vec<HistoryItemRef>,
    bool,
))
    requires
        prefix_bytes(lines@, lines@.len() as int) <= usize::MAX,
    ensures
        exists|s: int|
            {
                &&& 0 <= s <= before_candidates(lines@, until as nat).len()
                &&& fits(lines@, #[trigger] before_candidates(lines@, until as nat).skip(s), limit as nat, max_bytes as nat)
                &&& forall|t: int|
                    0 <= t < s ==> !fits(lines@, #[trigger] before_candidates(lines@, until as nat).skip(t), limit as nat, max_bytes as nat)
                &&& r.0@ == before_candidates(lines@, until as nat).skip(s)
                &&& r.1 == (s > 0)
            },
{
    let ghost ls = lines@;
    let ghost un = until as nat;
    let ghost lim = limit as nat;
    let ghost mx = max_bytes as nat;
    let mut all: Vec<HistoryItemRef> = Vec::new();
    let mut start: usize = 0;
    let mut wbytes: usize = 0;
    let mut idx: usize = 0;
    let mut i: usize = 0;
    while i < lines.len()
        invariant
            ls == lines@,
            un == until as nat,
            lim == limit as nat,
            mx == max_bytes as nat,
            prefix_bytes(ls, ls.len() as int) <= usize::MAX,
            i <= ls.len(),
            idx == index_at(ls, 0, i as int),
            idx <= i,
            all@ == selected(ls, i as int, 0, 0, un, true),
            start <= all@.len(),
            wbytes == refs_bytes(ls, all@.skip(start as int)),
            fits(ls, all@.skip(start as int), lim, mx),
            forall|t: int| 0 <= t < start ==> !fits(ls, all@.skip(t), lim, mx),
        decreases ls.len() - i,
    {
        let line = lines[i];
        proof {
            lemma_nonblank_bounds(ls, i as int);
            lemma_selected_bytes(ls, i + 1, 0, 0, un, true);
            lemma_prefix_bytes_mono(ls, i + 1, ls.len() as int);
            if start < all@.len() {
                lemma_refs_bytes_front(ls, all@, start as int);
            }
        }
        if line.blank {
            proof {
                assert(selected(ls, i + 1, 0, 0, un, true) == selected(ls, i as int, 0, 0, un, true));
            }
            i = i + 1;
            continue;
        }
        if idx < until && line.parsed && !line.system_status {
            let ghost before = all@;
            let x = HistoryItemRef { index: idx, line: i };
            all.push(x);
            proof {
                assert(all@ == selected(ls, i + 1, 0, 0, un, true));
                assert(all@.skip(start as int) =~= before.skip(start as int).push(x));
                assert(all@.skip(start as int).drop_last() =~= before.skip(start as int));
                assert forall|t: int| 0 <= t < start implies !fits(ls, all@.skip(t), lim, mx) by {
                    lemma_push_keeps_misfit(ls, before, x, t, lim, mx);
                }
                lemma_selected_bytes(ls, i + 1, 0, 0, un, true);
                assert(refs_bytes(ls, all@.skip(start as int)) <= refs_bytes(ls, all@)) by {
                    lemma_refs_bytes_skip_le(ls, all@, start as int);
                }
            }
            wbytes = wbytes + line.bytes;
            while all.len() - start > limit || wbytes > max_bytes
                invariant
                    ls == lines@,
                    lim == limit as nat,
                    mx == max_bytes as nat,
                    start <= all@.len(),
                    wbytes == refs_bytes(ls, all@.skip(start as int)),
                    forall|t: int| 0 <= t < start ==> !fits(ls, all@.skip(t), lim, mx),
                    forall|j: int| 0 <= j < all@.len() ==> (#[trigger] all@[j]).line < ls.len(),
                decreases all@.len() - start,
            {
                proof {
                    if start == all@.len() {
                        assert(all@.skip(start as int) =~= Seq::<HistoryItemRef>::empty());
                    }
                    lemma_refs_bytes_front(ls, all@, start as int);
                }
                let b = lines[all[start].line].bytes;
                wbytes = wbytes - b;
                start = start + 1;
            }
            proof {
                assert(all@ == selected(ls, i + 1, 0, 0, un, true));
            }
        } else {
            proof {
                assert(selected(ls, i + 1, 0, 0, un, true) == selected(ls, i as int, 0, 0, un, true));
            }
        }
        idx = idx + 1;
        i = i + 1;
    }
    let dropped = start > 0;
    let mut out: Vec<HistoryItemRef> = Vec::new();
    let mut j: usize = start;
    while j < all.len()
        invariant
            start <= j <= all@.len(),
            out@ == all@.subrange(start as int, j as int),
        decreases all@.len() - j,
    {
        out.push(all[j]);
        proof {
            assert(out@ =~= all@.subrange(start as int, j + 1));
        }
        j = j + 1;
    }
    proof {
        assert(out@ =~= all@.skip(start as int));
        assert(all@ == before_candidates(ls, un));
    }
    (out, dropped)
}

proof fn lemma_refs_bytes_skip_le(lines: Seq<RolloutLineInfo>, refs: Seq<HistoryItemRef>, s: int)
    requires
        0 <= s <= refs.len(),
    ensures
        refs_bytes(lines, refs.skip(s)) <= refs_bytes(lines, refs),
    decreases s,
{
    if s > 0 {
        lemma_refs_bytes_skip_le(lines, refs, s - 1);
        lemma_refs_bytes_front(lines, refs, s - 1);
    } else {
        assert(refs.skip(0) =~= refs);
    }
}

/// First and last rollout index of a page.
pub open spec fn first_index(items: Seq<HistoryItemRef>) -> Option<usize> {
    if items.len() == 0 {
        None
    } else {
        Some(items[0].index)
    }
}

/// Last rollout index of a page.
pub open spec fn last_index(items: Seq<HistoryItemRef>) -> Option<usize> {
    if items.len() == 0 {
        None
    } else {
        Some(items.last().index)
    }
}

/// A page that asked for lines before an index is cut when it does not
/// start at the first line.
pub open spec fn cut_before(before: Option<usize>, items: Seq<HistoryItemRef>) -> bool {
    before is Some && match first_index(items) {
        Some(i) => i > 0,
        None => false,
    }
}

/// A page of `items`, cut when `truncated` or when it asked for lines
/// before an index and does not start at the first one.
fn make_window(items: Vec<HistoryItemRef>, truncated: bool, before: Option<usize>) -> (w: HistoryWindow)
    ensures
        w.items@ == items@,
        w.start_index == first_index(items@),
        w.end_index == last_index(items@),
        w.truncated == (truncated || cut_before(before, items@)),
{
    let n = items.len();
    let start_index = if n == 0 {
        None
    } else {
        Some(items[0].index)
    };
    let end_index = if n == 0 {
        None
    } else {
        Some(items[n - 1].index)
    };
    let cut = match (before, start_index) {
        (Some(_), Some(i)) => i > 0,
        _ => false,
    };
    HistoryWindow { items, start_index, end_index, truncated: truncated || cut }
}

/// Smallest index a page after index `after` may hold.
pub open spec fn after_start(after: usize) -> usize {
    if after < usize::MAX {
        (after + 1) as usize
    } else {
        usize::MAX
    }
}

/// Indexes a page before `before` lies under.
pub open spec fn before_bound(before: Option<usize>) -> nat {
    match before {
        Some(b) => b as nat,
        None => usize::MAX as nat,
    }
}

/// The page of history around an index, read by scanning the whole file.
/// With `after`, the lines that follow index `after`, as a forward reader
/// keeps them; otherwise the lines before index `before` (or all of them),
/// as a backward reader keeps them. System status messages are left out and
/// a page holds at most `limit` lines and `HISTORY_MAX_BYTES` bytes.
pub fn history_chunk(lines: &Vec<RolloutLineInfo>, before: Option<usize>, after: Option<usize>, limit: usize) -> (w: HistoryWindow)
    requires
        prefix_bytes(lines@, lines@.len() as int) <= usize::MAX,
    ensures
        w.start_index == first_index(w.items@),
        w.end_index == last_index(w.items@),
        after matches Some(a) ==> {
            let fw = forward_window_spec(lines@, 0, after_start(a) as nat, usize::MAX as nat, true, limit as nat, HISTORY_MAX_BYTES as nat);
            &&& w.items@ == fw.0
            &&& w.truncated == (fw.1 || cut_before(before, w.items@))
        },
        after is None ==> exists|s: int|
            {
                &&& 0 <= s <= before_candidates(lines@, before_bound(before)).len()
                &&& fits(lines@, #[trigger] before_candidates(lines@, before_bound(before)).skip(s), limit as nat, HISTORY_MAX_BYTES as nat)
                &&& forall|t: int|
                    0 <= t < s ==> !fits(
                        lines@,
                        #[trigger] before_candidates(lines@, before_bound(before)).skip(t),
                        limit as nat,
                        HISTORY_MAX_BYTES as nat,
                    )
                &&& w.items@ == before_candidates(lines@, before_bound(before)).skip(s)
                &&& w.truncated == (s > 0 || cut_before(before, w.items@))
            },
{
    match after {
        Some(a) => {
            let from = if a < usize::MAX {
                a + 1
            } else {
                usize::MAX
            };
            let _n = lines.len();
            let (items, stopped) = forward_window(lines, 0, from, usize::MAX, true, limit, HISTORY_MAX_BYTES);
            proof {
                lemma_forward_window_spec(lines@, 0, from as nat, usize::MAX as nat, true, limit as nat, HISTORY_MAX_BYTES as nat, items@, stopped);
            }
            make_window(items, stopped, before)
        },
        None => {
            let bound = match before {
                Some(b) => b,
                None => usize::MAX,
            };
            let (items, dropped) = backward_window(lines, bound, limit, HISTORY_MAX_BYTES);
            proof {
                assert(before_bound(before) == bound as nat);
            }
            make_window(items, dropped, before)
        },
    }
}

/// The first stop of a forward reader, if it stops early.
pub open spec fn first_stop(
    lines: Seq<RolloutLineInfo>,
    first: nat,
    from: nat,
    until: nat,
    skip_status: bool,
    limit: nat,
    max_bytes: nat,
) -> Option<int> {
    if exists|k: int| stops_at(lines, k, first, from, until, skip_status, limit, max_bytes) {
        Some(
            choose|k: int|
                {
                    &&& stops_at(lines, k, first, from, until, skip_status, limit, max_bytes)
                    &&& forall|q: int| 0 <= q < k ==> !stops_at(lines, q, first, from, until, skip_status, limit, max_bytes)
                },
        )
    } else {
        None
    }
}

/// What a forward reader keeps, and whether it stopped early.
pub open spec fn forward_window_spec(
    lines: Seq<RolloutLineInfo>,
    first: nat,
    from: nat,
    until: nat,
    skip_status: bool,
    limit: nat,
    max_bytes: nat,
) -> (Seq<HistoryItemRef>, bool) {
    match first_stop(lines, first, from, until, skip_status, limit, max_bytes) {
        Some(k) => (selected(lines, k + 1, first, from, until, skip_status), true),
        None => (selected(lines, lines.len() as int, first, from, until, skip_status), false),
    }
}

/// What `forward_window` returns is `forward_window_spec`: the first stop
/// is unique.
proof fn lemma_forward_window_spec(
    lines: Seq<RolloutLineInfo>,
    first: nat,
    from: nat,
    until: nat,
    skip_status: bool,
    limit: nat,
    max_bytes: nat,
    items: Seq<HistoryItemRef>,
    stopped: bool,
)
    requires
        stopped == exists|k: int| stops_at(lines, k, first, from, until, skip_status, limit, max_bytes),
        !stopped ==> items == selected(lines, lines.len() as int, first, from, until, skip_status),
        stopped ==> exists|k: int|
            {
                &&& stops_at(lines, k, first, from, until, skip_status, limit, max_bytes)
                &&& forall|q: int| 0 <= q < k ==> !stops_at(lines, q, first, from, until, skip_status, limit, max_bytes)
                &&& items == selected(lines, k + 1, first, from, until, skip_status)
            },
    ensures
        forward_window_spec(lines, first, from, until, skip_status, limit, max_bytes) == (items, stopped),
{
    if stopped {
        let k = choose|k: int|
            {
                &&& stops_at(lines, k, first, from, until, skip_status, limit, max_bytes)
                &&& forall|q: int| 0 <= q < k ==> !stops_at(lines, q, first, from, until, skip_status, limit, max_bytes)
                &&& items == selected(lines, k + 1, first, from, until, skip_status)
            };
        let c = first_stop(lines, first, from, until, skip_status, limit, max_bytes).unwrap();
        assert(stops_at(lines, c, first, from, until, skip_status, limit, max_bytes));
        if c < k {
        } else if k < c {
        }
        assert(c == k);
    }
}

/// The first lines of a rollout file: a forward reader from the start that
/// keeps system status messages, at most `limit` lines and
/// `HISTORY_MAX_BYTES` bytes.
pub fn history_head(lines: &Vec<RolloutLineInfo>, limit: usize) -> (w: HistoryWindow)
    requires
        prefix_bytes(lines@, lines@.len() as int) <= usize::MAX,
    ensures
        w.start_index == first_index(w.items@),
        w.end_index == last_index(w.items@),
        (w.items@, w.truncated) == forward_window_spec(lines@, 0, 0, usize::MAX as nat, false, limit as nat, HISTORY_MAX_BYTES as nat),
{
    let _n = lines.len();
    let (items, stopped) = forward_window(lines, 0, 0, usize::MAX, false, limit, HISTORY_MAX_BYTES);
    proof {
        lemma_forward_window_spec(lines@, 0, 0, usize::MAX as nat, false, limit as nat, HISTORY_MAX_BYTES as nat, items@, stopped);
    }
    make_window(items, stopped, None)
}

/// The eligible lines, each with its index counted from `first`.
fn tail_items(lines: &Vec<RolloutLineInfo>, first: usize, skip_status: bool) -> (items: Vec<HistoryItemRef>)
    requires
        first + lines@.len() <= usize::MAX,
    ensures
        items@ == selected(lines@, lines@.len() as int, first as nat, 0, usize::MAX as nat, skip_status),
{
    let ghost ls = lines@;
    let mut items: Vec<HistoryItemRef> = Vec::new();
    let mut idx: usize = first;
    let mut i: usize = 0;
    while i < lines.len()
        invariant
            ls == lines@,
            first + ls.len() <= usize::MAX,
            i <= ls.len(),
            idx == index_at(ls, first as nat, i as int),
            idx <= first + i,
            items@ == selected(ls, i as int, first as nat, 0, usize::MAX as nat, skip_status),
        decreases ls.len() - i,
    {
        proof {
            lemma_nonblank_bounds(ls, i as int);
        }
        let line = lines[i];
        if !line.blank {
            if line.parsed && !(skip_status && line.system_status) {
                items.push(HistoryItemRef { index: idx, line: i });
            }
            idx = idx + 1;
        }
        proof {
            assert(items@ == selected(ls, i + 1, first as nat, 0, usize::MAX as nat, skip_status));
        }
        i = i + 1;
    }
    items
}

/// Index of the first of `n` lines that end a file of `total` lines.
pub open spec fn tail_first(total: usize, n: nat) -> nat {
    if total >= n {
        (total - n) as nat
    } else {
        0
    }
}

/// The last lines of a rollout file, read from its end: their indexes
/// count back from the file's `total_lines`, system status messages are
/// kept, and the page is cut when it does not start at index 0.
pub fn history_tail(lines: &Vec<RolloutLineInfo>, total_lines: usize) -> (w: HistoryWindow)
    ensures
        w.items@ == selected(lines@, lines@.len() as int, tail_first(total_lines, lines@.len()), 0, usize::MAX as nat, false),
        w.start_index == first_index(w.items@),
        w.end_index == last_index(w.items@),
        w.truncated == match first_index(w.items@) {
            Some(i) => i > 0,
            None => false,
        },
{
    let n = lines.len();
    let first = if total_lines >= n {
        total_lines - n
    } else {
        0
    };
    let items = tail_items(lines, first, false);
    make_window(items, false, Some(0))
}

/// A snapshot of the end of a rollout file: like `history_tail`, with
/// system status messages left out, and cut when the file holds more
/// lines than were read.
pub fn rollout_snapshot(lines: &Vec<RolloutLineInfo>, total_lines: usize) -> (w: HistoryWindow)
    ensures
        w.items@ == selected(lines@, lines@.len() as int, tail_first(total_lines, lines@.len()), 0, usize::MAX as nat, true),
        w.start_index == first_index(w.items@),
        w.end_index == last_index(w.items@),
        w.truncated == (total_lines > lines@.len()),
{
    let n = lines.len();
    let first = if total_lines >= n {
        total_lines - n
    } else {
        0
    };
    let items = tail_items(lines, first, true);
    make_window(items, total_lines > n, None)
}

/// Lines a snapshot reads: the request, at most
/// `ROLLOUT_SNAPSHOT_MAX_LINES` and at least one.
pub fn snapshot_line_limit(max_lines: usize) -> (n: usize)
    ensures
        n == if max_lines == 0 {
            1
        } else if max_lines > ROLLOUT_SNAPSHOT_MAX_LINES {
            ROLLOUT_SNAPSHOT_MAX_LINES
        } else {
            max_lines
        },
{
    if max_lines > ROLLOUT_SNAPSHOT_MAX_LINES {
        ROLLOUT_SNAPSHOT_MAX_LINES
    } else if max_lines == 0 {
        1
    } else {
        max_lines
    }
}

/// Lines a snapshot request asks for: zero stays zero, no request means
/// the most, and others are brought into `1..=ROLLOUT_SNAPSHOT_MAX_LINES`.
pub fn normalize_snapshot_limit(limit: Option<usize>) -> (n: usize)
    ensures
        n == match limit {
            Some(0) => 0,
            Some(v) => if v > ROLLOUT_SNAPSHOT_MAX_LINES {
                ROLLOUT_SNAPSHOT_MAX_LINES
            } else {
                v
            },
            None => ROLLOUT_SNAPSHOT_MAX_LINES,
        },
{
    match limit {
        Some(0) => 0,
        Some(v) => if v > ROLLOUT_SNAPSHOT_MAX_LINES {
            ROLLOUT_SNAPSHOT_MAX_LINES
        } else {
            v
        },
        None => ROLLOUT_SNAPSHOT_MAX_LINES,
    }
}

/// How a page is read with the help of a line index.
#[derive(Debug, Clone, Copy, PartialEq, Eq, Structural)]
pub enum IndexedChunkPlan {
    /// The page is empty; nothing needs reading.
    Empty,
    /// The index cannot serve the request (both bounds given).
    Unindexed,
    /// Read from byte `offset`, where line `seek_line` starts, and keep the
    /// lines with index in `[start, end)`.
    Read { start: usize, end: usize, seek_line: usize, offset: u64 },
}

/// The range of lines `[start, end)` that a request asks of a file of
/// `total` lines, if any.
pub open spec fn indexed_range(total: usize, before: Option<usize>, after: Option<usize>, limit: usize) -> Option<(nat, nat)> {
    match after {
        Some(a) => {
            let start: nat = if a as nat + 1 > usize::MAX as nat { usize::MAX as nat } else { (a + 1) as nat };
            if start >= total {
                None
            } else {
                let e: nat = if start + limit > usize::MAX as nat { usize::MAX as nat } else { (start + limit) as nat };
                let end: nat = if e > total { total as nat } else { e };
                Some((start, end))
            }
        },
        None => {
            let b: nat = match before {
                Some(b) => b as nat,
                None => total as nat,
            };
            let end: nat = if b > total { total as nat } else { b };
            let start: nat = if end >= limit { (end - limit) as nat } else { 0 };
            Some((start, end))
        },
    }
}

/// The plan for a page read through a line index that records, for every
/// `stride` lines, the byte offset where that line starts.
pub open spec fn indexed_plan_spec(
    total: usize,
    stride: usize,
    offsets: Seq<u64>,
    before: Option<usize>,
    after: Option<usize>,
    limit: usize,
) -> IndexedChunkPlan {
    if total == 0 {
        IndexedChunkPlan::Empty
    } else if before is Some && after is Some {
        IndexedChunkPlan::Unindexed
    } else {
        match indexed_range(total, before, after, limit) {
            None => IndexedChunkPlan::Empty,
            Some((start, end)) => if end <= start {
                IndexedChunkPlan::Empty
            } else {
                let st: nat = if stride == 0 { 1 } else { stride as nat };
                let seek: nat = (start / st) * st;
                let k: int = (seek / st) as int;
                IndexedChunkPlan::Read {
                    start: start as usize,
                    end: end as usize,
                    seek_line: seek as usize,
                    offset: if k < offsets.len() { offsets[k] } else { 0 },
                }
            },
        }
    }
}

/// Plans the read of a page through a line index.
pub fn plan_indexed_chunk(
    total_lines: usize,
    stride: usize,
    offsets: &Vec<u64>,
    before: Option<usize>,
    after: Option<usize>,
    limit: usize,
) -> (p: IndexedChunkPlan)
    ensures
        p == indexed_plan_spec(total_lines, stride, offsets@, before, after, limit),
{
    if total_lines == 0 {
        return IndexedChunkPlan::Empty;
    }
    if before.is_some() && after.is_some() {
        return IndexedChunkPlan::Unindexed;
    }
    let (start, end) = match after {
        Some(a) => {
            let start = a.saturating_add(1);
            if start >= total_lines {
                return IndexedChunkPlan::Empty;
            }
            let e = start.saturating_add(limit);
            let end = if e > total_lines {
                total_lines
            } else {
                e
            };
            (start, end)
        },
        None => {
            let b = match before {
                Some(b) => b,
                None => total_lines,
            };
            let end = if b > total_lines {
                total_lines
            } else {
                b
            };
            (end.saturating_sub(limit), end)
        },
    };
    if end <= start {
        return IndexedChunkPlan::Empty;
    }
    let st = if stride == 0 {
        1
    } else {
        stride
    };
    let q = start / st;
    proof {
        assert(q * st <= start) by (nonlinear_arith)
            requires
                q == start / st,
                st > 0,
        ;
        assert(((q * st) as int) / (st as int) == q as int) by (nonlinear_arith)
            requires
                st > 0,
        ;
    }
    let seek_line = q * st;
    let k = seek_line / st;
    let offset = if k < offsets.len() {
        offsets[k]
    } else {
        0
    };
    IndexedChunkPlan::Read { start, end, seek_line, offset }
}

/// The page read through a line index: from the lines that follow byte
/// `offset` of the plan (the first has index `seek_line`), a forward reader
/// keeps the lines with index in `[start, end)`, system status messages left
/// out, at most `limit` lines and `HISTORY_MAX_BYTES` bytes.
pub fn history_chunk_in_range(
    lines: &Vec<RolloutLineInfo>,
    seek_line: usize,
    start: usize,
    end: usize,
    limit: usize,
    before: Option<usize>,
) -> (w: HistoryWindow)
    requires
        seek_line + lines@.len() <= usize::MAX,
        prefix_bytes(lines@, lines@.len() as int) <= usize::MAX,
    ensures
        w.start_index == first_index(w.items@),
        w.end_index == last_index(w.items@),
        ({
            let fw = forward_window_spec(lines@, seek_line as nat, start as nat, end as nat, true, limit as nat, HISTORY_MAX_BYTES as nat);
            &&& w.items@ == fw.0
            &&& w.truncated == (fw.1 || cut_before(before, w.items@))
        }),
{
    let (items, stopped) = forward_window(lines, seek_line, start, end, true, limit, HISTORY_MAX_BYTES);
    proof {
        lemma_forward_window_spec(lines@, seek_line as nat, start as nat, end as nat, true, limit as nat, HISTORY_MAX_BYTES as nat, items@, stopped);
    }
    make_window(items, stopped, before)
}

/// Lines between which a line index records an offset.
pub const LINE_INDEX_STRIDE: usize = 512;

/// Newline bytes in `b`.
pub open spec fn newlines(b: Seq<u8>) -> nat
    decreases b.len(),
{
    if b.len() == 0 {
        0
    } else {
        newlines(b.drop_last()) + if b.last() == 10u8 {
            1nat
        } else {
            0nat
        }
    }
}

/// Lines of a file with contents `b`: one per newline, and one more for a
/// last line without a newline.
pub open spec fn line_count(b: Seq<u8>) -> nat {
    newlines(b) + if b.len() > 0 && b.last() != 10u8 {
        1nat
    } else {
        0nat
    }
}

/// Byte offsets a line index records for contents `b`: 0, then the offset
/// just after every `LINE_INDEX_STRIDE`-th newline.
pub open spec fn stride_offsets(b: Seq<u8>) -> Seq<u64>
    decreases b.len(),
{
    if b.len() == 0 {
        seq![0u64]
    } else {
        let prev = stride_offsets(b.drop_last());
        if b.last() == 10u8 && newlines(b) % (LINE_INDEX_STRIDE as nat) == 0 {
            prev.push(b.len() as u64)
        } else {
            prev
        }
    }
}

/// Counts the lines of a file fed to it in chunks, and records where every
/// `LINE_INDEX_STRIDE`-th line starts.
pub struct LineIndexBuilder {
    count: usize,
    pos: u64,
    last: Option<u8>,
    offsets: Vec<u64>,
    fed: Ghost<Seq<u8>>,
}

impl LineIndexBuilder {
    /// The bytes fed so far.
    pub closed spec fn fed(&self) -> Seq<u8> {
        self.fed@
    }

    /// The counts agree with the bytes fed.
    pub closed spec fn wf(&self) -> bool {
        &&& self.count == newlines(self.fed@)
        &&& self.pos == self.fed@.len()
        &&& self.fed@.len() <= usize::MAX
        &&& self.last == if self.fed@.len() == 0 {
            None
        } else {
            Some(self.fed@.last())
        }
        &&& self.offsets@ == stride_offsets(self.fed@)
    }

    /// Nothing fed yet.
    pub fn new() -> (b: Self)
        ensures
            b.wf(),
            b.fed() == Seq::<u8>::empty(),
    {
        let mut offsets: Vec<u64> = Vec::new();
        offsets.push(0);
        LineIndexBuilder { count: 0, pos: 0, last: None, offsets, fed: Ghost(Seq::empty()) }
    }

    /// Feeds the next chunk of the file.
    pub fn feed(&mut self, chunk: &[u8])
        requires
            old(self).wf(),
            old(self).fed().len() + chunk@.len() <= usize::MAX,
        ensures
            final(self).wf(),
            final(self).fed() == old(self).fed() + chunk@,
    {
        let ghost start = self.fed@;
        let mut i: usize = 0;
        while i < chunk.len()
            invariant
                self.wf(),
                i <= chunk@.len(),
                start.len() + chunk@.len() <= usize::MAX,
                self.fed@ == start + chunk@.take(i as int),
            decreases chunk@.len() - i,
        {
            let byte = chunk[i];
            let ghost prev = self.fed@;
            proof {
                lemma_newlines_le(self.fed@);
                assert((start + chunk@.take(i + 1)).drop_last() =~= prev);
            }
            self.fed = Ghost(self.fed@.push(byte));
            proof {
                assert(self.fed@ =~= start + chunk@.take(i + 1));
            }
            self.pos = self.pos + 1;
            if byte == 10u8 {
                self.count = self.count + 1;
                if self.count % LINE_INDEX_STRIDE == 0 {
                    self.offsets.push(self.pos);
                }
            }
            self.last = Some(byte);
            i = i + 1;
        }
        proof {
            assert(chunk@.take(chunk@.len() as int) =~= chunk@);
        }
    }

    /// Lines of what was fed.
    pub fn total_lines(&self) -> (n: usize)
        requires
            self.wf(),
        ensures
            n == line_count(self.fed()),
    {
        proof {
            lemma_newlines_le(self.fed@);
        }
        match self.last {
            Some(b) => if b != 10u8 {
                self.count + 1
            } else {
                self.count
            },
            None => self.count,
        }
    }

    /// The recorded offsets and the line count.
    pub fn finish(self) -> (r: (Vec<u64>, usize))
        requires
            self.wf(),
        ensures
            r.0@ == stride_offsets(self.fed()),
            r.1 == line_count(self.fed()),
    {
        let n = self.total_lines();
        (self.offsets, n)
    }
}

proof fn lemma_newlines_le(b: Seq<u8>)
    ensures
        newlines(b) <= b.len(),
        b.len() > 0 && b.last() != 10u8 ==> newlines(b) < b.len(),
    decreases b.len(),
{
    if b.len() > 0 {
        lemma_newlines_le(b.drop_last());
    }
}

/// One item of a message's content, as far as a rollout line shows it:
/// its `type` and its `text`, where they are strings.
#[derive(Debug, Clone)]
pub struct RolloutContentItem {
    pub item_type: Option<String>,
    pub text: Option<String>,
}

/// The payload of a rollout line: its `type` and `role` where they are
/// strings, and its `content` where it is an array.
#[derive(Debug, Clone)]
pub struct RolloutPayload {
    pub payload_type: Option<String>,
    pub role: Option<String>,
    pub content: Option<Vec<RolloutContentItem>>,
}

/// A parsed rollout line: its `type` where it is a string, and its payload.
#[derive(Debug, Clone)]
pub struct RolloutEntry {
    pub entry_type: Option<String>,
    pub payload: Option<RolloutPayload>,
}

/// Text of the input and output text items of a content array, joined by
/// newlines (no newline before the first non-empty text).
pub open spec fn content_text(items: Seq<RolloutContentItem>) -> Seq<char>
    decreases items.len(),
{
    if items.len() == 0 {
        Seq::empty()
    } else {
        let prev = content_text(items.drop_last());
        let it = items.last();
        let is_text = match it.item_type {
            Some(t) => t@ == "input_text"@ || t@ == "output_text"@,
            None => false,
        };
        match it.text {
            Some(snippet) => if is_text {
                if prev.len() > 0 {
                    prev + seq!['\n'] + snippet@
                } else {
                    prev + snippet@
                }
            } else {
                prev
            },
            None => prev,
        }
    }
}

/// A user message whose text, leading white space aside, opens with the
/// system status banner.
pub open spec fn system_status_spec(e: RolloutEntry) -> bool {
    &&& e.entry_type matches Some(t) && t@ == "response_item"@
    &&& e.payload matches Some(p) && {
        &&& p.payload_type matches Some(t) && t@ == "message"@
        &&& p.role matches Some(r) && r@ == "user"@
        &&& p.content matches Some(c) && has_prefix(trim_start(content_text(c@)), "== System Status =="@)
    }
}

fn opt_str_is(v: &Option<String>, s: &str) -> (b: bool)
    ensures
        b == (v matches Some(t) && t@ == s@),
{
    match v {
        Some(t) => crate::text::str_eq(t.as_str(), s),
        None => false,
    }
}

/// Whether a rollout line is a system status message, which history pages
/// leave out.
pub fn is_system_status_entry(entry: &RolloutEntry) -> (b: bool)
    ensures
        b == system_status_spec(*entry),
{
    if !opt_str_is(&entry.entry_type, "response_item") {
        return false;
    }
    let payload = match &entry.payload {
        Some(p) => p,
        None => return false,
    };
    if !opt_str_is(&payload.payload_type, "message") {
        return false;
    }
    if !opt_str_is(&payload.role, "user") {
        return false;
    }
    let content = match &payload.content {
        Some(c) => c,
        None => return false,
    };
    let mut text = String::new();
    let mut nonempty = false;
    let mut i: usize = 0;
    while i < content.len()
        invariant
            i <= content@.len(),
            text@ == content_text(content@.take(i as int)),
            nonempty == (text@.len() > 0),
        decreases content@.len() - i,
    {
        let item = &content[i];
        proof {
            assert(content@.take(i + 1).drop_last() =~= content@.take(i as int));
            reveal_strlit("input_text");
            reveal_strlit("output_text");
        }
        let is_text = opt_str_is(&item.item_type, "input_text") || opt_str_is(&item.item_type, "output_text");
        if is_text {
            if let Some(snippet) = &item.text {
                if nonempty {
                    push_char(&mut text, '\n');
                }
                push_str(&mut text, snippet.as_str());
                nonempty = nonempty || !snippet.as_str().is_empty();
            }
        }
        proof {
            assert(text@ =~= content_text(content@.take(i + 1)));
        }
        i = i + 1;
    }
    proof {
        assert(content@.take(content@.len() as int) =~= content@);
    }
    let t = trim_start_string(text.as_str());
    starts_with(t.as_str(), "== System Status ==")
}

/// The first `max_words` words of `text` (at least one) joined by single
/// spaces; `None` when the text has no words.
pub open spec fn summary_words(text: Seq<char>, max_words: nat) -> Option<Seq<char>> {
    let w = words_of(text);
    if w.len() == 0 {
        None
    } else {
        let k: int = if max_words == 0 { 1 } else if max_words > w.len() { w.len() as int } else { max_words as int };
        Some(join_seqs(w.take(k), seq![' ']))
    }
}

/// Summarizes a conversation snippet as its first words.
pub fn summarize_text(text: &str, max_words: usize) -> (r: Option<String>)
    ensures
        match r {
            Some(t) => summary_words(text@, max_words as nat) == Some(t@),
            None => summary_words(text@, max_words as nat) is None,
        },
{
    let words = split_words(text);
    if words.len() == 0 {
        return None;
    }
    let k = if max_words == 0 {
        1
    } else if max_words > words.len() {
        words.len()
    } else {
        max_words
    };
    let mut kept: Vec<String> = Vec::new();
    let mut j: usize = 0;
    while j < k
        invariant
            j <= k <= words@.len(),
            strings_view(kept@) == strings_view(words@).take(j as int),
        decreases k - j,
    {
        let ghost k0 = kept@;
        let c = crate::text::clone_string(&words[j]);
        kept.push(c);
        proof {
            assert(kept@ == k0.push(c));
            assert(strings_view(k0).len() == k0.len());
            assert(strings_view(kept@).len() == kept@.len());
            assert(strings_view(kept@).len() == j + 1);
            assert forall|x: int| 0 <= x < j + 1 implies strings_view(kept@)[x] == strings_view(words@).take(j + 1)[x] by {
                if x < j {
                    assert(strings_view(kept@)[x] == kept@[x]@);
                    assert(kept@[x] == k0[x]);
                    assert(strings_view(k0)[x] == k0[x]@);
                } else {
                    assert(strings_view(kept@)[x] == c@);
                }
            }
            assert(strings_view(kept@) =~= strings_view(words@).take(j + 1));
        }
        j = j + 1;
    }
    proof {
        reveal_strlit(" ");
        assert(" "@ =~= seq![' ']);
    }
    Some(join_strings(&kept, " "))
}

/// Every line a page selects is eligible (so, where system status
/// messages are left out, none of them), has an index in the asked range,
/// and the indexes strictly increase along the page.
pub proof fn law_selected_lines_are_eligible_and_ordered(
    lines: Seq<RolloutLineInfo>,
    k: int,
    first: nat,
    from: nat,
    until: nat,
    skip_status: bool,
)
    requires
        0 <= k <= lines.len(),
        first + lines.len() <= usize::MAX,
        lines.len() <= usize::MAX,
    ensures
        forall|i: int|
            0 <= i < selected(lines, k, first, from, until, skip_status).len() ==> {
                let r = #[trigger] selected(lines, k, first, from, until, skip_status)[i];
                &&& r.line < k
                &&& eligible(lines[r.line as int], skip_status)
                &&& from <= r.index < until
                &&& r.index == index_at(lines, first, r.line as int)
            },
        forall|i: int, j: int|
            0 <= i < j < selected(lines, k, first, from, until, skip_status).len() ==> (#[trigger] selected(
                lines,
                k,
                first,
                from,
                until,
                skip_status,
            )[i]).index < (#[trigger] selected(lines, k, first, from, until, skip_status)[j]).index,
    decreases k,
{
    if k > 0 {
        law_selected_lines_are_eligible_and_ordered(lines, k - 1, first, from, until, skip_status);
        lemma_nonblank_bounds(lines, k - 1);
        let prev = selected(lines, k - 1, first, from, until, skip_status);
        let cur = selected(lines, k, first, from, until, skip_status);
        let idx = index_at(lines, first, k - 1);
        if eligible(lines[k - 1], skip_status) && from <= idx && idx < until {
            assert forall|i: int| 0 <= i < prev.len() implies (#[trigger] prev[i]).index < idx by {
                lemma_index_mono(lines, first, prev[i].line as int, k - 1);
            }
            assert forall|i: int| 0 <= i < cur.len() - 1 implies cur[i] == prev[i] by {}
        }
    }
}

proof fn lemma_index_mono(lines: Seq<RolloutLineInfo>, first: nat, a: int, b: int)
    requires
        0 <= a < b <= lines.len(),
        !lines[a].blank,
    ensures
        index_at(lines, first, a) < index_at(lines, first, b),
    decreases b - a,
{
    if a + 1 < b {
        lemma_index_mono(lines, first, a, b - 1);
    }
}

/// Lines a history request gets: the request, `HISTORY_MAX_LINES` when it
/// names none, and at least one and at most `HISTORY_MAX_LINES`.
pub fn history_request_limit(limit: Option<usize>) -> (n: usize)
    ensures
        n == match limit {
            None => HISTORY_MAX_LINES,
            Some(0) => 1,
            Some(v) => if v > HISTORY_MAX_LINES {
                HISTORY_MAX_LINES
            } else {
                v
            },
        },
{
    match limit {
        None => HISTORY_MAX_LINES,
        Some(0) => 1,
        Some(v) => if v > HISTORY_MAX_LINES {
            HISTORY_MAX_LINES
        } else {
            v
        },
    }
}

/// How a history request is served.
#[derive(Debug, Clone, Copy, PartialEq, Eq, Structural)]
pub enum HistoryRequestPlan {
    /// The first lines of the rollout.
    Head { limit: usize },
    /// The last lines of the rollout.
    Tail { limit: usize },
    /// The lines around an index.
    Around { before: Option<usize>, after: Option<usize>, limit: usize },
}

/// The plan for a history request: the anchors `head` and `start` ask for
/// the first lines, `tail` and `end` for the last ones; otherwise the page
/// around the given indexes is read.
pub open spec fn history_plan_spec(anchor: Option<Seq<char>>, before: Option<usize>, after: Option<usize>, limit: usize) -> HistoryRequestPlan {
    match anchor {
        Some(a) => if a == "head"@ || a == "start"@ {
            HistoryRequestPlan::Head { limit }
        } else if a == "tail"@ || a == "end"@ {
            HistoryRequestPlan::Tail { limit }
        } else {
            HistoryRequestPlan::Around { before, after, limit }
        },
        None => HistoryRequestPlan::Around { before, after, limit },
    }
}

/// Plans a history request from its anchor, bounds and requested size.
pub fn plan_history_request(anchor: Option<&str>, before: Option<usize>, after: Option<usize>, limit: Option<usize>) -> (p: HistoryRequestPlan)
    ensures
        p == history_plan_spec(
            match anchor {
                Some(a) => Some(a@),
                None => None,
            },
            before,
            after,
            match limit {
                None => HISTORY_MAX_LINES,
                Some(0) => 1,
                Some(v) => if v > HISTORY_MAX_LINES {
                    HISTORY_MAX_LINES
                } else {
                    v
                },
            },
        ),
{
    let n = history_request_limit(limit);
    match anchor {
        Some(a) => {
            if crate::text::str_eq(a, "head") || crate::text::str_eq(a, "start") {
                HistoryRequestPlan::Head { limit: n }
            } else if crate::text::str_eq(a, "tail") || crate::text::str_eq(a, "end") {
                HistoryRequestPlan::Tail { limit: n }
            } else {
                HistoryRequestPlan::Around { before, after, limit: n }
            }
        },
        None => HistoryRequestPlan::Around { before, after, limit: n },
    }
}

} // verus!
