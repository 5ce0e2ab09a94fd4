//! Bounded detail lookups over a run's stored review output.
use vstd::prelude::*;

use crate::review_run::{AutoReviewFindingDigest, AutoReviewRun, AutoReviewRunSource, AutoReviewRunStatus, finding_index_of, normalize_detail_max_bytes, normalized_max_bytes, parse_finding_id};
use crate::text::{
    byte_len, chars_within, clone_opt_string, clone_string, decimal, i64_to_string,
    lemma_byte_len_concat, lemma_chars_within, opt_view, push_str,
    signed_decimal, summarize, summary_of, to_chars, to_owned_string, trim_string, trimmed,
    u64_to_string, usize_to_string, utf8_width,
};

verus! {

/// Findings a run detail lists in full.
pub const AUTO_REVIEW_DETAIL_MAX_FINDINGS: usize = 10;

/// Findings kept as digests in the run record.
pub const MAX_FINDING_DIGESTS: usize = 25;

/// Characters of a finding title kept in its digest.
pub const MAX_FINDING_DIGEST_TITLE_CHARS: usize = 160;

/// Characters of the overall explanation kept as the run summary.
pub const SUMMARY_DIGEST_CHARS: usize = 240;

/// The lower-case hexadecimal digit of a value below 16.
pub open spec fn hex_lower(d: int) -> char {
    if d < 10 {
        (48 + d) as char
    } else {
        (87 + d) as char
    }
}

/// The `i`-th of the 32 hexadecimal digits of `id`, the most significant
/// first.
pub open spec fn uuid_hex_digit(id: u128, i: int) -> char {
    hex_lower((id as int / vstd::arithmetic::power::pow(16, (31 - i) as nat)) % 16)
}

/// The hexadecimal digits of `id` from position `from` up to `to`.
pub open spec fn uuid_hex_digits(id: u128, from: int, to: int) -> Seq<char> {
    Seq::new((to - from) as nat, |j: int| uuid_hex_digit(id, from + j))
}

/// The text of a run id: the hyphenated lower-case UUID, its 32 hex digits
/// in groups of 8, 4, 4, 4 and 12.
pub open spec fn uuid_text(id: u128) -> Seq<char> {
    uuid_hex_digits(id, 0, 8) + "-"@ + uuid_hex_digits(id, 8, 12) + "-"@ + uuid_hex_digits(id, 12, 16) + "-"@
        + uuid_hex_digits(id, 16, 20) + "-"@ + uuid_hex_digits(id, 20, 32)
}

/// Renders a run id as its hyphenated UUID text: the `uuid` crate's
/// `Display` of `Uuid::from_u128(id)`, which writes the 16 bytes of the
/// value, most significant first, as lower-case hex digits grouped 8-4-4-4-12.
#[verifier::external_body]
pub(crate) fn run_id_text(id: u128) -> (s: String)
    ensures
        s@ == uuid_text(id),
{
    uuid::Uuid::from_u128(id).to_string()
}

/// `Debug` rendering of a string (quoted and escaped).
pub uninterp spec fn debug_text(s: Seq<char>) -> Seq<char>;

/// Renders a string the way `{:?}` does (std's `Debug` for `str`).
#[verifier::external_body]
pub(crate) fn debug_string(s: &str) -> (r: String)
    ensures
        r@ == debug_text(s@),
{
    format!("{:?}", s)
}

/// One finding of a review. The confidence score is carried as the text
/// its `Display` gives.
#[derive(Debug, Clone)]
pub struct ReviewFinding {
    pub title: String,
    pub body: String,
    pub confidence_text: String,
    pub priority: i32,
    pub absolute_file_path: String,
    pub line_start: u32,
    pub line_end: u32,
}

/// The output a review agent produced.
#[derive(Debug, Clone)]
pub struct ReviewOutputEvent {
    pub findings: Vec<ReviewFinding>,
    pub overall_correctness: String,
    pub overall_explanation: String,
    pub overall_confidence_text: String,
}

/// Which detail was looked up.
#[derive(Debug, Clone, Copy, PartialEq, Eq, Structural)]
pub enum AutoReviewDetailKind {
    Run,
    Finding,
}

/// Why a detail lookup failed.
#[derive(Debug, Clone, Copy, PartialEq, Eq, Structural)]
pub enum AutoReviewDetailErrorCode {
    InvalidFindingId,
    MissingFinding,
    MissingRun,
    MissingSidecar,
    InvalidSidecar,
}

/// A failed detail lookup.
#[derive(Debug, Clone)]
pub struct AutoReviewDetailError {
    pub code: AutoReviewDetailErrorCode,
    pub run_id: u128,
    pub finding_id: Option<String>,
    pub message: String,
}

/// A bounded detail lookup result.
#[derive(Debug, Clone)]
pub struct AutoReviewDetailResponse {
    pub run_id: u128,
    pub finding_id: Option<String>,
    pub status: AutoReviewRunStatus,
    pub source: AutoReviewRunSource,
    pub branch: Option<String>,
    pub snapshot_commit: Option<String>,
    pub detail_kind: AutoReviewDetailKind,
    pub finding_count: usize,
    pub omitted_findings: usize,
    pub content: String,
    pub bytes: usize,
    pub original_bytes: usize,
    pub max_bytes: usize,
    pub truncated: bool,
    pub sidecar_path: Option<String>,
}

/// The stable id of the finding at zero-based position `idx`: `f1`, `f2`, ...
pub open spec fn finding_id_text(idx: nat) -> Seq<char> {
    seq!['f'] + decimal(idx + 1)
}

/// Stable id of the finding at zero-based position `idx`.
pub fn finding_id_for(idx: usize) -> (s: String)
    requires
        idx < usize::MAX,
    ensures
        s@ == finding_id_text(idx as nat),
{
    let mut s = String::new();
    crate::text::push_char(&mut s, 'f');
    push_str(&mut s, usize_to_string(idx + 1).as_str());
    proof {
        assert(s@ =~= finding_id_text(idx as nat));
    }
    s
}

/// The full text of one finding.
pub open spec fn finding_detail_text(id: Seq<char>, f: ReviewFinding) -> Seq<char> {
    "finding_id="@ + id + " priority="@ + signed_decimal(f.priority as int) + " confidence="@
        + f.confidence_text@ + " location="@ + f.absolute_file_path@ + ":"@ + decimal(
        f.line_start as nat,
    ) + "-"@ + decimal(f.line_end as nat) + "\ntitle: "@ + trimmed(f.title@) + "\nbody:\n"@
        + trimmed(f.body@)
}

/// Renders one finding in full.
pub fn format_finding_detail(finding_id: &str, finding: &ReviewFinding) -> (s: String)
    ensures
        s@ == finding_detail_text(finding_id@, *finding),
{
    let mut s = to_owned_string("finding_id=");
    push_str(&mut s, finding_id);
    push_str(&mut s, " priority=");
    push_str(&mut s, i64_to_string(finding.priority as i64).as_str());
    push_str(&mut s, " confidence=");
    push_str(&mut s, finding.confidence_text.as_str());
    push_str(&mut s, " location=");
    push_str(&mut s, finding.absolute_file_path.as_str());
    push_str(&mut s, ":");
    push_str(&mut s, u64_to_string(finding.line_start as u64).as_str());
    push_str(&mut s, "-");
    push_str(&mut s, u64_to_string(finding.line_end as u64).as_str());
    push_str(&mut s, "\ntitle: ");
    push_str(&mut s, trim_string(finding.title.as_str()).as_str());
    push_str(&mut s, "\nbody:\n");
    push_str(&mut s, trim_string(finding.body.as_str()).as_str());
    proof {
        assert(s@ =~= finding_detail_text(finding_id@, *finding));
    }
    s
}

/// The `findings:` section listing findings `0..n` (at most ten of them).
pub open spec fn findings_listing(fs: Seq<ReviewFinding>, n: nat) -> Seq<char>
    decreases n,
{
    if n == 0 {
        "findings:"@
    } else {
        findings_listing(fs, (n - 1) as nat) + "\n"@ + finding_detail_text(
            finding_id_text((n - 1) as nat),
            fs[n - 1],
        )
    }
}

/// The findings section of a run detail.
pub open spec fn findings_section(fs: Seq<ReviewFinding>) -> Seq<char> {
    if fs.len() == 0 {
        "findings: none"@
    } else if fs.len() > AUTO_REVIEW_DETAIL_MAX_FINDINGS {
        findings_listing(fs, AUTO_REVIEW_DETAIL_MAX_FINDINGS as nat) + "\n... omitted "@ + decimal(
            (fs.len() - AUTO_REVIEW_DETAIL_MAX_FINDINGS) as nat,
        ) + " additional finding(s); request a specific finding_id for full detail"@
    } else {
        findings_listing(fs, fs.len())
    }
}

/// The full text of a run detail: verdict line, explanation when present,
/// then the findings section, separated by blank lines.
pub open spec fn run_detail_text(o: ReviewOutputEvent) -> Seq<char> {
    let head = "overall_correctness="@ + o.overall_correctness@ + " confidence="@
        + o.overall_confidence_text@;
    let explanation = trimmed(o.overall_explanation@);
    if explanation.len() > 0 {
        head + "\n\n"@ + "overall_explanation:\n"@ + explanation + "\n\n"@ + findings_section(
            o.findings@,
        )
    } else {
        head + "\n\n"@ + findings_section(o.findings@)
    }
}

/// Renders the detail of a whole run.
pub fn format_run_detail(output: &ReviewOutputEvent) -> (s: String)
    ensures
        s@ == run_detail_text(*output),
{
    let mut s = to_owned_string("overall_correctness=");
    push_str(&mut s, output.overall_correctness.as_str());
    push_str(&mut s, " confidence=");
    push_str(&mut s, output.overall_confidence_text.as_str());
    let explanation = trim_string(output.overall_explanation.as_str());
    if !explanation.as_str().is_empty() {
        push_str(&mut s, "\n\n");
        push_str(&mut s, "overall_explanation:\n");
        push_str(&mut s, explanation.as_str());
    }
    push_str(&mut s, "\n\n");
    let fs = &output.findings;
    if fs.len() == 0 {
        push_str(&mut s, "findings: none");
    } else {
        let mut section = to_owned_string("findings:");
        let limit = if fs.len() < AUTO_REVIEW_DETAIL_MAX_FINDINGS {
            fs.len()
        } else {
            AUTO_REVIEW_DETAIL_MAX_FINDINGS
        };
        let mut i: usize = 0;
        while i < limit
            invariant
                i <= limit <= fs.len(),
                limit <= AUTO_REVIEW_DETAIL_MAX_FINDINGS,
                section@ == findings_listing(fs@, i as nat),
            decreases limit - i,
        {
            push_str(&mut section, "\n");
            let id = finding_id_for(i);
            push_str(&mut section, format_finding_detail(id.as_str(), &fs[i]).as_str());
            i = i + 1;
            proof {
                assert(section@ =~= findings_listing(fs@, i as nat));
            }
        }
        if fs.len() > AUTO_REVIEW_DETAIL_MAX_FINDINGS {
            push_str(&mut section, "\n... omitted ");
            push_str(&mut section, usize_to_string(fs.len() - AUTO_REVIEW_DETAIL_MAX_FINDINGS).as_str());
            push_str(
                &mut section,
                " additional finding(s); request a specific finding_id for full detail",
            );
        }
        push_str(&mut s, section.as_str());
    }
    proof {
        assert(s@ =~= run_detail_text(*output));
    }
    s
}

/// The marker put where detail text was cut.
pub open spec fn detail_marker() -> Seq<char> {
    "\n... truncated auto review detail ...\n"@
}

/// Index of the first character that starts at or after byte `idx` (a
/// ceiling character boundary), for `idx` within the text.
pub open spec fn ceil_chars(t: Seq<char>, idx: nat) -> nat {
    let k = chars_within(t, idx);
    if byte_len(t.take(k as int)) == idx {
        k
    } else {
        k + 1
    }
}

/// What `truncate_detail_content` gives back.
pub open spec fn truncated_detail(c: Seq<char>, max_bytes: nat) -> (Seq<char>, bool) {
    let l = byte_len(c);
    let m = detail_marker();
    if l <= max_bytes {
        (c, false)
    } else if max_bytes <= m.len() {
        (m.take(max_bytes as int), true)
    } else {
        let keep = (max_bytes - m.len()) as nat;
        let head = keep / 2;
        let tail = (keep - head) as nat;
        let hk = chars_within(c, head);
        let tk = ceil_chars(c, (l - tail) as nat);
        (c.take(hk as int) + m + c.subrange(tk as int, c.len() as int), true)
    }
}

/// Number of leading characters that fit in `budget` bytes, and their bytes.
fn prefix_within(t: &Vec<char>, budget: usize) -> (r: (usize, usize))
    ensures
        r.0 == chars_within(t@, budget as nat),
        r.1 == byte_len(t@.take(r.0 as int)),
        r.1 <= budget,
{
    let mut k: usize = 0;
    let mut used: usize = 0;
    proof {
        assert(t@.subrange(0, t.len() as int) =~= t@);
        assert(t@.take(0) =~= Seq::<char>::empty());
        assert(byte_len(Seq::<char>::empty()) == 0);
    }
    while k < t.len() && utf8_width(t[k]) <= budget - used
        invariant
            k <= t.len(),
            used <= budget,
            used == byte_len(t@.take(k as int)),
            chars_within(t@, budget as nat) == k + chars_within(
                t@.subrange(k as int, t.len() as int),
                (budget - used) as nat,
            ),
        decreases t.len() - k,
    {
        proof {
            let r = t@.subrange(k as int, t.len() as int);
            assert(r.drop_first() =~= t@.subrange(k + 1, t.len() as int));
            assert(t@.take(k + 1) =~= t@.take(k as int).push(t@[k as int]));
            crate::text::lemma_byte_len_push(t@.take(k as int), t@[k as int]);
        }
        used = used + utf8_width(t[k]);
        k = k + 1;
    }
    (k, used)
}

proof fn lemma_take_split(t: Seq<char>, k: int)
    requires
        0 <= k <= t.len(),
    ensures
        byte_len(t) == byte_len(t.take(k)) + byte_len(t.subrange(k, t.len() as int)),
{
    assert(t =~= t.take(k) + t.subrange(k, t.len() as int));
    lemma_byte_len_concat(t.take(k), t.subrange(k, t.len() as int));
}

/// Cuts detail text that is longer than `max_bytes` bytes, keeping the head
/// and the tail around a marker and cutting only at character boundaries.
pub fn truncate_detail_content(content: String, max_bytes: usize) -> (r: (String, bool))
    ensures
        (r.0@, r.1) == truncated_detail(content@, max_bytes as nat),
        byte_len(r.0@) <= max_bytes || byte_len(content@) <= max_bytes,
{
    let l = crate::text::str_byte_len(content.as_str());
    if l <= max_bytes {
        return (content, false);
    }
    let marker = "\n... truncated auto review detail ...\n";
    let mv = to_chars(marker);
    let ml = mv.len();
    proof {
        reveal_strlit("\n... truncated auto review detail ...\n");
        assert(mv@ == detail_marker());
        assert(crate::text::all_ascii(mv@));
        lemma_ascii_byte_len(mv@);
    }
    if max_bytes <= ml {
        let s = crate::text::from_chars_range(&mv, 0, max_bytes);
        proof {
            assert(s@ =~= detail_marker().take(max_bytes as int));
            lemma_ascii_byte_len(s@);
        }
        return (s, true);
    }
    let keep = max_bytes - ml;
    let head = keep / 2;
    let tail = keep - head;
    let cv = to_chars(content.as_str());
    let (hk, hbytes) = prefix_within(&cv, head);
    let idx = l - tail;
    let (k, kbytes) = prefix_within(&cv, idx);
    proof {
        lemma_chars_within(cv@, idx as nat);
        lemma_chars_within(cv@, head as nat);
    }
    let tk = if kbytes == idx {
        k
    } else {
        proof {
            lemma_take_split(cv@, k as int);
            if k == cv.len() {
                assert(cv@.take(k as int) =~= cv@);
            }
        }
        k + 1
    };
    proof {
        if kbytes != idx {
            assert(byte_len(cv@.take(k + 1)) > idx);
        }
        lemma_take_split(cv@, tk as int);
    }
    let mut out = crate::text::from_chars_range(&cv, 0, hk);
    push_str(&mut out, marker);
    let tail_text = crate::text::from_chars_range(&cv, tk, cv.len());
    push_str(&mut out, tail_text.as_str());
    proof {
        assert(cv@.subrange(0, hk as int) =~= cv@.take(hk as int));
        assert(out@ =~= cv@.take(hk as int) + detail_marker() + cv@.subrange(tk as int, cv.len() as int));
        lemma_byte_len_concat(cv@.take(hk as int), detail_marker());
        lemma_byte_len_concat(cv@.take(hk as int) + detail_marker(), cv@.subrange(tk as int, cv.len() as int));
    }
    (out, true)
}

/// An ASCII text has one byte per character.
pub proof fn lemma_ascii_byte_len(s: Seq<char>)
    requires
        crate::text::all_ascii(s),
    ensures
        byte_len(s) == s.len(),
    decreases s.len(),
{
    if s.len() > 0 {
        lemma_ascii_byte_len(s.drop_last());
    }
}

/// The digests kept for the first 25 findings.
pub open spec fn digest_of(f: ReviewFinding, idx: nat, d: AutoReviewFindingDigest) -> bool {
    &&& d.finding_id@ == finding_id_text(idx)
    &&& d.priority == f.priority
    &&& d.title@ == match summary_of(f.title@, MAX_FINDING_DIGEST_TITLE_CHARS as nat) {
        Some(t) => t,
        None => Seq::<char>::empty(),
    }
    &&& opt_view(d.path) == Some(f.absolute_file_path@)
    &&& d.line_start == Some(f.line_start)
    &&& d.line_end == Some(f.line_end)
}

/// Digests of the first findings of a review output.
pub fn finding_digests(output: &ReviewOutputEvent) -> (r: Vec<AutoReviewFindingDigest>)
    ensures
        r@.len() == if output.findings@.len() < MAX_FINDING_DIGESTS {
            output.findings@.len()
        } else {
            MAX_FINDING_DIGESTS as nat
        },
        forall|i: int| 0 <= i < r@.len() ==> digest_of(output.findings@[i], i as nat, #[trigger] r@[i]),
{
    let fs = &output.findings;
    let limit = if fs.len() < MAX_FINDING_DIGESTS {
        fs.len()
    } else {
        MAX_FINDING_DIGESTS
    };
    let mut r: Vec<AutoReviewFindingDigest> = Vec::new();
    let mut i: usize = 0;
    while i < limit
        invariant
            i <= limit <= fs.len(),
            limit <= MAX_FINDING_DIGESTS,
            r@.len() == i,
            forall|j: int| 0 <= j < i ==> digest_of(fs@[j], j as nat, #[trigger] r@[j]),
        decreases limit - i,
    {
        let f = &fs[i];
        let title = match summarize(f.title.as_str(), MAX_FINDING_DIGEST_TITLE_CHARS) {
            Some(t) => t,
            None => String::new(),
        };
        r.push(
            AutoReviewFindingDigest {
                finding_id: finding_id_for(i),
                priority: f.priority,
                title,
                path: Some(clone_string(&f.absolute_file_path)),
                line_start: Some(f.line_start),
                line_end: Some(f.line_end),
            },
        );
        i = i + 1;
    }
    r
}

/// Where a lookup found the run's stored review output.
#[derive(Debug, Clone)]
pub enum SidecarContent {
    /// No file at the sidecar path.
    Missing,
    /// The file exists but reading it failed; the text of the error.
    Unreadable(String),
    /// The file was read but does not parse; the text of the error.
    Invalid(String),
    /// The parsed review output.
    Parsed(ReviewOutputEvent),
}

/// `e` is the error with this code, run, finding id and message.
pub open spec fn is_detail_error(
    e: AutoReviewDetailError,
    code: AutoReviewDetailErrorCode,
    run_id: u128,
    finding_id: Option<Seq<char>>,
    message: Seq<char>,
) -> bool {
    e.code == code && e.run_id == run_id && opt_view(e.finding_id) == finding_id && e.message@ == message
}

/// Optional string slice viewed as optional text.
pub open spec fn opt_str_view(s: Option<&str>) -> Option<Seq<char>> {
    match s {
        Some(x) => Some(x@),
        None => None,
    }
}

fn opt_str_owned(s: Option<&str>) -> (r: Option<String>)
    ensures
        opt_view(r) == opt_str_view(s),
{
    match s {
        Some(x) => Some(to_owned_string(x)),
        None => None,
    }
}

/// The content of a successful lookup before truncation.
pub open spec fn detail_content(o: ReviewOutputEvent, finding_id: Option<Seq<char>>) -> Seq<char> {
    match finding_id {
        Some(id) => finding_detail_text(id, o.findings@[finding_index_of(id).unwrap() as int]),
        None => run_detail_text(o),
    }
}

/// A finding id that does not name a finding of `o`: invalid or missing.
pub open spec fn finding_lookup_error(o: ReviewOutputEvent, finding_id: Option<Seq<char>>) -> Option<AutoReviewDetailErrorCode> {
    match finding_id {
        Some(id) => match finding_index_of(id) {
            None => Some(AutoReviewDetailErrorCode::InvalidFindingId),
            Some(ix) => if ix >= o.findings@.len() {
                Some(AutoReviewDetailErrorCode::MissingFinding)
            } else {
                None
            },
        },
        None => None,
    }
}

/// The message of a finding lookup that fails: an id not of the form `f<n>`
/// is shown as it was quoted, and a missing finding names the run and how
/// many findings it has.
pub open spec fn finding_error_message(o: ReviewOutputEvent, id: Seq<char>, run_id: u128) -> Seq<char> {
    match finding_index_of(id) {
        None => "invalid auto review finding id "@ + debug_text(id) + "; expected a stable id like f1"@,
        Some(_) => "auto review finding "@ + id + " was not found for run "@ + uuid_text(run_id) + "; this run has "@
            + decimal(o.findings@.len()) + " finding(s)"@,
    }
}

/// `r` is the response of a successful lookup of `finding_id` in `o` for run
/// `run`, with the sidecar at `sidecar_path`.
pub open spec fn is_detail_response(
    r: AutoReviewDetailResponse,
    run: AutoReviewRun,
    sidecar_path: Seq<char>,
    o: ReviewOutputEvent,
    finding_id: Option<Seq<char>>,
    max_bytes: Option<usize>,
) -> bool {
    let m = normalized_max_bytes(max_bytes);
    let content = detail_content(o, finding_id);
    let cut = truncated_detail(content, m as nat);
    let n = o.findings@.len();
    let omitted = match finding_id {
        Some(_) => if n >= 1 { n - 1 } else { 0 },
        None => if n >= AUTO_REVIEW_DETAIL_MAX_FINDINGS { n - AUTO_REVIEW_DETAIL_MAX_FINDINGS } else { 0 },
    };
    &&& r.run_id == run.run_id
    &&& opt_view(r.finding_id) == finding_id
    &&& r.status == run.status
    &&& r.source == run.source
    &&& opt_view(r.branch) == opt_view(run.branch)
    &&& opt_view(r.snapshot_commit) == opt_view(run.snapshot_commit)
    &&& r.detail_kind == (if finding_id is Some { AutoReviewDetailKind::Finding } else { AutoReviewDetailKind::Run })
    &&& r.finding_count == n
    &&& r.omitted_findings == omitted
    &&& r.content@ == cut.0
    &&& r.bytes == byte_len(cut.0)
    &&& r.original_bytes == byte_len(content)
    &&& r.max_bytes == m
    &&& r.truncated == (cut.1 || (finding_id is None && omitted > 0))
    &&& opt_view(r.sidecar_path) == Some(sidecar_path)
}

/// The message of a sidecar failure.
pub open spec fn sidecar_error_message(run_id: u128, path: Seq<char>, c: SidecarContent) -> Seq<char> {
    match c {
        SidecarContent::Missing => "auto review detail sidecar for run "@ + uuid_text(run_id)
            + " is not available at "@ + path,
        SidecarContent::Unreadable(err) => "failed to read auto review detail sidecar for run "@
            + uuid_text(run_id) + " at "@ + path + ": "@ + err@,
        SidecarContent::Invalid(err) => "failed to parse auto review detail sidecar for run "@
            + uuid_text(run_id) + " at "@ + path + ": "@ + err@,
        SidecarContent::Parsed(_) => Seq::empty(),
    }
}

/// Builds the detail response of `run` from what was found at its sidecar
/// path: the sidecar failure, an invalid or missing finding id, or the
/// (possibly truncated) run or finding detail.
pub fn detail_from_sidecar(
    run: &AutoReviewRun,
    sidecar_path: &str,
    sidecar: SidecarContent,
    finding_id: Option<&str>,
    max_bytes: Option<usize>,
) -> (r: Result<AutoReviewDetailResponse, AutoReviewDetailError>)
    ensures
        match sidecar {
            SidecarContent::Missing => r matches Err(e) && is_detail_error(e, AutoReviewDetailErrorCode::MissingSidecar, run.run_id, opt_str_view(finding_id), sidecar_error_message(run.run_id, sidecar_path@, sidecar)),
            SidecarContent::Unreadable(_) => r matches Err(e) && is_detail_error(e, AutoReviewDetailErrorCode::InvalidSidecar, run.run_id, opt_str_view(finding_id), sidecar_error_message(run.run_id, sidecar_path@, sidecar)),
            SidecarContent::Invalid(_) => r matches Err(e) && is_detail_error(e, AutoReviewDetailErrorCode::InvalidSidecar, run.run_id, opt_str_view(finding_id), sidecar_error_message(run.run_id, sidecar_path@, sidecar)),
            SidecarContent::Parsed(o) => match finding_lookup_error(o, opt_str_view(finding_id)) {
                Some(code) => r matches Err(e) && e.code == code && e.run_id == run.run_id && opt_view(e.finding_id) == opt_str_view(finding_id)
                    && e.message@ == finding_error_message(o, finding_id.unwrap()@, run.run_id),
                None => r matches Ok(resp) && is_detail_response(resp, *run, sidecar_path@, o, opt_str_view(finding_id), max_bytes),
            },
        },
{
    let run_id = run.run_id;
    let output = match sidecar {
        SidecarContent::Missing => {
            let mut message = to_owned_string("auto review detail sidecar for run ");
            push_str(&mut message, run_id_text(run_id).as_str());
            push_str(&mut message, " is not available at ");
            push_str(&mut message, sidecar_path);
            proof {
                assert(message@ =~= sidecar_error_message(run_id, sidecar_path@, sidecar));
            }
            return Err(AutoReviewDetailError {
                code: AutoReviewDetailErrorCode::MissingSidecar,
                run_id,
                finding_id: opt_str_owned(finding_id),
                message,
            });
        },
        SidecarContent::Unreadable(err) => {
            let mut message = to_owned_string("failed to read auto review detail sidecar for run ");
            push_str(&mut message, run_id_text(run_id).as_str());
            push_str(&mut message, " at ");
            push_str(&mut message, sidecar_path);
            push_str(&mut message, ": ");
            push_str(&mut message, err.as_str());
            proof {
                assert(message@ =~= sidecar_error_message(run_id, sidecar_path@, sidecar));
            }
            return Err(AutoReviewDetailError {
                code: AutoReviewDetailErrorCode::InvalidSidecar,
                run_id,
                finding_id: opt_str_owned(finding_id),
                message,
            });
        },
        SidecarContent::Invalid(err) => {
            let mut message = to_owned_string("failed to parse auto review detail sidecar for run ");
            push_str(&mut message, run_id_text(run_id).as_str());
            push_str(&mut message, " at ");
            push_str(&mut message, sidecar_path);
            push_str(&mut message, ": ");
            push_str(&mut message, err.as_str());
            proof {
                assert(message@ =~= sidecar_error_message(run_id, sidecar_path@, sidecar));
            }
            return Err(AutoReviewDetailError {
                code: AutoReviewDetailErrorCode::InvalidSidecar,
                run_id,
                finding_id: opt_str_owned(finding_id),
                message,
            });
        },
        SidecarContent::Parsed(o) => o,
    };
    let max = normalize_detail_max_bytes(max_bytes);
    let n = output.findings.len();
    let content = match finding_id {
        Some(id) => {
            let index = match parse_finding_id(id) {
                Some(ix) => ix,
                None => {
                    let mut message = to_owned_string("invalid auto review finding id ");
                    push_str(&mut message, debug_string(id).as_str());
                    push_str(&mut message, "; expected a stable id like f1");
                    proof {
                        assert(message@ =~= finding_error_message(output, id@, run_id));
                    }
                    return Err(AutoReviewDetailError {
                        code: AutoReviewDetailErrorCode::InvalidFindingId,
                        run_id,
                        finding_id: Some(to_owned_string(id)),
                        message,
                    });
                },
            };
            if index >= n {
                let mut message = to_owned_string("auto review finding ");
                push_str(&mut message, id);
                push_str(&mut message, " was not found for run ");
                push_str(&mut message, run_id_text(run_id).as_str());
                push_str(&mut message, "; this run has ");
                push_str(&mut message, usize_to_string(n).as_str());
                push_str(&mut message, " finding(s)");
                proof {
                    assert(message@ =~= finding_error_message(output, id@, run_id));
                }
                return Err(AutoReviewDetailError {
                    code: AutoReviewDetailErrorCode::MissingFinding,
                    run_id,
                    finding_id: Some(to_owned_string(id)),
                    message,
                });
            }
            format_finding_detail(id, &output.findings[index])
        },
        None => format_run_detail(&output),
    };
    let original_bytes = crate::text::str_byte_len(content.as_str());
    let (content, truncated) = truncate_detail_content(content, max);
    let bytes = crate::text::str_byte_len(content.as_str());
    let omitted_findings = match finding_id {
        Some(_) => n.saturating_sub(1),
        None => n.saturating_sub(AUTO_REVIEW_DETAIL_MAX_FINDINGS),
    };
    let findings_capped = finding_id.is_none() && omitted_findings > 0;
    Ok(AutoReviewDetailResponse {
        run_id,
        finding_id: opt_str_owned(finding_id),
        status: run.status,
        source: run.source,
        branch: clone_opt_string(&run.branch),
        snapshot_commit: clone_opt_string(&run.snapshot_commit),
        detail_kind: if finding_id.is_some() {
            AutoReviewDetailKind::Finding
        } else {
            AutoReviewDetailKind::Run
        },
        finding_count: n,
        omitted_findings,
        content,
        bytes,
        original_bytes,
        max_bytes: max,
        truncated: truncated || findings_capped,
        sidecar_path: Some(to_owned_string(sidecar_path)),
    })
}

} // verus!
