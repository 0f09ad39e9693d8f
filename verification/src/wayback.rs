//! The Wayback Machine's rules as this tool uses them: replay URLs, stored
//! media copies and their choice, snapshot tokens, CDX index rows, and when a
//! failed request is tried again.

use std::time::Duration;
use ureq::Agent;
use vstd::prelude::*;
use crate::pattern::{first_match, group, group_of, regex_first_match};
use crate::sort::{
    Timestamped, has_stamp_in, lemma_same_per_stamp_elements, lemma_same_per_stamp_keeps_stamps, same_per_stamp, sort_by_stamp, sorted_by_stamp,
    stamps_distinct,
};
use crate::text::{chars_of, contains_seq, contains_str, parse_u64, parse_u64_spec, push_str, str_eq};

verus! {

/// The `User-Agent` the archive sees.
pub const USER_AGENT: &'static str = "ytb-wayback/0.1.0 (+https://github.com/annexare/ytb-wayback; archive retrieval utility)";

/// The archive's host.
pub const BASE: &'static str = "https://web.archive.org";

/// A snapshot token (`/web/<14 digits>`) in a resolved stream URL.
pub const STREAM_TIMESTAMP_PATTERN: &'static str = r"/web/(\d{14})";

/// The host, snapshot digits and replay flags of an archived URL.
pub const SNAPSHOT_TOKEN_PATTERN: &'static str = r"(web\.archive\.org|archive\.org)/web/([0-9]+)([0-9A-Za-z_*]*)";

/// One capture row from the CDX API.
#[derive(Debug, Clone)]
pub struct Snapshot {
    pub timestamp: String,
    pub statuscode: String,
    pub mimetype: String,
    pub length: String,
}

/// One stored copy of a video's archived media (the CDX index of the internal
/// fake-url media path). The archive can hold several stores of the same
/// video at different times/sizes; the largest is usually highest quality.
#[derive(Debug, Clone, PartialEq, Eq)]
pub struct MediaCapture {
    pub timestamp: String,
    pub mimetype: String,
    pub length: u64,
}

impl Timestamped for Snapshot {
    open spec fn stamp(&self) -> Seq<char> {
        self.timestamp@
    }

    fn stamp_str(&self) -> (res: &str) {
        self.timestamp.as_str()
    }
}

impl Timestamped for MediaCapture {
    open spec fn stamp(&self) -> Seq<char> {
        self.timestamp@
    }

    fn stamp_str(&self) -> (res: &str) {
        self.timestamp.as_str()
    }
}

/// `ureq::Agent`, the HTTP client, carried as an opaque value.
#[verifier::external_type_specification]
#[verifier::external_body]
pub struct ExAgent(Agent);

/// Builds a `ureq::Agent` with `ureq::config::Config::builder()`, the given
/// `User-Agent`, global and per-call timeouts and redirect limit. Nothing is
/// claimed of the agent.
#[verifier::external_body]
fn build_agent(user_agent: &'static str, global_secs: u64, per_call_secs: u64, max_redirects: u32) -> Agent {
    ureq::config::Config::builder().user_agent(user_agent).timeout_global(
        Some(Duration::from_secs(global_secs)),
    ).timeout_per_call(Some(Duration::from_secs(per_call_secs))).max_redirects(
        max_redirects,
    ).build().into()
}

/// HTTP wrapper around archive.org with politeness baked in.
pub struct Wayback {
    agent: Agent,
    /// Max retries for transient failures (transport errors / 5xx / throttling).
    retries: u32,
    /// Initial backoff before the first retry, in milliseconds.
    base_delay_ms: u64,
    pub verbose: bool,
}

/// What one request attempt came back with.
#[derive(Debug, Clone, Copy, PartialEq, Eq)]
pub enum AttemptOutcome {
    /// A response with this HTTP status.
    Answered(u16),
    /// The client reported this HTTP status as an error.
    Refused(u16),
    /// No response (a transport error).
    Unreachable,
}

/// What to do after a request attempt.
#[derive(Debug, Clone, Copy, PartialEq, Eq)]
pub enum RetryDecision {
    /// Hand the response to the caller.
    Accept,
    /// Fail at once with `HTTP <status>`: a terminal error.
    Fail(u16),
    /// A transient failure: wait, double the wait, and try again.
    Retry,
    /// A transient failure on the last allowed attempt: fail with it.
    GiveUp,
}

/// HTTP 5xx and 429 are worth another try.
pub open spec fn is_transient(status: u16) -> bool {
    (500 <= status && status <= 599) || status == 429
}

/// The decision after attempt number `attempt` (counting from 0) when at
/// most `retries` retries follow the first attempt.
pub open spec fn retry_decision_spec(retries: u32, attempt: u32, outcome: AttemptOutcome) -> RetryDecision {
    match outcome {
        AttemptOutcome::Answered(s) if !is_transient(s) => RetryDecision::Accept,
        AttemptOutcome::Refused(s) if !is_transient(s) => RetryDecision::Fail(s),
        _ => if attempt < retries {
            RetryDecision::Retry
        } else {
            RetryDecision::GiveUp
        },
    }
}

/// How many attempts a request makes when attempt number `a` (counting from
/// 0) comes back with `outcomes[a]`, counted from attempt `a` on: attempts
/// go on while the decision is to retry.
pub open spec fn attempts_from(retries: u32, outcomes: Seq<AttemptOutcome>, a: u32) -> nat
    decreases outcomes.len() - a,
{
    if a >= outcomes.len() {
        0
    } else if retry_decision_spec(retries, a, outcomes[a as int]) is Retry && a < u32::MAX {
        1 + attempts_from(retries, outcomes, (a + 1) as u32)
    } else {
        1
    }
}

/// Every server error (HTTP 500 to 599) and every throttling answer (429)
/// is retried while retries remain, whether it came as a response or as an
/// error; on the last attempt it ends the request. Any other status is final
/// at once: a response is accepted, an error fails with its status. A
/// network error is retried like a server error.
pub proof fn lemma_transient_statuses_are_retried(retries: u32, attempt: u32, status: u16)
    ensures
        ((500 <= status <= 599) || status == 429) ==> {
            &&& retry_decision_spec(retries, attempt, AttemptOutcome::Answered(status))
                == (if attempt < retries { RetryDecision::Retry } else { RetryDecision::GiveUp })
            &&& retry_decision_spec(retries, attempt, AttemptOutcome::Refused(status))
                == (if attempt < retries { RetryDecision::Retry } else { RetryDecision::GiveUp })
        },
        !((500 <= status <= 599) || status == 429) ==> {
            &&& retry_decision_spec(retries, attempt, AttemptOutcome::Answered(status)) == RetryDecision::Accept
            &&& retry_decision_spec(retries, attempt, AttemptOutcome::Refused(status)) == RetryDecision::Fail(status)
        },
        retry_decision_spec(retries, attempt, AttemptOutcome::Unreachable)
            == (if attempt < retries { RetryDecision::Retry } else { RetryDecision::GiveUp }),
{
}

/// A request is tried at most `retries + 1` times, whatever comes back, and
/// a response or error that is not transient ends it at once.
pub proof fn lemma_attempts_bounded(retries: u32, outcomes: Seq<AttemptOutcome>, a: u32)
    requires
        a <= retries,
    ensures
        attempts_from(retries, outcomes, a) <= retries + 1 - a,
        a < outcomes.len() && !(retry_decision_spec(retries, a, outcomes[a as int]) is Retry)
            ==> attempts_from(retries, outcomes, a) == 1,
    decreases retries - a,
{
    if a < outcomes.len() && retry_decision_spec(retries, a, outcomes[a as int]) is Retry {
        lemma_attempts_bounded(retries, outcomes, (a + 1) as u32);
    }
}

/// A stored copy passes the size cap.
pub open spec fn fits(c: MediaCapture, limit: Option<u64>) -> bool {
    match limit {
        None => true,
        Some(l) => c.length <= l,
    }
}

/// Some stored copy passes the size cap.
pub open spec fn any_fits(caps: Seq<MediaCapture>, limit: Option<u64>) -> bool {
    exists|j: int| 0 <= j < caps.len() && fits(#[trigger] caps[j], limit)
}

/// `i` is the last of the largest copies that pass the cap (what
/// `max_by_key` picks among them).
pub open spec fn is_last_largest(caps: Seq<MediaCapture>, limit: Option<u64>, i: int) -> bool {
    &&& 0 <= i < caps.len()
    &&& fits(caps[i], limit)
    &&& forall|j: int| 0 <= j < caps.len() && fits(#[trigger] caps[j], limit) ==> caps[j].length <= caps[i].length
    &&& forall|j: int| i < j < caps.len() && fits(#[trigger] caps[j], limit) ==> caps[j].length < caps[i].length
}

/// `i` is the first of the smallest copies (what `min_by_key` picks).
pub open spec fn is_first_smallest(caps: Seq<MediaCapture>, i: int) -> bool {
    &&& 0 <= i < caps.len()
    &&& forall|j: int| 0 <= j < caps.len() ==> caps[i].length <= #[trigger] caps[j].length
    &&& forall|j: int| 0 <= j < i ==> caps[i].length < #[trigger] caps[j].length
}

/// The copy to download: the largest one under the cap (the last of equals),
/// or, when none fits, the smallest (the first of equals).
pub open spec fn is_selected(caps: Seq<MediaCapture>, limit: Option<u64>, i: int) -> bool {
    if any_fits(caps, limit) {
        is_last_largest(caps, limit, i)
    } else {
        is_first_smallest(caps, i)
    }
}

/// What the choice of a stored copy promises: with no cap the largest copy
/// is chosen; with a cap that some copy meets, the chosen copy meets it and
/// no copy that meets it is larger; with a cap that no copy meets, no copy
/// is smaller. Exactly one copy is chosen.
pub proof fn lemma_selected_copy(caps: Seq<MediaCapture>, limit: Option<u64>, i: int, k: int)
    requires
        is_selected(caps, limit, i),
    ensures
        0 <= i < caps.len(),
        limit is None ==> forall|j: int| 0 <= j < caps.len() ==> #[trigger] caps[j].length <= caps[i].length,
        any_fits(caps, limit) ==> fits(caps[i], limit),
        any_fits(caps, limit) ==> forall|j: int|
            0 <= j < caps.len() && fits(#[trigger] caps[j], limit) ==> caps[j].length <= caps[i].length,
        !any_fits(caps, limit) ==> forall|j: int| 0 <= j < caps.len() ==> caps[i].length <= #[trigger] caps[j].length,
        is_selected(caps, limit, k) ==> i == k,
{
    if limit is None {
        assert(fits(caps[i], limit));
        assert(any_fits(caps, limit));
        assert forall|j: int| 0 <= j < caps.len() implies #[trigger] caps[j].length <= caps[i].length by {
            assert(fits(caps[j], limit));
        }
    }
    if is_selected(caps, limit, k) && i != k {
        // Both are largest (or both smallest), and the tie-break picks one.
        if any_fits(caps, limit) {
            assert(fits(caps[i], limit) && fits(caps[k], limit));
        }
        assert(caps[k].length <= caps[i].length && caps[i].length <= caps[k].length);
    }
}

/// The BASE/web/<date or 2><flag>/<rest> replay URL.
pub open spec fn replay_url_spec(date: Option<Seq<char>>, flag: Seq<char>, rest: Seq<char>) -> Seq<char> {
    BASE@ + "/web/"@ + match date {
        Some(d) => d,
        None => "2"@,
    } + flag + "/"@ + rest
}

/// An archived URL with its snapshot digits replaced by `date`, keeping the
/// host and the replay flags that followed them, and the text around the
/// first snapshot token.
pub open spec fn pin_date_spec(url: Seq<char>, date: Seq<char>) -> Option<Seq<char>> {
    let m = regex_first_match(SNAPSHOT_TOKEN_PATTERN@, url);
    match m {
        Some(v) => Some(
            v.0 + or_empty(group_of(m, 1)) + "/web/"@ + date + or_empty(group_of(m, 3)) + v.2,
        ),
        None => None,
    }
}

/// A present text, or the empty one.
pub open spec fn or_empty(o: Option<Seq<char>>) -> Seq<char> {
    match o {
        Some(s) => s,
        None => Seq::empty(),
    }
}

/// Why a snapshot date could not be pinned.
#[derive(Debug, Clone, PartialEq, Eq)]
pub enum PinError {
    /// The URL holds no `web.archive.org/web/<digits>` token.
    NotArchived { url: String },
}

impl PinError {
    /// The text of the refusal.
    pub fn message(&self) -> (res: String)
        ensures
            res@ == (match self {
                PinError::NotArchived { url } => "cannot pin a snapshot date on "@ + crate::text::debug_quoted(url@)
                    + ": not a web.archive.org URL"@,
            }),
    {
        match self {
            PinError::NotArchived { url } => {
                let mut m = String::from_str("cannot pin a snapshot date on ");
                let q = crate::text::debug_str(url.as_str());
                push_str(&mut m, q.as_str());
                push_str(&mut m, ": not a web.archive.org URL");
                m
            },
        }
    }
}

/// A CDX row as the tool reads it: timestamp, status code, media type and
/// length.
pub type CdxRow = (String, String, String, String);

/// What `serde_json::from_str::<Vec<Vec<String>>>` makes of a text: `None`
/// when it is not a JSON array of arrays of strings.
pub uninterp spec fn json_string_table(text: Seq<char>) -> Option<Seq<Seq<Seq<char>>>>;

/// `serde_json::from_str::<Vec<Vec<String>>>(text).ok()`. Claimed of the
/// crate: the outcome is a function of the text (named
/// [`json_string_table`]).
#[verifier::external_body]
fn parse_string_table(text: &str) -> (res: Option<Vec<Vec<String>>>)
    ensures
        match res {
            Some(t) => json_string_table(text@) == Some(t.deep_view()),
            None => json_string_table(text@) is None,
        },
{
    serde_json::from_str::<Vec<Vec<String>>>(text).ok()
}

/// The fields the tool reads from CDX data rows of at least six columns:
/// columns 0, 2, 3 and 5.
pub open spec fn cdx_fields(rows: Seq<Seq<Seq<char>>>) -> Seq<(Seq<char>, Seq<char>, Seq<char>, Seq<char>)>
    decreases rows.len(),
{
    if rows.len() == 0 {
        Seq::empty()
    } else {
        let r = rows[0];
        let rest = cdx_fields(rows.drop_first());
        if r.len() >= 6 {
            seq![(r[0], r[2], r[3], r[5])] + rest
        } else {
            rest
        }
    }
}

/// The rows of a parsed CDX answer, past its header row.
pub open spec fn cdx_rows_spec(table: Seq<Seq<Seq<char>>>) -> Seq<(Seq<char>, Seq<char>, Seq<char>, Seq<char>)> {
    if table.len() == 0 {
        Seq::empty()
    } else {
        cdx_fields(table.drop_first())
    }
}

/// The rows of a CDX answer's text; none when it is not a JSON table of
/// strings.
pub open spec fn parse_cdx_spec(cdx: Seq<char>) -> Seq<(Seq<char>, Seq<char>, Seq<char>, Seq<char>)> {
    match json_string_table(cdx) {
        Some(t) => cdx_rows_spec(t),
        None => Seq::empty(),
    }
}

/// The timestamp, status code, media type and length of each data row of a
/// parsed CDX answer (the first row is the field header; rows shorter than
/// six columns are skipped).
pub fn cdx_rows(table: &Vec<Vec<String>>) -> (res: Vec<CdxRow>)
    ensures
        res.deep_view() == cdx_rows_spec(table.deep_view()),
{
    let mut res: Vec<CdxRow> = Vec::new();
    if table.len() == 0 {
        assert(res.deep_view() =~= Seq::<(Seq<char>, Seq<char>, Seq<char>, Seq<char>)>::empty());
        return res;
    }
    let ghost rows = table.deep_view().drop_first();
    let mut i: usize = table.len();
    while i > 1
        invariant
            1 <= i <= table@.len(),
            rows == table.deep_view().drop_first(),
            res.deep_view() == cdx_fields(rows.skip(i - 1)),
        decreases i,
    {
        i -= 1;
        let r = &table[i];
        let ghost rest = rows.skip(i - 1);
        assert(rest[0] == table.deep_view()[i as int]);
        assert(rest.drop_first() =~= rows.skip(i as int));
        if r.len() >= 6 {
            let row = (r[0].clone(), r[2].clone(), r[3].clone(), r[5].clone());
            res.insert(0, row);
            assert(res.deep_view() =~= cdx_fields(rest));
        }
    }
    assert(rows.skip(0) =~= rows);
    res
}

/// Parse the CDX JSON array-of-arrays (first row is the field header).
pub fn parse_cdx(cdx: &str) -> (res: Vec<CdxRow>)
    ensures
        res.deep_view() == parse_cdx_spec(cdx@),
{
    match parse_string_table(cdx) {
        Some(t) => cdx_rows(&t),
        None => {
            let res: Vec<CdxRow> = Vec::new();
            assert(res.deep_view() =~= Seq::<(Seq<char>, Seq<char>, Seq<char>, Seq<char>)>::empty());
            res
        },
    }
}

/// The stored media copies among CDX rows, in row order: rows whose media
/// type names `video` and whose length is a number (the archive also keeps a
/// tiny `application/json` index stub under the same key).
pub open spec fn media_of_rows(rows: Seq<CdxRow>) -> Seq<MediaCapture>
    decreases rows.len(),
{
    if rows.len() == 0 {
        Seq::empty()
    } else {
        let m = media_of_rows(rows.drop_last());
        let r = rows.last();
        if contains_seq(r.2@, "video"@) && parse_u64_spec(r.3@) is Some {
            m.push(MediaCapture { timestamp: r.0, mimetype: r.2, length: parse_u64_spec(r.3@)->0 })
        } else {
            m
        }
    }
}

/// The stored media copies among CDX rows, sorted by timestamp (a stable
/// sort: rows of one timestamp keep their order).
pub fn media_captures_from_rows(rows: &Vec<CdxRow>) -> (res: Vec<MediaCapture>)
    ensures
        sorted_by_stamp(res@),
        same_per_stamp(res@, media_of_rows(rows@)),
{
    let mut out: Vec<MediaCapture> = Vec::new();
    let mut i: usize = 0;
    while i < rows.len()
        invariant
            i <= rows@.len(),
            out@ == media_of_rows(rows@.take(i as int)),
        decreases rows@.len() - i,
    {
        let r = &rows[i];
        assert(rows@.take(i + 1).drop_last() =~= rows@.take(i as int));
        assert(rows@.take(i + 1).last() == rows@[i as int]);
        if contains_str(&chars_of(r.2.as_str()), "video") {
            match parse_u64(r.3.as_str()) {
                Some(length) => {
                    out.push(MediaCapture { timestamp: r.0.clone(), mimetype: r.2.clone(), length });
                },
                None => {},
            }
        }
        i += 1;
    }
    assert(rows@.take(i as int) =~= rows@);
    sort_by_stamp(out)
}

/// Whether some snapshot of `s` has timestamp `ts`.
pub open spec fn has_stamp(s: Seq<Snapshot>, ts: Seq<char>) -> bool {
    exists|j: int| 0 <= j < s.len() && (#[trigger] s[j]).timestamp@ == ts
}

/// The snapshots of CDX rows, keeping the first row of each timestamp.
pub open spec fn first_per_stamp(rows: Seq<CdxRow>) -> Seq<Snapshot>
    decreases rows.len(),
{
    if rows.len() == 0 {
        Seq::empty()
    } else {
        let d = first_per_stamp(rows.drop_last());
        let r = rows.last();
        if has_stamp(d, r.0@) {
            d
        } else {
            d.push(Snapshot { timestamp: r.0, statuscode: r.1, mimetype: r.2, length: r.3 })
        }
    }
}

/// Snapshot `s` is, field for field, row `i` of the CDX rows, and no
/// earlier row has its timestamp.
pub open spec fn is_row_of(rows: Seq<CdxRow>, s: Snapshot, i: int) -> bool {
    &&& 0 <= i < rows.len()
    &&& s.timestamp == rows[i].0
    &&& s.statuscode == rows[i].1
    &&& s.mimetype == rows[i].2
    &&& s.length == rows[i].3
    &&& forall|i2: int| 0 <= i2 < i ==> #[trigger] rows[i2].0@ != rows[i].0@
}

/// Snapshot `s` is the first CDX row of its timestamp, field for field.
pub open spec fn is_first_row_of(rows: Seq<CdxRow>, s: Snapshot) -> bool {
    exists|i: int| is_row_of(rows, s, i)
}

/// Keeping the first row of each timestamp lists every timestamp of the
/// rows, each once.
proof fn lemma_first_per_stamp(rows: Seq<CdxRow>)
    ensures
        stamps_distinct(first_per_stamp(rows)),
        forall|i: int| 0 <= i < rows.len() ==> has_stamp_in(first_per_stamp(rows), #[trigger] rows[i].0@),
        forall|j: int| 0 <= j < first_per_stamp(rows).len() ==> is_first_row_of(
            rows,
            #[trigger] first_per_stamp(rows)[j],
        ),
    decreases rows.len(),
{
    if rows.len() > 0 {
        let p = rows.drop_last();
        lemma_first_per_stamp(p);
        let d = first_per_stamp(p);
        let r = rows.last();
        let f = first_per_stamp(rows);
        assert forall|j: int| 0 <= j < f.len() implies is_first_row_of(rows, #[trigger] f[j]) by {
            if j < d.len() {
                assert(f[j] == d[j]);
                assert(is_first_row_of(p, d[j]));
                let i = choose|i: int| is_row_of(p, d[j], i);
                assert(rows[i] == p[i]);
                assert forall|i2: int| 0 <= i2 < i implies #[trigger] rows[i2].0@ != rows[i].0@ by {
                    assert(rows[i2] == p[i2]);
                    assert(p[i2].0@ != p[i].0@);
                }
                assert(is_row_of(rows, f[j], i));
            } else {
                let i = rows.len() - 1;
                assert(f[j] == Snapshot { timestamp: r.0, statuscode: r.1, mimetype: r.2, length: r.3 });
                assert forall|i2: int| 0 <= i2 < i implies #[trigger] rows[i2].0@ != rows[i].0@ by {
                    assert(rows[i2] == p[i2]);
                    if rows[i2].0@ == rows[i].0@ {
                        assert(has_stamp_in(d, p[i2].0@));
                        let k = choose|k: int| 0 <= k < d.len() && (#[trigger] d[k]).stamp() == p[i2].0@;
                        assert(d[k].timestamp@ == r.0@);
                    }
                }
                assert(is_row_of(rows, f[j], i));
            }
        }
        assert forall|i: int| 0 <= i < rows.len() implies has_stamp_in(f, #[trigger] rows[i].0@) by {
            if i < rows.len() - 1 {
                assert(rows[i] == p[i]);
                assert(has_stamp_in(d, p[i].0@));
                let j = choose|j: int| 0 <= j < d.len() && (#[trigger] d[j]).stamp() == p[i].0@;
                assert(f[j] == d[j]);
            } else if has_stamp(d, r.0@) {
                let j = choose|j: int| 0 <= j < d.len() && (#[trigger] d[j]).timestamp@ == r.0@;
                assert(f[j] == d[j]);
            } else {
                assert(f[d.len() as int].stamp() == r.0@);
            }
        }
    }
}

/// The captures listed by CDX rows gathered from several queries: one per
/// timestamp (the first row seen wins), sorted by timestamp.
pub fn snapshots_from_rows(rows: &Vec<CdxRow>) -> (res: Vec<Snapshot>)
    ensures
        sorted_by_stamp(res@),
        same_per_stamp(res@, first_per_stamp(rows@)),
        stamps_distinct(res@),
        forall|i: int| 0 <= i < rows@.len() ==> has_stamp_in(res@, #[trigger] rows@[i].0@),
        forall|j: int| 0 <= j < res@.len() ==> is_first_row_of(rows@, #[trigger] res@[j]),
{
    let mut out: Vec<Snapshot> = Vec::new();
    let mut i: usize = 0;
    while i < rows.len()
        invariant
            i <= rows@.len(),
            out@ == first_per_stamp(rows@.take(i as int)),
        decreases rows@.len() - i,
    {
        let r = &rows[i];
        assert(rows@.take(i + 1).drop_last() =~= rows@.take(i as int));
        assert(rows@.take(i + 1).last() == rows@[i as int]);
        let mut seen = false;
        let mut j: usize = 0;
        while j < out.len()
            invariant
                j <= out@.len(),
                seen == exists|k: int| 0 <= k < j && (#[trigger] out@[k]).timestamp@ == r.0@,
            decreases out@.len() - j,
        {
            if str_eq(out[j].timestamp.as_str(), r.0.as_str()) {
                seen = true;
            }
            j += 1;
        }
        if !seen {
            out.push(
                Snapshot {
                    timestamp: r.0.clone(),
                    statuscode: r.1.clone(),
                    mimetype: r.2.clone(),
                    length: r.3.clone(),
                },
            );
        }
        i += 1;
    }
    assert(rows@.take(i as int) =~= rows@);
    let res = sort_by_stamp(out);
    proof {
        lemma_first_per_stamp(rows@);
        lemma_same_per_stamp_keeps_stamps(res@, first_per_stamp(rows@));
        lemma_same_per_stamp_elements(res@, first_per_stamp(rows@));
        assert forall|j: int| 0 <= j < res@.len() implies is_first_row_of(rows@, #[trigger] res@[j]) by {
            let f = first_per_stamp(rows@);
            assert(f.contains(res@[j]));
            let k = choose|k: int| 0 <= k < f.len() && f[k] == res@[j];
            assert(is_first_row_of(rows@, f[k]));
        }
        assert forall|i: int| 0 <= i < rows@.len() implies has_stamp_in(res@, #[trigger] rows@[i].0@) by {
            assert(has_stamp_in(first_per_stamp(rows@), rows@[i].0@));
        }
    }
    res
}

/// The CDX endpoint.
pub const CDX_ENDPOINT: &'static str = "https://web.archive.org/cdx/search/cdx";

/// The CDX fields the tool asks for.
pub const CDX_FIELDS: &'static str = "timestamp,original,statuscode,mimetype,digest,length";

/// The CDX filter the tool asks for.
pub const CDX_FILTER: &'static str = "statuscode:200";

/// The CDX row limit the tool asks for.
pub const CDX_LIMIT: &'static str = "500";

/// The archive's internal index key for a video's stored media.
pub open spec fn media_key_spec(id: Seq<char>) -> Seq<char> {
    "wayback-fakeurl.archive.org/yt/"@ + id
}

/// The archive's internal index key for a video's stored media:
/// `wayback-fakeurl.archive.org/yt/<id>`.
pub fn media_index_key(id: &str) -> (res: String)
    ensures
        res@ == media_key_spec(id@),
{
    let mut s = String::from_str("wayback-fakeurl.archive.org/yt/");
    push_str(&mut s, id);
    s
}

/// The replay URL that redirects to a video's stored media stream: the
/// fake-url index entry replayed with the raw-media flag `oe_`.
pub fn stream_request_url(id: &str, date: Option<&str>) -> (res: String)
    ensures
        res@ == replay_url_spec(
            crate::video_id::opt_str_view(date),
            "oe_"@,
            "http://"@ + media_key_spec(id@),
        ),
{
    let mut rest = String::from_str("http://");
    let key = media_index_key(id);
    push_str(&mut rest, key.as_str());
    Wayback::replay_url(date, "oe_", rest.as_str())
}

/// The page to replay for a video's metadata: the inner URL the user linked
/// when there is one (live broadcasts keep their player data that way), else
/// the watch page, replayed raw (`if_`).
pub fn archived_page_url(id: &str, date: Option<&str>, prefer_inner: Option<&str>) -> (res: String)
    ensures
        res@ == replay_url_spec(
            crate::video_id::opt_str_view(date),
            "if_"@,
            match prefer_inner {
                Some(inner) => inner@,
                None => "https://www.youtube.com/watch?v="@ + id@,
            },
        ),
{
    let watch_url = match prefer_inner {
        Some(inner) => inner.to_owned(),
        None => {
            let mut w = String::from_str("https://www.youtube.com/watch?v=");
            push_str(&mut w, id);
            w
        },
    };
    Wayback::replay_url(date, "if_", watch_url.as_str())
}

/// The watch-page keys a video's captures are indexed under: the bare and
/// `www` hosts, for `/watch?v=` pages and `/live/` broadcasts.
pub fn watch_page_keys(id: &str) -> (res: Vec<String>)
    ensures
        res.deep_view() == seq![
            "www.youtube.com/watch?v="@ + id@,
            "youtube.com/watch?v="@ + id@,
            "www.youtube.com/live/"@ + id@,
            "youtube.com/live/"@ + id@,
        ],
{
    let mut a = String::from_str("www.youtube.com/watch?v=");
    push_str(&mut a, id);
    let mut b = String::from_str("youtube.com/watch?v=");
    push_str(&mut b, id);
    let mut c = String::from_str("www.youtube.com/live/");
    push_str(&mut c, id);
    let mut d = String::from_str("youtube.com/live/");
    push_str(&mut d, id);
    let res = vec![a, b, c, d];
    assert(res.deep_view() =~= seq![
        "www.youtube.com/watch?v="@ + id@,
        "youtube.com/watch?v="@ + id@,
        "www.youtube.com/live/"@ + id@,
        "youtube.com/live/"@ + id@,
    ]);
    res
}

impl Wayback {
    /// The number of retries after a transient failure.
    pub closed spec fn retries_spec(&self) -> u32 {
        self.retries
    }

    /// Whether progress is logged.
    pub closed spec fn verbose_spec(&self) -> bool {
        self.verbose
    }

    /// The initial backoff, in milliseconds.
    pub closed spec fn base_delay_spec(&self) -> u64 {
        self.base_delay_ms
    }

    /// The HTTP client this wayback sends its requests through.
    pub closed spec fn agent_spec(&self) -> Agent {
        self.agent
    }

    /// A client that retries `retries` times, first waiting `base_delay_ms`.
    pub fn new(retries: u32, base_delay_ms: u64) -> (res: Self)
        ensures
            res.retries_spec() == retries,
            res.base_delay_spec() == base_delay_ms,
            !res.verbose_spec(),
    {
        let agent = build_agent(USER_AGENT, 120, 60, 5);
        Wayback { agent, retries, base_delay_ms, verbose: false }
    }

    /// The HTTP client.
    pub fn agent(&self) -> (res: &Agent)
        ensures
            *res == self.agent_spec(),
    {
        &self.agent
    }

    /// The number of retries after a transient failure.
    pub fn retries(&self) -> (res: u32)
        ensures
            res == self.retries_spec(),
    {
        self.retries
    }

    /// The initial backoff, in milliseconds.
    pub fn base_delay_ms(&self) -> (res: u64)
        ensures
            res == self.base_delay_spec(),
    {
        self.base_delay_ms
    }

    /// What to do after attempt `attempt`: transient failures (network
    /// errors, HTTP 5xx/429) are retried while retries remain; any other
    /// error status fails at once; any other response is accepted.
    pub fn retry_decision(&self, attempt: u32, outcome: AttemptOutcome) -> (res: RetryDecision)
        ensures
            res == retry_decision_spec(self.retries_spec(), attempt, outcome),
    {
        let transient = match outcome {
            AttemptOutcome::Answered(s) => (500 <= s && s <= 599) || s == 429,
            AttemptOutcome::Refused(s) => (500 <= s && s <= 599) || s == 429,
            AttemptOutcome::Unreachable => true,
        };
        if !transient {
            match outcome {
                AttemptOutcome::Answered(_) => return RetryDecision::Accept,
                AttemptOutcome::Refused(s) => return RetryDecision::Fail(s),
                AttemptOutcome::Unreachable => {},
            }
        }
        if attempt < self.retries {
            RetryDecision::Retry
        } else {
            RetryDecision::GiveUp
        }
    }

    /// Whether the stored-media index query is done: it found copies, or
    /// every retry for an empty answer has been spent.
    pub fn media_index_settled(&self, found: usize, attempts: u32) -> (res: bool)
        ensures
            res == (found > 0 || attempts >= self.retries_spec()),
    {
        found > 0 || attempts >= self.retries
    }

    /// `?`-compatible builder for an archive replay URL. The replay flag
    /// (`oe_` raw media, `if_` raw page) must follow the snapshot token
    /// directly; a slash between them yields HTTP 404. Without a date the
    /// magic timestamp `2` asks for the archive's closest capture.
    pub fn replay_url(date: Option<&str>, flag: &str, rest: &str) -> (res: String)
        ensures
            res@ == replay_url_spec(crate::video_id::opt_str_view(date), flag@, rest@),
    {
        let mut s = String::from_str(BASE);
        push_str(&mut s, "/web/");
        match date {
            Some(d) => push_str(&mut s, d),
            None => push_str(&mut s, "2"),
        }
        push_str(&mut s, flag);
        push_str(&mut s, "/");
        push_str(&mut s, rest);
        s
    }

    /// The index of the stored media copy to download. See
    /// [`Wayback::select_capture`].
    pub fn select_capture_index(caps: &[MediaCapture], max_size: Option<u64>) -> (res: Option<usize>)
        ensures
            res is None <==> caps@.len() == 0,
            res matches Some(i) ==> is_selected(caps@, max_size, i as int),
    {
        if caps.len() == 0 {
            return None;
        }
        let mut best: Option<usize> = None;
        let mut i: usize = 0;
        while i < caps.len()
            invariant
                i <= caps@.len(),
                match best {
                    Some(b) => is_last_largest(caps@.take(i as int), max_size, b as int),
                    None => forall|j: int| 0 <= j < i ==> !fits(#[trigger] caps@[j], max_size),
                },
            decreases caps@.len() - i,
        {
            if Self::fits_cap(&caps[i], max_size) {
                match best {
                    Some(b) => {
                        if caps[i].length >= caps[b].length {
                            best = Some(i);
                        }
                    },
                    None => {
                        best = Some(i);
                    },
                }
            }
            proof {
                let t = caps@.take(i + 1);
                assert forall|j: int| 0 <= j <= i implies t[j] == caps@[j] by {}
            }
            i += 1;
        }
        assert(caps@.take(i as int) =~= caps@);
        if best.is_some() {
            return best;
        }
        let mut small: usize = 0;
        let mut k: usize = 1;
        while k < caps.len()
            invariant
                1 <= k <= caps@.len(),
                small < k,
                forall|j: int| 0 <= j < k ==> caps@[small as int].length <= #[trigger] caps@[j].length,
                forall|j: int| 0 <= j < small ==> caps@[small as int].length < #[trigger] caps@[j].length,
            decreases caps@.len() - k,
        {
            if caps[k].length < caps[small].length {
                small = k;
            }
            k += 1;
        }
        Some(small)
    }

    /// Choose which stored media copy to download.
    ///
    /// The default is the **largest** store (highest quality). With a size cap
    /// the largest store still under the cap wins; if none fits, the smallest
    /// is returned so the caller can warn and still download *something*.
    pub fn select_capture(caps: &[MediaCapture], max_size: Option<u64>) -> (res: Option<&MediaCapture>)
        ensures
            res is None <==> caps@.len() == 0,
            res matches Some(c) ==> exists|i: int| is_selected(caps@, max_size, i) && *c == caps@[i],
    {
        match Self::select_capture_index(caps, max_size) {
            Some(i) => Some(&caps[i]),
            None => None,
        }
    }

    /// The snapshot timestamp embedded in a resolved stream URL, if any.
    pub fn stream_timestamp(url: &str) -> (res: Option<String>)
        ensures
            res.deep_view() == group_of(regex_first_match(STREAM_TIMESTAMP_PATTERN@, url@), 1),
    {
        crate::pattern::first_group(STREAM_TIMESTAMP_PATTERN, url, 1)
    }

    /// The snapshot a download came from: the one in the resolved stream
    /// URL, else the date the user pinned.
    pub fn resolved_snapshot(stream_url: &str, date: Option<&str>) -> (res: Option<String>)
        ensures
            res.deep_view() == (match group_of(regex_first_match(STREAM_TIMESTAMP_PATTERN@, stream_url@), 1) {
                Some(ts) => Some(ts),
                None => crate::video_id::opt_str_view(date),
            }),
    {
        match Self::stream_timestamp(stream_url) {
            Some(ts) => Some(ts),
            None => match date {
                Some(d) => Some(d.to_owned()),
                None => None,
            },
        }
    }

    /// Whether a stored copy passes the size cap.
    pub fn fits_cap(c: &MediaCapture, max_size: Option<u64>) -> (res: bool)
        ensures
            res == fits(*c, max_size),
    {
        match max_size {
            None => true,
            Some(l) => c.length <= l,
        }
    }

    /// Force a snapshot timestamp into an archived URL, keeping any replay
    /// flag (`oe_`, `id_`, `if_`) that followed the old timestamp.
    pub fn pin_date(url: &str, date: &str) -> (res: Result<String, PinError>)
        ensures
            match res {
                Ok(s) => pin_date_spec(url@, date@) == Some(s@),
                Err(PinError::NotArchived { url: u }) => pin_date_spec(url@, date@) is None && u@
                    == url@,
            },
    {
        match first_match(SNAPSHOT_TOKEN_PATTERN, url) {
            Some(m) => {
                let mut s = m.before.clone();
                match group(&m, 1) {
                    Some(h) => push_str(&mut s, h.as_str()),
                    None => {},
                }
                push_str(&mut s, "/web/");
                push_str(&mut s, date);
                match group(&m, 3) {
                    Some(f) => push_str(&mut s, f.as_str()),
                    None => {},
                }
                push_str(&mut s, m.after.as_str());
                Ok(s)
            },
            None => Err(PinError::NotArchived { url: url.to_owned() }),
        }
    }
}

} // verus!
