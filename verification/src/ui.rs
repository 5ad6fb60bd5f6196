//! The browser interface's run logic: the run configuration, the event
//! fields of a finished request, and the tally of a streamed run.

use vstd::prelude::*;
use crate::collection::{Collection, Request};
use crate::error::{AssertionFailure, AssertionType, request_error_text};
use crate::runner::{RequestOutcome, RequestResult};
use crate::script::LogLevel;
use crate::strmap::StrMap;
use crate::text::{byte_len, char_utf8_width, chars_of, concat, owned, push_str, str_ends_with, str_eq, string_from_range, utf8_len, utf8_width, views};

verus! {

/// The run configuration the browser sends first.
pub struct RunConfig {
    /// Path of the collection file.
    pub collection: String,
    /// Path of a data file (`.csv` or `.json`).
    pub data: Option<String>,
    /// Iterations run at once.
    pub concurrency: usize,
    /// Stop starting iterations after the first failure.
    pub fail_fast: bool,
    /// At most this many data rows are run.
    pub max_iterations: Option<usize>,
    /// Without a data file, run the collection this many times.
    pub repeat_iterations: Option<usize>,
    /// Pause before each request after the first, in milliseconds.
    pub delay_between_requests_ms: u64,
    /// Pause before each iteration after the first, in milliseconds.
    pub delay_between_iterations_ms: u64,
}

/// The concurrency of a run whose configuration does not give one.
pub fn default_concurrency() -> (r: usize)
    ensures
        r == 1,
{
    1
}

// ─── failure messages ────────────────────────────────────────────────────────

/// The one-line message of an assertion failure.
pub open spec fn failure_message(f: AssertionFailure) -> Seq<char> {
    match f.assertion_type {
        AssertionType::Status => "status expected "@ + f.expected@ + ", got "@ + f.actual@,
        AssertionType::JsonPath => "jsonPath "@ + match f.path {
            Some(p) => p@,
            None => "?"@,
        } + " expected "@ + f.expected@ + ", got "@ + f.actual@,
        AssertionType::Header => "header expected "@ + f.expected@ + ", got "@ + f.actual@,
        AssertionType::Script => f.expected@,
    }
}

/// Formats an assertion failure as a one-line message.
pub fn format_failure(failure: &AssertionFailure) -> (r: String)
    ensures
        r@ == failure_message(*failure),
{
    match failure.assertion_type {
        AssertionType::Status => {
            let mut s = concat("status expected ", failure.expected.as_str());
            push_str(&mut s, ", got ");
            push_str(&mut s, failure.actual.as_str());
            s
        },
        AssertionType::JsonPath => {
            let mut s = owned("jsonPath ");
            match &failure.path {
                Some(p) => push_str(&mut s, p.as_str()),
                None => push_str(&mut s, "?"),
            }
            push_str(&mut s, " expected ");
            push_str(&mut s, failure.expected.as_str());
            push_str(&mut s, ", got ");
            push_str(&mut s, failure.actual.as_str());
            s
        },
        AssertionType::Header => {
            let mut s = concat("header expected ", failure.expected.as_str());
            push_str(&mut s, ", got ");
            push_str(&mut s, failure.actual.as_str());
            s
        },
        AssertionType::Script => owned(failure.expected.as_str()),
    }
}

// ─── body truncation ─────────────────────────────────────────────────────────

/// The most bytes of a body forwarded to the browser.
pub const BODY_LIMIT: usize = 10240;

/// The number of leading characters of `s`, from `k` on, that fit in `limit`
/// UTF-8 bytes.
pub open spec fn fitting_from(s: Seq<char>, k: int, limit: nat) -> int
    decreases s.len() - k,
{
    if 0 <= k < s.len() && utf8_len(s.take(k + 1)) <= limit {
        fitting_from(s, k + 1, limit)
    } else {
        k
    }
}

/// A body as forwarded: whole when it fits in [`BODY_LIMIT`] bytes, else its
/// longest prefix of whole characters that fits, followed by ` [truncated]`.
pub open spec fn truncated_text(s: Seq<char>) -> Seq<char> {
    if utf8_len(s) <= BODY_LIMIT {
        s
    } else {
        s.take(fitting_from(s, 0, BODY_LIMIT as nat)) + " [truncated]"@
    }
}

proof fn lemma_fitting_from(s: Seq<char>, k: int, limit: nat)
    requires
        0 <= k <= s.len(),
        utf8_len(s.take(k)) <= limit,
    ensures
        k <= fitting_from(s, k, limit) <= s.len(),
        utf8_len(s.take(fitting_from(s, k, limit))) <= limit,
        fitting_from(s, k, limit) < s.len() ==> utf8_len(s.take(fitting_from(s, k, limit) + 1)) > limit,
    decreases s.len() - k,
{
    if k < s.len() && utf8_len(s.take(k + 1)) <= limit {
        lemma_fitting_from(s, k + 1, limit);
    }
}

/// Truncates a body to at most [`BODY_LIMIT`] bytes at a character boundary,
/// marking a cut with ` [truncated]`.
pub fn truncate_body(body: &str) -> (r: String)
    ensures
        r@ == truncated_text(body@),
        utf8_len(body@) <= BODY_LIMIT ==> r@ == body@,
{
    let total = byte_len(body);
    if total <= BODY_LIMIT {
        return owned(body);
    }
    let v = chars_of(body);
    let mut k: usize = 0;
    let mut used: usize = 0;
    assert(v@.take(0) =~= Seq::<char>::empty());
    while k < v.len() && used + char_utf8_width(v[k]) <= BODY_LIMIT
        invariant
            k <= v@.len(),
            v@ == body@,
            used == utf8_len(v@.take(k as int)),
            used <= BODY_LIMIT,
            fitting_from(v@, 0, BODY_LIMIT as nat) == fitting_from(v@, k as int, BODY_LIMIT as nat),
        decreases v@.len() - k,
    {
        proof {
            crate::text::lemma_utf8_len_step(v@, k as int);
        }
        used = used + char_utf8_width(v[k]);
        k = k + 1;
    }
    proof {
        if k < v@.len() {
            crate::text::lemma_utf8_len_step(v@, k as int);
        } else {
            assert(v@.take(k as int) =~= v@);
        }
    }
    let mut out = string_from_range(&v, 0, k);
    assert(v@.subrange(0, k as int) =~= v@.take(k as int));
    push_str(&mut out, " [truncated]");
    out
}

// ─── request events ──────────────────────────────────────────────────────────

/// A console line as shown in the browser.
pub struct ConsoleLog {
    pub level: &'static str,
    pub message: String,
}

/// The level name of a console line.
pub open spec fn level_name(l: LogLevel) -> Seq<char> {
    match l {
        LogLevel::Log => "log"@,
        LogLevel::Warn => "warn"@,
        LogLevel::Error => "error"@,
    }
}

fn level_str(l: LogLevel) -> (r: &'static str)
    ensures
        r@ == level_name(l),
{
    match l {
        LogLevel::Log => "log",
        LogLevel::Warn => "warn",
        LogLevel::Error => "error",
    }
}

/// The fields of a finished request, as the browser event carries them:
/// passed, status, failure messages, error message, response body
/// (truncated), response headers, request body (truncated), URL, console
/// lines, passed assertions.
pub type OutcomeFields = (
    bool,
    Option<u16>,
    Vec<String>,
    Option<String>,
    Option<String>,
    Option<StrMap>,
    Option<String>,
    String,
    Vec<ConsoleLog>,
    Vec<String>,
);

/// The messages of a list of failures.
pub open spec fn failure_messages(fs: Seq<AssertionFailure>) -> Seq<Seq<char>> {
    fs.map_values(|f: AssertionFailure| failure_message(f))
}

/// What the event of a finished request carries: a request passed only with
/// outcome `Passed`; failed assertions give their messages; an error gives
/// its message and a skip the error `skipped`, both without passed
/// assertions; the response fields come from the response, when there is
/// one.
pub open spec fn outcome_fields_rel(r: RequestResult, f: OutcomeFields) -> bool {
    let (passed, status, failures, error, body, headers, request_body, url, logs, passed_assertions) = f;
    &&& passed == (r.outcome is Passed)
    &&& match r.response {
        None => status is None && body is None && headers is None && request_body is None && url@.len() == 0,
        Some(resp) => {
            &&& status == Some(resp.status)
            &&& body is Some && body->0@ == truncated_text(resp.body@)
            &&& headers is Some && headers->0@ == resp.headers@
            &&& match resp.request_body {
                None => request_body is None,
                Some(rb) => request_body is Some && request_body->0@ == truncated_text(rb@),
            }
            &&& url@ == resp.url@
        },
    }
    &&& logs@.len() == r.logs@.len()
    &&& forall|i: int| 0 <= i < logs@.len() ==> (#[trigger] logs@[i]).level@ == level_name(r.logs@[i].level)
        && logs@[i].message@ == r.logs@[i].message@
    &&& match r.outcome {
        RequestOutcome::Passed => views(failures@).len() == 0 && error is None
            && views(passed_assertions@) == views(r.passed_assertions@),
        RequestOutcome::AssertionsFailed(fs) => views(failures@) == failure_messages(fs@) && error is None
            && views(passed_assertions@) == views(r.passed_assertions@),
        RequestOutcome::Error(e) => views(failures@).len() == 0 && error is Some
            && error->0@ == request_error_text(e) && passed_assertions@.len() == 0,
        RequestOutcome::Skipped => views(failures@).len() == 0 && error is Some
            && error->0@ == "skipped"@ && passed_assertions@.len() == 0,
    }
}

fn copy_strings(v: &Vec<String>) -> (r: Vec<String>)
    ensures
        views(r@) == views(v@),
{
    let mut out: Vec<String> = Vec::new();
    let mut i: usize = 0;
    while i < v.len()
        invariant
            i <= v@.len(),
            views(out@) == views(v@).take(i as int),
        decreases v@.len() - i,
    {
        let ghost before = out@;
        let s = owned(v[i].as_str());
        out.push(s);
        proof {
            crate::text::lemma_views_push(before, s);
            assert(views(v@).take(i + 1) =~= views(v@).take(i as int).push(v@[i as int]@));
        }
        i = i + 1;
    }
    assert(views(v@).take(i as int) =~= views(v@));
    out
}

/// Decomposes a finished request into the fields of its browser event.
pub fn outcome_fields(req_result: &RequestResult) -> (r: OutcomeFields)
    ensures
        outcome_fields_rel(*req_result, r),
{
    let mut logs: Vec<ConsoleLog> = Vec::new();
    let mut i: usize = 0;
    while i < req_result.logs.len()
        invariant
            i <= req_result.logs@.len(),
            logs@.len() == i,
            forall|j: int| 0 <= j < i ==> (#[trigger] logs@[j]).level@ == level_name(req_result.logs@[j].level)
                && logs@[j].message@ == req_result.logs@[j].message@,
        decreases req_result.logs@.len() - i,
    {
        let e = &req_result.logs[i];
        logs.push(ConsoleLog { level: level_str(e.level), message: owned(e.message.as_str()) });
        i = i + 1;
    }
    let (status, body, headers, request_body, url) = match &req_result.response {
        None => (None, None, None, None, String::new()),
        Some(resp) => {
            let rb = match &resp.request_body {
                None => None,
                Some(x) => Some(truncate_body(x.as_str())),
            };
            (Some(resp.status), Some(truncate_body(resp.body.as_str())), Some(resp.headers.copy()), rb, owned(resp.url.as_str()))
        },
    };
    match &req_result.outcome {
        RequestOutcome::Passed => {
            let none: Vec<String> = Vec::new();
            assert(views(none@).len() == 0);
            (true, status, none, None, body, headers, request_body, url, logs, copy_strings(&req_result.passed_assertions))
        },
        RequestOutcome::AssertionsFailed(fs) => {
            let mut msgs: Vec<String> = Vec::new();
            let mut k: usize = 0;
            while k < fs.len()
                invariant
                    k <= fs@.len(),
                    views(msgs@) == failure_messages(fs@).take(k as int),
                decreases fs@.len() - k,
            {
                let ghost before = msgs@;
                let m = format_failure(&fs[k]);
                msgs.push(m);
                proof {
                    crate::text::lemma_views_push(before, m);
                    assert(failure_messages(fs@).take(k + 1) =~= failure_messages(fs@).take(k as int).push(failure_message(fs@[k as int])));
                }
                k = k + 1;
            }
            assert(failure_messages(fs@).take(k as int) =~= failure_messages(fs@));
            (false, status, msgs, None, body, headers, request_body, url, logs, copy_strings(&req_result.passed_assertions))
        },
        RequestOutcome::Error(e) => {
            let none: Vec<String> = Vec::new();
            assert(views(none@).len() == 0);
            (false, status, none, Some(e.message()), body, headers, request_body, url, logs, Vec::new())
        },
        RequestOutcome::Skipped => {
            let none: Vec<String> = Vec::new();
            assert(views(none@).len() == 0);
            (false, status, none, Some(owned("skipped")), body, headers, request_body, url, logs, Vec::new())
        },
    }
}

// ─── streamed runs ───────────────────────────────────────────────────────────

/// The running totals of a streamed run.
pub struct RunTally {
    pub passed: usize,
    pub failed: usize,
    pub skipped: usize,
    pub total_duration_ms: u64,
}

/// A finished-request event as the tally reads it: whether it passed, its
/// error text (if any) and its duration.
pub type TallyEvent = (bool, Option<Seq<char>>, u64);

/// Counts of passed, failed and skipped events, and the summed duration.
pub struct TallyCounts {
    pub passed: nat,
    pub failed: nat,
    pub skipped: nat,
    pub total_ms: nat,
}

/// The counts a tally holds.
pub open spec fn tally_counts(t: RunTally) -> TallyCounts {
    TallyCounts { passed: t.passed as nat, failed: t.failed as nat, skipped: t.skipped as nat, total_ms: t.total_duration_ms as nat }
}

/// An event that did not pass and whose error is `skipped`.
pub open spec fn event_skipped(e: TallyEvent) -> bool {
    !e.0 && e.1 == Some("skipped"@)
}

/// The counts after one more event.
pub open spec fn tally_step(t: TallyCounts, e: TallyEvent) -> TallyCounts {
    let total_ms = t.total_ms + e.2 as nat;
    if e.0 {
        TallyCounts { passed: t.passed + 1, total_ms, ..t }
    } else if event_skipped(e) {
        TallyCounts { skipped: t.skipped + 1, total_ms, ..t }
    } else {
        TallyCounts { failed: t.failed + 1, total_ms, ..t }
    }
}

/// The counts of a stream of events, from nothing counted.
pub open spec fn tally_of(es: Seq<TallyEvent>) -> TallyCounts
    decreases es.len(),
{
    if es.len() == 0 {
        TallyCounts { passed: 0, failed: 0, skipped: 0, total_ms: 0 }
    } else {
        tally_step(tally_of(es.drop_last()), es.last())
    }
}

/// The number of events that passed.
pub open spec fn passed_events(es: Seq<TallyEvent>) -> nat
    decreases es.len(),
{
    if es.len() == 0 {
        0
    } else {
        passed_events(es.drop_last()) + if es.last().0 { 1nat } else { 0nat }
    }
}

/// The number of skipped events.
pub open spec fn skipped_events(es: Seq<TallyEvent>) -> nat
    decreases es.len(),
{
    if es.len() == 0 {
        0
    } else {
        skipped_events(es.drop_last()) + if event_skipped(es.last()) { 1nat } else { 0nat }
    }
}

/// The summed duration of the events.
pub open spec fn event_ms(es: Seq<TallyEvent>) -> nat
    decreases es.len(),
{
    if es.len() == 0 {
        0
    } else {
        event_ms(es.drop_last()) + es.last().2 as nat
    }
}

/// A tally of a stream of finished-request events counts every event once:
/// the passed ones as passed, those whose error is `skipped` as skipped, all
/// others as failed; and it sums their durations.
pub proof fn law_tally_counts_events(es: Seq<TallyEvent>)
    ensures
        tally_of(es).passed == passed_events(es),
        tally_of(es).skipped == skipped_events(es),
        tally_of(es).passed + tally_of(es).failed + tally_of(es).skipped == es.len(),
        tally_of(es).total_ms == event_ms(es),
    decreases es.len(),
{
    if es.len() > 0 {
        law_tally_counts_events(es.drop_last());
    }
}

impl RunTally {
    /// Nothing counted yet.
    pub fn new() -> (r: RunTally)
        ensures
            r.passed == 0 && r.failed == 0 && r.skipped == 0 && r.total_duration_ms == 0,
            tally_counts(r) == tally_of(Seq::empty()),
    {
        RunTally { passed: 0, failed: 0, skipped: 0, total_duration_ms: 0 }
    }

    /// Counts one finished request: passed, else skipped when its error is
    /// `skipped`, else failed; its duration is added to the total.
    pub fn record(&mut self, passed: bool, error: Option<&str>, duration_ms: u64)
        requires
            old(self).passed + old(self).failed + old(self).skipped < usize::MAX,
            old(self).total_duration_ms + duration_ms <= u64::MAX,
        ensures
            final(self).total_duration_ms == old(self).total_duration_ms + duration_ms,
            passed ==> final(self).passed == old(self).passed + 1 && final(self).failed == old(self).failed
                && final(self).skipped == old(self).skipped,
            !passed && (error is Some && error->0@ == "skipped"@) ==> final(self).skipped == old(self).skipped + 1
                && final(self).passed == old(self).passed && final(self).failed == old(self).failed,
            !passed && !(error is Some && error->0@ == "skipped"@) ==> final(self).failed == old(self).failed + 1
                && final(self).passed == old(self).passed && final(self).skipped == old(self).skipped,
            tally_counts(*final(self)) == tally_step(
                tally_counts(*old(self)),
                (
                    passed,
                    match error {
                        Some(e) => Some(e@),
                        None => None,
                    },
                    duration_ms,
                ),
            ),
    {
        if passed {
            self.passed = self.passed + 1;
        } else {
            let skipped = match error {
                Some(e) => str_eq(e, "skipped"),
                None => false,
            };
            if skipped {
                self.skipped = self.skipped + 1;
            } else {
                self.failed = self.failed + 1;
            }
        }
        self.total_duration_ms = self.total_duration_ms + duration_ms;
    }

    /// The mean duration of the passed and failed requests, in whole
    /// milliseconds (0 when there are none).
    pub fn avg_response_ms(&self) -> (r: u64)
        requires
            self.passed + self.failed <= u64::MAX,
        ensures
            self.passed + self.failed == 0 ==> r == 0,
            self.passed + self.failed > 0 ==> r == self.total_duration_ms / ((self.passed + self.failed) as u64),
    {
        let counted = self.passed as u64 + self.failed as u64;
        if counted > 0 {
            self.total_duration_ms / counted
        } else {
            0
        }
    }
}

/// The number of times a run without data repeats the collection: the
/// configured count, at least 1.
pub fn repeat_count(repeat_iterations: Option<usize>) -> (r: usize)
    ensures
        r == match repeat_iterations {
            Some(n) => if n >= 1 { n } else { 1 },
            None => 1,
        },
{
    match repeat_iterations {
        Some(n) => if n >= 1 { n } else { 1 },
        None => 1,
    }
}

/// The method of the first request named `name`, or empty.
pub open spec fn method_of(rs: Seq<Request>, name: Seq<char>) -> Seq<char>
    decreases rs.len(),
{
    if rs.len() == 0 {
        Seq::empty()
    } else if rs[0].name@ == name {
        rs[0].method@
    } else {
        method_of(rs.drop_first(), name)
    }
}

/// The method of the first request of the collection named `name`, or empty.
pub fn request_method(collection: &Collection, name: &str) -> (r: String)
    ensures
        r@ == method_of(collection.requests@, name@),
{
    let ghost rs = collection.requests@;
    let mut i: usize = 0;
    assert(rs.skip(0) =~= rs);
    while i < collection.requests.len()
        invariant
            rs == collection.requests@,
            i <= rs.len(),
            method_of(rs, name@) == method_of(rs.skip(i as int), name@),
        decreases rs.len() - i,
    {
        proof {
            assert(rs.skip(i as int)[0] == rs[i as int]);
            assert(rs.skip(i as int).drop_first() =~= rs.skip(i + 1));
        }
        if str_eq(collection.requests[i].name.as_str(), name) {
            return owned(collection.requests[i].method.as_str());
        }
        i = i + 1;
    }
    String::new()
}

// ─── data files ──────────────────────────────────────────────────────────────

/// The format of a data file, by its extension.
#[derive(Clone, Copy, PartialEq, Eq, Structural)]
pub enum DataFileKind {
    Csv,
    Json,
}

/// The format of a data file: `.csv` or `.json`, else an error naming the
/// path.
pub fn data_file_kind(path: &str) -> (r: Result<DataFileKind, String>)
    ensures
        crate::text::has_suffix(path@, ".csv"@) ==> r == Ok::<DataFileKind, String>(DataFileKind::Csv),
        !crate::text::has_suffix(path@, ".csv"@) && crate::text::has_suffix(path@, ".json"@) ==> r == Ok::<
            DataFileKind,
            String,
        >(DataFileKind::Json),
        !crate::text::has_suffix(path@, ".csv"@) && !crate::text::has_suffix(path@, ".json"@) ==> (r matches Err(
            m,
        ) && m@ == "Unsupported data file extension (expected .csv or .json): "@ + path@),
{
    if str_ends_with(path, ".csv") {
        Ok(DataFileKind::Csv)
    } else if str_ends_with(path, ".json") {
        Ok(DataFileKind::Json)
    } else {
        Err(concat("Unsupported data file extension (expected .csv or .json): ", path))
    }
}

/// The format of a file to preview: `.csv` or `.json`, else the preview's
/// error naming the path.
pub fn preview_file_kind(path: &str) -> (r: Result<DataFileKind, String>)
    ensures
        crate::text::has_suffix(path@, ".csv"@) ==> r == Ok::<DataFileKind, String>(DataFileKind::Csv),
        !crate::text::has_suffix(path@, ".csv"@) && crate::text::has_suffix(path@, ".json"@) ==> r == Ok::<
            DataFileKind,
            String,
        >(DataFileKind::Json),
        !crate::text::has_suffix(path@, ".csv"@) && !crate::text::has_suffix(path@, ".json"@) ==> (r matches Err(
            m,
        ) && m@ == "Unsupported file extension (expected .csv or .json): "@ + path@),
{
    if str_ends_with(path, ".csv") {
        Ok(DataFileKind::Csv)
    } else if str_ends_with(path, ".json") {
        Ok(DataFileKind::Json)
    } else {
        Err(concat("Unsupported file extension (expected .csv or .json): ", path))
    }
}

/// The first `n` elements of `rows` (all when there are fewer).
pub fn take_rows(rows: Vec<StrMap>, n: usize) -> (r: Vec<StrMap>)
    ensures
        r@ == rows@.take(if n < rows@.len() { n as int } else { rows@.len() as int }),
{
    let mut rows = rows;
    if n < rows.len() {
        rows.truncate(n);
    }
    assert(rows@.len() <= n ==> rows@ =~= rows@.take(rows@.len() as int));
    rows
}

/// Parameters of a data file preview.
pub struct DataPreviewParams {
    /// Path of the data file.
    pub file: String,
}

/// The most rows a data preview shows.
pub const PREVIEW_ROWS: usize = 20;

// ─── import and files ────────────────────────────────────────────────────────

/// Where an imported collection comes from.
#[derive(Clone, Copy, PartialEq, Eq, Structural)]
pub enum ImportSource {
    Curl,
    Openapi,
}

/// A request to generate a collection.
pub struct GenerateRequest {
    pub source: ImportSource,
    pub input: String,
    pub mode: crate::import::ImportMode,
}

/// Whether an OpenAPI input names a document to fetch (an `http://` or
/// `https://` URL) rather than a file.
pub fn is_remote_spec(input: &str) -> (r: bool)
    ensures
        r == (crate::text::has_prefix(input@, "http://"@) || crate::text::has_prefix(input@, "https://"@)),
{
    crate::text::str_starts_with(input, "http://") || crate::text::str_starts_with(input, "https://")
}

/// The error the browser is shown when generating a collection fails: a
/// fetch timeout has its own wording, any other error its message.
pub fn generate_error_message(e: &crate::import::ImportError) -> (r: String)
    ensures
        match e {
            crate::import::ImportError::FetchTimeout { .. } => r@ == "Request timed out fetching the spec URL"@,
            _ => r@ == crate::import::import_error_text(*e),
        },
{
    match e {
        crate::import::ImportError::FetchTimeout { .. } => owned("Request timed out fetching the spec URL"),
        _ => e.message(),
    }
}

/// A request to save a generated collection.
pub struct SaveRequest {
    pub yaml: String,
    pub filename: String,
}

/// Checks the file name a generated collection is saved under: it must end in
/// `.yaml` and hold no `/`, `\` or `..`.
pub fn validate_save_filename(filename: &str) -> (r: Result<(), String>)
    ensures
        !crate::text::has_suffix(filename@, ".yaml"@) ==> (r matches Err(m) && m@ == "Filename must end in .yaml"@),
        crate::text::has_suffix(filename@, ".yaml"@) && (crate::text::contains_seq(filename@, "/"@)
            || crate::text::contains_seq(filename@, "\\"@) || crate::text::contains_seq(filename@, ".."@))
            ==> (r matches Err(m) && m@ == "Filename must not contain path separators or .."@),
        crate::text::has_suffix(filename@, ".yaml"@) && !crate::text::contains_seq(filename@, "/"@)
            && !crate::text::contains_seq(filename@, "\\"@) && !crate::text::contains_seq(filename@, ".."@)
            ==> r is Ok,
{
    if !str_ends_with(filename, ".yaml") {
        return Err(owned("Filename must end in .yaml"));
    }
    if crate::text::str_contains(filename, "/") || crate::text::str_contains(filename, "\\")
        || crate::text::str_contains(filename, "..") {
        return Err(owned("Filename must not contain path separators or .."));
    }
    Ok(())
}

/// The `/`-separated segments of a path, as `split('/')` yields them.
pub open spec fn path_segments(p: Seq<char>) -> Seq<Seq<char>> {
    crate::parser::split_from(p, seq!['/'], 0)
}

/// A path that may be opened relative to the working directory: not
/// absolute (no leading `/`) and with no `..` segment.
pub open spec fn safe_relative_path(p: Seq<char>) -> bool {
    !(p.len() > 0 && p[0] == '/') && !path_segments(p).contains(seq!['.', '.'])
}

/// Whether a collection path is relative and free of `..` segments.
pub fn is_safe_relative_path(p: &str) -> (r: bool)
    ensures
        r == safe_relative_path(p@),
{
    let v = chars_of(p);
    if v.len() > 0 && v[0] == '/' {
        return false;
    }
    let sep = vec!['/'];
    assert(sep@ =~= seq!['/']);
    let segs = crate::parser::split_on_chars(&v, &sep);
    let ghost sv = segs@.map_values(|x: Vec<char>| x@);
    let mut i: usize = 0;
    while i < segs.len()
        invariant
            i <= segs@.len(),
            sv == segs@.map_values(|x: Vec<char>| x@),
            sv == path_segments(p@),
            v@ == p@,
            forall|j: int| 0 <= j < i ==> sv[j] != seq!['.', '.'],
        decreases segs@.len() - i,
    {
        if segs[i].len() == 2 && segs[i][0] == '.' && segs[i][1] == '.' {
            assert(sv[i as int] =~= seq!['.', '.']);
            return false;
        }
        assert(sv[i as int] != seq!['.', '.']);
        i = i + 1;
    }
    proof {
        if sv.contains(seq!['.', '.']) {
            let j = choose|j: int| 0 <= j < sv.len() && sv[j] == seq!['.', '.'];
        }
    }
    true
}

/// One request of a collection, as listed in the browser.
pub struct CollectionRequestItem {
    pub name: String,
    pub method: String,
}

/// The requests of a collection, by name and method, in order.
pub fn collection_request_items(collection: &Collection) -> (r: Vec<CollectionRequestItem>)
    ensures
        r@.len() == collection.requests@.len(),
        forall|i: int| 0 <= i < r@.len() ==> (#[trigger] r@[i]).name@ == collection.requests@[i].name@
            && r@[i].method@ == collection.requests@[i].method@,
{
    let mut out: Vec<CollectionRequestItem> = Vec::new();
    let mut i: usize = 0;
    while i < collection.requests.len()
        invariant
            i <= collection.requests@.len(),
            out@.len() == i,
            forall|j: int| 0 <= j < i ==> (#[trigger] out@[j]).name@ == collection.requests@[j].name@
                && out@[j].method@ == collection.requests@[j].method@,
        decreases collection.requests@.len() - i,
    {
        out.push(CollectionRequestItem {
            name: owned(collection.requests[i].name.as_str()),
            method: owned(collection.requests[i].method.as_str()),
        });
        i = i + 1;
    }
    out
}

/// Options of the interface server.
pub struct ServerOpts {
    /// Port to listen on.
    pub port: u16,
    /// A collection to preselect.
    pub collection: Option<String>,
}

/// The configuration of a load test started from the browser.
pub struct PerfRunConfig {
    pub collection: String,
    pub vus: Option<usize>,
    pub duration_secs: Option<u64>,
    pub load_profile: Option<String>,
    pub initial_vus: Option<usize>,
    pub thresholds: Vec<String>,
    pub data: Option<String>,
}

} // verus!
