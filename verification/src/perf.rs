//! Load testing: options and their validation, threshold expressions, the
//! assignment of data rows to virtual users, and the integer side of the
//! metrics (counts, sums, sorted durations, per-request groups).

use vstd::prelude::*;
use crate::data::DataRow;
use crate::runner::{CollectionResult, RequestOutcome};
use crate::text::{chars_of, concat, decimal, find_char_from, owned, push_str, str_eq, string_from_range, usize_to_string};

verus! {

/// How virtual users are introduced over the test.
#[derive(Debug, Clone, Copy, PartialEq, Eq, Structural)]
pub enum LoadProfile {
    /// A constant number of users for the whole test.
    Fixed,
    /// From the initial count up to the full count over the first half of the
    /// test, then constant.
    RampUp,
}

impl Default for LoadProfile {
    fn default() -> (r: Self)
        ensures
            r == LoadProfile::Fixed,
    {
        LoadProfile::Fixed
    }
}

/// The metric a threshold reads.
#[derive(Debug, Clone, Copy, PartialEq, Eq, Structural)]
pub enum MetricKind {
    AvgResponseMs,
    P95ResponseMs,
    P99ResponseMs,
    ErrorRatePct,
    ThroughputRps,
}

/// The comparison of a threshold.
#[derive(Debug, Clone, Copy, PartialEq, Eq, Structural)]
pub enum ThresholdCondition {
    Lt,
    Lte,
    Gt,
    Gte,
}

/// The default number of virtual users.
pub fn default_vus() -> (r: usize)
    ensures
        r == 1,
{
    1
}

/// The default test duration, in seconds.
pub fn default_duration_secs() -> (r: u64)
    ensures
        r == 60,
{
    60
}

/// The default starting number of virtual users of a ramp.
pub fn default_initial_vus() -> (r: usize)
    ensures
        r == 1,
{
    1
}

// ─── errors ──────────────────────────────────────────────────────────────────

/// Errors of a load test.
#[derive(Debug)]
pub enum PerfError {
    /// The number of virtual users is 0.
    InvalidVus,
    /// The initial number of virtual users exceeds the number of users.
    InitialVusExceedsVus { initial: usize, target: usize },
    /// The duration is zero.
    InvalidDuration,
    /// A virtual-user task panicked.
    TaskPanic { cause: String },
}

/// The message of a [`PerfError`].
pub open spec fn perf_error_text(e: PerfError) -> Seq<char> {
    match e {
        PerfError::InvalidVus => "vus must be at least 1"@,
        PerfError::InitialVusExceedsVus { initial, target } => "initial_vus ("@ + decimal(initial as nat)
            + ") must be <= vus ("@ + decimal(target as nat) + ")"@,
        PerfError::InvalidDuration => "duration must be at least 1 second"@,
        PerfError::TaskPanic { cause } => "VU task panicked: "@ + cause@,
    }
}

impl PerfError {
    /// The human-readable message (the error's display text).
    pub fn message(&self) -> (r: String)
        ensures
            r@ == perf_error_text(*self),
    {
        match self {
            PerfError::InvalidVus => owned("vus must be at least 1"),
            PerfError::InitialVusExceedsVus { initial, target } => {
                let mut s = owned("initial_vus (");
                push_str(&mut s, usize_to_string(*initial).as_str());
                push_str(&mut s, ") must be <= vus (");
                push_str(&mut s, usize_to_string(*target).as_str());
                push_str(&mut s, ")");
                s
            },
            PerfError::InvalidDuration => owned("duration must be at least 1 second"),
            PerfError::TaskPanic { cause } => concat("VU task panicked: ", cause.as_str()),
        }
    }
}

/// Checks the options of a load test, in this order: users, duration, initial
/// users.
pub fn validate_perf_opts(vus: usize, duration_is_zero: bool, initial_vus: usize) -> (r: Result<(), PerfError>)
    ensures
        vus == 0 ==> r matches Err(PerfError::InvalidVus),
        vus > 0 && duration_is_zero ==> r matches Err(PerfError::InvalidDuration),
        vus > 0 && !duration_is_zero && initial_vus > vus ==> (r matches Err(
            PerfError::InitialVusExceedsVus { initial, target },
        ) && initial == initial_vus && target == vus),
        vus > 0 && !duration_is_zero && initial_vus <= vus ==> r is Ok,
{
    if vus == 0 {
        return Err(PerfError::InvalidVus);
    }
    if duration_is_zero {
        return Err(PerfError::InvalidDuration);
    }
    if initial_vus > vus {
        return Err(PerfError::InitialVusExceedsVus { initial: initial_vus, target: vus });
    }
    Ok(())
}

// ─── data rows per virtual user ──────────────────────────────────────────────

/// The rows among the first `n` whose index is `u` modulo `vus`, in order.
pub open spec fn user_rows(rows: Seq<Map<Seq<char>, Seq<char>>>, vus: int, u: int, n: int) -> Seq<Map<Seq<char>, Seq<char>>>
    decreases n,
{
    if n <= 0 {
        Seq::empty()
    } else if (n - 1) % vus == u {
        user_rows(rows, vus, u, n - 1).push(rows[n - 1])
    } else {
        user_rows(rows, vus, u, n - 1)
    }
}

/// The contents of a list of rows.
pub open spec fn row_views(rows: Seq<DataRow>) -> Seq<Map<Seq<char>, Seq<char>>> {
    rows.map_values(|r: DataRow| r@)
}

/// The pause between starting two ramped-up virtual users, in nanoseconds:
/// half the test duration spread evenly over the users started after the
/// initial ones (`vus - initial_vus`, at least 0); 0 when there are none.
pub open spec fn ramp_interval(duration_nanos: nat, vus: nat, initial_vus: nat) -> nat {
    let ramp = if vus > initial_vus { (vus - initial_vus) as nat } else { 0nat };
    if ramp == 0 {
        0
    } else {
        (duration_nanos / 2) / ramp
    }
}

/// The ramp-up spawn interval of a load test, in nanoseconds.
pub fn ramp_interval_nanos(duration_nanos: u128, vus: usize, initial_vus: usize) -> (r: u128)
    ensures
        r == ramp_interval(duration_nanos as nat, vus as nat, initial_vus as nat),
{
    let ramp: usize = if vus > initial_vus { vus - initial_vus } else { 0 };
    if ramp == 0 {
        0
    } else {
        (duration_nanos / 2) / (ramp as u128)
    }
}

/// Assigns data rows to `vus` virtual users round-robin: user `u` gets the
/// rows whose index is `u` modulo `vus`, in order.
pub fn distribute_rows(rows: &Vec<DataRow>, vus: usize) -> (r: Vec<Vec<DataRow>>)
    requires
        vus > 0,
    ensures
        r@.len() == vus,
        forall|u: int| 0 <= u < vus ==> row_views((#[trigger] r@[u])@) == user_rows(row_views(rows@), vus as int, u, rows@.len() as int),
{
    let ghost rv = row_views(rows@);
    let mut out: Vec<Vec<DataRow>> = Vec::new();
    let mut u: usize = 0;
    while u < vus
        invariant
            u <= vus,
            rv == row_views(rows@),
            out@.len() == u,
            forall|v: int| 0 <= v < u ==> row_views((#[trigger] out@[v])@) == user_rows(rv, vus as int, v, rows@.len() as int),
        decreases vus - u,
    {
        let mut mine: Vec<DataRow> = Vec::new();
        let mut i: usize = 0;
        assert(row_views(mine@) =~= Seq::<Map<Seq<char>, Seq<char>>>::empty());
        while i < rows.len()
            invariant
                i <= rows@.len(),
                u < vus,
                rv == row_views(rows@),
                row_views(mine@) == user_rows(rv, vus as int, u as int, i as int),
            decreases rows.len() - i,
        {
            if i % vus == u {
                let ghost before = mine@;
                let c = rows[i].copy();
                mine.push(c);
                assert(row_views(mine@) =~= row_views(before).push(rv[i as int]));
            }
            i = i + 1;
        }
        let ghost before = out@;
        out.push(mine);
        proof {
            assert forall|v: int| 0 <= v < u + 1 implies row_views((#[trigger] out@[v])@) == user_rows(rv, vus as int, v, rows@.len() as int) by {
                if v < u {
                    assert(out@[v] == before[v]);
                }
            }
        }
        u = u + 1;
    }
    out
}

// ─── samples ─────────────────────────────────────────────────────────────────

/// One executed (not skipped) request of an iteration.
pub struct RequestSample {
    pub name: String,
    pub duration_ms: u64,
    /// The request passed.
    pub passed: bool,
}

/// One completed iteration of the collection by a virtual user.
pub struct IterationSample {
    /// Sum of the durations of its requests.
    pub duration_ms: u64,
    /// Every request passed.
    pub passed: bool,
    /// Its executed requests, in order.
    pub requests: Vec<RequestSample>,
}

/// The sum of the request durations of a run.
pub open spec fn duration_sum(rs: Seq<crate::runner::RequestResult>) -> nat
    decreases rs.len(),
{
    if rs.len() == 0 { 0 } else { duration_sum(rs.drop_last()) + rs.last().duration_ms as nat }
}

/// The `(name, duration, passed)` of each executed request of a run.
pub open spec fn executed_requests(rs: Seq<crate::runner::RequestResult>) -> Seq<(Seq<char>, u64, bool)>
    decreases rs.len(),
{
    if rs.len() == 0 {
        Seq::empty()
    } else if rs.last().outcome is Skipped {
        executed_requests(rs.drop_last())
    } else {
        executed_requests(rs.drop_last()).push((rs.last().name@, rs.last().duration_ms, rs.last().outcome is Passed))
    }
}

/// The `(name, duration, passed)` of each request sample.
pub open spec fn sample_views(s: Seq<RequestSample>) -> Seq<(Seq<char>, u64, bool)> {
    s.map_values(|r: RequestSample| (r.name@, r.duration_ms, r.passed))
}

/// The sample of one completed iteration.
pub fn iteration_sample(col: &CollectionResult) -> (r: IterationSample)
    requires
        duration_sum(col.request_results@) <= u64::MAX,
    ensures
        r.duration_ms == duration_sum(col.request_results@),
        r.passed == crate::runner::all_passed(col.request_results@),
        sample_views(r.requests@) == executed_requests(col.request_results@),
{
    let ghost rs = col.request_results@;
    let mut sum: u64 = 0;
    let mut reqs: Vec<RequestSample> = Vec::new();
    let mut i: usize = 0;
    assert(rs.take(0) =~= Seq::<crate::runner::RequestResult>::empty());
    assert(sample_views(reqs@) =~= Seq::<(Seq<char>, u64, bool)>::empty());
    while i < col.request_results.len()
        invariant
            rs == col.request_results@,
            i <= rs.len(),
            duration_sum(rs) <= u64::MAX,
            sum == duration_sum(rs.take(i as int)),
            sample_views(reqs@) == executed_requests(rs.take(i as int)),
        decreases rs.len() - i,
    {
        proof {
            assert(rs.take(i + 1).drop_last() =~= rs.take(i as int));
            assert(rs.take(i + 1).last() == rs[i as int]);
            lemma_duration_sum_prefix(rs, i + 1);
        }
        let r = &col.request_results[i];
        sum = sum + r.duration_ms;
        match r.outcome {
            RequestOutcome::Skipped => {},
            _ => {
                let ghost before = reqs@;
                let passed = matches!(r.outcome, RequestOutcome::Passed);
                let sample = RequestSample { name: owned(r.name.as_str()), duration_ms: r.duration_ms, passed };
                reqs.push(sample);
                assert(sample_views(reqs@) =~= sample_views(before).push((r.name@, r.duration_ms, passed)));
            },
        }
        i = i + 1;
    }
    assert(rs.take(i as int) =~= rs);
    IterationSample { duration_ms: sum, passed: col.passed(), requests: reqs }
}

proof fn lemma_duration_sum_prefix(rs: Seq<crate::runner::RequestResult>, k: int)
    requires
        0 <= k <= rs.len(),
    ensures
        duration_sum(rs.take(k)) <= duration_sum(rs),
    decreases rs.len() - k,
{
    if k < rs.len() {
        assert(rs.take(k + 1).drop_last() =~= rs.take(k));
        lemma_duration_sum_prefix(rs, k + 1);
    } else {
        assert(rs.take(k) =~= rs);
    }
}

// ─── aggregates ──────────────────────────────────────────────────────────────

/// `s` is in ascending order.
pub open spec fn ascending(s: Seq<u64>) -> bool {
    forall|i: int, j: int| 0 <= i <= j < s.len() ==> s[i] <= s[j]
}

/// The sum of a list of durations.
pub open spec fn sum_of(s: Seq<u64>) -> nat
    decreases s.len(),
{
    if s.len() == 0 { 0 } else { sum_of(s.drop_last()) + s.last() as nat }
}

/// Sorts durations into ascending order.
pub fn sort_durations(v: &Vec<u64>) -> (r: Vec<u64>)
    ensures
        r@.to_multiset() == v@.to_multiset(),
        r@.len() == v@.len(),
        ascending(r@),
{
    broadcast use vstd::seq_lib::group_to_multiset_ensures;
    let mut out: Vec<u64> = Vec::new();
    let mut i: usize = 0;
    while i < v.len()
        invariant
            i <= v@.len(),
            out@.len() == i,
            out@.to_multiset() == v@.take(i as int).to_multiset(),
            ascending(out@),
        decreases v@.len() - i,
    {
        let x = v[i];
        let mut p: usize = 0;
        while p < out.len() && out[p] <= x
            invariant
                p <= out@.len(),
                forall|q: int| 0 <= q < p ==> #[trigger] out@[q] <= x,
            decreases out@.len() - p,
        {
            p = p + 1;
        }
        let ghost before = out@;
        out.insert(p, x);
        proof {
            assert(out@ =~= before.insert(p as int, x));
            vstd::seq_lib::to_multiset_insert(before, p as int, x);
            assert(v@.take(i + 1) =~= v@.take(i as int).push(x));
            vstd::seq_lib::to_multiset_build(v@.take(i as int), x);
            assert forall|a: int, b: int| 0 <= a <= b < out@.len() implies out@[a] <= out@[b] by {
                if a < p && b > p {
                    assert(out@[a] == before[a] && out@[b] == before[b - 1]);
                } else if a > p {
                    assert(out@[a] == before[a - 1] && out@[b] == before[b - 1]);
                } else if b < p {
                    assert(out@[a] == before[a] && out@[b] == before[b]);
                } else if a == p && b > p {
                    assert(out@[b] == before[b - 1]);
                    assert(before[p as int] > x);
                }
            }
        }
        i = i + 1;
    }
    assert(v@.take(i as int) =~= v@);
    out
}

/// The integer aggregates of a set of samples: counts, sum of durations and
/// the durations in ascending order.
pub struct SampleSummary {
    pub total: u64,
    pub passed: u64,
    pub failed: u64,
    pub sum_ms: u64,
    pub sorted_ms: Vec<u64>,
}

/// The durations of a list of iteration samples.
pub open spec fn sample_durations(s: Seq<IterationSample>) -> Seq<u64> {
    s.map_values(|x: IterationSample| x.duration_ms)
}

/// The number of passed samples.
pub open spec fn passed_samples(s: Seq<IterationSample>) -> nat
    decreases s.len(),
{
    if s.len() == 0 { 0 } else { passed_samples(s.drop_last()) + if s.last().passed { 1nat } else { 0nat } }
}

proof fn lemma_passed_le(s: Seq<IterationSample>)
    ensures
        passed_samples(s) <= s.len(),
    decreases s.len(),
{
    if s.len() > 0 {
        lemma_passed_le(s.drop_last());
    }
}

proof fn lemma_sum_prefix(s: Seq<u64>, k: int)
    requires
        0 <= k <= s.len(),
    ensures
        sum_of(s.take(k)) <= sum_of(s),
    decreases s.len() - k,
{
    if k < s.len() {
        assert(s.take(k + 1).drop_last() =~= s.take(k));
        lemma_sum_prefix(s, k + 1);
    } else {
        assert(s.take(k) =~= s);
    }
}

/// Aggregates iteration samples: how many, how many passed and failed, the
/// total duration, and the durations sorted.
pub fn summarize(samples: &Vec<IterationSample>) -> (r: SampleSummary)
    requires
        sum_of(sample_durations(samples@)) <= u64::MAX,
    ensures
        r.total == samples@.len(),
        r.passed == passed_samples(samples@),
        r.failed == r.total - r.passed,
        r.sum_ms == sum_of(sample_durations(samples@)),
        ascending(r.sorted_ms@),
        r.sorted_ms@.to_multiset() == sample_durations(samples@).to_multiset(),
{
    let ghost ds = sample_durations(samples@);
    let mut durations: Vec<u64> = Vec::new();
    let mut passed: u64 = 0;
    let mut sum: u64 = 0;
    let mut i: usize = 0;
    assert(ds.take(0) =~= Seq::<u64>::empty());
    assert(samples@.take(0) =~= Seq::<IterationSample>::empty());
    while i < samples.len()
        invariant
            i <= samples@.len(),
            ds == sample_durations(samples@),
            sum_of(ds) <= u64::MAX,
            durations@ == ds.take(i as int),
            sum == sum_of(ds.take(i as int)),
            passed == passed_samples(samples@.take(i as int)),
            passed <= i,
        decreases samples@.len() - i,
    {
        proof {
            assert(ds.take(i + 1).drop_last() =~= ds.take(i as int));
            assert(ds.take(i + 1).last() == ds[i as int]);
            assert(samples@.take(i + 1).drop_last() =~= samples@.take(i as int));
            lemma_sum_prefix(ds, i + 1);
        }
        durations.push(samples[i].duration_ms);
        sum = sum + samples[i].duration_ms;
        if samples[i].passed {
            passed = passed + 1;
        }
        i = i + 1;
    }
    assert(ds.take(i as int) =~= ds);
    assert(samples@.take(i as int) =~= samples@);
    let sorted = sort_durations(&durations);
    let total = samples.len() as u64;
    SampleSummary { total, passed, failed: total - passed, sum_ms: sum, sorted_ms: sorted }
}

// ─── threshold expressions ───────────────────────────────────────────────────

/// The metric a threshold expression names.
pub open spec fn metric_named(s: Seq<char>) -> Option<MetricKind> {
    if s == "avg_response_ms"@ {
        Some(MetricKind::AvgResponseMs)
    } else if s == "p95_response_ms"@ {
        Some(MetricKind::P95ResponseMs)
    } else if s == "p99_response_ms"@ {
        Some(MetricKind::P99ResponseMs)
    } else if s == "error_rate_pct"@ {
        Some(MetricKind::ErrorRatePct)
    } else if s == "throughput_rps"@ {
        Some(MetricKind::ThroughputRps)
    } else {
        None
    }
}

/// The condition a threshold expression names.
pub open spec fn condition_named(s: Seq<char>) -> Option<ThresholdCondition> {
    if s == "lt"@ {
        Some(ThresholdCondition::Lt)
    } else if s == "lte"@ {
        Some(ThresholdCondition::Lte)
    } else if s == "gt"@ {
        Some(ThresholdCondition::Gt)
    } else if s == "gte"@ {
        Some(ThresholdCondition::Gte)
    } else {
        None
    }
}

/// Parses a metric name.
pub fn parse_metric(s: &str) -> (r: Option<MetricKind>)
    ensures
        r == metric_named(s@),
{
    if str_eq(s, "avg_response_ms") {
        Some(MetricKind::AvgResponseMs)
    } else if str_eq(s, "p95_response_ms") {
        Some(MetricKind::P95ResponseMs)
    } else if str_eq(s, "p99_response_ms") {
        Some(MetricKind::P99ResponseMs)
    } else if str_eq(s, "error_rate_pct") {
        Some(MetricKind::ErrorRatePct)
    } else if str_eq(s, "throughput_rps") {
        Some(MetricKind::ThroughputRps)
    } else {
        None
    }
}

/// Parses a condition name.
pub fn parse_condition(s: &str) -> (r: Option<ThresholdCondition>)
    ensures
        r == condition_named(s@),
{
    if str_eq(s, "lt") {
        Some(ThresholdCondition::Lt)
    } else if str_eq(s, "lte") {
        Some(ThresholdCondition::Lte)
    } else if str_eq(s, "gt") {
        Some(ThresholdCondition::Gt)
    } else if str_eq(s, "gte") {
        Some(ThresholdCondition::Gte)
    } else {
        None
    }
}

/// The parts of a `METRIC:CONDITION:VALUE` expression: split at the first two
/// colons (the value keeps any further colon).
pub open spec fn threshold_parts(s: Seq<char>) -> Option<(Seq<char>, Seq<char>, Seq<char>)> {
    match crate::text::char_pos_from(s, ':', 0) {
        None => None,
        Some(a) => match crate::text::char_pos_from(s, ':', a + 1) {
            None => None,
            Some(b) => Some((s.take(a), s.subrange(a + 1, b), s.skip(b + 1))),
        },
    }
}

/// Why a threshold expression is refused.
pub enum ThresholdProblem {
    /// It does not have the `METRIC:CONDITION:VALUE` shape.
    Shape,
    /// Its metric is not one of the known names.
    Metric(String),
    /// Its condition is not one of the known names.
    Condition(String),
}

/// What a threshold expression gives, its value left as text: the metric and
/// condition, or the first problem and the text it concerns.
pub open spec fn threshold_spec(s: Seq<char>, r: Result<(MetricKind, ThresholdCondition, String), ThresholdProblem>) -> bool {
    match threshold_parts(s) {
        None => r matches Err(ThresholdProblem::Shape),
        Some((m, c, v)) => match metric_named(m) {
            None => r matches Err(ThresholdProblem::Metric(x)) && x@ == m,
            Some(mk) => match condition_named(c) {
                None => r matches Err(ThresholdProblem::Condition(x)) && x@ == c,
                Some(ck) => r matches Ok((rm, rc, rv)) && rm == mk && rc == ck && rv@ == v,
            },
        },
    }
}

/// Splits a `METRIC:CONDITION:VALUE` threshold expression at its first two
/// colons and parses its metric and condition; the value text is returned
/// for the caller to read as a number.
pub fn parse_threshold_parts(s: &str) -> (r: Result<(MetricKind, ThresholdCondition, String), ThresholdProblem>)
    ensures
        threshold_spec(s@, r),
{
    let v = chars_of(s);
    let a = match find_char_from(&v, ':', 0) {
        None => {
            return Err(ThresholdProblem::Shape);
        },
        Some(a) => a,
    };
    let b = match find_char_from(&v, ':', a + 1) {
        None => {
            return Err(ThresholdProblem::Shape);
        },
        Some(b) => b,
    };
    proof {
        crate::text::lemma_char_pos_from(v@, ':', 0);
        crate::text::lemma_char_pos_from(v@, ':', a + 1);
    }
    let m = string_from_range(&v, 0, a);
    let c = string_from_range(&v, a + 1, b);
    let rest = string_from_range(&v, b + 1, v.len());
    assert(v@.subrange(0, a as int) =~= v@.take(a as int));
    assert(v@.subrange(b + 1, v@.len() as int) =~= v@.skip(b + 1));
    let mk = match parse_metric(m.as_str()) {
        None => {
            return Err(ThresholdProblem::Metric(m));
        },
        Some(k) => k,
    };
    let ck = match parse_condition(c.as_str()) {
        None => {
            return Err(ThresholdProblem::Condition(c));
        },
        Some(k) => k,
    };
    Ok((mk, ck, rest))
}

/// The command line's message for a refused threshold expression `s`.
pub open spec fn threshold_problem_text(s: Seq<char>, p: ThresholdProblem) -> Seq<char> {
    match p {
        ThresholdProblem::Shape => "threshold must be METRIC:CONDITION:VALUE, got: "@ + s,
        ThresholdProblem::Metric(m) => "unknown metric '"@ + m@
            + "'; valid metrics: avg_response_ms, p95_response_ms, p99_response_ms, error_rate_pct, throughput_rps"@,
        ThresholdProblem::Condition(c) => "unknown condition '"@ + c@ + "'; valid conditions: lt, lte, gt, gte"@,
    }
}

/// The browser's shorter message for a refused threshold expression `s`.
pub open spec fn threshold_problem_brief(s: Seq<char>, p: ThresholdProblem) -> Seq<char> {
    match p {
        ThresholdProblem::Shape => "threshold must be METRIC:CONDITION:VALUE, got: "@ + s,
        ThresholdProblem::Metric(m) => "unknown metric: "@ + m@,
        ThresholdProblem::Condition(c) => "unknown condition: "@ + c@,
    }
}

/// Splits and parses a threshold expression as the command line does,
/// reporting a refusal with its full message.
pub fn split_threshold(s: &str) -> (r: Result<(MetricKind, ThresholdCondition, String), String>)
    ensures
        match (r, threshold_parts(s@)) {
            (Ok((m, c, v)), Some((pm, pc, pv))) => metric_named(pm) == Some(m) && condition_named(pc) == Some(c)
                && v@ == pv,
            (Err(e), _) => exists|p: ThresholdProblem|
                #![trigger threshold_problem_text(s@, p)]
                threshold_spec(s@, Err(p)) && e@ == threshold_problem_text(s@, p),
            _ => false,
        },
{
    match parse_threshold_parts(s) {
        Ok(t) => Ok(t),
        Err(p) => {
            let e = match &p {
                ThresholdProblem::Shape => concat("threshold must be METRIC:CONDITION:VALUE, got: ", s),
                ThresholdProblem::Metric(m) => {
                    let mut e = owned("unknown metric '");
                    push_str(&mut e, m.as_str());
                    push_str(&mut e, "'; valid metrics: avg_response_ms, p95_response_ms, p99_response_ms, error_rate_pct, throughput_rps");
                    e
                },
                ThresholdProblem::Condition(c) => {
                    let mut e = owned("unknown condition '");
                    push_str(&mut e, c.as_str());
                    push_str(&mut e, "'; valid conditions: lt, lte, gt, gte");
                    e
                },
            };
            assert(threshold_spec(s@, Err(p)) && e@ == threshold_problem_text(s@, p));
            Err(e)
        },
    }
}

/// Splits and parses a threshold expression as the browser's load-test
/// screen does, reporting a refusal with its shorter message.
pub fn split_threshold_brief(s: &str) -> (r: Result<(MetricKind, ThresholdCondition, String), String>)
    ensures
        match (r, threshold_parts(s@)) {
            (Ok((m, c, v)), Some((pm, pc, pv))) => metric_named(pm) == Some(m) && condition_named(pc) == Some(c)
                && v@ == pv,
            (Err(e), _) => exists|p: ThresholdProblem|
                #![trigger threshold_problem_brief(s@, p)]
                threshold_spec(s@, Err(p)) && e@ == threshold_problem_brief(s@, p),
            _ => false,
        },
{
    match parse_threshold_parts(s) {
        Ok(t) => Ok(t),
        Err(p) => {
            let e = match &p {
                ThresholdProblem::Shape => concat("threshold must be METRIC:CONDITION:VALUE, got: ", s),
                ThresholdProblem::Metric(m) => concat("unknown metric: ", m.as_str()),
                ThresholdProblem::Condition(c) => concat("unknown condition: ", c.as_str()),
            };
            assert(threshold_spec(s@, Err(p)) && e@ == threshold_problem_brief(s@, p));
            Err(e)
        },
    }
}

} // verus!

verus! {

// ─── per-request groups ──────────────────────────────────────────────────────

/// The `(name, duration, passed)` of every request sample of a list of
/// iterations, iteration by iteration.
pub open spec fn flat_samples(s: Seq<IterationSample>) -> Seq<(Seq<char>, u64, bool)>
    decreases s.len(),
{
    if s.len() == 0 {
        Seq::empty()
    } else {
        flat_samples(s.drop_last()) + sample_views(s.last().requests@)
    }
}

/// The distinct request names of `f`, in order of first appearance.
pub open spec fn group_names(f: Seq<(Seq<char>, u64, bool)>) -> Seq<Seq<char>>
    decreases f.len(),
{
    if f.len() == 0 {
        Seq::empty()
    } else {
        let prev = group_names(f.drop_last());
        if prev.contains(f.last().0) { prev } else { prev.push(f.last().0) }
    }
}

/// The `(duration, passed)` of the samples of `f` named `n`, in order.
pub open spec fn group_entries(f: Seq<(Seq<char>, u64, bool)>, n: Seq<char>) -> Seq<(u64, bool)>
    decreases f.len(),
{
    if f.len() == 0 {
        Seq::empty()
    } else {
        let prev = group_entries(f.drop_last(), n);
        if f.last().0 == n { prev.push((f.last().1, f.last().2)) } else { prev }
    }
}

/// The samples of one request name.
pub struct RequestGroup {
    pub name: String,
    /// `(duration, passed)` of each sample, in order.
    pub entries: Vec<(u64, bool)>,
}

/// `g` holds, in order, one group per distinct name of `f` with that name's
/// samples.
pub open spec fn groups_rel(g: Seq<RequestGroup>, f: Seq<(Seq<char>, u64, bool)>) -> bool {
    &&& g.len() == group_names(f).len()
    &&& forall|i: int| 0 <= i < g.len() ==> (#[trigger] g[i]).name@ == group_names(f)[i]
        && g[i].entries@ == group_entries(f, group_names(f)[i])
}

proof fn lemma_group_names_distinct(f: Seq<(Seq<char>, u64, bool)>)
    ensures
        crate::strmap::no_dups(group_names(f)),
    decreases f.len(),
{
    if f.len() > 0 {
        lemma_group_names_distinct(f.drop_last());
        let prev = group_names(f.drop_last());
        if !prev.contains(f.last().0) {
            let g = prev.push(f.last().0);
            assert forall|a: int, b: int| 0 <= a < b < g.len() implies g[a] != g[b] by {
                if b == prev.len() {
                    assert(prev.contains(prev[a]));
                }
            }
        }
    }
}

proof fn lemma_absent_name_has_no_entries(f: Seq<(Seq<char>, u64, bool)>, n: Seq<char>)
    requires
        !group_names(f).contains(n),
    ensures
        group_entries(f, n) == Seq::<(u64, bool)>::empty(),
    decreases f.len(),
{
    if f.len() > 0 {
        let prev = group_names(f.drop_last());
        if prev.contains(n) {
            let q = choose|q: int| 0 <= q < prev.len() && prev[q] == n;
            if !prev.contains(f.last().0) {
                assert(group_names(f)[q] == n);
            } else {
                assert(group_names(f)[q] == n);
            }
        }
        if f.last().0 == n {
            if prev.contains(f.last().0) {
                let q = choose|q: int| 0 <= q < prev.len() && prev[q] == n;
                assert(group_names(f)[q] == n);
            } else {
                assert(group_names(f)[prev.len() as int] == n);
            }
        }
        lemma_absent_name_has_no_entries(f.drop_last(), n);
    }
}

/// Adds one sample to the groups.
fn add_to_groups(groups: &mut Vec<RequestGroup>, name: &String, d: u64, p: bool, Ghost(f): Ghost<Seq<(Seq<char>, u64, bool)>>)
    requires
        groups_rel(old(groups)@, f),
    ensures
        groups_rel(final(groups)@, f.push((name@, d, p))),
{
    let ghost f2 = f.push((name@, d, p));
    proof {
        assert(f2.drop_last() =~= f);
        lemma_group_names_distinct(f);
    }
    let ghost names = group_names(f);
    let mut j: usize = 0;
    while j < groups.len()
        invariant
            j <= groups@.len(),
            groups_rel(groups@, f),
            names == group_names(f),
            crate::strmap::no_dups(names),
            f2 == f.push((name@, d, p)),
            f2.drop_last() == f,
            forall|q: int| 0 <= q < j ==> names[q] != name@,
        decreases groups@.len() - j,
    {
        if str_eq(groups[j].name.as_str(), name.as_str()) {
            let ghost before = groups@;
            let mut g = groups.remove(j);
            let ghost old_entries = g.entries@;
            g.entries.push((d, p));
            groups.insert(j, g);
            proof {
                assert(names[j as int] == name@);
                assert(names.contains(name@));
                assert(group_names(f2) == names);
                assert forall|i: int| 0 <= i < groups@.len() implies (#[trigger] groups@[i]).name@ == group_names(f2)[i]
                    && groups@[i].entries@ == group_entries(f2, group_names(f2)[i]) by {
                    if i == j {
                        assert(groups@[i].entries@ =~= old_entries.push((d, p)));
                    } else {
                        assert(groups@[i] == before[i]);
                        assert(names[i] != names[j as int]);
                    }
                }
            }
            return;
        }
        j = j + 1;
    }
    proof {
        assert(!names.contains(name@)) by {
            if names.contains(name@) {
                let q = choose|q: int| 0 <= q < names.len() && names[q] == name@;
                assert(names[q] != name@);
            }
        }
        lemma_absent_name_has_no_entries(f, name@);
    }
    let ghost before = groups@;
    let mut entries: Vec<(u64, bool)> = Vec::new();
    entries.push((d, p));
    groups.push(RequestGroup { name: owned(name.as_str()), entries });
    proof {
        assert(group_names(f2) == names.push(name@));
        assert forall|i: int| 0 <= i < groups@.len() implies (#[trigger] groups@[i]).name@ == group_names(f2)[i]
            && groups@[i].entries@ == group_entries(f2, group_names(f2)[i]) by {
            if i < before.len() {
                assert(groups@[i] == before[i]);
                assert(names[i] != name@);
            } else {
                assert(groups@[i].entries@ =~= Seq::<(u64, bool)>::empty().push((d, p)));
            }
        }
    }
}

/// Groups the request samples of a run by request name: one group per
/// distinct name, in order of first appearance, holding that name's
/// `(duration, passed)` samples in order.
pub fn group_request_samples(samples: &Vec<IterationSample>) -> (r: Vec<RequestGroup>)
    ensures
        groups_rel(r@, flat_samples(samples@)),
{
    let mut groups: Vec<RequestGroup> = Vec::new();
    let mut i: usize = 0;
    assert(samples@.take(0) =~= Seq::<IterationSample>::empty());
    while i < samples.len()
        invariant
            i <= samples@.len(),
            groups_rel(groups@, flat_samples(samples@.take(i as int))),
        decreases samples@.len() - i,
    {
        let reqs = &samples[i].requests;
        let ghost base = flat_samples(samples@.take(i as int));
        let ghost sv = sample_views(reqs@);
        let mut q: usize = 0;
        assert(base + sv.take(0) =~= base);
        while q < reqs.len()
            invariant
                q <= reqs@.len(),
                sv == sample_views(reqs@),
                groups_rel(groups@, base + sv.take(q as int)),
            decreases reqs@.len() - q,
        {
            let r = &reqs[q];
            add_to_groups(&mut groups, &r.name, r.duration_ms, r.passed, Ghost(base + sv.take(q as int)));
            assert((base + sv.take(q as int)).push((r.name@, r.duration_ms, r.passed)) =~= base + sv.take(q + 1));
            q = q + 1;
        }
        proof {
            assert(sv.take(q as int) =~= sv);
            assert(samples@.take(i + 1).drop_last() =~= samples@.take(i as int));
            assert(samples@.take(i + 1).last() == samples@[i as int]);
        }
        i = i + 1;
    }
    assert(samples@.take(i as int) =~= samples@);
    groups
}

/// The durations of a group's samples.
pub open spec fn entry_durations(e: Seq<(u64, bool)>) -> Seq<u64> {
    e.map_values(|x: (u64, bool)| x.0)
}

/// The number of passed samples of a group.
pub open spec fn passed_entries(e: Seq<(u64, bool)>) -> nat
    decreases e.len(),
{
    if e.len() == 0 { 0 } else { passed_entries(e.drop_last()) + if e.last().1 { 1nat } else { 0nat } }
}

/// The integer aggregates of one request group: how many samples, how many
/// passed and failed, the total duration and the durations sorted.
pub fn summarize_group(g: &RequestGroup) -> (r: SampleSummary)
    requires
        sum_of(entry_durations(g.entries@)) <= u64::MAX,
    ensures
        r.total == g.entries@.len(),
        r.passed == passed_entries(g.entries@),
        r.failed == r.total - r.passed,
        r.sum_ms == sum_of(entry_durations(g.entries@)),
        ascending(r.sorted_ms@),
        r.sorted_ms@.to_multiset() == entry_durations(g.entries@).to_multiset(),
{
    let ghost e = g.entries@;
    let ghost ds = entry_durations(e);
    let mut durations: Vec<u64> = Vec::new();
    let mut passed: u64 = 0;
    let mut sum: u64 = 0;
    let mut i: usize = 0;
    assert(ds.take(0) =~= Seq::<u64>::empty());
    assert(e.take(0) =~= Seq::<(u64, bool)>::empty());
    while i < g.entries.len()
        invariant
            i <= e.len(),
            e == g.entries@,
            ds == entry_durations(e),
            sum_of(ds) <= u64::MAX,
            durations@ == ds.take(i as int),
            sum == sum_of(ds.take(i as int)),
            passed == passed_entries(e.take(i as int)),
            passed <= i,
        decreases e.len() - i,
    {
        proof {
            assert(ds.take(i + 1).drop_last() =~= ds.take(i as int));
            assert(ds.take(i + 1).last() == ds[i as int]);
            assert(e.take(i + 1).drop_last() =~= e.take(i as int));
            lemma_sum_prefix(ds, i + 1);
        }
        let (d, p) = g.entries[i];
        durations.push(d);
        sum = sum + d;
        if p {
            passed = passed + 1;
        }
        i = i + 1;
    }
    assert(ds.take(i as int) =~= ds);
    assert(e.take(i as int) =~= e);
    let sorted = sort_durations(&durations);
    let total = g.entries.len() as u64;
    SampleSummary { total, passed, failed: total - passed, sum_ms: sum, sorted_ms: sorted }
}

} // verus!

verus! {

// ─── settings of a load test ─────────────────────────────────────────────────

/// The integer settings of a collection's `performance:` block, each with its
/// default when absent.
#[derive(Clone, Copy)]
pub struct PerfBaseline {
    pub vus: usize,
    pub duration_secs: u64,
    pub load_profile: LoadProfile,
    pub initial_vus: usize,
}

impl Default for PerfBaseline {
    fn default() -> (r: Self)
        ensures
            r.vus == 1,
            r.duration_secs == 60,
            r.load_profile == LoadProfile::Fixed,
            r.initial_vus == 1,
    {
        PerfBaseline { vus: default_vus(), duration_secs: default_duration_secs(), load_profile: LoadProfile::Fixed, initial_vus: default_initial_vus() }
    }
}

/// The settings a load test runs with.
#[derive(Clone, Copy)]
pub struct PerfSettings {
    pub vus: usize,
    pub duration_secs: u64,
    pub load_profile: LoadProfile,
    pub initial_vus: usize,
}

/// `v` unless it is 0, in which case 1.
pub open spec fn at_least_one(v: int) -> int {
    if v >= 1 { v } else { 1 }
}

/// Resolves the settings of a load test: a given option overrides the
/// collection's baseline; users and duration are at least 1; the starting
/// users may not exceed the users.
pub fn resolve_perf_settings(
    base: &PerfBaseline,
    vus: Option<usize>,
    duration_secs: Option<u64>,
    load_profile: Option<LoadProfile>,
    initial_vus: Option<usize>,
) -> (r: Result<PerfSettings, PerfError>)
    ensures
        ({
            let v = at_least_one(match vus { Some(x) => x as int, None => base.vus as int });
            let d = at_least_one(match duration_secs { Some(x) => x as int, None => base.duration_secs as int });
            let p = match load_profile { Some(x) => x, None => base.load_profile };
            let i = match initial_vus { Some(x) => x, None => base.initial_vus };
            &&& i <= v ==> (r matches Ok(s) && s.vus == v && s.duration_secs == d && s.load_profile == p
                && s.initial_vus == i)
            &&& i > v ==> (r matches Err(PerfError::InitialVusExceedsVus { initial, target }) && initial == i
                && target == v)
        }),
{
    let v0 = match vus { Some(x) => x, None => base.vus };
    let v = if v0 >= 1 { v0 } else { 1 };
    let d0 = match duration_secs { Some(x) => x, None => base.duration_secs };
    let d = if d0 >= 1 { d0 } else { 1 };
    let p = match load_profile { Some(x) => x, None => base.load_profile };
    let i = match initial_vus { Some(x) => x, None => base.initial_vus };
    if i > v {
        return Err(PerfError::InitialVusExceedsVus { initial: i, target: v });
    }
    Ok(PerfSettings { vus: v, duration_secs: d, load_profile: p, initial_vus: i })
}

/// The command line's message when the starting users exceed the users.
pub fn initial_vus_flag_message(initial: usize, target: usize) -> (r: String)
    ensures
        r@ == "--initial-vus ("@ + decimal(initial as nat) + ") must be <= --vus ("@ + decimal(target as nat) + ")"@,
{
    let mut s = owned("--initial-vus (");
    push_str(&mut s, usize_to_string(initial).as_str());
    push_str(&mut s, ") must be <= --vus (");
    push_str(&mut s, usize_to_string(target).as_str());
    push_str(&mut s, ")");
    s
}

/// The load profile a browser request names: `ramp_up`, else fixed.
pub fn load_profile_from_name(name: Option<&str>) -> (r: LoadProfile)
    ensures
        r == (if name is Some && name->0@ == "ramp_up"@ { LoadProfile::RampUp } else { LoadProfile::Fixed }),
{
    match name {
        Some(n) => if str_eq(n, "ramp_up") { LoadProfile::RampUp } else { LoadProfile::Fixed },
        None => LoadProfile::Fixed,
    }
}

/// The name a load profile is shown under.
pub fn load_profile_label(p: LoadProfile) -> (r: &'static str)
    ensures
        r@ == match p {
            LoadProfile::Fixed => "fixed"@,
            LoadProfile::RampUp => "ramp_up"@,
        },
{
    match p {
        LoadProfile::Fixed => {
            proof { reveal_strlit("fixed"); }
            "fixed"
        },
        LoadProfile::RampUp => {
            proof { reveal_strlit("ramp_up"); }
            "ramp_up"
        },
    }
}

} // verus!
