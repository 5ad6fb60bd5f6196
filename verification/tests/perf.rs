use strex::data::DataRow;
use strex::perf::{
    distribute_rows, group_request_samples, initial_vus_flag_message, load_profile_from_name, load_profile_label,
    parse_condition, parse_metric, resolve_perf_settings, sort_durations, split_threshold, split_threshold_brief,
    summarize, summarize_group, validate_perf_opts, PerfBaseline, RequestSample,
    IterationSample, LoadProfile, MetricKind, PerfError, ThresholdCondition,
};
use strex::strmap::StrMap;

#[test]
fn perf_error_invalid_vus_display() {
    assert_eq!(PerfError::InvalidVus.message(), "vus must be at least 1");
}

#[test]
fn perf_error_invalid_duration_display() {
    assert_eq!(PerfError::InvalidDuration.message(), "duration must be at least 1 second");
}

#[test]
fn perf_error_initial_vus_exceeds_vus_display() {
    let e = PerfError::InitialVusExceedsVus { initial: 5, target: 2 };
    assert_eq!(e.message(), "initial_vus (5) must be <= vus (2)");
}

#[test]
fn perf_error_task_panic_display() {
    let e = PerfError::TaskPanic { cause: "oh no".to_string() };
    assert_eq!(e.message(), "VU task panicked: oh no");
}

#[test]
fn load_profile_default_is_fixed() {
    assert_eq!(LoadProfile::default(), LoadProfile::Fixed);
}

#[test]
fn perf_options_are_checked_in_order() {
    assert!(matches!(validate_perf_opts(0, true, 9), Err(PerfError::InvalidVus)));
    assert!(matches!(validate_perf_opts(2, true, 9), Err(PerfError::InvalidDuration)));
    assert!(matches!(
        validate_perf_opts(2, false, 3),
        Err(PerfError::InitialVusExceedsVus { initial: 3, target: 2 })
    ));
    assert!(validate_perf_opts(2, false, 2).is_ok());
}

fn row(v: &str) -> DataRow {
    let mut m = StrMap::new();
    m.insert("k".to_string(), v.to_string());
    m
}

#[test]
fn rows_are_dealt_round_robin() {
    let rows = vec![row("a"), row("b"), row("c"), row("d"), row("e")];
    let parts = distribute_rows(&rows, 2);
    assert_eq!(parts.len(), 2);
    let names: Vec<Vec<String>> =
        parts.iter().map(|p| p.iter().map(|r| r.get("k").unwrap().clone()).collect()).collect();
    assert_eq!(names, vec![vec!["a", "c", "e"], vec!["b", "d"]]);
}

#[test]
fn durations_are_sorted_ascending() {
    assert_eq!(sort_durations(&vec![5, 1, 4, 1, 3]), vec![1, 1, 3, 4, 5]);
    assert_eq!(sort_durations(&vec![]), Vec::<u64>::new());
}

#[test]
fn summary_counts_and_sums() {
    let mk = |d: u64, p: bool| IterationSample { duration_ms: d, passed: p, requests: vec![] };
    let s = summarize(&vec![mk(30, true), mk(10, false), mk(20, true)]);
    assert_eq!((s.total, s.passed, s.failed, s.sum_ms), (3, 2, 1, 60));
    assert_eq!(s.sorted_ms, vec![10, 20, 30]);
}

#[test]
fn metric_and_condition_names() {
    assert_eq!(parse_metric("p95_response_ms"), Some(MetricKind::P95ResponseMs));
    assert_eq!(parse_metric("p50"), None);
    assert_eq!(parse_condition("gte"), Some(ThresholdCondition::Gte));
    assert_eq!(parse_condition("eq"), None);
}

#[test]
fn threshold_expression_is_split() {
    let (m, c, v) = split_threshold("p95_response_ms:lt:500").unwrap();
    assert_eq!((m, c, v.as_str()), (MetricKind::P95ResponseMs, ThresholdCondition::Lt, "500"));
    assert_eq!(
        split_threshold("p95").unwrap_err(),
        "threshold must be METRIC:CONDITION:VALUE, got: p95"
    );
    assert!(split_threshold("foo:lt:1").unwrap_err().starts_with("unknown metric 'foo'"));
    assert!(split_threshold("error_rate_pct:eq:1").unwrap_err().starts_with("unknown condition 'eq'"));
}

/// The command line's threshold parse: the metric and condition from the
/// library, the value read as a number.
fn parse_threshold(s: &str) -> Result<(MetricKind, ThresholdCondition, f64), String> {
    let (m, c, v) = split_threshold(s)?;
    let value: f64 = v.parse().map_err(|_| format!("threshold value must be a number, got: {v}"))?;
    Ok((m, c, value))
}

fn parse_threshold_brief(s: &str) -> Result<(MetricKind, ThresholdCondition, f64), String> {
    let (m, c, v) = split_threshold_brief(s)?;
    let value: f64 = v.parse().map_err(|_| format!("threshold value must be a number, got: {v}"))?;
    Ok((m, c, value))
}

#[test]
fn parse_threshold_p95_lt_500() {
    let t = parse_threshold("p95_response_ms:lt:500").unwrap();
    assert!(matches!(t.0, MetricKind::P95ResponseMs));
    assert!(matches!(t.1, ThresholdCondition::Lt));
    assert!((t.2 - 500.0).abs() < f64::EPSILON);
}

#[test]
fn parse_threshold_error_rate_lte() {
    let t = parse_threshold("error_rate_pct:lte:1.5").unwrap();
    assert!(matches!(t.0, MetricKind::ErrorRatePct));
    assert!(matches!(t.1, ThresholdCondition::Lte));
    assert!((t.2 - 1.5).abs() < f64::EPSILON);
}

#[test]
fn parse_threshold_throughput_gte() {
    let t = parse_threshold("throughput_rps:gte:10").unwrap();
    assert!(matches!(t.0, MetricKind::ThroughputRps));
    assert!(matches!(t.1, ThresholdCondition::Gte));
    assert!((t.2 - 10.0).abs() < f64::EPSILON);
}

#[test]
fn perf_parse_threshold_missing_parts_returns_err() {
    assert!(parse_threshold("p95_response_ms:lt").is_err());
    assert!(parse_threshold("p95_response_ms").is_err());
    assert!(parse_threshold("").is_err());
}

#[test]
fn parse_threshold_unknown_metric_returns_err() {
    assert!(parse_threshold("unknown_metric:lt:100").is_err());
}

#[test]
fn parse_threshold_unknown_condition_returns_err() {
    assert!(parse_threshold("p95_response_ms:equal:100").is_err());
}

#[test]
fn parse_threshold_non_numeric_value_returns_err() {
    assert!(parse_threshold("p95_response_ms:lt:fast").is_err());
}

#[test]
fn parse_threshold_valid() {
    let t = parse_threshold_brief("p95_response_ms:lt:500").unwrap();
    assert!(matches!(t.0, MetricKind::P95ResponseMs));
    assert!(matches!(t.1, ThresholdCondition::Lt));
    assert!((t.2 - 500.0).abs() < f64::EPSILON);
}

#[test]
fn parse_threshold_invalid_metric_returns_err() {
    assert_eq!(parse_threshold_brief("bad_metric:lt:100").unwrap_err(), "unknown metric: bad_metric");
}

#[test]
fn ws_perf_parse_threshold_missing_parts_returns_err() {
    assert!(parse_threshold_brief("p95_response_ms:lt").is_err());
}

#[test]
fn threshold_value_keeps_later_colons() {
    let (_, _, v) = split_threshold("avg_response_ms:gt:1:2").unwrap();
    assert_eq!(v, "1:2");
    assert_eq!(split_threshold_brief("x:eq:1").unwrap_err(), "unknown metric: x");
    assert_eq!(split_threshold_brief("avg_response_ms:eq:1").unwrap_err(), "unknown condition: eq");
}

fn sample(reqs: Vec<(&str, u64, bool)>) -> IterationSample {
    IterationSample {
        duration_ms: reqs.iter().map(|r| r.1).sum(),
        passed: reqs.iter().all(|r| r.2),
        requests: reqs
            .into_iter()
            .map(|(n, d, p)| RequestSample { name: n.to_string(), duration_ms: d, passed: p })
            .collect(),
    }
}

#[test]
fn request_samples_are_grouped_by_name_in_first_seen_order() {
    let samples = vec![sample(vec![("b", 5, true), ("a", 7, false)]), sample(vec![("a", 3, true), ("c", 1, true)])];
    let groups = group_request_samples(&samples);
    let names: Vec<&str> = groups.iter().map(|g| g.name.as_str()).collect();
    assert_eq!(names, vec!["b", "a", "c"]);
    assert_eq!(groups[1].entries, vec![(7, false), (3, true)]);
    let s = summarize_group(&groups[1]);
    assert_eq!((s.total, s.passed, s.failed, s.sum_ms), (2, 1, 1, 10));
    assert_eq!(s.sorted_ms, vec![3, 7]);
    assert!(group_request_samples(&vec![]).is_empty());
}

#[test]
fn settings_resolve_with_overrides_and_floors() {
    let base = PerfBaseline::default();
    let s = resolve_perf_settings(&base, None, None, None, None).ok().unwrap();
    assert_eq!((s.vus, s.duration_secs, s.load_profile, s.initial_vus), (1, 60, LoadProfile::Fixed, 1));
    let s = resolve_perf_settings(&base, Some(0), Some(0), Some(LoadProfile::RampUp), Some(1)).ok().unwrap();
    assert_eq!((s.vus, s.duration_secs, s.load_profile), (1, 1, LoadProfile::RampUp));
    match resolve_perf_settings(&base, Some(2), None, None, Some(5)) {
        Err(e) => assert_eq!(e.message(), "initial_vus (5) must be <= vus (2)"),
        Ok(_) => panic!("expected an error"),
    }
    assert_eq!(initial_vus_flag_message(5, 2), "--initial-vus (5) must be <= --vus (2)");
}

#[test]
fn load_profile_names() {
    assert_eq!(load_profile_from_name(Some("ramp_up")), LoadProfile::RampUp);
    assert_eq!(load_profile_from_name(Some("other")), LoadProfile::Fixed);
    assert_eq!(load_profile_from_name(None), LoadProfile::Fixed);
    assert_eq!(load_profile_label(LoadProfile::RampUp), "ramp_up");
    assert_eq!(load_profile_label(LoadProfile::Fixed), "fixed");
}

#[test]
fn ramp_interval_spreads_half_the_duration() {
    assert_eq!(strex::perf::ramp_interval_nanos(10_000_000_000, 6, 1), 1_000_000_000);
    assert_eq!(strex::perf::ramp_interval_nanos(10_000_000_000, 3, 3), 0);
    assert_eq!(strex::perf::ramp_interval_nanos(10_000_000_000, 2, 5), 0);
    assert_eq!(strex::perf::ramp_interval_nanos(7, 3, 0), 1);
}
