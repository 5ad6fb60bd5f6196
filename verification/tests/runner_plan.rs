use strex::collection::{Body, BodyType, Collection, OnFailure, Request};
use strex::context::ExecutionContext;
use strex::error::{AssertionFailure, AssertionType, RequestError};
use strex::http::ResolvedBody;
use strex::runner::{
    CollectionRun, LifecycleStep, next_step,
    absorb_script_result, apply_mutations, execute_done, final_outcome, plan_next, post_script_failure, resolve_body,
    resolve_request, skip_done, skipped_result, CollectionResult, RequestOutcome, RequestResult, RunAction,
    RunnerOpts, RunState,
};
use strex::script::{
    classify_exception, classify_init_failure, status_text, ConsoleEntry, ExceptionInfo, LogLevel, ScriptError,
    ScriptOptions, ScriptResult, VariableStore,
};
use strex::strmap::StrMap;
use strex::yaml::{YamlNumber, YamlValue};

fn req(name: &str, on_failure: Option<OnFailure>) -> Request {
    Request {
        name: name.to_string(),
        method: "GET".to_string(),
        url: "https://x/{{id}}".to_string(),
        headers: StrMap::new(),
        body: None,
        pre_script: None,
        post_script: None,
        assertions: vec![],
        timeout: None,
        on_failure,
    }
}

fn collection(requests: Vec<Request>) -> Collection {
    Collection { name: "c".to_string(), version: "1.0".to_string(), environment: StrMap::new(), variables: vec![], requests }
}

/// Drives the run plan: `fails[i]` says whether request `i` fails when run.
fn drive(c: &Collection, fails: &[bool]) -> Vec<(usize, bool)> {
    let n = c.requests.len();
    let mut state = RunState { next: 0, skip_until: None, stopped: false };
    let mut out = Vec::new();
    loop {
        match plan_next(&state, n) {
            RunAction::Finish => break,
            RunAction::Skip(i) => {
                out.push((i, false));
                state = skip_done(&state, n);
            }
            RunAction::Execute(i) => {
                out.push((i, true));
                state = execute_done(c, &state, fails[i]);
            }
        }
    }
    out
}

#[test]
fn every_request_runs_when_nothing_fails() {
    let c = collection(vec![req("a", Some(OnFailure::Stop)), req("b", None), req("c", None)]);
    assert_eq!(drive(&c, &[false, false, false]), vec![(0, true), (1, true), (2, true)]);
}

#[test]
fn stop_skips_every_later_request() {
    let c = collection(vec![req("a", None), req("b", Some(OnFailure::Stop)), req("c", None), req("d", None)]);
    assert_eq!(drive(&c, &[false, true, false, false]), vec![(0, true), (1, true), (2, false), (3, false)]);
}

#[test]
fn skip_to_resumes_at_the_named_request() {
    let c = collection(vec![
        req("a", Some(OnFailure::SkipTo("d".to_string()))),
        req("b", None),
        req("c", None),
        req("d", None),
    ]);
    assert_eq!(drive(&c, &[true, false, false, false]), vec![(0, true), (1, false), (2, false), (3, true)]);
}

#[test]
fn skip_to_an_unknown_name_continues() {
    let c = collection(vec![req("a", Some(OnFailure::SkipTo("zzz".to_string()))), req("b", None)]);
    assert_eq!(drive(&c, &[true, false]), vec![(0, true), (1, true)]);
}

#[test]
fn failure_without_action_continues() {
    let c = collection(vec![req("a", None), req("b", None)]);
    assert_eq!(drive(&c, &[true, true]), vec![(0, true), (1, true)]);
}

#[test]
fn skipped_results_are_empty() {
    let r = skipped_result("x");
    assert_eq!(r.name, "x");
    assert!(matches!(r.outcome, RequestOutcome::Skipped));
    assert_eq!(r.duration_ms, 0);
}

fn vars(pairs: &[(&str, &str)]) -> StrMap {
    let mut m = StrMap::new();
    for (k, v) in pairs {
        m.insert(k.to_string(), v.to_string());
    }
    m
}

#[test]
fn request_templates_are_resolved() {
    let mut r = req("a", None);
    r.headers.insert("Authorization".to_string(), "Bearer {{tok}}".to_string());
    r.timeout = Some(250);
    let resolved = resolve_request(&r, &vars(&[("id", "7"), ("tok", "t")])).ok().unwrap();
    assert_eq!(resolved.url, "https://x/7");
    assert_eq!(resolved.headers.get("Authorization").unwrap(), "Bearer t");
    assert_eq!(resolved.timeout_ms, 250);
    assert!(resolved.body.is_none());
    let resolved = resolve_request(&req("a", None), &vars(&[("id", "1")])).ok().unwrap();
    assert_eq!(resolved.timeout_ms, 60000);
    let err = resolve_request(&r, &vars(&[])).err().unwrap();
    assert!(matches!(err, RequestError::Interpolation(_)));
}

fn s(v: &str) -> YamlValue {
    YamlValue::String(v.to_string())
}

#[test]
fn bodies_are_resolved_by_type() {
    let body = Body { body_type: BodyType::Text, content: s("hi {{n}}") };
    match resolve_body(&body, &vars(&[("n", "bob")])).ok().unwrap() {
        ResolvedBody::Text(t) => assert_eq!(t, "hi bob"),
        _ => panic!("expected text"),
    }
    let form = Body {
        body_type: BodyType::Form,
        content: YamlValue::Mapping {
            entries: vec![
                (s("user"), s("{{n}}")),
                (s("age"), YamlValue::Number(YamlNumber { text: "3".to_string(), as_u64: Some(3) })),
                (s("ok"), YamlValue::Bool(true)),
            ],
            debug: String::new(),
        },
    };
    match resolve_body(&form, &vars(&[("n", "bob")])).ok().unwrap() {
        ResolvedBody::Form(f) => {
            assert_eq!(f.get("user").unwrap(), "bob");
            assert_eq!(f.get("age").unwrap(), "3");
            assert_eq!(f.get("ok").unwrap(), "true");
        }
        _ => panic!("expected form"),
    }
    let bad = Body {
        body_type: BodyType::Form,
        content: YamlValue::Mapping {
            entries: vec![(s("k"), YamlValue::Sequence { items: vec![], debug: "[]".to_string() })],
            debug: String::new(),
        },
    };
    assert!(matches!(resolve_body(&bad, &vars(&[])), Err(RequestError::InvalidBody { .. })));
    let json = Body {
        body_type: BodyType::Json,
        content: YamlValue::Mapping { entries: vec![(s("name"), s("{{n}}"))], debug: String::new() },
    };
    match resolve_body(&json, &vars(&[("n", "bob")])).ok().unwrap() {
        ResolvedBody::Json(YamlValue::Mapping { entries, .. }) => {
            assert!(matches!(&entries[0].1, YamlValue::String(v) if v == "bob"));
        }
        _ => panic!("expected a JSON mapping"),
    }
}

fn script_result(set: &[(&str, &str)], deleted: &[&str], cleared: bool) -> ScriptResult {
    let mut r = ScriptResult::empty();
    for (k, v) in set {
        r.variable_mutations.insert(k.to_string(), v.to_string());
    }
    r.variable_deletions = deleted.iter().map(|d| d.to_string()).collect();
    r.variables_cleared = cleared;
    r
}

fn context_with(variables: Vec<(&str, &str)>) -> ExecutionContext {
    let mut c = collection(vec![]);
    c.variables = variables.into_iter().map(|(k, v)| (k.to_string(), Some(v.to_string()))).collect();
    ExecutionContext::new(&c)
}

#[test]
fn script_writes_reach_the_context() {
    let mut ctx = context_with(vec![("a", "1"), ("b", "2")]);
    apply_mutations(&mut ctx, &script_result(&[("c", "3")], &["a"], false), false);
    assert!(!ctx.variables.contains_key("a"));
    assert_eq!(ctx.variables.get("b").unwrap(), "2");
    assert_eq!(ctx.variables.get("c").unwrap(), "3");
    let mut ctx = context_with(vec![("a", "1")]);
    apply_mutations(&mut ctx, &script_result(&[("c", "3")], &[], true), false);
    assert!(!ctx.variables.contains_key("a"));
    assert_eq!(ctx.variables.len(), 1);
    let mut ctx = context_with(vec![("a", "1")]);
    apply_mutations(&mut ctx, &script_result(&[("a", "9")], &[], true), true);
    assert_eq!(ctx.variables.get("a").unwrap(), "1");
}

#[test]
fn script_logs_are_appended() {
    let mut ctx = context_with(vec![]);
    let mut logs = vec![ConsoleEntry { level: LogLevel::Log, message: "first".to_string() }];
    let mut r = script_result(&[], &[], false);
    r.console_logs.push(ConsoleEntry { level: LogLevel::Warn, message: "second".to_string() });
    absorb_script_result(&mut ctx, &mut logs, r, false);
    assert_eq!(logs.len(), 2);
    assert_eq!(logs[1].message, "second");
}

#[test]
fn post_script_assertions_become_failures_only_when_continuing() {
    let f = post_script_failure(ScriptError::AssertionFailed { message: "m".to_string() }, true).ok().unwrap();
    assert_eq!(f.assertion_type, AssertionType::Script);
    assert_eq!(f.expected, "m");
    assert!(post_script_failure(ScriptError::AssertionFailed { message: "m".to_string() }, false).is_err());
    assert!(post_script_failure(ScriptError::Timeout { limit_ms: 1 }, true).is_err());
}

fn failure(expected: &str) -> AssertionFailure {
    AssertionFailure { assertion_type: AssertionType::Status, expected: expected.to_string(), actual: "x".to_string(), path: None }
}

#[test]
fn outcome_combines_declared_and_script_failures() {
    let (o, p) = final_outcome(Ok((vec!["status 200".to_string()], vec![])), vec![]);
    assert!(matches!(o, RequestOutcome::Passed));
    assert_eq!(p, vec!["status 200"]);
    let (o, _) = final_outcome(Ok((vec![], vec![failure("1")])), vec![failure("2")]);
    match o {
        RequestOutcome::AssertionsFailed(all) => {
            assert_eq!(all.iter().map(|f| f.expected.as_str()).collect::<Vec<_>>(), vec!["1", "2"])
        }
        _ => panic!("expected failures"),
    }
    let (o, p) = final_outcome(Err(RequestError::Network { cause: "x".to_string() }), vec![failure("2")]);
    assert!(matches!(o, RequestOutcome::Error(_)));
    assert!(p.is_empty());
}

#[test]
fn counts_of_a_collection_result() {
    let mk = |o| RequestResult { name: "r".into(), outcome: o, duration_ms: 0, response: None, logs: vec![], passed_assertions: vec![] };
    let c = CollectionResult {
        request_results: vec![
            mk(RequestOutcome::Passed),
            mk(RequestOutcome::Skipped),
            mk(RequestOutcome::Error(RequestError::Network { cause: "x".into() })),
            mk(RequestOutcome::AssertionsFailed(vec![])),
        ],
    };
    assert!(!c.passed());
    assert_eq!(c.failure_count(), 2);
    assert_eq!(c.skipped_count(), 1);
    let skipped = CollectionResult { request_results: vec![mk(RequestOutcome::Passed), mk(RequestOutcome::Skipped)] };
    assert!(!skipped.passed());
    let ok = CollectionResult { request_results: vec![mk(RequestOutcome::Passed), mk(RequestOutcome::Passed)] };
    assert!(ok.passed());
    assert!(CollectionResult { request_results: vec![] }.passed());
}

#[test]
fn run_options_default() {
    let o = RunnerOpts::default();
    assert_eq!(o.script_timeout_ms, 30000);
    assert!(!o.isolate_script_variables);
}

#[test]
fn variables_set_string_roundtrip() {
    let mut store = VariableStore::new(vars(&[("a", "1")]));
    store.set("k".to_string(), "v".to_string());
    assert_eq!(store.get("k"), "v");
    assert_eq!(store.get("a"), "1");
    assert_eq!(store.get("none"), "");
    assert!(store.has("k") && store.has("a") && !store.has("none"));
}

#[test]
fn variables_delete_appears_in_deletions() {
    let mut store = VariableStore::new(vars(&[("a", "1")]));
    store.delete("a".to_string());
    let r = store.finish(vec![]);
    assert_eq!(r.variable_deletions, vec!["a"]);
}

#[test]
fn variables_clear_sets_flag() {
    let mut store = VariableStore::new(StrMap::new());
    store.clear();
    assert!(store.finish(vec![]).variables_cleared);
}

#[test]
fn variables_keys_returns_all_keys() {
    let mut store = VariableStore::new(vars(&[("a", "1"), ("b", "2")]));
    store.set("c".to_string(), "3".to_string());
    store.set("a".to_string(), "4".to_string());
    let mut keys = store.keys();
    keys.sort();
    assert_eq!(keys, vec!["a", "b", "c"]);
}

#[test]
fn reason_phrases() {
    assert_eq!(status_text(200), "OK");
    assert_eq!(status_text(404), "Not Found");
    assert_eq!(status_text(418), "");
}

fn exc(name: &str, message: &str, stack: Option<&str>) -> ExceptionInfo {
    ExceptionInfo { name: name.to_string(), message: message.to_string(), stack: stack.map(|s| s.to_string()), line: 3, column: 5 }
}

#[test]
fn exceptions_are_classified() {
    let o = ScriptOptions::default_limits();
    assert!(matches!(classify_exception(exc("AssertionError", "bad", None), false, &o), ScriptError::AssertionFailed { .. }));
    assert!(matches!(classify_exception(exc("InternalError", "interrupted", None), false, &o), ScriptError::Timeout { limit_ms: 30000 }));
    assert!(matches!(classify_exception(exc("InternalError", "x", None), true, &o), ScriptError::Timeout { .. }));
    assert!(matches!(classify_exception(exc("Error", "out of memory", None), false, &o), ScriptError::MemoryLimit { limit_mb: 64 }));
    assert!(matches!(classify_exception(exc("SyntaxError", "x", None), false, &o), ScriptError::Compilation { line: 3, column: 5, .. }));
    assert!(matches!(classify_exception(exc("SyntaxError", "x", Some("at <eval>")), false, &o), ScriptError::Runtime { .. }));
    assert!(matches!(classify_exception(exc("TypeError", "x", None), false, &o), ScriptError::Runtime { .. }));
    assert!(matches!(classify_init_failure("out of memory".to_string(), &o), ScriptError::MemoryLimit { .. }));
    assert!(matches!(classify_init_failure("boom".to_string(), &o), ScriptError::RuntimeInit { .. }));
}

#[test]
fn script_error_messages() {
    assert_eq!(
        ScriptError::Compilation { line: 1, column: 2, message: "m".to_string() }.message(),
        "script compilation error at 1:2: m"
    );
    assert_eq!(ScriptError::Timeout { limit_ms: 5 }.message(), "script exceeded 5ms time limit");
    assert_eq!(ScriptError::MemoryLimit { limit_mb: 8 }.message(), "script exceeded 8MB memory limit");
    assert_eq!(ScriptError::AssertionFailed { message: "m".to_string() }.message(), "assertion failed: m");
    assert_eq!(
        RequestError::Script(ScriptError::ThreadPanic { cause: "c".to_string() }).message(),
        "Script error: script worker thread panicked: c"
    );
}

fn run_with(c: &Collection, fails: &[bool]) -> CollectionResult {
    let mut run = CollectionRun::new(c);
    loop {
        match run.next_action(c) {
            RunAction::Finish => break,
            RunAction::Skip(_) => run.record_skipped(c),
            RunAction::Execute(i) => {
                let outcome = if fails[i] { RequestOutcome::AssertionsFailed(vec![]) } else { RequestOutcome::Passed };
                let r = RequestResult {
                    name: "ignored".to_string(),
                    outcome,
                    duration_ms: 5,
                    response: None,
                    logs: vec![],
                    passed_assertions: vec![],
                };
                run.record_executed(c, r);
                assert_eq!(run.last().unwrap().name, c.requests[i].name);
            }
        }
    }
    run.finish(c)
}

#[test]
fn a_run_records_one_named_result_per_request_and_stops() {
    let c = collection(vec![req("a", None), req("b", Some(OnFailure::Stop)), req("c", None), req("d", None)]);
    let r = run_with(&c, &[false, true, false, false]);
    let names: Vec<&str> = r.request_results.iter().map(|x| x.name.as_str()).collect();
    assert_eq!(names, vec!["a", "b", "c", "d"]);
    assert!(matches!(r.request_results[1].outcome, RequestOutcome::AssertionsFailed(_)));
    for x in &r.request_results[2..] {
        assert!(matches!(x.outcome, RequestOutcome::Skipped));
        assert_eq!(x.duration_ms, 0);
    }
    assert!(!r.passed());
}

#[test]
fn a_run_skips_to_the_named_request() {
    let c = collection(vec![req("a", Some(OnFailure::SkipTo("d".to_string()))), req("b", None), req("c", None), req("d", None)]);
    let r = run_with(&c, &[true, false, false, false]);
    let skipped: Vec<bool> = r.request_results.iter().map(|x| matches!(x.outcome, RequestOutcome::Skipped)).collect();
    assert_eq!(skipped, vec![false, true, true, false]);
}

fn phases(r: &Request) -> Vec<LifecycleStep> {
    let mut out = vec![];
    let mut done = None;
    loop {
        let s = next_step(r, done);
        out.push(s);
        if s == LifecycleStep::Assess {
            return out;
        }
        done = Some(s);
    }
}

#[test]
fn lifecycle_runs_scripts_around_the_send() {
    let mut r = req("a", None);
    assert_eq!(phases(&r), vec![LifecycleStep::Send, LifecycleStep::Assess]);
    r.pre_script = Some("x".to_string());
    r.post_script = Some("y".to_string());
    assert_eq!(
        phases(&r),
        vec![LifecycleStep::PreScript, LifecycleStep::Send, LifecycleStep::PostScript, LifecycleStep::Assess]
    );
}
