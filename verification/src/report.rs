//! Run reports: the console report and the JUnit XML report of a run.

use vstd::prelude::*;
use crate::collection::{Collection, Request};
use crate::data::{DataRunResult, IterationResult};
use crate::error::{AssertionFailure, join_seq, request_error_text};
use crate::runner::{CollectionResult, RequestOutcome, RequestResult};
use crate::strmap::StrMap;
use crate::json::{
    JsonDoc, doc_views, json_array_text, json_array_value, json_bool_value, json_null_value, json_number_value,
    json_object_text, json_object_value, json_string_text, json_string_value, member_views,
};
use crate::runner::all_passed;
use crate::text::{byte_len, concat, decimal, owned, push_char, push_str, usize_to_string, utf8_len, views};
use crate::ui::{failure_message, format_failure};

verus! {

/// What a run produced: one collection run, or one per data row.
pub enum RunOutcome {
    Single(CollectionResult),
    DataDriven(DataRunResult),
}

/// A run and the collection it ran, as the reports read them.
pub struct RunResult {
    pub collection: Collection,
    pub outcome: RunOutcome,
}

// ─── XML ─────────────────────────────────────────────────────────────────────

/// The XML escape of one character.
pub open spec fn xml_char(c: char) -> Seq<char> {
    if c == '&' {
        "&amp;"@
    } else if c == '<' {
        "&lt;"@
    } else if c == '>' {
        "&gt;"@
    } else if c == '"' {
        "&quot;"@
    } else if c == '\'' {
        "&apos;"@
    } else {
        seq![c]
    }
}

/// `s` with `&`, `<`, `>`, `"` and `'` replaced by their XML entities.
pub open spec fn xml_escaped(s: Seq<char>) -> Seq<char>
    decreases s.len(),
{
    if s.len() == 0 {
        Seq::empty()
    } else {
        xml_escaped(s.drop_last()) + xml_char(s.last())
    }
}

/// Escapes the XML special characters of a string.
pub fn escape_xml(s: &str) -> (r: String)
    ensures
        r@ == xml_escaped(s@),
{
    let v = crate::text::chars_of(s);
    let mut out = String::new();
    let mut i: usize = 0;
    assert(v@.take(0) =~= Seq::<char>::empty());
    while i < v.len()
        invariant
            i <= v@.len(),
            v@ == s@,
            out@ == xml_escaped(v@.take(i as int)),
        decreases v@.len() - i,
    {
        proof {
            assert(v@.take(i + 1).drop_last() =~= v@.take(i as int));
            assert(v@.take(i + 1).last() == v@[i as int]);
        }
        let c = v[i];
        if c == '&' {
            push_str(&mut out, "&amp;");
        } else if c == '<' {
            push_str(&mut out, "&lt;");
        } else if c == '>' {
            push_str(&mut out, "&gt;");
        } else if c == '"' {
            push_str(&mut out, "&quot;");
        } else if c == '\'' {
            push_str(&mut out, "&apos;");
        } else {
            push_char(&mut out, c);
            assert(out@ =~= xml_escaped(v@.take(i as int)) + seq![c]);
        }
        i = i + 1;
    }
    assert(v@.take(i as int) =~= v@);
    out
}

/// The number of results whose outcome is failed assertions (`errors`
/// false) or an error (`errors` true).
pub open spec fn count_kind(rs: Seq<RequestResult>, errors: bool) -> nat
    decreases rs.len(),
{
    if rs.len() == 0 {
        0
    } else {
        count_kind(rs.drop_last(), errors) + if (errors && rs.last().outcome is Error) || (!errors
            && rs.last().outcome is AssertionsFailed) {
            1nat
        } else {
            0nat
        }
    }
}

/// The `<testcase>` element of one result.
pub open spec fn testcase_xml(r: RequestResult) -> Seq<char> {
    let name = xml_escaped(r.name@);
    match r.outcome {
        RequestOutcome::Passed => "    <testcase name=\""@ + name + "\"/>\n"@,
        RequestOutcome::AssertionsFailed(fs) => "    <testcase name=\""@ + name + "\">\n      <failure message=\""@
            + (if fs@.len() > 0 { xml_escaped(failure_message(fs@[0])) } else { Seq::empty() })
            + "\"/>\n    </testcase>\n"@,
        RequestOutcome::Error(e) => "    <testcase name=\""@ + name + "\">\n      <error message=\""@
            + xml_escaped(request_error_text(e)) + "\"/>\n    </testcase>\n"@,
        RequestOutcome::Skipped => "    <testcase name=\""@ + name + "\">\n      <skipped/>\n    </testcase>\n"@,
    }
}

/// The `<testcase>` elements of a list of results.
pub open spec fn testcases_xml(rs: Seq<RequestResult>) -> Seq<char>
    decreases rs.len(),
{
    if rs.len() == 0 {
        Seq::empty()
    } else {
        testcases_xml(rs.drop_last()) + testcase_xml(rs.last())
    }
}

/// The `<testsuite>` element of a collection run.
pub open spec fn testsuite_xml(suite: Seq<char>, rs: Seq<RequestResult>) -> Seq<char> {
    "  <testsuite name=\""@ + xml_escaped(suite) + "\" tests=\""@ + decimal(rs.len()) + "\" failures=\""@
        + decimal(count_kind(rs, false)) + "\" errors=\""@ + decimal(count_kind(rs, true)) + "\">\n"@
        + testcases_xml(rs) + "  </testsuite>\n"@
}

proof fn lemma_count_kind_le(rs: Seq<RequestResult>, errors: bool)
    ensures
        count_kind(rs, errors) <= rs.len(),
    decreases rs.len(),
{
    if rs.len() > 0 {
        lemma_count_kind_le(rs.drop_last(), errors);
    }
}

/// Appends the `<testsuite>` element of a collection run to `out`; passed,
/// failed, errored and skipped requests each get their `<testcase>` form, a
/// failure element giving the first failure only.
pub fn write_testsuite(out: &mut String, suite_name: &str, col_result: &CollectionResult)
    ensures
        final(out)@ == old(out)@ + testsuite_xml(suite_name@, col_result.request_results@),
{
    let ghost rs = col_result.request_results@;
    let mut failures: usize = 0;
    let mut errors: usize = 0;
    let mut i: usize = 0;
    assert(rs.take(0) =~= Seq::<RequestResult>::empty());
    while i < col_result.request_results.len()
        invariant
            rs == col_result.request_results@,
            i <= rs.len(),
            failures == count_kind(rs.take(i as int), false),
            errors == count_kind(rs.take(i as int), true),
        decreases rs.len() - i,
    {
        proof {
            assert(rs.take(i + 1).drop_last() =~= rs.take(i as int));
            assert(rs.take(i + 1).last() == rs[i as int]);
            lemma_count_kind_le(rs.take(i as int), false);
            lemma_count_kind_le(rs.take(i as int), true);
        }
        match &col_result.request_results[i].outcome {
            RequestOutcome::AssertionsFailed(_) => failures = failures + 1,
            RequestOutcome::Error(_) => errors = errors + 1,
            _ => {},
        }
        i = i + 1;
    }
    assert(rs.take(i as int) =~= rs);
    let ghost start = out@;
    push_str(out, "  <testsuite name=\"");
    push_str(out, escape_xml(suite_name).as_str());
    push_str(out, "\" tests=\"");
    push_str(out, usize_to_string(col_result.request_results.len()).as_str());
    push_str(out, "\" failures=\"");
    push_str(out, usize_to_string(failures).as_str());
    push_str(out, "\" errors=\"");
    push_str(out, usize_to_string(errors).as_str());
    push_str(out, "\">\n");
    let ghost head = out@;
    let mut k: usize = 0;
    assert(rs.take(0) =~= Seq::<RequestResult>::empty());
    assert(head + Seq::<char>::empty() =~= head);
    while k < col_result.request_results.len()
        invariant
            rs == col_result.request_results@,
            k <= rs.len(),
            out@ == head + testcases_xml(rs.take(k as int)),
        decreases rs.len() - k,
    {
        proof {
            assert(rs.take(k + 1).drop_last() =~= rs.take(k as int));
            assert(rs.take(k + 1).last() == rs[k as int]);
        }
        let req = &col_result.request_results[k];
        let name = escape_xml(req.name.as_str());
        let ghost before = out@;
        match &req.outcome {
            RequestOutcome::Passed => {
                push_str(out, "    <testcase name=\"");
                push_str(out, name.as_str());
                push_str(out, "\"/>\n");
            },
            RequestOutcome::AssertionsFailed(fs) => {
                let msg = if fs.len() > 0 { escape_xml(format_failure(&fs[0]).as_str()) } else { String::new() };
                push_str(out, "    <testcase name=\"");
                push_str(out, name.as_str());
                push_str(out, "\">\n      <failure message=\"");
                push_str(out, msg.as_str());
                push_str(out, "\"/>\n    </testcase>\n");
            },
            RequestOutcome::Error(e) => {
                let msg = escape_xml(e.message().as_str());
                push_str(out, "    <testcase name=\"");
                push_str(out, name.as_str());
                push_str(out, "\">\n      <error message=\"");
                push_str(out, msg.as_str());
                push_str(out, "\"/>\n    </testcase>\n");
            },
            RequestOutcome::Skipped => {
                push_str(out, "    <testcase name=\"");
                push_str(out, name.as_str());
                push_str(out, "\">\n      <skipped/>\n    </testcase>\n");
            },
        }
        assert(out@ =~= before + testcase_xml(*req));
        k = k + 1;
    }
    assert(rs.take(k as int) =~= rs);
    push_str(out, "  </testsuite>\n");
    assert(out@ =~= start + testsuite_xml(suite_name@, rs));
}

/// The test suites of a data-driven run, one per iteration, named after the
/// collection and the row index.
pub open spec fn iteration_suites_xml(name: Seq<char>, its: Seq<IterationResult>) -> Seq<char>
    decreases its.len(),
{
    if its.len() == 0 {
        Seq::empty()
    } else {
        iteration_suites_xml(name, its.drop_last()) + testsuite_xml(
            name + " row "@ + decimal(its.last().row_index as nat),
            its.last().collection_result.request_results@,
        )
    }
}

/// The JUnit XML report of a run.
pub open spec fn junit_xml(r: RunResult) -> Seq<char> {
    "<?xml version=\"1.0\" encoding=\"UTF-8\"?>\n<testsuites>\n"@ + match r.outcome {
        RunOutcome::Single(c) => testsuite_xml(r.collection.name@, c.request_results@),
        RunOutcome::DataDriven(d) => iteration_suites_xml(r.collection.name@, d.iterations@),
    } + "</testsuites>\n"@
}

/// Renders the JUnit XML report of a run: one `<testsuite>` for a single
/// run, one per iteration for a data-driven run.
pub fn junit_report(result: &RunResult) -> (r: String)
    ensures
        r@ == junit_xml(*result),
{
    let mut out = owned("<?xml version=\"1.0\" encoding=\"UTF-8\"?>\n<testsuites>\n");
    let ghost head = out@;
    match &result.outcome {
        RunOutcome::Single(c) => {
            write_testsuite(&mut out, result.collection.name.as_str(), c);
        },
        RunOutcome::DataDriven(d) => {
            let ghost its = d.iterations@;
            let mut i: usize = 0;
            assert(its.take(0) =~= Seq::<IterationResult>::empty());
            assert(head + Seq::<char>::empty() =~= head);
            while i < d.iterations.len()
                invariant
                    its == d.iterations@,
                    i <= its.len(),
                    out@ == head + iteration_suites_xml(result.collection.name@, its.take(i as int)),
                decreases its.len() - i,
            {
                proof {
                    assert(its.take(i + 1).drop_last() =~= its.take(i as int));
                    assert(its.take(i + 1).last() == its[i as int]);
                }
                let mut suite = concat(result.collection.name.as_str(), " row ");
                push_str(&mut suite, usize_to_string(d.iterations[i].row_index).as_str());
                let ghost before = out@;
                write_testsuite(&mut out, suite.as_str(), &d.iterations[i].collection_result);
                assert(out@ =~= head + iteration_suites_xml(result.collection.name@, its.take(i + 1)));
                i = i + 1;
            }
            assert(its.take(i as int) =~= its);
        },
    }
    push_str(&mut out, "</testsuites>\n");
    out
}

// ─── console ─────────────────────────────────────────────────────────────────

/// `n` spaces.
pub open spec fn spaces(n: nat) -> Seq<char> {
    Seq::new(n, |i: int| ' ')
}

/// `s` padded with spaces on the right to `w` characters.
pub open spec fn pad_right(s: Seq<char>, w: nat) -> Seq<char> {
    if s.len() < w { s + spaces((w - s.len()) as nat) } else { s }
}

/// The widest method of the requests, in bytes.
pub open spec fn method_width(rs: Seq<Request>) -> nat
    decreases rs.len(),
{
    if rs.len() == 0 {
        0
    } else {
        let w = method_width(rs.drop_last());
        let m = utf8_len(rs.last().method@);
        if m > w { m } else { w }
    }
}

/// The mark of an outcome: `✓` passed, `-` skipped, `✗` otherwise.
pub open spec fn outcome_symbol(o: RequestOutcome) -> Seq<char> {
    match o {
        RequestOutcome::Passed => seq!['✓'],
        RequestOutcome::Skipped => seq!['-'],
        _ => seq!['✗'],
    }
}

/// The failure lines of a failed request.
pub open spec fn failure_lines(fs: Seq<AssertionFailure>) -> Seq<char>
    decreases fs.len(),
{
    if fs.len() == 0 {
        Seq::empty()
    } else {
        failure_lines(fs.drop_last()) + "    assertion failed: "@ + failure_message(fs.last()) + "\n"@
    }
}

/// The console lines of one request.
pub open spec fn request_lines(method: Seq<char>, name: Seq<char>, o: RequestOutcome, w: nat) -> Seq<char> {
    pad_right(method, w) + "  "@ + name + "  "@ + outcome_symbol(o) + "\n"@ + match o {
        RequestOutcome::AssertionsFailed(fs) => failure_lines(fs@),
        RequestOutcome::Error(e) => "    error: "@ + request_error_text(e) + "\n"@,
        _ => Seq::empty(),
    }
}

/// The console lines of the first `k` requests of a run, each paired with
/// the collection's request at the same position.
pub open spec fn run_lines(reqs: Seq<Request>, rs: Seq<RequestResult>, k: int, w: nat) -> Seq<char>
    decreases k,
{
    if k <= 0 {
        Seq::empty()
    } else {
        run_lines(reqs, rs, k - 1, w) + request_lines(reqs[k - 1].method@, rs[k - 1].name@, rs[k - 1].outcome, w)
    }
}

/// The number of results with outcome `Passed` (`skipped` false) or
/// `Skipped` (`skipped` true).
pub open spec fn count_state(rs: Seq<RequestResult>, skipped: bool) -> nat
    decreases rs.len(),
{
    if rs.len() == 0 {
        0
    } else {
        count_state(rs.drop_last(), skipped) + if (skipped && rs.last().outcome is Skipped) || (!skipped
            && rs.last().outcome is Passed) {
            1nat
        } else {
            0nat
        }
    }
}

/// The summary line of a single run.
pub open spec fn single_summary(rs: Seq<RequestResult>) -> Seq<char> {
    let total = rs.len();
    let passed = count_state(rs, false);
    let skipped = count_state(rs, true);
    let failed = (total - passed - skipped) as nat;
    "\n"@ + decimal(total) + " requests · "@ + decimal(passed) + " passed · "@ + decimal(failed) + " failed"@
        + (if skipped > 0 { " · "@ + decimal(skipped) + " skipped"@ } else { Seq::empty() }) + "\n"@
}

/// The `key=value` pairs of a row for the keys `ks`, joined with `, `.
pub open spec fn row_pairs(ks: Seq<Seq<char>>, row: Map<Seq<char>, Seq<char>>) -> Seq<char> {
    join_seq(ks.map_values(|k: Seq<char>| k + "="@ + row[k]), ", "@)
}

/// The heading of an iteration, given the row's keys in ascending order: the
/// row number and its first three pairs (`…` when there are more).
pub open spec fn iteration_heading(it: IterationResult, ks: Seq<Seq<char>>) -> Seq<char> {
    let shown = if ks.len() > 3 { ks.take(3) } else { ks };
    "── Row "@ + decimal(it.row_index as nat + 1) + " ("@ + row_pairs(shown, it.row@)
        + (if ks.len() > 3 { seq!['…'] } else { Seq::empty() }) + ") "@ + Seq::new(20, |i: int| '─') + "\n"@
}

/// The console text of a data-driven run's iterations, given each row's keys
/// in ascending order.
pub open spec fn iterations_text(reqs: Seq<Request>, its: Seq<IterationResult>, kss: Seq<Seq<Seq<char>>>, w: nat) -> Seq<char>
    decreases its.len(),
{
    if its.len() == 0 {
        Seq::empty()
    } else {
        let it = its.last();
        let rs = it.collection_result.request_results@;
        let n = if reqs.len() < rs.len() { reqs.len() } else { rs.len() };
        iterations_text(reqs, its.drop_last(), kss, w) + iteration_heading(it, kss[its.len() - 1])
            + run_lines(reqs, rs, n as int, w)
    }
}

/// The console report of a run, given each data row's keys in ascending
/// order.
pub open spec fn console_text(r: RunResult, kss: Seq<Seq<Seq<char>>>) -> Seq<char> {
    let reqs = r.collection.requests@;
    let w = method_width(reqs);
    match r.outcome {
        RunOutcome::Single(c) => {
            let rs = c.request_results@;
            let n = if reqs.len() < rs.len() { reqs.len() } else { rs.len() };
            run_lines(reqs, rs, n as int, w) + single_summary(rs)
        },
        RunOutcome::DataDriven(d) => iterations_text(reqs, d.iterations@, kss, w) + "\n"@
            + decimal(d.iterations@.len()) + " iterations · "@ + decimal(d.passed as nat) + " passed · "@
            + decimal(d.failed as nat) + " failed\n"@,
    }
}

fn pad_to(s: &str, w: usize) -> (r: String)
    ensures
        r@ == pad_right(s@, w as nat),
{
    let v = crate::text::chars_of(s);
    let mut out = owned(s);
    if v.len() < w {
        let mut k: usize = v.len();
        while k < w
            invariant
                v@ == s@,
                v@.len() <= k <= w,
                out@ == s@ + spaces((k - v@.len()) as nat),
            decreases w - k,
        {
            push_char(&mut out, ' ');
            k = k + 1;
            assert(out@ =~= s@ + spaces((k - v@.len()) as nat));
        }
    }
    out
}

/// Appends the console lines of one request to `out`.
pub fn print_request(out: &mut String, method: &str, name: &str, outcome: &RequestOutcome, method_width: usize)
    ensures
        final(out)@ == old(out)@ + request_lines(method@, name@, *outcome, method_width as nat),
{
    let ghost start = out@;
    let symbol = match outcome {
        RequestOutcome::Passed => "✓",
        RequestOutcome::Skipped => "-",
        _ => "✗",
    };
    proof {
        reveal_strlit("✓");
        reveal_strlit("-");
        reveal_strlit("✗");
    }
    push_str(out, pad_to(method, method_width).as_str());
    push_str(out, "  ");
    push_str(out, name);
    push_str(out, "  ");
    push_str(out, symbol);
    push_str(out, "\n");
    let ghost head = out@;
    match outcome {
        RequestOutcome::AssertionsFailed(fs) => {
            let mut i: usize = 0;
            assert(fs@.take(0) =~= Seq::<AssertionFailure>::empty());
            assert(head + Seq::<char>::empty() =~= head);
            while i < fs.len()
                invariant
                    i <= fs@.len(),
                    out@ == head + failure_lines(fs@.take(i as int)),
                decreases fs@.len() - i,
            {
                proof {
                    assert(fs@.take(i + 1).drop_last() =~= fs@.take(i as int));
                    assert(fs@.take(i + 1).last() == fs@[i as int]);
                }
                push_str(out, "    assertion failed: ");
                push_str(out, format_failure(&fs[i]).as_str());
                push_str(out, "\n");
                i = i + 1;
            }
            assert(fs@.take(i as int) =~= fs@);
        },
        RequestOutcome::Error(e) => {
            push_str(out, "    error: ");
            push_str(out, e.message().as_str());
            push_str(out, "\n");
        },
        _ => {},
    }
    assert(out@ =~= start + request_lines(method@, name@, *outcome, method_width as nat));
}

fn widest_method(reqs: &Vec<Request>) -> (r: usize)
    ensures
        r == method_width(reqs@),
{
    let ghost rs = reqs@;
    let mut w: usize = 0;
    let mut i: usize = 0;
    assert(rs.take(0) =~= Seq::<Request>::empty());
    while i < reqs.len()
        invariant
            rs == reqs@,
            i <= rs.len(),
            w == method_width(rs.take(i as int)),
        decreases rs.len() - i,
    {
        proof {
            assert(rs.take(i + 1).drop_last() =~= rs.take(i as int));
            assert(rs.take(i + 1).last() == rs[i as int]);
        }
        let m = byte_len(reqs[i].method.as_str());
        if m > w {
            w = m;
        }
        i = i + 1;
    }
    assert(rs.take(i as int) =~= rs);
    w
}

fn write_run_lines(out: &mut String, reqs: &Vec<Request>, rs: &Vec<RequestResult>, w: usize)
    ensures
        final(out)@ == old(out)@ + run_lines(reqs@, rs@, if reqs@.len() < rs@.len() { reqs@.len() as int } else { rs@.len() as int }, w as nat),
{
    let n = if reqs.len() < rs.len() { reqs.len() } else { rs.len() };
    let ghost start = out@;
    let mut k: usize = 0;
    assert(start + Seq::<char>::empty() =~= start);
    while k < n
        invariant
            k <= n,
            n <= reqs@.len(),
            n <= rs@.len(),
            out@ == start + run_lines(reqs@, rs@, k as int, w as nat),
        decreases n - k,
    {
        let ghost before = out@;
        print_request(out, reqs[k].method.as_str(), rs[k].name.as_str(), &rs[k].outcome, w);
        assert(out@ =~= start + run_lines(reqs@, rs@, k + 1, w as nat));
        k = k + 1;
    }
}

proof fn lemma_count_state_le(rs: Seq<RequestResult>)
    ensures
        count_state(rs, false) + count_state(rs, true) <= rs.len(),
    decreases rs.len(),
{
    if rs.len() > 0 {
        lemma_count_state_le(rs.drop_last());
    }
}

fn row_heading(it: &IterationResult) -> (r: (String, Ghost<Seq<Seq<char>>>))
    requires
        it.row_index < usize::MAX,
    ensures
        crate::interpolation::is_sorted_key_list(r.1@, it.row@),
        r.0@ == iteration_heading(*it, r.1@),
{
    let keys = it.row.sorted_keys();
    let ghost ks = views(keys@);
    let shown_n = if keys.len() > 3 { 3 } else { keys.len() };
    let ghost shown = if ks.len() > 3 { ks.take(3) } else { ks };
    let mut pairs: Vec<String> = Vec::new();
    let mut i: usize = 0;
    while i < shown_n
        invariant
            i <= shown_n,
            shown_n <= keys@.len(),
            ks == views(keys@),
            shown == if ks.len() > 3 { ks.take(3) } else { ks },
            shown.len() == shown_n,
            forall|k: Seq<char>| #[trigger] ks.contains(k) <==> it.row@.contains_key(k),
            views(pairs@) == shown.take(i as int).map_values(|k: Seq<char>| k + "="@ + it.row@[k]),
        decreases shown_n - i,
    {
        let key = keys[i].as_str();
        let value = match it.row.get(key) {
            Some(v) => owned(v.as_str()),
            None => String::new(),
        };
        proof {
            assert(shown[i as int] == ks[i as int]);
            assert(ks.contains(ks[i as int]));
        }
        let mut p = owned(key);
        push_str(&mut p, "=");
        push_str(&mut p, value.as_str());
        let ghost before = pairs@;
        pairs.push(p);
        proof {
            crate::text::lemma_views_push(before, p);
            assert(shown.take(i + 1).map_values(|k: Seq<char>| k + "="@ + it.row@[k]) =~= shown.take(i as int).map_values(
                |k: Seq<char>| k + "="@ + it.row@[k],
            ).push(shown[i as int] + "="@ + it.row@[shown[i as int]]));
        }
        i = i + 1;
    }
    assert(shown.take(i as int) =~= shown);
    let joined = crate::error::join_strings(&pairs, ", ");
    let mut h = owned("── Row ");
    push_str(&mut h, usize_to_string(it.row_index + 1).as_str());
    push_str(&mut h, " (");
    push_str(&mut h, joined.as_str());
    if keys.len() > 3 {
        push_str(&mut h, "…");
        proof {
            reveal_strlit("…");
        }
    }
    push_str(&mut h, ") ");
    let ghost mid = h@;
    let mut d: usize = 0;
    while d < 20
        invariant
            d <= 20,
            h@ == mid + Seq::new(d as nat, |j: int| '─'),
        decreases 20 - d,
    {
        push_char(&mut h, '─');
        d = d + 1;
        assert(h@ =~= mid + Seq::new(d as nat, |j: int| '─'));
    }
    push_str(&mut h, "\n");
    proof {
        assert(h@ =~= iteration_heading(*it, ks));
    }
    (h, Ghost(ks))
}

fn summary_text(rs: &Vec<RequestResult>) -> (r: String)
    ensures
        r@ == single_summary(rs@),
{
    let total = rs.len();
    let mut passed: usize = 0;
    let mut skipped: usize = 0;
    let mut i: usize = 0;
    assert(rs@.take(0) =~= Seq::<RequestResult>::empty());
    while i < total
        invariant
            total == rs@.len(),
            i <= total,
            passed == count_state(rs@.take(i as int), false),
            skipped == count_state(rs@.take(i as int), true),
        decreases total - i,
    {
        proof {
            assert(rs@.take(i + 1).drop_last() =~= rs@.take(i as int));
            assert(rs@.take(i + 1).last() == rs@[i as int]);
            lemma_count_state_le(rs@.take(i as int));
        }
        match rs[i].outcome {
            RequestOutcome::Passed => passed = passed + 1,
            RequestOutcome::Skipped => skipped = skipped + 1,
            _ => {},
        }
        i = i + 1;
    }
    assert(rs@.take(i as int) =~= rs@);
    proof {
        lemma_count_state_le(rs@);
    }
    let failed = total - passed - skipped;
    let mut out = owned("\n");
    push_str(&mut out, usize_to_string(total).as_str());
    push_str(&mut out, " requests · ");
    push_str(&mut out, usize_to_string(passed).as_str());
    push_str(&mut out, " passed · ");
    push_str(&mut out, usize_to_string(failed).as_str());
    push_str(&mut out, " failed");
    if skipped > 0 {
        push_str(&mut out, " · ");
        push_str(&mut out, usize_to_string(skipped).as_str());
        push_str(&mut out, " skipped");
    }
    push_str(&mut out, "\n");
    out
}

fn iterations_report(reqs: &Vec<Request>, d: &DataRunResult, w: usize) -> (r: (String, Ghost<Seq<Seq<Seq<char>>>>))
    requires
        forall|i: int| 0 <= i < d.iterations@.len() ==> #[trigger] d.iterations@[i].row_index < usize::MAX,
    ensures
        r.1@.len() == d.iterations@.len(),
        forall|i: int| 0 <= i < r.1@.len() ==> #[trigger] crate::interpolation::is_sorted_key_list(r.1@[i], d.iterations@[i].row@),
        r.0@ == iterations_text(reqs@, d.iterations@, r.1@, w as nat),
{
    let ghost its = d.iterations@;
    let ghost mut kss: Seq<Seq<Seq<char>>> = Seq::empty();
    let mut out = String::new();
    let mut i: usize = 0;
    assert(its.take(0) =~= Seq::<IterationResult>::empty());
    while i < d.iterations.len()
        invariant
            its == d.iterations@,
            i <= its.len(),
            kss.len() == i,
            forall|j: int| 0 <= j < its.len() ==> #[trigger] its[j].row_index < usize::MAX,
            forall|j: int| 0 <= j < i ==> #[trigger] crate::interpolation::is_sorted_key_list(kss[j], its[j].row@),
            out@ == iterations_text(reqs@, its.take(i as int), kss, w as nat),
        decreases its.len() - i,
    {
        proof {
            assert(its.take(i + 1).drop_last() =~= its.take(i as int));
            assert(its.take(i + 1).last() == its[i as int]);
        }
        let (heading, Ghost(ks)) = row_heading(&d.iterations[i]);
        push_str(&mut out, heading.as_str());
        write_run_lines(&mut out, reqs, &d.iterations[i].collection_result.request_results, w);
        proof {
            let nk = kss.push(ks);
            assert forall|j: int| 0 <= j < i + 1 implies #[trigger] crate::interpolation::is_sorted_key_list(nk[j], its[j].row@) by {
                if j < i {
                    assert(nk[j] == kss[j]);
                }
            }
            lemma_iterations_text_ext(reqs@, its.take(i as int), kss, nk, w as nat);
            kss = nk;
        }
        i = i + 1;
    }
    assert(its.take(i as int) =~= its);
    (out, Ghost(kss))
}

/// Renders the console report of a run: one line per request (method padded
/// to the widest, name, mark), failure and error details below it, and a
/// summary; a data-driven run shows each iteration under a heading with its
/// row.
pub fn console_report(result: &RunResult) -> (r: String)
    requires
        result.outcome matches RunOutcome::DataDriven(d) ==> forall|i: int| 0 <= i < d.iterations@.len()
            ==> #[trigger] d.iterations@[i].row_index < usize::MAX,
    ensures
        exists|kss: Seq<Seq<Seq<char>>>|
            #![trigger console_text(*result, kss)]
            (result.outcome matches RunOutcome::DataDriven(d) ==> kss.len() == d.iterations@.len()
                && forall|i: int| 0 <= i < kss.len() ==> #[trigger] crate::interpolation::is_sorted_key_list(kss[i], d.iterations@[i].row@))
            && r@ == console_text(*result, kss),
{
    let reqs = &result.collection.requests;
    let w = widest_method(reqs);
    let mut out = String::new();
    match &result.outcome {
        RunOutcome::Single(c) => {
            write_run_lines(&mut out, reqs, &c.request_results, w);
            let summary = summary_text(&c.request_results);
            push_str(&mut out, summary.as_str());
            let ghost kss: Seq<Seq<Seq<char>>> = Seq::empty();
            assert(out@ =~= console_text(*result, kss));
            out
        },
        RunOutcome::DataDriven(d) => {
            let (body, Ghost(kss)) = iterations_report(reqs, d, w);
            push_str(&mut out, body.as_str());
            push_str(&mut out, "\n");
            push_str(&mut out, usize_to_string(d.iterations.len()).as_str());
            push_str(&mut out, " iterations · ");
            push_str(&mut out, usize_to_string(d.passed).as_str());
            push_str(&mut out, " passed · ");
            push_str(&mut out, usize_to_string(d.failed).as_str());
            push_str(&mut out, " failed\n");
            assert(out@ =~= console_text(*result, kss));
            out
        },
    }
}

proof fn lemma_iterations_text_ext(reqs: Seq<Request>, its: Seq<IterationResult>, a: Seq<Seq<Seq<char>>>, b: Seq<Seq<Seq<char>>>, w: nat)
    requires
        its.len() <= a.len(),
        its.len() <= b.len(),
        forall|j: int| 0 <= j < its.len() ==> a[j] == b[j],
    ensures
        iterations_text(reqs, its, a, w) == iterations_text(reqs, its, b, w),
    decreases its.len(),
{
    if its.len() > 0 {
        lemma_iterations_text_ext(reqs, its.drop_last(), a, b, w);
    }
}

// ─── JSON ────────────────────────────────────────────────────────────────────

/// `true` or `false`.
pub open spec fn bool_json(b: bool) -> Seq<char> {
    if b {
        "true"@
    } else {
        "false"@
    }
}

/// A request's status as JSON: the response status, or `null` without a
/// response.
pub open spec fn status_json(r: RequestResult) -> Seq<char> {
    match r.response {
        Some(resp) => decimal(resp.status as nat),
        None => "null"@,
    }
}

/// The JSON text of one failed assertion.
pub open spec fn failure_json_text(f: AssertionFailure) -> Seq<char> {
    json_object_text(seq![("passed"@, "false"@), ("message"@, json_string_text(failure_message(f)))])
}

/// The members of a request's JSON object, per outcome: its name, whether it
/// passed, its status, an error message or a skipped flag where they apply,
/// and its failed assertions.
pub open spec fn request_members(r: RequestResult) -> Seq<(Seq<char>, Seq<char>)> {
    let name = ("name"@, json_string_text(r.name@));
    let status = ("status"@, status_json(r));
    let none = ("assertions"@, json_array_text(Seq::empty()));
    match r.outcome {
        RequestOutcome::Passed => seq![name, ("passed"@, "true"@), status, none],
        RequestOutcome::AssertionsFailed(fs) => seq![
            name,
            ("passed"@, "false"@),
            status,
            ("assertions"@, json_array_text(fs@.map_values(|f: AssertionFailure| failure_json_text(f)))),
        ],
        RequestOutcome::Error(e) => seq![
            name,
            ("passed"@, "false"@),
            status,
            ("error"@, json_string_text(request_error_text(e))),
            none,
        ],
        RequestOutcome::Skipped => seq![name, ("passed"@, "false"@), ("skipped"@, "true"@), status, none],
    }
}

/// The JSON text of a request's result.
pub open spec fn request_json_text(r: RequestResult) -> Seq<char> {
    json_object_text(request_members(r))
}

/// The JSON texts of a list of request results.
pub open spec fn requests_json_texts(rs: Seq<RequestResult>) -> Seq<Seq<char>> {
    rs.map_values(|r: RequestResult| request_json_text(r))
}

/// The members of a data row's JSON object: each key with its value as a
/// JSON string.
pub open spec fn row_members(row: StrMap) -> Seq<(Seq<char>, Seq<char>)> {
    row.key_seq().map_values(|k: Seq<char>| (k, json_string_text(row@[k])))
}

/// The JSON text of one iteration of a data-driven run.
pub open spec fn iteration_json_text(it: IterationResult) -> Seq<char> {
    json_object_text(
        seq![
            ("row_index"@, decimal(it.row_index as nat)),
            ("row"@, json_object_text(row_members(it.row))),
            ("passed"@, bool_json(all_passed(it.collection_result.request_results@))),
            ("requests"@, json_array_text(requests_json_texts(it.collection_result.request_results@))),
        ],
    )
}

/// The JSON report of a run: for a single run the passed count (results that
/// are `Passed`), the failed count (all others) and the requests; for a
/// data-driven run its passed and failed counts and its iterations.
pub open spec fn json_report_text(result: RunResult) -> Seq<char> {
    match result.outcome {
        RunOutcome::Single(c) => {
            let rs = c.request_results@;
            let p = count_state(rs, false);
            json_object_text(
                seq![
                    ("passed"@, decimal(p)),
                    ("failed"@, decimal((rs.len() - p) as nat)),
                    ("requests"@, json_array_text(requests_json_texts(rs))),
                ],
            )
        },
        RunOutcome::DataDriven(d) => json_object_text(
            seq![
                ("passed"@, decimal(d.passed as nat)),
                ("failed"@, decimal(d.failed as nat)),
                ("iterations"@, json_array_text(d.iterations@.map_values(|it: IterationResult| iteration_json_text(it)))),
            ],
        ),
    }
}

fn failure_json(f: &AssertionFailure) -> (d: JsonDoc)
    ensures
        d@ == failure_json_text(*f),
{
    let mut ms: Vec<(String, JsonDoc)> = Vec::new();
    ms.push((owned("passed"), json_bool_value(false)));
    ms.push((owned("message"), json_string_value(format_failure(f))));
    assert(member_views(ms@) =~= seq![("passed"@, "false"@), ("message"@, json_string_text(failure_message(*f)))]);
    json_object_value(ms)
}

fn empty_array() -> (d: JsonDoc)
    ensures
        d@ == json_array_text(Seq::empty()),
{
    let v: Vec<JsonDoc> = Vec::new();
    assert(doc_views(v@) =~= Seq::<Seq<char>>::empty());
    json_array_value(v)
}

/// The JSON object of one request's result, as the JSON report writes it.
pub fn request_json(r: &RequestResult) -> (d: JsonDoc)
    ensures
        d@ == json_object_text(request_members(*r)),
{
    let status = match &r.response {
        Some(resp) => json_number_value(resp.status as u64),
        None => json_null_value(),
    };
    let mut ms: Vec<(String, JsonDoc)> = Vec::new();
    ms.push((owned("name"), json_string_value(owned(r.name.as_str()))));
    match &r.outcome {
        RequestOutcome::Passed => {
            ms.push((owned("passed"), json_bool_value(true)));
            ms.push((owned("status"), status));
            ms.push((owned("assertions"), empty_array()));
        },
        RequestOutcome::AssertionsFailed(fs) => {
            ms.push((owned("passed"), json_bool_value(false)));
            ms.push((owned("status"), status));
            let ghost ft = fs@.map_values(|f: AssertionFailure| failure_json_text(f));
            let mut items: Vec<JsonDoc> = Vec::new();
            let mut i: usize = 0;
            while i < fs.len()
                invariant
                    i <= fs@.len(),
                    ft == fs@.map_values(|f: AssertionFailure| failure_json_text(f)),
                    doc_views(items@) == ft.take(i as int),
                decreases fs.len() - i,
            {
                let ghost before = items@;
                let x = failure_json(&fs[i]);
                let ghost xv = x@;
                items.push(x);
                assert(doc_views(items@) =~= doc_views(before).push(xv));
                assert(ft.take(i + 1) =~= ft.take(i as int).push(ft[i as int]));
                i = i + 1;
            }
            assert(ft.take(i as int) =~= ft);
            ms.push((owned("assertions"), json_array_value(items)));
        },
        RequestOutcome::Error(e) => {
            ms.push((owned("passed"), json_bool_value(false)));
            ms.push((owned("status"), status));
            ms.push((owned("error"), json_string_value(e.message())));
            ms.push((owned("assertions"), empty_array()));
        },
        RequestOutcome::Skipped => {
            ms.push((owned("passed"), json_bool_value(false)));
            ms.push((owned("skipped"), json_bool_value(true)));
            ms.push((owned("status"), status));
            ms.push((owned("assertions"), empty_array()));
        },
    }
    assert(member_views(ms@) =~= request_members(*r));
    json_object_value(ms)
}

fn requests_json(rs: &Vec<RequestResult>) -> (d: JsonDoc)
    ensures
        d@ == json_array_text(requests_json_texts(rs@)),
{
    let ghost rt = requests_json_texts(rs@);
    let mut items: Vec<JsonDoc> = Vec::new();
    let mut i: usize = 0;
    while i < rs.len()
        invariant
            i <= rs@.len(),
            rt == requests_json_texts(rs@),
            doc_views(items@) == rt.take(i as int),
        decreases rs.len() - i,
    {
        let ghost before = items@;
        let x = request_json(&rs[i]);
        let ghost xv = x@;
        items.push(x);
        assert(doc_views(items@) =~= doc_views(before).push(xv));
        assert(rt.take(i + 1) =~= rt.take(i as int).push(rt[i as int]));
        i = i + 1;
    }
    assert(rt.take(i as int) =~= rt);
    json_array_value(items)
}

fn passed_count(rs: &Vec<RequestResult>) -> (n: usize)
    ensures
        n == count_state(rs@, false),
        n <= rs@.len(),
{
    let mut n: usize = 0;
    let mut i: usize = 0;
    while i < rs.len()
        invariant
            i <= rs@.len(),
            n == count_state(rs@.take(i as int), false),
            n <= i,
        decreases rs.len() - i,
    {
        assert(rs@.take(i + 1).drop_last() =~= rs@.take(i as int));
        if matches!(rs[i].outcome, RequestOutcome::Passed) {
            n = n + 1;
        }
        i = i + 1;
    }
    assert(rs@.take(i as int) =~= rs@);
    n
}

fn row_json(row: &StrMap) -> (d: JsonDoc)
    ensures
        d@ == json_object_text(row_members(*row)),
{
    proof {
        use_type_invariant(row);
        row.lemma_keys();
    }
    let ghost rm = row_members(*row);
    let mut ms: Vec<(String, JsonDoc)> = Vec::new();
    let mut i: usize = 0;
    let n = row.len();
    while i < n
        invariant
            i <= n,
            n == row.spec_len(),
            row.key_seq().len() == n,
            rm == row_members(*row),
            member_views(ms@) == rm.take(i as int),
        decreases n - i,
    {
        let (k, v) = row.entry_at(i);
        let ghost before = ms@;
        let x = (owned(k.as_str()), json_string_value(owned(v.as_str())));
        let ghost xv = (x.0@, x.1@);
        ms.push(x);
        assert(member_views(ms@) =~= member_views(before).push(xv));
        assert(rm.take(i + 1) =~= rm.take(i as int).push(rm[i as int]));
        i = i + 1;
    }
    assert(rm.take(i as int) =~= rm);
    json_object_value(ms)
}

fn iteration_json(it: &IterationResult) -> (d: JsonDoc)
    ensures
        d@ == iteration_json_text(*it),
{
    let rs = &it.collection_result.request_results;
    let mut ms: Vec<(String, JsonDoc)> = Vec::new();
    ms.push((owned("row_index"), json_number_value(it.row_index as u64)));
    ms.push((owned("row"), row_json(&it.row)));
    ms.push((owned("passed"), json_bool_value(it.collection_result.passed())));
    ms.push((owned("requests"), requests_json(rs)));
    assert(member_views(ms@) =~= seq![
        ("row_index"@, decimal(it.row_index as nat)),
        ("row"@, json_object_text(row_members(it.row))),
        ("passed"@, bool_json(all_passed(it.collection_result.request_results@))),
        ("requests"@, json_array_text(requests_json_texts(it.collection_result.request_results@))),
    ]);
    json_object_value(ms)
}

/// The JSON report of a run, in compact JSON.
pub fn json_report(result: &RunResult) -> (r: String)
    ensures
        r@ == json_report_text(*result),
{
    let mut ms: Vec<(String, JsonDoc)> = Vec::new();
    match &result.outcome {
        RunOutcome::Single(c) => {
            let rs = &c.request_results;
            let p = passed_count(rs);
            ms.push((owned("passed"), json_number_value(p as u64)));
            ms.push((owned("failed"), json_number_value((rs.len() - p) as u64)));
            ms.push((owned("requests"), requests_json(rs)));
            assert(member_views(ms@) =~= seq![
                ("passed"@, decimal(count_state(rs@, false))),
                ("failed"@, decimal((rs@.len() - count_state(rs@, false)) as nat)),
                ("requests"@, json_array_text(requests_json_texts(rs@))),
            ]);
        },
        RunOutcome::DataDriven(d) => {
            let ghost it = d.iterations@.map_values(|x: IterationResult| iteration_json_text(x));
            let mut items: Vec<JsonDoc> = Vec::new();
            let mut i: usize = 0;
            while i < d.iterations.len()
                invariant
                    i <= d.iterations@.len(),
                    it == d.iterations@.map_values(|x: IterationResult| iteration_json_text(x)),
                    doc_views(items@) == it.take(i as int),
                decreases d.iterations.len() - i,
            {
                let ghost before = items@;
                let x = iteration_json(&d.iterations[i]);
                let ghost xv = x@;
                items.push(x);
                assert(doc_views(items@) =~= doc_views(before).push(xv));
                assert(it.take(i + 1) =~= it.take(i as int).push(it[i as int]));
                i = i + 1;
            }
            assert(it.take(i as int) =~= it);
            ms.push((owned("passed"), json_number_value(d.passed as u64)));
            ms.push((owned("failed"), json_number_value(d.failed as u64)));
            ms.push((owned("iterations"), json_array_value(items)));
            assert(member_views(ms@) =~= seq![
                ("passed"@, decimal(d.passed as nat)),
                ("failed"@, decimal(d.failed as nat)),
                ("iterations"@, json_array_text(it)),
            ]);
        },
    }
    let doc = json_object_value(ms);
    owned(doc.text())
}

// ─── laws of the reports ─────────────────────────────────────────────────────

/// Every result of a run is counted once: as passed, as failed (assertions
/// failed or an error) or as skipped.
pub proof fn law_outcome_counts(rs: Seq<RequestResult>)
    ensures
        count_state(rs, false) + crate::runner::count_outcomes(rs, true) + crate::runner::count_outcomes(rs, false)
            == rs.len(),
        count_state(rs, true) == crate::runner::count_outcomes(rs, false),
    decreases rs.len(),
{
    if rs.len() > 0 {
        law_outcome_counts(rs.drop_last());
    }
}

/// The console report of a single run ends with its summary line: the number
/// of requests, how many passed, how many failed, and how many were skipped
/// when any were.
pub proof fn law_console_summary(r: RunResult, kss: Seq<Seq<Seq<char>>>)
    requires
        r.outcome is Single,
    ensures
        ({
            let rs = r.outcome->Single_0.request_results@;
            let reqs = r.collection.requests@;
            let n = if reqs.len() < rs.len() { reqs.len() } else { rs.len() };
            let passed = count_state(rs, false);
            let failed = crate::runner::count_outcomes(rs, true);
            let skipped = crate::runner::count_outcomes(rs, false);
            console_text(r, kss) == run_lines(reqs, rs, n as int, method_width(reqs)) + "\n"@ + decimal(rs.len())
                + " requests · "@ + decimal(passed) + " passed · "@ + decimal(failed) + " failed"@ + (if skipped > 0 {
                " · "@ + decimal(skipped) + " skipped"@
            } else {
                Seq::empty()
            }) + "\n"@
        }),
{
    let rs = r.outcome->Single_0.request_results@;
    law_outcome_counts(rs);
    assert((rs.len() - count_state(rs, false) - count_state(rs, true)) as nat == crate::runner::count_outcomes(rs, true));
}

} // verus!
