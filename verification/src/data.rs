//! Data-driven runs: data files parsed into rows, and the results of running
//! a collection once per row.

use vstd::prelude::*;
use crate::json::{JsonKind, JsonShape, comparable_text, json_comparable, json_kind, json_parse_result, json_shape, parse_json_value};
use crate::runner::{CollectionResult, RunnerOpts};
use crate::strmap::StrMap;
use crate::text::{concat, decimal, owned, push_str, usize_to_string, views};

verus! {

/// One data row: column name to value.
pub type DataRow = StrMap;

/// Options of a data-driven run.
#[derive(Clone, Copy)]
pub struct DataRunOpts {
    /// Number of iterations run at once; must be at least 1.
    pub concurrency: usize,
    /// Once an iteration fails, no further iterations are started.
    pub fail_fast: bool,
    /// Pause before each iteration after the first, in milliseconds.
    pub delay_between_iterations_ms: u64,
    /// Options of each collection run.
    pub runner_opts: RunnerOpts,
}

impl Default for DataRunOpts {
    fn default() -> (r: Self)
        ensures
            r.concurrency == 1,
            !r.fail_fast,
            r.delay_between_iterations_ms == 0,
            r.runner_opts.script_timeout_ms == 30000,
            !r.runner_opts.isolate_script_variables,
            !r.runner_opts.continue_on_script_error,
            r.runner_opts.delay_between_requests_ms == 0,
    {
        DataRunOpts {
            concurrency: 1,
            fail_fast: false,
            delay_between_iterations_ms: 0,
            runner_opts: RunnerOpts::default(),
        }
    }
}

/// The result of one iteration: one data row through the collection.
pub struct IterationResult {
    /// Zero-based index of the row in the input.
    pub row_index: usize,
    /// The row.
    pub row: DataRow,
    /// The collection run.
    pub collection_result: CollectionResult,
}

/// The results of all iterations of a data-driven run.
pub struct DataRunResult {
    /// The iterations, in row order.
    pub iterations: Vec<IterationResult>,
    /// Iterations whose collection run passed.
    pub passed: usize,
    /// Iterations whose collection run did not pass.
    pub failed: usize,
}

/// Errors of data parsing and data-driven runs.
#[derive(Debug)]
pub enum DataError {
    /// The concurrency option was 0.
    InvalidConcurrency,
    /// The CSV content could not be parsed; the parser's message.
    CsvParse(String),
    /// The JSON content could not be parsed; the parser's message.
    JsonParse(String),
    /// The JSON document is not an array.
    JsonNotArray,
    /// The JSON array element at `index` is not an object.
    JsonRowNotObject { index: usize },
    /// An iteration task panicked.
    TaskPanic(String),
    /// An internal failure.
    Internal(String),
}

/// The message of a [`DataError`].
pub open spec fn data_error_text(e: DataError) -> Seq<char> {
    match e {
        DataError::InvalidConcurrency => "concurrency must be at least 1"@,
        DataError::CsvParse(m) => "CSV parse error: "@ + m@,
        DataError::JsonParse(m) => "JSON parse error: "@ + m@,
        DataError::JsonNotArray => "JSON data file must be a top-level array"@,
        DataError::JsonRowNotObject { index } => "JSON row "@ + decimal(index as nat) + " is not an object"@,
        DataError::TaskPanic(m) => "iteration task panicked: "@ + m@,
        DataError::Internal(m) => "internal error: "@ + m@,
    }
}

impl DataError {
    /// The human-readable message (the error's display text).
    pub fn message(&self) -> (r: String)
        ensures
            r@ == data_error_text(*self),
    {
        match self {
            DataError::InvalidConcurrency => owned("concurrency must be at least 1"),
            DataError::CsvParse(m) => concat("CSV parse error: ", m.as_str()),
            DataError::JsonParse(m) => concat("JSON parse error: ", m.as_str()),
            DataError::JsonNotArray => owned("JSON data file must be a top-level array"),
            DataError::JsonRowNotObject { index } => {
                let mut s = owned("JSON row ");
                push_str(&mut s, usize_to_string(*index).as_str());
                push_str(&mut s, " is not an object");
                s
            },
            DataError::TaskPanic(m) => concat("iteration task panicked: ", m.as_str()),
            DataError::Internal(m) => concat("internal error: ", m.as_str()),
        }
    }
}

// ─── CSV ─────────────────────────────────────────────────────────────────────

/// What the `csv` crate reads from `content` with a strict (non-flexible)
/// reader: the header record and the data records, each as its fields, or
/// the `Display` text of its error.
pub uninterp spec fn csv_table(content: Seq<char>) -> Result<(Seq<Seq<char>>, Seq<Seq<Seq<char>>>), Seq<char>>;

/// The character sequences of a list of records.
pub open spec fn record_views(rs: Seq<Vec<String>>) -> Seq<Seq<Seq<char>>> {
    rs.map_values(|r: Vec<String>| views(r@))
}

/// Wraps a strict `csv::Reader` over `content` (`ReaderBuilder::new()`,
/// `flexible(false)`, `from_reader`), reading its `headers()` and then its
/// `records()`; the first error ends the read and is returned as its
/// `Display` text. The outcome is a function of `content` alone (named by
/// [`csv_table`]); the CSV grammar is the crate's.
#[verifier::external_body]
fn read_csv(content: &str) -> (r: Result<(Vec<String>, Vec<Vec<String>>), String>)
    ensures
        match (r, csv_table(content@)) {
            (Ok((h, rs)), Ok((th, trs))) => views(h@) == th && record_views(rs@) == trs,
            (Err(m), Err(t)) => m@ == t,
            _ => false,
        },
{
    let mut reader = csv::ReaderBuilder::new().flexible(false).from_reader(content.as_bytes());
    let headers: Vec<String> = match reader.headers() {
        Ok(h) => h.iter().map(|x| x.to_string()).collect(),
        Err(e) => return Err(e.to_string()),
    };
    let mut rows: Vec<Vec<String>> = Vec::new();
    for record in reader.records() {
        match record {
            Ok(r) => rows.push(r.iter().map(|x| x.to_string()).collect()),
            Err(e) => return Err(e.to_string()),
        }
    }
    Ok((headers, rows))
}

/// The row a record makes under `headers`: each header paired with the field
/// at its position, as far as both go; a repeated header takes its last
/// field.
pub open spec fn zip_row(headers: Seq<Seq<char>>, fields: Seq<Seq<char>>) -> Map<Seq<char>, Seq<char>>
    decreases headers.len(),
{
    if headers.len() == 0 {
        Map::empty()
    } else if headers.len() > fields.len() {
        zip_row(headers.drop_last(), fields)
    } else {
        zip_row(headers.drop_last(), fields).insert(headers.last(), fields[headers.len() - 1])
    }
}

/// Every column of a CSV record is in its row: under distinct headers, a
/// record with a field for each header gives a row mapping each header to
/// the field at its position (empty fields included), and nothing else.
pub proof fn law_zip_row_keeps_every_column(hs: Seq<Seq<char>>, fs: Seq<Seq<char>>, j: int)
    requires
        forall|a: int, b: int| 0 <= a < b < hs.len() ==> hs[a] != hs[b],
        hs.len() <= fs.len(),
        0 <= j < hs.len(),
    ensures
        zip_row(hs, fs).contains_key(hs[j]),
        zip_row(hs, fs)[hs[j]] == fs[j],
        forall|k: Seq<char>| #[trigger] zip_row(hs, fs).contains_key(k) ==> hs.contains(k),
    decreases hs.len(),
{
    lemma_zip_row_keys(hs, fs);
    if j < hs.len() - 1 {
        law_zip_row_keeps_every_column(hs.drop_last(), fs, j);
        assert(hs.drop_last()[j] == hs[j]);
        assert(hs[j] != hs.last());
    }
}

proof fn lemma_zip_row_keys(hs: Seq<Seq<char>>, fs: Seq<Seq<char>>)
    ensures
        forall|k: Seq<char>| #[trigger] zip_row(hs, fs).contains_key(k) ==> hs.contains(k),
    decreases hs.len(),
{
    if hs.len() > 0 {
        lemma_zip_row_keys(hs.drop_last(), fs);
        assert forall|k: Seq<char>| #[trigger] zip_row(hs, fs).contains_key(k) implies hs.contains(k) by {
            if k != hs.last() {
                assert(zip_row(hs.drop_last(), fs).contains_key(k));
                let i = choose|i: int| 0 <= i < hs.drop_last().len() && hs.drop_last()[i] == k;
                assert(hs[i] == k);
            } else {
                assert(hs[hs.len() - 1] == k);
            }
        }
    }
}

fn zip_record(headers: &Vec<String>, fields: &Vec<String>) -> (r: StrMap)
    ensures
        r@ == zip_row(views(headers@), views(fields@)),
{
    let ghost hs = views(headers@);
    let ghost fs = views(fields@);
    let mut row = StrMap::new();
    let mut i: usize = 0;
    assert(hs.take(0) =~= Seq::<Seq<char>>::empty());
    while i < headers.len()
        invariant
            i <= headers.len(),
            hs == views(headers@),
            fs == views(fields@),
            row@ == zip_row(hs.take(i as int), fs),
        decreases headers.len() - i,
    {
        proof {
            assert(hs.take(i + 1).drop_last() =~= hs.take(i as int));
            assert(hs.take(i + 1).last() == headers@[i as int]@);
        }
        if i < fields.len() {
            row.insert(owned(headers[i].as_str()), owned(fields[i].as_str()));
        }
        i = i + 1;
    }
    assert(hs.take(i as int) =~= hs);
    row
}

/// Parses CSV content into rows: the first record names the columns, every
/// later record is a row; all values are strings.
pub fn parse_csv(content: &str) -> (r: Result<Vec<DataRow>, DataError>)
    ensures
        match (r, csv_table(content@)) {
            (Ok(rows), Ok((hs, recs))) => rows@.len() == recs.len() && (forall|i: int|
                0 <= i < recs.len() ==> #[trigger] rows@[i]@ == zip_row(hs, recs[i])) && ((forall|a: int, b: int|
                0 <= a < b < hs.len() ==> hs[a] != hs[b]) ==> forall|i: int, j: int|
                0 <= i < recs.len() && 0 <= j < hs.len() && hs.len() <= recs[i].len() ==> #[trigger] rows@[i]@.contains_key(
                hs[j],
            ) && rows@[i]@[hs[j]] == recs[i][j]),
            (Err(DataError::CsvParse(m)), Err(t)) => m@ == t,
            _ => false,
        },
{
    match read_csv(content) {
        Err(m) => Err(DataError::CsvParse(m)),
        Ok((headers, records)) => {
            let ghost recs = record_views(records@);
            let mut rows: Vec<DataRow> = Vec::new();
            let mut i: usize = 0;
            while i < records.len()
                invariant
                    i <= records.len(),
                    recs == record_views(records@),
                    rows@.len() == i,
                    forall|j: int| 0 <= j < i ==> #[trigger] rows@[j]@ == zip_row(views(headers@), recs[j]),
                decreases records.len() - i,
            {
                let row = zip_record(&headers, &records[i]);
                rows.push(row);
                i = i + 1;
            }
            proof {
                let hs = views(headers@);
                if forall|a: int, b: int| 0 <= a < b < hs.len() ==> hs[a] != hs[b] {
                    assert forall|i: int, j: int|
                        0 <= i < recs.len() && 0 <= j < hs.len() && hs.len() <= recs[i].len() implies #[trigger] rows@[i]@.contains_key(
                        hs[j],
                    ) && rows@[i]@[hs[j]] == recs[i][j] by {
                        law_zip_row_keeps_every_column(hs, recs[i], j);
                    }
                }
            }
            Ok(rows)
        },
    }
}

// ─── JSON ────────────────────────────────────────────────────────────────────

/// A parsed JSON data document, as far as the row reader looks at it.
pub enum JsonRowsDoc {
    /// The document is not an array.
    NotArray,
    /// The array's elements: an object as its members (key and comparison
    /// text of the value, in member order), anything else as `None`.
    Elements(Vec<Option<Vec<(String, String)>>>),
}

/// The first element index that is not an object, if any.
pub open spec fn first_non_object(es: Seq<Option<Vec<(String, String)>>>) -> Option<int>
    decreases es.len(),
{
    if es.len() == 0 {
        None
    } else {
        match first_non_object(es.drop_last()) {
            Some(i) => Some(i),
            None => if es.last() is None { Some(es.len() - 1) } else { None },
        }
    }
}

/// The row an object makes: its members, a repeated key taking its last
/// value.
pub open spec fn members_row(ms: Seq<(String, String)>) -> Map<Seq<char>, Seq<char>>
    decreases ms.len(),
{
    if ms.len() == 0 {
        Map::empty()
    } else {
        members_row(ms.drop_last()).insert(ms.last().0@, ms.last().1@)
    }
}

/// What reading rows from a JSON data document gives: it must be an array of
/// objects (the first other element is reported); each object's members
/// become the row's columns.
pub open spec fn json_rows_rel(doc: JsonRowsDoc, r: Result<Vec<DataRow>, DataError>) -> bool {
    match doc {
        JsonRowsDoc::NotArray => r matches Err(DataError::JsonNotArray),
        JsonRowsDoc::Elements(es) => match first_non_object(es@) {
            Some(i) => r matches Err(DataError::JsonRowNotObject { index }) && index == i,
            None => r matches Ok(rows) && rows@.len() == es@.len()
                && (forall|i: int| 0 <= i < es@.len() ==> #[trigger] es@[i] is Some)
                && (forall|i: int| 0 <= i < es@.len() ==> #[trigger] rows@[i]@ == members_row(es@[i]->0@)),
        },
    }
}

/// Builds the rows of a JSON data document.
pub fn rows_from_json(doc: &JsonRowsDoc) -> (r: Result<Vec<DataRow>, DataError>)
    ensures
        json_rows_rel(*doc, r),
{
    match doc {
        JsonRowsDoc::NotArray => {
            let r = Err(DataError::JsonNotArray);
            r
        },
        JsonRowsDoc::Elements(es) => {
            let ghost s = es@;
            let mut rows: Vec<DataRow> = Vec::new();
            let mut i: usize = 0;
            assert(s.take(0) =~= Seq::<Option<Vec<(String, String)>>>::empty());
            while i < es.len()
                invariant
                    i <= es.len(),
                    s == es@,
                    *doc == JsonRowsDoc::Elements(*es),
                    first_non_object(s.take(i as int)) is None,
                    rows@.len() == i,
                    forall|j: int| 0 <= j < i ==> #[trigger] s[j] is Some,
                    forall|j: int| 0 <= j < i ==> #[trigger] rows@[j]@ == members_row(s[j]->0@),
                decreases es.len() - i,
            {
                proof {
                    assert(s.take(i + 1).drop_last() =~= s.take(i as int));
                    assert(s.take(i + 1).last() == s[i as int]);
                }
                match &es[i] {
                    None => {
                        proof {
                            lemma_first_non_object_prefix(s, i + 1);
                        }
                        return Err(DataError::JsonRowNotObject { index: i });
                    },
                    Some(ms) => {
                        let mut row = StrMap::new();
                        let mut k: usize = 0;
                        assert(ms@.take(0) =~= Seq::<(String, String)>::empty());
                        while k < ms.len()
                            invariant
                                k <= ms@.len(),
                                row@ == members_row(ms@.take(k as int)),
                            decreases ms@.len() - k,
                        {
                            proof {
                                assert(ms@.take(k + 1).drop_last() =~= ms@.take(k as int));
                                assert(ms@.take(k + 1).last() == ms@[k as int]);
                            }
                            row.insert(owned(ms[k].0.as_str()), owned(ms[k].1.as_str()));
                            k = k + 1;
                        }
                        assert(ms@.take(k as int) =~= ms@);
                        let ghost before = rows@;
                        rows.push(row);
                        proof {
                            assert(s[i as int] is Some);
                            assert forall|j: int| 0 <= j < i + 1 implies #[trigger] rows@[j]@ == members_row(s[j]->0@) by {
                                if j < i {
                                    assert(rows@[j] == before[j]);
                                    assert(rows@[j]@ == before[j]@);
                                } else {
                                    assert(rows@[j] == row);
                                    assert(s[j] == Some(*ms));
                                }
                            }
                        }
                    },
                }
                i = i + 1;
            }
            assert(s.take(i as int) =~= s);
            Ok(rows)
        },
    }
}

proof fn lemma_first_non_object_prefix(s: Seq<Option<Vec<(String, String)>>>, k: int)
    requires
        0 <= k <= s.len(),
        first_non_object(s.take(k)) is Some,
    ensures
        first_non_object(s) == first_non_object(s.take(k)),
    decreases s.len() - k,
{
    if k < s.len() {
        assert(s.take(k + 1).drop_last() =~= s.take(k));
        lemma_first_non_object_prefix(s, k + 1);
    } else {
        assert(s.take(k) =~= s);
    }
}

/// `e` is the row reader's view of the array element whose compact text is
/// `t`: an object's members (key and comparison text of the value, in member
/// order), anything else `None`.
pub open spec fn element_fits(e: Option<Vec<(String, String)>>, t: Seq<char>) -> bool {
    match json_kind(t) {
        JsonKind::Object(ms) => e is Some && e->0@.len() == ms.len()
            && forall|k: int| 0 <= k < ms.len() ==> (#[trigger] e->0@[k]).0@ == ms[k].0
                && e->0@[k].1@ == comparable_text(ms[k].1),
        _ => e is None,
    }
}

/// `doc` is the row reader's view of the JSON value whose compact text is `t`.
pub open spec fn rows_doc_fits(doc: JsonRowsDoc, t: Seq<char>) -> bool {
    match json_kind(t) {
        JsonKind::Array(items) => doc matches JsonRowsDoc::Elements(es) && es@.len() == items.len()
            && forall|i: int| 0 <= i < es@.len() ==> element_fits(#[trigger] es@[i], items[i]),
        _ => doc is NotArray,
    }
}

/// Parses JSON content into rows: the document must be an array of objects;
/// a string value is used as is, any other value as its JSON text.
pub fn parse_json(content: &str) -> (r: Result<Vec<DataRow>, DataError>)
    ensures
        match json_parse_result(content@) {
            Err(t) => r matches Err(DataError::JsonParse(m)) && m@ == t,
            Ok(t) => exists|doc: JsonRowsDoc| rows_doc_fits(doc, t) && json_rows_rel(doc, r),
        },
{
    match parse_json_value(content) {
        Err(m) => Err(DataError::JsonParse(m)),
        Ok(v) => {
            let doc = match json_shape(&v) {
                JsonShape::Array(items) => {
                    let ghost ts = crate::json::doc_views(items@);
                    let mut es: Vec<Option<Vec<(String, String)>>> = Vec::new();
                    let mut i: usize = 0;
                    while i < items.len()
                        invariant
                            i <= items@.len(),
                            ts == crate::json::doc_views(items@),
                            es@.len() == i,
                            forall|j: int| 0 <= j < i ==> element_fits(#[trigger] es@[j], ts[j]),
                        decreases items.len() - i,
                    {
                        let e = match json_shape(&items[i]) {
                            JsonShape::Object(members) => {
                                let ghost mv = crate::json::member_views(members@);
                                let mut ms: Vec<(String, String)> = Vec::new();
                                let mut k: usize = 0;
                                while k < members.len()
                                    invariant
                                        k <= members@.len(),
                                        mv == crate::json::member_views(members@),
                                        ms@.len() == k,
                                        forall|q: int| 0 <= q < k ==> (#[trigger] ms@[q]).0@ == mv[q].0
                                            && ms@[q].1@ == comparable_text(mv[q].1),
                                    decreases members.len() - k,
                                {
                                    ms.push((owned(members[k].0.as_str()), json_comparable(&members[k].1)));
                                    k = k + 1;
                                }
                                Some(ms)
                            },
                            _ => None,
                        };
                        es.push(e);
                        i = i + 1;
                    }
                    JsonRowsDoc::Elements(es)
                },
                _ => JsonRowsDoc::NotArray,
            };
            let r = rows_from_json(&doc);
            assert(rows_doc_fits(doc, v@));
            assert(json_rows_rel(doc, r));
            r
        },
    }
}

// ─── results of a data-driven run ────────────────────────────────────────────

/// Rejects run options whose concurrency is 0.
pub fn check_data_run_opts(opts: &DataRunOpts) -> (r: Result<(), DataError>)
    ensures
        opts.concurrency == 0 ==> r matches Err(DataError::InvalidConcurrency),
        opts.concurrency > 0 ==> r is Ok,
{
    if opts.concurrency == 0 {
        Err(DataError::InvalidConcurrency)
    } else {
        Ok(())
    }
}

/// Whether an iteration's collection run passed.
pub open spec fn iteration_passes(it: IterationResult) -> bool {
    crate::runner::all_passed(it.collection_result.request_results@)
}

/// The number of iterations that passed.
pub open spec fn count_passing(s: Seq<IterationResult>) -> nat
    decreases s.len(),
{
    if s.len() == 0 {
        0
    } else {
        count_passing(s.drop_last()) + if iteration_passes(s.last()) { 1nat } else { 0nat }
    }
}

proof fn lemma_count_passing_le(s: Seq<IterationResult>)
    ensures
        count_passing(s) <= s.len(),
    decreases s.len(),
{
    if s.len() > 0 {
        lemma_count_passing_le(s.drop_last());
    }
}

/// Collects the iterations of a run: ordered by row index, with the numbers
/// of passed and failed iterations.
pub fn finish_data_run(iterations: Vec<IterationResult>) -> (r: DataRunResult)
    ensures
        r.iterations@.to_multiset() == iterations@.to_multiset(),
        forall|i: int, j: int| 0 <= i <= j < r.iterations@.len() ==> r.iterations@[i].row_index <= r.iterations@[j].row_index,
        r.passed == count_passing(r.iterations@),
        r.passed + r.failed == r.iterations@.len(),
{
    broadcast use vstd::seq_lib::group_to_multiset_ensures;
    let ghost orig = iterations@;
    let mut rest = iterations;
    let mut out: Vec<IterationResult> = Vec::new();
    assert(out@.to_multiset().add(rest@.to_multiset()) =~= orig.to_multiset());
    while rest.len() > 0
        invariant
            out@.to_multiset().add(rest@.to_multiset()) == orig.to_multiset(),
            forall|i: int, j: int| 0 <= i <= j < out@.len() ==> out@[i].row_index <= out@[j].row_index,
            forall|i: int, j: int| 0 <= i < out@.len() && 0 <= j < rest@.len() ==> out@[i].row_index <= rest@[j].row_index,
        decreases rest@.len(),
    {
        let mut m: usize = 0;
        let mut k: usize = 1;
        while k < rest.len()
            invariant
                0 <= m < rest@.len(),
                1 <= k <= rest@.len(),
                forall|j: int| 0 <= j < k ==> rest@[m as int].row_index <= #[trigger] rest@[j].row_index,
            decreases rest@.len() - k,
        {
            if rest[k].row_index < rest[m].row_index {
                m = k;
            }
            k = k + 1;
        }
        let ghost before_rest = rest@;
        let ghost before_out = out@;
        let it = rest.remove(m);
        proof {
            assert(before_rest.remove(m as int) == rest@);
            assert(before_rest[m as int] == it);
            vstd::seq_lib::to_multiset_remove(before_rest, m as int);
            assert(before_rest.contains(it));
            vstd::seq_lib::to_multiset_contains(before_rest, it);
            assert(before_rest.to_multiset().count(it) > 0);
        }
        out.push(it);
        proof {
            vstd::seq_lib::to_multiset_build(before_out, it);
            assert(out@ == before_out.push(it));
            assert(out@.to_multiset() == before_out.to_multiset().insert(it));
            assert(out@.to_multiset().add(rest@.to_multiset()) =~= orig.to_multiset());
            assert forall|j: int| 0 <= j < rest@.len() implies it.row_index <= #[trigger] rest@[j].row_index by {
                if j < m {
                    assert(rest@[j] == before_rest[j]);
                } else {
                    assert(rest@[j] == before_rest[j + 1]);
                }
            }
            assert forall|i: int, j: int| 0 <= i < out@.len() && 0 <= j < rest@.len() implies out@[i].row_index <= rest@[j].row_index by {
                if i < before_out.len() {
                    if j < m {
                        assert(rest@[j] == before_rest[j]);
                    } else {
                        assert(rest@[j] == before_rest[j + 1]);
                    }
                }
            }
        }
    }
    assert(rest@.to_multiset() =~= vstd::multiset::Multiset::<IterationResult>::empty());
    assert(out@.to_multiset() =~= orig.to_multiset());
    let ghost sorted = out@;
    let mut passed: usize = 0;
    let mut i: usize = 0;
    assert(sorted.take(0) =~= Seq::<IterationResult>::empty());
    while i < out.len()
        invariant
            sorted == out@,
            i <= sorted.len(),
            passed == count_passing(sorted.take(i as int)),
        decreases sorted.len() - i,
    {
        proof {
            assert(sorted.take(i + 1).drop_last() =~= sorted.take(i as int));
            assert(sorted.take(i + 1).last() == sorted[i as int]);
            lemma_count_passing_le(sorted.take(i as int));
        }
        if out[i].collection_result.passed() {
            passed = passed + 1;
        }
        i = i + 1;
    }
    assert(sorted.take(i as int) =~= sorted);
    proof {
        lemma_count_passing_le(sorted);
    }
    let failed = out.len() - passed;
    DataRunResult { iterations: out, passed, failed }
}

} // verus!
