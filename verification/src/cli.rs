//! The command line: its arguments as plain values, the reading of a data
//! file's extension, and the exit code of a run.

use vstd::prelude::*;
use crate::report::{RunOutcome, RunResult};
use crate::text::{chars_of, concat, str_eq, string_from_chars, string_from_range};
use crate::ui::DataFileKind;

verus! {

/// The command line of the tool.
pub struct Cli {
    pub command: Command,
}

/// The subcommands.
pub enum Command {
    /// Run a collection.
    Run(RunArgs),
    /// Check a collection for unresolved variables.
    Validate(ValidateArgs),
    /// Start the browser interface.
    Ui(UiArgs),
    /// Run a load test.
    Perf(PerfArgs),
}

/// Arguments of `run`.
pub struct RunArgs {
    /// Path of the collection file.
    pub collection: String,
    /// Path of a CSV or JSON data file, for a data-driven run.
    pub data: Option<String>,
    /// Iterations run at once (default 1).
    pub concurrency: usize,
    /// Stop starting iterations after the first failure.
    pub fail_fast: bool,
    /// Report format (default console).
    pub format: OutputFormat,
    /// File to write the report to, instead of standard output.
    pub output: Option<String>,
    /// Pause between requests, in milliseconds (default 0).
    pub delay_requests: u64,
    /// Pause between iterations, in milliseconds (default 0).
    pub delay_iterations: u64,
}

/// Arguments of `validate`.
pub struct ValidateArgs {
    /// Path of the collection file.
    pub collection: String,
}

/// Arguments of `ui`.
pub struct UiArgs {
    /// Port to listen on (default 7878).
    pub port: u16,
    /// A collection to preselect.
    pub collection: Option<String>,
}

/// Report formats of `run`.
#[derive(Clone, Copy, PartialEq, Eq, Structural)]
pub enum OutputFormat {
    Console,
    Json,
    Junit,
}

/// Arguments of `perf`.
pub struct PerfArgs {
    /// Path of the collection file.
    pub collection: String,
    /// Virtual users.
    pub vus: Option<usize>,
    /// Duration in seconds.
    pub duration: Option<u64>,
    /// Load profile.
    pub load_profile: Option<LoadProfileArg>,
    /// Starting users of a ramp.
    pub initial_vus: Option<usize>,
    /// Threshold expressions, `METRIC:CONDITION:VALUE`.
    pub thresholds: Vec<String>,
    /// Path of a CSV or JSON data file.
    pub data: Option<String>,
    /// Report format (default console).
    pub format: PerfOutputFormat,
    /// File to write the report to.
    pub output: Option<String>,
}

/// Load profiles as the command line names them.
#[derive(Clone, Copy, PartialEq, Eq, Structural)]
pub enum LoadProfileArg {
    Fixed,
    RampUp,
}

/// Report formats of `perf`.
#[derive(Clone, Copy, PartialEq, Eq, Structural)]
pub enum PerfOutputFormat {
    Console,
    Json,
}

/// The load profile a command-line profile stands for.
pub fn load_profile_of(a: LoadProfileArg) -> (r: crate::perf::LoadProfile)
    ensures
        r == match a {
            LoadProfileArg::Fixed => crate::perf::LoadProfile::Fixed,
            LoadProfileArg::RampUp => crate::perf::LoadProfile::RampUp,
        },
{
    match a {
        LoadProfileArg::Fixed => crate::perf::LoadProfile::Fixed,
        LoadProfileArg::RampUp => crate::perf::LoadProfile::RampUp,
    }
}

// ─── file extensions ─────────────────────────────────────────────────────────

/// A path component that names something: not empty and not `.`.
pub open spec fn is_named_component(c: Seq<char>) -> bool {
    c.len() > 0 && c != seq!['.']
}

/// The last named component among `cs`.
pub open spec fn last_named(cs: Seq<Seq<char>>) -> Option<Seq<char>>
    decreases cs.len(),
{
    if cs.len() == 0 {
        None
    } else if is_named_component(cs.last()) {
        Some(cs.last())
    } else {
        last_named(cs.drop_last())
    }
}

/// The final component of a `/`-separated path, as a file name: empty
/// components and `.` are skipped; there is none when the path ends in `..`
/// or names no component.
pub open spec fn file_name_of(p: Seq<char>) -> Option<Seq<char>> {
    match last_named(crate::parser::split_from(p, seq!['/'], 0)) {
        None => None,
        Some(c) => if c == seq!['.', '.'] { None } else { Some(c) },
    }
}

/// The position of the last `c` in `s`.
pub open spec fn last_pos(s: Seq<char>, c: char) -> Option<int>
    decreases s.len(),
{
    if s.len() == 0 {
        None
    } else if s.last() == c {
        Some(s.len() - 1)
    } else {
        last_pos(s.drop_last(), c)
    }
}

/// The extension of a path: what follows the last `.` of its file name,
/// when that `.` is not the name's first character.
pub open spec fn extension_of(p: Seq<char>) -> Option<Seq<char>> {
    match file_name_of(p) {
        None => None,
        Some(f) => match last_pos(f, '.') {
            None => None,
            Some(i) => if i == 0 { None } else { Some(f.skip(i + 1)) },
        },
    }
}

/// The file name of a path.
pub fn path_file_name(p: &str) -> (r: Option<String>)
    ensures
        match (r, file_name_of(p@)) {
            (Some(n), Some(x)) => n@ == x,
            (None, None) => true,
            _ => false,
        },
{
    let v = chars_of(p);
    let sep = vec!['/'];
    assert(sep@ =~= seq!['/']);
    let segs = crate::parser::split_on_chars(&v, &sep);
    let ghost sv = segs@.map_values(|x: Vec<char>| x@);
    let mut i: usize = segs.len();
    assert(sv.take(i as int) =~= sv);
    let mut found: Option<usize> = None;
    while i > 0 && found.is_none()
        invariant
            i <= segs@.len(),
            sv == segs@.map_values(|x: Vec<char>| x@),
            sv == crate::parser::split_from(p@, seq!['/'], 0),
            found is None ==> last_named(sv) == last_named(sv.take(i as int)),
            found matches Some(k) ==> k < segs@.len() && last_named(sv) == Some(sv[k as int]),
        decreases i,
    {
        let j = i - 1;
        let seg = &segs[j];
        proof {
            assert(sv.take(i as int).drop_last() =~= sv.take(j as int));
            assert(sv.take(i as int).last() == sv[j as int]);
            assert(sv[j as int] == seg@);
        }
        let named = seg.len() > 0 && !(seg.len() == 1 && seg[0] == '.');
        assert(named == is_named_component(seg@)) by {
            if seg@.len() == 1 && seg@[0] == '.' {
                assert(seg@ =~= seq!['.']);
            }
        }
        if named {
            found = Some(j);
        }
        i = j;
    }
    assert(found is None ==> sv.take(i as int) =~= Seq::<Seq<char>>::empty());
    let k = match found {
        None => {
            return None;
        },
        Some(k) => k,
    };
    let f = &segs[k];
    if f.len() == 2 && f[0] == '.' && f[1] == '.' {
        assert(f@ =~= seq!['.', '.']);
        return None;
    }
    assert(f@ != seq!['.', '.']) by {
        if f@ == seq!['.', '.'] {
            assert(f@.len() == 2 && f@[0] == '.' && f@[1] == '.');
        }
    }
    Some(string_from_chars(f))
}

/// The extension of a path.
pub fn path_extension(p: &str) -> (r: Option<String>)
    ensures
        match (r, extension_of(p@)) {
            (Some(e), Some(x)) => e@ == x,
            (None, None) => true,
            _ => false,
        },
{
    let name = match path_file_name(p) {
        None => {
            return None;
        },
        Some(n) => n,
    };
    let f = chars_of(name.as_str());
    let mut q: usize = f.len();
    assert(f@.take(q as int) =~= f@);
    while q > 0
        invariant
            q <= f@.len(),
            file_name_of(p@) == Some(f@),
            last_pos(f@, '.') == last_pos(f@.take(q as int), '.'),
        decreases q,
    {
        proof {
            assert(f@.take(q as int).drop_last() =~= f@.take(q - 1));
            assert(f@.take(q as int).last() == f@[q - 1]);
        }
        if f[q - 1] == '.' {
            if q - 1 == 0 {
                return None;
            }
            let e = string_from_range(&f, q, f.len());
            assert(f@.subrange(q as int, f@.len() as int) =~= f@.skip(q as int));
            return Some(e);
        }
        q = q - 1;
    }
    None
}

/// The line `validate` prints for a collection without unresolved
/// variables: its file name (or `collection`) and its number of requests.
pub fn validation_success_message(path: &str, requests: usize) -> (r: String)
    ensures
        r@ == "valid: "@ + match file_name_of(path@) { Some(n) => n, None => "collection"@ } + " ("@
            + crate::text::decimal(requests as nat) + " requests, 0 unresolved variables)"@,
{
    let name = match path_file_name(path) {
        Some(n) => n,
        None => crate::text::owned("collection"),
    };
    let mut s = crate::text::owned("valid: ");
    crate::text::push_str(&mut s, name.as_str());
    crate::text::push_str(&mut s, " (");
    crate::text::push_str(&mut s, crate::text::usize_to_string(requests).as_str());
    crate::text::push_str(&mut s, " requests, 0 unresolved variables)");
    s
}

/// What a run reads from a data file of the given path: its extension must be
/// `csv` or `json`; another (or none, read as empty) is refused by name.
pub fn data_kind_for_path(path: &str) -> (r: Result<DataFileKind, String>)
    ensures
        ({
            let ext = match extension_of(path@) { Some(e) => e, None => Seq::empty() };
            &&& ext == "csv"@ ==> r == Ok::<DataFileKind, String>(DataFileKind::Csv)
            &&& ext == "json"@ ==> r == Ok::<DataFileKind, String>(DataFileKind::Json)
            &&& ext != "csv"@ && ext != "json"@ ==> (r matches Err(m) && m@ == "unsupported data file extension: "@ + ext)
        }),
{
    let ext = match path_extension(path) {
        Some(e) => e,
        None => String::new(),
    };
    proof {
        reveal_strlit("csv");
        reveal_strlit("json");
        assert("csv"@ != "json"@) by {
            assert("csv"@.len() != "json"@.len());
        }
    }
    assert(ext@ == match extension_of(path@) { Some(e) => e, None => Seq::<char>::empty() });
    if str_eq(ext.as_str(), "csv") {
        Ok(DataFileKind::Csv)
    } else if str_eq(ext.as_str(), "json") {
        Ok(DataFileKind::Json)
    } else {
        Err(concat("unsupported data file extension: ", ext.as_str()))
    }
}

// ─── exit codes ──────────────────────────────────────────────────────────────

/// A run passed: a single run when every one of its requests passed, a
/// data-driven run when none of its iterations failed.
pub open spec fn run_passed(r: RunResult) -> bool {
    match r.outcome {
        RunOutcome::Single(c) => crate::runner::all_passed(c.request_results@),
        RunOutcome::DataDriven(d) => d.failed == 0,
    }
}

/// The exit code of `run` once the report is written: 0 when the run passed,
/// 1 otherwise.
pub fn run_exit_code(result: &RunResult) -> (r: i32)
    ensures
        run_passed(*result) ==> r == 0,
        !run_passed(*result) ==> r == 1,
{
    let passed = match &result.outcome {
        RunOutcome::Single(c) => c.passed(),
        RunOutcome::DataDriven(d) => d.failed == 0,
    };
    if passed { 0 } else { 1 }
}

/// The process exit code of a command: 2 when it stopped before running
/// (unreadable or invalid collection or data file, invalid flag), otherwise
/// 0 for a run that passed and 1 for one that did not.
pub fn exit_code(run: Option<&RunResult>) -> (r: i32)
    ensures
        run is None ==> r == 2,
        run matches Some(x) && run_passed(*x) ==> r == 0,
        run matches Some(x) && !run_passed(*x) ==> r == 1,
{
    match run {
        Some(x) => run_exit_code(x),
        None => 2,
    }
}

} // verus!
