//! Script-facing data: the context handed to pre- and post-request scripts,
//! their results and errors, and the variable store the `variables` global
//! reads and writes.
//!
//! The JavaScript engine itself runs outside the library; every decision it
//! needs (variable lookups, error classification, status reason phrases) is
//! made here.

use vstd::prelude::*;
use crate::strmap::{StrMap, no_dups};
use crate::text::{views, lemma_views_push, lemma_take_next, lemma_take_all, concat, contains_seq, decimal, owned, push_str, str_contains, str_eq, u64_to_string};

verus! {

/// Errors that can occur while running a script.
#[derive(Debug)]
pub enum ScriptError {
    /// A syntax error caught at compile time.
    Compilation { line: u32, column: u32, message: String },
    /// An unhandled exception during execution (not an assert failure).
    Runtime { message: String, stack: Option<String> },
    /// The script exceeded its CPU time limit.
    Timeout { limit_ms: u64 },
    /// The script exceeded its heap memory limit.
    MemoryLimit { limit_mb: u64 },
    /// `assert()` or one of its relatives failed.
    AssertionFailed { message: String },
    /// The runtime or context could not be initialised.
    RuntimeInit { cause: String },
    /// The worker thread running the script panicked.
    ThreadPanic { cause: String },
}

/// The message of a [`ScriptError`].
pub open spec fn script_error_text(e: ScriptError) -> Seq<char> {
    match e {
        ScriptError::Compilation { line, column, message } => "script compilation error at "@
            + decimal(line as nat) + ":"@ + decimal(column as nat) + ": "@ + message@,
        ScriptError::Runtime { message, stack } => "script runtime error: "@ + message@,
        ScriptError::Timeout { limit_ms } => "script exceeded "@ + decimal(limit_ms as nat)
            + "ms time limit"@,
        ScriptError::MemoryLimit { limit_mb } => "script exceeded "@ + decimal(limit_mb as nat)
            + "MB memory limit"@,
        ScriptError::AssertionFailed { message } => "assertion failed: "@ + message@,
        ScriptError::RuntimeInit { cause } => "script runtime initialization failed: "@ + cause@,
        ScriptError::ThreadPanic { cause } => "script worker thread panicked: "@ + cause@,
    }
}

impl ScriptError {
    /// The human-readable message (the error's display text).
    pub fn message(&self) -> (r: String)
        ensures
            r@ == script_error_text(*self),
    {
        match self {
            ScriptError::Compilation { line, column, message } => {
                let mut s = owned("script compilation error at ");
                let l = u64_to_string(*line as u64);
                push_str(&mut s, l.as_str());
                push_str(&mut s, ":");
                let c = u64_to_string(*column as u64);
                push_str(&mut s, c.as_str());
                push_str(&mut s, ": ");
                push_str(&mut s, message.as_str());
                s
            },
            ScriptError::Runtime { message, .. } => concat("script runtime error: ", message.as_str()),
            ScriptError::Timeout { limit_ms } => {
                let mut s = owned("script exceeded ");
                let n = u64_to_string(*limit_ms);
                push_str(&mut s, n.as_str());
                push_str(&mut s, "ms time limit");
                s
            },
            ScriptError::MemoryLimit { limit_mb } => {
                let mut s = owned("script exceeded ");
                let n = u64_to_string(*limit_mb);
                push_str(&mut s, n.as_str());
                push_str(&mut s, "MB memory limit");
                s
            },
            ScriptError::AssertionFailed { message } => concat("assertion failed: ", message.as_str()),
            ScriptError::RuntimeInit { cause } => concat(
                "script runtime initialization failed: ",
                cause.as_str(),
            ),
            ScriptError::ThreadPanic { cause } => concat("script worker thread panicked: ", cause.as_str()),
        }
    }
}

/// Console output severity.
#[derive(Debug, Clone, Copy, PartialEq, Eq, Structural)]
pub enum LogLevel {
    /// `console.log()`
    Log,
    /// `console.warn()`
    Warn,
    /// `console.error()`
    Error,
}

/// A single console output entry.
#[derive(Debug)]
pub struct ConsoleEntry {
    /// The log level.
    pub level: LogLevel,
    /// The logged message.
    pub message: String,
}

impl ConsoleEntry {
    /// A copy of this entry.
    pub fn copy(&self) -> (r: ConsoleEntry)
        ensures
            r.level == self.level,
            r.message@ == self.message@,
    {
        ConsoleEntry { level: self.level, message: self.message.clone() }
    }
}

/// Timing of the response a post-request script sees, in milliseconds.
#[derive(Debug, Clone, Copy)]
pub struct ScriptTiming {
    pub dns_ms: u64,
    pub connect_ms: u64,
    pub tls_ms: u64,
    pub send_ms: u64,
    pub wait_ms: u64,
    pub receive_ms: u64,
    pub total_ms: u64,
}

impl ScriptTiming {
    /// All timings zero.
    pub fn zero() -> (t: ScriptTiming)
        ensures
            t.dns_ms == 0 && t.connect_ms == 0 && t.tls_ms == 0 && t.send_ms == 0 && t.wait_ms
                == 0 && t.receive_ms == 0 && t.total_ms == 0,
    {
        ScriptTiming { dns_ms: 0, connect_ms: 0, tls_ms: 0, send_ms: 0, wait_ms: 0, receive_ms: 0, total_ms: 0 }
    }
}

/// The HTTP response visible to a post-request script.
pub struct ScriptResponse {
    pub status: u16,
    pub headers: StrMap,
    pub body: String,
    pub timing: ScriptTiming,
}

/// Input to a single script execution.
pub struct ScriptContext {
    /// The response; `None` for pre-request scripts.
    pub response: Option<ScriptResponse>,
    /// Flat merged variable map (data > variables > environment).
    pub variables: StrMap,
    /// Environment layer, read-only in scripts.
    pub environment: StrMap,
    /// Data-row layer, read-only in scripts.
    pub data: StrMap,
}

/// Output from a single script execution.
pub struct ScriptResult {
    /// Keys written via `variables.set(key, value)`.
    pub variable_mutations: StrMap,
    /// Keys removed via `variables.delete(key)`, in call order.
    pub variable_deletions: Vec<String>,
    /// Whether `variables.clear()` was called.
    pub variables_cleared: bool,
    /// Assertion failure messages collected in continue mode.
    pub assertion_failures: Vec<String>,
    /// Console output, in emission order.
    pub console_logs: Vec<ConsoleEntry>,
}

impl ScriptResult {
    /// A result with nothing recorded.
    pub fn empty() -> (r: ScriptResult)
        ensures
            r.variable_mutations@ == Map::<Seq<char>, Seq<char>>::empty(),
            r.variable_deletions@.len() == 0,
            !r.variables_cleared,
            r.assertion_failures@.len() == 0,
            r.console_logs@.len() == 0,
    {
        ScriptResult {
            variable_mutations: StrMap::new(),
            variable_deletions: Vec::new(),
            variables_cleared: false,
            assertion_failures: Vec::new(),
            console_logs: Vec::new(),
        }
    }
}

/// Limits of the script runtime.
pub struct ScriptOptions {
    /// Heap memory limit in bytes.
    pub memory_limit_bytes: usize,
    /// CPU time budget in milliseconds.
    pub timeout_ms: u64,
}

impl ScriptOptions {
    /// The defaults: 64 MB of heap and 30 seconds of CPU time.
    pub fn default_limits() -> (o: ScriptOptions)
        ensures
            o.memory_limit_bytes == 64 * 1024 * 1024,
            o.timeout_ms == 30_000,
    {
        ScriptOptions { memory_limit_bytes: 64 * 1024 * 1024, timeout_ms: 30_000 }
    }

    /// The memory limit in whole megabytes, as reported in errors.
    pub fn limit_mb(&self) -> (r: u64)
        ensures
            r == self.memory_limit_bytes as nat / 1048576,
    {
        (self.memory_limit_bytes / (1024 * 1024)) as u64
    }
}

/// The state behind a script's `variables` global: the variables it started
/// with, what it set, deleted or cleared.
pub struct VariableStore {
    initial: StrMap,
    mutations: StrMap,
    deletions: Vec<String>,
    cleared: bool,
}

impl VariableStore {
    /// The variables the script started with.
    pub closed spec fn initial_view(&self) -> Map<Seq<char>, Seq<char>> {
        self.initial@
    }

    /// The variables the script has set.
    pub closed spec fn mutations_view(&self) -> Map<Seq<char>, Seq<char>> {
        self.mutations@
    }

    /// The keys the script has deleted, in call order.
    pub closed spec fn deletions_view(&self) -> Seq<Seq<char>> {
        self.deletions@.map_values(|s: String| s@)
    }

    /// Whether the script has called `variables.clear()`.
    pub closed spec fn cleared_view(&self) -> bool {
        self.cleared
    }

    /// What `variables.get(k)` sees: a set value, else the initial value.
    pub open spec fn lookup(&self, k: Seq<char>) -> Option<Seq<char>> {
        if self.mutations_view().contains_key(k) {
            Some(self.mutations_view()[k])
        } else if self.initial_view().contains_key(k) {
            Some(self.initial_view()[k])
        } else {
            None
        }
    }

    /// A store over the given starting variables, with nothing recorded.
    pub fn new(initial: StrMap) -> (s: VariableStore)
        ensures
            s.initial_view() == initial@,
            s.mutations_view() == Map::<Seq<char>, Seq<char>>::empty(),
            s.deletions_view() == Seq::<Seq<char>>::empty(),
            !s.cleared_view(),
    {
        let s = VariableStore { initial, mutations: StrMap::new(), deletions: Vec::new(), cleared: false };
        assert(s.deletions_view() =~= Seq::<Seq<char>>::empty());
        s
    }

    /// `variables.set(key, value)`.
    pub fn set(&mut self, key: String, value: String)
        ensures
            final(self).mutations_view() == old(self).mutations_view().insert(key@, value@),
            final(self).initial_view() == old(self).initial_view(),
            final(self).deletions_view() == old(self).deletions_view(),
            final(self).cleared_view() == old(self).cleared_view(),
    {
        self.mutations.insert(key, value);
    }

    /// `variables.get(key)`: the set value, else the initial value, else `""`.
    pub fn get(&self, key: &str) -> (r: String)
        ensures
            r@ == match self.lookup(key@) {
                Some(v) => v,
                None => Seq::<char>::empty(),
            },
    {
        match self.mutations.get(key) {
            Some(v) => v.clone(),
            None => match self.initial.get(key) {
                Some(v) => v.clone(),
                None => String::new(),
            },
        }
    }

    /// `variables.has(key)`.
    pub fn has(&self, key: &str) -> (r: bool)
        ensures
            r == self.lookup(key@).is_some(),
    {
        self.mutations.contains_key(key) || self.initial.contains_key(key)
    }

    /// `variables.delete(key)`: records the deletion.
    pub fn delete(&mut self, key: String)
        ensures
            final(self).deletions_view() == old(self).deletions_view().push(key@),
            final(self).mutations_view() == old(self).mutations_view(),
            final(self).initial_view() == old(self).initial_view(),
            final(self).cleared_view() == old(self).cleared_view(),
    {
        let ghost before = self.deletions@;
        self.deletions.push(key);
        assert(self.deletions@.map_values(|s: String| s@) =~= before.map_values(|s: String| s@).push(key@));
    }

    /// `variables.clear()`: records the request to clear.
    pub fn clear(&mut self)
        ensures
            final(self).cleared_view(),
            final(self).deletions_view() == old(self).deletions_view(),
            final(self).mutations_view() == old(self).mutations_view(),
            final(self).initial_view() == old(self).initial_view(),
    {
        self.cleared = true;
    }

    /// `variables.keys()`: the initial keys, then the set keys not among them.
    pub fn keys(&self) -> (r: Vec<String>)
        ensures
            forall|k: Seq<char>| #[trigger] views(r@).contains(k) <==> self.lookup(k).is_some(),
            no_dups(views(r@)),
    {
        let mut out: Vec<String> = Vec::new();
        let n = self.initial.len();
        let mut i: usize = 0;
        proof {
            use_type_invariant(&self.initial);
            use_type_invariant(&self.mutations);
            self.initial.lemma_keys();
            self.mutations.lemma_keys();
        }
        while i < n
            invariant
                i <= n == self.initial.spec_len(),
                views(out@) == self.initial.key_seq().take(i as int),
                no_dups(self.initial.key_seq()),
                self.initial.key_seq().len() == n,
            decreases n - i,
        {
            let (k, _) = self.initial.entry_at(i);
            let ghost before = out@;
            let kc = k.clone();
            out.push(kc);
            proof {
                let ks = self.initial.key_seq();
                lemma_views_push(before, kc);
                lemma_take_next(ks, i as int);
            }
            i = i + 1;
        }
        proof {
            assert(self.initial.key_seq().take(n as int) =~= self.initial.key_seq());
        }
        let m = self.mutations.len();
        let mut j: usize = 0;
        while j < m
            invariant
                j <= m == self.mutations.spec_len(),
                no_dups(views(out@)),
                forall|k: Seq<char>| #[trigger] views(out@).contains(k) <==> (
                    self.initial@.contains_key(k) || self.mutations.key_seq().take(j as int).contains(k)),
                forall|k: Seq<char>| #[trigger] self.initial@.contains_key(k) <==> self.initial.key_seq().contains(k),
                forall|k: Seq<char>| #[trigger] self.mutations@.contains_key(k) <==> self.mutations.key_seq().contains(k),
                self.mutations.key_seq().len() == m,
            decreases m - j,
        {
            let (k, _) = self.mutations.entry_at(j);
            let ghost ks = self.mutations.key_seq();
            let ghost before = views(out@);
            if !self.initial.contains_key(k.as_str()) {
                let ghost seen = self.mutations.key_seq().take(j as int).contains(k@);
                proof {
                    use_type_invariant(&self.mutations);
                    self.mutations.lemma_keys();
                    if seen {
                        let t = ks.take(j as int);
                        let q = choose|q: int| 0 <= q < t.len() && t[q] == k@;
                        assert(ks[q] == ks[j as int]);
                    }
                    assert(!before.contains(k@));
                }
                out.push(k.clone());
                proof {
                    let after = views(out@);
                    assert(after =~= before.push(k@));
                    assert forall|a: int, b: int| 0 <= a < b < after.len() implies after[a] != after[b] by {
                        if b == before.len() {
                            assert(before.contains(before[a]));
                        }
                    }
                }
            }
            proof {
                let t0 = ks.take(j as int);
                let t1 = ks.take(j + 1);
                assert(t1 =~= t0.push(ks[j as int]));
                assert(t1[j as int] == k@);
                let after = views(out@);
                assert forall|k2: Seq<char>| #[trigger] after.contains(k2) <==> (
                    self.initial@.contains_key(k2) || t1.contains(k2)) by {
                    if t1.contains(k2) && !t0.contains(k2) {
                        assert(k2 == ks[j as int]);
                    }
                    if t0.contains(k2) {
                        let q = choose|q: int| 0 <= q < t0.len() && t0[q] == k2;
                        assert(t1[q] == k2);
                    }
                    if after.contains(k2) && !before.contains(k2) {
                        let q = choose|q: int| 0 <= q < after.len() && after[q] == k2;
                        if q < before.len() {
                            assert(before[q] == after[q]);
                        }
                    }
                    if k2 == k@ && !self.initial@.contains_key(k2) {
                        assert(after[after.len() - 1] == k2);
                    }
                    if before.contains(k2) {
                        let q = choose|q: int| 0 <= q < before.len() && before[q] == k2;
                        assert(after[q] == k2);
                    }
                }
            }
            j = j + 1;
        }
        proof {
            assert(self.mutations.key_seq().take(m as int) =~= self.mutations.key_seq());
        }
        out
    }

    /// Hands over what the script recorded, with its console output.
    pub fn finish(self, console_logs: Vec<ConsoleEntry>) -> (r: ScriptResult)
        ensures
            r.variable_mutations@ == self.mutations_view(),
            r.variable_deletions@.map_values(|s: String| s@) == self.deletions_view(),
            r.variables_cleared == self.cleared_view(),
            r.assertion_failures@.len() == 0,
            r.console_logs@ == console_logs@,
    {
        ScriptResult {
            variable_mutations: self.mutations,
            variable_deletions: self.deletions,
            variables_cleared: self.cleared,
            assertion_failures: Vec::new(),
            console_logs,
        }
    }
}

/// A value a script sets is what the script then reads back: after
/// `variables.set(k, v)`, `variables.get(k)` gives `v` and `variables.has(k)`
/// holds, whatever the store held before; other keys read as before.
pub proof fn law_get_after_set(before: VariableStore, after: VariableStore, k: Seq<char>, v: Seq<char>, other: Seq<char>)
    requires
        after.mutations_view() == before.mutations_view().insert(k, v),
        after.initial_view() == before.initial_view(),
        other != k,
    ensures
        after.lookup(k) == Some(v),
        after.lookup(other) == before.lookup(other),
{
}

/// The standard reason phrase of an HTTP status code (`""` when unlisted).
pub open spec fn status_reason(code: u16) -> Seq<char> {
    if code == 200 { "OK"@ }
    else if code == 201 { "Created"@ }
    else if code == 204 { "No Content"@ }
    else if code == 301 { "Moved Permanently"@ }
    else if code == 302 { "Found"@ }
    else if code == 304 { "Not Modified"@ }
    else if code == 400 { "Bad Request"@ }
    else if code == 401 { "Unauthorized"@ }
    else if code == 403 { "Forbidden"@ }
    else if code == 404 { "Not Found"@ }
    else if code == 405 { "Method Not Allowed"@ }
    else if code == 409 { "Conflict"@ }
    else if code == 422 { "Unprocessable Entity"@ }
    else if code == 429 { "Too Many Requests"@ }
    else if code == 500 { "Internal Server Error"@ }
    else if code == 502 { "Bad Gateway"@ }
    else if code == 503 { "Service Unavailable"@ }
    else { ""@ }
}

/// The reason phrase scripts see as `response.statusText`.
pub fn status_text(code: u16) -> (r: &'static str)
    ensures
        r@ == status_reason(code),
{
    if code == 200 { "OK" }
    else if code == 201 { "Created" }
    else if code == 204 { "No Content" }
    else if code == 301 { "Moved Permanently" }
    else if code == 302 { "Found" }
    else if code == 304 { "Not Modified" }
    else if code == 400 { "Bad Request" }
    else if code == 401 { "Unauthorized" }
    else if code == 403 { "Forbidden" }
    else if code == 404 { "Not Found" }
    else if code == 405 { "Method Not Allowed" }
    else if code == 409 { "Conflict" }
    else if code == 422 { "Unprocessable Entity" }
    else if code == 429 { "Too Many Requests" }
    else if code == 500 { "Internal Server Error" }
    else if code == 502 { "Bad Gateway" }
    else if code == 503 { "Service Unavailable" }
    else { "" }
}

/// A JavaScript exception as the engine reports it.
pub struct ExceptionInfo {
    /// The exception's `name` property (`""` when it has none).
    pub name: String,
    /// The exception's `message` (or the thrown string).
    pub message: String,
    /// The exception's `stack` property, if any.
    pub stack: Option<String>,
    /// `lineNumber` of the exception (0 when absent).
    pub line: u32,
    /// `columnNumber` of the exception (0 when absent).
    pub column: u32,
}

/// How a caught exception is classified.
pub open spec fn classify_exception_spec(
    name: Seq<char>,
    message: Seq<char>,
    stack: Option<Seq<char>>,
    past_deadline: bool,
) -> ScriptErrorKind {
    if name == "AssertionError"@ {
        ScriptErrorKind::AssertionFailed
    } else if name == "InternalError"@ && (contains_seq(message, "interrupted"@) || past_deadline) {
        ScriptErrorKind::Timeout
    } else if contains_seq(message, "out of memory"@) {
        ScriptErrorKind::MemoryLimit
    } else if name == "SyntaxError"@ && !(stack is Some && contains_seq(stack->0, "<eval>"@)) {
        ScriptErrorKind::Compilation
    } else {
        ScriptErrorKind::Runtime
    }
}

/// The variant a script error falls into.
#[derive(PartialEq, Eq, Structural)]
pub enum ScriptErrorKind {
    Compilation,
    Runtime,
    Timeout,
    MemoryLimit,
    AssertionFailed,
    RuntimeInit,
    ThreadPanic,
}

/// The variant of a [`ScriptError`].
pub open spec fn script_error_kind(e: ScriptError) -> ScriptErrorKind {
    match e {
        ScriptError::Compilation { .. } => ScriptErrorKind::Compilation,
        ScriptError::Runtime { .. } => ScriptErrorKind::Runtime,
        ScriptError::Timeout { .. } => ScriptErrorKind::Timeout,
        ScriptError::MemoryLimit { .. } => ScriptErrorKind::MemoryLimit,
        ScriptError::AssertionFailed { .. } => ScriptErrorKind::AssertionFailed,
        ScriptError::RuntimeInit { .. } => ScriptErrorKind::RuntimeInit,
        ScriptError::ThreadPanic { .. } => ScriptErrorKind::ThreadPanic,
    }
}

/// Classifies a caught exception: assertion failures, timeouts (an
/// `InternalError` that mentions interruption or arrives past the deadline),
/// memory exhaustion, compile-time syntax errors (a `SyntaxError` whose stack
/// has no `<eval>` frame), and otherwise runtime errors.
pub fn classify_exception(exc: ExceptionInfo, past_deadline: bool, opts: &ScriptOptions) -> (r: ScriptError)
    ensures
        script_error_kind(r) == classify_exception_spec(
            exc.name@,
            exc.message@,
            match exc.stack {
                Some(s) => Some(s@),
                None => None,
            },
            past_deadline,
        ),
        r matches ScriptError::AssertionFailed { message } ==> message@ == exc.message@,
        r matches ScriptError::Timeout { limit_ms } ==> limit_ms == opts.timeout_ms,
        r matches ScriptError::MemoryLimit { limit_mb } ==> limit_mb == opts.memory_limit_bytes as nat / 1048576,
        r matches ScriptError::Compilation { line, column, message } ==> line == exc.line && column
            == exc.column && message@ == exc.message@,
        r matches ScriptError::Runtime { message, stack } ==> message@ == exc.message@ && match (stack, exc.stack) {
            (Some(a), Some(b)) => a@ == b@,
            (None, None) => true,
            _ => false,
        },
{
    if str_eq(exc.name.as_str(), "AssertionError") {
        return ScriptError::AssertionFailed { message: exc.message };
    }
    if str_eq(exc.name.as_str(), "InternalError") && (str_contains(exc.message.as_str(), "interrupted")
        || past_deadline) {
        return ScriptError::Timeout { limit_ms: opts.timeout_ms };
    }
    if str_contains(exc.message.as_str(), "out of memory") {
        return ScriptError::MemoryLimit { limit_mb: opts.limit_mb() };
    }
    if str_eq(exc.name.as_str(), "SyntaxError") {
        let is_runtime = match &exc.stack {
            Some(s) => str_contains(s.as_str(), "<eval>"),
            None => false,
        };
        if !is_runtime {
            return ScriptError::Compilation { line: exc.line, column: exc.column, message: exc.message };
        }
    }
    ScriptError::Runtime { message: exc.message, stack: exc.stack }
}

/// Classifies a failure to set up the runtime: messages that mention memory
/// exhaustion become [`ScriptError::MemoryLimit`], anything else
/// [`ScriptError::RuntimeInit`].
pub fn classify_init_failure(msg: String, opts: &ScriptOptions) -> (r: ScriptError)
    ensures
        (contains_seq(msg@, "Allocation"@) || contains_seq(msg@, "out of memory"@) || contains_seq(
            msg@,
            "memory"@,
        )) ==> r == (ScriptError::MemoryLimit { limit_mb: (opts.memory_limit_bytes as nat / 1048576) as u64 }),
        !(contains_seq(msg@, "Allocation"@) || contains_seq(msg@, "out of memory"@) || contains_seq(
            msg@,
            "memory"@,
        )) ==> r == (ScriptError::RuntimeInit { cause: msg }),
{
    if str_contains(msg.as_str(), "Allocation") || str_contains(msg.as_str(), "out of memory")
        || str_contains(msg.as_str(), "memory") {
        ScriptError::MemoryLimit { limit_mb: opts.limit_mb() }
    } else {
        ScriptError::RuntimeInit { cause: msg }
    }
}

} // verus!
