//! Collection execution: request outcomes and their tallies, the resolution
//! of a request's templates, the write-back of script mutations, and the
//! plan that decides, request by request, what runs and what is skipped.

use vstd::prelude::*;
use crate::collection::{Body, BodyType, Collection, OnFailure, Request};
use crate::context::ExecutionContext;
use crate::error::{AssertionFailure, RequestError};
use crate::http::{HttpResponse, ResolvedBody, ResolvedRequest};
use crate::interpolation::{interpolate, interpolate_result, interpolation};
use crate::script::{ConsoleEntry, ScriptContext, ScriptError, ScriptResponse, ScriptResult, ScriptTiming};
use crate::strmap::StrMap;
use crate::text::{concat, owned, push_str, str_eq, views};
use crate::yaml::{YamlNumber, YamlValue, YamlView, yaml_view};

verus! {

// ─── outcomes ────────────────────────────────────────────────────────────────

/// The outcome of one request.
pub enum RequestOutcome {
    /// Every assertion passed (or there were none).
    Passed,
    /// Some declarative or script assertions failed; all are collected.
    AssertionsFailed(Vec<AssertionFailure>),
    /// A stopping error ended the request.
    Error(RequestError),
    /// The request was skipped by an earlier request's failure action.
    Skipped,
}

/// The result of one request.
pub struct RequestResult {
    /// The request's name.
    pub name: String,
    /// Its outcome.
    pub outcome: RequestOutcome,
    /// Lifecycle duration in milliseconds.
    pub duration_ms: u64,
    /// The response, when one was received.
    pub response: Option<HttpResponse>,
    /// Script console output, in emission order.
    pub logs: Vec<ConsoleEntry>,
    /// Descriptions of the declarative assertions that passed.
    pub passed_assertions: Vec<String>,
}

/// The results of a whole collection run, in request order.
pub struct CollectionResult {
    pub request_results: Vec<RequestResult>,
}

/// An outcome that counts as a failure: failed assertions or an error.
pub open spec fn outcome_fails(o: RequestOutcome) -> bool {
    o is AssertionsFailed || o is Error
}

/// Whether every result of a run is `Passed`.
pub open spec fn all_passed(rs: Seq<RequestResult>) -> bool {
    forall|i: int| 0 <= i < rs.len() ==> (#[trigger] rs[i]).outcome is Passed
}

/// The number of results whose outcome satisfies `failing` (failures when
/// `true`, skips when `false`).
pub open spec fn count_outcomes(rs: Seq<RequestResult>, failing: bool) -> nat
    decreases rs.len(),
{
    if rs.len() == 0 {
        0
    } else {
        count_outcomes(rs.drop_last(), failing) + if (failing && outcome_fails(rs.last().outcome))
            || (!failing && rs.last().outcome is Skipped) {
            1nat
        } else {
            0nat
        }
    }
}

/// Whether an outcome counts as a failure.
pub fn is_failure(outcome: &RequestOutcome) -> (r: bool)
    ensures
        r == outcome_fails(*outcome),
{
    match outcome {
        RequestOutcome::AssertionsFailed(_) => true,
        RequestOutcome::Error(_) => true,
        _ => false,
    }
}

proof fn lemma_count_le(rs: Seq<RequestResult>, failing: bool)
    ensures
        count_outcomes(rs, failing) <= rs.len(),
    decreases rs.len(),
{
    if rs.len() > 0 {
        lemma_count_le(rs.drop_last(), failing);
    }
}

/// Whether an outcome is counted: a failure when `failing`, else a skip.
pub open spec fn outcome_counted(o: RequestOutcome, failing: bool) -> bool {
    (failing && outcome_fails(o)) || (!failing && o is Skipped)
}

proof fn lemma_count_zero(rs: Seq<RequestResult>, failing: bool)
    ensures
        count_outcomes(rs, failing) == 0 <==> forall|i: int| 0 <= i < rs.len() ==> !outcome_counted(
            #[trigger] rs[i].outcome,
            failing,
        ),
    decreases rs.len(),
{
    if rs.len() > 0 {
        lemma_count_zero(rs.drop_last(), failing);
        assert forall|i: int| 0 <= i < rs.len() - 1 implies #[trigger] rs[i] == rs.drop_last()[i] by {}
        if count_outcomes(rs, failing) == 0 {
            assert forall|i: int| 0 <= i < rs.len() implies !outcome_counted(#[trigger] rs[i].outcome, failing) by {
                if i < rs.len() - 1 {
                    assert(rs[i] == rs.drop_last()[i]);
                }
            }
        }
        if forall|i: int| 0 <= i < rs.len() ==> !outcome_counted(#[trigger] rs[i].outcome, failing) {
            assert forall|i: int| 0 <= i < rs.drop_last().len() implies !outcome_counted(
                #[trigger] rs.drop_last()[i].outcome,
                failing,
            ) by {
                assert(rs[i] == rs.drop_last()[i]);
            }
            assert(!outcome_counted(rs[rs.len() - 1].outcome, failing));
        }
    }
}

impl CollectionResult {
    /// Whether the run passed: every outcome is `Passed`.
    pub fn passed(&self) -> (r: bool)
        ensures
            r == all_passed(self.request_results@),
    {
        let mut i: usize = 0;
        while i < self.request_results.len()
            invariant
                i <= self.request_results@.len(),
                forall|j: int| 0 <= j < i ==> (#[trigger] self.request_results@[j]).outcome is Passed,
            decreases self.request_results@.len() - i,
        {
            if !matches!(self.request_results[i].outcome, RequestOutcome::Passed) {
                assert(!(self.request_results@[i as int].outcome is Passed));
                return false;
            }
            i = i + 1;
        }
        true
    }

    fn count(&self, failing: bool) -> (r: usize)
        ensures
            r == count_outcomes(self.request_results@, failing),
    {
        let ghost rs = self.request_results@;
        let mut n: usize = 0;
        let mut i: usize = 0;
        assert(rs.take(0) =~= Seq::<RequestResult>::empty());
        while i < self.request_results.len()
            invariant
                rs == self.request_results@,
                i <= rs.len(),
                n == count_outcomes(rs.take(i as int), failing),
            decreases rs.len() - i,
        {
            proof {
                assert(rs.take(i + 1).drop_last() =~= rs.take(i as int));
                assert(rs.take(i + 1).last() == rs[i as int]);
                lemma_count_le(rs.take(i as int), failing);
            }
            let o = &self.request_results[i].outcome;
            let hit = if failing { is_failure(o) } else { matches!(o, RequestOutcome::Skipped) };
            if hit {
                n = n + 1;
            }
            i = i + 1;
        }
        assert(rs.take(i as int) =~= rs);
        n
    }

    /// The number of requests that failed (assertions failed or errored).
    pub fn failure_count(&self) -> (r: usize)
        ensures
            r == count_outcomes(self.request_results@, true),
    {
        self.count(true)
    }

    /// The number of requests that were skipped.
    pub fn skipped_count(&self) -> (r: usize)
        ensures
            r == count_outcomes(self.request_results@, false),
    {
        self.count(false)
    }
}

/// A run passes exactly when it has neither failures nor skipped requests.
pub proof fn law_passed_iff_no_failures(rs: Seq<RequestResult>)
    ensures
        all_passed(rs) <==> count_outcomes(rs, true) == 0 && count_outcomes(rs, false) == 0,
{
    lemma_count_zero(rs, true);
    lemma_count_zero(rs, false);
    if count_outcomes(rs, true) == 0 && count_outcomes(rs, false) == 0 {
        assert forall|i: int| 0 <= i < rs.len() implies (#[trigger] rs[i]).outcome is Passed by {
            assert(!outcome_counted(rs[i].outcome, true));
            assert(!outcome_counted(rs[i].outcome, false));
        }
    }
    if all_passed(rs) {
        assert forall|i: int| 0 <= i < rs.len() implies !outcome_counted(#[trigger] rs[i].outcome, true) by {
            assert(rs[i].outcome is Passed);
        }
        assert forall|i: int| 0 <= i < rs.len() implies !outcome_counted(#[trigger] rs[i].outcome, false) by {
            assert(rs[i].outcome is Passed);
        }
    }
}

// ─── script mutations ────────────────────────────────────────────────────────

/// `m` without the keys in `ks`.
pub open spec fn remove_keys(m: Map<Seq<char>, Seq<char>>, ks: Seq<Seq<char>>) -> Map<Seq<char>, Seq<char>>
    decreases ks.len(),
{
    if ks.len() == 0 {
        m
    } else {
        remove_keys(m, ks.drop_last()).remove(ks.last())
    }
}

/// The collection variables after a script's changes are written back: a
/// clear empties them, deletions remove keys, then the script's writes are
/// applied.
pub open spec fn mutated_variables(vars: Map<Seq<char>, Seq<char>>, r: ScriptResult) -> Map<Seq<char>, Seq<char>> {
    let start = if r.variables_cleared { Map::empty() } else { vars };
    remove_keys(start, views(r.variable_deletions@)).union_prefer_right(r.variable_mutations@)
}

/// Writes a script's variable changes back to the context, unless `isolate`
/// is set; the environment and data layers never change.
pub fn apply_mutations(context: &mut ExecutionContext, result: &ScriptResult, isolate: bool)
    ensures
        final(context).environment@ == old(context).environment@,
        final(context).data@ == old(context).data@,
        isolate ==> final(context).variables@ == old(context).variables@,
        !isolate ==> final(context).variables@ == mutated_variables(old(context).variables@, *result),
{
    if isolate {
        return;
    }
    if result.variables_cleared {
        context.variables.clear();
    }
    let ghost start = context.variables@;
    let ghost ks = views(result.variable_deletions@);
    let mut i: usize = 0;
    assert(ks.take(0) =~= Seq::<Seq<char>>::empty());
    while i < result.variable_deletions.len()
        invariant
            i <= result.variable_deletions@.len(),
            ks == views(result.variable_deletions@),
            context.variables@ == remove_keys(start, ks.take(i as int)),
            context.environment@ == old(context).environment@,
            context.data@ == old(context).data@,
        decreases result.variable_deletions@.len() - i,
    {
        proof {
            assert(ks.take(i + 1).drop_last() =~= ks.take(i as int));
            assert(ks.take(i + 1).last() == result.variable_deletions@[i as int]@);
        }
        context.variables.remove(result.variable_deletions[i].as_str());
        i = i + 1;
    }
    assert(ks.take(i as int) =~= ks);
    context.variables.extend(&result.variable_mutations);
}

/// A variable that a script writes is what the following requests see,
/// unless the iteration's data row holds the same key: the data layer
/// shadows it. An isolated script leaves the context as it was.
pub proof fn law_script_write_visible(
    environment: Map<Seq<char>, Seq<char>>,
    variables: Map<Seq<char>, Seq<char>>,
    data: Map<Seq<char>, Seq<char>>,
    result: ScriptResult,
    k: Seq<char>,
)
    requires
        result.variable_mutations@.contains_key(k),
    ensures
        !data.contains_key(k) ==> crate::context::merged(environment, mutated_variables(variables, result), data).contains_key(k)
            && crate::context::merged(environment, mutated_variables(variables, result), data)[k]
                == result.variable_mutations@[k],
        data.contains_key(k) ==> crate::context::merged(environment, mutated_variables(variables, result), data)[k]
            == data[k],
{
}

// ─── the run plan ────────────────────────────────────────────────────────────

/// Where a collection run stands: the next request, the request a `skipTo`
/// failure action resumes at (requests before it are skipped), and whether a
/// `stop` action ended the run.
#[derive(Clone, Copy)]
pub struct RunState {
    pub next: usize,
    pub skip_until: Option<usize>,
    pub stopped: bool,
}

/// What to do with the next request.
#[derive(Clone, Copy, PartialEq, Eq, Structural)]
pub enum RunAction {
    /// Execute request `i`.
    Execute(usize),
    /// Record request `i` as skipped.
    Skip(usize),
    /// Every request has a result.
    Finish,
}

/// The state a run starts in.
pub open spec fn initial_state() -> RunState {
    RunState { next: 0, skip_until: None, stopped: false }
}

/// The request names of a collection.
pub open spec fn request_names(c: Collection) -> Seq<Seq<char>> {
    c.requests@.map_values(|r: Request| r.name@)
}

/// The last index whose name is `t` (names later in the list win, as when a
/// name-to-index map is built in order).
pub open spec fn last_index_named(names: Seq<Seq<char>>, t: Seq<char>) -> Option<int>
    decreases names.len(),
{
    if names.len() == 0 {
        None
    } else if names.last() == t {
        Some(names.len() - 1)
    } else {
        last_index_named(names.drop_last(), t)
    }
}

/// The action at state `s` of a run over `n` requests.
pub open spec fn plan_action(s: RunState, n: nat) -> RunAction {
    if s.next >= n {
        RunAction::Finish
    } else if s.stopped {
        RunAction::Skip(s.next)
    } else if s.skip_until matches Some(r) && s.next < r {
        RunAction::Skip(s.next)
    } else {
        RunAction::Execute(s.next)
    }
}

/// The state after the request at `s.next` was skipped.
pub open spec fn after_skip(s: RunState) -> RunState {
    RunState { next: (s.next + 1) as usize, ..s }
}

/// The state after the request at `s.next` was executed: a failure with
/// `stop` ends the run, one with `skipTo` sets the resume point to the last
/// request of that name (no effect when there is none); otherwise nothing
/// is pending.
pub open spec fn after_execute(s: RunState, failed: bool, action: Option<OnFailure>, names: Seq<Seq<char>>) -> RunState {
    let next = (s.next + 1) as usize;
    let idle = RunState { next, skip_until: None, stopped: false };
    if !failed {
        idle
    } else {
        match action {
            Some(OnFailure::Stop) => RunState { next, skip_until: None, stopped: true },
            Some(OnFailure::SkipTo(t)) => match last_index_named(names, t@) {
                Some(ti) => RunState { next, skip_until: Some(ti as usize), stopped: false },
                None => idle,
            },
            None => idle,
        }
    }
}

/// Decides what to do at state `state` of a run over `n` requests.
pub fn plan_next(state: &RunState, n: usize) -> (r: RunAction)
    ensures
        r == plan_action(*state, n as nat),
{
    if state.next >= n {
        RunAction::Finish
    } else if state.stopped {
        RunAction::Skip(state.next)
    } else {
        match state.skip_until {
            Some(r) => if state.next < r {
                RunAction::Skip(state.next)
            } else {
                RunAction::Execute(state.next)
            },
            None => RunAction::Execute(state.next),
        }
    }
}

/// The state after the current request was recorded as skipped.
pub fn skip_done(state: &RunState, n: usize) -> (r: RunState)
    requires
        state.next < n,
    ensures
        r == after_skip(*state),
{
    RunState { next: state.next + 1, skip_until: state.skip_until, stopped: state.stopped }
}

fn find_last_named(c: &Collection, t: &str) -> (r: Option<usize>)
    ensures
        match r {
            Some(i) => last_index_named(request_names(*c), t@) == Some(i as int),
            None => last_index_named(request_names(*c), t@) is None,
        },
{
    let ghost names = request_names(*c);
    let mut i = c.requests.len();
    assert(names.take(i as int) =~= names);
    while i > 0
        invariant
            i <= c.requests@.len(),
            names == request_names(*c),
            last_index_named(names, t@) == last_index_named(names.take(i as int), t@),
        decreases i,
    {
        proof {
            assert(names.take(i as int).drop_last() =~= names.take(i - 1));
            assert(names.take(i as int).last() == c.requests@[i - 1].name@);
        }
        if str_eq(c.requests[i - 1].name.as_str(), t) {
            return Some(i - 1);
        }
        i = i - 1;
    }
    None
}

/// The state after the current request was executed, given whether it
/// failed; its failure action is the collection's.
pub fn execute_done(c: &Collection, state: &RunState, failed: bool) -> (r: RunState)
    requires
        state.next < c.requests@.len(),
    ensures
        r == after_execute(*state, failed, c.requests@[state.next as int].on_failure, request_names(*c)),
{
    let n = c.requests.len();
    assert(state.next < n);
    let next = state.next + 1;
    if failed {
        match &c.requests[state.next].on_failure {
            Some(OnFailure::Stop) => {
                return RunState { next, skip_until: None, stopped: true };
            },
            Some(OnFailure::SkipTo(t)) => {
                match find_last_named(c, t.as_str()) {
                    Some(ti) => {
                        return RunState { next, skip_until: Some(ti), stopped: false };
                    },
                    None => {},
                }
            },
            None => {},
        }
    }
    RunState { next, skip_until: None, stopped: false }
}

/// A result recording that the request named `name` was skipped.
pub fn skipped_result(name: &str) -> (r: RequestResult)
    ensures
        r.name@ == name@,
        r.outcome is Skipped,
        r.duration_ms == 0,
        r.response is None,
        r.logs@.len() == 0,
        r.passed_assertions@.len() == 0,
{
    RequestResult {
        name: owned(name),
        outcome: RequestOutcome::Skipped,
        duration_ms: 0,
        response: None,
        logs: Vec::new(),
        passed_assertions: Vec::new(),
    }
}

// ─── laws of the run plan ────────────────────────────────────────────────────

/// One step of a run over `n` requests whose executed requests fail as
/// `fails` says.
pub open spec fn run_step(s: RunState, n: nat, fails: Seq<bool>, actions: Seq<Option<OnFailure>>, names: Seq<Seq<char>>) -> RunState {
    match plan_action(s, n) {
        RunAction::Finish => s,
        RunAction::Skip(_) => after_skip(s),
        RunAction::Execute(i) => after_execute(s, fails[i as int], actions[i as int], names),
    }
}

/// The state of the run after `k` steps.
pub open spec fn state_at(k: nat, n: nat, fails: Seq<bool>, actions: Seq<Option<OnFailure>>, names: Seq<Seq<char>>) -> RunState
    decreases k,
{
    if k == 0 {
        initial_state()
    } else {
        run_step(state_at((k - 1) as nat, n, fails, actions, names), n, fails, actions, names)
    }
}

/// Whether request `i` is executed (rather than skipped) in the run.
pub open spec fn executed_at(i: nat, n: nat, fails: Seq<bool>, actions: Seq<Option<OnFailure>>, names: Seq<Seq<char>>) -> bool {
    plan_action(state_at(i, n, fails, actions, names), n) is Execute
}

proof fn lemma_state_next(k: nat, n: nat, fails: Seq<bool>, actions: Seq<Option<OnFailure>>, names: Seq<Seq<char>>)
    requires
        k <= n,
        n <= usize::MAX,
    ensures
        state_at(k, n, fails, actions, names).next == k,
    decreases k,
{
    if k > 0 {
        lemma_state_next((k - 1) as nat, n, fails, actions, names);
    }
}

/// The run steps through the requests in order: after `k` steps (`k` at most
/// the number of requests) request `k` is next, and after all of them the
/// run is finished. Every request thus gets exactly one result, in order.
pub proof fn law_one_result_per_request(n: nat, fails: Seq<bool>, actions: Seq<Option<OnFailure>>, names: Seq<Seq<char>>, k: nat)
    requires
        k <= n,
        n <= usize::MAX,
    ensures
        state_at(k, n, fails, actions, names).next == k,
        k < n ==> plan_action(state_at(k, n, fails, actions, names), n) != RunAction::Finish,
        plan_action(state_at(n, n, fails, actions, names), n) == RunAction::Finish,
{
    lemma_state_next(k, n, fails, actions, names);
    lemma_state_next(n, n, fails, actions, names);
}

proof fn lemma_clean_run(k: nat, n: nat, fails: Seq<bool>, actions: Seq<Option<OnFailure>>, names: Seq<Seq<char>>)
    requires
        k <= n,
        n <= usize::MAX,
        fails.len() == n,
        forall|i: int| 0 <= i < n ==> !fails[i],
    ensures
        state_at(k, n, fails, actions, names) == (RunState { next: k as usize, skip_until: None, stopped: false }),
    decreases k,
{
    if k > 0 {
        lemma_clean_run((k - 1) as nat, n, fails, actions, names);
    }
}

/// Without failures every request is executed.
pub proof fn law_no_failure_runs_all(n: nat, fails: Seq<bool>, actions: Seq<Option<OnFailure>>, names: Seq<Seq<char>>, i: nat)
    requires
        i < n,
        n <= usize::MAX,
        fails.len() == n,
        forall|j: int| 0 <= j < n ==> !fails[j],
    ensures
        executed_at(i, n, fails, actions, names),
{
    lemma_clean_run(i, n, fails, actions, names);
}

proof fn lemma_stopped_stays(i: nat, k: nat, n: nat, fails: Seq<bool>, actions: Seq<Option<OnFailure>>, names: Seq<Seq<char>>)
    requires
        i < k <= n,
        n <= usize::MAX,
        state_at((i + 1) as nat, n, fails, actions, names).stopped,
    ensures
        state_at(k, n, fails, actions, names).stopped,
    decreases k - i,
{
    if k > i + 1 {
        lemma_stopped_stays(i, (k - 1) as nat, n, fails, actions, names);
        lemma_state_next((k - 1) as nat, n, fails, actions, names);
    }
}

/// A failing request whose action is `stop` ends the run: every later
/// request is skipped.
pub proof fn law_stop_skips_rest(n: nat, fails: Seq<bool>, actions: Seq<Option<OnFailure>>, names: Seq<Seq<char>>, i: nat, j: nat)
    requires
        i < j < n,
        n <= usize::MAX,
        executed_at(i, n, fails, actions, names),
        fails[i as int],
        actions[i as int] matches Some(OnFailure::Stop),
    ensures
        !executed_at(j, n, fails, actions, names),
{
    lemma_state_next(i, n, fails, actions, names);
    lemma_state_next(j, n, fails, actions, names);
    lemma_stopped_stays(i, j, n, fails, actions, names);
}

proof fn lemma_skipping(i: nat, k: nat, t: nat, n: nat, fails: Seq<bool>, actions: Seq<Option<OnFailure>>, names: Seq<Seq<char>>)
    requires
        i < k <= t,
        t < n <= usize::MAX,
        state_at((i + 1) as nat, n, fails, actions, names) == (RunState { next: (i + 1) as usize, skip_until: Some(t as usize), stopped: false }),
    ensures
        state_at(k, n, fails, actions, names) == (RunState { next: k as usize, skip_until: Some(t as usize), stopped: false }),
    decreases k - i,
{
    if k > i + 1 {
        lemma_skipping(i, (k - 1) as nat, t, n, fails, actions, names);
    }
}

/// A failing request whose action is `skipTo` a later request makes the run
/// skip the requests in between and resume at that request (the last one of
/// that name).
pub proof fn law_skip_to_resumes(n: nat, fails: Seq<bool>, actions: Seq<Option<OnFailure>>, names: Seq<Seq<char>>, i: nat, t: nat, j: nat)
    requires
        i < j <= t < n,
        n <= usize::MAX,
        executed_at(i, n, fails, actions, names),
        fails[i as int],
        (actions[i as int] matches Some(OnFailure::SkipTo(target)) && last_index_named(names, target@) == Some(t as int)),
    ensures
        j < t ==> !executed_at(j, n, fails, actions, names),
        executed_at(t, n, fails, actions, names),
{
    lemma_state_next(i, n, fails, actions, names);
    lemma_skipping(i, j, t, n, fails, actions, names);
    lemma_skipping(i, t, t, n, fails, actions, names);
}

// ─── a run in progress ───────────────────────────────────────────────────────

/// Whether each recorded result failed.
pub open spec fn result_fails(rs: Seq<RequestResult>) -> Seq<bool> {
    rs.map_values(|r: RequestResult| outcome_fails(r.outcome))
}

/// The failure actions of a collection's requests.
pub open spec fn failure_actions(c: Collection) -> Seq<Option<OnFailure>> {
    c.requests@.map_values(|r: Request| r.on_failure)
}

proof fn lemma_state_prefix(
    k: nat,
    n: nat,
    f1: Seq<bool>,
    f2: Seq<bool>,
    actions: Seq<Option<OnFailure>>,
    names: Seq<Seq<char>>,
)
    requires
        k <= n <= usize::MAX,
        forall|j: int| 0 <= j < k ==> f1[j] == f2[j],
    ensures
        state_at(k, n, f1, actions, names) == state_at(k, n, f2, actions, names),
    decreases k,
{
    if k > 0 {
        lemma_state_prefix((k - 1) as nat, n, f1, f2, actions, names);
        lemma_state_next((k - 1) as nat, n, f1, actions, names);
    }
}

/// A collection run in progress: the plan's state and the results recorded
/// so far, one per request in order.
pub struct CollectionRun {
    state: RunState,
    results: Vec<RequestResult>,
}

impl CollectionRun {
    /// The results recorded so far.
    pub closed spec fn recorded(&self) -> Seq<RequestResult> {
        self.results@
    }

    /// The plan's state.
    pub closed spec fn plan_state(&self) -> RunState {
        self.state
    }

    /// The run is one of collection `c`: one result per request so far, named
    /// as the request; the state is the plan's after those results (each
    /// executed request's failure as recorded); and every request the plan
    /// skipped has a skipped result (no time, no response).
    pub open spec fn wf(&self, c: Collection) -> bool {
        let rs = self.recorded();
        let n = c.requests@.len();
        let fs = result_fails(rs);
        &&& n <= usize::MAX
        &&& rs.len() == self.plan_state().next <= n
        &&& self.plan_state() == state_at(rs.len(), n, fs, failure_actions(c), request_names(c))
        &&& forall|i: int| 0 <= i < rs.len() ==> (#[trigger] rs[i]).name@ == request_names(c)[i]
        &&& forall|i: int|
            0 <= i < rs.len() && !executed_at(i as nat, n, fs, failure_actions(c), request_names(c)) ==> (
            #[trigger] rs[i]).outcome is Skipped && rs[i].duration_ms == 0 && rs[i].response is None
    }

    /// A run of `c` with nothing recorded yet.
    pub fn new(c: &Collection) -> (r: CollectionRun)
        ensures
            r.wf(*c),
            r.recorded().len() == 0,
    {
        let _n = c.requests.len();
        CollectionRun { state: RunState { next: 0, skip_until: None, stopped: false }, results: Vec::new() }
    }

    /// What to do next: execute or skip the next request, or finish once
    /// every request has a result.
    pub fn next_action(&self, c: &Collection) -> (a: RunAction)
        requires
            self.wf(*c),
        ensures
            a == plan_action(self.plan_state(), c.requests@.len()),
            a matches RunAction::Execute(i) ==> i == self.recorded().len() < c.requests@.len(),
            a matches RunAction::Skip(i) ==> i == self.recorded().len() < c.requests@.len(),
            a is Finish ==> self.recorded().len() == c.requests@.len(),
    {
        plan_next(&self.state, c.requests.len())
    }

    /// Records the next request as skipped.
    pub fn record_skipped(&mut self, c: &Collection)
        requires
            old(self).wf(*c),
            plan_action(old(self).plan_state(), c.requests@.len()) is Skip,
        ensures
            final(self).wf(*c),
            final(self).recorded().len() == old(self).recorded().len() + 1,
            final(self).recorded().drop_last() == old(self).recorded(),
            final(self).recorded().last().outcome is Skipped,
    {
        let ghost rs = self.results@;
        let ghost n = c.requests@.len();
        let i = self.state.next;
        let r = skipped_result(c.requests[i].name.as_str());
        self.state = skip_done(&self.state, c.requests.len());
        self.results.push(r);
        proof {
            let rs2 = self.results@;
            assert(rs2.drop_last() =~= rs);
            assert(result_fails(rs2) =~= result_fails(rs).push(outcome_fails(r.outcome)));
            lemma_state_prefix(rs.len(), n, result_fails(rs), result_fails(rs2), failure_actions(*c), request_names(*c));
            assert forall|j: int| 0 <= j < rs2.len() && !executed_at(j as nat, n, result_fails(rs2), failure_actions(*c), request_names(*c))
                implies (#[trigger] rs2[j]).outcome is Skipped && rs2[j].duration_ms == 0 && rs2[j].response is None by {
                if j < rs.len() {
                    lemma_state_prefix(j as nat, n, result_fails(rs), result_fails(rs2), failure_actions(*c), request_names(*c));
                    assert(rs2[j] == rs[j]);
                }
            }
            assert forall|j: int| 0 <= j < rs2.len() implies (#[trigger] rs2[j]).name@ == request_names(*c)[j] by {
                if j < rs.len() {
                    assert(rs2[j] == rs[j]);
                }
            }
        }
    }

    /// Records the result of executing the next request; it is named as the
    /// request.
    pub fn record_executed(&mut self, c: &Collection, result: RequestResult)
        requires
            old(self).wf(*c),
            plan_action(old(self).plan_state(), c.requests@.len()) is Execute,
        ensures
            final(self).wf(*c),
            final(self).recorded().len() == old(self).recorded().len() + 1,
            final(self).recorded().drop_last() == old(self).recorded(),
            final(self).recorded().last().outcome == result.outcome,
            final(self).recorded().last().duration_ms == result.duration_ms,
            final(self).recorded().last().response == result.response,
    {
        let ghost rs = self.results@;
        let ghost n = c.requests@.len();
        let i = self.state.next;
        let mut r = result;
        r.name = owned(c.requests[i].name.as_str());
        let failed = is_failure(&r.outcome);
        self.state = execute_done(c, &self.state, failed);
        self.results.push(r);
        proof {
            let rs2 = self.results@;
            assert(rs2.drop_last() =~= rs);
            assert(result_fails(rs2) =~= result_fails(rs).push(outcome_fails(r.outcome)));
            lemma_state_prefix(rs.len(), n, result_fails(rs), result_fails(rs2), failure_actions(*c), request_names(*c));
            assert(failure_actions(*c)[i as int] == c.requests@[i as int].on_failure);
            assert forall|j: int| 0 <= j < rs2.len() && !executed_at(j as nat, n, result_fails(rs2), failure_actions(*c), request_names(*c))
                implies (#[trigger] rs2[j]).outcome is Skipped && rs2[j].duration_ms == 0 && rs2[j].response is None by {
                if j < rs.len() {
                    lemma_state_prefix(j as nat, n, result_fails(rs), result_fails(rs2), failure_actions(*c), request_names(*c));
                    assert(rs2[j] == rs[j]);
                }
            }
            assert forall|j: int| 0 <= j < rs2.len() implies (#[trigger] rs2[j]).name@ == request_names(*c)[j] by {
                if j < rs.len() {
                    assert(rs2[j] == rs[j]);
                }
            }
        }
    }

    /// The most recently recorded result, if any.
    pub fn last(&self) -> (r: Option<&RequestResult>)
        ensures
            match r {
                Some(x) => self.recorded().len() > 0 && *x == self.recorded().last(),
                None => self.recorded().len() == 0,
            },
    {
        if self.results.len() == 0 {
            None
        } else {
            Some(&self.results[self.results.len() - 1])
        }
    }

    /// The collection result of a finished run: one result per request, in
    /// order.
    pub fn finish(self, c: &Collection) -> (r: CollectionResult)
        requires
            self.wf(*c),
            plan_action(self.plan_state(), c.requests@.len()) is Finish,
        ensures
            r.request_results@ == self.recorded(),
            r.request_results@.len() == c.requests@.len(),
    {
        CollectionResult { request_results: self.results }
    }
}

/// Every request of a finished run has one result, named as the request and
/// in the collection's order.
pub proof fn law_run_results_in_order(run: CollectionRun, c: Collection, i: int)
    requires
        run.wf(c),
        plan_action(run.plan_state(), c.requests@.len()) is Finish,
        0 <= i < c.requests@.len(),
    ensures
        run.recorded().len() == c.requests@.len(),
        run.recorded()[i].name@ == c.requests@[i].name@,
{
}

/// In a run, a request that failed with the action `stop` is followed only by
/// skipped results: no time, no response.
pub proof fn law_run_stop_skips_rest(run: CollectionRun, c: Collection, i: int, j: int)
    requires
        run.wf(c),
        0 <= i < j < run.recorded().len(),
        outcome_fails(run.recorded()[i].outcome),
        c.requests@[i].on_failure matches Some(OnFailure::Stop),
    ensures
        run.recorded()[j].outcome is Skipped,
        run.recorded()[j].duration_ms == 0,
        run.recorded()[j].response is None,
{
    let rs = run.recorded();
    let n = c.requests@.len();
    let fs = result_fails(rs);
    assert(rs[i].outcome !is Skipped);
    assert(executed_at(i as nat, n, fs, failure_actions(c), request_names(c)));
    assert(fs[i]);
    law_stop_skips_rest(n, fs, failure_actions(c), request_names(c), i as nat, j as nat);
}

/// In a run, a request that failed with the action `skipTo` a later request
/// (the last of that name) is followed by skipped results up to that request,
/// which is then executed rather than skipped.
pub proof fn law_run_skip_to_resumes(run: CollectionRun, c: Collection, i: int, t: int, j: int)
    requires
        run.wf(c),
        0 <= i < j < t < run.recorded().len(),
        outcome_fails(run.recorded()[i].outcome),
        c.requests@[i].on_failure matches Some(OnFailure::SkipTo(target)) && last_index_named(request_names(c), target@)
            == Some(t),
    ensures
        run.recorded()[j].outcome is Skipped,
        run.recorded()[j].duration_ms == 0,
        run.recorded()[j].response is None,
        executed_at(t as nat, c.requests@.len(), result_fails(run.recorded()), failure_actions(c), request_names(c)),
{
    let rs = run.recorded();
    let n = c.requests@.len();
    let fs = result_fails(rs);
    assert(rs[i].outcome !is Skipped);
    assert(executed_at(i as nat, n, fs, failure_actions(c), request_names(c)));
    assert(fs[i]);
    assert(failure_actions(c)[i] == c.requests@[i].on_failure);
    law_skip_to_resumes(n, fs, failure_actions(c), request_names(c), i as nat, t as nat, j as nat);
}

/// Whether a failure action lets the run go on with the next request: no
/// action, or a `skipTo` whose target names no request or one at or before
/// the failing request `i`.
pub open spec fn action_continues(action: Option<OnFailure>, names: Seq<Seq<char>>, i: int) -> bool {
    match action {
        None => true,
        Some(OnFailure::Stop) => false,
        Some(OnFailure::SkipTo(t)) => match last_index_named(names, t@) {
            None => true,
            Some(k) => k <= i,
        },
    }
}

/// A request that passes, or fails with an action that lets the run go on,
/// is followed by the next request being executed.
pub proof fn law_failure_continues(n: nat, fails: Seq<bool>, actions: Seq<Option<OnFailure>>, names: Seq<Seq<char>>, i: nat)
    requires
        i + 1 < n,
        n <= usize::MAX,
        executed_at(i, n, fails, actions, names),
        !fails[i as int] || action_continues(actions[i as int], names, i as int),
    ensures
        executed_at((i + 1) as nat, n, fails, actions, names),
{
    lemma_state_next(i, n, fails, actions, names);
    lemma_state_next((i + 1) as nat, n, fails, actions, names);
    let s = state_at(i, n, fails, actions, names);
    assert(state_at((i + 1) as nat, n, fails, actions, names) == after_execute(s, fails[i as int], actions[i as int], names));
    if fails[i as int] {
        match actions[i as int] {
            Some(OnFailure::SkipTo(t)) => {
                match last_index_named(names, t@) {
                    Some(k) => {
                        lemma_last_index_bounds(names, t@);
                    },
                    None => {},
                }
            },
            _ => {},
        }
    }
}

proof fn lemma_last_index_bounds(names: Seq<Seq<char>>, t: Seq<char>)
    ensures
        last_index_named(names, t) matches Some(k) ==> 0 <= k < names.len(),
    decreases names.len(),
{
    if names.len() > 0 {
        lemma_last_index_bounds(names.drop_last(), t);
    }
}

/// In a run, a request that failed with no action, or with a `skipTo` whose
/// target is unknown or not after it, is followed by the next request being
/// executed rather than skipped.
pub proof fn law_run_failure_continues(run: CollectionRun, c: Collection, i: int)
    requires
        run.wf(c),
        0 <= i,
        i + 1 < c.requests@.len(),
        i < run.recorded().len(),
        outcome_fails(run.recorded()[i].outcome),
        action_continues(c.requests@[i].on_failure, request_names(c), i),
    ensures
        executed_at((i + 1) as nat, c.requests@.len(), result_fails(run.recorded()), failure_actions(c), request_names(c)),
{
    let rs = run.recorded();
    let n = c.requests@.len();
    let fs = result_fails(rs);
    assert(rs[i].outcome !is Skipped);
    assert(executed_at(i as nat, n, fs, failure_actions(c), request_names(c)));
    assert(fs[i]);
    assert(failure_actions(c)[i] == c.requests@[i].on_failure);
    law_failure_continues(n, fs, failure_actions(c), request_names(c), i as nat);
}

// ─── resolving templates ─────────────────────────────────────────────────────

/// The first thing that stops a request from resolving: a structural problem
/// (with the message of the resulting `InvalidBody` error), or a template that
/// does not interpolate.
pub enum ResolveFault {
    Invalid(Seq<char>),
    Interp(Seq<char>),
}

/// `e` is the request error for fault `f` under variables `vars`.
pub open spec fn fault_error(f: ResolveFault, vars: Map<Seq<char>, Seq<char>>, e: RequestError) -> bool {
    match f {
        ResolveFault::Invalid(c) => e matches RequestError::InvalidBody { cause } && cause@ == c,
        ResolveFault::Interp(t) => e matches RequestError::Interpolation(ce) && interpolate_result(t, vars, Err(ce)),
    }
}

/// Interpolating a template, a failure reported as the template.
pub open spec fn interp_or_fault(t: Seq<char>, vars: Map<Seq<char>, Seq<char>>) -> Result<Seq<char>, ResolveFault> {
    match interpolation(t, vars) {
        Ok(x) => Ok(x),
        Err(_) => Err(ResolveFault::Interp(t)),
    }
}

/// Interpolates every string leaf of a YAML value (mapping keys excepted);
/// the first failing leaf in document order is the fault.
pub open spec fn yaml_interp(v: YamlView, vars: Map<Seq<char>, Seq<char>>) -> Result<YamlView, ResolveFault>
    decreases v,
{
    match v {
        YamlView::Str(s) => match interp_or_fault(s, vars) {
            Ok(x) => Ok(YamlView::Str(x)),
            Err(f) => Err(f),
        },
        YamlView::Sequence(items, d) => match items_interp(items, vars) {
            Ok(xs) => Ok(YamlView::Sequence(xs, d)),
            Err(f) => Err(f),
        },
        YamlView::Mapping(es, d) => match entries_interp(es, vars) {
            Ok(xs) => Ok(YamlView::Mapping(xs, d)),
            Err(f) => Err(f),
        },
        _ => Ok(v),
    }
}

/// [`yaml_interp`] over a list of items, in order.
pub open spec fn items_interp(items: Seq<YamlView>, vars: Map<Seq<char>, Seq<char>>) -> Result<Seq<YamlView>, ResolveFault>
    decreases items,
{
    if items.len() == 0 {
        Ok(Seq::empty())
    } else {
        proof {
            assert(decreases_to!(items => items.drop_last()));
        }
        match items_interp(items.drop_last(), vars) {
            Err(f) => Err(f),
            Ok(done) => match yaml_interp(items.last(), vars) {
                Err(f) => Err(f),
                Ok(x) => Ok(done.push(x)),
            },
        }
    }
}

/// [`yaml_interp`] over the values of mapping entries, keys kept.
pub open spec fn entries_interp(es: Seq<(YamlView, YamlView)>, vars: Map<Seq<char>, Seq<char>>) -> Result<Seq<(YamlView, YamlView)>, ResolveFault>
    decreases es,
{
    if es.len() == 0 {
        Ok(Seq::empty())
    } else {
        proof {
            assert(decreases_to!(es => es.drop_last()));
        }
        match entries_interp(es.drop_last(), vars) {
            Err(f) => Err(f),
            Ok(done) => match yaml_interp(es.last().1, vars) {
                Err(f) => Err(f),
                Ok(x) => Ok(done.push((es.last().0, x))),
            },
        }
    }
}

proof fn lemma_items_interp_each(items: Seq<YamlView>, vars: Map<Seq<char>, Seq<char>>)
    requires
        forall|i: int| 0 <= i < items.len() ==> (#[trigger] yaml_interp(items[i], vars)) is Ok,
    ensures
        items_interp(items, vars) == Ok::<Seq<YamlView>, ResolveFault>(
            Seq::new(items.len(), |i: int| yaml_interp(items[i], vars)->Ok_0),
        ),
    decreases items.len(),
{
    if items.len() > 0 {
        let d = items.drop_last();
        assert forall|i: int| 0 <= i < d.len() implies (#[trigger] yaml_interp(d[i], vars)) is Ok by {
            assert(d[i] == items[i]);
            assert(yaml_interp(items[i], vars) is Ok);
        }
        lemma_items_interp_each(d, vars);
        assert(yaml_interp(items[items.len() - 1], vars) is Ok);
        assert(Seq::new(d.len(), |i: int| yaml_interp(d[i], vars)->Ok_0).push(yaml_interp(items.last(), vars)->Ok_0)
            =~= Seq::new(items.len(), |i: int| yaml_interp(items[i], vars)->Ok_0));
    } else {
        assert(Seq::new(items.len(), |i: int| yaml_interp(items[i], vars)->Ok_0) =~= Seq::<YamlView>::empty());
    }
}

proof fn lemma_entries_interp_each(es: Seq<(YamlView, YamlView)>, vars: Map<Seq<char>, Seq<char>>)
    requires
        forall|i: int| 0 <= i < es.len() ==> (#[trigger] yaml_interp(es[i].1, vars)) is Ok,
    ensures
        entries_interp(es, vars) == Ok::<Seq<(YamlView, YamlView)>, ResolveFault>(
            Seq::new(es.len(), |i: int| (es[i].0, yaml_interp(es[i].1, vars)->Ok_0)),
        ),
    decreases es.len(),
{
    if es.len() > 0 {
        let d = es.drop_last();
        assert forall|i: int| 0 <= i < d.len() implies (#[trigger] yaml_interp(d[i].1, vars)) is Ok by {
            assert(d[i] == es[i]);
            assert(yaml_interp(es[i].1, vars) is Ok);
        }
        lemma_entries_interp_each(d, vars);
        assert(yaml_interp(es[es.len() - 1].1, vars) is Ok);
        assert(Seq::new(d.len(), |i: int| (d[i].0, yaml_interp(d[i].1, vars)->Ok_0)).push(
            (es.last().0, yaml_interp(es.last().1, vars)->Ok_0),
        ) =~= Seq::new(es.len(), |i: int| (es[i].0, yaml_interp(es[i].1, vars)->Ok_0)));
    } else {
        assert(Seq::new(es.len(), |i: int| (es[i].0, yaml_interp(es[i].1, vars)->Ok_0)) =~= Seq::<
            (YamlView, YamlView),
        >::empty());
    }
}

/// A string leaf of a request body resolves to its interpolation.
pub proof fn law_yaml_string_interpolated(s: Seq<char>, vars: Map<Seq<char>, Seq<char>>)
    requires
        interpolation(s, vars) is Ok,
    ensures
        yaml_interp(YamlView::Str(s), vars) == Ok::<YamlView, ResolveFault>(YamlView::Str(interpolation(s, vars)->Ok_0)),
{
}

/// Resolution reaches into sequences: when every item resolves, a sequence
/// resolves to the sequence of its items' resolutions, in order, with its
/// rendering kept. So `["{{id}}"]` with `id = 7` becomes `["7"]`.
pub proof fn law_yaml_sequence_interpolated(items: Seq<YamlView>, d: Seq<char>, vars: Map<Seq<char>, Seq<char>>)
    requires
        forall|i: int| 0 <= i < items.len() ==> (#[trigger] yaml_interp(items[i], vars)) is Ok,
    ensures
        yaml_interp(YamlView::Sequence(items, d), vars) == Ok::<YamlView, ResolveFault>(
            YamlView::Sequence(Seq::new(items.len(), |i: int| yaml_interp(items[i], vars)->Ok_0), d),
        ),
{
    lemma_items_interp_each(items, vars);
}

/// Resolution reaches into mappings: when every value resolves, a mapping
/// resolves to its keys, unchanged, each with its value's resolution, in
/// order, with its rendering kept.
pub proof fn law_yaml_mapping_interpolated(es: Seq<(YamlView, YamlView)>, d: Seq<char>, vars: Map<Seq<char>, Seq<char>>)
    requires
        forall|i: int| 0 <= i < es.len() ==> (#[trigger] yaml_interp(es[i].1, vars)) is Ok,
    ensures
        yaml_interp(YamlView::Mapping(es, d), vars) == Ok::<YamlView, ResolveFault>(
            YamlView::Mapping(Seq::new(es.len(), |i: int| (es[i].0, yaml_interp(es[i].1, vars)->Ok_0)), d),
        ),
{
    lemma_entries_interp_each(es, vars);
}

/// The views of a list of YAML values.
pub open spec fn item_views(v: Seq<YamlValue>) -> Seq<YamlView> {
    Seq::new(v.len(), |j: int| yaml_view(v[j]))
}

/// The views of a list of YAML mapping entries.
pub open spec fn entry_views(v: Seq<(YamlValue, YamlValue)>) -> Seq<(YamlView, YamlView)> {
    Seq::new(v.len(), |j: int| (yaml_view(v[j].0), yaml_view(v[j].1)))
}

proof fn lemma_items_fault_prefix(s: Seq<YamlView>, k: int, vars: Map<Seq<char>, Seq<char>>)
    requires
        0 <= k <= s.len(),
        items_interp(s.take(k), vars) is Err,
    ensures
        items_interp(s, vars) == items_interp(s.take(k), vars),
    decreases s.len() - k,
{
    if k < s.len() {
        assert(s.take(k + 1).drop_last() =~= s.take(k));
        lemma_items_fault_prefix(s, k + 1, vars);
    } else {
        assert(s.take(k) =~= s);
    }
}

proof fn lemma_entries_fault_prefix(s: Seq<(YamlView, YamlView)>, k: int, vars: Map<Seq<char>, Seq<char>>)
    requires
        0 <= k <= s.len(),
        entries_interp(s.take(k), vars) is Err,
    ensures
        entries_interp(s, vars) == entries_interp(s.take(k), vars),
    decreases s.len() - k,
{
    if k < s.len() {
        assert(s.take(k + 1).drop_last() =~= s.take(k));
        lemma_entries_fault_prefix(s, k + 1, vars);
    } else {
        assert(s.take(k) =~= s);
    }
}

fn interpolate_text(t: &str, vars: &StrMap) -> (r: Result<String, RequestError>)
    ensures
        match (r, interp_or_fault(t@, vars@)) {
            (Ok(s), Ok(x)) => s@ == x,
            (Err(e), Err(f)) => fault_error(f, vars@, e),
            _ => false,
        },
{
    match interpolate(t, vars) {
        Ok(s) => Ok(s),
        Err(e) => Err(RequestError::Interpolation(e)),
    }
}

/// Interpolates every string leaf of a YAML value; mapping keys, numbers,
/// booleans, null and tagged values are kept as they are.
pub fn interpolate_yaml_value(value: &YamlValue, vars: &StrMap) -> (r: Result<YamlValue, RequestError>)
    ensures
        match (r, yaml_interp(yaml_view(*value), vars@)) {
            (Ok(y), Ok(w)) => yaml_view(y) == w,
            (Err(e), Err(f)) => fault_error(f, vars@, e),
            _ => false,
        },
    decreases value,
{
    match value {
        YamlValue::String(s) => match interpolate_text(s.as_str(), vars) {
            Ok(x) => Ok(YamlValue::String(x)),
            Err(e) => Err(e),
        },
        YamlValue::Sequence { items, debug } => {
            let ghost iv = item_views(items@);
            assert(yaml_view(*value) == YamlView::Sequence(iv, debug@)) by {
                if let YamlView::Sequence(a, _) = yaml_view(*value) {
                    assert(a =~= iv);
                }
            }
            let mut out: Vec<YamlValue> = Vec::new();
            let mut i: usize = 0;
            assert(decreases_to!(*value => *items));
            assert(decreases_to!(*items => items@));
            assert(iv.take(0) =~= Seq::<YamlView>::empty());
            assert(item_views(out@) =~= Seq::<YamlView>::empty());
            assert(items_interp(Seq::<YamlView>::empty(), vars@) == Ok::<Seq<YamlView>, ResolveFault>(Seq::empty()));
            while i < items.len()
                invariant
                    decreases_to!(*value => items@),
                    i <= items@.len(),
                    iv == item_views(items@),
                    yaml_view(*value) == YamlView::Sequence(iv, debug@),
                    items_interp(iv.take(i as int), vars@) == Ok::<Seq<YamlView>, ResolveFault>(item_views(out@)),
                decreases items@.len() - i,
            {
                proof {
                    assert(decreases_to!(items@ => items@[i as int]));
                    assert(iv.take(i + 1).drop_last() =~= iv.take(i as int));
                    assert(iv.take(i + 1).last() == yaml_view(items@[i as int]));
                }
                match interpolate_yaml_value(&items[i], vars) {
                    Ok(y) => {
                        let ghost before = out@;
                        out.push(y);
                        assert(item_views(out@) =~= item_views(before).push(yaml_view(y)));
                    },
                    Err(e) => {
                        proof {
                            lemma_items_fault_prefix(iv, i + 1, vars@);
                        }
                        return Err(e);
                    },
                }
                i = i + 1;
            }
            assert(iv.take(i as int) =~= iv);
            let r = YamlValue::Sequence { items: out, debug: debug.clone() };
            assert(yaml_view(r) == YamlView::Sequence(item_views(out@), debug@)) by {
                if let YamlView::Sequence(a, _) = yaml_view(r) {
                    assert(a =~= item_views(out@));
                }
            }
            Ok(r)
        },
        YamlValue::Mapping { entries, debug } => {
            let ghost ev = entry_views(entries@);
            assert(yaml_view(*value) == YamlView::Mapping(ev, debug@)) by {
                if let YamlView::Mapping(a, _) = yaml_view(*value) {
                    assert(a =~= ev);
                }
            }
            let mut out: Vec<(YamlValue, YamlValue)> = Vec::new();
            let mut i: usize = 0;
            assert(decreases_to!(*value => *entries));
            assert(decreases_to!(*entries => entries@));
            assert(ev.take(0) =~= Seq::<(YamlView, YamlView)>::empty());
            assert(entry_views(out@) =~= Seq::<(YamlView, YamlView)>::empty());
            assert(entries_interp(Seq::<(YamlView, YamlView)>::empty(), vars@) == Ok::<Seq<(YamlView, YamlView)>, ResolveFault>(Seq::empty()));
            while i < entries.len()
                invariant
                    decreases_to!(*value => entries@),
                    i <= entries@.len(),
                    ev == entry_views(entries@),
                    yaml_view(*value) == YamlView::Mapping(ev, debug@),
                    entries_interp(ev.take(i as int), vars@) == Ok::<Seq<(YamlView, YamlView)>, ResolveFault>(entry_views(out@)),
                decreases entries@.len() - i,
            {
                proof {
                    assert(decreases_to!(entries@ => entries@[i as int]));
                    assert(ev.take(i + 1).drop_last() =~= ev.take(i as int));
                    assert(ev.take(i + 1).last() == (yaml_view(entries@[i as int].0), yaml_view(entries@[i as int].1)));
                }
                match interpolate_yaml_value(&entries[i].1, vars) {
                    Ok(y) => {
                        let k = crate::yaml::copy_yaml(&entries[i].0);
                        let ghost before = out@;
                        out.push((k, y));
                        assert(entry_views(out@) =~= entry_views(before).push((yaml_view(k), yaml_view(y))));
                    },
                    Err(e) => {
                        proof {
                            lemma_entries_fault_prefix(ev, i + 1, vars@);
                        }
                        return Err(e);
                    },
                }
                i = i + 1;
            }
            assert(ev.take(i as int) =~= ev);
            let r = YamlValue::Mapping { entries: out, debug: debug.clone() };
            assert(yaml_view(r) == YamlView::Mapping(entry_views(out@), debug@)) by {
                if let YamlView::Mapping(a, _) = yaml_view(r) {
                    assert(a =~= entry_views(out@));
                }
            }
            Ok(r)
        },
        _ => Ok(crate::yaml::copy_yaml(value)),
    }
}

/// The text of a form field value: scalars only.
pub open spec fn form_value_text(v: YamlValue) -> Option<Seq<char>> {
    match v {
        YamlValue::String(s) => Some(s@),
        YamlValue::Number(n) => Some(n.text@),
        YamlValue::Bool(b) => Some(crate::assertions::bool_text(b)),
        YamlValue::Null => Some(Seq::empty()),
        _ => None,
    }
}

/// The form fields of a mapping body, in order: string keys, scalar values,
/// values interpolated; a later field of the same name replaces an earlier
/// one.
pub open spec fn form_fold(es: Seq<(YamlValue, YamlValue)>, vars: Map<Seq<char>, Seq<char>>) -> Result<Map<Seq<char>, Seq<char>>, ResolveFault>
    decreases es.len(),
{
    if es.len() == 0 {
        Ok(Map::empty())
    } else {
        match form_fold(es.drop_last(), vars) {
            Err(f) => Err(f),
            Ok(m) => match es.last().0 {
                YamlValue::String(k) => match form_value_text(es.last().1) {
                    None => Err(ResolveFault::Invalid("Form body values must be scalars (key: '"@ + k@ + "')"@)),
                    Some(t) => match interp_or_fault(t, vars) {
                        Ok(x) => Ok(m.insert(k@, x)),
                        Err(f) => Err(f),
                    },
                },
                _ => Err(ResolveFault::Invalid("Form body keys must be strings"@)),
            },
        }
    }
}

/// What resolving a body gives: a text body must be a string, a form body a
/// mapping of scalars, a JSON body any value; templates are interpolated.
pub open spec fn body_rel(b: Body, vars: Map<Seq<char>, Seq<char>>, r: Result<ResolvedBody, RequestError>) -> bool {
    match b.body_type {
        BodyType::Text => match b.content {
            YamlValue::String(s) => match (r, interp_or_fault(s@, vars)) {
                (Ok(ResolvedBody::Text(t)), Ok(x)) => t@ == x,
                (Err(e), Err(f)) => fault_error(f, vars, e),
                _ => false,
            },
            _ => r matches Err(RequestError::InvalidBody { cause }) && cause@ == "Text body content must be a scalar string"@,
        },
        BodyType::Form => match b.content {
            YamlValue::Mapping { entries, .. } => match (r, form_fold(entries@, vars)) {
                (Ok(ResolvedBody::Form(m)), Ok(fm)) => m@ == fm,
                (Err(e), Err(f)) => fault_error(f, vars, e),
                _ => false,
            },
            _ => r matches Err(RequestError::InvalidBody { cause }) && cause@ == "Form body content must be a YAML mapping"@,
        },
        BodyType::Json => match (r, yaml_interp(yaml_view(b.content), vars)) {
            (Ok(ResolvedBody::Json(y)), Ok(w)) => yaml_view(y) == w,
            (Err(e), Err(f)) => fault_error(f, vars, e),
            _ => false,
        },
    }
}

proof fn lemma_form_fault_prefix(s: Seq<(YamlValue, YamlValue)>, k: int, vars: Map<Seq<char>, Seq<char>>)
    requires
        0 <= k <= s.len(),
        form_fold(s.take(k), vars) is Err,
    ensures
        form_fold(s, vars) == form_fold(s.take(k), vars),
    decreases s.len() - k,
{
    if k < s.len() {
        assert(s.take(k + 1).drop_last() =~= s.take(k));
        lemma_form_fault_prefix(s, k + 1, vars);
    } else {
        assert(s.take(k) =~= s);
    }
}

fn form_fields(entries: &Vec<(YamlValue, YamlValue)>, vars: &StrMap) -> (r: Result<StrMap, RequestError>)
    ensures
        match (r, form_fold(entries@, vars@)) {
            (Ok(m), Ok(fm)) => m@ == fm,
            (Err(e), Err(f)) => fault_error(f, vars@, e),
            _ => false,
        },
{
    let ghost es = entries@;
    let mut form = StrMap::new();
    let mut i: usize = 0;
    assert(es.take(0) =~= Seq::<(YamlValue, YamlValue)>::empty());
    while i < entries.len()
        invariant
            i <= es.len(),
            es == entries@,
            form_fold(es.take(i as int), vars@) == Ok::<Map<Seq<char>, Seq<char>>, ResolveFault>(form@),
        decreases es.len() - i,
    {
        proof {
            assert(es.take(i + 1).drop_last() =~= es.take(i as int));
            assert(es.take(i + 1).last() == es[i as int]);
        }
        let key = match &entries[i].0 {
            YamlValue::String(k) => k,
            _ => {
                proof {
                    lemma_form_fault_prefix(es, i + 1, vars@);
                }
                return Err(RequestError::InvalidBody { cause: owned("Form body keys must be strings") });
            },
        };
        let raw = match &entries[i].1 {
            YamlValue::String(x) => owned(x.as_str()),
            YamlValue::Number(n) => owned(n.text.as_str()),
            YamlValue::Bool(b) => crate::assertions::bool_string(*b),
            YamlValue::Null => String::new(),
            _ => {
                proof {
                    lemma_form_fault_prefix(es, i + 1, vars@);
                }
                let mut c = owned("Form body values must be scalars (key: '");
                push_str(&mut c, key.as_str());
                push_str(&mut c, "')");
                return Err(RequestError::InvalidBody { cause: c });
            },
        };
        match interpolate_text(raw.as_str(), vars) {
            Ok(x) => {
                form.insert(owned(key.as_str()), x);
            },
            Err(e) => {
                proof {
                    lemma_form_fault_prefix(es, i + 1, vars@);
                }
                return Err(e);
            },
        }
        i = i + 1;
    }
    assert(es.take(i as int) =~= es);
    Ok(form)
}

/// Resolves a request body: interpolates its templates and checks its shape
/// against its type.
pub fn resolve_body(body: &Body, vars: &StrMap) -> (r: Result<ResolvedBody, RequestError>)
    ensures
        body_rel(*body, vars@, r),
{
    match body.body_type {
        BodyType::Text => match &body.content {
            YamlValue::String(s) => match interpolate_text(s.as_str(), vars) {
                Ok(x) => Ok(ResolvedBody::Text(x)),
                Err(e) => Err(e),
            },
            _ => Err(RequestError::InvalidBody { cause: owned("Text body content must be a scalar string") }),
        },
        BodyType::Form => match &body.content {
            YamlValue::Mapping { entries, .. } => match form_fields(entries, vars) {
                Ok(m) => Ok(ResolvedBody::Form(m)),
                Err(e) => Err(e),
            },
            _ => Err(RequestError::InvalidBody { cause: owned("Form body content must be a YAML mapping") }),
        },
        BodyType::Json => match interpolate_yaml_value(&body.content, vars) {
            Ok(y) => Ok(ResolvedBody::Json(y)),
            Err(e) => Err(e),
        },
    }
}

/// The request headers with their values interpolated, taken in the order
/// `ks`; the first failing value is the fault.
pub open spec fn headers_fold(ks: Seq<Seq<char>>, hs: Map<Seq<char>, Seq<char>>, vars: Map<Seq<char>, Seq<char>>) -> Result<Map<Seq<char>, Seq<char>>, ResolveFault>
    decreases ks.len(),
{
    if ks.len() == 0 {
        Ok(Map::empty())
    } else {
        match headers_fold(ks.drop_last(), hs, vars) {
            Err(f) => Err(f),
            Ok(m) => match interp_or_fault(hs[ks.last()], vars) {
                Ok(x) => Ok(m.insert(ks.last(), x)),
                Err(f) => Err(f),
            },
        }
    }
}

proof fn lemma_headers_fault_prefix(s: Seq<Seq<char>>, hs: Map<Seq<char>, Seq<char>>, k: int, vars: Map<Seq<char>, Seq<char>>)
    requires
        0 <= k <= s.len(),
        headers_fold(s.take(k), hs, vars) is Err,
    ensures
        headers_fold(s, hs, vars) == headers_fold(s.take(k), hs, vars),
    decreases s.len() - k,
{
    if k < s.len() {
        assert(s.take(k + 1).drop_last() =~= s.take(k));
        lemma_headers_fault_prefix(s, hs, k + 1, vars);
    } else {
        assert(s.take(k) =~= s);
    }
}

/// The timeout of a request: its own, else 60 000 ms.
pub open spec fn timeout_of(req: Request) -> u64 {
    match req.timeout {
        Some(t) => t,
        None => 60000,
    }
}

/// What resolving a request gives: the URL, then each header value (in
/// header order), then the body are interpolated; the first failure is the
/// error.
pub open spec fn request_rel(req: Request, vars: Map<Seq<char>, Seq<char>>, r: Result<ResolvedRequest, RequestError>) -> bool {
    match interp_or_fault(req.url@, vars) {
        Err(f) => r matches Err(e) && fault_error(f, vars, e),
        Ok(u) => match headers_fold(req.headers.key_seq(), req.headers@, vars) {
            Err(f) => r matches Err(e) && fault_error(f, vars, e),
            Ok(hm) => match r {
                Ok(rr) => rr.url@ == u && rr.headers@ == hm && rr.method@ == req.method@
                    && rr.timeout_ms == timeout_of(req) && match req.body {
                    None => rr.body is None,
                    Some(b) => rr.body matches Some(rb) && body_rel(b, vars, Ok(rb)),
                },
                Err(e) => req.body matches Some(b) && body_rel(b, vars, Err(e)),
            },
        },
    }
}

/// Interpolates every template of a request: URL, header values and body.
pub fn resolve_request(request: &Request, vars: &StrMap) -> (r: Result<ResolvedRequest, RequestError>)
    ensures
        request_rel(*request, vars@, r),
{
    let url = match interpolate_text(request.url.as_str(), vars) {
        Ok(u) => u,
        Err(e) => {
            return Err(e);
        },
    };
    let ghost ks = request.headers.key_seq();
    let mut headers = StrMap::new();
    let n = request.headers.len();
    proof {
        use_type_invariant(&request.headers);
        request.headers.lemma_keys();
    }
    let mut i: usize = 0;
    assert(ks.take(0) =~= Seq::<Seq<char>>::empty());
    while i < n
        invariant
            i <= n,
            n == ks.len(),
            n == request.headers.spec_len(),
            interp_or_fault(request.url@, vars@) == Ok::<Seq<char>, ResolveFault>(url@),
            ks == request.headers.key_seq(),
            forall|k: Seq<char>| #[trigger] request.headers@.contains_key(k) <==> ks.contains(k),
            headers_fold(ks.take(i as int), request.headers@, vars@) == Ok::<Map<Seq<char>, Seq<char>>, ResolveFault>(headers@),
        decreases n - i,
    {
        proof {
            assert(ks.take(i + 1).drop_last() =~= ks.take(i as int));
            assert(ks.take(i + 1).last() == ks[i as int]);
        }
        let (k, v) = request.headers.entry_at(i);
        match interpolate_text(v.as_str(), vars) {
            Ok(x) => {
                headers.insert(owned(k.as_str()), x);
            },
            Err(e) => {
                proof {
                    lemma_headers_fault_prefix(ks, request.headers@, i + 1, vars@);
                }
                return Err(e);
            },
        }
        i = i + 1;
    }
    assert(ks.take(i as int) =~= ks);
    let body = match &request.body {
        None => None,
        Some(b) => match resolve_body(b, vars) {
            Ok(rb) => Some(rb),
            Err(e) => {
                return Err(e);
            },
        },
    };
    let timeout_ms = match request.timeout {
        Some(t) => t,
        None => 60000,
    };
    Ok(ResolvedRequest { method: owned(request.method.as_str()), url, headers, body, timeout_ms })
}

// ─── the request lifecycle ───────────────────────────────────────────────────

/// A phase of a request's lifecycle that the caller carries out.
#[derive(Debug, Clone, Copy, PartialEq, Eq, Structural)]
pub enum LifecycleStep {
    /// Run the pre-request script on the resolved variables.
    PreScript,
    /// Resolve the request's templates and send it.
    Send,
    /// Run the post-request script on the response.
    PostScript,
    /// Evaluate the assertions and settle the outcome.
    Assess,
}

/// The phase that follows `done` (`None` at the start): the pre-request
/// script when the request has one, then sending, then the post-request
/// script when it has one, then assessing. A phase that fails ends the
/// request, so only success leads on.
pub open spec fn step_after(request: Request, done: Option<LifecycleStep>) -> LifecycleStep {
    match done {
        None => if request.pre_script is Some {
            LifecycleStep::PreScript
        } else {
            LifecycleStep::Send
        },
        Some(LifecycleStep::PreScript) => LifecycleStep::Send,
        Some(LifecycleStep::Send) => if request.post_script is Some {
            LifecycleStep::PostScript
        } else {
            LifecycleStep::Assess
        },
        Some(_) => LifecycleStep::Assess,
    }
}

/// Decides the next phase of a request's lifecycle after `done`.
pub fn next_step(request: &Request, done: Option<LifecycleStep>) -> (r: LifecycleStep)
    requires
        done != Some(LifecycleStep::Assess),
    ensures
        r == step_after(*request, done),
{
    match done {
        None => if request.pre_script.is_some() {
            LifecycleStep::PreScript
        } else {
            LifecycleStep::Send
        },
        Some(LifecycleStep::PreScript) => LifecycleStep::Send,
        Some(LifecycleStep::Send) => if request.post_script.is_some() {
            LifecycleStep::PostScript
        } else {
            LifecycleStep::Assess
        },
        Some(_) => LifecycleStep::Assess,
    }
}

/// The phases a request goes through when each succeeds, in order.
pub open spec fn lifecycle(request: Request) -> Seq<LifecycleStep> {
    let pre = if request.pre_script is Some { seq![LifecycleStep::PreScript] } else { Seq::empty() };
    let post = if request.post_script is Some { seq![LifecycleStep::PostScript] } else { Seq::empty() };
    pre + seq![LifecycleStep::Send] + post + seq![LifecycleStep::Assess]
}

/// Following the phases from the start visits exactly the request's
/// lifecycle: the pre-request script (if any) before sending, the
/// post-request script (if any) only after a response, and assessing last.
pub proof fn law_lifecycle_order(request: Request)
    ensures
        ({
            let l = lifecycle(request);
            &&& l[0] == step_after(request, None)
            &&& forall|i: int| 0 <= i < l.len() - 1 ==> #[trigger] l[i + 1] == step_after(request, Some(l[i]))
            &&& l.last() == LifecycleStep::Assess
            &&& forall|i: int| 0 <= i < l.len() - 1 ==> l[i] != LifecycleStep::Assess
        }),
{
    let l = lifecycle(request);
    if request.pre_script is Some {
        if request.post_script is Some {
            assert(l =~= seq![LifecycleStep::PreScript, LifecycleStep::Send, LifecycleStep::PostScript, LifecycleStep::Assess]);
        } else {
            assert(l =~= seq![LifecycleStep::PreScript, LifecycleStep::Send, LifecycleStep::Assess]);
        }
    } else {
        if request.post_script is Some {
            assert(l =~= seq![LifecycleStep::Send, LifecycleStep::PostScript, LifecycleStep::Assess]);
        } else {
            assert(l =~= seq![LifecycleStep::Send, LifecycleStep::Assess]);
        }
    }
}

/// Options of a collection run that the library's decisions read.
#[derive(Clone, Copy)]
pub struct RunnerOpts {
    /// Script CPU time limit in milliseconds.
    pub script_timeout_ms: u64,
    /// Script variable changes are discarded instead of written back.
    pub isolate_script_variables: bool,
    /// A failed `assert()` in a post-request script becomes an assertion
    /// failure instead of stopping the request.
    pub continue_on_script_error: bool,
    /// Pause before each request after the first, in milliseconds.
    pub delay_between_requests_ms: u64,
}

impl Default for RunnerOpts {
    fn default() -> (r: Self)
        ensures
            r.script_timeout_ms == 30000,
            !r.isolate_script_variables,
            !r.continue_on_script_error,
            r.delay_between_requests_ms == 0,
    {
        RunnerOpts {
            script_timeout_ms: 30000,
            isolate_script_variables: false,
            continue_on_script_error: false,
            delay_between_requests_ms: 0,
        }
    }
}

/// The response as a post-request script sees it.
pub fn script_response(response: &HttpResponse) -> (r: ScriptResponse)
    ensures
        r.status == response.status,
        r.headers@ == response.headers@,
        r.body@ == response.body@,
        r.timing.dns_ms == response.timing.dns_ms && r.timing.connect_ms == response.timing.connect_ms
            && r.timing.tls_ms == response.timing.tls_ms && r.timing.send_ms == response.timing.send_ms
            && r.timing.wait_ms == response.timing.wait_ms && r.timing.receive_ms == response.timing.receive_ms
            && r.timing.total_ms == response.timing.total_ms,
{
    ScriptResponse {
        status: response.status,
        headers: response.headers.copy(),
        body: owned(response.body.as_str()),
        timing: ScriptTiming {
            dns_ms: response.timing.dns_ms,
            connect_ms: response.timing.connect_ms,
            tls_ms: response.timing.tls_ms,
            send_ms: response.timing.send_ms,
            wait_ms: response.timing.wait_ms,
            receive_ms: response.timing.receive_ms,
            total_ms: response.timing.total_ms,
        },
    }
}

/// The input of a script: the merged variables `vars`, the context's
/// environment and data layers, and the response for a post-request script.
pub fn script_context(context: &ExecutionContext, vars: &StrMap, response: Option<&HttpResponse>) -> (r: ScriptContext)
    ensures
        r.variables@ == vars@,
        r.environment@ == context.environment@,
        r.data@ == context.data@,
        response is None ==> r.response is None,
        response matches Some(resp) ==> r.response matches Some(sr) && sr.status == resp.status
            && sr.headers@ == resp.headers@ && sr.body@ == resp.body@,
{
    ScriptContext {
        response: match response {
            Some(resp) => Some(script_response(resp)),
            None => None,
        },
        variables: vars.copy(),
        environment: context.environment.copy(),
        data: context.data.copy(),
    }
}

/// The level and text of each console entry.
pub open spec fn log_texts(s: Seq<ConsoleEntry>) -> Seq<(crate::script::LogLevel, Seq<char>)> {
    s.map_values(|e: ConsoleEntry| (e.level, e.message@))
}

/// Takes in a script's result: its console output is appended to `logs` and
/// its variable changes are written back (unless isolated).
pub fn absorb_script_result(context: &mut ExecutionContext, logs: &mut Vec<ConsoleEntry>, result: ScriptResult, isolate: bool)
    ensures
        final(context).environment@ == old(context).environment@,
        final(context).data@ == old(context).data@,
        isolate ==> final(context).variables@ == old(context).variables@,
        !isolate ==> final(context).variables@ == mutated_variables(old(context).variables@, result),
        log_texts(final(logs)@) == log_texts(old(logs)@) + log_texts(result.console_logs@),
{
    apply_mutations(context, &result, isolate);
    let ghost start = logs@;
    let mut i: usize = 0;
    assert(log_texts(result.console_logs@).take(0) =~= Seq::<(crate::script::LogLevel, Seq<char>)>::empty());
    assert(log_texts(start) + Seq::<(crate::script::LogLevel, Seq<char>)>::empty() =~= log_texts(logs@));
    while i < result.console_logs.len()
        invariant
            i <= result.console_logs@.len(),
            log_texts(logs@) == log_texts(start) + log_texts(result.console_logs@).take(i as int),
        decreases result.console_logs@.len() - i,
    {
        let ghost before = logs@;
        let entry = result.console_logs[i].copy();
        logs.push(entry);
        proof {
            assert(log_texts(logs@) =~= log_texts(before).push((entry.level, entry.message@)));
            assert(log_texts(result.console_logs@).take(i + 1) =~= log_texts(result.console_logs@).take(i as int).push(
                (entry.level, entry.message@),
            ));
        }
        i = i + 1;
    }
    assert(log_texts(result.console_logs@).take(i as int) =~= log_texts(result.console_logs@));
}

/// What a post-request script error becomes: with `continue_on_error`, a
/// failed `assert()` is an assertion failure carrying its message; any other
/// error stops the request.
pub fn post_script_failure(e: ScriptError, continue_on_error: bool) -> (r: Result<AssertionFailure, ScriptError>)
    ensures
        match e {
            ScriptError::AssertionFailed { message } => if continue_on_error {
                r matches Ok(f) && f.assertion_type == crate::error::AssertionType::Script
                    && f.expected == message && f.actual@.len() == 0 && f.path is None
            } else {
                r == Err::<AssertionFailure, ScriptError>(e)
            },
            _ => r == Err::<AssertionFailure, ScriptError>(e),
        },
{
    if continue_on_error {
        match e {
            ScriptError::AssertionFailed { message } => {
                return Ok(AssertionFailure {
                    assertion_type: crate::error::AssertionType::Script,
                    expected: message,
                    actual: String::new(),
                    path: None,
                });
            },
            other => {
                return Err(other);
            },
        }
    }
    Err(e)
}

/// The outcome of a request whose assertions were evaluated: an evaluation
/// error makes it an error (with no passed assertions); otherwise the
/// declarative failures, then the script failures, make it failed, and
/// without any it passed.
pub fn final_outcome(
    eval: Result<(Vec<String>, Vec<AssertionFailure>), RequestError>,
    script_failures: Vec<AssertionFailure>,
) -> (r: (RequestOutcome, Vec<String>))
    ensures
        match eval {
            Err(e) => r.0 == RequestOutcome::Error(e) && r.1@.len() == 0,
            Ok((p, f)) => r.1 == p && if f@.len() + script_failures@.len() == 0 {
                r.0 is Passed
            } else {
                r.0 matches RequestOutcome::AssertionsFailed(all) && all@ == f@ + script_failures@
            },
        },
{
    match eval {
        Err(e) => (RequestOutcome::Error(e), Vec::new()),
        Ok((p, f)) => {
            let mut all = f;
            let mut extra = script_failures;
            let ghost a0 = all@;
            let ghost b0 = extra@;
            all.append(&mut extra);
            if all.len() == 0 {
                (RequestOutcome::Passed, p)
            } else {
                (RequestOutcome::AssertionsFailed(all), p)
            }
        },
    }
}

} // verus!
