//! Compact runtime status: startup blockers, readiness counts, guidance, and
//! the bounded receipts of an operation wait.
use crate::error::{ErrorCode, ToolError, coded_invalid_request};
use crate::evidence::saturating_count;
use crate::json::{Json, get_member, member_value};
use crate::limits::{MAX_AGENT_RESPONSE_BYTES, operation_terminal, spec_operation_terminal};
use crate::model::OperationPhase;
use crate::topology::sat_u32;
use vstd::prelude::*;

verus! {

/// Startup blockers reported at most.
pub const MAX_BLOCKERS: usize = 8;

/// One condition of a component.
#[derive(Clone, Debug)]
pub struct ConditionView {
    /// The condition's state is false.
    pub is_false: bool,
    /// The condition's reason blocks startup.
    pub blocks_startup: bool,
    /// The reason, by its wire name.
    pub reason: String,
    pub message: String,
}

/// A component's readiness and conditions.
#[derive(Clone, Debug)]
pub struct ComponentConditions {
    pub id: String,
    pub ready: bool,
    pub conditions: Vec<ConditionView>,
}

/// A component whose startup is blocked, with the first blocking condition.
#[derive(Clone, Debug)]
pub struct StartupBlocker {
    pub component_id: String,
    pub reason: String,
    pub message: String,
}

pub open spec fn blocking(c: ConditionView) -> bool {
    c.is_false && c.blocks_startup
}

/// Index of the first blocking condition.
pub open spec fn first_blocking(cs: Seq<ConditionView>) -> Option<int>
    decreases cs.len(),
{
    if cs.len() == 0 {
        None
    } else if blocking(cs[0]) {
        Some(0)
    } else {
        match first_blocking(cs.drop_first()) {
            Some(k) => Some(k + 1),
            None => None,
        }
    }
}

/// Indices of the blocked components among the first `upto`, in order.
pub open spec fn blocked_components(cs: Seq<ComponentConditions>, upto: int) -> Seq<int>
    decreases upto,
{
    if upto <= 0 {
        Seq::<int>::empty()
    } else if first_blocking(cs[upto - 1].conditions@) is Some {
        blocked_components(cs, upto - 1).push(upto - 1)
    } else {
        blocked_components(cs, upto - 1)
    }
}

/// The blocker reported for a blocked component.
pub open spec fn describes_blocker(b: StartupBlocker, c: ComponentConditions) -> bool {
    first_blocking(c.conditions@) matches Some(k) && b.component_id@ == c.id@ && b.reason@
        == c.conditions@[k].reason@ && b.message@ == c.conditions@[k].message@
}

fn find_blocking(cs: &Vec<ConditionView>) -> (r: Option<usize>)
    ensures
        match first_blocking(cs@) {
            Some(k) => r matches Some(x) && x == k && k < cs@.len(),
            None => r is None,
        },
{
    let mut i: usize = 0;
    while i < cs.len()
        invariant
            i <= cs@.len(),
            forall|k: int| 0 <= k < i ==> !blocking(#[trigger] cs@[k]),
        decreases cs@.len() - i,
    {
        if cs[i].is_false && cs[i].blocks_startup {
            proof {
                lemma_first_blocking_at(cs@, i as int);
            }
            return Some(i);
        }
        i = i + 1;
    }
    proof {
        lemma_first_blocking_none(cs@);
    }
    None
}

proof fn lemma_first_blocking_at(cs: Seq<ConditionView>, i: int)
    requires
        0 <= i < cs.len(),
        blocking(cs[i]),
        forall|k: int| 0 <= k < i ==> !blocking(#[trigger] cs[k]),
    ensures
        first_blocking(cs) == Some(i),
    decreases i,
{
    if i > 0 {
        let t = cs.drop_first();
        assert forall|k: int| 0 <= k < i - 1 implies !blocking(#[trigger] t[k]) by {
            assert(t[k] == cs[k + 1]);
        }
        lemma_first_blocking_at(t, i - 1);
    }
}

proof fn lemma_first_blocking_none(cs: Seq<ConditionView>)
    requires
        forall|k: int| 0 <= k < cs.len() ==> !blocking(#[trigger] cs[k]),
    ensures
        first_blocking(cs) is None,
    decreases cs.len(),
{
    if cs.len() > 0 {
        let t = cs.drop_first();
        assert forall|k: int| 0 <= k < t.len() implies !blocking(#[trigger] t[k]) by {
            assert(t[k] == cs[k + 1]);
        }
        lemma_first_blocking_none(t);
    }
}

proof fn lemma_blocked_prefix(cs: Seq<ComponentConditions>, i: int, u: int)
    requires
        0 <= i <= u,
    ensures
        blocked_components(cs, u).len() >= blocked_components(cs, i).len(),
        forall|k: int|
            0 <= k < blocked_components(cs, i).len() ==> #[trigger] blocked_components(cs, u)[k]
                == blocked_components(cs, i)[k],
    decreases u - i,
{
    if u > i {
        lemma_blocked_prefix(cs, i, u - 1);
    }
}

/// The first eight components whose startup a false, startup-blocking
/// condition stops, each with its first such condition.
pub fn startup_blockers(components: &Vec<ComponentConditions>) -> (r: Vec<StartupBlocker>)
    ensures
        ({
            let all = blocked_components(components@, components@.len() as int);
            &&& r@.len() == (if all.len() < MAX_BLOCKERS { all.len() as int } else { MAX_BLOCKERS as int })
            &&& forall|k: int| 0 <= k < r@.len() ==> describes_blocker(#[trigger] r@[k], components@[all[k]])
        }),
{
    let n = components.len();
    let mut r: Vec<StartupBlocker> = Vec::new();
    let mut i: usize = 0;
    while i < n && r.len() < MAX_BLOCKERS
        invariant
            n == components@.len(),
            i <= n,
            r@.len() <= MAX_BLOCKERS,
            r@.len() == blocked_components(components@, i as int).len(),
            forall|k: int|
                0 <= k < r@.len() ==> describes_blocker(
                    #[trigger] r@[k],
                    components@[blocked_components(components@, i as int)[k]],
                ),
        decreases n - i,
    {
        let c = &components[i];
        let ghost before = blocked_components(components@, i as int);
        match find_blocking(&c.conditions) {
            None => {
                assert(blocked_components(components@, i + 1) == before);
            },
            Some(k) => {
                let b = StartupBlocker {
                    component_id: c.id.clone(),
                    reason: c.conditions[k].reason.clone(),
                    message: c.conditions[k].message.clone(),
                };
                assert(blocked_components(components@, i + 1) == before.push(i as int));
                r.push(b);
            },
        }
        i = i + 1;
    }
    proof {
        if r@.len() == MAX_BLOCKERS && i < n {
            lemma_blocked_prefix(components@, i as int, n as int);
        }
    }
    r
}

/// Components that report ready.
pub open spec fn ready_count(cs: Seq<ComponentConditions>) -> nat
    decreases cs.len(),
{
    if cs.len() == 0 {
        0
    } else {
        ready_count(cs.drop_last()) + if cs.last().ready {
            1nat
        } else {
            0nat
        }
    }
}

/// Ready and total components, each saturating at `u32::MAX`.
pub fn readiness(components: &Vec<ComponentConditions>) -> (r: (u32, u32))
    ensures
        r.0 == sat_u32(ready_count(components@)),
        r.1 == sat_u32(components@.len()),
{
    let mut ready: usize = 0;
    let mut i: usize = 0;
    while i < components.len()
        invariant
            i <= components@.len(),
            ready <= i,
            ready == ready_count(components@.take(i as int)),
        decreases components@.len() - i,
    {
        assert(components@.take(i + 1).drop_last() =~= components@.take(i as int));
        assert(components@.take(i + 1).last() == components@[i as int]);
        if components[i].ready {
            ready = ready + 1;
        }
        i = i + 1;
    }
    assert(components@.take(components@.len() as int) =~= components@);
    (saturating_count(ready), saturating_count(components.len()))
}

/// The message that replaces a pending cell's message while startup is blocked.
pub fn blocked_message(pending: bool, blocker_count: usize, current: Option<String>) -> (r: Option<String>)
    ensures
        pending && blocker_count > 0 ==> (r matches Some(m) && m@
            == "Component startup is blocked. Follow the blocker recovery guidance; another wait alone will not fix the failure."@),
        !(pending && blocker_count > 0) ==> r == current,
{
    if pending && blocker_count > 0 {
        Some(
            "Component startup is blocked. Follow the blocker recovery guidance; another wait alone will not fix the failure.".to_owned(),
        )
    } else {
        current
    }
}

/// Guidance for a ready cell: readiness is not protocol maturity.
pub fn runtime_guidance(ready: bool) -> (r: Option<&'static str>)
    ensures
        ready <==> r is Some,
{
    if ready {
        Some(
            "Ready means infrastructure/protocol availability, not mature regtest blocks, Lightning liquidity, or payment settlement. Use catalog guidance and available native commands to provision and verify component state. Native commands and logs supply run/session attribution automatically; run_id is optional and session attribution is automatic. Wait for operation results and independently verify effects.",
        )
    } else {
        None
    }
}

// ---------------------------------------------------------------------------
// Operation waits
// ---------------------------------------------------------------------------

/// Whether every operation is terminal.
pub open spec fn all_terminal_spec(phases: Seq<OperationPhase>) -> bool {
    forall|i: int| 0 <= i < phases.len() ==> spec_operation_terminal(#[trigger] phases[i])
}

/// What a batch wait reports: whether all operations are terminal (and no ID
/// failed), and for each operation whether the wait timed out on it.
pub fn wait_summary(phases: &Vec<OperationPhase>, error_count: usize, timed_out: bool) -> (r: (
    bool,
    Vec<bool>,
))
    ensures
        r.0 == (error_count == 0 && all_terminal_spec(phases@)),
        r.1@.len() == phases@.len(),
        forall|i: int| 0 <= i < phases@.len() ==> #[trigger] r.1@[i] == (timed_out
            && !spec_operation_terminal(phases@[i])),
{
    let mut all = true;
    let mut per: Vec<bool> = Vec::new();
    let mut i: usize = 0;
    while i < phases.len()
        invariant
            i <= phases@.len(),
            per@.len() == i,
            all == forall|k: int| 0 <= k < i ==> spec_operation_terminal(#[trigger] phases@[k]),
            forall|k: int| 0 <= k < i ==> #[trigger] per@[k] == (timed_out
                && !spec_operation_terminal(phases@[k])),
        decreases phases@.len() - i,
    {
        let terminal = operation_terminal(phases[i]);
        if !terminal {
            all = false;
        }
        per.push(timed_out && !terminal);
        i = i + 1;
    }
    (error_count == 0 && all, per)
}

/// Fits a batch wait's receipts: whole if they fit, else without artifact
/// bodies, else refused. `size_of(omit)` is the wire size with bodies omitted
/// or not. Returns whether bodies are omitted.
pub fn fit_wait_receipts<F: Fn(bool) -> usize>(size_of: F) -> (r: Result<bool, ToolError>)
    requires
        size_of.requires((false,)),
        size_of.requires((true,)),
    ensures
        match r {
            Ok(false) => exists|s: usize| #[trigger] size_of.ensures((false,), s) && s <= MAX_AGENT_RESPONSE_BYTES,
            Ok(true) => (exists|s: usize| #[trigger] size_of.ensures((false,), s) && s > MAX_AGENT_RESPONSE_BYTES)
                && exists|s: usize| #[trigger] size_of.ensures((true,), s) && s <= MAX_AGENT_RESPONSE_BYTES,
            Err(e) => {
                &&& e.is_coded(ErrorCode::OperationWaitResponseTooLarge)
                &&& exists|s: usize| #[trigger] size_of.ensures((false,), s) && s > MAX_AGENT_RESPONSE_BYTES
                &&& exists|s: usize| #[trigger] size_of.ensures((true,), s) && s > MAX_AGENT_RESPONSE_BYTES
            },
        },
{
    let whole = size_of(false);
    if whole <= MAX_AGENT_RESPONSE_BYTES {
        return Ok(false);
    }
    let compact = size_of(true);
    if compact <= MAX_AGENT_RESPONSE_BYTES {
        return Ok(true);
    }
    Err(
        coded_invalid_request(
            ErrorCode::OperationWaitResponseTooLarge,
            "The compact receipts exceed the wire budget; split operation_ids into smaller independent batches",
        ),
    )
}

/// A single receipt keeps its artifact body only while the receipt fits the budget.
pub fn keep_artifact(receipt_bytes: usize) -> (r: bool)
    ensures
        r == (receipt_bytes <= MAX_AGENT_RESPONSE_BYTES),
{
    receipt_bytes <= MAX_AGENT_RESPONSE_BYTES
}

/// The next poll interval: doubled, at most two seconds.
pub fn next_backoff_ms(backoff_ms: u64) -> (r: u64)
    ensures
        r == (if backoff_ms * 2 < 2000 { backoff_ms * 2 } else { 2000 }),
{
    if backoff_ms < 1000 {
        backoff_ms * 2
    } else {
        2000
    }
}

/// How long to sleep: the backoff, at most the time left before the deadline.
pub fn sleep_ms(backoff_ms: u64, remaining_ms: u64) -> (r: u64)
    ensures
        r == (if backoff_ms < remaining_ms { backoff_ms } else { remaining_ms }),
{
    if backoff_ms < remaining_ms {
        backoff_ms
    } else {
        remaining_ms
    }
}

/// What a wait poll decides.
#[derive(Clone, Copy, Debug, PartialEq, Eq, Structural)]
pub enum WaitDecision {
    /// Every operation is terminal: report without a timeout.
    Done,
    /// The deadline passed: report with a timeout.
    TimedOut,
    /// Sleep and poll again.
    Poll,
}

/// After a poll: done when all fetched operations are terminal, timed out at the deadline, else poll again.
pub fn wait_decision(phases: &Vec<OperationPhase>, deadline_passed: bool) -> (r: WaitDecision)
    ensures
        all_terminal_spec(phases@) ==> r == WaitDecision::Done,
        !all_terminal_spec(phases@) && deadline_passed ==> r == WaitDecision::TimedOut,
        !all_terminal_spec(phases@) && !deadline_passed ==> r == WaitDecision::Poll,
{
    let mut i: usize = 0;
    while i < phases.len()
        invariant
            i <= phases@.len(),
            forall|k: int| 0 <= k < i ==> spec_operation_terminal(#[trigger] phases@[k]),
        decreases phases@.len() - i,
    {
        if !operation_terminal(phases[i]) {
            return if deadline_passed {
                WaitDecision::TimedOut
            } else {
                WaitDecision::Poll
            };
        }
        i = i + 1;
    }
    WaitDecision::Done
}

/// The exit facts of a native command, in the order a receipt repeats them.
pub open spec fn native_field(i: int) -> Seq<char> {
    if i == 0 {
        "exit_code"@
    } else if i == 1 {
        "exit_signal"@
    } else if i == 2 {
        "exit_scope"@
    } else if i == 3 {
        "cleanup_verified"@
    } else if i == 4 {
        "projection_succeeded"@
    } else if i == 5 {
        "output_truncated"@
    } else if i == 6 {
        "streams_complete"@
    } else if i == 7 {
        "timed_out"@
    } else {
        "cancelled"@
    }
}

fn native_field_exec(i: usize) -> (r: &'static str)
    requires
        i < 9,
    ensures
        r@ == native_field(i as int),
{
    if i == 0 {
        "exit_code"
    } else if i == 1 {
        "exit_signal"
    } else if i == 2 {
        "exit_scope"
    } else if i == 3 {
        "cleanup_verified"
    } else if i == 4 {
        "projection_succeeded"
    } else if i == 5 {
        "output_truncated"
    } else if i == 6 {
        "streams_complete"
    } else if i == 7 {
        "timed_out"
    } else {
        "cancelled"
    }
}

/// The exit facts among the first `n` that the content records, in order.
pub open spec fn native_facts(content: Json, n: int) -> Seq<(Seq<char>, Json)>
    decreases n,
{
    if n <= 0 {
        Seq::empty()
    } else {
        native_facts(content, n - 1) + match member_value(content, native_field(n - 1)) {
            Some(v) => seq![(native_field(n - 1), v)],
            None => Seq::empty(),
        }
    }
}

/// A native command's result: when the artifact content records an exit
/// code, the exit facts it holds.
pub open spec fn native_result_spec(content: Json) -> Option<Seq<(Seq<char>, Json)>> {
    if member_value(content, "exit_code"@) is Some {
        Some(native_facts(content, 9))
    } else {
        None
    }
}

/// The exit facts a receipt repeats from a native command's artifact content.
pub fn native_result<'a>(content: &'a Json) -> (r: Option<Vec<(String, &'a Json)>>)
    ensures
        match r {
            Some(facts) => native_result_spec(*content) == Some(
                facts@.map_values(|p: (String, &'a Json)| (p.0@, *p.1)),
            ),
            None => native_result_spec(*content) is None,
        },
{
    if get_member(content, "exit_code").is_none() {
        return None;
    }
    let mut facts: Vec<(String, &'a Json)> = Vec::new();
    let mut i: usize = 0;
    assert(facts@.map_values(|p: (String, &'a Json)| (p.0@, *p.1)) =~= native_facts(*content, 0));
    while i < 9
        invariant
            i <= 9,
            facts@.map_values(|p: (String, &'a Json)| (p.0@, *p.1)) == native_facts(*content, i as int),
        decreases 9 - i,
    {
        let key = native_field_exec(i);
        let ghost before = facts@;
        if let Some(v) = get_member(content, key) {
            facts.push((key.to_owned(), v));
            assert(facts@.map_values(|p: (String, &'a Json)| (p.0@, *p.1)) =~= before.map_values(
                |p: (String, &'a Json)| (p.0@, *p.1),
            ).push((native_field(i as int), *v)));
        }
        i = i + 1;
        assert(facts@.map_values(|p: (String, &'a Json)| (p.0@, *p.1)) =~= native_facts(*content, i as int));
    }
    Some(facts)
}

/// An operation that a batch wait could not read, with the error it got.
#[derive(Clone, Debug)]
pub struct OperationWaitError {
    pub operation_id: String,
    pub error: ToolError,
}

/// How many reads a batch wait pairs with its IDs: the shorter of the two.
pub open spec fn paired_count<T>(ids: Seq<String>, results: Seq<Result<T, ToolError>>) -> nat {
    if ids.len() < results.len() {
        ids.len()
    } else {
        results.len()
    }
}

/// The operations read among the first `n` results, in order.
pub open spec fn read_operations<T>(results: Seq<Result<T, ToolError>>, n: nat) -> Seq<T>
    decreases n,
{
    if n == 0 {
        Seq::empty()
    } else {
        let before = read_operations(results, (n - 1) as nat);
        match results[n - 1] {
            Ok(operation) => before.push(operation),
            Err(_) => before,
        }
    }
}

/// The failed reads among the first `n` results, each with the ID it was for, in order.
pub open spec fn wait_errors<T>(ids: Seq<String>, results: Seq<Result<T, ToolError>>, n: nat) -> Seq<
    OperationWaitError,
>
    decreases n,
{
    if n == 0 {
        Seq::empty()
    } else {
        let before = wait_errors(ids, results, (n - 1) as nat);
        match results[n - 1] {
            Ok(_) => before,
            Err(error) => before.push(OperationWaitError { operation_id: ids[n - 1], error }),
        }
    }
}

/// Splits a batch of reads, paired with the IDs they were for, into the
/// operations read and the IDs that failed with their errors.
pub fn partition_operation_results<T>(ids: &Vec<String>, results: Vec<Result<T, ToolError>>) -> (r: (
    Vec<T>,
    Vec<OperationWaitError>,
))
    ensures
        r.0@ == read_operations(results@, paired_count(ids@, results@)),
        r.1@ == wait_errors(ids@, results@, paired_count(ids@, results@)),
{
    let n: usize = if ids.len() < results.len() {
        ids.len()
    } else {
        results.len()
    };
    let ghost all = results@;
    let mut rest = results;
    let mut operations: Vec<T> = Vec::new();
    let mut errors: Vec<OperationWaitError> = Vec::new();
    let mut i: usize = 0;
    while i < n
        invariant
            n == paired_count(ids@, all),
            i <= n,
            rest@ == all.skip(i as int),
            operations@ == read_operations(all, i as nat),
            errors@ == wait_errors(ids@, all, i as nat),
        decreases n - i,
    {
        assert(rest@[0] == all[i as int]);
        let result = rest.remove(0);
        match result {
            Ok(operation) => operations.push(operation),
            Err(error) => errors.push(OperationWaitError { operation_id: ids[i].clone(), error }),
        }
        assert(rest@ =~= all.skip(i + 1));
        i = i + 1;
    }
    (operations, errors)
}

} // verus!
