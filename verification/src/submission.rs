//! Admission of cell submissions: the request's shape, bound plans, exact
//! retries, edit fencing, and bounded stable-ID patches.
use crate::by_id::{Identified, first_with_id, position_by_id, sort_by_id, sort_by_id_exec};
use crate::cell_input::{AddLinkInput, CellInput, link_of_input};
use crate::error::{ErrorCode, ToolError, coded_invalid_request};
use crate::model::{CellSpec, ComponentSpec, LinkSpec};
use crate::requests::PlanReference;
use crate::text::{byte_len, byte_len_of, debug_quote, debug_text, str_eq};
use vstd::prelude::*;

verus! {

broadcast use vstd::string::group_string_axioms;

/// One stable-ID edit of a cell.
#[derive(Clone, Debug)]
pub enum CellPatch {
    AddComponent { component: ComponentSpec },
    UpdateComponent { component: ComponentSpec },
    RemoveComponent { id: String },
    AddLink { link: AddLinkInput },
    RemoveLink { id: String },
    /// The new cell policy, as canonical JSON.
    SetPolicy { policy: String },
}

/// A cell submission: exactly one of a complete cell, a patch or a bound plan.
#[derive(Clone, Debug)]
pub struct SubmissionRequest {
    pub name: String,
    pub request_id: String,
    pub cell: Option<CellInput>,
    pub patch: Option<Vec<CellPatch>>,
    pub plan: Option<PlanReference>,
    pub expected_generation: Option<u64>,
    pub expected_instance_key: Option<String>,
    pub delete_data: bool,
    pub delete_retained: Vec<String>,
}

/// An `invalid_cell_input` error with this message.
pub fn invalid(message: &str) -> (e: ToolError)
    ensures
        e.is_coded(ErrorCode::InvalidCellInput),
        e.message@ == message@,
{
    coded_invalid_request(ErrorCode::InvalidCellInput, message)
}

fn invalid_owned(message: String) -> (e: ToolError)
    ensures
        e.is_coded(ErrorCode::InvalidCellInput),
        e.message@ == message@,
{
    invalid(message.as_str())
}

// ---------------------------------------------------------------------------
// The shape of a submission
// ---------------------------------------------------------------------------

/// How many of cell, patch and plan a request supplies.
pub open spec fn forms_supplied(r: SubmissionRequest) -> int {
    (if r.cell is Some { 1int } else { 0int }) + (if r.patch is Some { 1int } else { 0int }) + (
    if r.plan is Some { 1int } else { 0int })
}

/// The message of the first shape check a submission fails, if any.
pub open spec fn submission_shape_error(r: SubmissionRequest, applying: bool) -> Option<Seq<char>> {
    if r.request_id@.len() == 0 || byte_len(r.request_id@) > 128 || byte_len(r.name@) > 63 {
        Some("name must fit 63 bytes and request_id must contain 1..=128 bytes"@)
    } else if forms_supplied(r) != 1 {
        Some("Supply exactly one of cell, patch or plan"@)
    } else if r.plan is Some && (!applying || r.expected_generation is Some
        || r.expected_instance_key is Some || r.delete_data || r.delete_retained@.len() > 0) {
        Some("A bound plan is applied by cell_up using its saved preconditions; omit edit options"@)
    } else {
        None
    }
}

/// Checks the name and request ID sizes, that exactly one form is supplied, and
/// that a bound plan comes without edit options and only to `cell_up`.
pub fn check_submission(request: &SubmissionRequest, applying: bool) -> (r: Result<(), ToolError>)
    ensures
        request.plan is Some && (!applying || request.expected_generation is Some
            || request.expected_instance_key is Some || request.delete_data || request.delete_retained@.len() > 0)
            ==> (r matches Err(e) && e.is_coded(ErrorCode::InvalidCellInput)),
        r is Err <==> submission_shape_error(*request, applying) is Some,
        r matches Err(e) ==> e.is_coded(ErrorCode::InvalidCellInput) && Some(e.message@)
            == submission_shape_error(*request, applying),
{
    if request.request_id.as_str().is_empty() || byte_len_of(request.request_id.as_str()) > 128
        || byte_len_of(request.name.as_str()) > 63 {
        return Err(invalid("name must fit 63 bytes and request_id must contain 1..=128 bytes"));
    }
    let count: u8 = (if request.cell.is_some() { 1u8 } else { 0u8 }) + (if request.patch.is_some() {
        1u8
    } else {
        0u8
    }) + (if request.plan.is_some() { 1u8 } else { 0u8 });
    if count != 1 {
        return Err(invalid("Supply exactly one of cell, patch or plan"));
    }
    if request.plan.is_some() {
        if !applying || request.expected_generation.is_some()
            || request.expected_instance_key.is_some() || request.delete_data
            || request.delete_retained.len() > 0 {
            return Err(
                invalid(
                    "A bound plan is applied by cell_up using its saved preconditions; omit edit options",
                ),
            );
        }
    }
    Ok(())
}

/// What checking a bound plan against its saved record yields.
pub open spec fn plan_record_check(
    name: Seq<char>,
    digest: Seq<char>,
    found: Option<(Seq<char>, Seq<char>)>,
) -> Result<(), ErrorCode> {
    match found {
        None => Err(ErrorCode::InvalidCellInput),
        Some((n, d)) => if n != name || d != digest {
            Err(ErrorCode::CellPlanDigestMismatch)
        } else {
            Ok(())
        },
    }
}

/// Checks a bound plan against the saved preview it names: the preview must
/// exist for this actor and carry the request's name and the reviewed digest.
/// `found` is the saved preview's name and digest.
pub fn check_plan_record(name: &str, reference: &PlanReference, found: Option<(&str, &str)>) -> (r:
    Result<(), ToolError>)
    ensures
        match plan_record_check(
            name@,
            reference.digest@,
            match found {
                Some((n, d)) => Some((n@, d@)),
                None => None,
            },
        ) {
            Ok(()) => r is Ok,
            Err(code) => r matches Err(e) && e.is_coded(code),
        },
{
    match found {
        None => Err(invalid("Plan not found for this actor")),
        Some((n, d)) => {
            if !str_eq(n, name) || !str_eq(d, reference.digest.as_str()) {
                return Err(
                    coded_invalid_request(
                        ErrorCode::CellPlanDigestMismatch,
                        "Plan name or digest differs from the reviewed record",
                    ),
                );
            }
            Ok(())
        },
    }
}

/// The preview ID of a request: `preview-` and characters 7..39 of the digest of
/// (workspace, principal, request ID), that is the first 32 hex digits after `sha256:`.
pub fn preview_id(request_key_digest: &str) -> (r: String)
    requires
        request_key_digest@.len() >= 39,
    ensures
        r@ == "preview-"@ + request_key_digest@.subrange(7, 39),
{
    let mut r = String::new();
    r.append("preview-");
    let mut i: usize = 7;
    while i < 39
        invariant
            7 <= i <= 39,
            request_key_digest@.len() >= 39,
            r@ == "preview-"@ + request_key_digest@.subrange(7, i as int),
        decreases 39 - i,
    {
        let c = request_key_digest.get_char(i);
        crate::text::push_char(&mut r, c);
        i = i + 1;
        assert(r@ =~= "preview-"@ + request_key_digest@.subrange(7, i as int));
    }
    r
}

/// What a saved preview means for a request: `Ok(true)` replays it, `Ok(false)`
/// means none was saved under the request's ID, and one saved for different
/// input is an idempotency conflict.
pub open spec fn retry_decision(saved_request_digest: Option<Seq<char>>, request_digest: Seq<char>) -> Result<
    bool,
    ErrorCode,
> {
    match saved_request_digest {
        None => Ok(false),
        Some(d) => if d == request_digest {
            Ok(true)
        } else {
            Err(ErrorCode::IdempotencyConflict)
        },
    }
}

/// Whether a saved preview answers this request: `Ok(true)` replays it,
/// `Ok(false)` means no preview was saved under the ID, and a preview saved for
/// different input is an idempotency conflict.
pub fn check_retry(saved_request_digest: Option<&str>, request_digest: &str) -> (r: Result<
    bool,
    ToolError,
>)
    ensures
        match retry_decision(
            match saved_request_digest {
                Some(d) => Some(d@),
                None => None,
            },
            request_digest@,
        ) {
            Ok(replay) => r == Ok::<bool, ToolError>(replay),
            Err(code) => r matches Err(e) && e.is_coded(code),
        },
{
    match saved_request_digest {
        None => Ok(false),
        Some(d) => {
            if !str_eq(d, request_digest) {
                return Err(
                    coded_invalid_request(
                        ErrorCode::IdempotencyConflict,
                        "request_id was used for different input; use a new ID for new work",
                    ),
                );
            }
            Ok(true)
        },
    }
}

/// Whether a request may proceed against the existing cell (generation and
/// instance key) or, when there is none, against an absent cell.
pub open spec fn update_target_ok(r: SubmissionRequest, target: Option<(u64, Seq<char>)>) -> bool {
    match target {
        Some((generation, key)) => r.expected_generation == Some(generation) && (
        r.expected_instance_key matches Some(k) && k@ == key),
        None => r.expected_generation is None && r.expected_instance_key is None && r.patch is None
            && !r.delete_data && r.delete_retained@.len() == 0,
    }
}

/// Fences an edit: an existing cell must be named with its current generation
/// and instance key; an absent cell admits neither fences nor edit options.
/// `target` is the existing cell's generation and instance key.
pub fn check_update_target(request: &SubmissionRequest, target: Option<(u64, &str)>) -> (r: Result<
    (),
    ToolError,
>)
    ensures
        r is Ok <==> update_target_ok(
            *request,
            match target {
                Some((g, k)) => Some((g, k@)),
                None => None,
            },
        ),
        r matches Err(e) ==> e.is_coded(ErrorCode::CellUpdateConflict),
{
    match target {
        Some((generation, key)) => {
            let key_ok = match &request.expected_instance_key {
                Some(k) => str_eq(k.as_str(), key),
                None => false,
            };
            if request.expected_generation != Some(generation) || !key_ok {
                return Err(
                    coded_invalid_request(
                        ErrorCode::CellUpdateConflict,
                        "Copy desired_generation and instance_key from cell_inspect before preparing an edit",
                    ),
                );
            }
            Ok(())
        },
        None => {
            if request.expected_generation.is_some() || request.expected_instance_key.is_some()
                || request.patch.is_some() || request.delete_data || request.delete_retained.len()
                > 0 {
                return Err(
                    coded_invalid_request(
                        ErrorCode::CellUpdateConflict,
                        "The requested existing cell is absent; nothing accepted",
                    ),
                );
            }
            Ok(())
        },
    }
}

// ---------------------------------------------------------------------------
// Patches
// ---------------------------------------------------------------------------

/// The parts of a cell a patch edits: components, links and policy.
pub type PatchState = (Seq<ComponentSpec>, Seq<LinkSpec>, String);

/// One patch operation applied to the edited parts, or the message of its refusal.
pub open spec fn patch_step(st: PatchState, op: CellPatch) -> Result<PatchState, Seq<char>> {
    let (cs, ls, policy) = st;
    match op {
        CellPatch::AddComponent { component } => if first_with_id(cs, component.id@) is Some {
            Err("Component "@ + debug_text(component.id@) + " already exists"@)
        } else {
            Ok((cs.push(component), ls, policy))
        },
        CellPatch::UpdateComponent { component } => match first_with_id(cs, component.id@) {
            Some(k) => Ok((cs.update(k, component), ls, policy)),
            None => Err("Component "@ + debug_text(component.id@) + " is absent"@),
        },
        CellPatch::RemoveComponent { id } => match first_with_id(cs, id@) {
            Some(k) => Ok((cs.remove(k), ls, policy)),
            None => Err("Component "@ + debug_text(id@) + " is absent"@),
        },
        CellPatch::AddLink { link } => {
            let l = link_of_input(link);
            if first_with_id(ls, l.id@) is Some {
                Err("Link "@ + debug_text(l.id@) + " already exists"@)
            } else {
                Ok((cs, ls.push(l), policy))
            }
        },
        CellPatch::RemoveLink { id } => match first_with_id(ls, id@) {
            Some(k) => Ok((cs, ls.remove(k), policy)),
            None => Err("Link "@ + debug_text(id@) + " is absent"@),
        },
        CellPatch::SetPolicy { policy: p } => Ok((cs, ls, p)),
    }
}

/// The operations applied in order; the first refusal stops the patch.
pub open spec fn patch_all(st: PatchState, ops: Seq<CellPatch>) -> Result<PatchState, Seq<char>>
    decreases ops.len(),
{
    if ops.len() == 0 {
        Ok(st)
    } else {
        match patch_step(st, ops[0]) {
            Err(m) => Err(m),
            Ok(next) => patch_all(next, ops.drop_first()),
        }
    }
}

/// Applies 1..=100 stable-ID edits atomically in order, then keeps components
/// and links sorted by ID. On success the cell's components, links and policy
/// are exactly those the operations produce, sorted; its name and API version stay.
pub fn apply_patch(cell: &mut CellSpec, patch: Vec<CellPatch>) -> (r: Result<(), ToolError>)
    ensures
        !(1 <= patch@.len() <= 100) ==> (r matches Err(e) && e.is_coded(
            ErrorCode::InvalidCellInput) && e.message@ == "patch must contain 1..=100 operations"@),
        1 <= patch@.len() <= 100 ==> match patch_all(
            (old(cell).components@, old(cell).links@, old(cell).policy),
            patch@,
        ) {
            Err(m) => r matches Err(e) && e.is_coded(ErrorCode::InvalidCellInput) && e.message@ == m,
            Ok((cs, ls, p)) => r is Ok && final(cell).components@ == sort_by_id(cs)
                && final(cell).links@ == sort_by_id(ls) && final(cell).policy == p
                && final(cell).name == old(cell).name && final(cell).api_version == old(
                cell).api_version,
        },
{
    let n = patch.len();
    if n == 0 || n > 100 {
        return Err(invalid("patch must contain 1..=100 operations"));
    }
    let ghost ops = patch@;
    let ghost start: PatchState = (cell.components@, cell.links@, cell.policy);
    let ghost name = cell.name;
    let ghost api = cell.api_version;
    let mut rest = patch;
    let mut i: usize = 0;
    assert(ops.skip(0) =~= ops);
    while rest.len() > 0
        invariant
            i <= ops.len(),
            ops.len() == n,
            1 <= n <= 100,
            ops == patch@,
            start == (old(cell).components@, old(cell).links@, old(cell).policy),
            rest@ == ops.skip(i as int),
            patch_all(start, ops) == patch_all(
                (cell.components@, cell.links@, cell.policy),
                ops.skip(i as int),
            ),
            cell.name == name,
            cell.api_version == api,
        decreases rest@.len(),
    {
        let change = rest.remove(0);
        let ghost st: PatchState = (cell.components@, cell.links@, cell.policy);
        assert(ops.skip(i as int)[0] == change);
        assert(ops.skip(i as int).drop_first() =~= ops.skip(i + 1));
        match change {
            CellPatch::AddComponent { component } => {
                if position_by_id(&cell.components, component.id.as_str()).is_some() {
                    let mut m = String::new();
                    m.append("Component ");
                    let q = debug_quote(component.id.as_str());
                    m.append(q.as_str());
                    m.append(" already exists");
                    return Err(invalid_owned(m));
                }
                cell.components.push(component);
            },
            CellPatch::UpdateComponent { component } => {
                match position_by_id(&cell.components, component.id.as_str()) {
                    None => {
                        let mut m = String::new();
                        m.append("Component ");
                        let q = debug_quote(component.id.as_str());
                        m.append(q.as_str());
                        m.append(" is absent");
                        return Err(invalid_owned(m));
                    },
                    Some(k) => {
                        cell.components.set(k, component);
                    },
                }
            },
            CellPatch::RemoveComponent { id } => {
                match position_by_id(&cell.components, id.as_str()) {
                    None => {
                        let mut m = String::new();
                        m.append("Component ");
                        let q = debug_quote(id.as_str());
                        m.append(q.as_str());
                        m.append(" is absent");
                        return Err(invalid_owned(m));
                    },
                    Some(k) => {
                        cell.components.remove(k);
                    },
                }
            },
            CellPatch::AddLink { link } => {
                let converted = LinkSpec::try_from(link);
                let link = match converted {
                    Ok(l) => l,
                    Err(message) => {
                        return Err(invalid_owned(message));
                    },
                };
                if position_by_id(&cell.links, link.id.as_str()).is_some() {
                    let mut m = String::new();
                    m.append("Link ");
                    let q = debug_quote(link.id.as_str());
                    m.append(q.as_str());
                    m.append(" already exists");
                    return Err(invalid_owned(m));
                }
                cell.links.push(link);
            },
            CellPatch::RemoveLink { id } => {
                match position_by_id(&cell.links, id.as_str()) {
                    None => {
                        let mut m = String::new();
                        m.append("Link ");
                        let q = debug_quote(id.as_str());
                        m.append(q.as_str());
                        m.append(" is absent");
                        return Err(invalid_owned(m));
                    },
                    Some(k) => {
                        cell.links.remove(k);
                    },
                }
            },
            CellPatch::SetPolicy { policy } => {
                cell.policy = policy;
            },
        }
        i = i + 1;
    }
    let mut components: Vec<ComponentSpec> = Vec::new();
    std::mem::swap(&mut components, &mut cell.components);
    cell.components = sort_by_id_exec(components);
    let mut links: Vec<LinkSpec> = Vec::new();
    std::mem::swap(&mut links, &mut cell.links);
    cell.links = sort_by_id_exec(links);
    Ok(())
}

/// The cell a submission describes: the supplied cell, or else the current
/// one, renamed to the request's name and then patched.
pub fn submitted_cell(
    input: Option<CellSpec>,
    current: Option<CellSpec>,
    name: String,
    patch: Option<Vec<CellPatch>>,
) -> (r: Result<CellSpec, ToolError>)
    requires
        input is Some || current is Some,
    ensures
        ({
            let base = if input is Some {
                input->0
            } else {
                current->0
            };
            match patch {
                None => r matches Ok(c) && c.name == name && c.components == base.components
                    && c.links == base.links && c.policy == base.policy && c.api_version
                    == base.api_version,
                Some(p) => if !(1 <= p@.len() <= 100) {
                    r matches Err(e) && e.is_coded(ErrorCode::InvalidCellInput)
                } else {
                    match patch_all((base.components@, base.links@, base.policy), p@) {
                        Err(m) => r matches Err(e) && e.is_coded(ErrorCode::InvalidCellInput)
                            && e.message@ == m,
                        Ok((cs, ls, pol)) => r matches Ok(c) && c.name == name
                            && c.components@ == sort_by_id(cs) && c.links@ == sort_by_id(ls)
                            && c.policy == pol && c.api_version == base.api_version,
                    }
                },
            }
        }),
{
    let mut cell = match input {
        Some(c) => c,
        None => match current {
            Some(c) => c,
            None => {
                return Err(invalid("patch requires existing cell"));
            },
        },
    };
    cell.name = name;
    match patch {
        None => Ok(cell),
        Some(p) => {
            let applied = apply_patch(&mut cell, p);
            match applied {
                Ok(()) => Ok(cell),
                Err(e) => Err(e),
            }
        },
    }
}

/// Adding a component whose ID is new and then removing that ID leaves the
/// edited parts as they were.
pub proof fn lemma_add_then_remove_component(st: PatchState, component: ComponentSpec)
    requires
        first_with_id(st.0, component.id@) is None,
    ensures
        patch_all(
            st,
            seq![
                CellPatch::AddComponent { component },
                CellPatch::RemoveComponent { id: component.id },
            ],
        ) == Ok::<PatchState, Seq<char>>(st),
{
    let (cs, ls, p) = st;
    let ops = seq![
        CellPatch::AddComponent { component },
        CellPatch::RemoveComponent { id: component.id },
    ];
    let added = cs.push(component);
    crate::by_id::lemma_first_with_id_bounds(cs, component.id@);
    lemma_first_with_id_last(cs, component);
    assert(added.remove(cs.len() as int) =~= cs);
    let s1: PatchState = (added, ls, p);
    assert(patch_step(st, ops[0]) == Ok::<PatchState, Seq<char>>(s1));
    assert(component.key() == component.id@);
    assert(first_with_id(added, component.id@) == Some(cs.len() as int));
    assert(patch_step(s1, ops[1]) == Ok::<PatchState, Seq<char>>(st));
    let rest = ops.drop_first();
    assert(rest =~= seq![CellPatch::RemoveComponent { id: component.id }]);
    assert(rest.drop_first() =~= Seq::<CellPatch>::empty());
    assert(patch_all(st, rest.drop_first()) == Ok::<PatchState, Seq<char>>(st));
    assert(patch_all(s1, rest) == Ok::<PatchState, Seq<char>>(st));
}

proof fn lemma_first_with_id_last<T: crate::by_id::Identified>(s: Seq<T>, x: T)
    requires
        first_with_id(s, x.key()) is None,
    ensures
        first_with_id(s.push(x), x.key()) == Some(s.len() as int),
    decreases s.len(),
{
    if s.len() > 0 {
        assert(s.push(x).drop_first() =~= s.drop_first().push(x));
        lemma_first_with_id_last(s.drop_first(), x);
    }
}

/// Adding a link whose ID is new and then removing that ID leaves the edited
/// parts as they were.
pub proof fn lemma_add_then_remove_link(st: PatchState, link: AddLinkInput)
    requires
        first_with_id(st.1, link_of_input(link).id@) is None,
    ensures
        patch_all(
            st,
            seq![
                CellPatch::AddLink { link },
                CellPatch::RemoveLink { id: link_of_input(link).id },
            ],
        ) == Ok::<PatchState, Seq<char>>(st),
{
    let (cs, ls, p) = st;
    let l = link_of_input(link);
    let ops = seq![
        CellPatch::AddLink { link },
        CellPatch::RemoveLink { id: l.id },
    ];
    lemma_first_with_id_last(ls, l);
    assert(ls.push(l).remove(ls.len() as int) =~= ls);
    let s1: PatchState = (cs, ls.push(l), p);
    assert(patch_step(st, ops[0]) == Ok::<PatchState, Seq<char>>(s1));
    assert(l.key() == l.id@);
    assert(patch_step(s1, ops[1]) == Ok::<PatchState, Seq<char>>(st));
    let rest = ops.drop_first();
    assert(rest =~= seq![CellPatch::RemoveLink { id: l.id }]);
    assert(rest.drop_first() =~= Seq::<CellPatch>::empty());
    assert(patch_all(st, rest.drop_first()) == Ok::<PatchState, Seq<char>>(st));
    assert(patch_all(s1, rest) == Ok::<PatchState, Seq<char>>(st));
}

/// A component already present cannot be added again: the patch is refused.
pub proof fn lemma_duplicate_component_refused(st: PatchState, component: ComponentSpec, rest: Seq<CellPatch>)
    requires
        first_with_id(st.0, component.id@) is Some,
    ensures
        patch_all(st, seq![CellPatch::AddComponent { component }] + rest) is Err,
{
    assert((seq![CellPatch::AddComponent { component }] + rest)[0] == CellPatch::AddComponent { component });
}

/// Components and links of a successfully patched cell are sorted by ID and
/// are exactly those the operations produce.
pub proof fn lemma_patched_cell_sorted(cs: Seq<ComponentSpec>, ls: Seq<LinkSpec>)
    ensures
        crate::by_id::sorted_by_id(sort_by_id(cs)),
        sort_by_id(cs).to_multiset() =~= cs.to_multiset(),
        crate::by_id::sorted_by_id(sort_by_id(ls)),
        sort_by_id(ls).to_multiset() =~= ls.to_multiset(),
{
    crate::by_id::lemma_sort_by_id_sorted_permutation(cs);
    crate::by_id::lemma_sort_by_id_sorted_permutation(ls);
}


/// Replaying a submission: the first request under an ID goes ahead, and once
/// its preview is saved under the request's digest, the same request sent again
/// replays that preview, while different input under the same ID is refused
/// as an idempotency conflict.
pub proof fn lemma_submission_replay(request_digest: Seq<char>, other_digest: Seq<char>)
    ensures
        retry_decision(None, request_digest) == Ok::<bool, ErrorCode>(false),
        retry_decision(Some(request_digest), request_digest) == Ok::<bool, ErrorCode>(true),
        other_digest != request_digest ==> retry_decision(Some(request_digest), other_digest) == Err::<
            bool,
            ErrorCode,
        >(ErrorCode::IdempotencyConflict),
{
}

/// What a submission's shape check admits: a request whose ID is empty, which
/// supplies other than exactly one of cell, patch and plan, or which binds a
/// plan while also asking for an edit option (an expected generation or
/// instance key, deleting data or retained volumes) or outside `cell_up` is
/// refused; a request of sizes within bounds that supplies exactly one form,
/// and binds a plan only to `cell_up` without edit options, is admitted.
pub proof fn lemma_submission_shape(r: SubmissionRequest, applying: bool)
    ensures
        r.request_id@.len() == 0 ==> submission_shape_error(r, applying) is Some,
        !((r.cell is Some && r.patch is None && r.plan is None) || (r.cell is None && r.patch is Some
            && r.plan is None) || (r.cell is None && r.patch is None && r.plan is Some))
            ==> submission_shape_error(r, applying) is Some,
        r.plan is Some && (!applying || r.expected_generation is Some || r.expected_instance_key is Some
            || r.delete_data || r.delete_retained@.len() > 0) ==> submission_shape_error(r, applying) is Some,
        (0 < r.request_id@.len() && byte_len(r.request_id@) <= 128 && byte_len(r.name@) <= 63
            && ((r.cell is Some && r.patch is None && r.plan is None) || (r.cell is None && r.patch is Some
            && r.plan is None) || (r.cell is None && r.patch is None && r.plan is Some && applying
            && r.expected_generation is None && r.expected_instance_key is None && !r.delete_data
            && r.delete_retained@.len() == 0))) ==> submission_shape_error(r, applying) is None,
{
}

} // verus!
