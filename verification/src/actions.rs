//! Admission of runtime actions against a published revision: the components
//! an action names must exist, resolve to locked images and offer the service.
use crate::error::{ErrorCode, ErrorDetail, ErrorKind, ToolError, coded_invalid_request, invalid_operation};
use crate::model::{OperationPhase, PublishedRevision};
use crate::catalog::{CatalogEntryKey, entry_not_found_message, entry_views, exact_catalog_entry, first_entry};
use crate::text::{debug_quote, debug_text, str_eq, string_views};
use crate::model::ComponentKind;
use crate::transfer::{component_image_any, component_image_spec, first_component};
use vstd::prelude::*;

verus! {

broadcast use vstd::string::group_string_axioms;

/// "component <id> is not part of this cell revision", with the ID debug-quoted.
pub open spec fn not_in_revision(id: Seq<char>) -> Seq<char> {
    "component "@ + debug_text(id) + " is not part of this cell revision"@
}

fn not_in_revision_error(id: &str) -> (e: ToolError)
    ensures
        e.is_coded(ErrorCode::InvalidOperation),
        e.message@ == not_in_revision(id@),
{
    let mut m = String::new();
    m.append("component ");
    let q = debug_quote(id);
    m.append(q.as_str());
    m.append(" is not part of this cell revision");
    invalid_operation(m.as_str())
}

fn find_in_revision(revision: &PublishedRevision, id: &str) -> (r: Option<usize>)
    ensures
        match first_component(revision.cell.components@, id@) {
            Some(k) => (r matches Some(x) && x == k) && k < revision.cell.components@.len(),
            None => r is None,
        },
{
    let cs = &revision.cell.components;
    let mut i: usize = 0;
    while i < cs.len()
        invariant
            i <= cs@.len(),
            cs@ == revision.cell.components@,
            forall|k: int| 0 <= k < i ==> cs@[k].id@ != id@,
        decreases cs@.len() - i,
    {
        if str_eq(cs[i].id.as_str(), id) {
            proof {
                lemma_first_component_at(cs@, id@, i as int);
            }
            return Some(i);
        }
        i = i + 1;
    }
    proof {
        lemma_first_component_absent(cs@, id@);
    }
    None
}

proof fn lemma_first_component_at(cs: Seq<crate::model::ComponentSpec>, id: Seq<char>, i: int)
    requires
        0 <= i < cs.len(),
        cs[i].id@ == id,
        forall|k: int| 0 <= k < i ==> cs[k].id@ != id,
    ensures
        first_component(cs, id) == Some(i),
    decreases i,
{
    if i > 0 {
        let t = cs.drop_first();
        assert forall|k: int| 0 <= k < i - 1 implies t[k].id@ != id by {
            assert(t[k] == cs[k + 1]);
        }
        lemma_first_component_at(t, id, i - 1);
    }
}

proof fn lemma_first_component_absent(cs: Seq<crate::model::ComponentSpec>, id: Seq<char>)
    requires
        forall|k: int| 0 <= k < cs.len() ==> cs[k].id@ != id,
    ensures
        first_component(cs, id) is None,
    decreases cs.len(),
{
    if cs.len() > 0 {
        let t = cs.drop_first();
        assert forall|k: int| 0 <= k < t.len() implies t[k].id@ != id by {
            assert(t[k] == cs[k + 1]);
        }
        lemma_first_component_absent(t, id);
    }
}

/// Whether the revision has a component with this ID.
pub open spec fn in_revision(revision: PublishedRevision, id: Seq<char>) -> bool {
    first_component(revision.cell.components@, id) is Some
}

/// Both partition endpoints must be components of the revision.
pub fn check_partition_components(revision: &PublishedRevision, from: &str, to: &str) -> (r: Result<
    (),
    ToolError,
>)
    ensures
        r is Ok <==> (in_revision(*revision, from@) && in_revision(*revision, to@)),
        r matches Err(e) ==> e.is_coded(ErrorCode::InvalidOperation) && e.message@ == if !in_revision(
            *revision,
            from@,
        ) {
            not_in_revision(from@)
        } else {
            not_in_revision(to@)
        },
{
    if find_in_revision(revision, from).is_none() {
        return Err(not_in_revision_error(from));
    }
    if find_in_revision(revision, to).is_none() {
        return Err(not_in_revision_error(to));
    }
    Ok(())
}

/// A probe's source must exist and its destination must exist; returns the
/// destination's index so that its advertised services can be looked up.
pub fn probe_destination(revision: &PublishedRevision, from: &str, to: &str) -> (r: Result<
    usize,
    ToolError,
>)
    ensures
        !in_revision(*revision, from@) ==> (r matches Err(e) && e.is_coded(ErrorCode::InvalidOperation)
            && e.message@ == not_in_revision(from@)),
        in_revision(*revision, from@) ==> match first_component(revision.cell.components@, to@) {
            Some(k) => r matches Ok(x) && x == k,
            None => r matches Err(e) && e.is_coded(ErrorCode::InvalidOperation) && e.message@
                == not_in_revision(to@),
        },
{
    if find_in_revision(revision, from).is_none() {
        return Err(not_in_revision_error(from));
    }
    match find_in_revision(revision, to) {
        Some(k) => Ok(k),
        None => Err(not_in_revision_error(to)),
    }
}

/// The destination must advertise the probed logical service.
pub fn check_probe_service(to: &str, service: &str, services: &Vec<String>) -> (r: Result<(), ToolError>)
    ensures
        r is Ok <==> exists|i: int| 0 <= i < services@.len() && #[trigger] services@[i]@ == service@,
        r matches Err(e) ==> e.is_coded(ErrorCode::InvalidOperation) && e.message@ == "component "@
            + debug_text(to@) + " does not advertise logical service "@ + debug_text(service@),
{
    let mut i: usize = 0;
    while i < services.len()
        invariant
            i <= services@.len(),
            forall|k: int| 0 <= k < i ==> #[trigger] services@[k]@ != service@,
        decreases services@.len() - i,
    {
        if str_eq(services[i].as_str(), service) {
            return Ok(());
        }
        i = i + 1;
    }
    let mut m = String::new();
    m.append("component ");
    let q = debug_quote(to);
    m.append(q.as_str());
    m.append(" does not advertise logical service ");
    let s = debug_quote(service);
    m.append(s.as_str());
    Err(invalid_operation(m.as_str()))
}

/// What resolving a named component to its locked image yields: an unknown
/// component, or the lock lookup for the component's own kind.
pub open spec fn named_component_spec(revision: PublishedRevision, id: Seq<char>) -> Result<Seq<char>, ErrorCode> {
    match first_component(revision.cell.components@, id) {
        None => Err(ErrorCode::InvalidOperation),
        Some(k) => component_image_spec(revision, id, revision.cell.components@[k].kind),
    }
}

/// Resolves a component named by a logs or forensics request to its locked image.
pub fn named_component_image(revision: &PublishedRevision, id: &str, missing: &str) -> (r: Result<
    String,
    ToolError,
>)
    ensures
        match named_component_spec(*revision, id@) {
            Ok(image) => r matches Ok(s) && s@ == image,
            Err(code) => r matches Err(e) && e.code == Some(code),
        },
        first_component(revision.cell.components@, id@) is None ==> (r matches Err(e) && e.message@
            == missing@),
{
    match find_in_revision(revision, id) {
        None => Err(invalid_operation(missing)),
        Some(k) => component_image_any(revision, id, revision.cell.components[k].kind),
    }
}

/// The component a forensics script inspects: the target when given, else the component itself.
pub fn forensics_target(component: &str, target_component: &Option<String>) -> (r: String)
    ensures
        r@ == match target_component {
            Some(t) => t@,
            None => component@,
        },
{
    match target_component {
        Some(t) => t.clone(),
        None => component.to_owned(),
    }
}

/// What a heal reads of the partition operation it undoes.
#[derive(Clone, Debug)]
pub struct PartitionRecord {
    /// The operation kind, by its wire name.
    pub kind: String,
    pub instance_id: String,
    pub experiment_id: String,
    pub phase: OperationPhase,
}

/// A heal undoes a succeeded partition of the same instance and experiment.
pub open spec fn heal_ok(p: PartitionRecord, instance_id: Seq<char>, experiment_id: Seq<char>) -> bool {
    p.kind@ == "network_partition"@ && p.instance_id@ == instance_id && p.experiment_id@ == experiment_id
        && p.phase == OperationPhase::Succeeded
}

/// Checks the partition a heal names.
pub fn check_heal_partition(partition: &PartitionRecord, instance_id: &str, experiment_id: &str) -> (r:
    Result<(), ToolError>)
    ensures
        r is Ok <==> heal_ok(*partition, instance_id@, experiment_id@),
        r matches Err(e) ==> e.is_coded(ErrorCode::InvalidOperation),
{
    if !str_eq(partition.kind.as_str(), "network_partition") || !str_eq(
        partition.instance_id.as_str(),
        instance_id,
    ) || !str_eq(partition.experiment_id.as_str(), experiment_id) || partition.phase
        != OperationPhase::Succeeded {
        return Err(
            invalid_operation(
                "partition operation must be succeeded and belong to the same instance and experiment",
            ),
        );
    }
    Ok(())
}

/// Whether `needle` occurs in `s` as a contiguous run.
pub open spec fn occurs(s: Seq<char>, needle: Seq<char>) -> bool {
    exists|i: int| 0 <= i <= s.len() - needle.len() && #[trigger] s.subrange(i, i + needle.len()) == needle
}

fn occurs_exec(s: &Vec<char>, needle: &Vec<char>) -> (r: bool)
    ensures
        r == occurs(s@, needle@),
{
    if needle.len() > s.len() {
        return false;
    }
    let ns = s.len();
    let last = s.len() - needle.len();
    let mut i: usize = 0;
    while i <= last
        invariant
            ns == s@.len(),
            last == s@.len() - needle@.len(),
            needle@.len() <= s@.len(),
            i <= last + 1,
            forall|k: int| 0 <= k < i ==> #[trigger] s@.subrange(k, k + needle@.len()) != needle@,
        decreases last + 1 - i,
    {
        let mut j: usize = 0;
        let mut same = true;
        while j < needle.len()
            invariant
                ns == s@.len(),
                needle@.len() <= s@.len(),
                i <= last,
                last == s@.len() - needle@.len(),
                j <= needle@.len(),
                same == forall|m: int| 0 <= m < j ==> s@[i + m] == needle@[m],
            decreases needle@.len() - j,
        {
            if s[i + j] != needle[j] {
                same = false;
            }
            j = j + 1;
        }
        if same {
            assert(s@.subrange(i as int, i + needle@.len()) =~= needle@);
            return true;
        }
        assert(s@.subrange(i as int, i + needle@.len()) != needle@) by {
            let m = choose|m: int| 0 <= m < needle@.len() && s@[i + m] != needle@[m];
            assert(s@.subrange(i as int, i + needle@.len())[m] == s@[i + m]);
        }
        i = i + 1;
    }
    assert forall|k: int| 0 <= k <= s@.len() - needle@.len() implies #[trigger] s@.subrange(k, k + needle@.len()) != needle@ by {
    }
    false
}

/// The error of a native command refused before execution: a message about
/// output fields becomes an invalid-params error with guidance; any other is an
/// invalid operation with the message unchanged.
pub fn native_command_error(message: &str) -> (e: ToolError)
    ensures
        occurs(message@, "field"@) ==> e.kind == ErrorKind::InvalidParams && e.code == Some(
            ErrorCode::NativeOutputInvalid,
        ) && e.message@ == message@
            + ". The command was not executed. json_fields only supports the fixed receipt fields listed in output's schema. For addresses, node IDs, help, or other native JSON, use output: {\"mode\":\"public\"} with no fields. For LND addinvoice, use output: {\"mode\":\"lnd_invoice\"}."@,
        !occurs(message@, "field"@) ==> e.is_coded(ErrorCode::InvalidOperation) && e.message@ == message@,
{
    let chars = crate::text::chars_of(message);
    let field = crate::text::chars_of("field");
    if occurs_exec(&chars, &field) {
        let mut m = message.to_owned();
        m.append(
            ". The command was not executed. json_fields only supports the fixed receipt fields listed in output's schema. For addresses, node IDs, help, or other native JSON, use output: {\"mode\":\"public\"} with no fields. For LND addinvoice, use output: {\"mode\":\"lnd_invoice\"}.",
        );
        return ToolError { kind: ErrorKind::InvalidParams, code: Some(ErrorCode::NativeOutputInvalid), message: m, detail: ErrorDetail::Plain };
    }
    invalid_operation(message)
}

/// What a candidate build needs of its record to be built.
#[derive(Clone, Debug)]
pub struct CandidateSourceView {
    pub implementation: String,
    pub repository: Option<String>,
    pub commit_sha: Option<String>,
    pub version: Option<String>,
    /// The Dockerfile of the candidate's provenance profile, when it has provenance.
    pub provenance_dockerfile: Option<String>,
}

/// The Dockerfile a candidate builds with: its provenance profile's, else the
/// adapter's for the implementation, if it has one.
pub open spec fn dockerfile_spec(implementation: Seq<char>, provenance: Option<Seq<char>>) -> Option<Seq<char>> {
    match provenance {
        Some(d) => Some(d),
        None => if implementation == "cdk"@ || implementation == "cdk-bdk"@ || implementation == "nutshell"@
            || implementation == "nutshell-wallet"@ {
            Some("Dockerfile"@)
        } else if implementation == "cdk-ldk"@ {
            Some("Dockerfile.ldk-node"@)
        } else {
            None
        },
    }
}

/// What planning a candidate build yields: the first missing field, an
/// unsupported implementation, or the image repository and Dockerfile.
pub open spec fn candidate_plan_spec(c: CandidateSourceView, registry: Seq<char>) -> Result<(Seq<char>, Seq<char>), ErrorCode> {
    if c.repository is None || c.commit_sha is None {
        Err(ErrorCode::CandidateSourceMissing)
    } else if c.version is None {
        Err(ErrorCode::CandidateVersionMissing)
    } else {
        match dockerfile_spec(
            c.implementation@,
            match c.provenance_dockerfile {
                Some(d) => Some(d@),
                None => None,
            },
        ) {
            None => Err(ErrorCode::CandidateImplementationUnsupported),
            Some(d) => Ok((
                registry + seq!['/'] + (if c.provenance_dockerfile is Some {
                    "candidates"@
                } else {
                    "proofstorm-candidates"@
                }) + seq!['/'] + c.implementation@,
                d,
            )),
        }
    }
}

/// Plans a candidate build: its image repository under the registry and its Dockerfile.
pub fn candidate_build_plan(candidate: &CandidateSourceView, registry: &str) -> (r: Result<(String, String), ToolError>)
    ensures
        match candidate_plan_spec(*candidate, registry@) {
            Ok((repo, dockerfile)) => r matches Ok((a, b)) && a@ == repo && b@ == dockerfile,
            Err(code) => r matches Err(e) && e.is_coded(code),
        },
{
    if candidate.repository.is_none() {
        return Err(coded_invalid_request(ErrorCode::CandidateSourceMissing, "candidate repository is missing"));
    }
    if candidate.commit_sha.is_none() {
        return Err(coded_invalid_request(ErrorCode::CandidateSourceMissing, "candidate commit SHA is missing"));
    }
    if candidate.version.is_none() {
        return Err(coded_invalid_request(ErrorCode::CandidateVersionMissing, "candidate version is missing"));
    }
    let implementation = candidate.implementation.as_str();
    let dockerfile: Option<String> = match &candidate.provenance_dockerfile {
        Some(d) => Some(d.clone()),
        None => if str_eq(implementation, "cdk") || str_eq(implementation, "cdk-bdk") || str_eq(
            implementation,
            "nutshell",
        ) || str_eq(implementation, "nutshell-wallet") {
            Some("Dockerfile".to_owned())
        } else if str_eq(implementation, "cdk-ldk") {
            Some("Dockerfile.ldk-node".to_owned())
        } else {
            None
        },
    };
    let dockerfile = match dockerfile {
        Some(d) => d,
        None => {
            return Err(
                coded_invalid_request(
                    ErrorCode::CandidateImplementationUnsupported,
                    "candidate implementation has no build adapter",
                ),
            );
        },
    };
    let mut repo = registry.to_owned();
    crate::text::push_char(&mut repo, '/');
    if candidate.provenance_dockerfile.is_some() {
        repo.append("candidates");
    } else {
        repo.append("proofstorm-candidates");
    }
    crate::text::push_char(&mut repo, '/');
    repo.append(implementation);
    Ok((repo, dockerfile))
}

/// A removal waits at most thirty seconds; a zero timeout is refused.
pub fn removal_wait_seconds(timeout_seconds: u32) -> (r: Result<u32, ToolError>)
    ensures
        timeout_seconds == 0 ==> (r matches Err(e) && e.is_coded(ErrorCode::InvalidOperation)),
        timeout_seconds > 0 ==> r == Ok::<u32, ToolError>(if timeout_seconds < 30 { timeout_seconds } else { 30 }),
{
    if timeout_seconds == 0 {
        return Err(invalid_operation("timeout_seconds must be positive"));
    }
    Ok(if timeout_seconds < 30 {
        timeout_seconds
    } else {
        30
    })
}

/// A removal is complete when its teardown receipt verified the cell absent;
/// otherwise it timed out. Returns (complete, timed_out).
pub fn removal_outcome(verified_absent: Option<bool>) -> (r: (bool, bool))
    ensures
        r.0 == (verified_absent == Some(true)),
        r.1 == !r.0,
{
    let complete = match verified_absent {
        Some(v) => v,
        None => false,
    };
    (complete, !complete)
}

/// A balance read names a wallet and a mint of the revision, each locked to an image.
pub fn check_wallet_balance_components(revision: &PublishedRevision, wallet: &str, mint: &str) -> (r:
    Result<(), ToolError>)
    ensures
        match component_image_spec(*revision, wallet@, ComponentKind::Wallet) {
            Err(code) => r matches Err(e) && e.code == Some(code),
            Ok(_) => match component_image_spec(*revision, mint@, ComponentKind::Mint) {
                Err(code) => r matches Err(e) && e.code == Some(code),
                Ok(_) => r is Ok,
            },
        },
{
    let w = component_image_any(revision, wallet, ComponentKind::Wallet);
    if let Err(e) = w {
        return Err(e);
    }
    let m = component_image_any(revision, mint, ComponentKind::Mint);
    if let Err(e) = m {
        return Err(e);
    }
    Ok(())
}

/// How a cancellation the runtime did not take over ends: a pending action is
/// cancelled before submission; a running one fails with its action missing.
/// `None` for a terminal operation, which is returned unchanged.
pub fn cancellation_outcome(phase: OperationPhase) -> (r: Option<OperationPhase>)
    ensures
        r == match phase {
            OperationPhase::Succeeded | OperationPhase::Failed | OperationPhase::Cancelled => None,
            OperationPhase::Pending => Some(OperationPhase::Cancelled),
            OperationPhase::Running => Some(OperationPhase::Failed),
        },
{
    match phase {
        OperationPhase::Succeeded | OperationPhase::Failed | OperationPhase::Cancelled => None,
        OperationPhase::Pending => Some(OperationPhase::Cancelled),
        OperationPhase::Running => Some(OperationPhase::Failed),
    }
}

// ---------------------------------------------------------------------------
// Runtime controls
// ---------------------------------------------------------------------------

/// A runtime endpoint of an installed release: its ID, the controls it
/// accepts and its limitations.
#[derive(Clone, Debug)]
pub struct RuntimeEndpointView {
    pub id: String,
    pub controls: Vec<String>,
    pub limitations: Vec<String>,
}

/// An installed release with its runtime endpoints.
#[derive(Clone, Debug)]
pub struct CatalogRuntimeEntry {
    pub id: String,
    pub version: String,
    pub runtime_endpoints: Vec<RuntimeEndpointView>,
}

/// The ID and version of each runtime entry.
pub open spec fn runtime_entry_views(es: Seq<CatalogRuntimeEntry>) -> Seq<(Seq<char>, Seq<char>)> {
    es.map_values(|e: CatalogRuntimeEntry| (e.id@, e.version@))
}

/// The first endpoint with this ID.
pub open spec fn first_endpoint(eps: Seq<RuntimeEndpointView>, id: Seq<char>) -> Option<int>
    decreases eps.len(),
{
    if eps.len() == 0 {
        None
    } else {
        match first_endpoint(eps.drop_last(), id) {
            Some(k) => Some(k),
            None => if eps.last().id@ == id {
                Some(eps.len() - 1)
            } else {
                None
            },
        }
    }
}

/// Items joined by `; `.
pub open spec fn semicolon_list(items: Seq<Seq<char>>) -> Seq<char>
    decreases items.len(),
{
    if items.len() == 0 {
        Seq::empty()
    } else if items.len() == 1 {
        items[0]
    } else {
        semicolon_list(items.drop_last()) + "; "@ + items.last()
    }
}

/// The version a component pins, or the empty version.
pub open spec fn pinned_version(v: Option<String>) -> Seq<char> {
    match v {
        Some(s) => s@,
        None => Seq::empty(),
    }
}

/// "component <id> is not in this revision".
pub open spec fn component_missing_message(id: Seq<char>) -> Seq<char> {
    "component "@ + debug_text(id) + " is not in this revision"@
}

/// "component <id> has no runtime endpoint <endpoint>".
pub open spec fn endpoint_missing_message(id: Seq<char>, endpoint: Seq<char>) -> Seq<char> {
    "component "@ + debug_text(id) + " has no runtime endpoint "@ + debug_text(endpoint)
}

/// The refusal of a control an endpoint does not offer, with its limitations.
pub open spec fn control_unsupported_message(id: Seq<char>, endpoint: Seq<char>, control: Seq<char>, limitations: Seq<Seq<char>>) -> Seq<char> {
    "component "@ + debug_text(id) + " endpoint "@ + debug_text(endpoint) + " cannot execute "@
        + debug_text(control) + "; no operation was created. "@ + semicolon_list(limitations)
}

/// What admitting a runtime control yields: the component must be in the
/// revision, its release installed, the endpoint present and the control offered.
pub open spec fn runtime_control_result(
    revision: PublishedRevision,
    component_id: Seq<char>,
    endpoint_id: Seq<char>,
    control: Seq<char>,
    es: Seq<CatalogRuntimeEntry>,
    r: Result<(), ToolError>,
) -> bool {
    match first_component(revision.cell.components@, component_id) {
        None => r matches Err(e) && e.is_coded(ErrorCode::ComponentIdUnknown) && e.message@
            == component_missing_message(component_id),
        Some(c) => {
            let comp = revision.cell.components@[c];
            let version = pinned_version(comp.version);
            match first_entry(runtime_entry_views(es), comp.implementation@, version) {
                None => r matches Err(e) && e.kind == ErrorKind::ResourceNotFound && e.code == Some(
                    ErrorCode::CatalogEntryNotFound,
                ) && e.message@ == entry_not_found_message(runtime_entry_views(es), comp.implementation@, version),
                Some(k) => match first_endpoint(es[k].runtime_endpoints@, endpoint_id) {
                    None => r matches Err(e) && e.is_coded(ErrorCode::RuntimeEndpointNotFound) && e.message@
                        == endpoint_missing_message(component_id, endpoint_id),
                    Some(j) => {
                        let ep = es[k].runtime_endpoints@[j];
                        if string_views(ep.controls@).contains(control) {
                            r is Ok
                        } else {
                            r matches Err(e) && e.is_coded(ErrorCode::RuntimeControlUnsupported) && e.message@
                                == control_unsupported_message(
                                component_id,
                                endpoint_id,
                                control,
                                string_views(ep.limitations@),
                            ) && (e.detail matches ErrorDetail::RuntimeControlUnsupported {
                                component_id: cid,
                                implementation,
                                endpoint_id: eid,
                                endpoint_controls,
                                endpoint_limitations,
                                requested_control,
                            } && cid@ == component_id && implementation@ == es[k].id@ && eid@ == endpoint_id
                                && string_views(endpoint_controls@) == string_views(ep.controls@)
                                && string_views(endpoint_limitations@) == string_views(ep.limitations@)
                                && requested_control@ == control)
                        }
                    },
                },
            }
        },
    }
}

fn runtime_keys(entries: &Vec<CatalogRuntimeEntry>) -> (r: Vec<CatalogEntryKey>)
    ensures
        entry_views(r@) == runtime_entry_views(entries@),
{
    let mut r: Vec<CatalogEntryKey> = Vec::new();
    let mut i: usize = 0;
    while i < entries.len()
        invariant
            i <= entries@.len(),
            entry_views(r@) == runtime_entry_views(entries@.take(i as int)),
        decreases entries@.len() - i,
    {
        let ghost before = r@;
        r.push(CatalogEntryKey { id: entries[i].id.clone(), version: entries[i].version.clone() });
        assert(entry_views(r@) =~= entry_views(before).push((entries@[i as int].id@, entries@[i as int].version@)));
        assert(runtime_entry_views(entries@.take(i + 1)) =~= runtime_entry_views(entries@.take(i as int)).push(
            (entries@[i as int].id@, entries@[i as int].version@),
        ));
        i = i + 1;
    }
    assert(entries@.take(i as int) =~= entries@);
    r
}

fn find_endpoint(eps: &Vec<RuntimeEndpointView>, id: &str) -> (r: Option<usize>)
    ensures
        match first_endpoint(eps@, id@) {
            Some(j) => (r matches Some(x) && x as int == j) && 0 <= j < eps@.len(),
            None => r is None,
        },
{
    let mut i: usize = 0;
    while i < eps.len()
        invariant
            i <= eps@.len(),
            first_endpoint(eps@.take(i as int), id@) is None,
        decreases eps@.len() - i,
    {
        assert(eps@.take(i + 1).drop_last() =~= eps@.take(i as int));
        if str_eq(eps[i].id.as_str(), id) {
            assert(first_endpoint(eps@.take(i + 1), id@) == Some(i as int));
            proof {
                lemma_first_endpoint_prefix(eps@, id@, i + 1);
            }
            return Some(i);
        }
        i = i + 1;
    }
    assert(eps@.take(i as int) =~= eps@);
    None
}

proof fn lemma_first_endpoint_prefix(eps: Seq<RuntimeEndpointView>, id: Seq<char>, n: int)
    requires
        0 <= n <= eps.len(),
        first_endpoint(eps.take(n), id) is Some,
    ensures
        first_endpoint(eps, id) == first_endpoint(eps.take(n), id),
    decreases eps.len() - n,
{
    if n < eps.len() {
        assert(eps.take(n + 1).drop_last() =~= eps.take(n));
        lemma_first_endpoint_prefix(eps, id, n + 1);
    } else {
        assert(eps.take(n) =~= eps);
    }
}

fn offers(controls: &Vec<String>, control: &str) -> (r: bool)
    ensures
        r == string_views(controls@).contains(control@),
{
    let mut i: usize = 0;
    while i < controls.len()
        invariant
            i <= controls@.len(),
            forall|k: int| 0 <= k < i ==> controls@[k]@ != control@,
        decreases controls@.len() - i,
    {
        if str_eq(controls[i].as_str(), control) {
            assert(string_views(controls@)[i as int] == control@);
            return true;
        }
        i = i + 1;
    }
    assert forall|k: int| 0 <= k < string_views(controls@).len() implies string_views(controls@)[k] != control@ by {
        assert(string_views(controls@)[k] == controls@[k]@);
    }
    false
}

fn join_semicolons(items: &Vec<String>) -> (r: String)
    ensures
        r@ == semicolon_list(string_views(items@)),
{
    let mut out = String::new();
    let mut i: usize = 0;
    while i < items.len()
        invariant
            i <= items@.len(),
            out@ == semicolon_list(string_views(items@).take(i as int)),
        decreases items@.len() - i,
    {
        let ghost pre = string_views(items@).take(i as int);
        assert(string_views(items@).take(i + 1).drop_last() =~= pre);
        assert(string_views(items@).take(i + 1).last() == items@[i as int]@);
        if i > 0 {
            out.append("; ");
        }
        out.append(items[i].as_str());
        proof {
            if i == 0 {
                assert(out@ =~= items@[0]@);
            }
        }
        i = i + 1;
    }
    assert(string_views(items@).take(i as int) =~= string_views(items@));
    out
}

fn clone_strings(items: &Vec<String>) -> (r: Vec<String>)
    ensures
        string_views(r@) == string_views(items@),
{
    let mut r: Vec<String> = Vec::new();
    let mut i: usize = 0;
    while i < items.len()
        invariant
            i <= items@.len(),
            string_views(r@) == string_views(items@).take(i as int),
        decreases items@.len() - i,
    {
        let ghost before = string_views(r@);
        r.push(items[i].clone());
        assert(string_views(r@) =~= before.push(items@[i as int]@));
        assert(string_views(items@).take(i + 1) =~= string_views(items@).take(i as int).push(items@[i as int]@));
        i = i + 1;
    }
    assert(string_views(items@).take(i as int) =~= string_views(items@));
    r
}

/// Admits a runtime control on a component's endpoint: the component is in
/// the revision, its exact release is installed, the endpoint exists and
/// offers the control; otherwise no operation is created and the error says why.
pub fn require_component_runtime_control(
    revision: &PublishedRevision,
    component_id: &str,
    endpoint_id: &str,
    control: &str,
    entries: &Vec<CatalogRuntimeEntry>,
) -> (r: Result<(), ToolError>)
    ensures
        runtime_control_result(*revision, component_id@, endpoint_id@, control@, entries@, r),
{
    let c = match find_in_revision(revision, component_id) {
        Some(c) => c,
        None => {
            let mut m = String::new();
            m.append("component ");
            let q = debug_quote(component_id);
            m.append(q.as_str());
            m.append(" is not in this revision");
            return Err(coded_invalid_request(ErrorCode::ComponentIdUnknown, m.as_str()));
        },
    };
    let component = &revision.cell.components[c];
    let version: &str = match &component.version {
        Some(v) => v.as_str(),
        None => "",
    };
    proof {
        reveal_strlit("");
    }
    assert(version@ == pinned_version(component.version));
    let keys = runtime_keys(entries);
    let k = match exact_catalog_entry(&keys, component.implementation.as_str(), version) {
        Ok(k) => k,
        Err(e) => {
            return Err(e);
        },
    };
    proof {
        crate::catalog::lemma_first_entry_bounds(entry_views(keys@), component.implementation@, version@);
    }
    let entry = &entries[k];
    let j = match find_endpoint(&entry.runtime_endpoints, endpoint_id) {
        Some(j) => j,
        None => {
            let mut m = String::new();
            m.append("component ");
            let q = debug_quote(component_id);
            m.append(q.as_str());
            m.append(" has no runtime endpoint ");
            let qe = debug_quote(endpoint_id);
            m.append(qe.as_str());
            return Err(coded_invalid_request(ErrorCode::RuntimeEndpointNotFound, m.as_str()));
        },
    };
    let endpoint = &entry.runtime_endpoints[j];
    assert(first_component(revision.cell.components@, component_id@) == Some(c as int));
    assert(first_entry(runtime_entry_views(entries@), component.implementation@, version@) == Some(k as int));
    assert(first_endpoint(entries@[k as int].runtime_endpoints@, endpoint_id@) == Some(j as int));
    if offers(&endpoint.controls, control) {
        return Ok(());
    }
    let mut m = String::new();
    m.append("component ");
    let q = debug_quote(component_id);
    m.append(q.as_str());
    m.append(" endpoint ");
    let qe = debug_quote(endpoint_id);
    m.append(qe.as_str());
    m.append(" cannot execute ");
    let qc = debug_quote(control);
    m.append(qc.as_str());
    m.append("; no operation was created. ");
    let limits = join_semicolons(&endpoint.limitations);
    m.append(limits.as_str());
    Err(
        ToolError {
            kind: ErrorKind::InvalidRequest,
            code: Some(ErrorCode::RuntimeControlUnsupported),
            message: m,
            detail: ErrorDetail::RuntimeControlUnsupported {
                component_id: component_id.to_owned(),
                implementation: entry.id.clone(),
                endpoint_id: endpoint_id.to_owned(),
                endpoint_controls: clone_strings(&endpoint.controls),
                endpoint_limitations: clone_strings(&endpoint.limitations),
                requested_control: control.to_owned(),
            },
        },
    )
}

/// Admits a wallet action: the wallet must be in the revision; a Nutshell
/// wallet takes wallet actions itself, any other wallet must offer the control
/// on its `component` endpoint.
pub fn require_wallet_action(
    revision: &PublishedRevision,
    wallet: &str,
    control: &str,
    entries: &Vec<CatalogRuntimeEntry>,
) -> (r: Result<(), ToolError>)
    ensures
        match first_component(revision.cell.components@, wallet@) {
            None => r matches Err(e) && e.is_coded(ErrorCode::ComponentIdUnknown) && e.message@
                == "wallet is not in the revision"@,
            Some(c) => if revision.cell.components@[c].implementation@ == "nutshell-wallet"@ {
                r is Ok
            } else {
                runtime_control_result(*revision, wallet@, "component"@, control@, entries@, r)
            },
        },
{
    let c = match find_in_revision(revision, wallet) {
        Some(c) => c,
        None => {
            return Err(coded_invalid_request(ErrorCode::ComponentIdUnknown, "wallet is not in the revision"));
        },
    };
    if str_eq(revision.cell.components[c].implementation.as_str(), "nutshell-wallet") {
        return Ok(());
    }
    require_component_runtime_control(revision, wallet, "component", control, entries)
}

} // verus!
