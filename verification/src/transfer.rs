//! Private transfers between wallet components: admission of the public
//! method-specific input and of its endpoints against a published revision.
use crate::error::{ErrorCode, ErrorDetail, ErrorKind, ToolError, invalid_operation};
use crate::model::{ComponentKind, ComponentSpec, LockEntry, PublishedRevision};
use crate::text::{debug_quote, debug_string_list, debug_text, sort_strings, sort_strings_exec, str_eq, string_views};
use crate::text::opt_string;
use vstd::prelude::*;

verus! {

broadcast use vstd::string::group_string_axioms;

/// Largest reservation a transfer may prepare, in bytes.
pub const MAX_PRIVATE_BYTES: u32 = 1048576;

/// Largest input a CDK CLI recipient accepts as one native argument, in bytes.
pub const MAX_PRIVATE_ARG_BYTES: u32 = 65536;

/// The private-transfer method.
#[derive(Clone, Copy, Debug, PartialEq, Eq, Structural)]
pub enum TransferMethod {
    Prepare,
    Handoff,
    Status,
    Deliver,
    Release,
}

/// Method-specific public input of a private transfer.
#[derive(Clone, Debug)]
pub enum PrivateTransferInput {
    Prepare { component: String, destination_component: String, maximum_bytes: u32 },
    Handoff { component: String, reference: String, recipient_grant_id: String },
    Status { component: String, reference: String },
    Deliver { component: String, reference: String },
    Release { component: String, reference: String },
}

/// The flat transfer action handed to the runtime.
#[derive(Clone, Debug)]
pub struct PrivateTransferAction {
    pub recipient_grant_id: Option<String>,
    pub transfer_method: TransferMethod,
    pub component: String,
    pub destination_component: Option<String>,
    pub reference: Option<String>,
    pub maximum_bytes: Option<u32>,
}

/// A private-transfer tool request.
#[derive(Clone, Debug)]
pub struct PrivateTransferRequest {
    pub instance_id: String,
    pub experiment_id: String,
    pub session_id: String,
    pub operation_id: String,
    pub transfer: PrivateTransferInput,
    pub idempotency_key: String,
}

// ---------------------------------------------------------------------------
// Whitespace
// ---------------------------------------------------------------------------

/// Whether a character has Unicode's White_Space property, which
/// `char::is_whitespace` and `str::trim` go by: tab through carriage return,
/// space, next line, no-break space, ogham space mark, en quad through hair
/// space, line and paragraph separators, narrow no-break space, medium
/// mathematical space and ideographic space.
pub open spec fn char_is_whitespace(c: char) -> bool {
    let n = c as u32;
    ||| 0x9 <= n <= 0xD
    ||| n == 0x20
    ||| n == 0x85
    ||| n == 0xA0
    ||| n == 0x1680
    ||| 0x2000 <= n <= 0x200A
    ||| n == 0x2028
    ||| n == 0x2029
    ||| n == 0x202F
    ||| n == 0x205F
    ||| n == 0x3000
}

/// Whether a character has the White_Space property.
fn is_whitespace(c: char) -> (r: bool)
    ensures
        r == char_is_whitespace(c),
{
    let n = c as u32;
    (0x9 <= n && n <= 0xD) || n == 0x20 || n == 0x85 || n == 0xA0 || n == 0x1680 || (0x2000 <= n && n
        <= 0x200A) || n == 0x2028 || n == 0x2029 || n == 0x202F || n == 0x205F || n == 0x3000
}

/// Empty after trimming: every character is whitespace.
pub open spec fn blank(s: Seq<char>) -> bool {
    forall|i: int| 0 <= i < s.len() ==> char_is_whitespace(#[trigger] s[i])
}

/// Whether `s.trim()` is empty.
pub fn is_blank(s: &str) -> (r: bool)
    ensures
        r == blank(s@),
{
    let n = s.unicode_len();
    let mut i: usize = 0;
    while i < n
        invariant
            n == s@.len(),
            i <= n,
            forall|k: int| 0 <= k < i ==> char_is_whitespace(#[trigger] s@[k]),
        decreases n - i,
    {
        let c = s.get_char(i);
        if !is_whitespace(c) {
            return false;
        }
        i = i + 1;
    }
    true
}

// ---------------------------------------------------------------------------
// The transfer action
// ---------------------------------------------------------------------------

impl PrivateTransferInput {
    pub open spec fn method(self) -> TransferMethod {
        match self {
            PrivateTransferInput::Prepare { .. } => TransferMethod::Prepare,
            PrivateTransferInput::Handoff { .. } => TransferMethod::Handoff,
            PrivateTransferInput::Status { .. } => TransferMethod::Status,
            PrivateTransferInput::Deliver { .. } => TransferMethod::Deliver,
            PrivateTransferInput::Release { .. } => TransferMethod::Release,
        }
    }

    pub open spec fn component_view(self) -> Seq<char> {
        match self {
            PrivateTransferInput::Prepare { component, .. } => component@,
            PrivateTransferInput::Handoff { component, .. } => component@,
            PrivateTransferInput::Status { component, .. } => component@,
            PrivateTransferInput::Deliver { component, .. } => component@,
            PrivateTransferInput::Release { component, .. } => component@,
        }
    }

    pub open spec fn destination_view(self) -> Option<Seq<char>> {
        match self {
            PrivateTransferInput::Prepare { destination_component, .. } => Some(
                destination_component@,
            ),
            _ => None,
        }
    }

    pub open spec fn reference_view(self) -> Option<Seq<char>> {
        match self {
            PrivateTransferInput::Prepare { .. } => None,
            PrivateTransferInput::Handoff { reference, .. } => Some(reference@),
            PrivateTransferInput::Status { reference, .. } => Some(reference@),
            PrivateTransferInput::Deliver { reference, .. } => Some(reference@),
            PrivateTransferInput::Release { reference, .. } => Some(reference@),
        }
    }

    pub open spec fn grant_view(self) -> Option<Seq<char>> {
        match self {
            PrivateTransferInput::Handoff { recipient_grant_id, .. } => Some(recipient_grant_id@),
            _ => None,
        }
    }

    pub open spec fn maximum(self) -> Option<u32> {
        match self {
            PrivateTransferInput::Prepare { maximum_bytes, .. } => Some(maximum_bytes),
            _ => None,
        }
    }

    /// The message of the first admission check the input fails, if any.
    pub open spec fn rejection(self) -> Option<Seq<char>> {
        if self.grant_view() matches Some(g) && blank(g) {
            Some("handoff.recipientGrantId must be nonempty"@)
        } else if self.maximum() matches Some(m) && !(1 <= m <= MAX_PRIVATE_BYTES) {
            Some("prepare.maximumBytes must be between 1 and 1048576; no operation was created"@)
        } else if self.destination_view() matches Some(d) && d == self.component_view() {
            Some(
                "prepare.destinationComponent must differ from component; no operation was created"@,
            )
        } else if blank(self.component_view()) || (self.destination_view() matches Some(d) && blank(
            d,
        )) || (self.reference_view() matches Some(r) && blank(r)) {
            Some(
                "private transfer component, destinationComponent and reference must be nonempty when required; no operation was created"@,
            )
        } else {
            None
        }
    }

    /// Validates the input and flattens it into the runtime action.
    pub fn action(&self) -> (r: Result<PrivateTransferAction, ToolError>)
        ensures
            r is Err <==> self.rejection() is Some,
            r matches Err(e) ==> e.is_coded(ErrorCode::InvalidOperation) && Some(e.message@)
                == self.rejection(),
            r matches Ok(a) ==> a.view_matches(*self),
    {
        let grant: Option<String> = match self {
            PrivateTransferInput::Handoff { recipient_grant_id, .. } => {
                if is_blank(recipient_grant_id.as_str()) {
                    return Err(invalid_operation("handoff.recipientGrantId must be nonempty"));
                }
                Some(recipient_grant_id.clone())
            },
            _ => None,
        };
        let (method, component, destination, reference, maximum): (
            TransferMethod,
            &String,
            Option<String>,
            Option<String>,
            Option<u32>,
        ) = match self {
            PrivateTransferInput::Prepare { component, destination_component, maximum_bytes } => {
                if !(1 <= *maximum_bytes && *maximum_bytes <= MAX_PRIVATE_BYTES) {
                    return Err(
                        invalid_operation(
                            "prepare.maximumBytes must be between 1 and 1048576; no operation was created",
                        ),
                    );
                }
                if str_eq(component.as_str(), destination_component.as_str()) {
                    return Err(
                        invalid_operation(
                            "prepare.destinationComponent must differ from component; no operation was created",
                        ),
                    );
                }
                (
                    TransferMethod::Prepare,
                    component,
                    Some(destination_component.clone()),
                    None,
                    Some(*maximum_bytes),
                )
            },
            PrivateTransferInput::Handoff { component, reference, .. } => (
                TransferMethod::Handoff,
                component,
                None,
                Some(reference.clone()),
                None,
            ),
            PrivateTransferInput::Status { component, reference } => (
                TransferMethod::Status,
                component,
                None,
                Some(reference.clone()),
                None,
            ),
            PrivateTransferInput::Deliver { component, reference } => (
                TransferMethod::Deliver,
                component,
                None,
                Some(reference.clone()),
                None,
            ),
            PrivateTransferInput::Release { component, reference } => (
                TransferMethod::Release,
                component,
                None,
                Some(reference.clone()),
                None,
            ),
        };
        let destination_blank = match &destination {
            Some(d) => is_blank(d.as_str()),
            None => false,
        };
        let reference_blank = match &reference {
            Some(d) => is_blank(d.as_str()),
            None => false,
        };
        if is_blank(component.as_str()) || destination_blank || reference_blank {
            return Err(
                invalid_operation(
                    "private transfer component, destinationComponent and reference must be nonempty when required; no operation was created",
                ),
            );
        }
        Ok(
            PrivateTransferAction {
                recipient_grant_id: grant,
                transfer_method: method,
                component: component.clone(),
                destination_component: destination,
                reference,
                maximum_bytes: maximum,
            },
        )
    }
}

impl PrivateTransferAction {
    /// The action carries exactly the input's method and fields.
    pub open spec fn view_matches(self, input: PrivateTransferInput) -> bool {
        &&& self.transfer_method == input.method()
        &&& self.component@ == input.component_view()
        &&& opt_string(self.destination_component) == input.destination_view()
        &&& opt_string(self.reference) == input.reference_view()
        &&& opt_string(self.recipient_grant_id) == input.grant_view()
        &&& self.maximum_bytes == input.maximum()
    }
}

// ---------------------------------------------------------------------------
// Components of a published revision
// ---------------------------------------------------------------------------

/// The spelling of a component kind in messages.
pub open spec fn kind_name_spec(kind: ComponentKind) -> Seq<char> {
    match kind {
        ComponentKind::Bitcoin => "bitcoin"@,
        ComponentKind::Lightning => "lightning"@,
        ComponentKind::Mint => "mint"@,
        ComponentKind::Database => "database"@,
        ComponentKind::IdentityProvider => "identity_provider"@,
        ComponentKind::Wallet => "wallet"@,
        ComponentKind::Attacker => "workspace"@,
        ComponentKind::Proxy => "proxy"@,
        ComponentKind::Oracle => "oracle"@,
    }
}

/// The spelling of a component kind in messages.
pub fn component_kind_name(kind: ComponentKind) -> (r: &'static str)
    ensures
        r@ == kind_name_spec(kind),
{
    match kind {
        ComponentKind::Bitcoin => "bitcoin",
        ComponentKind::Lightning => "lightning",
        ComponentKind::Mint => "mint",
        ComponentKind::Database => "database",
        ComponentKind::IdentityProvider => "identity_provider",
        ComponentKind::Wallet => "wallet",
        ComponentKind::Attacker => "workspace",
        ComponentKind::Proxy => "proxy",
        ComponentKind::Oracle => "oracle",
    }
}

/// Whether a component has the kind and, when one is asked for, the implementation.
pub open spec fn component_selected(
    c: ComponentSpec,
    kind: ComponentKind,
    implementation: Option<Seq<char>>,
) -> bool {
    c.kind == kind && (implementation matches Some(i) ==> c.implementation@ == i)
}

/// IDs of the selected components, in component order.
pub open spec fn selected_ids(
    cs: Seq<ComponentSpec>,
    kind: ComponentKind,
    implementation: Option<Seq<char>>,
) -> Seq<Seq<char>>
    decreases cs.len(),
{
    if cs.len() == 0 {
        Seq::<Seq<char>>::empty()
    } else if component_selected(cs.last(), kind, implementation) {
        selected_ids(cs.drop_last(), kind, implementation).push(cs.last().id@)
    } else {
        selected_ids(cs.drop_last(), kind, implementation)
    }
}

pub open spec fn opt_str_view(o: Option<&str>) -> Option<Seq<char>> {
    match o {
        Some(s) => Some(s@),
        None => None,
    }
}

/// Sorted IDs of the components of one kind (and implementation, when given).
pub fn valid_component_ids(
    revision: &PublishedRevision,
    kind: ComponentKind,
    implementation: Option<&str>,
) -> (r: Vec<String>)
    ensures
        string_views(r@) == sort_strings(
            selected_ids(revision.cell.components@, kind, opt_str_view(implementation)),
        ),
{
    let cs = &revision.cell.components;
    let mut ids: Vec<String> = Vec::new();
    let mut i: usize = 0;
    while i < cs.len()
        invariant
            i <= cs@.len(),
            cs@ == revision.cell.components@,
            string_views(ids@) == selected_ids(
                cs@.take(i as int),
                kind,
                opt_str_view(implementation),
            ),
        decreases cs@.len() - i,
    {
        let c = &cs[i];
        let implementation_ok = match implementation {
            Some(expected) => str_eq(c.implementation.as_str(), expected),
            None => true,
        };
        let ghost before = string_views(ids@);
        assert(cs@.take(i + 1).drop_last() =~= cs@.take(i as int));
        assert(cs@.take(i + 1).last() == cs@[i as int]);
        if c.kind == kind && implementation_ok {
            ids.push(c.id.clone());
            assert(string_views(ids@) =~= before.push(c.id@));
        }
        i = i + 1;
    }
    assert(cs@.take(cs@.len() as int) =~= cs@);
    sort_strings_exec(&ids)
}

/// The error of a component whose lock entry is missing from its revision.
pub fn revision_integrity_error(component_id: &str) -> (e: ToolError)
    ensures
        e.kind == ErrorKind::InternalError,
        e.code == Some(ErrorCode::RevisionIntegrityError),
        e.message@ == "published revision has no matching immutable lock entry for component "@
            + debug_text(component_id@),
        e.detail matches ErrorDetail::RevisionIntegrity { component_id: c } && c@ == component_id@,
{
    let mut message = String::new();
    message.append("published revision has no matching immutable lock entry for component ");
    let quoted = debug_quote(component_id);
    message.append(quoted.as_str());
    ToolError {
        kind: ErrorKind::InternalError,
        code: Some(ErrorCode::RevisionIntegrityError),
        message,
        detail: ErrorDetail::RevisionIntegrity { component_id: component_id.to_owned() },
    }
}

/// Index of the first component with this ID.
pub open spec fn first_component(cs: Seq<ComponentSpec>, id: Seq<char>) -> Option<int>
    decreases cs.len(),
{
    if cs.len() == 0 {
        None
    } else if cs[0].id@ == id {
        Some(0)
    } else {
        match first_component(cs.drop_first(), id) {
            Some(k) => Some(k + 1),
            None => None,
        }
    }
}

/// Index of the first lock entry of this component and catalog entry.
pub open spec fn first_lock(entries: Seq<LockEntry>, id: Seq<char>, catalog: Seq<char>) -> Option<
    int,
>
    decreases entries.len(),
{
    if entries.len() == 0 {
        None
    } else if entries[0].component_id@ == id && entries[0].catalog_id@ == catalog {
        Some(0)
    } else {
        match first_lock(entries.drop_first(), id, catalog) {
            Some(k) => Some(k + 1),
            None => None,
        }
    }
}

proof fn lemma_first_component_step(cs: Seq<ComponentSpec>, id: Seq<char>, i: int)
    requires
        0 <= i < cs.len(),
        forall|k: int| 0 <= k < i ==> cs[k].id@ != id,
    ensures
        first_component(cs, id) == (if cs[i].id@ == id {
            Some(i)
        } else {
            match first_component(cs.skip(i + 1), id) {
                Some(k) => Some(k + i + 1),
                None => None,
            }
        }),
    decreases i,
{
    if i > 0 {
        let t = cs.drop_first();
        assert forall|k: int| 0 <= k < i - 1 implies t[k].id@ != id by {
            assert(t[k] == cs[k + 1]);
        }
        lemma_first_component_step(t, id, i - 1);
        assert(t.skip(i) =~= cs.skip(i + 1));
    }
}

proof fn lemma_first_lock_step(es: Seq<LockEntry>, id: Seq<char>, cat: Seq<char>, i: int)
    requires
        0 <= i < es.len(),
        forall|k: int| 0 <= k < i ==> !(es[k].component_id@ == id && es[k].catalog_id@ == cat),
    ensures
        first_lock(es, id, cat) == (if es[i].component_id@ == id && es[i].catalog_id@ == cat {
            Some(i)
        } else {
            match first_lock(es.skip(i + 1), id, cat) {
                Some(k) => Some(k + i + 1),
                None => None,
            }
        }),
    decreases i,
{
    if i > 0 {
        let t = es.drop_first();
        assert forall|k: int| 0 <= k < i - 1 implies !(t[k].component_id@ == id && t[k].catalog_id@
            == cat) by {
            assert(t[k] == es[k + 1]);
        }
        lemma_first_lock_step(t, id, cat, i - 1);
        assert(t.skip(i) =~= es.skip(i + 1));
    }
}

/// Finds the first component with this ID.
fn find_component(cs: &Vec<ComponentSpec>, id: &str) -> (r: Option<usize>)
    ensures
        match r {
            Some(k) => first_component(cs@, id@) == Some(k as int) && k < cs@.len(),
            None => first_component(cs@, id@) is None,
        },
{
    let mut i: usize = 0;
    while i < cs.len()
        invariant
            i <= cs@.len(),
            forall|k: int| 0 <= k < i ==> cs@[k].id@ != id@,
        decreases cs@.len() - i,
    {
        proof {
            lemma_first_component_step(cs@, id@, i as int);
        }
        if str_eq(cs[i].id.as_str(), id) {
            return Some(i);
        }
        i = i + 1;
    }
    proof {
        lemma_first_component_none(cs@, id@);
    }
    None
}

proof fn lemma_first_component_none(cs: Seq<ComponentSpec>, id: Seq<char>)
    requires
        forall|k: int| 0 <= k < cs.len() ==> cs[k].id@ != id,
    ensures
        first_component(cs, id) is None,
    decreases cs.len(),
{
    if cs.len() > 0 {
        let t = cs.drop_first();
        assert forall|k: int| 0 <= k < t.len() implies t[k].id@ != id by {
            assert(t[k] == cs[k + 1]);
        }
        lemma_first_component_none(t, id);
    }
}

proof fn lemma_first_lock_none(es: Seq<LockEntry>, id: Seq<char>, cat: Seq<char>)
    requires
        forall|k: int| 0 <= k < es.len() ==> !(es[k].component_id@ == id && es[k].catalog_id@ == cat),
    ensures
        first_lock(es, id, cat) is None,
    decreases es.len(),
{
    if es.len() > 0 {
        let t = es.drop_first();
        assert forall|k: int| 0 <= k < t.len() implies !(t[k].component_id@ == id && t[k].catalog_id@
            == cat) by {
            assert(t[k] == es[k + 1]);
        }
        lemma_first_lock_none(t, id, cat);
    }
}

/// Finds the first lock entry of this component and catalog entry.
fn find_lock(es: &Vec<LockEntry>, id: &str, catalog: &str) -> (r: Option<usize>)
    ensures
        match r {
            Some(k) => first_lock(es@, id@, catalog@) == Some(k as int) && k < es@.len(),
            None => first_lock(es@, id@, catalog@) is None,
        },
{
    let mut i: usize = 0;
    while i < es.len()
        invariant
            i <= es@.len(),
            forall|k: int|
                0 <= k < i ==> !(es@[k].component_id@ == id@ && es@[k].catalog_id@ == catalog@),
        decreases es@.len() - i,
    {
        proof {
            lemma_first_lock_step(es@, id@, catalog@, i as int);
        }
        if str_eq(es[i].component_id.as_str(), id) && str_eq(es[i].catalog_id.as_str(), catalog) {
            return Some(i);
        }
        i = i + 1;
    }
    proof {
        lemma_first_lock_none(es@, id@, catalog@);
    }
    None
}

/// What resolving a component to its locked image yields.
pub open spec fn component_image_spec(
    revision: PublishedRevision,
    id: Seq<char>,
    kind: ComponentKind,
) -> Result<Seq<char>, ErrorCode> {
    let cs = revision.cell.components@;
    match first_component(cs, id) {
        None => Err(ErrorCode::ComponentIdUnknown),
        Some(k) => if cs[k].kind != kind {
            Err(ErrorCode::ComponentKindMismatch)
        } else {
            match first_lock(revision.lock@, id, cs[k].implementation@) {
                Some(j) => Ok(revision.lock@[j].image@),
                None => Err(ErrorCode::RevisionIntegrityError),
            }
        },
    }
}

/// Resolves a component of the expected kind to the image its lock entry pins.
pub fn component_image_any(revision: &PublishedRevision, id: &str, kind: ComponentKind) -> (r:
    Result<String, ToolError>)
    ensures
        match component_image_spec(*revision, id@, kind) {
            Ok(image) => r matches Ok(s) && s@ == image,
            Err(code) => r matches Err(e) && e.code == Some(code) && (if code
                == ErrorCode::RevisionIntegrityError {
                e.kind == ErrorKind::InternalError
            } else {
                e.kind == ErrorKind::InvalidRequest
            }),
        },
        r matches Err(e) ==> match e.detail {
            ErrorDetail::ComponentUnknown { requested_id, expected_kind, valid_component_ids } => requested_id@ == id@
                && expected_kind == kind && string_views(valid_component_ids@) == sort_strings(
                selected_ids(revision.cell.components@, kind, None),
            ),
            ErrorDetail::ComponentKindMismatch { requested_id, actual_kind, expected_kind, valid_component_ids } =>
                requested_id@ == id@ && expected_kind == kind && (first_component(revision.cell.components@, id@) matches Some(k)
                && actual_kind == revision.cell.components@[k].kind) && string_views(valid_component_ids@)
                == sort_strings(selected_ids(revision.cell.components@, kind, None)),
            ErrorDetail::RevisionIntegrity { component_id } => component_id@ == id@,
            _ => false,
        },
{
    let cs = &revision.cell.components;
    let found = find_component(cs, id);
    match found {
        None => {
            let valid = valid_component_ids(revision, kind, None);
            let mut message = String::new();
            message.append("component ");
            let quoted = debug_quote(id);
            message.append(quoted.as_str());
            message.append(" is not in this revision; expected ");
            message.append(component_kind_name(kind));
            message.append("; valid component IDs: ");
            let listed = debug_string_list(&valid);
            message.append(listed.as_str());
            Err(
                ToolError {
                    kind: ErrorKind::InvalidRequest,
                    code: Some(ErrorCode::ComponentIdUnknown),
                    message,
                    detail: ErrorDetail::ComponentUnknown {
                        requested_id: id.to_owned(),
                        expected_kind: kind,
                        valid_component_ids: valid,
                    },
                },
            )
        },
        Some(k) => {
            let component = &cs[k];
            if component.kind != kind {
                let valid = valid_component_ids(revision, kind, None);
                let mut message = String::new();
                message.append("component ");
                let quoted = debug_quote(id);
                message.append(quoted.as_str());
                message.append(" is ");
                message.append(component_kind_name(component.kind));
                message.append("; expected ");
                message.append(component_kind_name(kind));
                message.append("; valid component IDs: ");
                let listed = debug_string_list(&valid);
                message.append(listed.as_str());
                return Err(
                    ToolError {
                        kind: ErrorKind::InvalidRequest,
                        code: Some(ErrorCode::ComponentKindMismatch),
                        message,
                        detail: ErrorDetail::ComponentKindMismatch {
                            requested_id: id.to_owned(),
                            actual_kind: component.kind,
                            expected_kind: kind,
                            valid_component_ids: valid,
                        },
                    },
                );
            }
            match find_lock(&revision.lock, id, component.implementation.as_str()) {
                Some(j) => Ok(revision.lock[j].image.clone()),
                None => Err(revision_integrity_error(id)),
            }
        },
    }
}

/// Whether a component with this ID is a CDK CLI wallet.
pub open spec fn is_cdk_recipient(cs: Seq<ComponentSpec>, id: Seq<char>) -> bool {
    exists|k: int| 0 <= k < cs.len() && cs[k].id@ == id && cs[k].implementation@ == "cdk-cli-wallet"@
}

/// The refusal of a CDK CLI recipient asked to take more than its argument limit.
pub open spec fn cdk_limit_message() -> Seq<char> {
    "prepare.maximumBytes must be at most 65536 for a CDK CLI recipient's native argv input; no operation was created"@
}

/// What admitting a transfer's endpoints yields: the first endpoint error, or the
/// CDK argument limit, or success.
pub open spec fn transfer_endpoints_spec(
    transfer: PrivateTransferAction,
    revision: PublishedRevision,
) -> Result<(), ErrorCode> {
    match component_image_spec(revision, transfer.component@, ComponentKind::Wallet) {
        Err(code) => Err(code),
        Ok(_) => match transfer.destination_component {
            None => Ok(()),
            Some(d) => match component_image_spec(revision, d@, ComponentKind::Wallet) {
                Err(code) => Err(code),
                Ok(_) => if is_cdk_recipient(revision.cell.components@, d@) && (
                transfer.maximum_bytes matches Some(m) && m > MAX_PRIVATE_ARG_BYTES) {
                    Err(ErrorCode::InvalidOperation)
                } else {
                    Ok(())
                },
            },
        },
    }
}

/// Checks that both endpoints are wallets of the revision and that a CDK CLI
/// recipient is not asked to take more than one native argument holds.
pub fn validate_private_transfer_endpoints(
    transfer: &PrivateTransferAction,
    revision: &PublishedRevision,
) -> (r: Result<(), ToolError>)
    ensures
        match transfer_endpoints_spec(*transfer, *revision) {
            Ok(()) => r is Ok,
            Err(code) => r matches Err(e) && e.code == Some(code),
        },
        transfer_endpoints_spec(*transfer, *revision) == Err::<(), ErrorCode>(ErrorCode::InvalidOperation) ==> (
        r matches Err(e) && e.message@ == cdk_limit_message()),
{
    let first = component_image_any(revision, transfer.component.as_str(), ComponentKind::Wallet);
    if let Err(e) = first {
        return Err(e);
    }
    match &transfer.destination_component {
        None => Ok(()),
        Some(destination) => {
            let second = component_image_any(revision, destination.as_str(), ComponentKind::Wallet);
            if let Err(e) = second {
                return Err(e);
            }
            let cs = &revision.cell.components;
            let mut is_cdk = false;
            let mut i: usize = 0;
            while i < cs.len()
                invariant
                    i <= cs@.len(),
                    cs@ == revision.cell.components@,
                    is_cdk == exists|k: int|
                        0 <= k < i && cs@[k].id@ == destination@ && cs@[k].implementation@
                            == "cdk-cli-wallet"@,
                decreases cs@.len() - i,
            {
                if str_eq(cs[i].id.as_str(), destination.as_str()) && str_eq(
                    cs[i].implementation.as_str(),
                    "cdk-cli-wallet",
                ) {
                    is_cdk = true;
                }
                i = i + 1;
            }
            let too_large = match transfer.maximum_bytes {
                Some(m) => m > MAX_PRIVATE_ARG_BYTES,
                None => false,
            };
            if is_cdk && too_large {
                return Err(
                    invalid_operation(
                        "prepare.maximumBytes must be at most 65536 for a CDK CLI recipient's native argv input; no operation was created",
                    ),
                );
            }
            Ok(())
        },
    }
}

} // verus!
