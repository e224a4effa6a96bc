//! Cells and links as authored through the gateway: backend binding fields are
//! flat in each kind-specific link variant, and the canonical binding is built
//! from them.
use crate::json::{Json, get_member, member_value};
use crate::model::{CellSpec, ComponentSpec, DependencyBinding, LinkKind, LinkSpec};
use crate::requests::CellFile;
use crate::text::{debug_quote, debug_text};
use vstd::prelude::*;

verus! {

/// A link authored through the gateway. Peer and network-path variants take
/// no binding fields; each backend variant takes exactly its binding's fields.
#[derive(Clone, Debug)]
pub enum AddLinkInput {
    BitcoinPeer { id: String, from: String, to: String },
    LightningPeer { id: String, from: String, to: String },
    ChainBackend { id: String, from: String, to: String, network: String },
    PaymentBackend { id: String, from: String, to: String, method: String, unit: String },
    DatabaseBackend { id: String, from: String, to: String, role: String, database: Option<String> },
    AuthenticationBackend { id: String, from: String, to: String, protocol: String },
    NetworkPath { id: String, from: String, to: String },
}

/// The canonical link an authored link stands for.
pub open spec fn link_of_input(input: AddLinkInput) -> LinkSpec {
    match input {
        AddLinkInput::BitcoinPeer { id, from, to } => LinkSpec {
            id,
            kind: LinkKind::BitcoinPeer,
            from,
            to,
            binding: None,
        },
        AddLinkInput::LightningPeer { id, from, to } => LinkSpec {
            id,
            kind: LinkKind::LightningPeer,
            from,
            to,
            binding: None,
        },
        AddLinkInput::ChainBackend { id, from, to, network } => LinkSpec {
            id,
            kind: LinkKind::ChainBackend,
            from,
            to,
            binding: Some(DependencyBinding::Chain { network }),
        },
        AddLinkInput::PaymentBackend { id, from, to, method, unit } => LinkSpec {
            id,
            kind: LinkKind::PaymentBackend,
            from,
            to,
            binding: Some(DependencyBinding::Payment { method, unit }),
        },
        AddLinkInput::DatabaseBackend { id, from, to, role, database } => LinkSpec {
            id,
            kind: LinkKind::DatabaseBackend,
            from,
            to,
            binding: Some(DependencyBinding::Database { role, database }),
        },
        AddLinkInput::AuthenticationBackend { id, from, to, protocol } => LinkSpec {
            id,
            kind: LinkKind::AuthenticationBackend,
            from,
            to,
            binding: Some(DependencyBinding::Authentication { protocol }),
        },
        AddLinkInput::NetworkPath { id, from, to } => LinkSpec {
            id,
            kind: LinkKind::NetworkPath,
            from,
            to,
            binding: None,
        },
    }
}

/// The authored form of a canonical link, when its binding matches its kind.
pub open spec fn input_of_link(link: LinkSpec) -> Option<AddLinkInput> {
    let LinkSpec { id, kind, from, to, binding } = link;
    match kind {
        LinkKind::BitcoinPeer => if binding is None {
            Some(AddLinkInput::BitcoinPeer { id, from, to })
        } else {
            None
        },
        LinkKind::LightningPeer => if binding is None {
            Some(AddLinkInput::LightningPeer { id, from, to })
        } else {
            None
        },
        LinkKind::NetworkPath => if binding is None {
            Some(AddLinkInput::NetworkPath { id, from, to })
        } else {
            None
        },
        LinkKind::ChainBackend => match binding {
            Some(DependencyBinding::Chain { network }) => Some(
                AddLinkInput::ChainBackend { id, from, to, network },
            ),
            _ => None,
        },
        LinkKind::PaymentBackend => match binding {
            Some(DependencyBinding::Payment { method, unit }) => Some(
                AddLinkInput::PaymentBackend { id, from, to, method, unit },
            ),
            _ => None,
        },
        LinkKind::DatabaseBackend => match binding {
            Some(DependencyBinding::Database { role, database }) => Some(
                AddLinkInput::DatabaseBackend { id, from, to, role, database },
            ),
            _ => None,
        },
        LinkKind::AuthenticationBackend => match binding {
            Some(DependencyBinding::Authentication { protocol }) => Some(
                AddLinkInput::AuthenticationBackend { id, from, to, protocol },
            ),
            _ => None,
        },
    }
}

/// The `Debug` name of a link kind.
pub open spec fn link_kind_debug(kind: LinkKind) -> Seq<char> {
    match kind {
        LinkKind::BitcoinPeer => "BitcoinPeer"@,
        LinkKind::LightningPeer => "LightningPeer"@,
        LinkKind::ChainBackend => "ChainBackend"@,
        LinkKind::PaymentBackend => "PaymentBackend"@,
        LinkKind::DatabaseBackend => "DatabaseBackend"@,
        LinkKind::AuthenticationBackend => "AuthenticationBackend"@,
        LinkKind::NetworkPath => "NetworkPath"@,
    }
}

fn link_kind_name(kind: LinkKind) -> (r: &'static str)
    ensures
        r@ == link_kind_debug(kind),
{
    match kind {
        LinkKind::BitcoinPeer => "BitcoinPeer",
        LinkKind::LightningPeer => "LightningPeer",
        LinkKind::ChainBackend => "ChainBackend",
        LinkKind::PaymentBackend => "PaymentBackend",
        LinkKind::DatabaseBackend => "DatabaseBackend",
        LinkKind::AuthenticationBackend => "AuthenticationBackend",
        LinkKind::NetworkPath => "NetworkPath",
    }
}

impl LinkSpec {
    /// Builds the canonical link, with its typed binding, from an authored link.
    pub fn try_from(input: AddLinkInput) -> (r: Result<LinkSpec, String>)
        ensures
            r == Ok::<LinkSpec, String>(link_of_input(input)),
    {
        match input {
            AddLinkInput::BitcoinPeer { id, from, to } => Ok(
                LinkSpec { id, kind: LinkKind::BitcoinPeer, from, to, binding: None },
            ),
            AddLinkInput::LightningPeer { id, from, to } => Ok(
                LinkSpec { id, kind: LinkKind::LightningPeer, from, to, binding: None },
            ),
            AddLinkInput::ChainBackend { id, from, to, network } => Ok(
                LinkSpec {
                    id,
                    kind: LinkKind::ChainBackend,
                    from,
                    to,
                    binding: Some(DependencyBinding::Chain { network }),
                },
            ),
            AddLinkInput::PaymentBackend { id, from, to, method, unit } => Ok(
                LinkSpec {
                    id,
                    kind: LinkKind::PaymentBackend,
                    from,
                    to,
                    binding: Some(DependencyBinding::Payment { method, unit }),
                },
            ),
            AddLinkInput::DatabaseBackend { id, from, to, role, database } => Ok(
                LinkSpec {
                    id,
                    kind: LinkKind::DatabaseBackend,
                    from,
                    to,
                    binding: Some(DependencyBinding::Database { role, database }),
                },
            ),
            AddLinkInput::AuthenticationBackend { id, from, to, protocol } => Ok(
                LinkSpec {
                    id,
                    kind: LinkKind::AuthenticationBackend,
                    from,
                    to,
                    binding: Some(DependencyBinding::Authentication { protocol }),
                },
            ),
            AddLinkInput::NetworkPath { id, from, to } => Ok(
                LinkSpec { id, kind: LinkKind::NetworkPath, from, to, binding: None },
            ),
        }
    }
}

impl AddLinkInput {
    /// Recovers the authored form of a canonical link; a binding that is missing
    /// or belongs to another kind is refused.
    pub fn try_from(link: LinkSpec) -> (r: Result<AddLinkInput, String>)
        ensures
            match input_of_link(link) {
                Some(i) => r == Ok::<AddLinkInput, String>(i),
                None => r matches Err(m) && m@ == "canonical "@ + link_kind_debug(link.kind)
                    + " link "@ + debug_text(link.id@) + " has a missing or mismatched binding"@,
            },
    {
        let LinkSpec { id, kind, from, to, binding } = link;
        match kind {
            LinkKind::BitcoinPeer => if binding.is_none() {
                return Ok(AddLinkInput::BitcoinPeer { id, from, to });
            },
            LinkKind::LightningPeer => if binding.is_none() {
                return Ok(AddLinkInput::LightningPeer { id, from, to });
            },
            LinkKind::NetworkPath => if binding.is_none() {
                return Ok(AddLinkInput::NetworkPath { id, from, to });
            },
            LinkKind::ChainBackend => if let Some(DependencyBinding::Chain { network }) = binding {
                return Ok(AddLinkInput::ChainBackend { id, from, to, network });
            },
            LinkKind::PaymentBackend => if let Some(DependencyBinding::Payment { method, unit }) =
                binding {
                return Ok(AddLinkInput::PaymentBackend { id, from, to, method, unit });
            },
            LinkKind::DatabaseBackend => if let Some(DependencyBinding::Database { role, database }) =
                binding {
                return Ok(AddLinkInput::DatabaseBackend { id, from, to, role, database });
            },
            LinkKind::AuthenticationBackend => if let Some(
                DependencyBinding::Authentication { protocol },
            ) = binding {
                return Ok(AddLinkInput::AuthenticationBackend { id, from, to, protocol });
            },
        }
        let mut message = String::new();
        message.append("canonical ");
        message.append(link_kind_name(kind));
        message.append(" link ");
        let quoted = debug_quote(id.as_str());
        message.append(quoted.as_str());
        message.append(" has a missing or mismatched binding");
        Err(message)
    }
}

/// A complete cell as authored: links in their authored form.
#[derive(Clone, Debug)]
pub struct AuthoredCellSpec {
    pub api_version: String,
    pub name: String,
    pub components: Vec<ComponentSpec>,
    pub links: Vec<AddLinkInput>,
    /// The cell policy, as canonical JSON.
    pub policy: String,
}

/// An inline cell, a cell file inside the working directory, or a cell encoded as a JSON string.
#[derive(Clone, Debug)]
pub enum CellInput {
    Inline(AuthoredCellSpec),
    File(CellFile),
    Json(String),
}

impl CellSpec {
    /// The canonical cell of an authored cell: every link gets its typed binding.
    pub fn try_from(input: AuthoredCellSpec) -> (r: Result<CellSpec, String>)
        ensures
            r matches Ok(c) && c.api_version == input.api_version && c.name == input.name
                && c.components == input.components && c.policy == input.policy && c.links@
                == input.links@.map_values(|l: AddLinkInput| link_of_input(l)),
    {
        let AuthoredCellSpec { api_version, name, components, links, policy } = input;
        let ghost orig = links@;
        let n = links.len();
        let mut rest = links;
        let mut out: Vec<LinkSpec> = Vec::new();
        let mut i: usize = 0;
        assert(orig.skip(0) =~= orig);
        while rest.len() > 0
            invariant
                i <= orig.len(),
                orig.len() == n,
                rest@ == orig.skip(i as int),
                out@ == orig.take(i as int).map_values(|l: AddLinkInput| link_of_input(l)),
            decreases rest@.len(),
        {
            let l = rest.remove(0);
            let converted = LinkSpec::try_from(l);
            match converted {
                Ok(link) => out.push(link),
                Err(_) => {},
            }
            assert(orig.take(i + 1) =~= orig.take(i as int).push(l));
            assert(rest@ =~= orig.skip(i + 1));
            i = i + 1;
            assert(out@ =~= orig.take(i as int).map_values(|l: AddLinkInput| link_of_input(l)));
        }
        assert(orig.take(i as int) =~= orig);
        Ok(CellSpec { api_version, name, components, links: out, policy })
    }
}

/// Authoring a link and reading it back gives the same authored link.
pub proof fn lemma_authored_link_round_trip(input: AddLinkInput)
    ensures
        input_of_link(link_of_input(input)) == Some(input),
{
}

/// A canonical link whose binding matches its kind survives the authored form unchanged.
pub proof fn lemma_canonical_link_round_trip(link: LinkSpec)
    requires
        input_of_link(link) is Some,
    ensures
        link_of_input(input_of_link(link)->0) == link,
{
}

/// Exactly the backend kinds carry a binding in canonical form.
pub proof fn lemma_binding_iff_backend(input: AddLinkInput)
    ensures
        link_of_input(input).binding is Some <==> link_of_input(input).kind.spec_is_backend(),
{
}

/// The refusal of a canonical link with no authored form.
pub open spec fn unauthorable_message(link: LinkSpec) -> Seq<char> {
    "canonical "@ + link_kind_debug(link.kind) + " link "@ + debug_text(link.id@)
        + " has a missing or mismatched binding"@
}

/// The first link among the first `n` that has no authored form.
pub open spec fn first_unauthorable(ls: Seq<LinkSpec>, n: int) -> Option<int>
    decreases n,
{
    if n <= 0 {
        None
    } else {
        match first_unauthorable(ls, n - 1) {
            Some(k) => Some(k),
            None => if input_of_link(ls[n - 1]) is None {
                Some(n - 1)
            } else {
                None
            },
        }
    }
}

proof fn lemma_first_unauthorable_stable(ls: Seq<LinkSpec>, a: int, b: int)
    requires
        a <= b,
        first_unauthorable(ls, a) is Some,
    ensures
        first_unauthorable(ls, b) == first_unauthorable(ls, a),
    decreases b - a,
{
    if b > a {
        lemma_first_unauthorable_stable(ls, a, b - 1);
    }
}

impl AuthoredCellSpec {
    /// The authored form of a canonical cell: each link in its authored form;
    /// the first link whose binding is missing or mismatched refuses the cell.
    pub fn from_canonical(cell: CellSpec) -> (r: Result<AuthoredCellSpec, String>)
        ensures
            match first_unauthorable(cell.links@, cell.links@.len() as int) {
                None => r matches Ok(a) && a.api_version == cell.api_version && a.name == cell.name
                    && a.components == cell.components && a.policy == cell.policy && a.links@
                    == cell.links@.map_values(|l: LinkSpec| input_of_link(l)->0),
                Some(k) => r matches Err(m) && m@ == unauthorable_message(cell.links@[k]),
            },
    {
        let ghost cell_links = cell.links@;
        let CellSpec { api_version, name, components, links, policy } = cell;
        let ghost orig = links@;
        let n = links.len();
        let mut rest = links;
        let mut out: Vec<AddLinkInput> = Vec::new();
        let mut i: usize = 0;
        assert(orig.skip(0) =~= orig);
        assert(orig == cell_links);
        while rest.len() > 0
            invariant
                i <= orig.len(),
                orig.len() == n,
                orig == cell_links,
                orig == cell.links@,
                rest@ == orig.skip(i as int),
                first_unauthorable(orig, i as int) is None,
                out@ == orig.take(i as int).map_values(|l: LinkSpec| input_of_link(l)->0),
            decreases rest@.len(),
        {
            let l = rest.remove(0);
            assert(orig[i as int] == l);
            match AddLinkInput::try_from(l) {
                Ok(input) => out.push(input),
                Err(message) => {
                    assert(first_unauthorable(orig, i + 1) == Some(i as int));
                    proof {
                        lemma_first_unauthorable_stable(orig, i + 1, orig.len() as int);
                    }
                    return Err(message);
                },
            }
            assert(orig.take(i + 1) =~= orig.take(i as int).push(l));
            assert(rest@ =~= orig.skip(i + 1));
            i = i + 1;
            assert(out@ =~= orig.take(i as int).map_values(|l: LinkSpec| input_of_link(l)->0));
        }
        assert(orig.take(i as int) =~= orig);
        Ok(AuthoredCellSpec { api_version, name, components, links: out, policy })
    }
}

/// A cell document written in canonical form: some link carries a `binding` member.
pub open spec fn has_canonical_binding_spec(value: Json) -> bool {
    member_value(value, "links"@) matches Some(Json::Array(links)) && exists|i: int|
        0 <= i < links@.len() && #[trigger] member_value(links@[i], "binding"@) is Some
}

/// Whether a cell document is written in canonical form, with typed link bindings.
pub fn has_canonical_binding(value: &Json) -> (r: bool)
    ensures
        r == has_canonical_binding_spec(*value),
{
    match get_member(value, "links") {
        Some(Json::Array(links)) => {
            let mut i: usize = 0;
            while i < links.len()
                invariant
                    i <= links@.len(),
                    member_value(*value, "links"@) == Some(Json::Array(*links)),
                    forall|k: int| 0 <= k < i ==> #[trigger] member_value(links@[k], "binding"@) is None,
                decreases links@.len() - i,
            {
                if get_member(&links[i], "binding").is_some() {
                    assert(member_value(links@[i as int], "binding"@) is Some);
                    return true;
                }
                i = i + 1;
            }
            false
        },
        _ => false,
    }
}

} // verus!
