//! Plain models of the recorded cell and operation data that the gateway's
//! decisions read.
use vstd::prelude::*;

verus! {

/// Recorded phase of a cell operation.
#[derive(Clone, Copy, Debug, PartialEq, Eq, Structural)]
pub enum OperationPhase {
    Pending,
    Running,
    Succeeded,
    Failed,
    Cancelled,
}

/// Kind of a cell component.
#[derive(Clone, Copy, Debug, PartialEq, Eq, Structural)]
pub enum ComponentKind {
    Bitcoin,
    Lightning,
    Mint,
    Database,
    IdentityProvider,
    Wallet,
    Attacker,
    Proxy,
    Oracle,
}

/// Kind of a link between two components.
#[derive(Clone, Copy, Debug, PartialEq, Eq, Structural)]
pub enum LinkKind {
    BitcoinPeer,
    LightningPeer,
    ChainBackend,
    PaymentBackend,
    DatabaseBackend,
    AuthenticationBackend,
    NetworkPath,
}

impl LinkKind {
    /// Backend links carry a typed dependency binding.
    pub open spec fn spec_is_backend(self) -> bool {
        match self {
            LinkKind::ChainBackend | LinkKind::PaymentBackend | LinkKind::DatabaseBackend
            | LinkKind::AuthenticationBackend => true,
            _ => false,
        }
    }

    /// Whether this kind is a backend link.
    pub fn is_backend(&self) -> (r: bool)
        ensures
            r == self.spec_is_backend(),
    {
        match self {
            LinkKind::ChainBackend | LinkKind::PaymentBackend | LinkKind::DatabaseBackend
            | LinkKind::AuthenticationBackend => true,
            _ => false,
        }
    }
}

/// One component of a cell. Fields the gateway never inspects are carried
/// as their canonical JSON text.
#[derive(Debug)]
pub struct ComponentSpec {
    pub id: String,
    pub kind: ComponentKind,
    pub implementation: String,
    pub version: Option<String>,
    /// Everything else in the component document, as canonical JSON.
    pub document: String,
}

/// Typed binding of a backend link.
#[derive(Debug)]
pub enum DependencyBinding {
    Chain { network: String },
    Payment { method: String, unit: String },
    Database { role: String, database: Option<String> },
    Authentication { protocol: String },
}

/// One canonical link of a cell.
#[derive(Debug)]
pub struct LinkSpec {
    pub id: String,
    pub kind: LinkKind,
    pub from: String,
    pub to: String,
    pub binding: Option<DependencyBinding>,
}

/// A complete desired cell configuration.
#[derive(Clone, Debug)]
pub struct CellSpec {
    pub api_version: String,
    pub name: String,
    pub components: Vec<ComponentSpec>,
    pub links: Vec<LinkSpec>,
    /// The cell policy, as canonical JSON.
    pub policy: String,
}

/// An immutable lock entry that pins a component to a catalog image.
#[derive(Clone, Debug)]
pub struct LockEntry {
    pub component_id: String,
    pub catalog_id: String,
    pub image: String,
}

/// A published revision: its cell and the image lock resolved for it.
#[derive(Clone, Debug)]
pub struct PublishedRevision {
    pub cell: CellSpec,
    pub lock: Vec<LockEntry>,
}

impl Clone for ComponentSpec {
    fn clone(&self) -> (r: Self)
        ensures
            r == *self,
    {
        ComponentSpec {
            id: self.id.clone(),
            kind: self.kind,
            implementation: self.implementation.clone(),
            version: self.version.clone(),
            document: self.document.clone(),
        }
    }
}

impl Clone for DependencyBinding {
    fn clone(&self) -> (r: Self)
        ensures
            r == *self,
    {
        match self {
            DependencyBinding::Chain { network } => DependencyBinding::Chain { network: network.clone() },
            DependencyBinding::Payment { method, unit } => DependencyBinding::Payment {
                method: method.clone(),
                unit: unit.clone(),
            },
            DependencyBinding::Database { role, database } => DependencyBinding::Database {
                role: role.clone(),
                database: database.clone(),
            },
            DependencyBinding::Authentication { protocol } => DependencyBinding::Authentication {
                protocol: protocol.clone(),
            },
        }
    }
}

impl Clone for LinkSpec {
    fn clone(&self) -> (r: Self)
        ensures
            r == *self,
    {
        LinkSpec {
            id: self.id.clone(),
            kind: self.kind,
            from: self.from.clone(),
            to: self.to.clone(),
            binding: self.binding.clone(),
        }
    }
}

pub open spec fn component_ids(v: Seq<ComponentSpec>) -> Seq<Seq<char>> {
    v.map_values(|c: ComponentSpec| c.id@)
}

pub open spec fn link_ids(v: Seq<LinkSpec>) -> Seq<Seq<char>> {
    v.map_values(|l: LinkSpec| l.id@)
}

} // verus!
