//! Tool request shapes. Field names follow the Rust model; the wire names
//! (`name`, `run_id`, `request_id`) are applied where requests are decoded.
use vstd::prelude::*;

verus! {

/// Exact catalog entry selector.
#[derive(Clone, Debug)]
pub struct CatalogEntryRequest {
    pub id: String,
    pub version: String,
}

/// Catalog configuration schema selector; an empty pointer reads the whole schema.
#[derive(Clone, Debug)]
pub struct CatalogConfigSchemaRequest {
    pub id: String,
    pub version: String,
    pub pointer: String,
}

/// A cell document stored as a JSON file inside the working directory.
#[derive(Clone, Debug)]
pub struct CellFile {
    pub file: String,
}

/// Compact cell discovery with optional JSON-pointer selections.
#[derive(Clone, Debug)]
pub struct CellInspectRequest {
    pub name: String,
    pub fields: Vec<String>,
    pub after_sequence: u64,
}

/// A cell by name, or an immutable preview by plan ID; never both.
#[derive(Clone, Debug)]
pub struct CellTarget {
    pub name: Option<String>,
    pub plan_id: Option<String>,
}

/// Which cell document a read selects.
#[derive(Clone, Copy, Debug, PartialEq, Eq, Structural)]
pub enum CellDocumentSection {
    Configuration,
    Plan,
    Lock,
}

/// Bounded read of a cell document at a JSON pointer.
#[derive(Clone, Debug)]
pub struct CellReadRequest {
    pub target: CellTarget,
    pub document: CellDocumentSection,
    pub pointer: String,
    pub expected_digest: Option<String>,
    pub offset: usize,
    pub limit: usize,
    pub scan: bool,
}

/// Which part of the topology a configuration search visits.
#[derive(Clone, Copy, Debug, PartialEq, Eq, Structural)]
pub enum CellSearchSection {
    Components,
    Links,
    All,
}

/// Search over a cell's components and links.
#[derive(Clone, Debug)]
pub struct CellSearchRequest {
    pub target: CellTarget,
    pub query: String,
    pub regex: bool,
    pub case_insensitive: bool,
    pub section: CellSearchSection,
    pub fields: Vec<String>,
    pub scan: bool,
    pub id: Option<String>,
    pub limit: usize,
    pub cursor: Option<String>,
}

/// Selectors of a build or run directory page.
#[derive(Clone, Debug)]
pub struct DirectoryQuery {
    pub id: Option<String>,
    pub owner: Option<String>,
    pub phase: Option<String>,
    pub query: String,
    pub regex: bool,
    pub case_insensitive: bool,
    pub scan: bool,
    pub fields: Vec<String>,
    pub cursor: Option<String>,
    pub limit: usize,
}

impl Default for DirectoryQuery {
    fn default() -> (r: Self)
        ensures
            r.id.is_none() && r.owner.is_none() && r.phase.is_none() && r.query@.len() == 0
                && !r.regex && !r.case_insensitive && !r.scan && r.fields@.len() == 0
                && r.cursor.is_none() && r.limit == 20,
    {
        DirectoryQuery {
            id: None,
            owner: None,
            phase: None,
            query: String::new(),
            regex: false,
            case_insensitive: false,
            scan: false,
            fields: Vec::new(),
            cursor: None,
            limit: 20,
        }
    }
}

/// Page through a cell's activity after a sequence.
#[derive(Clone, Debug)]
pub struct CellSyncRequest {
    pub name: String,
    pub after_sequence: u64,
}

/// Remove a cell incarnation.
#[derive(Clone, Debug)]
pub struct CellRemoveRequest {
    pub name: String,
    pub expected_instance_key: String,
    pub timeout_seconds: u32,
}

/// Wait for a candidate build.
#[derive(Clone, Debug)]
pub struct CandidateWaitRequest {
    pub candidate_id: String,
    pub timeout_seconds: u32,
}

/// Cancel a candidate build.
#[derive(Clone, Debug)]
pub struct CandidateCancelRequest {
    pub candidate_id: String,
}

/// A cell instance by name or canonical ID.
#[derive(Clone, Debug)]
pub struct InstanceRequest {
    pub instance_id: String,
}

/// Search and page live component statuses.
#[derive(Clone, Debug)]
pub struct CellComponentStatusListRequest {
    pub instance_id: String,
    pub component: Option<String>,
    pub ready: Option<bool>,
    pub query: String,
    pub regex: bool,
    pub case_insensitive: bool,
    pub scan: bool,
    pub fields: Vec<String>,
    pub limit: u32,
    pub cursor: Option<String>,
}

/// Search and page a cell's Kubernetes inventory.
#[derive(Clone, Debug)]
pub struct CellInventoryListRequest {
    pub instance_id: String,
    pub kind: Option<String>,
    pub namespace: Option<String>,
    pub query: String,
    pub regex: bool,
    pub case_insensitive: bool,
    pub fields: Vec<String>,
    pub limit: u32,
    pub cursor: Option<String>,
}

/// Await several operations together.
#[derive(Clone, Debug)]
pub struct OperationWaitRequest {
    pub operation_ids: Vec<String>,
    pub timeout_seconds: u32,
}

/// Restart, start or stop one component.
#[derive(Clone, Debug)]
pub struct ComponentControlRequest {
    pub instance_id: String,
    pub experiment_id: String,
    pub session_id: String,
    pub operation_id: String,
    pub component: String,
    pub idempotency_key: String,
}

/// Read the tail of one component's log.
#[derive(Clone, Debug)]
pub struct ComponentLogsRequest {
    pub instance_id: String,
    pub experiment_id: String,
    pub session_id: String,
    pub operation_id: String,
    pub component: String,
    pub tail_lines: u32,
    pub idempotency_key: String,
}

/// Run a script in a disposable pod built from a component's image.
#[derive(Clone, Debug)]
pub struct ComponentExecRequest {
    pub instance_id: String,
    pub experiment_id: String,
    pub session_id: String,
    pub operation_id: String,
    pub component: String,
    pub target_component: Option<String>,
    pub script: String,
    pub timeout_seconds: u32,
    pub idempotency_key: String,
}

/// Partition two components.
#[derive(Clone, Debug)]
pub struct NetworkPartitionRequest {
    pub instance_id: String,
    pub experiment_id: String,
    pub session_id: String,
    pub operation_id: String,
    pub from_component: String,
    pub to_component: String,
    pub idempotency_key: String,
}

/// Heal a partition created by an earlier operation.
#[derive(Clone, Debug)]
pub struct NetworkHealRequest {
    pub instance_id: String,
    pub experiment_id: String,
    pub session_id: String,
    pub operation_id: String,
    pub partition_operation_id: String,
    pub idempotency_key: String,
}

/// Observe a wallet's balance at a mint.
#[derive(Clone, Debug)]
pub struct WalletBalanceRequest {
    pub instance_id: String,
    pub experiment_id: String,
    pub session_id: String,
    pub operation_id: String,
    pub wallet: String,
    pub mint: String,
    pub idempotency_key: String,
}

/// Probe service reachability between two components.
#[derive(Clone, Debug)]
pub struct NetworkProbeRequest {
    pub instance_id: String,
    pub experiment_id: String,
    pub session_id: String,
    pub operation_id: String,
    pub from_component: String,
    pub to_component: String,
    pub service: String,
    pub timeout_seconds: u32,
    pub attempts: u32,
    pub idempotency_key: String,
}

/// One operation by ID.
#[derive(Clone, Debug)]
pub struct OperationRequest {
    pub operation_id: String,
}

/// Cancel an operation.
#[derive(Clone, Debug)]
pub struct CancelOperationRequest {
    pub operation_id: String,
    pub idempotency_key: String,
}

/// Start a run in a cell.
#[derive(Clone, Debug)]
pub struct RunStartRequest {
    pub experiment_id: String,
    pub instance_id: String,
    pub idempotency_key: String,
}

/// Read a run, optionally selecting fields.
#[derive(Clone, Debug)]
pub struct RunReadRequest {
    pub experiment_id: String,
    pub fields: Vec<String>,
}

/// Finish a run.
#[derive(Clone, Debug)]
pub struct RunFinishRequest {
    pub experiment_id: String,
    pub idempotency_key: String,
}

/// A private access grant by ID.
#[derive(Clone, Debug)]
pub struct PrivateAccessIdRequest {
    pub grant_id: String,
}

/// Immutable preview reference returned by a plan.
#[derive(Clone, Debug)]
pub struct PlanReference {
    pub id: String,
    pub digest: String,
}

} // verus!
