//! Coded tool errors: agents branch on a stable code, never on prose.
use crate::model::ComponentKind;
use vstd::prelude::*;

verus! {

/// Transport class of a tool error.
#[derive(Clone, Copy, Debug, PartialEq, Eq, Structural)]
pub enum ErrorKind {
    InvalidRequest,
    InvalidParams,
    ResourceNotFound,
    InternalError,
}

/// Stable machine-readable error codes carried in the error payload.
#[derive(Clone, Copy, Debug, PartialEq, Eq, Structural)]
pub enum ErrorCode {
    WaitTimeoutInvalid,
    OperationWaitCountInvalid,
    OperationWaitDuplicateId,
    StatusListLimitInvalid,
    StatusCursorInvalid,
    StatusResponseTooLarge,
    InvalidOperation,
    InvalidJsonPointer,
    SearchFieldsInvalid,
    ActivitySearchCursorInvalid,
    ActivitySearchLimits,
    ActivitySearchTimeRange,
    ActivitySearchRegexInvalid,
    CellSearchCursorInvalid,
    CellSearchResponseTooLarge,
    SessionCursorInvalid,
    SessionQueryInvalid,
    SessionScopeInvalid,
    SessionScopeRequired,
    DirectoryQueryInvalid,
    DirectoryCursorInvalid,
    DirectoryChanged,
    EvidenceSectionLimitInvalid,
    EvidenceActionTooLarge,
    EvidenceOperationIdRequired,
    EvidenceArtifactNotSelected,
    EvidenceCaptureIdRequired,
    EvidenceCaptureUnknown,
    EvidencePointerInvalid,
    EvidencePointerNotFound,
    EvidenceArtifactDuplicate,
    EvidenceExperimentActive,
    EvidenceJournalIncomplete,
    EvidenceArtifactUnknown,
    EvidenceArtifactMissing,
    EvidenceDigestMismatch,
    ComponentIdUnknown,
    ComponentKindMismatch,
    RevisionIntegrityError,
    InvalidCellInput,
    CellPlanDigestMismatch,
    IdempotencyConflict,
    CellUpdateConflict,
    OperationReadLimit,
    OperationReadOffset,
    OperationReadValueTooLarge,
    CellReadLimit,
    CellReadOffset,
    CellReadValueTooLarge,
    CellReadTarget,
    OperationReadChanged,
    OperationReadPointerMissing,
    CellReadChanged,
    CellReadPointerMissing,
    CellReadScan,
    CellPlanMissing,
    SearchQueryInvalid,
    SearchRegexInvalid,
    ActivitySearchItemTooLarge,
    CellPlanInvalid,
    DirectoryValueTooLarge,
    SessionResponseTooLarge,
    CatalogEntryNotFound,
    CatalogSchemaPointerInvalid,
    CatalogSchemaPointerNotFound,
    CatalogSchemaReferenceInvalid,
    AgentResponseTooLarge,
    RuntimeEndpointNotFound,
    RuntimeControlUnsupported,
    OperationWaitResponseTooLarge,
    OperationWaitDeadlineExceeded,
    NativeOutputInvalid,
    CandidateSourceMissing,
    CandidateVersionMissing,
    CandidateImplementationUnsupported,
    CandidateResourceInvalid,
}

/// Structured facts an error carries besides its code, for recovery.
#[derive(Clone, Debug)]
pub enum ErrorDetail {
    Plain,
    ComponentUnknown {
        requested_id: String,
        expected_kind: ComponentKind,
        valid_component_ids: Vec<String>,
    },
    ComponentKindMismatch {
        requested_id: String,
        actual_kind: ComponentKind,
        expected_kind: ComponentKind,
        valid_component_ids: Vec<String>,
    },
    RevisionIntegrity { component_id: String },
    ResponseSize { actual_bytes: usize, maximum_bytes: usize },
    WaitCount { minimum: usize, requested: usize },
    RuntimeControlUnsupported {
        component_id: String,
        implementation: String,
        endpoint_id: String,
        endpoint_controls: Vec<String>,
        endpoint_limitations: Vec<String>,
        requested_control: String,
    },
}

/// A tool error: transport class, optional stable code, a human message and
/// structured recovery facts.
#[derive(Clone, Debug)]
pub struct ToolError {
    pub kind: ErrorKind,
    pub code: Option<ErrorCode>,
    pub message: String,
    pub detail: ErrorDetail,
}

impl ErrorCode {
    /// The wire spelling of each code.
    pub open spec fn spec_text(self) -> Seq<char> {
        match self {
            ErrorCode::WaitTimeoutInvalid => "wait_timeout_invalid"@,
            ErrorCode::OperationWaitCountInvalid => "operation_wait_count_invalid"@,
            ErrorCode::OperationWaitDuplicateId => "operation_wait_duplicate_id"@,
            ErrorCode::StatusListLimitInvalid => "status_list_limit_invalid"@,
            ErrorCode::StatusCursorInvalid => "status_cursor_invalid"@,
            ErrorCode::StatusResponseTooLarge => "status_response_too_large"@,
            ErrorCode::InvalidOperation => "invalid_operation"@,
            ErrorCode::InvalidJsonPointer => "invalid_json_pointer"@,
            ErrorCode::SearchFieldsInvalid => "search_fields_invalid"@,
            ErrorCode::ActivitySearchCursorInvalid => "activity_search_cursor_invalid"@,
            ErrorCode::ActivitySearchLimits => "activity_search_limits"@,
            ErrorCode::ActivitySearchTimeRange => "activity_search_time_range"@,
            ErrorCode::ActivitySearchRegexInvalid => "activity_search_regex_invalid"@,
            ErrorCode::CellSearchCursorInvalid => "cell_search_cursor_invalid"@,
            ErrorCode::CellSearchResponseTooLarge => "cell_search_response_too_large"@,
            ErrorCode::SessionCursorInvalid => "session_cursor_invalid"@,
            ErrorCode::SessionQueryInvalid => "session_query_invalid"@,
            ErrorCode::SessionScopeInvalid => "session_scope_invalid"@,
            ErrorCode::SessionScopeRequired => "session_scope_required"@,
            ErrorCode::DirectoryQueryInvalid => "directory_query_invalid"@,
            ErrorCode::DirectoryCursorInvalid => "directory_cursor_invalid"@,
            ErrorCode::DirectoryChanged => "directory_changed"@,
            ErrorCode::EvidenceSectionLimitInvalid => "evidence_section_limit_invalid"@,
            ErrorCode::EvidenceActionTooLarge => "evidence_action_too_large"@,
            ErrorCode::EvidenceOperationIdRequired => "evidence_operation_id_required"@,
            ErrorCode::EvidenceArtifactNotSelected => "evidence_artifact_not_selected"@,
            ErrorCode::EvidenceCaptureIdRequired => "evidence_capture_id_required"@,
            ErrorCode::EvidenceCaptureUnknown => "evidence_capture_unknown"@,
            ErrorCode::EvidencePointerInvalid => "evidence_pointer_invalid"@,
            ErrorCode::EvidencePointerNotFound => "evidence_pointer_not_found"@,
            ErrorCode::EvidenceArtifactDuplicate => "evidence_artifact_duplicate"@,
            ErrorCode::EvidenceExperimentActive => "evidence_experiment_active"@,
            ErrorCode::EvidenceJournalIncomplete => "evidence_journal_incomplete"@,
            ErrorCode::EvidenceArtifactUnknown => "evidence_artifact_unknown"@,
            ErrorCode::EvidenceArtifactMissing => "evidence_artifact_missing"@,
            ErrorCode::EvidenceDigestMismatch => "evidence_digest_mismatch"@,
            ErrorCode::ComponentIdUnknown => "component_id_unknown"@,
            ErrorCode::ComponentKindMismatch => "component_kind_mismatch"@,
            ErrorCode::RevisionIntegrityError => "revision_integrity_error"@,
            ErrorCode::InvalidCellInput => "invalid_cell_input"@,
            ErrorCode::CellPlanDigestMismatch => "cell_plan_digest_mismatch"@,
            ErrorCode::IdempotencyConflict => "idempotency_conflict"@,
            ErrorCode::CellUpdateConflict => "cell_update_conflict"@,
            ErrorCode::OperationReadLimit => "operation_read_limit"@,
            ErrorCode::OperationReadOffset => "operation_read_offset"@,
            ErrorCode::OperationReadValueTooLarge => "operation_read_value_too_large"@,
            ErrorCode::CellReadLimit => "cell_read_limit"@,
            ErrorCode::CellReadOffset => "cell_read_offset"@,
            ErrorCode::CellReadValueTooLarge => "cell_read_value_too_large"@,
            ErrorCode::CellReadTarget => "cell_read_target"@,
            ErrorCode::OperationReadChanged => "operation_read_changed"@,
            ErrorCode::OperationReadPointerMissing => "operation_read_pointer_missing"@,
            ErrorCode::CellReadChanged => "cell_read_changed"@,
            ErrorCode::CellReadPointerMissing => "cell_read_pointer_missing"@,
            ErrorCode::CellReadScan => "cell_read_scan"@,
            ErrorCode::CellPlanMissing => "cell_plan_missing"@,
            ErrorCode::SearchQueryInvalid => "search_query_invalid"@,
            ErrorCode::SearchRegexInvalid => "search_regex_invalid"@,
            ErrorCode::ActivitySearchItemTooLarge => "activity_search_item_too_large"@,
            ErrorCode::CellPlanInvalid => "cell_plan_invalid"@,
            ErrorCode::DirectoryValueTooLarge => "directory_value_too_large"@,
            ErrorCode::SessionResponseTooLarge => "session_response_too_large"@,
            ErrorCode::CatalogEntryNotFound => "catalog_entry_not_found"@,
            ErrorCode::CatalogSchemaPointerInvalid => "catalog_schema_pointer_invalid"@,
            ErrorCode::CatalogSchemaPointerNotFound => "catalog_schema_pointer_not_found"@,
            ErrorCode::CatalogSchemaReferenceInvalid => "catalog_schema_reference_invalid"@,
            ErrorCode::AgentResponseTooLarge => "agent_response_too_large"@,
            ErrorCode::RuntimeEndpointNotFound => "runtime_endpoint_not_found"@,
            ErrorCode::RuntimeControlUnsupported => "runtime_control_unsupported"@,
            ErrorCode::OperationWaitResponseTooLarge => "operation_wait_response_too_large"@,
            ErrorCode::OperationWaitDeadlineExceeded => "operation_wait_deadline_exceeded"@,
            ErrorCode::NativeOutputInvalid => "native_output_invalid"@,
            ErrorCode::CandidateSourceMissing => "candidate_source_missing"@,
            ErrorCode::CandidateVersionMissing => "candidate_version_missing"@,
            ErrorCode::CandidateImplementationUnsupported => "candidate_implementation_unsupported"@,
            ErrorCode::CandidateResourceInvalid => "candidate_resource_invalid"@,
        }
    }

    /// The wire spelling of this code, as carried in the error payload.
    pub fn text(&self) -> (r: &'static str)
        ensures
            r@ == self.spec_text(),
    {
        match self {
            ErrorCode::WaitTimeoutInvalid => "wait_timeout_invalid",
            ErrorCode::OperationWaitCountInvalid => "operation_wait_count_invalid",
            ErrorCode::OperationWaitDuplicateId => "operation_wait_duplicate_id",
            ErrorCode::StatusListLimitInvalid => "status_list_limit_invalid",
            ErrorCode::StatusCursorInvalid => "status_cursor_invalid",
            ErrorCode::StatusResponseTooLarge => "status_response_too_large",
            ErrorCode::InvalidOperation => "invalid_operation",
            ErrorCode::InvalidJsonPointer => "invalid_json_pointer",
            ErrorCode::SearchFieldsInvalid => "search_fields_invalid",
            ErrorCode::ActivitySearchCursorInvalid => "activity_search_cursor_invalid",
            ErrorCode::ActivitySearchLimits => "activity_search_limits",
            ErrorCode::ActivitySearchTimeRange => "activity_search_time_range",
            ErrorCode::ActivitySearchRegexInvalid => "activity_search_regex_invalid",
            ErrorCode::CellSearchCursorInvalid => "cell_search_cursor_invalid",
            ErrorCode::CellSearchResponseTooLarge => "cell_search_response_too_large",
            ErrorCode::SessionCursorInvalid => "session_cursor_invalid",
            ErrorCode::SessionQueryInvalid => "session_query_invalid",
            ErrorCode::SessionScopeInvalid => "session_scope_invalid",
            ErrorCode::SessionScopeRequired => "session_scope_required",
            ErrorCode::DirectoryQueryInvalid => "directory_query_invalid",
            ErrorCode::DirectoryCursorInvalid => "directory_cursor_invalid",
            ErrorCode::DirectoryChanged => "directory_changed",
            ErrorCode::EvidenceSectionLimitInvalid => "evidence_section_limit_invalid",
            ErrorCode::EvidenceActionTooLarge => "evidence_action_too_large",
            ErrorCode::EvidenceOperationIdRequired => "evidence_operation_id_required",
            ErrorCode::EvidenceArtifactNotSelected => "evidence_artifact_not_selected",
            ErrorCode::EvidenceCaptureIdRequired => "evidence_capture_id_required",
            ErrorCode::EvidenceCaptureUnknown => "evidence_capture_unknown",
            ErrorCode::EvidencePointerInvalid => "evidence_pointer_invalid",
            ErrorCode::EvidencePointerNotFound => "evidence_pointer_not_found",
            ErrorCode::EvidenceArtifactDuplicate => "evidence_artifact_duplicate",
            ErrorCode::EvidenceExperimentActive => "evidence_experiment_active",
            ErrorCode::EvidenceJournalIncomplete => "evidence_journal_incomplete",
            ErrorCode::EvidenceArtifactUnknown => "evidence_artifact_unknown",
            ErrorCode::EvidenceArtifactMissing => "evidence_artifact_missing",
            ErrorCode::EvidenceDigestMismatch => "evidence_digest_mismatch",
            ErrorCode::ComponentIdUnknown => "component_id_unknown",
            ErrorCode::ComponentKindMismatch => "component_kind_mismatch",
            ErrorCode::RevisionIntegrityError => "revision_integrity_error",
            ErrorCode::InvalidCellInput => "invalid_cell_input",
            ErrorCode::CellPlanDigestMismatch => "cell_plan_digest_mismatch",
            ErrorCode::IdempotencyConflict => "idempotency_conflict",
            ErrorCode::CellUpdateConflict => "cell_update_conflict",
            ErrorCode::OperationReadLimit => "operation_read_limit",
            ErrorCode::OperationReadOffset => "operation_read_offset",
            ErrorCode::OperationReadValueTooLarge => "operation_read_value_too_large",
            ErrorCode::CellReadLimit => "cell_read_limit",
            ErrorCode::CellReadOffset => "cell_read_offset",
            ErrorCode::CellReadValueTooLarge => "cell_read_value_too_large",
            ErrorCode::CellReadTarget => "cell_read_target",
            ErrorCode::OperationReadChanged => "operation_read_changed",
            ErrorCode::OperationReadPointerMissing => "operation_read_pointer_missing",
            ErrorCode::CellReadChanged => "cell_read_changed",
            ErrorCode::CellReadPointerMissing => "cell_read_pointer_missing",
            ErrorCode::CellReadScan => "cell_read_scan",
            ErrorCode::CellPlanMissing => "cell_plan_missing",
            ErrorCode::SearchQueryInvalid => "search_query_invalid",
            ErrorCode::SearchRegexInvalid => "search_regex_invalid",
            ErrorCode::ActivitySearchItemTooLarge => "activity_search_item_too_large",
            ErrorCode::CellPlanInvalid => "cell_plan_invalid",
            ErrorCode::DirectoryValueTooLarge => "directory_value_too_large",
            ErrorCode::SessionResponseTooLarge => "session_response_too_large",
            ErrorCode::CatalogEntryNotFound => "catalog_entry_not_found",
            ErrorCode::CatalogSchemaPointerInvalid => "catalog_schema_pointer_invalid",
            ErrorCode::CatalogSchemaPointerNotFound => "catalog_schema_pointer_not_found",
            ErrorCode::CatalogSchemaReferenceInvalid => "catalog_schema_reference_invalid",
            ErrorCode::AgentResponseTooLarge => "agent_response_too_large",
            ErrorCode::RuntimeEndpointNotFound => "runtime_endpoint_not_found",
            ErrorCode::RuntimeControlUnsupported => "runtime_control_unsupported",
            ErrorCode::OperationWaitResponseTooLarge => "operation_wait_response_too_large",
            ErrorCode::OperationWaitDeadlineExceeded => "operation_wait_deadline_exceeded",
            ErrorCode::NativeOutputInvalid => "native_output_invalid",
            ErrorCode::CandidateSourceMissing => "candidate_source_missing",
            ErrorCode::CandidateVersionMissing => "candidate_version_missing",
            ErrorCode::CandidateImplementationUnsupported => "candidate_implementation_unsupported",
            ErrorCode::CandidateResourceInvalid => "candidate_resource_invalid",
        }
    }
}

impl ToolError {
    /// The error is an invalid request carrying exactly this code.
    pub open spec fn is_coded(self, code: ErrorCode) -> bool {
        self.kind == ErrorKind::InvalidRequest && self.code == Some(code)
    }

    /// The error is a resource-not-found without a code.
    pub open spec fn is_not_found(self) -> bool {
        self.kind == ErrorKind::ResourceNotFound && self.code.is_none()
    }
}

/// One coded invalid-request error: the code travels in the payload.
pub fn coded_invalid_request(code: ErrorCode, message: &str) -> (e: ToolError)
    ensures
        e.is_coded(code),
        e.message@ == message@,
        e.detail == ErrorDetail::Plain,
{
    ToolError {
        kind: ErrorKind::InvalidRequest,
        code: Some(code),
        message: message.to_owned(),
        detail: ErrorDetail::Plain,
    }
}

/// The invalid-operation error used by action admission checks.
pub fn invalid_operation(message: &str) -> (e: ToolError)
    ensures
        e.is_coded(ErrorCode::InvalidOperation),
        e.message@ == message@,
{
    coded_invalid_request(ErrorCode::InvalidOperation, message)
}

/// A resource-not-found error without a code.
pub fn resource_not_found(message: &str) -> (e: ToolError)
    ensures
        e.is_not_found(),
        e.message@ == message@,
{
    ToolError {
        kind: ErrorKind::ResourceNotFound,
        code: None,
        message: message.to_owned(),
        detail: ErrorDetail::Plain,
    }
}

} // verus!
