//! Request defaults and the bounds every tool enforces before any work.
use crate::error::{ErrorCode, ErrorDetail, ErrorKind, ToolError, coded_invalid_request, invalid_operation};
use crate::model::OperationPhase;
use crate::requests::{NetworkProbeRequest, OperationWaitRequest};
use crate::text::{decimal, render_u64, str_eq, string_views};
use vstd::prelude::*;
use vstd::string::StringSliceAdditionalSpecFns;

verus! {

/// The complete agent response budget, in bytes.
pub const MAX_AGENT_RESPONSE_BYTES: usize = 32768;

/// Oracle artifacts are included unless a request opts out.
pub fn default_true() -> (r: bool)
    ensures
        r,
{
    true
}

/// Default journal page size of an evidence section read.
pub fn default_evidence_section_limit() -> (r: u32)
    ensures
        r == 20,
{
    20
}

/// Default per-attempt timeout of a reachability probe.
pub fn default_probe_timeout_seconds() -> (r: u32)
    ensures
        r == 2,
{
    2
}

/// Default number of reachability probe attempts.
pub fn default_probe_attempts() -> (r: u32)
    ensures
        r == 3,
{
    3
}

/// Default page size of a live status list.
pub fn default_status_list_limit() -> (r: u32)
    ensures
        r == 20,
{
    20
}

/// Default server-side wait bound.
pub fn default_wait_timeout_seconds() -> (r: u32)
    ensures
        r == 30,
{
    30
}

/// Wait bounds are 1..=120 seconds.
pub fn validate_wait_timeout(timeout_seconds: u32) -> (r: Result<(), ToolError>)
    ensures
        r is Ok <==> 1 <= timeout_seconds <= 120,
        r matches Err(e) ==> e.is_coded(ErrorCode::WaitTimeoutInvalid),
{
    if 1 <= timeout_seconds && timeout_seconds <= 120 {
        return Ok(());
    }
    Err(coded_invalid_request(ErrorCode::WaitTimeoutInvalid, "timeout_seconds must be between 1 and 120"))
}

pub open spec fn distinct(s: Seq<Seq<char>>) -> bool {
    forall|i: int, j: int| 0 <= i < j < s.len() ==> s[i] != s[j]
}

/// A batch wait names at least one operation, each once, with a valid timeout.
pub fn validate_operation_wait_request(request: &OperationWaitRequest) -> (r: Result<(), ToolError>)
    ensures
        r is Ok <==> (1 <= request.timeout_seconds <= 120 && request.operation_ids@.len() > 0
            && distinct(string_views(request.operation_ids@))),
        r matches Err(e) ==> if !(1 <= request.timeout_seconds <= 120) {
            e.is_coded(ErrorCode::WaitTimeoutInvalid)
        } else if request.operation_ids@.len() == 0 {
            e.is_coded(ErrorCode::OperationWaitCountInvalid) && e.detail == (ErrorDetail::WaitCount {
                minimum: 1,
                requested: 0,
            })
        } else {
            e.is_coded(ErrorCode::OperationWaitDuplicateId)
        },
{
    validate_wait_timeout(request.timeout_seconds)?;
    let ids = &request.operation_ids;
    if ids.len() == 0 {
        let mut e = coded_invalid_request(
            ErrorCode::OperationWaitCountInvalid,
            "operation_ids must contain at least one ID",
        );
        e.detail = ErrorDetail::WaitCount { minimum: 1, requested: ids.len() };
        return Err(e);
    }
    let mut j: usize = 1;
    while j < ids.len()
        invariant
            1 <= j <= ids@.len(),
            ids@ == request.operation_ids@,
            1 <= request.timeout_seconds <= 120,
            distinct(string_views(ids@).take(j as int)),
        decreases ids@.len() - j,
    {
        let mut i: usize = 0;
        while i < j
            invariant
                i <= j < ids@.len(),
                ids@ == request.operation_ids@,
                1 <= request.timeout_seconds <= 120,
                forall|k: int| 0 <= k < i ==> ids@[k]@ != ids@[j as int]@,
            decreases j - i,
        {
            if str_eq(ids[i].as_str(), ids[j].as_str()) {
                assert(string_views(ids@)[i as int] == string_views(ids@)[j as int]);
                return Err(
                    coded_invalid_request(
                        ErrorCode::OperationWaitDuplicateId,
                        "operation_ids must be unique",
                    ),
                );
            }
            i = i + 1;
        }
        assert forall|a: int, b: int| 0 <= a < b < j + 1 implies #[trigger] string_views(ids@).take(
            j + 1,
        )[a] != #[trigger] string_views(ids@).take(j + 1)[b] by {
            if b < j {
                assert(string_views(ids@).take(j as int)[a] != string_views(ids@).take(j as int)[b]);
            }
        }
        j = j + 1;
    }
    assert(string_views(ids@).take(ids@.len() as int) =~= string_views(ids@));
    Ok(())
}

/// Page size of a live status list is 1..=50.
pub fn validate_status_list_limit(limit: u32) -> (r: Result<(), ToolError>)
    ensures
        r is Ok <==> 1 <= limit <= 50,
        r matches Err(e) ==> e.is_coded(ErrorCode::StatusListLimitInvalid),
{
    if 1 <= limit && limit <= 50 {
        return Ok(());
    }
    Err(coded_invalid_request(ErrorCode::StatusListLimitInvalid, "status list limit must be between 1 and 50"))
}

/// A reachability probe joins two distinct components with 1..=5 second attempts, 1..=5 times.
pub fn validate_reachability_oracle_bounds(request: &NetworkProbeRequest) -> (r: Result<(), ToolError>)
    ensures
        r is Ok <==> (request.from_component@ != request.to_component@ && 1
            <= request.timeout_seconds <= 5 && 1 <= request.attempts <= 5),
        r matches Err(e) ==> e.is_coded(ErrorCode::InvalidOperation),
{
    if str_eq(request.from_component.as_str(), request.to_component.as_str()) {
        return Err(invalid_operation("from_component and to_component must differ"));
    }
    if !(1 <= request.timeout_seconds && request.timeout_seconds <= 5) {
        return Err(invalid_operation("timeout_seconds must be between 1 and 5"));
    }
    if !(1 <= request.attempts && request.attempts <= 5) {
        return Err(invalid_operation("attempts must be between 1 and 5"));
    }
    Ok(())
}

pub open spec fn spec_operation_terminal(phase: OperationPhase) -> bool {
    match phase {
        OperationPhase::Succeeded | OperationPhase::Failed | OperationPhase::Cancelled => true,
        _ => false,
    }
}

/// Succeeded, failed and cancelled operations are terminal.
pub fn operation_terminal(phase: OperationPhase) -> (r: bool)
    ensures
        r == spec_operation_terminal(phase),
{
    match phase {
        OperationPhase::Succeeded | OperationPhase::Failed | OperationPhase::Cancelled => true,
        _ => false,
    }
}

/// Component log reads take 1..=2000 trailing lines.
pub fn validate_tail_lines(tail_lines: u32) -> (r: Result<(), ToolError>)
    ensures
        r is Ok <==> 1 <= tail_lines <= 2000,
        r matches Err(e) ==> e.is_coded(ErrorCode::InvalidOperation),
{
    if !(1 <= tail_lines && tail_lines <= 2000) {
        return Err(invalid_operation("tail_lines must be in 1..=2000"));
    }
    Ok(())
}

/// Offline forensics take a 1..=16384 byte script and a 1..=300 second timeout.
pub fn validate_forensics_request(script: &str, timeout_seconds: u32) -> (r: Result<(), ToolError>)
    ensures
        r is Ok <==> (1 <= script.len() <= 16384 && 1 <= timeout_seconds <= 300),
        r matches Err(e) ==> e.is_coded(ErrorCode::InvalidOperation),
{
    if script.len() == 0 || script.len() > 16384 {
        return Err(invalid_operation("script must contain 1..=16384 UTF-8 bytes"));
    }
    if !(1 <= timeout_seconds && timeout_seconds <= 300) {
        return Err(invalid_operation("timeout_seconds must be in 1..=300"));
    }
    Ok(())
}

/// A network partition joins two distinct components.
pub fn validate_partition_endpoints(from_component: &str, to_component: &str) -> (r: Result<(), ToolError>)
    ensures
        r is Ok <==> from_component@ != to_component@,
        r matches Err(e) ==> e.is_coded(ErrorCode::InvalidOperation),
{
    if str_eq(from_component, to_component) {
        return Err(invalid_operation("partition endpoints must be distinct"));
    }
    Ok(())
}

/// The message of a response over the agent budget.
pub open spec fn response_too_large_message(size: nat) -> Seq<char> {
    "agent response is "@ + decimal(size) + " bytes; maximum is "@ + decimal(MAX_AGENT_RESPONSE_BYTES as nat)
        + " bytes"@
}

/// Refuses a response whose serialized size exceeds the agent budget, naming
/// both sizes.
pub fn bounded_agent_response(size: usize) -> (r: Result<(), ToolError>)
    ensures
        r is Ok <==> size <= MAX_AGENT_RESPONSE_BYTES,
        r matches Err(e) ==> e.kind == ErrorKind::InvalidRequest && e.code == Some(
            ErrorCode::AgentResponseTooLarge,
        ) && e.message@ == response_too_large_message(size as nat) && e.detail == (ErrorDetail::ResponseSize {
            actual_bytes: size,
            maximum_bytes: MAX_AGENT_RESPONSE_BYTES,
        }),
{
    if size <= MAX_AGENT_RESPONSE_BYTES {
        return Ok(());
    }
    let mut message = String::new();
    message.append("agent response is ");
    let actual = render_u64(size as u64);
    message.append(actual.as_str());
    message.append(" bytes; maximum is ");
    let maximum = render_u64(MAX_AGENT_RESPONSE_BYTES as u64);
    message.append(maximum.as_str());
    message.append(" bytes");
    Err(
        ToolError {
            kind: ErrorKind::InvalidRequest,
            code: Some(ErrorCode::AgentResponseTooLarge),
            message,
            detail: ErrorDetail::ResponseSize { actual_bytes: size, maximum_bytes: MAX_AGENT_RESPONSE_BYTES },
        },
    )
}

} // verus!
