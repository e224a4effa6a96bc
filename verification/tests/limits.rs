use proofstorm_mcp::error::{ErrorCode, ErrorDetail};
use proofstorm_mcp::limits::{
    bounded_agent_response,
    default_evidence_section_limit, default_probe_attempts, default_probe_timeout_seconds,
    default_status_list_limit, default_true, default_wait_timeout_seconds, operation_terminal,
    validate_forensics_request, validate_operation_wait_request, validate_partition_endpoints,
    validate_reachability_oracle_bounds, validate_status_list_limit, validate_tail_lines,
    validate_wait_timeout,
};
use proofstorm_mcp::model::OperationPhase;
use proofstorm_mcp::requests::{NetworkProbeRequest, OperationWaitRequest};

#[test]
fn defaults_match_the_documented_selectors() {
    assert!(default_true());
    assert_eq!(default_evidence_section_limit(), 20);
    assert_eq!(default_probe_timeout_seconds(), 2);
    assert_eq!(default_probe_attempts(), 3);
    assert_eq!(default_status_list_limit(), 20);
    assert_eq!(default_wait_timeout_seconds(), 30);
    assert_eq!(proofstorm_mcp::operation_read::default_limit(), 1000);
    assert_eq!(proofstorm_mcp::cell_read::default_limit(), 100);
    assert_eq!(proofstorm_mcp::cell_search::default_limit(), 20);
    assert_eq!(proofstorm_mcp::activity_search::default_limit(), 20);
}

#[test]
fn wait_contracts_are_bounded_terminal_and_capability_filtered() {
    assert!(validate_wait_timeout(1).is_ok());
    assert!(validate_wait_timeout(120).is_ok());
    for timeout in [0, 121] {
        assert_eq!(validate_wait_timeout(timeout).unwrap_err().code, Some(ErrorCode::WaitTimeoutInvalid));
    }
    let valid_batch = OperationWaitRequest {
        operation_ids: vec!["operation-a".into(), "operation-b".into()],
        timeout_seconds: 120,
    };
    assert!(validate_operation_wait_request(&valid_batch).is_ok());
    assert!(
        validate_operation_wait_request(&OperationWaitRequest {
            operation_ids: (0..150).map(|index| format!("operation-{index}")).collect(),
            timeout_seconds: 30,
        })
        .is_ok()
    );
    let empty_error = validate_operation_wait_request(&OperationWaitRequest {
        operation_ids: Vec::new(),
        timeout_seconds: 30,
    })
    .expect_err("empty batch must refuse");
    assert_eq!(empty_error.code, Some(ErrorCode::OperationWaitCountInvalid));
    assert!(matches!(empty_error.detail, ErrorDetail::WaitCount { minimum: 1, requested: 0 }));
    let duplicate_error = validate_operation_wait_request(&OperationWaitRequest {
        operation_ids: vec!["same".into(), "same".into()],
        timeout_seconds: 30,
    })
    .expect_err("duplicate IDs must refuse");
    assert_eq!(duplicate_error.code, Some(ErrorCode::OperationWaitDuplicateId));
    assert!(!operation_terminal(OperationPhase::Running));
    assert!(!operation_terminal(OperationPhase::Pending));
    assert!(operation_terminal(OperationPhase::Succeeded));
    assert!(operation_terminal(OperationPhase::Failed));
    assert!(operation_terminal(OperationPhase::Cancelled));
}

fn probe(from: &str, to: &str, timeout_seconds: u32, attempts: u32) -> NetworkProbeRequest {
    NetworkProbeRequest {
        instance_id: "cell".into(),
        experiment_id: String::new(),
        session_id: String::new(),
        operation_id: "probe".into(),
        from_component: from.into(),
        to_component: to.into(),
        service: "rpc".into(),
        timeout_seconds,
        attempts,
        idempotency_key: String::new(),
    }
}

#[test]
fn reachability_oracle_is_capability_filtered_and_bounded() {
    assert!(validate_reachability_oracle_bounds(&probe("a", "b", 2, 3)).is_ok());
    assert!(validate_reachability_oracle_bounds(&probe("a", "b", 5, 5)).is_ok());
    for request in [probe("a", "a", 2, 3), probe("a", "b", 0, 3), probe("a", "b", 6, 3), probe("a", "b", 2, 0), probe("a", "b", 2, 6)] {
        assert_eq!(validate_reachability_oracle_bounds(&request).unwrap_err().code, Some(ErrorCode::InvalidOperation));
    }
    assert_eq!(
        validate_reachability_oracle_bounds(&probe("a", "a", 2, 3)).unwrap_err().message,
        "from_component and to_component must differ"
    );
}

#[test]
fn action_inputs_are_bounded() {
    assert!(validate_status_list_limit(1).is_ok());
    assert!(validate_status_list_limit(50).is_ok());
    assert_eq!(validate_status_list_limit(51).unwrap_err().code, Some(ErrorCode::StatusListLimitInvalid));
    assert!(validate_tail_lines(2000).is_ok());
    assert!(validate_tail_lines(0).is_err());
    assert!(validate_forensics_request("ls", 300).is_ok());
    assert!(validate_forensics_request("", 10).is_err());
    assert!(validate_forensics_request(&"x".repeat(16385), 10).is_err());
    assert!(validate_forensics_request("ls", 301).is_err());
    assert!(validate_partition_endpoints("a", "b").is_ok());
    assert_eq!(validate_partition_endpoints("a", "a").unwrap_err().message, "partition endpoints must be distinct");
}

#[test]
fn responses_over_the_agent_budget_name_both_sizes() {
    assert!(bounded_agent_response(32_768).is_ok());
    let error = bounded_agent_response(40_000).unwrap_err();
    assert_eq!(error.code, Some(ErrorCode::AgentResponseTooLarge));
    assert_eq!(error.message, "agent response is 40000 bytes; maximum is 32768 bytes");
    assert!(matches!(error.detail, ErrorDetail::ResponseSize { actual_bytes: 40_000, maximum_bytes: 32_768 }));
}
