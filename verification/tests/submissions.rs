use proofstorm_mcp::error::ErrorCode;
use proofstorm_mcp::requests::PlanReference;
use proofstorm_mcp::submission::{
    CellPatch, SubmissionRequest, check_plan_record, check_retry, check_submission, check_update_target,
    invalid, preview_id,
};

fn request() -> SubmissionRequest {
    SubmissionRequest {
        name: "fleet".into(),
        request_id: "req-1".into(),
        cell: None,
        patch: Some(vec![CellPatch::SetPolicy { policy: "{}".into() }]),
        plan: None,
        expected_generation: Some(3),
        expected_instance_key: Some("key".into()),
        delete_data: false,
        delete_retained: vec![],
    }
}

#[test]
fn submission_shape_requires_sizes_and_exactly_one_form() {
    assert!(check_submission(&request(), false).is_ok());
    let mut bad = request();
    bad.request_id = String::new();
    assert_eq!(
        check_submission(&bad, false).unwrap_err().message,
        "name must fit 63 bytes and request_id must contain 1..=128 bytes"
    );
    let mut bad = request();
    bad.request_id = "r".repeat(129);
    assert!(check_submission(&bad, false).is_err());
    let mut bad = request();
    bad.name = "n".repeat(64);
    assert!(check_submission(&bad, false).is_err());
    let mut ok = request();
    ok.name = "n".repeat(63);
    ok.request_id = "r".repeat(128);
    assert!(check_submission(&ok, false).is_ok());
    let mut none = request();
    none.patch = None;
    assert_eq!(check_submission(&none, false).unwrap_err().message, "Supply exactly one of cell, patch or plan");
    let mut plan = request();
    plan.patch = None;
    plan.plan = Some(PlanReference { id: "preview-1".into(), digest: "d".into() });
    assert_eq!(check_submission(&plan, true).unwrap_err().code, Some(ErrorCode::InvalidCellInput));
    plan.expected_generation = None;
    plan.expected_instance_key = None;
    assert!(check_submission(&plan, true).is_ok());
    assert!(check_submission(&plan, false).is_err());
}

#[test]
fn bound_plans_must_match_their_reviewed_record() {
    let reference = PlanReference { id: "preview-1".into(), digest: "sha256:p".into() };
    assert!(check_plan_record("fleet", &reference, Some(("fleet", "sha256:p"))).is_ok());
    assert_eq!(
        check_plan_record("fleet", &reference, Some(("other", "sha256:p"))).unwrap_err().code,
        Some(ErrorCode::CellPlanDigestMismatch)
    );
    assert_eq!(
        check_plan_record("fleet", &reference, Some(("fleet", "sha256:q"))).unwrap_err().code,
        Some(ErrorCode::CellPlanDigestMismatch)
    );
    let missing = check_plan_record("fleet", &reference, None).unwrap_err();
    assert_eq!(missing.code, Some(ErrorCode::InvalidCellInput));
    assert_eq!(missing.message, "Plan not found for this actor");
}

#[test]
fn exact_retries_replay_and_changed_input_conflicts() {
    assert_eq!(check_retry(None, "d").unwrap(), false);
    assert_eq!(check_retry(Some("d"), "d").unwrap(), true);
    assert_eq!(check_retry(Some("d"), "e").unwrap_err().code, Some(ErrorCode::IdempotencyConflict));
    let digest = format!("sha256:{}", "0123456789abcdef".repeat(4));
    assert_eq!(preview_id(&digest), "preview-0123456789abcdef0123456789abcdef");
}

#[test]
fn edits_are_fenced_by_generation_and_instance_key() {
    assert!(check_update_target(&request(), Some((3, "key"))).is_ok());
    assert_eq!(
        check_update_target(&request(), Some((4, "key"))).unwrap_err().code,
        Some(ErrorCode::CellUpdateConflict)
    );
    assert!(check_update_target(&request(), Some((3, "other"))).is_err());
    assert_eq!(
        check_update_target(&request(), None).unwrap_err().message,
        "The requested existing cell is absent; nothing accepted"
    );
    let mut create = request();
    create.patch = None;
    create.expected_generation = None;
    create.expected_instance_key = None;
    assert!(check_update_target(&create, None).is_ok());
    let error = invalid("bad cell");
    assert_eq!(error.code, Some(ErrorCode::InvalidCellInput));
    assert_eq!(error.message, "bad cell");
}
