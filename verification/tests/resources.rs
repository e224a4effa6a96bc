use proofstorm_mcp::error::ErrorCode;
use proofstorm_mcp::resources::{candidate_continuation, candidate_resource_query, is_candidate_resource};

#[test]
fn candidate_logs_default_to_diagnostics_and_read_selectors() {
    let (query, _) =
        candidate_resource_query("proofstorm://candidate-build/cand-1/logs?offset=5&digest=d").unwrap();
    assert_eq!(query.id, "cand-1");
    assert_eq!(query.path, "/diagnostics");
    assert_eq!(query.offset, 5);
    assert_eq!(query.expected_digest.as_deref(), Some("d"));
}

#[test]
fn candidate_record_defaults_to_the_whole_document() {
    let (query, url) = candidate_resource_query("proofstorm://candidate-build/cand-2/record").unwrap();
    assert_eq!(query.id, "cand-2");
    assert_eq!(query.path, "");
    assert_eq!(query.offset, 0);
    assert_eq!(query.expected_digest, None);
    assert_eq!(url.as_string(), "proofstorm://candidate-build/cand-2/record");
}

#[test]
fn candidate_path_selector_is_percent_decoded() {
    let (query, _) =
        candidate_resource_query("proofstorm://candidate-build/c/record?path=%2Fspec%2Fimage").unwrap();
    assert_eq!(query.path, "/spec/image");
}

#[test]
fn malformed_candidate_resources_are_refused() {
    for uri in [
        "proofstorm://candidate-build/cand-1/other",
        "proofstorm://candidate-build/cand-1",
        "proofstorm://candidate-build/cand-1/logs/extra",
        "proofstorm://candidate-build/cand-1/logs?offset=x",
        "proofstorm://candidate-build/cand-1/logs?offset=-1",
        "proofstorm://candidate-build/cand-1/logs?page=2",
        "not a url",
    ] {
        let error = candidate_resource_query(uri).unwrap_err();
        assert_eq!(error.code, Some(ErrorCode::CandidateResourceInvalid), "{uri}");
    }
    let error = candidate_resource_query("proofstorm://candidate-build/cand-1/logs?page=2").unwrap_err();
    assert_eq!(error.message, "Unknown resource selector");
    let error = candidate_resource_query("proofstorm://candidate-build/cand-1/logs?offset=x").unwrap_err();
    assert_eq!(error.message, "Invalid offset");
}

#[test]
fn candidate_continuation_replaces_the_query() {
    let (query, url) =
        candidate_resource_query("proofstorm://candidate-build/cand-1/logs?offset=5&digest=old").unwrap();
    let next = candidate_continuation(url, &query.path, 42, "sha256:abc").unwrap();
    assert_eq!(
        next,
        "proofstorm://candidate-build/cand-1/logs?path=%2Fdiagnostics&offset=42&digest=sha256%3Aabc"
    );
    let (again, _) = candidate_resource_query(&next).unwrap();
    assert_eq!(again.path, "/diagnostics");
    assert_eq!(again.offset, 42);
    assert_eq!(again.expected_digest.as_deref(), Some("sha256:abc"));
}

#[test]
fn candidate_resources_are_recognised_by_prefix() {
    assert!(is_candidate_resource("proofstorm://candidate-build/x/logs"));
    assert!(!is_candidate_resource("proofstorm://evidence/x/d"));
}
