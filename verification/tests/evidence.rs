use proofstorm_mcp::error::{ErrorCode, ErrorKind};
use proofstorm_mcp::json::{Json, JsonMember};
use proofstorm_mcp::evidence::{
    EvidenceActionRecord, EvidenceExportRequest, EvidenceSection, evidence_section_value, evidence_resource_uri, find_artifact, find_capture,
    fit_journal_page, journal_candidates, parse_evidence_resource_uri, select_evidence_artifacts,
};
use proofstorm_mcp::model::OperationPhase;

fn request(ids: &[&str], oracles: bool) -> EvidenceExportRequest {
    EvidenceExportRequest {
        experiment_id: "evidence-experiment".into(),
        include_oracle_artifacts: oracles,
        artifact_operation_ids: ids.iter().map(|s| s.to_string()).collect(),
        include_content: false,
    }
}

#[test]
fn evidence_uris_sort_artifacts_and_parse_back() {
    let uri = evidence_resource_uri(&request(&["op-b", "op-a"], true), "sha256:d");
    assert_eq!(uri, "proofstorm://evidence/evidence-experiment/sha256:d?oracles=1&artifacts=op-a,op-b");
    let (parsed, digest) = parse_evidence_resource_uri(&uri).unwrap();
    assert_eq!(digest, "sha256:d");
    assert_eq!(parsed.experiment_id, "evidence-experiment");
    assert!(parsed.include_oracle_artifacts);
    assert_eq!(parsed.artifact_operation_ids, vec!["op-a", "op-b"]);
    assert!(!parsed.include_content);
    let empty = evidence_resource_uri(&request(&[], false), "d");
    assert_eq!(empty, "proofstorm://evidence/evidence-experiment/d?oracles=0&artifacts=");
    assert!(parse_evidence_resource_uri(&empty).unwrap().0.artifact_operation_ids.is_empty());
}

#[test]
fn malformed_evidence_uris_are_not_found() {
    for bad in [
        "proofstorm://other/x/y?oracles=1&artifacts=",
        "proofstorm://evidence/x/y",
        "proofstorm://evidence/x?oracles=1&artifacts=",
        "proofstorm://evidence//y?oracles=1&artifacts=",
        "proofstorm://evidence/x/y/z?oracles=1&artifacts=",
        "proofstorm://evidence/x/y?oracles=2&artifacts=",
        "proofstorm://evidence/x/y?oracles=1",
        "proofstorm://evidence/x/y?oracles=1&oracles=1&artifacts=",
        "proofstorm://evidence/x/y?oracles=1&artifacts=&extra=1",
    ] {
        assert_eq!(parse_evidence_resource_uri(bad).unwrap_err().kind, ErrorKind::ResourceNotFound, "{bad}");
    }
}

fn action(id: &str, sequence: u64, kind: &str, phase: OperationPhase, has_artifact: bool) -> EvidenceActionRecord {
    EvidenceActionRecord { id: id.into(), sequence, kind: kind.into(), phase, has_artifact }
}

#[test]
fn evidence_selection_admits_closed_runs_and_embeds_requested_bodies() {
    let actions = vec![
        action("exec", 1, "component_exec_live", OperationPhase::Succeeded, true),
        action("probe", 2, "reachability_oracle", OperationPhase::Succeeded, true),
        action("other", 3, "component_logs", OperationPhase::Failed, true),
    ];
    assert_eq!(select_evidence_artifacts(&request(&[], true), true, &actions).unwrap(), vec![1]);
    assert_eq!(select_evidence_artifacts(&request(&["other"], false), true, &actions).unwrap(), vec![2]);
    assert_eq!(
        select_evidence_artifacts(&request(&["x", "x"], true), true, &actions).unwrap_err().code,
        Some(ErrorCode::EvidenceArtifactDuplicate)
    );
    assert_eq!(
        select_evidence_artifacts(&request(&[], true), false, &actions).unwrap_err().code,
        Some(ErrorCode::EvidenceExperimentActive)
    );
    assert_eq!(
        select_evidence_artifacts(&request(&["missing"], true), true, &actions).unwrap_err().code,
        Some(ErrorCode::EvidenceArtifactUnknown)
    );
    assert_eq!(
        select_evidence_artifacts(&request(&["mis\"sing"], true), true, &actions).unwrap_err().message,
        "operation \"mis\\\"sing\" is not in the experiment journal"
    );
    let bare = vec![action("exec", 1, "component_exec_live", OperationPhase::Succeeded, false)];
    let missing = select_evidence_artifacts(&request(&["exec"], false), true, &bare).unwrap_err();
    assert_eq!(missing.code, Some(ErrorCode::EvidenceArtifactMissing));
    assert_eq!(missing.message, "operation \"exec\" has no terminal artifact");
    let running = vec![action("exec", 1, "component_exec_live", OperationPhase::Running, false)];
    assert_eq!(
        select_evidence_artifacts(&request(&[], true), true, &running).unwrap_err().code,
        Some(ErrorCode::EvidenceJournalIncomplete)
    );
}

#[test]
fn journal_pages_take_one_extra_candidate_and_shrink_to_fit() {
    let sequences = vec![1, 2, 3, 4, 5];
    assert_eq!(journal_candidates(&sequences, 2, 2).unwrap(), vec![2, 3, 4]);
    assert_eq!(
        journal_candidates(&sequences, 0, 0).unwrap_err().code,
        Some(ErrorCode::EvidenceSectionLimitInvalid)
    );
    assert!(journal_candidates(&sequences, 0, 51).is_err());
    let candidates = vec![3, 4, 5];
    assert_eq!(fit_journal_page(&candidates, 2, |_, _| 100).unwrap(), (2, Some(4)));
    assert_eq!(fit_journal_page(&candidates, 2, |end, _| if end > 1 { 40_000 } else { 10 }).unwrap(), (1, Some(3)));
    assert_eq!(fit_journal_page(&vec![3], 2, |_, _| 10).unwrap(), (1, None));
    assert_eq!(
        fit_journal_page(&candidates, 2, |_, _| 40_000).unwrap_err().code,
        Some(ErrorCode::EvidenceActionTooLarge)
    );
}

#[test]
fn section_reads_name_their_artifact_or_capture() {
    let ids = vec!["a".to_owned(), "b".to_owned()];
    assert_eq!(find_artifact(Some("b"), &ids).unwrap(), 1);
    assert_eq!(find_artifact(None, &ids).unwrap_err().code, Some(ErrorCode::EvidenceOperationIdRequired));
    assert_eq!(find_artifact(Some("z"), &ids).unwrap_err().code, Some(ErrorCode::EvidenceArtifactNotSelected));
    assert_eq!(find_capture(Some("a"), &ids).unwrap(), 0);
    assert_eq!(find_capture(None, &ids).unwrap_err().code, Some(ErrorCode::EvidenceCaptureIdRequired));
    assert_eq!(find_capture(Some("z"), &ids).unwrap_err().code, Some(ErrorCode::EvidenceCaptureUnknown));
}

fn doc(members: Vec<(&str, Json)>) -> Json {
    Json::Object(members.into_iter().map(|(key, value)| JsonMember { key: key.into(), value }).collect())
}

#[test]
fn evidence_sections_select_their_document_before_the_pointer() {
    let revision = doc(vec![("cell", doc(vec![("name", Json::Str("alpha".into()))]))]);
    let lock = doc(vec![("entries", Json::Array(vec![]))]);
    let artifact_ids = vec!["op-1".to_owned()];
    let artifacts = vec![doc(vec![("exit_code", Json::Number("0".into()))])];
    let capture_ids = vec!["cap-1".to_owned()];
    let captures = vec![doc(vec![("files", Json::Number("3".into()))])];
    let read = |section, op: Option<&str>, cap: Option<&str>, pointer: &str| {
        evidence_section_value(section, &revision, &lock, &artifact_ids, &artifacts, &capture_ids, &captures, op, cap, pointer)
            .map(|v| match v {
                Json::Str(s) => s.clone(),
                Json::Number(n) => n.clone(),
                Json::Array(a) => format!("array of {}", a.len()),
                Json::Object(m) => format!("object of {}", m.len()),
                _ => "other".into(),
            })
    };
    assert_eq!(read(EvidenceSection::Revision, None, None, "/cell/name").unwrap(), "alpha");
    assert_eq!(read(EvidenceSection::Lock, None, None, "/entries").unwrap(), "array of 0");
    assert_eq!(read(EvidenceSection::Artifact, Some("op-1"), None, "/exit_code").unwrap(), "0");
    assert_eq!(read(EvidenceSection::WorkspaceCapture, None, Some("cap-1"), "").unwrap(), "object of 1");
    let code = |r: Result<String, proofstorm_mcp::error::ToolError>| r.unwrap_err().code;
    assert_eq!(code(read(EvidenceSection::Artifact, None, None, "")), Some(ErrorCode::EvidenceOperationIdRequired));
    assert_eq!(code(read(EvidenceSection::Artifact, Some("op-9"), None, "")), Some(ErrorCode::EvidenceArtifactNotSelected));
    assert_eq!(code(read(EvidenceSection::WorkspaceCapture, None, None, "")), Some(ErrorCode::EvidenceCaptureIdRequired));
    assert_eq!(code(read(EvidenceSection::WorkspaceCapture, None, Some("x"), "")), Some(ErrorCode::EvidenceCaptureUnknown));
    let missing = read(EvidenceSection::Lock, None, None, "/gone").unwrap_err();
    assert_eq!(missing.code, Some(ErrorCode::EvidencePointerNotFound));
    assert!(missing.message.contains("does not exist in the lock section"));
}

#[test]
fn journal_pages_return_every_action_after_the_boundary_once() {
    let sequences: Vec<u64> = (1..=125).collect();
    let mut after = 100;
    let mut seen = Vec::new();
    loop {
        let candidates: Vec<u64> =
            journal_candidates(&sequences, after, 10).unwrap().iter().map(|&i| sequences[i]).collect();
        let (end, next) = fit_journal_page(&candidates, 10, |end, _| end * 3000).unwrap();
        seen.extend_from_slice(&candidates[..end]);
        match next {
            Some(boundary) => {
                assert!(boundary > after);
                after = boundary;
            }
            None => break,
        }
    }
    assert_eq!(seen, (101..=125).collect::<Vec<u64>>());
}
