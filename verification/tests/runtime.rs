use proofstorm_mcp::actions::{
    CandidateSourceView, PartitionRecord, cancellation_outcome, candidate_build_plan,
    CatalogRuntimeEntry, RuntimeEndpointView, check_heal_partition, check_partition_components,
    check_probe_service, forensics_target, named_component_image, native_command_error,
    probe_destination, removal_outcome, removal_wait_seconds, require_component_runtime_control,
    require_wallet_action, check_wallet_balance_components,
};
use proofstorm_mcp::error::{ErrorCode, ErrorKind, coded_invalid_request};
use proofstorm_mcp::model::{CellSpec, ComponentKind, ComponentSpec, LockEntry, OperationPhase, PublishedRevision};
use proofstorm_mcp::status::{
    ComponentConditions, ConditionView, WaitDecision, blocked_message, fit_wait_receipts,
    keep_artifact, native_result, partition_operation_results, next_backoff_ms, readiness, runtime_guidance, sleep_ms, startup_blockers,
    wait_decision, wait_summary,
};
use proofstorm_mcp::json::{Json, JsonMember};

fn revision() -> PublishedRevision {
    let component = |id: &str, kind| ComponentSpec {
        id: id.into(),
        kind,
        implementation: format!("{id}-impl"),
        version: None,
        document: "{}".into(),
    };
    let components = vec![component("chain", ComponentKind::Bitcoin), component("lnd", ComponentKind::Lightning)];
    let lock = components
        .iter()
        .map(|c| LockEntry { component_id: c.id.clone(), catalog_id: c.implementation.clone(), image: format!("img/{}", c.id) })
        .collect();
    PublishedRevision {
        cell: CellSpec { api_version: "v".into(), name: "n".into(), components, links: vec![], policy: "{}".into() },
        lock,
    }
}

#[test]
fn actions_name_components_of_the_revision() {
    let revision = revision();
    assert!(check_partition_components(&revision, "chain", "lnd").is_ok());
    assert_eq!(
        check_partition_components(&revision, "chain", "ghost").unwrap_err().message,
        "component \"ghost\" is not part of this cell revision"
    );
    assert_eq!(probe_destination(&revision, "chain", "lnd").unwrap(), 1);
    assert!(probe_destination(&revision, "ghost", "lnd").is_err());
    assert!(check_probe_service("lnd", "rpc", &vec!["p2p".into(), "rpc".into()]).is_ok());
    assert_eq!(
        check_probe_service("lnd", "grpc", &vec!["rpc".into()]).unwrap_err().message,
        "component \"lnd\" does not advertise logical service \"grpc\""
    );
    assert_eq!(named_component_image(&revision, "lnd", "missing").unwrap(), "img/lnd");
    let missing = named_component_image(&revision, "ghost", "component is not part of this cell revision").unwrap_err();
    assert_eq!(missing.code, Some(ErrorCode::InvalidOperation));
    assert_eq!(missing.message, "component is not part of this cell revision");
    assert_eq!(forensics_target("lnd", &None), "lnd");
    assert_eq!(forensics_target("lnd", &Some("chain".into())), "chain");
}

#[test]
fn heals_undo_only_succeeded_partitions_of_the_same_run() {
    let record = |kind: &str, phase| PartitionRecord {
        kind: kind.into(),
        instance_id: "cell".into(),
        experiment_id: "run".into(),
        phase,
    };
    assert!(check_heal_partition(&record("network_partition", OperationPhase::Succeeded), "cell", "run").is_ok());
    assert!(check_heal_partition(&record("network_partition", OperationPhase::Failed), "cell", "run").is_err());
    assert!(check_heal_partition(&record("network_heal", OperationPhase::Succeeded), "cell", "run").is_err());
    assert!(check_heal_partition(&record("network_partition", OperationPhase::Succeeded), "cell", "other").is_err());
}

#[test]
fn invalid_native_projection_explains_recovery_before_cell_lookup() {
    let error = native_command_error("unknown json field foo");
    assert_eq!(error.kind, ErrorKind::InvalidParams);
    assert_eq!(error.code, Some(ErrorCode::NativeOutputInvalid));
    assert!(error.message.starts_with("unknown json field foo. The command was not executed."));
    assert!(error.message.contains("{\"mode\":\"public\"}"));
    let other = native_command_error("script too long");
    assert_eq!(other.code, Some(ErrorCode::InvalidOperation));
    assert_eq!(other.message, "script too long");
}

#[test]
fn cancelling_before_submission_is_cancelled_but_missing_running_action_is_failed() {
    assert_eq!(cancellation_outcome(OperationPhase::Pending), Some(OperationPhase::Cancelled));
    assert_eq!(cancellation_outcome(OperationPhase::Running), Some(OperationPhase::Failed));
    assert_eq!(cancellation_outcome(OperationPhase::Succeeded), None);
    assert_eq!(removal_wait_seconds(0).unwrap_err().message, "timeout_seconds must be positive");
    assert_eq!(removal_wait_seconds(120).unwrap(), 30);
    assert_eq!(removal_wait_seconds(7).unwrap(), 7);
    assert_eq!(removal_outcome(Some(true)), (true, false));
    assert_eq!(removal_outcome(None), (false, true));
}

#[test]
fn candidate_build_pushes_to_the_selected_installation_registry() {
    let candidate = |implementation: &str, provenance: Option<&str>| CandidateSourceView {
        implementation: implementation.into(),
        repository: Some("https://example.invalid/repo".into()),
        commit_sha: Some("abc".into()),
        version: Some("1.0".into()),
        provenance_dockerfile: provenance.map(str::to_owned),
    };
    assert_eq!(
        candidate_build_plan(&candidate("cdk", None), "registry.local").unwrap(),
        ("registry.local/proofstorm-candidates/cdk".to_owned(), "Dockerfile".to_owned())
    );
    assert_eq!(
        candidate_build_plan(&candidate("cdk-ldk", None), "r").unwrap().1,
        "Dockerfile.ldk-node"
    );
    assert_eq!(
        candidate_build_plan(&candidate("custom", Some("build/Dockerfile")), "r").unwrap(),
        ("r/candidates/custom".to_owned(), "build/Dockerfile".to_owned())
    );
    assert_eq!(
        candidate_build_plan(&candidate("custom", None), "r").unwrap_err().code,
        Some(ErrorCode::CandidateImplementationUnsupported)
    );
    let mut missing = candidate("cdk", None);
    missing.version = None;
    assert_eq!(candidate_build_plan(&missing, "r").unwrap_err().code, Some(ErrorCode::CandidateVersionMissing));
    missing.repository = None;
    assert_eq!(candidate_build_plan(&missing, "r").unwrap_err().code, Some(ErrorCode::CandidateSourceMissing));
}

fn condition(is_false: bool, blocks: bool, reason: &str) -> ConditionView {
    ConditionView { is_false, blocks_startup: blocks, reason: reason.into(), message: format!("{reason} message") }
}

#[test]
fn cell_wait_returns_startup_blockers_without_waiting_for_timeout() {
    let mut components: Vec<ComponentConditions> = (0..10)
        .map(|i| ComponentConditions {
            id: format!("c{i}"),
            ready: i % 3 == 0,
            conditions: vec![condition(false, true, "ok"), condition(true, true, "image_pull_failed")],
        })
        .collect();
    components[0].conditions = vec![condition(true, false, "not_blocking")];
    let blockers = startup_blockers(&components);
    assert_eq!(blockers.len(), 8);
    assert_eq!(blockers[0].component_id, "c1");
    assert_eq!(blockers[0].reason, "image_pull_failed");
    assert_eq!(blockers[7].component_id, "c8");
    assert_eq!(readiness(&components), (4, 10));
    assert!(blocked_message(true, 1, None).unwrap().starts_with("Component startup is blocked."));
    assert_eq!(blocked_message(false, 1, Some("m".into())), Some("m".into()));
    assert!(runtime_guidance(true).unwrap().starts_with("Ready means infrastructure/protocol availability"));
    assert!(runtime_guidance(false).is_none());
}

#[test]
fn batch_wait_preserves_native_failure_facts_and_successful_reads() {
    let phases = vec![OperationPhase::Succeeded, OperationPhase::Running];
    assert_eq!(wait_summary(&phases, 0, true), (false, vec![false, true]));
    assert_eq!(wait_summary(&vec![OperationPhase::Failed], 0, false), (true, vec![false]));
    assert_eq!(wait_summary(&vec![OperationPhase::Failed], 1, false).0, false);
    assert_eq!(fit_wait_receipts(|omit| if omit { 100 } else { 50_000 }).unwrap(), true);
    assert_eq!(fit_wait_receipts(|_| 100).unwrap(), false);
    assert_eq!(
        fit_wait_receipts(|_| 50_000).unwrap_err().code,
        Some(ErrorCode::OperationWaitResponseTooLarge)
    );
    assert_eq!(wait_decision(&phases, false), WaitDecision::Poll);
    assert_eq!(wait_decision(&phases, true), WaitDecision::TimedOut);
    assert_eq!(wait_decision(&vec![OperationPhase::Cancelled], false), WaitDecision::Done);
    assert_eq!(next_backoff_ms(250), 500);
    assert_eq!(next_backoff_ms(1500), 2000);
    assert_eq!(sleep_ms(2000, 300), 300);
    let ids: Vec<String> = vec!["diag-1".into(), "missing".into(), "diag-4".into()];
    let (good, errors) = partition_operation_results(
        &ids,
        vec![
            Ok("diag-1".to_string()),
            Err(coded_invalid_request(ErrorCode::InvalidOperation, "unknown operation")),
            Ok("diag-4".to_string()),
        ],
    );
    assert_eq!(good, vec!["diag-1", "diag-4"]);
    assert_eq!(errors.len(), 1);
    assert_eq!(errors[0].operation_id, "missing");
    assert_eq!(errors[0].error.message, "unknown operation");
    let (short, none) = partition_operation_results(&ids[..1].to_vec(), vec![Ok(1u64), Ok(2u64)]);
    assert_eq!(short, vec![1]);
    assert!(none.is_empty());
}

fn content(members: Vec<(&str, Json)>) -> Json {
    Json::Object(members.into_iter().map(|(key, value)| JsonMember { key: key.into(), value }).collect())
}

#[test]
fn native_receipts_repeat_exit_facts_in_a_fixed_order() {
    let artifact = content(vec![
        ("stdout", Json::Str("hello".into())),
        ("timed_out", Json::Bool(false)),
        ("exit_code", Json::Number("2".into())),
        ("exit_scope", Json::Str("command".into())),
    ]);
    let facts = native_result(&artifact).unwrap();
    let keys: Vec<&str> = facts.iter().map(|(k, _)| k.as_str()).collect();
    assert_eq!(keys, vec!["exit_code", "exit_scope", "timed_out"]);
    assert!(matches!(facts[0].1, Json::Number(n) if n == "2"));
    let no_exit = content(vec![("stdout", Json::Str("x".into())), ("timed_out", Json::Bool(true))]);
    assert!(native_result(&no_exit).is_none());
    assert!(native_result(&Json::Null).is_none());
}

fn wallet_revision(implementation: &str) -> PublishedRevision {
    let mint = ComponentSpec {
        id: "mint".into(),
        kind: ComponentKind::Mint,
        implementation: "cdk-ldk".into(),
        version: Some("0.9.0".into()),
        document: "{}".into(),
    };
    let wallet = ComponentSpec {
        id: "alice".into(),
        kind: ComponentKind::Wallet,
        implementation: implementation.into(),
        version: Some("1.0.0".into()),
        document: "{}".into(),
    };
    PublishedRevision {
        cell: CellSpec { api_version: "v".into(), name: "n".into(), components: vec![mint, wallet], links: vec![], policy: "{}".into() },
        lock: vec![],
    }
}

fn runtime_catalog() -> Vec<CatalogRuntimeEntry> {
    vec![
        CatalogRuntimeEntry {
            id: "cdk-ldk".into(),
            version: "0.9.0".into(),
            runtime_endpoints: vec![RuntimeEndpointView {
                id: "component".into(),
                controls: vec!["node_start".into(), "node_stop".into()],
                limitations: vec!["No wallet funding".into(), "Restarts drop pending quotes".into()],
            }],
        },
        CatalogRuntimeEntry {
            id: "cocod-wallet".into(),
            version: "1.0.0".into(),
            runtime_endpoints: vec![RuntimeEndpointView {
                id: "component".into(),
                controls: vec!["wallet_balance".into()],
                limitations: vec![],
            }],
        },
    ]
}

#[test]
fn runtime_admission_rejects_a_catalog_unsupported_control_before_operation() {
    let revision = wallet_revision("cocod-wallet");
    let catalog = runtime_catalog();
    assert!(require_component_runtime_control(&revision, "mint", "component", "node_start", &catalog).is_ok());
    let error = require_component_runtime_control(&revision, "mint", "component", "wallet_fund", &catalog).unwrap_err();
    assert_eq!(error.code, Some(ErrorCode::RuntimeControlUnsupported));
    assert_eq!(
        error.message,
        "component \"mint\" endpoint \"component\" cannot execute \"wallet_fund\"; no operation was created. No wallet funding; Restarts drop pending quotes"
    );
    assert!(error.message.contains("no operation was created"));
    let missing = require_component_runtime_control(&revision, "ghost", "component", "node_start", &catalog).unwrap_err();
    assert_eq!(missing.code, Some(ErrorCode::ComponentIdUnknown));
    assert_eq!(missing.message, "component \"ghost\" is not in this revision");
    let endpoint = require_component_runtime_control(&revision, "mint", "admin", "node_start", &catalog).unwrap_err();
    assert_eq!(endpoint.code, Some(ErrorCode::RuntimeEndpointNotFound));
    assert_eq!(endpoint.message, "component \"mint\" has no runtime endpoint \"admin\"");
    let uninstalled = require_component_runtime_control(&revision, "mint", "component", "node_start", &vec![]).unwrap_err();
    assert_eq!(uninstalled.code, Some(ErrorCode::CatalogEntryNotFound));
    assert_eq!(uninstalled.kind, ErrorKind::ResourceNotFound);
}

#[test]
fn wallet_actions_need_the_wallet_and_its_declared_control() {
    let catalog = runtime_catalog();
    assert!(require_wallet_action(&wallet_revision("nutshell-wallet"), "alice", "wallet_fund", &vec![]).is_ok());
    assert!(require_wallet_action(&wallet_revision("cocod-wallet"), "alice", "wallet_balance", &catalog).is_ok());
    let refused = require_wallet_action(&wallet_revision("cocod-wallet"), "alice", "wallet_fund", &catalog).unwrap_err();
    assert_eq!(refused.code, Some(ErrorCode::RuntimeControlUnsupported));
    let missing = require_wallet_action(&wallet_revision("cocod-wallet"), "bob", "wallet_fund", &catalog).unwrap_err();
    assert_eq!(missing.message, "wallet is not in the revision");
}

fn locked(mut revision: PublishedRevision) -> PublishedRevision {
    revision.lock = revision
        .cell
        .components
        .iter()
        .map(|c| LockEntry { component_id: c.id.clone(), catalog_id: c.implementation.clone(), image: format!("img/{}", c.id) })
        .collect();
    revision
}

#[test]
fn wallet_balance_checks_both_components_in_order() {
    let revision = locked(wallet_revision("cocod-wallet"));
    assert!(check_wallet_balance_components(&revision, "alice", "mint").is_ok());
    let unknown = check_wallet_balance_components(&revision, "bob", "mint").unwrap_err();
    assert_eq!(unknown.code, Some(ErrorCode::ComponentIdUnknown));
    let swapped = check_wallet_balance_components(&revision, "mint", "alice").unwrap_err();
    assert_eq!(swapped.code, Some(ErrorCode::ComponentKindMismatch));
    let missing_mint = check_wallet_balance_components(&revision, "alice", "ghost").unwrap_err();
    assert_eq!(missing_mint.code, Some(ErrorCode::ComponentIdUnknown));
    let unlocked = wallet_revision("cocod-wallet");
    let integrity = check_wallet_balance_components(&unlocked, "alice", "mint").unwrap_err();
    assert_eq!(integrity.code, Some(ErrorCode::RevisionIntegrityError));
}

#[test]
fn artifacts_are_kept_only_within_the_response_budget() {
    assert!(keep_artifact(0));
    assert!(keep_artifact(32768));
    assert!(!keep_artifact(32769));
}
