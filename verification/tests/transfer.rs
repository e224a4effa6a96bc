use proofstorm_mcp::error::{ErrorCode, ErrorDetail, ErrorKind};
use proofstorm_mcp::model::{CellSpec, ComponentKind, ComponentSpec, LockEntry, PublishedRevision};
use proofstorm_mcp::transfer::{
    PrivateTransferInput, TransferMethod, component_image_any, component_kind_name, is_blank,
    revision_integrity_error, valid_component_ids, validate_private_transfer_endpoints,
};

fn component(id: &str, kind: ComponentKind, implementation: &str) -> ComponentSpec {
    ComponentSpec {
        id: id.into(),
        kind,
        implementation: implementation.into(),
        version: Some("1".into()),
        document: "{}".into(),
    }
}

fn image(implementation: &str) -> String {
    format!("registry.example/{implementation}@sha256:0")
}

/// wallet-b, chain and wallet-a, with wallet-b built from `recipient`.
fn revision(recipient: &str) -> PublishedRevision {
    let components = vec![
        component("wallet-b", ComponentKind::Wallet, recipient),
        component("chain", ComponentKind::Bitcoin, "bitcoin-core"),
        component("wallet-a", ComponentKind::Wallet, "nutshell-wallet"),
    ];
    let lock = components
        .iter()
        .map(|c| LockEntry {
            component_id: c.id.clone(),
            catalog_id: c.implementation.clone(),
            image: image(&c.implementation),
        })
        .collect();
    PublishedRevision {
        cell: CellSpec {
            api_version: "proofstorm/v1alpha1".into(),
            name: "component-references".into(),
            components,
            links: vec![],
            policy: "{}".into(),
        },
        lock,
    }
}

fn prepare(size: u32, destination: &str) -> PrivateTransferInput {
    PrivateTransferInput::Prepare {
        component: "wallet-a".into(),
        destination_component: destination.into(),
        maximum_bytes: size,
    }
}

#[test]
fn private_transfer_methods_preserve_the_controller_wire_contract() {
    let prepare_action = prepare(65536, "wallet-b").action().unwrap();
    assert_eq!(prepare_action.transfer_method, TransferMethod::Prepare);
    assert_eq!(prepare_action.component, "wallet-a");
    assert_eq!(prepare_action.destination_component.as_deref(), Some("wallet-b"));
    assert_eq!(prepare_action.maximum_bytes, Some(65536));
    assert_eq!(prepare_action.reference, None);
    assert_eq!(prepare_action.recipient_grant_id, None);

    let handoff = PrivateTransferInput::Handoff {
        component: "wallet-a".into(),
        reference: "opaque-ref".into(),
        recipient_grant_id: "child".into(),
    }
    .action()
    .unwrap();
    assert_eq!(handoff.transfer_method, TransferMethod::Handoff);
    assert_eq!(handoff.reference.as_deref(), Some("opaque-ref"));
    assert_eq!(handoff.recipient_grant_id.as_deref(), Some("child"));
    assert_eq!(handoff.destination_component, None);
    assert_eq!(handoff.maximum_bytes, None);

    for (input, method) in [
        (
            PrivateTransferInput::Status { component: "wallet-a".into(), reference: "opaque-ref".into() },
            TransferMethod::Status,
        ),
        (
            PrivateTransferInput::Deliver { component: "wallet-a".into(), reference: "opaque-ref".into() },
            TransferMethod::Deliver,
        ),
        (
            PrivateTransferInput::Release { component: "wallet-a".into(), reference: "opaque-ref".into() },
            TransferMethod::Release,
        ),
    ] {
        let action = input.action().unwrap();
        assert_eq!(action.transfer_method, method);
        assert_eq!(action.component, "wallet-a");
        assert_eq!(action.reference.as_deref(), Some("opaque-ref"));
        assert_eq!(action.recipient_grant_id, None);
    }
}

#[test]
fn private_transfer_preflight_enforces_native_input_limits_and_endpoints() {
    for size in [0, 1_048_577, u32::MAX] {
        assert!(prepare(size, "wallet-b").action().unwrap_err().message.contains("maximumBytes"));
    }
    assert!(prepare(65536, "wallet-a").action().unwrap_err().message.contains("must differ"));
    assert!(prepare(65536, " ").action().is_err());
    let revision_cdk = revision("cdk-cli-wallet");
    for size in [1, 65536] {
        validate_private_transfer_endpoints(&prepare(size, "wallet-b").action().unwrap(), &revision_cdk)
            .unwrap();
    }
    for size in [65537, 1_048_576] {
        let error = validate_private_transfer_endpoints(
            &prepare(size, "wallet-b").action().unwrap(),
            &revision_cdk,
        )
        .unwrap_err();
        assert!(error.message.contains("65536") && error.message.contains("no operation was created"));
        assert_eq!(
            error.message,
            "prepare.maximumBytes must be at most 65536 for a CDK CLI recipient's native argv input; no operation was created"
        );
    }
    for destination in ["missing", "chain"] {
        assert!(
            validate_private_transfer_endpoints(&prepare(1, destination).action().unwrap(), &revision_cdk)
                .is_err()
        );
    }
    let revision_cocod = revision("cocod-wallet");
    validate_private_transfer_endpoints(&prepare(1_048_576, "wallet-b").action().unwrap(), &revision_cocod)
        .unwrap();
    assert!(
        PrivateTransferInput::Status { component: "wallet-a".into(), reference: String::new() }
            .action()
            .is_err()
    );
}

#[test]
fn component_references_return_typed_recovery_alternatives() {
    let revision = revision("nutshell-wallet");
    assert_eq!(
        component_image_any(&revision, "wallet-a", ComponentKind::Wallet).expect("known typed component"),
        image("nutshell-wallet")
    );
    let unknown = component_image_any(&revision, "invented-wallet", ComponentKind::Wallet)
        .expect_err("unknown component must fail closed");
    assert_eq!(unknown.code, Some(ErrorCode::ComponentIdUnknown));
    match unknown.detail {
        ErrorDetail::ComponentUnknown { requested_id, expected_kind, valid_component_ids } => {
            assert_eq!(requested_id, "invented-wallet");
            assert_eq!(component_kind_name(expected_kind), "wallet");
            assert_eq!(valid_component_ids, vec!["wallet-a".to_owned(), "wallet-b".to_owned()]);
        }
        other => panic!("unexpected detail {other:?}"),
    }
    let wrong_kind = component_image_any(&revision, "chain", ComponentKind::Wallet)
        .expect_err("wrong component kind must fail closed");
    assert_eq!(wrong_kind.code, Some(ErrorCode::ComponentKindMismatch));
    match wrong_kind.detail {
        ErrorDetail::ComponentKindMismatch { actual_kind, expected_kind, valid_component_ids, .. } => {
            assert_eq!(component_kind_name(actual_kind), "bitcoin");
            assert_eq!(component_kind_name(expected_kind), "wallet");
            assert_eq!(valid_component_ids, vec!["wallet-a".to_owned(), "wallet-b".to_owned()]);
        }
        other => panic!("unexpected detail {other:?}"),
    }
}

#[test]
fn component_lookup_messages_quote_ids_and_list_alternatives() {
    let revision = revision("nutshell-wallet");
    let unknown = component_image_any(&revision, "invented-wallet", ComponentKind::Wallet).unwrap_err();
    assert_eq!(
        unknown.message,
        "component \"invented-wallet\" is not in this revision; expected wallet; valid component IDs: [\"wallet-a\", \"wallet-b\"]"
    );
    let wrong = component_image_any(&revision, "chain", ComponentKind::Wallet).unwrap_err();
    assert_eq!(
        wrong.message,
        "component \"chain\" is bitcoin; expected wallet; valid component IDs: [\"wallet-a\", \"wallet-b\"]"
    );
}

#[test]
fn a_component_without_a_lock_entry_is_an_integrity_error() {
    let mut revision = revision("nutshell-wallet");
    revision.lock.retain(|entry| entry.component_id != "wallet-a");
    let error = component_image_any(&revision, "wallet-a", ComponentKind::Wallet).unwrap_err();
    assert_eq!(error.kind, ErrorKind::InternalError);
    assert_eq!(error.code, Some(ErrorCode::RevisionIntegrityError));
    let direct = revision_integrity_error("wallet-a");
    assert_eq!(
        direct.message,
        "published revision has no matching immutable lock entry for component \"wallet-a\""
    );
}

#[test]
fn valid_ids_filter_by_kind_and_implementation_and_sort() {
    let revision = revision("cdk-cli-wallet");
    assert_eq!(valid_component_ids(&revision, ComponentKind::Wallet, None), vec!["wallet-a", "wallet-b"]);
    assert_eq!(
        valid_component_ids(&revision, ComponentKind::Wallet, Some("cdk-cli-wallet")),
        vec!["wallet-b"]
    );
    assert_eq!(valid_component_ids(&revision, ComponentKind::Bitcoin, None), vec!["chain"]);
    assert!(valid_component_ids(&revision, ComponentKind::Mint, None).is_empty());
}

#[test]
fn handoff_requires_a_grant_and_blank_means_only_whitespace() {
    let error = PrivateTransferInput::Handoff {
        component: "wallet-a".into(),
        reference: "r".into(),
        recipient_grant_id: " \t".into(),
    }
    .action()
    .unwrap_err();
    assert_eq!(error.code, Some(ErrorCode::InvalidOperation));
    assert_eq!(error.message, "handoff.recipientGrantId must be nonempty");
    assert!(is_blank(""));
    assert!(is_blank(" \n\t"));
    assert!(!is_blank(" x "));
}

#[test]
fn blank_follows_the_unicode_white_space_property() {
    for code in 0u32..=0x10FFFF {
        if let Some(c) = char::from_u32(code) {
            assert_eq!(is_blank(&c.to_string()), c.is_whitespace(), "U+{code:04X}");
        }
    }
    assert!(is_blank("\u{3000}\u{2028}\u{85}"));
    assert!(!is_blank("wallet-b"));
    assert!(!is_blank("\u{200B}"));
}
