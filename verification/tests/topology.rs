use proofstorm_mcp::model::{CellSpec, ComponentKind, ComponentSpec, DependencyBinding, LinkKind, LinkSpec};
use proofstorm_mcp::topology::topology_summary;
use proofstorm_mcp::validation::{CellValidationResult, ValidationIssue, cell_validation_result};

fn component(id: &str, kind: ComponentKind, implementation: &str) -> ComponentSpec {
    ComponentSpec {
        id: id.into(),
        kind,
        implementation: implementation.into(),
        version: None,
        document: "{}".into(),
    }
}

fn link(id: &str, kind: LinkKind, from: &str, to: &str, binding: Option<DependencyBinding>) -> LinkSpec {
    LinkSpec { id: id.into(), kind, from: from.into(), to: to.into(), binding }
}

fn cell(components: Vec<ComponentSpec>, links: Vec<LinkSpec>) -> CellSpec {
    CellSpec {
        api_version: "proofstorm/v1alpha1".into(),
        name: "topology".into(),
        components,
        links,
        policy: "{}".into(),
    }
}

#[test]
fn topology_receipts_expose_stable_identities_and_binding_coverage() {
    let mut authored = cell(
        vec![
            component("lnd", ComponentKind::Lightning, "lnd"),
            component("chain", ComponentKind::Bitcoin, "bitcoin-core"),
        ],
        vec![link(
            "lnd-chain",
            LinkKind::ChainBackend,
            "lnd",
            "chain",
            Some(DependencyBinding::Chain { network: "regtest".into() }),
        )],
    );
    let first = topology_summary(&authored);
    assert_eq!(first.component_ids, ["chain", "lnd"]);
    assert_eq!(first.link_ids, ["lnd-chain"]);
    assert!(first.warnings.is_empty());
    assert_eq!(first.backend_link_count, 1);
    assert_eq!(first.bound_backend_link_count, 1);
    authored.components.reverse();
    authored.links.reverse();
    let reordered = topology_summary(&authored);
    assert_eq!(first.component_ids, reordered.component_ids);
    assert_eq!(first.link_ids, reordered.link_ids);
}

#[test]
fn topology_receipt_warns_when_a_direct_backend_link_bypasses_a_router() {
    let payment = || Some(DependencyBinding::Payment { method: "bolt11".into(), unit: "sat".into() });
    let authored = cell(
        vec![
            component("mint-a", ComponentKind::Mint, "nutshell"),
            component("mint-b", ComponentKind::Mint, "nutshell"),
            component("backend-a", ComponentKind::Lightning, "lnd"),
            component("backend-b", ComponentKind::Lightning, "cln"),
            component("router", ComponentKind::Lightning, "lnd"),
        ],
        vec![
            link("pay-a", LinkKind::PaymentBackend, "mint-a", "backend-a", payment()),
            link("pay-b", LinkKind::PaymentBackend, "mint-b", "backend-b", payment()),
            link("direct", LinkKind::LightningPeer, "backend-a", "backend-b", None),
        ],
    );
    let summary = topology_summary(&authored);
    assert!(summary.warnings.iter().any(|warning| warning.starts_with("direct_mint_backend_peer:")));
    assert_eq!(
        summary.warnings[0],
        "direct_mint_backend_peer: link(s) direct bypass the available forwarding node; routing-fee experiments need backend <-> router <-> backend with no direct backend peer"
    );
    assert!(summary.warnings[1].starts_with("distinct_payment_wallets_required: 2 mints but only 0 wallet"));
}

#[test]
fn topology_receipt_warns_when_cross_mint_work_has_only_one_wallet() {
    let authored = cell(
        vec![
            component("mint-a", ComponentKind::Mint, "nutshell"),
            component("mint-b", ComponentKind::Mint, "nutshell"),
            component("wallet", ComponentKind::Wallet, "nutshell-wallet"),
        ],
        vec![],
    );
    let summary = topology_summary(&authored);
    assert!(summary.warnings.iter().any(|warning| {
        warning.starts_with("distinct_payment_wallets_required:")
            && warning.contains("bidirectional cross-mint payments")
    }));
    assert_eq!(
        summary.warnings,
        vec![
            "disconnected_topology: multiple components have no links".to_owned(),
            "distinct_payment_wallets_required: 2 mints but only 1 wallet component(s); bidirectional cross-mint payments require distinct payer and recipient wallet components".to_owned(),
        ]
    );
}

#[test]
fn empty_and_unbound_topologies_warn() {
    let empty = topology_summary(&cell(vec![], vec![]));
    assert_eq!(empty.warnings, vec!["empty_topology: the cell contains no components".to_owned()]);
    assert_eq!(empty.component_count, 0);
    let unbound = topology_summary(&cell(
        vec![
            component("lnd", ComponentKind::Lightning, "lnd"),
            component("chain", ComponentKind::Bitcoin, "bitcoin-core"),
        ],
        vec![link("lnd-chain", LinkKind::ChainBackend, "lnd", "chain", None)],
    ));
    assert_eq!(unbound.warnings, vec!["unbound_backend_links: 0/1 carry typed bindings".to_owned()]);
    assert_eq!(unbound.backend_link_count, 1);
    assert_eq!(unbound.bound_backend_link_count, 0);
}

#[test]
fn a_router_that_is_a_payment_backend_is_no_intermediary() {
    let payment = || Some(DependencyBinding::Payment { method: "bolt11".into(), unit: "sat".into() });
    let authored = cell(
        vec![
            component("mint-a", ComponentKind::Mint, "nutshell"),
            component("mint-b", ComponentKind::Mint, "nutshell"),
            component("backend-a", ComponentKind::Lightning, "lnd"),
            component("backend-b", ComponentKind::Lightning, "cln"),
            component("wallet-a", ComponentKind::Wallet, "w"),
            component("wallet-b", ComponentKind::Wallet, "w"),
        ],
        vec![
            link("pay-a", LinkKind::PaymentBackend, "mint-a", "backend-a", payment()),
            link("pay-b", LinkKind::PaymentBackend, "mint-b", "backend-b", payment()),
            link("direct", LinkKind::LightningPeer, "backend-a", "backend-b", None),
        ],
    );
    assert!(topology_summary(&authored).warnings.is_empty());
}

fn issue(code: &str, message: &str) -> ValidationIssue {
    ValidationIssue { code: code.into(), path: "/components/0".into(), message: message.into() }
}

fn small(_: &CellValidationResult) -> usize {
    1_000
}

#[test]
fn validation_reports_page_issues_and_add_the_publication_refusal() {
    let cell = cell(
        vec![component("chain", ComponentKind::Bitcoin, "bitcoind"), component("lnd", ComponentKind::Lightning, "lnd")],
        vec![],
    );
    let report = cell_validation_result(&cell, true, vec![], Some("image missing".into()), 0, small, |_| 10);
    assert!(!report.valid);
    assert_eq!(report.issue_count, 1);
    assert_eq!(report.issues[0].code, "publication_preflight_failed");
    assert_eq!(report.issues[0].path, "/");
    assert_eq!(report.component_ids, vec!["chain", "lnd"]);
    assert_eq!(report.next_issue_offset, None);
    let issues = (0..5).map(|i| issue("bad", &format!("issue {i}"))).collect();
    let page = cell_validation_result(&cell, false, issues, Some("ignored".into()), 2, small, |_| 10);
    assert!(!page.valid);
    assert_eq!(page.issue_count, 5);
    assert_eq!(page.issues.len(), 3);
    assert_eq!(page.issues[0].message, "issue 2");
    assert_eq!(page.next_issue_offset, None);
    assert!(cell_validation_result(&cell, true, vec![], None, 0, small, |_| 10).valid);
}

#[test]
fn oversized_validation_reports_drop_ids_truncate_and_keep_one_issue() {
    let cell = cell(vec![component("chain", ComponentKind::Bitcoin, "bitcoind")], vec![]);
    let long = "x".repeat(5_000);
    let issues = vec![issue("bad", &long), issue("bad", "short"), issue("bad", "short")];
    let report = cell_validation_result(
        &cell,
        false,
        issues,
        None,
        0,
        |r: &CellValidationResult| if r.details_omitted { 500 } else { 40_000 },
        |i: &ValidationIssue| if i.message.len() > 100 { 40_000 } else { 10 },
    );
    assert!(report.details_omitted);
    assert!(report.component_ids.is_empty());
    assert_eq!(report.issues.len(), 1);
    assert_eq!(report.issues[0].message, format!("{} [message truncated]", "x".repeat(1024)));
    assert_eq!(report.next_issue_offset, Some(1));
}
