use proofstorm_mcp::cell_input::{AddLinkInput, AuthoredCellSpec, has_canonical_binding};
use proofstorm_mcp::json::{Json, JsonMember};
use proofstorm_mcp::error::ErrorCode;
use proofstorm_mcp::model::{CellSpec, ComponentKind, ComponentSpec, DependencyBinding, LinkKind, LinkSpec};
use proofstorm_mcp::submission::{CellPatch, apply_patch, submitted_cell};

fn component(id: &str) -> ComponentSpec {
    ComponentSpec {
        id: id.into(),
        kind: ComponentKind::Bitcoin,
        implementation: "bitcoin-core".into(),
        version: Some("31.1".into()),
        document: "{}".into(),
    }
}

fn peer(id: &str) -> AddLinkInput {
    AddLinkInput::BitcoinPeer { id: id.into(), from: "a".into(), to: "b".into() }
}

fn cell() -> CellSpec {
    CellSpec {
        api_version: "proofstorm/v1alpha1".into(),
        name: "patched".into(),
        components: vec![component("b"), component("a")],
        links: vec![],
        policy: "{}".into(),
    }
}

fn ids(cell: &CellSpec) -> Vec<String> {
    cell.components.iter().map(|c| c.id.clone()).collect()
}

#[test]
fn ordered_patches_apply_atomically_and_sort_by_id() {
    let mut target = cell();
    apply_patch(
        &mut target,
        vec![
            CellPatch::AddComponent { component: component("c") },
            CellPatch::RemoveComponent { id: "b".into() },
            CellPatch::AddLink { link: peer("z") },
            CellPatch::AddLink { link: peer("y") },
            CellPatch::SetPolicy { policy: "{\"strict\":true}".into() },
        ],
    )
    .unwrap();
    assert_eq!(ids(&target), vec!["a", "c"]);
    assert_eq!(target.links.iter().map(|l| l.id.as_str()).collect::<Vec<_>>(), vec!["y", "z"]);
    assert_eq!(target.policy, "{\"strict\":true}");
    assert_eq!(target.name, "patched");
}

#[test]
fn patches_refuse_duplicates_absences_and_bad_sizes() {
    let cases: Vec<(Vec<CellPatch>, &str)> = vec![
        (vec![], "patch must contain 1..=100 operations"),
        (vec![CellPatch::AddComponent { component: component("a") }], "Component \"a\" already exists"),
        (vec![CellPatch::UpdateComponent { component: component("q") }], "Component \"q\" is absent"),
        (vec![CellPatch::RemoveComponent { id: "q".into() }], "Component \"q\" is absent"),
        (vec![CellPatch::RemoveLink { id: "q".into() }], "Link \"q\" is absent"),
        (
            vec![CellPatch::AddLink { link: peer("l") }, CellPatch::AddLink { link: peer("l") }],
            "Link \"l\" already exists",
        ),
    ];
    for (patch, message) in cases {
        let mut target = cell();
        let error = apply_patch(&mut target, patch).unwrap_err();
        assert_eq!(error.code, Some(ErrorCode::InvalidCellInput));
        assert_eq!(error.message, message);
    }
    let mut target = cell();
    let too_many = (0..101).map(|i| CellPatch::SetPolicy { policy: format!("{i}") }).collect();
    assert!(apply_patch(&mut target, too_many).is_err());
}

#[test]
fn update_replaces_the_component_in_place() {
    let mut target = cell();
    let mut updated = component("a");
    updated.implementation = "btcd".into();
    apply_patch(&mut target, vec![CellPatch::UpdateComponent { component: updated }]).unwrap();
    assert_eq!(ids(&target), vec!["a", "b"]);
    assert_eq!(target.components[0].implementation, "btcd");
}

#[test]
fn add_then_remove_restores_the_components() {
    let mut target = cell();
    apply_patch(
        &mut target,
        vec![
            CellPatch::AddComponent { component: component("n") },
            CellPatch::RemoveComponent { id: "n".into() },
        ],
    )
    .unwrap();
    assert_eq!(ids(&target), vec!["a", "b"]);
}

#[test]
fn submitted_cells_take_the_request_name_and_patch_the_current_cell() {
    let named = submitted_cell(Some(cell()), None, "renamed".into(), None).unwrap();
    assert_eq!(named.name, "renamed");
    assert_eq!(ids(&named), vec!["b", "a"]);
    let patched = submitted_cell(
        None,
        Some(cell()),
        "current".into(),
        Some(vec![CellPatch::RemoveComponent { id: "a".into() }]),
    )
    .unwrap();
    assert_eq!(ids(&patched), vec!["b"]);
    assert_eq!(patched.name, "current");
}

#[test]
fn authored_links_become_canonical_and_back() {
    let authored = AuthoredCellSpec {
        api_version: "proofstorm/v1alpha1".into(),
        name: "imported".into(),
        components: vec![],
        links: vec![AddLinkInput::ChainBackend {
            id: "backend".into(),
            from: "node".into(),
            to: "chain".into(),
            network: "regtest".into(),
        }],
        policy: "{}".into(),
    };
    let canonical = CellSpec::try_from(authored).unwrap();
    let link = &canonical.links[0];
    assert_eq!(link.kind, LinkKind::ChainBackend);
    assert!(matches!(&link.binding, Some(DependencyBinding::Chain { network }) if network == "regtest"));
    let back = AddLinkInput::try_from(link.clone()).unwrap();
    assert!(matches!(back, AddLinkInput::ChainBackend { ref network, .. } if network == "regtest"));
    let mismatched = LinkSpec {
        id: "bad".into(),
        kind: LinkKind::PaymentBackend,
        from: "a".into(),
        to: "b".into(),
        binding: Some(DependencyBinding::Chain { network: "regtest".into() }),
    };
    assert_eq!(
        AddLinkInput::try_from(mismatched).unwrap_err(),
        "canonical PaymentBackend link \"bad\" has a missing or mismatched binding"
    );
    let peer_with_binding = LinkSpec {
        id: "p".into(),
        kind: LinkKind::BitcoinPeer,
        from: "a".into(),
        to: "b".into(),
        binding: Some(DependencyBinding::Chain { network: "regtest".into() }),
    };
    assert!(AddLinkInput::try_from(peer_with_binding).is_err());
}

fn canonical(links: Vec<LinkSpec>) -> CellSpec {
    CellSpec { api_version: "proofstorm/v1alpha1".into(), name: "c".into(), components: vec![], links, policy: "{}".into() }
}

#[test]
fn canonical_cells_read_back_in_authored_form_or_name_the_bad_link() {
    let chain = LinkSpec {
        id: "chain".into(),
        kind: LinkKind::ChainBackend,
        from: "lnd".into(),
        to: "bitcoind".into(),
        binding: Some(DependencyBinding::Chain { network: "regtest".into() }),
    };
    let peer = LinkSpec { id: "peer".into(), kind: LinkKind::LightningPeer, from: "a".into(), to: "b".into(), binding: None };
    let authored = AuthoredCellSpec::from_canonical(canonical(vec![chain, peer])).unwrap();
    assert!(matches!(&authored.links[0], AddLinkInput::ChainBackend { network, .. } if network == "regtest"));
    assert!(matches!(&authored.links[1], AddLinkInput::LightningPeer { .. }));
    let unbound = LinkSpec { id: "pay".into(), kind: LinkKind::PaymentBackend, from: "m".into(), to: "l".into(), binding: None };
    let bound_peer = LinkSpec {
        id: "odd".into(),
        kind: LinkKind::BitcoinPeer,
        from: "a".into(),
        to: "b".into(),
        binding: Some(DependencyBinding::Chain { network: "regtest".into() }),
    };
    let error = AuthoredCellSpec::from_canonical(canonical(vec![unbound, bound_peer])).unwrap_err();
    assert_eq!(error, "canonical PaymentBackend link \"pay\" has a missing or mismatched binding");
}

#[test]
fn canonical_documents_are_recognised_by_a_link_binding() {
    let member = |key: &str, value: Json| JsonMember { key: key.into(), value };
    let link = |with_binding: bool| {
        let mut members = vec![member("id", Json::Str("l".into()))];
        if with_binding {
            members.push(member("binding", Json::Null));
        }
        Json::Object(members)
    };
    let doc = |links: Vec<Json>| Json::Object(vec![member("links", Json::Array(links))]);
    assert!(has_canonical_binding(&doc(vec![link(false), link(true)])));
    assert!(!has_canonical_binding(&doc(vec![link(false)])));
    assert!(!has_canonical_binding(&Json::Object(vec![member("links", Json::Null)])));
    assert!(!has_canonical_binding(&Json::Str("{}".into())));
}
