use proofstorm_mcp::catalog::{
    CatalogEntryKey, ControlClass, check_schema_pointer, exact_catalog_entry, public_control_name,
    public_endpoints, public_limitations,
    public_controls, recommended_control, sorted_fields,
};
use proofstorm_mcp::directories::{DirectoryRecord, check_directory_query, fill_directory_page, select_records};
use proofstorm_mcp::error::{ErrorCode, ErrorKind};
use proofstorm_mcp::requests::{CellComponentStatusListRequest, CellInventoryListRequest, DirectoryQuery};
use proofstorm_mcp::session_directory::{
    SessionExamined, SessionSelectors, check_session_list, principal_omitted, resolve_scope,
    session_page_start, session_step,
};
use proofstorm_mcp::status_search::{
    ComponentStatusEntry, InventoryEntry, check_component_list, check_inventory_list,
    fit_status_page, inventory_key, oversized, page_continues, select_components, select_inventory,
};
use proofstorm_mcp::validation::{fit_issue_count, next_issue_offset, truncate_issue_message};

fn key(id: &str, version: &str) -> CatalogEntryKey {
    CatalogEntryKey { id: id.into(), version: version.into() }
}

use proofstorm_mcp::text::replace_all_exec;
use proofstorm_mcp::actions::RuntimeEndpointView;

#[test]
fn missing_catalog_version_reports_exact_installed_alternatives() {
    let entries = vec![key("bitcoin-core", "31.1"), key("lnd", "0.20.4-beta"), key("lnd", "0.21.3-beta")];
    assert_eq!(exact_catalog_entry(&entries, "lnd", "0.21.3-beta").unwrap(), 2);
    let error = exact_catalog_entry(&entries, "lnd", "0.21.3-beta4").unwrap_err();
    assert_eq!(error.kind, ErrorKind::ResourceNotFound);
    assert_eq!(error.code, Some(ErrorCode::CatalogEntryNotFound));
    let message = error.message;
    assert!(message.contains("[catalog_entry_not_found]"));
    assert!(message.contains("no changes were made"));
    assert!(message.contains("Recovery:"));
    assert!(message.contains("0.20.4-beta"));
    assert!(message.contains("0.21.3-beta"));
    assert!(message.ends_with("available exact versions: 0.20.4-beta, 0.21.3-beta"));
    assert!(exact_catalog_entry(&entries, "cln", "1").unwrap_err().message.ends_with("no versions are installed for that implementation"));
}

#[test]
fn public_catalog_controls_reference_only_real_tools() {
    let tools: Vec<String> = ["cell_exec", "component_start", "network_probe", "component_stop"]
        .into_iter()
        .map(str::to_owned)
        .collect();
    let controls = vec!["node_start".to_owned(), "internal_only".to_owned(), "reachability_oracle".to_owned()];
    assert_eq!(public_controls("rpc", &controls, &tools), vec!["component_start", "network_probe"]);
    assert_eq!(
        public_controls("component", &vec!["component_exec_live".into()], &tools),
        vec!["cell_exec", "cell_exec", "component_forensics", "component_start", "component_stop", "component_restart"]
    );
    assert_eq!(public_control_name("node_restart"), "component_restart");
    assert_eq!(public_control_name("other"), "other");
    assert_eq!(recommended_control(&vec![ControlClass::Oracle, ControlClass::Cell]), ControlClass::Cell);
    assert_eq!(recommended_control(&vec![ControlClass::Oracle]), ControlClass::Oracle);
    assert_eq!(sorted_fields(&vec!["b".into(), "a".into()]), vec!["a", "b"]);
    assert!(check_schema_pointer("").is_ok());
    assert!(check_schema_pointer("/properties").is_ok());
    assert_eq!(check_schema_pointer("x").unwrap_err().code, Some(ErrorCode::CatalogSchemaPointerInvalid));
}

fn directory_query() -> DirectoryQuery {
    DirectoryQuery {
        id: None,
        owner: None,
        phase: None,
        query: String::new(),
        regex: false,
        case_insensitive: false,
        scan: false,
        fields: vec![],
        cursor: None,
        limit: 20,
    }
}

#[test]
fn directory_filters_precede_projection_and_cursors_bind_the_snapshot() {
    let records = vec![
        DirectoryRecord { id: "run-2".into(), owner: Some("b".into()), phase: Some("closed".into()), text: "{\"id\":\"run-2\"}".into() },
        DirectoryRecord { id: "run-1".into(), owner: Some("a".into()), phase: Some("open".into()), text: "{\"id\":\"run-1\"}".into() },
        DirectoryRecord { id: "run-3".into(), owner: None, phase: Some("closed".into()), text: "{\"id\":\"run-3\"}".into() },
    ];
    let mut query = directory_query();
    let pattern = check_directory_query(&query).unwrap();
    let all = select_records(records.clone(), &query, &pattern);
    assert_eq!(all.iter().map(|r| r.id.as_str()).collect::<Vec<_>>(), vec!["run-1", "run-2", "run-3"]);
    query.phase = Some("closed".into());
    let closed = select_records(records.clone(), &query, &pattern);
    assert_eq!(closed.iter().map(|r| r.id.as_str()).collect::<Vec<_>>(), vec!["run-2", "run-3"]);
    query.owner = Some("b".into());
    assert_eq!(select_records(records, &query, &pattern).len(), 1);
    let mut bad = directory_query();
    bad.limit = 0;
    assert_eq!(check_directory_query(&bad).err().unwrap().code, Some(ErrorCode::DirectoryQueryInvalid));
    bad.limit = 5;
    bad.scan = true;
    bad.fields = vec!["/id".into()];
    assert_eq!(check_directory_query(&bad).err().unwrap().code, Some(ErrorCode::DirectoryQueryInvalid));
}

#[test]
fn large_directory_records_remain_searchable_and_scannable() {
    assert_eq!(fill_directory_page(0, 20, 3, |_, _| 100).unwrap(), (3, None));
    assert_eq!(fill_directory_page(0, 2, 3, |_, _| 100).unwrap(), (2, Some(2)));
    assert_eq!(fill_directory_page(0, 20, 10, |end, _| end * 10_000).unwrap(), (3, Some(3)));
    assert_eq!(
        fill_directory_page(4, 20, 10, |_, _| 40_000).unwrap_err().code,
        Some(ErrorCode::DirectoryValueTooLarge)
    );
}

fn selectors() -> SessionSelectors {
    SessionSelectors {
        instance_id: "cell".into(),
        query: String::new(),
        regex: false,
        case_insensitive: false,
        scan: false,
        fields: vec![],
        cursor: String::new(),
        limit: 20,
    }
}

#[test]
fn exact_lookup_and_legacy_overlap_alias_are_distinct_and_scoped() {
    assert!(check_session_list(&selectors()).is_ok());
    let mut bad = selectors();
    bad.cursor = "c".repeat(257);
    assert_eq!(check_session_list(&bad).err().unwrap().code, Some(ErrorCode::SessionQueryInvalid));
    assert_eq!(resolve_scope("cell", &vec![]).unwrap(), "cell");
    assert_eq!(resolve_scope("", &vec!["cell-b".into()]).unwrap(), "cell-b");
    assert_eq!(resolve_scope("cell", &vec!["cell".into(), "cell".into()]).unwrap(), "cell");
    assert_eq!(
        resolve_scope("cell", &vec!["other".into()]).unwrap_err().code,
        Some(ErrorCode::SessionScopeInvalid)
    );
    assert_eq!(
        resolve_scope("", &vec!["a".into(), "b".into()]).unwrap_err().code,
        Some(ErrorCode::SessionScopeInvalid)
    );
    assert_eq!(resolve_scope("", &vec![]).unwrap_err().code, Some(ErrorCode::SessionScopeRequired));
    assert!(principal_omitted(&"p".repeat(513)));
    assert!(!principal_omitted("designer"));
}

#[test]
fn full_directory_scans_have_no_lost_ids_and_cursors_reject_changes() {
    let mut state = session_page_start(String::new());
    assert_eq!(session_step(&mut state, "s1", SessionExamined::Kept, true, 2).unwrap(), false);
    assert_eq!(session_step(&mut state, "s2", SessionExamined::Miss, true, 2).unwrap(), false);
    assert_eq!(state.next_after.as_deref(), Some("s2"));
    assert_eq!(session_step(&mut state, "s3", SessionExamined::Overflow, true, 2).unwrap(), true);
    assert_eq!(state.next_after.as_deref(), Some("s2"));
    let mut empty = session_page_start(String::new());
    assert_eq!(
        session_step(&mut empty, "s1", SessionExamined::Overflow, true, 2).unwrap_err().code,
        Some(ErrorCode::SessionResponseTooLarge)
    );
}

fn status_request() -> CellComponentStatusListRequest {
    CellComponentStatusListRequest {
        instance_id: "cell".into(),
        component: None,
        ready: None,
        query: String::new(),
        regex: false,
        case_insensitive: false,
        scan: false,
        fields: vec![],
        limit: 20,
        cursor: None,
    }
}

#[test]
fn component_pages_count_wire_bytes_and_preserve_every_match() {
    let entries: Vec<ComponentStatusEntry> = (0..5)
        .rev()
        .map(|i| ComponentStatusEntry { id: format!("node-{i:03}"), ready: i % 2 == 0, text: format!("{{\"id\":\"node-{i:03}\"}}") })
        .collect();
    let mut request = status_request();
    let pattern = check_component_list(&request).unwrap();
    let all = select_components(entries.clone(), &request, &pattern);
    assert_eq!(all.iter().map(|e| e.id.as_str()).collect::<Vec<_>>(), vec!["node-000", "node-001", "node-002", "node-003", "node-004"]);
    request.ready = Some(true);
    assert_eq!(select_components(entries.clone(), &request, &pattern).len(), 3);
    request.ready = None;
    request.component = Some("node-003".into());
    assert_eq!(select_components(entries, &request, &pattern).len(), 1);
    assert_eq!(fit_status_page(0, 20, 5, "component", |_| 100).unwrap(), 5);
    assert_eq!(fit_status_page(1, 20, 5, "component", |end| end * 9000).unwrap(), 3);
    assert!(page_continues(1, 3, 5));
    assert!(!page_continues(0, 5, 5));
}

#[test]
fn oversized_status_has_a_scan_and_projection_escape() {
    let error = fit_status_page(0, 20, 5, "component", |_| 40_000).unwrap_err();
    assert_eq!(error.code, Some(ErrorCode::StatusResponseTooLarge));
    assert_eq!(
        error.message,
        "one component entry exceeds the response budget; select smaller fields using JSON pointers or use scan=true to find component IDs"
    );
    assert_eq!(
        oversized("inventory").message,
        "one inventory entry exceeds the response budget; select smaller fields using JSON pointers"
    );
    let mut request = status_request();
    request.scan = true;
    request.fields = vec!["/id".into()];
    assert_eq!(check_component_list(&request).err().unwrap().code, Some(ErrorCode::SearchFieldsInvalid));
    request.scan = false;
    request.limit = 0;
    assert_eq!(check_component_list(&request).err().unwrap().code, Some(ErrorCode::StatusListLimitInvalid));
}

#[test]
fn inventory_filters_and_projection_are_cursor_bound() {
    let entry = |kind: &str, name: &str| InventoryEntry {
        key: inventory_key("v1", kind, "fleet", name),
        kind: kind.into(),
        namespace: "fleet".into(),
        text: format!("{{\"kind\":\"{kind}\",\"name\":\"{name}\"}}"),
    };
    assert_eq!(inventory_key("v1", "Pod", "fleet", "a"), "v1\u{0}Pod\u{0}fleet\u{0}a");
    let entries = vec![entry("Service", "b"), entry("Pod", "a"), entry("Service", "a")];
    let mut request = CellInventoryListRequest {
        instance_id: "cell".into(),
        kind: Some("Service".into()),
        namespace: None,
        query: String::new(),
        regex: false,
        case_insensitive: false,
        fields: vec![],
        limit: 20,
        cursor: None,
    };
    let pattern = check_inventory_list(&request).unwrap();
    let services = select_inventory(entries.clone(), &request, &pattern);
    assert_eq!(services.iter().map(|e| e.text.as_str()).collect::<Vec<_>>(), vec![
        "{\"kind\":\"Service\",\"name\":\"a\"}",
        "{\"kind\":\"Service\",\"name\":\"b\"}",
    ]);
    request.kind = None;
    let all = select_inventory(entries, &request, &pattern);
    assert_eq!(all[0].kind, "Pod");
}

#[test]
fn validation_issue_pages_keep_at_least_one_issue() {
    assert_eq!(fit_issue_count(1000, &vec![100, 100, 100]), 3);
    assert_eq!(fit_issue_count(30_000, &vec![1000, 1000, 1000]), 2);
    assert_eq!(fit_issue_count(40_000, &vec![10, 10]), 1);
    assert_eq!(next_issue_offset(0, 2, 5), Some(2));
    assert_eq!(next_issue_offset(3, 2, 5), None);
    let long = "é".repeat(3000);
    let truncated = truncate_issue_message(&long);
    assert_eq!(truncated, format!("{} [message truncated]", "é".repeat(1024)));
    assert_eq!(truncate_issue_message("short"), "short");
}

#[test]
fn published_limitations_name_public_tools() {
    let lines = vec![
        "component_exec_live is unavailable while stopped; All native and typed operations queue".to_owned(),
        "no rewriting here".to_owned(),
    ];
    assert_eq!(
        public_limitations(&lines),
        vec!["cell_exec is unavailable while stopped; Native operations queue", "no rewriting here"]
    );
    assert_eq!(replace_all_exec("aaa", "aa", "b"), "ba");
    assert_eq!(replace_all_exec("xyxy", "y", ""), "xx");
}

#[test]
fn published_endpoints_offer_public_tools_and_rewritten_limitations() {
    let tools: Vec<String> = ["cell_exec", "component_start", "network_probe"].iter().map(|s| s.to_string()).collect();
    let endpoints = vec![
        RuntimeEndpointView {
            id: "component".into(),
            controls: vec!["component_exec_live".into(), "node_start".into(), "bogus".into()],
            limitations: vec!["component_exec_live needs a running pod".into()],
        },
        RuntimeEndpointView {
            id: "rpc".into(),
            controls: vec!["reachability_oracle".into()],
            limitations: vec![],
        },
    ];
    let published = public_endpoints(&endpoints, &tools);
    assert_eq!(published.len(), 2);
    assert_eq!(
        published[0].controls,
        vec!["cell_exec", "component_start", "cell_exec", "component_forensics", "component_start", "component_stop", "component_restart"]
    );
    assert_eq!(published[0].limitations, vec!["cell_exec needs a running pod"]);
    assert_eq!(published[1].id, "rpc");
    assert_eq!(published[1].controls, vec!["network_probe"]);
}
