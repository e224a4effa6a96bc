use proofstorm_mcp::activity_search::{Examined, check_activity_snapshot, scan_batch, scan_start};
use proofstorm_mcp::cell_search::search_binding;
use proofstorm_mcp::error::ErrorCode;
use proofstorm_mcp::json::Json;
use proofstorm_mcp::requests::{CellSearchRequest, CellSearchSection, CellTarget};
use proofstorm_mcp::session_directory::{check_session_snapshot, session_page};
use proofstorm_mcp::tools::{ToolEntry, exposed_tools, is_exposed};

fn ids(n: usize) -> Vec<String> {
    (0..n).map(|i| format!("s-{i:03}")).collect()
}

#[test]
fn session_pages_stop_at_the_limit_and_resume_after_the_last_examined() {
    let candidates = ids(10);
    let (page, kept) = session_page(String::new(), &candidates, |j| j % 2 == 0, |_| 100, 3).unwrap();
    assert_eq!(kept, vec![0, 2, 4]);
    assert_eq!(page.scanned, 5);
    assert_eq!(page.sessions, 3);
    assert_eq!(page.boundary, "s-004");
    assert_eq!(page.next_after.as_deref(), Some("s-004"));
    let (all, kept) = session_page("s-000".into(), &candidates, |_| false, |_| 100, 3).unwrap();
    assert!(kept.is_empty());
    assert_eq!(all.scanned, 10);
    assert_eq!(all.next_after, None);
}

#[test]
fn session_pages_leave_an_overflowing_match_for_the_next_page() {
    let candidates = ids(6);
    let (page, kept) =
        session_page(String::new(), &candidates, |_| true, |kept| kept.len() * 20_000, 50).unwrap();
    assert_eq!(kept, vec![0]);
    assert_eq!(page.scanned, 1);
    assert_eq!(page.next_after.as_deref(), Some("s-000"));
    let error = session_page(String::new(), &candidates, |_| true, |_| 40_000, 50).unwrap_err();
    assert_eq!(error.code, Some(ErrorCode::SessionResponseTooLarge));
}

#[test]
fn activity_batches_carry_their_cursor_and_stop_at_the_limit() {
    let mut state = scan_start(String::new());
    let (stop, hits) = scan_batch(&mut state, "fp", &ids(4), true, |j| j != 1, |_| 100, 10);
    assert!(!stop);
    assert_eq!(hits, vec![0, 2, 3]);
    assert_eq!(state.scanned, 4);
    assert_eq!(state.next_cursor.as_deref(), Some("fp:s-003"));
    let (stop, hits) = scan_batch(&mut state, "fp", &ids(10), false, |_| true, |_| 100, 5);
    assert!(stop);
    assert_eq!(hits, vec![0, 1]);
    assert_eq!(state.items, 5);
    assert_eq!(state.next_cursor.as_deref(), Some("fp:s-001"));
    let mut full = scan_start("s-000".into());
    let (stop, hits) = scan_batch(&mut full, "fp", &ids(3), false, |_| true, |kept| kept.len() * 20_000, 10);
    assert!(stop);
    assert_eq!(hits, vec![0]);
    assert_eq!(full.next_cursor.as_deref(), Some("fp:s-000"));
    assert!(matches!(Examined::Kept, Examined::Kept));
}

#[test]
fn snapshots_must_not_change_while_a_page_is_built() {
    assert!(check_session_snapshot("d1", "d1").is_ok());
    assert_eq!(check_session_snapshot("d1", "d2").unwrap_err().code, Some(ErrorCode::SessionCursorInvalid));
    assert!(check_activity_snapshot("d1", "d1").is_ok());
    assert_eq!(check_activity_snapshot("d1", "d2").unwrap_err().code, Some(ErrorCode::ActivitySearchCursorInvalid));
}

fn tool(name: &str, capabilities: &[&str], requires_runtime: bool) -> ToolEntry {
    ToolEntry {
        name: name.into(),
        capabilities: capabilities.iter().map(|c| c.to_string()).collect(),
        requires_runtime,
    }
}

#[test]
fn tools_need_every_capability_and_offline_withholds_runtime_tools() {
    let table = vec![
        tool("cell_read", &["cell_read"], false),
        tool("cell_up", &["cell_write", "runtime_control"], true),
        tool("evidence_export", &["experiment_read", "artifact_read"], false),
        tool("catalog_list", &[], false),
    ];
    let granted: Vec<String> = vec!["cell_read".into(), "cell_write".into(), "runtime_control".into()];
    assert_eq!(exposed_tools(&table, &granted, false), vec!["cell_read", "cell_up", "catalog_list"]);
    assert_eq!(exposed_tools(&table, &granted, true), vec!["cell_read", "catalog_list"]);
    assert_eq!(exposed_tools(&table, &vec![], false), vec!["catalog_list"]);
}

#[test]
fn search_cursors_bind_the_document_and_every_selector() {
    let request = CellSearchRequest {
        target: CellTarget { name: Some("fleet".into()), plan_id: None },
        query: "txindex".into(),
        regex: false,
        case_insensitive: true,
        section: CellSearchSection::Links,
        fields: vec!["/id".into()],
        scan: false,
        id: Some("node-1".into()),
        limit: 20,
        cursor: Some("ignored".into()),
    };
    let Json::Array(items) = search_binding("cell-1", 7, "sha256:c", &request) else { panic!("an array") };
    assert_eq!(items.len(), 10);
    assert!(matches!(&items[0], Json::Str(s) if s == "cell-1"));
    assert!(matches!(&items[1], Json::Number(n) if n == "7"));
    assert!(matches!(&items[5], Json::Bool(true)));
    assert!(matches!(&items[6], Json::Str(s) if s == "links"));
    assert!(matches!(&items[7], Json::Array(fs) if fs.len() == 1));
    assert!(matches!(&items[9], Json::Str(s) if s == "node-1"));
}

#[test]
fn every_tool_requires_its_entire_registry_grant_set() {
    let table = vec![
        tool("proofstorm_cell_read", &["cell_read"], false),
        tool("proofstorm_cell_up", &["cell_create", "cell_update", "runtime_control"], true),
        tool("proofstorm_evidence_export", &["experiment_read", "artifact_read"], false),
        tool("proofstorm_component_exec", &["component_exec_live", "cell_read"], true),
    ];
    let everything: Vec<String> = table.iter().flat_map(|t| t.capabilities.clone()).collect();
    for entry in &table {
        assert!(is_exposed(entry, &everything, false), "{} is hidden with every grant", entry.name);
        for missing in &entry.capabilities {
            let granted: Vec<String> = everything.iter().filter(|c| *c != missing).cloned().collect();
            assert!(!is_exposed(entry, &granted, false), "{} is exposed without {missing}", entry.name);
            assert!(!exposed_tools(&table, &granted, false).contains(&entry.name));
        }
    }
}
