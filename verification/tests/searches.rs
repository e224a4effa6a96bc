use proofstorm_mcp::cell_search::{
    EntrySection, SearchEntry, check_cell_search, finish_search, match_path, omit_value, search_page, search_pattern,
};
use proofstorm_mcp::cursor::search_start;
use proofstorm_mcp::error::ErrorCode;
use proofstorm_mcp::pattern::Pattern;
use proofstorm_mcp::requests::{CellSearchRequest, CellSearchSection, CellTarget};

fn entries() -> Vec<SearchEntry> {
    (0..25)
        .map(|i| SearchEntry {
            id: Some(format!("node-{i:02}")),
            text: format!(
                "{{\"id\":\"node-{i:02}\",\"kind\":\"bitcoin\",\"config\":{{\"txindex\":{}}}}}",
                i % 2 == 0
            ),
        })
        .collect()
}

fn ids(entries: &[SearchEntry], items: &[usize]) -> Vec<String> {
    items.iter().map(|&i| entries[i].id.clone().unwrap()).collect()
}

#[test]
fn search_projects_exact_matches_and_binds_continuation_to_query_and_document() {
    let all = entries();
    let pattern = search_pattern("\"txindex\":false", false, false).unwrap();
    let (matched, items) = search_page(&all, None, &pattern, 0, 5, |_| 100);
    assert_eq!(matched, 12);
    assert_eq!(items.len(), 5);
    assert_eq!(ids(&all, &items)[0], "node-01");
    let cursor = finish_search(0, matched, items.len(), "fp-1").unwrap().unwrap();
    let offset = search_start(Some(&cursor), "fp-1").unwrap();
    let (_, next) = search_page(&all, None, &pattern, offset, 5, |_| 100);
    assert_eq!(ids(&all, &next)[0], "node-11");
    // A changed document or query changes the fingerprint.
    assert!(search_start(Some(&cursor), "fp-2").is_err());
}

#[test]
fn regex_and_literal_patterns_match_as_documented() {
    let all = entries();
    let regex = search_pattern("node-(01|03)", true, false).unwrap();
    assert_eq!(search_page(&all, None, &regex, 0, 20, |_| 100).0, 2);
    let literal = search_pattern("node-(01|03)", false, false).unwrap();
    assert_eq!(search_page(&all, None, &literal, 0, 20, |_| 100).0, 0);
    let insensitive = search_pattern("NODE-0", false, true).unwrap();
    assert_eq!(search_page(&all, None, &insensitive, 0, 20, |_| 100).0, 10);
    let everything = search_pattern("", false, false).unwrap();
    let (matched, items) = search_page(&all, Some("node-03"), &everything, 0, 20, |_| 100);
    assert_eq!((matched, items), (1, vec![3]));
    assert_eq!(match_path(EntrySection::Components, 3), "/components/3");
    assert!(omit_value(false, 20_000));
    assert!(!omit_value(true, 20_000));
}

#[test]
fn malformed_queries_fail_with_recoverable_codes() {
    assert_eq!(
        search_pattern(&"x".repeat(4097), false, false).err().unwrap().code,
        Some(ErrorCode::SearchQueryInvalid)
    );
    assert_eq!(search_pattern("[", true, false).err().unwrap().code, Some(ErrorCode::SearchRegexInvalid));
    assert!(search_pattern("[", false, false).is_ok());
    assert!(Pattern::build("a+", false, false, 1 << 20).unwrap().is_match("a+"));
    assert!(!Pattern::build("a+", false, false, 1 << 20).unwrap().is_match("aa"));
}

#[test]
fn wire_bounded_pages_and_scans_always_advance() {
    let all = entries();
    let everything = search_pattern("", false, false).unwrap();
    let mut offset = 0;
    let mut seen = Vec::new();
    loop {
        // Each item costs 5000 bytes: six fit with the 512-byte reserve.
        let (matched, items) = search_page(&all, None, &everything, offset, 20, |page| page.len() * 5000);
        assert!(!items.is_empty());
        assert!(items.len() * 5000 + 512 <= 32768);
        seen.extend(items.iter().copied());
        match finish_search(offset, matched, items.len(), "fp").unwrap() {
            Some(cursor) => offset = search_start(Some(&cursor), "fp").unwrap(),
            None => break,
        }
    }
    assert_eq!(seen, (0..25).collect::<Vec<_>>());
    let (matched, items) = search_page(&all, None, &everything, 0, 20, |_| 40_000);
    assert!(items.is_empty());
    assert_eq!(
        finish_search(0, matched, items.len(), "fp").unwrap_err().code,
        Some(ErrorCode::CellSearchResponseTooLarge)
    );
    assert_eq!(finish_search(30, 25, 0, "fp").unwrap_err().code, Some(ErrorCode::CellSearchCursorInvalid));
}

fn search_request(query: &str, regex: bool, fields: &[&str], scan: bool) -> CellSearchRequest {
    CellSearchRequest {
        target: CellTarget { name: Some("fleet".into()), plan_id: None },
        query: query.into(),
        regex,
        case_insensitive: false,
        section: CellSearchSection::All,
        fields: fields.iter().map(|f| f.to_string()).collect(),
        scan,
        id: None,
        limit: 10,
        cursor: None,
    }
}

fn refused(request: &CellSearchRequest) -> Option<ErrorCode> {
    match check_cell_search(request) {
        Ok(_) => panic!("the search was admitted"),
        Err(e) => e.code,
    }
}

#[test]
fn cell_search_checks_selectors_before_compiling_the_query() {
    let literal = check_cell_search(&search_request("a.b", false, &["/config"], false)).unwrap();
    assert!(literal.is_match("x a.b y"));
    assert!(!literal.is_match("x aXb y"));
    let regex = check_cell_search(&search_request("a.b", true, &[], true)).unwrap();
    assert!(regex.is_match("aXb"));
    assert_eq!(refused(&search_request("x", false, &["/config"], true)), Some(ErrorCode::SearchFieldsInvalid));
    assert_eq!(refused(&search_request("(", true, &["config"], false)), Some(ErrorCode::SearchFieldsInvalid));
    assert_eq!(refused(&search_request("(", true, &[], false)), Some(ErrorCode::SearchRegexInvalid));
    let long = "q".repeat(4097);
    assert_eq!(refused(&search_request(&long, false, &[], false)), Some(ErrorCode::SearchQueryInvalid));
}
