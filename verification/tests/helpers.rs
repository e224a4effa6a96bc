use proofstorm_mcp::by_id::{position_by_id, sort_by_id_exec};
use proofstorm_mcp::cursor::{invalid_cursor, stale, stale_cursor, validate_directory_query};
use proofstorm_mcp::error::{
    ErrorCode, ErrorKind, coded_invalid_request, invalid_operation, resource_not_found,
};
use proofstorm_mcp::evidence::{find_index, saturating_count};
use proofstorm_mcp::json::{Json, JsonMember, array_index_exec, child_exec, get_member, select_fields, unescape_token};
use proofstorm_mcp::model::{ComponentKind, ComponentSpec};
use proofstorm_mcp::slices::{SelectedShape, fit_halving, total_of};
use proofstorm_mcp::text::{
    byte_len_of, chars_lt, chars_of, debug_string_list, first_index_exec, join_exec, last_index_exec,
    parse_i64_chars, parse_usize_chars, render_i64, render_u64, sort_strings_exec, split_all_exec,
    string_of, string_of_range, strip_prefix_exec,
};

fn chars(s: &str) -> Vec<char> {
    s.chars().collect()
}

fn strings(items: &[&str]) -> Vec<String> {
    items.iter().map(|s| s.to_string()).collect()
}

#[test]
fn decimal_parsing_and_rendering_are_exact() {
    assert_eq!(parse_usize_chars(&chars("0")), Some(0));
    assert_eq!(parse_usize_chars(&chars("4096")), Some(4096));
    assert_eq!(parse_usize_chars(&chars("")), None);
    assert_eq!(parse_usize_chars(&chars("12a")), None);
    assert_eq!(parse_usize_chars(&chars("-1")), None);
    assert_eq!(parse_usize_chars(&chars("99999999999999999999999")), None);
    assert_eq!(parse_i64_chars(&chars("-42")), Some(-42));
    assert_eq!(parse_i64_chars(&chars("+7")), Some(7));
    assert_eq!(parse_i64_chars(&chars("-9223372036854775808")), Some(i64::MIN));
    assert_eq!(parse_i64_chars(&chars("9223372036854775808")), None);
    assert_eq!(render_i64(-305), "-305");
    assert_eq!(render_i64(0), "0");
    assert_eq!(render_i64(i64::MIN), "-9223372036854775808");
    assert_eq!(render_u64(u64::MAX), "18446744073709551615");
}

#[test]
fn character_helpers_follow_std() {
    assert_eq!(byte_len_of("héllo ✓"), "héllo ✓".len());
    assert_eq!(string_of(&chars_of("a✓b")), "a✓b");
    let v = chars("a/b/c");
    assert_eq!(first_index_exec(&v, '/'), Some(1));
    assert_eq!(last_index_exec(&v, '/'), Some(3));
    assert_eq!(first_index_exec(&v, ':'), None);
    assert_eq!(string_of_range(&v, 2, 5), "b/c");
    let pieces: Vec<String> = split_all_exec(&v, '/').iter().map(|p| p.iter().collect()).collect();
    assert_eq!(pieces, vec!["a", "b", "c"]);
    let empty_pieces = split_all_exec(&chars("/x/"), '/');
    assert_eq!(empty_pieces.len(), 3);
    assert!(empty_pieces[0].is_empty() && empty_pieces[2].is_empty());
    assert_eq!(strip_prefix_exec(&chars("proofstorm://x"), "proofstorm://"), Some(chars("x")));
    assert_eq!(strip_prefix_exec(&chars("http://x"), "proofstorm://"), None);
    assert!(chars_lt(&chars("ab"), &chars("b")));
    assert!(chars_lt(&chars("ab"), &chars("abc")));
    assert!(!chars_lt(&chars("abc"), &chars("abc")));
}

#[test]
fn string_lists_join_sort_and_debug_like_std() {
    let items = strings(&["mint", "alice", "bitcoind"]);
    assert_eq!(join_exec(&items, ','), "mint,alice,bitcoind");
    assert_eq!(join_exec(&vec![], ','), "");
    assert_eq!(sort_strings_exec(&items), strings(&["alice", "bitcoind", "mint"]));
    assert_eq!(debug_string_list(&items), format!("{:?}", items));
    assert_eq!(debug_string_list(&strings(&["say \"hi\""])), "[\"say \\\"hi\\\"\"]");
    assert_eq!(debug_string_list(&vec![]), "[]");
}

fn component(id: &str) -> ComponentSpec {
    ComponentSpec {
        id: id.into(),
        kind: ComponentKind::Bitcoin,
        implementation: "bitcoin-core".into(),
        version: None,
        document: "{}".into(),
    }
}

#[test]
fn items_are_found_and_sorted_by_id() {
    let items = vec![component("m"), component("b"), component("x"), component("b")];
    assert_eq!(position_by_id(&items, "b"), Some(1));
    assert_eq!(position_by_id(&items, "z"), None);
    let sorted: Vec<String> = sort_by_id_exec(items).into_iter().map(|c| c.id).collect();
    assert_eq!(sorted, strings(&["b", "b", "m", "x"]));
    assert_eq!(find_index("x", &strings(&["a", "x", "x"])), Some(1));
    assert_eq!(find_index("q", &strings(&["a"])), None);
}

#[test]
fn json_tokens_unescape_and_index_as_rfc_6901_says() {
    assert_eq!(unescape_token(&chars("a~1b~0c")), chars("a/b~c"));
    assert_eq!(unescape_token(&chars("~01")), chars("~1"));
    assert_eq!(array_index_exec(&chars("0")), Some(0));
    assert_eq!(array_index_exec(&chars("12")), Some(12));
    assert_eq!(array_index_exec(&chars("01")), None);
    assert_eq!(array_index_exec(&chars("-")), None);
    let doc = Json::Object(vec![
        JsonMember { key: "a/b".into(), value: Json::Number("1".into()) },
        JsonMember { key: "list".into(), value: Json::Array(vec![Json::Bool(true), Json::Null]) },
    ]);
    assert!(matches!(child_exec(&doc, &chars("a/b")), Some(Json::Number(n)) if n == "1"));
    let list = get_member(&doc, "list").unwrap();
    assert!(matches!(child_exec(list, &chars("1")), Some(Json::Null)));
    assert!(child_exec(list, &chars("2")).is_none());
    assert!(get_member(&doc, "missing").is_none());
    assert!(get_member(list, "0").is_none());
}

#[test]
fn error_helpers_carry_their_codes() {
    let e = coded_invalid_request(ErrorCode::SearchQueryInvalid, "too long");
    assert_eq!(e.code, Some(ErrorCode::SearchQueryInvalid));
    assert_eq!(e.kind, ErrorKind::InvalidRequest);
    assert_eq!(e.message, "too long");
    let op = invalid_operation("bad");
    assert_eq!(op.code, Some(ErrorCode::InvalidOperation));
    assert_eq!(op.message, "bad");
    let missing = resource_not_found("gone");
    assert_eq!(missing.kind, ErrorKind::ResourceNotFound);
    assert_eq!(missing.message, "gone");
    assert_eq!(invalid_cursor().code, Some(ErrorCode::CellSearchCursorInvalid));
    assert_eq!(stale_cursor().code, Some(ErrorCode::ActivitySearchCursorInvalid));
    assert_eq!(
        stale_cursor().message,
        "The query, cell history, or cursor changed. Repeat activity_search without cursor; no recorded data was changed"
    );
    assert_eq!(stale().code, Some(ErrorCode::SessionCursorInvalid));
    assert_eq!(stale().message, "The directory or selectors changed, or the cursor is invalid. Repeat without cursor");
    assert!(validate_directory_query(1, false, 0).is_ok());
    assert!(validate_directory_query(50, true, 0).is_ok());
    assert!(validate_directory_query(0, false, 0).is_err());
    assert!(validate_directory_query(51, false, 0).is_err());
    assert!(validate_directory_query(10, true, 1).is_err());
}

#[test]
fn counts_and_slice_totals() {
    assert_eq!(saturating_count(7), 7);
    assert_eq!(saturating_count(usize::MAX), u32::MAX);
    assert_eq!(total_of(SelectedShape::Text { chars: 9 }, false), Some(9));
    assert_eq!(total_of(SelectedShape::List { items: 4 }, true), Some(4));
    assert_eq!(total_of(SelectedShape::Record { entries: 3, wire_bytes: 40 }, true), Some(3));
    assert_eq!(total_of(SelectedShape::Record { entries: 3, wire_bytes: 40 }, false), None);
    assert_eq!(total_of(SelectedShape::Scalar, true), None);
}

#[test]
fn halving_finds_the_first_length_that_fits() {
    assert_eq!(fit_halving(1000, |n| n * 100), Some(250));
    assert_eq!(fit_halving(10, |n| n), Some(10));
    assert_eq!(fit_halving(8, |_| 40000), None);
}

#[test]
fn selected_fields_resolve_each_pointer() {
    let doc = Json::Object(vec![
        JsonMember { key: "id".into(), value: Json::Str("record-1".into()) },
        JsonMember { key: "config".into(), value: Json::Object(vec![JsonMember { key: "txindex".into(), value: Json::Bool(true) }]) },
    ]);
    let fields = strings(&["/id", "/config/txindex", "/missing"]);
    let selected = select_fields(&doc, &fields);
    assert_eq!(selected.len(), 3);
    assert_eq!(selected[0].0, "/id");
    assert!(matches!(selected[0].1, Some(Json::Str(s)) if s == "record-1"));
    assert!(matches!(selected[1].1, Some(Json::Bool(true))));
    assert!(selected[2].1.is_none());
}
