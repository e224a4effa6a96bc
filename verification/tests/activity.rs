use proofstorm_mcp::activity_search::{
    ActivitySearchRequest, Examined, HitShape, OperationRecord, TextMatch, activity_pattern,
    field_omitted, matches_filters, scan_start, scan_step, shrink_hit, text_matches,
};
use proofstorm_mcp::error::ErrorCode;
use proofstorm_mcp::json::{Json, JsonMember, lookup};
use proofstorm_mcp::model::OperationPhase;

fn request(query: &str) -> ActivitySearchRequest {
    ActivitySearchRequest {
        name: "cell".into(),
        query: query.into(),
        regex: false,
        case_insensitive: false,
        component: None,
        phase: None,
        native_exit_code: None,
        kind: None,
        principal_id: None,
        run_id: None,
        session_id: None,
        accepted_after_unix: None,
        accepted_before_unix: None,
        fields: vec![],
        limit: 20,
        cursor: None,
    }
}

fn operation() -> OperationRecord {
    OperationRecord {
        id: "op-1".into(),
        phase: OperationPhase::Succeeded,
        kind: "component_exec_live".into(),
        principal_id: "designer".into(),
        experiment_id: "run-1".into(),
        session_id: "session-1".into(),
        accepted_at_unix: 100,
        components: vec!["wallet-a".into()],
        native_exit_code: Some(1),
    }
}

#[test]
fn malformed_searches_fail_with_recoverable_errors() {
    let mut long = request(&"x".repeat(4097));
    assert_eq!(activity_pattern(&long).err().unwrap().code, Some(ErrorCode::ActivitySearchLimits));
    long.query = String::new();
    long.limit = 51;
    assert_eq!(activity_pattern(&long).err().unwrap().code, Some(ErrorCode::ActivitySearchLimits));
    let mut range = request("");
    range.accepted_after_unix = Some(5);
    range.accepted_before_unix = Some(5);
    assert_eq!(activity_pattern(&range).err().unwrap().code, Some(ErrorCode::ActivitySearchTimeRange));
    let mut fields = request("");
    fields.fields = vec!["/bad~".into()];
    assert_eq!(activity_pattern(&fields).err().unwrap().code, Some(ErrorCode::InvalidJsonPointer));
    let mut regex = request("[");
    regex.regex = true;
    assert_eq!(activity_pattern(&regex).err().unwrap().code, Some(ErrorCode::ActivitySearchRegexInvalid));
    assert!(activity_pattern(&request("[")).is_ok());
}

#[test]
fn native_exit_filter_does_not_confuse_execution_phase_with_command_success() {
    let op = operation();
    let mut failed_exit = request("");
    failed_exit.native_exit_code = Some(1);
    failed_exit.phase = Some(OperationPhase::Succeeded);
    assert!(matches_filters(&failed_exit, &op));
    failed_exit.native_exit_code = Some(0);
    assert!(!matches_filters(&failed_exit, &op));
    let mut missing = operation();
    missing.native_exit_code = None;
    failed_exit.native_exit_code = Some(1);
    assert!(!matches_filters(&failed_exit, &missing));
}

#[test]
fn filters_match_components_actors_runs_sessions_and_time() {
    let op = operation();
    let mut r = request("");
    assert!(matches_filters(&r, &op));
    r.component = Some("wallet-a".into());
    r.kind = Some("component_exec_live".into());
    r.principal_id = Some("designer".into());
    r.run_id = Some("run-1".into());
    r.session_id = Some("session-1".into());
    r.accepted_after_unix = Some(100);
    r.accepted_before_unix = Some(101);
    assert!(matches_filters(&r, &op));
    r.accepted_before_unix = Some(100);
    assert!(!matches_filters(&r, &op));
    r.accepted_before_unix = None;
    r.component = Some("wallet-b".into());
    assert!(!matches_filters(&r, &op));
}

fn member(key: &str, value: Json) -> JsonMember {
    JsonMember { key: key.into(), value }
}

fn matches_in(document: &Json, query: &str) -> Vec<TextMatch> {
    let pattern = activity_pattern(&request(query)).unwrap();
    let mut found = Vec::new();
    text_matches(document, &String::new(), &pattern, &mut found);
    found
}

#[test]
fn text_matches_excerpt_around_the_first_hit_and_stop_after_five() {
    let text = format!("{}needle{}", "é".repeat(100), "z".repeat(300));
    let document = Json::Object(vec![
        member("a", Json::Str("no match".into())),
        member("b", Json::Str(text.clone())),
        member("c", Json::Array(vec![Json::Str("x".into()), Json::Str("needle".into())])),
    ]);
    let found = matches_in(&document, "needle");
    assert_eq!(found.len(), 2);
    assert_eq!(found[0].pointer, "/b");
    assert_eq!(found[0].offset, Some(40));
    let expected: String = text.chars().skip(40).take(180).collect();
    assert_eq!(found[0].excerpt, expected);
    assert_eq!(found[1].pointer, "/c/1");
    assert_eq!(found[1].offset, Some(0));
    assert_eq!(found[1].excerpt, "needle");
    let many = Json::Array((0..9).map(|_| Json::Str("needle".into())).collect());
    let found = matches_in(&many, "needle");
    assert_eq!(found.len(), 5);
    assert_eq!(found[4].pointer, "/4");
}

#[test]
fn text_matches_read_scalars_as_json_and_escape_keys() {
    let document = Json::Object(vec![
        member("flag", Json::Bool(true)),
        member("n", Json::Number("1700".into())),
        member("nothing", Json::Null),
        member("a/b~c", Json::Str("true story".into())),
    ]);
    let found = matches_in(&document, "true");
    assert_eq!(found.len(), 2);
    assert_eq!(found[0].pointer, "/flag");
    assert_eq!(found[0].excerpt, "true");
    assert_eq!(found[0].offset, None);
    assert_eq!(found[1].pointer, "/a~1b~0c");
    assert_eq!(found[1].offset, Some(0));
    let found = matches_in(&document, "170");
    assert_eq!(found.len(), 1);
    assert_eq!(found[0].excerpt, "1700");
    assert_eq!(matches_in(&document, "null")[0].pointer, "/nothing");
    assert!(matches_in(&Json::Array(Vec::new()), "x").is_empty());
}

#[test]
fn text_matches_add_nothing_once_five_are_held() {
    let pattern = activity_pattern(&request("needle")).unwrap();
    let many = Json::Array((0..9).map(|_| Json::Str("needle".into())).collect());
    let mut found = Vec::new();
    text_matches(&many, &String::new(), &pattern, &mut found);
    text_matches(&Json::Str("needle".into()), &"/x".to_string(), &pattern, &mut found);
    assert_eq!(found.len(), 5);
    assert!(found.iter().all(|m| m.pointer != "/x"));
}

#[test]
fn oversized_hits_drop_fields_then_matches() {
    let shape = HitShape { field_values: vec![true, true], matches: 3, matches_truncated: false };
    let kept = shrink_hit(shape.clone(), |h| {
        1000 + 6000 * h.field_values.iter().filter(|v| **v).count() + 3000 * h.matches
    })
    .unwrap();
    assert_eq!(kept.field_values, vec![true, false]);
    assert_eq!(kept.matches, 3);
    let smaller = shrink_hit(shape.clone(), |h| 14000 + 1000 * h.matches).unwrap();
    assert_eq!(smaller.field_values, vec![false, false]);
    assert_eq!(smaller.matches, 2);
    assert!(smaller.matches_truncated);
    assert_eq!(
        shrink_hit(shape, |_| 20_000).unwrap_err().code,
        Some(ErrorCode::ActivitySearchItemTooLarge)
    );
    assert!(field_omitted(2049));
    assert!(!field_omitted(2048));
}

#[test]
fn sparse_search_advances_after_an_empty_bounded_scan() {
    let mut state = scan_start(String::new());
    let mut stop = false;
    for i in 0..200 {
        stop = scan_step(&mut state, "fp", &format!("op-{i:03}"), Examined::Miss, true, 20);
        if stop {
            break;
        }
    }
    assert!(stop);
    assert_eq!(state.items, 0);
    assert_eq!(state.scanned, 200);
    assert_eq!(state.next_cursor.as_deref(), Some("fp:op-199"));
    let mut state = scan_start("op-000".into());
    assert!(!scan_step(&mut state, "fp", "op-001", Examined::Kept, true, 2));
    assert!(scan_step(&mut state, "fp", "op-002", Examined::Overflow, true, 2));
    assert_eq!(state.next_cursor.as_deref(), Some("fp:op-001"));
    assert_eq!(state.items, 1);
    let mut last = scan_start(String::new());
    assert!(!scan_step(&mut last, "fp", "op-9", Examined::Kept, false, 5));
    assert_eq!(last.next_cursor, None);
}

#[test]
fn match_pointers_select_the_matched_values() {
    let document = Json::Object(vec![
        member("artifact", Json::Object(vec![
            member("a/b~c", Json::Array(vec![Json::Str("x".into()), Json::Str("needle here".into())])),
            member("code", Json::Number("404".into())),
        ])),
    ]);
    let found = matches_in(&document, "needle");
    assert_eq!(found[0].pointer, "/artifact/a~1b~0c/1");
    assert!(matches!(lookup(&document, &found[0].pointer), Some(Json::Str(s)) if s == "needle here"));
    let found = matches_in(&document, "404");
    assert!(matches!(lookup(&document, &found[0].pointer), Some(Json::Number(n)) if n == "404"));
}
