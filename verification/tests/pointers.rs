use proofstorm_mcp::error::ErrorCode;
use proofstorm_mcp::pointer::{
    available_pointers, escape_pointer_key, evidence_pointer, evidence_pointer_check,
    evidence_pointer_not_found, pointer_parent, validate_pointer,
};
use proofstorm_mcp::json::{Json, JsonMember};
use proofstorm_mcp::cell_search::validate_fields;

#[test]
fn transport_errors_preserve_codes_and_longer_individual_pointer_limits() {
    let long = format!("/{}", "x".repeat(512));
    assert!(validate_fields(&vec![long.clone()]).is_err());
    assert_eq!(validate_fields(&vec!["/bad~".into()]).unwrap_err().code, Some(ErrorCode::SearchFieldsInvalid));
    assert!(validate_pointer(&long).is_ok());
    assert!(validate_pointer(&format!("/{}", "x".repeat(4095))).is_ok());
    for pointer in ["/bad~".to_owned(), format!("/{}", "x".repeat(4096))] {
        assert_eq!(validate_pointer(&pointer).unwrap_err().code, Some(ErrorCode::InvalidJsonPointer));
    }
}

#[test]
fn pointer_syntax_checks_root_and_escapes() {
    assert!(validate_pointer("").is_ok());
    assert!(validate_pointer("/a~0b~1c").is_ok());
    assert_eq!(
        validate_pointer("a").unwrap_err().message,
        "Use an RFC 6901 pointer of at most 4096 bytes, such as /artifact/content/stdout"
    );
    assert_eq!(validate_pointer("/a~2").unwrap_err().message, "Escape ~ as ~0 and / inside a key as ~1");
    assert!(validate_pointer("/a~").is_err());
}

#[test]
fn keys_escape_tilde_before_slash() {
    assert_eq!(escape_pointer_key("a/b~c"), "a~1b~0c");
    assert_eq!(escape_pointer_key("~1"), "~01");
    assert_eq!(escape_pointer_key("plain"), "plain");
}

#[test]
fn ancestors_walk_up_to_the_whole_section() {
    assert_eq!(pointer_parent("/artifact/exit_code"), "/artifact");
    assert_eq!(pointer_parent("/artifact"), "");
}

fn object(members: Vec<(&str, Json)>) -> Json {
    Json::Object(members.into_iter().map(|(key, value)| JsonMember { key: key.into(), value }).collect())
}

#[test]
fn tests_evidence_pointer_error_is_self_correcting_without_structured_error_data() {
    let lock = object(vec![("cell", object(vec![])), ("components", Json::Array(vec![]))]);
    let error = evidence_pointer(&lock, "/missing", "lock").expect_err("unknown pointer must fail");
    assert_eq!(error.code, Some(ErrorCode::EvidencePointerNotFound));
    let message = error.message;
    assert!(message.contains("[evidence_pointer_not_found]"));
    assert!(message.contains("no changes were made"));
    assert!(message.contains("Recovery:"));
    assert!(message.contains("/components"));
    assert!(message.contains("/cell"));
    let artifact = object(vec![(
        "artifact",
        object(vec![
            ("content", object(vec![("exit_code", Json::Number("0".into()))])),
            ("digest", Json::Str("abc".into())),
        ]),
    )]);
    let error = evidence_pointer(&artifact, "/artifact/exit_code", "artifact").unwrap_err();
    assert!(error.message.contains("/artifact/content"));
    assert!(error.message.contains("/artifact/digest"));
}

#[test]
fn lib_evidence_pointer_error_is_self_correcting_without_structured_error_data() {
    let lock = object(vec![("cell", object(vec![])), ("components", Json::Array(vec![]))]);
    let error = evidence_pointer(&lock, "/missing", "lock").expect_err("unknown pointer must fail");
    assert_eq!(error.code, Some(ErrorCode::EvidencePointerNotFound));
    let message = error.message;
    assert!(message.contains("[evidence_pointer_not_found]"));
    assert!(message.contains("no changes were made"));
    assert!(message.contains("Recovery:"));
    assert!(message.contains("/components"));
    assert!(message.contains("/cell"));
    let artifact = object(vec![(
        "artifact",
        object(vec![
            ("content", object(vec![("exit_code", Json::Number("0".into()))])),
            ("digest", Json::Str("abc".into())),
        ]),
    )]);
    let error = evidence_pointer(&artifact, "/artifact/exit_code", "artifact").unwrap_err();
    assert!(error.message.contains("/artifact/content"));
    assert!(error.message.contains("/artifact/digest"));
}

#[test]
fn evidence_pointers_select_values_and_refuse_relative_pointers() {
    let artifact = object(vec![(
        "artifact",
        object(vec![("content", object(vec![("exit_code", Json::Number("0".into()))]))]),
    )]);
    assert!(matches!(
        evidence_pointer(&artifact, "/artifact/content/exit_code", "artifact"),
        Ok(Json::Number(n)) if n == "0"
    ));
    assert!(matches!(evidence_pointer(&artifact, "", "artifact"), Ok(Json::Object(_))));
    let error = evidence_pointer(&artifact, "artifact", "artifact").unwrap_err();
    assert_eq!(error.code, Some(ErrorCode::EvidencePointerInvalid));
    let error = evidence_pointer(&artifact, "/artifact/content/exit_code/deeper", "artifact").unwrap_err();
    assert_eq!(
        error.message,
        "[evidence_pointer_not_found] JSON Pointer \"/artifact/content/exit_code/deeper\" does not exist in the artifact section; no changes were made. Recovery: choose one of the available pointers beneath \"/artifact/content/exit_code\" (the empty pointer for the whole section), or use an empty pointer to read the whole section"
    );
    let walk_up = evidence_pointer(&artifact, "/artifact/gone/away", "artifact").unwrap_err();
    assert!(walk_up.message.contains("beneath \"/artifact\" (/artifact/content)"));
}

#[test]
fn missing_pointer_messages_list_escaped_keys_or_the_whole_section() {
    assert_eq!(available_pointers("/x", &vec!["a/b".into(), "c".into()]), "/x/a~1b, /x/c");
    let many: Vec<String> = (0..20).map(|i| format!("k{i:02}")).collect();
    assert_eq!(available_pointers("", &many).matches(", ").count(), 15);
    let error = evidence_pointer_not_found("/q", "revision", "", None);
    assert_eq!(
        error.message,
        "[evidence_pointer_not_found] JSON Pointer \"/q\" does not exist in the revision section; no changes were made. Recovery: choose one of the available pointers beneath \"\" (the empty pointer for the whole section), or use an empty pointer to read the whole section"
    );
    assert_eq!(evidence_pointer_check("").unwrap(), true);
    assert_eq!(evidence_pointer_check("/a").unwrap(), false);
    assert_eq!(evidence_pointer_check("a").unwrap_err().code, Some(ErrorCode::EvidencePointerInvalid));
}
