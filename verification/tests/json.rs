use proofstorm_mcp::json::{Json, JsonMember, lookup};

fn object(members: Vec<(&str, Json)>) -> Json {
    Json::Object(members.into_iter().map(|(key, value)| JsonMember { key: key.into(), value }).collect())
}

fn text(s: &str) -> Json {
    Json::Str(s.into())
}

fn document() -> Json {
    object(vec![
        ("a", Json::Array(vec![text("zero"), text("one"), Json::Null])),
        ("a/b", text("slash")),
        ("m~n", text("tilde")),
        ("", text("empty key")),
        ("n", Json::Number("7".into())),
    ])
}

fn selected(pointer: &str) -> Option<String> {
    let doc = document();
    lookup(&doc, pointer).map(|v| match v {
        Json::Str(s) => s.clone(),
        Json::Number(n) => n.clone(),
        Json::Null => "null".into(),
        Json::Bool(b) => b.to_string(),
        Json::Array(items) => format!("array of {}", items.len()),
        Json::Object(members) => format!("object of {}", members.len()),
    })
}

#[test]
fn pointers_select_members_and_items() {
    assert_eq!(selected("").as_deref(), Some("object of 5"));
    assert_eq!(selected("/a").as_deref(), Some("array of 3"));
    assert_eq!(selected("/a/1").as_deref(), Some("one"));
    assert_eq!(selected("/a/2").as_deref(), Some("null"));
    assert_eq!(selected("/n").as_deref(), Some("7"));
}

#[test]
fn pointer_tokens_are_unescaped() {
    assert_eq!(selected("/a~1b").as_deref(), Some("slash"));
    assert_eq!(selected("/m~0n").as_deref(), Some("tilde"));
    assert_eq!(selected("/").as_deref(), Some("empty key"));
}

#[test]
fn array_indexes_are_plain_decimal_within_bounds() {
    assert_eq!(selected("/a/01"), None);
    assert_eq!(selected("/a/+1"), None);
    assert_eq!(selected("/a/-1"), None);
    assert_eq!(selected("/a/3"), None);
    assert_eq!(selected("/a/"), None);
    assert_eq!(selected("/a/0").as_deref(), Some("zero"));
}

#[test]
fn relative_and_dangling_pointers_select_nothing() {
    assert_eq!(selected("a"), None);
    assert_eq!(selected("/missing"), None);
    assert_eq!(selected("/n/0"), None);
    assert_eq!(selected("/a/1/x"), None);
}
