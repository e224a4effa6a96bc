use proofstorm_mcp::json::{Json, JsonMember};
use proofstorm_mcp::tool_schema::{disjoint_tags, rewrites_one_of};

fn object(members: Vec<(&str, Json)>) -> Json {
    Json::Object(members.into_iter().map(|(key, value)| JsonMember { key: key.into(), value }).collect())
}

fn text(s: &str) -> Json {
    Json::Str(s.into())
}

fn strings(items: &[&str]) -> Json {
    Json::Array(items.iter().map(|s| text(s)).collect())
}

struct Variant<'a> {
    kind_type: &'a str,
    required: Vec<&'a str>,
    kind: Option<&'a str>,
    other: &'a str,
}

fn branch(v: &Variant) -> Json {
    let mut kind = vec![("type", text("string"))];
    if let Some(value) = v.kind {
        kind.insert(0, ("const", text(value)));
    }
    object(vec![
        ("type", text(v.kind_type)),
        ("required", strings(&v.required)),
        ("additionalProperties", Json::Bool(false)),
        ("properties", object(vec![("kind", object(kind)), (v.other, object(vec![("type", text("string"))]))])),
    ])
}

fn pr() -> Variant<'static> {
    Variant { kind_type: "object", required: vec!["kind", "url"], kind: Some("pr"), other: "url" }
}

fn tag() -> Variant<'static> {
    Variant { kind_type: "object", required: vec!["kind", "tag"], kind: Some("tag"), other: "tag" }
}

fn variants(second: Variant) -> Vec<Json> {
    vec![branch(&pr()), branch(&second)]
}

#[test]
fn disjoint_tagged_variants_may_become_any_of() {
    assert!(disjoint_tags(&variants(tag())));
    let schema = object(vec![("oneOf", Json::Array(variants(tag())))]);
    assert!(rewrites_one_of(&schema));
}

#[test]
fn overlapping_optional_or_non_object_tags_are_not_disjoint() {
    let same_value = Variant { kind: Some("pr"), ..tag() };
    let optional = Variant { required: vec!["tag"], ..tag() };
    let not_object = Variant { kind_type: "string", ..tag() };
    let untagged = Variant { kind: None, ..tag() };
    for second in [same_value, optional, not_object, untagged] {
        assert!(!disjoint_tags(&variants(second)));
    }
    assert!(!disjoint_tags(&Vec::new()));
}

#[test]
fn sibling_unions_and_non_array_one_of_are_kept() {
    let with_sibling = object(vec![
        ("oneOf", Json::Array(variants(tag()))),
        ("anyOf", Json::Array(vec![object(vec![("required", strings(&["url"]))])])),
    ]);
    assert!(!rewrites_one_of(&with_sibling));
    let literal = object(vec![("oneOf", object(vec![("type", text("string"))]))]);
    assert!(!rewrites_one_of(&literal));
    assert!(!rewrites_one_of(&Json::Null));
}
