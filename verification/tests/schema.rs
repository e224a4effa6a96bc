use proofstorm_mcp::error::{ErrorCode, ErrorKind};
use proofstorm_mcp::json::{Json, JsonMember};
use proofstorm_mcp::requests::CatalogConfigSchemaRequest;
use proofstorm_mcp::schema::{
    CatalogSchemaEntry, authorable_config_fields, catalog_config_schema, config_defaults,
    config_schema_fragment, required_config_fields, schema_references,
};

fn object(members: Vec<(&str, Json)>) -> Json {
    Json::Object(members.into_iter().map(|(key, value)| JsonMember { key: key.into(), value }).collect())
}

fn text(s: &str) -> Json {
    Json::Str(s.into())
}

fn reference(target: &str) -> Json {
    object(vec![("$ref", text(target))])
}

fn config_schema() -> Json {
    object(vec![
        ("type", text("object")),
        (
            "properties",
            object(vec![
                ("mint_url", object(vec![("type", text("string"))])),
                ("fee_percent", object(vec![("type", text("number")), ("default", Json::Number("1.5".into()))])),
                ("auth", reference("#/$defs/Auth")),
            ]),
        ),
        ("required", Json::Array(vec![text("mint_url"), Json::Number("3".into()), text("auth")])),
        (
            "$defs",
            object(vec![
                ("Auth", object(vec![("properties", object(vec![("limit", reference("#/$defs/Limit"))]))])),
                ("Limit", object(vec![("type", text("integer")), ("minimum", Json::Number("0".into()))])),
            ]),
        ),
    ])
}

fn keys(refs: &[(String, &Json)]) -> Vec<String> {
    refs.iter().map(|(key, _)| key.clone()).collect()
}

#[test]
fn configuration_fields_are_sorted_and_required_strings_only() {
    let schema = config_schema();
    assert_eq!(authorable_config_fields(&schema), vec!["auth", "fee_percent", "mint_url"]);
    assert_eq!(required_config_fields(&schema), vec!["auth", "mint_url"]);
    assert!(authorable_config_fields(&Json::Null).is_empty());
    assert!(required_config_fields(&object(vec![("required", text("x"))])).is_empty());
}

#[test]
fn configuration_defaults_are_listed_by_property() {
    let schema = config_schema();
    let defaults = config_defaults(&schema);
    assert_eq!(defaults.len(), 1);
    assert_eq!(defaults[0].0, "fee_percent");
    assert!(matches!(defaults[0].1, Json::Number(n) if n == "1.5"));
}

#[test]
fn schema_fragments_resolve_pointers_or_name_what_is_missing() {
    let schema = config_schema();
    assert!(matches!(config_schema_fragment(&schema, "/properties/mint_url/type", "nutshell", "0.20.3"), Ok(Json::Str(s)) if s == "string"));
    assert!(matches!(config_schema_fragment(&schema, "", "nutshell", "0.20.3"), Ok(Json::Object(_))));
    let error = config_schema_fragment(&schema, "/properties/nope", "nutshell", "0.20.3").unwrap_err();
    assert_eq!(error.kind, ErrorKind::ResourceNotFound);
    assert_eq!(error.code, Some(ErrorCode::CatalogSchemaPointerNotFound));
    assert_eq!(
        error.message,
        "configuration schema pointer \"/properties/nope\" was not found for \"nutshell\" version \"0.20.3\""
    );
}

#[test]
fn fragments_carry_the_references_they_need_transitively() {
    let schema = config_schema();
    let Json::Object(members) = &schema else { unreachable!() };
    let properties = &members[1].value;
    let refs = schema_references(properties, &schema).unwrap();
    assert_eq!(keys(&refs), vec!["#/$defs/Auth", "#/$defs/Limit"]);
    assert!(matches!(refs[1].1, Json::Object(m) if m.len() == 2));
    let whole = schema_references(&schema, &schema).unwrap();
    assert_eq!(keys(&whole), vec!["#/$defs/Auth", "#/$defs/Limit"]);
    let plain = object(vec![("type", text("string"))]);
    assert!(schema_references(&plain, &schema).unwrap().is_empty());
}

#[test]
fn reference_cycles_and_root_references_terminate() {
    let schema = object(vec![(
        "$defs",
        object(vec![
            ("A", object(vec![("items", reference("#/$defs/B"))])),
            ("B", object(vec![("anyOf", Json::Array(vec![reference("#/$defs/A"), reference("#")]))])),
        ]),
    )]);
    let start = reference("#/$defs/A");
    let refs = schema_references(&start, &schema).unwrap();
    assert_eq!(keys(&refs), vec!["#/$defs/A", "#/$defs/B", "#"]);
    assert!(matches!(refs[2].1, Json::Object(m) if m.len() == 1));
    let remote = reference("https://example.com/schema");
    assert!(schema_references(&remote, &schema).unwrap().is_empty());
}

#[test]
fn unresolved_references_refuse_the_read() {
    let schema = object(vec![("a", reference("#/missing"))]);
    let error = schema_references(&schema, &schema).unwrap_err();
    assert_eq!(error.code, Some(ErrorCode::CatalogSchemaReferenceInvalid));
    assert_eq!(error.message, "configuration schema contains unresolved reference \"#/missing\"");
    let relative = object(vec![("a", reference("#missing"))]);
    assert!(schema_references(&relative, &relative).is_err());
}

fn entries() -> Vec<CatalogSchemaEntry> {
    vec![
        CatalogSchemaEntry {
            id: "nutshell".into(),
            version: "0.20.3".into(),
            config_version: "v1".into(),
            config_schema_digest: "sha256:a".into(),
            config_schema: config_schema(),
        },
        CatalogSchemaEntry {
            id: "lnd".into(),
            version: "0.20.4-beta".into(),
            config_version: "v1".into(),
            config_schema_digest: "sha256:b".into(),
            config_schema: Json::Null,
        },
    ]
}

fn request(id: &str, version: &str, pointer: &str) -> CatalogConfigSchemaRequest {
    CatalogConfigSchemaRequest { id: id.into(), version: version.into(), pointer: pointer.into() }
}

#[test]
fn catalog_schema_reads_are_exact_and_fragments_are_self_contained() {
    let entries = entries();
    let read = catalog_config_schema(&request("nutshell", "0.20.3", "/properties/auth"), &entries).unwrap();
    assert_eq!(read.entry, 0);
    assert!(read.fragment);
    assert_eq!(keys(&read.referenced_schemas), vec!["#/$defs/Auth", "#/$defs/Limit"]);
    let whole = catalog_config_schema(&request("nutshell", "0.20.3", ""), &entries).unwrap();
    assert!(!whole.fragment);
    let error = catalog_config_schema(&request("nutshell", "0.20.3", "properties"), &entries).unwrap_err();
    assert_eq!(error.code, Some(ErrorCode::CatalogSchemaPointerInvalid));
    let error = catalog_config_schema(&request("lnd", "0.21.3-beta", ""), &entries).unwrap_err();
    assert_eq!(error.code, Some(ErrorCode::CatalogEntryNotFound));
    assert!(error.message.ends_with("available exact versions: 0.20.4-beta"));
    let error = catalog_config_schema(&request("lnd", "0.20.4-beta", "/x"), &entries).unwrap_err();
    assert_eq!(error.code, Some(ErrorCode::CatalogSchemaPointerNotFound));
}
