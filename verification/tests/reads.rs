use proofstorm_mcp::cell_read::{
    CellReadBody, ReadTarget, cell_read_plan, check_cell_digest, check_cell_read, digest_is_cell,
    fit_cell_read, plan_document_id, read_cell_value, read_target,
};
use proofstorm_mcp::json::{Json, JsonMember, lookup};
use proofstorm_mcp::error::ErrorCode;
use proofstorm_mcp::operation_read::{
    OperationReadRequest, check_operation_digest, check_operation_read, fit_operation_read,
    operation_window, read_operation,
};
use proofstorm_mcp::requests::{CellDocumentSection, CellReadRequest, CellTarget};
use proofstorm_mcp::slices::{SelectedShape, SliceUnit, Window, first_length, next_offset, window};
use serde_json::Value;

fn op_request(pointer: &str, limit: usize) -> OperationReadRequest {
    OperationReadRequest {
        operation_id: "op".into(),
        pointer: pointer.into(),
        expected_digest: None,
        offset: 0,
        limit,
    }
}

#[test]
fn operation_reads_check_pointer_limit_digest_and_offset() {
    assert!(check_operation_read(&op_request("/artifact/content/stdout", 1000)).is_ok());
    assert_eq!(check_operation_read(&op_request("bad", 1000)).unwrap_err().code, Some(ErrorCode::InvalidJsonPointer));
    assert_eq!(check_operation_read(&op_request("", 0)).unwrap_err().code, Some(ErrorCode::OperationReadLimit));
    assert_eq!(check_operation_read(&op_request("", 4001)).unwrap_err().code, Some(ErrorCode::OperationReadLimit));
    assert!(check_operation_digest(None, "d").is_ok());
    assert!(check_operation_digest(Some("d"), "d").is_ok());
    assert_eq!(check_operation_digest(Some("x"), "d").unwrap_err().code, Some(ErrorCode::OperationReadChanged));
    assert_eq!(operation_window(0, 1000, Some(10)).unwrap(), 10);
    assert_eq!(operation_window(4, 3, Some(10)).unwrap(), 3);
    assert_eq!(operation_window(10, 3, Some(10)).unwrap(), 0);
    assert_eq!(operation_window(11, 3, Some(10)).unwrap_err().code, Some(ErrorCode::OperationReadOffset));
    assert_eq!(operation_window(0, 3, None).unwrap(), 0);
    assert!(operation_window(1, 3, None).is_err());
}

#[test]
fn oversized_windows_halve_until_they_fit() {
    assert_eq!(fit_operation_read(1000, |n| n * 100).unwrap(), 250);
    assert_eq!(fit_operation_read(7, |n| n).unwrap(), 7);
    assert_eq!(
        fit_operation_read(8, |_| 40_000).unwrap_err().code,
        Some(ErrorCode::OperationReadValueTooLarge)
    );
    assert_eq!(fit_cell_read(0, |_| 40_000).unwrap_err().code, Some(ErrorCode::CellReadValueTooLarge));
    assert_eq!(next_offset(0, 250, Some(1000)), Some(250));
    assert_eq!(next_offset(750, 250, Some(1000)), None);
    assert_eq!(next_offset(0, 0, None), None);
}

fn cell_request(limit: usize) -> CellReadRequest {
    CellReadRequest {
        target: CellTarget { name: Some("fleet".into()), plan_id: None },
        document: CellDocumentSection::Configuration,
        pointer: "/components".into(),
        expected_digest: None,
        offset: 0,
        limit,
        scan: false,
    }
}

#[test]
fn cell_read_plans_scan_large_objects_and_check_offsets() {
    assert!(check_cell_read(&cell_request(100)).is_ok());
    assert_eq!(check_cell_read(&cell_request(0)).unwrap_err().code, Some(ErrorCode::CellReadLimit));
    assert_eq!(check_cell_digest(Some("old"), "new").unwrap_err().code, Some(ErrorCode::CellReadChanged));
    // A large object is scanned even when scan was not requested.
    let big = SelectedShape::Record { entries: 40, wire_bytes: 20_000 };
    assert_eq!(cell_read_plan(0, 100, false, big).unwrap(), (true, Some(40), 40));
    let small = SelectedShape::Record { entries: 40, wire_bytes: 100 };
    assert_eq!(cell_read_plan(0, 100, false, small).unwrap(), (false, None, 0));
    assert_eq!(cell_read_plan(3, 2, false, SelectedShape::Text { chars: 10 }).unwrap(), (false, Some(10), 2));
    assert_eq!(
        cell_read_plan(0, 100, true, SelectedShape::Text { chars: 10 }).unwrap_err().code,
        Some(ErrorCode::CellReadScan)
    );
    assert_eq!(
        cell_read_plan(1, 100, false, SelectedShape::Scalar).unwrap_err().code,
        Some(ErrorCode::CellReadOffset)
    );
    assert!(matches!(read_target(&CellTarget { name: Some("a".into()), plan_id: None }), Ok(ReadTarget::Cell)));
    assert!(matches!(read_target(&CellTarget { name: None, plan_id: Some("p".into()) }), Ok(ReadTarget::Preview)));
    assert_eq!(
        read_target(&CellTarget { name: Some("a".into()), plan_id: Some("p".into()) }).err().unwrap().code,
        Some(ErrorCode::CellReadTarget)
    );
    assert!(read_target(&CellTarget { name: None, plan_id: None }).is_err());
}

fn object(members: Vec<(&str, Json)>) -> Json {
    Json::Object(members.into_iter().map(|(key, value)| JsonMember { key: key.into(), value }).collect())
}

fn text(s: &str) -> Json {
    Json::Str(s.into())
}

fn to_value(j: &Json) -> Value {
    match j {
        Json::Null => Value::Null,
        Json::Bool(b) => Value::Bool(*b),
        Json::Number(n) => n.parse::<serde_json::Number>().map(Value::Number).unwrap(),
        Json::Str(s) => Value::String(s.clone()),
        Json::Array(items) => Value::Array(items.iter().map(to_value).collect()),
        Json::Object(members) => {
            let mut map = serde_json::Map::new();
            for m in members {
                map.insert(m.key.clone(), to_value(&m.value));
            }
            Value::Object(map)
        }
    }
}

fn json_size(j: &Json) -> usize {
    to_value(j).to_string().len()
}

fn window_value(w: &Window) -> Value {
    match w {
        Window::Text(t) => Value::String(t.clone()),
        Window::Items(items) => Value::Array(items.iter().map(|i| to_value(i)).collect()),
        Window::Whole(v) => to_value(v),
    }
}

fn large_cell(diagnostic: &str) -> Json {
    object(vec![
        ("api_version", text("proofstorm/v1alpha1")),
        ("name", text("large")),
        ("policy", object(vec![("allow_public_network", Json::Bool(false))])),
        (
            "components",
            Json::Array(vec![object(vec![
                ("id", text("mint")),
                ("kind", text("mint")),
                ("config", object(vec![("diagnostic", text(diagnostic))])),
            ])]),
        ),
        ("links", Json::Array(vec![])),
    ])
}

fn cell_read_of(pointer: &str, digest: Option<&str>, offset: usize, limit: usize) -> CellReadRequest {
    CellReadRequest {
        target: CellTarget { name: Some("large".into()), plan_id: None },
        document: CellDocumentSection::Configuration,
        pointer: pointer.into(),
        expected_digest: digest.map(str::to_owned),
        offset,
        limit,
        scan: false,
    }
}

/// The response holding a window of `n`, sent as structured and text content.
fn cell_response_size(document: &Json, request: &CellReadRequest, n: usize) -> usize {
    let selected = lookup(document, &request.pointer).unwrap();
    let body = match selected {
        Json::Str(_) | Json::Array(_) => window_value(&window(selected, request.offset, n)),
        other => to_value(other),
    };
    2 * (body.to_string().len() + 256)
}

#[test]
fn large_configuration_reads_scan_then_slice_exact_unicode_and_bind_digests() {
    let diagnostic = "λ🦀\n\"".repeat(6000);
    let document = large_cell(&diagnostic);
    let root = cell_read_of("", None, 0, 100);
    let scan = read_cell_value(&document, "sha256:cell", &root, &json_size, |_| 512).unwrap();
    assert!(scan.scan);
    let CellReadBody::Scan(entries) = &scan.body else { panic!("a large document is scanned") };
    assert!(entries.iter().any(|e| e.path == "/policy"));
    assert_eq!(entries.len(), 5);
    assert!(entries.iter().find(|e| e.path == "/components").unwrap().bytes > 24_000);
    let mut read = cell_read_of("/components/0/config/diagnostic", Some("sha256:cell"), 1, 37);
    let slice = read_cell_value(&document, "sha256:cell", &read, &json_size, |n| cell_response_size(&document, &read, n)).unwrap();
    let CellReadBody::Slice(Window::Text(value)) = &slice.body else { panic!("a string is sliced") };
    assert_eq!(*value, diagnostic.chars().skip(1).take(37).collect::<String>());
    assert_eq!(slice.next_offset, Some(38));
    assert_eq!(slice.total_length, Some(24_000));
    assert_eq!(slice.unit, SliceUnit::Characters);
    read.expected_digest = Some("wrong".into());
    assert!(read_cell_value(&document, "sha256:cell", &read, &json_size, |_| 0).is_err());
}

#[test]
fn cell_reads_refuse_missing_pointers_scalar_scans_and_unfit_values() {
    let document = large_cell("short");
    let missing = cell_read_of("/nope", None, 0, 10);
    let error = read_cell_value(&document, "d", &missing, &json_size, |_| 0).unwrap_err();
    assert_eq!(error.code, Some(ErrorCode::CellReadPointerMissing));
    let mut scalar = cell_read_of("/name", None, 0, 10);
    scalar.scan = true;
    let error = read_cell_value(&document, "d", &scalar, &json_size, |_| 0).unwrap_err();
    assert_eq!(error.code, Some(ErrorCode::CellReadScan));
    let huge = cell_read_of("/components", None, 0, 10);
    let error = read_cell_value(&document, "d", &huge, &json_size, |_| usize::MAX).unwrap_err();
    assert_eq!(error.code, Some(ErrorCode::CellReadValueTooLarge));
    let items = cell_read_of("/components", None, 0, 10);
    let page = read_cell_value(&document, "d", &items, &json_size, |_| 0).unwrap();
    assert!(matches!(&page.body, CellReadBody::Slice(Window::Items(xs)) if xs.len() == 1));
    assert_eq!(page.unit, SliceUnit::Items);
    assert_eq!(page.next_offset, None);
    let end = cell_read_of("/components", None, 1, 10);
    let empty = read_cell_value(&document, "d", &end, &json_size, |n| 100 + n).unwrap();
    assert!(matches!(&empty.body, CellReadBody::Slice(Window::Items(xs)) if xs.is_empty()));
    assert_eq!(empty.next_offset, None);
    assert_eq!(empty.total_length, Some(1));
}

fn operation_document(stdout: &str) -> Json {
    object(vec![(
        "artifact",
        object(vec![(
            "content",
            object(vec![
                ("stdout", text(stdout)),
                ("a/b~c", Json::Array(vec![Json::Number("1".into()), Json::Number("2".into()), Json::Number("3".into())])),
                ("null", Json::Null),
            ]),
        )]),
    )])
}

fn operation_read_of(pointer: &str, offset: usize, limit: usize, digest: Option<&str>) -> OperationReadRequest {
    OperationReadRequest {
        operation_id: "long-output".into(),
        pointer: pointer.into(),
        expected_digest: digest.map(str::to_owned),
        offset,
        limit,
    }
}

/// The read result sent as structured and text content.
fn operation_response_size(document: &Json, request: &OperationReadRequest, n: usize) -> usize {
    let selected = lookup(document, &request.pointer).unwrap();
    let mut result = serde_json::Map::new();
    result.insert("operation_id".into(), Value::String(request.operation_id.clone()));
    result.insert("operation_digest".into(), Value::String("sha256:operation".into()));
    result.insert("source".into(), Value::String("recorded".into()));
    result.insert("pointer".into(), Value::String(request.pointer.clone()));
    result.insert("value".into(), window_value(&window(selected, request.offset, n)));
    result.insert("offset".into(), Value::from(request.offset));
    2 * Value::Object(result).to_string().len()
}

#[test]
fn reads_unicode_text_arrays_and_escaped_json_paths_with_digest_checks() {
    let stdout = "界🙂\"\\\n".repeat(1500);
    let document = operation_document(&stdout);
    let mut offset = 0;
    let mut collected = String::new();
    let mut digest: Option<String> = None;
    loop {
        let request = operation_read_of("/artifact/content/stdout", offset, 4000, digest.as_deref());
        let chunk = read_operation(&document, "sha256:operation", &request, |n| {
            operation_response_size(&document, &request, n)
        })
        .unwrap();
        assert_eq!(chunk.unit.unwrap().text(), "characters");
        assert_eq!(chunk.total_length, Some(stdout.chars().count()));
        let Window::Text(value) = &chunk.value else { panic!("a string is sliced") };
        collected.push_str(value);
        digest = Some("sha256:operation".into());
        let Some(next) = chunk.next_offset else {
            break;
        };
        assert!(next > offset);
        offset = next;
    }
    assert_eq!(collected, stdout);
    let request = operation_read_of("/artifact/content/a~1b~0c", 1, 1, None);
    let array = read_operation(&document, "sha256:operation", &request, |_| 0).unwrap();
    assert!(matches!(&array.value, Window::Items(xs) if xs.len() == 1 && matches!(xs[0], Json::Number(n) if n == "2")));
    assert_eq!(array.next_offset, Some(2));
    let request = operation_read_of("/artifact/content/null", 0, 1000, None);
    let null = read_operation(&document, "sha256:operation", &request, |_| 0).unwrap();
    assert!(matches!(null.value, Window::Whole(Json::Null)));
    for (request, code) in [
        (operation_read_of("", 0, 1000, Some("stale")), ErrorCode::OperationReadChanged),
        (operation_read_of("/missing", 0, 1000, None), ErrorCode::OperationReadPointerMissing),
        (operation_read_of("/~2", 0, 1000, None), ErrorCode::InvalidJsonPointer),
        (operation_read_of("/artifact/content/stdout", 999_999, 1000, None), ErrorCode::OperationReadOffset),
    ] {
        let error = read_operation(&document, "sha256:operation", &request, |_| 0).unwrap_err();
        assert_eq!(error.code, Some(code));
    }
    let request = operation_read_of("/artifact/content", 0, 1000, None);
    let error = read_operation(&document, "sha256:operation", &request, |n| {
        operation_response_size(&document, &request, n)
    })
    .unwrap_err();
    assert_eq!(error.code, Some(ErrorCode::OperationReadValueTooLarge));
}

#[test]
fn plan_documents_need_a_plan_id() {
    let mut request = cell_request(10);
    request.document = CellDocumentSection::Plan;
    let error = plan_document_id(&request).unwrap_err();
    assert_eq!(error.code, Some(ErrorCode::CellReadTarget));
    assert_eq!(error.message, "document=plan requires plan_id");
    request.target.plan_id = Some("plan-7".into());
    assert_eq!(plan_document_id(&request).unwrap(), "plan-7");
}

#[test]
fn only_configuration_reads_bind_the_cell_digest() {
    assert!(digest_is_cell(CellDocumentSection::Configuration));
    assert!(!digest_is_cell(CellDocumentSection::Plan));
}

#[test]
fn first_window_length_is_clamped_to_what_remains() {
    assert_eq!(first_length(0, 10, Some(25)), 10);
    assert_eq!(first_length(20, 10, Some(25)), 5);
    assert_eq!(first_length(25, 10, Some(25)), 0);
    assert_eq!(first_length(0, 10, None), 0);
}
