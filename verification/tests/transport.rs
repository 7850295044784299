use rust_mcp_server::framing::{
    build_notification_body, build_request_body, classify_header_line, encode_frame, HeaderLine,
};
use rust_mcp_server::protocol::{Diagnostic, Position, Range};
use rust_mcp_server::session::{
    analysis_options, route_message, DiagnosticsStore, IdField, IncomingHeader, ReadAction,
    Session, SessionError,
};

fn span(sl: u32, sc: u32, el: u32, ec: u32) -> Range {
    Range {
        start: Position { line: sl, character: sc },
        end: Position { line: el, character: ec },
    }
}

#[test]
fn frame_layout_is_exact() {
    let frame = encode_frame(b"{}");
    assert_eq!(frame, b"Content-Length: 2\r\n\r\n{}".to_vec());
    let empty = encode_frame(b"");
    assert_eq!(empty, b"Content-Length: 0\r\n\r\n".to_vec());
}

#[test]
fn request_body_layout_is_exact() {
    let body = build_request_body(1, "initialize", b"{}");
    assert_eq!(
        String::from_utf8(body).unwrap(),
        "{\"id\":1,\"jsonrpc\":\"2.0\",\"method\":\"initialize\",\"params\":{}}"
    );
    let body = build_request_body(42, "textDocument/definition", b"{\"a\":3}");
    assert_eq!(
        String::from_utf8(body).unwrap(),
        "{\"id\":42,\"jsonrpc\":\"2.0\",\"method\":\"textDocument/definition\",\"params\":{\"a\":3}}"
    );
}

#[test]
fn notification_body_layout_is_exact() {
    let body = build_notification_body("initialized", b"{}");
    assert_eq!(
        String::from_utf8(body).unwrap(),
        "{\"jsonrpc\":\"2.0\",\"method\":\"initialized\",\"params\":{}}"
    );
}

#[test]
fn header_lines_classify() {
    assert_eq!(classify_header_line("\r\n"), HeaderLine::Blank);
    assert_eq!(
        classify_header_line("Content-Length: 42\r\n"),
        HeaderLine::ContentLength(42)
    );
    assert_eq!(
        classify_header_line("Content-Length:0\r\n"),
        HeaderLine::ContentLength(0)
    );
    assert_eq!(
        classify_header_line("Content-Length: +7\r\n"),
        HeaderLine::ContentLength(7)
    );
    assert_eq!(
        classify_header_line("Content-Type: application/json\r\n"),
        HeaderLine::Other
    );
    assert_eq!(classify_header_line("Content-Length: x\r\n"), HeaderLine::Malformed);
    assert_eq!(classify_header_line("Content-Length:\r\n"), HeaderLine::Malformed);
    assert_eq!(
        classify_header_line("Content-Length: 99999999999999999999\r\n"),
        HeaderLine::Malformed
    );
}

#[test]
fn encoded_frame_header_reads_back() {
    let frame = encode_frame(b"hello");
    let text = String::from_utf8(frame).unwrap();
    let line_end = text.find("\r\n").unwrap() + 2;
    assert_eq!(
        classify_header_line(&text[..line_end]),
        HeaderLine::ContentLength(5)
    );
    assert_eq!(classify_header_line(&text[line_end..line_end + 2]), HeaderLine::Blank);
}

#[test]
fn request_ids_increase_from_one() {
    let mut s = Session::new();
    assert_eq!(s.request_id, 0);
    assert!(!s.initialized);
    assert_eq!(s.next_request_id(), 1);
    assert_eq!(s.next_request_id(), 2);
    assert_eq!(s.next_request_id(), 3);
    assert_eq!(s.request_id, 3);
}

#[test]
fn uninitialized_session_fails_fast() {
    let mut s = Session::new();
    assert_eq!(s.ensure_initialized(), Err(SessionError::Uninitialized));
    s.mark_initialized();
    assert_eq!(s.ensure_initialized(), Ok(()));
}

#[test]
fn analysis_mode_toggles_both_flags() {
    let full = analysis_options(true);
    assert!(full.load_out_dirs_from_check && full.proc_macro_enable);
    let partial = analysis_options(false);
    assert!(!partial.load_out_dirs_from_check && !partial.proc_macro_enable);
}

#[test]
fn read_loop_routes_by_id_and_method() {
    let reply = IncomingHeader { id: IdField::Numeric(7), method: None };
    assert_eq!(route_message(7, &reply), ReadAction::CompleteRequest);
    assert_eq!(route_message(8, &reply), ReadAction::Discard);

    let stale = IncomingHeader { id: IdField::NonNumeric, method: None };
    assert_eq!(route_message(7, &stale), ReadAction::Discard);

    let diags = IncomingHeader {
        id: IdField::Absent,
        method: Some("textDocument/publishDiagnostics".to_string()),
    };
    assert_eq!(route_message(7, &diags), ReadAction::StoreDiagnostics);

    let other = IncomingHeader {
        id: IdField::Absent,
        method: Some("window/logMessage".to_string()),
    };
    assert_eq!(route_message(7, &other), ReadAction::Discard);

    let silent = IncomingHeader { id: IdField::Absent, method: None };
    assert_eq!(route_message(7, &silent), ReadAction::Discard);
}

fn diag(message: &str) -> Diagnostic {
    Diagnostic {
        range: span(0, 0, 0, 1),
        severity: Some(1),
        message: message.to_string(),
    }
}

#[test]
fn diagnostics_replace_not_merge() {
    let mut store = DiagnosticsStore::new();
    let uri = "file:///w/src/lib.rs".to_string();
    store.publish(uri.clone(), vec![diag("first"), diag("second")]);
    store.publish(uri.clone(), vec![diag("only")]);
    let got = store.get(&uri).expect("entry must exist");
    assert_eq!(got.len(), 1);
    assert_eq!(got[0].message, "only");
    assert!(store.get("file:///w/src/other.rs").is_none());
}

#[test]
fn diagnostics_store_keeps_other_keys() {
    let mut store = DiagnosticsStore::new();
    store.publish("file:///a.rs".to_string(), vec![diag("a")]);
    store.publish("file:///b.rs".to_string(), vec![]);
    store.publish("file:///a.rs".to_string(), vec![diag("a2")]);
    assert_eq!(store.get("file:///a.rs").unwrap()[0].message, "a2");
    assert!(store.get("file:///b.rs").unwrap().is_empty());
}

#[test]
fn severity_labels() {
    let mut d = diag("m");
    assert_eq!(d.severity_label(), "ERROR");
    d.severity = Some(2);
    assert_eq!(d.severity_label(), "WARNING");
    d.severity = Some(3);
    assert_eq!(d.severity_label(), "INFO");
    d.severity = Some(4);
    assert_eq!(d.severity_label(), "HINT");
    d.severity = Some(9);
    assert_eq!(d.severity_label(), "UNKNOWN");
    d.severity = None;
    assert_eq!(d.severity_label(), "ERROR");
}

#[test]
fn request_body_agrees_with_json_serializer() {
    let mut params = serde_json::Map::new();
    params.insert("a".to_string(), serde_json::Value::from(1u64));
    let params_value = serde_json::Value::Object(params);

    let mut obj = serde_json::Map::new();
    obj.insert("jsonrpc".to_string(), serde_json::Value::String("2.0".to_string()));
    obj.insert("id".to_string(), serde_json::Value::from(7u64));
    obj.insert(
        "method".to_string(),
        serde_json::Value::String("textDocument/hover".to_string()),
    );
    obj.insert("params".to_string(), params_value.clone());
    let expected = serde_json::Value::Object(obj).to_string();

    let params_bytes = serde_json::to_vec(&params_value).unwrap();
    let body = build_request_body(7, "textDocument/hover", &params_bytes);
    assert_eq!(String::from_utf8(body).unwrap(), expected);
}

#[test]
fn notification_body_agrees_with_json_serializer() {
    let params_value = serde_json::Value::Object(serde_json::Map::new());

    let mut obj = serde_json::Map::new();
    obj.insert("jsonrpc".to_string(), serde_json::Value::String("2.0".to_string()));
    obj.insert(
        "method".to_string(),
        serde_json::Value::String("initialized".to_string()),
    );
    obj.insert("params".to_string(), params_value.clone());
    let expected = serde_json::Value::Object(obj).to_string();

    let params_bytes = serde_json::to_vec(&params_value).unwrap();
    let body = build_notification_body("initialized", &params_bytes);
    assert_eq!(String::from_utf8(body).unwrap(), expected);
}
