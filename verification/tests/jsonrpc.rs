use zhtw_mcp::json::{parse_json, Json};
use zhtw_mcp::jsonrpc::{
    parse_jsonrpc_line, validate_message, JsonRpcError, JsonRpcResponse, RequestId,
    TransportError, INVALID_REQUEST, JSONRPC_VERSION, PARSE_ERROR, SERVER_NOT_INITIALIZED,
};

fn json(text: &str) -> Json {
    parse_json(text).unwrap()
}

/// The value on the wire: written as text and read back.
fn on_the_wire(value: &Json) -> Json {
    json(&value.to_text())
}

fn str_of(text: &str) -> Json {
    Json::Str(text.to_owned())
}

fn read_id(text: &str) -> Result<RequestId, String> {
    RequestId::from_text(text)
}

#[test]
fn request_id_int_roundtrip() {
    let id = RequestId::Int(42);
    let text = id.to_text();
    assert_eq!(text, "42");
    let parsed = read_id(&text).unwrap();
    assert!(matches!(parsed, RequestId::Int(42)));
}

#[test]
fn request_id_string_roundtrip() {
    let id = RequestId::Str("req-abc".into());
    let text = id.to_text();
    assert_eq!(text, "\"req-abc\"");
    match read_id(&text).unwrap() {
        RequestId::Str(s) => assert_eq!(s, "req-abc"),
        _ => panic!("expected string id"),
    }
}

#[test]
fn request_id_negative_int() {
    let id = RequestId::Int(-1);
    let text = id.to_text();
    let parsed = read_id(&text).unwrap();
    assert!(matches!(parsed, RequestId::Int(-1)));
}

#[test]
fn request_id_null_roundtrip() {
    let id = RequestId::Null;
    let text = id.to_text();
    assert_eq!(text, "null");
    let parsed = read_id(&text).unwrap();
    assert!(matches!(parsed, RequestId::Null));
}

#[test]
fn request_id_boolean_rejected() {
    let result = read_id("true");
    assert!(result.is_err());
}

#[test]
fn request_id_array_rejected() {
    let result = read_id("[1,2]");
    assert!(result.is_err());
}

#[test]
fn request_null_id_is_not_notification() {
    // "id": null is a request, not a notification.
    let line = r#"{"jsonrpc":"2.0","method":"ping","id":null}"#;
    let req = parse_jsonrpc_line(line).unwrap();
    assert!(req.id.is_some(), "null id must be Some(RequestId::Null)");
    assert!(matches!(req.id, Some(RequestId::Null)));
}

#[test]
fn request_absent_id_is_notification() {
    let line = r#"{"jsonrpc":"2.0","method":"notifications/initialized"}"#;
    let req = parse_jsonrpc_line(line).unwrap();
    assert!(req.id.is_none(), "absent id must be None (notification)");
}

#[test]
fn jsonrpc_error_with_data_roundtrip() {
    let err = JsonRpcError {
        code: INVALID_REQUEST,
        message: "bad request".into(),
        data: Some(json(
            r#"{"field": "profile", "accepted": ["base", "strict"]}"#,
        )),
    };
    let parsed = on_the_wire(&err.to_json());
    assert_eq!(parsed.get("code"), Some(&Json::Int(INVALID_REQUEST)));
    assert_eq!(parsed.get("message"), Some(&str_of("bad request")));
    assert_eq!(
        parsed.get("data").unwrap().get("field"),
        Some(&str_of("profile"))
    );
}

#[test]
fn jsonrpc_error_without_data_omits_field() {
    let err = JsonRpcError {
        code: PARSE_ERROR,
        message: "parse error".into(),
        data: None,
    };
    let parsed = on_the_wire(&err.to_json());
    assert_eq!(parsed.get("code"), Some(&Json::Int(PARSE_ERROR)));
    assert!(parsed.get("data").is_none());
}

#[test]
fn response_success_omits_error() {
    let resp = JsonRpcResponse::success(Some(RequestId::Int(1)), str_of("ok"));
    let parsed = on_the_wire(&resp.to_json());
    assert_eq!(parsed.get("result"), Some(&str_of("ok")));
    assert!(parsed.get("error").is_none());
}

#[test]
fn response_error_omits_result() {
    let resp = JsonRpcResponse::error(Some(RequestId::Int(1)), -32600, "bad".into());
    let parsed = on_the_wire(&resp.to_json());
    assert!(parsed.get("result").is_none());
    assert_eq!(
        parsed.get("error").unwrap().get("code"),
        Some(&Json::Int(-32600))
    );
}

#[test]
fn response_unknown_id_serializes_as_null() {
    // JSON-RPC 2.0: error responses with unknown id must include "id": null
    let resp = JsonRpcResponse::error(None, PARSE_ERROR, "err".into());
    let parsed = on_the_wire(&resp.to_json());
    assert!(parsed.get("id").is_some(), "id field must be present");
    assert_eq!(
        parsed.get("id"),
        Some(&Json::Null),
        "unknown id must serialize as null"
    );
}

#[test]
fn parse_valid_request() {
    let line = r#"{"jsonrpc":"2.0","method":"tools/list","id":1,"params":{}}"#;
    let req = parse_jsonrpc_line(line).unwrap();
    assert_eq!(req.method, "tools/list");
    assert!(matches!(req.id, Some(RequestId::Int(1))));
}

#[test]
fn parse_malformed_json_returns_parse_error() {
    let line = "not json at all";
    let err = parse_jsonrpc_line(line).unwrap_err();
    assert!(matches!(err, TransportError::Parse(_)));
    assert_eq!(err.error_code(), Some(PARSE_ERROR));
}

#[test]
fn parse_response_shaped_with_id_returns_stale() {
    // JSON-RPC 2.0: "The Server MUST NOT reply to a Response."
    let line = r#"{"jsonrpc":"2.0","id":1,"result":"ok"}"#;
    let err = parse_jsonrpc_line(line).unwrap_err();
    assert!(matches!(err, TransportError::PeerResponse));
    assert_eq!(err.error_code(), None);
    assert!(err.into_response(None).is_none());
}

#[test]
fn parse_response_shaped_without_id_returns_stale() {
    let line = r#"{"jsonrpc":"2.0","result":"stale"}"#;
    let err = parse_jsonrpc_line(line).unwrap_err();
    assert!(matches!(err, TransportError::PeerResponse));
    assert_eq!(err.error_code(), None);
    assert!(err.into_response(None).is_none());
}

#[test]
fn parse_wrong_jsonrpc_version() {
    let line = r#"{"jsonrpc":"1.0","method":"test","id":1}"#;
    let err = parse_jsonrpc_line(line).unwrap_err();
    assert!(matches!(err, TransportError::InvalidRequest(..)));
}

#[test]
fn parse_notification_no_id() {
    let line = r#"{"jsonrpc":"2.0","method":"notifications/initialized"}"#;
    let req = parse_jsonrpc_line(line).unwrap();
    assert!(req.id.is_none());
    assert_eq!(req.method, "notifications/initialized");
}

#[test]
fn parse_empty_object_returns_invalid_request() {
    let line = r#"{}"#;
    let err = parse_jsonrpc_line(line).unwrap_err();
    assert!(matches!(err, TransportError::InvalidRequest(..)));
    assert_eq!(err.error_code(), Some(INVALID_REQUEST));
}

#[test]
fn parse_arbitrary_object_without_method_returns_invalid_request() {
    let line = r#"{"foo":"bar","baz":42}"#;
    let err = parse_jsonrpc_line(line).unwrap_err();
    assert!(matches!(err, TransportError::InvalidRequest(..)));
}

#[test]
fn parse_invalid_request_carries_id() {
    // A message with id but no method and not response-shaped should
    // produce an error response that echoes the id back to the client.
    let line = r#"{"id":99,"jsonrpc":"2.0"}"#;
    let err = parse_jsonrpc_line(line).unwrap_err();
    assert!(matches!(err, TransportError::InvalidRequest(..)));
    let resp = err.into_response(None).expect("should produce response");
    match &resp.id {
        Some(RequestId::Int(99)) => {}
        other => panic!("expected id=99, got {other:?}"),
    }
}

#[test]
fn parse_positional_array_returns_invalid_request() {
    let line = r#"["2.0",1,"ping",{}]"#;
    let err = parse_jsonrpc_line(line).unwrap_err();
    assert!(matches!(err, TransportError::InvalidRequest(..)));
    assert_eq!(err.error_code(), Some(INVALID_REQUEST));
}

#[test]
fn parse_batch_array_returns_invalid_request() {
    // MCP does not support JSON-RPC batching; 2025-06-18 removed it.
    let line = r#"[{"jsonrpc":"2.0","method":"ping","id":1}]"#;
    let err = parse_jsonrpc_line(line).unwrap_err();
    assert!(matches!(err, TransportError::InvalidRequest(..)));
    assert_eq!(err.error_code(), Some(INVALID_REQUEST));
}

#[test]
fn parse_bare_scalar_returns_invalid_request() {
    // Valid JSON, not a JSON-RPC message.
    for line in [r#""ping""#, "42", "true", "null"] {
        let err = parse_jsonrpc_line(line).unwrap_err();
        assert!(
            matches!(err, TransportError::InvalidRequest(..)),
            "scalar {line} must be an invalid request"
        );
        assert_eq!(err.error_code(), Some(INVALID_REQUEST));
    }
}

#[test]
fn parse_surrounding_whitespace() {
    let line = "  \t{\"jsonrpc\":\"2.0\",\"method\":\"ping\",\"id\":3}  \t ";
    let req = parse_jsonrpc_line(line).unwrap();
    assert_eq!(req.method, "ping");
    assert!(matches!(req.id, Some(RequestId::Int(3))));
}

#[test]
fn parse_lone_surrogate_in_ignored_field_is_a_parse_error() {
    // A lone UTF-16 surrogate escape in a field that is not looked at still
    // makes the line one that is not JSON.
    let line = r#"{"jsonrpc":"2.0","method":"ping","id":1,"x":"\ud800"}"#;
    let err = parse_jsonrpc_line(line).unwrap_err();
    assert!(matches!(err, TransportError::Parse(_)));
    assert_eq!(err.error_code(), Some(PARSE_ERROR));
}

#[test]
fn parse_duplicate_key_takes_the_last_value() {
    let line = r#"{"jsonrpc":"2.0","method":"ping","id":1,"id":2}"#;
    let req = parse_jsonrpc_line(line).unwrap();
    assert!(matches!(req.id, Some(RequestId::Int(2))));
}

#[test]
fn parse_duplicate_key_with_invalid_last_value_is_rejected() {
    let line = r#"{"jsonrpc":"2.0","method":"ping","id":1,"id":true}"#;
    let err = parse_jsonrpc_line(line).unwrap_err();
    assert!(matches!(err, TransportError::InvalidRequest(..)));
    let resp = err.into_response(None).expect("should produce response");
    assert!(resp.id.is_none());
}

#[test]
fn parse_non_object_error_response_has_null_id() {
    for line in [r#"["2.0",1,"ping",{}]"#, r#""ping""#] {
        let err = parse_jsonrpc_line(line).unwrap_err();
        let resp = err.into_response(None).expect("should produce response");
        assert!(resp.id.is_none(), "{line} must answer with a null id");
        let parsed = on_the_wire(&resp.to_json());
        assert_eq!(parsed.get("id"), Some(&Json::Null));
    }
}

#[test]
fn parse_wrong_version_carries_id() {
    let line = r#"{"jsonrpc":"1.0","method":"test","id":7}"#;
    let err = parse_jsonrpc_line(line).unwrap_err();
    let resp = err.into_response(None).expect("should produce response");
    match &resp.id {
        Some(RequestId::Int(7)) => {}
        other => panic!("expected id=7, got {other:?}"),
    }
}

/// The message with which a line is refused.
fn refusal(line: &str) -> String {
    parse_jsonrpc_line(line).unwrap_err().error_message()
}

#[test]
fn each_refusal_says_why() {
    assert_eq!(
        refusal("[]"),
        "invalid request: request must be a JSON object"
    );
    assert_eq!(
        refusal("{}"),
        "invalid request: object has no method, result, or error field"
    );
    assert_eq!(
        refusal(r#"{"id":1}"#),
        "invalid request: message has id but no method"
    );
    assert_eq!(
        refusal(r#"{"jsonrpc":"1.0","method":"m"}"#),
        "invalid request: expected jsonrpc \"2.0\", got \"1.0\""
    );
    assert_eq!(
        refusal(r#"{"method":"m"}"#),
        "invalid request: missing field `jsonrpc`"
    );
    assert_eq!(
        refusal(r#"{"jsonrpc":"2.0","method":"m","id":1.5}"#),
        "invalid request: id number must be an integer"
    );
    assert_eq!(
        refusal(r#"{"jsonrpc":"2.0","method":"m","id":{}}"#),
        "invalid request: id must be a string, integer, or null"
    );
    assert_eq!(
        refusal(r#"{"jsonrpc":"2.0","method":5}"#),
        "invalid request: invalid type: integer `5`, expected a string"
    );
    assert_eq!(
        refusal(r#"{"jsonrpc":true,"method":"m"}"#),
        "invalid request: invalid type: boolean `true`, expected a string"
    );
    assert!(refusal("{").starts_with("parse error: "));
}

#[test]
fn the_first_faulty_field_in_key_order_is_named() {
    assert_eq!(
        refusal(r#"{"method":5,"jsonrpc":1,"id":true}"#),
        "invalid request: id must be a string, integer, or null"
    );
    assert_eq!(
        refusal(r#"{"method":5,"jsonrpc":1}"#),
        "invalid request: invalid type: integer `1`, expected a string"
    );
    assert_eq!(
        refusal(r#"{"method":null}"#),
        "invalid request: invalid type: null, expected a string"
    );
}

#[test]
fn log_lines_differ_from_answers_for_lines_that_are_not_json() {
    let err = parse_jsonrpc_line("{").unwrap_err();
    assert!(err.display_text().starts_with("JSON parse: "));
    let err = parse_jsonrpc_line("[]").unwrap_err();
    assert_eq!(err.display_text(), err.error_message());
    assert_eq!(
        TransportError::PeerResponse.display_text(),
        "response to a server request"
    );
    assert_eq!(
        TransportError::PeerResponse.error_message(),
        "response to a server request"
    );
}

#[test]
fn a_line_that_is_not_json_is_answered_under_the_fallback_id() {
    let err = parse_jsonrpc_line("{").unwrap_err();
    let resp = err.into_response(Some(RequestId::Int(5))).unwrap();
    assert!(matches!(resp.id, Some(RequestId::Int(5))));
    assert_eq!(resp.error.unwrap().code, PARSE_ERROR);

    let err = parse_jsonrpc_line(r#"{"id":9}"#).unwrap_err();
    let resp = err.into_response(Some(RequestId::Int(5))).unwrap();
    assert!(matches!(resp.id, Some(RequestId::Int(9))));
    assert_eq!(resp.error.unwrap().code, INVALID_REQUEST);
}

#[test]
fn ids_beyond_i64_are_no_integers() {
    assert!(matches!(
        read_id("9223372036854775807"),
        Ok(RequestId::Int(i64::MAX))
    ));
    assert_eq!(
        read_id("9223372036854775808").unwrap_err(),
        "id number must be an integer"
    );
    assert_eq!(
        read_id("1.0").unwrap_err(),
        "id number must be an integer"
    );
}

#[test]
fn every_id_is_read_back_from_its_text() {
    let texts = ["", "\u{0}\u{1f}\"\\/", "漢字\u{10ffff}", "\u{2028}\u{7f}"];
    for s in texts {
        match read_id(&RequestId::Str(s.to_owned()).to_text()) {
            Ok(RequestId::Str(back)) => assert_eq!(back, s),
            other => panic!("expected a string id, got {other:?}"),
        }
    }
    for i in [0, 1, -1, i64::MIN, i64::MAX] {
        assert!(matches!(
            read_id(&RequestId::Int(i).to_text()),
            Ok(RequestId::Int(back)) if back == i
        ));
    }
    assert!(read_id("nope").unwrap_err().starts_with("expected ident"));
}

#[test]
fn absent_params_are_null() {
    let req = parse_jsonrpc_line(r#"{"jsonrpc":"2.0","method":"m"}"#).unwrap();
    assert_eq!(req.params, Json::Null);
    assert_eq!(req.jsonrpc, JSONRPC_VERSION);
    let req = parse_jsonrpc_line(r#"{"jsonrpc":"2.0","method":"m","params":[1]}"#).unwrap();
    assert_eq!(req.params, Json::Array(vec![Json::Int(1)]));
}

#[test]
fn a_response_is_read_as_a_reply() {
    let ok = JsonRpcResponse::success(Some(RequestId::Int(1)), Json::Null);
    let bad = JsonRpcResponse::error(None, SERVER_NOT_INITIALIZED, "no".into());
    for resp in [ok, bad] {
        let err = validate_message(&resp.to_json()).unwrap_err();
        assert!(matches!(err, TransportError::PeerResponse));
        assert_eq!(json(&resp.to_line()), on_the_wire(&resp.to_json()));
        let err = parse_jsonrpc_line(&resp.to_line()).unwrap_err();
        assert!(matches!(err, TransportError::PeerResponse));
    }
}

#[test]
fn a_message_with_a_method_is_a_request_whatever_else_it_carries() {
    let line = r#"{"jsonrpc":"2.0","method":"m","result":1}"#;
    assert_eq!(parse_jsonrpc_line(line).unwrap().method, "m");
}
