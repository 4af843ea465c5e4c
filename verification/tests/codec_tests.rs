use lapce_plugin::codec::DecodeError;
use lapce_plugin::codec::PluginServerRpc;
use lapce_plugin::codec::decode;
use lapce_plugin::codec::encode_notification;
use lapce_plugin::codec::encode_request;

fn expect_err(line: &str) -> DecodeError {
    match decode(line) {
        Err(e) => e,
        Ok(other) => panic!("expected a decode failure, got {:?}", other),
    }
}

fn expect_request(line: &str) -> (u64, String, String) {
    match decode(line) {
        Ok(PluginServerRpc::Request { id, method, params }) => (id, method, params),
        other => panic!("expected a request, got {:?}", other),
    }
}

fn expect_notification(line: &str) -> (String, String) {
    match decode(line) {
        Ok(PluginServerRpc::Notification { method, params }) => (method, params),
        other => panic!("expected a notification, got {:?}", other),
    }
}

#[test]
fn decodes_request_with_numeric_string_id() {
    let (id, method, params) = expect_request(
        "{\"jsonrpc\":\"2.0\",\"id\":\"42\",\"method\":\"foo\",\"params\":{}}",
    );
    assert_eq!(id, 42);
    assert_eq!(method, "foo");
    assert_eq!(params, "{}");
}

#[test]
fn decodes_request_with_numeric_id() {
    let (id, method, params) = expect_request(
        "{\"jsonrpc\":\"2.0\",\"id\":7,\"method\":\"textDocument/hover\",\"params\":[1,2]}",
    );
    assert_eq!(id, 7);
    assert_eq!(method, "textDocument/hover");
    assert_eq!(params, "[1,2]");
}

#[test]
fn rejects_non_numeric_string_id() {
    let r = expect_err("{\"jsonrpc\":\"2.0\",\"id\":\"abc\",\"method\":\"foo\"}");
    assert_eq!(r, DecodeError::InvalidId);
}

#[test]
fn rejects_negative_and_fractional_ids() {
    assert_eq!(expect_err("{\"jsonrpc\":\"2.0\",\"id\":-1,\"method\":\"foo\"}"), DecodeError::InvalidId);
    assert_eq!(expect_err("{\"jsonrpc\":\"2.0\",\"id\":1.5,\"method\":\"foo\"}"), DecodeError::InvalidId);
}

#[test]
fn rejects_id_beyond_64_bits() {
    let r = expect_err("{\"jsonrpc\":\"2.0\",\"id\":99999999999999999999999,\"method\":\"foo\"}");
    assert_eq!(r, DecodeError::InvalidId);
}

#[test]
fn notification_line_never_becomes_a_request() {
    let (method, params) = expect_notification(
        "{\"jsonrpc\":\"2.0\",\"method\":\"initialized\",\"params\":{\"a\":[1,2,3]}}",
    );
    assert_eq!(method, "initialized");
    assert_eq!(params, "{\"a\":[1,2,3]}");
}

#[test]
fn absent_params_default_to_null() {
    let (id, _, params) = expect_request("{\"jsonrpc\":\"2.0\",\"id\":1,\"method\":\"m\"}");
    assert_eq!(id, 1);
    assert_eq!(params, "null");
}

#[test]
fn tolerates_whitespace_between_tokens() {
    let (method, params) = expect_notification(
        " { \"jsonrpc\" : \"2.0\" , \"method\" : \"m\" , \"params\" : 5 } ",
    );
    assert_eq!(method, "m");
    assert_eq!(params, "5");
}

#[test]
fn unescapes_method_names() {
    let (method, _) = expect_notification(
        "{\"jsonrpc\":\"2.0\",\"method\":\"a\\\"b\\\\c\\n\",\"params\":null}",
    );
    assert_eq!(method, "a\"b\\c\n");
}

#[test]
fn skips_unknown_members() {
    let (method, params) = expect_notification(
        "{\"jsonrpc\":\"2.0\",\"extra\":[1,{\"x\":\"}\"}],\"method\":\"m\",\"params\":true}",
    );
    assert_eq!(method, "m");
    assert_eq!(params, "true");
}

#[test]
fn rejects_malformed_lines() {
    assert_eq!(expect_err(""), DecodeError::InvalidJson);
    assert_eq!(expect_err("not json"), DecodeError::InvalidJson);
    assert_eq!(expect_err("[1,2,3]"), DecodeError::InvalidJson);
    assert_eq!(expect_err("{\"jsonrpc\":\"2.0\",\"method\":\"m\""), DecodeError::InvalidJson);
    assert_eq!(expect_err("{\"jsonrpc\":\"2.0\",\"method\":\"m\",}"), DecodeError::InvalidJson);
}

#[test]
fn rejects_duplicate_members() {
    assert_eq!(expect_err("{\"jsonrpc\":\"2.0\",\"method\":\"a\",\"method\":\"b\"}"), DecodeError::InvalidJson);
}

#[test]
fn rejects_wrong_or_missing_version_tag() {
    assert_eq!(expect_err("{\"jsonrpc\":\"1.0\",\"id\":1,\"method\":\"m\"}"), DecodeError::InvalidEnvelope);
    assert_eq!(expect_err("{\"id\":1,\"method\":\"m\"}"), DecodeError::InvalidEnvelope);
}

#[test]
fn refuses_response_envelopes() {
    assert_eq!(expect_err("{\"jsonrpc\":\"2.0\",\"id\":1,\"result\":{\"ok\":true}}"), DecodeError::UnsupportedResponse);
    assert_eq!(expect_err("{\"jsonrpc\":\"2.0\",\"id\":1,\"error\":{\"code\":-32600}}"), DecodeError::UnsupportedResponse);
}

#[test]
fn rejects_hybrid_envelopes() {
    assert_eq!(expect_err("{\"jsonrpc\":\"2.0\",\"id\":1,\"method\":\"m\",\"result\":3}"), DecodeError::InvalidEnvelope);
}

#[test]
fn encodes_request_exactly() {
    let line = encode_request(3, "window/workDoneProgress/create", "{\"token\":\"t\"}");
    assert_eq!(
        line,
        "{\"jsonrpc\":\"2.0\",\"id\":3,\"method\":\"window/workDoneProgress/create\",\"params\":{\"token\":\"t\"}}"
    );
}

#[test]
fn encodes_notification_exactly() {
    let line = encode_notification("initialized", "{}");
    assert_eq!(line, "{\"jsonrpc\":\"2.0\",\"method\":\"initialized\",\"params\":{}}");
}

#[test]
fn encoding_escapes_method_text() {
    let line = encode_notification("a\"b\\c\n", "null");
    assert_eq!(line, "{\"jsonrpc\":\"2.0\",\"method\":\"a\\\"b\\\\c\\n\",\"params\":null}");
}

#[test]
fn request_round_trips_through_the_codec() {
    let line = encode_request(7, "bar", "[1,{\"k\":\"v\"},\"s\"]");
    let (id, method, params) = expect_request(&line);
    assert_eq!(id, 7);
    assert_eq!(method, "bar");
    assert_eq!(params, "[1,{\"k\":\"v\"},\"s\"]");
}

#[test]
fn notification_round_trips_through_the_codec() {
    let line = encode_notification("window/logMessage", "{\"typ\":1,\"message\":\"x\"}");
    let (method, params) = expect_notification(&line);
    assert_eq!(method, "window/logMessage");
    assert_eq!(params, "{\"typ\":1,\"message\":\"x\"}");
}

#[test]
fn string_id_round_trips_to_the_same_numeric_value() {
    let (id, method, params) = expect_request(
        "{\"jsonrpc\":\"2.0\",\"id\":\"42\",\"method\":\"foo\",\"params\":{}}",
    );
    let reencoded = encode_request(id, &method, &params);
    let (id2, method2, params2) = expect_request(&reencoded);
    assert_eq!(id2, 42);
    assert_eq!(method2, "foo");
    assert_eq!(params2, "{}");
}

#[test]
fn encoded_lines_are_valid_json_to_an_independent_parser() {
    let line = encode_request(11, "a\"b", "{\"x\":[1,2,null]}");
    let v: serde_json::Value = serde_json::from_str(&line).expect("the encoder writes valid text");
    assert_eq!(v["jsonrpc"].as_str(), Some("2.0"));
    assert_eq!(v["id"].as_u64(), Some(11));
    assert_eq!(v["method"].as_str(), Some("a\"b"));
    assert_eq!(v["params"]["x"][2], serde_json::Value::Null);
}

#[test]
fn rejects_string_id_beyond_64_bits() {
    let r = expect_err(
        "{\"jsonrpc\":\"2.0\",\"id\":\"99999999999999999999999\",\"method\":\"foo\"}",
    );
    assert_eq!(r, DecodeError::InvalidId);
}

#[test]
fn tolerates_the_line_terminator() {
    let (method, _) = expect_notification("{\"jsonrpc\":\"2.0\",\"method\":\"m\"}\n");
    assert_eq!(method, "m");
}

#[test]
fn every_refusal_has_a_description() {
    assert_eq!(
        DecodeError::InvalidJson.describe(),
        "the line is not one well-formed object"
    );
    assert_eq!(DecodeError::InvalidEnvelope.describe(), "the object is no valid envelope");
    assert_eq!(DecodeError::InvalidId.describe(), "the id is not an unsigned 64-bit value");
    assert_eq!(
        DecodeError::UnsupportedResponse.describe(),
        "response envelopes have no handling path here"
    );
}
