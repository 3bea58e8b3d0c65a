//! Tests for the response-field extractor and the call orchestrator's
//! decisions: the session lifecycle's requests and response handling.

use xapi_cli::error::ErrorKind;
use xapi_cli::extract::{extract_field, extract_session};
use xapi_cli::json::JsonValue;
use xapi_cli::orchestrate::{handle_login, handle_target, login_call, logout_call, target_call};
use xapi_cli::value::Value;

fn record(fields: Vec<(&str, Value)>) -> Value {
    Value::Struct(
        fields
            .into_iter()
            .map(|(name, value)| (String::from(name), value))
            .collect(),
    )
}

#[test]
fn extract_field_returns_the_named_field() {
    let response = record(vec![("Value", Value::Str(String::from("abc")))]);
    match extract_field(&response, "Value") {
        Ok(Value::Str(s)) => assert_eq!(s, "abc"),
        _ => panic!("expected the string field"),
    }
}

#[test]
fn extract_field_misses_absent_names() {
    let response = record(vec![]);
    match extract_field(&response, "Value") {
        Err(e) => assert_eq!(e, ErrorKind::MissingField),
        _ => panic!("expected a failure"),
    }
    let response = record(vec![("Status", Value::Str(String::from("Success")))]);
    match extract_field(&response, "Value") {
        Err(e) => assert_eq!(e, ErrorKind::MissingField),
        _ => panic!("expected a failure"),
    }
}

#[test]
fn extract_field_rejects_unstructured_responses() {
    match extract_field(&Value::Array(Vec::new()), "Value") {
        Err(e) => assert_eq!(e, ErrorKind::MalformedResponse),
        _ => panic!("expected a failure"),
    }
    match extract_field(&Value::Str(String::from("nope")), "Value") {
        Err(e) => assert_eq!(e, ErrorKind::MalformedResponse),
        _ => panic!("expected a failure"),
    }
}

#[test]
fn extract_session_requires_a_string_token() {
    let ok = record(vec![("Value", Value::Str(String::from("sess123")))]);
    assert_eq!(extract_session(&ok).unwrap(), "sess123");

    let wrong_type = record(vec![("Value", Value::Int64(3))]);
    match extract_session(&wrong_type) {
        Err(e) => assert_eq!(e, ErrorKind::UnexpectedType),
        _ => panic!("expected a failure"),
    }
}

#[test]
fn login_call_names_the_method_and_credentials() {
    let c = login_call("guest", "secret");
    assert_eq!(c.method, "session.login_with_password");
    assert_eq!(c.args.len(), 2);
    assert!(matches!(&c.args[0], Value::Str(s) if s == "guest"));
    assert!(matches!(&c.args[1], Value::Str(s) if s == "secret"));
}

#[test]
fn target_call_prepends_the_session_token() {
    let args = vec![Value::Int64(5), Value::Str(String::from("x"))];
    let c = target_call("VM", "get_all", "sess123", args);
    assert_eq!(c.method, "VM.get_all");
    assert_eq!(c.args.len(), 3);
    assert!(matches!(&c.args[0], Value::Str(s) if s == "sess123"));
    assert!(matches!(c.args[1], Value::Int64(5)));
    assert!(matches!(&c.args[2], Value::Str(s) if s == "x"));
}

#[test]
fn logout_call_carries_only_the_token() {
    let c = logout_call("sess123");
    assert_eq!(c.method, "session.logout");
    assert_eq!(c.args.len(), 1);
    assert!(matches!(&c.args[0], Value::Str(s) if s == "sess123"));
}

#[test]
fn a_full_invocation_round() {
    // Login succeeds and yields the token.
    let login_response = record(vec![("Value", Value::Str(String::from("sess123")))]);
    let session = handle_login(&Ok(login_response)).expect("login should succeed");
    assert_eq!(session, "sess123");

    // The target call carries the token and no further arguments.
    let c = target_call("VM", "get_all", &session, Vec::new());
    assert_eq!(c.method, "VM.get_all");
    assert_eq!(c.args.len(), 1);

    // The target response's payload becomes the JSON document, keys in
    // response order.
    let target_response = record(vec![(
        "Value",
        record(vec![
            ("uuid", Value::Str(String::from("x"))),
            ("count", Value::Int32(3)),
        ]),
    )]);
    match handle_target(&Ok(target_response)) {
        Ok(JsonValue::Object(fields)) => {
            assert_eq!(fields.len(), 2);
            assert_eq!(fields[0].0, "uuid");
            assert!(matches!(&fields[0].1, JsonValue::Str(s) if s == "x"));
            assert_eq!(fields[1].0, "count");
            assert!(matches!(fields[1].1, JsonValue::NumInt(3)));
        }
        _ => panic!("expected the payload object"),
    }

    // The closing logout names the same token.
    let logout = logout_call(&session);
    assert!(matches!(&logout.args[0], Value::Str(s) if s == "sess123"));
}

#[test]
fn a_transport_failure_at_login_is_fatal() {
    match handle_login(&Err(ErrorKind::TransportError)) {
        Err(e) => assert_eq!(e, ErrorKind::TransportError),
        _ => panic!("expected the transport failure to propagate"),
    }
}

#[test]
fn a_transport_failure_at_the_target_call_is_fatal() {
    match handle_target(&Err(ErrorKind::TransportError)) {
        Err(e) => assert_eq!(e, ErrorKind::TransportError),
        _ => panic!("expected the transport failure to propagate"),
    }
}

#[test]
fn target_payload_errors_propagate() {
    // A payload with a NaN double cannot become a document.
    let response = record(vec![(
        "Value",
        record(vec![("bad", Value::Float64(f64::NAN.to_bits()))]),
    )]);
    match handle_target(&Ok(response)) {
        Err(e) => assert_eq!(e, ErrorKind::UnrepresentableNumber),
        _ => panic!("expected a failure"),
    }

    // A response that is not a record fails the extraction.
    match handle_target(&Ok(Value::Null)) {
        Err(e) => assert_eq!(e, ErrorKind::MalformedResponse),
        _ => panic!("expected a failure"),
    }
}
