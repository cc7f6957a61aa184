//! Tests of the framing client: the send path's exact bytes, and the
//! receive state machine over preloaded streams.
use lsp_client::ProtocolError;
use lsp_client::client::LspClient;
use lsp_client::client::Received;
use lsp_client::client::frame_json;
use lsp_client::client::scan_response;
use lsp_client::json::Json;
use lsp_client::json::to_bytes;
use lsp_client::protocol::RequestMessage;
use lsp_client::protocol::ResponseMessage;

fn frame_of(body: &str) -> Vec<u8> {
    format!("Content-Length: {}\r\n\r\n{}", body.len(), body).into_bytes()
}

#[test]
fn test_send_request_and_response() {
    let request = RequestMessage::new_initialize(
        1,
        77,
        "file:///tmp".into(),
        "unit_test_client".into(),
        "0.1.0".into(),
        vec![],
    );
    let request_json = request.into_json();
    let body = to_bytes(&request_json);
    let wire = frame_json(&request_json);
    let mut expected = format!("Content-Length: {}\r\n\r\n", body.len()).into_bytes();
    expected.extend_from_slice(&body);
    assert_eq!(wire, expected);

    // The server answers with a minimal response frame carrying id 1.
    let response_payload = "{\"jsonrpc\":\"2.0\",\"id\":1,\"result\":{}}";
    let server_response = frame_of(response_payload);

    let mut client = LspClient::new();
    client.push_bytes(&server_response);
    match client.try_receive() {
        Received::Response(v, consumed) => {
            assert_eq!(consumed, server_response.len());
            let resp = ResponseMessage::from_json(&v).unwrap();
            assert_eq!(resp.base_message.jsonrpc, b"2.0".to_vec());
            assert_eq!(resp.id, Json::Int(1));
            assert_eq!(resp.result, Some(Json::Obj(vec![])));
            assert_eq!(resp.error, None);
        }
        _ => panic!("expected a response"),
    }
}

#[test]
fn test_skips_notification_then_returns_response() {
    let notification = "{\"jsonrpc\":\"2.0\",\"method\":\"window/logMessage\",\"params\":{}}";
    let response = "{\"jsonrpc\":\"2.0\",\"id\":7,\"result\":null}";
    let mut stream = frame_of(notification);
    stream.extend_from_slice(&frame_of(response));
    let total = stream.len();
    stream.extend_from_slice(b"trailing");

    match scan_response(&stream) {
        Received::Response(v, consumed) => {
            assert_eq!(consumed, total);
            let resp = ResponseMessage::from_json(&v).unwrap();
            assert_eq!(resp.id, Json::Int(7));
            assert_eq!(resp.result, Some(Json::Null));
        }
        _ => panic!("expected a response"),
    }
}

#[test]
fn test_consumes_exactly_one_frame_and_leaves_the_rest() {
    let response = "{\"jsonrpc\":\"2.0\",\"id\":3,\"result\":true}";
    let frame = frame_of(response);
    let mut stream = frame.clone();
    stream.extend_from_slice(b"\x00\x01garbage that must stay untouched");

    match scan_response(&stream) {
        Received::Response(_, consumed) => assert_eq!(consumed, frame.len()),
        _ => panic!("expected a response"),
    }
}

#[test]
fn test_missing_content_length_consumes_only_header() {
    let mut stream = b"X-Custom: 1\r\n\r\n".to_vec();
    let header_len = stream.len();
    stream.extend_from_slice(b"{\"jsonrpc\":\"2.0\",\"id\":1}");
    match scan_response(&stream) {
        Received::Failed(kind, consumed, body) => {
            assert_eq!(kind, ProtocolError::MissingContentLength);
            assert_eq!(consumed, header_len);
            assert!(body.is_empty());
        }
        _ => panic!("expected a failure"),
    }
}

#[test]
fn test_malformed_header_value() {
    let stream = b"Content-Length: twelve\r\n\r\n".to_vec();
    match scan_response(&stream) {
        Received::Failed(kind, _, _) => assert_eq!(kind, ProtocolError::MalformedHeader),
        _ => panic!("expected a failure"),
    }
}

#[test]
fn test_malformed_body() {
    let stream = frame_of("not json at all");
    match scan_response(&stream) {
        Received::Failed(kind, consumed, body) => {
            assert_eq!(kind, ProtocolError::MalformedBody);
            assert_eq!(consumed, stream.len());
            assert_eq!(body, b"not json at all".to_vec());
        }
        _ => panic!("expected a failure"),
    }
}

#[test]
fn test_id_less_object_is_discarded_even_with_null_id() {
    let first = "{\"jsonrpc\":\"2.0\",\"id\":null,\"result\":{}}";
    let second = "{\"jsonrpc\":\"2.0\",\"id\":9,\"result\":{}}";
    let mut stream = frame_of(first);
    stream.extend_from_slice(&frame_of(second));
    match scan_response(&stream) {
        Received::Response(v, _) => {
            let resp = ResponseMessage::from_json(&v).unwrap();
            assert_eq!(resp.id, Json::Int(9));
        }
        _ => panic!("expected a response"),
    }
}

#[test]
fn test_incremental_feeding() {
    let response = "{\"jsonrpc\":\"2.0\",\"id\":2,\"result\":\"ok\"}";
    let frame = frame_of(response);
    let (first_half, second_half) = frame.split_at(10);

    let mut client = LspClient::new();
    client.push_bytes(first_half);
    assert!(matches!(client.try_receive(), Received::NeedMore));
    client.push_bytes(second_half);
    match client.try_receive() {
        Received::Response(v, consumed) => {
            assert_eq!(consumed, frame.len());
            let resp = ResponseMessage::from_json(&v).unwrap();
            assert_eq!(resp.id, Json::Int(2));
            assert_eq!(resp.result, Some(Json::Str(b"ok".to_vec())));
        }
        _ => panic!("expected a response"),
    }
}

#[test]
fn test_header_value_is_trimmed_and_case_matters() {
    let body = "{\"jsonrpc\":\"2.0\",\"id\":1,\"result\":0}";
    let stream = format!("Content-Length:   {}  \r\n\r\n{}", body.len(), body).into_bytes();
    match scan_response(&stream) {
        Received::Response(v, _) => {
            let resp = ResponseMessage::from_json(&v).unwrap();
            assert_eq!(resp.result, Some(Json::Int(0)));
        }
        _ => panic!("expected a response"),
    }
}

#[test]
fn test_body_without_jsonrpc_member_is_malformed() {
    let stream = frame_of("{\"a\":1,\"id\":1}");
    match scan_response(&stream) {
        Received::Failed(kind, _, _) => assert_eq!(kind, ProtocolError::MalformedBody),
        _ => panic!("expected a failure"),
    }
}

#[test]
fn test_try_receive_leaves_trailing_bytes_buffered() {
    let response = "{\"jsonrpc\":\"2.0\",\"id\":5,\"result\":1}";
    let frame = frame_of(response);
    let trailing = b"Content-Len".to_vec();

    let mut client = LspClient::new();
    client.push_bytes(&frame);
    client.push_bytes(&trailing);
    match client.try_receive() {
        Received::Response(_, consumed) => {
            assert_eq!(consumed, frame.len());
            assert_eq!(client.buffered(), trailing.len());
        }
        _ => panic!("expected a response"),
    }
    assert!(matches!(client.try_receive(), Received::NeedMore));
    assert_eq!(client.buffered(), trailing.len());
}

#[test]
fn test_minimal_padded_response_shape_yields_id() {
    // An extra unknown member is fine as long as the body is an object
    // with a jsonrpc string; result and error may be absent.
    let stream = frame_of("{\"a\":1,\"id\":1,\"jsonrpc\":\"2.0\"}");
    match scan_response(&stream) {
        Received::Response(v, _) => {
            let resp = ResponseMessage::from_json(&v).unwrap();
            assert_eq!(resp.id, Json::Int(1));
            assert_eq!(resp.result, None);
            assert_eq!(resp.error, None);
        }
        _ => panic!("expected a response"),
    }
}

#[test]
fn test_notification_with_fraction_is_discarded() {
    // A legal id-less message whose params carry fractions and exponents
    // must be silently discarded, not treated as a malformed body.
    let notification =
        "{\"jsonrpc\":\"2.0\",\"method\":\"$/progress\",\"params\":{\"value\":{\"percentage\":33.5,\"rate\":1e-3}}}";
    let response = "{\"jsonrpc\":\"2.0\",\"id\":4,\"result\":{}}";
    let mut stream = frame_of(notification);
    stream.extend_from_slice(&frame_of(response));
    match scan_response(&stream) {
        Received::Response(v, consumed) => {
            assert_eq!(consumed, stream.len());
            let resp = ResponseMessage::from_json(&v).unwrap();
            assert_eq!(resp.id, Json::Int(4));
        }
        _ => panic!("expected a response"),
    }
}

#[test]
fn test_notification_with_unicode_escape_is_discarded() {
    let notification =
        "{\"jsonrpc\":\"2.0\",\"method\":\"window/showMessage\",\"params\":{\"message\":\"caf\\u00e9 \\ud83d\\ude00\"}}";
    let response = "{\"jsonrpc\":\"2.0\",\"id\":6,\"result\":null}";
    let mut stream = frame_of(notification);
    stream.extend_from_slice(&frame_of(response));
    match scan_response(&stream) {
        Received::Response(v, _) => {
            let resp = ResponseMessage::from_json(&v).unwrap();
            assert_eq!(resp.id, Json::Int(6));
        }
        _ => panic!("expected a response"),
    }
}
