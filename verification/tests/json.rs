//! Tests of the JSON model: exact serializations, the parser's grammar,
//! and round trips between them.
use lsp_client::json::Json;
use lsp_client::json::to_bytes;
use lsp_client::parse::parse_json;
use lsp_client::frame::encode_frame;
use lsp_client::frame::parse_content_length;
use lsp_client::ProtocolError;

fn ser(v: &Json) -> String {
    String::from_utf8(to_bytes(v)).unwrap()
}

fn parse(s: &str) -> Option<Json> {
    parse_json(&s.as_bytes().to_vec())
}

#[test]
fn test_serialize_scalars() {
    assert_eq!(ser(&Json::Null), "null");
    assert_eq!(ser(&Json::Bool(true)), "true");
    assert_eq!(ser(&Json::Bool(false)), "false");
    assert_eq!(ser(&Json::Int(0)), "0");
    assert_eq!(ser(&Json::Int(1234567890)), "1234567890");
    assert_eq!(ser(&Json::Int(-42)), "-42");
    assert_eq!(ser(&Json::Int(i64::MIN)), "-9223372036854775808");
    assert_eq!(ser(&Json::Int(i64::MAX)), "9223372036854775807");
}

#[test]
fn test_serialize_string_escapes() {
    assert_eq!(ser(&Json::Str(b"plain".to_vec())), "\"plain\"");
    assert_eq!(ser(&Json::Str(b"a\"b".to_vec())), "\"a\\\"b\"");
    assert_eq!(ser(&Json::Str(b"a\\b".to_vec())), "\"a\\\\b\"");
    assert_eq!(ser(&Json::Str(b"a\nb\tc".to_vec())), "\"a\\nb\\tc\"");
    assert_eq!(ser(&Json::Str(vec![0x01])), "\"\\u0001\"");
    assert_eq!(ser(&Json::Str(vec![0x1f])), "\"\\u001f\"");
}

#[test]
fn test_serialize_composites() {
    let v = Json::Obj(vec![
        (b"a".to_vec(), Json::Arr(vec![Json::Int(1), Json::Null, Json::Bool(false)])),
        (b"b".to_vec(), Json::Obj(vec![])),
    ]);
    assert_eq!(ser(&v), "{\"a\":[1,null,false],\"b\":{}}");
}

#[test]
fn test_parse_scalars_and_whitespace() {
    assert_eq!(parse(" null "), Some(Json::Null));
    assert_eq!(parse("\r\n\ttrue"), Some(Json::Bool(true)));
    assert_eq!(parse("false"), Some(Json::Bool(false)));
    assert_eq!(parse("-7"), Some(Json::Int(-7)));
    assert_eq!(parse("0"), Some(Json::Int(0)));
    assert_eq!(parse("9223372036854775807"), Some(Json::Int(i64::MAX)));
    assert_eq!(parse("-9223372036854775808"), Some(Json::Int(i64::MIN)));
}

#[test]
fn test_parse_rejects_malformed_input() {
    assert_eq!(parse(""), None);
    assert_eq!(parse("tru"), None);
    assert_eq!(parse("nulll"), None);
    assert_eq!(parse("01"), None);
    assert_eq!(parse("-"), None);
    assert_eq!(parse("9223372036854775808"), Some(Json::Num(b"9223372036854775808".to_vec())));
    assert_eq!(
        parse("-9223372036854775809"),
        Some(Json::Num(b"-9223372036854775809".to_vec()))
    );
    assert_eq!(parse("1 2"), None);
    assert_eq!(parse("{\"a\":1,}"), None);
    assert_eq!(parse("[1,]"), None);
    assert_eq!(parse("{\"a\" 1}"), None);
    assert_eq!(parse("\"unterminated"), None);
    assert_eq!(parse("{1:2}"), None);
    assert_eq!(parse("1."), None);
    assert_eq!(parse("1e"), None);
    assert_eq!(parse(".5"), None);
    assert_eq!(parse("1.e3"), None);
    assert_eq!(parse("\"\\u12\""), None);
    assert_eq!(parse("\"\\uzzzz\""), None);
    assert_eq!(parse("\"\\ud800\""), None);
    assert_eq!(parse("\"\\ude00\""), None);
    assert_eq!(parse("\"\\ud83d\\u0041\""), None);
}

#[test]
fn test_parse_strings_with_escapes() {
    assert_eq!(parse("\"a\\\"b\""), Some(Json::Str(b"a\"b".to_vec())));
    assert_eq!(parse("\"a\\\\b\""), Some(Json::Str(b"a\\b".to_vec())));
    assert_eq!(parse("\"a\\nb\\tc\\r\""), Some(Json::Str(b"a\nb\tc\r".to_vec())));
    assert_eq!(parse("\"\\/\""), Some(Json::Str(b"/".to_vec())));
}

#[test]
fn test_parse_composites() {
    assert_eq!(
        parse("[ 1 , [true, null] , \"x\" ]"),
        Some(Json::Arr(vec![
            Json::Int(1),
            Json::Arr(vec![Json::Bool(true), Json::Null]),
            Json::Str(b"x".to_vec()),
        ]))
    );
    assert_eq!(
        parse("{ \"k\" : { \"n\" : -5 } }"),
        Some(Json::Obj(vec![(
            b"k".to_vec(),
            Json::Obj(vec![(b"n".to_vec(), Json::Int(-5))])
        )]))
    );
    assert_eq!(parse("[]"), Some(Json::Arr(vec![])));
    assert_eq!(parse("{}"), Some(Json::Obj(vec![])));
}

#[test]
fn test_round_trip() {
    let values = vec![
        Json::Null,
        Json::Int(-123456),
        Json::Str(b"quote \" slash \\ and\nnewline".to_vec()),
        Json::Arr(vec![Json::Obj(vec![(b"deep".to_vec(), Json::Arr(vec![Json::Int(0)]))])]),
        Json::Obj(vec![
            (b"x".to_vec(), Json::Bool(true)),
            (b"x".to_vec(), Json::Bool(false)),
        ]),
    ];
    for v in values {
        let bytes = to_bytes(&v);
        assert_eq!(parse_json(&bytes), Some(v));
    }
}

#[test]
fn test_encode_frame_exact_bytes() {
    assert_eq!(encode_frame(&Vec::new()), b"Content-Length: 0\r\n\r\n".to_vec());
    assert_eq!(
        encode_frame(&b"{}".to_vec()),
        b"Content-Length: 2\r\n\r\n{}".to_vec()
    );
}

#[test]
fn test_parse_content_length_values() {
    let ok = |h: &str| parse_content_length(&h.as_bytes().to_vec());
    assert_eq!(ok("Content-Length: 13\r\n\r\n"), Ok(13));
    assert_eq!(ok("Content-Length:0\r\n\r\n"), Ok(0));
    assert_eq!(ok("Content-Length: 007 \r\n\r\n"), Ok(7));
    assert_eq!(ok("Other: 1\r\nContent-Length: 5\r\n\r\n"), Ok(5));
    assert_eq!(ok("Other: 1\r\n\r\n"), Err(ProtocolError::MissingContentLength));
    assert_eq!(ok("content-length: 5\r\n\r\n"), Err(ProtocolError::MissingContentLength));
    assert_eq!(ok("Content-Length: \r\n\r\n"), Err(ProtocolError::MalformedHeader));
    assert_eq!(ok("Content-Length: -1\r\n\r\n"), Err(ProtocolError::MalformedHeader));
    assert_eq!(
        ok("Content-Length: 99999999999999999999999\r\n\r\n"),
        Err(ProtocolError::MalformedHeader)
    );
}

#[test]
fn test_parse_unicode_escapes() {
    assert_eq!(parse("\"\\u0041\""), Some(Json::Str(b"A".to_vec())));
    assert_eq!(parse("\"\\u00e9\""), Some(Json::Str(vec![0xC3, 0xA9])));
    assert_eq!(parse("\"\\u20AC\""), Some(Json::Str(vec![0xE2, 0x82, 0xAC])));
    assert_eq!(
        parse("\"\\ud83d\\ude00\""),
        Some(Json::Str(vec![0xF0, 0x9F, 0x98, 0x80]))
    );
    assert_eq!(parse("\"\\u0001\""), Some(Json::Str(vec![0x01])));
}

#[test]
fn test_parse_number_tokens() {
    assert_eq!(parse("1.5"), Some(Json::Num(b"1.5".to_vec())));
    assert_eq!(parse("-0.25"), Some(Json::Num(b"-0.25".to_vec())));
    assert_eq!(parse("1e10"), Some(Json::Num(b"1e10".to_vec())));
    assert_eq!(parse("6.022E+23"), Some(Json::Num(b"6.022E+23".to_vec())));
    assert_eq!(parse("1E-3"), Some(Json::Num(b"1E-3".to_vec())));
    assert_eq!(
        parse("[33.5, 2, 99999999999999999999]"),
        Some(Json::Arr(vec![
            Json::Num(b"33.5".to_vec()),
            Json::Int(2),
            Json::Num(b"99999999999999999999".to_vec()),
        ]))
    );
}

#[test]
fn test_number_tokens_round_trip() {
    let v = Json::Obj(vec![(b"rate".to_vec(), Json::Num(b"1.5e-3".to_vec()))]);
    let bytes = to_bytes(&v);
    assert_eq!(String::from_utf8(bytes.clone()).unwrap(), "{\"rate\":1.5e-3}");
    assert_eq!(parse_json(&bytes), Some(v));
}

#[test]
fn test_control_byte_string_round_trips() {
    let v = Json::Str(vec![0x01, 0x1f, b'a']);
    let bytes = to_bytes(&v);
    assert_eq!(String::from_utf8(bytes.clone()).unwrap(), "\"\\u0001\\u001fa\"");
    assert_eq!(parse_json(&bytes), Some(v));
}
