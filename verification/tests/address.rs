//! Tests of connection-address parsing.
use lsp_client::ProtocolError;
use lsp_client::address::ConnectionAddress;
use lsp_client::address::parse_address;

#[test]
fn test_parse_tcp_address() {
    match parse_address("tcp:127.0.0.1:8080") {
        Ok(ConnectionAddress::Tcp(t)) => assert_eq!(t, b"127.0.0.1:8080".to_vec()),
        _ => panic!("expected a tcp address"),
    }
}

#[test]
fn test_parse_unix_address() {
    match parse_address("unix:/tmp/server.sock") {
        Ok(ConnectionAddress::Unix(t)) => assert_eq!(t, b"/tmp/server.sock".to_vec()),
        _ => panic!("expected a unix address"),
    }
}

#[test]
fn test_rejects_unknown_scheme() {
    assert!(matches!(
        parse_address("http://example.com"),
        Err(ProtocolError::InvalidAddress)
    ));
    assert!(matches!(parse_address("tcps:1.2.3.4:1"), Err(ProtocolError::InvalidAddress)));
    assert!(matches!(parse_address("TCP:1.2.3.4:1"), Err(ProtocolError::InvalidAddress)));
}

#[test]
fn test_rejects_string_without_colon() {
    assert!(matches!(parse_address("localhost"), Err(ProtocolError::InvalidAddress)));
    assert!(matches!(parse_address(""), Err(ProtocolError::InvalidAddress)));
    assert!(matches!(parse_address("tcp"), Err(ProtocolError::InvalidAddress)));
}
