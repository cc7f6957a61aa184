//! Tests of the message model: the handshake payloads and their exact
//! serializations.
use lsp_client::json::Json;
use lsp_client::json::to_bytes;
use lsp_client::parse::parse_json;
use lsp_client::protocol::NotificationMessage;
use lsp_client::protocol::RequestMessage;
use lsp_client::protocol::WorkspaceFolder;

fn get<'a>(v: &'a Json, key: &str) -> &'a Json {
    match v {
        Json::Obj(m) => {
            for (k, val) in m.iter() {
                if k.as_slice() == key.as_bytes() {
                    return val;
                }
            }
            panic!("missing key {}", key);
        }
        _ => panic!("not an object"),
    }
}

#[test]
fn test_initialize_message() {
    let process_id: u32 = 4242;
    let req = RequestMessage::new_initialize(
        1,
        process_id,
        "file://path/to/root".to_string(),
        "YourLSPClientName".to_string(),
        "1.0.0".to_string(),
        vec![WorkspaceFolder {
            uri: b"file://path/to/workspace".to_vec(),
            name: b"file://path/to/workspace".to_vec(),
        }],
    );
    let j = req.into_json();
    let bytes = to_bytes(&j);
    let expected = "{\"jsonrpc\":\"2.0\",\"id\":1,\"method\":\"initialize\",\"params\":{\"processId\":4242,\"rootUri\":\"file://path/to/root\",\"clientInfo\":{\"name\":\"YourLSPClientName\",\"version\":\"1.0.0\"},\"capabilities\":{\"workspace\":{\"workspaceFolders\":true,\"didChangeConfiguration\":{\"dynamicRegistration\":true},\"workspaceEdit\":{\"documentChanges\":true},\"configuration\":true},\"textDocument\":{\"hover\":{\"contentFormat\":[\"plaintext\"]},\"completion\":{\"completionItem\":{\"snippetSupport\":true}},\"codeAction\":{\"codeActionLiteralSupport\":{\"codeActionKind\":{\"valueSet\":[\"source.organizeImports\",\"refactor.rewrite\",\"refactor.extract\"]}}}}},\"workspaceFolders\":[{\"uri\":\"file://path/to/workspace\",\"name\":\"file://path/to/workspace\"}]}}";
    assert_eq!(String::from_utf8(bytes.clone()).unwrap(), expected);

    // Re-parsing the serialized body yields the same value, field for field.
    let parsed = parse_json(&bytes).expect("the serialized request must parse");
    assert_eq!(parsed, j);

    // The capability tree carries exactly the advertised support.
    let params = get(&parsed, "params");
    assert_eq!(*get(params, "processId"), Json::Int(4242));
    let caps = get(params, "capabilities");
    let ws = get(caps, "workspace");
    assert_eq!(*get(ws, "workspaceFolders"), Json::Bool(true));
    assert_eq!(
        *get(get(ws, "didChangeConfiguration"), "dynamicRegistration"),
        Json::Bool(true)
    );
    assert_eq!(*get(get(ws, "workspaceEdit"), "documentChanges"), Json::Bool(true));
    assert_eq!(*get(ws, "configuration"), Json::Bool(true));
    let td = get(caps, "textDocument");
    assert_eq!(
        *get(get(td, "hover"), "contentFormat"),
        Json::Arr(vec![Json::Str(b"plaintext".to_vec())])
    );
    assert_eq!(
        *get(get(get(td, "completion"), "completionItem"), "snippetSupport"),
        Json::Bool(true)
    );
    let kinds = get(
        get(get(get(td, "codeAction"), "codeActionLiteralSupport"), "codeActionKind"),
        "valueSet",
    );
    assert_eq!(
        *kinds,
        Json::Arr(vec![
            Json::Str(b"source.organizeImports".to_vec()),
            Json::Str(b"refactor.rewrite".to_vec()),
            Json::Str(b"refactor.extract".to_vec()),
        ])
    );
}

#[test]
fn test_initialized_notification() {
    let n = NotificationMessage::new_initialized();
    let bytes = to_bytes(&n.into_json());
    assert_eq!(
        String::from_utf8(bytes).unwrap(),
        "{\"jsonrpc\":\"2.0\",\"method\":\"initialized\",\"params\":{}}"
    );
}

#[test]
fn test_initialized_has_no_id_key() {
    let n = NotificationMessage::new_initialized();
    let j = n.into_json();
    match &j {
        Json::Obj(m) => {
            assert_eq!(m.len(), 3);
            assert!(m.iter().all(|(k, _)| k.as_slice() != b"id"));
        }
        _ => panic!("envelope must be an object"),
    }
}
