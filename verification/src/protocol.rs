//! The JSON-RPC / LSP message model: the envelope shapes, the `initialize`
//! handshake payload with its capability tree, and the conversions between
//! typed messages and JSON values.
//!
//! Text is held as raw UTF-8 bytes, so that a message's JSON value — and
//! through the serializer its exact wire bytes — is a pure function of its
//! fields.
use vstd::prelude::*;

use crate::ProtocolError;
use crate::client::key_id;
use crate::client::key_jsonrpc;
use crate::json::Json;
use crate::json::JsonView;
use crate::json::clone_json;
use crate::json::json_bytes;
use crate::json::lemma_escape_plain;
use crate::json::spec_obj_members;
use crate::json::spec_string_bytes;
use crate::parse::spec_clean_json;
use crate::json::copy_bytes;
use crate::json::json_view;
use crate::json::lemma_member_views_len;
use crate::json::member_views;
use crate::json::obj_get;
use crate::json::spec_obj_lookup;
use vstd::slice::slice_to_vec;
use vstd::utf8::encode_utf8;

verus! {

/// The bytes of `method`.
pub open spec fn key_method() -> Seq<u8> {
    seq![109u8, 101u8, 116u8, 104u8, 111u8, 100u8]
}

fn kb_method() -> (r: Vec<u8>)
    ensures
        r@ == key_method(),
{
    let r: Vec<u8> = vec![109u8, 101u8, 116u8, 104u8, 111u8, 100u8];
    proof {
        assert(r@ =~= key_method());
    }
    r
}

/// The bytes of `params`.
pub open spec fn key_params() -> Seq<u8> {
    seq![112u8, 97u8, 114u8, 97u8, 109u8, 115u8]
}

fn kb_params() -> (r: Vec<u8>)
    ensures
        r@ == key_params(),
{
    let r: Vec<u8> = vec![112u8, 97u8, 114u8, 97u8, 109u8, 115u8];
    proof {
        assert(r@ =~= key_params());
    }
    r
}

/// The bytes of `result`.
pub open spec fn key_result() -> Seq<u8> {
    seq![114u8, 101u8, 115u8, 117u8, 108u8, 116u8]
}

fn kb_result() -> (r: Vec<u8>)
    ensures
        r@ == key_result(),
{
    let r: Vec<u8> = vec![114u8, 101u8, 115u8, 117u8, 108u8, 116u8];
    proof {
        assert(r@ =~= key_result());
    }
    r
}

/// The bytes of `error`.
pub open spec fn key_error() -> Seq<u8> {
    seq![101u8, 114u8, 114u8, 111u8, 114u8]
}

fn kb_error() -> (r: Vec<u8>)
    ensures
        r@ == key_error(),
{
    let r: Vec<u8> = vec![101u8, 114u8, 114u8, 111u8, 114u8];
    proof {
        assert(r@ =~= key_error());
    }
    r
}

/// The bytes of `processId`.
pub open spec fn key_process_id() -> Seq<u8> {
    seq![112u8, 114u8, 111u8, 99u8, 101u8, 115u8, 115u8, 73u8, 100u8]
}

fn kb_process_id() -> (r: Vec<u8>)
    ensures
        r@ == key_process_id(),
{
    let r: Vec<u8> = vec![112u8, 114u8, 111u8, 99u8, 101u8, 115u8, 115u8, 73u8, 100u8];
    proof {
        assert(r@ =~= key_process_id());
    }
    r
}

/// The bytes of `rootUri`.
pub open spec fn key_root_uri() -> Seq<u8> {
    seq![114u8, 111u8, 111u8, 116u8, 85u8, 114u8, 105u8]
}

fn kb_root_uri() -> (r: Vec<u8>)
    ensures
        r@ == key_root_uri(),
{
    let r: Vec<u8> = vec![114u8, 111u8, 111u8, 116u8, 85u8, 114u8, 105u8];
    proof {
        assert(r@ =~= key_root_uri());
    }
    r
}

/// The bytes of `clientInfo`.
pub open spec fn key_client_info() -> Seq<u8> {
    seq![99u8, 108u8, 105u8, 101u8, 110u8, 116u8, 73u8, 110u8, 102u8, 111u8]
}

fn kb_client_info() -> (r: Vec<u8>)
    ensures
        r@ == key_client_info(),
{
    let r: Vec<u8> = vec![99u8, 108u8, 105u8, 101u8, 110u8, 116u8, 73u8, 110u8, 102u8, 111u8];
    proof {
        assert(r@ =~= key_client_info());
    }
    r
}

/// The bytes of `name`.
pub open spec fn key_name() -> Seq<u8> {
    seq![110u8, 97u8, 109u8, 101u8]
}

fn kb_name() -> (r: Vec<u8>)
    ensures
        r@ == key_name(),
{
    let r: Vec<u8> = vec![110u8, 97u8, 109u8, 101u8];
    proof {
        assert(r@ =~= key_name());
    }
    r
}

/// The bytes of `version`.
pub open spec fn key_version() -> Seq<u8> {
    seq![118u8, 101u8, 114u8, 115u8, 105u8, 111u8, 110u8]
}

fn kb_version() -> (r: Vec<u8>)
    ensures
        r@ == key_version(),
{
    let r: Vec<u8> = vec![118u8, 101u8, 114u8, 115u8, 105u8, 111u8, 110u8];
    proof {
        assert(r@ =~= key_version());
    }
    r
}

/// The bytes of `capabilities`.
pub open spec fn key_capabilities() -> Seq<u8> {
    seq![99u8, 97u8, 112u8, 97u8, 98u8, 105u8, 108u8, 105u8, 116u8, 105u8, 101u8, 115u8]
}

fn kb_capabilities() -> (r: Vec<u8>)
    ensures
        r@ == key_capabilities(),
{
    let r: Vec<u8> = vec![99u8, 97u8, 112u8, 97u8, 98u8, 105u8, 108u8, 105u8, 116u8, 105u8, 101u8, 115u8];
    proof {
        assert(r@ =~= key_capabilities());
    }
    r
}

/// The bytes of `workspace`.
pub open spec fn key_workspace() -> Seq<u8> {
    seq![119u8, 111u8, 114u8, 107u8, 115u8, 112u8, 97u8, 99u8, 101u8]
}

fn kb_workspace() -> (r: Vec<u8>)
    ensures
        r@ == key_workspace(),
{
    let r: Vec<u8> = vec![119u8, 111u8, 114u8, 107u8, 115u8, 112u8, 97u8, 99u8, 101u8];
    proof {
        assert(r@ =~= key_workspace());
    }
    r
}

/// The bytes of `textDocument`.
pub open spec fn key_text_document() -> Seq<u8> {
    seq![116u8, 101u8, 120u8, 116u8, 68u8, 111u8, 99u8, 117u8, 109u8, 101u8, 110u8, 116u8]
}

fn kb_text_document() -> (r: Vec<u8>)
    ensures
        r@ == key_text_document(),
{
    let r: Vec<u8> = vec![116u8, 101u8, 120u8, 116u8, 68u8, 111u8, 99u8, 117u8, 109u8, 101u8, 110u8, 116u8];
    proof {
        assert(r@ =~= key_text_document());
    }
    r
}

/// The bytes of `workspaceFolders`.
pub open spec fn key_workspace_folders() -> Seq<u8> {
    seq![119u8, 111u8, 114u8, 107u8, 115u8, 112u8, 97u8, 99u8, 101u8, 70u8, 111u8, 108u8, 100u8, 101u8, 114u8, 115u8]
}

fn kb_workspace_folders() -> (r: Vec<u8>)
    ensures
        r@ == key_workspace_folders(),
{
    let r: Vec<u8> = vec![119u8, 111u8, 114u8, 107u8, 115u8, 112u8, 97u8, 99u8, 101u8, 70u8, 111u8, 108u8, 100u8, 101u8, 114u8, 115u8];
    proof {
        assert(r@ =~= key_workspace_folders());
    }
    r
}

/// The bytes of `didChangeConfiguration`.
pub open spec fn key_did_change_configuration() -> Seq<u8> {
    seq![100u8, 105u8, 100u8, 67u8, 104u8, 97u8, 110u8, 103u8, 101u8, 67u8, 111u8, 110u8, 102u8, 105u8, 103u8, 117u8, 114u8, 97u8, 116u8, 105u8, 111u8, 110u8]
}

fn kb_did_change_configuration() -> (r: Vec<u8>)
    ensures
        r@ == key_did_change_configuration(),
{
    let r: Vec<u8> = vec![100u8, 105u8, 100u8, 67u8, 104u8, 97u8, 110u8, 103u8, 101u8, 67u8, 111u8, 110u8, 102u8, 105u8, 103u8, 117u8, 114u8, 97u8, 116u8, 105u8, 111u8, 110u8];
    proof {
        assert(r@ =~= key_did_change_configuration());
    }
    r
}

/// The bytes of `dynamicRegistration`.
pub open spec fn key_dynamic_registration() -> Seq<u8> {
    seq![100u8, 121u8, 110u8, 97u8, 109u8, 105u8, 99u8, 82u8, 101u8, 103u8, 105u8, 115u8, 116u8, 114u8, 97u8, 116u8, 105u8, 111u8, 110u8]
}

fn kb_dynamic_registration() -> (r: Vec<u8>)
    ensures
        r@ == key_dynamic_registration(),
{
    let r: Vec<u8> = vec![100u8, 121u8, 110u8, 97u8, 109u8, 105u8, 99u8, 82u8, 101u8, 103u8, 105u8, 115u8, 116u8, 114u8, 97u8, 116u8, 105u8, 111u8, 110u8];
    proof {
        assert(r@ =~= key_dynamic_registration());
    }
    r
}

/// The bytes of `workspaceEdit`.
pub open spec fn key_workspace_edit() -> Seq<u8> {
    seq![119u8, 111u8, 114u8, 107u8, 115u8, 112u8, 97u8, 99u8, 101u8, 69u8, 100u8, 105u8, 116u8]
}

fn kb_workspace_edit() -> (r: Vec<u8>)
    ensures
        r@ == key_workspace_edit(),
{
    let r: Vec<u8> = vec![119u8, 111u8, 114u8, 107u8, 115u8, 112u8, 97u8, 99u8, 101u8, 69u8, 100u8, 105u8, 116u8];
    proof {
        assert(r@ =~= key_workspace_edit());
    }
    r
}

/// The bytes of `documentChanges`.
pub open spec fn key_document_changes() -> Seq<u8> {
    seq![100u8, 111u8, 99u8, 117u8, 109u8, 101u8, 110u8, 116u8, 67u8, 104u8, 97u8, 110u8, 103u8, 101u8, 115u8]
}

fn kb_document_changes() -> (r: Vec<u8>)
    ensures
        r@ == key_document_changes(),
{
    let r: Vec<u8> = vec![100u8, 111u8, 99u8, 117u8, 109u8, 101u8, 110u8, 116u8, 67u8, 104u8, 97u8, 110u8, 103u8, 101u8, 115u8];
    proof {
        assert(r@ =~= key_document_changes());
    }
    r
}

/// The bytes of `configuration`.
pub open spec fn key_configuration() -> Seq<u8> {
    seq![99u8, 111u8, 110u8, 102u8, 105u8, 103u8, 117u8, 114u8, 97u8, 116u8, 105u8, 111u8, 110u8]
}

fn kb_configuration() -> (r: Vec<u8>)
    ensures
        r@ == key_configuration(),
{
    let r: Vec<u8> = vec![99u8, 111u8, 110u8, 102u8, 105u8, 103u8, 117u8, 114u8, 97u8, 116u8, 105u8, 111u8, 110u8];
    proof {
        assert(r@ =~= key_configuration());
    }
    r
}

/// The bytes of `hover`.
pub open spec fn key_hover() -> Seq<u8> {
    seq![104u8, 111u8, 118u8, 101u8, 114u8]
}

fn kb_hover() -> (r: Vec<u8>)
    ensures
        r@ == key_hover(),
{
    let r: Vec<u8> = vec![104u8, 111u8, 118u8, 101u8, 114u8];
    proof {
        assert(r@ =~= key_hover());
    }
    r
}

/// The bytes of `contentFormat`.
pub open spec fn key_content_format() -> Seq<u8> {
    seq![99u8, 111u8, 110u8, 116u8, 101u8, 110u8, 116u8, 70u8, 111u8, 114u8, 109u8, 97u8, 116u8]
}

fn kb_content_format() -> (r: Vec<u8>)
    ensures
        r@ == key_content_format(),
{
    let r: Vec<u8> = vec![99u8, 111u8, 110u8, 116u8, 101u8, 110u8, 116u8, 70u8, 111u8, 114u8, 109u8, 97u8, 116u8];
    proof {
        assert(r@ =~= key_content_format());
    }
    r
}

/// The bytes of `completion`.
pub open spec fn key_completion() -> Seq<u8> {
    seq![99u8, 111u8, 109u8, 112u8, 108u8, 101u8, 116u8, 105u8, 111u8, 110u8]
}

fn kb_completion() -> (r: Vec<u8>)
    ensures
        r@ == key_completion(),
{
    let r: Vec<u8> = vec![99u8, 111u8, 109u8, 112u8, 108u8, 101u8, 116u8, 105u8, 111u8, 110u8];
    proof {
        assert(r@ =~= key_completion());
    }
    r
}

/// The bytes of `completionItem`.
pub open spec fn key_completion_item() -> Seq<u8> {
    seq![99u8, 111u8, 109u8, 112u8, 108u8, 101u8, 116u8, 105u8, 111u8, 110u8, 73u8, 116u8, 101u8, 109u8]
}

fn kb_completion_item() -> (r: Vec<u8>)
    ensures
        r@ == key_completion_item(),
{
    let r: Vec<u8> = vec![99u8, 111u8, 109u8, 112u8, 108u8, 101u8, 116u8, 105u8, 111u8, 110u8, 73u8, 116u8, 101u8, 109u8];
    proof {
        assert(r@ =~= key_completion_item());
    }
    r
}

/// The bytes of `snippetSupport`.
pub open spec fn key_snippet_support() -> Seq<u8> {
    seq![115u8, 110u8, 105u8, 112u8, 112u8, 101u8, 116u8, 83u8, 117u8, 112u8, 112u8, 111u8, 114u8, 116u8]
}

fn kb_snippet_support() -> (r: Vec<u8>)
    ensures
        r@ == key_snippet_support(),
{
    let r: Vec<u8> = vec![115u8, 110u8, 105u8, 112u8, 112u8, 101u8, 116u8, 83u8, 117u8, 112u8, 112u8, 111u8, 114u8, 116u8];
    proof {
        assert(r@ =~= key_snippet_support());
    }
    r
}

/// The bytes of `codeAction`.
pub open spec fn key_code_action() -> Seq<u8> {
    seq![99u8, 111u8, 100u8, 101u8, 65u8, 99u8, 116u8, 105u8, 111u8, 110u8]
}

fn kb_code_action() -> (r: Vec<u8>)
    ensures
        r@ == key_code_action(),
{
    let r: Vec<u8> = vec![99u8, 111u8, 100u8, 101u8, 65u8, 99u8, 116u8, 105u8, 111u8, 110u8];
    proof {
        assert(r@ =~= key_code_action());
    }
    r
}

/// The bytes of `codeActionLiteralSupport`.
pub open spec fn key_code_action_literal_support() -> Seq<u8> {
    seq![99u8, 111u8, 100u8, 101u8, 65u8, 99u8, 116u8, 105u8, 111u8, 110u8, 76u8, 105u8, 116u8, 101u8, 114u8, 97u8, 108u8, 83u8, 117u8, 112u8, 112u8, 111u8, 114u8, 116u8]
}

fn kb_code_action_literal_support() -> (r: Vec<u8>)
    ensures
        r@ == key_code_action_literal_support(),
{
    let r: Vec<u8> = vec![99u8, 111u8, 100u8, 101u8, 65u8, 99u8, 116u8, 105u8, 111u8, 110u8, 76u8, 105u8, 116u8, 101u8, 114u8, 97u8, 108u8, 83u8, 117u8, 112u8, 112u8, 111u8, 114u8, 116u8];
    proof {
        assert(r@ =~= key_code_action_literal_support());
    }
    r
}

/// The bytes of `codeActionKind`.
pub open spec fn key_code_action_kind() -> Seq<u8> {
    seq![99u8, 111u8, 100u8, 101u8, 65u8, 99u8, 116u8, 105u8, 111u8, 110u8, 75u8, 105u8, 110u8, 100u8]
}

fn kb_code_action_kind() -> (r: Vec<u8>)
    ensures
        r@ == key_code_action_kind(),
{
    let r: Vec<u8> = vec![99u8, 111u8, 100u8, 101u8, 65u8, 99u8, 116u8, 105u8, 111u8, 110u8, 75u8, 105u8, 110u8, 100u8];
    proof {
        assert(r@ =~= key_code_action_kind());
    }
    r
}

/// The bytes of `valueSet`.
pub open spec fn key_value_set() -> Seq<u8> {
    seq![118u8, 97u8, 108u8, 117u8, 101u8, 83u8, 101u8, 116u8]
}

fn kb_value_set() -> (r: Vec<u8>)
    ensures
        r@ == key_value_set(),
{
    let r: Vec<u8> = vec![118u8, 97u8, 108u8, 117u8, 101u8, 83u8, 101u8, 116u8];
    proof {
        assert(r@ =~= key_value_set());
    }
    r
}

/// The bytes of `uri`.
pub open spec fn key_uri() -> Seq<u8> {
    seq![117u8, 114u8, 105u8]
}

fn kb_uri() -> (r: Vec<u8>)
    ensures
        r@ == key_uri(),
{
    let r: Vec<u8> = vec![117u8, 114u8, 105u8];
    proof {
        assert(r@ =~= key_uri());
    }
    r
}

/// The bytes of `2.0`.
pub open spec fn val_jsonrpc_version() -> Seq<u8> {
    seq![50u8, 46u8, 48u8]
}

fn vb_jsonrpc_version() -> (r: Vec<u8>)
    ensures
        r@ == val_jsonrpc_version(),
{
    let r: Vec<u8> = vec![50u8, 46u8, 48u8];
    proof {
        assert(r@ =~= val_jsonrpc_version());
    }
    r
}

/// The bytes of `initialize`.
pub open spec fn val_initialize() -> Seq<u8> {
    seq![105u8, 110u8, 105u8, 116u8, 105u8, 97u8, 108u8, 105u8, 122u8, 101u8]
}

fn vb_initialize() -> (r: Vec<u8>)
    ensures
        r@ == val_initialize(),
{
    let r: Vec<u8> = vec![105u8, 110u8, 105u8, 116u8, 105u8, 97u8, 108u8, 105u8, 122u8, 101u8];
    proof {
        assert(r@ =~= val_initialize());
    }
    r
}

/// The bytes of `initialized`.
pub open spec fn val_initialized() -> Seq<u8> {
    seq![105u8, 110u8, 105u8, 116u8, 105u8, 97u8, 108u8, 105u8, 122u8, 101u8, 100u8]
}

fn vb_initialized() -> (r: Vec<u8>)
    ensures
        r@ == val_initialized(),
{
    let r: Vec<u8> = vec![105u8, 110u8, 105u8, 116u8, 105u8, 97u8, 108u8, 105u8, 122u8, 101u8, 100u8];
    proof {
        assert(r@ =~= val_initialized());
    }
    r
}

/// The bytes of `plaintext`.
pub open spec fn val_plaintext() -> Seq<u8> {
    seq![112u8, 108u8, 97u8, 105u8, 110u8, 116u8, 101u8, 120u8, 116u8]
}

fn vb_plaintext() -> (r: Vec<u8>)
    ensures
        r@ == val_plaintext(),
{
    let r: Vec<u8> = vec![112u8, 108u8, 97u8, 105u8, 110u8, 116u8, 101u8, 120u8, 116u8];
    proof {
        assert(r@ =~= val_plaintext());
    }
    r
}

/// The bytes of `source.organizeImports`.
pub open spec fn val_organize_imports() -> Seq<u8> {
    seq![115u8, 111u8, 117u8, 114u8, 99u8, 101u8, 46u8, 111u8, 114u8, 103u8, 97u8, 110u8, 105u8, 122u8, 101u8, 73u8, 109u8, 112u8, 111u8, 114u8, 116u8, 115u8]
}

fn vb_organize_imports() -> (r: Vec<u8>)
    ensures
        r@ == val_organize_imports(),
{
    let r: Vec<u8> = vec![115u8, 111u8, 117u8, 114u8, 99u8, 101u8, 46u8, 111u8, 114u8, 103u8, 97u8, 110u8, 105u8, 122u8, 101u8, 73u8, 109u8, 112u8, 111u8, 114u8, 116u8, 115u8];
    proof {
        assert(r@ =~= val_organize_imports());
    }
    r
}

/// The bytes of `refactor.rewrite`.
pub open spec fn val_refactor_rewrite() -> Seq<u8> {
    seq![114u8, 101u8, 102u8, 97u8, 99u8, 116u8, 111u8, 114u8, 46u8, 114u8, 101u8, 119u8, 114u8, 105u8, 116u8, 101u8]
}

fn vb_refactor_rewrite() -> (r: Vec<u8>)
    ensures
        r@ == val_refactor_rewrite(),
{
    let r: Vec<u8> = vec![114u8, 101u8, 102u8, 97u8, 99u8, 116u8, 111u8, 114u8, 46u8, 114u8, 101u8, 119u8, 114u8, 105u8, 116u8, 101u8];
    proof {
        assert(r@ =~= val_refactor_rewrite());
    }
    r
}

/// The bytes of `refactor.extract`.
pub open spec fn val_refactor_extract() -> Seq<u8> {
    seq![114u8, 101u8, 102u8, 97u8, 99u8, 116u8, 111u8, 114u8, 46u8, 101u8, 120u8, 116u8, 114u8, 97u8, 99u8, 116u8]
}

fn vb_refactor_extract() -> (r: Vec<u8>)
    ensures
        r@ == val_refactor_extract(),
{
    let r: Vec<u8> = vec![114u8, 101u8, 102u8, 97u8, 99u8, 116u8, 111u8, 114u8, 46u8, 101u8, 120u8, 116u8, 114u8, 97u8, 99u8, 116u8];
    proof {
        assert(r@ =~= val_refactor_extract());
    }
    r
}

fn kb_jsonrpc() -> (r: Vec<u8>)
    ensures
        r@ == key_jsonrpc(),
{
    let r: Vec<u8> = vec![106u8, 115u8, 111u8, 110u8, 114u8, 112u8, 99u8];
    proof {
        assert(r@ =~= key_jsonrpc());
    }
    r
}

fn kb_id() -> (r: Vec<u8>)
    ensures
        r@ == key_id(),
{
    let r: Vec<u8> = vec![105u8, 100u8];
    proof {
        assert(r@ =~= key_id());
    }
    r
}

/// An object member list of 1 entry, in order.
pub open spec fn mems1(p1: (Seq<u8>, JsonView)) -> Seq<(Seq<u8>, JsonView)> {
    Seq::empty().push(p1)
}

/// An object member list of 2 entries, in order.
pub open spec fn mems2(p1: (Seq<u8>, JsonView), p2: (Seq<u8>, JsonView)) -> Seq<(Seq<u8>, JsonView)> {
    Seq::empty().push(p1).push(p2)
}

/// An object member list of 3 entries, in order.
pub open spec fn mems3(p1: (Seq<u8>, JsonView), p2: (Seq<u8>, JsonView), p3: (Seq<u8>, JsonView)) -> Seq<(Seq<u8>, JsonView)> {
    Seq::empty().push(p1).push(p2).push(p3)
}

/// An object member list of 4 entries, in order.
pub open spec fn mems4(p1: (Seq<u8>, JsonView), p2: (Seq<u8>, JsonView), p3: (Seq<u8>, JsonView), p4: (Seq<u8>, JsonView)) -> Seq<(Seq<u8>, JsonView)> {
    Seq::empty().push(p1).push(p2).push(p3).push(p4)
}

/// An object member list of 5 entries, in order.
pub open spec fn mems5(p1: (Seq<u8>, JsonView), p2: (Seq<u8>, JsonView), p3: (Seq<u8>, JsonView), p4: (Seq<u8>, JsonView), p5: (Seq<u8>, JsonView)) -> Seq<(Seq<u8>, JsonView)> {
    Seq::empty().push(p1).push(p2).push(p3).push(p4).push(p5)
}

fn obj1(k1: Vec<u8>, v1: Json) -> (r: Json)
    ensures
        r@ == JsonView::Obj(mems1((k1@, json_view(v1)))),
{
    let ghost g = mems1((k1@, json_view(v1)));
    let mut m: Vec<(Vec<u8>, Json)> = Vec::new();
    m.push((k1, v1));
    proof {
        lemma_member_views_len(m@);
        assert(member_views(m@) =~= g);
    }
    Json::Obj(m)
}

fn obj2(k1: Vec<u8>, v1: Json, k2: Vec<u8>, v2: Json) -> (r: Json)
    ensures
        r@ == JsonView::Obj(mems2((k1@, json_view(v1)), (k2@, json_view(v2)))),
{
    let ghost g = mems2((k1@, json_view(v1)), (k2@, json_view(v2)));
    let mut m: Vec<(Vec<u8>, Json)> = Vec::new();
    m.push((k1, v1));
    m.push((k2, v2));
    proof {
        lemma_member_views_len(m@);
        assert(member_views(m@) =~= g);
    }
    Json::Obj(m)
}

fn obj3(k1: Vec<u8>, v1: Json, k2: Vec<u8>, v2: Json, k3: Vec<u8>, v3: Json) -> (r: Json)
    ensures
        r@ == JsonView::Obj(mems3((k1@, json_view(v1)), (k2@, json_view(v2)), (k3@, json_view(v3)))),
{
    let ghost g = mems3((k1@, json_view(v1)), (k2@, json_view(v2)), (k3@, json_view(v3)));
    let mut m: Vec<(Vec<u8>, Json)> = Vec::new();
    m.push((k1, v1));
    m.push((k2, v2));
    m.push((k3, v3));
    proof {
        lemma_member_views_len(m@);
        assert(member_views(m@) =~= g);
    }
    Json::Obj(m)
}

fn obj4(k1: Vec<u8>, v1: Json, k2: Vec<u8>, v2: Json, k3: Vec<u8>, v3: Json, k4: Vec<u8>, v4: Json) -> (r: Json)
    ensures
        r@ == JsonView::Obj(mems4((k1@, json_view(v1)), (k2@, json_view(v2)), (k3@, json_view(v3)), (k4@, json_view(v4)))),
{
    let ghost g = mems4((k1@, json_view(v1)), (k2@, json_view(v2)), (k3@, json_view(v3)), (k4@, json_view(v4)));
    let mut m: Vec<(Vec<u8>, Json)> = Vec::new();
    m.push((k1, v1));
    m.push((k2, v2));
    m.push((k3, v3));
    m.push((k4, v4));
    proof {
        lemma_member_views_len(m@);
        assert(member_views(m@) =~= g);
    }
    Json::Obj(m)
}

fn obj5(k1: Vec<u8>, v1: Json, k2: Vec<u8>, v2: Json, k3: Vec<u8>, v3: Json, k4: Vec<u8>, v4: Json, k5: Vec<u8>, v5: Json) -> (r: Json)
    ensures
        r@ == JsonView::Obj(mems5((k1@, json_view(v1)), (k2@, json_view(v2)), (k3@, json_view(v3)), (k4@, json_view(v4)), (k5@, json_view(v5)))),
{
    let ghost g = mems5((k1@, json_view(v1)), (k2@, json_view(v2)), (k3@, json_view(v3)), (k4@, json_view(v4)), (k5@, json_view(v5)));
    let mut m: Vec<(Vec<u8>, Json)> = Vec::new();
    m.push((k1, v1));
    m.push((k2, v2));
    m.push((k3, v3));
    m.push((k4, v4));
    m.push((k5, v5));
    proof {
        lemma_member_views_len(m@);
        assert(member_views(m@) =~= g);
    }
    Json::Obj(m)
}

/// A value list of one entry.
pub open spec fn vals1(a: JsonView) -> Seq<JsonView> {
    Seq::empty().push(a)
}

/// A value list of three entries, in order.
pub open spec fn vals3(a: JsonView, b: JsonView, c: JsonView) -> Seq<JsonView> {
    Seq::empty().push(a).push(b).push(c)
}

/// The JSON-RPC envelope fields every message starts with.
pub struct BaseMessage {
    pub jsonrpc: Vec<u8>,
}

/// A request: an id, a method, parameters.
pub struct RequestMessage {
    pub base_message: BaseMessage,
    pub id: Json,
    pub method: Vec<u8>,
    pub params: Json,
}

/// A response: an id that correlates it to a request (`Json::Null` when the
/// wire carried none or null), and a result or an error if the frame had
/// them.
pub struct ResponseMessage {
    pub base_message: BaseMessage,
    pub id: Json,
    pub result: Option<Json>,
    pub error: Option<Json>,
}

/// A notification: a method and parameters, never an id.
pub struct NotificationMessage {
    pub base_message: BaseMessage,
    pub method: Vec<u8>,
    pub params: Json,
}

/// The `initialize` request payload.
pub struct InitializeParams {
    pub process_id: u32,
    pub root_uri: Vec<u8>,
    pub client_info: ClientInfo,
    pub capabilities: ClientCapabilities,
    pub workspace_folders: Option<Vec<WorkspaceFolder>>,
}

/// The client's name and version, as advertised in the handshake.
pub struct ClientInfo {
    pub name: Vec<u8>,
    pub version: Vec<u8>,
}

/// One workspace folder: a URI and a display name.
pub struct WorkspaceFolder {
    pub uri: Vec<u8>,
    pub name: Vec<u8>,
}

/// The capability tree the client advertises.
pub struct ClientCapabilities {
    pub workspace: Option<CapabilitiesWorkspace>,
    pub text_document: Option<CapabilitiesTextDocument>,
}

/// Workspace-level capabilities.
pub struct CapabilitiesWorkspace {
    pub workspace_folders: bool,
    pub did_change_configuration: DidChangeConfiguration,
    pub workspace_edit: WorkspaceEdit,
    pub configuration: bool,
}

/// Dynamic-registration support for configuration changes.
pub struct DidChangeConfiguration {
    pub dynamic_registration: bool,
}

/// Workspace-edit support.
pub struct WorkspaceEdit {
    pub document_changes: bool,
}

/// Text-document-level capabilities.
pub struct CapabilitiesTextDocument {
    pub hover: Hover,
    pub completion: Completion,
    pub code_action: CodeAction,
}

/// Hover support: the content formats the client accepts.
pub struct Hover {
    pub content_format: Vec<Vec<u8>>,
}

/// Completion support.
pub struct Completion {
    pub completion_item: CompletionItem,
}

/// Completion-item support.
pub struct CompletionItem {
    pub snippet_support: bool,
}

/// Code-action support.
pub struct CodeAction {
    pub code_action_literal_support: CodeActionLiteralSupport,
}

/// Code-action literal support.
pub struct CodeActionLiteralSupport {
    pub code_action_kind: CodeActionKind,
}

/// The set of code-action kinds the client handles.
pub struct CodeActionKind {
    pub value_set: Vec<Vec<u8>>,
}

/// The JSON values of a list of strings, each a `Str`.
pub open spec fn spec_strs_json(s: Seq<Vec<u8>>) -> Seq<JsonView>
    decreases s,
{
    if s.len() == 0 {
        Seq::empty()
    } else {
        seq![JsonView::Str(s[0]@)] + spec_strs_json(s.drop_first())
    }
}

proof fn lemma_strs_json_snoc(s: Seq<Vec<u8>>, x: Vec<u8>)
    ensures
        spec_strs_json(s.push(x)) == spec_strs_json(s).push(JsonView::Str(x@)),
    decreases s,
{
    if s.len() == 0 {
        assert(s.push(x)[0] == x);
        assert(s.push(x).drop_first() =~= s);
        assert(spec_strs_json(s.push(x)) =~= spec_strs_json(s).push(JsonView::Str(x@)));
    } else {
        assert(s.push(x).drop_first() =~= s.drop_first().push(x));
        lemma_strs_json_snoc(s.drop_first(), x);
        assert(spec_strs_json(s.push(x)) =~= spec_strs_json(s).push(JsonView::Str(x@)));
    }
}

/// The JSON array of a list of strings.
fn strs_json(items: &Vec<Vec<u8>>) -> (r: Json)
    ensures
        r@ == JsonView::Arr(spec_strs_json(items@)),
{
    let mut t: Vec<Json> = Vec::new();
    proof {
        assert(crate::json::json_views(t@) =~= Seq::<JsonView>::empty());
        assert(items@.take(0) =~= Seq::<Vec<u8>>::empty());
        assert(spec_strs_json(items@.take(0)) =~= Seq::<JsonView>::empty());
    }
    let mut i: usize = 0;
    while i < items.len()
        invariant
            i <= items.len(),
            crate::json::json_views(t@) == spec_strs_json(items@.take(i as int)),
        decreases items.len() - i,
    {
        let b = copy_bytes(&items[i]);
        let ghost t0 = t@;
        t.push(Json::Str(b));
        proof {
            crate::json::lemma_json_views_snoc(t0, t@.last());
            assert(t@ =~= t0.push(t@.last()));
            assert(json_view(t@.last()) == JsonView::Str(items@[i as int]@));
            lemma_strs_json_snoc(items@.take(i as int), items@[i as int]);
            assert(items@.take(i as int).push(items@[i as int]) =~= items@.take(i as int + 1));
            assert(crate::json::json_views(t@) == spec_strs_json(items@.take(i as int + 1)));
        }
        i = i + 1;
    }
    proof {
        assert(items@.take(items@.len() as int) =~= items@);
    }
    Json::Arr(t)
}

/// The JSON object of one workspace folder: its `uri` and `name`.
pub open spec fn spec_folder_json(f: WorkspaceFolder) -> JsonView {
    JsonView::Obj(mems2((key_uri(), JsonView::Str(f.uri@)), (key_name(), JsonView::Str(f.name@))))
}

/// The JSON values of a list of workspace folders.
pub open spec fn spec_folders_json(s: Seq<WorkspaceFolder>) -> Seq<JsonView>
    decreases s,
{
    if s.len() == 0 {
        Seq::empty()
    } else {
        seq![spec_folder_json(s[0])] + spec_folders_json(s.drop_first())
    }
}

proof fn lemma_folders_json_snoc(s: Seq<WorkspaceFolder>, x: WorkspaceFolder)
    ensures
        spec_folders_json(s.push(x)) == spec_folders_json(s).push(spec_folder_json(x)),
    decreases s,
{
    if s.len() == 0 {
        assert(s.push(x)[0] == x);
        assert(s.push(x).drop_first() =~= s);
        assert(spec_folders_json(s.push(x)) =~= spec_folders_json(s).push(spec_folder_json(x)));
    } else {
        assert(s.push(x).drop_first() =~= s.drop_first().push(x));
        lemma_folders_json_snoc(s.drop_first(), x);
        assert(spec_folders_json(s.push(x)) =~= spec_folders_json(s).push(spec_folder_json(x)));
    }
}

impl WorkspaceFolder {
    /// The folder as a JSON object.
    pub fn to_json(&self) -> (r: Json)
        ensures
            r@ == spec_folder_json(*self),
    {
        obj2(kb_uri(), Json::Str(copy_bytes(&self.uri)), kb_name(), Json::Str(copy_bytes(
            &self.name)))
    }
}

/// The JSON array of a list of workspace folders.
fn folders_json(fs: &Vec<WorkspaceFolder>) -> (r: Json)
    ensures
        r@ == JsonView::Arr(spec_folders_json(fs@)),
{
    let mut t: Vec<Json> = Vec::new();
    proof {
        assert(crate::json::json_views(t@) =~= Seq::<JsonView>::empty());
        assert(fs@.take(0) =~= Seq::<WorkspaceFolder>::empty());
        assert(spec_folders_json(fs@.take(0)) =~= Seq::<JsonView>::empty());
    }
    let mut i: usize = 0;
    while i < fs.len()
        invariant
            i <= fs.len(),
            crate::json::json_views(t@) == spec_folders_json(fs@.take(i as int)),
        decreases fs.len() - i,
    {
        let f = fs[i].to_json();
        let ghost t0 = t@;
        t.push(f);
        proof {
            crate::json::lemma_json_views_snoc(t0, t@.last());
            assert(t@ =~= t0.push(t@.last()));
            assert(json_view(t@.last()) == spec_folder_json(fs@[i as int]));
            lemma_folders_json_snoc(fs@.take(i as int), fs@[i as int]);
            assert(fs@.take(i as int).push(fs@[i as int]) =~= fs@.take(i as int + 1));
            assert(crate::json::json_views(t@) == spec_folders_json(fs@.take(i as int + 1)));
        }
        i = i + 1;
    }
    proof {
        assert(fs@.take(fs@.len() as int) =~= fs@);
    }
    Json::Arr(t)
}

/// The JSON object of the client's name and version.
pub open spec fn spec_client_info_json(c: ClientInfo) -> JsonView {
    JsonView::Obj(
        mems2((key_name(), JsonView::Str(c.name@)), (key_version(), JsonView::Str(c.version@))),
    )
}

/// The JSON object of the workspace capabilities.
pub open spec fn spec_workspace_caps_json(w: CapabilitiesWorkspace) -> JsonView {
    JsonView::Obj(
        mems4(
            (key_workspace_folders(), JsonView::Bool(w.workspace_folders)),
            (
                key_did_change_configuration(),
                JsonView::Obj(
                    mems1(
                        (
                            key_dynamic_registration(),
                            JsonView::Bool(w.did_change_configuration.dynamic_registration),
                        ),
                    ),
                ),
            ),
            (
                key_workspace_edit(),
                JsonView::Obj(
                    mems1(
                        (key_document_changes(), JsonView::Bool(w.workspace_edit.document_changes)),
                    ),
                ),
            ),
            (key_configuration(), JsonView::Bool(w.configuration)),
        ),
    )
}

/// The JSON object of the text-document capabilities.
pub open spec fn spec_text_document_caps_json(t: CapabilitiesTextDocument) -> JsonView {
    JsonView::Obj(
        mems3(
            (
                key_hover(),
                JsonView::Obj(
                    mems1(
                        (
                            key_content_format(),
                            JsonView::Arr(spec_strs_json(t.hover.content_format@)),
                        ),
                    ),
                ),
            ),
            (
                key_completion(),
                JsonView::Obj(
                    mems1(
                        (
                            key_completion_item(),
                            JsonView::Obj(
                                mems1(
                                    (
                                        key_snippet_support(),
                                        JsonView::Bool(t.completion.completion_item.snippet_support),
                                    ),
                                ),
                            ),
                        ),
                    ),
                ),
            ),
            (
                key_code_action(),
                JsonView::Obj(
                    mems1(
                        (
                            key_code_action_literal_support(),
                            JsonView::Obj(
                                mems1(
                                    (
                                        key_code_action_kind(),
                                        JsonView::Obj(
                                            mems1(
                                                (
                                                    key_value_set(),
                                                    JsonView::Arr(
                                                        spec_strs_json(
                                                            t.code_action.code_action_literal_support.code_action_kind.value_set@,
                                                        ),
                                                    ),
                                                ),
                                            ),
                                        ),
                                    ),
                                ),
                            ),
                        ),
                    ),
                ),
            ),
        ),
    )
}

/// The JSON object of the whole capability tree; an absent side serializes
/// as null.
pub open spec fn spec_capabilities_json(c: ClientCapabilities) -> JsonView {
    JsonView::Obj(
        mems2(
            (
                key_workspace(),
                match c.workspace {
                    Option::None => JsonView::Null,
                    Option::Some(w) => spec_workspace_caps_json(w),
                },
            ),
            (
                key_text_document(),
                match c.text_document {
                    Option::None => JsonView::Null,
                    Option::Some(t) => spec_text_document_caps_json(t),
                },
            ),
        ),
    )
}

/// The JSON object of the `initialize` payload.
pub open spec fn spec_initialize_params_json(p: InitializeParams) -> JsonView {
    JsonView::Obj(
        mems5(
            (key_process_id(), JsonView::Int(p.process_id as int)),
            (key_root_uri(), JsonView::Str(p.root_uri@)),
            (key_client_info(), spec_client_info_json(p.client_info)),
            (key_capabilities(), spec_capabilities_json(p.capabilities)),
            (
                key_workspace_folders(),
                match p.workspace_folders {
                    Option::None => JsonView::Null,
                    Option::Some(fs) => JsonView::Arr(spec_folders_json(fs@)),
                },
            ),
        ),
    )
}

impl ClientInfo {
    /// The client info as a JSON object.
    pub fn into_json(self) -> (r: Json)
        ensures
            r@ == spec_client_info_json(self),
    {
        obj2(kb_name(), Json::Str(self.name), kb_version(), Json::Str(self.version))
    }
}

impl CapabilitiesWorkspace {
    /// The workspace capabilities as a JSON object.
    pub fn into_json(self) -> (r: Json)
        ensures
            r@ == spec_workspace_caps_json(self),
    {
        let dcc = obj1(kb_dynamic_registration(), Json::Bool(
            self.did_change_configuration.dynamic_registration));
        let we = obj1(kb_document_changes(), Json::Bool(self.workspace_edit.document_changes));
        obj4(kb_workspace_folders(), Json::Bool(self.workspace_folders),
            kb_did_change_configuration(), dcc, kb_workspace_edit(), we, kb_configuration(),
            Json::Bool(self.configuration))
    }
}

impl CapabilitiesTextDocument {
    /// The text-document capabilities as a JSON object.
    pub fn into_json(self) -> (r: Json)
        ensures
            r@ == spec_text_document_caps_json(self),
    {
        let hover = obj1(kb_content_format(), strs_json(&self.hover.content_format));
        let compl = obj1(kb_completion_item(), obj1(kb_snippet_support(), Json::Bool(
            self.completion.completion_item.snippet_support)));
        let kind = obj1(kb_value_set(), strs_json(
            &self.code_action.code_action_literal_support.code_action_kind.value_set));
        let ca = obj1(kb_code_action_literal_support(), obj1(kb_code_action_kind(), kind));
        obj3(kb_hover(), hover, kb_completion(), compl, kb_code_action(), ca)
    }
}

impl ClientCapabilities {
    /// The capability tree as a JSON object.
    pub fn into_json(self) -> (r: Json)
        ensures
            r@ == spec_capabilities_json(self),
    {
        let ghost g = self;
        let ghost wv: JsonView = (match g.workspace {
            Option::None => JsonView::Null,
            Option::Some(w0) => spec_workspace_caps_json(w0),
        });
        let ghost tv: JsonView = (match g.text_document {
            Option::None => JsonView::Null,
            Option::Some(t0) => spec_text_document_caps_json(t0),
        });
        let ClientCapabilities { workspace, text_document } = self;
        let w = match workspace {
            Option::None => Json::Null,
            Option::Some(wc) => {
                let r0 = wc.into_json();
                proof {
                    assert(r0@ == wv);
                }
                r0
            },
        };
        proof {
            assert(w@ == wv);
        }
        let t = match text_document {
            Option::None => Json::Null,
            Option::Some(tc) => {
                let r0 = tc.into_json();
                proof {
                    assert(r0@ == tv);
                }
                r0
            },
        };
        proof {
            assert(t@ == tv);
        }
        let r = obj2(kb_workspace(), w, kb_text_document(), t);
        proof {
            assert(r@ == spec_capabilities_json(g));
        }
        r
    }
}

impl InitializeParams {
    /// The payload as a JSON object.
    pub fn into_json(self) -> (r: Json)
        ensures
            r@ == spec_initialize_params_json(self),
    {
        let ghost g = self;
        let ghost fv: JsonView = (match g.workspace_folders {
            Option::None => JsonView::Null,
            Option::Some(f0) => JsonView::Arr(spec_folders_json(f0@)),
        });
        let InitializeParams { process_id, root_uri, client_info, capabilities, workspace_folders }
            = self;
        let wf = match workspace_folders {
            Option::None => Json::Null,
            Option::Some(fs) => {
                let r0 = folders_json(&fs);
                proof {
                    assert(r0@ == fv);
                }
                r0
            },
        };
        proof {
            assert(wf@ == fv);
        }
        let r = obj5(kb_process_id(), Json::Int(process_id as i64), kb_root_uri(), Json::Str(
            root_uri), kb_client_info(), client_info.into_json(), kb_capabilities(),
            capabilities.into_json(), kb_workspace_folders(), wf);
        proof {
            assert(r@ == spec_initialize_params_json(g));
        }
        r
    }
}

/// The JSON envelope of a request.
pub open spec fn spec_request_json(m: RequestMessage) -> JsonView {
    JsonView::Obj(
        mems4(
            (key_jsonrpc(), JsonView::Str(m.base_message.jsonrpc@)),
            (key_id(), m.id@),
            (key_method(), JsonView::Str(m.method@)),
            (key_params(), m.params@),
        ),
    )
}

/// The JSON envelope of a notification: no id member at all.
pub open spec fn spec_notification_json(m: NotificationMessage) -> JsonView {
    JsonView::Obj(
        mems3(
            (key_jsonrpc(), JsonView::Str(m.base_message.jsonrpc@)),
            (key_method(), JsonView::Str(m.method@)),
            (key_params(), m.params@),
        ),
    )
}

/// The fixed capability tree the handshake advertises: workspace folders,
/// dynamic configuration registration, document-change-capable edits,
/// configuration requests, plaintext hover, snippet completion, and the
/// three code-action kinds.
pub open spec fn spec_default_capabilities_json() -> JsonView {
    JsonView::Obj(
        mems2(
            (
                key_workspace(),
                JsonView::Obj(
                    mems4(
                        (key_workspace_folders(), JsonView::Bool(true)),
                        (
                            key_did_change_configuration(),
                            JsonView::Obj(mems1((key_dynamic_registration(), JsonView::Bool(true)))),
                        ),
                        (
                            key_workspace_edit(),
                            JsonView::Obj(mems1((key_document_changes(), JsonView::Bool(true)))),
                        ),
                        (key_configuration(), JsonView::Bool(true)),
                    ),
                ),
            ),
            (
                key_text_document(),
                JsonView::Obj(
                    mems3(
                        (
                            key_hover(),
                            JsonView::Obj(
                                mems1(
                                    (
                                        key_content_format(),
                                        JsonView::Arr(vals1(JsonView::Str(val_plaintext()))),
                                    ),
                                ),
                            ),
                        ),
                        (
                            key_completion(),
                            JsonView::Obj(
                                mems1(
                                    (
                                        key_completion_item(),
                                        JsonView::Obj(
                                            mems1((key_snippet_support(), JsonView::Bool(true))),
                                        ),
                                    ),
                                ),
                            ),
                        ),
                        (
                            key_code_action(),
                            JsonView::Obj(
                                mems1(
                                    (
                                        key_code_action_literal_support(),
                                        JsonView::Obj(
                                            mems1(
                                                (
                                                    key_code_action_kind(),
                                                    JsonView::Obj(
                                                        mems1(
                                                            (
                                                                key_value_set(),
                                                                JsonView::Arr(
                                                                    vals3(
                                                                        JsonView::Str(val_organize_imports()),
                                                                        JsonView::Str(val_refactor_rewrite()),
                                                                        JsonView::Str(val_refactor_extract()),
                                                                    ),
                                                                ),
                                                            ),
                                                        ),
                                                    ),
                                                ),
                                            ),
                                        ),
                                    ),
                                ),
                            ),
                        ),
                    ),
                ),
            ),
        ),
    )
}

/// The JSON object the `initialize` request carries, as a function of the
/// caller's inputs alone.
pub open spec fn spec_initialize_params_view(
    process_id: u32,
    root_uri: Seq<char>,
    name: Seq<char>,
    version: Seq<char>,
    folders: Seq<WorkspaceFolder>,
) -> JsonView {
    JsonView::Obj(
        mems5(
            (key_process_id(), JsonView::Int(process_id as int)),
            (key_root_uri(), JsonView::Str(encode_utf8(root_uri))),
            (
                key_client_info(),
                JsonView::Obj(
                    mems2(
                        (key_name(), JsonView::Str(encode_utf8(name))),
                        (key_version(), JsonView::Str(encode_utf8(version))),
                    ),
                ),
            ),
            (key_capabilities(), spec_default_capabilities_json()),
            (key_workspace_folders(), JsonView::Arr(spec_folders_json(folders))),
        ),
    )
}

/// Bytes of a string's UTF-8 encoding.
fn string_to_bytes(s: String) -> (r: Vec<u8>)
    ensures
        r@ == encode_utf8(s@),
{
    slice_to_vec(s.as_str().as_bytes())
}

impl RequestMessage {
    /// The request as its JSON envelope.
    pub fn into_json(self) -> (r: Json)
        ensures
            r@ == spec_request_json(self),
    {
        let ghost g = self;
        let RequestMessage { base_message, id, method, params } = self;
        let r = obj4(kb_jsonrpc(), Json::Str(base_message.jsonrpc), kb_id(), id, kb_method(),
            Json::Str(method), kb_params(), params);
        proof {
            assert(r@ == spec_request_json(g));
        }
        r
    }

    /// The `initialize` handshake request: protocol version `2.0`, the
    /// given id, the caller's process id, root URI, client name and
    /// version, the given workspace folders, and the fixed capability
    /// tree.
    pub fn new_initialize(
        id: u32,
        process_id: u32,
        root_uri: String,
        client_name: String,
        client_version: String,
        workspace_folders: Vec<WorkspaceFolder>,
    ) -> (r: RequestMessage)
        ensures
            r.base_message.jsonrpc@ == val_jsonrpc_version(),
            r.id@ == JsonView::Int(id as int),
            r.method@ == val_initialize(),
            r.params@ == spec_initialize_params_view(
                process_id,
                root_uri@,
                client_name@,
                client_version@,
                workspace_folders@,
            ),
    {
        let ghost guri = root_uri@;
        let ghost gname = client_name@;
        let ghost gver = client_version@;
        let ghost gfolders = workspace_folders@;
        let client_info = ClientInfo {
            name: string_to_bytes(client_name),
            version: string_to_bytes(client_version),
        };
        let mut content_format: Vec<Vec<u8>> = Vec::new();
        content_format.push(vb_plaintext());
        let mut value_set: Vec<Vec<u8>> = Vec::new();
        value_set.push(vb_organize_imports());
        value_set.push(vb_refactor_rewrite());
        value_set.push(vb_refactor_extract());
        proof {
            assert(spec_strs_json(content_format@.drop_first()) == Seq::<JsonView>::empty());
            assert(spec_strs_json(content_format@) =~= vals1(JsonView::Str(val_plaintext())));
            let vs = value_set@;
            assert(vs.drop_first().drop_first().drop_first() =~= Seq::<Vec<u8>>::empty());
            assert(spec_strs_json(vs.drop_first().drop_first().drop_first())
                == Seq::<JsonView>::empty());
            assert(spec_strs_json(vs.drop_first().drop_first()) =~= Seq::<JsonView>::empty().push(
                JsonView::Str(val_refactor_extract())));
            assert(spec_strs_json(vs.drop_first()) =~= Seq::<JsonView>::empty().push(
                JsonView::Str(val_refactor_rewrite())).push(JsonView::Str(val_refactor_extract())));
            assert(spec_strs_json(vs) =~= vals3(
                JsonView::Str(val_organize_imports()),
                JsonView::Str(val_refactor_rewrite()),
                JsonView::Str(val_refactor_extract()),
            ));
        }
        let capabilities = ClientCapabilities {
            workspace: Some(CapabilitiesWorkspace {
                workspace_folders: true,
                did_change_configuration: DidChangeConfiguration { dynamic_registration: true },
                workspace_edit: WorkspaceEdit { document_changes: true },
                configuration: true,
            }),
            text_document: Some(CapabilitiesTextDocument {
                hover: Hover { content_format },
                completion: Completion {
                    completion_item: CompletionItem { snippet_support: true },
                },
                code_action: CodeAction {
                    code_action_literal_support: CodeActionLiteralSupport {
                        code_action_kind: CodeActionKind { value_set },
                    },
                },
            }),
        };
        proof {
            assert(spec_capabilities_json(capabilities) == spec_default_capabilities_json());
        }
        let params = InitializeParams {
            process_id,
            root_uri: string_to_bytes(root_uri),
            client_info,
            capabilities,
            workspace_folders: Some(workspace_folders),
        };
        let params_json = params.into_json();
        proof {
            assert(params_json@ == spec_initialize_params_view(
                process_id, guri, gname, gver, gfolders));
        }
        RequestMessage {
            base_message: BaseMessage { jsonrpc: vb_jsonrpc_version() },
            id: Json::Int(id as i64),
            method: vb_initialize(),
            params: params_json,
        }
    }
}

impl NotificationMessage {
    /// The notification as its JSON envelope.
    pub fn into_json(self) -> (r: Json)
        ensures
            r@ == spec_notification_json(self),
    {
        let ghost g = self;
        let NotificationMessage { base_message, method, params } = self;
        let r = obj3(kb_jsonrpc(), Json::Str(base_message.jsonrpc), kb_method(), Json::Str(method),
            kb_params(), params);
        proof {
            assert(r@ == spec_notification_json(g));
        }
        r
    }

    /// The `initialized` notification: protocol version `2.0`, empty
    /// parameters, and no id.
    pub fn new_initialized() -> (r: NotificationMessage)
        ensures
            r.base_message.jsonrpc@ == val_jsonrpc_version(),
            r.method@ == val_initialized(),
            r.params@ == JsonView::Obj(Seq::<(Seq<u8>, JsonView)>::empty()),
    {
        let m: Vec<(Vec<u8>, Json)> = Vec::new();
        proof {
            assert(member_views(m@) =~= Seq::<(Seq<u8>, JsonView)>::empty());
        }
        NotificationMessage {
            base_message: BaseMessage { jsonrpc: vb_jsonrpc_version() },
            method: vb_initialized(),
            params: Json::Obj(m),
        }
    }
}

/// The member of an object-shaped value named `k`, if the value is an
/// object and has one.
pub open spec fn spec_member_of(v: JsonView, k: Seq<u8>) -> Option<JsonView> {
    match v {
        JsonView::Obj(m) => spec_obj_lookup(m, k),
        _ => None,
    }
}

/// The view of an optional JSON value.
pub open spec fn spec_opt_view(o: Option<Json>) -> Option<JsonView> {
    match o {
        Option::None => None,
        Option::Some(j) => Some(json_view(j)),
    }
}

impl ResponseMessage {
    /// Reads a parsed frame body as a response: it must be an object whose
    /// `jsonrpc` member is a string; `id` defaults to null when absent,
    /// and `result` and `error` are taken as they stand. Anything else is
    /// a malformed body.
    pub fn from_json(v: &Json) -> (r: Result<ResponseMessage, ProtocolError>)
        ensures
            r is Ok <==> crate::client::spec_is_response_shape(v@),
            r matches Ok(m) ==> {
                &&& Some(JsonView::Str(m.base_message.jsonrpc@)) == spec_member_of(
                    v@,
                    key_jsonrpc(),
                )
                &&& m.id@ == (match spec_member_of(v@, key_id()) {
                    Some(x) => x,
                    None => JsonView::Null,
                })
                &&& spec_opt_view(m.result) == spec_member_of(v@, key_result())
                &&& spec_opt_view(m.error) == spec_member_of(v@, key_error())
            },
            r matches Err(pe) ==> pe == ProtocolError::MalformedBody,
    {
        match v {
            Json::Obj(m) => {
                let kjr = kb_jsonrpc();
                match obj_get(m, &kjr) {
                    Some(x) => match x {
                        Json::Str(s) => {
                            let jr = copy_bytes(s);
                            let kid = kb_id();
                            let idv = match obj_get(m, &kid) {
                                Some(x2) => clone_json(x2),
                                None => Json::Null,
                            };
                            let kres = kb_result();
                            let resv = match obj_get(m, &kres) {
                                Some(x3) => Some(clone_json(x3)),
                                None => None,
                            };
                            let kerr = kb_error();
                            let errv = match obj_get(m, &kerr) {
                                Some(x4) => Some(clone_json(x4)),
                                None => None,
                            };
                            Ok(ResponseMessage {
                                base_message: BaseMessage { jsonrpc: jr },
                                id: idv,
                                result: resv,
                                error: errv,
                            })
                        },
                        _ => Err(ProtocolError::MalformedBody),
                    },
                    None => Err(ProtocolError::MalformedBody),
                }
            },
            _ => Err(ProtocolError::MalformedBody),
        }
    }
}

/// The exact wire body of the `initialized` notification, byte for byte.
pub open spec fn spec_initialized_body() -> Seq<u8> {
    Seq::empty().push(123u8).push(34u8).push(106u8).push(115u8).push(111u8).push(110u8).push(114u8).push(112u8).push(99u8).push(34u8).push(58u8).push(34u8).push(50u8).push(46u8).push(48u8).push(34u8).push(44u8).push(34u8).push(109u8).push(101u8).push(116u8).push(104u8).push(111u8).push(100u8).push(34u8).push(58u8).push(34u8).push(105u8).push(110u8).push(105u8).push(116u8).push(105u8).push(97u8).push(108u8).push(105u8).push(122u8).push(101u8).push(100u8).push(34u8).push(44u8).push(34u8).push(112u8).push(97u8).push(114u8).push(97u8).push(109u8).push(115u8).push(34u8).push(58u8).push(123u8).push(125u8).push(125u8)
}

/// The `initialized` notification always serializes to
/// `{"jsonrpc":"2.0","method":"initialized","params":{}}`: three members
/// and no `id` key at all.
#[verifier::rlimit(100)]
pub proof fn lemma_initialized_serialization(m: NotificationMessage)
    requires
        m.base_message.jsonrpc@ == val_jsonrpc_version(),
        m.method@ == val_initialized(),
        m.params@ == JsonView::Obj(Seq::<(Seq<u8>, JsonView)>::empty()),
    ensures
        json_bytes(spec_notification_json(m)) == spec_initialized_body(),
{
    let p1 = (key_jsonrpc(), JsonView::Str(val_jsonrpc_version()));
    let p2 = (key_method(), JsonView::Str(val_initialized()));
    let p3 = (key_params(), JsonView::Obj(Seq::<(Seq<u8>, JsonView)>::empty()));
    let ms = mems3(p1, p2, p3);
    assert(spec_notification_json(m) == JsonView::Obj(ms));
    lemma_escape_plain(key_jsonrpc());
    lemma_escape_plain(val_jsonrpc_version());
    lemma_escape_plain(key_method());
    lemma_escape_plain(val_initialized());
    lemma_escape_plain(key_params());
    let ms2 = Seq::empty().push(p2).push(p3);
    let ms3 = Seq::empty().push(p3);
    assert(ms.len() == 3 && ms[0] == p1);
    assert(ms.drop_first() =~= ms2);
    assert(ms2.len() == 2 && ms2[0] == p2);
    assert(ms2.drop_first() =~= ms3);
    assert(ms3.len() == 1 && ms3[0] == p3);
    assert(spec_obj_members(Seq::<(Seq<u8>, JsonView)>::empty()) == Seq::<u8>::empty());
    assert(json_bytes(p3.1) =~= seq![123u8, 125u8]);
    assert(spec_obj_members(ms3) == spec_string_bytes(key_params()) + seq![58u8] + json_bytes(
        p3.1));
    assert(spec_obj_members(ms2) == spec_string_bytes(key_method()) + seq![58u8] + json_bytes(
        p2.1) + seq![44u8] + spec_obj_members(ms3));
    assert(spec_obj_members(ms) == spec_string_bytes(key_jsonrpc()) + seq![58u8] + json_bytes(
        p1.1) + seq![44u8] + spec_obj_members(ms2));
    assert(json_bytes(spec_notification_json(m)) =~= spec_initialized_body());
}

proof fn lemma_clean_obj1(p1: (Seq<u8>, JsonView))
    requires
        spec_clean_json(p1.1),
    ensures
        spec_clean_json(JsonView::Obj(mems1(p1))),
{
    let ms = mems1(p1);
    assert forall|k: int| 0 <= k < ms.len() implies spec_clean_json(#[trigger] ms[k].1) by {
        assert(ms[0] == p1);
    }
}

proof fn lemma_clean_obj2(p1: (Seq<u8>, JsonView), p2: (Seq<u8>, JsonView))
    requires
        spec_clean_json(p1.1),
        spec_clean_json(p2.1),
    ensures
        spec_clean_json(JsonView::Obj(mems2(p1, p2))),
{
    let ms = mems2(p1, p2);
    assert forall|k: int| 0 <= k < ms.len() implies spec_clean_json(#[trigger] ms[k].1) by {
        assert(ms[0] == p1 && ms[1] == p2);
    }
}

proof fn lemma_clean_obj3(p1: (Seq<u8>, JsonView), p2: (Seq<u8>, JsonView), p3: (Seq<u8>, JsonView))
    requires
        spec_clean_json(p1.1),
        spec_clean_json(p2.1),
        spec_clean_json(p3.1),
    ensures
        spec_clean_json(JsonView::Obj(mems3(p1, p2, p3))),
{
    let ms = mems3(p1, p2, p3);
    assert forall|k: int| 0 <= k < ms.len() implies spec_clean_json(#[trigger] ms[k].1) by {
        assert(ms[0] == p1 && ms[1] == p2 && ms[2] == p3);
    }
}

proof fn lemma_clean_obj4(
    p1: (Seq<u8>, JsonView),
    p2: (Seq<u8>, JsonView),
    p3: (Seq<u8>, JsonView),
    p4: (Seq<u8>, JsonView),
)
    requires
        spec_clean_json(p1.1),
        spec_clean_json(p2.1),
        spec_clean_json(p3.1),
        spec_clean_json(p4.1),
    ensures
        spec_clean_json(JsonView::Obj(mems4(p1, p2, p3, p4))),
{
    let ms = mems4(p1, p2, p3, p4);
    assert forall|k: int| 0 <= k < ms.len() implies spec_clean_json(#[trigger] ms[k].1) by {
        assert(ms[0] == p1 && ms[1] == p2 && ms[2] == p3 && ms[3] == p4);
    }
}

proof fn lemma_clean_obj5(
    p1: (Seq<u8>, JsonView),
    p2: (Seq<u8>, JsonView),
    p3: (Seq<u8>, JsonView),
    p4: (Seq<u8>, JsonView),
    p5: (Seq<u8>, JsonView),
)
    requires
        spec_clean_json(p1.1),
        spec_clean_json(p2.1),
        spec_clean_json(p3.1),
        spec_clean_json(p4.1),
        spec_clean_json(p5.1),
    ensures
        spec_clean_json(JsonView::Obj(mems5(p1, p2, p3, p4, p5))),
{
    let ms = mems5(p1, p2, p3, p4, p5);
    assert forall|k: int| 0 <= k < ms.len() implies spec_clean_json(#[trigger] ms[k].1) by {
        assert(ms[0] == p1 && ms[1] == p2 && ms[2] == p3 && ms[3] == p4 && ms[4] == p5);
    }
}

proof fn lemma_clean_vals1(a: JsonView)
    requires
        spec_clean_json(a),
    ensures
        spec_clean_json(JsonView::Arr(vals1(a))),
{
    let vs = vals1(a);
    assert forall|k: int| 0 <= k < vs.len() implies spec_clean_json(#[trigger] vs[k]) by {
        assert(vs[0] == a);
    }
}

proof fn lemma_clean_vals3(a: JsonView, b: JsonView, c: JsonView)
    requires
        spec_clean_json(a),
        spec_clean_json(b),
        spec_clean_json(c),
    ensures
        spec_clean_json(JsonView::Arr(vals3(a, b, c))),
{
    let vs = vals3(a, b, c);
    assert forall|k: int| 0 <= k < vs.len() implies spec_clean_json(#[trigger] vs[k]) by {
        assert(vs[0] == a && vs[1] == b && vs[2] == c);
    }
}

proof fn lemma_folders_json_index(s: Seq<WorkspaceFolder>)
    ensures
        spec_folders_json(s).len() == s.len(),
        forall|k: int| 0 <= k < s.len() ==> spec_folders_json(s)[k] == spec_folder_json(s[k]),
    decreases s,
{
    if s.len() > 0 {
        lemma_folders_json_index(s.drop_first());
    }
}

proof fn lemma_clean_folders(s: Seq<WorkspaceFolder>)
    ensures
        spec_clean_json(JsonView::Arr(spec_folders_json(s))),
{
    lemma_folders_json_index(s);
    let fj = spec_folders_json(s);
    assert forall|k: int| 0 <= k < fj.len() implies spec_clean_json(#[trigger] fj[k]) by {
        assert(fj[k] == spec_folder_json(s[k]));
        assert(spec_clean_json(JsonView::Str(s[k].uri@)));
        assert(spec_clean_json(JsonView::Str(s[k].name@)));
        lemma_clean_obj2(
            (key_uri(), JsonView::Str(s[k].uri@)),
            (key_name(), JsonView::Str(s[k].name@)),
        );
    }
}

proof fn lemma_clean_default_caps()
    ensures
        spec_clean_json(spec_default_capabilities_json()),
{
    assert(spec_clean_json(JsonView::Bool(true)));
    let dcc = JsonView::Obj(mems1((key_dynamic_registration(), JsonView::Bool(true))));
    lemma_clean_obj1((key_dynamic_registration(), JsonView::Bool(true)));
    let we = JsonView::Obj(mems1((key_document_changes(), JsonView::Bool(true))));
    lemma_clean_obj1((key_document_changes(), JsonView::Bool(true)));
    let ws = JsonView::Obj(
        mems4(
            (key_workspace_folders(), JsonView::Bool(true)),
            (key_did_change_configuration(), dcc),
            (key_workspace_edit(), we),
            (key_configuration(), JsonView::Bool(true)),
        ),
    );
    lemma_clean_obj4(
        (key_workspace_folders(), JsonView::Bool(true)),
        (key_did_change_configuration(), dcc),
        (key_workspace_edit(), we),
        (key_configuration(), JsonView::Bool(true)),
    );
    assert(spec_clean_json(JsonView::Str(val_plaintext())));
    let cf = JsonView::Arr(vals1(JsonView::Str(val_plaintext())));
    lemma_clean_vals1(JsonView::Str(val_plaintext()));
    let hover = JsonView::Obj(mems1((key_content_format(), cf)));
    lemma_clean_obj1((key_content_format(), cf));
    let ci = JsonView::Obj(mems1((key_snippet_support(), JsonView::Bool(true))));
    lemma_clean_obj1((key_snippet_support(), JsonView::Bool(true)));
    let compl = JsonView::Obj(mems1((key_completion_item(), ci)));
    lemma_clean_obj1((key_completion_item(), ci));
    assert(spec_clean_json(JsonView::Str(val_organize_imports())));
    assert(spec_clean_json(JsonView::Str(val_refactor_rewrite())));
    assert(spec_clean_json(JsonView::Str(val_refactor_extract())));
    let vs = JsonView::Arr(
        vals3(
            JsonView::Str(val_organize_imports()),
            JsonView::Str(val_refactor_rewrite()),
            JsonView::Str(val_refactor_extract()),
        ),
    );
    lemma_clean_vals3(
        JsonView::Str(val_organize_imports()),
        JsonView::Str(val_refactor_rewrite()),
        JsonView::Str(val_refactor_extract()),
    );
    let kind = JsonView::Obj(mems1((key_value_set(), vs)));
    lemma_clean_obj1((key_value_set(), vs));
    let cals = JsonView::Obj(mems1((key_code_action_kind(), kind)));
    lemma_clean_obj1((key_code_action_kind(), kind));
    let ca = JsonView::Obj(mems1((key_code_action_literal_support(), cals)));
    lemma_clean_obj1((key_code_action_literal_support(), cals));
    let td = JsonView::Obj(
        mems3((key_hover(), hover), (key_completion(), compl), (key_code_action(), ca)),
    );
    lemma_clean_obj3((key_hover(), hover), (key_completion(), compl), (key_code_action(), ca));
    lemma_clean_obj2((key_workspace(), ws), (key_text_document(), td));
    assert(spec_default_capabilities_json() == JsonView::Obj(
        mems2((key_workspace(), ws), (key_text_document(), td)),
    ));
}

/// The handshake round trip: serializing an `initialize` request built
/// from any inputs and re-parsing the body returns the very same JSON
/// value — every field, the whole capability tree included.
pub proof fn lemma_initialize_round_trip(
    m: RequestMessage,
    id: u32,
    process_id: u32,
    root_uri: Seq<char>,
    name: Seq<char>,
    version: Seq<char>,
    folders: Seq<WorkspaceFolder>,
)
    requires
        m.base_message.jsonrpc@ == val_jsonrpc_version(),
        m.id@ == JsonView::Int(id as int),
        m.method@ == val_initialize(),
        m.params@ == spec_initialize_params_view(process_id, root_uri, name, version, folders),
    ensures
        crate::parse::spec_parse_json(json_bytes(spec_request_json(m))) == Some(
            spec_request_json(m),
        ),
{
    assert(spec_clean_json(JsonView::Str(m.base_message.jsonrpc@)));
    assert(spec_clean_json(m.id@));
    assert(spec_clean_json(JsonView::Str(m.method@)));
    lemma_clean_default_caps();
    lemma_clean_folders(folders);
    let ci = JsonView::Obj(
        mems2(
            (key_name(), JsonView::Str(encode_utf8(name))),
            (key_version(), JsonView::Str(encode_utf8(version))),
        ),
    );
    lemma_clean_obj2(
        (key_name(), JsonView::Str(encode_utf8(name))),
        (key_version(), JsonView::Str(encode_utf8(version))),
    );
    assert(spec_clean_json(JsonView::Int(process_id as int)));
    lemma_clean_obj5(
        (key_process_id(), JsonView::Int(process_id as int)),
        (key_root_uri(), JsonView::Str(encode_utf8(root_uri))),
        (key_client_info(), ci),
        (key_capabilities(), spec_default_capabilities_json()),
        (key_workspace_folders(), JsonView::Arr(spec_folders_json(folders))),
    );
    assert(spec_clean_json(m.params@));
    lemma_clean_obj4(
        (key_jsonrpc(), JsonView::Str(m.base_message.jsonrpc@)),
        (key_id(), m.id@),
        (key_method(), JsonView::Str(m.method@)),
        (key_params(), m.params@),
    );
    assert(spec_clean_json(spec_request_json(m)));
    crate::parse::lemma_round_trip(spec_request_json(m));
}

} // verus!
