//! JSON-RPC 2.0 messages: requests, responses and the protocol's errors.
//! Identifiers, parameters and results are JSON values that the server
//! carries through without looking inside.
use vstd::prelude::*;

use crate::strings::{concat, to_owned_string};

verus! {

/// A JSON value (`serde_json::Value`), carried through unread.
#[verifier::external_type_specification]
#[verifier::external_body]
pub struct ExJsonValue(serde_json::Value);

/// A request: a method, its parameters, and the identifier the answer
/// repeats (none for a notification).
#[derive(Debug, Clone)]
pub struct JsonRpcRequest {
    pub jsonrpc: String,
    pub id: Option<serde_json::Value>,
    pub method: String,
    pub params: Option<serde_json::Value>,
}

/// An answer: a result or an error, never both.
#[derive(Debug, Clone)]
pub struct JsonRpcResponse {
    pub jsonrpc: String,
    pub id: Option<serde_json::Value>,
    pub result: Option<serde_json::Value>,
    pub error: Option<JsonRpcError>,
}

/// A protocol error: its code, its message, and optional data.
#[derive(Debug, Clone)]
pub struct JsonRpcError {
    pub code: i32,
    pub message: String,
    pub data: Option<serde_json::Value>,
}

/// The protocol version every answer names.
pub open spec fn protocol_version() -> Seq<char> {
    "2.0"@
}

/// `e` is the error with this code and message, and no data.
pub open spec fn is_rpc_error(e: JsonRpcError, code: int, message: Seq<char>) -> bool {
    e.code == code && e.message@ == message && e.data is None
}

impl JsonRpcResponse {
    /// The answer carrying `result`.
    pub fn success(id: Option<serde_json::Value>, result: serde_json::Value) -> (r: Self)
        ensures
            r.jsonrpc@ == protocol_version(),
            r.id == id,
            r.result == Some(result),
            r.error is None,
    {
        JsonRpcResponse { jsonrpc: to_owned_string("2.0"), id, result: Some(result), error: None }
    }

    /// The answer carrying `error`.
    pub fn error(id: Option<serde_json::Value>, error: JsonRpcError) -> (r: Self)
        ensures
            r.jsonrpc@ == protocol_version(),
            r.id == id,
            r.result is None,
            r.error == Some(error),
    {
        JsonRpcResponse { jsonrpc: to_owned_string("2.0"), id, result: None, error: Some(error) }
    }
}

impl JsonRpcError {
    /// The request could not be read (-32600).
    pub fn invalid_request() -> (e: Self)
        ensures
            is_rpc_error(e, -32600, "Invalid Request"@),
    {
        JsonRpcError { code: -32600, message: to_owned_string("Invalid Request"), data: None }
    }

    /// The method does not exist (-32601).
    pub fn method_not_found() -> (e: Self)
        ensures
            is_rpc_error(e, -32601, "Method not found"@),
    {
        JsonRpcError { code: -32601, message: to_owned_string("Method not found"), data: None }
    }

    /// The parameters are wrong (-32602).
    pub fn invalid_params(message: &str) -> (e: Self)
        ensures
            is_rpc_error(e, -32602, "Invalid params: "@ + message@),
    {
        JsonRpcError { code: -32602, message: concat("Invalid params: ", message), data: None }
    }

    /// The server failed (-32603).
    pub fn internal_error(message: &str) -> (e: Self)
        ensures
            is_rpc_error(e, -32603, "Internal error: "@ + message@),
    {
        JsonRpcError { code: -32603, message: concat("Internal error: ", message), data: None }
    }
}

} // verus!
