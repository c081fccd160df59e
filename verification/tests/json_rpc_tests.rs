use directory_indexer::mcp::json_rpc::{JsonRpcError, JsonRpcResponse};
use serde_json::Value;

#[test]
fn test_json_rpc_response_success() {
    let id = Some(Value::from(1));
    let result = Value::from("success");
    let response = JsonRpcResponse::success(id.clone(), result.clone());
    assert_eq!(response.jsonrpc, "2.0");
    assert_eq!(response.id, id);
    assert_eq!(response.result, Some(result));
    assert!(response.error.is_none());
}

#[test]
fn test_json_rpc_response_error() {
    let error = JsonRpcError::method_not_found();
    let response = JsonRpcResponse::error(Some(Value::from("test")), error);
    assert_eq!(response.jsonrpc, "2.0");
    assert_eq!(response.id, Some(Value::from("test")));
    assert!(response.result.is_none());
    assert!(response.error.is_some());
    let err = response.error.unwrap();
    assert_eq!(err.code, -32601);
    assert_eq!(err.message, "Method not found");
}

#[test]
fn test_json_rpc_error_codes() {
    let invalid_request = JsonRpcError::invalid_request();
    assert_eq!(invalid_request.code, -32600);
    assert_eq!(invalid_request.message, "Invalid Request");
    assert!(invalid_request.data.is_none());

    let method_not_found = JsonRpcError::method_not_found();
    assert_eq!(method_not_found.code, -32601);
    assert_eq!(method_not_found.message, "Method not found");

    let invalid_params = JsonRpcError::invalid_params("missing param");
    assert_eq!(invalid_params.code, -32602);
    assert_eq!(invalid_params.message, "Invalid params: missing param");

    let internal_error = JsonRpcError::internal_error("server error");
    assert_eq!(internal_error.code, -32603);
    assert_eq!(internal_error.message, "Internal error: server error");
}

#[test]
fn test_json_rpc_protocol_compliance() {
    let success_response = JsonRpcResponse::success(None, Value::from("result"));
    assert_eq!(success_response.jsonrpc, "2.0");
    let error_response = JsonRpcResponse::error(None, JsonRpcError::internal_error("test"));
    assert_eq!(error_response.jsonrpc, "2.0");
}
