use directory_indexer::{IndexerError, Result};

#[test]
fn test_error_display_messages() {
    let io_error = IndexerError::Io("test io error".to_string());
    assert!(io_error.display().contains("IO error"));
    assert!(io_error.display().contains("test io error"));

    let embedding_error = IndexerError::embedding("embedding failed");
    assert_eq!(embedding_error.display(), "Embedding provider error: embedding failed");

    let vector_error = IndexerError::vector_store("qdrant unavailable");
    assert_eq!(vector_error.display(), "Vector store error: qdrant unavailable");

    let file_error = IndexerError::file_processing("cannot read file");
    assert_eq!(file_error.display(), "File processing error: cannot read file");

    let input_error = IndexerError::invalid_input("invalid path");
    assert_eq!(input_error.display(), "Invalid input: invalid path");

    let not_found_error = IndexerError::not_found("file not found");
    assert_eq!(not_found_error.display(), "Resource not found: file not found");

    let mcp_error = IndexerError::mcp("protocol error");
    assert_eq!(mcp_error.display(), "MCP protocol error: protocol error");

    let env_error = IndexerError::environment_setup("qdrant not running");
    assert_eq!(env_error.display(), "Environment setup required: qdrant not running");
}

#[test]
fn test_error_constructor_functions() {
    match IndexerError::embedding("test message") {
        IndexerError::Embedding { message } => assert_eq!(message, "test message"),
        _ => panic!("Expected Embedding error"),
    }
    match IndexerError::vector_store("qdrant error") {
        IndexerError::VectorStore { message } => assert_eq!(message, "qdrant error"),
        _ => panic!("Expected VectorStore error"),
    }
    match IndexerError::file_processing("read failed") {
        IndexerError::FileProcessing { message } => assert_eq!(message, "read failed"),
        _ => panic!("Expected FileProcessing error"),
    }
    match IndexerError::invalid_input("bad input") {
        IndexerError::InvalidInput { message } => assert_eq!(message, "bad input"),
        _ => panic!("Expected InvalidInput error"),
    }
    match IndexerError::not_found("missing") {
        IndexerError::NotFound { message } => assert_eq!(message, "missing"),
        _ => panic!("Expected NotFound error"),
    }
    match IndexerError::mcp("rpc error") {
        IndexerError::Mcp { message } => assert_eq!(message, "rpc error"),
        _ => panic!("Expected Mcp error"),
    }
    match IndexerError::environment_setup("setup needed") {
        IndexerError::EnvironmentSetup { message } => assert_eq!(message, "setup needed"),
        _ => panic!("Expected EnvironmentSetup error"),
    }
}

#[test]
fn test_error_debug_format() {
    let error = IndexerError::embedding("debug test");
    let debug_str = format!("{:?}", error);
    assert!(debug_str.contains("Embedding"));
    assert!(debug_str.contains("debug test"));
}

#[test]
fn test_error_string_conversion() {
    let owned = String::from("owned string");
    let error1 = IndexerError::embedding(&owned);
    let error2 = IndexerError::embedding("borrowed string");
    match (&error1, &error2) {
        (IndexerError::Embedding { message: msg1 }, IndexerError::Embedding { message: msg2 }) => {
            assert_eq!(msg1, "owned string");
            assert_eq!(msg2, "borrowed string");
        }
        _ => panic!("Expected Embedding errors"),
    }
}

#[test]
fn test_result_type_alias() {
    fn returns_result() -> Result<i32> {
        Ok(42)
    }
    fn returns_error() -> Result<i32> {
        Err(IndexerError::invalid_input("test error"))
    }
    assert_eq!(returns_result().unwrap(), 42);
    assert!(returns_error().is_err());
}

#[test]
fn display_of_outside_errors() {
    assert_eq!(IndexerError::Database("locked".to_string()).display(), "Database error: locked");
    assert_eq!(IndexerError::Http("timeout".to_string()).display(), "HTTP request error: timeout");
    assert_eq!(IndexerError::Json("eof".to_string()).display(), "JSON serialization error: eof");
    assert_eq!(IndexerError::Config("bad".to_string()).display(), "Configuration error: bad");
}
