use directory_indexer::mcp::tools::McpTool;
use directory_indexer::config::Config;
use directory_indexer::mcp::server::{McpMethod, McpServer, ToolName};
use directory_indexer::search::engine::SearchResult;
use directory_indexer::IndexerError;

#[test]
fn methods_are_routed() {
    assert_eq!(McpServer::route_method("initialize"), McpMethod::Initialize);
    assert_eq!(McpServer::route_method("notifications/initialized"), McpMethod::NotificationsInitialized);
    assert_eq!(McpServer::route_method("tools/list"), McpMethod::ToolsList);
    assert_eq!(McpServer::route_method("tools/call"), McpMethod::ToolsCall);
    assert_eq!(McpServer::route_method("resources/list"), McpMethod::ResourcesList);
    assert_eq!(McpServer::route_method("resources/templates/list"), McpMethod::ResourcesTemplatesList);
    assert_eq!(McpServer::route_method("unknown_method"), McpMethod::Unknown);
}

#[test]
fn tool_calls_are_checked() {
    let e = McpServer::tool_to_call(false, None).unwrap_err();
    assert_eq!(e.code, -32602);
    assert!(e.message.contains("Missing params"));
    let e = McpServer::tool_to_call(true, None).unwrap_err();
    assert_eq!(e.code, -32602);
    assert!(e.message.contains("Missing tool name"));
    let e = McpServer::tool_to_call(true, Some("unknown_tool")).unwrap_err();
    assert_eq!(e.code, -32601);
    assert_eq!(McpServer::tool_to_call(true, Some("server_info")).unwrap(), ToolName::ServerInfo);
    assert_eq!(McpServer::tool_to_call(true, Some("get_content")).unwrap(), ToolName::GetContent);
}

#[test]
fn required_arguments_and_paths() {
    let e = McpServer::required_argument(None, "directory_path").unwrap_err();
    assert_eq!(e.code, -32602);
    assert_eq!(e.message, "Invalid params: missing required parameter: directory_path");
    assert_eq!(McpServer::required_argument(Some("q"), "query").unwrap(), "q");
    assert_eq!(McpServer::index_paths(" /a , /b,/c "), vec!["/a", "/b", "/c"]);
    assert_eq!(McpServer::index_paths("/one"), vec!["/one"]);
}

#[test]
fn chunk_range_arguments() {
    assert_eq!(McpServer::chunk_range_argument(None).unwrap(), None);
    assert_eq!(McpServer::chunk_range_argument(Some("1-3")).unwrap(), Some((1, 3)));
    assert_eq!(McpServer::chunk_range_argument(Some("4")).unwrap(), Some((4, 4)));
    let e = McpServer::chunk_range_argument(Some("3-1")).unwrap_err();
    assert_eq!(e.code, -32602);
    assert_eq!(
        e.message,
        "Invalid params: Invalid chunk range: Invalid input: Start chunk must be less than or equal to end chunk"
    );
}

#[test]
fn server_texts() {
    let config = Config::with_app_dir("/data");
    let server = McpServer::new(config).unwrap();
    let info = server.server_info_text("1.2.3");
    assert!(info.starts_with("Directory Indexer MCP Server v1.2.3\n\nStatus:\n- Server running"));
    assert!(info.contains("- SQLite path: /data/data.db"));
    assert!(info.contains("- Qdrant endpoint: http://localhost:6333"));
    assert!(info.ends_with("- Available tools: index, search, similar_files, get_content, server_info"));

    let paths = vec!["/a".to_string(), "/b".to_string()];
    assert_eq!(McpServer::index_text(&paths), "Successfully indexed 2 directories:\n- /a\n- /b");

    let r = SearchResult {
        file_path: "/d/x.rs".to_string(),
        chunk_id: 3,
        score: 0.25f32.to_bits(),
        parent_directories: vec!["/d".to_string()],
    };
    let text = McpServer::search_text("find", Some("/d"), Some(5), &vec![r.clone()], &vec!["0.250".to_string()]);
    assert_eq!(
        text,
        "Search completed for query: 'find'\nScope: /d\nLimit: 5\nFound 1 results\n\nSearch Results:\n==============\n\n1. /d/x.rs (score: 0.250)\n   Chunk: 3\n   Path: /d\n"
    );
    let none = McpServer::search_text("find", None, None, &vec![], &vec![]);
    assert_eq!(none, "Search completed for query: 'find'\nFound 0 results\n\nNo results found for the given query.");
    let similar = McpServer::similar_files_text("/me", 10, &vec![r], &vec!["0.250".to_string()]);
    assert_eq!(
        similar,
        "Similar files search completed for: /me\nLimit: 10\nFound 1 similar files\n\nSimilar Files:\n==============\n\n1. /d/x.rs (score: 0.250)\n   Best matching chunk: 3\n"
    );
    assert_eq!(
        McpServer::content_text("/f", Some("1-2"), "body"),
        "Content retrieved from: /f\nChunks: 1-2\n\n--- FILE CONTENT ---\nbody"
    );
    let failure = McpServer::tool_failure("Search failed", &IndexerError::vector_store("down"));
    assert_eq!(failure.code, -32603);
    assert_eq!(failure.message, "Internal error: Search failed: Vector store error: down");
}

#[test]
fn every_listed_tool_can_be_called() {
    for tool in McpTool::all_tools() {
        assert!(McpServer::tool_to_call(true, Some(&tool.name)).is_ok(), "{} is not callable", tool.name);
    }
}
