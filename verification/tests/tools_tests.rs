use directory_indexer::mcp::tools::{McpTool, ToolProperty};

fn prop<'a>(tool: &'a McpTool, name: &str) -> &'a ToolProperty {
    tool.input_schema.property(name).expect("property should exist")
}

#[test]
fn test_index_tool_schema() {
    let tool = McpTool::index_tool();
    assert_eq!(tool.name, "index");
    assert_eq!(tool.description, "Index directories for semantic search");
    let schema = &tool.input_schema;
    assert_eq!(schema.schema_type(), "object");
    assert_eq!(prop(&tool, "directory_path").value_type, "string");
    assert_eq!(schema.required[0], "directory_path");
}

#[test]
fn test_search_tool_schema() {
    let tool = McpTool::search_tool();
    assert_eq!(tool.name, "search");
    assert_eq!(tool.description, "Search indexed content semantically");
    assert_eq!(tool.input_schema.schema_type(), "object");
    assert_eq!(prop(&tool, "query").value_type, "string");
    assert_eq!(prop(&tool, "directory_path").value_type, "string");
    assert_eq!(prop(&tool, "limit").value_type, "integer");
    assert_eq!(prop(&tool, "limit").default, Some(10));
    assert_eq!(tool.input_schema.required[0], "query");
}

#[test]
fn test_similar_files_tool_schema() {
    let tool = McpTool::similar_files_tool();
    assert_eq!(tool.name, "similar_files");
    assert_eq!(tool.description, "Find files similar to a given file");
    assert_eq!(prop(&tool, "file_path").value_type, "string");
    assert_eq!(prop(&tool, "limit").value_type, "integer");
    assert_eq!(prop(&tool, "limit").default, Some(10));
    assert_eq!(tool.input_schema.required[0], "file_path");
}

#[test]
fn test_get_content_tool_schema() {
    let tool = McpTool::get_content_tool();
    assert_eq!(tool.name, "get_content");
    assert_eq!(tool.description, "Get file content with optional chunk selection");
    assert_eq!(prop(&tool, "file_path").value_type, "string");
    assert_eq!(prop(&tool, "chunks").value_type, "string");
    assert_eq!(tool.input_schema.required[0], "file_path");
}

#[test]
fn test_server_info_tool_schema() {
    let tool = McpTool::server_info_tool();
    assert_eq!(tool.name, "server_info");
    assert_eq!(tool.description, "Get server information and statistics");
    assert_eq!(tool.input_schema.schema_type(), "object");
    assert!(tool.input_schema.properties.is_empty());
}

#[test]
fn test_all_tools_completeness() {
    let all_tools = McpTool::all_tools();
    assert_eq!(all_tools.len(), 5);
    let tool_names: Vec<&str> = all_tools.iter().map(|t| t.name.as_str()).collect();
    for name in ["index", "search", "similar_files", "get_content", "server_info"] {
        assert!(tool_names.contains(&name));
    }
}

#[test]
fn test_schema_validation_structure() {
    for tool in McpTool::all_tools() {
        assert_eq!(tool.input_schema.schema_type(), "object");
        assert!(!tool.name.is_empty());
        assert!(!tool.description.is_empty());
    }
}

#[test]
fn test_tool_parameter_descriptions() {
    for tool in McpTool::all_tools() {
        for p in &tool.input_schema.properties {
            assert!(!p.description.is_empty(), "Parameter '{}' in tool '{}' has empty description", p.name, tool.name);
        }
    }
}

#[test]
fn test_required_parameters_exist() {
    for tool in McpTool::all_tools() {
        for required in &tool.input_schema.required {
            assert!(
                tool.input_schema.property(required).is_some(),
                "Required parameter '{required}' not defined in properties for tool '{}'",
                tool.name
            );
        }
    }
}

#[test]
fn test_tool_clone_and_debug() {
    let tool = McpTool::index_tool();
    let cloned = tool.clone();
    assert_eq!(tool.name, cloned.name);
    assert_eq!(tool.description, cloned.description);
    assert_eq!(tool.input_schema, cloned.input_schema);
    let debug_output = format!("{tool:?}");
    assert!(debug_output.contains("McpTool"));
    assert!(debug_output.contains("index"));
}

#[test]
fn test_specific_tool_parameters() {
    let index_tool = McpTool::index_tool();
    assert!(prop(&index_tool, "directory_path").description.contains("comma-separated"));

    let search_tool = McpTool::search_tool();
    assert!(search_tool.input_schema.property("query").is_some());
    assert!(search_tool.input_schema.property("directory_path").is_some());
    assert!(search_tool.input_schema.property("limit").is_some());
    assert_eq!(search_tool.input_schema.required.len(), 1);
    assert_eq!(search_tool.input_schema.required[0], "query");

    let get_tool = McpTool::get_content_tool();
    assert!(get_tool.input_schema.property("file_path").is_some());
    assert!(get_tool.input_schema.property("chunks").is_some());
    assert_eq!(get_tool.input_schema.required.len(), 1);
    assert_eq!(get_tool.input_schema.required[0], "file_path");
    assert!(get_tool.input_schema.property("missing").is_none());
}
