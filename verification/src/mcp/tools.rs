//! The tools the MCP server offers, each with the schema of its arguments.
use vstd::prelude::*;

use crate::strings::{str_eq, to_owned_string, views};

verus! {

/// One argument of a tool: its name, its JSON type, what it is for, and its
/// default, if it has one.
#[derive(Debug, Clone, PartialEq, Eq)]
pub struct ToolProperty {
    pub name: String,
    pub value_type: String,
    pub description: String,
    pub default: Option<u64>,
}

/// The schema of a tool's arguments: a JSON object with these properties,
/// of which the `required` ones must be given.
#[derive(Debug, Clone, PartialEq, Eq)]
pub struct ToolSchema {
    pub properties: Vec<ToolProperty>,
    pub required: Vec<String>,
}

/// A tool: its name, what it does, and the schema of its arguments.
#[derive(Debug, Clone, PartialEq, Eq)]
pub struct McpTool {
    pub name: String,
    pub description: String,
    pub input_schema: ToolSchema,
}

/// A property as plain values.
pub open spec fn property_view(p: ToolProperty) -> (Seq<char>, Seq<char>, Seq<char>, Option<u64>) {
    (p.name@, p.value_type@, p.description@, p.default)
}

/// A tool as plain values: name, description, properties, required names.
pub open spec fn tool_view(t: McpTool) -> (
    Seq<char>,
    Seq<char>,
    Seq<(Seq<char>, Seq<char>, Seq<char>, Option<u64>)>,
    Seq<Seq<char>>,
) {
    (
        t.name@,
        t.description@,
        t.input_schema.properties@.map_values(|p: ToolProperty| property_view(p)),
        views(t.input_schema.required@),
    )
}

/// The `index` tool.
pub open spec fn index_tool_spec() -> (
    Seq<char>,
    Seq<char>,
    Seq<(Seq<char>, Seq<char>, Seq<char>, Option<u64>)>,
    Seq<Seq<char>>,
) {
    (
        "index"@,
        "Index directories for semantic search"@,
        seq![
            (
                "directory_path"@,
                "string"@,
                "Path to directory to index (or comma-separated paths)"@,
                None,
            ),
        ],
        seq!["directory_path"@],
    )
}

/// The `search` tool.
pub open spec fn search_tool_spec() -> (
    Seq<char>,
    Seq<char>,
    Seq<(Seq<char>, Seq<char>, Seq<char>, Option<u64>)>,
    Seq<Seq<char>>,
) {
    (
        "search"@,
        "Search indexed content semantically"@,
        seq![
            ("query"@, "string"@, "Search query"@, None),
            ("directory_path"@, "string"@, "Optional directory to scope search to"@, None),
            ("limit"@, "integer"@, "Maximum number of results to return"@, Some(10u64)),
        ],
        seq!["query"@],
    )
}

/// The `similar_files` tool.
pub open spec fn similar_files_tool_spec() -> (
    Seq<char>,
    Seq<char>,
    Seq<(Seq<char>, Seq<char>, Seq<char>, Option<u64>)>,
    Seq<Seq<char>>,
) {
    (
        "similar_files"@,
        "Find files similar to a given file"@,
        seq![
            ("file_path"@, "string"@, "Path to the reference file"@, None),
            ("limit"@, "integer"@, "Maximum number of similar files to return"@, Some(10u64)),
        ],
        seq!["file_path"@],
    )
}

/// The `get_content` tool.
pub open spec fn get_content_tool_spec() -> (
    Seq<char>,
    Seq<char>,
    Seq<(Seq<char>, Seq<char>, Seq<char>, Option<u64>)>,
    Seq<Seq<char>>,
) {
    (
        "get_content"@,
        "Get file content with optional chunk selection"@,
        seq![
            ("file_path"@, "string"@, "Path to the file"@, None),
            ("chunks"@, "string"@, "Optional chunk range (e.g., '2-5')"@, None),
        ],
        seq!["file_path"@],
    )
}

/// The `server_info` tool.
pub open spec fn server_info_tool_spec() -> (
    Seq<char>,
    Seq<char>,
    Seq<(Seq<char>, Seq<char>, Seq<char>, Option<u64>)>,
    Seq<Seq<char>>,
) {
    ("server_info"@, "Get server information and statistics"@, seq![], seq![])
}

fn property(name: &str, value_type: &str, description: &str, default: Option<u64>) -> (p: ToolProperty)
    ensures
        property_view(p) == (name@, value_type@, description@, default),
{
    ToolProperty {
        name: to_owned_string(name),
        value_type: to_owned_string(value_type),
        description: to_owned_string(description),
        default,
    }
}

impl ToolSchema {
    /// The JSON type of the arguments: always an object.
    pub fn schema_type(&self) -> (t: &'static str)
        ensures
            t@ == "object"@,
    {
        "object"
    }

    /// The property called `name`, if the schema has one.
    pub fn property(&self, name: &str) -> (p: Option<&ToolProperty>)
        ensures
            match p {
                Some(q) => exists|i: int|
                    0 <= i < self.properties@.len() && self.properties@[i] == *q && q.name@ == name@,
                None => forall|i: int|
                    0 <= i < self.properties@.len() ==> (#[trigger] self.properties@[i]).name@ != name@,
            },
    {
        let mut i: usize = 0;
        while i < self.properties.len()
            invariant
                i <= self.properties@.len(),
                forall|j: int| 0 <= j < i ==> (#[trigger] self.properties@[j]).name@ != name@,
            decreases self.properties.len() - i,
        {
            if str_eq(self.properties[i].name.as_str(), name) {
                return Some(&self.properties[i]);
            }
            i = i + 1;
        }
        None
    }
}

impl McpTool {
    /// The tool that indexes directories.
    pub fn index_tool() -> (t: Self)
        ensures
            tool_view(t) == index_tool_spec(),
    {
        let mut properties = Vec::new();
        properties.push(
            property(
                "directory_path",
                "string",
                "Path to directory to index (or comma-separated paths)",
                None,
            ),
        );
        let mut required = Vec::new();
        required.push(to_owned_string("directory_path"));
        let t = McpTool {
            name: to_owned_string("index"),
            description: to_owned_string("Index directories for semantic search"),
            input_schema: ToolSchema { properties, required },
        };
        assert(tool_view(t).2 =~= index_tool_spec().2);
        assert(tool_view(t).3 =~= index_tool_spec().3);
        t
    }

    /// The tool that searches the indexed content.
    pub fn search_tool() -> (t: Self)
        ensures
            tool_view(t) == search_tool_spec(),
    {
        let mut properties = Vec::new();
        properties.push(property("query", "string", "Search query", None));
        properties.push(
            property("directory_path", "string", "Optional directory to scope search to", None),
        );
        properties.push(property("limit", "integer", "Maximum number of results to return", Some(10)));
        let mut required = Vec::new();
        required.push(to_owned_string("query"));
        let t = McpTool {
            name: to_owned_string("search"),
            description: to_owned_string("Search indexed content semantically"),
            input_schema: ToolSchema { properties, required },
        };
        assert(tool_view(t).2 =~= search_tool_spec().2);
        assert(tool_view(t).3 =~= search_tool_spec().3);
        t
    }

    /// The tool that finds files similar to a file.
    pub fn similar_files_tool() -> (t: Self)
        ensures
            tool_view(t) == similar_files_tool_spec(),
    {
        let mut properties = Vec::new();
        properties.push(property("file_path", "string", "Path to the reference file", None));
        properties.push(
            property("limit", "integer", "Maximum number of similar files to return", Some(10)),
        );
        let mut required = Vec::new();
        required.push(to_owned_string("file_path"));
        let t = McpTool {
            name: to_owned_string("similar_files"),
            description: to_owned_string("Find files similar to a given file"),
            input_schema: ToolSchema { properties, required },
        };
        assert(tool_view(t).2 =~= similar_files_tool_spec().2);
        assert(tool_view(t).3 =~= similar_files_tool_spec().3);
        t
    }

    /// The tool that reads a file's content.
    pub fn get_content_tool() -> (t: Self)
        ensures
            tool_view(t) == get_content_tool_spec(),
    {
        let mut properties = Vec::new();
        properties.push(property("file_path", "string", "Path to the file", None));
        properties.push(property("chunks", "string", "Optional chunk range (e.g., '2-5')", None));
        let mut required = Vec::new();
        required.push(to_owned_string("file_path"));
        let t = McpTool {
            name: to_owned_string("get_content"),
            description: to_owned_string("Get file content with optional chunk selection"),
            input_schema: ToolSchema { properties, required },
        };
        assert(tool_view(t).2 =~= get_content_tool_spec().2);
        assert(tool_view(t).3 =~= get_content_tool_spec().3);
        t
    }

    /// The tool that reports on the server.
    pub fn server_info_tool() -> (t: Self)
        ensures
            tool_view(t) == server_info_tool_spec(),
    {
        let t = McpTool {
            name: to_owned_string("server_info"),
            description: to_owned_string("Get server information and statistics"),
            input_schema: ToolSchema { properties: Vec::new(), required: Vec::new() },
        };
        assert(tool_view(t).2 =~= server_info_tool_spec().2);
        assert(tool_view(t).3 =~= server_info_tool_spec().3);
        t
    }

    /// Every tool, in the order they are listed.
    pub fn all_tools() -> (tools: Vec<Self>)
        ensures
            tools@.map_values(|t: McpTool| tool_view(t)) == seq![
                index_tool_spec(),
                search_tool_spec(),
                similar_files_tool_spec(),
                get_content_tool_spec(),
                server_info_tool_spec(),
            ],
    {
        let mut tools = Vec::new();
        tools.push(Self::index_tool());
        tools.push(Self::search_tool());
        tools.push(Self::similar_files_tool());
        tools.push(Self::get_content_tool());
        tools.push(Self::server_info_tool());
        assert(tools@.map_values(|t: McpTool| tool_view(t)) =~= seq![
            index_tool_spec(),
            search_tool_spec(),
            similar_files_tool_spec(),
            get_content_tool_spec(),
            server_info_tool_spec(),
        ]);
        tools
    }
}

} // verus!
