//! The decisions of the MCP server: which method and tool a request names,
//! which arguments it lacks, and the text each tool answers with. Reading
//! requests and writing answers is the caller's part.
use vstd::prelude::*;

use crate::cli::commands::{
    chunk_range_bounds, chunk_range_error, lemma_accepted_range_is_readable, parse_chunk_range,
    validate_chunk_range,
};
use crate::config::Config;
use crate::error::{display_spec, IndexerError, Result};
use crate::mcp::json_rpc::{is_rpc_error, JsonRpcError};
use crate::mcp::tools::{
    get_content_tool_spec, index_tool_spec, search_tool_spec, server_info_tool_spec,
    similar_files_tool_spec,
};
use crate::search::engine::SearchResult;
use crate::strings::{
    append_str, concat, decimal, is_suffix, is_trim_of, join_spec, join_strings, split_char, split_spec,
    str_eq, to_owned_string, trim, usize_to_decimal, views,
};

verus! {

/// The MCP server and the configuration it reports on.
pub struct McpServer {
    config: Config,
}

/// The methods the server answers.
#[derive(Debug, Clone, Copy, PartialEq, Eq)]
pub enum McpMethod {
    Initialize,
    NotificationsInitialized,
    ToolsList,
    ToolsCall,
    ResourcesList,
    ResourcesTemplatesList,
    /// Any other method, which is not found.
    Unknown,
}

/// The tools a call can name.
#[derive(Debug, Clone, Copy, PartialEq, Eq)]
pub enum ToolName {
    ServerInfo,
    Index,
    Search,
    SimilarFiles,
    GetContent,
}

/// The method a request names.
pub open spec fn method_spec(m: Seq<char>) -> McpMethod {
    if m == "initialize"@ {
        McpMethod::Initialize
    } else if m == "notifications/initialized"@ {
        McpMethod::NotificationsInitialized
    } else if m == "tools/list"@ {
        McpMethod::ToolsList
    } else if m == "tools/call"@ {
        McpMethod::ToolsCall
    } else if m == "resources/list"@ {
        McpMethod::ResourcesList
    } else if m == "resources/templates/list"@ {
        McpMethod::ResourcesTemplatesList
    } else {
        McpMethod::Unknown
    }
}

/// The tool a call names, if it is one of the server's.
pub open spec fn tool_spec(name: Seq<char>) -> Option<ToolName> {
    if name == "server_info"@ {
        Some(ToolName::ServerInfo)
    } else if name == "index"@ {
        Some(ToolName::Index)
    } else if name == "search"@ {
        Some(ToolName::Search)
    } else if name == "similar_files"@ {
        Some(ToolName::SimilarFiles)
    } else if name == "get_content"@ {
        Some(ToolName::GetContent)
    } else {
        None
    }
}

/// The directories an index call names: its argument split at commas, each
/// piece trimmed.
pub open spec fn index_paths_spec(argument: Seq<char>, paths: Seq<Seq<char>>) -> bool {
    &&& paths.len() == split_spec(argument, ',').len()
    &&& forall|i: int| 0 <= i < paths.len() ==> is_trim_of(#[trigger] paths[i], split_spec(argument, ',')[i])
}

/// The text that names the directories an index call indexed.
pub open spec fn index_text_spec(paths: Seq<Seq<char>>) -> Seq<char> {
    "Successfully indexed "@ + decimal(paths.len()) + " directories:\n"@ + join_spec(
        paths.map_values(|p: Seq<char>| "- "@ + p),
        "\n"@,
    )
}

/// The server's report on itself.
pub open spec fn server_info_spec(version: Seq<char>, config: Config) -> Seq<char> {
    "Directory Indexer MCP Server v"@ + version + "\n\nStatus:\n- Server running\n- Configuration loaded\n- SQLite path: "@
        + config.storage.sqlite_path@ + "\n- Qdrant endpoint: "@ + config.storage.qdrant.endpoint@
        + "\n- Embedding provider: "@ + config.embedding.provider@
        + "\n- Available tools: index, search, similar_files, get_content, server_info"@
}

/// The lines of one search hit, numbered from 1, with its score as the
/// caller rendered it.
pub open spec fn search_entry_spec(i: int, r: SearchResult, score: Seq<char>) -> Seq<char> {
    "\n"@ + decimal((i + 1) as nat) + ". "@ + r.file_path@ + " (score: "@ + score + ")\n"@
        + "   Chunk: "@ + decimal(r.chunk_id as nat) + "\n"@ + if r.parent_directories@.len() == 0 {
        Seq::<char>::empty()
    } else {
        "   Path: "@ + join_spec(views(r.parent_directories@), " > "@) + "\n"@
    }
}

/// The lines of the search hits in order.
pub open spec fn search_entries_spec(rs: Seq<SearchResult>, scores: Seq<String>) -> Seq<char>
    decreases rs.len(),
{
    if rs.len() == 0 || scores.len() != rs.len() {
        Seq::<char>::empty()
    } else {
        search_entries_spec(rs.drop_last(), scores.drop_last()) + search_entry_spec(
            rs.len() - 1,
            rs.last(),
            scores.last()@,
        )
    }
}

/// The answer of a search call.
pub open spec fn search_text_spec(
    query: Seq<char>,
    directory_path: Option<Seq<char>>,
    limit: Option<usize>,
    rs: Seq<SearchResult>,
    scores: Seq<String>,
) -> Seq<char> {
    "Search completed for query: '"@ + query + "'\n"@ + match directory_path {
        Some(p) => "Scope: "@ + p + "\n"@,
        None => Seq::<char>::empty(),
    } + match limit {
        Some(l) => "Limit: "@ + decimal(l as nat) + "\n"@,
        None => Seq::<char>::empty(),
    } + "Found "@ + decimal(rs.len()) + " results\n\n"@ + if rs.len() == 0 {
        "No results found for the given query."@
    } else {
        "Search Results:\n==============\n"@ + search_entries_spec(rs, scores)
    }
}

/// The lines of one similar file, numbered from 1.
pub open spec fn similar_entry_spec(i: int, r: SearchResult, score: Seq<char>) -> Seq<char> {
    "\n"@ + decimal((i + 1) as nat) + ". "@ + r.file_path@ + " (score: "@ + score + ")\n"@
        + "   Best matching chunk: "@ + decimal(r.chunk_id as nat) + "\n"@
}

/// The lines of the similar files in order.
pub open spec fn similar_entries_spec(rs: Seq<SearchResult>, scores: Seq<String>) -> Seq<char>
    decreases rs.len(),
{
    if rs.len() == 0 || scores.len() != rs.len() {
        Seq::<char>::empty()
    } else {
        similar_entries_spec(rs.drop_last(), scores.drop_last()) + similar_entry_spec(
            rs.len() - 1,
            rs.last(),
            scores.last()@,
        )
    }
}

/// The search answer lists every hit, in order: its entries are the entries
/// of hits `0..n`, numbered `1..=n`, one after the other, and the answer
/// ends with them when there is a hit.
pub proof fn lemma_search_lists_every_hit(
    query: Seq<char>,
    directory_path: Option<Seq<char>>,
    limit: Option<usize>,
    rs: Seq<SearchResult>,
    scores: Seq<String>,
)
    requires
        scores.len() == rs.len(),
    ensures
        search_entries_spec(rs, scores) == Seq::new(
            rs.len(),
            |i: int| search_entry_spec(i, rs[i], scores[i]@),
        ).flatten(),
        rs.len() > 0 ==> is_suffix(
            Seq::new(rs.len(), |i: int| search_entry_spec(i, rs[i], scores[i]@)).flatten(),
            search_text_spec(query, directory_path, limit, rs, scores),
        ),
    decreases rs.len(),
{
    let e = Seq::new(rs.len(), |i: int| search_entry_spec(i, rs[i], scores[i]@));
    if rs.len() > 0 {
        let rs0 = rs.drop_last();
        let sc0 = scores.drop_last();
        lemma_search_lists_every_hit(query, directory_path, limit, rs0, sc0);
        let e0 = Seq::new(rs0.len(), |i: int| search_entry_spec(i, rs0[i], sc0[i]@));
        assert(e.drop_last() =~= e0);
        e.lemma_flatten_and_flatten_alt_are_equivalent();
        e0.lemma_flatten_and_flatten_alt_are_equivalent();
        assert(e.flatten_alt() == e0.flatten_alt() + e.last());
        let t = search_text_spec(query, directory_path, limit, rs, scores);
        let f = e.flatten();
        let pre = t.len() - f.len();
        assert(t.subrange(pre, t.len() as int) =~= f);
    } else {
        assert(e.flatten() =~= Seq::<char>::empty());
    }
}

/// The similar-files answer lists every file found, in order: its entries are
/// the entries of files `0..n`, numbered `1..=n`, one after the other, and
/// the answer ends with them when a file was found.
pub proof fn lemma_similar_lists_every_file(
    file_path: Seq<char>,
    limit: usize,
    rs: Seq<SearchResult>,
    scores: Seq<String>,
)
    requires
        scores.len() == rs.len(),
    ensures
        similar_entries_spec(rs, scores) == Seq::new(
            rs.len(),
            |i: int| similar_entry_spec(i, rs[i], scores[i]@),
        ).flatten(),
        rs.len() > 0 ==> is_suffix(
            Seq::new(rs.len(), |i: int| similar_entry_spec(i, rs[i], scores[i]@)).flatten(),
            similar_text_spec(file_path, limit, rs, scores),
        ),
    decreases rs.len(),
{
    let e = Seq::new(rs.len(), |i: int| similar_entry_spec(i, rs[i], scores[i]@));
    if rs.len() > 0 {
        let rs0 = rs.drop_last();
        let sc0 = scores.drop_last();
        lemma_similar_lists_every_file(file_path, limit, rs0, sc0);
        let e0 = Seq::new(rs0.len(), |i: int| similar_entry_spec(i, rs0[i], sc0[i]@));
        assert(e.drop_last() =~= e0);
        e.lemma_flatten_and_flatten_alt_are_equivalent();
        e0.lemma_flatten_and_flatten_alt_are_equivalent();
        assert(e.flatten_alt() == e0.flatten_alt() + e.last());
        let t = similar_text_spec(file_path, limit, rs, scores);
        let f = e.flatten();
        let pre = t.len() - f.len();
        assert(t.subrange(pre, t.len() as int) =~= f);
    } else {
        assert(e.flatten() =~= Seq::<char>::empty());
    }
}

/// The answer of a similar-files call.
pub open spec fn similar_text_spec(
    file_path: Seq<char>,
    limit: usize,
    rs: Seq<SearchResult>,
    scores: Seq<String>,
) -> Seq<char> {
    "Similar files search completed for: "@ + file_path + "\nLimit: "@ + decimal(limit as nat)
        + "\n"@ + "Found "@ + decimal(rs.len()) + " similar files\n\n"@ + if rs.len() == 0 {
        "No similar files found."@
    } else {
        "Similar Files:\n==============\n"@ + similar_entries_spec(rs, scores)
    }
}

/// The answer of a content call.
pub open spec fn content_text_spec(file_path: Seq<char>, chunks: Option<Seq<char>>, content: Seq<char>) -> Seq<
    char,
> {
    "Content retrieved from: "@ + file_path + "\n"@ + match chunks {
        Some(c) => "Chunks: "@ + c + "\n"@,
        None => Seq::<char>::empty(),
    } + "\n--- FILE CONTENT ---\n"@ + content
}

/// Every tool the server lists can be called by the name it is listed
/// under, and names the tool it describes.
pub proof fn lemma_listed_tools_are_callable()
    ensures
        tool_spec(index_tool_spec().0) == Some(ToolName::Index),
        tool_spec(search_tool_spec().0) == Some(ToolName::Search),
        tool_spec(similar_files_tool_spec().0) == Some(ToolName::SimilarFiles),
        tool_spec(get_content_tool_spec().0) == Some(ToolName::GetContent),
        tool_spec(server_info_tool_spec().0) == Some(ToolName::ServerInfo),
{
    reveal_strlit("server_info");
    reveal_strlit("index");
    reveal_strlit("search");
    reveal_strlit("similar_files");
    reveal_strlit("get_content");
    assert("get_content"@[0] != "server_info"@[0]);
    assert("search"@.len() != "server_info"@.len() && "search"@.len() != "index"@.len());
    assert("similar_files"@.len() != "server_info"@.len() && "similar_files"@.len() != "index"@.len()
        && "similar_files"@.len() != "search"@.len());
}

/// Appends the lines of search hit `i` to `t`.
fn append_search_entry(t: &mut String, i: usize, r: &SearchResult, score: &str)
    requires
        i < usize::MAX,
    ensures
        final(t)@ == old(t)@ + search_entry_spec(i as int, *r, score@),
{
    let ghost start = t@;
    append_str(t, "\n");
    append_str(t, usize_to_decimal(i + 1).as_str());
    append_str(t, ". ");
    append_str(t, r.file_path.as_str());
    append_str(t, " (score: ");
    append_str(t, score);
    append_str(t, ")\n");
    append_str(t, "   Chunk: ");
    append_str(t, usize_to_decimal(r.chunk_id).as_str());
    append_str(t, "\n");
    let ghost mid = t@;
    if r.parent_directories.len() > 0 {
        append_str(t, "   Path: ");
        let path = join_strings(r.parent_directories.as_slice(), 0, r.parent_directories.len(), " > ");
        proof {
            assert(r.parent_directories@.subrange(0, r.parent_directories@.len() as int)
                == r.parent_directories@);
        }
        append_str(t, path.as_str());
        append_str(t, "\n");
    }
    assert(t@ =~= start + search_entry_spec(i as int, *r, score@));
}

/// Appends the lines of similar file `i` to `t`.
fn append_similar_entry(t: &mut String, i: usize, r: &SearchResult, score: &str)
    requires
        i < usize::MAX,
    ensures
        final(t)@ == old(t)@ + similar_entry_spec(i as int, *r, score@),
{
    let ghost start = t@;
    append_str(t, "\n");
    append_str(t, usize_to_decimal(i + 1).as_str());
    append_str(t, ". ");
    append_str(t, r.file_path.as_str());
    append_str(t, " (score: ");
    append_str(t, score);
    append_str(t, ")\n");
    append_str(t, "   Best matching chunk: ");
    append_str(t, usize_to_decimal(r.chunk_id).as_str());
    append_str(t, "\n");
    assert(t@ =~= start + similar_entry_spec(i as int, *r, score@));
}

impl McpServer {
    /// The configuration the server was made with.
    pub closed spec fn server_config(self) -> Config {
        self.config
    }

    /// A server for this configuration.
    pub fn new(config: Config) -> (r: Result<Self>)
        ensures
            r matches Ok(s) && s.server_config() == config,
    {
        Ok(McpServer { config })
    }

    /// The configuration the server was made with.
    pub fn config(&self) -> (c: &Config)
        ensures
            *c == self.server_config(),
    {
        &self.config
    }

    /// The method a request names.
    pub fn route_method(method: &str) -> (m: McpMethod)
        ensures
            m == method_spec(method@),
    {
        if str_eq(method, "initialize") {
            McpMethod::Initialize
        } else if str_eq(method, "notifications/initialized") {
            McpMethod::NotificationsInitialized
        } else if str_eq(method, "tools/list") {
            McpMethod::ToolsList
        } else if str_eq(method, "tools/call") {
            McpMethod::ToolsCall
        } else if str_eq(method, "resources/list") {
            McpMethod::ResourcesList
        } else if str_eq(method, "resources/templates/list") {
            McpMethod::ResourcesTemplatesList
        } else {
            McpMethod::Unknown
        }
    }

    /// The tool a call names. A call without parameters, or whose parameters
    /// name no tool (as a string), has invalid parameters; a tool the server
    /// does not have is not found.
    pub fn tool_to_call(params_present: bool, name: Option<&str>) -> (r: std::result::Result<
        ToolName,
        JsonRpcError,
    >)
        ensures
            !params_present ==> (r matches Err(e) && is_rpc_error(
                e,
                -32602,
                "Invalid params: Missing params"@,
            )),
            params_present && name is None ==> (r matches Err(e) && is_rpc_error(
                e,
                -32602,
                "Invalid params: Missing tool name"@,
            )),
            params_present && name is Some ==> match tool_spec(name->0@) {
                Some(t) => r == Ok::<ToolName, JsonRpcError>(t),
                None => r matches Err(e) && is_rpc_error(e, -32601, "Method not found"@),
            },
    {
        proof {
            reveal_strlit("Invalid params: ");
            reveal_strlit("Missing params");
            reveal_strlit("Invalid params: Missing params");
            reveal_strlit("Missing tool name");
            reveal_strlit("Invalid params: Missing tool name");
            assert("Invalid params: "@ + "Missing params"@ =~= "Invalid params: Missing params"@);
            assert("Invalid params: "@ + "Missing tool name"@ =~= "Invalid params: Missing tool name"@);
        }
        if !params_present {
            return Err(JsonRpcError::invalid_params("Missing params"));
        }
        match name {
            None => Err(JsonRpcError::invalid_params("Missing tool name")),
            Some(n) => {
                if str_eq(n, "server_info") {
                    Ok(ToolName::ServerInfo)
                } else if str_eq(n, "index") {
                    Ok(ToolName::Index)
                } else if str_eq(n, "search") {
                    Ok(ToolName::Search)
                } else if str_eq(n, "similar_files") {
                    Ok(ToolName::SimilarFiles)
                } else if str_eq(n, "get_content") {
                    Ok(ToolName::GetContent)
                } else {
                    Err(JsonRpcError::method_not_found())
                }
            },
        }
    }

    /// A string argument a tool requires; its absence makes the parameters
    /// invalid.
    pub fn required_argument(value: Option<&str>, name: &str) -> (r: std::result::Result<
        String,
        JsonRpcError,
    >)
        ensures
            value is Some ==> (r matches Ok(s) && s@ == value->0@),
            value is None ==> (r matches Err(e) && is_rpc_error(
                e,
                -32602,
                "Invalid params: "@ + ("missing required parameter: "@ + name@),
            )),
    {
        match value {
            Some(v) => {
                let s = to_owned_string(v);
                assert(s@ == v@);
                Ok(s)
            },
            None => {
                let m = concat("missing required parameter: ", name);
                Err(JsonRpcError::invalid_params(m.as_str()))
            },
        }
    }

    /// The directories an index call names: the argument split at commas,
    /// each piece trimmed.
    pub fn index_paths(directory_path: &str) -> (paths: Vec<String>)
        ensures
            index_paths_spec(directory_path@, views(paths@)),
    {
        let parts = split_char(directory_path, ',');
        let mut paths: Vec<String> = Vec::new();
        let mut i: usize = 0;
        while i < parts.len()
            invariant
                views(parts@) == split_spec(directory_path@, ','),
                i <= parts@.len(),
                paths@.len() == i,
                forall|j: int| 0 <= j < i ==> is_trim_of(#[trigger] paths@[j]@, parts@[j]@),
            decreases parts.len() - i,
        {
            let t = trim(parts[i].as_str());
            paths.push(t);
            i = i + 1;
        }
        proof {
            assert forall|j: int| 0 <= j < views(paths@).len() implies is_trim_of(
                #[trigger] views(paths@)[j],
                split_spec(directory_path@, ',')[j],
            ) by {
                assert(views(parts@)[j] == parts@[j]@);
            }
        }
        paths
    }

    /// The chunk range a content call asks for, if any. A range that does not
    /// validate makes the parameters invalid, with the validation's message.
    pub fn chunk_range_argument(chunks: Option<&str>) -> (r: std::result::Result<
        Option<(usize, usize)>,
        JsonRpcError,
    >)
        ensures
            chunks is None ==> r == Ok::<Option<(usize, usize)>, JsonRpcError>(None),
            chunks is Some ==> match chunk_range_error(chunks->0@) {
                None => r == Ok::<Option<(usize, usize)>, JsonRpcError>(
                    Some(chunk_range_bounds(chunks->0@)),
                ),
                Some(m) => r matches Err(e) && is_rpc_error(
                    e,
                    -32602,
                    "Invalid params: "@ + ("Invalid chunk range: "@ + ("Invalid input: "@ + m)),
                ),
            },
    {
        match chunks {
            None => {
                let r: std::result::Result<Option<(usize, usize)>, JsonRpcError> = Ok(None);
                assert(r == Ok::<Option<(usize, usize)>, JsonRpcError>(None));
                r
            },
            Some(c) => match validate_chunk_range(c) {
                Err(e) => {
                    let m = concat("Invalid chunk range: ", e.display().as_str());
                    Err(JsonRpcError::invalid_params(m.as_str()))
                },
                Ok(_) => {
                    proof {
                        lemma_accepted_range_is_readable(c@);
                    }
                    match parse_chunk_range(c) {
                        Ok(range) => Ok(Some(range)),
                        Err(e) => {
                            let m = concat("Invalid chunk range: ", e.display().as_str());
                            Err(JsonRpcError::invalid_params(m.as_str()))
                        },
                    }
                },
            },
        }
    }

    /// The error a tool answers when the work it asked for failed: an internal
    /// error that names what failed and why.
    pub fn tool_failure(context: &str, e: &IndexerError) -> (err: JsonRpcError)
        ensures
            is_rpc_error(err, -32603, "Internal error: "@ + context@ + ": "@ + display_spec(*e)),
    {
        let mut m = concat(context, ": ");
        append_str(&mut m, e.display().as_str());
        let err = JsonRpcError::internal_error(m.as_str());
        assert(err.message@ =~= "Internal error: "@ + context@ + ": "@ + display_spec(*e));
        err
    }

    /// The server's report on itself, for version `version`.
    pub fn server_info_text(&self, version: &str) -> (t: String)
        ensures
            t@ == server_info_spec(version@, self.server_config()),
    {
        let c = &self.config;
        let mut t = concat("Directory Indexer MCP Server v", version);
        append_str(
            &mut t,
            "\n\nStatus:\n- Server running\n- Configuration loaded\n- SQLite path: ",
        );
        append_str(&mut t, c.storage.sqlite_path.as_str());
        append_str(&mut t, "\n- Qdrant endpoint: ");
        append_str(&mut t, c.storage.qdrant.endpoint.as_str());
        append_str(&mut t, "\n- Embedding provider: ");
        append_str(&mut t, c.embedding.provider.as_str());
        append_str(
            &mut t,
            "\n- Available tools: index, search, similar_files, get_content, server_info",
        );
        t
    }

    /// The answer of an index call that indexed `paths`.
    pub fn index_text(paths: &Vec<String>) -> (t: String)
        ensures
            t@ == index_text_spec(views(paths@)),
    {
        let mut items: Vec<String> = Vec::new();
        let mut i: usize = 0;
        while i < paths.len()
            invariant
                i <= paths@.len(),
                items@.len() == i,
                forall|j: int| 0 <= j < i ==> (#[trigger] items@[j])@ == "- "@ + paths@[j]@,
            decreases paths.len() - i,
        {
            items.push(concat("- ", paths[i].as_str()));
            i = i + 1;
        }
        let mut t = concat("Successfully indexed ", usize_to_decimal(paths.len()).as_str());
        append_str(&mut t, " directories:\n");
        let list = join_strings(items.as_slice(), 0, items.len(), "\n");
        proof {
            assert(items@.subrange(0, items@.len() as int) == items@);
            assert(views(items@) =~= views(paths@).map_values(|p: Seq<char>| "- "@ + p));
        }
        append_str(&mut t, list.as_str());
        t
    }

    /// The answer of a search call: the query, its scope and limit if given,
    /// and the hits with their scores as the caller rendered them (one score
    /// per hit).
    pub fn search_text(
        query: &str,
        directory_path: Option<&str>,
        limit: Option<usize>,
        results: &Vec<SearchResult>,
        scores: &Vec<String>,
    ) -> (t: String)
        requires
            scores@.len() == results@.len(),
        ensures
            t@ == search_text_spec(
                query@,
                match directory_path {
                    Some(p) => Some(p@),
                    None => None,
                },
                limit,
                results@,
                scores@,
            ),
    {
        let mut t = concat("Search completed for query: '", query);
        append_str(&mut t, "'\n");
        if let Some(p) = directory_path {
            append_str(&mut t, "Scope: ");
            append_str(&mut t, p);
            append_str(&mut t, "\n");
        }
        if let Some(l) = limit {
            append_str(&mut t, "Limit: ");
            append_str(&mut t, usize_to_decimal(l).as_str());
            append_str(&mut t, "\n");
        }
        append_str(&mut t, "Found ");
        append_str(&mut t, usize_to_decimal(results.len()).as_str());
        append_str(&mut t, " results\n\n");
        if results.len() == 0 {
            append_str(&mut t, "No results found for the given query.");
        } else {
            append_str(&mut t, "Search Results:\n==============\n");
            let ghost head = t@;
            let mut i: usize = 0;
            while i < results.len()
                invariant
                    scores@.len() == results@.len(),
                    i <= results@.len(),
                    t@ == head + search_entries_spec(
                        results@.take(i as int),
                        scores@.take(i as int),
                    ),
                decreases results.len() - i,
            {
                append_search_entry(&mut t, i, &results[i], scores[i].as_str());
                proof {
                    let rs = results@.take(i + 1);
                    let ss = scores@.take(i + 1);
                    assert(rs.drop_last() == results@.take(i as int));
                    assert(ss.drop_last() == scores@.take(i as int));
                    assert(rs.last() == results@[i as int]);
                    assert(ss.last() == scores@[i as int]);
                    assert(t@ =~= head + search_entries_spec(rs, ss));
                }
                i = i + 1;
            }
            proof {
                assert(results@.take(i as int) == results@);
                assert(scores@.take(i as int) == scores@);
            }
        }
        t
    }

    /// The answer of a similar-files call: the file, the limit, and the files
    /// found with their scores as the caller rendered them (one per file).
    pub fn similar_files_text(
        file_path: &str,
        limit: usize,
        results: &Vec<SearchResult>,
        scores: &Vec<String>,
    ) -> (t: String)
        requires
            scores@.len() == results@.len(),
        ensures
            t@ == similar_text_spec(file_path@, limit, results@, scores@),
    {
        let mut t = concat("Similar files search completed for: ", file_path);
        append_str(&mut t, "\nLimit: ");
        append_str(&mut t, usize_to_decimal(limit).as_str());
        append_str(&mut t, "\n");
        append_str(&mut t, "Found ");
        append_str(&mut t, usize_to_decimal(results.len()).as_str());
        append_str(&mut t, " similar files\n\n");
        if results.len() == 0 {
            append_str(&mut t, "No similar files found.");
        } else {
            append_str(&mut t, "Similar Files:\n==============\n");
            let ghost head = t@;
            let mut i: usize = 0;
            while i < results.len()
                invariant
                    scores@.len() == results@.len(),
                    i <= results@.len(),
                    t@ == head + similar_entries_spec(
                        results@.take(i as int),
                        scores@.take(i as int),
                    ),
                decreases results.len() - i,
            {
                append_similar_entry(&mut t, i, &results[i], scores[i].as_str());
                proof {
                    let rs = results@.take(i + 1);
                    let ss = scores@.take(i + 1);
                    assert(rs.drop_last() == results@.take(i as int));
                    assert(ss.drop_last() == scores@.take(i as int));
                    assert(rs.last() == results@[i as int]);
                    assert(ss.last() == scores@[i as int]);
                    assert(t@ =~= head + similar_entries_spec(rs, ss));
                }
                i = i + 1;
            }
            proof {
                assert(results@.take(i as int) == results@);
                assert(scores@.take(i as int) == scores@);
            }
        }
        t
    }

    /// The answer of a content call: the file, the chunks asked for if any,
    /// and the content.
    pub fn content_text(file_path: &str, chunks: Option<&str>, content: &str) -> (t: String)
        ensures
            t@ == content_text_spec(
                file_path@,
                match chunks {
                    Some(c) => Some(c@),
                    None => None,
                },
                content@,
            ),
    {
        let mut t = concat("Content retrieved from: ", file_path);
        append_str(&mut t, "\n");
        if let Some(c) = chunks {
            append_str(&mut t, "Chunks: ");
            append_str(&mut t, c);
            append_str(&mut t, "\n");
        }
        append_str(&mut t, "\n--- FILE CONTENT ---\n");
        append_str(&mut t, content);
        t
    }
}

} // verus!
