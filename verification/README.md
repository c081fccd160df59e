# directory-indexer

Self-hosted semantic search for local files: directories are cut into
chunks, embedded by Ollama or the OpenAI API, stored in Qdrant with their
metadata in SQLite, and searched from the command line or by an AI assistant
through an MCP server on stdio.

## Layout

- `src/` — the library, verified with Verus. Every function states what it
  returns in its contract, and the properties that span calls are proved as
  lemmas:
  - `strings.rs`: text as characters and UTF-8 bytes, splitting, joining,
    trimming, lines and decimal numbers;
  - `utils.rs`: chunking, file types, ignore patterns, path normalization and
    content hashes;
  - `search/`: query checks, the ranking of hits (a stable sort by
    descending score), grouping hits into similar files, and content selection
    by chunk ranges;
  - `mcp/`: JSON-RPC messages, the tools and their schemas, and the server's
    routing and answers;
  - `cli/commands.rs`: argument checks and the lines each command prints;
  - `config/`, `indexing/`, `embedding/`, `storage/`, `health.rs`,
    `environment.rs`: configuration, indexing bookkeeping, provider and store
    decisions.
- `app/` — the program: argument parsing, logging, the asynchronous runtime,
  file system access, HTTP calls to Ollama, OpenAI and Qdrant, SQLite, and
  JSON (de)serialization.
- `tests/` — tests of the library on concrete values.
