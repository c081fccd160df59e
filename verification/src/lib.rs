//! Directory indexer: semantic search over local files. The library holds
//! the indexer's rules, each proved against its contract: how text is cut
//! into chunks, how files are classified and paths normalized, how search
//! hits are filtered, ranked and grouped, which content a request selects,
//! what the MCP server and the commands answer, and how the configuration is
//! built. Reading files, talking to the services and parsing JSON is left to
//! the program around it.
use vstd::prelude::*;

pub mod cli;
pub mod config;
pub mod embedding;
pub mod environment;
pub mod error;
pub mod health;
pub mod indexing;
pub mod mcp;
pub mod search;
pub mod storage;
pub mod strings;
pub mod utils;

pub use config::Config;
pub use error::{IndexerError, Result};

verus! {

/// The log level name used for the given verbosity flag.
pub fn get_log_level(verbose: bool) -> (level: &'static str)
    ensures
        level@ == (if verbose { "debug"@ } else { "info"@ }),
{
    if verbose {
        "debug"
    } else {
        "info"
    }
}

} // verus!
