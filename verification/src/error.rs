//! The error type of the library.
use vstd::prelude::*;

use crate::strings::concat;

verus! {

/// An error of the indexer. Errors that come from outside the library (I/O,
/// the database, HTTP, JSON, configuration) carry their rendered message.
#[derive(Debug)]
pub enum IndexerError {
    Io(String),
    Database(String),
    Http(String),
    Json(String),
    Config(String),
    Embedding { message: String },
    VectorStore { message: String },
    FileProcessing { message: String },
    InvalidInput { message: String },
    NotFound { message: String },
    Mcp { message: String },
    EnvironmentSetup { message: String },
}

/// The result type of the library.
pub type Result<T> = std::result::Result<T, IndexerError>;

/// `e` is an invalid-input error with message `m`.
pub open spec fn is_invalid_input(e: IndexerError, m: Seq<char>) -> bool {
    e matches IndexerError::InvalidInput { message } && message@ == m
}

/// `e` is a not-found error with message `m`.
pub open spec fn is_not_found(e: IndexerError, m: Seq<char>) -> bool {
    e matches IndexerError::NotFound { message } && message@ == m
}

/// `e` is a file-processing error with message `m`.
pub open spec fn is_file_processing(e: IndexerError, m: Seq<char>) -> bool {
    e matches IndexerError::FileProcessing { message } && message@ == m
}

/// The text that displaying an error shows.
pub open spec fn display_spec(e: IndexerError) -> Seq<char> {
    match e {
        IndexerError::Io(m) => "IO error: "@ + m@,
        IndexerError::Database(m) => "Database error: "@ + m@,
        IndexerError::Http(m) => "HTTP request error: "@ + m@,
        IndexerError::Json(m) => "JSON serialization error: "@ + m@,
        IndexerError::Config(m) => "Configuration error: "@ + m@,
        IndexerError::Embedding { message } => "Embedding provider error: "@ + message@,
        IndexerError::VectorStore { message } => "Vector store error: "@ + message@,
        IndexerError::FileProcessing { message } => "File processing error: "@ + message@,
        IndexerError::InvalidInput { message } => "Invalid input: "@ + message@,
        IndexerError::NotFound { message } => "Resource not found: "@ + message@,
        IndexerError::Mcp { message } => "MCP protocol error: "@ + message@,
        IndexerError::EnvironmentSetup { message } => "Environment setup required: "@ + message@,
    }
}

impl IndexerError {
    /// An embedding-provider error.
    pub fn embedding(message: &str) -> (e: Self)
        ensures
            e matches IndexerError::Embedding { message: m } && m@ == message@,
    {
        IndexerError::Embedding { message: message.to_owned() }
    }

    /// A vector-store error.
    pub fn vector_store(message: &str) -> (e: Self)
        ensures
            e matches IndexerError::VectorStore { message: m } && m@ == message@,
    {
        IndexerError::VectorStore { message: message.to_owned() }
    }

    /// A file-processing error.
    pub fn file_processing(message: &str) -> (e: Self)
        ensures
            is_file_processing(e, message@),
    {
        IndexerError::FileProcessing { message: message.to_owned() }
    }

    /// An invalid-input error.
    pub fn invalid_input(message: &str) -> (e: Self)
        ensures
            is_invalid_input(e, message@),
    {
        IndexerError::InvalidInput { message: message.to_owned() }
    }

    /// A not-found error.
    pub fn not_found(message: &str) -> (e: Self)
        ensures
            is_not_found(e, message@),
    {
        IndexerError::NotFound { message: message.to_owned() }
    }

    /// An MCP protocol error.
    pub fn mcp(message: &str) -> (e: Self)
        ensures
            e matches IndexerError::Mcp { message: m } && m@ == message@,
    {
        IndexerError::Mcp { message: message.to_owned() }
    }

    /// An environment-setup error.
    pub fn environment_setup(message: &str) -> (e: Self)
        ensures
            e matches IndexerError::EnvironmentSetup { message: m } && m@ == message@,
    {
        IndexerError::EnvironmentSetup { message: message.to_owned() }
    }

    /// The text that displaying the error shows.
    pub fn display(&self) -> (s: String)
        ensures
            s@ == display_spec(*self),
    {
        match self {
            IndexerError::Io(m) => concat("IO error: ", m.as_str()),
            IndexerError::Database(m) => concat("Database error: ", m.as_str()),
            IndexerError::Http(m) => concat("HTTP request error: ", m.as_str()),
            IndexerError::Json(m) => concat("JSON serialization error: ", m.as_str()),
            IndexerError::Config(m) => concat("Configuration error: ", m.as_str()),
            IndexerError::Embedding { message } => concat("Embedding provider error: ", message.as_str()),
            IndexerError::VectorStore { message } => concat("Vector store error: ", message.as_str()),
            IndexerError::FileProcessing { message } => concat("File processing error: ", message.as_str()),
            IndexerError::InvalidInput { message } => concat("Invalid input: ", message.as_str()),
            IndexerError::NotFound { message } => concat("Resource not found: ", message.as_str()),
            IndexerError::Mcp { message } => concat("MCP protocol error: ", message.as_str()),
            IndexerError::EnvironmentSetup { message } => concat("Environment setup required: ", message.as_str()),
        }
    }
}

} // verus!
