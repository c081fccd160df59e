pub mod qdrant;
pub mod sqlite;
