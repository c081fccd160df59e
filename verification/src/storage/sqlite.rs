//! The records the metadata database keeps.
use vstd::prelude::*;

verus! {

/// A directory that was indexed, and how far its indexing got.
#[derive(Debug, Clone)]
pub struct DirectoryRecord {
    pub id: i64,
    pub path: String,
    pub status: String,
    pub indexed_at: i64,
}

} // verus!
