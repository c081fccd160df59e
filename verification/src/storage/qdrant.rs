//! What the Qdrant store decides on its own: the URLs of a collection, the
//! counts it reports, and which answers count as failures.
use vstd::prelude::*;

use crate::strings::{append_str, concat};

verus! {

/// The counts of a collection.
#[derive(Debug)]
pub struct CollectionInfo {
    pub points_count: u64,
    pub indexed_vectors_count: u64,
}

impl CollectionInfo {
    /// The counts a collection answer reports; a count that is missing is 0.
    pub fn from_counts(points_count: Option<u64>, indexed_vectors_count: Option<u64>) -> (info: Self)
        ensures
            info.points_count == match points_count {
                Some(n) => n,
                None => 0,
            },
            info.indexed_vectors_count == match indexed_vectors_count {
                Some(n) => n,
                None => 0,
            },
    {
        CollectionInfo {
            points_count: match points_count {
                Some(n) => n,
                None => 0,
            },
            indexed_vectors_count: match indexed_vectors_count {
                Some(n) => n,
                None => 0,
            },
        }
    }
}

/// `{endpoint}/collections/{collection}`.
pub open spec fn collection_url_spec(endpoint: Seq<char>, collection: Seq<char>) -> Seq<char> {
    endpoint + "/collections/"@ + collection
}

/// The URL of a collection.
pub fn collection_url(endpoint: &str, collection: &str) -> (u: String)
    ensures
        u@ == collection_url_spec(endpoint@, collection@),
{
    let mut u = concat(endpoint, "/collections/");
    append_str(&mut u, collection);
    u
}

/// The URL that tells whether a collection exists.
pub fn collection_exists_url(endpoint: &str, collection: &str) -> (u: String)
    ensures
        u@ == collection_url_spec(endpoint@, collection@) + "/exists"@,
{
    let mut u = collection_url(endpoint, collection);
    append_str(&mut u, "/exists");
    u
}

/// The URL points are written to.
pub fn points_url(endpoint: &str, collection: &str) -> (u: String)
    ensures
        u@ == collection_url_spec(endpoint@, collection@) + "/points"@,
{
    let mut u = collection_url(endpoint, collection);
    append_str(&mut u, "/points");
    u
}

/// The URL points are searched at.
pub fn points_search_url(endpoint: &str, collection: &str) -> (u: String)
    ensures
        u@ == collection_url_spec(endpoint@, collection@) + "/points/search"@,
{
    let mut u = collection_url(endpoint, collection);
    append_str(&mut u, "/points/search");
    u
}

/// The URL points are deleted at.
pub fn points_delete_url(endpoint: &str, collection: &str) -> (u: String)
    ensures
        u@ == collection_url_spec(endpoint@, collection@) + "/points/delete"@,
{
    let mut u = collection_url(endpoint, collection);
    append_str(&mut u, "/points/delete");
    u
}

/// The list of collections, `{endpoint}/collections`.
pub fn collections_url(endpoint: &str) -> (u: String)
    ensures
        u@ == endpoint@ + "/collections"@,
{
    concat(endpoint, "/collections")
}

/// Deleting a collection failed: the answer was not a success and not a
/// "not found", which means there was nothing to delete.
pub fn delete_collection_failed(success: bool, not_found: bool) -> (failed: bool)
    ensures
        failed == (!success && !not_found),
{
    !success && !not_found
}

} // verus!
