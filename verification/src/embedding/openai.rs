//! What the OpenAI provider computes on its own: the dimension of a model's
//! embeddings, its URL and its authorization header.
use vstd::prelude::*;

use crate::strings::{concat, str_eq};

verus! {

/// The embedding dimension of an OpenAI model: 3072 for
/// `text-embedding-3-large`, 1536 for the others.
pub open spec fn openai_dimension_spec(model: Seq<char>) -> usize {
    if model == "text-embedding-3-large"@ {
        3072
    } else {
        1536
    }
}

/// The embedding dimension of an OpenAI model.
pub fn openai_dimension(model: &str) -> (d: usize)
    ensures
        d == openai_dimension_spec(model@),
{
    if str_eq(model, "text-embedding-3-large") {
        3072
    } else {
        1536
    }
}

/// The URL embeddings are requested from.
pub fn embeddings_url(endpoint: &str) -> (u: String)
    ensures
        u@ == endpoint@ + "/v1/embeddings"@,
{
    concat(endpoint, "/v1/embeddings")
}

/// The value of the `Authorization` header.
pub fn bearer(api_key: &str) -> (h: String)
    ensures
        h@ == "Bearer "@ + api_key@,
{
    concat("Bearer ", api_key)
}

} // verus!
