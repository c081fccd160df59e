//! What the Ollama provider computes on its own: the dimension of a model's
//! embeddings, its URLs, and the token count it reports.
use vstd::prelude::*;

use crate::strings::{concat, str_eq, utf8};

verus! {

/// The embedding dimension of an Ollama model; unknown models are taken to
/// have 768.
pub open spec fn ollama_dimension_spec(model: Seq<char>) -> usize {
    if model == "nomic-embed-text"@ {
        768
    } else if model == "mxbai-embed-large"@ {
        1024
    } else if model == "all-minilm"@ {
        384
    } else {
        768
    }
}

/// The embedding dimension of an Ollama model.
pub fn ollama_dimension(model: &str) -> (d: usize)
    ensures
        d == ollama_dimension_spec(model@),
{
    if str_eq(model, "nomic-embed-text") {
        768
    } else if str_eq(model, "mxbai-embed-large") {
        1024
    } else if str_eq(model, "all-minilm") {
        384
    } else {
        768
    }
}

/// The URL embeddings are requested from.
pub fn embeddings_url(endpoint: &str) -> (u: String)
    ensures
        u@ == endpoint@ + "/api/embeddings"@,
{
    concat(endpoint, "/api/embeddings")
}

/// The URL the available models are listed at.
pub fn tags_url(endpoint: &str) -> (u: String)
    ensures
        u@ == endpoint@ + "/api/tags"@,
{
    concat(endpoint, "/api/tags")
}

/// The byte lengths of the texts, each cut to 32 bits, added up.
pub open spec fn truncated_length_sum(texts: Seq<String>) -> int
    decreases texts.len(),
{
    if texts.len() == 0 {
        0
    } else {
        truncated_length_sum(texts.drop_last()) + (utf8(texts.last()@).len() as u32) as int
    }
}

/// The token count reported for a batch: a quarter of the texts' total byte
/// length (each length taken as a `u32`), rounded down. The total must fit in
/// a `u32`.
pub fn estimated_tokens(texts: &Vec<String>) -> (t: u32)
    requires
        truncated_length_sum(texts@) <= u32::MAX,
    ensures
        t == truncated_length_sum(texts@) / 4,
{
    let mut sum: u32 = 0;
    let mut i: usize = 0;
    while i < texts.len()
        invariant
            i <= texts@.len(),
            sum == truncated_length_sum(texts@.take(i as int)),
            truncated_length_sum(texts@) <= u32::MAX,
        decreases texts.len() - i,
    {
        proof {
            assert(texts@.take(i + 1).drop_last() == texts@.take(i as int));
            lemma_truncated_sum_prefix(texts@, i + 1);
        }
        let n = texts[i].as_str().as_bytes().len() as u32;
        sum = sum + n;
        i = i + 1;
    }
    proof {
        assert(texts@.take(texts@.len() as int) == texts@);
    }
    sum / 4
}

/// Whether the total byte length of the texts (each length taken as a
/// `u32`) fits in a `u32`, as `estimated_tokens` needs.
pub fn truncated_length_fits(texts: &Vec<String>) -> (r: bool)
    ensures
        r == (truncated_length_sum(texts@) <= u32::MAX),
{
    let mut sum: u64 = 0;
    let mut i: usize = 0;
    while i < texts.len()
        invariant
            i <= texts@.len(),
            sum == truncated_length_sum(texts@.take(i as int)),
            sum <= u32::MAX,
        decreases texts.len() - i,
    {
        proof {
            assert(texts@.take(i + 1).drop_last() == texts@.take(i as int));
        }
        let n = texts[i].as_str().as_bytes().len() as u32;
        sum = sum + n as u64;
        if sum > 0xffff_ffff {
            proof {
                lemma_truncated_sum_prefix(texts@, i + 1);
            }
            return false;
        }
        i = i + 1;
    }
    proof {
        assert(texts@.take(texts@.len() as int) == texts@);
    }
    true
}

proof fn lemma_truncated_sum_prefix(texts: Seq<String>, k: int)
    requires
        0 <= k <= texts.len(),
    ensures
        truncated_length_sum(texts.take(k)) <= truncated_length_sum(texts),
    decreases texts.len(),
{
    if k < texts.len() {
        assert(texts.drop_last().take(k) == texts.take(k));
        lemma_truncated_sum_prefix(texts.drop_last(), k);
    } else {
        assert(texts.take(k) == texts);
    }
}

} // verus!
