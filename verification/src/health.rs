//! What the health checks of the services mean for the indexer.
use vstd::prelude::*;

use crate::strings::{contains, contains_seq, views};

verus! {

/// What the health checks found.
#[derive(Debug, Clone)]
pub struct HealthStatus {
    pub ollama_available: bool,
    pub qdrant_available: bool,
    pub sqlite_writable: bool,
    pub ollama_models: Vec<String>,
    pub qdrant_collections: Vec<String>,
}

/// What the system can do, as the health report states it.
#[derive(Debug, Clone, Copy, PartialEq, Eq)]
pub enum Readiness {
    /// Indexing and search both work.
    Full,
    /// Stored content can be read, but nothing can be embedded.
    RetrievalOnly,
    /// A component that everything needs is missing.
    NotReady,
}

/// Indexing needs the embedding service, the vector store and the database.
pub open spec fn ready_for_indexing(h: HealthStatus) -> bool {
    h.ollama_available && h.qdrant_available && h.sqlite_writable
}

/// Reading stored content needs the vector store and the database.
pub open spec fn ready_for_retrieval(h: HealthStatus) -> bool {
    h.qdrant_available && h.sqlite_writable
}

impl HealthStatus {
    /// Whether every service that indexing needs is available.
    pub fn is_ready_for_indexing(&self) -> (r: bool)
        ensures
            r == ready_for_indexing(*self),
    {
        self.ollama_available && self.qdrant_available && self.sqlite_writable
    }

    /// Whether every service that retrieval needs is available.
    pub fn is_ready_for_retrieval(&self) -> (r: bool)
        ensures
            r == ready_for_retrieval(*self),
    {
        self.qdrant_available && self.sqlite_writable
    }

    /// The readiness the health report announces.
    pub fn readiness(&self) -> (r: Readiness)
        ensures
            r == (if ready_for_indexing(*self) {
                Readiness::Full
            } else if ready_for_retrieval(*self) {
                Readiness::RetrievalOnly
            } else {
                Readiness::NotReady
            }),
    {
        if self.is_ready_for_indexing() {
            Readiness::Full
        } else if self.is_ready_for_retrieval() {
            Readiness::RetrievalOnly
        } else {
            Readiness::NotReady
        }
    }
}

/// A system that is ready for indexing is also ready for retrieval.
pub proof fn lemma_indexing_readiness_implies_retrieval(h: HealthStatus)
    ensures
        ready_for_indexing(h) ==> ready_for_retrieval(h),
{
}

/// Some model name contains `model`.
pub open spec fn model_listed(names: Seq<Seq<char>>, model: Seq<char>) -> bool {
    exists|i: int| 0 <= i < names.len() && contains_seq(#[trigger] names[i], model)
}

/// Whether the embedding service offers `model`: some model it lists has a
/// name that contains it.
pub fn model_available(models: &Vec<String>, model: &str) -> (r: bool)
    ensures
        r == model_listed(views(models@), model@),
{
    let ghost names = views(models@);
    let mut i: usize = 0;
    while i < models.len()
        invariant
            names == views(models@),
            i <= models@.len(),
            forall|j: int| 0 <= j < i ==> !contains_seq(#[trigger] names[j], model@),
        decreases models.len() - i,
    {
        if contains(models[i].as_str(), model) {
            assert(contains_seq(names[i as int], model@));
            return true;
        }
        i = i + 1;
    }
    false
}

} // verus!
