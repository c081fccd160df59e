use directory_indexer::indexing::engine::chunk_batches;
use directory_indexer::config::settings::EmbeddingConfig;
use directory_indexer::embedding::ollama::{estimated_tokens, ollama_dimension, tags_url};
use directory_indexer::embedding::openai::{bearer, openai_dimension};
use directory_indexer::embedding::provider::{choose_provider, openai_api_key, ProviderKind};
use directory_indexer::environment::{embedding_requirement, service_unavailable};
use directory_indexer::health::{model_available, HealthStatus, Readiness};
use directory_indexer::indexing::engine::{file_unchanged, needs_state_reset, IndexingStats};
use directory_indexer::storage::qdrant::{
    collection_exists_url, delete_collection_failed, points_search_url, CollectionInfo,
};

fn embedding(provider: &str, api_key: Option<&str>) -> EmbeddingConfig {
    EmbeddingConfig {
        provider: provider.to_string(),
        model: "nomic-embed-text".to_string(),
        endpoint: "http://localhost:11434".to_string(),
        api_key: api_key.map(|k| k.to_string()),
    }
}

fn health(ollama: bool, qdrant: bool, sqlite: bool) -> HealthStatus {
    HealthStatus {
        ollama_available: ollama,
        qdrant_available: qdrant,
        sqlite_writable: sqlite,
        ollama_models: vec![],
        qdrant_collections: vec![],
    }
}

#[test]
fn readiness_follows_the_services() {
    assert_eq!(health(true, true, true).readiness(), Readiness::Full);
    assert!(health(true, true, true).is_ready_for_indexing());
    assert_eq!(health(false, true, true).readiness(), Readiness::RetrievalOnly);
    assert!(health(false, true, true).is_ready_for_retrieval());
    assert_eq!(health(true, false, true).readiness(), Readiness::NotReady);
    assert!(!health(true, true, false).is_ready_for_retrieval());
}

#[test]
fn models_are_matched_by_substring() {
    let models = vec!["nomic-embed-text:latest".to_string(), "llama3".to_string()];
    assert!(model_available(&models, "nomic-embed-text"));
    assert!(!model_available(&models, "mxbai"));
    assert!(!model_available(&vec![], "x"));
}

#[test]
fn providers_and_dimensions() {
    assert_eq!(choose_provider(&embedding("ollama", None)).unwrap(), ProviderKind::Ollama);
    assert_eq!(choose_provider(&embedding("openai", None)).unwrap(), ProviderKind::OpenAi);
    let e = choose_provider(&embedding("cohere", None)).unwrap_err();
    assert_eq!(e.display(), "Invalid input: Unsupported embedding provider: cohere");
    assert_eq!(openai_api_key(&embedding("openai", Some("k"))), "k");
    assert_eq!(openai_api_key(&embedding("openai", None)), "");
    assert_eq!(openai_dimension("text-embedding-3-small"), 1536);
    assert_eq!(openai_dimension("text-embedding-3-large"), 3072);
    assert_eq!(openai_dimension("text-embedding-ada-002"), 1536);
    assert_eq!(ollama_dimension("nomic-embed-text"), 768);
    assert_eq!(ollama_dimension("mxbai-embed-large"), 1024);
    assert_eq!(ollama_dimension("all-minilm"), 384);
    assert_eq!(ollama_dimension("other"), 768);
    assert_eq!(bearer("abc"), "Bearer abc");
    assert_eq!(tags_url("http://h:1"), "http://h:1/api/tags");
    assert_eq!(estimated_tokens(&vec!["abcd".to_string(), "efghijkl".to_string(), "é".to_string()]), 3);
}

#[test]
fn environment_requirements() {
    assert_eq!(embedding_requirement(&embedding("ollama", None)).unwrap(), ProviderKind::Ollama);
    assert_eq!(embedding_requirement(&embedding("openai", Some("k"))).unwrap(), ProviderKind::OpenAi);
    let e = embedding_requirement(&embedding("openai", None)).unwrap_err();
    assert_eq!(
        e.display(),
        "Environment setup required: OpenAI API key required but not provided (set OPENAI_API_KEY). Setup required: https://github.com/peteretelej/directory-indexer#setup"
    );
    let e = embedding_requirement(&embedding("foo", None)).unwrap_err();
    assert!(e.display().contains("Unknown embedding provider: foo. Setup required"));
    let e = service_unavailable("Qdrant", "http://q", true);
    assert!(e.display().contains("Qdrant not accessible at http://q. Setup required"));
    let e = service_unavailable("Ollama", "http://o", false);
    assert!(e.display().contains("Cannot connect to Ollama at http://o. Setup required"));
}

#[test]
fn qdrant_urls_and_counts() {
    assert_eq!(collection_exists_url("http://q", "c"), "http://q/collections/c/exists");
    assert_eq!(points_search_url("http://q", "c"), "http://q/collections/c/points/search");
    let info = CollectionInfo::from_counts(Some(4), None);
    assert_eq!(info.points_count, 4);
    assert_eq!(info.indexed_vectors_count, 0);
    assert!(delete_collection_failed(false, false));
    assert!(!delete_collection_failed(false, true));
    assert!(!delete_collection_failed(true, false));
}

#[test]
fn indexing_bookkeeping() {
    let mut total = IndexingStats::new();
    let mut dir = IndexingStats::new();
    dir.add_processed_file(3);
    dir.add_processed_file(2);
    dir.add_failed_file();
    dir.finish_directory();
    total.add_directory(&dir);
    total.add_failed_directory();
    assert_eq!(total.directories_processed, 1);
    assert_eq!(total.files_processed, 2);
    assert_eq!(total.files_errored, 2);
    assert_eq!(total.chunks_created, 5);
    assert!(needs_state_reset(3, 0));
    assert!(!needs_state_reset(0, 0));
    assert!(!needs_state_reset(3, 9));
    assert!(file_unchanged("h", 10, "h", 10));
    assert!(!file_unchanged("h", 10, "g", 10));
    assert!(!file_unchanged("h", 10, "h", 11));
}

#[test]
fn chunks_are_embedded_in_batches_of_positions() {
    assert_eq!(chunk_batches(23, 10), vec![(0, 10), (10, 20), (20, 23)]);
    assert_eq!(chunk_batches(10, 10), vec![(0, 10)]);
    assert!(chunk_batches(0, 10).is_empty());
}
