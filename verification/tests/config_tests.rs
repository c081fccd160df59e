use directory_indexer::config::settings::EnvOverrides;
use directory_indexer::Config;

#[test]
fn test_default_config() {
    let app_dir = Config::default_app_dir(None, Some("/home/user"));
    let config = Config::with_app_dir(&app_dir);

    assert_eq!(config.storage.qdrant.endpoint, "http://localhost:6333");
    assert!(
        config.storage.qdrant.collection == "directory-indexer-test"
            || config.storage.qdrant.collection == "directory-indexer"
    );
    assert!(config.storage.qdrant.api_key.is_none());

    assert_eq!(config.embedding.provider, "ollama");
    assert_eq!(config.embedding.model, "nomic-embed-text");
    assert_eq!(config.embedding.endpoint, "http://localhost:11434");
    assert!(config.embedding.api_key.is_none());

    assert_eq!(config.indexing.chunk_size, 512);
    assert_eq!(config.indexing.overlap, 50);
    assert_eq!(config.indexing.max_file_size, 10 * 1024 * 1024);
    assert_eq!(config.indexing.concurrency, 4);
    assert!(config.indexing.ignore_patterns.contains(&".git".to_string()));

    assert_eq!(config.monitoring.batch_size, 100);
    assert!(!config.monitoring.file_watching);
}

#[test]
fn data_directory_and_paths() {
    assert_eq!(Config::default_app_dir(Some("/srv/idx"), Some("/home/u")), "/srv/idx");
    assert_eq!(Config::default_app_dir(None, Some("/home/u")), "/home/u/.directory-indexer");
    assert_eq!(Config::default_app_dir(None, None), "./.directory-indexer");
    assert_eq!(Config::default_config_path("/srv/idx"), "/srv/idx/config.json");
    assert_eq!(Config::with_app_dir("/srv/idx").storage.sqlite_path, "/srv/idx/data.db");
}

#[test]
fn environment_overrides() {
    let mut config = Config::with_app_dir("/a");
    let env = EnvOverrides {
        qdrant_endpoint: Some("http://q:1".to_string()),
        ollama_endpoint: None,
        data_dir: Some("/b".to_string()),
        qdrant_collection: Some("test".to_string()),
        qdrant_api_key: Some("secret".to_string()),
        ollama_api_key: None,
        openai_api_key: None,
    };
    config.apply_environment(&env, 42, 7);
    assert_eq!(config.storage.qdrant.endpoint, "http://q:1");
    assert_eq!(config.embedding.endpoint, "http://localhost:11434");
    assert_eq!(config.storage.sqlite_path, "/b/data.db");
    assert_eq!(config.storage.qdrant.collection, "directory-indexer-test-42-7");
    assert_eq!(config.storage.qdrant.api_key, Some("secret".to_string()));

    let mut other = Config::with_app_dir("/a");
    let env = EnvOverrides {
        qdrant_endpoint: None,
        ollama_endpoint: None,
        data_dir: None,
        qdrant_collection: Some("mine".to_string()),
        qdrant_api_key: None,
        ollama_api_key: None,
        openai_api_key: None,
    };
    other.apply_environment(&env, 1, 1);
    assert_eq!(other.storage.qdrant.collection, "mine");
}

#[test]
fn test_config_clone_and_debug() {
    let config = Config::with_app_dir(&Config::default_app_dir(None, Some("/home/user")));
    let cloned = config.clone();
    assert_eq!(config.embedding.provider, cloned.embedding.provider);
    assert_eq!(config.indexing.chunk_size, cloned.indexing.chunk_size);
    let debug_str = format!("{:?}", config);
    assert!(debug_str.contains("Config"));
    assert!(debug_str.contains("ollama"));
}

fn keys_only(ollama: Option<&str>, openai: Option<&str>) -> EnvOverrides {
    EnvOverrides {
        qdrant_endpoint: None,
        ollama_endpoint: None,
        data_dir: None,
        qdrant_collection: None,
        qdrant_api_key: None,
        ollama_api_key: ollama.map(|k| k.to_string()),
        openai_api_key: openai.map(|k| k.to_string()),
    }
}

#[test]
fn openai_key_reaches_embedding_config() {
    let mut config = Config::with_app_dir("/a");
    config.apply_environment(&keys_only(None, Some("sk-openai")), 1, 1);
    assert_eq!(config.embedding.api_key, Some("sk-openai".to_string()));

    // With both keys, the one for the configured provider wins.
    let mut ollama = Config::with_app_dir("/a");
    ollama.apply_environment(&keys_only(Some("k-ollama"), Some("sk-openai")), 1, 1);
    assert_eq!(ollama.embedding.api_key, Some("k-ollama".to_string()));

    let mut openai = Config::with_app_dir("/a");
    openai.embedding.provider = "openai".to_string();
    openai.apply_environment(&keys_only(Some("k-ollama"), Some("sk-openai")), 1, 1);
    assert_eq!(openai.embedding.api_key, Some("sk-openai".to_string()));

    let mut neither = Config::with_app_dir("/a");
    neither.apply_environment(&keys_only(None, None), 1, 1);
    assert_eq!(neither.embedding.api_key, None);
}

#[test]
fn test_config_defaults() {
    // Defaults as a test run sees them: the collection is the test one.
    let mut config = Config::with_app_dir(&Config::default_app_dir(None, Some("/home/user")));
    let mut env = keys_only(None, None);
    env.qdrant_collection = Some("directory-indexer-test".to_string());
    config.apply_environment(&env, 1, 1);

    assert_eq!(config.embedding.provider, "ollama");
    assert_eq!(config.embedding.model, "nomic-embed-text");
    assert_eq!(config.indexing.chunk_size, 512);
    assert_eq!(config.indexing.concurrency, 4);
    assert_eq!(config.storage.qdrant.collection, "directory-indexer-test");
    assert_eq!(config.monitoring.batch_size, 100);
    assert!(!config.monitoring.file_watching);
    assert!(config.storage.qdrant.endpoint.starts_with("http://"));
    assert!(config.embedding.endpoint.starts_with("http://"));
    assert_eq!(config.storage.qdrant.api_key, None);
    assert_eq!(config.embedding.api_key, None);
}
