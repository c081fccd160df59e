//! The configuration of the indexer and how the environment overrides it.
use vstd::prelude::*;

use crate::indexing::files::{default_ignore_patterns, default_patterns};
use crate::strings::{append_str, concat, decimal, str_eq, views};
use crate::utils::{join_paths, path_join};

verus! {

/// The whole configuration.
#[derive(Debug, Clone)]
pub struct Config {
    pub storage: StorageConfig,
    pub embedding: EmbeddingConfig,
    pub indexing: IndexingConfig,
    pub monitoring: MonitoringConfig,
}

/// Where the metadata database and the vector store are.
#[derive(Debug, Clone)]
pub struct StorageConfig {
    pub sqlite_path: String,
    pub qdrant: QdrantConfig,
}

/// How to reach the Qdrant vector store.
#[derive(Debug, Clone)]
pub struct QdrantConfig {
    pub endpoint: String,
    pub collection: String,
    pub api_key: Option<String>,
}

/// Which embedding provider and model to use.
#[derive(Debug, Clone)]
pub struct EmbeddingConfig {
    pub provider: String,
    pub model: String,
    pub endpoint: String,
    pub api_key: Option<String>,
}

/// How files are read and cut into chunks.
#[derive(Debug, Clone)]
pub struct IndexingConfig {
    pub chunk_size: usize,
    pub overlap: usize,
    pub max_file_size: u64,
    pub ignore_patterns: Vec<String>,
    pub concurrency: usize,
}

/// Whether and how files are watched.
#[derive(Debug, Clone)]
pub struct MonitoringConfig {
    pub file_watching: bool,
    pub batch_size: usize,
}

/// The values the environment may set: `QDRANT_ENDPOINT`, `OLLAMA_ENDPOINT`,
/// `DIRECTORY_INDEXER_DATA_DIR`, `DIRECTORY_INDEXER_QDRANT_COLLECTION`,
/// `QDRANT_API_KEY`, `OLLAMA_API_KEY` and `OPENAI_API_KEY`.
#[derive(Debug, Clone)]
pub struct EnvOverrides {
    pub qdrant_endpoint: Option<String>,
    pub ollama_endpoint: Option<String>,
    pub data_dir: Option<String>,
    pub qdrant_collection: Option<String>,
    pub qdrant_api_key: Option<String>,
    pub ollama_api_key: Option<String>,
    pub openai_api_key: Option<String>,
}

/// The view of an optional string.
pub open spec fn opt_view(o: Option<String>) -> Option<Seq<char>> {
    match o {
        Some(s) => Some(s@),
        None => None,
    }
}

/// The embedding key after the environment is applied. The key meant for the
/// configured provider wins: `OPENAI_API_KEY` for `openai`, `OLLAMA_API_KEY`
/// for any other provider; the other key is taken only when that one is
/// absent, and the configured key stays when neither is set.
pub open spec fn embedding_key(
    provider: Seq<char>,
    ollama: Option<Seq<char>>,
    openai: Option<Seq<char>>,
    current: Option<Seq<char>>,
) -> Option<Seq<char>> {
    let (first, second) = if provider == "openai"@ {
        (openai, ollama)
    } else {
        (ollama, openai)
    };
    match first {
        Some(k) => Some(k),
        None => match second {
            Some(k) => Some(k),
            None => current,
        },
    }
}

/// The directory the indexer keeps its data in: the data directory the
/// environment names, else `.directory-indexer` in the home directory (or in
/// `.` when there is no home directory).
pub open spec fn app_dir_spec(data_dir: Option<Seq<char>>, home: Option<Seq<char>>) -> Seq<char> {
    match data_dir {
        Some(d) => d,
        None => path_join(
            match home {
                Some(h) => h,
                None => "."@,
            },
            ".directory-indexer"@,
        ),
    }
}

/// The collection name used for a test run, unique to the process and the
/// moment: `directory-indexer-test-<pid>-<nanos>`.
pub open spec fn test_collection_name(pid: nat, nanos: nat) -> Seq<char> {
    "directory-indexer-test-"@ + decimal(pid) + "-"@ + decimal(nanos)
}

/// The decimal representation of a 128-bit number.
pub fn u128_to_decimal(n: u128) -> (s: String)
    ensures
        s@ == decimal(n as nat),
    decreases n,
{
    let digit = ((n % 10) as u8 + 48u8) as char;
    assert(digit == crate::strings::digit_char((n % 10) as nat));
    if n < 10 {
        let mut s = String::new();
        crate::strings::push_char(&mut s, digit);
        assert(s@ == seq![digit]);
        s
    } else {
        let mut s = u128_to_decimal(n / 10);
        crate::strings::push_char(&mut s, digit);
        s
    }
}

fn override_with(value: &mut String, replacement: &Option<String>)
    ensures
        final(value)@ == match opt_view(*replacement) {
            Some(r) => r,
            None => old(value)@,
        },
{
    match replacement {
        Some(r) => {
            *value = r.clone();
        },
        None => {},
    }
}

impl Config {
    /// The data directory: the one the environment names, else
    /// `.directory-indexer` in the home directory.
    pub fn default_app_dir(data_dir: Option<&str>, home: Option<&str>) -> (dir: String)
        ensures
            dir@ == app_dir_spec(
                match data_dir {
                    Some(d) => Some(d@),
                    None => None,
                },
                match home {
                    Some(h) => Some(h@),
                    None => None,
                },
            ),
    {
        match data_dir {
            Some(d) => d.to_owned(),
            None => {
                let base = match home {
                    Some(h) => h,
                    None => ".",
                };
                join_paths(base, ".directory-indexer")
            },
        }
    }

    /// Where the configuration file is kept in the data directory.
    pub fn default_config_path(app_dir: &str) -> (path: String)
        ensures
            path@ == path_join(app_dir@, "config.json"@),
    {
        join_paths(app_dir, "config.json")
    }

    /// The default configuration, with its database in `app_dir`.
    pub fn with_app_dir(app_dir: &str) -> (c: Config)
        ensures
            c.storage.sqlite_path@ == path_join(app_dir@, "data.db"@),
            c.storage.qdrant.endpoint@ == "http://localhost:6333"@,
            c.storage.qdrant.collection@ == "directory-indexer"@,
            c.storage.qdrant.api_key is None,
            c.embedding.provider@ == "ollama"@,
            c.embedding.model@ == "nomic-embed-text"@,
            c.embedding.endpoint@ == "http://localhost:11434"@,
            c.embedding.api_key is None,
            c.indexing.chunk_size == 512,
            c.indexing.overlap == 50,
            c.indexing.max_file_size == 10 * 1024 * 1024,
            views(c.indexing.ignore_patterns@) == default_ignore_patterns(),
            c.indexing.concurrency == 4,
            !c.monitoring.file_watching,
            c.monitoring.batch_size == 100,
    {
        Config {
            storage: StorageConfig {
                sqlite_path: join_paths(app_dir, "data.db"),
                qdrant: QdrantConfig {
                    endpoint: "http://localhost:6333".to_owned(),
                    collection: "directory-indexer".to_owned(),
                    api_key: None,
                },
            },
            embedding: EmbeddingConfig {
                provider: "ollama".to_owned(),
                model: "nomic-embed-text".to_owned(),
                endpoint: "http://localhost:11434".to_owned(),
                api_key: None,
            },
            indexing: IndexingConfig {
                chunk_size: 512,
                overlap: 50,
                max_file_size: 10 * 1024 * 1024,
                ignore_patterns: default_patterns(),
                concurrency: 4,
            },
            monitoring: MonitoringConfig { file_watching: false, batch_size: 100 },
        }
    }

    /// Applies the environment to the configuration, as loading does. A
    /// collection named `test` becomes a name unique to the process `pid` and
    /// the moment `nanos`.
    pub fn apply_environment(&mut self, env: &EnvOverrides, pid: u32, nanos: u128)
        ensures
            final(self).storage.qdrant.endpoint@ == match opt_view(env.qdrant_endpoint) {
                Some(e) => e,
                None => old(self).storage.qdrant.endpoint@,
            },
            final(self).embedding.endpoint@ == match opt_view(env.ollama_endpoint) {
                Some(e) => e,
                None => old(self).embedding.endpoint@,
            },
            final(self).storage.sqlite_path@ == match opt_view(env.data_dir) {
                Some(d) => path_join(d, "data.db"@),
                None => old(self).storage.sqlite_path@,
            },
            final(self).storage.qdrant.collection@ == match opt_view(env.qdrant_collection) {
                Some(c) => if c == "test"@ {
                    test_collection_name(pid as nat, nanos as nat)
                } else {
                    c
                },
                None => old(self).storage.qdrant.collection@,
            },
            opt_view(final(self).storage.qdrant.api_key) == match opt_view(env.qdrant_api_key) {
                Some(k) => Some(k),
                None => opt_view(old(self).storage.qdrant.api_key),
            },
            opt_view(final(self).embedding.api_key) == embedding_key(
                old(self).embedding.provider@,
                opt_view(env.ollama_api_key),
                opt_view(env.openai_api_key),
                opt_view(old(self).embedding.api_key),
            ),
            final(self).embedding.provider == old(self).embedding.provider,
            final(self).embedding.model == old(self).embedding.model,
            final(self).indexing == old(self).indexing,
            final(self).monitoring == old(self).monitoring,
    {
        override_with(&mut self.storage.qdrant.endpoint, &env.qdrant_endpoint);
        override_with(&mut self.embedding.endpoint, &env.ollama_endpoint);
        match &env.data_dir {
            Some(d) => {
                self.storage.sqlite_path = join_paths(d.as_str(), "data.db");
            },
            None => {},
        }
        match &env.qdrant_collection {
            Some(c) => {
                proof {
                    reveal_strlit("test");
                }
                if str_eq(c.as_str(), "test") {
                    let mut name = concat("directory-indexer-test-", crate::strings::u64_to_decimal(pid as u64).as_str());
                    append_str(&mut name, "-");
                    append_str(&mut name, u128_to_decimal(nanos).as_str());
                    self.storage.qdrant.collection = name;
                } else {
                    self.storage.qdrant.collection = c.clone();
                }
            },
            None => {},
        }
        match &env.qdrant_api_key {
            Some(k) => {
                self.storage.qdrant.api_key = Some(k.clone());
            },
            None => {},
        }
        proof {
            reveal_strlit("openai");
        }
        let (first, second) = if str_eq(self.embedding.provider.as_str(), "openai") {
            (&env.openai_api_key, &env.ollama_api_key)
        } else {
            (&env.ollama_api_key, &env.openai_api_key)
        };
        match first {
            Some(k) => {
                self.embedding.api_key = Some(k.clone());
            },
            None => match second {
                Some(k) => {
                    self.embedding.api_key = Some(k.clone());
                },
                None => {},
            },
        }
    }
}

} // verus!
