//! Which embedding provider a configuration asks for, and the usage a
//! provider reports.
use vstd::prelude::*;

use crate::config::settings::EmbeddingConfig;
use crate::error::{is_invalid_input, IndexerError, Result};
use crate::strings::{concat, str_eq};

verus! {

/// The tokens an embedding request used, where the provider reports them.
#[derive(Debug, Clone)]
pub struct EmbeddingUsage {
    pub prompt_tokens: Option<u32>,
    pub total_tokens: Option<u32>,
}

/// The embedding providers the indexer can talk to.
#[derive(Debug, Clone, Copy, PartialEq, Eq)]
pub enum ProviderKind {
    /// A local Ollama server.
    Ollama,
    /// The OpenAI embeddings API.
    OpenAi,
}

/// The provider a configuration names, or the message refusing it.
pub open spec fn provider_kind_spec(provider: Seq<char>) -> std::result::Result<ProviderKind, Seq<char>> {
    if provider == "ollama"@ {
        Ok(ProviderKind::Ollama)
    } else if provider == "openai"@ {
        Ok(ProviderKind::OpenAi)
    } else {
        Err("Unsupported embedding provider: "@ + provider)
    }
}

/// The provider the configuration names: `ollama` or `openai`; any other
/// name is refused.
pub fn choose_provider(config: &EmbeddingConfig) -> (r: Result<ProviderKind>)
    ensures
        match provider_kind_spec(config.provider@) {
            Ok(k) => r == Ok::<ProviderKind, IndexerError>(k),
            Err(m) => r matches Err(e) && is_invalid_input(e, m),
        },
{
    if str_eq(config.provider.as_str(), "ollama") {
        Ok(ProviderKind::Ollama)
    } else if str_eq(config.provider.as_str(), "openai") {
        Ok(ProviderKind::OpenAi)
    } else {
        let m = concat("Unsupported embedding provider: ", config.provider.as_str());
        Err(IndexerError::invalid_input(m.as_str()))
    }
}

/// The API key an OpenAI provider is made with: the configured one, or the
/// empty string.
pub fn openai_api_key(config: &EmbeddingConfig) -> (key: String)
    ensures
        key@ == match config.api_key {
            Some(k) => k@,
            None => Seq::<char>::empty(),
        },
{
    match &config.api_key {
        Some(k) => k.clone(),
        None => String::new(),
    }
}

} // verus!
