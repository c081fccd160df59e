//! What the environment check decides: which services the configuration
//! needs, and what to say when one of them cannot be reached.
use vstd::prelude::*;

use crate::config::settings::EmbeddingConfig;
use crate::embedding::provider::ProviderKind;
use crate::error::{IndexerError, Result};
use crate::strings::{append_str, concat, str_eq};

verus! {

/// `e` is an environment-setup error with message `m`.
pub open spec fn is_setup_error(e: IndexerError, m: Seq<char>) -> bool {
    e matches IndexerError::EnvironmentSetup { message } && message@ == m
}

/// Where the setup instructions are.
pub open spec fn setup_hint() -> Seq<char> {
    ". Setup required: https://github.com/peteretelej/directory-indexer#setup"@
}

/// The error for a service that answered with a failure (`responded`) or
/// could not be reached at all.
pub fn service_unavailable(service: &str, endpoint: &str, responded: bool) -> (e: IndexerError)
    ensures
        is_setup_error(
            e,
            if responded {
                service@ + " not accessible at "@ + endpoint@ + setup_hint()
            } else {
                "Cannot connect to "@ + service@ + " at "@ + endpoint@ + setup_hint()
            },
        ),
{
    let mut m = if responded {
        concat(service, " not accessible at ")
    } else {
        let mut c = concat("Cannot connect to ", service);
        append_str(&mut c, " at ");
        c
    };
    append_str(&mut m, endpoint);
    append_str(&mut m, ". Setup required: https://github.com/peteretelej/directory-indexer#setup");
    IndexerError::environment_setup(m.as_str())
}

/// What the embedding configuration needs before work can start: Ollama must
/// answer (the caller checks), OpenAI needs an API key, and any other
/// provider is unknown.
pub fn embedding_requirement(config: &EmbeddingConfig) -> (r: Result<ProviderKind>)
    ensures
        config.provider@ == "ollama"@ ==> r == Ok::<ProviderKind, IndexerError>(ProviderKind::Ollama),
        config.provider@ == "openai"@ && config.api_key is Some ==> r == Ok::<
            ProviderKind,
            IndexerError,
        >(ProviderKind::OpenAi),
        config.provider@ == "openai"@ && config.api_key is None ==> (r matches Err(e)
            && is_setup_error(
            e,
            "OpenAI API key required but not provided (set OPENAI_API_KEY)"@ + setup_hint(),
        )),
        config.provider@ != "ollama"@ && config.provider@ != "openai"@ ==> (r matches Err(e)
            && is_setup_error(e, "Unknown embedding provider: "@ + config.provider@ + setup_hint())),
{
    proof {
        reveal_strlit("ollama");
        reveal_strlit("openai");
        assert("ollama"@[1] != "openai"@[1]);
    }
    if str_eq(config.provider.as_str(), "ollama") {
        Ok(ProviderKind::Ollama)
    } else if str_eq(config.provider.as_str(), "openai") {
        if config.api_key.is_none() {
            let m = concat(
                "OpenAI API key required but not provided (set OPENAI_API_KEY)",
                ". Setup required: https://github.com/peteretelej/directory-indexer#setup",
            );
            return Err(IndexerError::environment_setup(m.as_str()));
        }
        Ok(ProviderKind::OpenAi)
    } else {
        let mut m = concat("Unknown embedding provider: ", config.provider.as_str());
        append_str(
            &mut m,
            ". Setup required: https://github.com/peteretelej/directory-indexer#setup",
        );
        Err(IndexerError::environment_setup(m.as_str()))
    }
}

} // verus!
