pub mod ollama;
pub mod openai;
pub mod provider;
