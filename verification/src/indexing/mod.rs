pub mod engine;
pub mod files;
pub mod monitor;
