pub mod content;
pub mod engine;
pub mod ranking;
pub mod score;
pub mod similar;
