pub mod json_rpc;
pub mod server;
pub mod tools;
