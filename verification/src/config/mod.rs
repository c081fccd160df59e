pub mod settings;

pub use settings::Config;
