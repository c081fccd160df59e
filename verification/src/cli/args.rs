//! Arguments shared by every command.
use vstd::prelude::*;

verus! {

/// The options every command accepts.
#[derive(Debug)]
pub struct CommonArgs {
    /// Enable verbose logging
    pub verbose: bool,
    /// Path to configuration file
    pub config: Option<String>,
}

} // verus!
