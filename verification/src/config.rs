//! Shell configuration.

use vstd::prelude::*;
use std::collections::HashMap;

verus! {

/// Which integrations the prompt shows.
pub struct Integrations {
    pub rust_integration: bool,
}

/// The shell's configuration.
pub struct DeaconConfig {
    /// The contents of the upper prompt line.  Supports ANSI.
    pub upper_prompt: String,
    /// The contents of the read-line prompt.  Does not support ANSI.
    pub lower_prompt: String,
    /// Integration configuration.
    pub integrations: Integrations,
    /// Whether to use the shell's internal directory listing.
    pub use_deacon_dir: bool,
    pub command_aliases: HashMap<String, String>,
}

} // verus!
