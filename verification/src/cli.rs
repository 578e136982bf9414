//! The command line of the `shellm` program, as plain values.
use vstd::prelude::*;

verus! {

/// shellm — AI-powered shell assistant
#[derive(Debug, Clone, PartialEq, Eq)]
pub struct Cli {
    pub command: Commands,
}

/// The subcommands.
#[derive(Debug, Clone, PartialEq, Eq)]
pub enum Commands {
    /// Execute a shell command based on a natural language query
    Execute { query: String },
    /// Explain a shell command
    Explain { command: String },
    /// Manage configuration (API key, model, etc.)
    Config { action: ConfigAction },
    /// Interactive shell
    Shell,
}

/// The configuration subcommands.
#[derive(Debug, Clone, PartialEq, Eq)]
pub enum ConfigAction {
    SetKey,
    SetModel { model: String },
    SetUrl { url: String },
    Show,
    Reset,
}

} // verus!
