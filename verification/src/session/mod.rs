//! Conversation sessions of the interactive shell.
pub mod context;
