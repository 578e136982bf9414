//! Chat messages, chat request preparation and the prompt texts.
pub mod client;
pub mod prompt;
