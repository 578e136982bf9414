//! Shell assistant library: command risk rules, confirmation decisions,
//! conversation sessions, built-in shell commands and prompt texts.
pub mod ai;
pub mod cli;
pub mod commands;
pub mod config;
pub mod error;
pub mod safety;
pub mod session;
pub mod text;
