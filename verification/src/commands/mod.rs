//! The decisions behind the shell commands: reading the model's answer,
//! parsing shell input, built-in commands and configuration changes.
pub mod builtins;
pub mod config;
pub mod execute;
pub mod shell;
