//! Command safety: the local rule engine and the confirmation decisions.
pub mod confirm;
pub mod rules;
