//! Schema compiler for a message-definition language, and helpers for
//! filtering mobile confirmations.
pub mod graph;
pub mod text;
pub mod schema;
pub mod laws;
pub mod confirmation;
