//! Core logic of a local pair-programming assistant: a branching message
//! store, the staging of files as context for the next turn, and the parsing
//! and application of the edits that a model proposes.

pub mod cli;
pub mod config;
pub mod context;
pub mod db;
pub mod hooks;
pub mod llm;
pub mod paths;
pub mod prompt;
pub mod sorted;
pub mod text;
pub mod tree;
pub mod turn;

pub use crate::context::{calculate_final_context, FileMetadata, MessageMetadata};
