//! Prompt templates served over a line-delimited JSON-RPC protocol: the
//! template grammar, prompt validation and rendering, and request dispatch.

pub mod cli;
pub mod file;
pub mod formatters;
pub mod git;
pub mod loader;
pub mod model;
pub mod prompt;
pub mod protocol;
