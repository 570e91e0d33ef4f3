//! A gate between an author and a green check mark: a pull request that carries
//! machine-written hunks is quizzed before it counts as ready.
//!
//! Everything here computes on values that the caller has already read. Running
//! git, talking to the forge and drawing the terminal belong to the program
//! around the library.

pub mod text;
pub mod digest;
pub mod git;
pub mod authorship;
pub mod triage;
pub mod context;
pub mod json;
pub mod llm;
pub mod db;
pub mod gate;
pub mod tui;
pub mod config;
pub mod gh;
pub mod dash;
