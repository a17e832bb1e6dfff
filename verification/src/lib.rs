//! Verified core of a multi-project development-tools server.
//!
//! The library models the project-session registry, the indexing state
//! machine of a language-server session, the build-tool output classifier,
//! the symbol resolution and disambiguation rules, the positional text-edit
//! engine, and the notification routing. Everything here is verified; the
//! surrounding processes (subprocess I/O, persistence, channels) live in the
//! unverified binary around this crate and exchange plain values with it.

pub mod cargo;
pub mod edits;
pub mod lsp;
pub mod notify;
pub mod paths;
pub mod progress;
pub mod project;
pub mod registry;
pub mod symbols;
pub mod text;
pub mod tools;
