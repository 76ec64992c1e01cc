//! Orchestration core for launching external command-line AI tools:
//! binary resolution, a cancellable process registry, the streaming
//! run protocol (ordered stream events followed by exactly one
//! completion event), text sanitising (ANSI-escape stripping, POSIX
//! shell quoting), and the key/value config-file rewrite.

pub mod config;
pub mod error;
pub mod executor;
pub mod percent;
pub mod quote;
pub mod registry;
pub mod resolver;
pub mod sanitize;
pub mod text;
