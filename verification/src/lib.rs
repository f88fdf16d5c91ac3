//! Concatenates the source files of a directory tree for large-context text
//! models, with a comment stripper at its core.
//!
//! The crate is a Verus library. [`decommenter`] holds the stripper, its
//! mathematical model and the registry of languages; [`processor`] and
//! [`walker`] hold what is decided of each file; [`cli`] holds the command
//! line. Calls into `toml`, `clap` and `ignore` stand behind small wrappers
//! whose contracts are believed, not proved.

pub mod cli;
pub mod decommenter;
pub mod processor;
pub mod walker;
