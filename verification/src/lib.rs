//! Discovery of the command-line shells installed on a host.
//!
//! The library holds the rules of discovery and nothing that touches the
//! machine: the caller reads the search path, probes files and reads the
//! shell registry, and hands the library plain strings and answers.

pub mod catalog;
pub mod greeting;
pub mod posix;
pub mod search_path;
pub mod strategy;
pub mod text;
pub mod windows;
