//! Verified core of `cargo whats-new`: the text processing, the package
//! comparisons and the decisions that the command line tool makes between its
//! network and file-system steps.

pub mod bindings;
pub mod changelog;
pub mod package;
pub mod release_notes;
pub mod report;
pub mod text;
