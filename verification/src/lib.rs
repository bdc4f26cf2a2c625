//! Poll-based change detection for a directory subtree, with the
//! restart decisions of a process supervisor.
//!
//! The scanner classifies the regular files of a snapshot of the watched
//! subtree against a watermark timestamp; the supervisor advances the
//! watermark and decides when the supervised child process is restarted.

pub mod scanner;
pub mod supervisor;
pub mod tree;
