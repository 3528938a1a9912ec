//! Fingerprints the regular files under a directory and fills a table with
//! one `(fingerprint, path)` row per file.
//!
//! A run goes through four phases, strictly in order: the tree is walked,
//! the files are hashed, the rows are inserted into a table in memory, and
//! the table is copied to disk. This library holds the decisions of a run
//! and proves what they amount to; walking, reading and writing are left to
//! its caller, who reports each outcome to the [`driver::Driver`].
//!
//! - [`filter`]: which directory entries a walk keeps.
//! - [`walk`]: what a walk emits, and which of it is hashed.
//! - [`hasher`]: the streaming XXH64 fingerprint of a file's content.
//! - [`hex`]: the sixteen-digit text of a fingerprint.
//! - [`literal`]: the row literal, built and parsed back.
//! - [`stager`]: the rows that wait for the store.
//! - [`store`]: the table in memory, filled in one transaction.
//! - [`driver`]: the phases of a run and its counters.
//! - [`run`], [`rows`]: what holds of whole runs and of the rows they leave.
//! - [`error`]: what can go wrong, and which of it ends a run.

pub mod driver;
pub mod error;
pub mod filter;
pub mod hasher;
pub mod hex;
pub mod literal;
pub mod rows;
pub mod run;
pub mod stager;
pub mod store;
pub mod text;
pub mod walk;
