//! Tag files with free-form labels and key/value attributes, and find them
//! again with a small boolean query language.
//!
//! - `search` turns a query string into an expression tree;
//! - `database` holds the index of tagged files, the tag policy, and the
//!   operations on both, with the laws that hold of them;
//! - `commands`, `args`, `logging` and `utils` hold what the commands of a
//!   program around the database compute;
//! - `text` holds small helpers for strings.
//!
//! Nothing here reads or writes files: paths, the contents of the index and
//! the configuration come in as plain values.

pub mod args;
pub mod commands;
pub mod database;
pub mod logging;
pub mod search;
pub mod text;
pub mod utils;
