//! Helpers around the database.

pub mod files;
