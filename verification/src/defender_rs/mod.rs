//! The defender that skips paths matching exception patterns and reports
//! new and changed files.
pub mod hash_scaner;
