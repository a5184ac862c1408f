//! The monitoring client: detectors, their configuration, and the
//! connection that forwards their reports.
pub mod appconfig;
pub mod connection;
pub mod cryptography;
pub mod hash_scaner;
pub mod port_detector;
pub mod ssh_detector;
