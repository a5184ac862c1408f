//! The first version of the defender: configuration and a scan without
//! exception patterns.
pub mod appconfig;
pub mod hash_scaner;
