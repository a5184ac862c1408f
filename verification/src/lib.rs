//! Verified core of the "small project defender" host-monitoring tools.
pub mod client;
pub mod defender;
pub mod defender_rs;
pub mod digest;
pub mod glob_match;
pub mod report;
pub mod scanning;
pub mod schedule;
pub mod server;
pub mod table;
pub mod text;
