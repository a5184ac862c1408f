//! The report server: its configuration and what it prints.
pub mod appconfig;
pub mod tcp_server;
