//! Configuration of the report server.
use vstd::prelude::*;

verus! {

/// The whole configuration file.
pub struct AppConfig {
    pub server_settings: ServerSettings,
}

/// Where to listen, and the secret that a client's first message is
/// encrypted with.
pub struct ServerSettings {
    pub ip: String,
    pub port: u16,
    pub init_secret: String,
}

} // verus!
