//! The listening server's own view of its configuration and the lines it
//! prints.
use vstd::prelude::*;
use crate::text::{decimal, decimal_string};

verus! {

/// The configuration the listener reads.
pub struct AppConfig {
    pub server_settings: ServerSettings,
}

/// Where to listen.
pub struct ServerSettings {
    pub ip: String,
    pub port: u16,
}

/// The line printed once the listener is bound.
pub open spec fn listen_line(ip: Seq<char>, port: nat) -> Seq<char> {
    "Сервер запущен на "@ + ip + ":"@ + decimal(port)
}

/// Builds the line printed once the listener is bound.
pub fn listen_banner(settings: &ServerSettings) -> (r: String)
    ensures
        r@ == listen_line(settings.ip@, settings.port as nat),
{
    let mut r = String::from_str("Сервер запущен на ");
    r.append(settings.ip.as_str());
    r.append(":");
    r.append(decimal_string(settings.port as u64).as_str());
    r
}

/// The line printed for an accepted connection from `addr`.
pub fn connection_banner(addr: &str) -> (r: String)
    ensures
        r@ == "Новое соединение: "@ + addr@,
{
    let mut r = String::from_str("Новое соединение: ");
    r.append(addr);
    r
}

/// The line printed when accepting a connection fails with `error`.
pub fn accept_error_message(error: &str) -> (r: String)
    ensures
        r@ == "Ошибка при принятии соединения: "@ + error@,
{
    let mut r = String::from_str("Ошибка при принятии соединения: ");
    r.append(error);
    r
}

} // verus!
