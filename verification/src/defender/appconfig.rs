//! Configuration of the first defender version.
use vstd::prelude::*;

verus! {

/// The whole configuration file.
pub struct AppConfig {
    pub hash_scaner: HashScanerConfig,
    pub telegram_bot: BotConfig,
}

/// Which directories to fingerprint, which paths to skip, and the
/// longest pause between two scans, in seconds.
pub struct HashScanerConfig {
    pub directories: Vec<String>,
    pub exceptions: Vec<String>,
    pub cooldown: u64,
}

/// Where alerts would be sent by a chat bot.
pub struct BotConfig {
    pub token: String,
    pub admin_chat: String,
}

} // verus!
