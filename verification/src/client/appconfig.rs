//! Configuration of the monitoring client.
use vstd::prelude::*;

verus! {

/// The whole configuration file.
pub struct AppConfig {
    pub hash_scaner: HashScanerConfig,
    pub ssh_detector: SSHDetectorConfig,
    pub port_detector: PortDetectorConfig,
}

/// Whether to fingerprint files, which directories, which paths to skip,
/// and the longest pause between two scans, in seconds.
pub struct HashScanerConfig {
    pub on: bool,
    pub directories: Vec<String>,
    pub exceptions: Vec<String>,
    pub cooldown: u64,
}

/// Whether to watch the authentication log (and which file) and the
/// system journal (and the longest pause between two queries).
pub struct SSHDetectorConfig {
    pub check_auth_on: bool,
    pub log_file: String,
    pub check_journalctl_on: bool,
    pub journalctl_cooldown: u64,
}

/// Whether to list listening ports, which ones are expected (as
/// "Port: P, Protocol: T" lines), and the longest pause between two
/// listings.
pub struct PortDetectorConfig {
    pub on: bool,
    pub legit_ports: Vec<String>,
    pub cooldown: u64,
}

} // verus!
