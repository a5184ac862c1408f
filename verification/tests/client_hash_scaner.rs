use spd::client::appconfig::{AppConfig, HashScanerConfig, PortDetectorConfig, SSHDetectorConfig};
use spd::client::hash_scaner::{hash_scan_alerts, hash_scan_round, init_origins_hash_scaner};
use spd::digest::hash_file;
use spd::scanning::FileTree;
use spd::table::StringMap;
use std::sync::Arc;

fn file(p: &str, c: &[u8]) -> FileTree {
    FileTree::File { path: p.to_string(), contents: c.to_vec() }
}

fn dir(p: &str, entries: Vec<FileTree>) -> FileTree {
    FileTree::Dir { path: p.to_string(), entries }
}

fn strings(xs: &[&str]) -> Vec<String> {
    xs.iter().map(|x| x.to_string()).collect()
}

fn config(dirs: &[&str], exceptions: &[&str]) -> AppConfig {
    AppConfig {
        hash_scaner: HashScanerConfig {
            on: true,
            directories: strings(dirs),
            exceptions: strings(exceptions),
            cooldown: 30,
        },
        ssh_detector: SSHDetectorConfig {
            check_auth_on: false,
            log_file: "/var/log/auth.log".to_string(),
            check_journalctl_on: false,
            journalctl_cooldown: 60,
        },
        port_detector: PortDetectorConfig { on: false, legit_ports: vec![], cooldown: 60 },
    }
}

#[test]
fn reference_fingerprints_extend_the_given_map() {
    let mut start = StringMap::new();
    start.insert("/kept".to_string(), "h".to_string());
    let trees = vec![dir("/d", vec![file("/d/x", b"x"), file("/d/skip.log", b"l")])];
    let origins = init_origins_hash_scaner(Arc::new(config(&["/d"], &["*.log"])), start, &trees);
    assert_eq!(origins.len(), 2);
    assert_eq!(origins.get("/kept"), Some(&"h".to_string()));
    assert_eq!(origins.get("/d/x"), Some(&hash_file(b"x")));
    assert_eq!(origins.get("/d/skip.log"), None);
}

#[test]
fn alerts_name_the_fresh_fingerprint() {
    let mut origins = StringMap::new();
    origins.insert("/a".to_string(), "old".to_string());
    origins.insert("/b".to_string(), "same".to_string());
    let mut fresh = StringMap::new();
    fresh.insert("/a".to_string(), "new".to_string());
    fresh.insert("/b".to_string(), "same".to_string());
    fresh.insert("/c".to_string(), "h3".to_string());
    let alerts = hash_scan_alerts(&origins, &fresh);
    assert_eq!(alerts.len(), 2);
    assert_eq!(alerts.get("/a"), Some(&"Detected modified file: new".to_string()));
    assert_eq!(alerts.get("/c"), Some(&"Detected new file: h3".to_string()));
    assert_eq!(alerts.get("/b"), None);
}

#[test]
fn unchanged_round_is_silent() {
    let trees = vec![dir("/d", vec![file("/d/x", b"x"), file("/d/y", b"y")])];
    let origins = init_origins_hash_scaner(Arc::new(config(&["/d"], &[])), StringMap::new(), &trees);
    let (report, exceptions) = hash_scan_round(&origins, &trees, strings(&[]));
    assert!(report.is_none());
    assert!(exceptions.is_empty());
}

#[test]
fn changed_round_reports_under_hash_scaner() {
    let before = vec![dir("/d", vec![file("/d/x", b"x")])];
    let origins = init_origins_hash_scaner(Arc::new(config(&["/d"], &[])), StringMap::new(), &before);
    let after = vec![dir("/d", vec![file("/d/x", b"x2"), file("/d/new", b"n")])];
    let (report, _) = hash_scan_round(&origins, &after, strings(&[]));
    let report = report.expect("a report");
    assert_eq!(report.module, "hash_scaner");
    assert_eq!(
        report.alerts.get("/d/x"),
        Some(&format!("Detected modified file: {}", hash_file(b"x2")))
    );
    assert_eq!(report.alerts.get("/d/new"), Some(&format!("Detected new file: {}", hash_file(b"n"))));
}
