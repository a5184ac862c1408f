use spd::digest::hash_file;
use spd::scanning::{scan_directories, scan_directory, FileTree};
use spd::table::StringMap;
use spd::defender_rs::hash_scaner::{changed_files_report, scan_round};
use std::sync::Arc;

fn file(p: &str, c: &[u8]) -> FileTree {
    FileTree::File { path: p.to_string(), contents: c.to_vec() }
}

fn dir(p: &str, entries: Vec<FileTree>) -> FileTree {
    FileTree::Dir { path: p.to_string(), entries }
}

fn other(p: &str) -> FileTree {
    FileTree::Other { path: p.to_string() }
}

fn entries(m: &StringMap) -> Vec<(String, String)> {
    (0..m.len()).map(|i| { let (k, v) = m.entry(i); (k.clone(), v.clone()) }).collect()
}

fn strings(xs: &[&str]) -> Vec<String> {
    xs.iter().map(|x| x.to_string()).collect()
}

fn sample() -> FileTree {
    dir(
        "/srv",
        vec![
            file("/srv/a.txt", b"alpha"),
            dir("/srv/cache", vec![file("/srv/cache/tmp", b"junk")]),
            other("/srv/socket"),
            dir("/srv/conf", vec![file("/srv/conf/app.yaml", b"port: 1")]),
        ],
    )
}

#[test]
fn a_single_file_is_fingerprinted_under_its_path() {
    let (m, exc) = scan_directory(StringMap::new(), &file("/etc/hosts", b"127.0.0.1"), strings(&[]));
    assert_eq!(entries(&m), vec![("/etc/hosts".to_string(), hash_file(b"127.0.0.1"))]);
    assert!(exc.is_empty());
}

#[test]
fn directories_are_walked_in_listing_order_skipping_exceptions() {
    let (m, exc) = scan_directory(StringMap::new(), &sample(), strings(&["/srv/cache"]));
    assert_eq!(
        entries(&m),
        vec![
            ("/srv/a.txt".to_string(), hash_file(b"alpha")),
            ("/srv/conf/app.yaml".to_string(), hash_file(b"port: 1")),
        ]
    );
    assert_eq!(exc, strings(&["/srv/cache"]));
}

#[test]
fn without_exceptions_everything_is_fingerprinted() {
    let (m, _) = scan_directory(StringMap::new(), &sample(), strings(&[]));
    assert_eq!(m.len(), 3);
    assert_eq!(m.get("/srv/cache/tmp"), Some(&hash_file(b"junk")));
}

#[test]
fn the_scanned_root_itself_is_not_checked_against_exceptions() {
    let (m, _) = scan_directory(StringMap::new(), &file("/srv/a.txt", b"alpha"), strings(&["/srv/*"]));
    assert_eq!(m.len(), 1);
}

#[test]
fn other_paths_add_nothing_and_old_entries_stay() {
    let mut start = StringMap::new();
    start.insert("/old".to_string(), "h".to_string());
    let (m, _) = scan_directory(start, &other("/missing"), strings(&[]));
    assert_eq!(entries(&m), vec![("/old".to_string(), "h".to_string())]);
}

#[test]
fn rescanning_an_unchanged_tree_gives_the_same_fingerprints() {
    let trees = vec![sample(), file("/etc/motd", b"hi")];
    let (first, exc) = scan_directories(StringMap::new(), &trees, strings(&["*/cache"]));
    let (second, _) = scan_directories(first.copied(), &trees, exc);
    assert_eq!(entries(&first), entries(&second));
}

#[test]
fn scanning_replaces_changed_fingerprints() {
    let (first, exc) = scan_directory(StringMap::new(), &sample(), strings(&[]));
    let changed = dir("/srv", vec![file("/srv/a.txt", b"ALPHA")]);
    let (second, _) = scan_directory(first, &changed, exc);
    assert_eq!(second.get("/srv/a.txt"), Some(&hash_file(b"ALPHA")));
    assert_eq!(second.get("/srv/cache/tmp"), Some(&hash_file(b"junk")));
}

#[test]
fn defender_scan_has_no_exceptions() {
    let m = spd::defender::hash_scaner::scan_directory(StringMap::new(), &sample());
    assert_eq!(m.len(), 3);
}

fn defender_config(dirs: &[&str], exceptions: &[&str]) -> spd::defender::appconfig::AppConfig {
    spd::defender::appconfig::AppConfig {
        hash_scaner: spd::defender::appconfig::HashScanerConfig {
            directories: strings(dirs),
            exceptions: strings(exceptions),
            cooldown: 10,
        },
        telegram_bot: spd::defender::appconfig::BotConfig {
            token: "SECRET-REDACTED".to_string(),
            admin_chat: "42".to_string(),
        },
    }
}

#[test]
fn defender_reference_fingerprints() {
    let config = Arc::new(defender_config(&["/srv", "/etc/motd"], &["/srv/cache"]));
    let trees = vec![sample(), file("/etc/motd", b"hi")];
    let origins = spd::defender_rs::hash_scaner::init_origins_hash_scaner(config, &trees);
    assert_eq!(
        entries(&origins),
        vec![
            ("/srv/a.txt".to_string(), hash_file(b"alpha")),
            ("/srv/conf/app.yaml".to_string(), hash_file(b"port: 1")),
            ("/etc/motd".to_string(), hash_file(b"hi")),
        ]
    );
}

#[test]
fn defender_reports_new_and_changed_files() {
    let config = Arc::new(defender_config(&["/srv"], &[]));
    let origins = spd::defender_rs::hash_scaner::init_origins_hash_scaner(
        config,
        &vec![dir("/srv", vec![file("/srv/a", b"1"), file("/srv/b", b"2")])],
    );
    let now = vec![dir("/srv", vec![file("/srv/a", b"1"), file("/srv/b", b"changed"), file("/srv/c", b"3")])];
    let (hashes, _, lines) = scan_round(&origins, origins.copied(), &now, strings(&[]));
    assert_eq!(lines, strings(&["File changed: /srv/b", "New file found: /srv/c"]));
    assert_eq!(changed_files_report(&origins, &origins), Vec::<String>::new());
    assert_eq!(hashes.len(), 3);
}

#[test]
fn defender_reports_nothing_when_unchanged() {
    let config = Arc::new(defender_config(&["/srv"], &[]));
    let trees = vec![sample()];
    let origins = spd::defender_rs::hash_scaner::init_origins_hash_scaner(config, &trees);
    let (_, _, lines) = scan_round(&origins, origins.copied(), &trees, strings(&[]));
    assert!(lines.is_empty());
}

#[test]
fn directory_order_does_not_change_the_fingerprints() {
    let shared = file("/srv/conf/app.yaml", b"port: 1");
    let t1 = vec![sample(), dir("/srv/conf", vec![shared.clone_tree()]), file("/etc/motd", b"hi")];
    let t2 = vec![file("/etc/motd", b"hi"), dir("/srv/conf", vec![shared.clone_tree()]), sample()];
    let (a, _) = scan_directories(StringMap::new(), &t1, strings(&[]));
    let (b, _) = scan_directories(StringMap::new(), &t2, strings(&[]));
    let mut ea = entries(&a);
    let mut eb = entries(&b);
    ea.sort();
    eb.sort();
    assert_eq!(ea, eb);
}

trait CloneTree {
    fn clone_tree(&self) -> FileTree;
}

impl CloneTree for FileTree {
    fn clone_tree(&self) -> FileTree {
        match self {
            FileTree::File { path, contents } => FileTree::File { path: path.clone(), contents: contents.clone() },
            FileTree::Dir { path, entries } => {
                FileTree::Dir { path: path.clone(), entries: entries.iter().map(|e| e.clone_tree()).collect() }
            }
            FileTree::Other { path } => FileTree::Other { path: path.clone() },
        }
    }
}
