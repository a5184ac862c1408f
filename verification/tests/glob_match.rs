use spd::glob_match::{clone_strings, is_exception};

fn v(xs: &[&str]) -> Vec<String> {
    xs.iter().map(|x| x.to_string()).collect()
}

#[test]
fn matching_pattern_makes_an_exception() {
    assert!(is_exception("/etc/passwd", &v(&["/etc/*"])));
    assert!(is_exception("/var/log/syslog.1", &v(&["/tmp/*", "/var/log/*.?"])));
    assert!(is_exception("/home/u/.cache/x", &v(&["/home/*/.cache/*"])));
}

#[test]
fn no_match_no_exception() {
    assert!(!is_exception("/etc/passwd", &v(&["/var/*"])));
    assert!(!is_exception("/etc/passwd", &v(&[])));
    assert!(!is_exception("/etc/passwd", &v(&["/etc/passwd.bak"])));
}

#[test]
fn invalid_patterns_are_skipped() {
    // "[" and "***" do not compile; the valid pattern after them still counts.
    assert!(!is_exception("/etc/passwd", &v(&["[", "***"])));
    assert!(is_exception("/etc/passwd", &v(&["[", "***", "/etc/pass*"])));
}

#[test]
fn string_lists_copy() {
    let x = v(&["a", "b"]);
    assert_eq!(clone_strings(&x), x);
}

#[test]
fn pattern_order_and_extra_patterns() {
    let paths = ["/etc/passwd", "/var/log/x.log", "/home/u/a"];
    let e1 = v(&["/var/log/*.log", "/etc/*", "["]);
    let e2 = v(&["[", "/etc/*", "/var/log/*.log", "/etc/*"]);
    let more = v(&["/var/log/*.log", "/etc/*", "[", "/home/*/*"]);
    for p in paths {
        assert_eq!(is_exception(p, &e1), is_exception(p, &e2));
        if is_exception(p, &e1) {
            assert!(is_exception(p, &more));
        }
    }
    assert!(!is_exception("/home/u/a", &e1));
    assert!(is_exception("/home/u/a", &more));
}
