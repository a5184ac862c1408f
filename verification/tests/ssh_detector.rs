use spd::client::ssh_detector::alert_from_groups;
use spd::client::ssh_detector::{
    auth_line, auth_log_alerts, auth_log_round, journal_alerts, journal_error_message,
    journal_line, journal_round, journalctl_args, login_alert_text, ssh_login_regex,
};
use spd::report::Round;
use spd::text::chars_of;

const AUTH_LINE: &str =
    "Mar  1 10:00:00 host sshd[1234]: Accepted password for alice from 10.0.0.5 port 50000 ssh2";
const JOURNAL_LINE: &str =
    "Mar 01 10:00:00 host sshd[99]: Accepted publickey for bob from 192.168.1.2 port 5 ssh2";

#[test]
fn login_alert_format() {
    assert_eq!(
        login_alert_text("alice", "10.0.0.5", "1234"),
        "Новое SSH-подключение: Пользователь: alice, IP: 10.0.0.5, PID: 1234"
    );
}

#[test]
fn the_login_pattern_compiles_and_matches() {
    let re = ssh_login_regex().expect("the pattern compiles");
    assert_eq!(
        auth_line(&re, AUTH_LINE),
        Some("Новое SSH-подключение: Пользователь: alice, IP: 10.0.0.5, PID: 1234".to_string())
    );
    assert_eq!(auth_line(&re, "Mar  1 host sshd[1]: Failed password for bob from 1.2.3.4"), None);
}

#[test]
fn the_auth_log_keeps_the_last_login() {
    let re = ssh_login_regex().unwrap();
    let log = format!(
        "{}\nnoise\nMar  1 host sshd[7]: Accepted password for carol from 10.1.1.1 port 2 ssh2\n",
        AUTH_LINE
    );
    let alerts = auth_log_alerts(&re, &log);
    assert_eq!(alerts.len(), 1);
    assert_eq!(
        alerts.get("ssh_detector"),
        Some(&"Новое SSH-подключение: Пользователь: carol, IP: 10.1.1.1, PID: 7".to_string())
    );
    match auth_log_round(&re, log.as_bytes()) {
        Round::Send(report) => assert_eq!(report.module, "ssh_detector"),
        _ => panic!("expected a report"),
    }
}

#[test]
fn a_log_without_logins_is_quiet_and_invalid_bytes_give_up() {
    let re = ssh_login_regex().unwrap();
    assert!(matches!(auth_log_round(&re, b"nothing here\n"), Round::Skip));
    assert!(matches!(auth_log_round(&re, &[b'a', 0xc3]), Round::BadOutput));
}

#[test]
fn journal_lines_are_split_into_fields() {
    assert_eq!(
        journal_line(&chars_of(JOURNAL_LINE)),
        Some("Новое SSH-подключение: Пользователь: bob, IP: 192.168.1.2, PID: unknown".to_string())
    );
    // The process id is read only from a word that ends in "]".
    assert_eq!(
        journal_line(&chars_of("host sshd[99] Accepted publickey for bob from 192.168.1.2")),
        Some("Новое SSH-подключение: Пользователь: bob, IP: 192.168.1.2, PID: 99".to_string())
    );
    assert_eq!(journal_line(&chars_of("sshd[5]: session opened for user x")), None);
}

#[test]
fn missing_journal_fields_are_unknown() {
    assert_eq!(
        journal_line(&chars_of("Accepted something")),
        Some("Новое SSH-подключение: Пользователь: unknown, IP: unknown, PID: unknown".to_string())
    );
    assert_eq!(
        journal_line(&chars_of("sshd[12 Accepted for")),
        Some("Новое SSH-подключение: Пользователь: unknown, IP: unknown, PID: unknown".to_string())
    );
    assert_eq!(
        journal_line(&chars_of("sshd[] Accepted for dave from")),
        Some("Новое SSH-подключение: Пользователь: dave, IP: unknown, PID: ".to_string())
    );
}

#[test]
fn the_journal_keeps_the_last_login() {
    let out = format!("{}\nMar 01 host sshd[3] Accepted password for eve from ::1 port 1 ssh2\n", JOURNAL_LINE);
    let alerts = journal_alerts(out.as_bytes());
    assert_eq!(
        alerts.get("ssh_detector"),
        Some(&"Новое SSH-подключение: Пользователь: eve, IP: ::1, PID: 3".to_string())
    );
    assert!(matches!(journal_round(out.as_bytes()), Round::Send(_)));
    assert!(matches!(journal_round(b"-- No entries --\n"), Round::Skip));
}

#[test]
fn invalid_journal_bytes_are_replaced() {
    let mut out = JOURNAL_LINE.as_bytes().to_vec();
    out.push(0xff);
    let alerts = journal_alerts(&out);
    assert_eq!(alerts.len(), 1);
}

#[test]
fn journal_query_arguments() {
    let args = journalctl_args(17);
    assert_eq!(args, vec!["-u", "ssh", "--since", "17 seconds ago", "|", "grep", "Accepted"]);
    assert_eq!(journal_error_message(b"boom"), "Error running journalctl: boom");
}

#[test]
fn alerts_are_built_from_the_three_groups() {
    let g = |xs: &[Option<&str>]| xs.iter().map(|x| x.map(|s| s.to_string())).collect::<Vec<_>>();
    assert_eq!(
        alert_from_groups(&g(&[Some("all"), Some("42"), Some("root"), Some("1.1.1.1")])),
        Some("Новое SSH-подключение: Пользователь: root, IP: 1.1.1.1, PID: 42".to_string())
    );
    assert_eq!(alert_from_groups(&g(&[Some("all"), Some("42"), None, Some("1.1.1.1")])), None);
    assert_eq!(alert_from_groups(&g(&[Some("all"), Some("42")])), None);
}
