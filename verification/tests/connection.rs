use spd::client::connection::{
    closing_record, format_message, log_record, plan_link_step, render_alerts, secret_key,
    seal_message, session_key_from_reply, LinkEvent, LinkPlan,
};
use spd::client::cryptography::{encrypt, try_decrypt};
use spd::report::Report;
use spd::table::StringMap;

const KEY64: &str = "0123456789abcdef0123456789abcdef0123456789abcdef0123456789abcdef";

fn info(text: &str) -> StringMap {
    let mut m = StringMap::new();
    m.insert("info".to_string(), text.to_string());
    m
}

#[test]
fn detector_messages_carry_their_info() {
    assert_eq!(
        format_message("port_detector", info("Detected not legit port: Port: 1, Protocol: tcp")),
        "Module:port_detector\nMessage:Detected not legit port: Port: 1, Protocol: tcp\n"
    );
    assert_eq!(format_message("ssh_detector", info("x")), "Module:ssh_detector\nMessage:x\n");
}

#[test]
fn other_modules_send_their_whole_map() {
    let mut m = StringMap::new();
    m.insert("/a".to_string(), "Detected new file: h".to_string());
    m.insert("/b".to_string(), "Detected modified file: g".to_string());
    assert_eq!(
        format_message("hash_scaner", m),
        "Unknown module:hash_scaner\nUnknown message:{\"/a\": \"Detected new file: h\", \"/b\": \"Detected modified file: g\"}\n"
    );
    assert_eq!(render_alerts(&StringMap::new()), "{}");
}

#[test]
fn keys_must_have_64_bytes() {
    assert!(secret_key("short").is_none());
    let k = secret_key(KEY64).unwrap();
    assert_eq!(&k[..], KEY64.as_bytes());
    assert!(seal_message("short", "hello").is_none());
}

#[test]
fn sealed_messages_open_with_the_same_key() {
    let sealed = seal_message(KEY64, "hello").unwrap();
    assert_eq!(sealed.len(), 5 + 16);
    let key = secret_key(KEY64).unwrap();
    assert_eq!(try_decrypt(&key, &sealed), Some(b"hello".to_vec()));
}

#[test]
fn a_reply_carries_the_session_key() {
    let key = secret_key(KEY64).unwrap();
    let reply = encrypt(&key, "session-key".as_bytes());
    let session = session_key_from_reply(&key, &reply).unwrap();
    assert_eq!(session, "session-key");
    assert_eq!(encrypt(&key, session.as_bytes()), reply);
    let mut tampered = reply.clone();
    tampered[0] ^= 1;
    assert_eq!(session_key_from_reply(&key, &tampered), None);
    let not_utf8 = encrypt(&key, &[0xff, 0xfe]);
    assert_eq!(session_key_from_reply(&key, &not_utf8), None);
    assert_eq!(session_key_from_reply(&key, b""), None);
}

#[test]
fn spare_log_records() {
    assert_eq!(log_record(1700000000, "Module:x\nMessage:y\n"), "1700000000|Module:x\nMessage:y\n\n");
    assert_eq!(closing_record(5), "5|Connectons closed\n");
}

#[test]
fn link_decisions() {
    let report = Report { module: "port_detector".to_string(), alerts: info("i") };
    match plan_link_step(false, LinkEvent::Message(report)) {
        LinkPlan::Deliver { reconnect_first, text } => {
            assert!(reconnect_first);
            assert_eq!(text, "Module:port_detector\nMessage:i\n");
        }
        _ => panic!("expected a delivery"),
    }
    let report = Report { module: "ssh_detector".to_string(), alerts: info("j") };
    assert!(matches!(
        plan_link_step(true, LinkEvent::Message(report)),
        LinkPlan::Deliver { reconnect_first: false, .. }
    ));
    assert!(matches!(plan_link_step(true, LinkEvent::Timeout), LinkPlan::Wait));
    assert!(matches!(plan_link_step(false, LinkEvent::Disconnected), LinkPlan::Finish));
}

#[test]
fn detector_modules() {
    assert!(spd::client::connection::is_detector_module("port_detector"));
    assert!(spd::client::connection::is_detector_module("ssh_detector"));
    assert!(!spd::client::connection::is_detector_module("hash_scaner"));
}
