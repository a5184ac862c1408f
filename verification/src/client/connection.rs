//! What the connection to the server sends and records: message texts,
//! session keys, encrypted messages, log records and the decision taken
//! on each report.
use vstd::prelude::*;
use crate::client::cryptography::{encrypt, siv_open, siv_seal, try_decrypt};
use crate::report::Report;
use crate::table::StringMap;
use crate::text::{decimal, decimal_string, str_eq, utf8_string};

verus! {

/// The modules whose reports carry their text under "info".
pub open spec fn is_detector(module: Seq<char>) -> bool {
    module == "port_detector"@ || module == "ssh_detector"@
}

/// Whether the module's reports carry their text under "info".
pub fn is_detector_module(module: &str) -> (r: bool)
    ensures
        r == is_detector(module@),
{
    str_eq(module, "port_detector") || str_eq(module, "ssh_detector")
}

/// One entry, rendered as `"key": "value"`.
pub open spec fn render_entry(e: (Seq<char>, Seq<char>)) -> Seq<char> {
    "\""@ + e.0 + "\": \""@ + e.1 + "\""@
}

/// The entries, rendered in order and separated by ", ".
pub open spec fn render_entries(p: Seq<(Seq<char>, Seq<char>)>) -> Seq<char>
    decreases p.len(),
{
    if p.len() == 0 {
        seq![]
    } else if p.len() == 1 {
        render_entry(p[0])
    } else {
        render_entries(p.drop_last()) + ", "@ + render_entry(p.last())
    }
}

/// A map rendered as `{"k1": "v1", "k2": "v2"}`.
pub open spec fn render_map(p: Seq<(Seq<char>, Seq<char>)>) -> Seq<char> {
    "{"@ + render_entries(p) + "}"@
}

/// The text sent for a report: a detector's "info" alert after its module
/// name, or for any other module its whole alert map.
pub open spec fn message_text(module: Seq<char>, message: StringMap) -> Seq<char> {
    if is_detector(module) {
        "Module:"@ + module + "\nMessage:"@ + message@["info"@] + "\n"@
    } else {
        "Unknown module:"@ + module + "\nUnknown message:"@ + render_map(message.pairs()) + "\n"@
    }
}

/// Renders an alert map.
pub fn render_alerts(message: &StringMap) -> (r: String)
    ensures
        r@ == render_map(message.pairs()),
{
    let mut body = String::new();
    let n = message.len();
    let mut i: usize = 0;
    let ghost p = message.pairs();
    while i < n
        invariant
            n == p.len(),
            p == message.pairs(),
            i <= n,
            body@ == render_entries(p.take(i as int)),
        decreases n - i,
    {
        let (k, v) = message.entry(i);
        assert(p.take(i + 1).drop_last() =~= p.take(i as int));
        assert(p.take(i + 1).last() == (k@, v@));
        if i > 0 {
            body.append(", ");
        }
        body.append("\"");
        body.append(k.as_str());
        body.append("\": \"");
        body.append(v.as_str());
        body.append("\"");
        assert(p.take(i + 1).len() == i + 1);
        assert(p.take(i + 1)[0] == p[0]);
        assert(body@ =~= render_entries(p.take(i + 1)));
        i = i + 1;
    }
    assert(p.take(n as int) =~= p);
    let mut r = String::from_str("{");
    r.append(body.as_str());
    r.append("}");
    r
}

/// The text sent for a report of `module` with alerts `message`. A
/// detector's report must carry its text under "info".
pub fn format_message(module: &str, message: StringMap) -> (r: String)
    requires
        is_detector(module@) ==> message@.contains_key("info"@),
    ensures
        r@ == message_text(module@, message),
{
    if is_detector_module(module) {
        let mut r = String::from_str("Module:");
        r.append(module);
        r.append("\nMessage:");
        match message.get("info") {
            Some(info) => r.append(info.as_str()),
            None => {},
        }
        r.append("\n");
        r
    } else {
        let mut r = String::from_str("Unknown module:");
        r.append(module);
        r.append("\nUnknown message:");
        r.append(render_alerts(&message).as_str());
        r.append("\n");
        r
    }
}

/// The 64-byte key whose bytes are the UTF-8 encoding of `secret`, when
/// that encoding has exactly 64 bytes.
pub fn secret_key(secret: &str) -> (r: Option<[u8; 64]>)
    ensures
        r.is_some() == (vstd::utf8::encode_utf8(secret@).len() == 64),
        r matches Some(k) ==> k@ == vstd::utf8::encode_utf8(secret@),
{
    let b = secret.as_bytes();
    if b.len() != 64 {
        return None;
    }
    let mut k = [0u8; 64];
    let mut i: usize = 0;
    while i < 64
        invariant
            b@.len() == 64,
            i <= 64,
            k@.len() == 64,
            forall|j: int| 0 <= j < i ==> k@[j] == b@[j],
        decreases 64 - i,
    {
        k[i] = b[i];
        i = i + 1;
    }
    assert(k@ =~= b@);
    Some(k)
}

/// Encrypts a message text for the server under the session key `key`;
/// `None` when the key's UTF-8 encoding is not 64 bytes long.
pub fn seal_message(key: &str, text: &str) -> (r: Option<Vec<u8>>)
    ensures
        r.is_some() == (vstd::utf8::encode_utf8(key@).len() == 64),
        r matches Some(c) ==> c@ == siv_seal(vstd::utf8::encode_utf8(key@), vstd::utf8::encode_utf8(text@)),
{
    match secret_key(key) {
        Some(k) => Some(encrypt(&k, text.as_bytes())),
        None => None,
    }
}

/// The session key that the server's reply carries: the reply decrypted
/// under `key` and read as UTF-8; `None` when it does not authenticate or
/// is not UTF-8. A reply that encrypts the UTF-8 encoding of a text under
/// `key` gives that text back, and the key it gives encrypts back to the
/// reply.
pub fn session_key_from_reply(key: &[u8; 64], reply: &[u8]) -> (r: Option<String>)
    ensures
        match siv_open(key@, reply@) {
            Some(p) => if vstd::utf8::valid_utf8(p) {
                r matches Some(s) && s@ == vstd::utf8::decode_utf8(p)
            } else {
                r is None
            },
            None => r is None,
        },
        forall|t: Seq<char>|
            reply@ == siv_seal(key@, vstd::utf8::encode_utf8(t)) ==> (r matches Some(s) && s@ == t),
        r matches Some(s) ==> reply@ == siv_seal(key@, vstd::utf8::encode_utf8(s@)),
{
    let r = match try_decrypt(key, reply) {
        Some(plain) => {
            let ghost p = plain@;
            let text = utf8_string(plain);
            proof {
                if text.is_some() {
                    vstd::utf8::decode_utf8_encode_utf8(p);
                }
            }
            text
        },
        None => None,
    };
    assert forall|t: Seq<char>| reply@ == siv_seal(key@, vstd::utf8::encode_utf8(t)) implies (r matches Some(
        s,
    ) && s@ == t) by {
        vstd::utf8::encode_utf8_valid_utf8(t);
        vstd::utf8::encode_utf8_decode_utf8(t);
    }
    r
}

/// The line recorded in the spare log for a message sent at `secs`
/// seconds after the Unix epoch.
pub open spec fn log_line(secs: nat, text: Seq<char>) -> Seq<char> {
    decimal(secs) + "|"@ + text + "\n"@
}

/// Builds a spare-log line.
pub fn log_record(secs: u64, text: &str) -> (r: String)
    ensures
        r@ == log_line(secs as nat, text@),
{
    let mut r = decimal_string(secs);
    r.append("|");
    r.append(text);
    r.append("\n");
    r
}

/// The spare-log line written when the report channel closes.
pub fn closing_record(secs: u64) -> (r: String)
    ensures
        r@ == log_line(secs as nat, "Connectons closed"@),
{
    log_record(secs, "Connectons closed")
}

/// What the report channel gave.
pub enum LinkEvent {
    /// A report arrived.
    Message(Report),
    /// Nothing arrived within the wait.
    Timeout,
    /// Every sender is gone.
    Disconnected,
}

/// What to do about it.
pub enum LinkPlan {
    /// Wait again.
    Wait,
    /// Connect first if not connected, then send `text` if connected, and
    /// record it in the spare log in any case.
    Deliver { reconnect_first: bool, text: String },
    /// Record the closing line and stop.
    Finish,
}

/// The decision taken on each event of the report channel.
pub fn plan_link_step(connected: bool, event: LinkEvent) -> (r: LinkPlan)
    requires
        event matches LinkEvent::Message(report) ==> (is_detector(report.module@)
            ==> report.alerts@.contains_key("info"@)),
    ensures
        match event {
            LinkEvent::Message(report) => r matches LinkPlan::Deliver { reconnect_first, text }
                && reconnect_first == !connected && text@ == message_text(
                report.module@,
                report.alerts,
            ),
            LinkEvent::Timeout => r is Wait,
            LinkEvent::Disconnected => r is Finish,
        },
{
    match event {
        LinkEvent::Message(report) => {
            let text = format_message(report.module.as_str(), report.alerts);
            LinkPlan::Deliver { reconnect_first: !connected, text }
        },
        LinkEvent::Timeout => LinkPlan::Wait,
        LinkEvent::Disconnected => LinkPlan::Finish,
    }
}

} // verus!
