//! Listening-port detection: the lines that `ss -tuln` prints, turned
//! into "Port: P, Protocol: T" entries and checked against the expected
//! ones.
use vstd::prelude::*;
use crate::client::appconfig::PortDetectorConfig;
use crate::glob_match::strings_of;
use crate::report::{Report, Round};
use crate::table::{key_at, StringMap};
use crate::text::{
    chars_of, last_segment, last_segment_of, lines, seqs_of, split_lines, split_whitespace,
    string_of, utf8_str, words,
};

verus! {

/// The entry for one line of `ss -tuln` output: from a line of at least
/// five columns, the part of the fifth (the local address) after its last
/// colon, and the first column (the protocol).
pub open spec fn port_entry(line: Seq<char>) -> Option<Seq<char>> {
    let ws = words(line);
    if ws.len() >= 5 {
        Some("Port: "@ + last_segment(ws[4], ':') + ", Protocol: "@ + ws[0])
    } else {
        None
    }
}

/// The entries of a list of lines, in order.
pub open spec fn port_entries(ls: Seq<Seq<char>>) -> Seq<Seq<char>>
    decreases ls.len(),
{
    if ls.len() == 0 {
        seq![]
    } else {
        let before = port_entries(ls.drop_last());
        match port_entry(ls.last()) {
            Some(e) => before.push(e),
            None => before,
        }
    }
}

/// The entries of `ss -tuln` output, its header line skipped.
pub open spec fn listening_ports(out: Seq<char>) -> Seq<Seq<char>> {
    if lines(out).len() == 0 {
        seq![]
    } else {
        port_entries(lines(out).drop_first())
    }
}

/// The port entries of `ss -tuln` output.
pub fn parse_ports(stdout: &str) -> (r: Vec<String>)
    ensures
        strings_of(r@) == listening_ports(stdout@),
{
    let cs = chars_of(stdout);
    let ls = split_lines(cs.as_slice());
    let ghost all = seqs_of(ls@);
    let mut out: Vec<String> = Vec::new();
    if ls.len() == 0 {
        assert(strings_of(out@) =~= Seq::<Seq<char>>::empty());
        return out;
    }
    let mut i: usize = 1;
    assert(all.drop_first().take(0) =~= Seq::<Seq<char>>::empty());
    while i < ls.len()
        invariant
            all == seqs_of(ls@),
            all == lines(stdout@),
            1 <= i <= ls@.len(),
            strings_of(out@) == port_entries(all.drop_first().take(i - 1)),
        decreases ls@.len() - i,
    {
        assert(all.drop_first().take(i as int).drop_last() =~= all.drop_first().take(i - 1));
        assert(all.drop_first().take(i as int).last() == ls@[i as int]@);
        let ws = split_whitespace(ls[i].as_slice());
        if ws.len() >= 5 {
            let port = last_segment_of(ws[4].as_slice(), ':');
            let mut entry = String::from_str("Port: ");
            entry.append(string_of(port.as_slice()).as_str());
            entry.append(", Protocol: ");
            entry.append(string_of(ws[0].as_slice()).as_str());
            let ghost before = out@;
            out.push(entry);
            assert(strings_of(out@) =~= strings_of(before).push(entry@));
        }
        i = i + 1;
    }
    assert(all.drop_first().take(i - 1) =~= all.drop_first());
    out
}

/// The last entry that the expected list does not hold, if any.
pub open spec fn last_unlisted(ports: Seq<Seq<char>>, legit: Seq<Seq<char>>) -> Option<Seq<char>>
    decreases ports.len(),
{
    if ports.len() == 0 {
        None
    } else if !legit.contains(ports.last()) {
        Some(ports.last())
    } else {
        last_unlisted(ports.drop_last(), legit)
    }
}

/// The alerts for a list of entries: the single "info" alert names the
/// last unexpected entry (each one overwrites the one before).
pub open spec fn port_alert_pairs(ports: Seq<Seq<char>>, legit: Seq<Seq<char>>) -> Seq<
    (Seq<char>, Seq<char>),
> {
    match last_unlisted(ports, legit) {
        Some(p) => seq![("info"@, "Detected not legit port: "@ + p)],
        None => seq![],
    }
}

/// Adding an expected entry to the end of the list leaves the alerts as
/// they were; adding an unexpected one makes the alert name it.
pub proof fn law_port_push(ps: Seq<Seq<char>>, legit: Seq<Seq<char>>, e: Seq<char>)
    ensures
        legit.contains(e) ==> port_alert_pairs(ps.push(e), legit) == port_alert_pairs(ps, legit),
        !legit.contains(e) ==> port_alert_pairs(ps.push(e), legit) == seq![
            ("info"@, "Detected not legit port: "@ + e),
        ],
{
    assert(ps.push(e).drop_last() =~= ps);
    assert(ps.push(e).last() == e);
}

/// The alerts are empty exactly when every listed entry is expected;
/// otherwise the one "info" alert names the last entry that is not, and
/// every entry after it is expected.
pub proof fn law_port_alerts(ps: Seq<Seq<char>>, legit: Seq<Seq<char>>)
    ensures
        port_alert_pairs(ps, legit).len() == 0 <==> forall|i: int|
            0 <= i < ps.len() ==> legit.contains(#[trigger] ps[i]),
        port_alert_pairs(ps, legit).len() != 0 ==> exists|i: int|
            0 <= i < ps.len() && !legit.contains(#[trigger] ps[i]) && (forall|j: int|
                i < j < ps.len() ==> legit.contains(#[trigger] ps[j])) && port_alert_pairs(
                ps,
                legit,
            ) == seq![("info"@, "Detected not legit port: "@ + ps[i])],
    decreases ps.len(),
{
    if ps.len() > 0 {
        let pre = ps.drop_last();
        let n = ps.len() - 1;
        law_port_alerts(pre, legit);
        assert(ps == pre.push(ps.last()));
        law_port_push(pre, legit, ps.last());
        assert(forall|i: int| 0 <= i < n ==> pre[i] == ps[i]);
        if legit.contains(ps.last()) {
            if port_alert_pairs(ps, legit).len() != 0 {
                let i = choose|i: int|
                    0 <= i < pre.len() && !legit.contains(#[trigger] pre[i]) && (forall|j: int|
                        i < j < pre.len() ==> legit.contains(#[trigger] pre[j]))
                        && port_alert_pairs(pre, legit) == seq![
                        ("info"@, "Detected not legit port: "@ + pre[i]),
                    ];
                assert(ps[i] == pre[i]);
                assert forall|j: int| i < j < ps.len() implies legit.contains(#[trigger] ps[j]) by {
                    if j < n {
                        assert(ps[j] == pre[j]);
                    }
                }
            } else {
                assert forall|i: int| 0 <= i < ps.len() implies legit.contains(#[trigger] ps[i]) by {
                    if i < n {
                        assert(ps[i] == pre[i]);
                    }
                }
            }
        } else {
            assert(!legit.contains(ps[n]));
            assert(port_alert_pairs(ps, legit).len() != 0);
        }
    }
}

/// Whether the list holds a string with the same text.
pub fn contains_string(v: &Vec<String>, s: &String) -> (r: bool)
    ensures
        r == strings_of(v@).contains(s@),
{
    let mut i: usize = 0;
    while i < v.len()
        invariant
            i <= v@.len(),
            forall|j: int| 0 <= j < i ==> v@[j]@ != s@,
        decreases v@.len() - i,
    {
        if v[i] == *s {
            assert(strings_of(v@)[i as int] == s@);
            return true;
        }
        i = i + 1;
    }
    assert forall|j: int| 0 <= j < strings_of(v@).len() implies strings_of(v@)[j] != s@ by {
        assert(strings_of(v@)[j] == v@[j]@);
    }
    false
}

/// The alerts for the listed entries against the expected ones.
pub fn port_alerts(ports: &Vec<String>, legit_ports: &Vec<String>) -> (r: StringMap)
    ensures
        r.pairs() == port_alert_pairs(strings_of(ports@), strings_of(legit_ports@)),
{
    let ghost ps = strings_of(ports@);
    let ghost legit = strings_of(legit_ports@);
    let mut alerts = StringMap::new();
    let mut i: usize = 0;
    assert(ps.take(0) =~= Seq::<Seq<char>>::empty());
    while i < ports.len()
        invariant
            ps == strings_of(ports@),
            legit == strings_of(legit_ports@),
            i <= ports@.len(),
            alerts.pairs() == port_alert_pairs(ps.take(i as int), legit),
        decreases ports@.len() - i,
    {
        assert(ps.take(i + 1).drop_last() =~= ps.take(i as int));
        assert(ps.take(i + 1).last() == ports@[i as int]@);
        if !contains_string(legit_ports, &ports[i]) {
            let mut msg = String::from_str("Detected not legit port: ");
            msg.append(ports[i].as_str());
            let ghost before = alerts.pairs();
            proof {
                if before.len() > 0 {
                    assert(key_at(before, "info"@, 0));
                    let c = choose|j: int| key_at(before, "info"@, j);
                    assert(c == 0);
                } else {
                    assert(!crate::table::has_key(before, "info"@));
                }
            }
            alerts.insert(String::from_str("info"), msg);
            assert(alerts.pairs() =~= port_alert_pairs(ps.take(i + 1), legit));
        }
        i = i + 1;
    }
    assert(ps.take(ports@.len() as int) =~= ps);
    alerts
}

/// One look at the listening ports, given whether `ss -tuln` succeeded
/// and what it printed: nothing when it failed, a gave-up outcome when the
/// output is not UTF-8, else the "port_detector" report, which is sent
/// even when it holds no alert.
pub fn port_detector_round(config: &PortDetectorConfig, status_ok: bool, stdout: &[u8]) -> (r: Round)
    ensures
        !status_ok ==> r is Skip,
        status_ok && !vstd::utf8::valid_utf8(stdout@) ==> r is BadOutput,
        status_ok && vstd::utf8::valid_utf8(stdout@) ==> (r matches Round::Send(report)
            && report.module@ == "port_detector"@ && report.alerts.pairs() == port_alert_pairs(
            listening_ports(vstd::utf8::decode_utf8(stdout@)),
            strings_of(config.legit_ports@),
        )),
{
    if !status_ok {
        return Round::Skip;
    }
    match utf8_str(stdout) {
        None => Round::BadOutput,
        Some(text) => {
            let ports = parse_ports(text.as_str());
            let alerts = port_alerts(&ports, &config.legit_ports);
            Round::Send(Report { module: String::from_str("port_detector"), alerts })
        },
    }
}

} // verus!
