//! The reports that the detectors hand to the connection: one module
//! name and the alerts it raised.
use vstd::prelude::*;
use crate::table::StringMap;

verus! {

/// A detector's report: the map `{module: alerts}` that the detectors
/// send, which always has exactly one key.
pub struct Report {
    /// The reporting module ("hash_scaner", "port_detector", "ssh_detector").
    pub module: String,
    /// Its alerts.
    pub alerts: StringMap,
}

} // verus!

verus! {

/// What a detector does after one look at the system.
pub enum Round {
    /// Nothing to send this time.
    Skip,
    /// The output it read was not valid UTF-8, on which the detector gives up.
    BadOutput,
    /// Send this report.
    Send(Report),
}

} // verus!

verus! {

/// The alert entries when only the last alert under `key` is kept.
pub open spec fn last_alert_pairs(key: Seq<char>, last: Option<Seq<char>>) -> Seq<(Seq<char>, Seq<char>)> {
    match last {
        Some(m) => seq![(key, m)],
        None => seq![],
    }
}

/// Records `msg` under `key` in a map that holds at most that key: the
/// map then holds just `(key, msg)`.
pub fn overwrite_alert(alerts: &mut StringMap, key: &str, msg: String)
    requires
        old(alerts).pairs().len() == 0 || (old(alerts).pairs().len() == 1 && old(alerts).pairs()[0].0
            == key@),
    ensures
        final(alerts).pairs() == seq![(key@, msg@)],
{
    let ghost before = alerts.pairs();
    proof {
        if before.len() > 0 {
            assert(crate::table::key_at(before, key@, 0));
            let c = choose|j: int| crate::table::key_at(before, key@, j);
            assert(c == 0);
        } else {
            assert(!crate::table::has_key(before, key@));
        }
    }
    alerts.insert(crate::text::string_of(crate::text::chars_of(key).as_slice()), msg);
    assert(alerts.pairs() =~= seq![(key@, msg@)]);
}

} // verus!
