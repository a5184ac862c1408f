//! File fingerprinting for the client: the reference fingerprints and
//! the alerts of each scanning round.
use vstd::prelude::*;
use std::sync::Arc;
use crate::client::appconfig::AppConfig;
use crate::glob_match::{clone_strings, strings_of};
use crate::report::Report;
use crate::scanning::{scan_all, scan_directories, snapshots_of, FileTree};
use crate::table::{distinct_keys, has_key, key_at, lemma_pairs_insert, pairs_insert, pairs_map, StringMap};
use crate::text::str_eq;

verus! {

/// Scans the configured directories into `origins`, which then holds the
/// reference fingerprints.
pub fn init_origins_hash_scaner(config: Arc<AppConfig>, origins: StringMap, trees: &Vec<FileTree>) -> (r:
    StringMap)
    requires
        snapshots_of(trees@, config.hash_scaner.directories@),
    ensures
        r@ == scan_all(origins@, trees@, strings_of(config.hash_scaner.exceptions@)),
{
    let exceptions = clone_strings(&config.hash_scaner.exceptions);
    let (origins, _exceptions) = scan_directories(origins, trees, exceptions);
    origins
}

/// The alert for a freshly computed fingerprint `hash` of `key`: a file
/// missing from the reference is new, one whose fingerprint differs is
/// modified; the message carries the fresh fingerprint.
pub open spec fn hash_alert(origins: Map<Seq<char>, Seq<char>>, key: Seq<char>, hash: Seq<char>) -> Option<
    Seq<char>,
> {
    if !origins.contains_key(key) {
        Some("Detected new file: "@ + hash)
    } else if origins[key] != hash {
        Some("Detected modified file: "@ + hash)
    } else {
        None
    }
}

/// The alerts of a scanning round, by path.
pub open spec fn hash_alerts(origins: Map<Seq<char>, Seq<char>>, fresh: Map<Seq<char>, Seq<char>>) -> Map<
    Seq<char>,
    Seq<char>,
> {
    Map::new(
        |k: Seq<char>| fresh.contains_key(k) && hash_alert(origins, k, fresh[k]) is Some,
        |k: Seq<char>| hash_alert(origins, k, fresh[k])->0,
    )
}

proof fn lemma_pairs_map_push(p: Seq<(Seq<char>, Seq<char>)>, k: Seq<char>, v: Seq<char>)
    requires
        distinct_keys(p.push((k, v))),
    ensures
        pairs_map(p.push((k, v))) == pairs_map(p).insert(k, v),
        distinct_keys(p),
{
    assert(distinct_keys(p)) by {
        assert forall|a: int, b: int| 0 <= a < p.len() && 0 <= b < p.len() && a != b implies p[a].0
            != p[b].0 by {
            assert(p.push((k, v))[a] == p[a]);
            assert(p.push((k, v))[b] == p[b]);
        }
    }
    assert(!has_key(p, k)) by {
        if has_key(p, k) {
            let j = choose|j: int| key_at(p, k, j);
            assert(p.push((k, v))[j].0 == p.push((k, v))[p.len() as int].0);
        }
    }
    lemma_pairs_insert(p, k, v);
    assert(pairs_insert(p, k, v) == p.push((k, v)));
}

/// The alerts of a scanning round: every fresh fingerprint that is new or
/// differs from the reference, by path.
pub fn hash_scan_alerts(origins: &StringMap, new_hashes: &StringMap) -> (r: StringMap)
    ensures
        r@ == hash_alerts(origins@, new_hashes@),
{
    let mut alerts = StringMap::new();
    let n = new_hashes.len();
    let ghost p = new_hashes.pairs();
    let mut i: usize = 0;
    assert(pairs_map(p.take(0)) =~= Map::<Seq<char>, Seq<char>>::empty());
    assert(alerts@ =~= hash_alerts(origins@, pairs_map(p.take(0))));
    while i < n
        invariant
            n == p.len(),
            p == new_hashes.pairs(),
            distinct_keys(p),
            i <= n,
            alerts@ == hash_alerts(origins@, pairs_map(p.take(i as int))),
        decreases n - i,
    {
        let (key, hash) = new_hashes.entry(i);
        let ghost before = pairs_map(p.take(i as int));
        proof {
            assert(p.take(i + 1) =~= p.take(i as int).push((key@, hash@)));
            assert(distinct_keys(p.take(i + 1)));
            lemma_pairs_map_push(p.take(i as int), key@, hash@);
            assert(!before.contains_key(key@)) by {
                if before.contains_key(key@) {
                    let j = choose|j: int| key_at(p.take(i as int), key@, j);
                    assert(p[j].0 == p[i as int].0);
                }
            }
        }
        let ghost after = before.insert(key@, hash@);
        match origins.get(key.as_str()) {
            None => {
                let mut msg = String::from_str("Detected new file: ");
                msg.append(hash.as_str());
                alerts.insert(key.clone(), msg);
                assert(alerts@ =~= hash_alerts(origins@, after));
            },
            Some(old_hash) => {
                if !str_eq(old_hash.as_str(), hash.as_str()) {
                    let mut msg = String::from_str("Detected modified file: ");
                    msg.append(hash.as_str());
                    alerts.insert(key.clone(), msg);
                    assert(alerts@ =~= hash_alerts(origins@, after));
                } else {
                    assert(alerts@ =~= hash_alerts(origins@, after));
                }
            },
        }
        i = i + 1;
    }
    assert(p.take(n as int) =~= p);
    alerts
}

/// One scanning round: rescans the directories into a copy of the
/// reference fingerprints and reports the new and modified files, if
/// there are any, as the "hash_scaner" module.
pub fn hash_scan_round(origins: &StringMap, trees: &Vec<FileTree>, exceptions: Vec<String>) -> (r: (
    Option<Report>,
    Vec<String>,
))
    ensures
        r.1@ == exceptions@,
        ({
            let alerts = hash_alerts(origins@, scan_all(origins@, trees@, strings_of(exceptions@)));
            match r.0 {
                Some(report) => report.module@ == "hash_scaner"@ && report.alerts@ == alerts && alerts
                    != Map::<Seq<char>, Seq<char>>::empty(),
                None => alerts == Map::<Seq<char>, Seq<char>>::empty(),
            }
        }),
{
    let (new_hashes, exceptions) = scan_directories(origins.copied(), trees, exceptions);
    let alerts = hash_scan_alerts(origins, &new_hashes);
    if alerts.is_empty() {
        (None, exceptions)
    } else {
        (Some(Report { module: String::from_str("hash_scaner"), alerts }), exceptions)
    }
}

} // verus!

verus! {

/// A scanning round over directories that did not change since the
/// reference fingerprints were taken raises no alert.
pub proof fn law_unchanged_round_is_silent(
    m: Map<Seq<char>, Seq<char>>,
    trees: Seq<FileTree>,
    ex: Seq<Seq<char>>,
)
    ensures
        ({
            let origins = scan_all(m, trees, ex);
            hash_alerts(origins, scan_all(origins, trees, ex)) == Map::<Seq<char>, Seq<char>>::empty()
        }),
{
    let origins = scan_all(m, trees, ex);
    crate::scanning::law_rescan_unchanged(m, trees, ex);
    assert(hash_alerts(origins, origins) =~= Map::<Seq<char>, Seq<char>>::empty());
}

} // verus!

verus! {

/// What a scanning round reports, path by path: a fresh path missing from
/// the reference is reported as new with its fresh fingerprint; a path
/// whose fresh fingerprint differs from the reference one is reported as
/// modified with the fresh fingerprint; a path whose fingerprint is
/// unchanged, or that the rescan did not fingerprint, is not reported.
pub proof fn law_round_alerts(origins: Map<Seq<char>, Seq<char>>, fresh: Map<Seq<char>, Seq<char>>, k: Seq<char>)
    ensures
        fresh.contains_key(k) && !origins.contains_key(k) ==> hash_alerts(origins, fresh).contains_key(k)
            && hash_alerts(origins, fresh)[k] == "Detected new file: "@ + fresh[k],
        fresh.contains_key(k) && origins.contains_key(k) && origins[k] != fresh[k] ==> hash_alerts(
            origins,
            fresh,
        ).contains_key(k) && hash_alerts(origins, fresh)[k] == "Detected modified file: "@ + fresh[k],
        fresh.contains_key(k) && origins.contains_key(k) && origins[k] == fresh[k] ==> !hash_alerts(
            origins,
            fresh,
        ).contains_key(k),
        !fresh.contains_key(k) ==> !hash_alerts(origins, fresh).contains_key(k),
{
}

} // verus!
