//! Fingerprints the configured directories and reports what changed.
use vstd::prelude::*;
use std::sync::Arc;
use crate::defender::appconfig::AppConfig;
use crate::glob_match::{clone_strings, strings_of};
use crate::scanning::{scan_all, scan_directories, snapshots_of, FileTree};
use crate::table::{distinct_keys, StringMap};
use crate::text::str_eq;

verus! {

/// The reference fingerprints: every regular file under the configured
/// directories, except the paths that an exception pattern matches.
pub fn init_origins_hash_scaner(config: Arc<AppConfig>, trees: &Vec<FileTree>) -> (r: StringMap)
    requires
        snapshots_of(trees@, config.hash_scaner.directories@),
    ensures
        r@ == scan_all(Map::empty(), trees@, strings_of(config.hash_scaner.exceptions@)),
{
    let exceptions = clone_strings(&config.hash_scaner.exceptions);
    let (origins, _exceptions) = scan_directories(StringMap::new(), trees, exceptions);
    origins
}

/// The report line for one freshly computed fingerprint, if it is new or
/// differs from the reference.
pub open spec fn change_line(origins: Map<Seq<char>, Seq<char>>, key: Seq<char>, hash: Seq<char>) -> Option<Seq<char>> {
    if !origins.contains_key(key) {
        Some("New file found: "@ + key)
    } else if origins[key] != hash {
        Some("File changed: "@ + key)
    } else {
        None
    }
}

/// The report lines for fresh fingerprints, in their order.
pub open spec fn change_lines(origins: Map<Seq<char>, Seq<char>>, fresh: Seq<(Seq<char>, Seq<char>)>) -> Seq<Seq<char>>
    decreases fresh.len(),
{
    if fresh.len() == 0 {
        seq![]
    } else {
        let before = change_lines(origins, fresh.drop_last());
        match change_line(origins, fresh.last().0, fresh.last().1) {
            Some(line) => before.push(line),
            None => before,
        }
    }
}

/// What one scanning round prints: a line for each file whose fingerprint
/// is not among the reference ones ("New file found") or differs from it
/// ("File changed").
pub fn changed_files_report(origins: &StringMap, new_hashes: &StringMap) -> (r: Vec<String>)
    ensures
        strings_of(r@) == change_lines(origins@, new_hashes.pairs()),
{
    let mut out: Vec<String> = Vec::new();
    let n = new_hashes.len();
    let mut i: usize = 0;
    while i < n
        invariant
            n == new_hashes.pairs().len(),
            i <= n,
            strings_of(out@) == change_lines(origins@, new_hashes.pairs().take(i as int)),
        decreases n - i,
    {
        let (key, hash) = new_hashes.entry(i);
        assert(new_hashes.pairs().take(i + 1).drop_last() =~= new_hashes.pairs().take(i as int));
        let ghost before = out@;
        match origins.get(key.as_str()) {
            None => {
                let mut line = String::from_str("New file found: ");
                line.append(key.as_str());
                out.push(line);
                assert(strings_of(out@) =~= strings_of(before).push("New file found: "@ + key@));
            },
            Some(old_hash) => {
                if !str_eq(old_hash.as_str(), hash.as_str()) {
                    let mut line = String::from_str("File changed: ");
                    line.append(key.as_str());
                    out.push(line);
                    assert(strings_of(out@) =~= strings_of(before).push("File changed: "@ + key@));
                }
            },
        }
        i = i + 1;
    }
    assert(new_hashes.pairs().take(n as int) =~= new_hashes.pairs());
    out
}

/// One scanning round: rescans the directories into the fingerprints of
/// the previous round and reports the changes against the reference.
pub fn scan_round(
    origins: &StringMap,
    new_hashes: StringMap,
    trees: &Vec<FileTree>,
    exceptions: Vec<String>,
) -> (r: (StringMap, Vec<String>, Vec<String>))
    ensures
        r.0@ == scan_all(new_hashes@, trees@, strings_of(exceptions@)),
        r.1@ == exceptions@,
        strings_of(r.2@) == change_lines(origins@, r.0.pairs()),
{
    let (hashes, exceptions) = scan_directories(new_hashes, trees, exceptions);
    let lines = changed_files_report(origins, &hashes);
    (hashes, exceptions, lines)
}

} // verus!

verus! {

/// Fresh fingerprints that equal the reference ones produce no report
/// line.
pub proof fn law_reference_reports_nothing(
    origins: Map<Seq<char>, Seq<char>>,
    fresh: Seq<(Seq<char>, Seq<char>)>,
)
    requires
        distinct_keys(fresh),
        crate::table::pairs_map(fresh) == origins,
    ensures
        change_lines(origins, fresh) == Seq::<Seq<char>>::empty(),
    decreases fresh.len(),
{
    if fresh.len() > 0 {
        let last = fresh.last();
        crate::table::lemma_pairs_map_at(fresh, fresh.len() - 1);
        let shorter = fresh.drop_last();
        assert(distinct_keys(shorter));
        assert(!crate::table::has_key(shorter, last.0)) by {
            if crate::table::has_key(shorter, last.0) {
                let j = choose|j: int| crate::table::key_at(shorter, last.0, j);
                assert(fresh[j].0 == fresh[fresh.len() - 1].0);
            }
        }
        crate::table::lemma_pairs_insert(shorter, last.0, last.1);
        assert(crate::table::pairs_insert(shorter, last.0, last.1) =~= fresh);
        assert forall|key: Seq<char>| #[trigger] crate::table::pairs_map(shorter).contains_key(key) implies
            crate::table::pairs_map(shorter)[key] == origins[key] && key != last.0 by {
            let j = choose|j: int| crate::table::key_at(shorter, key, j);
            crate::table::lemma_pairs_map_at(shorter, j);
            assert(fresh[j].0 != fresh[fresh.len() - 1].0);
        }
        let o2 = crate::table::pairs_map(shorter);
        assert(change_lines(o2, shorter) == Seq::<Seq<char>>::empty()) by {
            law_reference_reports_nothing(o2, shorter);
        }
        lemma_change_lines_agree(origins, o2, shorter);
    }
}

proof fn lemma_change_lines_agree(
    a: Map<Seq<char>, Seq<char>>,
    b: Map<Seq<char>, Seq<char>>,
    fresh: Seq<(Seq<char>, Seq<char>)>,
)
    requires
        forall|i: int| 0 <= i < fresh.len() ==> (#[trigger] a.contains_key(fresh[i].0)) == b.contains_key(fresh[i].0),
        forall|i: int| 0 <= i < fresh.len() && a.contains_key(fresh[i].0) ==> #[trigger] a[fresh[i].0] == b[fresh[i].0],
    ensures
        change_lines(a, fresh) == change_lines(b, fresh),
    decreases fresh.len(),
{
    if fresh.len() > 0 {
        lemma_change_lines_agree(a, b, fresh.drop_last());
        assert(a.contains_key(fresh[fresh.len() - 1].0) == b.contains_key(fresh[fresh.len() - 1].0));
    }
}

} // verus!
