//! Directory scanning: fingerprints every regular file under a directory,
//! skipping the entries that an exception pattern matches.
//!
//! The file system is read before the scan: a `FileTree` holds what a
//! path was (a regular file and its bytes, a directory and its entries in
//! the order the directory listing gave them, or anything else) and the
//! scan works on that snapshot.
use vstd::prelude::*;
use crate::digest::{file_hash, hash_file};
use crate::glob_match::{excepted, is_exception, strings_of};
use crate::table::StringMap;

verus! {

/// What a path held when it was read.
pub enum FileTree {
    /// A regular file and its contents.
    File { path: String, contents: Vec<u8> },
    /// A directory and its entries, each under its full path.
    Dir { path: String, entries: Vec<FileTree> },
    /// A path that is neither (missing, a socket, ...).
    Other { path: String },
}

impl FileTree {
    /// The path of this node.
    pub open spec fn path_of(&self) -> Seq<char> {
        match self {
            FileTree::File { path, .. } => path@,
            FileTree::Dir { path, .. } => path@,
            FileTree::Other { path } => path@,
        }
    }

    /// The path of this node.
    pub fn path(&self) -> (r: &String)
        ensures
            r@ == self.path_of(),
    {
        match self {
            FileTree::File { path, .. } => path,
            FileTree::Dir { path, .. } => path,
            FileTree::Other { path } => path,
        }
    }
}

/// A measure that lets a directory hand over to its entry list.
pub open spec fn tree_rank(t: FileTree) -> nat {
    match t {
        FileTree::Dir { entries, .. } => entries@.len() + 1,
        _ => 0,
    }
}

/// The fingerprint map after scanning `t` into `m`: a file adds its
/// fingerprint under its path, a directory scans its entries in order
/// (skipping excepted ones), anything else changes nothing.
pub open spec fn scan_tree(m: Map<Seq<char>, Seq<char>>, t: FileTree, ex: Seq<Seq<char>>) -> Map<
    Seq<char>,
    Seq<char>,
>
    decreases t, tree_rank(t),
{
    match t {
        FileTree::File { path, contents } => m.insert(path@, file_hash(contents@)),
        FileTree::Dir { entries, .. } => scan_entries(m, t, ex, entries@.len()),
        FileTree::Other { .. } => m,
    }
}

/// The fingerprint map after scanning the first `k` entries of the
/// directory `t` into `m`.
pub open spec fn scan_entries(
    m: Map<Seq<char>, Seq<char>>,
    t: FileTree,
    ex: Seq<Seq<char>>,
    k: nat,
) -> Map<Seq<char>, Seq<char>>
    decreases t, k,
{
    match t {
        FileTree::Dir { entries, .. } => {
            if k == 0 || k > entries@.len() {
                m
            } else {
                let before = scan_entries(m, t, ex, (k - 1) as nat);
                let child = entries@[k - 1];
                if excepted(child.path_of(), ex) {
                    before
                } else {
                    scan_tree(before, child, ex)
                }
            }
        },
        _ => m,
    }
}

/// Scans one path into `hash_map`. A regular file is fingerprinted under
/// its path; a directory's entries are scanned in listing order, except
/// those that an exception pattern matches; the exceptions come back
/// unchanged.
pub fn scan_directory(hash_map: StringMap, tree: &FileTree, exceptions: Vec<String>) -> (r: (
    StringMap,
    Vec<String>,
))
    ensures
        r.0@ == scan_tree(hash_map@, *tree, strings_of(exceptions@)),
        r.1@ == exceptions@,
    decreases tree,
{
    let ghost m0 = hash_map@;
    let ghost ex = strings_of(exceptions@);
    match tree {
        FileTree::File { path, contents } => {
            let mut m = hash_map;
            m.insert(path.clone(), hash_file(contents.as_slice()));
            (m, exceptions)
        },
        FileTree::Dir { path, entries } => {
            let mut m = hash_map;
            let mut exc = exceptions;
            let mut i: usize = 0;
            while i < entries.len()
                invariant
                    i <= entries@.len(),
                    *tree == (FileTree::Dir { path: *path, entries: *entries }),
                    ex == strings_of(exc@),
                    exc@ == exceptions@,
                    m@ == scan_entries(m0, *tree, ex, i as nat),
                decreases entries@.len() - i,
            {
                let child = &entries[i];
                proof {
                    assert(decreases_to!(*tree => *child));
                }
                if !is_exception(child.path().as_str(), &exc) {
                    let (m2, e2) = scan_directory(m, child, exc);
                    m = m2;
                    exc = e2;
                }
                i = i + 1;
            }
            (m, exc)
        },
        FileTree::Other { .. } => (hash_map, exceptions),
    }
}

/// The trees are snapshots of the configured directories, in order.
pub open spec fn snapshots_of(trees: Seq<FileTree>, directories: Seq<String>) -> bool {
    &&& trees.len() == directories.len()
    &&& forall|i: int| 0 <= i < trees.len() ==> #[trigger] trees[i].path_of() == directories[i]@
}

/// The fingerprint map after scanning the trees in order into `m`.
pub open spec fn scan_all(
    m: Map<Seq<char>, Seq<char>>,
    trees: Seq<FileTree>,
    ex: Seq<Seq<char>>,
) -> Map<Seq<char>, Seq<char>>
    decreases trees.len(),
{
    if trees.len() == 0 {
        m
    } else {
        scan_tree(scan_all(m, trees.drop_last(), ex), trees.last(), ex)
    }
}

/// Scans each tree in turn into `hash_map`.
pub fn scan_directories(hash_map: StringMap, trees: &Vec<FileTree>, exceptions: Vec<String>) -> (r: (
    StringMap,
    Vec<String>,
))
    ensures
        r.0@ == scan_all(hash_map@, trees@, strings_of(exceptions@)),
        r.1@ == exceptions@,
{
    let ghost m0 = hash_map@;
    let ghost ex = strings_of(exceptions@);
    let mut m = hash_map;
    let mut exc = exceptions;
    let mut i: usize = 0;
    while i < trees.len()
        invariant
            i <= trees@.len(),
            ex == strings_of(exc@),
            exc@ == exceptions@,
            m@ == scan_all(m0, trees@.take(i as int), ex),
        decreases trees@.len() - i,
    {
        assert(trees@.take(i + 1).drop_last() =~= trees@.take(i as int));
        let (m2, e2) = scan_directory(m, &trees[i], exc);
        m = m2;
        exc = e2;
        i = i + 1;
    }
    assert(trees@.take(trees@.len() as int) =~= trees@);
    (m, exc)
}

} // verus!

verus! {

proof fn lemma_tree_overlay(m: Map<Seq<char>, Seq<char>>, t: FileTree, ex: Seq<Seq<char>>)
    ensures
        scan_tree(m, t, ex) == m.union_prefer_right(scan_tree(Map::empty(), t, ex)),
    decreases t, tree_rank(t),
{
    match t {
        FileTree::File { path, contents } => {
            assert(m.insert(path@, file_hash(contents@)) =~= m.union_prefer_right(
                Map::<Seq<char>, Seq<char>>::empty().insert(path@, file_hash(contents@)),
            ));
        },
        FileTree::Dir { entries, .. } => {
            lemma_entries_overlay(m, t, ex, entries@.len());
        },
        FileTree::Other { .. } => {
            assert(m =~= m.union_prefer_right(Map::<Seq<char>, Seq<char>>::empty()));
        },
    }
}

proof fn lemma_entries_overlay(m: Map<Seq<char>, Seq<char>>, t: FileTree, ex: Seq<Seq<char>>, k: nat)
    ensures
        scan_entries(m, t, ex, k) == m.union_prefer_right(scan_entries(Map::empty(), t, ex, k)),
    decreases t, k,
{
    let e = Map::<Seq<char>, Seq<char>>::empty();
    match t {
        FileTree::Dir { entries, .. } => {
            if k == 0 || k > entries@.len() {
                assert(m =~= m.union_prefer_right(e));
            } else {
                lemma_entries_overlay(m, t, ex, (k - 1) as nat);
                let child = entries@[k - 1];
                let before_m = scan_entries(m, t, ex, (k - 1) as nat);
                let before_e = scan_entries(e, t, ex, (k - 1) as nat);
                if !excepted(child.path_of(), ex) {
                    assert(decreases_to!(t => child));
                    lemma_tree_overlay(before_m, child, ex);
                    lemma_tree_overlay(before_e, child, ex);
                    let f = scan_tree(e, child, ex);
                    assert(m.union_prefer_right(before_e).union_prefer_right(f) =~= m.union_prefer_right(
                        before_e.union_prefer_right(f),
                    ));
                }
            }
        },
        _ => {
            assert(m =~= m.union_prefer_right(e));
        },
    }
}

/// Scanning overlays what the directories alone give on the map it starts
/// from: every fingerprint that the scan computes replaces the old one,
/// and every other entry stays as it was.
pub proof fn law_scan_overlay(m: Map<Seq<char>, Seq<char>>, trees: Seq<FileTree>, ex: Seq<Seq<char>>)
    ensures
        scan_all(m, trees, ex) == m.union_prefer_right(scan_all(Map::empty(), trees, ex)),
    decreases trees.len(),
{
    let e = Map::<Seq<char>, Seq<char>>::empty();
    if trees.len() == 0 {
        assert(m =~= m.union_prefer_right(e));
    } else {
        law_scan_overlay(m, trees.drop_last(), ex);
        let before_m = scan_all(m, trees.drop_last(), ex);
        let before_e = scan_all(e, trees.drop_last(), ex);
        lemma_tree_overlay(before_m, trees.last(), ex);
        lemma_tree_overlay(before_e, trees.last(), ex);
        let f = scan_tree(e, trees.last(), ex);
        assert(m.union_prefer_right(before_e).union_prefer_right(f) =~= m.union_prefer_right(
            before_e.union_prefer_right(f),
        ));
    }
}

/// Rescanning directories that did not change gives back the same
/// fingerprints.
pub proof fn law_rescan_unchanged(m: Map<Seq<char>, Seq<char>>, trees: Seq<FileTree>, ex: Seq<Seq<char>>)
    ensures
        scan_all(scan_all(m, trees, ex), trees, ex) == scan_all(m, trees, ex),
{
    let g = scan_all(Map::empty(), trees, ex);
    law_scan_overlay(m, trees, ex);
    law_scan_overlay(scan_all(m, trees, ex), trees, ex);
    assert(m.union_prefer_right(g).union_prefer_right(g) =~= m.union_prefer_right(g));
}

} // verus!

verus! {

proof fn lemma_excepted_entries(m: Map<Seq<char>, Seq<char>>, t: FileTree, ex: Seq<Seq<char>>, k: nat)
    requires
        t matches FileTree::Dir { entries, .. } && forall|i: int|
            0 <= i < entries@.len() ==> excepted(#[trigger] entries@[i].path_of(), ex),
    ensures
        scan_entries(m, t, ex, k) == m,
    decreases k,
{
    if k > 0 {
        lemma_excepted_entries(m, t, ex, (k - 1) as nat);
    }
}

/// A directory whose entries all match an exception pattern leaves the
/// fingerprints as they were: excepted paths are never entered.
pub proof fn law_excepted_entries_skipped(m: Map<Seq<char>, Seq<char>>, t: FileTree, ex: Seq<Seq<char>>)
    requires
        t matches FileTree::Dir { entries, .. } && forall|i: int|
            0 <= i < entries@.len() ==> excepted(#[trigger] entries@[i].path_of(), ex),
    ensures
        scan_tree(m, t, ex) == m,
{
    match t {
        FileTree::Dir { entries, .. } => lemma_excepted_entries(m, t, ex, entries@.len()),
        _ => {},
    }
}

} // verus!

verus! {

/// The fingerprints that a tree gives on its own.
pub open spec fn own_fingerprints(t: FileTree, ex: Seq<Seq<char>>) -> Map<Seq<char>, Seq<char>> {
    scan_tree(Map::empty(), t, ex)
}

/// The trees are snapshots of one file system: a path that two of them
/// fingerprint gets the same fingerprint from both.
pub open spec fn consistent_snapshots(trees: Seq<FileTree>, ex: Seq<Seq<char>>) -> bool {
    forall|i: int, j: int, k: Seq<char>|
        0 <= i < trees.len() && 0 <= j < trees.len() && #[trigger] own_fingerprints(trees[i], ex).contains_key(k)
            && #[trigger] own_fingerprints(trees[j], ex).contains_key(k) ==> own_fingerprints(trees[i], ex)[k]
            == own_fingerprints(trees[j], ex)[k]
}

proof fn lemma_scan_all_union(trees: Seq<FileTree>, ex: Seq<Seq<char>>)
    requires
        consistent_snapshots(trees, ex),
    ensures
        forall|k: Seq<char>|
            #[trigger] scan_all(Map::empty(), trees, ex).contains_key(k) <==> exists|i: int|
                0 <= i < trees.len() && #[trigger] own_fingerprints(trees[i], ex).contains_key(k),
        forall|i: int, k: Seq<char>|
            0 <= i < trees.len() && #[trigger] own_fingerprints(trees[i], ex).contains_key(k) ==> scan_all(
                Map::empty(),
                trees,
                ex,
            )[k] == own_fingerprints(trees[i], ex)[k],
    decreases trees.len(),
{
    if trees.len() > 0 {
        let shorter = trees.drop_last();
        let n = trees.len() - 1;
        assert forall|i: int, j: int, k: Seq<char>|
            0 <= i < shorter.len() && 0 <= j < shorter.len() && #[trigger] own_fingerprints(
                shorter[i],
                ex,
            ).contains_key(k) && #[trigger] own_fingerprints(shorter[j], ex).contains_key(k) implies own_fingerprints(
            shorter[i],
            ex,
        )[k] == own_fingerprints(shorter[j], ex)[k] by {
            assert(shorter[i] == trees[i]);
            assert(shorter[j] == trees[j]);
        }
        lemma_scan_all_union(shorter, ex);
        let before = scan_all(Map::empty(), shorter, ex);
        let last = own_fingerprints(trees[n], ex);
        lemma_tree_overlay(before, trees.last(), ex);
        assert(scan_all(Map::empty(), trees, ex) == before.union_prefer_right(last));
        assert forall|k: Seq<char>|
            #[trigger] scan_all(Map::empty(), trees, ex).contains_key(k) <==> exists|i: int|
                0 <= i < trees.len() && #[trigger] own_fingerprints(trees[i], ex).contains_key(k) by {
            if before.contains_key(k) {
                let i = choose|i: int|
                    0 <= i < shorter.len() && #[trigger] own_fingerprints(shorter[i], ex).contains_key(k);
                assert(shorter[i] == trees[i]);
                assert(own_fingerprints(trees[i], ex).contains_key(k));
            }
            if last.contains_key(k) {
                assert(own_fingerprints(trees[n], ex).contains_key(k));
            }
            if exists|i: int| 0 <= i < trees.len() && #[trigger] own_fingerprints(trees[i], ex).contains_key(k) {
                let i = choose|i: int|
                    0 <= i < trees.len() && #[trigger] own_fingerprints(trees[i], ex).contains_key(k);
                if i < n {
                    assert(shorter[i] == trees[i]);
                    assert(own_fingerprints(shorter[i], ex).contains_key(k));
                }
            }
        }
        assert forall|i: int, k: Seq<char>|
            0 <= i < trees.len() && #[trigger] own_fingerprints(trees[i], ex).contains_key(k) implies scan_all(
            Map::empty(),
            trees,
            ex,
        )[k] == own_fingerprints(trees[i], ex)[k] by {
            if i < n {
                assert(shorter[i] == trees[i]);
                assert(own_fingerprints(shorter[i], ex).contains_key(k));
                if last.contains_key(k) {
                    assert(own_fingerprints(trees[n], ex).contains_key(k));
                }
            }
        }
    }
}

/// Scanning snapshots of one file system gives the same fingerprints
/// whatever the order of the directories (and however often each is
/// listed).
pub proof fn law_scan_order_free(
    m: Map<Seq<char>, Seq<char>>,
    t1: Seq<FileTree>,
    t2: Seq<FileTree>,
    ex: Seq<Seq<char>>,
)
    requires
        consistent_snapshots(t1, ex),
        forall|t: FileTree| t1.contains(t) <==> t2.contains(t),
    ensures
        scan_all(m, t1, ex) == scan_all(m, t2, ex),
{
    assert forall|i: int, j: int, k: Seq<char>|
        0 <= i < t2.len() && 0 <= j < t2.len() && #[trigger] own_fingerprints(t2[i], ex).contains_key(k)
            && #[trigger] own_fingerprints(t2[j], ex).contains_key(k) implies own_fingerprints(t2[i], ex)[k]
        == own_fingerprints(t2[j], ex)[k] by {
        assert(t2.contains(t2[i]));
        assert(t2.contains(t2[j]));
        let a = choose|a: int| 0 <= a < t1.len() && t1[a] == t2[i];
        let b = choose|b: int| 0 <= b < t1.len() && t1[b] == t2[j];
        assert(own_fingerprints(t1[a], ex).contains_key(k));
        assert(own_fingerprints(t1[b], ex).contains_key(k));
    }
    lemma_scan_all_union(t1, ex);
    lemma_scan_all_union(t2, ex);
    let g1 = scan_all(Map::empty(), t1, ex);
    let g2 = scan_all(Map::empty(), t2, ex);
    assert forall|k: Seq<char>| #[trigger] g1.contains_key(k) == g2.contains_key(k) by {
        if g1.contains_key(k) {
            let i = choose|i: int| 0 <= i < t1.len() && #[trigger] own_fingerprints(t1[i], ex).contains_key(k);
            assert(t1.contains(t1[i]));
            let j = choose|j: int| 0 <= j < t2.len() && t2[j] == t1[i];
            assert(own_fingerprints(t2[j], ex).contains_key(k));
        }
        if g2.contains_key(k) {
            let i = choose|i: int| 0 <= i < t2.len() && #[trigger] own_fingerprints(t2[i], ex).contains_key(k);
            assert(t2.contains(t2[i]));
            let j = choose|j: int| 0 <= j < t1.len() && t1[j] == t2[i];
            assert(own_fingerprints(t1[j], ex).contains_key(k));
        }
    }
    assert forall|k: Seq<char>| #[trigger] g1.contains_key(k) implies g1[k] == g2[k] by {
        let i = choose|i: int| 0 <= i < t1.len() && #[trigger] own_fingerprints(t1[i], ex).contains_key(k);
        assert(t1.contains(t1[i]));
        let j = choose|j: int| 0 <= j < t2.len() && t2[j] == t1[i];
        assert(own_fingerprints(t2[j], ex).contains_key(k));
    }
    assert(g1 =~= g2);
    law_scan_overlay(m, t1, ex);
    law_scan_overlay(m, t2, ex);
}

} // verus!

verus! {

/// The node reached from `t` by entering, at each step, the directory
/// entry whose index comes next in `idx` (`None` where an index leads
/// nowhere).
pub open spec fn node_at(t: FileTree, idx: Seq<int>) -> Option<FileTree>
    decreases idx.len(),
{
    if idx.len() == 0 {
        Some(t)
    } else {
        match t {
            FileTree::Dir { entries, .. } => {
                if 0 <= idx[0] < entries@.len() {
                    node_at(entries@[idx[0]], idx.drop_first())
                } else {
                    None
                }
            },
            _ => None,
        }
    }
}

/// A node that exists and whose path no exception pattern matches.
pub open spec fn open_node(n: Option<FileTree>, ex: Seq<Seq<char>>) -> bool {
    match n {
        Some(x) => !excepted(x.path_of(), ex),
        None => false,
    }
}

/// Every node that `idx` enters below `t`, at any depth, exists and is
/// matched by no exception pattern.
pub open spec fn open_route(t: FileTree, idx: Seq<int>, ex: Seq<Seq<char>>) -> bool {
    forall|l: int| 1 <= l <= idx.len() ==> open_node(#[trigger] node_at(t, idx.take(l)), ex)
}

/// `idx` leads from `t` along an open route to a regular file at `path`
/// whose fingerprint is `hash`.
pub open spec fn file_on_route(
    t: FileTree,
    idx: Seq<int>,
    ex: Seq<Seq<char>>,
    path: Seq<char>,
    hash: Seq<char>,
) -> bool {
    &&& open_route(t, idx, ex)
    &&& (node_at(t, idx) matches Some(FileTree::File { path: p, contents }) && p@ == path
        && file_hash(contents@) == hash)
}

proof fn lemma_route_step(t: FileTree, c: int, r: Seq<int>, child: FileTree, ex: Seq<Seq<char>>)
    requires
        t matches FileTree::Dir { entries, .. } && 0 <= c < entries@.len() && entries@[c] == child,
    ensures
        node_at(t, seq![c] + r) == node_at(child, r),
        open_route(t, seq![c] + r, ex) <==> !excepted(child.path_of(), ex) && open_route(child, r, ex),
{
    let idx = seq![c] + r;
    assert(idx.len() > 0 && idx[0] == c);
    assert(idx.drop_first() =~= r);
    assert forall|l: int| 1 <= l <= idx.len() implies #[trigger] node_at(t, idx.take(l)) == node_at(
        child,
        r.take(l - 1),
    ) by {
        let s = idx.take(l);
        assert(s.len() > 0 && s[0] == c);
        assert(s.drop_first() =~= r.take(l - 1));
    }
    assert(r.take(0) =~= Seq::<int>::empty());
    assert(node_at(t, idx.take(1)) == Some(child));
    if open_route(t, idx, ex) {
        assert(open_node(node_at(t, idx.take(1)), ex));
        assert forall|l: int| 1 <= l <= r.len() implies open_node(#[trigger] node_at(child, r.take(l)), ex) by {
            assert(node_at(t, idx.take(l + 1)) == node_at(child, r.take(l)));
        }
    }
    if !excepted(child.path_of(), ex) && open_route(child, r, ex) {
        assert forall|l: int| 1 <= l <= idx.len() implies open_node(#[trigger] node_at(t, idx.take(l)), ex) by {
            assert(node_at(t, idx.take(l)) == node_at(child, r.take(l - 1)));
            if l > 1 {
                assert(open_node(node_at(child, r.take(l - 1)), ex));
            }
        }
    }
}

proof fn lemma_tree_sound(t: FileTree, ex: Seq<Seq<char>>)
    ensures
        forall|key: Seq<char>| #[trigger]
            own_fingerprints(t, ex).contains_key(key) ==> exists|idx: Seq<int>|
                #[trigger] file_on_route(t, idx, ex, key, own_fingerprints(t, ex)[key]),
    decreases t, tree_rank(t),
{
    match t {
        FileTree::File { path, contents } => {
            let own = own_fingerprints(t, ex);
            assert forall|key: Seq<char>| #[trigger] own.contains_key(key) implies exists|idx: Seq<int>|
                #[trigger] file_on_route(t, idx, ex, key, own[key]) by {
                assert(file_on_route(t, Seq::<int>::empty(), ex, key, own[key]));
            }
        },
        FileTree::Dir { entries, .. } => {
            lemma_entries_sound(t, ex, entries@.len());
            assert(own_fingerprints(t, ex) == scan_entries(Map::empty(), t, ex, entries@.len()));
        },
        FileTree::Other { .. } => {
            assert(own_fingerprints(t, ex) =~= Map::empty());
        },
    }
}

proof fn lemma_entries_sound(t: FileTree, ex: Seq<Seq<char>>, k: nat)
    ensures
        forall|key: Seq<char>| #[trigger]
            scan_entries(Map::empty(), t, ex, k).contains_key(key) ==> exists|idx: Seq<int>|
                #[trigger] file_on_route(t, idx, ex, key, scan_entries(Map::empty(), t, ex, k)[key]),
    decreases t, k,
{
    let e = Map::<Seq<char>, Seq<char>>::empty();
    match t {
        FileTree::Dir { entries, .. } => {
            if k > 0 && k <= entries@.len() {
                lemma_entries_sound(t, ex, (k - 1) as nat);
                let c = k - 1;
                let child = entries@[c];
                let before = scan_entries(e, t, ex, (k - 1) as nat);
                if !excepted(child.path_of(), ex) {
                    assert(decreases_to!(t => child));
                    lemma_tree_sound(child, ex);
                    lemma_tree_overlay(before, child, ex);
                    let own = own_fingerprints(child, ex);
                    let s = scan_entries(e, t, ex, k);
                    assert forall|key: Seq<char>| #[trigger] s.contains_key(key) implies exists|idx: Seq<int>|
                        #[trigger] file_on_route(t, idx, ex, key, s[key]) by {
                        if own.contains_key(key) {
                            let r = choose|r: Seq<int>| #[trigger] file_on_route(child, r, ex, key, own[key]);
                            lemma_route_step(t, c, r, child, ex);
                            assert(file_on_route(t, seq![c] + r, ex, key, s[key]));
                        } else {
                            assert(before.contains_key(key));
                            let idx = choose|idx: Seq<int>| #[trigger] file_on_route(t, idx, ex, key, before[key]);
                            assert(file_on_route(t, idx, ex, key, s[key]));
                        }
                    }
                }
            }
        },
        _ => {},
    }
}

proof fn lemma_tree_complete(t: FileTree, idx: Seq<int>, ex: Seq<Seq<char>>, path: Seq<char>, hash: Seq<char>)
    requires
        file_on_route(t, idx, ex, path, hash),
    ensures
        own_fingerprints(t, ex).contains_key(path),
    decreases t, tree_rank(t),
{
    if idx.len() > 0 {
        match t {
            FileTree::Dir { entries, .. } => {
                lemma_entries_complete(t, idx, ex, path, hash, entries@.len());
            },
            _ => {},
        }
    }
}

proof fn lemma_entries_complete(
    t: FileTree,
    idx: Seq<int>,
    ex: Seq<Seq<char>>,
    path: Seq<char>,
    hash: Seq<char>,
    k: nat,
)
    requires
        file_on_route(t, idx, ex, path, hash),
        idx.len() > 0,
        t matches FileTree::Dir { entries, .. } && idx[0] < k <= entries@.len(),
    ensures
        scan_entries(Map::empty(), t, ex, k).contains_key(path),
    decreases t, k,
{
    let e = Map::<Seq<char>, Seq<char>>::empty();
    match t {
        FileTree::Dir { entries, .. } => {
            let c = idx[0];
            assert(0 <= c);
            let child = entries@[k - 1];
            let before = scan_entries(e, t, ex, (k - 1) as nat);
            if c < k - 1 {
                lemma_entries_complete(t, idx, ex, path, hash, (k - 1) as nat);
                if !excepted(child.path_of(), ex) {
                    lemma_tree_overlay(before, child, ex);
                }
            } else {
                let r = idx.drop_first();
                assert(idx =~= seq![c] + r);
                lemma_route_step(t, c, r, child, ex);
                assert(decreases_to!(t => child));
                lemma_tree_complete(child, r, ex, path, hash);
                lemma_tree_overlay(before, child, ex);
            }
        },
        _ => {},
    }
}

/// Scanning the directories from scratch fingerprints exactly the regular
/// files that some directory reaches without entering, at any depth, a
/// path that an exception pattern matches; each fingerprint is the SHA-256
/// fingerprint of one such file at that path.
pub proof fn law_scan_reaches_files(trees: Seq<FileTree>, ex: Seq<Seq<char>>)
    ensures
        forall|key: Seq<char>| #[trigger]
            scan_all(Map::empty(), trees, ex).contains_key(key) ==> exists|i: int, idx: Seq<int>|
                0 <= i < trees.len() && #[trigger] file_on_route(
                    trees[i],
                    idx,
                    ex,
                    key,
                    scan_all(Map::empty(), trees, ex)[key],
                ),
        forall|i: int, idx: Seq<int>, path: Seq<char>, hash: Seq<char>|
            0 <= i < trees.len() && #[trigger] file_on_route(trees[i], idx, ex, path, hash)
                ==> scan_all(Map::empty(), trees, ex).contains_key(path),
    decreases trees.len(),
{
    if trees.len() > 0 {
        let e = Map::<Seq<char>, Seq<char>>::empty();
        let shorter = trees.drop_last();
        let n = trees.len() - 1;
        let last = trees[n];
        law_scan_reaches_files(shorter, ex);
        let before = scan_all(e, shorter, ex);
        let own = own_fingerprints(last, ex);
        let all = scan_all(e, trees, ex);
        lemma_tree_overlay(before, last, ex);
        lemma_tree_sound(last, ex);
        assert(all == before.union_prefer_right(own));
        assert forall|key: Seq<char>| #[trigger] all.contains_key(key) implies exists|i: int, idx: Seq<int>|
            0 <= i < trees.len() && #[trigger] file_on_route(trees[i], idx, ex, key, all[key]) by {
            if own.contains_key(key) {
                let idx = choose|idx: Seq<int>| #[trigger] file_on_route(last, idx, ex, key, own[key]);
                assert(file_on_route(trees[n], idx, ex, key, all[key]));
            } else {
                assert(before.contains_key(key));
                let (i, idx) = choose|i: int, idx: Seq<int>|
                    0 <= i < shorter.len() && #[trigger] file_on_route(shorter[i], idx, ex, key, before[key]);
                assert(shorter[i] == trees[i]);
                assert(file_on_route(trees[i], idx, ex, key, all[key]));
            }
        }
        assert forall|i: int, idx: Seq<int>, path: Seq<char>, hash: Seq<char>|
            0 <= i < trees.len() && #[trigger] file_on_route(trees[i], idx, ex, path, hash) implies all.contains_key(
            path,
        ) by {
            if i < n {
                assert(shorter[i] == trees[i]);
                assert(file_on_route(shorter[i], idx, ex, path, hash));
            } else {
                lemma_tree_complete(last, idx, ex, path, hash);
            }
        }
    }
}

/// A path gets no fingerprint when every way down to a regular file at
/// that path passes through an entry that an exception pattern matches (or
/// when there is none): an excepted directory is never entered, however
/// deep it lies.
pub proof fn law_excepted_not_fingerprinted(trees: Seq<FileTree>, ex: Seq<Seq<char>>, key: Seq<char>)
    requires
        forall|i: int, idx: Seq<int>|
            0 <= i < trees.len() && (#[trigger] node_at(trees[i], idx) matches Some(
                FileTree::File { path, .. },
            ) && path@ == key) ==> exists|l: int|
                1 <= l <= idx.len() && !open_node(#[trigger] node_at(trees[i], idx.take(l)), ex),
    ensures
        !scan_all(Map::empty(), trees, ex).contains_key(key),
{
    law_scan_reaches_files(trees, ex);
    let all = scan_all(Map::empty(), trees, ex);
    if all.contains_key(key) {
        let (i, idx) = choose|i: int, idx: Seq<int>|
            0 <= i < trees.len() && #[trigger] file_on_route(trees[i], idx, ex, key, all[key]);
        let l = choose|l: int| 1 <= l <= idx.len() && !open_node(#[trigger] node_at(trees[i], idx.take(l)), ex);
        assert(open_node(node_at(trees[i], idx.take(l)), ex));
    }
}

} // verus!
