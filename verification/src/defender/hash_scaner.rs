//! Scanning without exception patterns.
use vstd::prelude::*;
use crate::scanning::{scan_directory as scan_with_exceptions, scan_tree, FileTree};
use crate::table::StringMap;

verus! {

/// Fingerprints every regular file under `tree` into `hash_map`, with no
/// path excepted.
pub fn scan_directory(hash_map: StringMap, tree: &FileTree) -> (r: StringMap)
    ensures
        r@ == scan_tree(hash_map@, *tree, Seq::empty()),
{
    let no_exceptions: Vec<String> = Vec::new();
    let (r, _exceptions) = scan_with_exceptions(hash_map, tree, no_exceptions);
    assert(crate::glob_match::strings_of(no_exceptions@) =~= Seq::<Seq<char>>::empty());
    r
}

} // verus!
