//! Exception patterns: Unix shell style globs, compiled and matched by
//! the `glob` crate.
use vstd::prelude::*;

verus! {

#[verifier::external_type_specification]
#[verifier::external_body]
pub struct ExGlobPattern(glob::Pattern);

/// Whether `glob::Pattern::new` accepts the pattern text.
pub uninterp spec fn glob_compiles(pattern: Seq<char>) -> bool;

/// Whether `glob::Pattern::matches`, on the pattern compiled from the
/// text `pattern`, accepts `path`.
pub uninterp spec fn glob_matches(pattern: Seq<char>, path: Seq<char>) -> bool;

/// A compiled glob pattern together with the text it was compiled from.
pub struct GlobPattern {
    source: String,
    compiled: glob::Pattern,
}

impl GlobPattern {
    /// The pattern text.
    pub closed spec fn source(&self) -> Seq<char> {
        self.source@
    }
}

/// Calls `glob::Pattern::new`. Trusted: it succeeds exactly when the text
/// is a valid pattern (`glob_compiles`), and the result remembers the text.
#[verifier::external_body]
fn compile_glob(text: &str) -> (r: Option<GlobPattern>)
    ensures
        r.is_some() == glob_compiles(text@),
        r matches Some(p) ==> p.source() == text@,
{
    match glob::Pattern::new(text) {
        Ok(compiled) => Some(GlobPattern { source: text.to_string(), compiled }),
        Err(_) => None,
    }
}

/// Calls `glob::Pattern::matches`. Trusted: the answer is `glob_matches`
/// of the pattern's text and the path.
#[verifier::external_body]
fn glob_match(pattern: &GlobPattern, path: &str) -> (r: bool)
    ensures
        r == glob_matches(pattern.source(), path@),
{
    pattern.compiled.matches(path)
}

/// The texts of a list of strings.
pub open spec fn strings_of(v: Seq<String>) -> Seq<Seq<char>> {
    v.map_values(|s: String| s@)
}

/// Whether some exception pattern is valid and matches `path`.
pub open spec fn excepted(path: Seq<char>, exceptions: Seq<Seq<char>>) -> bool {
    exists|i: int|
        0 <= i < exceptions.len() && glob_compiles(exceptions[i]) && #[trigger] glob_matches(
            exceptions[i],
            path,
        )
}

/// Whether `path` is excluded from scanning: some exception pattern
/// compiles and matches it. Patterns that do not compile are skipped.
pub fn is_exception(path: &str, exceptions: &Vec<String>) -> (r: bool)
    ensures
        r == excepted(path@, strings_of(exceptions@)),
{
    let ghost ex = strings_of(exceptions@);
    let mut i: usize = 0;
    while i < exceptions.len()
        invariant
            ex == strings_of(exceptions@),
            i <= exceptions@.len(),
            forall|j: int|
                0 <= j < i ==> !(glob_compiles(ex[j]) && #[trigger] glob_matches(ex[j], path@)),
        decreases exceptions@.len() - i,
    {
        if let Some(pattern) = compile_glob(exceptions[i].as_str()) {
            if glob_match(&pattern, path) {
                assert(glob_compiles(ex[i as int]) && glob_matches(ex[i as int], path@));
                return true;
            }
        }
        i = i + 1;
    }
    false
}

} // verus!

verus! {

/// A copy of a list of strings.
pub fn clone_strings(v: &Vec<String>) -> (r: Vec<String>)
    ensures
        r@ == v@,
{
    let mut r: Vec<String> = Vec::new();
    let mut i: usize = 0;
    while i < v.len()
        invariant
            i <= v@.len(),
            r@ == v@.take(i as int),
        decreases v@.len() - i,
    {
        r.push(v[i].clone());
        assert(r@ =~= v@.take(i + 1));
        i = i + 1;
    }
    assert(v@.take(v@.len() as int) =~= v@);
    r
}

} // verus!

verus! {

/// Whether a path is excepted does not depend on the order of the
/// patterns, nor on how often each is listed.
pub proof fn law_exception_order_free(path: Seq<char>, e1: Seq<Seq<char>>, e2: Seq<Seq<char>>)
    requires
        forall|x: Seq<char>| e1.contains(x) <==> e2.contains(x),
    ensures
        excepted(path, e1) == excepted(path, e2),
{
    if excepted(path, e1) {
        let i = choose|i: int|
            0 <= i < e1.len() && glob_compiles(e1[i]) && #[trigger] glob_matches(e1[i], path);
        assert(e1.contains(e1[i]));
        let j = choose|j: int| 0 <= j < e2.len() && e2[j] == e1[i];
        assert(glob_matches(e2[j], path));
    }
    if excepted(path, e2) {
        let i = choose|i: int|
            0 <= i < e2.len() && glob_compiles(e2[i]) && #[trigger] glob_matches(e2[i], path);
        assert(e2.contains(e2[i]));
        let j = choose|j: int| 0 <= j < e1.len() && e1[j] == e2[i];
        assert(glob_matches(e1[j], path));
    }
}

/// Adding patterns never takes an exception away.
pub proof fn law_more_exceptions(path: Seq<char>, e1: Seq<Seq<char>>, more: Seq<Seq<char>>)
    ensures
        excepted(path, e1) ==> excepted(path, e1 + more),
{
    if excepted(path, e1) {
        let i = choose|i: int|
            0 <= i < e1.len() && glob_compiles(e1[i]) && #[trigger] glob_matches(e1[i], path);
        assert((e1 + more)[i] == e1[i]);
        assert(glob_matches((e1 + more)[i], path));
    }
}

} // verus!
