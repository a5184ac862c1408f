//! The random pause that each detector takes before looking again.
use vstd::prelude::*;

verus! {

/// Calls `rand::random_range(0..bound)`. Trusted: the range must not be
/// empty (the call panics on an empty range); the value lies in it. Which
/// value comes out depends on the thread's random generator and is not
/// stated.
#[verifier::external_body]
fn random_below(bound: u64) -> (r: u64)
    requires
        bound > 0,
    ensures
        r < bound,
{
    rand::random_range(0..bound)
}

/// A random pause, in whole seconds, shorter than `cooldown`.
pub fn next_pause(cooldown: u64) -> (r: u64)
    requires
        cooldown > 0,
    ensures
        r < cooldown,
{
    random_below(cooldown)
}

} // verus!
