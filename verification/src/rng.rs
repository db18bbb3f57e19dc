use vstd::prelude::*;
use rand::Rng;

verus! {

/// Relies on rand::Rng::gen_range (through rand::thread_rng): returns a
/// uniformly random value in [low, high), and panics only when low >= high,
/// so a positive bound is required here. Nothing more can be promised of a
/// random draw than its range.
#[verifier::external_body]
pub(crate) fn random_below(bound: i32) -> (r: i32)
    requires
        bound > 0,
    ensures
        0 <= r < bound,
{
    rand::thread_rng().gen_range(0, bound)
}

} // verus!
