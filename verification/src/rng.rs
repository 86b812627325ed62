use vstd::prelude::*;
use rand::Rng;

verus! {

/// Relies on rand's `Rng::gen_range` on `rand::rngs::ThreadRng`: a draw from
/// the half-open range handed to it, here the fixed-point unit interval
/// [0, 1). Nothing more is assumed of the draw.
#[verifier::external_body]
pub(crate) fn rand_fixed() -> (r: i64)
    ensures
        0 <= r < 65536,
{
    rand::thread_rng().gen_range(0..65536i64)
}

} // verus!
