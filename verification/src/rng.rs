use vstd::prelude::*;
use rand::Rng;

verus! {

/// Relies on rand::Rng::gen_range over the range 0..n: it returns a value
/// drawn uniformly from that range, and panics only on an empty range,
/// which `n > 0` rules out. Nothing more than the bound can be promised of
/// a random draw.
#[verifier::external_body]
pub(crate) fn rand_below(n: usize) -> (r: usize)
    requires
        n > 0,
    ensures
        r < n,
{
    rand::thread_rng().gen_range(0..n)
}

} // verus!
