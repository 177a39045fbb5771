use rand::Rng;
use vstd::prelude::*;

verus! {

/// Relies on `rand::Rng::gen_range` of the thread-local generator: for
/// `low < high` it returns a value in `[low, high)`; it panics only when
/// `low >= high`, which `requires` leaves out.
#[verifier::external_body]
pub(crate) fn random_below(bound: i64) -> (r: i64)
    requires
        bound > 0,
    ensures
        0 <= r < bound,
{
    rand::thread_rng().gen_range(0, bound)
}

} // verus!
