use vstd::prelude::*;

use rand::Rng;

verus! {

/// Relies on rand::thread_rng and rand::Rng::gen_range: sampling an
/// inclusive integer range panics only when the range is empty, and
/// otherwise returns a value within the range. Nothing more is assumed
/// of the draw; callers must hold for every value it may take.
#[verifier::external_body]
pub(crate) fn get_random_num(from: usize, to: usize) -> (r: usize)
    requires
        from <= to,
    ensures
        from <= r <= to,
{
    rand::thread_rng().gen_range(from..=to)
}

} // verus!
