//! Random choices, drawn from the generator of the current thread.
use vstd::prelude::*;
use rand::Rng;

verus! {

/// `rand::Rng::gen_range` on `rand::thread_rng()` with the inclusive range
/// from `low` to `high`: some integer of that range. The call panics on an
/// empty range, which the precondition leaves out.
#[verifier::external_body]
pub(crate) fn random_between(low: i64, high: i64) -> (r: i64)
    requires
        low <= high,
    ensures
        low <= r <= high,
{
    rand::thread_rng().gen_range(low..=high)
}

/// `rand::Rng::gen` on `rand::thread_rng()` for a boolean: either value.
#[verifier::external_body]
pub(crate) fn random_bool() -> (r: bool) {
    rand::thread_rng().gen::<bool>()
}

/// Some position below `n`, drawn from the positions that an `i64` can
/// hold.
pub fn random_below(n: usize) -> (r: usize)
    requires
        n > 0,
    ensures
        r < n,
        r <= i64::MAX,
{
    let last = (n - 1) as u64;
    let top: i64 = if last > 0x7fff_ffff_ffff_ffffu64 {
        0x7fff_ffff_ffff_ffffi64
    } else {
        last as i64
    };
    random_between(0, top) as usize
}

} // verus!
