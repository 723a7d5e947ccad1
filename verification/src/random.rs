use vstd::prelude::*;
use rand::Rng;

verus! {

/// A number drawn by `rand`'s thread-local generator with `Rng::gen_range`,
/// uniformly from `low` (included) to `high` (excluded). The draw panics
/// when `low >= high`, which `requires` rules out; all that is claimed of
/// the result is that it lies in that range.
#[verifier::external_body]
pub(crate) fn random_in_range(low: i32, high: i32) -> (r: i32)
    requires
        low < high,
    ensures
        low <= r < high,
{
    rand::thread_rng().gen_range(low, high)
}

/// A fair coin drawn by `rand::random::<bool>()`. Nothing is claimed of it.
#[verifier::external_body]
pub(crate) fn coin_flip() -> (heads: bool) {
    rand::random::<bool>()
}

/// A draw by `rand`'s thread-local generator with `Rng::gen_ratio`, true
/// with probability `numerator / denominator`. The call panics when the
/// denominator is 0 or the numerator exceeds it, which `requires` rules out.
/// As `rand` documents, a numerator equal to the denominator always gives
/// `true`, and a numerator of 0 always gives `false`; of other arguments
/// nothing is claimed.
#[verifier::external_body]
pub(crate) fn chance(numerator: u32, denominator: u32) -> (hit: bool)
    requires
        0 < denominator,
        numerator <= denominator,
    ensures
        numerator == denominator ==> hit,
        numerator == 0 ==> !hit,
{
    rand::thread_rng().gen_ratio(numerator, denominator)
}

} // verus!
