//! Trusted boundary to `rand`: the thread-local generator, per-worker salt
//! generation, and checkpoint sampling without replacement. Nothing is
//! assumed of which values come back, only of their count, range and
//! distinctness.

use vstd::prelude::*;
use rand::distributions::DistString;
use vstd::pervasive::VecAdditionalExecFns;

verus! {

#[verifier::external_type_specification]
#[verifier::external_body]
pub struct ExThreadRng(rand::rngs::ThreadRng);

/// Relies on `rand::thread_rng`: a handle to the thread-local generator.
#[verifier::external_body]
pub(crate) fn new_rng() -> rand::rngs::ThreadRng {
    rand::thread_rng()
}

/// A byte of the `Alphanumeric` character set: `A`-`Z`, `a`-`z` or `0`-`9`.
pub open spec fn is_alnum_byte(b: u8) -> bool {
    (65 <= b <= 90) || (97 <= b <= 122) || (48 <= b <= 57)
}

/// Relies on `rand::distributions::Alphanumeric` through
/// `DistString::sample_string`: exactly `len` characters, each drawn from
/// `A`-`Z`, `a`-`z`, `0`-`9`, so each is one ASCII byte.
#[verifier::external_body]
pub(crate) fn sample_salt(rng: &mut rand::rngs::ThreadRng, len: usize) -> (r: Vec<u8>)
    ensures
        r@.len() == len,
        forall|j: int| 0 <= j < r@.len() ==> is_alnum_byte(#[trigger] r@[j]),
{
    rand::distributions::Alphanumeric.sample_string(rng, len).into_bytes()
}

/// Relies on `rand::seq::index::sample`: exactly `amount` distinct indices
/// drawn from `0..length`, in random order; it panics when
/// `amount > length`, which the precondition rules out.
#[verifier::external_body]
pub(crate) fn sample_indices(rng: &mut rand::rngs::ThreadRng, length: usize, amount: usize) -> (r:
    Vec<usize>)
    requires
        amount <= length,
    ensures
        r@.len() == amount,
        forall|j: int| 0 <= j < r@.len() ==> #[trigger] r@[j] < length,
        forall|j: int, k: int| 0 <= j < k < r@.len() ==> r@[j] != r@[k],
{
    rand::seq::index::sample(rng, length, amount).into_vec()
}

/// Sample `amount` progress checkpoints for the partition
/// `[lower, lower + length)`: however the generator draws, the result is
/// `amount` distinct iteration indices, all inside the partition.
pub fn worker_checkpoints(
    rng: &mut rand::rngs::ThreadRng,
    lower: usize,
    length: usize,
    amount: usize,
) -> (r: Vec<usize>)
    requires
        amount <= length,
        lower + length <= usize::MAX,
    ensures
        r@.len() == amount,
        forall|j: int| 0 <= j < r@.len() ==> lower <= #[trigger] r@[j] < lower + length,
        forall|j: int, k: int| 0 <= j < k < r@.len() ==> r@[j] != r@[k],
{
    let mut cps = sample_indices(rng, length, amount);
    let ghost drawn = cps@;
    let mut j: usize = 0;
    while j < cps.len()
        invariant
            cps@.len() == amount,
            drawn.len() == amount,
            j <= amount,
            lower + length <= usize::MAX,
            forall|k: int| 0 <= k < amount ==> #[trigger] drawn[k] < length,
            forall|k1: int, k2: int| 0 <= k1 < k2 < amount ==> drawn[k1] != drawn[k2],
            forall|k: int| 0 <= k < j ==> #[trigger] cps@[k] == drawn[k] + lower,
            forall|k: int| j <= k < amount ==> #[trigger] cps@[k] == drawn[k],
        decreases amount - j,
    {
        let v = cps[j];
        cps.set(j, v + lower);
        j += 1;
    }
    cps
}

} // verus!
