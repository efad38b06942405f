//! Splitting the iteration space `[0, total)` into one contiguous half-open
//! range per worker. Each range has `total / workers` indices; a remainder
//! that does not divide evenly is dropped, a documented truncation.

use vstd::prelude::*;
use vstd::arithmetic::div_mod::{lemma_fundamental_div_mod, lemma_mod_division_less_than_divisor};

verus! {

/// A half-open range `[lower, upper)` of iteration indices owned by one worker.
#[derive(Clone, Copy, PartialEq, Eq, Structural, Debug)]
pub struct Partition {
    pub lower: usize,
    pub upper: usize,
}

/// Rejected configurations, caught before any worker starts.
#[derive(Clone, Copy, PartialEq, Eq, Structural, Debug)]
pub enum ConfigError {
    /// A worker count of zero admits no partitioning.
    ZeroWorkers,
}

/// The partitions are exactly the ranges `[i*share, (i+1)*share)` for
/// `i < workers`, where `share = total / workers`.
pub open spec fn partitions_of(ps: Seq<Partition>, total: nat, workers: nat) -> bool {
    &&& ps.len() == workers
    &&& forall|i: int|
        0 <= i < workers ==> (#[trigger] ps[i]).lower == i * (total / workers)
    &&& forall|i: int|
        0 <= i < workers ==> (#[trigger] ps[i]).upper == (i + 1) * (total / workers)
}

/// `x` is one of the iteration indices of partition `p`.
pub open spec fn in_partition(p: Partition, x: int) -> bool {
    p.lower <= x < p.upper
}

/// Some partition of `ps` holds the iteration index `x`.
pub open spec fn covered_by(ps: Seq<Partition>, x: int) -> bool {
    exists|i: int| 0 <= i < ps.len() && in_partition(#[trigger] ps[i], x)
}

/// Divide `total` iterations into `workers` equal contiguous ranges.
/// A zero worker count is rejected; otherwise the ranges of `partitions_of`
/// come back, in order.
pub fn make_partitions(total: usize, workers: usize) -> (r: Result<Vec<Partition>, ConfigError>)
    ensures
        r is Err <==> workers == 0,
        r matches Err(e) ==> e == ConfigError::ZeroWorkers,
        r matches Ok(ps) ==> partitions_of(ps@, total as nat, workers as nat),
{
    if workers == 0 {
        return Err(ConfigError::ZeroWorkers);
    }
    let share = total / workers;
    proof {
        lemma_fundamental_div_mod(total as int, workers as int);
        lemma_mod_division_less_than_divisor(total as int, workers as int);
        assert(workers as int * share as int <= total as int);
    }
    let mut ps: Vec<Partition> = Vec::new();
    let mut i: usize = 0;
    while i < workers
        invariant
            0 < workers,
            i <= workers,
            share == total as int / workers as int,
            workers as int * share as int <= total as int,
            ps@.len() == i,
            forall|k: int|
                0 <= k < i ==> (#[trigger] ps@[k]).lower == k * share as int,
            forall|k: int|
                0 <= k < i ==> (#[trigger] ps@[k]).upper == (k + 1) * share as int,
        decreases workers - i,
    {
        proof {
            assert(i as int * share as int <= (i as int + 1) * share as int <= workers as int
                * share as int) by (nonlinear_arith)
                requires
                    0 <= i as int,
                    i as int + 1 <= workers as int,
                    share as int >= 0,
            ;
        }
        let lower = i * share;
        let upper = (i + 1) * share;
        ps.push(Partition { lower, upper });
        i += 1;
    }
    Ok(ps)
}

/// The partitioner's ranges are ordered, lie inside `[0, total)`, and are
/// pairwise disjoint; when `workers` divides `total` evenly their union is
/// all of `[0, total)`.
pub proof fn lemma_partitions_cover(ps: Seq<Partition>, total: nat, workers: nat)
    requires
        workers > 0,
        partitions_of(ps, total, workers),
    ensures
        forall|i: int| 0 <= i < workers ==> (#[trigger] ps[i]).upper <= total,
        forall|i: int, j: int|
            0 <= i < j < workers ==> (#[trigger] ps[i]).upper <= (#[trigger] ps[j]).lower,
        forall|i: int, j: int, x: int|
            0 <= i < workers && 0 <= j < workers && i != j ==> !(#[trigger] in_partition(
                ps[i],
                x,
            ) && #[trigger] in_partition(ps[j], x)),
        total % workers == 0 ==> forall|x: int|
            0 <= x < total ==> #[trigger] covered_by(ps, x),
{
    let share = (total / workers) as int;
    lemma_fundamental_div_mod(total as int, workers as int);
    lemma_mod_division_less_than_divisor(total as int, workers as int);
    assert(workers as int * share <= total as int);

    assert forall|i: int| 0 <= i < workers implies (#[trigger] ps[i]).upper <= total by {
        assert((i + 1) * share <= workers as int * share) by (nonlinear_arith)
            requires
                i + 1 <= workers as int,
                share >= 0,
        ;
    }
    assert forall|i: int, j: int| 0 <= i < j < workers implies (#[trigger] ps[i]).upper <= (
    #[trigger] ps[j]).lower by {
        assert((i + 1) * share <= j * share) by (nonlinear_arith)
            requires
                i + 1 <= j,
                share >= 0,
        ;
    }
    assert forall|i: int, j: int, x: int|
        0 <= i < workers && 0 <= j < workers && i != j implies !(#[trigger] in_partition(ps[i], x)
        && #[trigger] in_partition(ps[j], x)) by {
        if i < j {
            assert(ps[i].upper <= ps[j].lower);
        } else {
            assert(ps[j].upper <= ps[i].lower);
        }
    }
    if total % workers == 0 {
        assert(workers as int * share == total as int);
        assert forall|x: int| 0 <= x < total implies #[trigger] covered_by(ps, x) by {
            assert(share > 0) by (nonlinear_arith)
                requires
                    workers as int * share == total as int,
                    x < total as int,
                    0 <= x,
                    share >= 0,
            ;
            let i = x / share;
            lemma_fundamental_div_mod(x, share);
            lemma_mod_division_less_than_divisor(x, share);
            assert(i >= 0) by (nonlinear_arith)
                requires
                    x >= 0,
                    share > 0,
                    x == share * i + x % share,
                    0 <= x % share < share,
            ;
            assert(i < workers as int) by (nonlinear_arith)
                requires
                    x < workers as int * share,
                    share > 0,
                    x == share * i + x % share,
                    0 <= x % share < share,
            ;
            assert(i * share <= x < (i + 1) * share) by (nonlinear_arith)
                requires
                    x == share * i + x % share,
                    0 <= x % share < share,
            ;
            assert(in_partition(ps[i], x));
            assert(covered_by(ps, x));
        }
    }
}

/// Powers of ten, the sizes the iteration space can take.
pub open spec fn pow10(e: nat) -> nat
    decreases e,
{
    if e == 0 {
        1nat
    } else {
        10 * pow10((e - 1) as nat)
    }
}

proof fn lemma_pow10_monotonic(a: nat, b: nat)
    requires
        a <= b,
    ensures
        pow10(a) <= pow10(b),
    decreases b,
{
    if a < b {
        lemma_pow10_monotonic(a, (b - 1) as nat);
        assert(pow10(b) == 10 * pow10((b - 1) as nat));
    }
}

/// Compute `10^exponent`, the total iteration count, or report that it does
/// not fit in a `usize`.
pub fn total_iterations(exponent: u32) -> (r: Option<usize>)
    ensures
        r matches Some(v) ==> v == pow10(exponent as nat),
        r is None <==> pow10(exponent as nat) > usize::MAX,
{
    let mut acc: usize = 1;
    let mut k: u32 = 0;
    while k < exponent
        invariant
            k <= exponent,
            acc == pow10(k as nat),
        decreases exponent - k,
    {
        if acc > usize::MAX / 10 {
            proof {
                lemma_fundamental_div_mod(usize::MAX as int, 10);
                lemma_mod_division_less_than_divisor(usize::MAX as int, 10);
                assert(10 * acc as int > usize::MAX as int);
                assert(pow10((k + 1) as nat) == 10 * pow10(k as nat));
                lemma_pow10_monotonic((k + 1) as nat, exponent as nat);
            }
            return None;
        }
        proof {
            lemma_fundamental_div_mod(usize::MAX as int, 10);
            lemma_mod_division_less_than_divisor(usize::MAX as int, 10);
            assert(10 * acc as int <= usize::MAX as int);
        }
        acc = acc * 10;
        k += 1;
    }
    Some(acc)
}

} // verus!
