//! The worker search loop: every index of an assigned partition is hashed
//! and the smallest digest seen is kept. The result is pinned to a spec-level
//! fold over the range, so it is a function of the salt and the bounds alone.

use vstd::prelude::*;
use crate::candidate::{build_candidate, candidate_seq, lemma_decimal_len_20};
use crate::order::{
    digest_lt, lemma_lex_le_transitive, lemma_lex_lt_asymmetric, lemma_lex_lt_irreflexive, lex_lt,
};
use crate::pair::{copy_bytes, HashPair};
use crate::rng::{is_alnum_byte, new_rng, sample_salt, worker_checkpoints};
use crate::sha::{sha256, sha256_of};

verus! {

/// The fixed sentinel input a worker's running best starts from.
pub open spec fn sentinel_seq() -> Seq<u8> {
    seq![73, 110, 105, 116, 105, 97, 108, 32, 118, 97, 108, 117, 101]
}

/// Build the sentinel input `Initial value` as a byte vector.
pub fn sentinel_bytes() -> (r: Vec<u8>)
    ensures
        r@ == sentinel_seq(),
{
    let mut v: Vec<u8> = Vec::new();
    v.push(73);
    v.push(110);
    v.push(105);
    v.push(116);
    v.push(105);
    v.push(97);
    v.push(108);
    v.push(32);
    v.push(118);
    v.push(97);
    v.push(108);
    v.push(117);
    v.push(101);
    proof {
        assert(v@ =~= sentinel_seq());
    }
    v
}

/// The (input, digest) model of a worker's running best before any
/// candidate has been hashed.
pub open spec fn initial_best() -> (Seq<u8>, Seq<u8>) {
    (sentinel_seq(), sha256_of(sentinel_seq()))
}

/// The digest a given salt produces at iteration `i`.
pub open spec fn candidate_digest(salt: Seq<u8>, i: nat) -> Seq<u8> {
    sha256_of(candidate_seq(salt, i))
}

/// One search step: the candidate at iteration `i` replaces the running best
/// exactly when its digest is strictly smaller.
pub open spec fn step_best(best: (Seq<u8>, Seq<u8>), salt: Seq<u8>, i: nat) -> (Seq<u8>, Seq<u8>) {
    if lex_lt(candidate_digest(salt, i), best.1) {
        (candidate_seq(salt, i), candidate_digest(salt, i))
    } else {
        best
    }
}

/// The running best after folding the candidates of `[lower, upper)`, in
/// order, over a starting best. The whole search is this function of the
/// salt and the bounds: no other input reaches the result.
pub open spec fn best_from(
    best: (Seq<u8>, Seq<u8>),
    salt: Seq<u8>,
    lower: int,
    upper: int,
) -> (Seq<u8>, Seq<u8>)
    decreases upper - lower,
{
    if lower >= upper {
        best
    } else {
        best_from(step_best(best, salt, lower as nat), salt, lower + 1, upper)
    }
}

/// Folding one more index on the right is one more step.
proof fn lemma_best_from_snoc(best: (Seq<u8>, Seq<u8>), salt: Seq<u8>, lower: int, upper: int)
    requires
        0 <= lower <= upper,
    ensures
        best_from(best, salt, lower, upper + 1) == step_best(
            best_from(best, salt, lower, upper),
            salt,
            upper as nat,
        ),
    decreases upper - lower,
{
    if lower < upper {
        lemma_best_from_snoc(step_best(best, salt, lower as nat), salt, lower + 1, upper);
    } else {
        let stepped = step_best(best, salt, lower as nat);
        assert(best_from(best, salt, lower, upper + 1) == best_from(
            stepped,
            salt,
            lower + 1,
            upper + 1,
        ));
        assert(best_from(stepped, salt, lower + 1, upper + 1) == stepped);
    }
}

/// The folded best is never beaten: not by the starting best and not by any
/// candidate of the range; and it is the starting best or one of those
/// candidates.
pub proof fn lemma_best_from_minimal(
    best: (Seq<u8>, Seq<u8>),
    salt: Seq<u8>,
    lower: int,
    upper: int,
)
    requires
        0 <= lower <= upper,
    ensures
        !lex_lt(best.1, best_from(best, salt, lower, upper).1),
        forall|i: int|
            lower <= i < upper ==> !lex_lt(
                #[trigger] candidate_digest(salt, i as nat),
                best_from(best, salt, lower, upper).1,
            ),
        best_from(best, salt, lower, upper) == best || exists|i: int|
            lower <= i < upper && best_from(best, salt, lower, upper) == (
            candidate_seq(salt, i as nat),
            #[trigger] candidate_digest(salt, i as nat),
            ),
    decreases upper - lower,
{
    if lower >= upper {
        lemma_lex_lt_irreflexive(best.1);
    } else {
        let prev = best_from(best, salt, lower, upper - 1);
        let last = best_from(best, salt, lower, upper);
        lemma_best_from_minimal(best, salt, lower, upper - 1);
        lemma_best_from_snoc(best, salt, lower, upper - 1);
        assert(last == step_best(prev, salt, (upper - 1) as nat));
        if lex_lt(candidate_digest(salt, (upper - 1) as nat), prev.1) {
            // the final candidate took over; whatever could not beat the
            // previous best cannot beat the smaller final one either
            lemma_lex_lt_asymmetric(last.1, prev.1);
            lemma_lex_le_transitive(last.1, prev.1, best.1);
            assert forall|i: int|
                lower <= i < upper implies !lex_lt(
                #[trigger] candidate_digest(salt, i as nat),
                last.1,
            ) by {
                if i < upper - 1 {
                    lemma_lex_le_transitive(last.1, prev.1, candidate_digest(salt, i as nat));
                } else {
                    lemma_lex_lt_irreflexive(last.1);
                }
            }
            assert(lower <= upper - 1 < upper && last == (
                candidate_seq(salt, (upper - 1) as nat),
                candidate_digest(salt, (upper - 1) as nat),
            ));
        } else {
            assert(last == prev);
            if prev != best {
                let w = choose|i: int|
                    lower <= i < upper - 1 && prev == (
                    candidate_seq(salt, i as nat),
                    #[trigger] candidate_digest(salt, i as nat),
                    );
                assert(lower <= w < upper && last == (
                    candidate_seq(salt, w as nat),
                    candidate_digest(salt, w as nat),
                ));
            }
        }
    }
}

/// Two runs over the same salt and the same partition return the same best:
/// the search loop is deterministic once the salt is fixed.
pub proof fn lemma_search_deterministic(
    first: (Seq<u8>, Seq<u8>),
    second: (Seq<u8>, Seq<u8>),
    salt: Seq<u8>,
    lower: int,
    upper: int,
)
    requires
        first == best_from(initial_best(), salt, lower, upper),
        second == best_from(initial_best(), salt, lower, upper),
    ensures
        first == second,
{
}

/// A progress snapshot: the running best a worker held when it reached a
/// checkpoint iteration.
pub struct Snapshot {
    /// The checkpoint iteration at which the snapshot was taken.
    pub iteration: usize,
    /// The input of the running best, before this iteration's candidate.
    pub input: Vec<u8>,
    /// The digest of the running best, before this iteration's candidate.
    pub digest: Vec<u8>,
}

/// `s` records the running best that a search from `lower` with this salt
/// holds when it reaches iteration `s.iteration`.
pub open spec fn snapshot_at(s: Snapshot, salt: Seq<u8>, lower: int) -> bool {
    (s.input@, s.digest@) == best_from(initial_best(), salt, lower, s.iteration as int)
}

/// How many iteration indices of `[lower, upper)` are checkpoints.
pub open spec fn hits_in_range(cps: Seq<usize>, lower: int, upper: int) -> nat
    decreases upper - lower,
{
    if lower >= upper {
        0
    } else {
        hits_in_range(cps, lower, upper - 1) + (if cps.contains((upper - 1) as usize) {
            1nat
        } else {
            0nat
        })
    }
}

proof fn lemma_hits_empty(lower: int, upper: int)
    ensures
        hits_in_range(Seq::<usize>::empty(), lower, upper) == 0,
    decreases upper - lower,
{
    if lower < upper {
        lemma_hits_empty(lower, upper - 1);
    }
}

/// Membership after a push is membership before, or equality with the new
/// element.
proof fn lemma_contains_push(cps: Seq<usize>, c: usize, p: usize)
    ensures
        cps.push(c).contains(p) <==> (cps.contains(p) || p == c),
{
    if cps.contains(p) {
        let w = choose|w: int| 0 <= w < cps.len() && cps[w] == p;
        assert(cps.push(c)[w] == p);
    }
    if p == c {
        assert(cps.push(c)[cps.len() as int] == p);
    }
    if cps.push(c).contains(p) {
        let w = choose|w: int| 0 <= w < cps.push(c).len() && cps.push(c)[w] == p;
        if w < cps.len() {
            assert(cps[w] == p);
        }
    }
}

/// A fresh checkpoint raises the count by one exactly when it lies in the
/// range.
proof fn lemma_hits_push(cps: Seq<usize>, c: usize, lower: int, upper: int)
    requires
        0 <= lower,
        upper - 1 <= usize::MAX,
        !cps.contains(c),
    ensures
        hits_in_range(cps.push(c), lower, upper) == hits_in_range(cps, lower, upper) + (
        if lower <= c < upper {
            1int
        } else {
            0int
        }),
    decreases upper - lower,
{
    if lower < upper {
        lemma_hits_push(cps, c, lower, upper - 1);
        lemma_contains_push(cps, c, (upper - 1) as usize);
    }
}

/// Distinct checkpoints that all lie inside the range are each counted
/// exactly once.
proof fn lemma_hits_all_in_range(cps: Seq<usize>, lower: int, upper: int)
    requires
        0 <= lower,
        upper - 1 <= usize::MAX,
        forall|j: int| 0 <= j < cps.len() ==> lower <= #[trigger] cps[j] < upper,
        forall|j: int, k: int| 0 <= j < k < cps.len() ==> cps[j] != cps[k],
    ensures
        hits_in_range(cps, lower, upper) == cps.len(),
    decreases cps.len(),
{
    if cps.len() == 0 {
        assert(cps =~= Seq::<usize>::empty());
        lemma_hits_empty(lower, upper);
    } else {
        let shorter = cps.drop_last();
        let c = cps.last();
        assert(cps =~= shorter.push(c));
        assert(!shorter.contains(c)) by {
            if shorter.contains(c) {
                let w = choose|w: int| 0 <= w < shorter.len() && shorter[w] == c;
                assert(cps[w] == c && cps[cps.len() - 1] == c);
            }
        }
        lemma_hits_all_in_range(shorter, lower, upper);
        lemma_hits_push(shorter, c, lower, upper);
    }
}

/// Does the vector hold `x`?
fn contains_index(v: &Vec<usize>, x: usize) -> (r: bool)
    ensures
        r == v@.contains(x),
{
    let mut j: usize = 0;
    while j < v.len()
        invariant
            j <= v@.len(),
            forall|k: int| 0 <= k < j ==> v@[k] != x,
        decreases v@.len() - j,
    {
        if v[j] == x {
            return true;
        }
        j += 1;
    }
    false
}

/// Search the partition `[lower, upper)` exhaustively with the given salt.
/// The returned pair is exactly the fold of `best_from` over the range, and
/// the snapshots record, for each checkpoint iteration of the range in
/// increasing order, the running best held when it was reached.
pub fn search_range(salt: &Vec<u8>, lower: usize, upper: usize, checkpoints: &Vec<usize>) -> (r: (
    HashPair,
    Vec<Snapshot>,
))
    requires
        lower <= upper,
        salt@.len() + 49 < 0x2000000000000000,
    ensures
        (r.0.input@, r.0.hash@) == best_from(initial_best(), salt@, lower as int, upper as int),
        r.1@.len() == hits_in_range(checkpoints@, lower as int, upper as int),
        forall|j: int|
            0 <= j < r.1@.len() ==> checkpoints@.contains(
                (#[trigger] r.1@[j]).iteration,
            ) && lower <= r.1@[j].iteration < upper && snapshot_at(r.1@[j], salt@, lower as int),
        forall|j: int, k: int|
            0 <= j < k < r.1@.len() ==> r.1@[j].iteration < r.1@[k].iteration,
        forall|c: usize|
            checkpoints@.contains(c) && lower <= c < upper ==> exists|j: int|
                0 <= j < r.1@.len() && (#[trigger] r.1@[j]).iteration == c,
{
    let mut best = HashPair::new(sentinel_bytes());
    let mut snaps: Vec<Snapshot> = Vec::new();
    let mut i = lower;
    while i < upper
        invariant
            lower <= i <= upper,
            salt@.len() + 49 < 0x2000000000000000,
            (best.input@, best.hash@) == best_from(
                initial_best(),
                salt@,
                lower as int,
                i as int,
            ),
            snaps@.len() == hits_in_range(checkpoints@, lower as int, i as int),
            forall|j: int|
                0 <= j < snaps@.len() ==> checkpoints@.contains(
                    (#[trigger] snaps@[j]).iteration,
                ) && lower <= snaps@[j].iteration < i && snapshot_at(snaps@[j], salt@, lower as int),
            forall|j: int, k: int|
                0 <= j < k < snaps@.len() ==> snaps@[j].iteration < snaps@[k].iteration,
            forall|c: usize|
                checkpoints@.contains(c) && lower <= c < i ==> exists|j: int|
                    0 <= j < snaps@.len() && (#[trigger] snaps@[j]).iteration == c,
        decreases upper - i,
    {
        let guess = build_candidate(salt, i as u64);
        proof {
            lemma_decimal_len_20((i as u64) as nat);
        }
        let hash = sha256(&guess);
        let ghost pre = snaps@;
        let hit = contains_index(checkpoints, i);
        if hit {
            let snap = Snapshot {
                iteration: i,
                input: copy_bytes(&best.input),
                digest: copy_bytes(&best.hash),
            };
            snaps.push(snap);
        }
        if digest_lt(&hash, &best.hash) {
            best.update(guess);
        }
        proof {
            lemma_best_from_snoc(initial_best(), salt@, lower as int, i as int);
            assert forall|c: usize|
                checkpoints@.contains(c) && lower <= c < i + 1 implies exists|j: int|
                0 <= j < snaps@.len() && (#[trigger] snaps@[j]).iteration == c by {
                if c < i {
                    let j = choose|j: int|
                        0 <= j < pre.len() && (#[trigger] pre[j]).iteration == c;
                    assert(snaps@[j].iteration == c);
                } else {
                    assert(snaps@[snaps@.len() - 1].iteration == c);
                }
            }
        }
        i += 1;
    }
    (best, snaps)
}

/// What one worker hands back: its salt, the checkpoints it sampled, its
/// final best, and the progress snapshots it took.
pub struct WorkerResult {
    /// The worker's random alphanumeric salt.
    pub salt: Vec<u8>,
    /// The sampled checkpoint iterations.
    pub checkpoints: Vec<usize>,
    /// The minimal candidate over the worker's partition.
    pub best: HashPair,
    /// One snapshot per checkpoint, in iteration order.
    pub snapshots: Vec<Snapshot>,
}

/// Run one worker over the partition `[lower, upper)`: draw a fresh salt of
/// `prefix_len` alphanumeric characters, sample `updates` checkpoints, and
/// search the whole partition. Whatever the generator draws, the best is the
/// `best_from` fold of the drawn salt over the partition.
pub fn run_worker(lower: usize, upper: usize, prefix_len: usize, updates: usize) -> (r:
    WorkerResult)
    requires
        lower <= upper,
        updates <= upper - lower,
        prefix_len + 49 < 0x2000000000000000,
    ensures
        r.salt@.len() == prefix_len,
        forall|j: int| 0 <= j < r.salt@.len() ==> is_alnum_byte(#[trigger] r.salt@[j]),
        r.checkpoints@.len() == updates,
        forall|j: int|
            0 <= j < r.checkpoints@.len() ==> lower <= #[trigger] r.checkpoints@[j] < upper,
        forall|j: int, k: int|
            0 <= j < k < r.checkpoints@.len() ==> r.checkpoints@[j] != r.checkpoints@[k],
        (r.best.input@, r.best.hash@) == best_from(
            initial_best(),
            r.salt@,
            lower as int,
            upper as int,
        ),
        forall|j: int|
            0 <= j < r.snapshots@.len() ==> r.checkpoints@.contains(
                (#[trigger] r.snapshots@[j]).iteration,
            ) && lower <= r.snapshots@[j].iteration < upper && snapshot_at(
                r.snapshots@[j],
                r.salt@,
                lower as int,
            ),
        forall|j: int, k: int|
            0 <= j < k < r.snapshots@.len() ==> r.snapshots@[j].iteration
                < r.snapshots@[k].iteration,
        forall|c: usize|
            r.checkpoints@.contains(c) && lower <= c < upper ==> exists|j: int|
                0 <= j < r.snapshots@.len() && (#[trigger] r.snapshots@[j]).iteration == c,
        r.snapshots@.len() == updates,
{
    let mut rng = new_rng();
    let salt = sample_salt(&mut rng, prefix_len);
    let checkpoints = worker_checkpoints(&mut rng, lower, upper - lower, updates);
    let (best, snapshots) = search_range(&salt, lower, upper, &checkpoints);
    proof {
        lemma_hits_all_in_range(checkpoints@, lower as int, upper as int);
    }
    let r = WorkerResult { salt, checkpoints, best, snapshots };
    proof {
        assert forall|c: usize|
            r.checkpoints@.contains(c) && lower <= c < upper implies exists|j: int|
            0 <= j < r.snapshots@.len() && (#[trigger] r.snapshots@[j]).iteration == c by {
            let j = choose|j: int|
                0 <= j < r.snapshots@.len() && (#[trigger] r.snapshots@[j]).iteration == c;
            assert(0 <= j < r.snapshots@.len() && r.snapshots@[j].iteration == c);
        }
    }
    r
}

} // verus!
