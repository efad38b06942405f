//! The reducer: the per-worker minima come back from the join barrier, and
//! the one with the smallest digest under byte-wise order wins. On a tie the
//! earliest worker's result is kept.

use vstd::prelude::*;
use crate::order::{
    digest_lt, lemma_lex_le_transitive, lemma_lex_lt_asymmetric, lemma_lex_lt_irreflexive, lex_lt,
};
use crate::pair::{copy_bytes, HashPair};
use crate::partition::Partition;
use crate::search::{best_from, candidate_digest, initial_best, lemma_best_from_minimal};

verus! {

/// Rejected reductions.
#[derive(Clone, Copy, PartialEq, Eq, Structural, Debug)]
pub enum ReduceError {
    /// There must be at least one worker result to choose from.
    NoResults,
}

/// Fold a running winner over the remaining results: a later result takes
/// over exactly when its digest is strictly smaller.
pub open spec fn select_min(acc: (Seq<u8>, Seq<u8>), rest: Seq<(Seq<u8>, Seq<u8>)>) -> (
    Seq<u8>,
    Seq<u8>,
)
    decreases rest.len(),
{
    if rest.len() == 0 {
        acc
    } else {
        select_min(
            if lex_lt(rest[0].1, acc.1) {
                rest[0]
            } else {
                acc
            },
            rest.drop_first(),
        )
    }
}

/// The reducer's choice among a non-empty sequence of worker results: the
/// first result with the smallest digest.
pub open spec fn reduce_model(rs: Seq<(Seq<u8>, Seq<u8>)>) -> (Seq<u8>, Seq<u8>)
    recommends
        rs.len() > 0,
{
    select_min(rs[0], rs.drop_first())
}

/// The models of a sequence of pairs.
pub open spec fn pair_models(rs: Seq<HashPair>) -> Seq<(Seq<u8>, Seq<u8>)> {
    rs.map_values(|p: HashPair| p@)
}

/// Folding one more result on the right is one comparison.
proof fn lemma_select_min_snoc(
    acc: (Seq<u8>, Seq<u8>),
    rest: Seq<(Seq<u8>, Seq<u8>)>,
    x: (Seq<u8>, Seq<u8>),
)
    ensures
        select_min(acc, rest.push(x)) == (if lex_lt(x.1, select_min(acc, rest).1) {
            x
        } else {
            select_min(acc, rest)
        }),
    decreases rest.len(),
{
    if rest.len() == 0 {
        let first = if lex_lt(x.1, acc.1) {
            x
        } else {
            acc
        };
        assert(rest.push(x)[0] == x);
        assert(rest.push(x).drop_first() =~= rest);
        assert(select_min(acc, rest.push(x)) == select_min(first, rest));
        assert(select_min(first, rest) == first);
    } else {
        let acc2 = if lex_lt(rest[0].1, acc.1) {
            rest[0]
        } else {
            acc
        };
        assert(rest.push(x)[0] == rest[0]);
        assert(rest.push(x).drop_first() =~= rest.drop_first().push(x));
        assert(select_min(acc, rest.push(x)) == select_min(acc2, rest.drop_first().push(x)));
        lemma_select_min_snoc(acc2, rest.drop_first(), x);
    }
}

/// The folded winner is never beaten: not by the starting result and not by
/// any of the rest; and it is one of them.
proof fn lemma_select_min_minimal(acc: (Seq<u8>, Seq<u8>), rest: Seq<(Seq<u8>, Seq<u8>)>)
    ensures
        !lex_lt(acc.1, select_min(acc, rest).1),
        forall|k: int|
            0 <= k < rest.len() ==> !lex_lt((#[trigger] rest[k]).1, select_min(acc, rest).1),
        select_min(acc, rest) == acc || exists|k: int|
            0 <= k < rest.len() && select_min(acc, rest) == #[trigger] rest[k],
    decreases rest.len(),
{
    let sm = select_min(acc, rest);
    if rest.len() == 0 {
        lemma_lex_lt_irreflexive(acc.1);
    } else {
        let acc2 = if lex_lt(rest[0].1, acc.1) {
            rest[0]
        } else {
            acc
        };
        lemma_select_min_minimal(acc2, rest.drop_first());
        assert(sm == select_min(acc2, rest.drop_first()));
        if lex_lt(rest[0].1, acc.1) {
            lemma_lex_lt_asymmetric(rest[0].1, acc.1);
            lemma_lex_le_transitive(sm.1, rest[0].1, acc.1);
        } else {
            lemma_lex_le_transitive(sm.1, acc.1, rest[0].1);
        }
        assert forall|k: int| 0 <= k < rest.len() implies !lex_lt(
            (#[trigger] rest[k]).1,
            sm.1,
        ) by {
            if k > 0 {
                assert(rest[k] == rest.drop_first()[k - 1]);
            }
        }
        if sm != acc && sm != rest[0] {
            if sm != acc2 {
                let j = choose|j: int|
                    0 <= j < rest.drop_first().len() && sm == #[trigger] rest.drop_first()[j];
                assert(sm == rest[j + 1]);
            }
        }
    }
}

/// The reducer's choice is never beaten by any worker result, and is one of
/// them.
pub proof fn lemma_reduce_model_minimal(rs: Seq<(Seq<u8>, Seq<u8>)>)
    requires
        rs.len() > 0,
    ensures
        forall|k: int| 0 <= k < rs.len() ==> !lex_lt((#[trigger] rs[k]).1, reduce_model(rs).1),
        exists|k: int| 0 <= k < rs.len() && reduce_model(rs) == #[trigger] rs[k],
{
    lemma_select_min_minimal(rs[0], rs.drop_first());
    let rm = reduce_model(rs);
    assert forall|k: int| 0 <= k < rs.len() implies !lex_lt((#[trigger] rs[k]).1, rm.1) by {
        if k > 0 {
            assert(rs[k] == rs.drop_first()[k - 1]);
        }
    }
    if rm != rs[0] {
        let j = choose|j: int|
            0 <= j < rs.drop_first().len() && rm == #[trigger] rs.drop_first()[j];
        assert(rm == rs[j + 1]);
    }
}

/// The reduced result of a full run is the true minimum of the whole search:
/// its digest is no larger than the digest of any candidate any worker
/// hashed, over every partition, nor than the sentinel digest any worker
/// started from.
pub proof fn lemma_run_global_minimum(
    results: Seq<(Seq<u8>, Seq<u8>)>,
    salts: Seq<Seq<u8>>,
    ps: Seq<Partition>,
    g: (Seq<u8>, Seq<u8>),
)
    requires
        results.len() == ps.len(),
        salts.len() == ps.len(),
        ps.len() > 0,
        forall|j: int| 0 <= j < ps.len() ==> (#[trigger] ps[j]).lower <= ps[j].upper,
        forall|j: int|
            0 <= j < ps.len() ==> #[trigger] results[j] == best_from(
                initial_best(),
                salts[j],
                ps[j].lower as int,
                ps[j].upper as int,
            ),
        g == reduce_model(results),
    ensures
        !lex_lt(initial_best().1, g.1),
        forall|j: int, i: int|
            0 <= j < ps.len() && ps[j].lower <= i < ps[j].upper ==> !lex_lt(
                #[trigger] candidate_digest(salts[j], i as nat),
                g.1,
            ),
{
    lemma_reduce_model_minimal(results);
    lemma_best_from_minimal(initial_best(), salts[0], ps[0].lower as int, ps[0].upper as int);
    lemma_lex_le_transitive(g.1, results[0].1, initial_best().1);
    assert forall|j: int, i: int|
        0 <= j < ps.len() && ps[j].lower <= i < ps[j].upper implies !lex_lt(
        #[trigger] candidate_digest(salts[j], i as nat),
        g.1,
    ) by {
        lemma_best_from_minimal(initial_best(), salts[j], ps[j].lower as int, ps[j].upper as int);
        lemma_lex_le_transitive(g.1, results[j].1, candidate_digest(salts[j], i as nat));
    }
}

/// Select the globally minimal worker result. An empty set of results is
/// rejected; otherwise the returned pair is the first one whose digest is
/// no larger than any other, exactly `reduce_model` of the inputs.
pub fn reduce(results: &Vec<HashPair>) -> (r: Result<HashPair, ReduceError>)
    ensures
        r is Err <==> results@.len() == 0,
        r matches Err(e) ==> e == ReduceError::NoResults,
        r matches Ok(best) ==> best@ == reduce_model(pair_models(results@)),
        r matches Ok(best) ==> forall|k: int|
            0 <= k < results@.len() ==> !lex_lt((#[trigger] results@[k])@.1, best@.1),
        r matches Ok(best) ==> exists|k: int|
            0 <= k < results@.len() && (#[trigger] results@[k])@ == best@,
{
    if results.len() == 0 {
        return Err(ReduceError::NoResults);
    }
    let mut winner: usize = 0;
    let mut i: usize = 1;
    proof {
        assert(pair_models(results@).drop_first().subrange(0, 0) =~= Seq::<
            (Seq<u8>, Seq<u8>),
        >::empty());
        crate::order::lemma_lex_lt_irreflexive(results@[0]@.1);
    }
    while i < results.len()
        invariant
            1 <= i <= results@.len(),
            0 <= winner < i,
            results@[winner as int]@ == select_min(
                pair_models(results@)[0],
                pair_models(results@).drop_first().subrange(0, i - 1),
            ),
            forall|k: int|
                0 <= k < i ==> !lex_lt(
                    (#[trigger] results@[k])@.1,
                    results@[winner as int]@.1,
                ),
        decreases results@.len() - i,
    {
        let ghost models = pair_models(results@);
        let ghost prev = models.drop_first().subrange(0, i - 1);
        let ghost old_winner = winner;
        if digest_lt(&results[i].hash, &results[winner].hash) {
            winner = i;
        }
        proof {
            lemma_select_min_snoc(models[0], prev, models[i as int]);
            assert(models.drop_first().subrange(0, i as int) =~= prev.push(models[i as int]));
            assert forall|k: int|
                0 <= k < i + 1 implies !lex_lt(
                (#[trigger] results@[k])@.1,
                results@[winner as int]@.1,
            ) by {
                if winner == old_winner {
                    if k == i {
                    } else {
                        assert(!lex_lt(results@[k]@.1, results@[old_winner as int]@.1));
                    }
                } else {
                    // the new winner is strictly smaller than the old one
                    lemma_lex_lt_asymmetric(
                        results@[i as int]@.1,
                        results@[old_winner as int]@.1,
                    );
                    if k < i {
                        lemma_lex_le_transitive(
                            results@[i as int]@.1,
                            results@[old_winner as int]@.1,
                            results@[k]@.1,
                        );
                    } else {
                        lemma_lex_lt_asymmetric(results@[k]@.1, results@[k]@.1);
                    }
                }
            }
        }
        i += 1;
    }
    proof {
        let models = pair_models(results@);
        assert(models.drop_first().subrange(0, results@.len() - 1) =~= models.drop_first());
    }
    let best = HashPair {
        input: copy_bytes(&results[winner].input),
        hash: copy_bytes(&results[winner].hash),
    };
    assert(results@[winner as int]@ == best@);
    Ok(best)
}

} // verus!
