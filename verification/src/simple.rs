//! The single-threaded variant: candidates are `prefix/index`, digests are
//! lowercase hex strings, and the smallest digest string wins. Hex strings
//! compare character-wise, which for equal-length hex is the same order as
//! the raw digest bytes.

use vstd::prelude::*;
use crate::candidate::{decimal_seq, lemma_decimal_len_20, push_bytes, push_decimal};
use crate::order::{digest_lt, lex_lt};
use crate::sha::{sha256_hex, sha256_hex_of};

verus! {

/// The candidate of the single-threaded variant: prefix, `/`, the index in
/// decimal.
pub open spec fn simple_candidate_seq(prefix: Seq<u8>, i: nat) -> Seq<u8> {
    prefix + seq![47u8] + decimal_seq(i)
}

/// Build the candidate for a prefix and an index.
pub fn build_simple_candidate(prefix: &Vec<u8>, i: u64) -> (r: Vec<u8>)
    requires
        prefix@.len() + 21 <= usize::MAX,
    ensures
        r@ == simple_candidate_seq(prefix@, i as nat),
{
    let mut v: Vec<u8> = Vec::new();
    push_bytes(&mut v, prefix);
    v.push(47);
    push_decimal(&mut v, i);
    proof {
        lemma_decimal_len_20(i as nat);
        assert(v@ =~= simple_candidate_seq(prefix@, i as nat));
    }
    v
}

/// The hex digest the variant scores the candidate at `i` with.
pub open spec fn simple_digest(prefix: Seq<u8>, i: nat) -> Seq<u8> {
    sha256_hex_of(simple_candidate_seq(prefix, i))
}

/// The smallest hex digest after scanning `[lower, upper)`, starting from a
/// running best.
pub open spec fn simple_best_from(best: Seq<u8>, prefix: Seq<u8>, lower: int, upper: int) -> Seq<
    u8,
>
    decreases upper - lower,
{
    if lower >= upper {
        best
    } else {
        simple_best_from(
            if lex_lt(simple_digest(prefix, lower as nat), best) {
                simple_digest(prefix, lower as nat)
            } else {
                best
            },
            prefix,
            lower + 1,
            upper,
        )
    }
}

/// Scanning one more index on the right is one more comparison.
proof fn lemma_simple_snoc(best: Seq<u8>, prefix: Seq<u8>, lower: int, upper: int)
    requires
        0 <= lower <= upper,
    ensures
        simple_best_from(best, prefix, lower, upper + 1) == (if lex_lt(
            simple_digest(prefix, upper as nat),
            simple_best_from(best, prefix, lower, upper),
        ) {
            simple_digest(prefix, upper as nat)
        } else {
            simple_best_from(best, prefix, lower, upper)
        }),
    decreases upper - lower,
{
    if lower < upper {
        let stepped = if lex_lt(simple_digest(prefix, lower as nat), best) {
            simple_digest(prefix, lower as nat)
        } else {
            best
        };
        lemma_simple_snoc(stepped, prefix, lower + 1, upper);
    } else {
        let stepped = if lex_lt(simple_digest(prefix, lower as nat), best) {
            simple_digest(prefix, lower as nat)
        } else {
            best
        };
        assert(simple_best_from(best, prefix, lower, upper + 1) == simple_best_from(
            stepped,
            prefix,
            lower + 1,
            upper + 1,
        ));
        assert(simple_best_from(stepped, prefix, lower + 1, upper + 1) == stepped);
    }
}

/// Scan `iters` candidates built from `prefix` for the smallest hex digest,
/// starting from the digest of the seed candidate `username/0`. The result
/// is a function of the two strings and the count alone.
pub fn simple_search(username: &Vec<u8>, prefix: &Vec<u8>, iters: usize) -> (r: Vec<u8>)
    requires
        username@.len() + 21 <= usize::MAX,
        prefix@.len() + 21 <= usize::MAX,
    ensures
        r@ == simple_best_from(
            sha256_hex_of(simple_candidate_seq(username@, 0)),
            prefix@,
            0,
            iters as int,
        ),
{
    let seed = build_simple_candidate(username, 0);
    let mut best = sha256_hex(&seed);
    let mut i: usize = 0;
    while i < iters
        invariant
            i <= iters,
            prefix@.len() + 21 <= usize::MAX,
            best@ == simple_best_from(
                sha256_hex_of(simple_candidate_seq(username@, 0)),
                prefix@,
                0,
                i as int,
            ),
        decreases iters - i,
    {
        let input = build_simple_candidate(prefix, i as u64);
        let h = sha256_hex(&input);
        if digest_lt(&h, &best) {
            best = h;
        }
        proof {
            lemma_simple_snoc(
                sha256_hex_of(simple_candidate_seq(username@, 0)),
                prefix@,
                0,
                i as int,
            );
        }
        i += 1;
    }
    best
}

} // verus!
