//! Construction of candidate inputs: a fixed namespace, a worker's salt and
//! the iteration index, joined with `/` separators and the index written in
//! decimal.

use vstd::prelude::*;
use vstd::arithmetic::div_mod::lemma_fundamental_div_mod;
use crate::partition::pow10;

verus! {

/// The decimal digits of `n`, most significant first, with no leading zeros
/// (a single `0` for zero itself).
pub open spec fn decimal_seq(n: nat) -> Seq<u8>
    decreases n,
{
    if n < 10 {
        seq![(48 + n) as u8]
    } else {
        decimal_seq(n / 10) + seq![(48 + n % 10) as u8]
    }
}

/// A number below `10^d` takes at most `d` decimal digits.
pub proof fn lemma_decimal_len_bound(n: nat, d: nat)
    requires
        d >= 1,
        n < pow10(d),
    ensures
        decimal_seq(n).len() <= d,
    decreases d,
{
    if n >= 10 {
        assert(pow10(1) == 10 * pow10(0));
        assert(d >= 2);
        assert(pow10(d) == 10 * pow10((d - 1) as nat));
        lemma_fundamental_div_mod(n as int, 10);
        assert(n / 10 < pow10((d - 1) as nat)) by (nonlinear_arith)
            requires
                n as int == 10 * (n as int / 10) + n as int % 10,
                0 <= n as int % 10,
                n < 10 * pow10((d - 1) as nat),
        ;
        lemma_decimal_len_bound(n / 10, (d - 1) as nat);
    }
}

/// Any 64-bit index takes at most 20 decimal digits.
pub proof fn lemma_decimal_len_20(n: nat)
    requires
        n < 0x10000000000000000,
    ensures
        decimal_seq(n).len() <= 20,
{
    assert(pow10(20) == 0x56bc75e2d63100000) by {
        reveal_with_fuel(pow10, 21);
    }
    lemma_decimal_len_bound(n, 20);
}

/// Append the decimal digits of `n` to `out`.
pub fn push_decimal(out: &mut Vec<u8>, n: u64)
    ensures
        final(out)@ == old(out)@ + decimal_seq(n as nat),
    decreases n,
{
    if n >= 10 {
        push_decimal(out, n / 10);
    }
    out.push(48 + (n % 10) as u8);
    proof {
        assert(out@ =~= old(out)@ + decimal_seq(n as nat));
    }
}

/// Append a copy of `src` to `out`.
pub fn push_bytes(out: &mut Vec<u8>, src: &Vec<u8>)
    ensures
        final(out)@ == old(out)@ + src@,
{
    let mut j: usize = 0;
    proof {
        assert(out@ =~= old(out)@ + src@.subrange(0, 0));
    }
    while j < src.len()
        invariant
            0 <= j <= src@.len(),
            out@ == old(out)@ + src@.subrange(0, j as int),
        decreases src@.len() - j,
    {
        out.push(src[j]);
        j += 1;
        proof {
            assert(out@ =~= old(out)@ + src@.subrange(0, j as int));
        }
    }
    proof {
        assert(src@.subrange(0, src@.len() as int) =~= src@);
    }
}

/// The fixed namespace every candidate starts with:
/// `taxborn/www+taxborn+com+sha/`.
pub open spec fn namespace_seq() -> Seq<u8> {
    seq![
        116, 97, 120, 98, 111, 114, 110, 47,
        119, 119, 119, 43, 116, 97, 120, 98, 111, 114, 110, 43,
        99, 111, 109, 43, 115, 104, 97, 47,
    ]
}

/// Build the namespace as a byte vector.
pub fn namespace_bytes() -> (r: Vec<u8>)
    ensures
        r@ == namespace_seq(),
{
    let mut v: Vec<u8> = Vec::new();
    v.push(116);
    v.push(97);
    v.push(120);
    v.push(98);
    v.push(111);
    v.push(114);
    v.push(110);
    v.push(47);
    v.push(119);
    v.push(119);
    v.push(119);
    v.push(43);
    v.push(116);
    v.push(97);
    v.push(120);
    v.push(98);
    v.push(111);
    v.push(114);
    v.push(110);
    v.push(43);
    v.push(99);
    v.push(111);
    v.push(109);
    v.push(43);
    v.push(115);
    v.push(104);
    v.push(97);
    v.push(47);
    proof {
        assert(v@ =~= namespace_seq());
    }
    v
}

/// The candidate input a worker hashes at iteration `i`:
/// namespace, salt, `/`, then `i` in decimal.
pub open spec fn candidate_seq(salt: Seq<u8>, i: nat) -> Seq<u8> {
    namespace_seq() + salt + seq![47] + decimal_seq(i)
}

/// Build the candidate input for a salt and an iteration index.
pub fn build_candidate(salt: &Vec<u8>, i: u64) -> (r: Vec<u8>)
    ensures
        r@ == candidate_seq(salt@, i as nat),
{
    let mut v = namespace_bytes();
    push_bytes(&mut v, salt);
    v.push(47);
    push_decimal(&mut v, i);
    proof {
        assert(v@ =~= candidate_seq(salt@, i as nat));
    }
    v
}

} // verus!
