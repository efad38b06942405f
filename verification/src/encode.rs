//! Text encodings around a run's result: lowercase hex for digests, the
//! persistent log line, and the leading-zero count of a hex digest.

use vstd::prelude::*;
use crate::pair::HashPair;

verus! {

/// The lowercase hex character of a value below 16.
pub open spec fn hex_digit(d: nat) -> u8 {
    if d < 10 {
        (48 + d) as u8
    } else {
        (87 + d) as u8
    }
}

/// The lowercase hex encoding of a byte sequence, two characters per byte,
/// high nibble first.
pub open spec fn hex_seq(s: Seq<u8>) -> Seq<u8>
    decreases s.len(),
{
    if s.len() == 0 {
        Seq::empty()
    } else {
        seq![hex_digit((s[0] / 16) as nat), hex_digit((s[0] % 16) as nat)] + hex_seq(
            s.drop_first(),
        )
    }
}

/// Encode a byte vector as lowercase hex.
pub fn hex_encode(s: &Vec<u8>) -> (r: Vec<u8>)
    requires
        2 * s@.len() <= usize::MAX,
    ensures
        r@ == hex_seq(s@),
{
    let mut r: Vec<u8> = Vec::new();
    let mut i: usize = 0;
    proof {
        assert(s@.skip(0) =~= s@);
    }
    while i < s.len()
        invariant
            i <= s@.len(),
            2 * s@.len() <= usize::MAX,
            r@.len() == 2 * i,
            hex_seq(s@) == r@ + hex_seq(s@.skip(i as int)),
        decreases s@.len() - i,
    {
        let b = s[i];
        let hi = b / 16;
        let lo = b % 16;
        r.push(if hi < 10 { 48 + hi } else { 87 + hi });
        r.push(if lo < 10 { 48 + lo } else { 87 + lo });
        proof {
            assert(s@.skip(i as int).drop_first() =~= s@.skip(i + 1));
            assert(hex_seq(s@) =~= r@ + hex_seq(s@.skip(i + 1)));
        }
        i += 1;
    }
    proof {
        assert(s@.skip(s@.len() as int) =~= Seq::<u8>::empty());
        assert(r@ =~= hex_seq(s@));
    }
    r
}

/// The label the log line carries in front of the hex digest, `SHA256:`,
/// matching how the digest type renders itself.
pub open spec fn digest_label() -> Seq<u8> {
    seq![83, 72, 65, 50, 53, 54, 58]
}

/// The one line appended to the persistent log for a finished run: the
/// labelled hex digest, a colon, and the winning input.
pub open spec fn log_line_seq(input: Seq<u8>, digest: Seq<u8>) -> Seq<u8> {
    digest_label() + hex_seq(digest) + seq![58u8] + input
}

/// Format the log line for a run's winning result.
pub fn format_log_line(best: &HashPair) -> (r: Vec<u8>)
    requires
        best.hash@.len() <= 32,
        best.input@.len() <= usize::MAX - 72,
    ensures
        r@ == log_line_seq(best.input@, best.hash@),
{
    let mut r: Vec<u8> = Vec::new();
    r.push(83);
    r.push(72);
    r.push(65);
    r.push(50);
    r.push(53);
    r.push(54);
    r.push(58);
    proof {
        assert(r@ =~= digest_label());
    }
    let hex = hex_encode(&best.hash);
    crate::candidate::push_bytes(&mut r, &hex);
    r.push(58);
    crate::candidate::push_bytes(&mut r, &best.input);
    proof {
        assert(r@ =~= log_line_seq(best.input@, best.hash@));
    }
    r
}

/// How many leading `0` characters a sequence starts with.
pub open spec fn leading_zeros(s: Seq<u8>) -> nat
    decreases s.len(),
{
    if s.len() == 0 || s[0] != 48 {
        0
    } else {
        (1 + leading_zeros(s.drop_first())) as nat
    }
}

/// Count the leading `0` characters of a hex digest.
pub fn count_leading_zeros(s: &Vec<u8>) -> (r: usize)
    ensures
        r == leading_zeros(s@),
{
    let mut i: usize = 0;
    proof {
        assert(s@.skip(0) =~= s@);
    }
    while i < s.len() && s[i] == 48
        invariant
            i <= s@.len(),
            leading_zeros(s@) == i + leading_zeros(s@.skip(i as int)),
            forall|k: int| 0 <= k < i ==> s@[k] == 48,
        decreases s@.len() - i,
    {
        proof {
            assert(s@.skip(i as int).drop_first() =~= s@.skip(i + 1));
        }
        i += 1;
    }
    proof {
        assert(leading_zeros(s@.skip(i as int)) == 0);
    }
    i
}

} // verus!
