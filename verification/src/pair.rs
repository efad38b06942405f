//! A candidate input paired with its SHA-256 digest, the value a worker keeps
//! and replaces only by a strictly smaller one.

use vstd::prelude::*;
use crate::sha::{sha256, sha256_of};

verus! {

/// An input and its 32-byte SHA-256 digest.
#[derive(Debug)]
pub struct HashPair {
    /// The input the digest was computed from.
    pub input: Vec<u8>,
    /// The SHA-256 digest of `input`.
    pub hash: Vec<u8>,
}

impl View for HashPair {
    type V = (Seq<u8>, Seq<u8>);

    open spec fn view(&self) -> (Seq<u8>, Seq<u8>) {
        (self.input@, self.hash@)
    }
}

impl HashPair {
    /// Pair an input with its freshly computed digest.
    pub fn new(input: Vec<u8>) -> (r: HashPair)
        requires
            input@.len() < 0x2000000000000000,
        ensures
            r.input@ == input@,
            r.hash@ == sha256_of(input@),
            r.hash@.len() == 32,
    {
        let hash = sha256(&input);
        HashPair { input, hash }
    }

    /// Replace the held input, recomputing the digest.
    pub fn update(&mut self, input: Vec<u8>)
        requires
            input@.len() < 0x2000000000000000,
        ensures
            final(self).input@ == input@,
            final(self).hash@ == sha256_of(input@),
            final(self).hash@.len() == 32,
    {
        self.hash = sha256(&input);
        self.input = input;
    }
}

/// Copy a byte vector.
pub fn copy_bytes(v: &Vec<u8>) -> (r: Vec<u8>)
    ensures
        r@ == v@,
{
    let mut r: Vec<u8> = Vec::new();
    let mut j: usize = 0;
    while j < v.len()
        invariant
            0 <= j <= v@.len(),
            r@ == v@.subrange(0, j as int),
        decreases v@.len() - j,
    {
        r.push(v[j]);
        j += 1;
        proof {
            assert(r@ =~= v@.subrange(0, j as int));
        }
    }
    proof {
        assert(v@.subrange(0, v@.len() as int) =~= v@);
    }
    r
}

} // verus!
