use vstd::prelude::*;
use libipld::multihash::MultihashDigest;

verus! {

use crate::HashOutput;

/// The initial state of the byte fold.
pub const HASH_SEED: u64 = 0x9E3779B97F4A7C15;

pub const MIX_MUL_1: u64 = 0xBF58476D1CE4E5B9;

pub const MIX_MUL_2: u64 = 0x94D049BB133111EB;

/// One 64-bit mixing round: xor-shifts interleaved with wrapping
/// multiplications, so that every input bit influences every output bit.
pub open spec fn mix64_spec(z: u64) -> u64 {
    let a = z ^ (z >> 30);
    let b = vstd::wrapping::u64_specs::wrapping_mul(a, MIX_MUL_1);
    let c = b ^ (b >> 27);
    let d = vstd::wrapping::u64_specs::wrapping_mul(c, MIX_MUL_2);
    d ^ (d >> 31)
}

pub fn mix64(z: u64) -> (r: u64)
    ensures
        r == mix64_spec(z),
{
    let a = z ^ (z >> 30);
    let b = a.wrapping_mul(MIX_MUL_1);
    let c = b ^ (b >> 27);
    let d = c.wrapping_mul(MIX_MUL_2);
    d ^ (d >> 31)
}

/// Folding a byte sequence into a 64-bit state, one byte per round,
/// starting from `st0`.
pub open spec fn fold_from(st0: u64, s: Seq<u8>) -> u64
    decreases s.len(),
{
    if s.len() == 0 {
        st0
    } else {
        mix64_spec(fold_from(st0, s.drop_last()) ^ (s.last() as u64) ^ 0xA5)
    }
}

/// The 64-bit hash of a byte sequence.
pub open spec fn hash64_spec(s: Seq<u8>) -> u64 {
    fold_from(HASH_SEED, s)
}

/// Continues a fold over the bytes of `data`.
pub fn fold_bytes(st0: u64, data: &[u8]) -> (r: u64)
    ensures
        r == fold_from(st0, data@),
{
    let mut st: u64 = st0;
    let mut i: usize = 0;
    while i < data.len()
        invariant
            0 <= i <= data@.len(),
            st == fold_from(st0, data@.take(i as int)),
        decreases data@.len() - i,
    {
        proof {
            assert(data@.take(i + 1).drop_last() =~= data@.take(i as int));
            assert(data@.take(i + 1).last() == data@[i as int]);
        }
        st = mix64(st ^ (data[i] as u64) ^ 0xA5);
        i = i + 1;
    }
    proof {
        assert(data@.take(data@.len() as int) =~= data@);
    }
    st
}

pub fn hash64(data: &[u8]) -> (r: u64)
    ensures
        r == hash64_spec(data@),
{
    fold_bytes(HASH_SEED, data)
}

/// The SHA3-256 digest of a byte sequence.
pub uninterp spec fn sha3_of(bytes: Seq<u8>) -> Seq<u8>;

/// Relies on multihash's Code::Sha3_256.digest: the 32-byte SHA3-256
/// digest of the input, a deterministic function of the bytes alone.
#[verifier::external_body]
pub fn sha3(data: &[u8]) -> (h: HashOutput)
    ensures
        h@ == sha3_of(data@),
{
    let mh = libipld::multihash::Code::Sha3_256.digest(data);
    let mut h = [0u8; 32];
    h.copy_from_slice(&mh.digest()[..32]);
    h
}

} // verus!
