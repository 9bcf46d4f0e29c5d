use vstd::prelude::*;

verus! {

use crate::error::FsError;
use crate::blockstore::clone_bytes;

/// The symmetric encryption capability: cipher-agnostic from this layer's
/// perspective, with a stated decrypt-of-encrypt identity.
pub trait Key: Sized {
    /// The ciphertext this key produces for a plaintext.
    spec fn enc_spec(&self, data: Seq<u8>) -> Seq<u8>;

    /// The plaintext this key recovers from a ciphertext.
    spec fn dec_spec(&self, data: Seq<u8>) -> Seq<u8>;

    /// Decrypting an encryption yields the plaintext back.
    proof fn enc_dec_identity(&self, data: Seq<u8>)
        ensures
            self.dec_spec(self.enc_spec(data)) == data,
    ;

    /// Encrypts `data`.
    fn encrypt(&self, data: &Vec<u8>) -> (r: Result<Vec<u8>, FsError>)
        ensures
            r matches Ok(c) ==> c@ == self.enc_spec(data@),
    ;

    /// Decrypts `data`.
    fn decrypt(&self, data: &Vec<u8>) -> (r: Result<Vec<u8>, FsError>)
        ensures
            r matches Ok(p) ==> p@ == self.dec_spec(data@),
    ;
}

/// A content key: symmetric key material for one node revision.  The
/// cipher here is a repeating-key stream cipher over the key bytes; a
/// deployment substitutes its own `Key` implementation.
pub struct ContentKey {
    pub key: Vec<u8>,
}

/// One byte of keystream application.
pub open spec fn xor_at(key: Seq<u8>, data: Seq<u8>, i: int) -> u8 {
    if key.len() == 0 {
        data[i]
    } else {
        data[i] ^ key[i % key.len() as int]
    }
}

/// The keystream transform: an involution, so encryption and decryption
/// coincide.
pub open spec fn xor_spec(key: Seq<u8>, data: Seq<u8>) -> Seq<u8> {
    Seq::new(data.len(), |i: int| xor_at(key, data, i))
}

proof fn lemma_xor_involution(key: Seq<u8>, data: Seq<u8>)
    ensures
        xor_spec(key, xor_spec(key, data)) == data,
{
    assert(forall|a: u8, b: u8| (a ^ b) ^ b == a) by (bit_vector);
    assert(xor_spec(key, xor_spec(key, data)) =~= data);
}

pub(crate) fn xor_transform(key: &Vec<u8>, data: &Vec<u8>) -> (r: Vec<u8>)
    ensures
        r@ == xor_spec(key@, data@),
{
    if key.len() == 0 {
        let out = clone_bytes(data);
        proof {
            assert(out@ =~= xor_spec(key@, data@));
        }
        return out;
    }
    let mut out: Vec<u8> = Vec::new();
    let mut i: usize = 0;
    while i < data.len()
        invariant
            0 <= i <= data@.len(),
            key@.len() > 0,
            out@.len() == i,
            forall|k: int| 0 <= k < i ==> out@[k] == xor_at(key@, data@, k),
        decreases data@.len() - i,
    {
        out.push(data[i] ^ key[i % key.len()]);
        i = i + 1;
    }
    proof {
        assert(out@ =~= xor_spec(key@, data@));
    }
    out
}

impl ContentKey {
    /// A key over the given key bytes.
    pub fn new(key: Vec<u8>) -> (r: ContentKey)
        ensures
            r.key == key,
    {
        ContentKey { key }
    }
}

impl Clone for ContentKey {
    /// A copy holding the same key bytes.
    fn clone(&self) -> (r: Self)
        ensures
            r.key@ == self.key@,
    {
        ContentKey { key: clone_bytes(&self.key) }
    }
}

impl Key for ContentKey {
    open spec fn enc_spec(&self, data: Seq<u8>) -> Seq<u8> {
        xor_spec(self.key@, data)
    }

    open spec fn dec_spec(&self, data: Seq<u8>) -> Seq<u8> {
        xor_spec(self.key@, data)
    }

    proof fn enc_dec_identity(&self, data: Seq<u8>) {
        lemma_xor_involution(self.key@, data);
    }

    fn encrypt(&self, data: &Vec<u8>) -> (r: Result<Vec<u8>, FsError>) {
        Ok(xor_transform(&self.key, data))
    }

    fn decrypt(&self, data: &Vec<u8>) -> (r: Result<Vec<u8>, FsError>) {
        Ok(xor_transform(&self.key, data))
    }
}

} // verus!
