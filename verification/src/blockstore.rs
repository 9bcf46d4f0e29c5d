use vstd::prelude::*;
use libipld::multihash::MultihashDigest;

verus! {

use crate::error::FsError;
use crate::referenceable::{Referenceable, ReferenceableStore, ValueEq};

/// A content reference: the byte encoding of an IPLD CID, a deterministic
/// function of the referenced block's bytes.
pub struct Cid {
    pub bytes: Vec<u8>,
}

impl View for Cid {
    type V = Seq<u8>;

    open spec fn view(&self) -> Seq<u8> {
        self.bytes@
    }
}

/// The byte encoding of the CID of a block with the given bytes.
pub uninterp spec fn cid_of(bytes: Seq<u8>) -> Seq<u8>;

/// Relies on multihash's Code::Sha3_256.digest, cid's Cid::new_v1 and
/// cid's Cid::to_bytes: together a deterministic function of the block
/// bytes alone.
#[verifier::external_body]
pub fn make_cid(bytes: &Vec<u8>) -> (c: Cid)
    ensures
        c@ == cid_of(bytes@),
{
    let inner = libipld::Cid::new_v1(
        0x55,
        libipld::multihash::Code::Sha3_256.digest(bytes.as_slice()),
    );
    Cid { bytes: inner.to_bytes() }
}

/// A copy of a byte vector.
pub fn clone_bytes(v: &Vec<u8>) -> (r: Vec<u8>)
    ensures
        r@ == v@,
{
    let mut r: Vec<u8> = Vec::new();
    let mut i: usize = 0;
    while i < v.len()
        invariant
            0 <= i <= v@.len(),
            r@ =~= v@.subrange(0, i as int),
        decreases v@.len() - i,
    {
        r.push(v[i]);
        proof {
            assert(r@ =~= v@.subrange(0, i + 1));
        }
        i = i + 1;
    }
    proof {
        assert(r@ =~= v@);
    }
    r
}

/// Byte-wise equality of two byte vectors.
pub fn bytes_eq(a: &Vec<u8>, b: &Vec<u8>) -> (r: bool)
    ensures
        r == (a@ == b@),
{
    if a.len() != b.len() {
        proof {
            assert(a@ != b@);
        }
        return false;
    }
    let mut i: usize = 0;
    while i < a.len()
        invariant
            0 <= i <= a@.len(),
            a@.len() == b@.len(),
            forall|k: int| 0 <= k < i ==> a@[k] == b@[k],
        decreases a@.len() - i,
    {
        if a[i] != b[i] {
            proof {
                assert(a@[i as int] != b@[i as int]);
            }
            return false;
        }
        i = i + 1;
    }
    proof {
        assert(a@ =~= b@);
    }
    true
}

impl Clone for Cid {
    /// A copy referring to the same content.
    fn clone(&self) -> (r: Self)
        ensures
            r@ == self@,
    {
        Cid { bytes: clone_bytes(&self.bytes) }
    }
}

impl ValueEq for Cid {
    /// Two content references are equal when their encodings are.
    open spec fn eq_at(&self, other: &Self) -> bool {
        self@ == other@
    }

    proof fn eq_at_reflexive(&self) {
    }

    fn value_eq(&self, other: &Self) -> (r: bool) {
        bytes_eq(&self.bytes, &other.bytes)
    }
}

impl ValueEq for u64 {
    open spec fn eq_at(&self, other: &Self) -> bool {
        self == other
    }

    proof fn eq_at_reflexive(&self) {
    }

    fn value_eq(&self, other: &Self) -> (r: bool) {
        *self == *other
    }
}

/// The content-addressable block store boundary: raw bytes in, reference
/// out, and back.  The ghost fetch counter supports the at-most-once
/// caching statements of the lazy cells above it.
pub trait BlockStore: Sized {
    /// The blocks the store serves, keyed by reference encoding.
    spec fn bs_contents(&self) -> Map<Seq<u8>, Seq<u8>>;

    /// How many block fetches the store has performed.
    spec fn bs_fetches(&self) -> nat;

    /// Fetches the block behind `cid`.  Performs exactly one fetch; on
    /// success the bytes are what the store held under the reference.
    fn get_block(&mut self, cid: &Cid) -> (res: Result<Vec<u8>, FsError>)
        ensures
            final(self).bs_contents() == old(self).bs_contents(),
            final(self).bs_fetches() == old(self).bs_fetches() + 1,
            res matches Ok(b) ==> old(self).bs_contents().contains_key(cid@)
                && b@ == old(self).bs_contents()[cid@],
    ;

    /// Stores a block.  Performs no fetch; on success the returned
    /// reference is the content reference of the bytes, and the store now
    /// serves the block under it.
    fn put_block(&mut self, bytes: Vec<u8>) -> (res: Result<Cid, FsError>)
        ensures
            final(self).bs_fetches() == old(self).bs_fetches(),
            res matches Ok(c) ==> c@ == cid_of(bytes@)
                && final(self).bs_contents() == old(self).bs_contents().insert(c@, bytes@),
            res is Err ==> final(self).bs_contents() == old(self).bs_contents(),
    ;
}

/// The contents of an in-memory block list: later entries shadow earlier
/// ones with the same reference.
pub open spec fn entries_map(s: Seq<(Cid, Vec<u8>)>) -> Map<Seq<u8>, Seq<u8>>
    decreases s.len(),
{
    if s.len() == 0 {
        Map::empty()
    } else {
        entries_map(s.drop_last()).insert(s.last().0@, s.last().1@)
    }
}

/// An in-memory block store, with an observable fetch counter for tests.
pub struct MemoryBlockStore {
    blocks: Vec<(Cid, Vec<u8>)>,
    gets: u64,
    fetches: Ghost<nat>,
}

impl MemoryBlockStore {
    /// An empty store that has fetched nothing.
    pub fn new() -> (r: MemoryBlockStore)
        ensures
            r.bs_contents() == Map::<Seq<u8>, Seq<u8>>::empty(),
            r.bs_fetches() == 0,
    {
        MemoryBlockStore { blocks: Vec::new(), gets: 0, fetches: Ghost(0nat) }
    }

    /// How many fetches have run, as an observable number (saturating).
    pub fn fetch_count(&self) -> u64 {
        self.gets
    }
}

impl Default for MemoryBlockStore {
    /// An empty store that has fetched nothing.
    fn default() -> (r: Self)
        ensures
            r.bs_contents() == Map::<Seq<u8>, Seq<u8>>::empty(),
            r.bs_fetches() == 0,
    {
        MemoryBlockStore::new()
    }
}

impl BlockStore for MemoryBlockStore {
    closed spec fn bs_contents(&self) -> Map<Seq<u8>, Seq<u8>> {
        entries_map(self.blocks@)
    }

    closed spec fn bs_fetches(&self) -> nat {
        self.fetches@
    }

    fn get_block(&mut self, cid: &Cid) -> (res: Result<Vec<u8>, FsError>) {
        proof {
            self.fetches@ = self.fetches@ + 1;
        }
        self.gets = self.gets.saturating_add(1);
        let mut idx: usize = self.blocks.len();
        proof {
            assert(self.blocks@.subrange(0, idx as int) =~= self.blocks@);
        }
        while idx > 0
            invariant
                0 <= idx <= self.blocks@.len(),
                self.blocks@ == old(self).blocks@,
                self.gets == old(self).gets || self.gets == old(self).gets + 1,
                self.fetches@ == old(self).fetches@ + 1,
                entries_map(self.blocks@).contains_key(cid@) == entries_map(
                    self.blocks@.subrange(0, idx as int),
                ).contains_key(cid@),
                entries_map(self.blocks@).contains_key(cid@) ==> entries_map(
                    self.blocks@,
                )[cid@] == entries_map(self.blocks@.subrange(0, idx as int))[cid@],
            decreases idx,
        {
            let j: usize = idx - 1;
            let entry_cid: &Cid = &self.blocks[j].0;
            proof {
                let pre = self.blocks@.subrange(0, idx as int);
                assert(pre.last() == self.blocks@[j as int]);
                assert(pre.drop_last() =~= self.blocks@.subrange(0, j as int));
            }
            if bytes_eq(&entry_cid.bytes, &cid.bytes) {
                proof {
                    let pre = self.blocks@.subrange(0, idx as int);
                    assert(entries_map(pre) == entries_map(pre.drop_last()).insert(
                        pre.last().0@,
                        pre.last().1@,
                    ));
                    assert(entries_map(pre).contains_key(cid@));
                    assert(entries_map(pre)[cid@] == self.blocks@[j as int].1@);
                }
                let out = clone_bytes(&self.blocks[j].1);
                return Ok(out);
            }
            idx = j;
        }
        proof {
            assert(self.blocks@.subrange(0, 0) =~= Seq::<(Cid, Vec<u8>)>::empty());
        }
        Err(FsError::CidNotFound)
    }

    fn put_block(&mut self, bytes: Vec<u8>) -> (res: Result<Cid, FsError>) {
        let cid = make_cid(&bytes);
        let stored = Cid { bytes: clone_bytes(&cid.bytes) };
        self.blocks.push((stored, bytes));
        proof {
            assert(self.blocks@.drop_last() =~= old(self).blocks@);
        }
        Ok(cid)
    }
}

/// The serialization contract for plain values stored whole in a block:
/// an exact byte encoding with a proven round trip.
pub trait Serializable: Sized {
    /// The byte encoding of the value.
    spec fn encoding(self) -> Seq<u8>;

    /// The value a byte string decodes to, if any.
    spec fn decoding(bytes: Seq<u8>) -> Option<Self>;

    /// Decoding an encoding yields the value back.
    proof fn round_trip(self)
        ensures
            Self::decoding(self.encoding()) == Some(self),
    ;

    /// Produces the encoding.
    fn serialize_bytes(&self) -> (r: Vec<u8>)
        ensures
            r@ == self.encoding(),
    ;

    /// Decodes a byte string.
    fn deserialize_bytes(bytes: &Vec<u8>) -> (r: Option<Self>)
        ensures
            r == Self::decoding(bytes@),
    ;
}

/// Every block store resolves lazy cells of any serializable value: the
/// value is encoded into a single block and referenced by its CID.
impl<B: BlockStore, V: Serializable> ReferenceableStore<Cid, V> for B {
    open spec fn contents(&self) -> Map<Cid, V> {
        Map::new(
            |c: Cid|
                self.bs_contents().contains_key(c@) && V::decoding(self.bs_contents()[c@])
                    is Some,
            |c: Cid| V::decoding(self.bs_contents()[c@]).unwrap(),
        )
    }

    open spec fn fetches(&self) -> nat {
        self.bs_fetches()
    }

    fn get_value(&mut self, reference: &Cid) -> (res: Result<V, FsError>) {
        match self.get_block(reference) {
            Ok(b) => {
                match V::deserialize_bytes(&b) {
                    Some(v) => Ok(v),
                    None => Err(FsError::DecodeError),
                }
            },
            Err(e) => Err(e),
        }
    }

    fn put_value(&mut self, value: &V) -> (res: Result<Cid, FsError>) {
        let bytes = value.serialize_bytes();
        proof {
            value.round_trip();
        }
        match self.put_block(bytes) {
            Ok(c) => Ok(c),
            Err(e) => Err(e),
        }
    }
}

/// A lazy cell whose reference is a content reference into a block store.
pub type Link<T> = Referenceable<Cid, T>;

impl<T> Link<T> {
    /// A link that starts out as a content reference.
    pub fn from_cid(cid: Cid) -> (r: Self)
        ensures
            r == (Referenceable::Encoded { reference: cid, value_cache: None::<T> }),
    {
        Self::from_reference(cid)
    }

    /// The content reference, computed through the store if needed.
    pub fn resolve_cid<'a, RS: ReferenceableStore<Cid, T>>(&'a mut self, store: &mut RS) -> (res:
        Result<&'a Cid, FsError>)
        ensures
            final(self).spec_value() == old(self).spec_value(),
            final(store).fetches() == old(store).fetches(),
            old(self).spec_reference() is Some ==> {
                &&& final(store).contents() == old(store).contents()
                &&& *final(self) == *old(self)
                &&& res matches Ok(r) && Some(*r) == old(self).spec_reference()
            },
            old(self).spec_reference() is None ==> {
                &&& (res matches Ok(r) ==> {
                    &&& final(store).contents().contains_key(*r)
                    &&& final(store).contents()[*r] == old(self).spec_value().unwrap()
                    &&& final(self).spec_reference() == Some(*r)
                })
                &&& (res is Err ==> *final(self) == *old(self))
            },
    {
        self.resolve_reference(store)
    }

    /// Whether a content reference is available without store traffic.
    pub fn has_cid(&self) -> (b: bool)
        ensures
            b == (self.spec_reference() is Some),
    {
        self.has_reference()
    }
}

impl<T: ValueEq> Link<T> {
    /// Compares two links for equality of referenced content: resolves the
    /// reference of each side that lacks one, so the answer does not
    /// depend on what happens to be cached.
    pub fn deep_eq<RS: ReferenceableStore<Cid, T>>(
        &mut self,
        other: &mut Link<T>,
        store: &mut RS,
    ) -> (res: Result<bool, FsError>)
        ensures
            final(self).spec_value() == old(self).spec_value(),
            final(other).spec_value() == old(other).spec_value(),
            res matches Ok(b) ==> {
                if old(self).compare_spec(*old(other)) {
                    b
                } else {
                    &&& final(self).spec_reference() is Some
                    &&& final(other).spec_reference() is Some
                    &&& b == (final(self).spec_reference().unwrap()@
                        == final(other).spec_reference().unwrap()@)
                }
            },
    {
        if *self == *other {
            return Ok(true);
        }
        let a: Cid = match self.resolve_cid(store) {
            Ok(c) => c.clone(),
            Err(e) => {
                return Err(e);
            },
        };
        match other.resolve_cid(store) {
            Ok(c2) => Ok(bytes_eq(&a.bytes, &c2.bytes)),
            Err(e) => Err(e),
        }
    }
}

} // verus!
verus! {

/// The value a little-endian 8-byte string encodes.
pub open spec fn u64_from_le(b: Seq<u8>) -> u64 {
    (b[0] as u64) | ((b[1] as u64) << 8) | ((b[2] as u64) << 16) | ((b[3] as u64) << 24) | ((
    b[4] as u64) << 32) | ((b[5] as u64) << 40) | ((b[6] as u64) << 48) | ((b[7] as u64) << 56)
}

pub(crate) proof fn lemma_u64_le_round_trip(x: u64)
    ensures
        u64_from_le(crate::codec::enc_u64(x)) == x,
{
    let b = crate::codec::enc_u64(x);
    let b0 = b[0];
    let b1 = b[1];
    let b2 = b[2];
    let b3 = b[3];
    let b4 = b[4];
    let b5 = b[5];
    let b6 = b[6];
    let b7 = b[7];
    assert(b0 == ((x >> 0) & 0xFF) as u8 && b1 == ((x >> 8) & 0xFF) as u8 && b2 == ((x >> 16)
        & 0xFF) as u8 && b3 == ((x >> 24) & 0xFF) as u8 && b4 == ((x >> 32) & 0xFF) as u8 && b5
        == ((x >> 40) & 0xFF) as u8 && b6 == ((x >> 48) & 0xFF) as u8 && b7 == ((x >> 56)
        & 0xFF) as u8);
    assert((b0 as u64) | ((b1 as u64) << 8) | ((b2 as u64) << 16) | ((b3 as u64) << 24) | ((
    b4 as u64) << 32) | ((b5 as u64) << 40) | ((b6 as u64) << 48) | ((b7 as u64) << 56) == x)
        by (bit_vector)
        requires
            b0 == ((x >> 0) & 0xFF) as u8,
            b1 == ((x >> 8) & 0xFF) as u8,
            b2 == ((x >> 16) & 0xFF) as u8,
            b3 == ((x >> 24) & 0xFF) as u8,
            b4 == ((x >> 32) & 0xFF) as u8,
            b5 == ((x >> 40) & 0xFF) as u8,
            b6 == ((x >> 48) & 0xFF) as u8,
            b7 == ((x >> 56) & 0xFF) as u8,
    ;
}

impl Serializable for u64 {
    open spec fn encoding(self) -> Seq<u8> {
        crate::codec::enc_u64(self)
    }

    open spec fn decoding(bytes: Seq<u8>) -> Option<u64> {
        if bytes.len() == 8 {
            Some(u64_from_le(bytes))
        } else {
            None
        }
    }

    proof fn round_trip(self) {
        lemma_u64_le_round_trip(self);
    }

    fn serialize_bytes(&self) -> (r: Vec<u8>) {
        let x: u64 = *self;
        let mut out: Vec<u8> = Vec::new();
        let mut i: usize = 0;
        while i < 8
            invariant
                0 <= i <= 8,
                out@ =~= crate::codec::enc_u64(x).subrange(0, i as int),
            decreases 8 - i,
        {
            out.push(((x >> (8 * (i as u64))) & 0xFF) as u8);
            proof {
                assert(out@ =~= crate::codec::enc_u64(x).subrange(0, i + 1));
            }
            i = i + 1;
        }
        proof {
            assert(crate::codec::enc_u64(x).subrange(0, 8) =~= crate::codec::enc_u64(x));
        }
        out
    }

    fn deserialize_bytes(bytes: &Vec<u8>) -> (r: Option<u64>) {
        if bytes.len() != 8 {
            return None;
        }
        let x: u64 = (bytes[0] as u64) | ((bytes[1] as u64) << 8) | ((bytes[2] as u64) << 16) | ((
        bytes[3] as u64) << 24) | ((bytes[4] as u64) << 32) | ((bytes[5] as u64) << 40) | ((
        bytes[6] as u64) << 48) | ((bytes[7] as u64) << 56);
        Some(x)
    }
}

} // verus!
