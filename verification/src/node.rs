use vstd::prelude::*;

verus! {

use std::rc::Rc;
use crate::HashOutput;
use crate::blockstore::Cid;
use crate::crypto::{xor_spec, Key};
use crate::hash::{sha3_of, sha3};
use crate::namefilter::{Namefilter, zero_filter, apply_upto, add_seed, BITS_PER_ADD};
use crate::referenceable::Referenceable;
use crate::directory::{PrivateDirectory, PrivateRef};
use crate::file::PrivateFile;

/// A node's stable unique identifier, generated once at creation.
pub type INumber = Vec<u8>;

/// The encrypted on-wire record of a private node: an opaque encrypted
/// header blob alongside references to the encrypted body block(s).
pub type EncryptedPrivateNodeHeader = Vec<u8>;

pub type EncryptedPrivateNode = (EncryptedPrivateNodeHeader, Vec<Cid>);

/// The kind of a file system node.
#[derive(Clone, Copy, Debug, PartialEq, Eq, Structural)]
pub enum UnixFsNodeKind {
    File,
    Dir,
}

/// Node metadata: creation time as a Unix timestamp, and the node kind.
pub struct Metadata {
    pub created: i64,
    pub kind: UnixFsNodeKind,
}

impl Metadata {
    /// Metadata stamped with the given creation time.
    pub fn new(time: i64, kind: UnixFsNodeKind) -> (r: Metadata)
        ensures
            r.created == time,
            r.kind == kind,
    {
        Metadata { created: time, kind }
    }
}

#[verifier::external_type_specification]
#[verifier::external_body]
pub struct ExRatchet(skip_ratchet::Ratchet);

/// The ratchet state that a seed deterministically spawns.
pub uninterp spec fn ratchet_of(seed: Seq<u8>) -> skip_ratchet::Ratchet;

/// Relies on skip_ratchet's Ratchet::from_seed: a deterministic function
/// of the seed and the two counters, here both zero.
#[verifier::external_body]
pub fn ratchet_from_seed(seed: &HashOutput) -> (r: skip_ratchet::Ratchet)
    ensures
        r == ratchet_of(seed@),
{
    skip_ratchet::Ratchet::from_seed(seed, 0, 0)
}

/// Relies on skip_ratchet's derived PartialEq for Ratchet: equality of
/// all fields, which is equality of the chain state.
#[verifier::external_body]
pub fn ratchet_eq(a: &skip_ratchet::Ratchet, b: &skip_ratchet::Ratchet) -> (r: bool)
    ensures
        r == (a == b),
{
    a == b
}

/// The identity and versioning state of a private node: the privacy
/// preserving name, the revision ratchet with the seed it grew from, and
/// the stable inumber.
pub struct PrivateNodeHeader {
    pub bare_name: Namefilter,
    pub ratchet: skip_ratchet::Ratchet,
    pub ratchet_seed: HashOutput,
    pub inumber: INumber,
}

impl PartialEq for PrivateNodeHeader {
    /// Headers are equal when the name, the ratchet state, the seed and
    /// the inumber all are.
    fn eq(&self, other: &Self) -> (r: bool) {
        crate::blockstore::bytes_eq(self.bare_name.as_bytes(), other.bare_name.as_bytes())
            && ratchet_eq(&self.ratchet, &other.ratchet) && crate::hamt::hash_eq(
            &self.ratchet_seed,
            &other.ratchet_seed,
        ) && crate::blockstore::bytes_eq(&self.inumber, &other.inumber)
    }
}

impl vstd::std_specs::cmp::PartialEqSpecImpl for PrivateNodeHeader {
    open spec fn obeys_eq_spec() -> bool {
        true
    }

    open spec fn eq_spec(&self, other: &Self) -> bool {
        &&& self.bare_name@ == other.bare_name@
        &&& self.ratchet == other.ratchet
        &&& self.ratchet_seed@ == other.ratchet_seed@
        &&& self.inumber@ == other.inumber@
    }
}

/// The bare name a parent passes down, or a fresh one at the root.
pub open spec fn parent_base(parent: Option<Namefilter>) -> Seq<u8> {
    match parent {
        Some(n) => n@,
        None => zero_filter(),
    }
}

/// The revision key derived from a ratchet seed.
pub open spec fn revision_key_of(seed: Seq<u8>) -> Seq<u8> {
    sha3_of(seq![1u8] + seed)
}

/// The content key derived from a ratchet seed.
pub open spec fn content_key_of(seed: Seq<u8>) -> Seq<u8> {
    sha3_of(seq![2u8] + revision_key_of(seed))
}

/// The bytes of a digest, as a growable vector.
fn digest_to_vec(h: &HashOutput) -> (r: Vec<u8>)
    ensures
        r@ == h@,
{
    let mut r: Vec<u8> = Vec::new();
    let mut i: usize = 0;
    while i < 32
        invariant
            0 <= i <= 32,
            r@ =~= h@.subrange(0, i as int),
        decreases 32 - i,
    {
        r.push(h[i]);
        proof {
            assert(r@ =~= h@.subrange(0, i + 1));
        }
        i = i + 1;
    }
    proof {
        assert(r@ =~= h@);
    }
    r
}

fn tagged_hash(tag: u8, data: &[u8]) -> (h: HashOutput)
    ensures
        h@ == sha3_of(seq![tag] + data@),
{
    let mut buf: Vec<u8> = Vec::new();
    buf.push(tag);
    let mut i: usize = 0;
    while i < data.len()
        invariant
            0 <= i <= data@.len(),
            buf@ =~= seq![tag] + data@.subrange(0, i as int),
        decreases data@.len() - i,
    {
        buf.push(data[i]);
        proof {
            assert(buf@ =~= seq![tag] + data@.subrange(0, i + 1));
        }
        i = i + 1;
    }
    proof {
        assert(buf@ =~= seq![tag] + data@);
    }
    sha3(buf.as_slice())
}

impl PrivateNodeHeader {
    /// Builds a fresh header: folds the inumber into the parent's bare
    /// name (the sole, one-way source of ancestry linkage) and seeds the
    /// ratchet.
    pub fn new(parent_bare_name: Option<Namefilter>, inumber: INumber, ratchet_seed: HashOutput)
        -> (r: PrivateNodeHeader)
        requires
            parent_bare_name matches Some(n) ==> n.wf(),
        ensures
            r.bare_name.wf(),
            r.bare_name@ == apply_upto(
                parent_base(parent_bare_name),
                add_seed(parent_base(parent_bare_name), r.inumber@),
                BITS_PER_ADD as int,
            ),
            r.ratchet == ratchet_of(ratchet_seed@),
            r.ratchet_seed == ratchet_seed,
            r.inumber == inumber,
    {
        let mut bare_name = match parent_bare_name {
            Some(n) => n,
            None => Namefilter::new(),
        };
        bare_name.add(&inumber);
        let ratchet = ratchet_from_seed(&ratchet_seed);
        PrivateNodeHeader { bare_name, ratchet, ratchet_seed, inumber }
    }

    /// Derives the capability reference for this header's revision: the
    /// trie lookup key is the hash of the saturated bare name, and the
    /// keys are derived from the ratchet seed.
    pub fn derive_private_ref(&self) -> (r: PrivateRef)
        requires
            self.bare_name.wf(),
        ensures
            r@ == spec_derived_ref(*self),
    {
        let saturated_name_hash = self.bare_name.saturated_hash();
        let revision_key = tagged_hash(1u8, self.ratchet_seed.as_slice());
        let content_hash = tagged_hash(2u8, revision_key.as_slice());
        let content_key = crate::crypto::ContentKey::new(digest_to_vec(&content_hash));
        let revision_vec = digest_to_vec(&revision_key);
        let enc_ratchet_key = crate::crypto::xor_transform(&content_key.key, &revision_vec);
        let r = PrivateRef { saturated_name_hash, content_key, enc_ratchet_key };
        proof {
            assert(r@ =~= spec_derived_ref(*self));
        }
        r
    }
}

/// The capability view of a header: what `derive_private_ref` returns.
pub open spec fn spec_derived_ref(h: PrivateNodeHeader) -> RefV {
    RefV {
        hash: sha3_of(
            crate::namefilter::sat_n(h.bare_name@, crate::namefilter::SATURATION_ROUNDS as int),
        ),
        key: content_key_of(h.ratchet_seed@),
        enc: xor_spec(content_key_of(h.ratchet_seed@), revision_key_of(h.ratchet_seed@)),
    }
}

/// A private node: a directory or a file.
pub enum PrivateNode {
    Dir(PrivateDirectory),
    File(PrivateFile),
}

/// A lazy cell over a private node: resolvable between a capability
/// reference and the shared in-memory node.
pub type PrivateLink = Referenceable<PrivateRef, Rc<PrivateNode>>;

/// The mathematical content of a header.
#[verifier::ext_equal]
pub struct HeaderV {
    pub name: Seq<u8>,
    pub seed: Seq<u8>,
    pub inumber: Seq<u8>,
}

/// The mathematical content of a capability reference.
#[verifier::ext_equal]
pub struct RefV {
    pub hash: Seq<u8>,
    pub key: Seq<u8>,
    pub enc: Seq<u8>,
}

/// The mathematical content of a private node.  Child nodes are separate
/// records: an entry carries its name and its capability reference.
#[verifier::ext_equal]
pub enum NodeV {
    File { header: HeaderV, created: i64, content: Seq<u8> },
    Dir { header: HeaderV, created: i64, entries: Seq<(Seq<u8>, RefV)> },
}

impl View for PrivateNodeHeader {
    type V = HeaderV;

    open spec fn view(&self) -> HeaderV {
        HeaderV { name: self.bare_name@, seed: self.ratchet_seed@, inumber: self.inumber@ }
    }
}

impl View for PrivateRef {
    type V = RefV;

    open spec fn view(&self) -> RefV {
        RefV {
            hash: self.saturated_name_hash@,
            key: self.content_key.key@,
            enc: self.enc_ratchet_key@,
        }
    }
}

/// The reference a link carries, where it has one.
pub open spec fn link_ref_view(l: PrivateLink) -> RefV {
    if l.spec_reference() is Some {
        l.spec_reference().unwrap()@
    } else {
        RefV { hash: Seq::empty(), key: Seq::empty(), enc: Seq::empty() }
    }
}

/// The mathematical content of a directory's entries.
pub open spec fn entries_view(es: Seq<(Vec<u8>, PrivateLink)>) -> Seq<(Seq<u8>, RefV)> {
    es.map(|i: int, e: (Vec<u8>, PrivateLink)| (e.0@, link_ref_view(e.1)))
}

impl View for PrivateNode {
    type V = NodeV;

    open spec fn view(&self) -> NodeV {
        match self {
            PrivateNode::File(f) => NodeV::File {
                header: f.header@,
                created: f.main.metadata.created,
                content: f.main.content@,
            },
            PrivateNode::Dir(d) => NodeV::Dir {
                header: d.header@,
                created: d.main.metadata.created,
                entries: entries_view(d.main.entries@),
            },
        }
    }
}

/// The header component of a node's content.
pub open spec fn node_header_v(v: NodeV) -> HeaderV {
    match v {
        NodeV::File { header, .. } => header,
        NodeV::Dir { header, .. } => header,
    }
}

/// The creation time of a node's content.
pub open spec fn nodev_created(v: NodeV) -> i64 {
    match v {
        NodeV::File { created, .. } => created,
        NodeV::Dir { created, .. } => created,
    }
}

/// Shape of a header's content that the wire format can carry: the
/// fixed-width fields have their widths.
pub open spec fn headerv_wf(h: HeaderV) -> bool {
    h.name.len() == 256 && h.seed.len() == 32
}

/// Shape of a node's content that the wire format can carry.
pub open spec fn nodev_wf(v: NodeV) -> bool {
    match v {
        NodeV::File { header, .. } => headerv_wf(header),
        NodeV::Dir { header, entries, .. } => headerv_wf(header) && forall|i: int|
            0 <= i < entries.len() ==> (#[trigger] entries[i]).1.hash.len() == 32,
    }
}

/// Normal form for persistence: the bare name has its capacity, and every
/// entry link carries a reference, so the node encodes without resolving
/// anything.  Child nodes are persisted as records of their own.
pub open spec fn node_norm(n: PrivateNode) -> bool {
    match n {
        PrivateNode::File(f) => f.header.bare_name.wf(),
        PrivateNode::Dir(d) => d.header.bare_name.wf() && forall|i: int|
            0 <= i < d.main.entries@.len() ==> (#[trigger] d.main.entries@[i].1).spec_reference()
                is Some,
    }
}

} // verus!
