use vstd::prelude::*;

verus! {

use crate::namefilter::Namefilter;
use crate::node::{
    HeaderV, NodeV, node_header_v, PrivateLink, PrivateNode, PrivateNodeHeader, RefV, entries_view, node_norm,
    ratchet_from_seed, ratchet_of, Metadata, UnixFsNodeKind,
};
use crate::directory::{PrivateDirectory, PrivateDirectoryMain};
use crate::file::{PrivateFile, PrivateFileMain};
use crate::crypto::ContentKey;
use crate::referenceable::Referenceable;
use crate::HashOutput;

/// The eight little-endian bytes of a 64-bit number.
pub open spec fn enc_u64(x: u64) -> Seq<u8> {
    Seq::new(8, |i: int| ((x >> (8 * i as u64)) & 0xFF) as u8)
}

/// A length-prefixed byte string.
pub open spec fn enc_bytes(b: Seq<u8>) -> Seq<u8> {
    enc_u64(b.len() as u64) + b
}

/// The encoding of a node header: fixed-width name and seed, then the
/// length-prefixed inumber.
pub open spec fn header_bytes(h: HeaderV) -> Seq<u8> {
    h.name + h.seed + enc_bytes(h.inumber)
}

/// The encoding of a capability reference.
pub open spec fn ref_bytes(r: RefV) -> Seq<u8> {
    r.hash + enc_bytes(r.key) + enc_bytes(r.enc)
}

/// The encoding of one directory entry.
pub open spec fn entry_enc(e: (Seq<u8>, RefV)) -> Seq<u8> {
    enc_bytes(e.0) + ref_bytes(e.1)
}

/// The encoding of a directory's entries, in order.
pub open spec fn entries_bytes(es: Seq<(Seq<u8>, RefV)>) -> Seq<u8>
    decreases es.len(),
{
    if es.len() == 0 {
        Seq::empty()
    } else {
        entry_enc(es[0]) + entries_bytes(es.subrange(1, es.len() as int))
    }
}

/// The encoding of a whole node: a kind tag, the header, the creation
/// time, then the content bytes or the entries.
pub open spec fn node_bytes(v: NodeV) -> Seq<u8> {
    match v {
        NodeV::File { header, created, content } => seq![0u8] + header_bytes(header) + enc_u64(
            created as u64,
        ) + enc_bytes(content),
        NodeV::Dir { header, created, entries } => seq![1u8] + header_bytes(header) + enc_u64(
            created as u64,
        ) + enc_u64(entries.len() as u64) + entries_bytes(entries),
    }
}

/// Appending one entry to an entry sequence appends its encoding.
proof fn lemma_entries_snoc(es: Seq<(Seq<u8>, RefV)>, e: (Seq<u8>, RefV))
    ensures
        entries_bytes(es.push(e)) == entries_bytes(es) + entry_enc(e),
    decreases es.len(),
{
    let p = es.push(e);
    if es.len() == 0 {
        assert(p[0] == e);
        assert(p.subrange(1, p.len() as int) =~= Seq::<(Seq<u8>, RefV)>::empty());
        assert(entries_bytes(p.subrange(1, p.len() as int)) == Seq::<u8>::empty());
        assert(entries_bytes(p) == entry_enc(e) + Seq::<u8>::empty());
        assert(entries_bytes(es) == Seq::<u8>::empty());
        assert(entries_bytes(p) =~= entries_bytes(es) + entry_enc(e));
    } else {
        assert(p[0] == es[0]);
        let tail = es.subrange(1, es.len() as int);
        lemma_entries_snoc(tail, e);
        assert(p.subrange(1, p.len() as int) =~= tail.push(e));
        assert(entries_bytes(p) =~= entries_bytes(es) + entry_enc(e));
    }
}

fn push_u64(out: &mut Vec<u8>, x: u64)
    ensures
        final(out)@ == old(out)@ + enc_u64(x),
{
    let mut i: usize = 0;
    while i < 8
        invariant
            0 <= i <= 8,
            out@ =~= old(out)@ + enc_u64(x).subrange(0, i as int),
        decreases 8 - i,
    {
        out.push(((x >> (8 * (i as u64))) & 0xFF) as u8);
        proof {
            assert(out@ =~= old(out)@ + enc_u64(x).subrange(0, i + 1));
        }
        i = i + 1;
    }
    proof {
        assert(enc_u64(x).subrange(0, 8) =~= enc_u64(x));
    }
}

fn push_slice(out: &mut Vec<u8>, b: &[u8])
    ensures
        final(out)@ == old(out)@ + b@,
{
    let mut i: usize = 0;
    while i < b.len()
        invariant
            0 <= i <= b@.len(),
            out@ =~= old(out)@ + b@.subrange(0, i as int),
        decreases b@.len() - i,
    {
        out.push(b[i]);
        proof {
            assert(out@ =~= old(out)@ + b@.subrange(0, i + 1));
        }
        i = i + 1;
    }
    proof {
        assert(b@.subrange(0, b@.len() as int) =~= b@);
    }
}

fn push_len_bytes(out: &mut Vec<u8>, b: &Vec<u8>)
    ensures
        final(out)@ == old(out)@ + enc_bytes(b@),
{
    push_u64(out, b.len() as u64);
    push_slice(out, b.as_slice());
    proof {
        assert(out@ =~= old(out)@ + enc_bytes(b@));
    }
}

fn push_header(out: &mut Vec<u8>, h: &PrivateNodeHeader)
    requires
        h.bare_name.wf(),
    ensures
        final(out)@ == old(out)@ + header_bytes(h@),
{
    push_slice(out, h.bare_name.as_bytes().as_slice());
    push_slice(out, h.ratchet_seed.as_slice());
    push_len_bytes(out, &h.inumber);
    proof {
        assert(out@ =~= old(out)@ + header_bytes(h@));
    }
}

/// Serializes a node in normal form: the header, then the body; entry
/// links are written as their capability references.
pub fn encode_node(n: &PrivateNode) -> (r: Vec<u8>)
    requires
        node_norm(*n),
    ensures
        r@ == node_bytes(n@),
{
    let mut out: Vec<u8> = Vec::new();
    match n {
        PrivateNode::File(f) => {
            out.push(0u8);
            proof {
                assert(out@ =~= seq![0u8]);
            }
            push_header(&mut out, &f.header);
            push_u64(&mut out, f.main.metadata.created as u64);
            push_len_bytes(&mut out, &f.main.content);
            proof {
                assert(out@ =~= node_bytes(n@));
            }
        },
        PrivateNode::Dir(d) => {
            out.push(1u8);
            proof {
                assert(out@ =~= seq![1u8]);
            }
            push_header(&mut out, &d.header);
            push_u64(&mut out, d.main.metadata.created as u64);
            push_u64(&mut out, d.main.entries.len() as u64);
            let ghost base = out@;
            let mut t: usize = 0;
            proof {
                assert(entries_view(d.main.entries@).subrange(0, 0)
                    =~= Seq::<(Seq<u8>, RefV)>::empty());
                assert(out@ =~= base + entries_bytes(entries_view(d.main.entries@).subrange(0, 0)));
            }
            while t < d.main.entries.len()
                invariant
                    0 <= t <= d.main.entries@.len(),
                    node_norm(*n),
                    n == PrivateNode::Dir(*d),
                    out@ =~= base + entries_bytes(
                        entries_view(d.main.entries@).subrange(0, t as int),
                    ),
                decreases d.main.entries@.len() - t,
            {
                let entry: &(Vec<u8>, PrivateLink) = &d.main.entries[t];
                push_len_bytes(&mut out, &entry.0);
                match entry.1.get_reference() {
                    Some(r) => {
                        push_slice(&mut out, r.saturated_name_hash.as_slice());
                        push_len_bytes(&mut out, &r.content_key.key);
                        push_len_bytes(&mut out, &r.enc_ratchet_key);
                        proof {
                            let ev = entries_view(d.main.entries@);
                            assert(ev[t as int] == (entry.0@, crate::node::link_ref_view(
                                entry.1,
                            )));
                            lemma_entries_snoc(ev.subrange(0, t as int), ev[t as int]);
                            assert(ev.subrange(0, t + 1) =~= ev.subrange(0, t as int).push(
                                ev[t as int],
                            ));
                            assert(out@ =~= base + entries_bytes(ev.subrange(0, t + 1)));
                        }
                    },
                    None => {
                        proof {
                            assert(d.main.entries@[t as int].1.spec_reference() is Some);
                            assert(false);
                        }
                    },
                }
                t = t + 1;
            }
            proof {
                let ev = entries_view(d.main.entries@);
                assert(ev.subrange(0, ev.len() as int) =~= ev);
                assert(out@ =~= node_bytes(n@));
            }
        },
    }
    out
}

/// Serializes only the identity header of a node.
pub fn encode_header_only(n: &PrivateNode) -> (r: Vec<u8>)
    requires
        node_norm(*n),
    ensures
        r@ == header_bytes(node_header_v(n@)),
{
    let mut out: Vec<u8> = Vec::new();
    match n {
        PrivateNode::File(f) => {
            push_header(&mut out, &f.header);
        },
        PrivateNode::Dir(d) => {
            push_header(&mut out, &d.header);
        },
    }
    proof {
        assert(out@ =~= header_bytes(node_header_v(n@)));
    }
    out
}

fn read_u64(bytes: &Vec<u8>, at: usize) -> (r: Option<(u64, usize)>)
    ensures
        r matches Some(p) ==> at + 8 <= bytes@.len() && p.0 == crate::blockstore::u64_from_le(
            bytes@.subrange(at as int, at + 8),
        ) && p.1 == at + 8,
        r is None ==> bytes@.len() < at + 8,
{
    if at > bytes.len() || bytes.len() - at < 8 {
        return None;
    }
    let x: u64 = (bytes[at] as u64) | ((bytes[at + 1] as u64) << 8) | ((bytes[at + 2] as u64)
        << 16) | ((bytes[at + 3] as u64) << 24) | ((bytes[at + 4] as u64) << 32) | ((bytes[at
        + 5] as u64) << 40) | ((bytes[at + 6] as u64) << 48) | ((bytes[at + 7] as u64) << 56);
    proof {
        let sub = bytes@.subrange(at as int, at + 8);
        assert(forall|k: int| 0 <= k < 8 ==> sub[k] == bytes@[at + k]);
    }
    Some((x, at + 8))
}

fn read_exact(bytes: &Vec<u8>, at: usize, n: usize) -> (r: Option<(Vec<u8>, usize)>)
    ensures
        r matches Some(p) ==> at + n <= bytes@.len() && p.0@ == bytes@.subrange(
            at as int,
            at + n,
        ) && p.1 == at + n,
        r is None ==> bytes@.len() < at + n,
{
    if at > bytes.len() || bytes.len() - at < n {
        return None;
    }
    let mut out: Vec<u8> = Vec::new();
    let mut i: usize = 0;
    while i < n
        invariant
            0 <= i <= n,
            at + n <= bytes@.len(),
            bytes@.len() <= usize::MAX,
            out@ =~= bytes@.subrange(at as int, at + i),
        decreases n - i,
    {
        out.push(bytes[at + i]);
        proof {
            assert(out@ =~= bytes@.subrange(at as int, at + i + 1));
        }
        i = i + 1;
    }
    Some((out, at + n))
}

fn read_len_bytes(bytes: &Vec<u8>, at: usize) -> (r: Option<(Vec<u8>, usize)>)
    ensures
        r matches Some(p) ==> {
            let n = crate::blockstore::u64_from_le(bytes@.subrange(at as int, at + 8));
            &&& at + 8 + n <= bytes@.len()
            &&& p.0@ == bytes@.subrange(at + 8, at + 8 + n)
            &&& p.1 == at + 8 + n
        },
        r is None ==> bytes@.len() < at + 8 || bytes@.len() < at + 8
            + crate::blockstore::u64_from_le(bytes@.subrange(at as int, at + 8)),
{
    match read_u64(bytes, at) {
        Some((n, at2)) => {
            if n > usize::MAX as u64 {
                let bl: usize = bytes.len();
                proof {
                    assert(bytes@.len() == bl);
                }
                return None;
            }
            read_exact(bytes, at2, n as usize)
        },
        None => None,
    }
}

fn read_digest(bytes: &Vec<u8>, at: usize) -> (r: Option<(HashOutput, usize)>)
    ensures
        r matches Some(p) ==> at + 32 <= bytes@.len() && p.0@ == bytes@.subrange(
            at as int,
            at + 32,
        ) && p.1 == at + 32,
        r is None ==> bytes@.len() < at + 32,
{
    if at > bytes.len() || bytes.len() - at < 32 {
        return None;
    }
    let mut h: HashOutput = [0u8; 32];
    let mut i: usize = 0;
    while i < 32
        invariant
            0 <= i <= 32,
            at + 32 <= bytes@.len(),
            bytes@.len() <= usize::MAX,
            h@.len() == 32,
            forall|k: int| 0 <= k < i ==> h@[k] == bytes@[at + k],
        decreases 32 - i,
    {
        h[i] = bytes[at + i];
        i = i + 1;
    }
    proof {
        assert(h@ =~= bytes@.subrange(at as int, at + 32));
    }
    Some((h, at + 32))
}

fn read_header(bytes: &Vec<u8>, at: usize) -> (r: Option<(PrivateNodeHeader, usize)>)
    ensures
        r matches Some(p) ==> {
            let n = crate::blockstore::u64_from_le(bytes@.subrange(at + 288, at + 296));
            &&& at + 296 + n <= bytes@.len()
            &&& p.0.bare_name.wf()
            &&& p.0@.name == bytes@.subrange(at as int, at + 256)
            &&& p.0@.seed == bytes@.subrange(at + 256, at + 288)
            &&& p.0@.inumber == bytes@.subrange(at + 296, at + 296 + n)
            &&& p.0.ratchet == ratchet_of(p.0@.seed)
            &&& p.1 == at + 296 + n
        },
        r is None ==> bytes@.len() < at + 296 || bytes@.len() < at + 296
            + crate::blockstore::u64_from_le(bytes@.subrange(at + 288, at + 296)),
{
    let (name_bytes, at1) = match read_exact(bytes, at, 256) {
        Some(p) => p,
        None => {
            return None;
        },
    };
    let (seed, at2) = match read_digest(bytes, at1) {
        Some(p) => p,
        None => {
            return None;
        },
    };
    let (inumber, at3) = match read_len_bytes(bytes, at2) {
        Some(p) => p,
        None => {
            return None;
        },
    };
    let bare_name = Namefilter::from_bytes(name_bytes);
    let ratchet = ratchet_from_seed(&seed);
    Some((PrivateNodeHeader { bare_name, ratchet, ratchet_seed: seed, inumber }, at3))
}

/// Each encoded entry takes at least one byte, so an entry sequence is
/// no longer than its encoding.
proof fn lemma_entries_bytes_len(es: Seq<(Seq<u8>, RefV)>)
    ensures
        entries_bytes(es).len() >= es.len(),
    decreases es.len(),
{
    if es.len() > 0 {
        lemma_entries_bytes_len(es.subrange(1, es.len() as int));
    }
}

#[verifier::rlimit(100)]
fn read_entry(bytes: &Vec<u8>, at: usize, Ghost(e): Ghost<(Seq<u8>, RefV)>) -> (r: Option<
    ((Vec<u8>, PrivateLink), usize),
>)
    ensures
        r matches Some(p) ==> p.1 <= bytes@.len(),
        (e.1.hash.len() == 32 && at + entry_enc(e).len() <= bytes@.len() && bytes@.subrange(
            at as int,
            at + entry_enc(e).len(),
        ) == entry_enc(e)) ==> (r matches Some(p) && p.0.0@ == e.0 && crate::node::link_ref_view(
            p.0.1,
        ) == e.1 && p.0.1.spec_value() is None && p.1 == at + entry_enc(e).len()),
{
    let ghost el: int = entry_enc(e).len() as int;
    let ghost hh: bool = e.1.hash.len() == 32 && at + entry_enc(e).len() <= bytes@.len()
        && bytes@.subrange(at as int, at + entry_enc(e).len()) == entry_enc(e);
    let ghost flat: Seq<u8> = enc_u64(e.0.len() as u64) + e.0 + e.1.hash + enc_u64(
        e.1.key.len() as u64,
    ) + e.1.key + enc_u64(e.1.enc.len() as u64) + e.1.enc;
    let blen: usize = bytes.len();
    proof {
        if hh {
            assert(bytes@.len() == blen);
            assert(entry_enc(e) =~= flat);
            assert(el == 8 + e.0.len() + 32 + 8 + e.1.key.len() + 8 + e.1.enc.len());
            assert forall|k: int| 0 <= k < el implies bytes@[at + k] == flat[k] by {
                assert(bytes@.subrange(at as int, at + el)[k] == bytes@[at + k]);
            }
            assert(bytes@.subrange(at as int, at + 8) =~= enc_u64(e.0.len() as u64));
            crate::blockstore::lemma_u64_le_round_trip(e.0.len() as u64);
        }
    }
    let (name, a1) = match read_len_bytes(bytes, at) {
        Some(p) => p,
        None => {
            proof {
                if hh {
                    assert(false);
                }
            }
            return None;
        },
    };
    proof {
        if hh {
            assert(crate::blockstore::u64_from_le(bytes@.subrange(at as int, at + 8))
                == e.0.len() as u64);
            assert(e.0.len() as u64 == e.0.len());
            assert(name@ == bytes@.subrange(at + 8, at + 8 + e.0.len()));
            assert forall|k: int| 0 <= k < e.0.len() implies name@[k] == e.0[k] by {
                assert(name@[k] == bytes@[at + 8 + k]);
                assert(bytes@[at + 8 + k] == flat[8 + k]);
                assert(flat[8 + k] == e.0[k]);
            }
            assert(name@ =~= e.0);
            assert(a1 == at + 8 + e.0.len());
            assert forall|k: int| 0 <= k < 32 implies #[trigger] (bytes@.subrange(
                a1 as int,
                a1 + 32,
            )[k]) == e.1.hash[k] by {
                assert(bytes@.subrange(a1 as int, a1 + 32)[k] == bytes@[a1 + k]);
                assert(bytes@[a1 + k] == flat[8 + e.0.len() + k]);
                assert(flat[8 + e.0.len() + k] == e.1.hash[k]);
            }
            assert(bytes@.subrange(a1 as int, a1 + 32) =~= e.1.hash);
        }
    }
    let (hash, a2) = match read_digest(bytes, a1) {
        Some(p) => p,
        None => {
            proof {
                if hh {
                    assert(false);
                }
            }
            return None;
        },
    };
    proof {
        if hh {
            assert(a2 == at + 8 + e.0.len() + 32);
            assert forall|k: int| 0 <= k < 8 implies #[trigger] (bytes@.subrange(
                a2 as int,
                a2 + 8,
            )[k]) == enc_u64(e.1.key.len() as u64)[k] by {
                assert(bytes@.subrange(a2 as int, a2 + 8)[k] == bytes@[a2 + k]);
                assert(bytes@[a2 + k] == flat[8 + e.0.len() + 32 + k]);
                assert(flat[8 + e.0.len() + 32 + k] == enc_u64(e.1.key.len() as u64)[k]);
            }
            assert(bytes@.subrange(a2 as int, a2 + 8) =~= enc_u64(e.1.key.len() as u64));
            crate::blockstore::lemma_u64_le_round_trip(e.1.key.len() as u64);
        }
    }
    let (key, a3) = match read_len_bytes(bytes, a2) {
        Some(p) => p,
        None => {
            proof {
                if hh {
                    assert(false);
                }
            }
            return None;
        },
    };
    proof {
        if hh {
            assert(e.1.key.len() as u64 == e.1.key.len());
            assert(key@ == bytes@.subrange(a2 + 8, a2 + 8 + e.1.key.len()));
            assert forall|k: int| 0 <= k < e.1.key.len() implies key@[k] == e.1.key[k] by {
                assert(key@[k] == bytes@[a2 + 8 + k]);
                assert(bytes@[a2 + 8 + k] == flat[8 + e.0.len() + 32 + 8 + k]);
                assert(flat[8 + e.0.len() + 32 + 8 + k] == e.1.key[k]);
            }
            assert(key@ =~= e.1.key);
            assert(a3 == at + 8 + e.0.len() + 32 + 8 + e.1.key.len());
            assert forall|k: int| 0 <= k < 8 implies #[trigger] (bytes@.subrange(
                a3 as int,
                a3 + 8,
            )[k]) == enc_u64(e.1.enc.len() as u64)[k] by {
                assert(bytes@.subrange(a3 as int, a3 + 8)[k] == bytes@[a3 + k]);
                assert(bytes@[a3 + k] == flat[8 + e.0.len() + 32 + 8 + e.1.key.len() + k]);
                assert(flat[8 + e.0.len() + 32 + 8 + e.1.key.len() + k] == enc_u64(
                    e.1.enc.len() as u64,
                )[k]);
            }
            assert(bytes@.subrange(a3 as int, a3 + 8) =~= enc_u64(e.1.enc.len() as u64));
            crate::blockstore::lemma_u64_le_round_trip(e.1.enc.len() as u64);
        }
    }
    let (enc, a4) = match read_len_bytes(bytes, a3) {
        Some(p) => p,
        None => {
            proof {
                if hh {
                    assert(false);
                }
            }
            return None;
        },
    };
    let reference = crate::directory::PrivateRef {
        saturated_name_hash: hash,
        content_key: ContentKey::new(key),
        enc_ratchet_key: enc,
    };
    let lnk: PrivateLink = Referenceable::Encoded { reference, value_cache: None };
    proof {
        if hh {
            assert(e.1.enc.len() as u64 == e.1.enc.len());
            assert(enc@ == bytes@.subrange(a3 + 8, a3 + 8 + e.1.enc.len()));
            assert forall|k: int| 0 <= k < e.1.enc.len() implies enc@[k] == e.1.enc[k] by {
                assert(enc@[k] == bytes@[a3 + 8 + k]);
                assert(bytes@[a3 + 8 + k] == flat[8 + e.0.len() + 32 + 8 + e.1.key.len() + 8
                    + k]);
                assert(flat[8 + e.0.len() + 32 + 8 + e.1.key.len() + 8 + k] == e.1.enc[k]);
            }
            assert(enc@ =~= e.1.enc);
            assert(hash@ =~= e.1.hash);
            assert(crate::node::link_ref_view(lnk) =~= e.1);
            assert(a4 == at + el);
        }
    }
    Some(((name, lnk), a4))
}

#[verifier::rlimit(100)]
fn decode_node_directed(bytes: &Vec<u8>, Ghost(v): Ghost<NodeV>) -> (r: Option<PrivateNode>)
    ensures
        crate::node::nodev_wf(v) && bytes@ == node_bytes(v) ==> (r matches Some(n) && n@ == v),
{
    let ghost hh: bool = crate::node::nodev_wf(v) && bytes@ == node_bytes(v);
    let blen: usize = bytes.len();
    if blen < 1 {
        proof {
            if hh {
                assert(node_bytes(v).len() >= 1);
            }
        }
        return None;
    }
    let tag: u8 = bytes[0];
    proof {
        if hh {
            match v {
                NodeV::File { header, created, content } => {
                    let hb = header_bytes(header);
                    assert(hb.len() == 296 + header.inumber.len());
                    assert(bytes@[0] == 0u8);
                    assert(bytes@.subrange(1, 257) =~= header.name);
                    assert(bytes@.subrange(257, 289) =~= header.seed);
                    assert(bytes@.subrange(289, 297) =~= enc_u64(header.inumber.len() as u64));
                    crate::blockstore::lemma_u64_le_round_trip(header.inumber.len() as u64);
                },
                NodeV::Dir { header, created, entries } => {
                    let hb = header_bytes(header);
                    assert(hb.len() == 296 + header.inumber.len());
                    assert(bytes@[0] == 1u8);
                    assert(bytes@.subrange(1, 257) =~= header.name);
                    assert(bytes@.subrange(257, 289) =~= header.seed);
                    assert(bytes@.subrange(289, 297) =~= enc_u64(header.inumber.len() as u64));
                    crate::blockstore::lemma_u64_le_round_trip(header.inumber.len() as u64);
                },
            }
        }
    }
    let (header, at1) = match read_header(bytes, 1) {
        Some(p) => p,
        None => {
            proof {
                if hh {
                    assert(false);
                }
            }
            return None;
        },
    };
    let ghost hlen: int = 297 + crate::node::node_header_v(v).inumber.len() as int;
    proof {
        if hh {
            assert(header@ =~= crate::node::node_header_v(v));
            assert(at1 == hlen);
        }
    }
    let (created_u, at2) = match read_u64(bytes, at1) {
        Some(p) => p,
        None => {
            proof {
                if hh {
                    assert(bytes@.len() >= hlen + 8);
                    assert(false);
                }
            }
            return None;
        },
    };
    let created: i64 = created_u as i64;
    proof {
        if hh {
            let c = crate::node::nodev_created(v);
            assert(bytes@.subrange(hlen, hlen + 8) =~= enc_u64(c as u64));
            crate::blockstore::lemma_u64_le_round_trip(c as u64);
            assert(created_u == c as u64);
            assert((c as u64) as i64 == c) by (bit_vector);
        }
    }
    if tag == 0u8 {
        let (content, at3) = match read_len_bytes(bytes, at2) {
            Some(p) => p,
            None => {
                proof {
                    if hh {
                        assert(v is File) by {
                            if v is Dir {
                                assert(bytes@[0] == 1u8);
                            }
                        }
                        let ct = v->File_content;
                        assert(bytes@.subrange(at2 as int, at2 + 8) =~= enc_u64(
                            ct.len() as u64,
                        ));
                        crate::blockstore::lemma_u64_le_round_trip(ct.len() as u64);
                        assert(bytes@.len() == at2 + 8 + ct.len());
                        assert(false);
                    }
                }
                return None;
            },
        };
        if at3 != blen {
            proof {
                if hh {
                    assert(v is File) by {
                        if v is Dir {
                            assert(bytes@[0] == 1u8);
                        }
                    }
                    let ct = v->File_content;
                    assert(bytes@.subrange(at2 as int, at2 + 8) =~= enc_u64(ct.len() as u64));
                    crate::blockstore::lemma_u64_le_round_trip(ct.len() as u64);
                    assert(bytes@.len() == at2 + 8 + ct.len());
                    assert(false);
                }
            }
            return None;
        }
        let node = PrivateNode::File(
            PrivateFile {
                header,
                main: PrivateFileMain {
                    metadata: Metadata { created, kind: UnixFsNodeKind::File },
                    content,
                },
            },
        );
        proof {
            if hh {
                assert(v is File) by {
                    if v is Dir {
                        assert(bytes@[0] == 1u8);
                    }
                }
                let ct = v->File_content;
                assert(bytes@.subrange(at2 as int, at2 + 8) =~= enc_u64(ct.len() as u64));
                crate::blockstore::lemma_u64_le_round_trip(ct.len() as u64);
                assert(content@ =~= ct);
                assert(node@ =~= v);
            }
        }
        Some(node)
    } else if tag == 1u8 {
        proof {
            if hh {
                assert(v is Dir) by {
                    if v is File {
                        assert(bytes@[0] == 0u8);
                    }
                }
            }
        }
        let ghost ventries: Seq<(Seq<u8>, RefV)> = if v is Dir {
            v->Dir_entries
        } else {
            Seq::empty()
        };
        let (count, at3) = match read_u64(bytes, at2) {
            Some(p) => p,
            None => {
                proof {
                    if hh {
                        assert(bytes@.len() >= at2 + 8);
                        assert(false);
                    }
                }
                return None;
            },
        };
        proof {
            if hh {
                assert(bytes@.subrange(at2 as int, at2 + 8) =~= enc_u64(
                    ventries.len() as u64,
                ));
                assert(bytes@.subrange(at3 as int, bytes@.len() as int) =~= entries_bytes(
                    ventries,
                ));
                lemma_entries_bytes_len(ventries);
                assert(ventries.len() <= usize::MAX);
                crate::blockstore::lemma_u64_le_round_trip(ventries.len() as u64);
                assert(count == ventries.len());
                assert(ventries.subrange(0, count as int) =~= ventries);
                assert(ventries.subrange(0, 0) =~= Seq::<(Seq<u8>, RefV)>::empty());
                assert(crate::node::entries_view(Seq::<(Vec<u8>, PrivateLink)>::empty())
                    =~= ventries.subrange(0, 0));
            }
        }
        let mut entries: Vec<(Vec<u8>, PrivateLink)> = Vec::new();
        let mut at: usize = at3;
        let mut t: u64 = 0;
        while t < count
            invariant
                0 <= t <= count,
                at <= bytes@.len(),
                bytes@.len() <= usize::MAX,
                hh == (crate::node::nodev_wf(v) && bytes@ == node_bytes(v)),
                hh ==> v is Dir,
                hh && v is Dir ==> {
                    &&& ventries == v->Dir_entries
                    &&& count == ventries.len()
                    &&& bytes@.subrange(at as int, bytes@.len() as int) == entries_bytes(
                        ventries.subrange(t as int, count as int),
                    )
                    &&& entries@.len() == t
                    &&& crate::node::entries_view(entries@) == ventries.subrange(0, t as int)
                },
            decreases count - t,
        {
            let ghost e: (Seq<u8>, RefV) = if hh {
                ventries[t as int]
            } else {
                vstd::pervasive::arbitrary()
            };
            proof {
                if hh {
                    let es_t = ventries.subrange(t as int, count as int);
                    assert(es_t.len() > 0);
                    assert(es_t[0] == ventries[t as int]);
                    assert(es_t.subrange(1, es_t.len() as int) =~= ventries.subrange(
                        t + 1,
                        count as int,
                    ));
                    assert(entries_bytes(es_t) == entry_enc(es_t[0]) + entries_bytes(
                        es_t.subrange(1, es_t.len() as int),
                    ));
                    assert(e.1.hash.len() == 32);
                    assert(at + entry_enc(e).len() <= bytes@.len());
                    assert(bytes@.subrange(at as int, at + entry_enc(e).len()) =~= entry_enc(e));
                }
            }
            let (pair, a4) = match read_entry(bytes, at, Ghost(e)) {
                Some(p) => p,
                None => {
                    proof {
                        if hh {
                            assert(false);
                        }
                    }
                    return None;
                },
            };
            proof {
                if hh {
                    let rest = ventries.subrange(t + 1, count as int);
                    let el: int = entry_enc(e).len() as int;
                    assert(a4 == at + el);
                    assert(entries_bytes(ventries.subrange(t as int, count as int)) == entry_enc(
                        e,
                    ) + entries_bytes(rest));
                    assert(bytes@.subrange(at as int, bytes@.len() as int) == entry_enc(e)
                        + entries_bytes(rest));
                    assert(bytes@.len() - a4 == entries_bytes(rest).len());
                    assert forall|k: int|
                        0 <= k < entries_bytes(rest).len() implies #[trigger] (bytes@.subrange(
                        a4 as int,
                        bytes@.len() as int,
                    )[k]) == entries_bytes(rest)[k] by {
                        assert(bytes@.subrange(a4 as int, bytes@.len() as int)[k] == bytes@[a4
                            + k]);
                        assert(bytes@.subrange(at as int, bytes@.len() as int)[el + k] == bytes@[at
                            + el + k]);
                        assert((entry_enc(e) + entries_bytes(rest))[el + k] == entries_bytes(
                            rest,
                        )[k]);
                    }
                    assert(bytes@.subrange(a4 as int, bytes@.len() as int) =~= entries_bytes(
                        rest,
                    ));
                }
            }
            entries.push(pair);
            proof {
                if hh {
                    assert(crate::node::entries_view(entries@) =~= ventries.subrange(0, t + 1));
                }
            }
            at = a4;
            t = t + 1;
        }
        if at != blen {
            proof {
                if hh {
                    assert(ventries.subrange(count as int, count as int) =~= Seq::<(
                        Seq<u8>,
                        RefV,
                    )>::empty());
                    assert(bytes@.subrange(at as int, bytes@.len() as int).len() == 0);
                    assert(false);
                }
            }
            return None;
        }
        let node = PrivateNode::Dir(
            PrivateDirectory {
                header,
                main: PrivateDirectoryMain {
                    metadata: Metadata { created, kind: UnixFsNodeKind::Dir },
                    entries,
                },
            },
        );
        proof {
            if hh {
                assert(ventries.subrange(0, count as int) =~= ventries);
                assert(node@ =~= v);
            }
        }
        Some(node)
    } else {
        proof {
            if hh {
                if v is File {
                    assert(bytes@[0] == 0u8);
                } else {
                    assert(bytes@[0] == 1u8);
                }
            }
        }
        None
    }
}

/// Parses a node record.  Whenever the input is the exact encoding of a
/// well-formed content, parsing succeeds and the parsed node re-encodes
/// to exactly the input; malformed input yields nothing.
pub fn decode_node(bytes: &Vec<u8>) -> (r: Option<PrivateNode>)
    ensures
        (exists|v: NodeV| crate::node::nodev_wf(v) && bytes@ == node_bytes(v)) ==> (r matches Some(
            n,
        ) && crate::node::nodev_wf(n@) && bytes@ == node_bytes(n@)),
{
    let ghost v: NodeV = if exists|w: NodeV| crate::node::nodev_wf(w) && bytes@ == node_bytes(w) {
        choose|w: NodeV| crate::node::nodev_wf(w) && bytes@ == node_bytes(w)
    } else {
        vstd::pervasive::arbitrary()
    };
    decode_node_directed(bytes, Ghost(v))
}

} // verus!
