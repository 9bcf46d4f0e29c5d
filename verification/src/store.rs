use vstd::prelude::*;

verus! {

use std::rc::Rc;
use crate::error::FsError;
use crate::blockstore::{BlockStore, Cid, cid_of, clone_bytes, bytes_eq};
use crate::codec::{encode_node, decode_node, node_bytes};
use crate::crypto::{xor_spec, xor_transform};
use crate::hamt::{Hamt, hash_eq};
use crate::namefilter::{Namefilter, sat_n, SATURATION_ROUNDS};
use crate::hash::sha3_of;
use crate::node::{EncryptedPrivateNode, PrivateNode, node_norm};
use crate::directory::PrivateRef;
use crate::referenceable::ReferenceableStore;
use crate::HashOutput;

/// The persistent encrypted trie: namefilter-derived hashes to encrypted
/// node records.
pub type PrivateRoot = Hamt<EncryptedPrivateNode>;

/// The private-filesystem store: a persistent in-memory trie of
/// encrypted records whose body blocks live content-addressed in the
/// block store, together with a cache of the nodes this handle has
/// resolved or stored.  Trie nodes themselves are shared in memory and
/// are not written to the block store; only node bodies are.
pub struct HamtStore<B: BlockStore> {
    root: PrivateRoot,
    pub store: B,
    cache: Vec<(PrivateRef, Rc<PrivateNode>)>,
    gets: u64,
    fetches: Ghost<nat>,
}

/// First cache entry whose reference has the given content.
pub open spec fn cache_find(
    s: Seq<(PrivateRef, Rc<PrivateNode>)>,
    rv: crate::node::RefV,
) -> Option<Rc<PrivateNode>>
    decreases s.len(),
{
    if s.len() == 0 {
        None
    } else if s[0].0@ == rv {
        Some(s[0].1)
    } else {
        cache_find(s.subrange(1, s.len() as int), rv)
    }
}

/// Whether the record under `k`'s lookup hash holds one body reference
/// whose block decrypts, with `k`'s content key, to a well-formed node
/// encoding.
pub open spec fn record_decodes(
    trie: Map<Seq<u8>, EncryptedPrivateNode>,
    bs: Map<Seq<u8>, Seq<u8>>,
    k: crate::node::RefV,
) -> bool {
    &&& trie.contains_key(k.hash)
    &&& trie[k.hash].1@.len() == 1
    &&& bs.contains_key(trie[k.hash].1@[0]@)
    &&& exists|v: crate::node::NodeV|
        crate::node::nodev_wf(v) && xor_spec(k.key, bs[trie[k.hash].1@[0]@]) == node_bytes(v)
}

/// The decrypted body bytes of the record under `k`'s lookup hash.
pub open spec fn record_plain(
    trie: Map<Seq<u8>, EncryptedPrivateNode>,
    bs: Map<Seq<u8>, Seq<u8>>,
    k: crate::node::RefV,
) -> Seq<u8> {
    xor_spec(k.key, bs[trie[k.hash].1@[0]@])
}

/// The encrypted header blob that storing content `v` under capability
/// `k` writes into the trie record.
pub open spec fn record_header_ct(k: crate::node::RefV, v: crate::node::NodeV) -> Seq<u8> {
    xor_spec(k.key, crate::codec::header_bytes(crate::node::node_header_v(v)))
}

/// The encrypted body block that storing content `v` under capability
/// `k` writes into the block store.
pub open spec fn record_body_ct(k: crate::node::RefV, v: crate::node::NodeV) -> Seq<u8> {
    xor_spec(k.key, node_bytes(v))
}

impl Clone for PrivateRef {
    /// A copy granting the same capability.
    fn clone(&self) -> (r: Self)
        ensures
            r@ == self@,
    {
        let r = PrivateRef {
            saturated_name_hash: self.saturated_name_hash,
            content_key: self.content_key.clone(),
            enc_ratchet_key: clone_bytes(&self.enc_ratchet_key),
        };
        proof {
            assert(r@ =~= self@);
        }
        r
    }
}

/// Whether two capability references carry the same content.
fn ref_eq(a: &PrivateRef, b: &PrivateRef) -> (r: bool)
    ensures
        r == (a@ == b@),
{
    if !hash_eq(&a.saturated_name_hash, &b.saturated_name_hash) {
        proof {
            assert(a@ != b@);
        }
        return false;
    }
    if !bytes_eq(&a.content_key.key, &b.content_key.key) {
        proof {
            assert(a@ != b@);
        }
        return false;
    }
    let r = bytes_eq(&a.enc_ratchet_key, &b.enc_ratchet_key);
    proof {
        if r {
            assert(a@ =~= b@);
        } else {
            assert(a@ != b@);
        }
    }
    r
}

/// Whether the node is in persistable normal form.
fn check_norm(n: &PrivateNode) -> (b: bool)
    ensures
        b == node_norm(*n),
{
    match n {
        PrivateNode::File(f) => f.header.bare_name.is_wf(),
        PrivateNode::Dir(d) => {
            if !d.header.bare_name.is_wf() {
                return false;
            }
            let mut i: usize = 0;
            while i < d.main.entries.len()
                invariant
                    0 <= i <= d.main.entries@.len(),
                    *n is Dir,
                    (*n)->Dir_0 == *d,
                    forall|k: int|
                        0 <= k < i ==> (#[trigger] d.main.entries@[k].1).spec_reference()
                            is Some,
                decreases d.main.entries@.len() - i,
            {
                if !d.main.entries[i].1.has_reference() {
                    proof {
                        assert(*n is Dir);
                    assert((*n)->Dir_0 == *d);
                        assert(d.main.entries@[i as int].1.spec_reference() is None);
                        assert(!node_norm(*n));
                    }
                    return false;
                }
                i = i + 1;
            }
            proof {
                assert(*n is Dir);
                    assert((*n)->Dir_0 == *d);
                assert(node_norm(*n));
            }
            true
        },
    }
}

proof fn lemma_cache_find_other(
    s: Seq<(PrivateRef, Rc<PrivateNode>)>,
    i: int,
    e: (PrivateRef, Rc<PrivateNode>),
    rv: crate::node::RefV,
)
    requires
        0 <= i < s.len(),
        s[i].0@ == e.0@,
        rv != e.0@,
    ensures
        cache_find(s.update(i, e), rv) == cache_find(s, rv),
    decreases i,
{
    let u = s.update(i, e);
    if i == 0 {
        assert(u.subrange(1, u.len() as int) =~= s.subrange(1, s.len() as int));
    } else {
        assert(u[0] == s[0]);
        let tail = s.subrange(1, s.len() as int);
        assert(forall|t: int| 0 <= t < tail.len() ==> tail[t] == s[t + 1]);
        lemma_cache_find_other(tail, i - 1, e, rv);
        assert(u.subrange(1, u.len() as int) =~= tail.update(i - 1, e));
    }
}

proof fn lemma_cache_find_push(
    s: Seq<(PrivateRef, Rc<PrivateNode>)>,
    e: (PrivateRef, Rc<PrivateNode>),
    rv: crate::node::RefV,
)
    requires
        forall|t: int| 0 <= t < s.len() ==> s[t].0@ != e.0@,
    ensures
        cache_find(s.push(e), rv) == (if rv == e.0@ {
            Some(e.1)
        } else {
            cache_find(s, rv)
        }),
    decreases s.len(),
{
    let p = s.push(e);
    if s.len() == 0 {
        assert(p[0] == e);
        assert(p.subrange(1, p.len() as int) =~= Seq::<(PrivateRef, Rc<PrivateNode>)>::empty());
        assert(cache_find(p.subrange(1, p.len() as int), rv) is None);
        assert(cache_find(s, rv) is None);
    } else {
        assert(p[0] == s[0]);
        let tail = s.subrange(1, s.len() as int);
        assert(forall|t: int| 0 <= t < tail.len() ==> tail[t] == s[t + 1]);
        lemma_cache_find_push(tail, e, rv);
        assert(p.subrange(1, p.len() as int) =~= tail.push(e));
    }
}

/// Stores `node` in the cache under `key`, shadowing any entry whose
/// reference has the same content.
fn cache_insert(
    cache: &mut Vec<(PrivateRef, Rc<PrivateNode>)>,
    key: PrivateRef,
    node: Rc<PrivateNode>,
)
    ensures
        forall|rv: crate::node::RefV|
            cache_find(final(cache)@, rv) == (if rv == key@ {
                Some(node)
            } else {
                cache_find(old(cache)@, rv)
            }),
{
    let ghost key_v = key@;
    let mut i: usize = 0;
    while i < cache.len()
        invariant
            0 <= i <= cache@.len(),
            cache@ == old(cache)@,
            key@ == key_v,
            forall|k: int| 0 <= k < i ==> cache@[k].0@ != key_v,
        decreases cache@.len() - i,
    {
        if ref_eq(&cache[i].0, &key) {
            cache.push((key, node));
            let _old = cache.swap_remove(i);
            proof {
                assert(cache@ =~= old(cache)@.update(i as int, (key, node)));
                assert forall|rv: crate::node::RefV| cache_find(cache@, rv) == (if rv == key_v {
                    Some(node)
                } else {
                    cache_find(old(cache)@, rv)
                }) by {
                    if rv == key_v {
                        lemma_cache_first(cache@, i as int, rv);
                    } else {
                        lemma_cache_find_other(old(cache)@, i as int, (key, node), rv);
                    }
                }
            }
            return ;
        }
        i = i + 1;
    }
    cache.push((key, node));
    proof {
        assert forall|rv: crate::node::RefV| cache_find(cache@, rv) == (if rv == key_v {
            Some(node)
        } else {
            cache_find(old(cache)@, rv)
        }) by {
            lemma_cache_find_push(old(cache)@, (key, node), rv);
        }
    }
}

proof fn lemma_cache_first(s: Seq<(PrivateRef, Rc<PrivateNode>)>, i: int, rv: crate::node::RefV)
    requires
        0 <= i < s.len(),
        forall|k: int| 0 <= k < i ==> s[k].0@ != rv,
        s[i].0@ == rv,
    ensures
        cache_find(s, rv) == Some(s[i].1),
    decreases i,
{
    if i > 0 {
        let tail = s.subrange(1, s.len() as int);
        assert(forall|t: int| 0 <= t < tail.len() ==> tail[t] == s[t + 1]);
        lemma_cache_first(tail, i - 1, rv);
    }
}

impl<B: BlockStore> HamtStore<B> {
    /// Well-formedness: the trie is well formed.
    pub closed spec fn wf(self) -> bool {
        self.root.wf()
    }

    /// The raw encrypted layer's contents: lookup-key hashes to
    /// encrypted records.
    pub closed spec fn trie_map(self) -> Map<Seq<u8>, EncryptedPrivateNode> {
        self.root.as_map()
    }

    /// The block store this handle writes through.
    pub closed spec fn bs(self) -> B {
        self.store
    }

    /// A fresh store over the given block store.
    pub fn new(store: B) -> (r: HamtStore<B>)
        ensures
            r.wf(),
            r.trie_map() == Map::<Seq<u8>, EncryptedPrivateNode>::empty(),
            r.contents() == Map::<PrivateRef, Rc<PrivateNode>>::empty(),
            r.bs() == store,
    {
        let r = HamtStore {
            root: Hamt::new(),
            store,
            cache: Vec::new(),
            gets: 0,
            fetches: Ghost(0nat),
        };
        proof {
            assert(r.contents() =~= Map::<PrivateRef, Rc<PrivateNode>>::empty());
        }
        r
    }

    /// How many reference fetches have run, as an observable number.
    pub fn fetch_count(&self) -> u64 {
        self.gets
    }

    /// Sets a new encrypted record under the key derived from the given
    /// name: the trie is rewritten along one path, everything else
    /// shared.
    pub fn set_encrypted(&mut self, key: &Namefilter, value: EncryptedPrivateNode) -> (res:
        Result<(), FsError>)
        requires
            old(self).wf(),
            key.wf(),
        ensures
            final(self).wf(),
            res is Ok,
            final(self).trie_map() == old(self).trie_map().insert(
                sha3_of(sat_n(key@, SATURATION_ROUNDS as int)),
                value,
            ),
            final(self).contents() == old(self).contents(),
            final(self).fetches() == old(self).fetches(),
    {
        let h = key.saturated_hash();
        self.root = self.root.set(&h, value);
        Ok(())
    }

    /// The encrypted record under the key derived from the given name,
    /// or nothing: a missing key is a normal outcome.
    pub fn get_encrypted<'a>(&'a self, key: &Namefilter) -> (res: Option<
        &'a EncryptedPrivateNode,
    >)
        requires
            self.wf(),
            key.wf(),
        ensures
            match res {
                Some(v) => self.trie_map().contains_key(
                    sha3_of(sat_n(key@, SATURATION_ROUNDS as int)),
                ) && *v == self.trie_map()[sha3_of(sat_n(key@, SATURATION_ROUNDS as int))],
                None => !self.trie_map().contains_key(
                    sha3_of(sat_n(key@, SATURATION_ROUNDS as int)),
                ),
            },
    {
        let h = key.saturated_hash();
        self.root.get(&h)
    }

    /// Removes the encrypted record under the key derived from the given
    /// name, returning it if it was there.
    pub fn remove_encrypted(&mut self, key: &Namefilter) -> (res: Result<
        Option<EncryptedPrivateNode>,
        FsError,
    >)
        requires
            old(self).wf(),
            key.wf(),
        ensures
            final(self).wf(),
            final(self).trie_map() == old(self).trie_map().remove(
                sha3_of(sat_n(key@, SATURATION_ROUNDS as int)),
            ),
            final(self).contents() == old(self).contents(),
            match res {
                Ok(Some(v)) => {
                    let rec = old(self).trie_map()[sha3_of(
                        sat_n(key@, SATURATION_ROUNDS as int),
                    )];
                    &&& old(self).trie_map().contains_key(
                        sha3_of(sat_n(key@, SATURATION_ROUNDS as int)),
                    )
                    &&& v.0@ == rec.0@
                    &&& v.1@.len() == rec.1@.len()
                    &&& forall|i: int| 0 <= i < v.1@.len() ==> (#[trigger] v.1@[i])@ == rec.1@[i]@
                },
                Ok(None) => !old(self).trie_map().contains_key(
                    sha3_of(sat_n(key@, SATURATION_ROUNDS as int)),
                ),
                Err(_) => false,
            },
    {
        let h = key.saturated_hash();
        let (root2, removed) = self.root.remove(&h);
        self.root = root2;
        match removed {
            Some(rc) => {
                let hdr = clone_bytes(&rc.1.0);
                let mut cids: Vec<Cid> = Vec::new();
                let mut i: usize = 0;
                while i < rc.1.1.len()
                    invariant
                        0 <= i <= rc.1.1@.len(),
                        cids@.len() == i,
                        forall|k: int| 0 <= k < i ==> (#[trigger] cids@[k])@ == rc.1.1@[k]@,
                    decreases rc.1.1@.len() - i,
                {
                    cids.push(rc.1.1[i].clone());
                    i = i + 1;
                }
                Ok(Some((hdr, cids)))
            },
            None => Ok(None),
        }
    }
}

/// The cache without any entry whose reference carries the given
/// content.
pub open spec fn cache_drop(
    s: Seq<(PrivateRef, Rc<PrivateNode>)>,
    rv: crate::node::RefV,
) -> Seq<(PrivateRef, Rc<PrivateNode>)>
    decreases s.len(),
{
    if s.len() == 0 {
        Seq::empty()
    } else if s[0].0@ == rv {
        cache_drop(s.subrange(1, s.len() as int), rv)
    } else {
        seq![s[0]] + cache_drop(s.subrange(1, s.len() as int), rv)
    }
}

proof fn lemma_cache_drop(
    s: Seq<(PrivateRef, Rc<PrivateNode>)>,
    kv: crate::node::RefV,
    rv: crate::node::RefV,
)
    ensures
        cache_find(cache_drop(s, kv), kv) is None,
        rv != kv ==> cache_find(cache_drop(s, kv), rv) == cache_find(s, rv),
    decreases s.len(),
{
    if s.len() > 0 {
        let tail = s.subrange(1, s.len() as int);
        lemma_cache_drop(tail, kv, rv);
        if s[0].0@ != kv {
            let d = seq![s[0]] + cache_drop(tail, kv);
            assert(d[0] == s[0]);
            assert(d.subrange(1, d.len() as int) =~= cache_drop(tail, kv));
        }
    }
}

proof fn lemma_cache_drop_snoc(
    s: Seq<(PrivateRef, Rc<PrivateNode>)>,
    e: (PrivateRef, Rc<PrivateNode>),
    kv: crate::node::RefV,
)
    ensures
        cache_drop(s.push(e), kv) == (if e.0@ == kv {
            cache_drop(s, kv)
        } else {
            cache_drop(s, kv).push(e)
        }),
    decreases s.len(),
{
    let p = s.push(e);
    if s.len() == 0 {
        assert(p[0] == e);
        assert(p.subrange(1, p.len() as int) =~= Seq::<(PrivateRef, Rc<PrivateNode>)>::empty());
        assert(cache_drop(p.subrange(1, p.len() as int), kv) =~= Seq::<(
            PrivateRef,
            Rc<PrivateNode>,
        )>::empty());
        if e.0@ != kv {
            assert(cache_drop(p, kv) =~= cache_drop(s, kv).push(e));
        } else {
            assert(cache_drop(p, kv) =~= cache_drop(s, kv));
        }
    } else {
        assert(p[0] == s[0]);
        let tail = s.subrange(1, s.len() as int);
        lemma_cache_drop_snoc(tail, e, kv);
        assert(p.subrange(1, p.len() as int) =~= tail.push(e));
        if s[0].0@ != kv {
            if e.0@ == kv {
                assert(cache_drop(p, kv) =~= cache_drop(s, kv));
            } else {
                assert(cache_drop(p, kv) =~= cache_drop(s, kv).push(e));
            }
        }
    }
}

/// First cached node whose reference carries the same content as `key`.
fn cache_lookup(cache: &Vec<(PrivateRef, Rc<PrivateNode>)>, key: &PrivateRef) -> (r: Option<
    Rc<PrivateNode>,
>)
    ensures
        match r {
            Some(v) => cache_find(cache@, key@) == Some(v),
            None => cache_find(cache@, key@) is None,
        },
{
    let mut i: usize = 0;
    while i < cache.len()
        invariant
            0 <= i <= cache@.len(),
            forall|k: int| 0 <= k < i ==> cache@[k].0@ != key@,
        decreases cache@.len() - i,
    {
        if ref_eq(&cache[i].0, key) {
            proof {
                lemma_cache_first(cache@, i as int, key@);
            }
            return Some(Rc::clone(&cache[i].1));
        }
        i = i + 1;
    }
    proof {
        lemma_cache_none(cache@, key@);
    }
    None
}

impl<B: BlockStore> HamtStore<B> {
    fn purge_cache(&mut self, key: &PrivateRef)
        ensures
            final(self).cache@ == cache_drop(old(self).cache@, key@),
            final(self).root == old(self).root,
            final(self).store == old(self).store,
            final(self).gets == old(self).gets,
            final(self).fetches@ == old(self).fetches@,
    {
        let mut kept: Vec<(PrivateRef, Rc<PrivateNode>)> = Vec::new();
        let mut i: usize = 0;
        proof {
            assert(old(self).cache@.subrange(0, 0) =~= Seq::<(
                PrivateRef,
                Rc<PrivateNode>,
            )>::empty());
        }
        while i < self.cache.len()
            invariant
                0 <= i <= self.cache@.len(),
                self.cache@.len() == old(self).cache@.len(),
                forall|k: int| i <= k < self.cache@.len() ==> self.cache@[k] == old(self).cache@[k],
                self.root == old(self).root,
                self.store == old(self).store,
                self.gets == old(self).gets,
                self.fetches@ == old(self).fetches@,
                kept@ == cache_drop(old(self).cache@.subrange(0, i as int), key@),
            decreases self.cache@.len() - i,
        {
            let dummy: (PrivateRef, Rc<PrivateNode>) = (
                PrivateRef {
                    saturated_name_hash: [0u8; 32],
                    content_key: crate::crypto::ContentKey::new(Vec::new()),
                    enc_ratchet_key: Vec::new(),
                },
                Rc::clone(&self.cache[i].1),
            );
            let ghost pre_swap = self.cache@;
            self.cache.push(dummy);
            let entry = self.cache.swap_remove(i);
            proof {
                assert(entry == old(self).cache@[i as int]);
                assert(self.cache@ =~= pre_swap.update(i as int, dummy));
                let pre = old(self).cache@.subrange(0, i as int);
                assert(old(self).cache@.subrange(0, i + 1) =~= pre.push(entry));
                lemma_cache_drop_snoc(pre, entry, key@);
            }
            if !ref_eq(&entry.0, key) {
                kept.push(entry);
            }
            i = i + 1;
        }
        proof {
            assert(old(self).cache@.subrange(0, old(self).cache@.len() as int) =~= old(self).cache@);
        }
        self.cache = kept;
    }

    /// Encrypts `value` under the given capability, writes the body
    /// block into the block store and the record into the trie, and
    /// remembers the node so that this handle resolves the reference to
    /// exactly this value.  A directory whose entries are not all
    /// reference-resolved is rejected; on any failure nothing is
    /// changed.
    pub fn set(&mut self, key: &PrivateRef, value: Rc<PrivateNode>) -> (res: Result<(), FsError>)
        ensures
            !node_norm(*value) ==> res is Err,
            res is Err ==> {
                &&& final(self).contents() == old(self).contents()
                &&& final(self).trie_map() == old(self).trie_map()
                &&& final(self).bs().bs_contents() == old(self).bs().bs_contents()
                &&& final(self).bs().bs_fetches() == old(self).bs().bs_fetches()
                &&& final(self).fetches() == old(self).fetches()
            },
            res is Ok ==> {
                &&& final(self).contents().contains_key(*key)
                &&& final(self).contents()[*key] == value
                &&& forall|r2: PrivateRef|
                    r2@ != key@ ==> {
                        &&& (#[trigger] final(self).contents().contains_key(r2)) == old(self).contents().contains_key(r2)
                        &&& old(self).contents().contains_key(r2) ==> final(self).contents()[r2]
                            == old(self).contents()[r2]
                    }
                &&& final(self).trie_map().contains_key(key.saturated_name_hash@)
                &&& final(self).trie_map()[key.saturated_name_hash@].0@ == record_header_ct(key@, value@)
                &&& final(self).trie_map()[key.saturated_name_hash@].1@.len() == 1
                &&& final(self).trie_map()[key.saturated_name_hash@].1@[0]@ == cid_of(record_body_ct(key@, value@))
                &&& forall|k2: Seq<u8>|
                    k2 != key.saturated_name_hash@ ==> {
                        &&& (#[trigger] final(self).trie_map().contains_key(k2)) == old(self).trie_map().contains_key(k2)
                        &&& old(self).trie_map().contains_key(k2) ==> final(self).trie_map()[k2]
                            == old(self).trie_map()[k2]
                    }
                &&& final(self).bs().bs_contents() == old(self).bs().bs_contents().insert(
                    cid_of(record_body_ct(key@, value@)),
                    record_body_ct(key@, value@),
                )
                &&& final(self).bs().bs_fetches() == old(self).bs().bs_fetches()
                &&& final(self).fetches() == old(self).fetches()
            },
    {
        if !check_norm(&*value) {
            return Err(FsError::DecodeError);
        }
        if !self.root.check_wf() {
            return Err(FsError::DecodeError);
        }
        let plain = encode_node(&*value);
        let body_ct = xor_transform(&key.content_key.key, &plain);
        let ghost body_ct_view = body_ct@;
        let header_bytes_plain = crate::codec::encode_header_only(&*value);
        let header_ct = xor_transform(&key.content_key.key, &header_bytes_plain);
        let cid = match self.store.put_block(body_ct) {
            Ok(c) => c,
            Err(e) => {
                return Err(e);
            },
        };
        let mut cids: Vec<Cid> = Vec::new();
        cids.push(cid);
        self.root = self.root.set(&key.saturated_name_hash, (header_ct, cids));
        cache_insert(&mut self.cache, key.clone(), Rc::clone(&value));
        proof {
            assert(body_ct_view == record_body_ct(key@, value@));
            assert(final(self).trie_map() == old(self).trie_map().insert(
                key.saturated_name_hash@,
                final(self).trie_map()[key.saturated_name_hash@],
            ));
        }
        Ok(())
    }

    /// Resolves a capability through the trie and the block store,
    /// without consulting or touching the resolution cache.
    fn fetch_from_trie(&mut self, key: &PrivateRef) -> (res: Result<
        Option<Rc<PrivateNode>>,
        FsError,
    >)
        ensures
            final(self).cache@ == old(self).cache@,
            final(self).root == old(self).root,
            final(self).fetches() == old(self).fetches(),
            final(self).gets == old(self).gets,
            final(self).bs().bs_contents() == old(self).bs().bs_contents(),
            res == Ok::<Option<Rc<PrivateNode>>, FsError>(None) ==> old(self).wf() && !old(self).trie_map().contains_key(key.saturated_name_hash@),
            old(self).wf() && !old(self).trie_map().contains_key(key.saturated_name_hash@)
                ==> res == Ok::<Option<Rc<PrivateNode>>, FsError>(None),
            res matches Ok(opt) && opt is Some ==> old(self).wf() && old(self).trie_map().contains_key(key.saturated_name_hash@),
            old(self).wf() && record_decodes(
                old(self).trie_map(),
                old(self).bs().bs_contents(),
                key@,
            ) ==> (res matches Ok(opt) ==> (opt matches Some(n) && crate::node::nodev_wf(n@)
                && node_bytes(n@) == record_plain(
                old(self).trie_map(),
                old(self).bs().bs_contents(),
                key@,
            ))),
    {
        if !self.root.check_wf() {
            return Err(FsError::DecodeError);
        }
        let found = match self.root.get(&key.saturated_name_hash) {
            Some(rec) => rec,
            None => {
                return Ok(None);
            },
        };
        if found.1.len() != 1 {
            return Err(FsError::DecodeError);
        }
        let cid_copy = found.1[0].clone();
        let body_ct = match self.store.get_block(&cid_copy) {
            Ok(b) => b,
            Err(e) => {
                return Err(e);
            },
        };
        let body_pt = xor_transform(&key.content_key.key, &body_ct);
        match decode_node(&body_pt) {
            Some(node) => Ok(Some(Rc::new(node))),
            None => Err(FsError::DecodeError),
        }
    }

    /// The node this handle resolves the capability to; on a miss the
    /// encrypted trie and block store are consulted.  A reference known
    /// to neither is a normal absence, not an error.
    pub fn get(&mut self, key: &PrivateRef) -> (res: Result<Option<Rc<PrivateNode>>, FsError>)
        ensures
            final(self).contents() == old(self).contents(),
            final(self).trie_map() == old(self).trie_map(),
            old(self).contents().contains_key(*key) ==> res == Ok::<
                Option<Rc<PrivateNode>>,
                FsError,
            >(Some(old(self).contents()[*key])) && *final(self) == *old(self),
            res == Ok::<Option<Rc<PrivateNode>>, FsError>(None) ==> !old(self).contents().contains_key(*key) && !old(self).trie_map().contains_key(
                key.saturated_name_hash@,
            ),
            old(self).wf() && !old(self).contents().contains_key(*key) && !old(self).trie_map().contains_key(key.saturated_name_hash@) ==> res == Ok::<
                Option<Rc<PrivateNode>>,
                FsError,
            >(None),
            res matches Ok(opt) && opt is Some && !old(self).contents().contains_key(*key)
                ==> old(self).trie_map().contains_key(key.saturated_name_hash@),
            old(self).wf() && !old(self).contents().contains_key(*key) && record_decodes(
                old(self).trie_map(),
                old(self).bs().bs_contents(),
                key@,
            ) ==> (res matches Ok(opt) ==> (opt matches Some(n) && crate::node::nodev_wf(n@)
                && node_bytes(n@) == record_plain(
                old(self).trie_map(),
                old(self).bs().bs_contents(),
                key@,
            ))),
    {
        match cache_lookup(&self.cache, key) {
            Some(v) => Ok(Some(v)),
            None => self.fetch_from_trie(key),
        }
    }

    /// Forgets the capability: removes the record from the trie and the
    /// node from this handle's resolution map, returning the node if
    /// this handle held it.  On failure nothing is changed.
    pub fn remove(&mut self, key: &PrivateRef) -> (res: Result<Option<Rc<PrivateNode>>, FsError>)
        ensures
            res is Err ==> *final(self) == *old(self),
            res is Ok ==> {
                &&& !final(self).contents().contains_key(*key)
                &&& forall|r2: PrivateRef|
                    r2@ != key@ ==> {
                        &&& (#[trigger] final(self).contents().contains_key(r2)) == old(self).contents().contains_key(r2)
                        &&& old(self).contents().contains_key(r2) ==> final(self).contents()[r2]
                            == old(self).contents()[r2]
                    }
                &&& final(self).trie_map() == old(self).trie_map().remove(key.saturated_name_hash@)
                &&& final(self).bs().bs_contents() == old(self).bs().bs_contents()
                &&& final(self).fetches() == old(self).fetches()
            },
            old(self).contents().contains_key(*key) && res is Ok ==> res == Ok::<
                Option<Rc<PrivateNode>>,
                FsError,
            >(Some(old(self).contents()[*key])),
    {
        if !self.root.check_wf() {
            return Err(FsError::DecodeError);
        }
        let held = cache_lookup(&self.cache, key);
        self.purge_cache(key);
        let (root2, _removed) = self.root.remove(&key.saturated_name_hash);
        self.root = root2;
        proof {
            lemma_cache_drop(old(self).cache@, key@, key@);
            assert forall|r2: PrivateRef| r2@ != key@ implies {
                &&& (#[trigger] final(self).contents().contains_key(r2)) == old(self).contents().contains_key(r2)
                &&& old(self).contents().contains_key(r2) ==> final(self).contents()[r2] == old(self).contents()[r2]
            } by {
                lemma_cache_drop(old(self).cache@, key@, r2@);
            }
        }
        Ok(held)
    }
}

impl<B: BlockStore> ReferenceableStore<PrivateRef, Rc<PrivateNode>> for HamtStore<B> {
    /// What this handle resolves: the nodes it has stored or fetched,
    /// keyed by capability reference content.
    closed spec fn contents(&self) -> Map<PrivateRef, Rc<PrivateNode>> {
        Map::new(
            |r: PrivateRef| cache_find(self.cache@, r@) is Some,
            |r: PrivateRef| cache_find(self.cache@, r@).unwrap(),
        )
    }

    closed spec fn fetches(&self) -> nat {
        self.fetches@
    }

    fn get_value(&mut self, reference: &PrivateRef) -> (res: Result<Rc<PrivateNode>, FsError>)
        ensures
            final(self).trie_map() == old(self).trie_map(),
            res matches Ok(v) && !old(self).contents().contains_key(*reference) ==> old(self).trie_map().contains_key(reference.saturated_name_hash@),
            old(self).wf() && !old(self).contents().contains_key(*reference) && !old(self).trie_map().contains_key(reference.saturated_name_hash@) ==> res == Err::<
                Rc<PrivateNode>,
                FsError,
            >(FsError::CidNotFound),
            old(self).wf() && !old(self).contents().contains_key(*reference) && record_decodes(
                old(self).trie_map(),
                old(self).bs().bs_contents(),
                reference@,
            ) ==> (res matches Ok(n) ==> crate::node::nodev_wf(n@) && node_bytes(n@)
                == record_plain(
                old(self).trie_map(),
                old(self).bs().bs_contents(),
                reference@,
            )),
    {
        proof {
            self.fetches@ = self.fetches@ + 1;
        }
        self.gets = self.gets.saturating_add(1);
        match cache_lookup(&self.cache, reference) {
            Some(v) => Ok(v),
            None => {
                match self.fetch_from_trie(reference) {
                    Ok(Some(n)) => Ok(n),
                    Ok(None) => Err(FsError::CidNotFound),
                    Err(e) => Err(e),
                }
            },
        }
    }

    fn put_value(&mut self, value: &Rc<PrivateNode>) -> (res: Result<PrivateRef, FsError>)
        ensures
            res matches Ok(r) ==> final(self).trie_map().contains_key(r.saturated_name_hash@)
                && final(self).trie_map()[r.saturated_name_hash@].0@ == record_header_ct(
                r@,
                (*value)@,
            ) && final(self).trie_map()[r.saturated_name_hash@].1@.len() == 1
                && final(self).trie_map()[r.saturated_name_hash@].1@[0]@ == cid_of(
                record_body_ct(r@, (*value)@),
            ),
    {
        if !check_norm(&**value) {
            return Err(FsError::DecodeError);
        }
        let header = match &**value {
            PrivateNode::File(f) => &f.header,
            PrivateNode::Dir(d) => &d.header,
        };
        let key = header.derive_private_ref();
        match self.set(&key, Rc::clone(value)) {
            Ok(()) => Ok(key),
            Err(e) => Err(e),
        }
    }
}

proof fn lemma_cache_none(s: Seq<(PrivateRef, Rc<PrivateNode>)>, rv: crate::node::RefV)
    requires
        forall|k: int| 0 <= k < s.len() ==> s[k].0@ != rv,
    ensures
        cache_find(s, rv) is None,
    decreases s.len(),
{
    if s.len() > 0 {
        let tail = s.subrange(1, s.len() as int);
        assert(forall|t: int| 0 <= t < tail.len() ==> tail[t] == s[t + 1]);
        lemma_cache_none(tail, rv);
    }
}

} // verus!
