use vstd::prelude::*;

verus! {

use std::rc::Rc;
use crate::HashOutput;
use crate::error::FsError;
use crate::blockstore::bytes_eq;
use crate::crypto::ContentKey;
use crate::namefilter::{Namefilter, apply_upto, add_seed, BITS_PER_ADD};
use crate::node::{
    INumber, Metadata, PrivateLink, PrivateNode, PrivateNodeHeader, UnixFsNodeKind, parent_base,
    ratchet_of,
};
use crate::referenceable::ReferenceableStore;

/// A capability reference: possession grants read access to one revision
/// of one node.  It carries the trie lookup key, the content decryption
/// key, and the encrypted revision key material.
pub struct PrivateRef {
    pub saturated_name_hash: HashOutput,
    pub content_key: ContentKey,
    pub enc_ratchet_key: Vec<u8>,
}

/// The body of a private directory: metadata and the named entries, each
/// a lazy link to a child node.
pub struct PrivateDirectoryMain {
    pub metadata: Metadata,
    pub entries: Vec<(Vec<u8>, PrivateLink)>,
}

/// An encrypted directory node: identity header plus body.
pub struct PrivateDirectory {
    pub header: PrivateNodeHeader,
    pub main: PrivateDirectoryMain,
}

/// The first entry under the given name, if any.
pub open spec fn find_entry(es: Seq<(Vec<u8>, PrivateLink)>, name: Seq<u8>) -> Option<PrivateLink>
    decreases es.len(),
{
    if es.len() == 0 {
        None
    } else if es[0].0@ == name {
        Some(es[0].1)
    } else {
        find_entry(es.subrange(1, es.len() as int), name)
    }
}

/// The outcome of walking a path through in-memory (value-resolved)
/// links alone.
pub enum WalkOutcome {
    /// The path is empty, or a non-final segment is not a directory.
    Invalid,
    /// A segment is missing: a normal "not found", never an error.
    Absent,
    /// The node the full path names.
    Found(Rc<PrivateNode>),
    /// The walk met a link that only a store round trip can resolve.
    Unresolved,
}

/// Walks `path` from `dir` through links that hold their value in
/// memory.  A link that would need the store yields `Unresolved`; the
/// executable walk then continues through the store, and its result is
/// covered by the store's own contracts rather than by this function.
pub open spec fn value_walk(dir: PrivateDirectory, path: Seq<Seq<u8>>) -> WalkOutcome
    decreases path.len(),
{
    if path.len() == 0 {
        WalkOutcome::Invalid
    } else {
        match find_entry(dir.main.entries@, path[0]) {
            None => WalkOutcome::Absent,
            Some(link) => {
                if link.spec_value() is None {
                    WalkOutcome::Unresolved
                } else {
                    let node = link.spec_value().unwrap();
                    if path.len() == 1 {
                        WalkOutcome::Found(node)
                    } else {
                        match *node {
                            PrivateNode::Dir(d2) => value_walk(
                                d2,
                                path.subrange(1, path.len() as int),
                            ),
                            PrivateNode::File(_) => WalkOutcome::Invalid,
                        }
                    }
                }
            },
        }
    }
}

/// The node a link leads to, given what the store resolves: the cached
/// value where there is one, else the store's binding for the link's
/// reference, else nothing.
pub open spec fn link_target(
    lnk: PrivateLink,
    contents: Map<PrivateRef, Rc<PrivateNode>>,
) -> Option<Rc<PrivateNode>> {
    if lnk.spec_value() is Some {
        lnk.spec_value()
    } else if contents.contains_key(lnk.spec_reference().unwrap()) {
        Some(contents[lnk.spec_reference().unwrap()])
    } else {
        None
    }
}

/// Walks `path` from `dir`, resolving each link through its cached value
/// or through the store's contents.  `Unresolved` marks a walk that
/// crosses a link the given contents do not determine; everywhere else
/// the outcome is exact.
pub open spec fn store_walk(
    dir: PrivateDirectory,
    path: Seq<Seq<u8>>,
    contents: Map<PrivateRef, Rc<PrivateNode>>,
) -> WalkOutcome
    decreases path.len(),
{
    if path.len() == 0 {
        WalkOutcome::Invalid
    } else {
        match find_entry(dir.main.entries@, path[0]) {
            None => WalkOutcome::Absent,
            Some(lnk) => {
                match link_target(lnk, contents) {
                    None => WalkOutcome::Unresolved,
                    Some(node) => {
                        if path.len() == 1 {
                            WalkOutcome::Found(node)
                        } else {
                            match *node {
                                PrivateNode::Dir(d2) => store_walk(
                                    d2,
                                    path.subrange(1, path.len() as int),
                                    contents,
                                ),
                                PrivateNode::File(_) => WalkOutcome::Invalid,
                            }
                        }
                    },
                }
            },
        }
    }
}

/// Finds the first entry with the given name and returns its index.
fn find_entry_at<'a>(es: &'a Vec<(Vec<u8>, PrivateLink)>, name: &Vec<u8>) -> (r: Option<usize>)
    ensures
        match r {
            Some(i) => i < es@.len() && es@[i as int].0@ == name@ && find_entry(es@, name@)
                == Some(es@[i as int].1) && forall|k: int| 0 <= k < i ==> es@[k].0@ != name@,
            None => find_entry(es@, name@) is None && forall|k: int|
                0 <= k < es@.len() ==> es@[k].0@ != name@,
        },
{
    let mut i: usize = 0;
    proof {
        assert(es@.subrange(0, es@.len() as int) =~= es@);
    }
    while i < es.len()
        invariant
            0 <= i <= es@.len(),
            forall|k: int| 0 <= k < i ==> es@[k].0@ != name@,
            find_entry(es@, name@) == find_entry(es@.subrange(i as int, es@.len() as int), name@),
        decreases es@.len() - i,
    {
        proof {
            let tail = es@.subrange(i as int, es@.len() as int);
            assert(tail[0] == es@[i as int]);
            assert(tail.subrange(1, tail.len() as int) =~= es@.subrange(i + 1, es@.len() as int));
        }
        if bytes_eq(&es[i].0, name) {
            return Some(i);
        }
        i = i + 1;
    }
    None
}

impl PrivateDirectory {
    /// A fresh, empty directory with a fresh header, stamped with the
    /// given time.
    pub fn new(
        parent_bare_name: Option<Namefilter>,
        inumber: INumber,
        ratchet_seed: HashOutput,
        time: i64,
    ) -> (r: PrivateDirectory)
        requires
            parent_bare_name matches Some(n) ==> n.wf(),
        ensures
            r.header.bare_name.wf(),
            r.header.bare_name@ == apply_upto(
                parent_base(parent_bare_name),
                add_seed(parent_base(parent_bare_name), r.header.inumber@),
                BITS_PER_ADD as int,
            ),
            r.header.ratchet == ratchet_of(ratchet_seed@),
            r.header.ratchet_seed == ratchet_seed,
            r.header.inumber == inumber,
            r.main.metadata.created == time,
            r.main.metadata.kind == UnixFsNodeKind::Dir,
            r.main.entries@ == Seq::<(Vec<u8>, PrivateLink)>::empty(),
    {
        PrivateDirectory {
            header: PrivateNodeHeader::new(parent_bare_name, inumber, ratchet_seed),
            main: PrivateDirectoryMain {
                metadata: Metadata::new(time, UnixFsNodeKind::Dir),
                entries: Vec::new(),
            },
        }
    }

    /// This directory with `name` bound to `link`: a fresh name is
    /// appended, an existing one is rebound, so names stay unique.
    /// Mutation yields a new owned value, the persistent-structure
    /// intent throughout this system.
    pub fn with_entry(self, name: Vec<u8>, link: PrivateLink) -> (r: PrivateDirectory)
        ensures
            r.header == self.header,
            r.main.metadata == self.main.metadata,
            find_entry(r.main.entries@, name@) == Some(link),
            forall|n2: Seq<u8>|
                n2 != name@ ==> find_entry(r.main.entries@, n2) == find_entry(
                    self.main.entries@,
                    n2,
                ),
            find_entry(self.main.entries@, name@) is Some ==> r.main.entries@.len()
                == self.main.entries@.len(),
            find_entry(self.main.entries@, name@) is None ==> r.main.entries@.len()
                == self.main.entries@.len() + 1,
    {
        let mut main = self.main;
        let ghost entries0 = main.entries@;
        let ghost name_v = name@;
        match find_entry_at(&main.entries, &name) {
            Some(i) => {
                main.entries.push((name, link));
                let _old = main.entries.swap_remove(i);
                proof {
                    assert(main.entries@ =~= entries0.update(i as int, (main.entries@[i as int])));
                    assert(main.entries@[i as int].0@ == name_v);
                    assert(main.entries@[i as int].1 == link);
                    lemma_find_entry_first(main.entries@, i as int, name_v);
                    assert forall|n2: Seq<u8>| n2 != name_v implies find_entry(
                        main.entries@,
                        n2,
                    ) == find_entry(entries0, n2) by {
                        lemma_find_entry_update_other(
                            entries0,
                            i as int,
                            main.entries@[i as int],
                            n2,
                        );
                    }
                }
            },
            None => {
                main.entries.push((name, link));
                proof {
                    assert(main.entries@ =~= entries0.push(main.entries@.last()));
                    assert forall|n2: Seq<u8>| true implies find_entry(main.entries@, n2) == (
                    if n2 == name_v {
                        Some(link)
                    } else {
                        find_entry(entries0, n2)
                    }) by {
                        lemma_find_entry_push(entries0, main.entries@.last(), n2);
                    }
                }
            },
        }
        PrivateDirectory { header: self.header, main }
    }

    /// Resolves the reference of every entry link through the store: a
    /// link that held only its value has its node written and the
    /// returned capability cached, the store-write side of serializing a
    /// composite.  The directory comes back ready to persist, every
    /// entry carrying a reference and no cached value dropped; the first
    /// failing write aborts with its error.
    pub fn resolve_entries<RS: ReferenceableStore<PrivateRef, Rc<PrivateNode>>>(
        self,
        store: &mut RS,
    ) -> (res: Result<PrivateDirectory, FsError>)
        ensures
            res matches Ok(d) ==> {
                &&& d.header == self.header
                &&& d.main.metadata == self.main.metadata
                &&& d.main.entries@.len() == self.main.entries@.len()
                &&& forall|i: int|
                    0 <= i < d.main.entries@.len() ==> {
                        &&& (#[trigger] d.main.entries@[i]).0@ == self.main.entries@[i].0@
                        &&& d.main.entries@[i].1.spec_reference() is Some
                        &&& d.main.entries@[i].1.spec_value()
                            == self.main.entries@[i].1.spec_value()
                        &&& self.main.entries@[i].1.spec_reference() is Some
                            ==> d.main.entries@[i] == self.main.entries@[i]
                    }
            },
    {
        let header = self.header;
        let mut main = self.main;
        let ghost entries0 = main.entries@;
        let ghost meta0 = main.metadata;
        let mut i: usize = 0;
        while i < main.entries.len()
            invariant
                0 <= i <= main.entries@.len(),
                main.metadata == meta0,
                main.entries@.len() == entries0.len(),
                forall|k: int| i <= k < entries0.len() ==> main.entries@[k] == entries0[k],
                forall|k: int|
                    0 <= k < i ==> {
                        &&& (#[trigger] main.entries@[k]).0@ == entries0[k].0@
                        &&& main.entries@[k].1.spec_reference() is Some
                        &&& main.entries@[k].1.spec_value() == entries0[k].1.spec_value()
                        &&& entries0[k].1.spec_reference() is Some ==> main.entries@[k]
                            == entries0[k]
                    },
            decreases main.entries@.len() - i,
        {
            let dummy_pair: (Vec<u8>, PrivateLink) = (
                Vec::new(),
                crate::referenceable::Referenceable::Encoded {
                    reference: PrivateRef {
                        saturated_name_hash: [0u8; 32],
                        content_key: ContentKey::new(Vec::new()),
                        enc_ratchet_key: Vec::new(),
                    },
                    value_cache: None,
                },
            );
            let ghost pre = main.entries@;
            main.entries.push(dummy_pair);
            let mut pair = main.entries.swap_remove(i);
            proof {
                assert(pair == entries0[i as int]);
            }
            if !pair.1.has_reference() {
                match pair.1.resolve_reference(store) {
                    Ok(_) => {},
                    Err(e) => {
                        return Err(e);
                    },
                }
            }
            main.entries.push(pair);
            let _dummy = main.entries.swap_remove(i);
            proof {
                assert(main.entries@ =~= pre.update(i as int, main.entries@[i as int]));
            }
            i = i + 1;
        }
        Ok(PrivateDirectory { header, main })
    }

    /// Looks `path_segment` up among the entries and resolves its link
    /// through the store, caching the resolved node in the entry.
    /// Absence is a normal outcome, not an error.
    pub fn lookup_node<RS: ReferenceableStore<PrivateRef, Rc<PrivateNode>>>(
        &mut self,
        path_segment: &Vec<u8>,
        store: &mut RS,
    ) -> (res: Result<Option<Rc<PrivateNode>>, FsError>)
        ensures
            final(self).header == old(self).header,
            final(store).contents() == old(store).contents(),
            find_entry(old(self).main.entries@, path_segment@) is None ==> {
                &&& res == Ok::<Option<Rc<PrivateNode>>, FsError>(None)
                &&& final(self).main.entries@ == old(self).main.entries@
                &&& final(store).fetches() == old(store).fetches()
            },
            find_entry(old(self).main.entries@, path_segment@) matches Some(lnk) ==> {
                &&& lnk.spec_value() is Some ==> {
                    &&& res == Ok::<Option<Rc<PrivateNode>>, FsError>(
                        Some(lnk.spec_value().unwrap()),
                    )
                    &&& final(self).main.entries@ =~= old(self).main.entries@
                    &&& final(store).fetches() == old(store).fetches()
                }
                &&& lnk.spec_value() is None ==> {
                    &&& final(store).fetches() == old(store).fetches() + 1
                    &&& (res matches Ok(opt) ==> {
                        &&& opt is Some
                        &&& (old(store).contents().contains_key(lnk.spec_reference().unwrap())
                            ==> opt.unwrap() == old(store).contents()[lnk.spec_reference().unwrap()])
                        &&& (find_entry(final(self).main.entries@, path_segment@) matches Some(l2)
                            && l2.spec_value() == Some(opt.unwrap()))
                    })
                }
            },
    {
        let ghost entries0 = self.main.entries@;
        match find_entry_at(&self.main.entries, path_segment) {
            None => Ok(None),
            Some(i) => {
                proof {
                    lemma_find_entry_first(entries0, i as int, path_segment@);
                }
                let dummy_pair: (Vec<u8>, PrivateLink) = (
                    Vec::new(),
                    crate::referenceable::Referenceable::Encoded {
                        reference: PrivateRef {
                            saturated_name_hash: [0u8; 32],
                            content_key: ContentKey::new(Vec::new()),
                            enc_ratchet_key: Vec::new(),
                        },
                        value_cache: None,
                    },
                );
                self.main.entries.push(dummy_pair);
                let mut pair = self.main.entries.swap_remove(i);
                proof {
                    assert(pair == entries0[i as int]);
                }
                let res: Result<Option<Rc<PrivateNode>>, FsError> = match pair.1.resolve_value(
                    store,
                ) {
                    Ok(rc_ref) => Ok(Some(Rc::clone(rc_ref))),
                    Err(e) => Err(e),
                };
                self.main.entries.push(pair);
                let _dummy = self.main.entries.swap_remove(i);
                proof {
                    assert(self.main.entries@ =~= entries0.update(
                        i as int,
                        self.main.entries@[i as int],
                    ));
                    assert(self.main.entries@[i as int].0@ == path_segment@);
                    lemma_find_entry_first(self.main.entries@, i as int, path_segment@);
                }
                res
            },
        }
    }

    /// Walks `path_segments` from this directory: an empty path is
    /// invalid; each non-final segment must resolve to a directory; the
    /// final segment yields the node, or nothing if it is absent.  Links
    /// are resolved through the store where their value is not in memory.
    pub fn get_node<RS: ReferenceableStore<PrivateRef, Rc<PrivateNode>>>(
        &self,
        path_segments: &Vec<Vec<u8>>,
        store: &mut RS,
    ) -> (res: Result<Option<Rc<PrivateNode>>, FsError>)
        ensures
            final(store).contents() == old(store).contents(),
            path_segments@.len() == 0 ==> res == Err::<Option<Rc<PrivateNode>>, FsError>(
                FsError::InvalidPath,
            ),
            match value_walk(*self, path_view(path_segments@)) {
                WalkOutcome::Invalid => res == Err::<Option<Rc<PrivateNode>>, FsError>(
                    FsError::InvalidPath,
                ),
                WalkOutcome::Absent => res == Ok::<Option<Rc<PrivateNode>>, FsError>(None),
                WalkOutcome::Found(n) => res == Ok::<Option<Rc<PrivateNode>>, FsError>(Some(n)),
                WalkOutcome::Unresolved => true,
            },
            match store_walk(*self, path_view(path_segments@), old(store).contents()) {
                WalkOutcome::Invalid => res is Err,
                WalkOutcome::Absent => res == Ok::<Option<Rc<PrivateNode>>, FsError>(None)
                    || res is Err,
                WalkOutcome::Found(n) => res == Ok::<Option<Rc<PrivateNode>>, FsError>(Some(n))
                    || res is Err,
                WalkOutcome::Unresolved => true,
            },
            path_segments@.len() == 0 ==> final(store).fetches() == old(store).fetches(),
    {
        if path_segments.len() == 0 {
            return Err(FsError::InvalidPath);
        }
        proof {
            assert(path_view(path_segments@).subrange(0, path_segments@.len() as int) =~= path_view(
                path_segments@,
            ));
        }
        get_node_from(self, path_segments, 0, store)
    }
}

/// The byte contents of each segment of a path.
pub open spec fn path_view(p: Seq<Vec<u8>>) -> Seq<Seq<u8>> {
    p.map(|j: int, v: Vec<u8>| v@)
}

proof fn lemma_find_entry_update_other(
    es: Seq<(Vec<u8>, PrivateLink)>,
    i: int,
    e: (Vec<u8>, PrivateLink),
    n2: Seq<u8>,
)
    requires
        0 <= i < es.len(),
        es[i].0@ == e.0@,
        n2 != e.0@,
    ensures
        find_entry(es.update(i, e), n2) == find_entry(es, n2),
    decreases i,
{
    let u = es.update(i, e);
    if i == 0 {
        assert(u.subrange(1, u.len() as int) =~= es.subrange(1, es.len() as int));
    } else {
        assert(u[0] == es[0]);
        let tail = es.subrange(1, es.len() as int);
        assert(forall|t: int| 0 <= t < tail.len() ==> tail[t] == es[t + 1]);
        lemma_find_entry_update_other(tail, i - 1, e, n2);
        assert(u.subrange(1, u.len() as int) =~= tail.update(i - 1, e));
    }
}

proof fn lemma_find_entry_push(
    es: Seq<(Vec<u8>, PrivateLink)>,
    e: (Vec<u8>, PrivateLink),
    n2: Seq<u8>,
)
    requires
        forall|t: int| 0 <= t < es.len() ==> es[t].0@ != e.0@,
    ensures
        find_entry(es.push(e), n2) == (if n2 == e.0@ {
            Some(e.1)
        } else {
            find_entry(es, n2)
        }),
    decreases es.len(),
{
    let p = es.push(e);
    if es.len() == 0 {
        assert(p[0] == e);
        assert(p.subrange(1, p.len() as int) =~= Seq::<(Vec<u8>, PrivateLink)>::empty());
        assert(find_entry(p.subrange(1, p.len() as int), n2) is None);
        assert(find_entry(es, n2) is None);
    } else {
        assert(p[0] == es[0]);
        let tail = es.subrange(1, es.len() as int);
        assert(forall|t: int| 0 <= t < tail.len() ==> tail[t] == es[t + 1]);
        lemma_find_entry_push(tail, e, n2);
        assert(p.subrange(1, p.len() as int) =~= tail.push(e));
    }
}

proof fn lemma_find_entry_first(es: Seq<(Vec<u8>, PrivateLink)>, i: int, name: Seq<u8>)
    requires
        0 <= i < es.len(),
        forall|k: int| 0 <= k < i ==> es[k].0@ != name,
        es[i].0@ == name,
    ensures
        find_entry(es, name) == Some(es[i].1),
    decreases i,
{
    if i > 0 {
        let tail = es.subrange(1, es.len() as int);
        assert(forall|t: int| 0 <= t < tail.len() ==> tail[t] == es[t + 1]);
        lemma_find_entry_first(tail, i - 1, name);
    }
}

fn get_node_from<RS: ReferenceableStore<PrivateRef, Rc<PrivateNode>>>(
    dir: &PrivateDirectory,
    path: &Vec<Vec<u8>>,
    i: usize,
    store: &mut RS,
) -> (res: Result<Option<Rc<PrivateNode>>, FsError>)
    requires
        i < path@.len(),
    ensures
        final(store).contents() == old(store).contents(),
        match value_walk(*dir, path_view(path@).subrange(i as int, path@.len() as int)) {
            WalkOutcome::Invalid => res == Err::<Option<Rc<PrivateNode>>, FsError>(
                FsError::InvalidPath,
            ),
            WalkOutcome::Absent => res == Ok::<Option<Rc<PrivateNode>>, FsError>(None),
            WalkOutcome::Found(n) => res == Ok::<Option<Rc<PrivateNode>>, FsError>(Some(n)),
            WalkOutcome::Unresolved => true,
        },
        match store_walk(
            *dir,
            path_view(path@).subrange(i as int, path@.len() as int),
            old(store).contents(),
        ) {
            WalkOutcome::Invalid => res is Err,
            WalkOutcome::Absent => res == Ok::<Option<Rc<PrivateNode>>, FsError>(None) || res
                is Err,
            WalkOutcome::Found(n) => res == Ok::<Option<Rc<PrivateNode>>, FsError>(Some(n))
                || res is Err,
            WalkOutcome::Unresolved => true,
        },
    decreases path@.len() - i,
{
    let ghost suffix = path_view(path@).subrange(i as int, path@.len() as int);
    proof {
        assert(suffix.len() == path@.len() - i);
        assert(suffix[0] == path@[i as int]@);
    }
    let seg: &Vec<u8> = &path[i];
    match find_entry_at(&dir.main.entries, seg) {
        None => Ok(None),
        Some(j) => {
            let link: &PrivateLink = &dir.main.entries[j].1;
            let fetched: Rc<PrivateNode> = match link.get_value() {
                Some(rc) => Rc::clone(rc),
                None => {
                    match link.get_reference() {
                        Some(r) => {
                            match store.get_value(r) {
                                Ok(v) => v,
                                Err(e) => {
                                    return Err(e);
                                },
                            }
                        },
                        None => {
                            return Err(FsError::CidNotFound);
                        },
                    }
                },
            };
            let plen: usize = path.len();
            assert(i < plen);
            if i + 1 == plen {
                Ok(Some(fetched))
            } else {
                proof {
                    assert(path_view(path@).subrange(i + 1, path@.len() as int) =~= suffix.subrange(
                        1,
                        suffix.len() as int,
                    ));
                }
                match &*fetched {
                    PrivateNode::Dir(d2) => get_node_from(d2, path, i + 1, store),
                    PrivateNode::File(_) => Err(FsError::InvalidPath),
                }
            }
        },
    }
}

} // verus!
