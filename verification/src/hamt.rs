use vstd::prelude::*;

verus! {

use std::rc::Rc;
use crate::HashOutput;

/// Branching factor of the trie: one slot per 4-bit nibble of the key.
pub const HAMT_WIDTH: usize = 16;

/// A bucket splits once it would grow beyond this many colliding entries.
pub const BUCKET_LIMIT: usize = 3;

/// Keys have 32 bytes, so a path through the trie has at most 64 nibbles.
pub const MAX_HAMT_DEPTH: usize = 64;

/// One slot of a trie node: empty, a bucket of colliding entries, or a
/// link to a child node one nibble deeper.  Buckets and children sit
/// behind shared-ownership pointers so that rewriting a path to the root
/// shares every untouched part of the old trie.
pub enum Pointer<V> {
    Empty,
    Vals(Rc<Vec<Rc<(HashOutput, V)>>>),
    Node(Rc<Node<V>>),
}

/// A trie node: a fixed-width array of slots.
pub struct Node<V> {
    pub slots: Vec<Pointer<V>>,
}

/// The nibble of the key `h` consumed at depth `d`.
pub open spec fn nib(h: Seq<u8>, d: int) -> int {
    if d % 2 == 0 {
        (h[d / 2] >> 4) as int
    } else {
        (h[d / 2] & 0x0F) as int
    }
}

/// First-match lookup of the full key `h` in a bucket.
pub open spec fn bucket_get<V>(b: Seq<Rc<(HashOutput, V)>>, h: Seq<u8>) -> Option<V>
    decreases b.len(),
{
    if b.len() == 0 {
        None
    } else if (*b[0]).0@ == h {
        Some((*b[0]).1)
    } else {
        bucket_get(b.subrange(1, b.len() as int), h)
    }
}

/// All keys in a bucket are distinct: collisions are told apart by the
/// full key, never by the consumed prefix alone.
pub open spec fn bucket_wf<V>(b: Seq<Rc<(HashOutput, V)>>) -> bool {
    forall|i: int, j: int| 0 <= i < j < b.len() ==> (*b[i]).0@ != (*b[j]).0@
}

/// Well-formedness of a slot found at depth `d`.
pub open spec fn slot_wf<V>(p: Pointer<V>, d: int) -> bool
    decreases 64 - d, 1int,
{
    match p {
        Pointer::Empty => true,
        Pointer::Vals(b) => bucket_wf((*b)@),
        Pointer::Node(c) => d < 63 && node_wf(*c, d + 1),
    }
}

/// Well-formedness of a node rooted at depth `d`: full width, distinct
/// bucket keys, and no children below the last nibble.
pub open spec fn node_wf<V>(n: Node<V>, d: int) -> bool
    decreases 64 - d, 2int,
{
    &&& 0 <= d < 64
    &&& n.slots@.len() == 16
    &&& forall|i: int| 0 <= i < 16 ==> slot_wf(#[trigger] n.slots@[i], d)
}

/// The value stored under key `h` in the slot `p` met at depth `d`.
pub open spec fn slot_get<V>(p: Pointer<V>, h: Seq<u8>, d: int) -> Option<V>
    decreases 64 - d, 0int,
{
    match p {
        Pointer::Empty => None,
        Pointer::Vals(b) => bucket_get((*b)@, h),
        Pointer::Node(c) => if 0 <= d < 64 {
            node_get(*c, h, d + 1)
        } else {
            None
        },
    }
}

/// The value stored under key `h` in the subtree rooted at `n` at depth
/// `d`: walk one nibble per level, then search the bucket by full key.
pub open spec fn node_get<V>(n: Node<V>, h: Seq<u8>, d: int) -> Option<V>
    decreases 64 - d, 1int,
{
    if !(0 <= d < 64) || !(0 <= nib(h, d) < n.slots@.len()) {
        None
    } else {
        slot_get(n.slots@[nib(h, d)], h, d)
    }
}

impl<V> Clone for Pointer<V> {
    /// Cloning a slot clones only the shared-ownership pointer, never the
    /// bucket or subtree behind it.
    fn clone(&self) -> (r: Self)
        ensures
            r == *self,
    {
        match self {
            Pointer::Empty => Pointer::Empty,
            Pointer::Vals(b) => Pointer::Vals(Rc::clone(b)),
            Pointer::Node(c) => Pointer::Node(Rc::clone(c)),
        }
    }
}

/// A copy of a node's slots, sharing all buckets and children.
pub(crate) fn clone_slots<V>(slots: &Vec<Pointer<V>>) -> (r: Vec<Pointer<V>>)
    ensures
        r@ == slots@,
{
    let mut r: Vec<Pointer<V>> = Vec::new();
    let mut i: usize = 0;
    while i < slots.len()
        invariant
            0 <= i <= slots@.len(),
            r@.len() == i,
            forall|k: int| 0 <= k < i ==> r@[k] == slots@[k],
        decreases slots@.len() - i,
    {
        r.push(slots[i].clone());
        i = i + 1;
    }
    proof {
        assert(r@ =~= slots@);
    }
    r
}

/// A copy of a bucket, sharing all entries.
fn clone_bucket<V>(b: &Vec<Rc<(HashOutput, V)>>) -> (r: Vec<Rc<(HashOutput, V)>>)
    ensures
        r@ == b@,
{
    let mut r: Vec<Rc<(HashOutput, V)>> = Vec::new();
    let mut i: usize = 0;
    while i < b.len()
        invariant
            0 <= i <= b@.len(),
            r@.len() == i,
            forall|k: int| 0 <= k < i ==> r@[k] == b@[k],
        decreases b@.len() - i,
    {
        r.push(Rc::clone(&b[i]));
        i = i + 1;
    }
    proof {
        assert(r@ =~= b@);
    }
    r
}

/// Byte-wise equality of two keys.
pub fn hash_eq(a: &HashOutput, b: &HashOutput) -> (r: bool)
    ensures
        r == (a@ == b@),
{
    let mut i: usize = 0;
    while i < 32
        invariant
            0 <= i <= 32,
            forall|k: int| 0 <= k < i ==> a@[k] == b@[k],
        decreases 32 - i,
    {
        if a[i] != b[i] {
            proof {
                assert(a@[i as int] != b@[i as int]);
            }
            return false;
        }
        i = i + 1;
    }
    proof {
        assert(a@ =~= b@);
    }
    true
}

/// The nibble of key `h` consumed at depth `d`.
pub(crate) fn nibble_of(h: &HashOutput, d: usize) -> (r: usize)
    requires
        d < 64,
    ensures
        r == nib(h@, d as int),
        r < 16,
    {
    let byte: u8 = h[d / 2];
    let r: u8 = if d % 2 == 0 {
        byte >> 4
    } else {
        byte & 0x0F
    };
    proof {
        assert((byte >> 4) < 16 && (byte & 0x0F) < 16) by (bit_vector);
    }
    r as usize
}

/// An empty node: full width, every slot empty.
fn empty_node<V>(Ghost(d): Ghost<int>) -> (r: Node<V>)
    requires
        0 <= d < 64,
    ensures
        node_wf(r, d),
        forall|h: Seq<u8>| node_get(r, h, d) is None,
{
    let mut slots: Vec<Pointer<V>> = Vec::new();
    let mut i: usize = 0;
    while i < 16
        invariant
            0 <= i <= 16,
            slots@.len() == i,
            forall|k: int| 0 <= k < i ==> slots@[k] is Empty,
        decreases 16 - i,
    {
        slots.push(Pointer::Empty);
        i = i + 1;
    }
    let r = Node { slots };
    proof {
        assert forall|i: int| 0 <= i < 16 implies slot_wf(#[trigger] r.slots@[i], d) by {
            assert(r.slots@[i] is Empty);
        }
        assert forall|h: Seq<u8>| node_get(r, h, d) is None by {
            if 0 <= nib(h, d) < 16 {
                assert(r.slots@[nib(h, d)] is Empty);
            }
        }
    }
    r
}

/// Lookup of key `h` in a bucket by full-key comparison.
fn bucket_find<'a, V>(b: &'a Vec<Rc<(HashOutput, V)>>, h: &HashOutput) -> (r: Option<usize>)
    ensures
        match r {
            Some(j) => j < b@.len() && (*b@[j as int]).0@ == h@ && bucket_get(b@, h@) == Some(
                (*b@[j as int]).1,
            ),
            None => bucket_get(b@, h@) is None && forall|t: int|
                0 <= t < b@.len() ==> (*b@[t]).0@ != h@,
        },
{
    let mut j: usize = 0;
    proof {
        assert(b@.subrange(0, b@.len() as int) =~= b@);
    }
    while j < b.len()
        invariant
            0 <= j <= b@.len(),
            forall|k: int| 0 <= k < j ==> (*b@[k]).0@ != h@,
            bucket_get(b@, h@) == bucket_get(b@.subrange(j as int, b@.len() as int), h@),
        decreases b@.len() - j,
    {
        let entry: &Rc<(HashOutput, V)> = &b[j];
        if hash_eq(&entry.0, h) {
            proof {
                let tail = b@.subrange(j as int, b@.len() as int);
                assert(tail[0] == b@[j as int]);
            }
            return Some(j);
        }
        proof {
            let tail = b@.subrange(j as int, b@.len() as int);
            assert(tail[0] == b@[j as int]);
            assert(tail.subrange(1, tail.len() as int) =~= b@.subrange(
                j + 1,
                b@.len() as int,
            ));
        }
        j = j + 1;
    }
    proof {
        assert(b@.subrange(b@.len() as int, b@.len() as int).len() == 0);
    }
    None
}

} // verus!
verus! {

proof fn lemma_nib_range(k: Seq<u8>, d: int)
    requires
        k.len() == 32,
        0 <= d < 64,
    ensures
        0 <= nib(k, d) < 16,
{
    let b = k[d / 2];
    assert((b >> 4) < 16 && (b & 0x0F) < 16) by (bit_vector);
}

/// A key that no bucket entry carries is not found in the bucket.
proof fn lemma_bucket_absent<V>(b: Seq<Rc<(HashOutput, V)>>, k: Seq<u8>)
    requires
        forall|t: int| 0 <= t < b.len() ==> (*b[t]).0@ != k,
    ensures
        bucket_get(b, k) is None,
    decreases b.len(),
{
    if b.len() > 0 {
        let tail = b.subrange(1, b.len() as int);
        assert(forall|t: int| 0 <= t < tail.len() ==> tail[t] == b[t + 1]);
        lemma_bucket_absent(tail, k);
    }
}

/// Appending an entry with a fresh key: lookups of that key now find it,
/// all other lookups are unchanged.
proof fn lemma_bucket_push<V>(b: Seq<Rc<(HashOutput, V)>>, e: Rc<(HashOutput, V)>, k: Seq<u8>)
    requires
        forall|t: int| 0 <= t < b.len() ==> (*b[t]).0@ != (*e).0@,
    ensures
        bucket_get(b.push(e), k) == (if k == (*e).0@ {
            Some((*e).1)
        } else {
            bucket_get(b, k)
        }),
    decreases b.len(),
{
    let nb = b.push(e);
    if b.len() == 0 {
        assert(nb[0] == e);
        assert(nb.subrange(1, nb.len() as int) =~= Seq::<Rc<(HashOutput, V)>>::empty());
        if k != (*e).0@ {
            lemma_bucket_absent(nb, k);
        }
    } else {
        assert(nb[0] == b[0]);
        let tail = b.subrange(1, b.len() as int);
        assert(forall|t: int| 0 <= t < tail.len() ==> tail[t] == b[t + 1]);
        lemma_bucket_push(tail, e, k);
        assert(nb.subrange(1, nb.len() as int) =~= tail.push(e));
    }
}

/// Replacing the one entry that carries key `e.0`: lookups of that key see
/// the new value, all other lookups are unchanged.
proof fn lemma_bucket_update<V>(
    b: Seq<Rc<(HashOutput, V)>>,
    j: int,
    e: Rc<(HashOutput, V)>,
    k: Seq<u8>,
)
    requires
        0 <= j < b.len(),
        (*b[j]).0@ == (*e).0@,
        bucket_wf(b),
    ensures
        bucket_get(b.update(j, e), k) == (if k == (*e).0@ {
            Some((*e).1)
        } else {
            bucket_get(b, k)
        }),
    decreases j,
{
    let nb = b.update(j, e);
    if j == 0 {
        assert(nb[0] == e);
        assert(nb.subrange(1, nb.len() as int) =~= b.subrange(1, b.len() as int));
    } else {
        assert(nb[0] == b[0]);
        assert((*b[0]).0@ != (*e).0@);
        let tail = b.subrange(1, b.len() as int);
        assert(forall|t: int| 0 <= t < tail.len() ==> tail[t] == b[t + 1]);
        assert(bucket_wf(tail));
        lemma_bucket_update(tail, j - 1, e, k);
        assert(nb.subrange(1, nb.len() as int) =~= tail.update(j - 1, e));
    }
}

/// Dropping the one entry that carries key `b[j].0`: lookups of that key
/// now miss, all other lookups are unchanged.
proof fn lemma_bucket_drop<V>(b: Seq<Rc<(HashOutput, V)>>, j: int, k: Seq<u8>)
    requires
        0 <= j < b.len(),
        bucket_wf(b),
    ensures
        bucket_get(b.subrange(0, j) + b.subrange(j + 1, b.len() as int), k) == (if k == (
        *b[j]).0@ {
            None
        } else {
            bucket_get(b, k)
        }),
    decreases j,
{
    let nb = b.subrange(0, j) + b.subrange(j + 1, b.len() as int);
    if j == 0 {
        assert(nb =~= b.subrange(1, b.len() as int));
        if k == (*b[0]).0@ {
            assert(forall|t: int| 0 <= t < nb.len() ==> (*nb[t]).0@ != k);
            lemma_bucket_absent(nb, k);
        }
    } else {
        assert(nb[0] == b[0]);
        let tail = b.subrange(1, b.len() as int);
        assert(forall|t: int| 0 <= t < tail.len() ==> tail[t] == b[t + 1]);
        assert(bucket_wf(tail));
        lemma_bucket_drop(tail, j - 1, k);
        assert(nb.subrange(1, nb.len() as int) =~= tail.subrange(0, j - 1) + tail.subrange(
            j,
            tail.len() as int,
        ));
        if k == (*b[j]).0@ {
            assert((*b[0]).0@ != k);
        }
    }
}

/// Inserts the entry `e` under its own key, rewriting the path from this
/// node down and sharing everything else.
#[verifier::rlimit(60)]
fn node_set_rc<V>(n: &Node<V>, e: Rc<(HashOutput, V)>, d: usize) -> (r: Node<V>)
    requires
        node_wf(*n, d as int),
    ensures
        node_wf(r, d as int),
        forall|k: Seq<u8>|
            k.len() == 32 ==> node_get(r, k, d as int) == (if k == (*e).0@ {
                Some((*e).1)
            } else {
                node_get(*n, k, d as int)
            }),
    decreases 64 - d,
{
    let ghost key: Seq<u8> = (*e).0@;
    let i: usize = nibble_of(&e.0, d);
    let ghost oldslot: Pointer<V> = n.slots@[i as int];
    proof {
        assert(slot_wf(oldslot, d as int));
    }
    let mut slots = clone_slots(&n.slots);
    let mut new_slot: Pointer<V>;
    match &n.slots[i] {
        Pointer::Empty => {
            let mut bv: Vec<Rc<(HashOutput, V)>> = Vec::new();
            bv.push(e);
            proof {
                assert(bv@.subrange(1, 1) =~= Seq::<Rc<(HashOutput, V)>>::empty());
            }
            new_slot = Pointer::Vals(Rc::new(bv));
            proof {
                assert(bucket_wf(bv@));
                assert(slot_wf(new_slot, d as int));
                assert forall|k: Seq<u8>| k.len() == 32 implies slot_get(new_slot, k, d as int)
                    == (if k == key {
                    Some((*e).1)
                } else {
                    slot_get(oldslot, k, d as int)
                }) by {
                    assert(bucket_get(bv@.subrange(1, 1), k) is None);
                }
            }
        },
        Pointer::Vals(b) => {
            match bucket_find(&**b, &e.0) {
                Some(j) => {
                    let mut nb = clone_bucket(&**b);
                    nb.push(e);
                    let _old = nb.swap_remove(j);
                    proof {
                        assert(nb@ =~= (*b)@.update(j as int, e));
                    }
                    new_slot = Pointer::Vals(Rc::new(nb));
                    proof {
                        assert forall|x: int, y: int| 0 <= x < y < nb@.len() implies (
                        *nb@[x]).0@ != (*nb@[y]).0@ by {
                            assert((*b)@[j as int] == (*b@[j as int]));
                        }
                        assert(slot_wf(new_slot, d as int));
                        assert forall|k: Seq<u8>| k.len() == 32 implies slot_get(
                            new_slot,
                            k,
                            d as int,
                        ) == (if k == key {
                            Some((*e).1)
                        } else {
                            slot_get(oldslot, k, d as int)
                        }) by {
                            lemma_bucket_update((*b)@, j as int, e, k);
                        }
                    }
                },
                None => {
                    if b.len() < BUCKET_LIMIT || d >= 63 {
                        let mut nb = clone_bucket(&**b);
                        nb.push(e);
                        proof {
                            assert(nb@ =~= (*b)@.push(e));
                        }
                        new_slot = Pointer::Vals(Rc::new(nb));
                        proof {
                            assert forall|x: int, y: int| 0 <= x < y < nb@.len() implies (
                            *nb@[x]).0@ != (*nb@[y]).0@ by {
                                if y == nb@.len() - 1 {
                                    assert(nb@[x] == (*b)@[x]);
                                }
                            }
                            assert(slot_wf(new_slot, d as int));
                            assert forall|k: Seq<u8>| k.len() == 32 implies slot_get(
                                new_slot,
                                k,
                                d as int,
                            ) == (if k == key {
                                Some((*e).1)
                            } else {
                                slot_get(oldslot, k, d as int)
                            }) by {
                                lemma_bucket_push((*b)@, e, k);
                            }
                        }
                    } else {
                        let mut child: Node<V> = empty_node(Ghost(d as int + 1));
                        let mut t: usize = 0;
                        proof {
                            assert((*b)@.subrange(0, 0) =~= Seq::<Rc<(HashOutput, V)>>::empty());
                        }
                        while t < b.len()
                            invariant
                                0 <= t <= (*b)@.len(),
                                node_wf(child, d as int + 1),
                                d < 63,
                                bucket_wf((*b)@),
                                forall|k: Seq<u8>|
                                    k.len() == 32 ==> node_get(child, k, d as int + 1)
                                        == bucket_get((*b)@.subrange(0, t as int), k),
                            decreases (*b)@.len() - t,
                        {
                            let entry = Rc::clone(&b[t]);
                            let child2 = node_set_rc(&child, entry, d + 1);
                            proof {
                                let pre = (*b)@.subrange(0, t as int);
                                assert((*b)@.subrange(0, t + 1) =~= pre.push((*b)@[t as int]));
                                assert forall|k: Seq<u8>| k.len() == 32 implies node_get(
                                    child2,
                                    k,
                                    d as int + 1,
                                ) == bucket_get((*b)@.subrange(0, t + 1), k) by {
                                    assert(forall|x: int|
                                        0 <= x < pre.len() ==> pre[x] == (*b)@[x]);
                                    lemma_bucket_push(pre, (*b)@[t as int], k);
                                }
                            }
                            child = child2;
                            t = t + 1;
                        }
                        proof {
                            assert((*b)@.subrange(0, (*b)@.len() as int) =~= (*b)@);
                        }
                        let child3 = node_set_rc(&child, e, d + 1);
                        new_slot = Pointer::Node(Rc::new(child3));
                        proof {
                            assert(slot_wf(new_slot, d as int));
                            assert forall|k: Seq<u8>| k.len() == 32 implies slot_get(
                                new_slot,
                                k,
                                d as int,
                            ) == (if k == key {
                                Some((*e).1)
                            } else {
                                slot_get(oldslot, k, d as int)
                            }) by {
                                assert(node_get(child3, k, d as int + 1) == (if k == key {
                                    Some((*e).1)
                                } else {
                                    bucket_get((*b)@, k)
                                }));
                            }
                        }
                    }
                },
            }
        },
        Pointer::Node(c) => {
            let child2 = node_set_rc(&**c, e, d + 1);
            new_slot = Pointer::Node(Rc::new(child2));
            proof {
                assert(slot_wf(new_slot, d as int));
                assert forall|k: Seq<u8>| k.len() == 32 implies slot_get(new_slot, k, d as int)
                    == (if k == key {
                    Some((*e).1)
                } else {
                    slot_get(oldslot, k, d as int)
                }) by {}
            }
        },
    }
    slots[i] = new_slot;
    let r = Node { slots };
    proof {
        assert forall|t: int| 0 <= t < 16 implies slot_wf(#[trigger] r.slots@[t], d as int) by {
            if t != i as int {
                assert(r.slots@[t] == n.slots@[t]);
                assert(slot_wf(n.slots@[t], d as int));
            }
        }
        assert forall|k: Seq<u8>| k.len() == 32 implies node_get(r, k, d as int) == (if k == key {
            Some((*e).1)
        } else {
            node_get(*n, k, d as int)
        }) by {
            lemma_nib_range(k, d as int);
            lemma_nib_range(key, d as int);
            if nib(k, d as int) == i as int {
                assert(node_get(r, k, d as int) == slot_get(new_slot, k, d as int));
                assert(node_get(*n, k, d as int) == slot_get(oldslot, k, d as int));
            } else {
                assert(r.slots@[nib(k, d as int)] == n.slots@[nib(k, d as int)]);
                assert(k != key);
            }
        }
    }
    r
}

} // verus!
verus! {

/// Walks the trie for key `h`, comparing full keys inside buckets.
fn node_get_at<'a, V>(n: &'a Node<V>, h: &HashOutput, d: usize) -> (r: Option<&'a V>)
    requires
        node_wf(*n, d as int),
    ensures
        match r {
            Some(v) => node_get(*n, h@, d as int) == Some(*v),
            None => node_get(*n, h@, d as int) is None,
        },
    decreases 64 - d,
{
    let i: usize = nibble_of(h, d);
    proof {
        assert(slot_wf(n.slots@[i as int], d as int));
        assert(nib(h@, d as int) == i as int);
    }
    match &n.slots[i] {
        Pointer::Empty => None,
        Pointer::Vals(b) => {
            match bucket_find(&**b, h) {
                Some(j) => {
                    let entry: &Rc<(HashOutput, V)> = &(&**b)[j];
                    Some(&entry.1)
                },
                None => None,
            }
        },
        Pointer::Node(c) => node_get_at(&**c, h, d + 1),
    }
}

/// Removes the entry under key `h`, rewriting the path from this node
/// down; returns the new node and the removed entry, if any.
#[verifier::rlimit(60)]
fn node_remove<V>(n: &Node<V>, h: &HashOutput, d: usize) -> (res: (
    Node<V>,
    Option<Rc<(HashOutput, V)>>,
))
    requires
        node_wf(*n, d as int),
    ensures
        node_wf(res.0, d as int),
        forall|k: Seq<u8>|
            k.len() == 32 ==> node_get(res.0, k, d as int) == (if k == h@ {
                None
            } else {
                node_get(*n, k, d as int)
            }),
        match res.1 {
            Some(rc) => (*rc).0@ == h@ && node_get(*n, h@, d as int) == Some((*rc).1),
            None => node_get(*n, h@, d as int) is None,
        },
    decreases 64 - d,
{
    let i: usize = nibble_of(h, d);
    let ghost oldslot: Pointer<V> = n.slots@[i as int];
    proof {
        assert(slot_wf(oldslot, d as int));
    }
    let mut slots = clone_slots(&n.slots);
    let mut new_slot: Pointer<V>;
    let mut removed: Option<Rc<(HashOutput, V)>>;
    match &n.slots[i] {
        Pointer::Empty => {
            new_slot = Pointer::Empty;
            removed = None;
        },
        Pointer::Vals(b) => {
            match bucket_find(&**b, h) {
                Some(j) => {
                    let mut nb: Vec<Rc<(HashOutput, V)>> = Vec::new();
                    let mut t: usize = 0;
                    while t < j
                        invariant
                            0 <= t <= j,
                            j < (*b)@.len(),
                            nb@ =~= (*b)@.subrange(0, t as int),
                        decreases j - t,
                    {
                        nb.push(Rc::clone(&(&**b)[t]));
                        proof {
                            assert(nb@ =~= (*b)@.subrange(0, t + 1));
                        }
                        t = t + 1;
                    }
                    let bl: usize = b.len();
                    assert(j < bl);
                    let mut u: usize = j + 1;
                    while u < bl
                        invariant
                            j < (*b)@.len(),
                            bl == (*b)@.len(),
                            j + 1 <= u <= (*b)@.len(),
                            nb@ =~= (*b)@.subrange(0, j as int) + (*b)@.subrange(
                                j + 1,
                                u as int,
                            ),
                        decreases (*b)@.len() - u,
                    {
                        nb.push(Rc::clone(&(&**b)[u]));
                        proof {
                            assert(nb@ =~= (*b)@.subrange(0, j as int) + (*b)@.subrange(
                                j + 1,
                                u + 1,
                            ));
                        }
                        u = u + 1;
                    }
                    removed = Some(Rc::clone(&(&**b)[j]));
                    new_slot = Pointer::Vals(Rc::new(nb));
                    proof {
                        let full = (*b)@.subrange(0, j as int) + (*b)@.subrange(
                            j + 1,
                            (*b)@.len() as int,
                        );
                        assert(nb@ =~= full);
                        assert forall|x: int, y: int| 0 <= x < y < nb@.len() implies (
                        *nb@[x]).0@ != (*nb@[y]).0@ by {
                            assert(nb@[x] == (*b)@[if x < j { x } else { x + 1 }]);
                            assert(nb@[y] == (*b)@[if y < j { y } else { y + 1 }]);
                        }
                        assert(slot_wf(new_slot, d as int));
                        assert forall|k: Seq<u8>| k.len() == 32 implies slot_get(
                            new_slot,
                            k,
                            d as int,
                        ) == (if k == h@ {
                            None
                        } else {
                            slot_get(oldslot, k, d as int)
                        }) by {
                            lemma_bucket_drop((*b)@, j as int, k);
                        }
                    }
                },
                None => {
                    new_slot = Pointer::Vals(Rc::clone(b));
                    removed = None;
                },
            }
        },
        Pointer::Node(c) => {
            let (child2, rem) = node_remove(&**c, h, d + 1);
            new_slot = Pointer::Node(Rc::new(child2));
            removed = rem;
            proof {
                assert(slot_wf(new_slot, d as int));
            }
        },
    }
    slots[i] = new_slot;
    let r = Node { slots };
    proof {
        assert forall|t: int| 0 <= t < 16 implies slot_wf(#[trigger] r.slots@[t], d as int) by {
            if t != i as int {
                assert(r.slots@[t] == n.slots@[t]);
                assert(slot_wf(n.slots@[t], d as int));
            }
        }
        assert forall|k: Seq<u8>| k.len() == 32 implies node_get(r, k, d as int) == (if k == h@ {
            None
        } else {
            node_get(*n, k, d as int)
        }) by {
            lemma_nib_range(k, d as int);
            lemma_nib_range(h@, d as int);
            if nib(k, d as int) == i as int {
                assert(node_get(r, k, d as int) == slot_get(new_slot, k, d as int));
                assert(node_get(*n, k, d as int) == slot_get(oldslot, k, d as int));
            } else {
                assert(r.slots@[nib(k, d as int)] == n.slots@[nib(k, d as int)]);
                assert(k != h@);
            }
        }
        assert(node_get(*n, h@, d as int) == slot_get(oldslot, h@, d as int));
    }
    (r, removed)
}

/// A persistent hash trie: every mutation returns a new root value while
/// the old root, and everything it shares with the new one, stays valid.
pub struct Hamt<V> {
    pub root: Node<V>,
}

impl<V> Hamt<V> {
    /// Well-formedness of the whole trie.
    pub open spec fn wf(self) -> bool {
        node_wf(self.root, 0)
    }

    /// The mathematical contents: a map from 32-byte keys to values.
    pub open spec fn as_map(self) -> Map<Seq<u8>, V> {
        Map::new(
            |k: Seq<u8>| k.len() == 32 && node_get(self.root, k, 0) is Some,
            |k: Seq<u8>| node_get(self.root, k, 0).unwrap(),
        )
    }

    /// An empty trie.
    pub fn new() -> (r: Hamt<V>)
        ensures
            r.wf(),
            r.as_map() == Map::<Seq<u8>, V>::empty(),
    {
        let root = empty_node(Ghost(0int));
        let r = Hamt { root };
        proof {
            assert(r.as_map() =~= Map::<Seq<u8>, V>::empty());
        }
        r
    }

    /// A new trie in which `key` maps to `value` and every other key maps
    /// to what it mapped to in `self`.  `self` is untouched.
    pub fn set(&self, key: &HashOutput, value: V) -> (r: Hamt<V>)
        requires
            self.wf(),
        ensures
            r.wf(),
            r.as_map() == self.as_map().insert(key@, value),
    {
        let e: Rc<(HashOutput, V)> = Rc::new((*key, value));
        let root = node_set_rc(&self.root, e, 0);
        let r = Hamt { root };
        proof {
            assert(key@.len() == 32);
            assert((*e).0@ == key@ && (*e).1 == value);
            assert(r.as_map() =~= self.as_map().insert(key@, value));
        }
        r
    }

    /// The value under `key`, or nothing: a missing key is a normal
    /// outcome, not an error.
    pub fn get(&self, key: &HashOutput) -> (r: Option<&V>)
        requires
            self.wf(),
        ensures
            match r {
                Some(v) => self.as_map().contains_key(key@) && *v == self.as_map()[key@],
                None => !self.as_map().contains_key(key@),
            },
    {
        node_get_at(&self.root, key, 0)
    }

    /// A new trie without `key`, plus the entry that was removed, if any.
    /// `self` is untouched.
    pub fn remove(&self, key: &HashOutput) -> (res: (Hamt<V>, Option<Rc<(HashOutput, V)>>))
        requires
            self.wf(),
        ensures
            res.0.wf(),
            res.0.as_map() == self.as_map().remove(key@),
            match res.1 {
                Some(rc) => (*rc).0@ == key@ && self.as_map().contains_key(key@) && (*rc).1
                    == self.as_map()[key@],
                None => !self.as_map().contains_key(key@),
            },
    {
        let (root, removed) = node_remove(&self.root, key, 0);
        let r = Hamt { root };
        proof {
            assert(r.as_map() =~= self.as_map().remove(key@));
        }
        (r, removed)
    }
}

impl<V> Default for Hamt<V> {
    /// The empty trie.
    fn default() -> (r: Self)
        ensures
            r.wf(),
            r.as_map() == Map::<Seq<u8>, V>::empty(),
    {
        Hamt::new()
    }
}

} // verus!
verus! {

fn check_bucket_wf<V>(b: &Vec<Rc<(HashOutput, V)>>) -> (r: bool)
    ensures
        r == bucket_wf(b@),
{
    let mut x: usize = 0;
    while x < b.len()
        invariant
            0 <= x <= b@.len(),
            forall|i: int, j: int|
                0 <= i < j < b@.len() && i < x ==> (*b@[i]).0@ != (*b@[j]).0@,
        decreases b@.len() - x,
    {
        let mut y: usize = x + 1;
        while y < b.len()
            invariant
                0 <= x < y <= b@.len() + 1,
                y >= x + 1,
                forall|i: int, j: int|
                    0 <= i < j < b@.len() && i < x ==> (*b@[i]).0@ != (*b@[j]).0@,
                forall|j: int| x < j < y && j < b@.len() ==> (*b@[x as int]).0@ != (*b@[j]).0@,
            decreases b@.len() - y,
        {
            if hash_eq(&(&**b)[x].0, &(&**b)[y].0) {
                proof {
                    assert((*b@[x as int]).0@ == (*b@[y as int]).0@);
                    assert(!bucket_wf(b@));
                }
                return false;
            }
            y = y + 1;
        }
        x = x + 1;
    }
    true
}

/// Runtime check of the trie node shape that the contracts of the
/// verified operations require.
fn check_node_wf<V>(n: &Node<V>, d: usize) -> (r: bool)
    ensures
        r == node_wf(*n, d as int),
    decreases 64 - d,
{
    if d >= 64 {
        return false;
    }
    if n.slots.len() != 16 {
        return false;
    }
    let mut i: usize = 0;
    while i < 16
        invariant
            0 <= i <= 16,
            d < 64,
            n.slots@.len() == 16,
            forall|t: int| 0 <= t < i ==> slot_wf(#[trigger] n.slots@[t], d as int),
        decreases 16 - i,
    {
        match &n.slots[i] {
            Pointer::Empty => {
                proof {
                    assert(slot_wf(n.slots@[i as int], d as int));
                }
            },
            Pointer::Vals(b) => {
                if !check_bucket_wf(&**b) {
                    proof {
                        assert(!slot_wf(n.slots@[i as int], d as int));
                    }
                    return false;
                }
                proof {
                    assert(slot_wf(n.slots@[i as int], d as int));
                }
            },
            Pointer::Node(c) => {
                if d >= 63 {
                    proof {
                        assert(!slot_wf(n.slots@[i as int], d as int));
                    }
                    return false;
                }
                if !check_node_wf(&**c, d + 1) {
                    proof {
                        assert(!slot_wf(n.slots@[i as int], d as int));
                    }
                    return false;
                }
                proof {
                    assert(slot_wf(n.slots@[i as int], d as int));
                }
            },
        }
        i = i + 1;
    }
    true
}

impl<V> Hamt<V> {
    /// Decides well-formedness of the trie at run time, so that callers
    /// that cannot carry the property in a precondition can still reach
    /// the verified operations.
    pub fn check_wf(&self) -> (b: bool)
        ensures
            b == self.wf(),
    {
        check_node_wf(&self.root, 0)
    }
}

} // verus!
