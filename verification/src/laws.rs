use vstd::prelude::*;

verus! {

use crate::namefilter::{bit_at, sat_n, sat_step, ones_spec, SATURATION_THRESHOLD, lemma_apply_upto_monotone, BITS_PER_ADD};
use crate::hash::hash64_spec;
use crate::referenceable::{Referenceable, ValueEq};

/// Trie round trip: in the map that `Hamt::set` produces, the written
/// key holds the written value; removing a key makes it absent; and a
/// set or remove of one key leaves every other key bound exactly as
/// before.  These are the maps that the contracts of `Hamt::set`,
/// `Hamt::get` and `Hamt::remove` speak about.
pub proof fn lemma_trie_round_trip<V>(m: Map<Seq<u8>, V>, key: Seq<u8>, value: V, other: Seq<u8>)
    requires
        other != key,
    ensures
        m.insert(key, value).contains_key(key),
        m.insert(key, value)[key] == value,
        !m.remove(key).contains_key(key),
        m.insert(key, value).contains_key(other) == m.contains_key(other),
        m.contains_key(other) ==> m.insert(key, value)[other] == m[other],
        m.remove(key).contains_key(other) == m.contains_key(other),
        m.contains_key(other) ==> m.remove(key)[other] == m[other],
{
}

/// Hash-collision safety: two distinct keys stay independently bound no
/// matter how much of their bit pattern they share, because the trie
/// compares full keys inside a bucket.  `Hamt::set`'s contract holds for
/// every pair of distinct keys, so inserting both leaves both
/// retrievable with their own values.
pub proof fn lemma_collision_safety<V>(m: Map<Seq<u8>, V>, k1: Seq<u8>, v1: V, k2: Seq<u8>, v2: V)
    requires
        k1 != k2,
    ensures
        m.insert(k1, v1).insert(k2, v2)[k1] == v1,
        m.insert(k1, v1).insert(k2, v2)[k2] == v2,
{
}

/// Lazy-cell equality from references: two cells constructed from equal
/// references compare equal without any resolution, because plain
/// equality compares references whenever both sides carry one.
pub proof fn lemma_link_eq_from_same_reference<R: ValueEq, V: ValueEq>(r1: R, r2: R)
    requires
        r1.eq_at(&r2),
    ensures
        (Referenceable::Encoded { reference: r1, value_cache: None::<V> }).compare_spec(
            Referenceable::Encoded { reference: r2, value_cache: None::<V> },
        ),
{
}

/// Lazy-cell equality from values: two cells that hold equal decoded
/// values compare equal, whatever either has cached as a reference.
pub proof fn lemma_link_eq_from_equal_values<R: ValueEq, V: ValueEq>(
    v1: V,
    v2: V,
    c1: Option<R>,
    c2: Option<R>,
)
    requires
        v1.eq_at(&v2),
    ensures
        (Referenceable::Decoded { value: v1, reference_cache: c1 }).compare_spec(
            Referenceable::Decoded { value: v2, reference_cache: c2 },
        ),
{
}

/// Namefilter monotonicity across saturation: every bit set in the
/// filter stays set through any number of saturation rounds, so the
/// saturated filter is a superset of the bare one, just as each `add`
/// leaves a superset of the filter before it.
pub proof fn lemma_saturate_monotone(s: Seq<u8>, fuel: int)
    requires
        s.len() == 256,
        fuel >= 0,
    ensures
        sat_n(s, fuel).len() == 256,
        forall|i: int| 0 <= i < 2048 && bit_at(s, i) ==> bit_at(sat_n(s, fuel), i),
    decreases fuel,
{
    if fuel > 0 && ones_spec(s) < SATURATION_THRESHOLD {
        crate::namefilter::lemma_apply_upto(s, hash64_spec(s), BITS_PER_ADD as int);
        lemma_apply_upto_monotone(s, hash64_spec(s), BITS_PER_ADD as int);
        lemma_saturate_monotone(sat_step(s), fuel - 1);
    }
}

} // verus!
