use vstd::prelude::*;

verus! {

use crate::HashOutput;
use crate::hash::{mix64_spec, mix64, fold_from, hash64_spec, hash64, fold_bytes, sha3_of, sha3, HASH_SEED};

/// Number of bytes in a namefilter: 2048 bits.
pub const NAMEFILTER_BYTE_SIZE: usize = 256;

/// Number of bits in a namefilter.
pub const NAMEFILTER_BIT_SIZE: usize = 2048;

/// Number of bits folded in per added identifier.
pub const BITS_PER_ADD: usize = 30;

/// A filter is saturated once at least this many bits are set.
pub const SATURATION_THRESHOLD: usize = 1019;

/// Upper bound on saturation rounds; reached only if the threshold is not.
pub const SATURATION_ROUNDS: usize = 100;

/// The contents of a fresh, empty filter.
pub open spec fn zero_filter() -> Seq<u8> {
    Seq::new(256, |i: int| 0u8)
}

/// Whether bit `i` of the bit accumulator `s` is set.
pub open spec fn bit_at(s: Seq<u8>, i: int) -> bool {
    ((s[i / 8] >> ((i % 8) as u8)) & 1) == 1
}

/// The bit position that round `j` of a fold with seed state `st` sets.
pub open spec fn pos_at(st: u64, j: int) -> int {
    (mix64_spec(st ^ (j as u64)) % 2048) as int
}

/// `s` with bit `i` set.
pub open spec fn set_bit_seq(s: Seq<u8>, i: int) -> Seq<u8> {
    s.update(i / 8, s[i / 8] | (1u8 << ((i % 8) as u8)))
}

/// `s` after setting the first `j` positions drawn from seed state `st`.
pub open spec fn apply_upto(s: Seq<u8>, st: u64, j: int) -> Seq<u8>
    decreases j,
{
    if j <= 0 {
        s
    } else {
        set_bit_seq(apply_upto(s, st, j - 1), pos_at(st, j - 1))
    }
}

/// The seed state that an `add` of `id` to filter contents `filter` uses:
/// it depends on the identifier and on the current contents, so the final
/// filter is order-sensitive.
pub open spec fn add_seed(filter: Seq<u8>, id: Seq<u8>) -> u64 {
    fold_from(fold_from(HASH_SEED, id), filter)
}

/// Number of set bits in the byte `b`.
pub open spec fn pop8(b: u8) -> int {
    (((b >> 0) & 1) + ((b >> 1) & 1) + ((b >> 2) & 1) + ((b >> 3) & 1) + ((b >> 4) & 1) + ((b >> 5)
        & 1) + ((b >> 6) & 1) + ((b >> 7) & 1)) as int
}

/// Number of set bits in the accumulator `s`.
pub open spec fn ones_spec(s: Seq<u8>) -> int
    decreases s.len(),
{
    if s.len() == 0 {
        0
    } else {
        ones_spec(s.drop_last()) + pop8(s.last())
    }
}

/// One saturation round: fold the current contents and set the drawn bits.
pub open spec fn sat_step(s: Seq<u8>) -> Seq<u8> {
    apply_upto(s, hash64_spec(s), BITS_PER_ADD as int)
}

/// Saturation with `fuel` rounds left: repeat `sat_step` until the
/// threshold is reached or the fuel runs out.
pub open spec fn sat_n(s: Seq<u8>, fuel: int) -> Seq<u8>
    decreases fuel,
{
    if fuel <= 0 || ones_spec(s) >= SATURATION_THRESHOLD {
        s
    } else {
        sat_n(sat_step(s), fuel - 1)
    }
}

proof fn lemma_or_bit(b: u8, k: u8, m: u8)
    requires
        k < 8,
        m < 8,
    ensures
        m == k ==> (((b | (1u8 << k)) >> m) & 1) == 1,
        m != k ==> (((b | (1u8 << k)) >> m) & 1) == ((b >> m) & 1),
{
    assert(k < 8 && m == k ==> (((b | (1u8 << k)) >> m) & 1) == 1) by (bit_vector);
    assert(k < 8 && m < 8 && m != k ==> (((b | (1u8 << k)) >> m) & 1) == ((b >> m) & 1))
        by (bit_vector);
}

proof fn lemma_set_bit(s: Seq<u8>, p: int, i: int)
    requires
        0 <= p < 8 * s.len(),
        0 <= i < 8 * s.len(),
    ensures
        set_bit_seq(s, p).len() == s.len(),
        i == p ==> bit_at(set_bit_seq(s, p), i),
        i != p ==> bit_at(set_bit_seq(s, p), i) == bit_at(s, i),
{
    let b = s[p / 8];
    lemma_or_bit(b, (p % 8) as u8, (i % 8) as u8);
    if i / 8 == p / 8 {
        if i % 8 == p % 8 {
            assert(i == p) by {
                vstd::arithmetic::div_mod::lemma_fundamental_div_mod(i, 8);
                vstd::arithmetic::div_mod::lemma_fundamental_div_mod(p, 8);
            };
        }
        lemma_or_bit(s[i / 8], (p % 8) as u8, (i % 8) as u8);
    }
}

proof fn lemma_apply_upto_len(s: Seq<u8>, st: u64, n: int)
    requires
        s.len() == 256,
        n >= 0,
    ensures
        apply_upto(s, st, n).len() == 256,
    decreases n,
{
    if n > 0 {
        lemma_apply_upto_len(s, st, n - 1);
    }
}

proof fn lemma_apply_upto_bit(s: Seq<u8>, st: u64, n: int, i: int)
    requires
        s.len() == 256,
        n >= 0,
        0 <= i < 2048,
    ensures
        bit_at(apply_upto(s, st, n), i) <==> (bit_at(s, i) || exists|j: int|
            0 <= j < n && i == pos_at(st, j)),
    decreases n,
{
    if n > 0 {
        lemma_apply_upto_len(s, st, n - 1);
        lemma_apply_upto_bit(s, st, n - 1, i);
        let prev = apply_upto(s, st, n - 1);
        let p = pos_at(st, n - 1);
        lemma_set_bit(prev, p, i);
        if i == p {
            assert(0 <= n - 1 < n && i == pos_at(st, n - 1));
        } else {
            assert(bit_at(apply_upto(s, st, n), i) == bit_at(prev, i));
            if exists|j: int| 0 <= j < n && i == pos_at(st, j) {
                let j = choose|j: int| 0 <= j < n && i == pos_at(st, j);
                assert(j != n - 1);
                assert(0 <= j < n - 1 && i == pos_at(st, j));
            }
            if exists|j: int| 0 <= j < n - 1 && i == pos_at(st, j) {
                let j = choose|j: int| 0 <= j < n - 1 && i == pos_at(st, j);
                assert(0 <= j < n && i == pos_at(st, j));
            }
        }
    }
}

/// After `apply_upto`, exactly the drawn positions are newly set: no bit is
/// ever cleared, and no other bit is set.
pub proof fn lemma_apply_upto(s: Seq<u8>, st: u64, n: int)
    requires
        s.len() == 256,
        n >= 0,
    ensures
        apply_upto(s, st, n).len() == 256,
        forall|i: int|
            0 <= i < 2048 ==> (bit_at(apply_upto(s, st, n), i) <==> (bit_at(s, i) || exists|j: int|
                0 <= j < n && i == pos_at(st, j))),
{
    lemma_apply_upto_len(s, st, n);
    assert forall|i: int| 0 <= i < 2048 implies (bit_at(apply_upto(s, st, n), i) <==> (bit_at(s, i)
        || exists|j: int| 0 <= j < n && i == pos_at(st, j))) by {
        lemma_apply_upto_bit(s, st, n, i);
    }
}

/// Monotonicity of the accumulator: applying drawn positions never clears
/// a bit, so the filter after an `add` is a superset of the filter before.
pub proof fn lemma_apply_upto_monotone(s: Seq<u8>, st: u64, n: int)
    requires
        s.len() == 256,
        n >= 0,
    ensures
        forall|i: int| 0 <= i < 2048 && bit_at(s, i) ==> bit_at(apply_upto(s, st, n), i),
{
    lemma_apply_upto(s, st, n);
}

/// A privacy-preserving name accumulator: a fixed-capacity bit filter into
/// which ancestor identifiers are folded.  Bits are only ever set, never
/// cleared.
pub struct Namefilter {
    bits: Vec<u8>,
}

impl View for Namefilter {
    type V = Seq<u8>;

    closed spec fn view(&self) -> Seq<u8> {
        self.bits@
    }
}

impl Namefilter {
    /// Well-formedness: the accumulator has its fixed capacity.
    pub open spec fn wf(self) -> bool {
        self@.len() == 256
    }

    /// An empty filter: no bit set.
    pub fn new() -> (r: Namefilter)
        ensures
            r.wf(),
            r@ == zero_filter(),
            forall|i: int| 0 <= i < 2048 ==> !bit_at(r@, i),
    {
        let mut bits: Vec<u8> = Vec::new();
        let mut i: usize = 0;
        while i < 256
            invariant
                bits@.len() == i,
                0 <= i <= 256,
                forall|k: int| 0 <= k < i ==> bits@[k] == 0u8,
            decreases 256 - i,
        {
            bits.push(0u8);
            i = i + 1;
        }
        proof {
            assert(bits@ =~= zero_filter());
        }
        assert forall|i: int| 0 <= i < 2048 implies !bit_at(bits@, i) by {
            assert(bits@[i / 8] == 0u8);
            assert(forall|m: u8| m < 8 ==> ((0u8 >> m) & 1) == 0) by (bit_vector);
            assert(((i % 8) as u8) < 8);
        }
        Namefilter { bits }
    }

    /// The raw accumulator bytes.
    pub fn as_bytes(&self) -> (r: &Vec<u8>)
        ensures
            r@ == self@,
    {
        &self.bits
    }

    /// A filter over existing accumulator bytes.
    pub fn from_bytes(bits: Vec<u8>) -> (r: Namefilter)
        requires
            bits@.len() == 256,
        ensures
            r.wf(),
            r@ == bits@,
    {
        Namefilter { bits }
    }

    /// Whether the accumulator has its fixed capacity.
    pub fn is_wf(&self) -> (b: bool)
        ensures
            b == self.wf(),
    {
        self.bits.len() == 256
    }

    /// Sets the `BITS_PER_ADD` positions drawn from seed state `st`.
    fn set_positions(&mut self, st: u64)
        requires
            old(self).wf(),
        ensures
            final(self).wf(),
            final(self)@ == apply_upto(old(self)@, st, BITS_PER_ADD as int),
    {
        let mut j: usize = 0;
        while j < BITS_PER_ADD
            invariant
                0 <= j <= BITS_PER_ADD,
                old(self)@.len() == 256,
                self.bits@.len() == 256,
                self.bits@ == apply_upto(old(self)@, st, j as int),
            decreases BITS_PER_ADD - j,
        {
            proof {
                lemma_apply_upto(old(self)@, st, j as int);
            }
            let w: u64 = mix64(st ^ (j as u64));
            let p: usize = (w % 2048) as usize;
            let b: u8 = self.bits[p / 8];
            let nb: u8 = b | (1u8 << ((p % 8) as u8));
            self.bits[p / 8] = nb;
            proof {
                assert(p == pos_at(st, j as int));
                assert(self.bits@ =~= set_bit_seq(apply_upto(old(self)@, st, j as int), pos_at(st, j as int)));
                assert(self.bits@ == apply_upto(old(self)@, st, j as int + 1));
            }
            j = j + 1;
        }
    }

    /// Folds the identifier `id` into the filter: sets a pattern of bits
    /// drawn from a seed that depends on `id` and on the current contents.
    /// Existing bits are never cleared.
    pub fn add(&mut self, id: &Vec<u8>)
        requires
            old(self).wf(),
        ensures
            final(self).wf(),
            final(self)@ == apply_upto(old(self)@, add_seed(old(self)@, id@), BITS_PER_ADD as int),
            forall|i: int| 0 <= i < 2048 && bit_at(old(self)@, i) ==> bit_at(final(self)@, i),
    {
        let st0: u64 = fold_bytes(HASH_SEED, id.as_slice());
        let st: u64 = fold_bytes(st0, self.bits.as_slice());
        proof {
            assert(st == add_seed(old(self)@, id@));
        }
        self.set_positions(st);
        proof {
            lemma_apply_upto_monotone(old(self)@, st, BITS_PER_ADD as int);
        }
    }

    /// Number of set bits.
    fn count_ones(&self) -> (n: usize)
        requires
            self.wf(),
        ensures
            n == ones_spec(self@),
    {
        let mut n: usize = 0;
        let mut i: usize = 0;
        while i < self.bits.len()
            invariant
                self.wf(),
                0 <= i <= self.bits@.len(),
                self.bits@.len() == 256,
                n == ones_spec(self.bits@.take(i as int)),
                n <= 8 * i,
            decreases self.bits@.len() - i,
        {
            let b: u8 = self.bits[i];
            proof {
                assert(forall|y: u8| (y & 1) <= 1) by (bit_vector);
            }
            let c: usize = (((b >> 0) & 1) + ((b >> 1) & 1) + ((b >> 2) & 1) + ((b >> 3) & 1) + ((b
                >> 4) & 1) + ((b >> 5) & 1) + ((b >> 6) & 1) + ((b >> 7) & 1)) as usize;
            proof {
                assert(self.bits@.take(i + 1).drop_last() =~= self.bits@.take(i as int));
                assert(c == pop8(b));
            }
            n = n + c;
            i = i + 1;
        }
        proof {
            assert(self.bits@.take(self.bits@.len() as int) =~= self.bits@);
        }
        n
    }

    /// Pads the filter to a canonical bit density: folds the filter's own
    /// hash back into it until at least `SATURATION_THRESHOLD` bits are set
    /// (or the round bound is hit).  The result is a superset of the input
    /// and is what gets hashed into the trie lookup key.
    pub fn saturate(&self) -> (r: Namefilter)
        requires
            self.wf(),
        ensures
            r.wf(),
            r@ == sat_n(self@, SATURATION_ROUNDS as int),
    {
        let mut cur = Namefilter { bits: self.bits.clone() };
        let mut k: usize = 0;
        proof {
            assert(cur@ == self@);
        }
        while k < SATURATION_ROUNDS
            invariant
                0 <= k <= SATURATION_ROUNDS,
                cur.wf(),
                sat_n(cur@, SATURATION_ROUNDS - k) == sat_n(self@, SATURATION_ROUNDS as int),
            decreases SATURATION_ROUNDS - k,
    {
            if reached_saturation(&cur) {
                proof {
                    assert(sat_n(cur@, SATURATION_ROUNDS - k) == cur@);
                }
                return cur;
            }
            let st: u64 = fold_bytes(HASH_SEED, cur.bits.as_slice());
            proof {
                assert(st == hash64_spec(cur@));
                assert(sat_n(cur@, SATURATION_ROUNDS - k) == sat_n(
                    sat_step(cur@),
                    SATURATION_ROUNDS - k - 1,
                ));
            }
            cur.set_positions(st);
            k = k + 1;
        }
        proof {
            assert(sat_n(cur@, 0) == cur@);
        }
        cur
    }

    /// The trie lookup key: the SHA3-256 digest of the saturated filter.
    pub fn saturated_hash(&self) -> (h: HashOutput)
        requires
            self.wf(),
        ensures
            h@ == sha3_of(sat_n(self@, SATURATION_ROUNDS as int)),
    {
        let sat = self.saturate();
        sha3(sat.bits.as_slice())
    }
}

/// Whether the filter has reached the saturation threshold.
fn reached_saturation(f: &Namefilter) -> (r: bool)
    requires
        f.wf(),
    ensures
        r == (ones_spec(f@) >= SATURATION_THRESHOLD),
{
    f.count_ones() >= SATURATION_THRESHOLD
}

} // verus!
