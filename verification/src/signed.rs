use vstd::prelude::*;
use crate::bits::{bit32, bits32, ones32, is_top_bit32, is_low_bit32, lemma_zero32, lemma_set_bit32,
    lemma_test_bit32, popcount32, top_bit32, low_bit32, lemma_bits_determine32, lemma_ones32_zero, lemma_ops32};
use crate::fib::{fib, fib_table, lemma_fib_values};
use crate::representation::{fib_sum, greedy_positions, top_index, no_adjacent, lemma_greedy_zero,
    lemma_top_index_zero, lemma_fib_sum_bound, lemma_greedy_exact, lemma_greedy_no_adjacent, lemma_greedy_full, below, lemma_greedy_below};

verus! {

/// The number of basis positions of a [`SignedZeckendorf`] value.
pub const SIGNED_FIB_LEN: usize = 24;

/// A signed value as a trit per Fibonacci position: bit `k` of `pos` stands
/// for `+fib(k)`, bit `k` of `neg` for `-fib(k)`.
#[derive(Clone, Copy, Debug)]
pub struct SignedZeckendorf {
    /// Bit `k` set: `+fib(k)` contributes.
    pub pos: u32,
    /// Bit `k` set: `-fib(k)` contributes.
    pub neg: u32,
    /// The highest active position.
    pub max_scale: u8,
}

/// The magnitude of an integer.
pub open spec fn magnitude(q: int) -> nat {
    if q < 0 {
        (-q) as nat
    } else {
        q as nat
    }
}

/// `z` is the encoding of `q`: the greedy decomposition of `|q|` over the
/// positions `0..SIGNED_FIB_LEN`, on the side of its sign.
pub open spec fn signed_encodes(z: SignedZeckendorf, q: int) -> bool {
    &&& q > 0 ==> bits32(z.pos) == greedy_positions(magnitude(q), SIGNED_FIB_LEN as nat) && z.neg == 0
    &&& q < 0 ==> bits32(z.neg) == greedy_positions(magnitude(q), SIGNED_FIB_LEN as nat) && z.pos == 0
    &&& q == 0 ==> z.pos == 0 && z.neg == 0
    &&& z.max_scale == top_index(magnitude(q), SIGNED_FIB_LEN as nat)
}

/// The value that a signed encoding stands for.
pub open spec fn signed_value(z: SignedZeckendorf) -> int {
    fib_sum(bits32(z.pos), SIGNED_FIB_LEN as nat) - fib_sum(bits32(z.neg), SIGNED_FIB_LEN as nat)
}

/// The trit at position `k`: +1, 0 or -1.
pub open spec fn trit_at(z: SignedZeckendorf, k: nat) -> int {
    (if bit32(z.pos, k) {
        1int
    } else {
        0int
    }) - (if bit32(z.neg, k) {
        1int
    } else {
        0int
    })
}

/// The positions where two encodings carry the same sign.
pub open spec fn agreement_bits(a: SignedZeckendorf, b: SignedZeckendorf) -> u32 {
    (a.pos & b.pos) | (a.neg & b.neg)
}

/// The positions where two encodings carry opposite signs.
pub open spec fn cancellation_bits(a: SignedZeckendorf, b: SignedZeckendorf) -> u32 {
    (a.pos & b.neg) | (a.neg & b.pos)
}

/// Agreement, cancellation and one-sided positions of two signed values.
#[derive(Clone, Debug)]
pub struct SignedResonance {
    /// Same sign at the same position.
    pub agreement: u32,
    /// Opposite signs at the same position.
    pub cancellation: u32,
    /// Only one of the two values active.
    pub one_sided: u32,
    pub agreement_count: u32,
    pub cancellation_count: u32,
    /// `agreement_count - cancellation_count`.
    pub net_resonance: i32,
}

proof fn lemma_bv_bit01(x: u32, k: u32)
    by (bit_vector)
    requires
        k < 32,
    ensures
        (x >> k) & 1u32 <= 1u32,
        (x >> k) & 1u32 == 1u32 || (x >> k) & 1u32 == 0u32,
{
}

impl SignedZeckendorf {
    /// Encodes an already quantized value: the greedy Zeckendorf
    /// decomposition of its magnitude, placed on the side of its sign.
    pub fn encode_quantized(quantized: i64) -> (z: Self)
        ensures
            signed_encodes(z, quantized as int),
            magnitude(quantized as int) + 2 <= fib(25) ==> signed_value(z) == quantized,
            z.pos & z.neg == 0,
    {
        let z = Self::encode_greedy(quantized);
        proof {
            if magnitude(quantized as int) + 2 <= fib(25) {
                law_signed_roundtrip(z, quantized as int);
            }
            law_signs_disjoint(z, quantized as int);
        }
        z
    }

    fn encode_greedy(quantized: i64) -> (z: Self)
        ensures
            signed_encodes(z, quantized as int),
    {
        if quantized == 0 {
            proof {
                lemma_top_index_zero(SIGNED_FIB_LEN as nat);
            }
            return SignedZeckendorf { pos: 0, neg: 0, max_scale: 0 };
        }
        let magnitude_value: u64 = if quantized >= 0 {
            quantized as u64
        } else {
            (-(quantized as i128)) as u64
        };
        let ghost v = magnitude(quantized as int);
        assert(magnitude_value == v);
        let table = fib_table(SIGNED_FIB_LEN);
        let mut rest: u64 = magnitude_value;
        let mut bits: u32 = 0;
        let mut max_scale: u8 = 0;
        let mut first = true;
        let mut i: usize = SIGNED_FIB_LEN;
        proof {
            lemma_zero32();
            assert(greedy_positions(v, SIGNED_FIB_LEN as nat) =~= greedy_positions(rest as nat, i as nat).union(bits32(bits)));
        }
        while i > 0 && rest > 0
            invariant
                i <= SIGNED_FIB_LEN,
                v >= 1,
                rest <= v,
                table@.len() == SIGNED_FIB_LEN,
                forall|j: int| 0 <= j < SIGNED_FIB_LEN ==> table@[j] == fib(j as nat),
                greedy_positions(v, SIGNED_FIB_LEN as nat) == greedy_positions(rest as nat, i as nat).union(bits32(bits)),
                first ==> rest == v && bits == 0 && max_scale == 0
                    && top_index(v, SIGNED_FIB_LEN as nat) == top_index(v, i as nat),
                !first ==> max_scale == top_index(v, SIGNED_FIB_LEN as nat),
            decreases i,
        {
            i = i - 1;
            let ghost k = i as nat;
            let ghost old_rest = rest as nat;
            if table[i] <= rest {
                proof {
                    lemma_set_bit32(bits, i as u32);
                }
                bits = bits | (1u32 << (i as u32));
                rest = rest - table[i];
                if first {
                    max_scale = i as u8;
                    first = false;
                }
                proof {
                    assert(greedy_positions(old_rest, k + 1) == greedy_positions(rest as nat, k).insert(k));
                    assert(greedy_positions(v, SIGNED_FIB_LEN as nat) =~= greedy_positions(rest as nat, k).union(bits32(bits)));
                }
            } else {
                proof {
                    assert(greedy_positions(old_rest, k + 1) == greedy_positions(rest as nat, k));
                }
            }
        }
        proof {
            if rest == 0 {
                lemma_greedy_zero(i as nat);
            }
            assert(greedy_positions(rest as nat, i as nat) =~= Set::<nat>::empty());
            assert(greedy_positions(v, SIGNED_FIB_LEN as nat) =~= bits32(bits));
        }
        if quantized > 0 {
            SignedZeckendorf { pos: bits, neg: 0, max_scale }
        } else {
            SignedZeckendorf { pos: 0, neg: bits, max_scale }
        }
    }

    /// Decodes back to the signed integer.
    pub fn decode(&self) -> (v: i64)
        ensures
            v == signed_value(*self),
    {
        let table = fib_table(SIGNED_FIB_LEN);
        proof {
            lemma_fib_values();
        }
        let mut value: i64 = 0;
        let mut i: usize = 0;
        while i < SIGNED_FIB_LEN
            invariant
                i <= SIGNED_FIB_LEN,
                table@.len() == SIGNED_FIB_LEN,
                forall|j: int| 0 <= j < SIGNED_FIB_LEN ==> table@[j] == fib(j as nat),
                value == fib_sum(bits32(self.pos), i as nat) - fib_sum(bits32(self.neg), i as nat),
                fib(25) == 196418,
            decreases SIGNED_FIB_LEN - i,
        {
            proof {
                lemma_test_bit32(self.pos, i as u32);
                lemma_test_bit32(self.neg, i as u32);
                lemma_fib_sum_bound(bits32(self.pos), (i + 1) as nat);
                lemma_fib_sum_bound(bits32(self.neg), (i + 1) as nat);
                lemma_fib_sum_bound(bits32(self.pos), i as nat);
                lemma_fib_sum_bound(bits32(self.neg), i as nat);
                crate::fib::lemma_fib_monotone((i + 2) as nat, 25);
                crate::fib::lemma_fib_monotone((i + 1) as nat, 25);
            }
            if self.pos & (1u32 << (i as u32)) != 0 {
                value = value + table[i] as i64;
            }
            if self.neg & (1u32 << (i as u32)) != 0 {
                value = value - table[i] as i64;
            }
            i = i + 1;
        }
        value
    }

    /// The trit at position `k`: -1, 0 or +1.
    pub fn trit(&self, k: usize) -> (t: i8)
        requires
            k < 32,
        ensures
            t == trit_at(*self, k as nat),
    {
        proof {
            lemma_bv_bit01(self.pos, k as u32);
            lemma_bv_bit01(self.neg, k as u32);
        }
        let p = (self.pos >> (k as u32)) & 1;
        let n = (self.neg >> (k as u32)) & 1;
        p as i8 - n as i8
    }

    /// Agreement (same sign), cancellation (opposite signs) and one-sided
    /// positions of two signed values.
    pub fn signed_resonance(&self, other: &Self) -> (r: SignedResonance)
        ensures
            r.agreement == agreement_bits(*self, *other),
            r.cancellation == cancellation_bits(*self, *other),
            r.one_sided == ((self.pos | self.neg) ^ (other.pos | other.neg)) & ((self.pos | self.neg) | (
            other.pos | other.neg)),
            r.agreement_count == ones32(agreement_bits(*self, *other), 32),
            r.cancellation_count == ones32(cancellation_bits(*self, *other), 32),
            r.net_resonance == r.agreement_count - r.cancellation_count,
    {
        let agree_pos = self.pos & other.pos;
        let agree_neg = self.neg & other.neg;
        let agreement = agree_pos | agree_neg;
        let cancel_1 = self.pos & other.neg;
        let cancel_2 = self.neg & other.pos;
        let cancellation = cancel_1 | cancel_2;
        let self_active = self.pos | self.neg;
        let other_active = other.pos | other.neg;
        let one_sided = (self_active ^ other_active) & (self_active | other_active);
        let agreement_count = popcount32(agreement);
        let cancellation_count = popcount32(cancellation);
        SignedResonance {
            agreement,
            cancellation,
            one_sided,
            agreement_count,
            cancellation_count,
            net_resonance: agreement_count as i32 - cancellation_count as i32,
        }
    }

    /// The number of active (nonzero) trits.
    pub fn active_count(&self) -> (r: u32)
        ensures
            r == ones32(self.pos | self.neg, 32),
            r <= 32,
    {
        popcount32(self.pos | self.neg)
    }
}


/// The number of positions where two encodings agree in sign.
pub open spec fn agree_count(a: SignedZeckendorf, b: SignedZeckendorf) -> nat {
    ones32(agreement_bits(a, b), 32)
}

/// The number of positions where two encodings cancel.
pub open spec fn cancel_count(a: SignedZeckendorf, b: SignedZeckendorf) -> nat {
    ones32(cancellation_bits(a, b), 32)
}

/// Five signed dimensions handled together.
#[derive(Clone, Debug)]
pub struct PentaGroup {
    pub dims: [SignedZeckendorf; 5],
}

/// Agreement of the first `n` dimensions of two groups.
pub open spec fn group_agree(a: PentaGroup, b: PentaGroup, n: nat) -> nat
    decreases n,
{
    if n == 0 {
        0
    } else {
        group_agree(a, b, (n - 1) as nat) + agree_count(a.dims@[n - 1], b.dims@[n - 1])
    }
}

/// Cancellation of the first `n` dimensions of two groups.
pub open spec fn group_cancel(a: PentaGroup, b: PentaGroup, n: nat) -> nat
    decreases n,
{
    if n == 0 {
        0
    } else {
        group_cancel(a, b, (n - 1) as nat) + cancel_count(a.dims@[n - 1], b.dims@[n - 1])
    }
}

/// Two bits per active trit over the first `n` dimensions of a group.
pub open spec fn group_cost(g: PentaGroup, n: nat) -> nat
    decreases n,
{
    if n == 0 {
        0
    } else {
        group_cost(g, (n - 1) as nat) + 2 * ones32(g.dims@[n - 1].pos | g.dims@[n - 1].neg, 32)
    }
}

/// The trit that fingerprint position `m` reads: position `m % 12` of
/// dimension `m / 12`.
pub open spec fn fingerprint_trit(g: PentaGroup, m: int) -> int {
    trit_at(g.dims@[m / 12], (m % 12) as nat)
}

/// Bit `m` of the fingerprint: each of the 60 trits adds `trit + 1` shifted
/// to its position, so a 0 trit sets its own bit and a +1 trit the next one.
pub open spec fn fingerprint_bit(g: PentaGroup, m: int) -> bool {
    ||| 0 <= m < 60 && fingerprint_trit(g, m) == 0
    ||| 1 <= m <= 60 && fingerprint_trit(g, m - 1) == 1
}

/// Bit `i` of a 64-bit word.
pub open spec fn bit64(x: u64, i: int) -> bool {
    0 <= i < 64 && (x >> (i as u64)) & 1u64 == 1u64
}

/// Sums of agreement and cancellation over the five dimensions of two groups.
#[derive(Clone, Debug)]
pub struct GroupResonance {
    pub agreement: u32,
    pub cancellation: u32,
    pub net_resonance: i32,
}

proof fn lemma_bv_or_shift64(h: u64, val: u64, t: u64, m: u64)
    by (bit_vector)
    requires
        val <= 2,
        t < 62,
        m < 64,
    ensures
        ((h | (val << t)) >> m) & 1u64 == 1u64 <==> (((h >> m) & 1u64 == 1u64) || (val == 1 && m
            == t) || (val == 2 && m == t + 1)),
{
}

proof fn lemma_bv_zero64(m: u64)
    by (bit_vector)
    ensures
        (0u64 >> m) & 1u64 != 1u64,
{
}

proof fn lemma_div12(d: int, k: int)
    by (nonlinear_arith)
    requires
        0 <= k < 12,
        0 <= d,
    ensures
        (d * 12 + k) / 12 == d,
        (d * 12 + k) % 12 == k,
{
}

/// The fingerprint bits once the trits before position `t` are in.
spec fn fingerprint_bit_upto(g: PentaGroup, m: int, t: int) -> bool {
    ||| 0 <= m < t && fingerprint_trit(g, m) == 0
    ||| 1 <= m <= t && fingerprint_trit(g, m - 1) == 1
}

impl PentaGroup {
    /// Encodes five already quantized values.
    pub fn encode_quantized(values: &[i64; 5]) -> (g: Self)
        ensures
            forall|i: int| 0 <= i < 5 ==> signed_encodes(#[trigger] g.dims@[i], values@[i] as int),
    {
        PentaGroup {
            dims: [
                SignedZeckendorf::encode_quantized(values[0]),
                SignedZeckendorf::encode_quantized(values[1]),
                SignedZeckendorf::encode_quantized(values[2]),
                SignedZeckendorf::encode_quantized(values[3]),
                SignedZeckendorf::encode_quantized(values[4]),
            ],
        }
    }

    /// Agreement and cancellation summed over the five dimensions.
    pub fn group_resonance(&self, other: &PentaGroup) -> (r: GroupResonance)
        ensures
            r.agreement == group_agree(*self, *other, 5),
            r.cancellation == group_cancel(*self, *other, 5),
            r.net_resonance == r.agreement - r.cancellation,
    {
        let mut total_agreement: u32 = 0;
        let mut total_cancellation: u32 = 0;
        let mut net: i32 = 0;
        let mut i: usize = 0;
        while i < 5
            invariant
                i <= 5,
                total_agreement == group_agree(*self, *other, i as nat),
                total_cancellation == group_cancel(*self, *other, i as nat),
                total_agreement <= 32 * i,
                total_cancellation <= 32 * i,
                net == total_agreement - total_cancellation,
            decreases 5 - i,
        {
            let r = self.dims[i].signed_resonance(&other.dims[i]);
            proof {
                crate::bits::lemma_ones32_bound(agreement_bits(self.dims@[i as int], other.dims@[i as int]), 32);
                crate::bits::lemma_ones32_bound(cancellation_bits(self.dims@[i as int], other.dims@[i as int]), 32);
            }
            total_agreement = total_agreement + r.agreement_count;
            total_cancellation = total_cancellation + r.cancellation_count;
            net = net + r.net_resonance;
            i = i + 1;
        }
        GroupResonance { agreement: total_agreement, cancellation: total_cancellation, net_resonance: net }
    }

    /// Packs the low 12 trits of each dimension into one word: trit `k` of
    /// dimension `d` adds `trit + 1` shifted by `d * 12 + k` bits.
    pub fn fingerprint(&self) -> (hash: u64)
        ensures
            forall|m: int| 0 <= m < 64 ==> (#[trigger] bit64(hash, m) <==> fingerprint_bit(*self, m)),
    {
        let mut hash: u64 = 0;
        let mut d: usize = 0;
        proof {
            assert forall|m: int| 0 <= m < 64 implies (#[trigger] bit64(hash, m) <==> fingerprint_bit_upto(*self, m, 0)) by {
                lemma_bv_zero64(m as u64);
            }
        }
        while d < 5
            invariant
                d <= 5,
                forall|m: int| 0 <= m < 64 ==> (#[trigger] bit64(hash, m) <==> fingerprint_bit_upto(*self, m, (d * 12) as int)),
            decreases 5 - d,
        {
            let mut k: usize = 0;
            while k < 12
                invariant
                    d < 5,
                    k <= 12,
                    forall|m: int| 0 <= m < 64 ==> (#[trigger] bit64(hash, m) <==> fingerprint_bit_upto(*self, m, (d * 12 + k) as int)),
                decreases 12 - k,
            {
                let trit = self.dims[d].trit(k);
                let val = (trit + 1) as u64;
                let bit_pos = d * 12 + k;
                let ghost old_hash = hash;
                hash = hash | (val << (bit_pos as u64));
                proof {
                    lemma_div12(d as int, k as int);
                    assert forall|m: int| 0 <= m < 64 implies (#[trigger] bit64(hash, m) <==> fingerprint_bit_upto(*self, m, (d * 12 + k + 1) as int)) by {
                        lemma_bv_or_shift64(old_hash, val, bit_pos as u64, m as u64);
                        assert(bit64(old_hash, m) <==> fingerprint_bit_upto(*self, m, (d * 12 + k) as int));
                        assert(fingerprint_trit(*self, bit_pos as int) == trit);
                    }
                }
                k = k + 1;
            }
            d = d + 1;
        }
        hash
    }

    /// The bits needed to store the group: two per active trit.
    pub fn bit_cost(&self) -> (r: u32)
        ensures
            r == group_cost(*self, 5),
    {
        let mut total: u32 = 0;
        let mut i: usize = 0;
        while i < 5
            invariant
                i <= 5,
                total == group_cost(*self, i as nat),
                total <= 64 * i,
            decreases 5 - i,
        {
            let active = self.dims[i].active_count();
            total = total + active * 2;
            i = i + 1;
        }
        total
    }
}


/// A long signed vector held as groups of five dimensions.
#[derive(Clone, Debug)]
pub struct FibVec10K {
    pub groups: Vec<PentaGroup>,
}

/// Value `t` of a list padded with zeros at the end.
pub open spec fn padded_value(values: Seq<i64>, t: int) -> int {
    if 0 <= t < values.len() {
        values[t] as int
    } else {
        0
    }
}

/// The storage cost of the first `n` groups.
pub open spec fn groups_cost(groups: Seq<PentaGroup>, n: nat) -> nat
    decreases n,
{
    if n == 0 {
        0
    } else {
        groups_cost(groups, (n - 1) as nat) + group_cost(groups[n - 1], 5)
    }
}

/// The number of groups that two vectors have in common.
pub open spec fn common_groups(a: Seq<PentaGroup>, b: Seq<PentaGroup>) -> nat {
    if a.len() <= b.len() {
        a.len()
    } else {
        b.len()
    }
}

/// Agreement over the first `n` groups of two vectors.
pub open spec fn vec_agree(a: Seq<PentaGroup>, b: Seq<PentaGroup>, n: nat) -> nat
    decreases n,
{
    if n == 0 {
        0
    } else {
        vec_agree(a, b, (n - 1) as nat) + group_agree(a[n - 1], b[n - 1], 5)
    }
}

/// Cancellation over the first `n` groups of two vectors.
pub open spec fn vec_cancel(a: Seq<PentaGroup>, b: Seq<PentaGroup>, n: nat) -> nat
    decreases n,
{
    if n == 0 {
        0
    } else {
        vec_cancel(a, b, (n - 1) as nat) + group_cancel(a[n - 1], b[n - 1], 5)
    }
}

/// The number of the first `m` dimensions of two groups that agree at position `k`.
pub open spec fn group_scale_agree(a: PentaGroup, b: PentaGroup, m: nat, k: nat) -> nat
    decreases m,
{
    if m == 0 {
        0
    } else {
        group_scale_agree(a, b, (m - 1) as nat, k) + if bit32(agreement_bits(a.dims@[m - 1], b.dims@[m - 1]), k) {
            1nat
        } else {
            0nat
        }
    }
}

/// The number of the first `m` dimensions of two groups that cancel at position `k`.
pub open spec fn group_scale_cancel(a: PentaGroup, b: PentaGroup, m: nat, k: nat) -> nat
    decreases m,
{
    if m == 0 {
        0
    } else {
        group_scale_cancel(a, b, (m - 1) as nat, k) + if bit32(cancellation_bits(a.dims@[m - 1], b.dims@[m - 1]), k) {
            1nat
        } else {
            0nat
        }
    }
}

/// Agreement at position `k` over the first `n` groups of two vectors.
pub open spec fn vec_scale_agree(a: Seq<PentaGroup>, b: Seq<PentaGroup>, n: nat, k: nat) -> nat
    decreases n,
{
    if n == 0 {
        0
    } else {
        vec_scale_agree(a, b, (n - 1) as nat, k) + group_scale_agree(a[n - 1], b[n - 1], 5, k)
    }
}

/// Cancellation at position `k` over the first `n` groups of two vectors.
pub open spec fn vec_scale_cancel(a: Seq<PentaGroup>, b: Seq<PentaGroup>, n: nat, k: nat) -> nat
    decreases n,
{
    if n == 0 {
        0
    } else {
        vec_scale_cancel(a, b, (n - 1) as nat, k) + group_scale_cancel(a[n - 1], b[n - 1], 5, k)
    }
}

/// The integer part of the resonance of two signed vectors: agreement and
/// cancellation in total and per Fibonacci position.
#[derive(Clone, Debug)]
pub struct FibResonanceCounts {
    pub total_agreement: u32,
    pub total_cancellation: u32,
    pub net_resonance: i64,
    /// `scale_agreement[k]`: the dimensions agreeing at position `k`.
    pub scale_agreement: Vec<u32>,
    /// `scale_cancellation[k]`: the dimensions cancelling at position `k`.
    pub scale_cancellation: Vec<u32>,
    pub n_groups: usize,
}

fn padded_at(values: &[i64], t: usize) -> (v: i64)
    ensures
        v == padded_value(values@, t as int),
{
    if t < values.len() {
        values[t]
    } else {
        0
    }
}

proof fn lemma_ones32_positive(x: u32, k: nat, n: nat)
    requires
        bit32(x, k),
        k < n,
    ensures
        ones32(x, n) >= 1,
    decreases n,
{
    if k < n - 1 {
        lemma_ones32_positive(x, k, (n - 1) as nat);
    }
}

proof fn lemma_group_scale_bound(a: PentaGroup, b: PentaGroup, m: nat, k: nat)
    ensures
        group_scale_agree(a, b, m, k) <= group_agree(a, b, m),
        group_scale_cancel(a, b, m, k) <= group_cancel(a, b, m),
    decreases m,
{
    if m > 0 {
        lemma_group_scale_bound(a, b, (m - 1) as nat, k);
        if bit32(agreement_bits(a.dims@[m - 1], b.dims@[m - 1]), k) {
            lemma_ones32_positive(agreement_bits(a.dims@[m - 1], b.dims@[m - 1]), k, 32);
        }
        if bit32(cancellation_bits(a.dims@[m - 1], b.dims@[m - 1]), k) {
            lemma_ones32_positive(cancellation_bits(a.dims@[m - 1], b.dims@[m - 1]), k, 32);
        }
    }
}

proof fn lemma_vec_scale_bound(a: Seq<PentaGroup>, b: Seq<PentaGroup>, n: nat, k: nat)
    ensures
        vec_scale_agree(a, b, n, k) <= vec_agree(a, b, n),
        vec_scale_cancel(a, b, n, k) <= vec_cancel(a, b, n),
    decreases n,
{
    if n > 0 {
        lemma_vec_scale_bound(a, b, (n - 1) as nat, k);
        lemma_group_scale_bound(a[n - 1], b[n - 1], 5, k);
    }
}

proof fn lemma_vec_totals_monotone(a: Seq<PentaGroup>, b: Seq<PentaGroup>, i: nat, n: nat)
    requires
        i <= n,
    ensures
        vec_agree(a, b, i) <= vec_agree(a, b, n),
        vec_cancel(a, b, i) <= vec_cancel(a, b, n),
    decreases n - i,
{
    if i < n {
        lemma_vec_totals_monotone(a, b, i, (n - 1) as nat);
    }
}

proof fn lemma_group_partial(a: PentaGroup, b: PentaGroup, m: nat, k: nat)
    requires
        m <= 5,
    ensures
        group_agree(a, b, m) <= group_agree(a, b, 5),
        group_cancel(a, b, m) <= group_cancel(a, b, 5),
        group_scale_agree(a, b, m, k) <= group_scale_agree(a, b, 5, k),
        group_scale_cancel(a, b, m, k) <= group_scale_cancel(a, b, 5, k),
    decreases 5 - m,
{
    if m < 5 {
        lemma_group_partial(a, b, m + 1, k);
    }
}

impl FibVec10K {
    /// Encodes already quantized values, padded with zeros to a multiple of
    /// five, as groups of five.
    pub fn from_quantized(values: &[i64]) -> (v: Self)
        requires
            values@.len() + 4 <= usize::MAX,
        ensures
            v.groups@.len() == (values@.len() + 4) / 5,
            forall|g: int, d: int|
                0 <= g < v.groups@.len() && 0 <= d < 5 ==> signed_encodes(
                    #[trigger] v.groups@[g].dims@[d],
                    padded_value(values@, 5 * g + d),
                ),
    {
        let n_groups = (values.len() + 4) / 5;
        let mut groups: Vec<PentaGroup> = Vec::new();
        let mut g: usize = 0;
        while g < n_groups
            invariant
                n_groups == (values@.len() + 4) / 5,
                values@.len() + 4 <= usize::MAX,
                g <= n_groups,
                groups@.len() == g,
                forall|h: int, d: int|
                    0 <= h < g && 0 <= d < 5 ==> signed_encodes(
                        #[trigger] groups@[h].dims@[d],
                        padded_value(values@, 5 * h + d),
                    ),
            decreases n_groups - g,
        {
            let base = 5 * g;
            let chunk: [i64; 5] = [
                padded_at(values, base),
                padded_at(values, base + 1),
                padded_at(values, base + 2),
                padded_at(values, base + 3),
                padded_at(values, base + 4),
            ];
            let group = PentaGroup::encode_quantized(&chunk);
            groups.push(group);
            g = g + 1;
        }
        FibVec10K { groups }
    }

    /// The total storage cost of the vector.
    pub fn total_bits(&self) -> (r: u32)
        requires
            groups_cost(self.groups@, self.groups@.len()) <= u32::MAX,
        ensures
            r == groups_cost(self.groups@, self.groups@.len()),
    {
        let mut total: u32 = 0;
        let mut g: usize = 0;
        while g < self.groups.len()
            invariant
                g <= self.groups@.len(),
                total == groups_cost(self.groups@, g as nat),
                groups_cost(self.groups@, self.groups@.len()) <= u32::MAX,
            decreases self.groups@.len() - g,
        {
            proof {
                lemma_groups_cost_monotone(self.groups@, (g + 1) as nat, self.groups@.len());
            }
            total = total + self.groups[g].bit_cost();
            g = g + 1;
        }
        total
    }

    /// Agreement and cancellation of two vectors over their common groups,
    /// in total and per Fibonacci position.
    pub fn resonance_counts(&self, other: &Self) -> (r: FibResonanceCounts)
        requires
            vec_agree(self.groups@, other.groups@, common_groups(self.groups@, other.groups@)) <= u32::MAX,
            vec_cancel(self.groups@, other.groups@, common_groups(self.groups@, other.groups@)) <= u32::MAX,
        ensures
            r.n_groups == common_groups(self.groups@, other.groups@),
            r.total_agreement == vec_agree(self.groups@, other.groups@, r.n_groups as nat),
            r.total_cancellation == vec_cancel(self.groups@, other.groups@, r.n_groups as nat),
            r.net_resonance == r.total_agreement - r.total_cancellation,
            r.scale_agreement@.len() == SIGNED_FIB_LEN,
            r.scale_cancellation@.len() == SIGNED_FIB_LEN,
            forall|k: int|
                0 <= k < SIGNED_FIB_LEN ==> #[trigger] r.scale_agreement@[k] == vec_scale_agree(
                    self.groups@,
                    other.groups@,
                    r.n_groups as nat,
                    k as nat,
                ),
            forall|k: int|
                0 <= k < SIGNED_FIB_LEN ==> #[trigger] r.scale_cancellation@[k] == vec_scale_cancel(
                    self.groups@,
                    other.groups@,
                    r.n_groups as nat,
                    k as nat,
                ),
    {
        let n = if self.groups.len() <= other.groups.len() {
            self.groups.len()
        } else {
            other.groups.len()
        };
        let ghost a = self.groups@;
        let ghost b = other.groups@;
        let mut total_agree: u32 = 0;
        let mut total_cancel: u32 = 0;
        let mut total_net: i64 = 0;
        let mut scale_agree: Vec<u32> = Vec::new();
        let mut scale_cancel: Vec<u32> = Vec::new();
        let mut k: usize = 0;
        while k < SIGNED_FIB_LEN
            invariant
                k <= SIGNED_FIB_LEN,
                scale_agree@.len() == k,
                scale_cancel@.len() == k,
                forall|q: int| 0 <= q < k ==> scale_agree@[q] == 0 && scale_cancel@[q] == 0,
            decreases SIGNED_FIB_LEN - k,
        {
            scale_agree.push(0);
            scale_cancel.push(0);
            k = k + 1;
        }
        let mut g: usize = 0;
        while g < n
            invariant
                n == common_groups(a, b),
                a == self.groups@,
                b == other.groups@,
                g <= n,
                vec_agree(a, b, n as nat) <= u32::MAX,
                vec_cancel(a, b, n as nat) <= u32::MAX,
                total_agree == vec_agree(a, b, g as nat),
                total_cancel == vec_cancel(a, b, g as nat),
                total_net == total_agree - total_cancel,
                scale_agree@.len() == SIGNED_FIB_LEN,
                scale_cancel@.len() == SIGNED_FIB_LEN,
                forall|q: int| 0 <= q < SIGNED_FIB_LEN ==> #[trigger] scale_agree@[q] == vec_scale_agree(a, b, g as nat, q as nat),
                forall|q: int| 0 <= q < SIGNED_FIB_LEN ==> #[trigger] scale_cancel@[q] == vec_scale_cancel(a, b, g as nat, q as nat),
            decreases n - g,
        {
            proof {
                lemma_vec_totals_monotone(a, b, (g + 1) as nat, n as nat);
            }
            let mut d: usize = 0;
            while d < 5
                invariant
                    n == common_groups(a, b),
                    a == self.groups@,
                    b == other.groups@,
                    g < n,
                    d <= 5,
                    vec_agree(a, b, n as nat) <= u32::MAX,
                    vec_cancel(a, b, n as nat) <= u32::MAX,
                    vec_agree(a, b, (g + 1) as nat) <= vec_agree(a, b, n as nat),
                    vec_cancel(a, b, (g + 1) as nat) <= vec_cancel(a, b, n as nat),
                    total_agree == vec_agree(a, b, g as nat) + group_agree(a[g as int], b[g as int], d as nat),
                    total_cancel == vec_cancel(a, b, g as nat) + group_cancel(a[g as int], b[g as int], d as nat),
                    total_net == total_agree - total_cancel,
                    scale_agree@.len() == SIGNED_FIB_LEN,
                    scale_cancel@.len() == SIGNED_FIB_LEN,
                    forall|q: int| 0 <= q < SIGNED_FIB_LEN ==> #[trigger] scale_agree@[q] == vec_scale_agree(a, b, g as nat, q as nat)
                        + group_scale_agree(a[g as int], b[g as int], d as nat, q as nat),
                    forall|q: int| 0 <= q < SIGNED_FIB_LEN ==> #[trigger] scale_cancel@[q] == vec_scale_cancel(a, b, g as nat, q as nat)
                        + group_scale_cancel(a[g as int], b[g as int], d as nat, q as nat),
                decreases 5 - d,
            {
                let r = self.groups[g].dims[d].signed_resonance(&other.groups[g].dims[d]);
                proof {
                    lemma_group_partial(a[g as int], b[g as int], (d + 1) as nat, 0);
                }
                total_agree = total_agree + r.agreement_count;
                total_cancel = total_cancel + r.cancellation_count;
                total_net = total_net + r.net_resonance as i64;
                let mut k: usize = 0;
                while k < SIGNED_FIB_LEN
                    invariant
                        n == common_groups(a, b),
                        a == self.groups@,
                        b == other.groups@,
                        g < n,
                        d < 5,
                        k <= SIGNED_FIB_LEN,
                        r.agreement == agreement_bits(a[g as int].dims@[d as int], b[g as int].dims@[d as int]),
                        r.cancellation == cancellation_bits(a[g as int].dims@[d as int], b[g as int].dims@[d as int]),
                        vec_agree(a, b, n as nat) <= u32::MAX,
                        vec_cancel(a, b, n as nat) <= u32::MAX,
                        scale_agree@.len() == SIGNED_FIB_LEN,
                        scale_cancel@.len() == SIGNED_FIB_LEN,
                        forall|q: int| 0 <= q < k ==> #[trigger] scale_agree@[q] == vec_scale_agree(a, b, g as nat, q as nat)
                            + group_scale_agree(a[g as int], b[g as int], (d + 1) as nat, q as nat),
                        forall|q: int| k <= q < SIGNED_FIB_LEN ==> #[trigger] scale_agree@[q] == vec_scale_agree(a, b, g as nat, q as nat)
                            + group_scale_agree(a[g as int], b[g as int], d as nat, q as nat),
                        forall|q: int| 0 <= q < k ==> #[trigger] scale_cancel@[q] == vec_scale_cancel(a, b, g as nat, q as nat)
                            + group_scale_cancel(a[g as int], b[g as int], (d + 1) as nat, q as nat),
                        forall|q: int| k <= q < SIGNED_FIB_LEN ==> #[trigger] scale_cancel@[q] == vec_scale_cancel(a, b, g as nat, q as nat)
                            + group_scale_cancel(a[g as int], b[g as int], d as nat, q as nat),
                    decreases SIGNED_FIB_LEN - k,
                {
                    proof {
                        lemma_test_bit32(r.agreement, k as u32);
                        lemma_test_bit32(r.cancellation, k as u32);
                        lemma_group_partial(a[g as int], b[g as int], (d + 1) as nat, k as nat);
                        lemma_vec_scale_bound(a, b, (g + 1) as nat, k as nat);
                        lemma_vec_totals_monotone(a, b, (g + 1) as nat, n as nat);
                    }
                    if r.agreement & (1u32 << (k as u32)) != 0 {
                        scale_agree[k] = scale_agree[k] + 1;
                    }
                    if r.cancellation & (1u32 << (k as u32)) != 0 {
                        scale_cancel[k] = scale_cancel[k] + 1;
                    }
                    k = k + 1;
                }
                d = d + 1;
            }
            g = g + 1;
        }
        FibResonanceCounts {
            total_agreement: total_agree,
            total_cancellation: total_cancel,
            net_resonance: total_net,
            scale_agreement: scale_agree,
            scale_cancellation: scale_cancel,
            n_groups: n,
        }
    }

    /// The number of dimensions: five per group.
    pub fn n_dims(&self) -> (r: usize)
        requires
            self.groups@.len() * 5 <= usize::MAX,
        ensures
            r == self.groups@.len() * 5,
    {
        self.groups.len() * 5
    }

    /// The number of groups.
    pub fn n_groups(&self) -> (r: usize)
        ensures
            r == self.groups@.len(),
    {
        self.groups.len()
    }
}

proof fn lemma_groups_cost_monotone(groups: Seq<PentaGroup>, i: nat, n: nat)
    requires
        i <= n,
    ensures
        groups_cost(groups, i) <= groups_cost(groups, n),
    decreases n - i,
{
    if i < n {
        lemma_groups_cost_monotone(groups, i, (n - 1) as nat);
    }
}


/// How the positions of a signed encoding line up with the bfloat16 exponent.
#[derive(Clone, Copy, Debug)]
pub struct Bf16Alignment {
    pub zeck_max_scale: u8,
    pub zeck_min_scale: u8,
    pub bf16_exponent_range: (u8, u8),
    pub mantissa_equivalent: u8,
    pub is_bf16_compatible: bool,
}

/// The biased bfloat16 exponent that Fibonacci position `k` corresponds to:
/// `floor(k * 0.694) + 127`, since `fib(k)` grows like `2^(0.694 k)`.
pub open spec fn bf16_exponent(k: nat) -> nat {
    127 + k * 694 / 1000
}

/// Relates the active positions of a signed encoding to the bfloat16
/// exponent range, and the lower ten positions (`floor(10 * 0.694) = 6` bits)
/// to the 7-bit bfloat16 mantissa.
pub fn bf16_analysis(sz: &SignedZeckendorf) -> (r: Bf16Alignment)
    ensures
        is_top_bit32(sz.pos | sz.neg, r.zeck_max_scale as nat),
        is_low_bit32(sz.pos | sz.neg, r.zeck_min_scale as nat),
        r.bf16_exponent_range.0 == bf16_exponent(r.zeck_min_scale as nat),
        r.bf16_exponent_range.1 == bf16_exponent(r.zeck_max_scale as nat),
        r.mantissa_equivalent == 6,
        r.is_bf16_compatible,
{
    let active = sz.pos | sz.neg;
    let max_pos = top_bit32(active);
    let min_pos = low_bit32(active);
    assert(max_pos * 694 / 1000 <= 22) by (nonlinear_arith)
        requires
            max_pos < 32,
    ;
    assert(min_pos * 694 / 1000 <= 22) by (nonlinear_arith)
        requires
            min_pos < 32,
    ;
    let bf16_exp_max = (127 + max_pos * 694 / 1000) as u8;
    let bf16_exp_min = (127 + min_pos * 694 / 1000) as u8;
    let mantissa_equivalent_bits: u8 = (10u32 * 694 / 1000) as u8;
    Bf16Alignment {
        zeck_max_scale: max_pos as u8,
        zeck_min_scale: min_pos as u8,
        bf16_exponent_range: (bf16_exp_min, bf16_exp_max),
        mantissa_equivalent: mantissa_equivalent_bits,
        is_bf16_compatible: mantissa_equivalent_bits >= 6,
    }
}

// ---------------------------------------------------------------------------
// Laws
// ---------------------------------------------------------------------------

proof fn lemma_fib_sum_empty(n: nat)
    ensures
        fib_sum(Set::<nat>::empty(), n) == 0,
    decreases n,
{
    if n > 0 {
        lemma_fib_sum_empty((n - 1) as nat);
    }
}

/// Decoding gives back the quantized value, for every magnitude up to
/// `fib(25) - 2`, the sum of the whole signed table.
pub proof fn law_signed_roundtrip(z: SignedZeckendorf, q: int)
    requires
        signed_encodes(z, q),
        magnitude(q) + 2 <= fib(25),
    ensures
        signed_value(z) == q,
{
    lemma_zero32();
    lemma_fib_sum_empty(SIGNED_FIB_LEN as nat);
    lemma_greedy_exact(magnitude(q), SIGNED_FIB_LEN as nat);
    if q == 0 {
        assert(bits32(z.pos) == Set::<nat>::empty());
        assert(bits32(z.neg) == Set::<nat>::empty());
    }
}

/// An encoding is never positive and negative at the same position.
pub proof fn law_signs_disjoint(z: SignedZeckendorf, q: int)
    requires
        signed_encodes(z, q),
    ensures
        z.pos & z.neg == 0,
{
    let p = z.pos;
    let n = z.neg;
    assert(p & 0u32 == 0u32 && 0u32 & n == 0u32) by (bit_vector);
}

/// Below `fib(24)` no two neighbouring positions are active.
pub proof fn law_signed_non_consecutive(z: SignedZeckendorf, q: int)
    requires
        signed_encodes(z, q),
        magnitude(q) < fib(24),
    ensures
        no_adjacent(bits32(z.pos)),
        no_adjacent(bits32(z.neg)),
{
    lemma_zero32();
    lemma_greedy_no_adjacent(magnitude(q), SIGNED_FIB_LEN as nat);
}

/// Signed resonance does not depend on the order of its arguments.
pub proof fn law_signed_resonance_symmetric(a: SignedZeckendorf, b: SignedZeckendorf)
    ensures
        agreement_bits(a, b) == agreement_bits(b, a),
        cancellation_bits(a, b) == cancellation_bits(b, a),
        agree_count(a, b) == agree_count(b, a),
        cancel_count(a, b) == cancel_count(b, a),
{
    let (ap, an, bp, bn) = (a.pos, a.neg, b.pos, b.neg);
    assert((ap & bp) | (an & bn) == (bp & ap) | (bn & an)) by (bit_vector);
    assert((ap & bn) | (an & bp) == (bp & an) | (bn & ap)) by (bit_vector);
}

/// Agreement holds the positions where both values carry the same sign,
/// cancellation those where they carry opposite signs.
pub proof fn law_agreement_positions(a: SignedZeckendorf, b: SignedZeckendorf)
    ensures
        bits32(agreement_bits(a, b)) == bits32(a.pos).intersect(bits32(b.pos)).union(
            bits32(a.neg).intersect(bits32(b.neg)),
        ),
        bits32(cancellation_bits(a, b)) == bits32(a.pos).intersect(bits32(b.neg)).union(
            bits32(a.neg).intersect(bits32(b.pos)),
        ),
{
    lemma_ops32(a.pos, b.pos);
    lemma_ops32(a.neg, b.neg);
    lemma_ops32(a.pos, b.neg);
    lemma_ops32(a.neg, b.pos);
    lemma_ops32(a.pos & b.pos, a.neg & b.neg);
    lemma_ops32(a.pos & b.neg, a.neg & b.pos);
}

/// An encoded value agrees with itself at every active position and never
/// cancels itself.
pub proof fn law_signed_self_resonance(z: SignedZeckendorf, q: int)
    requires
        signed_encodes(z, q),
    ensures
        agreement_bits(z, z) == z.pos | z.neg,
        cancellation_bits(z, z) == 0,
        agree_count(z, z) == ones32(z.pos | z.neg, 32),
        cancel_count(z, z) == 0,
{
    law_signs_disjoint(z, q);
    let (p, n) = (z.pos, z.neg);
    assert((p & p) | (n & n) == p | n) by (bit_vector);
    assert(p & n == 0u32 ==> (p & n) | (n & p) == 0u32) by (bit_vector);
    lemma_ones32_zero(32);
}

/// A value and its negation cancel at every active position and agree
/// nowhere: the net resonance is minus the number of active trits.
pub proof fn law_negation_cancels(z: SignedZeckendorf, w: SignedZeckendorf, q: int)
    requires
        signed_encodes(z, q),
        signed_encodes(w, -q),
    ensures
        agreement_bits(z, w) == 0,
        cancellation_bits(z, w) == z.pos | z.neg,
        agree_count(z, w) == 0,
        cancel_count(z, w) == ones32(z.pos | z.neg, 32),
{
    lemma_bits_determine32(z.pos, w.neg);
    lemma_bits_determine32(z.neg, w.pos);
    let (zp, zn, wp, wn) = (z.pos, z.neg, w.pos, w.neg);
    if q > 0 {
        assert(bits32(zp) == bits32(wn));
        assert(zn == 0 && wp == 0 && zp == wn);
        assert(zn == 0u32 && wp == 0u32 && zp == wn ==> (zp & wp) | (zn & wn) == 0u32) by (bit_vector);
        assert(zn == 0u32 && wp == 0u32 && zp == wn ==> (zp & wn) | (zn & wp) == zp | zn) by (bit_vector);
    } else if q < 0 {
        assert(bits32(zn) == bits32(wp));
        assert(zp == 0 && wn == 0 && zn == wp);
        assert(zp == 0u32 && wn == 0u32 && zn == wp ==> (zp & wp) | (zn & wn) == 0u32) by (bit_vector);
        assert(zp == 0u32 && wn == 0u32 && zn == wp ==> (zp & wn) | (zn & wp) == zp | zn) by (bit_vector);
    } else {
        assert(zp == 0u32 && zn == 0u32 && wp == 0u32 && wn == 0u32 ==> (zp & wp) | (zn & wn) == 0u32 && (zp & wn) | (zn & wp) == zp | zn) by (bit_vector);
    }
    lemma_ones32_zero(32);
}

/// Negating a value swaps the positive and negative planes of its encoding.
pub proof fn law_negation_swaps_planes(z: SignedZeckendorf, w: SignedZeckendorf, q: int)
    requires
        signed_encodes(z, q),
        signed_encodes(w, -q),
    ensures
        w.pos == z.neg,
        w.neg == z.pos,
        w.max_scale == z.max_scale,
{
    lemma_bits_determine32(z.pos, w.neg);
    lemma_bits_determine32(z.neg, w.pos);
    assert(magnitude(q) == magnitude(-q));
}

/// Two values of opposite signs whose magnitudes reach the sum of the whole
/// signed table (such as `i64::MAX` and `i64::MIN`) take every position, on
/// opposite planes.
pub proof fn law_saturated_opposites_swap_planes(z: SignedZeckendorf, w: SignedZeckendorf, q1: int, q2: int)
    requires
        signed_encodes(z, q1),
        signed_encodes(w, q2),
        (q1 > 0 && q2 < 0) || (q1 < 0 && q2 > 0),
        magnitude(q1) + 2 >= fib(25),
        magnitude(q2) + 2 >= fib(25),
    ensures
        w.pos == z.neg,
        w.neg == z.pos,
        w.max_scale == z.max_scale,
{
    lemma_greedy_full(magnitude(q1), SIGNED_FIB_LEN as nat);
    lemma_greedy_full(magnitude(q2), SIGNED_FIB_LEN as nat);
    assert(greedy_positions(magnitude(q1), SIGNED_FIB_LEN as nat) =~= greedy_positions(magnitude(q2), SIGNED_FIB_LEN as nat));
    lemma_bits_determine32(z.pos, w.neg);
    lemma_bits_determine32(z.neg, w.pos);
}

/// `y` holds the negation of `x` in its first `n` groups: the planes of every
/// dimension are swapped, and no dimension of `x` is positive and negative
/// at the same position.
pub open spec fn negated_groups(x: Seq<PentaGroup>, y: Seq<PentaGroup>, n: nat) -> bool {
    &&& n <= x.len()
    &&& n <= y.len()
    &&& forall|g: int, d: int|
        0 <= g < n && 0 <= d < 5 ==> {
            &&& #[trigger] y[g].dims@[d].pos == x[g].dims@[d].neg
            &&& y[g].dims@[d].neg == x[g].dims@[d].pos
            &&& x[g].dims@[d].pos & x[g].dims@[d].neg == 0
        }
}

/// The number of the first `m` dimensions of a group that are active
/// (positive or negative) at position `k`.
pub open spec fn group_active_at(g: PentaGroup, m: nat, k: nat) -> nat
    decreases m,
{
    if m == 0 {
        0
    } else {
        group_active_at(g, (m - 1) as nat, k) + if bit32(g.dims@[m - 1].pos, k) || bit32(g.dims@[m - 1].neg, k) {
            1nat
        } else {
            0nat
        }
    }
}

/// The number of dimensions of the first `n` groups active at position `k`.
pub open spec fn vec_active_at(x: Seq<PentaGroup>, n: nat, k: nat) -> nat
    decreases n,
{
    if n == 0 {
        0
    } else {
        vec_active_at(x, (n - 1) as nat, k) + group_active_at(x[n - 1], 5, k)
    }
}

proof fn lemma_negated_dim(a: SignedZeckendorf, b: SignedZeckendorf)
    requires
        b.pos == a.neg,
        b.neg == a.pos,
        a.pos & a.neg == 0,
    ensures
        agreement_bits(a, b) == 0,
        cancellation_bits(a, b) == a.pos | a.neg,
{
    let (p, n) = (a.pos, a.neg);
    assert(p & n == 0u32 ==> (p & n) | (n & p) == 0u32) by (bit_vector);
    assert((p & p) | (n & n) == p | n) by (bit_vector);
}

proof fn lemma_negated_group(x: PentaGroup, y: PentaGroup, m: nat, k: nat)
    requires
        m <= 5,
        forall|d: int|
            0 <= d < 5 ==> {
                &&& #[trigger] y.dims@[d].pos == x.dims@[d].neg
                &&& y.dims@[d].neg == x.dims@[d].pos
                &&& x.dims@[d].pos & x.dims@[d].neg == 0
            },
    ensures
        group_agree(x, y, m) == 0,
        2 * group_cancel(x, y, m) == group_cost(x, m),
        group_scale_agree(x, y, m, k) == 0,
        group_scale_cancel(x, y, m, k) == group_active_at(x, m, k),
    decreases m,
{
    if m > 0 {
        let d = (m - 1) as int;
        lemma_negated_group(x, y, (m - 1) as nat, k);
        assert(y.dims@[d].pos == x.dims@[d].neg);
        lemma_negated_dim(x.dims@[d], y.dims@[d]);
        lemma_ones32_zero(32);
        lemma_zero32();
        assert(!bits32(0u32).contains(k));
        lemma_ops32(x.dims@[d].pos, x.dims@[d].neg);
    }
}

/// A vector and its negation agree nowhere, at no position, and cancel at
/// every active trit: the cancellation is half the storage cost, and at each
/// position `k` it counts the dimensions of `x` active at `k`.
pub proof fn law_vector_negation(x: Seq<PentaGroup>, y: Seq<PentaGroup>, n: nat, k: nat)
    requires
        negated_groups(x, y, n),
    ensures
        vec_agree(x, y, n) == 0,
        2 * vec_cancel(x, y, n) == groups_cost(x, n),
        vec_scale_agree(x, y, n, k) == 0,
        vec_scale_cancel(x, y, n, k) == vec_active_at(x, n, k),
        x.len() == y.len() ==> common_groups(x, y) == x.len(),
    decreases n,
{
    if n > 0 {
        let g = (n - 1) as int;
        law_vector_negation(x, y, (n - 1) as nat, k);
        assert forall|d: int| 0 <= d < 5 implies {
            &&& #[trigger] y[g].dims@[d].pos == x[g].dims@[d].neg
            &&& y[g].dims@[d].neg == x[g].dims@[d].pos
            &&& x[g].dims@[d].pos & x[g].dims@[d].neg == 0
        } by {
            assert(y[g].dims@[d].pos == x[g].dims@[d].neg);
        }
        lemma_negated_group(x[g], y[g], 5, k);
    }
}

/// Encoding a list of quantized values and the list of their negations
/// (or saturated opposites) gives vectors whose planes are swapped.
pub proof fn law_negated_values_negate_groups(x: Seq<PentaGroup>, y: Seq<PentaGroup>, a: Seq<i64>, b: Seq<i64>)
    requires
        a.len() == b.len(),
        forall|i: int|
            0 <= i < a.len() ==> (#[trigger] b[i] as int == -(a[i] as int)) || (
            ((a[i] > 0 && b[i] < 0) || (a[i] < 0 && b[i] > 0))
                && magnitude(a[i] as int) + 2 >= fib(25) && magnitude(b[i] as int) + 2 >= fib(25)),
        x.len() == (a.len() + 4) / 5,
        y.len() == (b.len() + 4) / 5,
        forall|g: int, d: int|
            0 <= g < x.len() && 0 <= d < 5 ==> signed_encodes(#[trigger] x[g].dims@[d], padded_value(a, 5 * g + d)),
        forall|g: int, d: int|
            0 <= g < y.len() && 0 <= d < 5 ==> signed_encodes(#[trigger] y[g].dims@[d], padded_value(b, 5 * g + d)),
    ensures
        negated_groups(x, y, x.len()),
{
    assert forall|g: int, d: int| 0 <= g < x.len() && 0 <= d < 5 implies {
        &&& #[trigger] y[g].dims@[d].pos == x[g].dims@[d].neg
        &&& y[g].dims@[d].neg == x[g].dims@[d].pos
        &&& x[g].dims@[d].pos & x[g].dims@[d].neg == 0
    } by {
        let t = 5 * g + d;
        let z = x[g].dims@[d];
        let w = y[g].dims@[d];
        assert(signed_encodes(z, padded_value(a, t)));
        assert(signed_encodes(w, padded_value(b, t)));
        law_signs_disjoint(z, padded_value(a, t));
        if 0 <= t < a.len() && b[t] as int != -(a[t] as int) {
            law_saturated_opposites_swap_planes(z, w, a[t] as int, b[t] as int);
        } else {
            law_negation_swaps_planes(z, w, padded_value(a, t));
        }
    }
}


// ---------------------------------------------------------------------------
// Per-position counts and totals
// ---------------------------------------------------------------------------

/// No dimension of the first `n` groups reaches past the signed table.
pub open spec fn dims_within_table(x: Seq<PentaGroup>, n: nat) -> bool {
    forall|g: int, d: int|
        0 <= g < n && 0 <= d < 5 ==> below(bits32(#[trigger] x[g].dims@[d].pos), SIGNED_FIB_LEN as nat)
            && below(bits32(x[g].dims@[d].neg), SIGNED_FIB_LEN as nat)
}

/// The per-position agreement counts at positions `0..m`, added up.
pub open spec fn scale_sum_agree(a: Seq<PentaGroup>, b: Seq<PentaGroup>, n: nat, m: nat) -> nat
    decreases m,
{
    if m == 0 {
        0
    } else {
        scale_sum_agree(a, b, n, (m - 1) as nat) + vec_scale_agree(a, b, n, (m - 1) as nat)
    }
}

/// The per-position cancellation counts at positions `0..m`, added up.
pub open spec fn scale_sum_cancel(a: Seq<PentaGroup>, b: Seq<PentaGroup>, n: nat, m: nat) -> nat
    decreases m,
{
    if m == 0 {
        0
    } else {
        scale_sum_cancel(a, b, n, (m - 1) as nat) + vec_scale_cancel(a, b, n, (m - 1) as nat)
    }
}

spec fn group_ones(x: PentaGroup, y: PentaGroup, dn: nat, m: nat, cancel: bool) -> nat
    decreases dn,
{
    if dn == 0 {
        0
    } else {
        group_ones(x, y, (dn - 1) as nat, m, cancel) + ones32(
            if cancel {
                cancellation_bits(x.dims@[dn - 1], y.dims@[dn - 1])
            } else {
                agreement_bits(x.dims@[dn - 1], y.dims@[dn - 1])
            },
            m,
        )
    }
}

spec fn vec_ones(a: Seq<PentaGroup>, b: Seq<PentaGroup>, n: nat, m: nat, cancel: bool) -> nat
    decreases n,
{
    if n == 0 {
        0
    } else {
        vec_ones(a, b, (n - 1) as nat, m, cancel) + group_ones(a[n - 1], b[n - 1], 5, m, cancel)
    }
}

proof fn lemma_group_ones_step(x: PentaGroup, y: PentaGroup, dn: nat, m: nat)
    ensures
        group_ones(x, y, dn, m + 1, false) == group_ones(x, y, dn, m, false) + group_scale_agree(x, y, dn, m),
        group_ones(x, y, dn, m + 1, true) == group_ones(x, y, dn, m, true) + group_scale_cancel(x, y, dn, m),
        group_ones(x, y, dn, 0, false) == 0,
        group_ones(x, y, dn, 0, true) == 0,
        group_ones(x, y, dn, 32, false) == group_agree(x, y, dn),
        group_ones(x, y, dn, 32, true) == group_cancel(x, y, dn),
    decreases dn,
{
    if dn > 0 {
        lemma_group_ones_step(x, y, (dn - 1) as nat, m);
    }
}

proof fn lemma_vec_ones_step(a: Seq<PentaGroup>, b: Seq<PentaGroup>, n: nat, m: nat)
    ensures
        vec_ones(a, b, n, m + 1, false) == vec_ones(a, b, n, m, false) + vec_scale_agree(a, b, n, m),
        vec_ones(a, b, n, m + 1, true) == vec_ones(a, b, n, m, true) + vec_scale_cancel(a, b, n, m),
        vec_ones(a, b, n, 0, false) == 0,
        vec_ones(a, b, n, 0, true) == 0,
        vec_ones(a, b, n, 32, false) == vec_agree(a, b, n),
        vec_ones(a, b, n, 32, true) == vec_cancel(a, b, n),
    decreases n,
{
    if n > 0 {
        lemma_vec_ones_step(a, b, (n - 1) as nat, m);
        lemma_group_ones_step(a[n - 1], b[n - 1], 5, m);
    }
}

proof fn lemma_scale_sums(a: Seq<PentaGroup>, b: Seq<PentaGroup>, n: nat, m: nat)
    ensures
        scale_sum_agree(a, b, n, m) == vec_ones(a, b, n, m, false),
        scale_sum_cancel(a, b, n, m) == vec_ones(a, b, n, m, true),
    decreases m,
{
    lemma_vec_ones_step(a, b, n, 0);
    if m > 0 {
        lemma_scale_sums(a, b, n, (m - 1) as nat);
        lemma_vec_ones_step(a, b, n, (m - 1) as nat);
    }
}

proof fn lemma_ones32_high_clear(z: u32, m: nat)
    requires
        SIGNED_FIB_LEN <= m <= 32,
        forall|j: nat| SIGNED_FIB_LEN <= j ==> !#[trigger] bit32(z, j),
    ensures
        ones32(z, m) == ones32(z, SIGNED_FIB_LEN as nat),
    decreases m,
{
    if m > SIGNED_FIB_LEN {
        lemma_ones32_high_clear(z, (m - 1) as nat);
    }
}

proof fn lemma_dim_within(p: SignedZeckendorf, q: SignedZeckendorf)
    requires
        below(bits32(p.pos), SIGNED_FIB_LEN as nat),
        below(bits32(p.neg), SIGNED_FIB_LEN as nat),
    ensures
        ones32(agreement_bits(p, q), 32) == ones32(agreement_bits(p, q), SIGNED_FIB_LEN as nat),
        ones32(cancellation_bits(p, q), 32) == ones32(cancellation_bits(p, q), SIGNED_FIB_LEN as nat),
{
    lemma_ops32(p.pos, q.pos);
    lemma_ops32(p.neg, q.neg);
    lemma_ops32(p.pos, q.neg);
    lemma_ops32(p.neg, q.pos);
    lemma_ops32(p.pos & q.pos, p.neg & q.neg);
    lemma_ops32(p.pos & q.neg, p.neg & q.pos);
    assert forall|j: nat| SIGNED_FIB_LEN <= j implies !#[trigger] bit32(agreement_bits(p, q), j) by {
        if bit32(p.pos, j) {
            assert(bits32(p.pos).contains(j));
        }
        if bit32(p.neg, j) {
            assert(bits32(p.neg).contains(j));
        }
    }
    assert forall|j: nat| SIGNED_FIB_LEN <= j implies !#[trigger] bit32(cancellation_bits(p, q), j) by {
        if bit32(p.pos, j) {
            assert(bits32(p.pos).contains(j));
        }
        if bit32(p.neg, j) {
            assert(bits32(p.neg).contains(j));
        }
    }
    lemma_ones32_high_clear(agreement_bits(p, q), 32);
    lemma_ones32_high_clear(cancellation_bits(p, q), 32);
}

proof fn lemma_group_within(x: PentaGroup, y: PentaGroup, dn: nat)
    requires
        dn <= 5,
        forall|d: int|
            0 <= d < 5 ==> below(bits32(#[trigger] x.dims@[d].pos), SIGNED_FIB_LEN as nat)
                && below(bits32(x.dims@[d].neg), SIGNED_FIB_LEN as nat),
    ensures
        group_ones(x, y, dn, 32, false) == group_ones(x, y, dn, SIGNED_FIB_LEN as nat, false),
        group_ones(x, y, dn, 32, true) == group_ones(x, y, dn, SIGNED_FIB_LEN as nat, true),
    decreases dn,
{
    if dn > 0 {
        let d = (dn - 1) as int;
        lemma_group_within(x, y, (dn - 1) as nat);
        assert(below(bits32(x.dims@[d].pos), SIGNED_FIB_LEN as nat));
        lemma_dim_within(x.dims@[d], y.dims@[d]);
    }
}

proof fn lemma_vec_within(a: Seq<PentaGroup>, b: Seq<PentaGroup>, n: nat)
    requires
        n <= a.len(),
        dims_within_table(a, n),
    ensures
        vec_ones(a, b, n, 32, false) == vec_ones(a, b, n, SIGNED_FIB_LEN as nat, false),
        vec_ones(a, b, n, 32, true) == vec_ones(a, b, n, SIGNED_FIB_LEN as nat, true),
    decreases n,
{
    if n > 0 {
        let g = (n - 1) as int;
        lemma_vec_within(a, b, (n - 1) as nat);
        assert forall|d: int| 0 <= d < 5 implies below(bits32(#[trigger] a[g].dims@[d].pos), SIGNED_FIB_LEN as nat)
            && below(bits32(a[g].dims@[d].neg), SIGNED_FIB_LEN as nat) by {
            assert(below(bits32(a[g].dims@[d].pos), SIGNED_FIB_LEN as nat));
        }
        lemma_group_within(a[g], b[g], 5);
    }
}

/// The per-position counts of agreement and of cancellation add up to the
/// totals: every agreeing (cancelling) trit is counted at exactly one position.
pub proof fn law_scale_counts_sum_to_totals(a: Seq<PentaGroup>, b: Seq<PentaGroup>, n: nat)
    requires
        n <= a.len(),
        dims_within_table(a, n),
    ensures
        scale_sum_agree(a, b, n, SIGNED_FIB_LEN as nat) == vec_agree(a, b, n),
        scale_sum_cancel(a, b, n, SIGNED_FIB_LEN as nat) == vec_cancel(a, b, n),
{
    lemma_scale_sums(a, b, n, SIGNED_FIB_LEN as nat);
    lemma_vec_within(a, b, n);
    lemma_vec_ones_step(a, b, n, 0);
}

/// Every encoding stays inside the signed table.
pub proof fn law_encoding_within_table(z: SignedZeckendorf, q: int)
    requires
        signed_encodes(z, q),
    ensures
        below(bits32(z.pos), SIGNED_FIB_LEN as nat),
        below(bits32(z.neg), SIGNED_FIB_LEN as nat),
{
    lemma_zero32();
    lemma_greedy_below(magnitude(q), SIGNED_FIB_LEN as nat);
}

/// The groups that `FibVec10K::from_quantized` builds stay inside the table.
pub proof fn law_encoded_groups_within_table(x: Seq<PentaGroup>, a: Seq<i64>)
    requires
        forall|g: int, d: int|
            0 <= g < x.len() && 0 <= d < 5 ==> signed_encodes(#[trigger] x[g].dims@[d], padded_value(a, 5 * g + d)),
    ensures
        dims_within_table(x, x.len()),
{
    assert forall|g: int, d: int| 0 <= g < x.len() && 0 <= d < 5 implies below(bits32(#[trigger] x[g].dims@[d].pos), SIGNED_FIB_LEN as nat)
        && below(bits32(x[g].dims@[d].neg), SIGNED_FIB_LEN as nat) by {
        law_encoding_within_table(x[g].dims@[d], padded_value(a, 5 * g + d));
    }
}

proof fn lemma_self_dim(z: SignedZeckendorf)
    requires
        z.pos & z.neg == 0,
    ensures
        agreement_bits(z, z) == z.pos | z.neg,
        cancellation_bits(z, z) == 0,
{
    let (p, n) = (z.pos, z.neg);
    assert((p & p) | (n & n) == p | n) by (bit_vector);
    assert(p & n == 0u32 ==> (p & n) | (n & p) == 0u32) by (bit_vector);
}

proof fn lemma_self_group(g: PentaGroup, m: nat)
    requires
        m <= 5,
        forall|d: int| 0 <= d < 5 ==> #[trigger] g.dims@[d].pos & g.dims@[d].neg == 0,
    ensures
        2 * group_agree(g, g, m) == group_cost(g, m),
        group_cancel(g, g, m) == 0,
    decreases m,
{
    if m > 0 {
        let d = (m - 1) as int;
        lemma_self_group(g, (m - 1) as nat);
        assert(g.dims@[d].pos & g.dims@[d].neg == 0);
        lemma_self_dim(g.dims@[d]);
        lemma_ones32_zero(32);
    }
}

/// A group resonated with itself agrees at every active trit and cancels
/// nowhere: its agreement is half its storage cost.
pub proof fn law_group_self_resonance(g: PentaGroup)
    requires
        forall|d: int| 0 <= d < 5 ==> #[trigger] g.dims@[d].pos & g.dims@[d].neg == 0,
    ensures
        2 * group_agree(g, g, 5) == group_cost(g, 5),
        group_cancel(g, g, 5) == 0,
{
    lemma_self_group(g, 5);
}

/// A vector resonated with itself agrees at every active trit of every
/// group and cancels nowhere.
pub proof fn law_vector_self_resonance(x: Seq<PentaGroup>, n: nat)
    requires
        n <= x.len(),
        forall|g: int, d: int| 0 <= g < n && 0 <= d < 5 ==> #[trigger] x[g].dims@[d].pos & x[g].dims@[d].neg == 0,
    ensures
        2 * vec_agree(x, x, n) == groups_cost(x, n),
        vec_cancel(x, x, n) == 0,
    decreases n,
{
    if n > 0 {
        let g = (n - 1) as int;
        law_vector_self_resonance(x, (n - 1) as nat);
        assert forall|d: int| 0 <= d < 5 implies #[trigger] x[g].dims@[d].pos & x[g].dims@[d].neg == 0 by {
            assert(x[g].dims@[d].pos & x[g].dims@[d].neg == 0);
        }
        lemma_self_group(x[g], 5);
    }
}

/// How the fingerprint packs the trits: trit `k` of dimension `d` adds
/// `trit + 1` at bit `12 d + k`, so a zero trit sets that bit, a +1 trit sets
/// the bit above it, and a -1 trit sets nothing; a bit is set exactly when
/// one of those two trits asks for it, and nothing above bit 60 is set.
pub proof fn law_fingerprint_packing(g: PentaGroup, h: u64)
    requires
        forall|m: int| 0 <= m < 64 ==> (#[trigger] bit64(h, m) <==> fingerprint_bit(g, m)),
    ensures
        forall|d: int, k: int|
            0 <= d < 5 && 0 <= k < 12 && #[trigger] trit_at(g.dims@[d], k as nat) == 1 ==> bit64(h, 12 * d + k + 1),
        forall|d: int, k: int|
            0 <= d < 5 && 0 <= k < 12 && #[trigger] trit_at(g.dims@[d], k as nat) == 0 ==> bit64(h, 12 * d + k),
        bit64(h, 0) <==> trit_at(g.dims@[0], 0) == 0,
        forall|d: int, k: int|
            0 <= d < 5 && 1 <= k < 12 ==> (#[trigger] bit64(h, 12 * d + k) <==> (trit_at(g.dims@[d], k as nat) == 0
                || trit_at(g.dims@[d], (k - 1) as nat) == 1)),
        forall|d: int|
            1 <= d < 5 ==> (#[trigger] bit64(h, 12 * d) <==> (trit_at(g.dims@[d], 0) == 0 || trit_at(
                g.dims@[d - 1],
                11,
            ) == 1)),
        bit64(h, 60) <==> trit_at(g.dims@[4], 11) == 1,
        forall|m: int| 61 <= m < 64 ==> !#[trigger] bit64(h, m),
{
    assert forall|d: int, k: int|
        0 <= d < 5 && 0 <= k < 12 && #[trigger] trit_at(g.dims@[d], k as nat) == 1 implies bit64(h, 12 * d + k + 1) by {
        lemma_div12(d, k);
        assert(bit64(h, 12 * d + k + 1) <==> fingerprint_bit(g, 12 * d + k + 1));
    }
    assert forall|d: int, k: int|
        0 <= d < 5 && 0 <= k < 12 && #[trigger] trit_at(g.dims@[d], k as nat) == 0 implies bit64(h, 12 * d + k) by {
        lemma_div12(d, k);
        assert(bit64(h, 12 * d + k) <==> fingerprint_bit(g, 12 * d + k));
    }
    assert forall|d: int, k: int|
        0 <= d < 5 && 1 <= k < 12 implies (#[trigger] bit64(h, 12 * d + k) <==> (trit_at(g.dims@[d], k as nat) == 0
            || trit_at(g.dims@[d], (k - 1) as nat) == 1)) by {
        lemma_div12(d, k);
        lemma_div12(d, k - 1);
        assert(bit64(h, 12 * d + k) <==> fingerprint_bit(g, 12 * d + k));
    }
    assert forall|d: int| 1 <= d < 5 implies (#[trigger] bit64(h, 12 * d) <==> (trit_at(g.dims@[d], 0) == 0
        || trit_at(g.dims@[d - 1], 11) == 1)) by {
        lemma_div12(d, 0);
        lemma_div12(d - 1, 11);
        assert(bit64(h, 12 * d) <==> fingerprint_bit(g, 12 * d));
    }
    lemma_div12(0, 0);
    assert(bit64(h, 0) <==> fingerprint_bit(g, 0));
    lemma_div12(4, 11);
    assert(bit64(h, 60) <==> fingerprint_bit(g, 60));
    assert forall|m: int| 61 <= m < 64 implies !#[trigger] bit64(h, m) by {
        assert(bit64(h, m) <==> fingerprint_bit(g, m));
    }
}

} // verus!
