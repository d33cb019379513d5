use vstd::prelude::*;
use crate::bits::{lemma_ops128, lemma_no_bits_zero128, bits128, bit128, ones128, is_top_bit128, lemma_zero128, lemma_set_bit128, lemma_test_bit128, popcount128, top_bit128};
use crate::fib::{fib, fib_table, lemma_fib_values};
use crate::representation::{fib_sum, greedy_positions, top_index, no_adjacent, below, lemma_greedy_zero, lemma_top_index_zero, lemma_greedy_exact, lemma_greedy_no_adjacent, lemma_greedy_below, lemma_zeckendorf_unique, lemma_top_index, lemma_fib_sum_window, lemma_no_adjacent_bound, lemma_fib_sum_monotone};

verus! {

/// The number of basis positions of a [`ZeckendorfBits`] value: every
/// Fibonacci number that fits in a `u64`.
pub const FIB_LEN: usize = 92;

/// A value written as a sum of Fibonacci numbers: bit `k` of `bits` stands
/// for `fib(k)`.
#[derive(Clone, Debug)]
pub struct ZeckendorfBits {
    /// Bit `k` set means that `fib(k)` is part of the value.
    pub bits: u128,
    /// The highest basis position that the value reaches.
    pub max_scale: u8,
}

/// `z` is the greedy encoding of `v` over the basis positions `0..FIB_LEN`.
pub open spec fn zeck_encodes(z: ZeckendorfBits, v: nat) -> bool {
    &&& bits128(z.bits) == greedy_positions(v, FIB_LEN as nat)
    &&& z.max_scale == top_index(v, FIB_LEN as nat)
}

/// The value that a bit pattern stands for.
pub open spec fn zeck_value(bits: u128) -> nat {
    fib_sum(bits128(bits), FIB_LEN as nat)
}

/// The shared and divergent bits of two encoded values.
#[derive(Clone, Debug)]
pub struct Resonance {
    pub shared_bits: u128,
    pub divergent_bits: u128,
    pub shared_count: u32,
    pub max_shared_scale: u8,
    pub max_divergent_scale: u8,
}

impl ZeckendorfBits {
    /// Encodes a value greedily against the Fibonacci table: walking down
    /// the positions, every basis element that still fits is taken.
    pub fn encode(value: u64) -> (z: Self)
        ensures
            zeck_encodes(z, value as nat),
            zeck_value(z.bits) == value,
            z.bits & (z.bits >> 1u128) == 0,
            is_top_bit128(z.bits, z.max_scale as nat),
    {
        let z = Self::encode_greedy(value);
        proof {
            law_roundtrip(z, value);
            law_non_consecutive(z, value);
            law_max_scale_is_top_bit(z, value as nat);
        }
        z
    }

    fn encode_greedy(value: u64) -> (z: Self)
        ensures
            zeck_encodes(z, value as nat),
    {
        if value == 0 {
            proof {
                lemma_zero128();
                lemma_greedy_zero(FIB_LEN as nat);
                lemma_top_index_zero(FIB_LEN as nat);
            }
            return ZeckendorfBits { bits: 0, max_scale: 0 };
        }
        let table = fib_table(FIB_LEN);
        let ghost v = value as nat;
        let mut rest: u64 = value;
        let mut bits: u128 = 0;
        let mut max_scale: u8 = 0;
        let mut first = true;
        let mut i: usize = FIB_LEN;
        proof {
            lemma_zero128();
            assert(greedy_positions(v, FIB_LEN as nat) =~= greedy_positions(rest as nat, i as nat).union(bits128(bits)));
        }
        while i > 0 && rest > 0
            invariant
                i <= FIB_LEN,
                v >= 1,
                rest <= v,
                table@.len() == FIB_LEN,
                forall|j: int| 0 <= j < FIB_LEN ==> table@[j] == fib(j as nat),
                greedy_positions(v, FIB_LEN as nat) == greedy_positions(rest as nat, i as nat).union(bits128(bits)),
                forall|j: nat| #[trigger] bits128(bits).contains(j) ==> i <= j < FIB_LEN,
                first ==> rest == v && bits == 0 && max_scale == 0
                    && top_index(v, FIB_LEN as nat) == top_index(v, i as nat),
                !first ==> max_scale == top_index(v, FIB_LEN as nat),
            decreases i,
        {
            i = i - 1;
            let ghost k = i as nat;
            let ghost old_bits = bits;
            let ghost old_rest = rest as nat;
            if table[i] <= rest {
                proof {
                    lemma_set_bit128(bits, i as u128);
                }
                bits = bits | (1u128 << (i as u128));
                rest = rest - table[i];
                if first {
                    max_scale = i as u8;
                    first = false;
                }
                proof {
                    assert(greedy_positions(old_rest, k + 1) == greedy_positions(rest as nat, k).insert(k));
                    assert(greedy_positions(v, FIB_LEN as nat) =~= greedy_positions(rest as nat, k).union(bits128(bits)));
                }
            } else {
                proof {
                    assert(greedy_positions(old_rest, k + 1) == greedy_positions(rest as nat, k));
                }
            }
        }
        proof {
            if rest == 0 {
                lemma_greedy_zero(i as nat);
            }
            assert(greedy_positions(rest as nat, i as nat) =~= Set::<nat>::empty());
            assert(greedy_positions(v, FIB_LEN as nat) =~= bits128(bits));
        }
        ZeckendorfBits { bits, max_scale }
    }

    /// Decodes back to the value: the sum of the basis elements whose bits are set.
    pub fn decode(&self) -> (v: u64)
        requires
            zeck_value(self.bits) <= u64::MAX,
        ensures
            v == zeck_value(self.bits),
    {
        let table = fib_table(FIB_LEN);
        proof {
            lemma_fib_values();
        }
        let mut value: u64 = 0;
        let mut i: usize = 0;
        while i < FIB_LEN
            invariant
                i <= FIB_LEN,
                table@.len() == FIB_LEN,
                forall|j: int| 0 <= j < FIB_LEN ==> table@[j] == fib(j as nat),
                value == fib_sum(bits128(self.bits), i as nat),
                zeck_value(self.bits) <= u64::MAX,
            decreases FIB_LEN - i,
        {
            proof {
                lemma_test_bit128(self.bits, i as u128);
                lemma_fib_sum_monotone(bits128(self.bits), (i + 1) as nat, FIB_LEN as nat);
            }
            if self.bits & (1u128 << (i as u128)) != 0 {
                value = value + table[i];
            }
            i = i + 1;
        }
        value
    }

    /// The number of set bits.
    pub fn popcount(&self) -> (r: u32)
        ensures
            r == ones128(self.bits, 128),
    {
        popcount128(self.bits)
    }

    /// The bits that two values share (each one a "wormhole") and the bits
    /// in which they differ.
    pub fn resonance(&self, other: &Self) -> (r: Resonance)
        ensures
            r.shared_bits == self.bits & other.bits,
            r.divergent_bits == self.bits ^ other.bits,
            r.shared_count == ones128(self.bits & other.bits, 128),
            is_top_bit128(self.bits & other.bits, r.max_shared_scale as nat),
            is_top_bit128(self.bits ^ other.bits, r.max_divergent_scale as nat),
    {
        let shared = self.bits & other.bits;
        let divergent = self.bits ^ other.bits;
        Resonance {
            shared_bits: shared,
            divergent_bits: divergent,
            shared_count: popcount128(shared),
            max_shared_scale: top_bit128(shared),
            max_divergent_scale: top_bit128(divergent),
        }
    }
}


/// Decoding gives back the encoded value, for every `u64`.
pub proof fn law_roundtrip(z: ZeckendorfBits, v: u64)
    requires
        zeck_encodes(z, v as nat),
    ensures
        zeck_value(z.bits) == v,
{
    lemma_fib_values();
    lemma_greedy_exact(v as nat, FIB_LEN as nat);
}

/// The encoding of a `u64` never sets two neighbouring bits:
/// `bits & (bits >> 1) == 0`.
pub proof fn law_non_consecutive(z: ZeckendorfBits, v: u64)
    requires
        zeck_encodes(z, v as nat),
    ensures
        no_adjacent(bits128(z.bits)),
        z.bits & (z.bits >> 1u128) == 0,
{
    lemma_fib_values();
    lemma_greedy_no_adjacent(v as nat, FIB_LEN as nat);
    lemma_no_adjacent_word128(z.bits);
}

/// Every encoding stays below the table: no bit at or above `FIB_LEN` is set.
pub proof fn law_encoding_in_table(z: ZeckendorfBits, v: nat)
    requires
        zeck_encodes(z, v),
    ensures
        below(bits128(z.bits), FIB_LEN as nat),
{
    lemma_greedy_below(v, FIB_LEN as nat);
}

/// Zeckendorf uniqueness: a bit pattern inside the table without two
/// neighbouring bits is the encoding of the value it stands for.
pub proof fn law_unique(bits: u128)
    requires
        no_adjacent(bits128(bits)),
        below(bits128(bits), FIB_LEN as nat),
    ensures
        greedy_positions(zeck_value(bits), FIB_LEN as nat) == bits128(bits),
{
    lemma_zeckendorf_unique(bits128(bits), FIB_LEN as nat);
}

/// `max_scale` is the highest set bit of the encoding.
pub proof fn law_max_scale_is_top_bit(z: ZeckendorfBits, v: nat)
    requires
        zeck_encodes(z, v),
    ensures
        is_top_bit128(z.bits, z.max_scale as nat),
{
    if v == 0 {
        lemma_greedy_zero(FIB_LEN as nat);
        lemma_top_index_zero(FIB_LEN as nat);
        assert forall|j: nat| j < 128 implies !bit128(z.bits, j) by {
            assert(!bits128(z.bits).contains(j));
        }
        lemma_no_bits_zero128(z.bits);
    } else {
        lemma_top_index(v, FIB_LEN as nat);
        lemma_zero128();
        assert(bits128(z.bits).contains(z.max_scale as nat));
        assert forall|j: nat| z.max_scale < j implies !#[trigger] bit128(z.bits, j) by {
            if bit128(z.bits, j) {
                assert(bits128(z.bits).contains(j));
            }
        }
    }
}

/// Resonance does not depend on the order of its arguments.
pub proof fn law_resonance_symmetric(a: ZeckendorfBits, b: ZeckendorfBits)
    ensures
        a.bits & b.bits == b.bits & a.bits,
        a.bits ^ b.bits == b.bits ^ a.bits,
{
    let x = a.bits;
    let y = b.bits;
    assert(x & y == y & x) by (bit_vector);
    assert(x ^ y == y ^ x) by (bit_vector);
}

/// A value resonates with itself on all of its bits and diverges on none.
pub proof fn law_self_resonance(a: ZeckendorfBits)
    ensures
        a.bits & a.bits == a.bits,
        a.bits ^ a.bits == 0,
{
    let x = a.bits;
    assert(x & x == x) by (bit_vector);
    assert(x ^ x == 0) by (bit_vector);
}

/// Each shared bit is a position where both values hold a basis element,
/// each divergent bit a position where exactly one of them does.
pub proof fn law_resonance_positions(a: ZeckendorfBits, b: ZeckendorfBits)
    ensures
        bits128(a.bits & b.bits) == bits128(a.bits).intersect(bits128(b.bits)),
        bits128(a.bits ^ b.bits) == bits128(a.bits).difference(bits128(b.bits)).union(
            bits128(b.bits).difference(bits128(a.bits)),
        ),
{
    lemma_ops128(a.bits, b.bits);
    assert(bits128(a.bits ^ b.bits) =~= bits128(a.bits).difference(bits128(b.bits)).union(
        bits128(b.bits).difference(bits128(a.bits)),
    ));
}

/// The highest bit in which two Zeckendorf patterns differ decides which
/// value is larger: the one holding that bit.
pub proof fn law_top_divergence_orders(x: u128, y: u128, k: nat)
    requires
        no_adjacent(bits128(x)),
        no_adjacent(bits128(y)),
        below(bits128(x), FIB_LEN as nat),
        below(bits128(y), FIB_LEN as nat),
        x != y,
        is_top_bit128(x ^ y, k),
        bit128(x, k),
    ensures
        zeck_value(x) > zeck_value(y),
{
    let xs = bits128(x);
    let ys = bits128(y);
    lemma_ops128(x, y);
    assert(x ^ y != 0) by {
        let a = x;
        let b = y;
        assert(a != b ==> a ^ b != 0u128) by (bit_vector);
    }
    assert(!bit128(y, k));
    assert(k < FIB_LEN) by {
        assert(xs.contains(k));
    }
    assert forall|j: nat| k + 1 <= j < FIB_LEN implies (xs.contains(j) <==> ys.contains(j)) by {
        assert(!bit128(x ^ y, j));
    }
    lemma_fib_sum_window(xs, ys, k + 1, FIB_LEN as nat);
    lemma_no_adjacent_bound(ys, k);
    assert(fib_sum(xs, k + 1) == fib_sum(xs, k) + fib(k));
    assert(fib_sum(ys, k + 1) == fib_sum(ys, k));
}

proof fn lemma_no_adjacent_word128(x: u128)
    requires
        no_adjacent(bits128(x)),
    ensures
        x & (x >> 1u128) == 0,
{
    assert forall|j: nat| j < 128 implies !bit128(x & (x >> 1u128), j) by {
        lemma_bv_adjacent128(x, j as u128);
        if bit128(x, j) {
            assert(bits128(x).contains(j));
            assert(!bits128(x).contains(j + 1));
        }
    }
    lemma_no_bits_zero128(x & (x >> 1u128));
}

proof fn lemma_bv_adjacent128(x: u128, j: u128)
    by (bit_vector)
    requires
        j < 128,
    ensures
        ((x & (x >> 1u128)) >> j) & 1u128 == 1u128 <==> ((x >> j) & 1u128 == 1u128 && j < 127
            && (x >> (j + 1)) & 1u128 == 1u128),
{
}

} // verus!
