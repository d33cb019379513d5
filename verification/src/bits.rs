use vstd::prelude::*;

verus! {

// ---------------------------------------------------------------------------
// 128-bit words
// ---------------------------------------------------------------------------

/// Bit `i` of a 128-bit word.
pub open spec fn bit128(x: u128, i: nat) -> bool {
    i < 128 && (x >> (i as u128)) & 1u128 == 1u128
}

/// The positions of the set bits of a 128-bit word.
pub open spec fn bits128(x: u128) -> Set<nat> {
    Set::new(|i: nat| bit128(x, i))
}

/// The number of set bits of `x` below position `n`.
pub open spec fn ones128(x: u128, n: nat) -> nat
    decreases n,
{
    if n == 0 {
        0
    } else {
        ones128(x, (n - 1) as nat) + if bit128(x, (n - 1) as nat) {
            1nat
        } else {
            0nat
        }
    }
}

/// The highest set bit of a nonzero word, 0 for the zero word.
pub open spec fn is_top_bit128(x: u128, r: nat) -> bool {
    &&& x == 0 ==> r == 0
    &&& x != 0 ==> bit128(x, r) && forall|j: nat| r < j ==> !#[trigger] bit128(x, j)
}

proof fn lemma_bv_or_single128(b: u128, k: u128, j: u128)
    by (bit_vector)
    requires
        k < 128,
        j < 128,
    ensures
        ((b | (1u128 << k)) >> j) & 1u128 == 1u128 <==> (j == k || (b >> j) & 1u128 == 1u128),
{
}

proof fn lemma_bv_test128(b: u128, k: u128)
    by (bit_vector)
    requires
        k < 128,
    ensures
        (b & (1u128 << k)) != 0u128 <==> (b >> k) & 1u128 == 1u128,
{
}

proof fn lemma_bv_ops128(a: u128, b: u128, j: u128)
    by (bit_vector)
    requires
        j < 128,
    ensures
        ((a & b) >> j) & 1u128 == 1u128 <==> ((a >> j) & 1u128 == 1u128 && (b >> j) & 1u128 == 1u128),
        ((a ^ b) >> j) & 1u128 == 1u128 <==> ((a >> j) & 1u128 == 1u128) != ((b >> j) & 1u128 == 1u128),
        ((a | b) >> j) & 1u128 == 1u128 <==> ((a >> j) & 1u128 == 1u128 || (b >> j) & 1u128 == 1u128),
{
}

proof fn lemma_bv_zero128(j: u128)
    by (bit_vector)
    ensures
        (0u128 >> j) & 1u128 != 1u128,
{
}

/// The word with one more bit set.
pub proof fn lemma_set_bit128(b: u128, k: u128)
    requires
        k < 128,
    ensures
        bits128(b | (1u128 << k)) == bits128(b).insert(k as nat),
{
    assert forall|j: nat| bits128(b | (1u128 << k)).contains(j) <==> bits128(b).insert(k as nat).contains(j) by {
        if j < 128 {
            lemma_bv_or_single128(b, k, j as u128);
        }
    }
    assert(bits128(b | (1u128 << k)) =~= bits128(b).insert(k as nat));
}

/// Testing a bit with a mask.
pub proof fn lemma_test_bit128(b: u128, k: u128)
    requires
        k < 128,
    ensures
        (b & (1u128 << k)) != 0u128 <==> bit128(b, k as nat),
{
    lemma_bv_test128(b, k);
}

/// Bits of `&`, `^` and `|`, position by position.
pub proof fn lemma_ops128(a: u128, b: u128)
    ensures
        forall|j: nat| #[trigger] bit128(a & b, j) <==> (bit128(a, j) && bit128(b, j)),
        forall|j: nat| #[trigger] bit128(a ^ b, j) <==> (bit128(a, j) != bit128(b, j)),
        forall|j: nat| #[trigger] bit128(a | b, j) <==> (bit128(a, j) || bit128(b, j)),
        bits128(a & b) == bits128(a).intersect(bits128(b)),
        bits128(a | b) == bits128(a).union(bits128(b)),
{
    assert forall|j: nat| j < 128 implies {
        &&& bit128(a & b, j) <==> (bit128(a, j) && bit128(b, j))
        &&& bit128(a ^ b, j) <==> (bit128(a, j) != bit128(b, j))
        &&& bit128(a | b, j) <==> (bit128(a, j) || bit128(b, j))
    } by {
        lemma_bv_ops128(a, b, j as u128);
    }
    assert(bits128(a & b) =~= bits128(a).intersect(bits128(b)));
    assert(bits128(a | b) =~= bits128(a).union(bits128(b)));
}

pub proof fn lemma_zero128()
    ensures
        bits128(0u128) == Set::<nat>::empty(),
{
    assert forall|j: nat| !bits128(0u128).contains(j) by {
        lemma_bv_zero128(j as u128);
    }
    assert(bits128(0u128) =~= Set::<nat>::empty());
}


pub proof fn lemma_ones128_bound(x: u128, n: nat)
    ensures
        ones128(x, n) <= n,
    decreases n,
{
    if n > 0 {
        lemma_ones128_bound(x, (n - 1) as nat);
    }
}

/// Counts the set bits of a 128-bit word.
pub fn popcount128(x: u128) -> (r: u32)
    ensures
        r == ones128(x, 128),
{
    let mut count: u32 = 0;
    let mut i: u32 = 0;
    while i < 128
        invariant
            i <= 128,
            count == ones128(x, i as nat),
        decreases 128 - i,
    {
        proof {
            lemma_test_bit128(x, i as u128);
            lemma_ones128_bound(x, i as nat);
        }
        if x & (1u128 << i) != 0 {
            count = count + 1;
        }
        i = i + 1;
    }
    count
}

/// The position of the highest set bit (0 for the zero word).
pub fn top_bit128(x: u128) -> (r: u8)
    ensures
        is_top_bit128(x, r as nat),
        r < 128,
{
    let mut top: u8 = 0;
    let mut found: bool = false;
    let mut i: u32 = 0;
    while i < 128
        invariant
            i <= 128,
            top < 128,
            found ==> bit128(x, top as nat) && top < i,
            !found ==> top == 0,
            forall|j: nat| j < i && bit128(x, j) ==> found && j <= top,
        decreases 128 - i,
    {
        proof {
            lemma_test_bit128(x, i as u128);
        }
        if x & (1u128 << i) != 0 {
            top = i as u8;
            found = true;
        }
        i = i + 1;
    }
    proof {
        if x != 0 && !found {
            lemma_no_bits_zero128(x);
        }
        if x == 0 {
            lemma_zero128();
            assert(!bits128(0u128).contains(top as nat));
            assert(!found);
        }
    }
    top
}


/// A word without set bits is zero.
pub proof fn lemma_no_bits_zero128(x: u128)
    requires
        forall|j: nat| j < 128 ==> !bit128(x, j),
    ensures
        x == 0,
{
    assert forall|j: u128| j < 128 implies (x >> j) & 1u128 != 1u128 by {
        assert(!bit128(x, j as nat));
    }
    lemma_word_zero128(x);
}



proof fn lemma_word_zero128(z: u128)
    requires
        forall|j: u128| j < 128 ==> (z >> j) & 1u128 != 1u128,
    ensures
        z == 0,
{
    assert((z >> 0u128) & 1u128 != 1u128);
    assert((z >> 1u128) & 1u128 != 1u128);
    assert((z >> 2u128) & 1u128 != 1u128);
    assert((z >> 3u128) & 1u128 != 1u128);
    assert((z >> 4u128) & 1u128 != 1u128);
    assert((z >> 5u128) & 1u128 != 1u128);
    assert((z >> 6u128) & 1u128 != 1u128);
    assert((z >> 7u128) & 1u128 != 1u128);
    assert((z >> 8u128) & 1u128 != 1u128);
    assert((z >> 9u128) & 1u128 != 1u128);
    assert((z >> 10u128) & 1u128 != 1u128);
    assert((z >> 11u128) & 1u128 != 1u128);
    assert((z >> 12u128) & 1u128 != 1u128);
    assert((z >> 13u128) & 1u128 != 1u128);
    assert((z >> 14u128) & 1u128 != 1u128);
    assert((z >> 15u128) & 1u128 != 1u128);
    assert((z >> 16u128) & 1u128 != 1u128);
    assert((z >> 17u128) & 1u128 != 1u128);
    assert((z >> 18u128) & 1u128 != 1u128);
    assert((z >> 19u128) & 1u128 != 1u128);
    assert((z >> 20u128) & 1u128 != 1u128);
    assert((z >> 21u128) & 1u128 != 1u128);
    assert((z >> 22u128) & 1u128 != 1u128);
    assert((z >> 23u128) & 1u128 != 1u128);
    assert((z >> 24u128) & 1u128 != 1u128);
    assert((z >> 25u128) & 1u128 != 1u128);
    assert((z >> 26u128) & 1u128 != 1u128);
    assert((z >> 27u128) & 1u128 != 1u128);
    assert((z >> 28u128) & 1u128 != 1u128);
    assert((z >> 29u128) & 1u128 != 1u128);
    assert((z >> 30u128) & 1u128 != 1u128);
    assert((z >> 31u128) & 1u128 != 1u128);
    assert((z >> 32u128) & 1u128 != 1u128);
    assert((z >> 33u128) & 1u128 != 1u128);
    assert((z >> 34u128) & 1u128 != 1u128);
    assert((z >> 35u128) & 1u128 != 1u128);
    assert((z >> 36u128) & 1u128 != 1u128);
    assert((z >> 37u128) & 1u128 != 1u128);
    assert((z >> 38u128) & 1u128 != 1u128);
    assert((z >> 39u128) & 1u128 != 1u128);
    assert((z >> 40u128) & 1u128 != 1u128);
    assert((z >> 41u128) & 1u128 != 1u128);
    assert((z >> 42u128) & 1u128 != 1u128);
    assert((z >> 43u128) & 1u128 != 1u128);
    assert((z >> 44u128) & 1u128 != 1u128);
    assert((z >> 45u128) & 1u128 != 1u128);
    assert((z >> 46u128) & 1u128 != 1u128);
    assert((z >> 47u128) & 1u128 != 1u128);
    assert((z >> 48u128) & 1u128 != 1u128);
    assert((z >> 49u128) & 1u128 != 1u128);
    assert((z >> 50u128) & 1u128 != 1u128);
    assert((z >> 51u128) & 1u128 != 1u128);
    assert((z >> 52u128) & 1u128 != 1u128);
    assert((z >> 53u128) & 1u128 != 1u128);
    assert((z >> 54u128) & 1u128 != 1u128);
    assert((z >> 55u128) & 1u128 != 1u128);
    assert((z >> 56u128) & 1u128 != 1u128);
    assert((z >> 57u128) & 1u128 != 1u128);
    assert((z >> 58u128) & 1u128 != 1u128);
    assert((z >> 59u128) & 1u128 != 1u128);
    assert((z >> 60u128) & 1u128 != 1u128);
    assert((z >> 61u128) & 1u128 != 1u128);
    assert((z >> 62u128) & 1u128 != 1u128);
    assert((z >> 63u128) & 1u128 != 1u128);
    assert((z >> 64u128) & 1u128 != 1u128);
    assert((z >> 65u128) & 1u128 != 1u128);
    assert((z >> 66u128) & 1u128 != 1u128);
    assert((z >> 67u128) & 1u128 != 1u128);
    assert((z >> 68u128) & 1u128 != 1u128);
    assert((z >> 69u128) & 1u128 != 1u128);
    assert((z >> 70u128) & 1u128 != 1u128);
    assert((z >> 71u128) & 1u128 != 1u128);
    assert((z >> 72u128) & 1u128 != 1u128);
    assert((z >> 73u128) & 1u128 != 1u128);
    assert((z >> 74u128) & 1u128 != 1u128);
    assert((z >> 75u128) & 1u128 != 1u128);
    assert((z >> 76u128) & 1u128 != 1u128);
    assert((z >> 77u128) & 1u128 != 1u128);
    assert((z >> 78u128) & 1u128 != 1u128);
    assert((z >> 79u128) & 1u128 != 1u128);
    assert((z >> 80u128) & 1u128 != 1u128);
    assert((z >> 81u128) & 1u128 != 1u128);
    assert((z >> 82u128) & 1u128 != 1u128);
    assert((z >> 83u128) & 1u128 != 1u128);
    assert((z >> 84u128) & 1u128 != 1u128);
    assert((z >> 85u128) & 1u128 != 1u128);
    assert((z >> 86u128) & 1u128 != 1u128);
    assert((z >> 87u128) & 1u128 != 1u128);
    assert((z >> 88u128) & 1u128 != 1u128);
    assert((z >> 89u128) & 1u128 != 1u128);
    assert((z >> 90u128) & 1u128 != 1u128);
    assert((z >> 91u128) & 1u128 != 1u128);
    assert((z >> 92u128) & 1u128 != 1u128);
    assert((z >> 93u128) & 1u128 != 1u128);
    assert((z >> 94u128) & 1u128 != 1u128);
    assert((z >> 95u128) & 1u128 != 1u128);
    assert((z >> 96u128) & 1u128 != 1u128);
    assert((z >> 97u128) & 1u128 != 1u128);
    assert((z >> 98u128) & 1u128 != 1u128);
    assert((z >> 99u128) & 1u128 != 1u128);
    assert((z >> 100u128) & 1u128 != 1u128);
    assert((z >> 101u128) & 1u128 != 1u128);
    assert((z >> 102u128) & 1u128 != 1u128);
    assert((z >> 103u128) & 1u128 != 1u128);
    assert((z >> 104u128) & 1u128 != 1u128);
    assert((z >> 105u128) & 1u128 != 1u128);
    assert((z >> 106u128) & 1u128 != 1u128);
    assert((z >> 107u128) & 1u128 != 1u128);
    assert((z >> 108u128) & 1u128 != 1u128);
    assert((z >> 109u128) & 1u128 != 1u128);
    assert((z >> 110u128) & 1u128 != 1u128);
    assert((z >> 111u128) & 1u128 != 1u128);
    assert((z >> 112u128) & 1u128 != 1u128);
    assert((z >> 113u128) & 1u128 != 1u128);
    assert((z >> 114u128) & 1u128 != 1u128);
    assert((z >> 115u128) & 1u128 != 1u128);
    assert((z >> 116u128) & 1u128 != 1u128);
    assert((z >> 117u128) & 1u128 != 1u128);
    assert((z >> 118u128) & 1u128 != 1u128);
    assert((z >> 119u128) & 1u128 != 1u128);
    assert((z >> 120u128) & 1u128 != 1u128);
    assert((z >> 121u128) & 1u128 != 1u128);
    assert((z >> 122u128) & 1u128 != 1u128);
    assert((z >> 123u128) & 1u128 != 1u128);
    assert((z >> 124u128) & 1u128 != 1u128);
    assert((z >> 125u128) & 1u128 != 1u128);
    assert((z >> 126u128) & 1u128 != 1u128);
    assert((z >> 127u128) & 1u128 != 1u128);
    assert(z == 0u128) by (bit_vector)
        requires
            (z >> 0u128) & 1u128 != 1u128,
            (z >> 1u128) & 1u128 != 1u128,
            (z >> 2u128) & 1u128 != 1u128,
            (z >> 3u128) & 1u128 != 1u128,
            (z >> 4u128) & 1u128 != 1u128,
            (z >> 5u128) & 1u128 != 1u128,
            (z >> 6u128) & 1u128 != 1u128,
            (z >> 7u128) & 1u128 != 1u128,
            (z >> 8u128) & 1u128 != 1u128,
            (z >> 9u128) & 1u128 != 1u128,
            (z >> 10u128) & 1u128 != 1u128,
            (z >> 11u128) & 1u128 != 1u128,
            (z >> 12u128) & 1u128 != 1u128,
            (z >> 13u128) & 1u128 != 1u128,
            (z >> 14u128) & 1u128 != 1u128,
            (z >> 15u128) & 1u128 != 1u128,
            (z >> 16u128) & 1u128 != 1u128,
            (z >> 17u128) & 1u128 != 1u128,
            (z >> 18u128) & 1u128 != 1u128,
            (z >> 19u128) & 1u128 != 1u128,
            (z >> 20u128) & 1u128 != 1u128,
            (z >> 21u128) & 1u128 != 1u128,
            (z >> 22u128) & 1u128 != 1u128,
            (z >> 23u128) & 1u128 != 1u128,
            (z >> 24u128) & 1u128 != 1u128,
            (z >> 25u128) & 1u128 != 1u128,
            (z >> 26u128) & 1u128 != 1u128,
            (z >> 27u128) & 1u128 != 1u128,
            (z >> 28u128) & 1u128 != 1u128,
            (z >> 29u128) & 1u128 != 1u128,
            (z >> 30u128) & 1u128 != 1u128,
            (z >> 31u128) & 1u128 != 1u128,
            (z >> 32u128) & 1u128 != 1u128,
            (z >> 33u128) & 1u128 != 1u128,
            (z >> 34u128) & 1u128 != 1u128,
            (z >> 35u128) & 1u128 != 1u128,
            (z >> 36u128) & 1u128 != 1u128,
            (z >> 37u128) & 1u128 != 1u128,
            (z >> 38u128) & 1u128 != 1u128,
            (z >> 39u128) & 1u128 != 1u128,
            (z >> 40u128) & 1u128 != 1u128,
            (z >> 41u128) & 1u128 != 1u128,
            (z >> 42u128) & 1u128 != 1u128,
            (z >> 43u128) & 1u128 != 1u128,
            (z >> 44u128) & 1u128 != 1u128,
            (z >> 45u128) & 1u128 != 1u128,
            (z >> 46u128) & 1u128 != 1u128,
            (z >> 47u128) & 1u128 != 1u128,
            (z >> 48u128) & 1u128 != 1u128,
            (z >> 49u128) & 1u128 != 1u128,
            (z >> 50u128) & 1u128 != 1u128,
            (z >> 51u128) & 1u128 != 1u128,
            (z >> 52u128) & 1u128 != 1u128,
            (z >> 53u128) & 1u128 != 1u128,
            (z >> 54u128) & 1u128 != 1u128,
            (z >> 55u128) & 1u128 != 1u128,
            (z >> 56u128) & 1u128 != 1u128,
            (z >> 57u128) & 1u128 != 1u128,
            (z >> 58u128) & 1u128 != 1u128,
            (z >> 59u128) & 1u128 != 1u128,
            (z >> 60u128) & 1u128 != 1u128,
            (z >> 61u128) & 1u128 != 1u128,
            (z >> 62u128) & 1u128 != 1u128,
            (z >> 63u128) & 1u128 != 1u128,
            (z >> 64u128) & 1u128 != 1u128,
            (z >> 65u128) & 1u128 != 1u128,
            (z >> 66u128) & 1u128 != 1u128,
            (z >> 67u128) & 1u128 != 1u128,
            (z >> 68u128) & 1u128 != 1u128,
            (z >> 69u128) & 1u128 != 1u128,
            (z >> 70u128) & 1u128 != 1u128,
            (z >> 71u128) & 1u128 != 1u128,
            (z >> 72u128) & 1u128 != 1u128,
            (z >> 73u128) & 1u128 != 1u128,
            (z >> 74u128) & 1u128 != 1u128,
            (z >> 75u128) & 1u128 != 1u128,
            (z >> 76u128) & 1u128 != 1u128,
            (z >> 77u128) & 1u128 != 1u128,
            (z >> 78u128) & 1u128 != 1u128,
            (z >> 79u128) & 1u128 != 1u128,
            (z >> 80u128) & 1u128 != 1u128,
            (z >> 81u128) & 1u128 != 1u128,
            (z >> 82u128) & 1u128 != 1u128,
            (z >> 83u128) & 1u128 != 1u128,
            (z >> 84u128) & 1u128 != 1u128,
            (z >> 85u128) & 1u128 != 1u128,
            (z >> 86u128) & 1u128 != 1u128,
            (z >> 87u128) & 1u128 != 1u128,
            (z >> 88u128) & 1u128 != 1u128,
            (z >> 89u128) & 1u128 != 1u128,
            (z >> 90u128) & 1u128 != 1u128,
            (z >> 91u128) & 1u128 != 1u128,
            (z >> 92u128) & 1u128 != 1u128,
            (z >> 93u128) & 1u128 != 1u128,
            (z >> 94u128) & 1u128 != 1u128,
            (z >> 95u128) & 1u128 != 1u128,
            (z >> 96u128) & 1u128 != 1u128,
            (z >> 97u128) & 1u128 != 1u128,
            (z >> 98u128) & 1u128 != 1u128,
            (z >> 99u128) & 1u128 != 1u128,
            (z >> 100u128) & 1u128 != 1u128,
            (z >> 101u128) & 1u128 != 1u128,
            (z >> 102u128) & 1u128 != 1u128,
            (z >> 103u128) & 1u128 != 1u128,
            (z >> 104u128) & 1u128 != 1u128,
            (z >> 105u128) & 1u128 != 1u128,
            (z >> 106u128) & 1u128 != 1u128,
            (z >> 107u128) & 1u128 != 1u128,
            (z >> 108u128) & 1u128 != 1u128,
            (z >> 109u128) & 1u128 != 1u128,
            (z >> 110u128) & 1u128 != 1u128,
            (z >> 111u128) & 1u128 != 1u128,
            (z >> 112u128) & 1u128 != 1u128,
            (z >> 113u128) & 1u128 != 1u128,
            (z >> 114u128) & 1u128 != 1u128,
            (z >> 115u128) & 1u128 != 1u128,
            (z >> 116u128) & 1u128 != 1u128,
            (z >> 117u128) & 1u128 != 1u128,
            (z >> 118u128) & 1u128 != 1u128,
            (z >> 119u128) & 1u128 != 1u128,
            (z >> 120u128) & 1u128 != 1u128,
            (z >> 121u128) & 1u128 != 1u128,
            (z >> 122u128) & 1u128 != 1u128,
            (z >> 123u128) & 1u128 != 1u128,
            (z >> 124u128) & 1u128 != 1u128,
            (z >> 125u128) & 1u128 != 1u128,
            (z >> 126u128) & 1u128 != 1u128,
            (z >> 127u128) & 1u128 != 1u128,
    ;
}


// ---------------------------------------------------------------------------
// 32-bit words
// ---------------------------------------------------------------------------

/// Bit `i` of a 32-bit word.
pub open spec fn bit32(x: u32, i: nat) -> bool {
    i < 32 && (x >> (i as u32)) & 1u32 == 1u32
}

/// The positions of the set bits of a 32-bit word.
pub open spec fn bits32(x: u32) -> Set<nat> {
    Set::new(|i: nat| bit32(x, i))
}

/// The number of set bits of `x` below position `n`.
pub open spec fn ones32(x: u32, n: nat) -> nat
    decreases n,
{
    if n == 0 {
        0
    } else {
        ones32(x, (n - 1) as nat) + if bit32(x, (n - 1) as nat) {
            1nat
        } else {
            0nat
        }
    }
}

/// The highest set bit of a nonzero word, 0 for the zero word.
pub open spec fn is_top_bit32(x: u32, r: nat) -> bool {
    &&& x == 0 ==> r == 0
    &&& x != 0 ==> bit32(x, r) && forall|j: nat| r < j ==> !#[trigger] bit32(x, j)
}

/// The lowest set bit of a nonzero word, 0 for the zero word.
pub open spec fn is_low_bit32(x: u32, r: nat) -> bool {
    &&& x == 0 ==> r == 0
    &&& x != 0 ==> bit32(x, r) && forall|j: nat| j < r ==> !#[trigger] bit32(x, j)
}

proof fn lemma_bv_or_single32(b: u32, k: u32, j: u32)
    by (bit_vector)
    requires
        k < 32,
        j < 32,
    ensures
        ((b | (1u32 << k)) >> j) & 1u32 == 1u32 <==> (j == k || (b >> j) & 1u32 == 1u32),
{
}

proof fn lemma_bv_test32(b: u32, k: u32)
    by (bit_vector)
    requires
        k < 32,
    ensures
        (b & (1u32 << k)) != 0u32 <==> (b >> k) & 1u32 == 1u32,
{
}

proof fn lemma_bv_ops32(a: u32, b: u32, j: u32)
    by (bit_vector)
    requires
        j < 32,
    ensures
        ((a & b) >> j) & 1u32 == 1u32 <==> ((a >> j) & 1u32 == 1u32 && (b >> j) & 1u32 == 1u32),
        ((a ^ b) >> j) & 1u32 == 1u32 <==> ((a >> j) & 1u32 == 1u32) != ((b >> j) & 1u32 == 1u32),
        ((a | b) >> j) & 1u32 == 1u32 <==> ((a >> j) & 1u32 == 1u32 || (b >> j) & 1u32 == 1u32),
{
}

proof fn lemma_bv_zero32(j: u32)
    by (bit_vector)
    ensures
        (0u32 >> j) & 1u32 != 1u32,
{
}

/// The word with one more bit set.
pub proof fn lemma_set_bit32(b: u32, k: u32)
    requires
        k < 32,
    ensures
        bits32(b | (1u32 << k)) == bits32(b).insert(k as nat),
{
    assert forall|j: nat| bits32(b | (1u32 << k)).contains(j) <==> bits32(b).insert(k as nat).contains(j) by {
        if j < 32 {
            lemma_bv_or_single32(b, k, j as u32);
        }
    }
    assert(bits32(b | (1u32 << k)) =~= bits32(b).insert(k as nat));
}

/// Testing a bit with a mask.
pub proof fn lemma_test_bit32(b: u32, k: u32)
    requires
        k < 32,
    ensures
        (b & (1u32 << k)) != 0u32 <==> bit32(b, k as nat),
{
    lemma_bv_test32(b, k);
}

/// Bits of `&`, `^` and `|`, position by position.
pub proof fn lemma_ops32(a: u32, b: u32)
    ensures
        forall|j: nat| #[trigger] bit32(a & b, j) <==> (bit32(a, j) && bit32(b, j)),
        forall|j: nat| #[trigger] bit32(a ^ b, j) <==> (bit32(a, j) != bit32(b, j)),
        forall|j: nat| #[trigger] bit32(a | b, j) <==> (bit32(a, j) || bit32(b, j)),
        bits32(a & b) == bits32(a).intersect(bits32(b)),
        bits32(a | b) == bits32(a).union(bits32(b)),
{
    assert forall|j: nat| j < 32 implies {
        &&& bit32(a & b, j) <==> (bit32(a, j) && bit32(b, j))
        &&& bit32(a ^ b, j) <==> (bit32(a, j) != bit32(b, j))
        &&& bit32(a | b, j) <==> (bit32(a, j) || bit32(b, j))
    } by {
        lemma_bv_ops32(a, b, j as u32);
    }
    assert(bits32(a & b) =~= bits32(a).intersect(bits32(b)));
    assert(bits32(a | b) =~= bits32(a).union(bits32(b)));
}

pub proof fn lemma_zero32()
    ensures
        bits32(0u32) == Set::<nat>::empty(),
{
    assert forall|j: nat| !bits32(0u32).contains(j) by {
        lemma_bv_zero32(j as u32);
    }
    assert(bits32(0u32) =~= Set::<nat>::empty());
}


pub proof fn lemma_ones32_bound(x: u32, n: nat)
    ensures
        ones32(x, n) <= n,
    decreases n,
{
    if n > 0 {
        lemma_ones32_bound(x, (n - 1) as nat);
    }
}

proof fn lemma_word_zero32(z: u32)
    requires
        forall|j: u32| j < 32 ==> (z >> j) & 1u32 != 1u32,
    ensures
        z == 0,
{
    assert((z >> 0u32) & 1u32 != 1u32);
    assert((z >> 1u32) & 1u32 != 1u32);
    assert((z >> 2u32) & 1u32 != 1u32);
    assert((z >> 3u32) & 1u32 != 1u32);
    assert((z >> 4u32) & 1u32 != 1u32);
    assert((z >> 5u32) & 1u32 != 1u32);
    assert((z >> 6u32) & 1u32 != 1u32);
    assert((z >> 7u32) & 1u32 != 1u32);
    assert((z >> 8u32) & 1u32 != 1u32);
    assert((z >> 9u32) & 1u32 != 1u32);
    assert((z >> 10u32) & 1u32 != 1u32);
    assert((z >> 11u32) & 1u32 != 1u32);
    assert((z >> 12u32) & 1u32 != 1u32);
    assert((z >> 13u32) & 1u32 != 1u32);
    assert((z >> 14u32) & 1u32 != 1u32);
    assert((z >> 15u32) & 1u32 != 1u32);
    assert((z >> 16u32) & 1u32 != 1u32);
    assert((z >> 17u32) & 1u32 != 1u32);
    assert((z >> 18u32) & 1u32 != 1u32);
    assert((z >> 19u32) & 1u32 != 1u32);
    assert((z >> 20u32) & 1u32 != 1u32);
    assert((z >> 21u32) & 1u32 != 1u32);
    assert((z >> 22u32) & 1u32 != 1u32);
    assert((z >> 23u32) & 1u32 != 1u32);
    assert((z >> 24u32) & 1u32 != 1u32);
    assert((z >> 25u32) & 1u32 != 1u32);
    assert((z >> 26u32) & 1u32 != 1u32);
    assert((z >> 27u32) & 1u32 != 1u32);
    assert((z >> 28u32) & 1u32 != 1u32);
    assert((z >> 29u32) & 1u32 != 1u32);
    assert((z >> 30u32) & 1u32 != 1u32);
    assert((z >> 31u32) & 1u32 != 1u32);
    assert(z == 0u32) by (bit_vector)
        requires
            (z >> 0u32) & 1u32 != 1u32,
            (z >> 1u32) & 1u32 != 1u32,
            (z >> 2u32) & 1u32 != 1u32,
            (z >> 3u32) & 1u32 != 1u32,
            (z >> 4u32) & 1u32 != 1u32,
            (z >> 5u32) & 1u32 != 1u32,
            (z >> 6u32) & 1u32 != 1u32,
            (z >> 7u32) & 1u32 != 1u32,
            (z >> 8u32) & 1u32 != 1u32,
            (z >> 9u32) & 1u32 != 1u32,
            (z >> 10u32) & 1u32 != 1u32,
            (z >> 11u32) & 1u32 != 1u32,
            (z >> 12u32) & 1u32 != 1u32,
            (z >> 13u32) & 1u32 != 1u32,
            (z >> 14u32) & 1u32 != 1u32,
            (z >> 15u32) & 1u32 != 1u32,
            (z >> 16u32) & 1u32 != 1u32,
            (z >> 17u32) & 1u32 != 1u32,
            (z >> 18u32) & 1u32 != 1u32,
            (z >> 19u32) & 1u32 != 1u32,
            (z >> 20u32) & 1u32 != 1u32,
            (z >> 21u32) & 1u32 != 1u32,
            (z >> 22u32) & 1u32 != 1u32,
            (z >> 23u32) & 1u32 != 1u32,
            (z >> 24u32) & 1u32 != 1u32,
            (z >> 25u32) & 1u32 != 1u32,
            (z >> 26u32) & 1u32 != 1u32,
            (z >> 27u32) & 1u32 != 1u32,
            (z >> 28u32) & 1u32 != 1u32,
            (z >> 29u32) & 1u32 != 1u32,
            (z >> 30u32) & 1u32 != 1u32,
            (z >> 31u32) & 1u32 != 1u32,
    ;
}

/// A word without set bits is zero.
pub proof fn lemma_no_bits_zero32(x: u32)
    requires
        forall|j: nat| j < 32 ==> !bit32(x, j),
    ensures
        x == 0,
{
    assert forall|j: u32| j < 32 implies (x >> j) & 1u32 != 1u32 by {
        assert(!bit32(x, j as nat));
    }
    lemma_word_zero32(x);
}

/// Counts the set bits of a 32-bit word.
pub fn popcount32(x: u32) -> (r: u32)
    ensures
        r == ones32(x, 32),
        r <= 32,
{
    let mut count: u32 = 0;
    let mut i: u32 = 0;
    while i < 32
        invariant
            i <= 32,
            count == ones32(x, i as nat),
        decreases 32 - i,
    {
        proof {
            lemma_test_bit32(x, i);
            lemma_ones32_bound(x, i as nat);
        }
        if x & (1u32 << i) != 0 {
            count = count + 1;
        }
        i = i + 1;
    }
    proof {
        lemma_ones32_bound(x, 32);
    }
    count
}

/// The position of the highest set bit (0 for the zero word).
pub fn top_bit32(x: u32) -> (r: u32)
    ensures
        is_top_bit32(x, r as nat),
        r < 32,
{
    let mut top: u32 = 0;
    let mut found: bool = false;
    let mut i: u32 = 0;
    while i < 32
        invariant
            i <= 32,
            top < 32,
            found ==> bit32(x, top as nat) && top < i,
            !found ==> top == 0,
            forall|j: nat| j < i && bit32(x, j) ==> found && j <= top,
        decreases 32 - i,
    {
        proof {
            lemma_test_bit32(x, i);
        }
        if x & (1u32 << i) != 0 {
            top = i;
            found = true;
        }
        i = i + 1;
    }
    proof {
        if x != 0 && !found {
            lemma_no_bits_zero32(x);
        }
        if x == 0 {
            lemma_zero32();
            assert(!bits32(0u32).contains(top as nat));
        }
    }
    top
}

/// The position of the lowest set bit (0 for the zero word).
pub fn low_bit32(x: u32) -> (r: u32)
    ensures
        is_low_bit32(x, r as nat),
        r < 32,
{
    let mut low: u32 = 0;
    let mut found: bool = false;
    let mut i: u32 = 32;
    while i > 0
        invariant
            i <= 32,
            low < 32,
            found ==> bit32(x, low as nat) && i <= low,
            !found ==> low == 0,
            forall|j: nat| i <= j < 32 && bit32(x, j) ==> found && low <= j,
        decreases i,
    {
        i = i - 1;
        proof {
            lemma_test_bit32(x, i);
        }
        if x & (1u32 << i) != 0 {
            low = i;
            found = true;
        }
    }
    proof {
        if x != 0 && !found {
            lemma_no_bits_zero32(x);
        }
        if x == 0 {
            lemma_zero32();
            assert(!bits32(0u32).contains(low as nat));
        }
    }
    low
}

/// Two words with the same bits are equal.
pub proof fn lemma_bits_determine32(x: u32, y: u32)
    ensures
        bits32(x) == bits32(y) ==> x == y,
{
    if bits32(x) == bits32(y) {
        assert forall|j: nat| j < 32 implies !bit32(x ^ y, j) by {
            lemma_bv_ops32(x, y, j as u32);
            assert(bits32(x).contains(j) == bits32(y).contains(j));
        }
        lemma_no_bits_zero32(x ^ y);
        assert(x ^ y == 0u32 ==> x == y) by (bit_vector);
    }
}

/// The zero word has no set bits.
pub proof fn lemma_ones32_zero(n: nat)
    ensures
        ones32(0u32, n) == 0,
    decreases n,
{
    if n > 0 {
        lemma_bv_zero32((n - 1) as u32);
        lemma_ones32_zero((n - 1) as nat);
    }
}

} // verus!
