use vstd::prelude::*;
use crate::bits::{bit128, bits128, ones128, lemma_test_bit128, lemma_ops128};
use crate::representation::{below, lemma_greedy_below};
use crate::grid::{CountMatrix, count_rows};
use crate::zeckendorf::{ZeckendorfBits, FIB_LEN, zeck_encodes};

verus! {

/// A vector whose dimensions are Zeckendorf-encoded values.
#[derive(Clone, Debug)]
pub struct ZeckendorfVector {
    dims: Vec<ZeckendorfBits>,
}

impl View for ZeckendorfVector {
    type V = Seq<ZeckendorfBits>;

    closed spec fn view(&self) -> Seq<ZeckendorfBits> {
        self.dims@
    }
}

/// The number of dimensions that two vectors have in common.
pub open spec fn common_len(a: Seq<ZeckendorfBits>, b: Seq<ZeckendorfBits>) -> nat {
    if a.len() <= b.len() {
        a.len()
    } else {
        b.len()
    }
}

/// The number of bits that two encoded values share (their wormholes).
pub open spec fn shared_ones(x: ZeckendorfBits, y: ZeckendorfBits) -> nat {
    ones128(x.bits & y.bits, 128)
}

/// The wormholes of the first `n` dimensions of two vectors.
pub open spec fn wormhole_total(a: Seq<ZeckendorfBits>, b: Seq<ZeckendorfBits>, n: nat) -> nat
    decreases n,
{
    if n == 0 {
        0
    } else {
        wormhole_total(a, b, (n - 1) as nat) + shared_ones(a[n - 1], b[n - 1])
    }
}

/// The number of the first `n` dimensions in which two vectors share bit `k`.
pub open spec fn scale_count(a: Seq<ZeckendorfBits>, b: Seq<ZeckendorfBits>, n: nat, k: nat) -> nat
    decreases n,
{
    if n == 0 {
        0
    } else {
        scale_count(a, b, (n - 1) as nat, k) + if bit128(a[n - 1].bits & b[n - 1].bits, k) {
            1nat
        } else {
            0nat
        }
    }
}

/// `d` is the last position at which `h` takes its largest value.
pub open spec fn is_last_max(h: Seq<u32>, d: nat) -> bool {
    &&& d < h.len()
    &&& forall|k: int| 0 <= k < h.len() ==> h[k] <= h[d as int]
    &&& forall|k: int| d < k < h.len() ==> h[k] < h[d as int]
}

/// The integer part of a resonance map: how many wormholes two vectors
/// share, at which scales, and the scale where most of them are.
#[derive(Clone, Debug)]
pub struct WormholeCensus {
    pub total_wormholes: u32,
    /// `scale_histogram[k]`: the number of dimensions sharing bit `k`.
    pub scale_histogram: Vec<u32>,
    /// The scale holding the most wormholes (the last one on a tie).
    pub dominant_scale: u8,
}

proof fn lemma_wormhole_total_monotone(a: Seq<ZeckendorfBits>, b: Seq<ZeckendorfBits>, i: nat, n: nat)
    requires
        i <= n,
    ensures
        wormhole_total(a, b, i) <= wormhole_total(a, b, n),
    decreases n - i,
{
    if i < n {
        lemma_wormhole_total_monotone(a, b, i, (n - 1) as nat);
    }
}

proof fn lemma_ones_positive(x: u128, k: nat, n: nat)
    requires
        bit128(x, k),
        k < n,
    ensures
        ones128(x, n) >= 1,
    decreases n,
{
    if k < n - 1 {
        lemma_ones_positive(x, k, (n - 1) as nat);
    }
}

proof fn lemma_scale_count_bound(a: Seq<ZeckendorfBits>, b: Seq<ZeckendorfBits>, n: nat, k: nat)
    ensures
        scale_count(a, b, n, k) <= wormhole_total(a, b, n),
    decreases n,
{
    if n > 0 {
        lemma_scale_count_bound(a, b, (n - 1) as nat, k);
        if bit128(a[n - 1].bits & b[n - 1].bits, k) {
            lemma_ones_positive(a[n - 1].bits & b[n - 1].bits, k, 128);
        }
    }
}

/// The wormhole count does not depend on the order of the two vectors.
pub proof fn law_wormhole_total_symmetric(a: Seq<ZeckendorfBits>, b: Seq<ZeckendorfBits>, n: nat)
    ensures
        wormhole_total(a, b, n) == wormhole_total(b, a, n),
    decreases n,
{
    if n > 0 {
        law_wormhole_total_symmetric(a, b, (n - 1) as nat);
        let x = a[n - 1].bits;
        let y = b[n - 1].bits;
        assert(x & y == y & x) by (bit_vector);
    }
}

/// The wormholes between vectors `p` and `q` of a list.
pub open spec fn pair_total(v: Seq<ZeckendorfVector>, p: int, q: int) -> nat {
    wormhole_total(v[p]@, v[q]@, common_len(v[p]@, v[q]@))
}

/// An entry of the pairwise table once the pairs whose smaller index is
/// below `i`, and the pairs `(i, q)` with `q < j`, have been filled in.
pub open spec fn pair_entry(v: Seq<ZeckendorfVector>, p: int, q: int, i: int, j: int) -> nat {
    let lo = if p < q { p } else { q };
    let hi = if p < q { q } else { p };
    if p != q && (lo < i || (lo == i && hi < j)) {
        pair_total(v, lo, hi)
    } else {
        0
    }
}

impl ZeckendorfVector {
    /// Encodes already quantized values, one dimension each.
    pub fn from_quantized(values: &[u64]) -> (v: Self)
        ensures
            v@.len() == values@.len(),
            forall|i: int| 0 <= i < values@.len() ==> zeck_encodes(#[trigger] v@[i], values@[i] as nat),
    {
        let mut dims: Vec<ZeckendorfBits> = Vec::new();
        let mut i: usize = 0;
        while i < values.len()
            invariant
                i <= values@.len(),
                dims@.len() == i,
                forall|j: int| 0 <= j < i ==> zeck_encodes(#[trigger] dims@[j], values@[j] as nat),
            decreases values@.len() - i,
        {
            dims.push(ZeckendorfBits::encode(values[i]));
            i = i + 1;
        }
        ZeckendorfVector { dims }
    }

    /// The number of dimensions.
    pub fn dim_count(&self) -> (n: usize)
        ensures
            n == self@.len(),
    {
        self.dims.len()
    }

    /// The encoded value of dimension `i`.
    pub fn dim(&self, i: usize) -> (d: &ZeckendorfBits)
        requires
            i < self@.len(),
        ensures
            *d == self@[i as int],
    {
        &self.dims[i]
    }

    /// Counts the wormholes of two vectors over their common dimensions, per
    /// scale and in total, and finds the scale where most of them are.
    pub fn wormhole_census(&self, other: &Self) -> (c: WormholeCensus)
        requires
            wormhole_total(self@, other@, common_len(self@, other@)) <= u32::MAX,
        ensures
            c.total_wormholes == wormhole_total(self@, other@, common_len(self@, other@)),
            c.scale_histogram@.len() == FIB_LEN,
            forall|k: int|
                0 <= k < FIB_LEN ==> #[trigger] c.scale_histogram@[k] == scale_count(
                    self@,
                    other@,
                    common_len(self@, other@),
                    k as nat,
                ),
            is_last_max(c.scale_histogram@, c.dominant_scale as nat),
    {
        let n = if self.dims.len() <= other.dims.len() {
            self.dims.len()
        } else {
            other.dims.len()
        };
        let ghost a = self@;
        let ghost b = other@;
        let mut total: u32 = 0;
        let mut hist: Vec<u32> = Vec::new();
        let mut k: usize = 0;
        while k < FIB_LEN
            invariant
                k <= FIB_LEN,
                hist@.len() == k,
                forall|q: int| 0 <= q < k ==> hist@[q] == 0,
            decreases FIB_LEN - k,
        {
            hist.push(0);
            k = k + 1;
        }
        let mut i: usize = 0;
        while i < n
            invariant
                n == common_len(a, b),
                a == self@,
                b == other@,
                i <= n,
                wormhole_total(a, b, n as nat) <= u32::MAX,
                total == wormhole_total(a, b, i as nat),
                hist@.len() == FIB_LEN,
                forall|q: int| 0 <= q < FIB_LEN ==> #[trigger] hist@[q] == scale_count(a, b, i as nat, q as nat),
            decreases n - i,
        {
            let res = self.dims[i].resonance(&other.dims[i]);
            proof {
                lemma_wormhole_total_monotone(a, b, (i + 1) as nat, n as nat);
            }
            total = total + res.shared_count;
            let mut k: usize = 0;
            while k < FIB_LEN
                invariant
                    n == common_len(a, b),
                    a == self@,
                    b == other@,
                    i < n,
                    res.shared_bits == a[i as int].bits & b[i as int].bits,
                    wormhole_total(a, b, n as nat) <= u32::MAX,
                    k <= FIB_LEN,
                    hist@.len() == FIB_LEN,
                    forall|q: int| 0 <= q < k ==> #[trigger] hist@[q] == scale_count(a, b, (i + 1) as nat, q as nat),
                    forall|q: int| k <= q < FIB_LEN ==> #[trigger] hist@[q] == scale_count(a, b, i as nat, q as nat),
                decreases FIB_LEN - k,
            {
                proof {
                    lemma_test_bit128(res.shared_bits, k as u128);
                    lemma_scale_count_bound(a, b, (i + 1) as nat, k as nat);
                    lemma_wormhole_total_monotone(a, b, (i + 1) as nat, n as nat);
                }
                if res.shared_bits & (1u128 << (k as u128)) != 0 {
                    hist[k] = hist[k] + 1;
                }
                k = k + 1;
            }
            i = i + 1;
        }
        let mut best: u32 = 0;
        let mut dominant: usize = 0;
        let mut k: usize = 0;
        while k < FIB_LEN
            invariant
                k <= FIB_LEN,
                hist@.len() == FIB_LEN,
                k > 0 ==> dominant < k && hist@[dominant as int] == best,
                k == 0 ==> best == 0,
                forall|q: int| 0 <= q < k ==> hist@[q] <= best,
                forall|q: int| dominant < q < k ==> hist@[q] < best,
            decreases FIB_LEN - k,
        {
            if hist[k] >= best {
                best = hist[k];
                dominant = k;
            }
            k = k + 1;
        }
        WormholeCensus { total_wormholes: total, scale_histogram: hist, dominant_scale: dominant as u8 }
    }

    /// The wormhole counts of every pair of vectors: entry `[i, j]` is the
    /// number of wormholes between vectors `i` and `j`, and the diagonal is 0.
    pub fn pairwise_wormhole_counts(vectors: &[Self]) -> (m: CountMatrix)
        requires
            vectors@.len() * vectors@.len() <= isize::MAX,
            forall|p: int, q: int|
                0 <= p < q < vectors@.len() ==> #[trigger] pair_total(vectors@, p, q) <= u32::MAX,
        ensures
            count_rows(m).len() == vectors@.len(),
            forall|p: int| 0 <= p < vectors@.len() ==> #[trigger] count_rows(m)[p].len() == vectors@.len(),
            forall|p: int| 0 <= p < vectors@.len() ==> #[trigger] count_rows(m)[p][p] == 0,
            forall|p: int, q: int|
                0 <= p < vectors@.len() && 0 <= q < vectors@.len() && p != q
                    ==> #[trigger] count_rows(m)[p][q] == pair_total(vectors@, p, q),
            forall|p: int, q: int|
                0 <= p < vectors@.len() && 0 <= q < vectors@.len()
                    ==> #[trigger] count_rows(m)[p][q] == count_rows(m)[q][p],
    {
        let n = vectors.len();
        let ghost v = vectors@;
        let mut m = CountMatrix::zeros(n);
        let mut i: usize = 0;
        while i < n
            invariant
                n == v.len(),
                v == vectors@,
                i <= n,
                forall|p: int, q: int| 0 <= p < q < n ==> #[trigger] pair_total(v, p, q) <= u32::MAX,
                count_rows(m).len() == n,
                forall|p: int| 0 <= p < n ==> #[trigger] count_rows(m)[p].len() == n,
                forall|p: int, q: int|
                    0 <= p < n && 0 <= q < n ==> #[trigger] count_rows(m)[p][q] == pair_entry(v, p, q, i as int, 0),
            decreases n - i,
        {
            let mut j: usize = i + 1;
            assert forall|p: int, q: int| 0 <= p < n && 0 <= q < n implies
                pair_entry(v, p, q, i as int, 0) == pair_entry(v, p, q, i as int, i + 1) by {
            }
            while j < n
                invariant
                    n == v.len(),
                    v == vectors@,
                    i < n,
                    i + 1 <= j <= n,
                    forall|p: int, q: int| 0 <= p < q < n ==> #[trigger] pair_total(v, p, q) <= u32::MAX,
                    count_rows(m).len() == n,
                    forall|p: int| 0 <= p < n ==> #[trigger] count_rows(m)[p].len() == n,
                    forall|p: int, q: int|
                        0 <= p < n && 0 <= q < n ==> #[trigger] count_rows(m)[p][q] == pair_entry(v, p, q, i as int, j as int),
                decreases n - j,
            {
                assert(pair_total(v, i as int, j as int) <= u32::MAX);
                let census = vectors[i].wormhole_census(&vectors[j]);
                let count = census.total_wormholes;
                m.set(i, j, count);
                m.set(j, i, count);
                assert forall|p: int, q: int| 0 <= p < n && 0 <= q < n implies
                    #[trigger] count_rows(m)[p][q] == pair_entry(v, p, q, i as int, j + 1) by {
                }
                j = j + 1;
            }
            assert forall|p: int, q: int| 0 <= p < n && 0 <= q < n implies
                pair_entry(v, p, q, i as int, n as int) == pair_entry(v, p, q, i + 1, 0) by {
            }
            i = i + 1;
        }
        proof {
            assert forall|p: int, q: int|
                0 <= p < n && 0 <= q < n && p != q implies #[trigger] count_rows(m)[p][q] == pair_total(v, p, q) by {
                if q < p {
                    law_wormhole_total_symmetric(v[q]@, v[p]@, common_len(v[q]@, v[p]@));
                }
            }
        }
        m
    }
}


/// The set bits of the first `n` dimensions of a vector.
pub open spec fn bits_total(a: Seq<ZeckendorfBits>, n: nat) -> nat
    decreases n,
{
    if n == 0 {
        0
    } else {
        bits_total(a, (n - 1) as nat) + ones128(a[n - 1].bits, 128)
    }
}

/// The histogram entries at scales `0..m`, added up.
pub open spec fn histogram_sum(a: Seq<ZeckendorfBits>, b: Seq<ZeckendorfBits>, n: nat, m: nat) -> nat
    decreases m,
{
    if m == 0 {
        0
    } else {
        histogram_sum(a, b, n, (m - 1) as nat) + scale_count(a, b, n, (m - 1) as nat)
    }
}

/// No dimension of the first `n` reaches past the table.
pub open spec fn dims_in_table(a: Seq<ZeckendorfBits>, n: nat) -> bool {
    forall|i: int| 0 <= i < n ==> below(bits128(#[trigger] a[i].bits), FIB_LEN as nat)
}

/// Counting one more common dimension adds exactly its shared bits: to the
/// total the number of bits the two values share there, and to scale `k` one
/// when both hold bit `k`. No census counts zero dimensions as anything.
pub proof fn law_census_step(a: Seq<ZeckendorfBits>, b: Seq<ZeckendorfBits>, n: nat, k: nat)
    requires
        n < a.len(),
        n < b.len(),
    ensures
        wormhole_total(a, b, 0) == 0,
        scale_count(a, b, 0, k) == 0,
        wormhole_total(a, b, n + 1) == wormhole_total(a, b, n) + ones128(a[n as int].bits & b[n as int].bits, 128),
        scale_count(a, b, n + 1, k) == scale_count(a, b, n, k) + if bit128(a[n as int].bits & b[n as int].bits, k) {
            1nat
        } else {
            0nat
        },
{
}

/// A vector shares every one of its bits with itself.
pub proof fn law_self_census(a: Seq<ZeckendorfBits>, n: nat)
    requires
        n <= a.len(),
    ensures
        wormhole_total(a, a, n) == bits_total(a, n),
    decreases n,
{
    if n > 0 {
        law_self_census(a, (n - 1) as nat);
        let x = a[n - 1].bits;
        assert(x & x == x) by (bit_vector);
    }
}

spec fn dims_ones(a: Seq<ZeckendorfBits>, b: Seq<ZeckendorfBits>, n: nat, m: nat) -> nat
    decreases n,
{
    if n == 0 {
        0
    } else {
        dims_ones(a, b, (n - 1) as nat, m) + ones128(a[n - 1].bits & b[n - 1].bits, m)
    }
}

proof fn lemma_dims_ones_step(a: Seq<ZeckendorfBits>, b: Seq<ZeckendorfBits>, n: nat, m: nat)
    ensures
        dims_ones(a, b, n, m + 1) == dims_ones(a, b, n, m) + scale_count(a, b, n, m),
        dims_ones(a, b, n, 0) == 0,
        dims_ones(a, b, n, 128) == wormhole_total(a, b, n),
    decreases n,
{
    if n > 0 {
        lemma_dims_ones_step(a, b, (n - 1) as nat, m);
    }
}

proof fn lemma_histogram_sum(a: Seq<ZeckendorfBits>, b: Seq<ZeckendorfBits>, n: nat, m: nat)
    ensures
        histogram_sum(a, b, n, m) == dims_ones(a, b, n, m),
    decreases m,
{
    lemma_dims_ones_step(a, b, n, 0);
    if m > 0 {
        lemma_histogram_sum(a, b, n, (m - 1) as nat);
        lemma_dims_ones_step(a, b, n, (m - 1) as nat);
    }
}

proof fn lemma_ones128_high_clear(z: u128, m: nat)
    requires
        FIB_LEN <= m <= 128,
        forall|j: nat| FIB_LEN <= j ==> !#[trigger] bit128(z, j),
    ensures
        ones128(z, m) == ones128(z, FIB_LEN as nat),
    decreases m,
{
    if m > FIB_LEN {
        lemma_ones128_high_clear(z, (m - 1) as nat);
    }
}

proof fn lemma_dims_ones_in_table(a: Seq<ZeckendorfBits>, b: Seq<ZeckendorfBits>, n: nat)
    requires
        n <= a.len(),
        dims_in_table(a, n),
    ensures
        dims_ones(a, b, n, 128) == dims_ones(a, b, n, FIB_LEN as nat),
    decreases n,
{
    if n > 0 {
        let i = (n - 1) as int;
        lemma_dims_ones_in_table(a, b, (n - 1) as nat);
        assert(below(bits128(a[i].bits), FIB_LEN as nat));
        lemma_ops128(a[i].bits, b[i].bits);
        assert forall|j: nat| FIB_LEN <= j implies !#[trigger] bit128(a[i].bits & b[i].bits, j) by {
            if bit128(a[i].bits, j) {
                assert(bits128(a[i].bits).contains(j));
            }
        }
        lemma_ones128_high_clear(a[i].bits & b[i].bits, 128);
    }
}

/// The scale histogram adds up to the total: every wormhole sits at exactly
/// one scale.
pub proof fn law_histogram_sums_to_total(a: Seq<ZeckendorfBits>, b: Seq<ZeckendorfBits>, n: nat)
    requires
        n <= a.len(),
        dims_in_table(a, n),
    ensures
        histogram_sum(a, b, n, FIB_LEN as nat) == wormhole_total(a, b, n),
{
    lemma_histogram_sum(a, b, n, FIB_LEN as nat);
    lemma_dims_ones_in_table(a, b, n);
    lemma_dims_ones_step(a, b, n, 0);
}

/// Encoded dimensions stay inside the table.
pub proof fn law_encoded_dims_in_table(a: Seq<ZeckendorfBits>, values: Seq<u64>)
    requires
        a.len() == values.len(),
        forall|i: int| 0 <= i < values.len() ==> zeck_encodes(#[trigger] a[i], values[i] as nat),
    ensures
        dims_in_table(a, a.len()),
{
    assert forall|i: int| 0 <= i < a.len() implies below(bits128(#[trigger] a[i].bits), FIB_LEN as nat) by {
        assert(zeck_encodes(a[i], values[i] as nat));
        lemma_greedy_below(values[i] as nat, FIB_LEN as nat);
    }
}

} // verus!
