use fibonacci_vsa::vector::{WormholeCensus, ZeckendorfVector};
use fibonacci_vsa::zeckendorf::ZeckendorfBits;
use ndarray::{Array1, Array2};
use rand::Rng;

const GAMMA: f64 = 0.577_215_664_901_532_9;

/// `((v + 1) / 2 * 2^precision) as u64`: how the float front end quantizes.
fn quantize(v: f64, precision_bits: u8) -> u64 {
    let scale = (1u64 << precision_bits.min(52)) as f64;
    ((v + 1.0) * 0.5 * scale) as u64
}

#[test]
fn zeckendorf_roundtrip() {
    for v in [0, 1, 2, 3, 5, 8, 13, 42, 100, 1000, 65535, 1_000_000] {
        let z = ZeckendorfBits::encode(v);
        assert_eq!(z.decode(), v, "Roundtrip failed for {}", v);
    }
}

#[test]
fn non_consecutive_bits() {
    for v in 1..=10000u64 {
        let z = ZeckendorfBits::encode(v);
        assert_eq!(z.bits & (z.bits >> 1), 0, "Consecutive bits found for {}", v);
    }
}

#[test]
fn gamma_is_the_cosmological_constant() {
    let k: f64 = 10.0;
    let with_gamma = k.ln() + GAMMA + 1.0 / (2.0 * k);
    let without_gamma = k.ln() + 1.0 / (2.0 * k);
    let gamma_effect = with_gamma / without_gamma;
    println!("Scale 10: with γ = {:.6}, without = {:.6}, ratio = {:.6}",
        with_gamma, without_gamma, gamma_effect);
    assert!(gamma_effect > 1.2);

    let k2: f64 = 1000.0;
    let ratio_high = (k2.ln() + GAMMA + 1.0 / (2.0 * k2)) / (k2.ln() + 1.0 / (2.0 * k2));
    assert!(ratio_high < gamma_effect);
}

/// Quantizes every entry of an array, then encodes it.
fn from_ndarray(arr: &Array1<f64>, precision_bits: u8) -> ZeckendorfVector {
    let q: Vec<u64> = arr.iter().map(|&v| quantize(v, precision_bits)).collect();
    ZeckendorfVector::from_quantized(&q)
}

#[test]
fn ndarray_encode_roundtrip() {
    let arr = Array1::from_vec(vec![0.5, -0.3, 0.0, 0.99, -0.99]);
    let zv = from_ndarray(&arr, 16);
    assert_eq!(zv.dim_count(), 5);
    println!("ndarray → Zeckendorf: {} dims, scales: {:?}",
        zv.dim_count(),
        (0..5).map(|i| zv.dim(i).max_scale).collect::<Vec<_>>());
}

#[test]
fn batch_encode_matrix() {
    let mut rng = rand::thread_rng();
    let data: Vec<f64> = (0..8 * 256).map(|_| rng.gen_range(-1.0..1.0)).collect();
    let matrix = Array2::from_shape_vec((8, 256), data).unwrap();
    let encoded: Vec<ZeckendorfVector> = matrix.rows().into_iter()
        .map(|row| from_ndarray(&row.to_owned(), 16))
        .collect();
    assert_eq!(encoded.len(), 8);
    assert_eq!(encoded[0].dim_count(), 256);
}

#[test]
fn encode_known_values() {
    // 100 = 89 + 8 + 3 = fib(9) + fib(4) + fib(2)
    let z = ZeckendorfBits::encode(100);
    assert_eq!(z.bits, (1u128 << 9) | (1 << 4) | (1 << 2));
    assert_eq!(z.max_scale, 9);
    assert_eq!(z.popcount(), 3);
    let zero = ZeckendorfBits::encode(0);
    assert_eq!(zero.bits, 0);
    assert_eq!(zero.max_scale, 0);
    assert_eq!(zero.decode(), 0);
    let one = ZeckendorfBits::encode(1);
    assert_eq!(one.bits, 1);
    assert_eq!(one.max_scale, 0);
}

#[test]
fn roundtrip_over_all_of_u64() {
    for v in [u64::MAX, u64::MAX - 1, 12_200_160_415_121_876_738, 12_200_160_415_121_876_737,
        2_880_067_194_370_816_118, 1_779_979_416_004_714_189] {
        let z = ZeckendorfBits::encode(v);
        assert_eq!(z.decode(), v);
        assert_eq!(z.bits & (z.bits >> 1), 0);
    }
    // the largest basis element that fits in a u64 is fib(91)
    let top = ZeckendorfBits::encode(12_200_160_415_121_876_738);
    assert_eq!(top.bits, 1u128 << 91);
    assert_eq!(top.max_scale, 91);
    assert_eq!(ZeckendorfBits::encode(u64::MAX).max_scale, 91);
}

#[test]
fn max_scale_is_top_bit() {
    for v in [1u64, 7, 42, 255, 65535, 1_000_000, 123_456_789] {
        let z = ZeckendorfBits::encode(v);
        assert_eq!(z.max_scale as u32, 127 - z.bits.leading_zeros());
    }
}

#[test]
fn resonance_of_neighbours() {
    // 42 = 34 + 8, 43 = 34 + 8 + 1
    let a = ZeckendorfBits::encode(42);
    let b = ZeckendorfBits::encode(43);
    let r = a.resonance(&b);
    assert_eq!(r.shared_bits, 144);
    assert_eq!(r.divergent_bits, 1);
    assert_eq!(r.shared_count, 2);
    assert_eq!(r.max_shared_scale, 7);
    assert_eq!(r.max_divergent_scale, 0);
    let back = b.resonance(&a);
    assert_eq!(back.shared_bits, r.shared_bits);
    assert_eq!(back.divergent_bits, r.divergent_bits);
}

#[test]
fn self_resonance_has_no_divergence() {
    let a = ZeckendorfBits::encode(65535);
    let r = a.resonance(&a);
    assert_eq!(r.shared_bits, a.bits);
    assert_eq!(r.divergent_bits, 0);
    assert_eq!(r.shared_count, a.popcount());
    assert_eq!(r.max_shared_scale, a.max_scale);
    assert_eq!(r.max_divergent_scale, 0);
}

#[test]
fn vector_from_quantized_values() {
    let values: Vec<u64> = [0.5, -0.3, 0.0, 0.99, -0.99].iter().map(|&v| quantize(v, 16)).collect();
    let zv = ZeckendorfVector::from_quantized(&values);
    assert_eq!(zv.dim_count(), 5);
    for i in 0..5 {
        assert_eq!(zv.dim(i).decode(), values[i]);
    }
}

#[test]
fn census_counts_shared_bits() {
    let a = ZeckendorfVector::from_quantized(&[42, 100, 7]);
    let b = ZeckendorfVector::from_quantized(&[43, 100, 0, 5]);
    let c: WormholeCensus = a.wormhole_census(&b);
    // 42/43 share 2 bits, 100/100 share 3, 7/0 share none
    assert_eq!(c.total_wormholes, 5);
    assert_eq!(c.scale_histogram.len(), 92);
    assert_eq!(c.scale_histogram[7], 1);
    assert_eq!(c.scale_histogram[4], 2);
    assert_eq!(c.scale_histogram[9], 1);
    assert_eq!(c.scale_histogram[2], 1);
    assert_eq!(c.scale_histogram.iter().map(|&x| x as u64).sum::<u64>(), 5);
    // scale 4 holds the most wormholes
    assert_eq!(c.dominant_scale, 4);
}

#[test]
fn census_without_wormholes_picks_last_scale() {
    let a = ZeckendorfVector::from_quantized(&[1]);
    let b = ZeckendorfVector::from_quantized(&[2]);
    let c = a.wormhole_census(&b);
    assert_eq!(c.total_wormholes, 0);
    assert_eq!(c.dominant_scale, 91);
}

#[test]
fn pairwise_wormhole_counts_symmetric() {
    let vectors: Vec<ZeckendorfVector> = (0..6u64)
        .map(|i| {
            let values: Vec<u64> = (0..64u64).map(|j| (i * 7919 + j * 104729) % 65536).collect();
            ZeckendorfVector::from_quantized(&values)
        })
        .collect();
    let wh = ZeckendorfVector::pairwise_wormhole_counts(&vectors);
    assert_eq!(wh.size(), 6);
    for i in 0..6 {
        assert_eq!(wh.get(i, i), 0);
        for j in 0..6 {
            assert_eq!(wh.get(i, j), wh.get(j, i), "Wormhole counts not symmetric");
            if i != j {
                assert_eq!(wh.get(i, j), vectors[i].wormhole_census(&vectors[j]).total_wormholes);
            }
        }
    }
}

#[test]
fn unique_representation() {
    // any pattern without neighbouring bits is the encoding of its own value
    for pattern in [0b1u128, 0b101, 0b1001010, 0b10101010101, (1 << 91) | (1 << 40) | 1] {
        let z = ZeckendorfBits { bits: pattern, max_scale: 0 };
        let v = z.decode();
        assert_eq!(ZeckendorfBits::encode(v).bits, pattern);
    }
}

#[test]
fn encodings_stay_inside_the_table() {
    for v in [1u64, 1000, 1 << 40, 1_779_979_416_004_714_189, u64::MAX] {
        let z = ZeckendorfBits::encode(v);
        assert_eq!(z.bits >> 92, 0);
    }
}

#[test]
fn top_divergent_bit_orders_values() {
    let values = [1u64, 2, 3, 4, 42, 43, 100, 987, 1000, 65535, 65536, 1_000_000];
    for &u in &values {
        for &v in &values {
            if u > v {
                let a = ZeckendorfBits::encode(u);
                let b = ZeckendorfBits::encode(v);
                let r = a.resonance(&b);
                assert_ne!(a.bits & (1u128 << r.max_divergent_scale), 0, "{} vs {}", u, v);
            }
        }
    }
}
