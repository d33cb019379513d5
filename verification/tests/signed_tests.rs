use fibonacci_vsa::signed::{bf16_analysis, FibVec10K, PentaGroup, SignedZeckendorf};
use rand::Rng;

/// `round(value * 2^precision)`: how the float front end quantizes.
fn quantize(value: f64, precision_bits: u8) -> i64 {
    let scale = (1u64 << precision_bits.min(20)) as f64;
    (value * scale).round() as i64
}

fn encode(value: f64, precision_bits: u8) -> SignedZeckendorf {
    SignedZeckendorf::encode_quantized(quantize(value, precision_bits))
}

fn encode_vec(values: &[f64], precision_bits: u8) -> FibVec10K {
    let q: Vec<i64> = values.iter().map(|&v| quantize(v, precision_bits)).collect();
    FibVec10K::from_quantized(&q)
}

#[test]
fn signed_roundtrip() {
    for val in [-1.0, -0.5, -0.1, 0.0, 0.1, 0.5, 1.0] {
        let sz = encode(val, 8);
        let decoded = sz.decode();
        let expected = (val * 256.0).round() as i64;
        assert_eq!(decoded, expected, "Roundtrip failed for {}", val);
    }
}

#[test]
fn sign_cancellation() {
    let pos = encode(0.5, 8);
    let neg = encode(-0.5, 8);

    let res = pos.signed_resonance(&neg);
    println!("\n═══ SIGN CANCELLATION ═══");
    println!("  +0.5: pos={:024b} neg={:024b}", pos.pos, pos.neg);
    println!("  -0.5: pos={:024b} neg={:024b}", neg.pos, neg.neg);
    println!("  agreement: {}, cancellation: {}, net: {}",
        res.agreement_count, res.cancellation_count, res.net_resonance);

    assert!(res.cancellation_count > 0, "Opposites must cancel");
    assert_eq!(res.agreement_count, 0, "Opposites should not agree");
    assert!(res.net_resonance < 0, "Net should be negative for opposites");
}

#[test]
fn sign_agreement() {
    let a = encode(0.7, 8);
    let b = encode(0.7, 8);

    let res = a.signed_resonance(&b);
    println!("\n═══ SIGN AGREEMENT ═══");
    println!("  agreement: {}, cancellation: {}, net: {}",
        res.agreement_count, res.cancellation_count, res.net_resonance);

    assert!(res.agreement_count > 0);
    assert_eq!(res.cancellation_count, 0);
    assert!(res.net_resonance > 0);
}

#[test]
fn pentagroup_encoding() {
    let vals = [0.5, -0.3, 0.8, -0.1, 0.0];
    let q = [quantize(vals[0], 8), quantize(vals[1], 8), quantize(vals[2], 8), quantize(vals[3], 8), quantize(vals[4], 8)];
    let pg = PentaGroup::encode_quantized(&q);

    println!("\n═══ PENTAGROUP ═══");
    for (i, d) in pg.dims.iter().enumerate() {
        println!("  dim {}: val={:.1}, decoded={}, active_trits={}, max_scale={}",
            i, vals[i], d.decode(), d.active_count(), d.max_scale);
    }
    println!("  bit_cost: {} bits", pg.bit_cost());
    println!("  fingerprint: {:016x}", pg.fingerprint());
}

#[test]
fn full_10k_vector() {
    let mut rng = rand::thread_rng();
    let data: Vec<f64> = (0..10000).map(|_| rng.gen_range(-1.0..1.0)).collect();

    let fv = encode_vec(&data, 8);

    println!("\n═══ 10,000D FIBONACCI VECTOR ═══");
    println!("  Dimensions: {}", fv.n_dims());
    println!("  Groups: {}", fv.n_groups());
    println!("  Total bits: {} ({:.2} kbit, {:.2} KB)",
        fv.total_bits(), fv.total_bits() as f64 / 1024.0, fv.total_bits() as f64 / 8192.0);
    println!("  Bits per dim: {:.2}", fv.total_bits() as f64 / fv.n_dims() as f64);

    assert_eq!(fv.n_dims(), 10000);
    assert_eq!(fv.n_groups(), 2000);
}

#[test]
fn bit_budget_16kbit() {
    let mut rng = rand::thread_rng();
    let data: Vec<f64> = (0..10000).map(|_| rng.gen_range(-1.0..1.0)).collect();

    println!("\n═══ 16kbit BUDGET TEST ═══");
    for bits in [2u8, 3, 4, 5, 6, 7, 8] {
        let fv = encode_vec(&data, bits);
        let total = fv.total_bits();
        let kbit = total as f64 / 1024.0;
        let per_dim = total as f64 / 10000.0;
        let fits = kbit <= 16.5;
        println!("  precision={} bits: {:.1} kbit ({:.2} bits/dim) {}",
            bits, kbit, per_dim, if fits { "✓ fits 16kbit" } else { "✗ too large" });
    }
}

#[test]
fn signed_discrimination() {
    let mut rng = rand::thread_rng();

    let base: Vec<f64> = (0..10000).map(|_| rng.gen_range(-1.0..1.0)).collect();
    let similar: Vec<f64> = base.iter().map(|&v| v + rng.gen_range(-0.05..0.05)).collect();
    let different: Vec<f64> = (0..10000).map(|_| rng.gen_range(-1.0..1.0)).collect();
    let negated: Vec<f64> = base.iter().map(|&v| -v).collect();

    let fb = encode_vec(&base, 6);
    let fs = encode_vec(&similar, 6);
    let fd = encode_vec(&different, 6);
    let fn_ = encode_vec(&negated, 6);

    let r_sim = fb.resonance_counts(&fs);
    let r_dif = fb.resonance_counts(&fd);
    let r_neg = fb.resonance_counts(&fn_);

    println!("\n═══ 10K SIGNED DISCRIMINATION ═══");
    println!("  Similar:  agree={:>5} cancel={:>5} net={:>6}",
        r_sim.total_agreement, r_sim.total_cancellation, r_sim.net_resonance);
    println!("  Different: agree={:>5} cancel={:>5} net={:>6}",
        r_dif.total_agreement, r_dif.total_cancellation, r_dif.net_resonance);
    println!("  Negated:  agree={:>5} cancel={:>5} net={:>6}",
        r_neg.total_agreement, r_neg.total_cancellation, r_neg.net_resonance);

    assert!(r_sim.total_agreement > r_dif.total_agreement,
        "Similar should agree more: {} vs {}", r_sim.total_agreement, r_dif.total_agreement);
    assert!(r_neg.total_cancellation > r_sim.total_cancellation,
        "Negated should cancel more: {} vs {}", r_neg.total_cancellation, r_sim.total_cancellation);
    assert!(r_neg.total_cancellation > r_dif.total_cancellation,
        "Negated should cancel more than different: {} vs {}", r_neg.total_cancellation, r_dif.total_cancellation);
    assert!(r_sim.net_resonance > r_dif.net_resonance);
    assert!(r_dif.net_resonance > r_neg.net_resonance);
}

#[test]
fn bf16_alignment_check() {
    println!("\n═══ BF16 ALIGNMENT ═══");
    for val in [0.01, 0.1, 0.3, 0.5, 0.7, 0.99] {
        let sz = encode(val, 12);
        let bf = bf16_analysis(&sz);
        println!("  {:.2} → zeck scale [{},{}], BF16 exp [{},{}], mantissa≈{} bits, compat={}",
            val, bf.zeck_min_scale, bf.zeck_max_scale,
            bf.bf16_exponent_range.0, bf.bf16_exponent_range.1,
            bf.mantissa_equivalent, bf.is_bf16_compatible);
    }
}

#[test]
fn bf16_known_values() {
    // 0.7 at 12 bits: 2867 → positions 2 .. 16
    let bf = bf16_analysis(&encode(0.7, 12));
    assert_eq!(bf.zeck_max_scale, 16);
    assert_eq!(bf.zeck_min_scale, 2);
    assert_eq!(bf.bf16_exponent_range, (128, 138));
    assert_eq!(bf.mantissa_equivalent, 6);
    assert!(bf.is_bf16_compatible);
    let zero = bf16_analysis(&SignedZeckendorf::encode_quantized(0));
    assert_eq!((zero.zeck_min_scale, zero.zeck_max_scale), (0, 0));
    assert_eq!(zero.bf16_exponent_range, (127, 127));
}

#[test]
fn signed_encode_known_values() {
    let z = SignedZeckendorf::encode_quantized(-100);
    assert_eq!((z.pos, z.neg, z.max_scale), (0, 532, 9));
    assert_eq!(z.decode(), -100);
    assert_eq!(z.trit(9), -1);
    assert_eq!(z.trit(3), 0);
    let p = SignedZeckendorf::encode_quantized(10);
    assert_eq!((p.pos, p.neg, p.max_scale), (18, 0, 4));
    assert_eq!(p.trit(4), 1);
    assert_eq!(p.active_count(), 2);
    let zero = SignedZeckendorf::encode_quantized(0);
    assert_eq!((zero.pos, zero.neg, zero.max_scale), (0, 0, 0));
}

#[test]
fn signed_roundtrip_up_to_table_sum() {
    // fib(25) - 2 = 196416 is the sum of the whole signed table
    for q in [196416i64, -196416, 121392, -75025, 1] {
        assert_eq!(SignedZeckendorf::encode_quantized(q).decode(), q);
    }
    assert_eq!(SignedZeckendorf::encode_quantized(1 << 20).decode(), 196416);
    assert_eq!(SignedZeckendorf::encode_quantized(i64::MIN).decode(), -196416);
}

#[test]
fn negation_cancels_everywhere() {
    for q in [1i64, 37, 200, 4095] {
        let a = SignedZeckendorf::encode_quantized(q);
        let b = SignedZeckendorf::encode_quantized(-q);
        assert_eq!((a.pos, a.neg), (b.neg, b.pos));
        let r = a.signed_resonance(&b);
        assert_eq!(r.agreement, 0);
        assert_eq!(r.cancellation, a.pos | a.neg);
        assert_eq!(r.net_resonance, -(a.active_count() as i32));
        let s = a.signed_resonance(&a);
        assert_eq!(s.cancellation, 0);
        assert_eq!(s.agreement_count, a.active_count());
        assert_eq!(s.one_sided, 0);
    }
}

#[test]
fn pentagroup_fingerprint_and_cost() {
    let pg = PentaGroup::encode_quantized(&[128, -77, 205, -26, 0]);
    assert_eq!(pg.fingerprint(), 0x0ffffb7af6ebed77);
    assert_eq!(pg.bit_cost(), 24);
    let same = pg.group_resonance(&pg);
    assert_eq!(same.cancellation, 0);
    assert_eq!(same.agreement, 12);
    assert_eq!(same.net_resonance, 12);
    let neg = PentaGroup::encode_quantized(&[-128, 77, -205, 26, 0]);
    let opposite = pg.group_resonance(&neg);
    assert_eq!((opposite.agreement, opposite.cancellation, opposite.net_resonance), (0, 12, -12));
}

#[test]
fn fibvec_pads_to_groups_of_five() {
    let v = FibVec10K::from_quantized(&[1, 2, 3, 4, 5, 6, 7]);
    assert_eq!(v.n_groups(), 2);
    assert_eq!(v.n_dims(), 10);
    assert_eq!(v.groups[1].dims[1].decode(), 7);
    assert_eq!(v.groups[1].dims[2].decode(), 0);
    assert_eq!(v.groups[1].dims[4].decode(), 0);
    let empty = FibVec10K::from_quantized(&[]);
    assert_eq!(empty.n_groups(), 0);
    assert_eq!(empty.total_bits(), 0);
}

#[test]
fn fibvec_counts_per_scale() {
    let a = FibVec10K::from_quantized(&[10, -10, 3, 0, 0]);
    let b = FibVec10K::from_quantized(&[10, 10, 3, 5, 0, 1]);
    let r = a.resonance_counts(&b);
    // 10 = fib(4) + fib(1); 3 = fib(2)
    assert_eq!(r.n_groups, 1);
    assert_eq!(r.total_agreement, 3);
    assert_eq!(r.total_cancellation, 2);
    assert_eq!(r.net_resonance, 1);
    assert_eq!(r.scale_agreement[4], 1);
    assert_eq!(r.scale_agreement[1], 1);
    assert_eq!(r.scale_agreement[2], 1);
    assert_eq!(r.scale_cancellation[4], 1);
    assert_eq!(r.scale_cancellation[1], 1);
    assert_eq!(r.scale_agreement.len(), 24);
}

#[test]
fn signed_encoding_laws() {
    for q in [-121392i64, -5000, -1, 0, 1, 77, 121392] {
        let z = SignedZeckendorf::encode_quantized(q);
        assert_eq!(z.pos & z.neg, 0);
        let active = z.pos | z.neg;
        assert_eq!(active & (active >> 1), 0);
    }
    let a = SignedZeckendorf::encode_quantized(37);
    let b = SignedZeckendorf::encode_quantized(-12);
    let ab = a.signed_resonance(&b);
    let ba = b.signed_resonance(&a);
    assert_eq!((ab.agreement, ab.cancellation), (ba.agreement, ba.cancellation));
    assert_eq!(ab.cancellation, a.pos & b.neg);
}

#[test]
fn negation_swaps_sign_planes() {
    for q in [1i64, 37, 4095, 196416, 1 << 20, i64::MAX] {
        let a = SignedZeckendorf::encode_quantized(q);
        let b = SignedZeckendorf::encode_quantized(-q);
        assert_eq!((b.pos, b.neg, b.max_scale), (a.neg, a.pos, a.max_scale));
    }
    let a = SignedZeckendorf::encode_quantized(i64::MAX);
    let b = SignedZeckendorf::encode_quantized(i64::MIN);
    assert_eq!((b.pos, b.neg, b.max_scale), (a.neg, a.pos, a.max_scale));
    assert_eq!(a.pos, (1 << 24) - 1);
}

#[test]
fn negated_vector_cancels_everywhere() {
    let values: Vec<i64> = (0..23i64).map(|i| (i * 7919) % 513 - 256).collect();
    let negated: Vec<i64> = values.iter().map(|&v| -v).collect();
    let x = FibVec10K::from_quantized(&values);
    let y = FibVec10K::from_quantized(&negated);
    let r = x.resonance_counts(&y);
    assert_eq!(r.n_groups, x.n_groups());
    assert_eq!(r.total_agreement, 0);
    assert!(r.scale_agreement.iter().all(|&c| c == 0));
    assert_eq!(2 * r.total_cancellation, x.total_bits());
    assert_eq!(r.net_resonance, -(r.total_cancellation as i64));
}
