use pccc::{decoder, encoder, Bit, DecodingAlgo, Error, Interleaver, Trellis};
use pccc::decoder::{clamp_metric, constituent_decode, constituent_extrinsic, hard_decision, max_star, METRIC_BOUND};
use pccc::encoder::parity_run;
use rand::rngs::StdRng;
use rand::{Rng, SeedableRng};

const POLYS: [usize; 2] = [0o13, 0o15];
const LARGE: i32 = 64;

fn soft_bits(bits: &[Bit], magnitude: i32) -> Vec<i32> {
    bits.iter().map(|b| b.soft_value() * magnitude).collect()
}

fn random_bits(rng: &mut StdRng, n: usize) -> Vec<Bit> {
    (0..n).map(|_| Bit::from(rng.random::<bool>())).collect()
}

fn all_algos(iterations: u32) -> [DecodingAlgo; 3] {
    [
        DecodingAlgo::MaxLogMAP(iterations),
        DecodingAlgo::LinearLogMAP(iterations),
        DecodingAlgo::LogMAP(iterations),
    ]
}

fn is_permutation(perm: &[usize]) -> bool {
    let mut seen = vec![false; perm.len()];
    for &p in perm {
        if p >= perm.len() || seen[p] {
            return false;
        }
        seen[p] = true;
    }
    true
}

#[test]
fn bit_conversions() {
    assert_eq!(Bit::from(true), Bit::One);
    assert_eq!(Bit::from(false), Bit::Zero);
    assert!(bool::from(Bit::One));
    assert!(!bool::from(Bit::Zero));
    assert_eq!(Bit::Zero.soft_value(), 1);
    assert_eq!(Bit::One.soft_value(), -1);
}

#[test]
fn error_messages() {
    assert_eq!(Error::Unknown.message(), "Unknown error");
    assert_eq!(Error::InvalidInput("bad".to_string()).message(), "bad");
}

#[test]
fn trellis_of_lte_polynomials() {
    let t = Trellis::new(&POLYS).unwrap();
    assert_eq!(t.memory, 3);
    assert_eq!(t.num_states, 8);
    let expected_next_on_one = [4, 0, 1, 5, 6, 2, 3, 7];
    let expected_parity_on_one = [true, true, false, false, false, false, true, true];
    for s in 0..8 {
        assert_eq!(t.next_state(s, true), expected_next_on_one[s]);
        assert_eq!(t.parity(s, true), expected_parity_on_one[s]);
    }
    assert_eq!(t.next_state(0, false), 0);
    assert!(!t.parity(0, false));
}

#[test]
fn trellis_rejects_malformed_polynomials() {
    for polys in [vec![0o13], vec![0o13, 0o15, 0o17], vec![0, 0o15], vec![0o13, 0], vec![0o12, 0o15], vec![1 << 30 | 1, 3]] {
        assert!(matches!(Trellis::new(&polys), Err(Error::InvalidInput(_))));
    }
}

#[test]
fn long_register_polynomials_are_accepted() {
    let polys = [0o400001usize, 0o3];
    let t = Trellis::new(&polys).unwrap();
    assert_eq!(t.memory, 17);
    assert_eq!(t.num_states, 1 << 17);
    let bits = vec![Bit::One, Bit::Zero];
    let il = Interleaver::new(&[1, 0]).unwrap();
    let code = encoder(&bits, &il, &polys).unwrap();
    assert_eq!(code.len(), 6);
    let llrs = soft_bits(&code, LARGE);
    let out = decoder(&llrs, &il, &polys, DecodingAlgo::MaxLogMAP(1)).unwrap();
    assert_eq!(out.len(), 2);
}

#[test]
fn trellis_construction_is_deterministic() {
    let a = Trellis::new(&POLYS).unwrap();
    let b = Trellis::new(&POLYS).unwrap();
    assert_eq!(a.next_states, b.next_states);
    assert_eq!(a.parity_bits, b.parity_bits);
    assert_eq!(a.num_states, b.num_states);
}

#[test]
fn parity_run_of_short_input() {
    let t = Trellis::new(&POLYS).unwrap();
    assert_eq!(parity_run(&t, &[false, true, true, false]), vec![false, true, false, false]);
}

#[test]
fn interleaver_from_explicit_permutation() {
    let il = Interleaver::new(&[2, 0, 1]).unwrap();
    assert_eq!(il.length, 3);
    assert_eq!(il.interleave(&['a', 'b', 'c']).unwrap(), vec!['c', 'a', 'b']);
    assert_eq!(il.deinterleave(&['c', 'a', 'b']).unwrap(), vec!['a', 'b', 'c']);
    assert_eq!(il.inverse, vec![1, 2, 0]);
}

#[test]
fn interleaver_rejects_non_bijections() {
    for perm in [vec![], vec![0, 0, 1], vec![0, 3, 1], vec![1, 1]] {
        assert!(matches!(Interleaver::new(&perm), Err(Error::InvalidInput(_))));
    }
}

#[test]
fn interleave_rejects_wrong_length() {
    let il = Interleaver::new(&[1, 0]).unwrap();
    assert!(matches!(il.interleave(&[1, 2, 3]), Err(Error::InvalidInput(_))));
    assert!(matches!(il.deinterleave(&[1]), Err(Error::InvalidInput(_))));
}

#[test]
fn interleaver_round_trip() {
    for n in [1usize, 2, 16, 64, 4096] {
        let il = Interleaver::random(n);
        assert!(is_permutation(&il.perm));
        let x: Vec<u64> = (0..n as u64).map(|i| i * 7 + 3).collect();
        let y = il.interleave(&x).unwrap();
        assert_eq!(il.deinterleave(&y).unwrap(), x);
        let z = il.deinterleave(&x).unwrap();
        assert_eq!(il.interleave(&z).unwrap(), x);
        for i in 0..n {
            assert_eq!(y[i], x[il.perm[i]]);
        }
    }
}

#[test]
fn seeded_interleaver_is_reproducible() {
    let a = Interleaver::random_seeded(64, 7);
    let b = Interleaver::random_seeded(64, 7);
    assert_eq!(a.perm, b.perm);
    assert!(is_permutation(&a.perm));
    let identity: Vec<usize> = (0..64).collect();
    assert_ne!(a.perm, identity);
    let c = Interleaver::random_seeded(64, 8);
    assert_ne!(a.perm, c.perm);
}

#[test]
fn scenario_encode_and_decode() {
    let bits = vec![Bit::Zero, Bit::One, Bit::One, Bit::Zero];
    let il = Interleaver::new(&[0, 1, 2, 3]).unwrap();
    let code = encoder(&bits, &il, &POLYS).unwrap();
    let expected: Vec<Bit> = [0, 0, 0, 1, 1, 1, 1, 0, 0, 0, 0, 0]
        .iter()
        .map(|&b| Bit::from(b == 1))
        .collect();
    assert_eq!(code, expected);
    let llrs = soft_bits(&code, LARGE);
    for iterations in [1, 2, 8] {
        for algo in all_algos(iterations) {
            assert_eq!(decoder(&llrs, &il, &POLYS, algo).unwrap(), bits);
        }
    }
}

#[test]
fn encoding_is_deterministic() {
    let mut rng = StdRng::seed_from_u64(3);
    let bits = random_bits(&mut rng, 40);
    let il = Interleaver::random_seeded(40, 11);
    assert_eq!(encoder(&bits, &il, &POLYS).unwrap(), encoder(&bits, &il, &POLYS).unwrap());
}

#[test]
fn encoder_rejects_invalid_input() {
    let il = Interleaver::new(&[0, 1, 2]).unwrap();
    let bits = vec![Bit::One, Bit::Zero, Bit::One];
    assert!(matches!(encoder(&[], &il, &POLYS), Err(Error::InvalidInput(_))));
    assert!(matches!(encoder(&bits[..2], &il, &POLYS), Err(Error::InvalidInput(_))));
    assert!(matches!(encoder(&bits, &il, &[0o12, 0o15]), Err(Error::InvalidInput(_))));
    assert!(matches!(encoder(&bits, &il, &[0o13]), Err(Error::InvalidInput(_))));
    assert_eq!(encoder(&bits, &il, &POLYS).unwrap().len(), 9);
}

#[test]
fn noiseless_round_trip() {
    let mut rng = StdRng::seed_from_u64(0);
    for n in [1usize, 2, 16, 64, 4096] {
        let bits = random_bits(&mut rng, n);
        let il = Interleaver::random(n);
        let code = encoder(&bits, &il, &POLYS).unwrap();
        assert_eq!(code.len(), 3 * n);
        let llrs = soft_bits(&code, LARGE);
        let iterations = if n > 1000 { 2 } else { 8 };
        for algo in all_algos(iterations) {
            assert_eq!(decoder(&llrs, &il, &POLYS, algo).unwrap(), bits);
        }
    }
}

#[test]
fn noiseless_round_trip_other_polynomials() {
    let mut rng = StdRng::seed_from_u64(5);
    for polys in [[0o7usize, 0o5], [0o5, 0o7], [0o23, 0o35], [0o3, 0o1]] {
        let bits = random_bits(&mut rng, 32);
        let il = Interleaver::random_seeded(32, 9);
        let code = encoder(&bits, &il, &polys).unwrap();
        let llrs = soft_bits(&code, LARGE);
        for algo in all_algos(4) {
            assert_eq!(decoder(&llrs, &il, &polys, algo).unwrap(), bits);
        }
    }
}

#[test]
fn decoder_rejects_length_mismatch() {
    let il = Interleaver::new(&[1, 0, 3, 2]).unwrap();
    for len in [0usize, 1, 4, 11, 13, 24] {
        let llrs = vec![LARGE; len];
        assert!(matches!(decoder(&llrs, &il, &POLYS, DecodingAlgo::LogMAP(4)), Err(Error::InvalidInput(_))));
    }
    let llrs = vec![LARGE; 12];
    assert!(decoder(&llrs, &il, &POLYS, DecodingAlgo::LogMAP(4)).is_ok());
}

#[test]
fn decoder_rejects_bad_polynomials_and_zero_iterations() {
    let il = Interleaver::new(&[0, 1]).unwrap();
    let llrs = vec![LARGE; 6];
    assert!(matches!(decoder(&llrs, &il, &[0o12, 0o15], DecodingAlgo::MaxLogMAP(2)), Err(Error::InvalidInput(_))));
    assert!(matches!(decoder(&llrs, &il, &POLYS, DecodingAlgo::MaxLogMAP(0)), Err(Error::InvalidInput(_))));
}

#[test]
fn max_star_corrections() {
    assert_eq!(max_star(DecodingAlgo::MaxLogMAP(1), 5, -3), 5);
    assert_eq!(max_star(DecodingAlgo::LogMAP(1), 5, 5), 16);
    assert_eq!(max_star(DecodingAlgo::LogMAP(1), 0, 20), 24);
    assert_eq!(max_star(DecodingAlgo::LogMAP(1), 100, 0), 100);
    assert_eq!(max_star(DecodingAlgo::LinearLogMAP(1), 0, 0), 11);
    assert_eq!(max_star(DecodingAlgo::LinearLogMAP(1), 20, 0), 26);
    assert_eq!(max_star(DecodingAlgo::LinearLogMAP(1), 0, 44), 44);
    assert_eq!(max_star(DecodingAlgo::LogMAP(1), METRIC_BOUND, METRIC_BOUND), METRIC_BOUND);
}

#[test]
fn clamp_and_hard_decision() {
    assert_eq!(clamp_metric(METRIC_BOUND + 5), METRIC_BOUND);
    assert_eq!(clamp_metric(-METRIC_BOUND - 5), -METRIC_BOUND);
    assert_eq!(clamp_metric(-7), -7);
    assert_eq!(hard_decision(-1), Bit::One);
    assert_eq!(hard_decision(0), Bit::Zero);
    assert_eq!(hard_decision(3), Bit::Zero);
}

#[test]
fn constituent_extrinsic_of_single_step() {
    // One step from the zero state: input 0 sends parity 0, input 1 sends
    // parity 1, and every final state is allowed.
    let t = Trellis::new(&POLYS).unwrap();
    let ext = constituent_extrinsic(&t, &vec![0], &vec![10], DecodingAlgo::MaxLogMAP(1));
    assert_eq!(ext, vec![10]);
    let ext = constituent_extrinsic(&t, &vec![0], &vec![-6], DecodingAlgo::MaxLogMAP(1));
    assert_eq!(ext, vec![-6]);
}

#[test]
fn constituent_decode_single_step() {
    let t = Trellis::new(&POLYS).unwrap();
    let (post, ext) = constituent_decode(&t, &[4], &[10], &[2], DecodingAlgo::MaxLogMAP(1)).unwrap();
    assert_eq!(ext, vec![10]);
    assert_eq!(post, vec![16]);
}

#[test]
fn constituent_decode_rejects_length_mismatch() {
    let t = Trellis::new(&POLYS).unwrap();
    assert!(matches!(constituent_decode(&t, &[4, 1], &[10], &[2], DecodingAlgo::LogMAP(1)), Err(Error::InvalidInput(_))));
    assert!(matches!(constituent_decode(&t, &[4], &[10], &[], DecodingAlgo::LogMAP(1)), Err(Error::InvalidInput(_))));
}

fn gaussian(rng: &mut StdRng) -> f64 {
    let u1: f64 = 1.0 - rng.random::<f64>();
    let u2: f64 = rng.random::<f64>();
    (-2.0 * u1.ln()).sqrt() * (2.0 * std::f64::consts::PI * u2).cos()
}

#[test]
fn approximation_ordering_on_noisy_channel() {
    let mut rng = StdRng::seed_from_u64(2024);
    let n = 128;
    let ebn0_db: f64 = 0.5;
    let rate = 1.0 / 3.0;
    let sigma2 = 1.0 / (2.0 * rate * 10f64.powf(ebn0_db / 10.0));
    let mut errors = [0usize; 3];
    for trial in 0..150u64 {
        let bits = random_bits(&mut rng, n);
        let il = Interleaver::random_seeded(n, trial);
        let code = encoder(&bits, &il, &POLYS).unwrap();
        let llrs: Vec<i32> = code
            .iter()
            .map(|b| {
                let y = b.soft_value() as f64 + sigma2.sqrt() * gaussian(&mut rng);
                (16.0 * y / sigma2).round() as i32
            })
            .collect();
        for (k, algo) in all_algos(4).into_iter().enumerate() {
            let out = decoder(&llrs, &il, &POLYS, algo).unwrap();
            errors[k] += out.iter().zip(bits.iter()).filter(|(a, b)| a != b).count();
        }
    }
    assert!(errors[0] >= errors[1], "{errors:?}");
    assert!(errors[1] >= errors[2], "{errors:?}");
}
