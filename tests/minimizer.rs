use minimizers::minimizer::Minimizer;
use minimizers::order::Order;
use minimizers::random::{mix, RandomO, RandomOrder, MIX_MUL, MIX_SEED};

fn text(n: usize, seed: u64) -> Vec<u8> {
    let mut x = seed;
    (0..n)
        .map(|_| {
            x = x.wrapping_mul(6364136223846793005).wrapping_add(1442695040888963407);
            (x >> 56) as u8 & 3
        })
        .collect()
}

fn naive(m: &Minimizer<RandomOrder>, kmer: &[u8]) -> usize {
    let keys: Vec<usize> = (0..m.w).map(|i| m.o.key(&kmer[i..i + m.t])).collect();
    let mut best = 0;
    for i in 1..keys.len() {
        if keys[i] < keys[best] {
            best = i;
        }
    }
    best
}

#[test]
fn mix_of_known_inputs() {
    assert_eq!(mix(&[]), MIX_SEED);
    assert_eq!(mix(&[7]), MIX_SEED.wrapping_mul(MIX_MUL).wrapping_add(7));
    assert_eq!(
        mix(&[1, 2]),
        MIX_SEED.wrapping_mul(MIX_MUL).wrapping_add(1).wrapping_mul(MIX_MUL).wrapping_add(2)
    );
    assert_ne!(mix(&[1, 2]), mix(&[2, 1]));
}

#[test]
fn equal_keys_sample_leftmost() {
    let m = Minimizer::build_from_order(&RandomO, 5, 3, 4);
    let kmer = vec![2u8; 7];
    assert_eq!(m.sample(&kmer), 0);
    assert_eq!(m.stream(&vec![2u8; 20]), vec![0; 14]);
}

#[test]
fn repeated_tmer_takes_first_copy() {
    let m = Minimizer::build_from_order(&RandomO, 6, 2, 4);
    let kmer = [1u8, 2, 1, 2, 1, 2, 1];
    let k12 = m.o.key(&[1, 2]);
    let k21 = m.o.key(&[2, 1]);
    let want = if k12 <= k21 { 0 } else { 1 };
    assert_eq!(m.sample(&kmer), want);
}

#[test]
fn sample_is_leftmost_min() {
    let m = Minimizer::build_from_order(&RandomO, 7, 4, 4);
    for seed in 0..100 {
        let kmer = text(10, seed);
        assert_eq!(m.sample(&kmer), naive(&m, &kmer));
    }
}

#[test]
fn stream_matches_sample() {
    for (w, t) in [(1usize, 1usize), (1, 5), (4, 1), (7, 4), (12, 3)] {
        let m = Minimizer::build_from_order(&RandomO, w, t, 4);
        let k = w + t - 1;
        for seed in 0..5 {
            let s = text(200, seed);
            let xs = m.stream(&s);
            assert_eq!(xs.len(), 200 - k + 1);
            for (i, x) in xs.iter().enumerate() {
                assert_eq!(*x, naive(&m, &s[i..i + k]));
                assert_eq!(*x, m.sample(&s[i..i + k]));
            }
        }
    }
}

#[test]
fn stream_on_exact_window() {
    let m = Minimizer::build_from_order(&RandomO, 7, 4, 4);
    let s = text(10, 42);
    assert_eq!(m.stream(&s), vec![m.sample(&s)]);
}

#[test]
fn ord_is_the_tmer_order() {
    let m = Minimizer::build_from_order(&RandomO, 7, 4, 4);
    assert_eq!(m.ord().k, 4);
}
