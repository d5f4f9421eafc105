use minimizers::hasher::{Buffer, Buffer2, BufferDouble, Hasher, MixHash};

fn text(n: usize) -> Vec<u8> {
    (0..n).map(|i| (i * 7 % 11) as u8).collect()
}

fn direct(k: usize, t: &[u8]) -> Vec<usize> {
    t.windows(k).map(|w| MixHash.hash(w)).collect()
}

#[test]
fn mix_hash_kmers_hashes_each_window() {
    let t = text(30);
    assert_eq!(MixHash.hash_kmers(5, &t), direct(5, &t));
    assert_eq!(MixHash.hash_kmers(30, &t).len(), 1);
}

#[test]
fn buffer_keeps_digests() {
    let t = text(40);
    let b = Buffer { hasher: MixHash };
    assert_eq!(b.hash(&t[3..9]), MixHash.hash(&t[3..9]));
    assert_eq!(b.hash_kmers(6, &t), direct(6, &t));
}

#[test]
fn buffer2_fills_every_slot() {
    let t = text(40);
    let b = Buffer2 { hasher: MixHash };
    let v = b.hash_kmers(6, &t);
    assert_eq!(v.len(), 35);
    assert_eq!(v, direct(6, &t));
    assert_eq!(b.hash_kmers(40, &t), direct(40, &t));
}

#[test]
fn buffer_double_even_count() {
    let t = text(13);
    let v = BufferDouble { hasher: MixHash }.hash_kmers(4, &t);
    assert_eq!(v.len(), 10);
    assert_eq!(v, direct(4, &t));
}

#[test]
fn buffer_double_drops_last_of_odd_count() {
    let t = text(12);
    let all = direct(4, &t);
    assert_eq!(all.len(), 9);
    let v = BufferDouble { hasher: MixHash }.hash_kmers(4, &t);
    assert_eq!(v.len(), 8);
    assert_eq!(v[..], all[..8]);
    assert_eq!(v[..4], direct(4, &t[..7])[..]);
    assert_eq!(v[4..], direct(4, &t[4..11])[..]);
}

#[test]
fn buffer_double_single_window_is_empty() {
    let t = text(5);
    assert!(BufferDouble { hasher: MixHash }.hash_kmers(5, &t).is_empty());
}

#[test]
fn wrappers_compose() {
    let t = text(25);
    let b = BufferDouble { hasher: Buffer2 { hasher: Buffer { hasher: MixHash } } };
    assert_eq!(b.hash_kmers(3, &t), direct(3, &t)[..22].to_vec());
}

use minimizers::rolling::{RollHash, ROLL_BASE};

fn direct_roll(k: usize, t: &[u8]) -> Vec<u64> {
    t.windows(k).map(|w| RollHash.hash(w)).collect()
}

#[test]
fn roll_hash_known_values() {
    assert_eq!(RollHash.hash(&[]), 0);
    assert_eq!(RollHash.hash(&[9]), 9);
    assert_eq!(RollHash.hash(&[1, 2]), ROLL_BASE + 2);
    assert_eq!(
        RollHash.hash(&[3, 0, 5]),
        3u64.wrapping_mul(ROLL_BASE).wrapping_mul(ROLL_BASE).wrapping_add(5)
    );
}

#[test]
fn rolling_equals_from_scratch() {
    let t: Vec<u8> = (0..500).map(|i| (i * 131 % 251) as u8).collect();
    for k in [1usize, 2, 5, 31, 32, 33, 100, 500] {
        let v = RollHash.hash_kmers(k, &t);
        assert_eq!(v.len(), 500 - k + 1);
        assert_eq!(v, direct_roll(k, &t));
    }
}

#[test]
fn wrappers_over_rolling_hash() {
    let t: Vec<u8> = (0..64).map(|i| (255 - i * 3) as u8).collect();
    let all = direct_roll(7, &t);
    assert_eq!(Buffer { hasher: RollHash }.hash_kmers(7, &t), all);
    assert_eq!(Buffer2 { hasher: RollHash }.hash_kmers(7, &t), all);
    let v = BufferDouble { hasher: RollHash }.hash_kmers(7, &t);
    assert_eq!(v.len(), 58);
    assert_eq!(v[..], all[..58]);
}
