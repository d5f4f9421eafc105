use minimizers::open_closed::{OpenClosed, OpenClosedO};
use minimizers::order::{Order, ToOrder};
use minimizers::random::{RandomO, RandomOrder};

fn text(n: usize, seed: u64) -> Vec<u8> {
    let mut x = seed;
    (0..n)
        .map(|_| {
            x = x.wrapping_mul(6364136223846793005).wrapping_add(1442695040888963407);
            b"ACGT"[(x >> 60) as usize & 3]
        })
        .collect()
}

fn scenario() -> OpenClosedO<RandomOrder> {
    let mut c = OpenClosed::default(4);
    c.offset = Some(3);
    c.open = true;
    c.closed = false;
    c.modulo = false;
    c.open_by_tmer = false;
    c.to_order(7, 10, 4)
}

#[test]
fn default_has_every_flag_off() {
    let c = OpenClosed::default(5);
    assert_eq!(c.r, 5);
    assert!(!c.open && !c.closed && !c.modulo && !c.anti_tmer);
    assert!(!c.open_by_tmer && !c.closed_by_tmer && !c.other_by_tmer);
    assert_eq!(c.offset, None);
}

#[test]
fn to_order_copies_parameters() {
    let o = scenario();
    assert_eq!((o.r, o.w, o.k, o.offset), (4, 7, 10, 3));
    assert_eq!((o.m.w, o.m.t), (7, 4));
    assert!(o.open && !o.closed);
}

#[test]
fn default_offset_is_the_middle() {
    let c = OpenClosed::default(4);
    assert_eq!(c.to_order(7, 10, 4).offset, 3);
    let mut m = OpenClosed::default(4);
    m.modulo = true;
    // (10 - 4) % 4 / 2 % 4
    assert_eq!(m.to_order(4, 10, 4).offset, 1);
    m.offset = Some(9);
    assert_eq!(m.to_order(4, 10, 4).offset, 1);
}

#[test]
fn scenario_offset_three_is_open() {
    let o = scenario();
    let kmer = text(10, 1);
    assert_eq!(o.inner_key(&kmer, 3), (0, 0));
    assert_eq!(o.inner_key(&kmer, 0), (2, 0));
    assert_eq!(o.inner_key(&kmer, 6), (2, 0));
    assert_eq!(o.inner_key(&kmer, 2), (2, 0));
}

#[test]
fn scenario_key_follows_sampled_offset() {
    let o = scenario();
    let mut seen = [false; 7];
    for seed in 0..200 {
        let kmer = text(10, seed);
        let x = o.m.sample(&kmer);
        seen[x] = true;
        let want = if x == 3 { (0, 0) } else { (2, 0) };
        assert_eq!(o.key(&kmer), want);
    }
    assert!(seen[0] && seen[3] && seen[6]);
}

#[test]
fn open_wins_over_closed() {
    let mut c = OpenClosed::default(4);
    c.open = true;
    c.closed = true;
    c.offset = Some(0);
    c.open_by_tmer = false;
    c.closed_by_tmer = true;
    let o = c.to_order(7, 10, 4);
    let kmer = text(10, 3);
    assert_eq!(o.inner_key(&kmer, 0), (0, 0));
    assert_eq!(o.inner_key(&kmer, 6).0, 1);
    assert_eq!(o.inner_key(&kmer, 3).0, 2);
}

#[test]
fn closed_windows_at_both_ends() {
    let mut c = OpenClosed::default(4);
    c.closed = true;
    let o = c.to_order(7, 10, 4);
    let kmer = text(10, 4);
    assert_eq!(o.inner_key(&kmer, 0).0, 1);
    assert_eq!(o.inner_key(&kmer, 6).0, 1);
    assert_eq!(o.inner_key(&kmer, 1).0, 2);
}

#[test]
fn anti_tmer_complements_the_key() {
    let mut c = OpenClosed::default(4);
    c.anti_tmer = true;
    let o = c.to_order(7, 10, 4);
    let kmer = text(10, 5);
    let inner = RandomOrder { k: 4 };
    for x in 0..=6 {
        let key = inner.key(&kmer[x..x + 4]);
        assert_eq!(o.inner_key(&kmer, x), (2, !key));
    }
}

#[test]
fn by_tmer_uses_the_key() {
    let mut c = OpenClosed::default(4);
    c.other_by_tmer = true;
    c.anti_tmer = true;
    let o = c.to_order(7, 10, 4);
    let kmer = text(10, 6);
    let key = RandomOrder { k: 4 }.key(&kmer[2..6]);
    assert_eq!(o.inner_key(&kmer, 2), (2, key));
}

#[test]
fn no_flags_is_all_other() {
    let o = OpenClosed::default(4).to_order(7, 10, 4);
    let t = text(50, 7);
    assert!(o.keys(&t, 10).iter().all(|&k| k == (2, 0)));
}

#[test]
fn modulo_offset_repeats() {
    let mut c = OpenClosed::default(3);
    c.open = true;
    c.modulo = true;
    c.offset = Some(1);
    let o = c.to_order(3, 10, 4);
    let kmer = text(10, 8);
    for x in 0..=7 {
        let want = if x % 3 == 1 { 0 } else { 2 };
        assert_eq!(o.inner_key(&kmer, x).0, want);
    }
}

#[test]
fn keys_match_key_on_each_window() {
    let mut c = OpenClosed::default(4);
    c.open = true;
    c.closed = true;
    c.closed_by_tmer = true;
    c.anti_tmer = true;
    let o = c.to_order(7, 10, 4);
    let t = text(300, 9);
    let ks = o.keys(&t, 10);
    assert_eq!(ks.len(), 291);
    for (i, k) in ks.iter().enumerate() {
        assert_eq!(*k, o.key(&t[i..i + 10]));
    }
}

#[test]
fn keys_of_a_single_window() {
    let o = scenario();
    let t = text(10, 10);
    assert_eq!(o.keys(&t, 10), vec![o.key(&t)]);
}

#[test]
fn random_order_keys_match_key() {
    let o = RandomO.to_order(5, 4, 4);
    assert_eq!(o.k, 4);
    let t = text(40, 11);
    let ks = o.keys(&t, 4);
    assert_eq!(ks.len(), 37);
    for i in 0..37 {
        assert_eq!(ks[i], o.key(&t[i..i + 4]));
    }
}
