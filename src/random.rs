use vstd::prelude::*;
use vstd::wrapping::usize_specs;

use crate::order::{Order, ToOrder};

verus! {

/// Multiplier of the multiplicative hash behind `RandomOrder`.
pub const MIX_MUL: usize = 0x9E37_79B9;

/// Starting value of the multiplicative hash behind `RandomOrder`.
pub const MIX_SEED: usize = 0x5171;

/// One step of the hash: fold one byte into the running value, modulo the word size.
pub open spec fn mix_step(h: usize, b: u8) -> usize {
    usize_specs::wrapping_add(usize_specs::wrapping_mul(h, MIX_MUL), b as usize)
}

/// The hash of a byte string, folded from the left.
pub open spec fn mix_hash(s: Seq<u8>) -> usize
    decreases s.len(),
{
    if s.len() == 0 {
        MIX_SEED
    } else {
        mix_step(mix_hash(s.drop_last()), s.last())
    }
}

/// Configuration of a pseudo-random order: windows are compared by a hash of their bytes.
#[derive(Clone, Copy, Debug)]
pub struct RandomO;

/// A pseudo-random order over windows of length `k`.
#[derive(Clone, Copy, Debug)]
pub struct RandomOrder {
    pub k: usize,
}

/// The hash of `kmer`, one byte at a time.
pub fn mix(kmer: &[u8]) -> (r: usize)
    ensures
        r == mix_hash(kmer@),
{
    let mut h: usize = MIX_SEED;
    let mut i: usize = 0;
    while i < kmer.len()
        invariant
            i <= kmer@.len(),
            h == mix_hash(kmer@.subrange(0, i as int)),
        decreases kmer@.len() - i,
    {
        proof {
            let s = kmer@.subrange(0, i as int + 1);
            assert(s.drop_last() =~= kmer@.subrange(0, i as int));
        }
        h = h.wrapping_mul(MIX_MUL).wrapping_add(kmer[i] as usize);
        i = i + 1;
    }
    assert(kmer@.subrange(0, i as int) =~= kmer@);
    h
}

impl Order for RandomOrder {
    type T = usize;

    open spec fn wf(&self) -> bool {
        true
    }

    open spec fn kmer_len(&self) -> nat {
        self.k as nat
    }

    open spec fn key_spec(&self, kmer: Seq<u8>) -> usize {
        mix_hash(kmer)
    }

    fn key(&self, kmer: &[u8]) -> (r: usize) {
        mix(kmer)
    }

    fn keys(&self, text: &[u8], k: usize) -> (r: Vec<usize>) {
        let len = text.len();
        let n = len - k + 1;
        let mut out: Vec<usize> = Vec::with_capacity(n);
        let mut i: usize = 0;
        while i < n
            invariant
                len == text@.len(),
                n == len - k + 1,
                0 < k <= text@.len(),
                i <= n,
                out@.len() == i,
                forall|j: int|
                    0 <= j < i ==> #[trigger] out@[j] == mix_hash(text@.subrange(j, j + k)),
            decreases n - i,
        {
            let kmer = vstd::slice::slice_subrange(text, i, i + k);
            out.push(mix(kmer));
            i = i + 1;
        }
        out
    }
}

impl ToOrder for RandomO {
    type O = RandomOrder;

    open spec fn params_ok(&self, w: usize, k: usize, sigma: usize) -> bool {
        true
    }

    open spec fn to_order_spec(&self, w: usize, k: usize, sigma: usize) -> RandomOrder {
        RandomOrder { k }
    }

    fn to_order(&self, w: usize, k: usize, sigma: usize) -> (r: RandomOrder) {
        RandomOrder { k }
    }
}

} // verus!
