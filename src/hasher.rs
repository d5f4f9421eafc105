use vstd::prelude::*;

use crate::random::{mix, mix_hash};

verus! {

/// A hash function on byte strings, with a batch mode over all windows of a text.
pub trait Hasher: Sized {
    type Out: Copy + Default;

    /// The digest of a byte string.
    spec fn hash_spec(&self, t: Seq<u8>) -> Self::Out;

    /// Holds of a hasher whose batch mode can run.
    spec fn wf(&self) -> bool;

    /// How many digests `hash_kmers` yields for a text of length `n` and windows of length `k`.
    spec fn num_digests(&self, n: nat, k: nat) -> nat;

    fn hash(&self, t: &[u8]) -> (r: Self::Out)
        ensures
            r == self.hash_spec(t@),
    ;

    /// The digests of the windows of length `k` of `t`, left to right.
    fn hash_kmers(&self, k: usize, t: &[u8]) -> (r: Vec<Self::Out>)
        requires
            self.wf(),
            0 < k <= t@.len(),
        ensures
            r@.len() == self.num_digests(t@.len(), k as nat),
            forall|i: int|
                0 <= i < r@.len() ==> #[trigger] r@[i] == self.hash_spec(t@.subrange(i, i + k)),
    ;
}

/// The windows of length `k` of a text: the count `n - k + 1`.
pub open spec fn num_windows(n: nat, k: nat) -> nat {
    (n - k + 1) as nat
}

/// The multiplicative hash of `random`, one window at a time.
#[derive(Clone, Copy, Debug)]
pub struct MixHash;

impl Hasher for MixHash {
    type Out = usize;

    open spec fn hash_spec(&self, t: Seq<u8>) -> usize {
        mix_hash(t)
    }

    open spec fn wf(&self) -> bool {
        true
    }

    open spec fn num_digests(&self, n: nat, k: nat) -> nat {
        num_windows(n, k)
    }

    fn hash(&self, t: &[u8]) -> (r: usize) {
        mix(t)
    }

    fn hash_kmers(&self, k: usize, t: &[u8]) -> (r: Vec<usize>) {
        let len = t.len();
        let n = len - k + 1;
        let mut out: Vec<usize> = Vec::new();
        let mut i: usize = 0;
        while i < n
            invariant
                len == t@.len(),
                0 < k <= len,
                n == len - k + 1,
                i <= n,
                out@.len() == i,
                forall|j: int|
                    0 <= j < i ==> #[trigger] out@[j] == mix_hash(t@.subrange(j, j + k)),
            decreases n - i,
        {
            out.push(mix(vstd::slice::slice_subrange(t, i, i + k)));
            i = i + 1;
        }
        out
    }
}

/// Collects the inner hasher's digests into one buffer before handing them out.
#[derive(Clone, Copy, Debug)]
pub struct Buffer<H> {
    pub hasher: H,
}

impl<H: Hasher> Hasher for Buffer<H> {
    type Out = H::Out;

    open spec fn hash_spec(&self, t: Seq<u8>) -> H::Out {
        self.hasher.hash_spec(t)
    }

    open spec fn wf(&self) -> bool {
        self.hasher.wf()
    }

    open spec fn num_digests(&self, n: nat, k: nat) -> nat {
        self.hasher.num_digests(n, k)
    }

    fn hash(&self, t: &[u8]) -> (r: H::Out) {
        self.hasher.hash(t)
    }

    fn hash_kmers(&self, k: usize, t: &[u8]) -> (r: Vec<H::Out>) {
        let it = self.hasher.hash_kmers(k, t);
        let mut out: Vec<H::Out> = Vec::with_capacity(it.len());
        let mut i: usize = 0;
        while i < it.len()
            invariant
                i <= it@.len(),
                out@ == it@.subrange(0, i as int),
            decreases it@.len() - i,
        {
            out.push(it[i]);
            i = i + 1;
        }
        assert(out@ =~= it@);
        out
    }
}

/// Fills a buffer of exactly `n - k + 1` slots, one slot per window, each written once.
#[derive(Clone, Copy, Debug)]
pub struct Buffer2<H> {
    pub hasher: H,
}

impl<H: Hasher> Hasher for Buffer2<H> {
    type Out = H::Out;

    open spec fn hash_spec(&self, t: Seq<u8>) -> H::Out {
        self.hasher.hash_spec(t)
    }

    open spec fn wf(&self) -> bool {
        self.hasher.wf()
    }

    open spec fn num_digests(&self, n: nat, k: nat) -> nat {
        num_windows(n, k)
    }

    fn hash(&self, t: &[u8]) -> (r: H::Out) {
        self.hasher.hash(t)
    }

    fn hash_kmers(&self, k: usize, t: &[u8]) -> (r: Vec<H::Out>) {
        let tlen = t.len();
        let len = tlen - k + 1;
        let mut v: Vec<H::Out> = vec![H::Out::default(); len];
        let mut i: usize = 0;
        while i < len
            invariant
                tlen == t@.len(),
                0 < k <= t@.len(),
                len == t@.len() - k + 1,
                i <= len,
                v@.len() == len,
                forall|j: int|
                    0 <= j < i ==> #[trigger] v@[j] == self.hasher.hash_spec(t@.subrange(j, j + k)),
            decreases len - i,
        {
            v.set(i, self.hasher.hash(vstd::slice::slice_subrange(t, i, i + k)));
            i = i + 1;
        }
        v
    }
}

/// The windows that the two-way split covers: the largest even count not above `n - k + 1`.
pub open spec fn num_split_windows(n: nat, k: nat) -> nat {
    (2 * (num_windows(n, k) / 2)) as nat
}

/// The two-way split keeps every window when their count is even, and drops only the last
/// one when it is odd.
pub proof fn lemma_split_count(n: nat, k: nat)
    requires
        0 < k <= n,
    ensures
        num_windows(n, k) % 2 == 0 ==> num_split_windows(n, k) == num_windows(n, k),
        num_windows(n, k) % 2 == 1 ==> num_split_windows(n, k) == num_windows(n, k) - 1,
{
}

/// Splits the windows into two halves of `(n - k + 1) / 2` each, hashes each half from its
/// own slice of the text, and joins the results; for an odd count the last window is left
/// out.
#[derive(Clone, Copy, Debug)]
pub struct BufferDouble<H> {
    pub hasher: H,
}

impl<H: Hasher> BufferDouble<H> {
    /// Digests of the windows of `t[start..start + part_len]`, with the inner hasher's
    /// count checked.
    fn hash_part(&self, k: usize, t: &[u8], start: usize, part_len: usize) -> (r: Vec<H::Out>)
        requires
            self.wf(),
            0 < k <= part_len,
            start + part_len <= t@.len(),
        ensures
            r@.len() == part_len - k + 1,
            forall|i: int|
                0 <= i < r@.len() ==> #[trigger] r@[i] == self.hasher.hash_spec(
                    t@.subrange(start + i, start + i + k),
                ),
    {
        let tlen = t.len();
        let part = vstd::slice::slice_subrange(t, start, start + part_len);
        let r = self.hasher.hash_kmers(k, part);
        assert forall|i: int| 0 <= i < r@.len() implies #[trigger] r@[i] == self.hasher.hash_spec(
            t@.subrange(start + i, start + i + k),
        ) by {
            assert(part@.subrange(i, i + k) =~= t@.subrange(start + i, start + i + k));
        }
        r
    }
}

impl<H: Hasher> Hasher for BufferDouble<H> {
    type Out = H::Out;

    open spec fn hash_spec(&self, t: Seq<u8>) -> H::Out {
        self.hasher.hash_spec(t)
    }

    /// Each half needs one digest per window from the inner hasher.
    open spec fn wf(&self) -> bool {
        &&& self.hasher.wf()
        &&& forall|n: nat, k: nat| #[trigger] self.hasher.num_digests(n, k) == num_windows(n, k)
    }

    open spec fn num_digests(&self, n: nat, k: nat) -> nat {
        num_split_windows(n, k)
    }

    fn hash(&self, t: &[u8]) -> (r: H::Out) {
        self.hasher.hash(t)
    }

    fn hash_kmers(&self, k: usize, t: &[u8]) -> (r: Vec<H::Out>) {
        let num_kmers = t.len() - k + 1;
        let kmers_per_part = num_kmers / 2;
        let mut v: Vec<H::Out> = vec![H::Out::default(); 2 * kmers_per_part];
        if kmers_per_part == 0 {
            return v;
        }
        let part_len = kmers_per_part + k - 1;
        let h0 = self.hash_part(k, t, 0, part_len);
        let h1 = self.hash_part(k, t, kmers_per_part, part_len);
        let mut i: usize = 0;
        while i < kmers_per_part
            invariant
                h0@.len() == kmers_per_part,
                h1@.len() == kmers_per_part,
                v@.len() == 2 * kmers_per_part,
                2 * kmers_per_part <= usize::MAX,
                i <= kmers_per_part,
                forall|j: int|
                    0 <= j < i ==> #[trigger] v@[j] == h0@[j],
                forall|j: int|
                    0 <= j < i ==> #[trigger] v@[kmers_per_part + j] == h1@[j],
            decreases kmers_per_part - i,
        {
            v.set(i, h0[i]);
            v.set(kmers_per_part + i, h1[i]);
            i = i + 1;
        }
        assert forall|j: int| 0 <= j < v@.len() implies #[trigger] v@[j] == self.hasher.hash_spec(
            t@.subrange(j, j + k),
        ) by {
            if j >= kmers_per_part {
                assert(v@[kmers_per_part + (j - kmers_per_part)] == h1@[j - kmers_per_part]);
            }
        }
        v
    }
}

} // verus!
