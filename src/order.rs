use vstd::prelude::*;

verus! {

/// A total preorder over windows of a fixed length: smaller keys are preferred.
pub trait Order: Sized {
    type T;

    /// Holds of every order built by a `ToOrder`.
    spec fn wf(&self) -> bool;

    /// The window length the order was built for.
    spec fn kmer_len(&self) -> nat;

    /// The key of one window.
    spec fn key_spec(&self, kmer: Seq<u8>) -> Self::T;

    fn key(&self, kmer: &[u8]) -> (r: Self::T)
        requires
            self.wf(),
            kmer@.len() == self.kmer_len(),
        ensures
            r == self.key_spec(kmer@),
    ;

    /// One key per window of length `k` of `text`, left to right.
    fn keys(&self, text: &[u8], k: usize) -> (r: Vec<Self::T>)
        requires
            self.wf(),
            k == self.kmer_len(),
            0 < k <= text@.len(),
        ensures
            r@.len() == text@.len() - k + 1,
            forall|i: int|
                0 <= i < r@.len() ==> #[trigger] r@[i] == self.key_spec(text@.subrange(i, i + k)),
    ;
}

/// A configuration from which an `Order` is built.
pub trait ToOrder: Sized {
    type O: Order;

    /// The parameters this configuration accepts.
    spec fn params_ok(&self, w: usize, k: usize, sigma: usize) -> bool;

    /// The order built from the parameters.
    spec fn to_order_spec(&self, w: usize, k: usize, sigma: usize) -> Self::O;

    fn to_order(&self, w: usize, k: usize, sigma: usize) -> (r: Self::O)
        requires
            self.params_ok(w, k, sigma),
        ensures
            r == self.to_order_spec(w, k, sigma),
            r.wf(),
            r.kmer_len() == k,
    ;
}

} // verus!
