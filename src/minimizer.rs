use vstd::prelude::*;

use crate::order::{Order, ToOrder};

verus! {

/// Index of the leftmost smallest element, found by a scan from the left.
pub open spec fn first_min(s: Seq<usize>) -> int
    decreases s.len(),
{
    if s.len() <= 1 {
        0
    } else {
        let m = first_min(s.drop_last());
        if s.last() < s[m] {
            s.len() - 1
        } else {
            m
        }
    }
}

/// `x` holds a smallest element of `s`, and every element before it is larger.
pub open spec fn is_first_min(s: Seq<usize>, x: int) -> bool {
    &&& 0 <= x < s.len()
    &&& forall|y: int| 0 <= y < s.len() ==> s[x] <= #[trigger] s[y]
    &&& forall|y: int| 0 <= y < x ==> s[x] < #[trigger] s[y]
}

/// The scan finds the leftmost smallest element.
pub proof fn lemma_first_min(s: Seq<usize>)
    requires
        s.len() > 0,
    ensures
        is_first_min(s, first_min(s)),
    decreases s.len(),
{
    if s.len() > 1 {
        lemma_first_min(s.drop_last());
        assert(forall|y: int| 0 <= y < s.len() - 1 ==> s.drop_last()[y] == s[y]);
    }
}

/// Only one position is the leftmost smallest.
pub proof fn lemma_first_min_unique(s: Seq<usize>, x: int)
    requires
        is_first_min(s, x),
    ensures
        first_min(s) == x,
{
    lemma_first_min(s);
    let m = first_min(s);
    if m < x {
        assert(s[x] < s[m]);
    } else if x < m {
        assert(s[m] < s[x]);
    }
}

/// Leftmost tie-break: of two positions with equal keys, the later one is never chosen.
pub proof fn lemma_first_min_leftmost(s: Seq<usize>, x: int, y: int)
    requires
        0 <= x < y < s.len(),
        s[x] == s[y],
    ensures
        first_min(s) != y,
{
    lemma_first_min(s);
    if first_min(s) == y {
        assert(s[y] < s[x]);
    }
}

/// The queue `q[head..]` of candidate positions, among the positions `lo..end` of `ks`:
/// increasing positions, each no larger in key than any later position, and each strictly
/// smaller in key than every position between it and the previous candidate.
#[verifier::opaque]
pub open spec fn queue_ok(ks: Seq<usize>, q: Seq<usize>, head: int, lo: int, end: int) -> bool {
    &&& 0 <= head <= q.len()
    &&& 0 <= lo
    &&& end <= ks.len()
    &&& forall|a: int| head <= a < q.len() ==> lo <= #[trigger] q[a] < end
    &&& forall|a: int, b: int| head <= a < b < q.len() ==> #[trigger] q[a] < #[trigger] q[b]
    &&& forall|a: int, p: int|
        head <= a < q.len() && q[a] < p < end ==> ks[#[trigger] q[a] as int] <= #[trigger] ks[p]
    &&& forall|a: int, p: int|
        head <= a < q.len() && (if a == head { lo } else { q[a - 1] + 1 }) <= p < q[a]
            ==> ks[#[trigger] q[a] as int] < #[trigger] ks[p]
}

/// Drops from the back of the queue the candidates with a larger key than position `j`,
/// then appends `j`.
fn push_candidate(ks: &Vec<usize>, q: &mut Vec<usize>, head: usize, j: usize, Ghost(lo): Ghost<int>)
    requires
        j < ks@.len(),
        queue_ok(ks@, old(q)@, head as int, lo, j as int),
        old(q)@.len() == head ==> lo == j,
        old(q)@.len() > head ==> old(q)@[old(q)@.len() - 1] == j - 1,
    ensures
        queue_ok(ks@, final(q)@, head as int, lo, j + 1),
        final(q)@.len() > head,
        final(q)@[final(q)@.len() - 1] == j,
{
    reveal(queue_ok);
    let kj = ks[j];
    while q.len() > head && ks[q[q.len() - 1]] > kj
        invariant
            j < ks@.len(),
            kj == ks@[j as int],
            queue_ok(ks@, q@, head as int, lo, j as int),
            q@.len() > head ==> q@[q@.len() - 1] < j,
            forall|p: int|
                (if q@.len() > head { q@[q@.len() - 1] + 1 } else { lo }) <= p < j ==> kj
                    < #[trigger] ks@[p],
        decreases q@.len(),
    {
        reveal(queue_ok);
        let ghost oq = q@;
        let ghost last = q@.len() - 1;
        let ghost d = oq[last] as int;
        q.pop();
        proof {
            assert forall|p: int|
                (if q@.len() > head { q@[q@.len() - 1] + 1 } else { lo }) <= p < j implies kj
                    < #[trigger] ks@[p] by {
                if p < d {
                    assert(ks@[oq[last] as int] < ks@[p]);
                }
            }
            assert(q@ =~= oq.drop_last());
        }
    }
    proof {
        if q@.len() > head {
            let l = q@.len() - 1;
            assert forall|a: int| head <= a < q@.len() implies ks@[q@[a] as int] <= kj by {
                if a < l {
                    assert(q@[a] < q@[l]);
                    assert(ks@[q@[a] as int] <= ks@[q@[l] as int]);
                }
            }
        }
    }
    q.push(j);
}

/// Advances `head` past the candidates before position `i`; the front is then the leftmost
/// smallest key of `ks[i..=j]`.
fn drop_expired(ks: &Vec<usize>, q: &Vec<usize>, head: usize, i: usize, j: usize, Ghost(lo): Ghost<int>) -> (r: (usize, Ghost<int>))
    requires
        i <= j,
        lo <= i,
        queue_ok(ks@, q@, head as int, lo, j + 1),
        q@.len() > head,
        q@[q@.len() - 1] == j,
    ensures
        queue_ok(ks@, q@, r.0 as int, r.1@, j + 1),
        r.1@ <= i,
        r.0 < q@.len(),
        i <= q@[r.0 as int] <= j,
        forall|p: int| i <= p <= j ==> ks@[q@[r.0 as int] as int] <= #[trigger] ks@[p],
        forall|p: int| i <= p < q@[r.0 as int] ==> ks@[q@[r.0 as int] as int] < #[trigger] ks@[p],
{
    reveal(queue_ok);
    let mut head = head;
    let ghost mut lo = lo;
    let qlen = q.len();
    while q[head] < i
        invariant
            qlen == q@.len(),
            head < q@.len(),
            q@[q@.len() - 1] == j,
            i <= j,
            lo <= i,
            queue_ok(ks@, q@, head as int, lo, j + 1),
        decreases q@.len() - head,
    {
        reveal(queue_ok);
        let ghost old_head = head as int;
        proof {
            lo = q@[head as int] + 1;
        }
        head = head + 1;
        proof {
            assert forall|a: int| head <= a < q@.len() implies lo <= #[trigger] q@[a] by {
                assert(q@[old_head] < q@[a]);
            }
        }
    }
    let ghost f = q@[head as int] as int;
    assert forall|p: int| i <= p <= j implies ks@[f] <= #[trigger] ks@[p] by {
        if p < f {
            assert(ks@[f] < ks@[p]);
        }
    }
    (head, Ghost(lo))
}

/// Samples, for each window of `w + t - 1` bytes, the position of its smallest `t`-mer
/// under the order `o`, the leftmost one on ties.
#[derive(Clone, Debug)]
pub struct Minimizer<O> {
    /// The order on `t`-mers.
    pub o: O,
    /// The number of `t`-mers in a window.
    pub w: usize,
    /// The length of a `t`-mer.
    pub t: usize,
}

impl<O: Order<T = usize>> Minimizer<O> {
    /// The sampler's parameters fit together and the order is built for `t`-mers.
    pub open spec fn wf(&self) -> bool {
        &&& self.o.wf()
        &&& self.o.kmer_len() == self.t
        &&& 1 <= self.w
        &&& 1 <= self.t
        &&& self.w + self.t - 1 <= usize::MAX
    }

    /// The length of a window.
    pub open spec fn window_len(&self) -> nat {
        (self.w + self.t - 1) as nat
    }

    /// The keys of the `w` consecutive `t`-mers of `kmer`.
    pub open spec fn tmer_keys(&self, kmer: Seq<u8>) -> Seq<usize> {
        Seq::new(self.w as nat, |i: int| self.o.key_spec(kmer.subrange(i, i + self.t)))
    }

    /// The sampled position of a window.
    pub open spec fn sample_spec(&self, kmer: Seq<u8>) -> int {
        first_min(self.tmer_keys(kmer))
    }

    /// Of two offsets whose `t`-mers have equal keys, the later one is never sampled.
    pub proof fn lemma_sample_leftmost(&self, kmer: Seq<u8>, x: int, y: int)
        requires
            0 <= x < y < self.w,
            self.o.key_spec(kmer.subrange(x, x + self.t)) == self.o.key_spec(
                kmer.subrange(y, y + self.t),
            ),
        ensures
            self.sample_spec(kmer) != y,
    {
        lemma_first_min_leftmost(self.tmer_keys(kmer), x, y);
    }

    /// Builds the order on `t`-mers from `o` and wraps it.
    pub fn build_from_order<TO: ToOrder<O = O>>(o: &TO, w: usize, t: usize, sigma: usize) -> (r: Self)
        requires
            o.params_ok(w, t, sigma),
            1 <= w,
            1 <= t,
            w + t - 1 <= usize::MAX,
        ensures
            r.wf(),
            r.o == o.to_order_spec(w, t, sigma),
            r.w == w,
            r.t == t,
    {
        Minimizer { o: o.to_order(w, t, sigma), w, t }
    }

    /// The order on `t`-mers.
    pub fn ord(&self) -> (r: &O)
        ensures
            r == &self.o,
    {
        &self.o
    }

    /// The offset of the leftmost smallest `t`-mer of `kmer`.
    pub fn sample(&self, kmer: &[u8]) -> (r: usize)
        requires
            self.wf(),
            kmer@.len() == self.window_len(),
        ensures
            r == self.sample_spec(kmer@),
            r < self.w,
    {
        let ghost keys = self.tmer_keys(kmer@);
        let mut best: usize = 0;
        let mut best_key: usize = self.o.key(vstd::slice::slice_subrange(kmer, 0, self.t));
        let mut i: usize = 1;
        assert(keys.take(1).len() == 1);
        while i < self.w
            invariant
                self.wf(),
                kmer@.len() == self.window_len(),
                keys == self.tmer_keys(kmer@),
                1 <= i <= self.w,
                best < i,
                best == first_min(keys.take(i as int)),
                best_key == keys[best as int],
            decreases self.w - i,
        {
            let key = self.o.key(vstd::slice::slice_subrange(kmer, i, i + self.t));
            proof {
                assert(keys.take(i as int + 1).drop_last() =~= keys.take(i as int));
            }
            if key < best_key {
                best = i;
                best_key = key;
            }
            i = i + 1;
        }
        assert(keys.take(self.w as int) =~= keys);
        best
    }

    /// A window's `t`-mer keys are a slice of the keys of all `t`-mers of the text.
    proof fn lemma_window(&self, text: Seq<u8>, ks: Seq<usize>, i: int, f: int)
        requires
            self.wf(),
            self.window_len() <= text.len(),
            ks.len() == text.len() - self.t + 1,
            forall|p: int|
                0 <= p < ks.len() ==> #[trigger] ks[p] == self.o.key_spec(
                    text.subrange(p, p + self.t),
                ),
            0 <= i,
            i + self.window_len() <= text.len(),
            i <= f < i + self.w,
            forall|p: int| i <= p < i + self.w ==> ks[f] <= #[trigger] ks[p],
            forall|p: int| i <= p < f ==> ks[f] < #[trigger] ks[p],
        ensures
            self.sample_spec(text.subrange(i, i + self.window_len())) == f - i,
    {
        let kmer = text.subrange(i, i + self.window_len());
        let keys = self.tmer_keys(kmer);
        assert forall|y: int| 0 <= y < self.w implies #[trigger] keys[y] == ks[i + y] by {
            assert(kmer.subrange(y, y + self.t) =~= text.subrange(i + y, i + y + self.t));
        }
        assert forall|y: int| 0 <= y < keys.len() implies keys[f - i] <= #[trigger] keys[y] by {
            assert(ks[f] <= ks[i + y]);
        }
        assert forall|y: int| 0 <= y < f - i implies keys[f - i] < #[trigger] keys[y] by {
            assert(ks[f] < ks[i + y]);
        }
        lemma_first_min_unique(keys, f - i);
    }

    /// The sampled offset of every window of `text`, left to right. A queue of candidate
    /// positions, whose keys do not decrease from front to back, makes each step cost
    /// amortised constant time.
    #[verifier::rlimit(50)]
    pub fn stream(&self, text: &[u8]) -> (r: Vec<usize>)
        requires
            self.wf(),
            self.window_len() <= text@.len(),
        ensures
            r@.len() == text@.len() - self.window_len() + 1,
            forall|i: int|
                0 <= i < r@.len() ==> #[trigger] r@[i] == self.sample_spec(
                    text@.subrange(i, i + self.window_len()),
                ),
    {
        let w = self.w;
        let ks = self.o.keys(text, self.t);
        let nt = ks.len();
        let mut q: Vec<usize> = Vec::new();
        let mut head: usize = 0;
        let mut out: Vec<usize> = Vec::with_capacity(nt - w + 1);
        let ghost mut lo: int = 0;
        let mut j: usize = 0;
        proof {
            reveal(queue_ok);
        }
        while j < nt
            invariant
                self.wf(),
                w == self.w,
                self.window_len() <= text@.len(),
                nt == ks@.len(),
                ks@.len() == text@.len() - self.t + 1,
                forall|p: int|
                    0 <= p < ks@.len() ==> #[trigger] ks@[p] == self.o.key_spec(
                        text@.subrange(p, p + self.t),
                    ),
                j <= nt,
                queue_ok(ks@, q@, head as int, lo, j as int),
                lo == 0 || lo <= j - w,
                j == 0 ==> q@.len() == head && lo == 0,
                j > 0 ==> q@.len() > head && q@[q@.len() - 1] == j - 1,
                j < w ==> out@.len() == 0,
                j >= w ==> out@.len() == j - w + 1,
                forall|x: int|
                    0 <= x < out@.len() ==> #[trigger] out@[x] == self.sample_spec(
                        text@.subrange(x, x + self.window_len()),
                    ),
            decreases nt - j,
        {
            push_candidate(&ks, &mut q, head, j, Ghost(lo));
            if j + 1 >= w {
                let i = j + 1 - w;
                let (h, Ghost(l)) = drop_expired(&ks, &q, head, i, j, Ghost(lo));
                head = h;
                proof {
                    lo = l;
                }
                let f = q[head];
                proof {
                    self.lemma_window(text@, ks@, i as int, f as int);
                }
                out.push(f - i);
            }
            j = j + 1;
        }
        out
    }
}

} // verus!
