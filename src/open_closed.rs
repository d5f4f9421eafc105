use vstd::prelude::*;

use crate::minimizer::Minimizer;
use crate::order::{Order, ToOrder};
use crate::random::RandomO;

verus! {

/// Configuration of open/closed syncmers: a window is classified by where its smallest
/// `r`-mer lies, then ordered by class and an optional `r`-mer tiebreak.
#[derive(Clone, Debug)]
pub struct OpenClosed<O> {
    pub r: usize,
    /// Do open syncmers first?
    pub open: bool,
    /// Do closed syncmers second?
    pub closed: bool,
    /// When set, open syncmers must have this offset instead of the middle one.
    pub offset: Option<usize>,
    /// When true, any position equal to the offset modulo `w` makes a window open.
    pub modulo: bool,
    pub open_by_tmer: bool,
    pub closed_by_tmer: bool,
    pub other_by_tmer: bool,
    pub anti_tmer: bool,
    /// The order on `r`-mers.
    pub o: O,
}

impl OpenClosed<RandomO> {
    /// Every flag off, no offset, and the pseudo-random order on `r`-mers.
    pub fn default(r: usize) -> (s: Self)
        ensures
            s == (OpenClosed {
                r,
                open: false,
                closed: false,
                offset: None,
                modulo: false,
                open_by_tmer: false,
                closed_by_tmer: false,
                other_by_tmer: false,
                anti_tmer: false,
                o: RandomO,
            }),
    {
        OpenClosed {
            r,
            open: false,
            closed: false,
            open_by_tmer: false,
            closed_by_tmer: false,
            other_by_tmer: false,
            offset: None,
            modulo: false,
            anti_tmer: false,
            o: RandomO,
        }
    }
}

/// The offset an open window needs: the given one or the middle of the `k - r + 1`
/// positions, taken modulo `w` under `modulo`.
pub open spec fn open_offset(offset: Option<usize>, modulo: bool, w: usize, k: usize, r: usize) -> usize {
    if modulo {
        let base: int = match offset {
            Some(o) => o as int,
            None => (k - r) % (w as int) / 2,
        };
        (base % (w as int)) as usize
    } else {
        match offset {
            Some(o) => o,
            None => ((k - r) / 2) as usize,
        }
    }
}

/// An order on windows of length `k` built from an `OpenClosed` configuration.
pub struct OpenClosedO<O> {
    pub r: usize,
    pub w: usize,
    pub k: usize,
    pub open: bool,
    pub closed: bool,
    pub open_by_tmer: bool,
    pub closed_by_tmer: bool,
    pub other_by_tmer: bool,
    pub offset: usize,
    pub modulo: bool,
    pub anti_tmer: bool,
    pub m: Minimizer<O>,
}

impl<O: Order<T = usize>> OpenClosedO<O> {
    /// The smallest `r`-mer sits at the open offset.
    pub open spec fn is_open(&self, x: int) -> bool {
        (if self.modulo { x % (self.w as int) } else { x }) == self.offset
    }

    /// The smallest `r`-mer sits at the first or the last position.
    pub open spec fn is_closed(&self, x: int) -> bool {
        x == 0 || x == self.k - self.r
    }

    /// Class of a window whose smallest `r`-mer is at `x`: 0 open, 1 closed, 2 other.
    pub open spec fn category(&self, x: int) -> u8 {
        if self.open && self.is_open(x) {
            0
        } else if self.closed && self.is_closed(x) {
            1
        } else {
            2
        }
    }

    /// Whether the class of `x` breaks ties by the key of the smallest `r`-mer.
    pub open spec fn by_tmer(&self, x: int) -> bool {
        if self.open && self.is_open(x) {
            self.open_by_tmer
        } else if self.closed && self.is_closed(x) {
            self.closed_by_tmer
        } else {
            self.other_by_tmer
        }
    }

    /// The key of the `r`-mer at `x` in `kmer`.
    pub open spec fn tmer_key(&self, kmer: Seq<u8>, x: int) -> usize {
        self.m.o.key_spec(kmer.subrange(x, x + self.r))
    }

    /// The tiebreak: the `r`-mer's key, its complement under `anti_tmer`, or zero.
    pub open spec fn tiebreak(&self, kmer: Seq<u8>, x: int) -> usize {
        if self.by_tmer(x) {
            self.tmer_key(kmer, x)
        } else if self.anti_tmer {
            !self.tmer_key(kmer, x)
        } else {
            0
        }
    }

    /// The key of a window whose smallest `r`-mer is at `x`.
    pub open spec fn inner_key_spec(&self, kmer: Seq<u8>, x: int) -> (u8, usize) {
        (self.category(x), self.tiebreak(kmer, x))
    }

    /// The key of `kmer`, given the offset `x` of its smallest `r`-mer.
    pub fn inner_key(&self, kmer: &[u8], x: usize) -> (r: (u8, usize))
        requires
            self.wf(),
            kmer@.len() == self.k,
            x <= self.k - self.r,
        ensures
            r == self.inner_key_spec(kmer@, x as int),
    {
        let w0 = self.k - self.r;
        let p: u8;
        let by_tmer: bool;
        let is_open = if self.modulo {
            x % self.w
        } else {
            x
        } == self.offset;
        let is_closed = x == 0 || x == w0;
        if self.open && is_open {
            p = 0;
            by_tmer = self.open_by_tmer;
        } else if self.closed && is_closed {
            p = 1;
            by_tmer = self.closed_by_tmer;
        } else {
            p = 2;
            by_tmer = self.other_by_tmer;
        }
        let tiebreak = if by_tmer {
            self.m.ord().key(vstd::slice::slice_subrange(kmer, x, x + self.r))
        } else {
            if self.anti_tmer {
                !self.m.ord().key(vstd::slice::slice_subrange(kmer, x, x + self.r))
            } else {
                0
            }
        };
        (p, tiebreak)
    }
}

/// A window that is both open and closed, with both classes enabled, is classed open.
pub proof fn lemma_open_before_closed<O: Order<T = usize>>(o: &OpenClosedO<O>, x: int)
    requires
        o.open,
        o.closed,
        o.is_open(x),
        o.is_closed(x),
    ensures
        o.category(x) == 0,
        o.category(x) != 1,
{
}

/// With `anti_tmer` set and no `r`-mer tiebreak for the window's class, the tiebreak is the
/// bitwise complement of the key of the window's smallest `r`-mer.
pub proof fn lemma_anti_tiebreak<O: Order<T = usize>>(o: &OpenClosedO<O>, kmer: Seq<u8>)
    requires
        o.anti_tmer,
        !o.by_tmer(o.m.sample_spec(kmer)),
    ensures
        o.key_spec(kmer).1 == !o.m.o.key_spec(
            kmer.subrange(o.m.sample_spec(kmer), o.m.sample_spec(kmer) + o.r),
        ),
{
}

impl<O: Order<T = usize>> Order for OpenClosedO<O> {
    type T = (u8, usize);

    open spec fn wf(&self) -> bool {
        &&& self.m.wf()
        &&& 1 <= self.r <= self.k
        &&& self.m.t == self.r
        &&& self.m.w == self.k - self.r + 1
        &&& self.modulo ==> self.w > 0
    }

    open spec fn kmer_len(&self) -> nat {
        self.k as nat
    }

    open spec fn key_spec(&self, kmer: Seq<u8>) -> (u8, usize) {
        self.inner_key_spec(kmer, self.m.sample_spec(kmer))
    }

    fn key(&self, kmer: &[u8]) -> (r: (u8, usize)) {
        let x = self.m.sample(kmer);
        self.inner_key(kmer, x)
    }

    fn keys(&self, text: &[u8], k: usize) -> (r: Vec<(u8, usize)>) {
        let xs = self.m.stream(text);
        let n = xs.len();
        let len = text.len();
        let mut out: Vec<(u8, usize)> = Vec::with_capacity(n);
        let mut i: usize = 0;
        while i < n
            invariant
                self.wf(),
                k == self.k,
                k <= text@.len(),
                len == text@.len(),
                n == xs@.len(),
                n == text@.len() - k + 1,
                forall|j: int|
                    0 <= j < n ==> #[trigger] xs@[j] == self.m.sample_spec(
                        text@.subrange(j, j + k),
                    ),
                i <= n,
                out@.len() == i,
                forall|j: int|
                    0 <= j < i ==> #[trigger] out@[j] == self.key_spec(text@.subrange(j, j + k)),
            decreases n - i,
        {
            let kmer = vstd::slice::slice_subrange(text, i, i + k);
            proof {
                crate::minimizer::lemma_first_min(self.m.tmer_keys(kmer@));
            }
            out.push(self.inner_key(kmer, xs[i]));
            i = i + 1;
        }
        out
    }
}

impl<OO: Order<T = usize>, O: ToOrder<O = OO>> ToOrder for OpenClosed<O> {
    type O = OpenClosedO<OO>;

    open spec fn params_ok(&self, w: usize, k: usize, sigma: usize) -> bool {
        &&& 1 <= self.r <= k
        &&& self.modulo ==> w > 0
        &&& self.o.params_ok((k - self.r + 1) as usize, self.r, sigma)
    }

    open spec fn to_order_spec(&self, w: usize, k: usize, sigma: usize) -> OpenClosedO<OO> {
        OpenClosedO {
            r: self.r,
            w,
            k,
            open: self.open,
            closed: self.closed,
            open_by_tmer: self.open_by_tmer,
            closed_by_tmer: self.closed_by_tmer,
            other_by_tmer: self.other_by_tmer,
            offset: open_offset(self.offset, self.modulo, w, k, self.r),
            modulo: self.modulo,
            anti_tmer: self.anti_tmer,
            m: Minimizer {
                o: self.o.to_order_spec((k - self.r + 1) as usize, self.r, sigma),
                w: (k - self.r + 1) as usize,
                t: self.r,
            },
        }
    }

    fn to_order(&self, w: usize, k: usize, sigma: usize) -> (res: OpenClosedO<OO>) {
        let r = self.r;
        let offset = if self.modulo {
            let o = match self.offset {
                Some(o) => o,
                None => (k - r) % w / 2,
            };
            o % w
        } else {
            match self.offset {
                Some(o) => o,
                None => (k - r) / 2,
            }
        };
        OpenClosedO {
            r,
            w,
            k,
            open: self.open,
            closed: self.closed,
            open_by_tmer: self.open_by_tmer,
            closed_by_tmer: self.closed_by_tmer,
            other_by_tmer: self.other_by_tmer,
            offset,
            modulo: self.modulo,
            anti_tmer: self.anti_tmer,
            m: Minimizer::build_from_order(&self.o, k - r + 1, r, sigma),
        }
    }
}

} // verus!
