use vstd::prelude::*;
use vstd::arithmetic::div_mod::{
    lemma_fundamental_div_mod_converse,
    lemma_mul_mod_noop_left,
    lemma_mul_mod_noop_right,
    lemma_add_mod_noop,
    lemma_sub_mod_noop,
    lemma_mod_twice,
};
use vstd::arithmetic::power::pow;
use vstd::wrapping::u64_specs;

use crate::hasher::{num_windows, Hasher};

verus! {

/// Base of the polynomial hash.
pub const ROLL_BASE: u64 = 0x0100_0000_01B3;

/// The number of values of a `u64`.
pub open spec fn word() -> int {
    0x1_0000_0000_0000_0000
}

/// A byte string read as a number in base `ROLL_BASE`, first byte most significant.
pub open spec fn poly(s: Seq<u8>) -> int
    decreases s.len(),
{
    if s.len() == 0 {
        0
    } else {
        poly(s.drop_last()) * ROLL_BASE + s.last()
    }
}

/// The polynomial hash: `poly` modulo the word size.
pub open spec fn roll_hash(s: Seq<u8>) -> u64 {
    (poly(s) % word()) as u64
}

proof fn lemma_wrapping_add(x: u64, y: u64)
    ensures
        u64_specs::wrapping_add(x, y) as int == (x + y) % word(),
{
    if x + y > u64::MAX {
        lemma_fundamental_div_mod_converse(x + y, word(), 1, x + y - word());
    } else {
        lemma_fundamental_div_mod_converse(x + y, word(), 0, x + y);
    }
}

proof fn lemma_wrapping_sub(x: u64, y: u64)
    ensures
        u64_specs::wrapping_sub(x, y) as int == (x - y) % word(),
{
    if x - y < 0 {
        lemma_fundamental_div_mod_converse(x - y, word(), -1, x - y + word());
    } else {
        lemma_fundamental_div_mod_converse(x - y, word(), 0, x - y);
    }
}

/// One Horner step on a value known modulo the word size.
proof fn lemma_horner_step(h: u64, p: int, c: u8)
    requires
        h as int == p % word(),
    ensures
        u64_specs::wrapping_add(u64_specs::wrapping_mul(h, ROLL_BASE), c as u64) as int == (p
            * ROLL_BASE + c) % word(),
{
    let m = u64_specs::wrapping_mul(h, ROLL_BASE);
    assert(m as int == (h as int * ROLL_BASE) % word());
    lemma_mul_mod_noop_left(p, ROLL_BASE as int, word());
    lemma_wrapping_add(m, c as u64);
    lemma_add_mod_noop(p * ROLL_BASE, c as int, word());
    lemma_mod_twice(p * ROLL_BASE, word());
    assert((c as int) % word() == c as int) by {
        lemma_fundamental_div_mod_converse(c as int, word(), 0, c as int);
    }
}

/// The first byte of a string weighs `ROLL_BASE` to the power of the string's length less one.
proof fn lemma_poly_first(s: Seq<u8>)
    requires
        s.len() >= 1,
    ensures
        poly(s) == s[0] * pow(ROLL_BASE as int, (s.len() - 1) as nat) + poly(s.drop_first()),
    decreases s.len(),
{
    let b = ROLL_BASE as int;
    reveal(pow);
    if s.len() == 1 {
        assert(poly(s.drop_last()) == 0);
        assert(poly(s.drop_first()) == 0);
        assert(pow(b, 0) == 1);
        assert(poly(s) == s[0]);
    } else {
        let d = s.drop_last();
        lemma_poly_first(d);
        assert(d.drop_first() =~= s.drop_first().drop_last());
        let e = (s.len() - 2) as nat;
        let pe = pow(b, e);
        assert(pow(b, e + 1) == b * pe);
        let q = poly(d.drop_first());
        assert((s[0] * pe + q) * b == s[0] * (b * pe) + q * b) by (nonlinear_arith);
        assert(d[0] == s[0]);
        assert(poly(d) == s[0] * pe + q);
        assert(s.drop_first().last() == s.last());
        assert(poly(s.drop_first()) == q * b + s.last());
        assert(poly(s) == poly(d) * b + s.last());
    }
}

/// The next window's `poly` from the current one's: drop the first byte, shift, add the last.
proof fn lemma_poly_roll(s: Seq<u8>, i: int, k: int)
    requires
        1 <= k,
        0 <= i,
        i + k < s.len(),
    ensures
        poly(s.subrange(i + 1, i + k + 1)) == (poly(s.subrange(i, i + k)) - s[i] * pow(
            ROLL_BASE as int,
            (k - 1) as nat,
        )) * ROLL_BASE + s[i + k],
{
    let w = s.subrange(i, i + k);
    let v = s.subrange(i + 1, i + k + 1);
    lemma_poly_first(w);
    assert(v.drop_last() =~= w.drop_first());
}

/// `ROLL_BASE` to the power `e`, modulo the word size.
fn base_pow(e: usize) -> (r: u64)
    ensures
        r as int == pow(ROLL_BASE as int, e as nat) % word(),
{
    let mut r: u64 = 1;
    let mut j: usize = 0;
    reveal(pow);
    assert(1int % word() == 1) by {
        lemma_fundamental_div_mod_converse(1, word(), 0, 1);
    }
    while j < e
        invariant
            j <= e,
            r as int == pow(ROLL_BASE as int, j as nat) % word(),
        decreases e - j,
    {
        proof {
            reveal(pow);
            let p = pow(ROLL_BASE as int, j as nat);
            assert(pow(ROLL_BASE as int, (j + 1) as nat) == ROLL_BASE * p);
            lemma_horner_step(r, p, 0);
            assert(ROLL_BASE * p == p * ROLL_BASE + 0) by (nonlinear_arith);
        }
        r = r.wrapping_mul(ROLL_BASE).wrapping_add(0);
        j = j + 1;
    }
    r
}

/// A polynomial hash whose batch mode updates one digest into the next in constant time.
#[derive(Clone, Copy, Debug)]
pub struct RollHash;

impl Hasher for RollHash {
    type Out = u64;

    open spec fn hash_spec(&self, t: Seq<u8>) -> u64 {
        roll_hash(t)
    }

    open spec fn wf(&self) -> bool {
        true
    }

    open spec fn num_digests(&self, n: nat, k: nat) -> nat {
        num_windows(n, k)
    }

    fn hash(&self, t: &[u8]) -> (r: u64) {
        let mut h: u64 = 0;
        let mut i: usize = 0;
        assert(0int % word() == 0) by {
            lemma_fundamental_div_mod_converse(0, word(), 0, 0);
        }
        while i < t.len()
            invariant
                i <= t@.len(),
                h as int == poly(t@.subrange(0, i as int)) % word(),
            decreases t@.len() - i,
        {
            proof {
                let s = t@.subrange(0, i as int + 1);
                assert(s.drop_last() =~= t@.subrange(0, i as int));
                lemma_horner_step(h, poly(t@.subrange(0, i as int)), t@[i as int]);
            }
            h = h.wrapping_mul(ROLL_BASE).wrapping_add(t[i] as u64);
            i = i + 1;
        }
        assert(t@.subrange(0, i as int) =~= t@);
        h
    }

    fn hash_kmers(&self, k: usize, t: &[u8]) -> (r: Vec<u64>) {
        let len = t.len();
        let n = len - k + 1;
        let top = base_pow(k - 1);
        let mut h = self.hash(vstd::slice::slice_subrange(t, 0, k));
        let mut out: Vec<u64> = Vec::with_capacity(n);
        out.push(h);
        let mut i: usize = 1;
        while i < n
            invariant
                len == t@.len(),
                0 < k <= len,
                n == len - k + 1,
                1 <= i <= n,
                top as int == pow(ROLL_BASE as int, (k - 1) as nat) % word(),
                h as int == poly(t@.subrange(i - 1, i - 1 + k)) % word(),
                out@.len() == i,
                forall|j: int|
                    0 <= j < i ==> #[trigger] out@[j] == roll_hash(t@.subrange(j, j + k)),
            decreases n - i,
        {
            let a = t[i - 1] as u64;
            let c = t[i - 1 + k];
            proof {
                let p = poly(t@.subrange(i - 1, i - 1 + k));
                let y = a * pow(ROLL_BASE as int, (k - 1) as nat);
                let am = u64_specs::wrapping_mul(a, top);
                lemma_mul_mod_noop_right(a as int, pow(ROLL_BASE as int, (k - 1) as nat), word());
                assert(am as int == y % word());
                lemma_wrapping_sub(h, am);
                lemma_sub_mod_noop(p, y, word());
                lemma_horner_step(u64_specs::wrapping_sub(h, am), p - y, c);
                lemma_poly_roll(t@, i - 1, k as int);
            }
            h = h.wrapping_sub(a.wrapping_mul(top)).wrapping_mul(ROLL_BASE).wrapping_add(c as u64);
            out.push(h);
            i = i + 1;
        }
        out
    }
}

} // verus!
