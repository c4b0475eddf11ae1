//! Sums over frequency windows and the sample clock.
use std::collections::VecDeque;
use vstd::prelude::*;

verus! {

/// Sum of a sequence of samples.
pub open spec fn sum(s: Seq<u32>) -> int
    decreases s.len(),
{
    if s.len() == 0 {
        0
    } else {
        sum(s.drop_last()) + s.last()
    }
}

/// Splitting a window splits its sum.
pub proof fn lemma_sum_concat(a: Seq<u32>, b: Seq<u32>)
    ensures
        sum(a + b) == sum(a) + sum(b),
    decreases b.len(),
{
    if b.len() == 0 {
        assert(a + b =~= a);
    } else {
        lemma_sum_concat(a, b.drop_last());
        assert((a + b).drop_last() =~= a + b.drop_last());
    }
}

pub proof fn lemma_sum_single(x: u32)
    ensures
        sum(seq![x]) == x,
{
    assert(seq![x].drop_last() =~= Seq::<u32>::empty());
    assert(sum(Seq::<u32>::empty()) == 0);
}

pub proof fn lemma_sum_ge_first(s: Seq<u32>)
    requires
        s.len() > 0,
    ensures
        sum(s) >= s[0],
{
    lemma_sum_concat(seq![s[0]], s.skip(1));
    assert(seq![s[0]] + s.skip(1) =~= s);
    lemma_sum_single(s[0]);
    lemma_sum_bounds(s.skip(1), 0xffff_ffff);
}

/// `n` copies of `c`.
pub open spec fn constant(n: nat, c: u32) -> Seq<u32> {
    Seq::new(n, |i: int| c)
}

/// The sum of `n` copies of `c`.
pub proof fn lemma_sum_constant(n: nat, c: u32)
    ensures
        sum(constant(n, c)) == n * c,
    decreases n,
{
    if n > 0 {
        lemma_sum_constant((n - 1) as nat, c);
        let s = Seq::new(n, |i: int| c);
        assert(s.drop_last() =~= Seq::new((n - 1) as nat, |i: int| c));
        assert(s.last() == c);
        assert(n * c == (n - 1) * c + c) by (nonlinear_arith);
        assert(sum(s) == sum(s.drop_last()) + c);
    } else {
        assert(Seq::new(n, |i: int| c).len() == 0);
    }
}

/// A sum is bounded by the length times the bound of the terms.
pub proof fn lemma_sum_bounds(s: Seq<u32>, hi: int)
    requires
        forall|i: int| 0 <= i < s.len() ==> s[i] <= hi,
    ensures
        0 <= sum(s) <= s.len() * hi,
    decreases s.len(),
{
    if s.len() > 0 {
        lemma_sum_bounds(s.drop_last(), hi);
        assert(s.len() * hi == (s.len() - 1) * hi + hi) by (nonlinear_arith);
    }
}

/// Sum of the window `q[lo..hi]`.
pub fn window_sum(q: &VecDeque<u32>, lo: usize, hi: usize) -> (r: u128)
    requires
        lo <= hi <= q@.len(),
    ensures
        r == sum(q@.subrange(lo as int, hi as int)),
{
    let mut acc: u128 = 0;
    let mut i: usize = lo;
    while i < hi
        invariant
            lo <= i <= hi <= q@.len(),
            acc == sum(q@.subrange(lo as int, i as int)),
            acc <= (i - lo) * 0xffff_ffff,
        decreases hi - i,
    {
        assert(q@.subrange(lo as int, i + 1).drop_last() =~= q@.subrange(lo as int, i as int));
        acc = acc + q[i] as u128;
        i = i + 1;
    }
    acc
}

/// Index of the sample that is due at time `t_ns` on a clock running at `fs`
/// samples per second: the number of whole samples that fit before it.
pub open spec fn sample_at(fs: nat, t_ns: nat) -> nat {
    (fs * t_ns) / 1_000_000_000
}

pub fn sample_at_exec(fs: u32, t_ns: u64) -> (r: u128)
    ensures
        r == sample_at(fs as nat, t_ns as nat),
{
    assert(fs as nat * t_ns as nat <= 0xffff_ffff * 0xffff_ffff_ffff_ffffnat) by (nonlinear_arith);
    (fs as u128 * t_ns as u128) / 1_000_000_000
}

/// The sample clock never runs backwards.
pub proof fn lemma_sample_at_monotonic(fs: nat, t1: nat, t2: nat)
    requires
        t1 <= t2,
    ensures
        sample_at(fs, t1) <= sample_at(fs, t2),
{
    assert(fs * t1 <= fs * t2) by (nonlinear_arith)
        requires t1 <= t2;
    vstd::arithmetic::div_mod::lemma_div_is_ordered((fs * t1) as int, (fs * t2) as int, 1_000_000_000);
}

} // verus!
