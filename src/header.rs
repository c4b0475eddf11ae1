//! Recognising the leader (1900 Hz, a 1200 Hz break, 1900 Hz) and reading
//! the VIS code that follows it, from a window of frequencies in millihertz.
use crate::arith::{constant, lemma_sum_concat, lemma_sum_single, lemma_sum_constant, sum, window_sum};
use crate::discriminator::abs;
use crate::encoder::Mode;
use crate::vis::{
    code_of_payload, data_code, data_ones, flip, mode_from_vis, mode_of_payload, mode_of_vis, ones_of,
    payload_of, vis_code_of,
};
use std::collections::VecDeque;
use vstd::prelude::*;

verus! {

/// Leader tone, 1900 Hz.
pub const LEADER_FREQ: u32 = 1_900_000;

/// Break and VIS start and stop bits, 1200 Hz.
pub const BREAK_FREQ: u32 = 1_200_000;

/// How far the mean of a tone may stray from its nominal frequency (50 Hz).
pub const TOLERANCE: u32 = 50_000;

/// A slot whose mean is at or below this frequency carries a one (1200 Hz).
pub const ONE_LIMIT: u32 = 1_200_000;

/// Number of samples in `ms` milliseconds at `fs` samples per second,
/// rounded to the nearest.
pub open spec fn round_ms(fs: nat, ms: nat) -> nat {
    (fs * ms + 500) / 1000
}

pub fn round_ms_exec(fs: u32, ms: u32) -> (r: usize)
    requires
        ms <= 1000,
    ensures
        r == round_ms(fs as nat, ms as nat),
        r <= fs,
{
    assert(fs as nat * ms as nat <= fs as nat * 1000) by (nonlinear_arith)
        requires ms <= 1000;
    ((fs as u64 * ms as u64 + 500) / 1000) as usize
}

/// Length of the leader with its break: 610 ms.
pub open spec fn header_len(fs: nat) -> nat {
    round_ms(fs, 610)
}

/// Length of the VIS code: ten bits of 30 ms.
pub open spec fn vis_len(fs: nat) -> nat {
    round_ms(fs, 300)
}

/// The mean of `s` lies within `tol` of `target`; an empty window has no mean.
pub open spec fn mean_within(s: Seq<u32>, target: int, tol: int) -> bool {
    s.len() > 0 && abs(sum(s) - target * s.len()) <= tol * s.len()
}

/// The window starts with a leader: 300 ms whose mean is 1900 Hz, 10 ms
/// whose mean is 1200 Hz and 300 ms whose mean is 1900 Hz, each within 50 Hz.
pub open spec fn leader_at(w: Seq<u32>, fs: nat) -> bool {
    &&& w.len() >= header_len(fs)
    &&& mean_within(w.subrange(0, round_ms(fs, 300) as int), LEADER_FREQ as int, TOLERANCE as int)
    &&& mean_within(
        w.subrange(round_ms(fs, 300) as int, round_ms(fs, 310) as int),
        BREAK_FREQ as int,
        TOLERANCE as int,
    )
    &&& mean_within(
        w.subrange(round_ms(fs, 310) as int, header_len(fs) as int),
        LEADER_FREQ as int,
        TOLERANCE as int,
    )
}

/// Where the first leader starts in `q`: the number of samples before it,
/// and whether there is one. Without one, every start that leaves room for a
/// whole leader is passed over.
#[verifier::opaque]
pub open spec fn leader_search(q: Seq<u32>, fs: nat) -> (nat, bool)
    decreases q.len(),
{
    if q.len() == 0 || q.len() < header_len(fs) {
        (0, false)
    } else if leader_at(q, fs) {
        (0, true)
    } else {
        let r = leader_search(q.drop_first(), fs);
        (r.0 + 1, r.1)
    }
}

pub(crate) proof fn lemma_leader_at_prefix(q1: Seq<u32>, q2: Seq<u32>, fs: nat)
    requires
        q1.len() >= header_len(fs),
    ensures
        leader_at(q1 + q2, fs) == leader_at(q1, fs),
{
    let a = round_ms(fs, 300) as int;
    let b = round_ms(fs, 310) as int;
    let h = header_len(fs) as int;
    assert(a <= b <= h) by {
        assert(fs * 300 <= fs * 310 <= fs * 610) by (nonlinear_arith);
        vstd::arithmetic::div_mod::lemma_div_is_ordered((fs * 300 + 500) as int, (fs * 310 + 500) as int, 1000);
        vstd::arithmetic::div_mod::lemma_div_is_ordered((fs * 310 + 500) as int, (fs * 610 + 500) as int, 1000);
    }
    let q = q1 + q2;
    assert(q.subrange(0, a) =~= q1.subrange(0, a));
    assert(q.subrange(a, b) =~= q1.subrange(a, b));
    assert(q.subrange(b, h) =~= q1.subrange(b, h));
}

pub(crate) proof fn lemma_leader_search_bound(q: Seq<u32>, fs: nat)
    ensures
        leader_search(q, fs).0 <= q.len(),
        leader_search(q, fs).1 ==> leader_search(q, fs).0 + header_len(fs) <= q.len(),
    decreases q.len(),
{
    reveal(leader_search);
    if !(q.len() == 0 || q.len() < header_len(fs)) && !leader_at(q, fs) {
        lemma_leader_search_bound(q.drop_first(), fs);
    }
}

/// Looking for the leader block by block finds what one look over the whole
/// stream finds: what a search passed over stays passed over when more
/// samples arrive, and the search goes on from where it stopped.
pub proof fn lemma_leader_search_resumes(q1: Seq<u32>, q2: Seq<u32>, fs: nat)
    requires
        !leader_search(q1, fs).1,
    ensures
        leader_search(q1 + q2, fs) == (
            leader_search(q1, fs).0 + leader_search(q1.skip(leader_search(q1, fs).0 as int) + q2, fs).0,
            leader_search(q1.skip(leader_search(q1, fs).0 as int) + q2, fs).1,
        ),
    decreases q1.len(),
{
    reveal(leader_search);
    if q1.len() == 0 || q1.len() < header_len(fs) {
        assert(q1.skip(0) =~= q1);
    } else {
        lemma_leader_at_prefix(q1, q2, fs);
        let k = leader_search(q1, fs).0;
        let t = q1.drop_first();
        assert(!leader_at(q1, fs));
        assert(k == leader_search(t, fs).0 + 1);
        lemma_leader_search_bound(t, fs);
        lemma_leader_search_resumes(t, q2, fs);
        assert((q1 + q2).drop_first() =~= t + q2);
        assert(t.skip(k - 1) =~= q1.skip(k as int));
    }
}

/// Exact test of `mean_within` on a sum of `n` terms.
pub fn within(total: u128, n: usize, target: u32, tol: u32) -> (r: bool)
    requires
        tol <= target,
    ensures
        r == (n > 0 && abs(total - target * n) <= tol * n),
{
    if n == 0 {
        return false;
    }
    assert((target - tol) * n <= (target + tol) * n) by (nonlinear_arith)
        requires tol <= target;
    assert((target + tol) as nat * n as nat <= 0x2_0000_0000nat * 0xffff_ffff_ffff_ffffnat) by (nonlinear_arith)
        requires target <= 0xffff_ffff, tol <= 0xffff_ffff, n <= 0xffff_ffff_ffff_ffff;
    let lo: u128 = (target - tol) as u128 * n as u128;
    let hi: u128 = (target as u128 + tol as u128) * n as u128;
    proof {
        assert(lo == target * n - tol * n) by (nonlinear_arith)
            requires lo == (target - tol) * n, tol <= target;
        assert(hi == target * n + tol * n) by (nonlinear_arith)
            requires hi == (target + tol) * n;
    }
    lo <= total && total <= hi
}

proof fn lemma_sum_slide(s: Seq<u32>, a: int, b: int)
    requires
        0 <= a <= b < s.len(),
    ensures
        sum(s.subrange(a + 1, b + 1)) == sum(s.subrange(a, b)) + s[b] - s[a],
{
    lemma_sum_concat(s.subrange(a, b), seq![s[b]]);
    assert(s.subrange(a, b) + seq![s[b]] =~= s.subrange(a, b + 1));
    lemma_sum_concat(seq![s[a]], s.subrange(a + 1, b + 1));
    assert(seq![s[a]] + s.subrange(a + 1, b + 1) =~= s.subrange(a, b + 1));
    lemma_sum_single(s[a]);
    lemma_sum_single(s[b]);
}

/// Takes the first `n` samples off the queue.
pub fn drop_front(q: &mut VecDeque<u32>, n: usize)
    requires
        n <= old(q)@.len(),
    ensures
        final(q)@ == old(q)@.skip(n as int),
{
    let mut i: usize = 0;
    while i < n
        invariant
            i <= n <= old(q)@.len(),
            q@ == old(q)@.skip(i as int),
        decreases n - i,
    {
        q.pop_front();
        i = i + 1;
    }
}

/// The three sums of the leader windows after the first sample is passed over.
proof fn lemma_slide_windows(cur: Seq<u32>, l1: int, l2: int, h: int)
    requires
        0 <= l1 <= l2 <= h < cur.len(),
        h <= 0xffff_ffff_ffff_ffff,
    ensures
        sum(cur.drop_first().subrange(0, l1)) == sum(cur.subrange(0, l1)) + cur[l1] - cur[0],
        sum(cur.drop_first().subrange(l1, l2)) == sum(cur.subrange(l1, l2)) + cur[l2] - cur[l1],
        sum(cur.drop_first().subrange(l2, h)) == sum(cur.subrange(l2, h)) + cur[h] - cur[l2],
        sum(cur.subrange(0, l1)) + cur[l1] >= cur[0],
        sum(cur.subrange(l1, l2)) + cur[l2] >= cur[l1],
        sum(cur.subrange(l2, h)) + cur[h] >= cur[l2],
        sum(cur.subrange(0, l1)) + cur[l1] <= 0xffff_ffff_ffff_ffff_ffff_ffff_ffff,
        sum(cur.subrange(l1, l2)) + cur[l2] <= 0xffff_ffff_ffff_ffff_ffff_ffff_ffff,
        sum(cur.subrange(l2, h)) + cur[h] <= 0xffff_ffff_ffff_ffff_ffff_ffff_ffff,
{
    lemma_sum_slide(cur, 0, l1);
    lemma_sum_slide(cur, l1, l2);
    lemma_sum_slide(cur, l2, h);
    assert(cur.drop_first().subrange(0, l1) =~= cur.subrange(1, l1 + 1));
    assert(cur.drop_first().subrange(l1, l2) =~= cur.subrange(l1 + 1, l2 + 1));
    assert(cur.drop_first().subrange(l2, h) =~= cur.subrange(l2 + 1, h + 1));
    crate::arith::lemma_sum_bounds(cur.subrange(0, l1), 0xffff_ffff);
    crate::arith::lemma_sum_bounds(cur.subrange(l1, l2), 0xffff_ffff);
    crate::arith::lemma_sum_bounds(cur.subrange(l2, h), 0xffff_ffff);
    assert(l1 * 0xffff_ffff <= 0xffff_ffff_ffff_ffff * 0xffff_ffff) by (nonlinear_arith)
        requires 0 <= l1 <= 0xffff_ffff_ffff_ffff;
    assert((l2 - l1) * 0xffff_ffff <= 0xffff_ffff_ffff_ffff * 0xffff_ffff) by (nonlinear_arith)
        requires 0 <= l2 - l1 <= 0xffff_ffff_ffff_ffff;
    assert((h - l2) * 0xffff_ffff <= 0xffff_ffff_ffff_ffff * 0xffff_ffff) by (nonlinear_arith)
        requires 0 <= h - l2 <= 0xffff_ffff_ffff_ffff;
    if l1 > 0 {
        crate::arith::lemma_sum_ge_first(cur.subrange(0, l1));
    }
    if l2 > l1 {
        crate::arith::lemma_sum_ge_first(cur.subrange(l1, l2));
    }
    if h > l2 {
        crate::arith::lemma_sum_ge_first(cur.subrange(l2, h));
    }
}

/// Passes over the samples that cannot start a leader and, on finding one,
/// takes it off the queue. Returns whether a leader was taken.
pub fn take_leader(q: &mut VecDeque<u32>, fs: u32) -> (found: bool)
    ensures
        found == leader_search(old(q)@, fs as nat).1,
        found ==> final(q)@ == old(q)@.skip(
            (leader_search(old(q)@, fs as nat).0 + header_len(fs as nat)) as int,
        ),
        !found ==> final(q)@ == old(q)@.skip(leader_search(old(q)@, fs as nat).0 as int),
{
    proof {
        reveal(leader_search);
    }
    let ghost q0 = q@;
    let l1 = round_ms_exec(fs, 300);
    let l2 = round_ms_exec(fs, 310);
    let h = round_ms_exec(fs, 610);
    assert(l1 <= l2 <= h) by {
        assert(fs as nat * 300 <= fs as nat * 310 <= fs as nat * 610) by (nonlinear_arith);
        vstd::arithmetic::div_mod::lemma_div_is_ordered(fs * 300 + 500, fs * 310 + 500, 1000);
        vstd::arithmetic::div_mod::lemma_div_is_ordered(fs * 310 + 500, fs * 610 + 500, 1000);
    }
    if q.len() < h {
        return false;
    }
    let mut s1 = window_sum(q, 0, l1);
    let mut s2 = window_sum(q, l1, l2);
    let mut s3 = window_sum(q, l2, h);
    let ghost mut k: nat = 0;
    loop
        invariant
            l1 == round_ms(fs as nat, 300),
            l2 == round_ms(fs as nat, 310),
            h == header_len(fs as nat),
            l1 <= l2 <= h,
            q@.len() >= h,
            k <= q0.len(),
            q0 == old(q)@,
            q@ == q0.skip(k as int),
            leader_search(q0, fs as nat) == (
                k + leader_search(q@, fs as nat).0,
                leader_search(q@, fs as nat).1,
            ),
            s1 == sum(q@.subrange(0, l1 as int)),
            s2 == sum(q@.subrange(l1 as int, l2 as int)),
            s3 == sum(q@.subrange(l2 as int, h as int)),
        decreases q@.len(),
    {
        proof {
            reveal(leader_search);
        }
        let ghost cur = q@;
        if q.len() == 0 {
            return false;
        }
        let ok = within(s1, l1, LEADER_FREQ, TOLERANCE) && within(s2, l2 - l1, BREAK_FREQ, TOLERANCE)
            && within(s3, h - l2, LEADER_FREQ, TOLERANCE);
        if ok {
            assert(leader_at(cur, fs as nat));
            assert(leader_search(cur, fs as nat) == (0nat, true));
            drop_front(q, h);
            assert(q@ =~= q0.skip(k + h));
            return true;
        }
        assert(!leader_at(cur, fs as nat));
        if q.len() == h {
            q.pop_front();
            proof {
                assert(leader_search(cur.drop_first(), fs as nat) == (0nat, false));
                assert(leader_search(cur, fs as nat) == (1nat, false));
                assert(q@ =~= q0.skip(k + 1int));
            }
            return false;
        }
        proof {
            lemma_slide_windows(cur, l1 as int, l2 as int, h as int);
        }
        let a0 = q[0];
        let a1 = q[l1];
        let a2 = q[l2];
        let a3 = q[h];
        s1 = s1 + a1 as u128 - a0 as u128;
        s2 = s2 + a2 as u128 - a1 as u128;
        s3 = s3 + a3 as u128 - a2 as u128;
        q.pop_front();
        proof {
            assert(q@ =~= cur.drop_first());
            assert(q@ =~= q0.skip(k + 1int));
            k = k + 1;
        }
    }
}

/// Slot `i` of a VIS window: the window is cut into ten equal slots.
pub open spec fn slot(w: Seq<u32>, i: int) -> Seq<u32> {
    let b = (w.len() / 10) as int;
    w.subrange(i * b, (i + 1) * b)
}

/// A slot carries a one when its mean is at or below 1200 Hz.
pub open spec fn slot_one(s: Seq<u32>) -> bool {
    sum(s) <= ONE_LIMIT * s.len()
}

/// The eight payload bits of a VIS window: slots 1 to 7 hold the data,
/// least significant bit first, and slot 8 the parity bit.
pub open spec fn window_payload(w: Seq<u32>) -> Seq<bool> {
    Seq::new(8, |i: int| slot_one(slot(w, i + 1)))
}

/// The stop bit, slot 9, is a 1200 Hz tone.
pub open spec fn stop_ok(w: Seq<u32>) -> bool {
    mean_within(slot(w, 9), BREAK_FREQ as int, TOLERANCE as int)
}

/// The mode that a VIS window names: none if the stop bit or the parity is
/// wrong, or if the code is not in the table.
pub open spec fn vis_of_window(w: Seq<u32>) -> Option<Mode> {
    if stop_ok(w) {
        mode_of_payload(window_payload(w))
    } else {
        None
    }
}

fn slot_is_one(q: &VecDeque<u32>, lo: usize, hi: usize) -> (r: bool)
    requires
        lo <= hi <= q@.len(),
    ensures
        r == slot_one(q@.subrange(lo as int, hi as int)),
{
    let t = window_sum(q, lo, hi);
    let ghost len = (hi - lo) as int;
    assert(len * 1_200_000 <= 0x1_0000_0000_0000_0000 * 0x1_0000_0000) by (nonlinear_arith)
        requires 0 <= len <= 0xffff_ffff_ffff_ffff;
    t <= ONE_LIMIT as u128 * (hi - lo) as u128
}

proof fn lemma_slot_of_prefix(q: Seq<u32>, n: int, i: int)
    requires
        0 <= n <= q.len(),
        0 <= i < 10,
    ensures
        slot(q.subrange(0, n), i) == q.subrange(i * (n / 10), (i + 1) * (n / 10)),
{
    let b = n / 10;
    assert(10 * b <= n);
    assert(0 <= i * b <= (i + 1) * b <= 10 * b) by (nonlinear_arith)
        requires 0 <= i < 10, b >= 0;
    assert(slot(q.subrange(0, n), i) =~= q.subrange(i * b, (i + 1) * b));
}

/// Reads the VIS code from the first `n` frequencies of the queue.
#[verifier::rlimit(40)]
pub fn decode_vis(q: &VecDeque<u32>, n: usize) -> (r: Option<Mode>)
    requires
        n <= q@.len(),
    ensures
        r == vis_of_window(q@.subrange(0, n as int)),
{
    let ghost w = q@.subrange(0, n as int);
    let b = n / 10;
    proof {
        lemma_slot_of_prefix(q@, n as int, 1);
        lemma_slot_of_prefix(q@, n as int, 2);
        lemma_slot_of_prefix(q@, n as int, 3);
        lemma_slot_of_prefix(q@, n as int, 4);
        lemma_slot_of_prefix(q@, n as int, 5);
        lemma_slot_of_prefix(q@, n as int, 6);
        lemma_slot_of_prefix(q@, n as int, 7);
        lemma_slot_of_prefix(q@, n as int, 8);
        lemma_slot_of_prefix(q@, n as int, 9);
    }
    let d0 = slot_is_one(q, b, 2 * b);
    let d1 = slot_is_one(q, 2 * b, 3 * b);
    let d2 = slot_is_one(q, 3 * b, 4 * b);
    let d3 = slot_is_one(q, 4 * b, 5 * b);
    let d4 = slot_is_one(q, 5 * b, 6 * b);
    let d5 = slot_is_one(q, 6 * b, 7 * b);
    let d6 = slot_is_one(q, 7 * b, 8 * b);
    let p = slot_is_one(q, 8 * b, 9 * b);
    let stop_sum = window_sum(q, 9 * b, 10 * b);
    let stop = within(stop_sum, b, BREAK_FREQ, TOLERANCE);
    let ghost bits = window_payload(w);
    assert(bits[0] == d0 && bits[1] == d1 && bits[2] == d2 && bits[3] == d3);
    assert(bits[4] == d4 && bits[5] == d5 && bits[6] == d6 && bits[7] == p);
    assert(slot(w, 1) == q@.subrange(b as int, 2 * b));
    if !stop {
        assert(slot(w, 9) == q@.subrange(9 * b, 10 * b));
        return None;
    }
    assert(slot(w, 9) == q@.subrange(9 * b, 10 * b));
    let ones: u8 = d0 as u8 + d1 as u8 + d2 as u8 + d3 as u8 + d4 as u8 + d5 as u8 + d6 as u8;
    assert(ones == data_ones(bits));
    if (ones % 2 == 1) != p {
        return None;
    }
    let code: u8 = d0 as u8 + 2 * d1 as u8 + 4 * d2 as u8 + 8 * d3 as u8 + 16 * d4 as u8 + 32 * d5 as u8
        + 64 * d6 as u8;
    assert(code == data_code(bits));
    assert(code_of_payload(bits) == Some(code));
    mode_from_vis(code)
}

proof fn lemma_constant_mean(n: nat, c: u32, target: int, tol: int)
    requires
        n > 0,
        tol >= 0,
    ensures
        mean_within(constant(n, c), target, tol) <==> abs(c - target) <= tol,
{
    lemma_sum_constant(n, c);
    let d = c - target;
    assert(sum(constant(n, c)) - target * n == n * d) by (nonlinear_arith)
        requires sum(constant(n, c)) == n * c, d == c - target;
    if d >= 0 {
        assert(abs(n * d) == n * d) by (nonlinear_arith)
            requires d >= 0, n > 0;
        assert(n * d <= tol * n <==> d <= tol) by (nonlinear_arith)
            requires n > 0;
    } else {
        assert(abs(n * d) == n * (-d)) by (nonlinear_arith)
            requires d < 0, n > 0;
        assert(n * (-d) <= tol * n <==> -d <= tol) by (nonlinear_arith)
            requires n > 0;
    }
}

/// A leader whose three tones are all off by `d` millihertz.
pub open spec fn leader_tones(fs: nat, d: int) -> Seq<u32> {
    constant(round_ms(fs, 300), (LEADER_FREQ + d) as u32) + constant(
        (round_ms(fs, 310) - round_ms(fs, 300)) as nat,
        (BREAK_FREQ + d) as u32,
    ) + constant((header_len(fs) - round_ms(fs, 310)) as nat, (LEADER_FREQ + d) as u32)
}

/// A leader is recognised exactly when all of its tones are within 50 Hz of
/// their nominal frequencies: an offset of 40 Hz either way is recognised,
/// one of 60 Hz is not.
pub proof fn lemma_leader_tolerance(fs: nat, d: int)
    requires
        fs >= 100,
        -1_000_000 <= d <= 1_000_000,
    ensures
        leader_at(leader_tones(fs, d), fs) <==> abs(d) <= TOLERANCE,
        -40_000 <= d <= 40_000 ==> leader_at(leader_tones(fs, d), fs),
        (d == 60_000 || d == -60_000) ==> !leader_at(leader_tones(fs, d), fs),
{
    let a = round_ms(fs, 300);
    let b = round_ms(fs, 310);
    let h = header_len(fs);
    assert(a >= 1 && b >= a + 1 && h >= b + 1) by {
        assert(fs * 300 + 500 >= 1000) by (nonlinear_arith) requires fs >= 100;
        assert(fs * 310 + 500 >= fs * 300 + 500 + 1000) by (nonlinear_arith) requires fs >= 100;
        assert(fs * 610 + 500 >= fs * 310 + 500 + 1000) by (nonlinear_arith) requires fs >= 100;
        vstd::arithmetic::div_mod::lemma_div_is_ordered(1000, (fs * 300 + 500) as int, 1000);
        vstd::arithmetic::div_mod::lemma_div_is_ordered((fs * 300 + 500 + 1000) as int, (fs * 310 + 500) as int, 1000);
        vstd::arithmetic::div_mod::lemma_div_is_ordered((fs * 310 + 500 + 1000) as int, (fs * 610 + 500) as int, 1000);
        vstd::arithmetic::div_mod::lemma_div_plus_one((fs * 300 + 500) as int, 1000);
        vstd::arithmetic::div_mod::lemma_div_plus_one((fs * 310 + 500) as int, 1000);
    }
    let w = leader_tones(fs, d);
    let s1 = constant(a, (LEADER_FREQ + d) as u32);
    let s2 = constant((b - a) as nat, (BREAK_FREQ + d) as u32);
    let s3 = constant((h - b) as nat, (LEADER_FREQ + d) as u32);
    assert(w.subrange(0, a as int) =~= s1);
    assert(w.subrange(a as int, b as int) =~= s2);
    assert(w.subrange(b as int, h as int) =~= s3);
    lemma_constant_mean(a, (LEADER_FREQ + d) as u32, LEADER_FREQ as int, TOLERANCE as int);
    lemma_constant_mean((b - a) as nat, (BREAK_FREQ + d) as u32, BREAK_FREQ as int, TOLERANCE as int);
    lemma_constant_mean((h - b) as nat, (LEADER_FREQ + d) as u32, LEADER_FREQ as int, TOLERANCE as int);
}

/// The tone of slot `i` of a VIS code sent with payload `bits`: 1200 Hz for
/// the start and stop bits, 1100 Hz for a one and 1300 Hz for a zero.
pub open spec fn slot_tone(bits: Seq<bool>, i: int) -> u32 {
    if i == 0 || i == 9 {
        BREAK_FREQ
    } else if bits[i - 1] {
        1_100_000
    } else {
        1_300_000
    }
}

/// A VIS code with slots of `b` samples, each slot a steady tone.
pub open spec fn vis_tones(b: nat, bits: Seq<bool>) -> Seq<u32> {
    Seq::new(10 * b, |k: int| slot_tone(bits, k / (b as int)))
}

/// Reading a VIS code sent as steady tones gives back the mode that its
/// payload names.
pub proof fn lemma_vis_tones_read(b: nat, bits: Seq<bool>)
    requires
        b > 0,
        bits.len() == 8,
    ensures
        window_payload(vis_tones(b, bits)) == bits,
        vis_of_window(vis_tones(b, bits)) == mode_of_payload(bits),
{
    let w = vis_tones(b, bits);
    assert(w.len() / 10 == b);
    assert forall|i: int| 0 <= i < 10 implies #[trigger] slot(w, i) =~= constant(b, slot_tone(bits, i)) by {
        assert((i + 1) * b <= 10 * b) by (nonlinear_arith)
            requires 0 <= i < 10, b >= 0;
        assert(i * b + b == (i + 1) * b) by (nonlinear_arith);
        assert(i * b >= 0) by (nonlinear_arith) requires 0 <= i, b >= 0;
        assert(slot(w, i).len() == b);
        assert forall|k: int| 0 <= k < b implies #[trigger] slot(w, i)[k] == slot_tone(bits, i) by {
            assert(0 <= i * b + k < 10 * b) by (nonlinear_arith)
                requires 0 <= i < 10, 0 <= k < b;
            vstd::arithmetic::div_mod::lemma_fundamental_div_mod_converse(i * b + k, b as int, i, k);
            assert(slot(w, i)[k] == w[i * b + k]);
        }
    }
    assert forall|i: int| 0 <= i < 8 implies #[trigger] window_payload(w)[i] == bits[i] by {
        lemma_sum_constant(b, slot_tone(bits, i + 1));
        assert(slot(w, i + 1) == constant(b, slot_tone(bits, i + 1)));
        if bits[i] {
            assert(b * 1_100_000 <= 1_200_000 * b) by (nonlinear_arith);
        } else {
            assert(!(b * 1_300_000 <= 1_200_000 * b)) by (nonlinear_arith) requires b > 0;
        }
    }
    assert(window_payload(w) =~= bits);
    assert(slot(w, 9) == constant(b, BREAK_FREQ));
    lemma_constant_mean(b, BREAK_FREQ, BREAK_FREQ as int, TOLERANCE as int);
}

/// The VIS code sent for a mode is read back as that mode; a code that is
/// not in the table is read as no mode.
pub proof fn lemma_vis_window_round_trip(b: nat, c: u8)
    requires
        b > 0,
        c < 128,
    ensures
        vis_of_window(vis_tones(b, payload_of(c))) == mode_of_vis(c),
        forall|m: Mode| vis_code_of(m) == c ==> vis_of_window(vis_tones(b, payload_of(c))) == Some(m),
{
    lemma_vis_tones_read(b, payload_of(c));
    crate::vis::lemma_bits_spell_code(c);
    assert(data_ones(payload_of(c)) == ones_of(c));
    assert forall|m: Mode| vis_code_of(m) == c implies vis_of_window(vis_tones(b, payload_of(c))) == Some(m) by {
        crate::vis::lemma_vis_round_trip(m);
    }
}

/// A VIS code with any one of its eight payload bits flipped is read as no
/// mode.
pub proof fn lemma_vis_window_flip(b: nat, c: u8, j: int)
    requires
        b > 0,
        c < 128,
        0 <= j < 8,
    ensures
        vis_of_window(vis_tones(b, flip(payload_of(c), j))) is None,
{
    lemma_vis_tones_read(b, flip(payload_of(c), j));
    crate::vis::lemma_parity_catches_single_flip(c, j);
}

} // verus!
