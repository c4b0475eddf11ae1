//! Frequency discriminator: from the wrapped phase of the analytic signal,
//! one sample per input sample, to instantaneous frequency.
//!
//! A phase is a `u32` counting 2^-32 of a turn. A frequency is in millihertz.
use vstd::prelude::*;

verus! {

/// One full turn of phase.
pub const TURN: u64 = 0x1_0000_0000;

/// Lowest frequency that the discriminator reports (1000 Hz).
pub const FREQ_FLOOR: u32 = 1_000_000;

/// Highest frequency that the discriminator reports (3000 Hz).
pub const FREQ_CEIL: u32 = 3_000_000;

/// The phase advance from `prev` to `cur`, unwrapped into half a turn either
/// way: the interval (-1/2, 1/2] of a turn.
pub open spec fn phase_step(prev: u32, cur: u32) -> int {
    let d = cur as int - prev as int;
    if d > 0x8000_0000 {
        d - 0x1_0000_0000
    } else if d <= -0x8000_0000 {
        d + 0x1_0000_0000
    } else {
        d
    }
}

pub open spec fn abs(x: int) -> int {
    if x < 0 {
        -x
    } else {
        x
    }
}

pub open spec fn clamp_freq(f: int) -> int {
    if f > FREQ_CEIL {
        FREQ_CEIL as int
    } else if f < FREQ_FLOOR {
        FREQ_FLOOR as int
    } else {
        f
    }
}

/// Instantaneous frequency between two successive phases at `fs` samples
/// per second: `|fs * step| / turn`, in millihertz rounded to the nearest,
/// clamped to 1000 ..= 3000 Hz.
pub open spec fn inst_freq(fs: nat, prev: u32, cur: u32) -> u32 {
    clamp_freq((fs * abs(phase_step(prev, cur)) * 1000 + 0x8000_0000) / (TURN as int)) as u32
}

/// The phases with the one carried over from the previous block in front.
pub open spec fn chained(prev: Option<u32>, p: Seq<u32>) -> Seq<u32> {
    match prev {
        Some(x) => seq![x] + p,
        None => p,
    }
}

/// The frequencies that a block of phases yields: one for each pair of
/// successive phases, the carried phase counting as the first.
pub open spec fn freqs_of(fs: nat, prev: Option<u32>, p: Seq<u32>) -> Seq<u32> {
    let c = chained(prev, p);
    if c.len() == 0 {
        Seq::empty()
    } else {
        Seq::new((c.len() - 1) as nat, |i: int| inst_freq(fs, c[i], c[i + 1]))
    }
}

/// The phase carried to the next block.
pub open spec fn last_phase(prev: Option<u32>, p: Seq<u32>) -> Option<u32> {
    if p.len() == 0 {
        prev
    } else {
        Some(p.last())
    }
}

pub fn inst_freq_exec(fs: u32, prev: u32, cur: u32) -> (r: u32)
    ensures
        r == inst_freq(fs as nat, prev, cur),
        FREQ_FLOOR <= r <= FREQ_CEIL,
{
    let mut d: i64 = cur as i64 - prev as i64;
    if d > 0x8000_0000 {
        d = d - 0x1_0000_0000;
    } else if d <= -0x8000_0000 {
        d = d + 0x1_0000_0000;
    }
    assert(d == phase_step(prev, cur));
    let a: u64 = if d < 0 {
        (-d) as u64
    } else {
        d as u64
    };
    assert(fs as nat * a as nat * 1000 <= 0xffff_ffff * 0x8000_0000nat * 1000) by (nonlinear_arith)
        requires
            a <= 0x8000_0000,
            fs <= 0xffff_ffff,
    ;
    let f: u128 = (fs as u128 * a as u128 * 1000 + 0x8000_0000) / (TURN as u128);
    if f > FREQ_CEIL as u128 {
        FREQ_CEIL
    } else if f < FREQ_FLOOR as u128 {
        FREQ_FLOOR
    } else {
        f as u32
    }
}

/// Frequencies of a block of phases, with `prev` the last phase of the
/// previous block (none at the start of a stream).
pub fn instantaneous_frequencies(fs: u32, prev: Option<u32>, phases: &[u32]) -> (r: Vec<u32>)
    ensures
        r@ == freqs_of(fs as nat, prev, phases@),
        forall|i: int| 0 <= i < r@.len() ==> FREQ_FLOOR <= #[trigger] r@[i] <= FREQ_CEIL,
{
    let mut out: Vec<u32> = Vec::new();
    let mut last: Option<u32> = prev;
    let mut i: usize = 0;
    let ghost c = chained(prev, phases@);
    let ghost base: int = if prev is Some { 1 } else { 0 };
    while i < phases.len()
        invariant
            i <= phases@.len(),
            c == chained(prev, phases@),
            base == (if prev is Some { 1int } else { 0int }),
            last == last_phase(prev, phases@.subrange(0, i as int)),
            out@.len() == if last is Some { i + base - 1 } else { 0 },
            last is Some ==> last == Some(c[i + base - 1]),
            forall|k: int|
                0 <= k < out@.len() ==> #[trigger] out@[k] == inst_freq(fs as nat, c[k], c[k + 1]),
            forall|k: int| 0 <= k < out@.len() ==> FREQ_FLOOR <= #[trigger] out@[k] <= FREQ_CEIL,
        decreases phases@.len() - i,
    {
        let cur = phases[i];
        match last {
            Some(p) => {
                let f = inst_freq_exec(fs, p, cur);
                out.push(f);
            },
            None => {},
        }
        last = Some(cur);
        i = i + 1;
    }
    proof {
        assert(phases@.subrange(0, i as int) =~= phases@);
        assert(out@ =~= freqs_of(fs as nat, prev, phases@));
    }
    out
}

/// Discriminating a stream block by block, carrying the last phase from one
/// block to the next, gives the same frequencies as discriminating the whole
/// stream at once: block boundaries leave no mark.
pub proof fn lemma_blocks_join(fs: nat, prev: Option<u32>, a: Seq<u32>, b: Seq<u32>)
    ensures
        freqs_of(fs, prev, a + b) == freqs_of(fs, prev, a) + freqs_of(fs, last_phase(prev, a), b),
        last_phase(prev, a + b) == last_phase(last_phase(prev, a), b),
{
    let ca = chained(prev, a);
    let cb = chained(last_phase(prev, a), b);
    let cab = chained(prev, a + b);
    assert(cab =~= ca + b);
    if ca.len() == 0 {
        assert(cb =~= b);
        assert(cab =~= b);
        assert(freqs_of(fs, prev, a + b) =~= freqs_of(fs, prev, a) + freqs_of(fs, last_phase(prev, a), b));
    } else {
        assert(ca.last() == last_phase(prev, a).unwrap());
        assert(cb =~= seq![ca.last()] + b);
        let l = freqs_of(fs, prev, a + b);
        let r = freqs_of(fs, prev, a) + freqs_of(fs, last_phase(prev, a), b);
        assert(l.len() == r.len());
        assert forall|i: int| 0 <= i < l.len() implies l[i] == r[i] by {
            if i < ca.len() - 1 {
            } else {
                assert(cab[i] == cb[i - (ca.len() - 1)]);
                assert(cab[i + 1] == cb[i - (ca.len() - 1) + 1]);
            }
        }
        assert(l =~= r);
    }
    if b.len() > 0 {
        assert((a + b).last() == b.last());
    } else {
        assert(a + b =~= a);
    }
}

/// Reading back a steady tone: if phases `w` and `w2` are the phases
/// `c` and `c + f` (modulo a turn of `m` steps) rounded down to 2^-32 of a
/// turn, the frequency read between them is `f` exactly, for any frequency
/// of the band below half the sample rate, at any sample rate under about
/// 2 MHz.
pub proof fn lemma_steady_tone_read_exactly(fs: nat, c: nat, f: nat, w: u32, w2: u32)
    requires
        fs > 0,
        fs * 1000 < 0x8000_0000,
        c < fs * 1000,
        FREQ_FLOOR <= f <= FREQ_CEIL,
        2 * f < fs * 1000,
        w == (c * 0x1_0000_0000) / (fs * 1000),
        w2 == (((c + f) % (fs * 1000)) * 0x1_0000_0000) / (fs * 1000),
    ensures
        inst_freq(fs, w, w2) == f,
{
    let m: int = (fs * 1000) as int;
    let t: int = 0x1_0000_0000;
    let a: int = c * t;
    let b: int = f * t;
    let qa = a / m;
    let ra = a % m;
    let qs = (a + b) / m;
    let rs = (a + b) % m;
    vstd::arithmetic::div_mod::lemma_fundamental_div_mod(a, m);
    vstd::arithmetic::div_mod::lemma_fundamental_div_mod(a + b, m);
    vstd::arithmetic::div_mod::lemma_mod_pos_bound(a, m);
    vstd::arithmetic::div_mod::lemma_mod_pos_bound(a + b, m);
    let d = qs - qa;
    assert(m * d == b - rs + ra) by (nonlinear_arith)
        requires a == m * qa + ra, a + b == m * qs + rs, d == qs - qa;
    assert(0 <= d <= 0x8000_0000) by (nonlinear_arith)
        requires
            m * d == b - rs + ra,
            0 <= ra < m,
            0 <= rs < m,
            b == f * t,
            t == 0x1_0000_0000,
            2 * f < m,
            m > 0,
    ;
    assert(w == qa);
    if c + f < m {
        vstd::arithmetic::div_mod::lemma_small_mod((c + f) as nat, m as nat);
        assert((c + f) * t == a + b) by (nonlinear_arith)
            requires a == c * t, b == f * t;
        assert(w2 == qs);
        assert(phase_step(w, w2) == d);
    } else {
        assert(c + f < 2 * m);
        vstd::arithmetic::div_mod::lemma_fundamental_div_mod_converse((c + f) as int, m, 1, c + f - m);
        assert((c + f) as int % m == c + f - m);
        assert((c + f - m) * t == (a + b) - t * m) by (nonlinear_arith)
            requires a == c * t, b == f * t;
        assert((a + b) - t * m == (qs - t) * m + rs) by (nonlinear_arith)
            requires a + b == m * qs + rs;
        vstd::arithmetic::div_mod::lemma_fundamental_div_mod_converse((a + b) - t * m, m, qs - t, rs);
        assert(w2 == qs - t);
        assert(phase_step(w, w2) == d);
    }
    assert(abs(d) == d);
    assert(fs * d * 1000 == m * d) by (nonlinear_arith)
        requires m == fs * 1000;
    assert((m * d + 0x8000_0000) / t == f) by {
        assert(f * t <= m * d + 0x8000_0000 < (f + 1) * t) by (nonlinear_arith)
            requires
                m * d == b - rs + ra,
                0 <= ra < m,
                0 <= rs < m,
                m < 0x8000_0000,
                b == f * t,
                t == 0x1_0000_0000,
        ;
        vstd::arithmetic::div_mod::lemma_fundamental_div_mod_converse(
            m * d + 0x8000_0000,
            t,
            f as int,
            m * d + 0x8000_0000 - f * t,
        );
    }
}

} // verus!
