//! A phase-continuous oscillator on a sample clock.
//!
//! A tone of `d` nanoseconds lasts for as many samples as the clock ticks in
//! it; the fraction of a sample left over is carried to the next tone, so
//! that the tones of a transmission start where its time says they do. The
//! phase of each sample is given in 2^-32 of a turn: a sound card plays
//! `sin(2 pi phase / 2^32)`.
use crate::color::{level_freq, level_freq_exec};
use crate::discriminator::{
    freqs_of, inst_freq, last_phase, lemma_blocks_join, lemma_steady_tone_read_exactly, FREQ_CEIL,
    FREQ_FLOOR,
};
use vstd::prelude::*;

verus! {

/// A steady tone: a duration in nanoseconds and a frequency in millihertz.
#[derive(PartialEq, Eq, Structural, Debug, Clone, Copy)]
pub struct Tone {
    pub duration_ns: u64,
    pub freq_mhz: u32,
}

/// Samples that a tone of `d` nanoseconds takes, with `carry` billionths of
/// a sample left over from the tones before it.
pub open spec fn count_of(fs: nat, carry: nat, d: nat) -> nat {
    (fs * d + carry) / 1_000_000_000
}

pub open spec fn carry_after(fs: nat, carry: nat, d: nat) -> nat {
    (fs * d + carry) % 1_000_000_000
}

/// The phase accumulator counts in `fs * 1000` steps per turn, so that a
/// frequency in millihertz advances it by a whole number of steps a sample.
pub open spec fn steps_per_turn(fs: nat) -> nat {
    fs * 1000
}

/// Phase of sample `k` of a tone of `f` millihertz whose first sample is at
/// accumulator value `start`.
pub open spec fn phase_at(fs: nat, start: nat, f: nat, k: nat) -> u32 {
    ((((start + k * f) % steps_per_turn(fs)) * 0x1_0000_0000) / steps_per_turn(fs)) as u32
}

pub struct SampleGenerator {
    /// Samples per second.
    pub sample_rate: u32,
    /// Billionths of a sample carried over to the next tone.
    pub carry: u64,
    /// Phase accumulator: steps of `1 / (sample_rate * 1000)` turn.
    pub phase: u64,
}

impl SampleGenerator {
    pub open spec fn wf(&self) -> bool {
        &&& self.sample_rate > 0
        &&& self.carry < 1_000_000_000
        &&& self.phase < steps_per_turn(self.sample_rate as nat)
    }

    /// A generator at rest, at `sample_rate` samples per second.
    pub fn new(sample_rate: u32) -> (r: Self)
        requires
            sample_rate > 0,
        ensures
            r.wf(),
            r.sample_rate == sample_rate,
            r.carry == 0,
            r.phase == 0,
    {
        assert(sample_rate as nat * 1000 > 0) by (nonlinear_arith) requires sample_rate > 0;
        SampleGenerator { sample_rate, carry: 0, phase: 0 }
    }

    /// Samples of a tone of `duration_ns` nanoseconds that carries the
    /// brightness level `strength`.
    pub fn generate_color_samples(&mut self, duration_ns: u64, strength: u8) -> (r: Vec<u32>)
        requires
            old(self).wf(),
            count_of(old(self).sample_rate as nat, old(self).carry as nat, duration_ns as nat) <= usize::MAX,
        ensures
            final(self).wf(),
            final(self).sample_rate == old(self).sample_rate,
            r@ == tone_phases(
                old(self).sample_rate as nat,
                old(self).carry as nat,
                old(self).phase as nat,
                Tone { duration_ns, freq_mhz: level_freq(strength) },
            ),
            final(self).carry == carry_after(old(self).sample_rate as nat, old(self).carry as nat, duration_ns as nat),
            final(self).phase == (old(self).phase + r@.len() * level_freq(strength)) % (steps_per_turn(
                old(self).sample_rate as nat,
            ) as int),
    {
        let f = level_freq_exec(strength);
        let r = self.generate_samples(duration_ns, f);
        assert(r@ =~= tone_phases(
            old(self).sample_rate as nat,
            old(self).carry as nat,
            old(self).phase as nat,
            Tone { duration_ns, freq_mhz: f },
        ));
        r
    }

    /// Samples of a tone of `duration_ns` nanoseconds at `freq_mhz`
    /// millihertz, going on from the phase where the previous tone ended.
    pub fn generate_samples(&mut self, duration_ns: u64, freq_mhz: u32) -> (r: Vec<u32>)
        requires
            old(self).wf(),
            count_of(old(self).sample_rate as nat, old(self).carry as nat, duration_ns as nat) <= usize::MAX,
        ensures
            final(self).wf(),
            final(self).sample_rate == old(self).sample_rate,
            r@.len() == count_of(old(self).sample_rate as nat, old(self).carry as nat, duration_ns as nat),
            final(self).carry == carry_after(old(self).sample_rate as nat, old(self).carry as nat, duration_ns as nat),
            forall|k: int|
                0 <= k < r@.len() ==> #[trigger] r@[k] == phase_at(
                    old(self).sample_rate as nat,
                    old(self).phase as nat,
                    freq_mhz as nat,
                    k as nat,
                ),
            final(self).phase == (old(self).phase + r@.len() * freq_mhz) % (steps_per_turn(
                old(self).sample_rate as nat,
            ) as int),
    {
        let fs = self.sample_rate;
        assert(fs as nat * duration_ns as nat <= 0xffff_ffff * 0xffff_ffff_ffff_ffffnat) by (nonlinear_arith)
            requires fs <= 0xffff_ffff, duration_ns <= 0xffff_ffff_ffff_ffff;
        let total: u128 = fs as u128 * duration_ns as u128 + self.carry as u128;
        let n: usize = (total / 1_000_000_000) as usize;
        self.carry = (total % 1_000_000_000) as u64;
        let m: u64 = fs as u64 * 1000;
        let ghost start = self.phase as nat;
        let ghost f = freq_mhz as nat;
        let mut cur: u64 = self.phase;
        assert(cur == (start + 0int * f) % (m as int)) by {
            vstd::arithmetic::div_mod::lemma_small_mod(start, m as nat);
        }
        let mut out: Vec<u32> = Vec::new();
        let mut k: usize = 0;
        while k < n
            invariant
                k <= n,
                f == freq_mhz as nat,
                start == old(self).phase as nat,
                fs == old(self).sample_rate,
                m == steps_per_turn(fs as nat),
                m > 0,
                cur < m,
                cur == (start + k * f) % (m as int),
                out@.len() == k,
                forall|i: int| 0 <= i < k ==> #[trigger] out@[i] == phase_at(fs as nat, start, f, i as nat),
            decreases n - k,
        {
            assert(cur as nat * 0x1_0000_0000 < m as nat * 0x1_0000_0000) by (nonlinear_arith)
                requires cur < m;
            let word: u128 = (cur as u128 * 0x1_0000_0000) / m as u128;
            assert(word < 0x1_0000_0000) by {
                vstd::arithmetic::div_mod::lemma_div_is_ordered(
                    (cur * 0x1_0000_0000) as int,
                    (m * 0x1_0000_0000 - 1) as int,
                    m as int,
                );
                assert((m * 0x1_0000_0000 - 1) as int / m as int <= 0xffff_ffff) by {
                    vstd::arithmetic::div_mod::lemma_fundamental_div_mod_converse(
                        (m * 0x1_0000_0000 - 1) as int,
                        m as int,
                        0xffff_ffff,
                        (m - 1) as int,
                    );
                }
            }
            out.push(word as u32);
            let ghost x: int = start + k * f;
            let ghost mi: int = m as int;
            proof {
                vstd::arithmetic::div_mod::lemma_add_mod_noop(x, f as int, mi);
                vstd::arithmetic::div_mod::lemma_add_mod_noop_right(cur as int, f as int, mi);
                assert(x + f == start + (k + 1) * f) by (nonlinear_arith)
                    requires x == start + k * f;
            }
            let next: u128 = (cur as u128 + freq_mhz as u128) % m as u128;
            proof {
                vstd::arithmetic::div_mod::lemma_mod_pos_bound(cur + f, mi);
            }
            assert(next == (x + f) % mi && next < m);
            cur = next as u64;
            k = k + 1;
        }
        self.phase = cur;
        out
    }
}

/// Total duration of a run of tones.
pub open spec fn total_ns(tones: Seq<Tone>) -> nat
    decreases tones.len(),
{
    if tones.len() == 0 {
        0
    } else {
        total_ns(tones.drop_last()) + tones.last().duration_ns as nat
    }
}

/// Carry left after a run of tones.
pub open spec fn carry_through(fs: nat, c0: nat, tones: Seq<Tone>) -> nat
    decreases tones.len(),
{
    if tones.len() == 0 {
        c0
    } else {
        carry_after(fs, carry_through(fs, c0, tones.drop_last()), tones.last().duration_ns as nat)
    }
}

/// Phase accumulator after a run of tones.
pub open spec fn phase_through(fs: nat, c0: nat, p0: nat, tones: Seq<Tone>) -> nat
    decreases tones.len(),
{
    if tones.len() == 0 {
        p0
    } else {
        let prev = tones.drop_last();
        let t = tones.last();
        ((phase_through(fs, c0, p0, prev) + count_of(fs, carry_through(fs, c0, prev), t.duration_ns as nat)
            * t.freq_mhz) % (steps_per_turn(fs) as int)) as nat
    }
}

/// The phases of one tone.
pub open spec fn tone_phases(fs: nat, carry: nat, phase: nat, t: Tone) -> Seq<u32> {
    Seq::new(count_of(fs, carry, t.duration_ns as nat), |k: int| phase_at(fs, phase, t.freq_mhz as nat, k as nat))
}

/// The phases of a run of tones, each going on from where the last ended.
pub open spec fn rendered(fs: nat, c0: nat, p0: nat, tones: Seq<Tone>) -> Seq<u32>
    decreases tones.len(),
{
    if tones.len() == 0 {
        Seq::empty()
    } else {
        let prev = tones.drop_last();
        rendered(fs, c0, p0, prev) + tone_phases(
            fs,
            carry_through(fs, c0, prev),
            phase_through(fs, c0, p0, prev),
            tones.last(),
        )
    }
}

/// A run of tones takes exactly as many samples as the clock ticks over
/// its total duration: the rounding of each tone is made up by the next.
pub proof fn lemma_rendered_len(fs: nat, c0: nat, p0: nat, tones: Seq<Tone>)
    requires
        c0 < 1_000_000_000,
    ensures
        rendered(fs, c0, p0, tones).len() == (fs * total_ns(tones) + c0) / 1_000_000_000,
        carry_through(fs, c0, tones) == (fs * total_ns(tones) + c0) % 1_000_000_000,
    decreases tones.len(),
{
    if tones.len() == 0 {
        vstd::arithmetic::div_mod::lemma_small_mod(c0, 1_000_000_000);
        assert(c0 / 1_000_000_000 == 0);
    } else {
        let prev = tones.drop_last();
        let d = tones.last().duration_ns as nat;
        lemma_rendered_len(fs, c0, p0, prev);
        let nn: int = 1_000_000_000;
        let a: int = (fs * total_ns(prev) + c0) as int;
        let q: int = a / nn;
        let r: int = a % nn;
        vstd::arithmetic::div_mod::lemma_fundamental_div_mod(a, nn);
        vstd::arithmetic::div_mod::lemma_mod_pos_bound(a, nn);
        let b: int = fs * d + r;
        vstd::arithmetic::div_mod::lemma_fundamental_div_mod(b, nn);
        vstd::arithmetic::div_mod::lemma_mod_pos_bound(b, nn);
        assert(total_ns(tones) == total_ns(prev) + d);
        assert(fs * total_ns(tones) + c0 == (q + b / nn) * nn + b % nn) by (nonlinear_arith)
            requires
                a == nn * q + r,
                b == nn * (b / nn) + b % nn,
                b == fs * d + r,
                a == fs * total_ns(prev) + c0,
                total_ns(tones) == total_ns(prev) + d,
        ;
        vstd::arithmetic::div_mod::lemma_fundamental_div_mod_converse(
            (fs * total_ns(tones) + c0) as int,
            nn,
            q + b / nn,
            b % nn,
        );
        assert(carry_through(fs, c0, prev) == r);
        assert(count_of(fs, r as nat, d) == b / nn);
        assert(carry_after(fs, r as nat, d) == b % nn);
        assert(rendered(fs, c0, p0, tones).len() == rendered(fs, c0, p0, prev).len() + count_of(fs, r as nat, d));
    }
}

impl SampleGenerator {
    /// Phases of a run of tones.
    pub fn render(&mut self, tones: &[Tone]) -> (r: Vec<u32>)
        requires
            old(self).wf(),
            (old(self).sample_rate * total_ns(tones@) + old(self).carry) / 1_000_000_000 <= usize::MAX,
        ensures
            final(self).wf(),
            final(self).sample_rate == old(self).sample_rate,
            r@ == rendered(old(self).sample_rate as nat, old(self).carry as nat, old(self).phase as nat, tones@),
            r@.len() == (old(self).sample_rate * total_ns(tones@) + old(self).carry) / 1_000_000_000,
            final(self).carry == carry_through(old(self).sample_rate as nat, old(self).carry as nat, tones@),
            final(self).phase == phase_through(
                old(self).sample_rate as nat,
                old(self).carry as nat,
                old(self).phase as nat,
                tones@,
            ),
    {
        let ghost fs = self.sample_rate as nat;
        let ghost c0 = self.carry as nat;
        let ghost p0 = self.phase as nat;
        proof {
            lemma_rendered_len(fs, c0, p0, tones@);
        }
        let mut out: Vec<u32> = Vec::new();
        let mut i: usize = 0;
        while i < tones.len()
            invariant
                i <= tones@.len(),
                self.wf(),
                self.sample_rate == fs,
                c0 == old(self).carry,
                c0 < 1_000_000_000,
                (fs * total_ns(tones@) + c0) / 1_000_000_000 <= usize::MAX,
                out@ == rendered(fs, c0, p0, tones@.subrange(0, i as int)),
                self.carry == carry_through(fs, c0, tones@.subrange(0, i as int)),
                self.phase == phase_through(fs, c0, p0, tones@.subrange(0, i as int)),
            decreases tones@.len() - i,
        {
            let ghost pre = tones@.subrange(0, i as int);
            let ghost cur = tones@.subrange(0, i + 1);
            assert(cur.drop_last() =~= pre);
            proof {
                lemma_rendered_len(fs, c0, p0, cur);
                lemma_total_prefix(tones@, i + 1);
                assert(fs * total_ns(cur) <= fs * total_ns(tones@)) by (nonlinear_arith)
                    requires total_ns(cur) <= total_ns(tones@);
                vstd::arithmetic::div_mod::lemma_div_is_ordered(
                    (fs * total_ns(cur) + c0) as int,
                    (fs * total_ns(tones@) + c0) as int,
                    1_000_000_000,
                );
            }
            let t = tones[i];
            let piece = self.generate_samples(t.duration_ns, t.freq_mhz);
            let mut j: usize = 0;
            let ghost base = out@;
            while j < piece.len()
                invariant
                    j <= piece@.len(),
                    out@ == base + piece@.subrange(0, j as int),
                    (fs * total_ns(cur) + c0) / 1_000_000_000 <= usize::MAX,
                    base.len() + piece@.len() == (fs * total_ns(cur) + c0) / 1_000_000_000,
                decreases piece@.len() - j,
            {
                out.push(piece[j]);
                j = j + 1;
                assert(out@ =~= base + piece@.subrange(0, j as int));
            }
            assert(piece@ =~= tone_phases(fs, carry_through(fs, c0, pre), phase_through(fs, c0, p0, pre), t));
            assert(out@ =~= rendered(fs, c0, p0, cur));
            i = i + 1;
        }
        assert(tones@.subrange(0, i as int) =~= tones@);
        out
    }
}

proof fn lemma_total_prefix(tones: Seq<Tone>, j: int)
    requires
        0 <= j <= tones.len(),
    ensures
        total_ns(tones.subrange(0, j)) <= total_ns(tones),
    decreases tones.len(),
{
    if j < tones.len() {
        lemma_total_prefix(tones.drop_last(), j);
        assert(tones.drop_last().subrange(0, j) =~= tones.subrange(0, j));
    } else {
        assert(tones.subrange(0, j) =~= tones);
    }
}

/// The discriminator reads each pair of successive samples of a tone of the
/// band 1000 ..= 3000 Hz at exactly the tone's frequency, when the tone is
/// below half the sample rate.
pub proof fn lemma_tone_reads_back(fs: nat, start: nat, f: nat, k: nat)
    requires
        fs > 0,
        fs * 1000 < 0x8000_0000,
        FREQ_FLOOR <= f <= FREQ_CEIL,
        2 * f < fs * 1000,
    ensures
        inst_freq(fs, phase_at(fs, start, f, k), phase_at(fs, start, f, k + 1)) == f,
{
    let m: int = (fs * 1000) as int;
    let t: int = 0x1_0000_0000;
    let c = ((start + k * f) as int % m) as nat;
    vstd::arithmetic::div_mod::lemma_mod_pos_bound((start + k * f) as int, m);
    vstd::arithmetic::div_mod::lemma_add_mod_noop((start + k * f) as int, f as int, m);
    vstd::arithmetic::div_mod::lemma_add_mod_noop_right(c as int, f as int, m);
    assert(start + k * f + f == start + (k + 1) * f) by (nonlinear_arith);
    let c2 = ((c + f) as int % m) as nat;
    assert(c2 == (start + (k + 1) * f) as int % m);
    vstd::arithmetic::div_mod::lemma_mod_pos_bound((c + f) as int, m);
    assert(c * t / m < t) by {
        assert(c * t < m * t) by (nonlinear_arith) requires c < m, t > 0;
        vstd::arithmetic::div_mod::lemma_div_is_ordered(c * t, m * t - 1, m);
        vstd::arithmetic::div_mod::lemma_fundamental_div_mod_converse(m * t - 1, m, t - 1, m - 1);
    }
    assert(c2 * t / m < t) by {
        assert(c2 * t < m * t) by (nonlinear_arith) requires c2 < m, t > 0;
        vstd::arithmetic::div_mod::lemma_div_is_ordered(c2 * t, m * t - 1, m);
        vstd::arithmetic::div_mod::lemma_fundamental_div_mod_converse(m * t - 1, m, t - 1, m - 1);
    }
    assert(c * t / m >= 0) by {
        vstd::arithmetic::div_mod::lemma_div_pos_is_pos(c * t, m);
    }
    assert(c2 * t / m >= 0) by {
        vstd::arithmetic::div_mod::lemma_div_pos_is_pos(c2 * t, m);
    }
    lemma_steady_tone_read_exactly(fs, c, f, phase_at(fs, start, f, k), phase_at(fs, start, f, k + 1));
}

/// A phase accumulator value as a phase of 2^-32 of a turn.
pub open spec fn word_of(fs: nat, c: nat) -> u32 {
    ((c * 0x1_0000_0000) / steps_per_turn(fs)) as u32
}

proof fn lemma_word_of(fs: nat, c: nat)
    requires
        fs > 0,
        c < fs * 1000,
    ensures
        word_of(fs, c) as int == (c * 0x1_0000_0000) as int / (fs * 1000) as int,
{
    let m: int = (fs * 1000) as int;
    let t: int = 0x1_0000_0000;
    assert(c * t < m * t) by (nonlinear_arith) requires c < m, t > 0;
    vstd::arithmetic::div_mod::lemma_div_is_ordered(c * t, m * t - 1, m);
    vstd::arithmetic::div_mod::lemma_fundamental_div_mod_converse(m * t - 1, m, t - 1, m - 1);
    vstd::arithmetic::div_mod::lemma_div_pos_is_pos(c * t, m);
}

/// The frequency of the tone that each sample of a run of tones belongs to.
pub open spec fn sample_freqs(fs: nat, c0: nat, tones: Seq<Tone>) -> Seq<u32>
    decreases tones.len(),
{
    if tones.len() == 0 {
        Seq::empty()
    } else {
        let prev = tones.drop_last();
        sample_freqs(fs, c0, prev) + Seq::new(
            count_of(fs, carry_through(fs, c0, prev), tones.last().duration_ns as nat),
            |k: int| tones.last().freq_mhz,
        )
    }
}

/// The accumulator value of the last sample of a run of tones.
pub open spec fn last_acc(fs: nat, c0: nat, p0: nat, tones: Seq<Tone>) -> nat
    decreases tones.len(),
{
    if tones.len() == 0 {
        p0
    } else {
        let prev = tones.drop_last();
        let n = count_of(fs, carry_through(fs, c0, prev), tones.last().duration_ns as nat);
        if n == 0 {
            last_acc(fs, c0, p0, prev)
        } else {
            ((phase_through(fs, c0, p0, prev) + (n - 1) * tones.last().freq_mhz) % (steps_per_turn(fs) as int)) as nat
        }
    }
}

/// Every tone lies in the band 1000 ..= 3000 Hz and below half the sample
/// rate.
pub open spec fn in_band(fs: nat, tones: Seq<Tone>) -> bool {
    forall|i: int|
        0 <= i < tones.len() ==> FREQ_FLOOR <= (#[trigger] tones[i]).freq_mhz <= FREQ_CEIL && 2
            * tones[i].freq_mhz < fs * 1000
}

/// The receiver's discriminator, run over what the generator sends, gives
/// back for every sample but the last the frequency of the tone that the
/// sample belongs to: nothing is lost or smeared at tone boundaries.
pub proof fn lemma_tones_read_back(fs: nat, c0: nat, p0: nat, tones: Seq<Tone>)
    requires
        fs > 0,
        fs * 1000 < 0x8000_0000,
        p0 < fs * 1000,
        in_band(fs, tones),
    ensures
        rendered(fs, c0, p0, tones).len() == sample_freqs(fs, c0, tones).len(),
        phase_through(fs, c0, p0, tones) < fs * 1000,
        forall|i: int|
            0 <= i < sample_freqs(fs, c0, tones).len() ==> FREQ_FLOOR <= #[trigger] sample_freqs(fs, c0, tones)[i]
                <= FREQ_CEIL && 2 * sample_freqs(fs, c0, tones)[i] < fs * 1000,
        sample_freqs(fs, c0, tones).len() > 0 ==> {
            &&& last_acc(fs, c0, p0, tones) < fs * 1000
            &&& rendered(fs, c0, p0, tones).last() == word_of(fs, last_acc(fs, c0, p0, tones))
            &&& phase_through(fs, c0, p0, tones) == (last_acc(fs, c0, p0, tones) + sample_freqs(fs, c0, tones).last())
                % (fs * 1000) as int
        },
        freqs_of(fs, None, rendered(fs, c0, p0, tones)) == if sample_freqs(fs, c0, tones).len() == 0 {
            Seq::<u32>::empty()
        } else {
            sample_freqs(fs, c0, tones).drop_last()
        },
    decreases tones.len(),
{
    let m: int = (fs * 1000) as int;
    if tones.len() == 0 {
        assert(freqs_of(fs, None, Seq::<u32>::empty()) =~= Seq::<u32>::empty());
        return;
    }
    let prev = tones.drop_last();
    let t = tones.last();
    assert(in_band(fs, prev)) by {
        assert forall|i: int| 0 <= i < prev.len() implies FREQ_FLOOR <= (#[trigger] prev[i]).freq_mhz <= FREQ_CEIL
            && 2 * prev[i].freq_mhz < fs * 1000 by {
            assert(prev[i] == tones[i]);
        }
    }
    assert(FREQ_FLOOR <= t.freq_mhz <= FREQ_CEIL && 2 * t.freq_mhz < fs * 1000) by {
        assert(t == tones[tones.len() - 1]);
    }
    lemma_tones_read_back(fs, c0, p0, prev);
    let rp = rendered(fs, c0, p0, prev);
    let sp = sample_freqs(fs, c0, prev);
    let p = phase_through(fs, c0, p0, prev);
    let n = count_of(fs, carry_through(fs, c0, prev), t.duration_ns as nat);
    let f = t.freq_mhz as nat;
    let tp = tone_phases(fs, carry_through(fs, c0, prev), p, t);
    let r = rendered(fs, c0, p0, tones);
    let sf = sample_freqs(fs, c0, tones);
    let run = Seq::new(n, |k: int| t.freq_mhz);
    assert(r == rp + tp);
    assert(sf == sp + run);
    vstd::arithmetic::div_mod::lemma_mod_pos_bound((p + n * f) as int, m);
    lemma_blocks_join(fs, None, rp, tp);
    if n == 0 {
        assert(tp =~= Seq::<u32>::empty());
        assert(r =~= rp);
        assert(sf =~= sp);
        vstd::arithmetic::div_mod::lemma_small_mod(p, m as nat);
        assert(freqs_of(fs, last_phase(None, rp), tp) =~= Seq::<u32>::empty());
        assert(freqs_of(fs, None, r) =~= freqs_of(fs, None, rp));
        return;
    }
    // within the new tone
    assert forall|k: int| 0 <= k < n - 1 implies #[trigger] inst_freq(fs, tp[k], tp[k + 1]) == f by {
        lemma_tone_reads_back(fs, p, f, k as nat);
    }
    // the last sample of the run
    assert(tp[n - 1] == phase_at(fs, p, f, (n - 1) as nat));
    vstd::arithmetic::div_mod::lemma_mod_pos_bound((p + (n - 1) * f) as int, m);
    vstd::arithmetic::div_mod::lemma_add_mod_noop((p + (n - 1) * f) as int, f as int, m);
    vstd::arithmetic::div_mod::lemma_add_mod_noop_right(((p + (n - 1) * f) % m) as int, f as int, m);
    assert(p + (n - 1) * f + f == p + n * f) by (nonlinear_arith);
    assert(forall|i: int| 0 <= i < sf.len() ==> FREQ_FLOOR <= #[trigger] sf[i] <= FREQ_CEIL && 2 * sf[i] < fs * 1000) by {
        assert forall|i: int| 0 <= i < sf.len() implies FREQ_FLOOR <= #[trigger] sf[i] <= FREQ_CEIL && 2 * sf[i] < fs
            * 1000 by {
            if i >= sp.len() {
                assert(sf[i] == run[i - sp.len()]);
            } else {
                assert(sf[i] == sp[i]);
            }
        }
    }
    if rp.len() == 0 {
        assert(sp.len() == 0);
        let lhs = freqs_of(fs, None, r);
        assert(r =~= tp);
        assert(lhs.len() == n - 1);
        assert(lhs =~= sf.drop_last()) by {
            assert forall|k: int| 0 <= k < n - 1 implies lhs[k] == sf.drop_last()[k] by {
                assert(sf[k] == run[k]);
            }
        }
    } else {
        let c_last = last_acc(fs, c0, p0, prev);
        let fp = sp.last();
        assert(sp.len() > 0);
        assert(fp == sp[sp.len() - 1]);
        assert(FREQ_FLOOR <= fp <= FREQ_CEIL && 2 * fp < fs * 1000);
        assert(tp[0] == phase_at(fs, p, f, 0));
        vstd::arithmetic::div_mod::lemma_small_mod(p, m as nat);
        lemma_word_of(fs, c_last);
        lemma_word_of(fs, p);
        assert(p + 0 * f == p);
        assert(tp[0] == word_of(fs, p));
        assert(p == (c_last + fp) % m);
        assert(tp[0] as int == (((c_last + fp) % m) * 0x1_0000_0000) / m);
        lemma_steady_tone_read_exactly(fs, c_last, fp as nat, rp.last(), tp[0]);
        let head = freqs_of(fs, Some(rp.last()), tp);
        assert(head[0] == fp);
        assert(last_phase(None, rp) == Some(rp.last()));
        let lhs = freqs_of(fs, None, r);
        assert(lhs == freqs_of(fs, None, rp) + head);
        assert(lhs =~= sf.drop_last()) by {
            assert forall|k: int| 0 <= k < lhs.len() implies lhs[k] == sf.drop_last()[k] by {
                if k < sp.len() - 1 {
                    assert(lhs[k] == sp.drop_last()[k]);
                    assert(sf[k] == sp[k]);
                } else if k == sp.len() - 1 {
                    assert(lhs[k] == head[0]);
                    assert(sf[k] == sp[k]);
                } else {
                    let j = k - sp.len();
                    assert(lhs[k] == head[j + 1]);
                    assert(head[j + 1] == inst_freq(fs, tp[j], tp[j + 1]));
                    assert(sf[k] == run[j]);
                }
            }
        }
    }
}

} // verus!
