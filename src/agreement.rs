//! Transmitter and receiver agree: what the transmitter sends for a header
//! is read by the receiver as the leader and the VIS code of its mode.
use crate::arith::constant;
use crate::color::{level_freq, Rgb};
use crate::discriminator::{freqs_of, FREQ_CEIL, FREQ_FLOOR};
use crate::encoder::{
    bit_tone, header_tones, lead_tones, lemma_lines_total, lemma_total_concat, line_tones, lines_tones,
    picture_tones, segment_tones, segs_tones, tone, Mode,
};
use crate::header::{
    header_len, leader_at, leader_search, leader_tones, lemma_leader_at_prefix, lemma_leader_tolerance,
    lemma_vis_tones_read, lemma_vis_window_round_trip, vis_len, vis_of_window, vis_tones,
};
use crate::layout::{lead_of, segments_of, Part};
use crate::line::{groups_of, lemma_layout_bounds, line_ns, tone_fits};
use crate::mode::Mode as State;
use crate::sample_generator::{
    carry_after, carry_through, count_of, in_band, lemma_rendered_len, lemma_tones_read_back, rendered,
    sample_freqs, total_ns, Tone,
};
use crate::sstv_decoder::{leader_step, step, vis_step, Snapshot};
use crate::sstv_image::SSTVImage;
use crate::vis::{lemma_vis_round_trip, mode_of_vis, payload_of, vis_code_of};
use vstd::prelude::*;

verus! {

proof fn lemma_sample_freqs_concat(fs: nat, c0: nat, a: Seq<Tone>, b: Seq<Tone>)
    ensures
        sample_freqs(fs, c0, a + b) == sample_freqs(fs, c0, a) + sample_freqs(fs, carry_through(fs, c0, a), b),
        carry_through(fs, c0, a + b) == carry_through(fs, carry_through(fs, c0, a), b),
    decreases b.len(),
{
    if b.len() == 0 {
        assert(a + b =~= a);
        assert(sample_freqs(fs, c0, a) + sample_freqs(fs, carry_through(fs, c0, a), b) =~= sample_freqs(fs, c0, a));
    } else {
        lemma_sample_freqs_concat(fs, c0, a, b.drop_last());
        assert((a + b).drop_last() =~= a + b.drop_last());
        assert((a + b).last() == b.last());
        assert(sample_freqs(fs, c0, a + b) =~= sample_freqs(fs, c0, a) + sample_freqs(
            fs,
            carry_through(fs, c0, a),
            b,
        ));
    }
}

/// A tone that lasts a whole number of samples, started with no carry.
proof fn lemma_whole_tone(fs: nat, t: Tone, n: nat)
    requires
        fs * t.duration_ns == n * 1_000_000_000,
    ensures
        sample_freqs(fs, 0, seq![t]) == constant(n, t.freq_mhz),
        carry_through(fs, 0, seq![t]) == 0,
{
    let s = seq![t];
    assert(s.drop_last() =~= Seq::<Tone>::empty());
    assert(s.last() == t);
    assert(carry_through(fs, 0, Seq::<Tone>::empty()) == 0);
    vstd::arithmetic::div_mod::lemma_fundamental_div_mod_converse((fs * t.duration_ns) as int, 1_000_000_000, n as int, 0);
    assert(count_of(fs, 0, t.duration_ns as nat) == n);
    assert(carry_after(fs, 0, t.duration_ns as nat) == 0);
    assert(sample_freqs(fs, 0, Seq::<Tone>::empty()) =~= Seq::<u32>::empty());
    assert(sample_freqs(fs, 0, s) =~= constant(n, t.freq_mhz));
}

/// The eight payload bits of a header, each `nb` samples long.
proof fn lemma_bit_run(fs: nat, p: Seq<bool>, k: nat, nb: nat)
    requires
        k <= p.len(),
        fs > 0,
        fs * 30_000_000 == nb * 1_000_000_000,
    ensures
        sample_freqs(fs, 0, Seq::new(k, |i: int| bit_tone(p[i]))) =~= Seq::new(
            k * nb,
            |x: int| bit_tone(p[x / nb as int]).freq_mhz,
        ),
        carry_through(fs, 0, Seq::new(k, |i: int| bit_tone(p[i]))) == 0,
    decreases k,
{
    let s = Seq::new(k, |i: int| bit_tone(p[i]));
    if k == 0 {
        assert(sample_freqs(fs, 0, s) =~= Seq::<u32>::empty());
    } else {
        let prev = Seq::new((k - 1) as nat, |i: int| bit_tone(p[i]));
        lemma_bit_run(fs, p, (k - 1) as nat, nb);
        assert(s =~= prev + seq![bit_tone(p[k - 1])]);
        lemma_sample_freqs_concat(fs, 0, prev, seq![bit_tone(p[k - 1])]);
        lemma_whole_tone(fs, bit_tone(p[k - 1]), nb);
        assert(nb > 0) by (nonlinear_arith)
            requires fs * 30_000_000 == nb * 1_000_000_000, fs > 0;
        let got = sample_freqs(fs, 0, s);
        let want = Seq::new(k * nb, |x: int| bit_tone(p[x / nb as int]).freq_mhz);
        assert((k - 1) * nb + nb == k * nb) by (nonlinear_arith);
        assert(got.len() == want.len());
        assert forall|x: int| 0 <= x < want.len() implies got[x] == want[x] by {
            if x >= (k - 1) * nb {
                vstd::arithmetic::div_mod::lemma_fundamental_div_mod_converse(
                    x,
                    nb as int,
                    k - 1,
                    x - (k - 1) * nb,
                );
            } else {
                assert(got[x] == sample_freqs(fs, 0, prev)[x]);
            }
        }
    }
}

/// At a sample rate that is a multiple of 100 Hz every part of the header
/// lasts a whole number of samples, and the frequency of each sample of the
/// header is that of the leader the receiver looks for followed by the VIS
/// code of `c` in slots of 30 ms.
pub proof fn lemma_header_samples(fs: nat, c: u8)
    requires
        fs > 0,
        fs % 100 == 0,
    ensures
        sample_freqs(fs, 0, header_tones(c)) == leader_tones(fs, 0) + vis_tones(3 * fs / 100, payload_of(c)),
        carry_through(fs, 0, header_tones(c)) == 0,
{
    let j: nat = fs / 100;
    assert(fs == 100 * j);
    let t0 = tone(300_000_000, 1_900_000);
    let t1 = tone(10_000_000, 1_200_000);
    let t2 = tone(300_000_000, 1_900_000);
    let t3 = tone(30_000_000, 1_200_000);
    let t4 = tone(30_000_000, 1_200_000);
    let p = payload_of(c);
    let bits = Seq::new(8, |i: int| bit_tone(p[i]));
    let nb: nat = 3 * j;
    let p1 = seq![t0];
    let p2 = p1 + seq![t1];
    let p3 = p2 + seq![t2];
    let p4 = p3 + seq![t3];
    let p5 = p4 + bits;
    let p6 = p5 + seq![t4];
    assert(header_tones(c) =~= p6);
    lemma_whole_tone(fs, t0, 30 * j);
    lemma_whole_tone(fs, t1, j);
    lemma_whole_tone(fs, t2, 30 * j);
    lemma_whole_tone(fs, t3, nb);
    lemma_whole_tone(fs, t4, nb);
    lemma_bit_run(fs, p, 8, nb);
    lemma_sample_freqs_concat(fs, 0, p1, seq![t1]);
    lemma_sample_freqs_concat(fs, 0, p2, seq![t2]);
    lemma_sample_freqs_concat(fs, 0, p3, seq![t3]);
    lemma_sample_freqs_concat(fs, 0, p4, bits);
    lemma_sample_freqs_concat(fs, 0, p5, seq![t4]);
    let got = sample_freqs(fs, 0, header_tones(c));
    let lead = constant(30 * j, 1_900_000) + constant(j, 1_200_000) + constant(30 * j, 1_900_000);
    let body = constant(nb, 1_200_000) + Seq::new(8 * nb, |x: int| bit_tone(p[x / nb as int]).freq_mhz)
        + constant(nb, 1_200_000);
    assert(got =~= lead + body);
    vstd::arithmetic::div_mod::lemma_fundamental_div_mod_converse((fs * 300 + 500) as int, 1000, (30 * j) as int, 500);
    vstd::arithmetic::div_mod::lemma_fundamental_div_mod_converse((fs * 310 + 500) as int, 1000, (31 * j) as int, 500);
    vstd::arithmetic::div_mod::lemma_fundamental_div_mod_converse((fs * 610 + 500) as int, 1000, (61 * j) as int, 500);
    assert(leader_tones(fs, 0) =~= lead);
    let v = vis_tones(nb, p);
    assert(nb > 0);
    assert(v.len() == body.len());
    assert forall|k: int| 0 <= k < v.len() implies v[k] == body[k] by {
        if k < nb {
            vstd::arithmetic::div_mod::lemma_fundamental_div_mod_converse(k, nb as int, 0, k);
        } else if k < 9 * nb {
            let nbi: int = nb as int;
            let q = (k - nbi) / nbi;
            let r = (k - nbi) % nbi;
            vstd::arithmetic::div_mod::lemma_fundamental_div_mod(k - nbi, nbi);
            vstd::arithmetic::div_mod::lemma_mod_pos_bound(k - nbi, nbi);
            assert(k == (q + 1) * nbi + r) by (nonlinear_arith)
                requires k - nbi == nbi * q + r;
            vstd::arithmetic::div_mod::lemma_fundamental_div_mod_converse(k, nbi, q + 1, r);
            assert(0 <= q < 8) by (nonlinear_arith)
                requires k - nbi == nbi * q + r, 0 <= r < nbi, nbi <= k < 9 * nbi;
        } else {
            vstd::arithmetic::div_mod::lemma_fundamental_div_mod_converse(k, nb as int, 9, k - 9 * nb);
        }
    }
    assert(v =~= body);
    assert(3 * fs / 100 == nb);
}

proof fn lemma_leader_first(fs: nat, tail: Seq<u32>)
    requires
        fs > 0,
        fs % 100 == 0,
    ensures
        leader_tones(fs, 0).len() == header_len(fs),
        leader_search(leader_tones(fs, 0) + tail, fs) == (0nat, true),
{
    let j: nat = fs / 100;
    let l = leader_tones(fs, 0);
    vstd::arithmetic::div_mod::lemma_fundamental_div_mod_converse((fs * 300 + 500) as int, 1000, (30 * j) as int, 500);
    vstd::arithmetic::div_mod::lemma_fundamental_div_mod_converse((fs * 310 + 500) as int, 1000, (31 * j) as int, 500);
    vstd::arithmetic::div_mod::lemma_fundamental_div_mod_converse((fs * 610 + 500) as int, 1000, (61 * j) as int, 500);
    assert(l.len() == header_len(fs));
    lemma_leader_tolerance(fs, 0);
    lemma_leader_at_prefix(l, tail, fs);
    assert(leader_at(l + tail, fs));
    reveal(leader_search);
}

proof fn lemma_vis_first(fs: nat, c: u8, rest: Seq<u32>)
    requires
        fs > 0,
        fs % 100 == 0,
        c < 128,
    ensures
        (vis_tones(3 * fs / 100, payload_of(c)) + rest).len() >= vis_len(fs),
        vis_of_window((vis_tones(3 * fs / 100, payload_of(c)) + rest).subrange(0, vis_len(fs) as int))
            == mode_of_vis(c),
        (vis_tones(3 * fs / 100, payload_of(c)) + rest).skip(vis_len(fs) as int) == rest,
{
    let j: nat = fs / 100;
    let nb: nat = 3 * j;
    let v = vis_tones(nb, payload_of(c));
    vstd::arithmetic::div_mod::lemma_fundamental_div_mod_converse((fs * 300 + 500) as int, 1000, (30 * j) as int, 500);
    assert(vis_len(fs) == 30 * j);
    assert(3 * fs / 100 == nb);
    assert((v + rest).subrange(0, vis_len(fs) as int) =~= v);
    assert((v + rest).skip(vis_len(fs) as int) =~= rest);
    lemma_vis_tones_read(nb, payload_of(c));
    lemma_vis_window_round_trip(nb, c);
}

/// An idle receiver fed the frequencies of a header followed by anything
/// finds the leader at the first sample, and then reads the mode that the
/// header's code names, leaving what followed the header in its queue.
#[verifier::spinoff_prover]
#[verifier::rlimit(60)]
pub proof fn lemma_header_received(fs: nat, c: u8, rest: Seq<u32>, pic: Seq<Seq<Rgb>>)
    requires
        fs > 0,
        fs % 100 == 0,
        c < 128,
    ensures
        ({
            let s0 = Snapshot {
                mode: State::Idle,
                queue: sample_freqs(fs, 0, header_tones(c)) + rest,
                picture: pic,
                counter: 0,
            };
            let s1 = leader_step(fs, s0);
            let s2 = vis_step(fs, s1);
            &&& s1.mode == State::VisFind
            &&& s2.mode.format() == mode_of_vis(c)
            &&& s2.queue == rest
        }),
{
    let l = leader_tones(fs, 0);
    let v = vis_tones(3 * fs / 100, payload_of(c));
    lemma_header_samples(fs, c);
    let f = sample_freqs(fs, 0, header_tones(c)) + rest;
    assert(f =~= l + (v + rest));
    lemma_leader_first(fs, v + rest);
    let s0 = Snapshot { mode: State::Idle, queue: f, picture: pic, counter: 0 };
    assert(leader_search(s0.queue, fs) == (0nat, true));
    let q1 = s0.queue.skip(header_len(fs) as int);
    assert(q1 =~= v + rest);
    let s1 = leader_step(fs, s0);
    assert(s1 == Snapshot { mode: State::VisFind, queue: q1, picture: pic, counter: 0 });
    lemma_vis_first(fs, c, rest);
    let w = q1.subrange(0, vis_len(fs) as int);
    assert(vis_of_window(w) == mode_of_vis(c));
    assert(q1.skip(vis_len(fs) as int) == rest);
    match vis_of_window(w) {
        Some(t) => crate::sstv_decoder::lemma_mode_of(t),
        None => {},
    }
}

/// The receiver's discriminator, run over a transmission that opens with
/// the header of code `c`, yields the frequencies of the header followed by
/// the rest of the transmission: an idle receiver fed it finds the leader
/// at once and reads the mode that `c` names.
pub proof fn lemma_transmission_header_received(fs: nat, c: u8, more: Seq<Tone>, pic: Seq<Seq<Rgb>>)
    requires
        8000 <= fs,
        fs % 100 == 0,
        fs * 1000 < 0x8000_0000,
        c < 128,
        in_band(fs, header_tones(c) + more),
        sample_freqs(fs, 0, more).len() > 0,
    ensures
        ({
            let f = freqs_of(fs, None, rendered(fs, 0, 0, header_tones(c) + more));
            let s0 = Snapshot { mode: State::Idle, queue: f, picture: pic, counter: 0 };
            let s2 = vis_step(fs, leader_step(fs, s0));
            &&& leader_step(fs, s0).mode == State::VisFind
            &&& s2.mode.format() == mode_of_vis(c)
        }),
{
    let all = header_tones(c) + more;
    lemma_tones_read_back(fs, 0, 0, all);
    lemma_sample_freqs_concat(fs, 0, header_tones(c), more);
    lemma_header_samples(fs, c);
    let hs = sample_freqs(fs, 0, header_tones(c));
    let ms = sample_freqs(fs, 0, more);
    let sf = sample_freqs(fs, 0, all);
    assert(sf == hs + ms);
    assert(sf.drop_last() =~= hs + ms.drop_last());
    lemma_header_received(fs, c, ms.drop_last(), pic);
}

/// The transmission of any mode is received as that mode.
pub proof fn lemma_mode_received(fs: nat, m: Mode, more: Seq<Tone>, pic: Seq<Seq<Rgb>>)
    requires
        8000 <= fs,
        fs % 100 == 0,
        fs * 1000 < 0x8000_0000,
        in_band(fs, header_tones(vis_code_of(m)) + more),
        sample_freqs(fs, 0, more).len() > 0,
    ensures
        ({
            let f = freqs_of(fs, None, rendered(fs, 0, 0, header_tones(vis_code_of(m)) + more));
            let s0 = Snapshot { mode: State::Idle, queue: f, picture: pic, counter: 0 };
            vis_step(fs, leader_step(fs, s0)).mode.format() == Some(m)
        }),
{
    lemma_vis_round_trip(m);
    lemma_transmission_header_received(fs, vis_code_of(m), more, pic);
}

proof fn lemma_in_band_concat(fs: nat, a: Seq<Tone>, b: Seq<Tone>)
    requires
        in_band(fs, a),
        in_band(fs, b),
    ensures
        in_band(fs, a + b),
{
    assert forall|i: int| 0 <= i < (a + b).len() implies FREQ_FLOOR <= (#[trigger] (a + b)[i]).freq_mhz <= FREQ_CEIL
        && 2 * (a + b)[i].freq_mhz < fs * 1000 by {
        if i < a.len() {
            assert((a + b)[i] == a[i]);
        } else {
            assert((a + b)[i] == b[i - a.len()]);
        }
    }
}

proof fn lemma_segs_in_band(fs: nat, img: &SSTVImage, m: Mode, y0: nat, j: int)
    requires
        8000 <= fs,
        0 <= j <= segments_of(m).len(),
    ensures
        in_band(fs, segs_tones(img, m, y0, j)),
    decreases j,
{
    if j <= 0 {
        assert(in_band(fs, Seq::<Tone>::empty()));
    } else {
        lemma_segs_in_band(fs, img, m, y0, j - 1);
        lemma_layout_bounds(m);
        let sg = segments_of(m)[j - 1];
        assert(tone_fits(sg));
        let t = segment_tones(img, m, y0, sg);
        assert(4_600_000 < fs * 1000) by (nonlinear_arith)
            requires 8000 <= fs;
        assert forall|i: int| 0 <= i < t.len() implies FREQ_FLOOR <= (#[trigger] t[i]).freq_mhz <= FREQ_CEIL && 2
            * t[i].freq_mhz < fs * 1000 by {
            match sg.part {
                Part::Tone(f) => {},
                Part::Scan(c, row) => {
                    let v = crate::encoder::value_at(img, m, c, row, y0, i as nat);
                    assert(t[i].freq_mhz == level_freq(v));
                    assert((v as int * 800_000 + 254) / 255 <= 800_000) by (nonlinear_arith)
                        requires 0 <= v <= 255;
                },
            }
        }
        lemma_in_band_concat(fs, segs_tones(img, m, y0, j - 1), t);
    }
}

proof fn lemma_lines_in_band(fs: nat, img: &SSTVImage, m: Mode, g: nat)
    requires
        8000 <= fs,
    ensures
        in_band(fs, lines_tones(img, m, g)),
    decreases g,
{
    if g == 0 {
        assert(in_band(fs, Seq::<Tone>::empty()));
    } else {
        lemma_lines_in_band(fs, img, m, (g - 1) as nat);
        lemma_segs_in_band(fs, img, m, ((g - 1) as nat * crate::layout::rows_of(m)) as nat, segments_of(m).len() as int);
        lemma_in_band_concat(fs, lines_tones(img, m, (g - 1) as nat), line_tones(img, m, (g - 1) as nat));
    }
}

proof fn lemma_header_in_band(fs: nat, c: u8)
    requires
        8000 <= fs,
    ensures
        in_band(fs, header_tones(c)),
{
    let h = header_tones(c);
    assert(4_600_000 < fs * 1000) by (nonlinear_arith)
        requires 8000 <= fs;
    assert forall|i: int| 0 <= i < h.len() implies FREQ_FLOOR <= (#[trigger] h[i]).freq_mhz <= FREQ_CEIL && 2
        * h[i].freq_mhz < fs * 1000 by {
        if 4 <= i < 12 {
            assert(h[i] == bit_tone(payload_of(c)[i - 4]));
        }
    }
}

/// A new receiver fed, in one block, all that a new transmitter sends for
/// any picture in any mode, at a sample rate that is a multiple of 100 Hz
/// from 8 kHz on, finds the leader, reads the VIS code and starts receiving
/// the picture in that mode.
pub proof fn lemma_picture_mode_received(fs: nat, img: &SSTVImage, m: Mode)
    requires
        8000 <= fs,
        fs % 100 == 0,
        fs * 1000 < 0x8000_0000,
    ensures
        ({
            let f = freqs_of(fs, None, rendered(fs, 0, 0, picture_tones(img, m)));
            let s0 = Snapshot { mode: State::Idle, queue: Seq::empty() + f, picture: Seq::empty(), counter: 0 };
            step(fs, s0).0.mode.format() == Some(m)
        }),
{
    let more = lead_tones(m) + lines_tones(img, m, groups_of(m));
    let hd = header_tones(vis_code_of(m));
    assert(picture_tones(img, m) =~= hd + more);
    lemma_header_in_band(fs, vis_code_of(m));
    lemma_lines_in_band(fs, img, m, groups_of(m));
    assert(in_band(fs, lead_tones(m)));
    lemma_in_band_concat(fs, lead_tones(m), lines_tones(img, m, groups_of(m)));
    lemma_in_band_concat(fs, hd, more);
    lemma_tones_read_back(fs, 0, 0, more);
    lemma_rendered_len(fs, 0, 0, more);
    lemma_lines_total(img, m, groups_of(m));
    lemma_total_concat(lead_tones(m), lines_tones(img, m, groups_of(m)));
    lemma_layout_bounds(m);
    if lead_of(m) > 0 {
        assert(lead_tones(m).drop_last() =~= Seq::<Tone>::empty());
    } else {
        assert(lead_tones(m) =~= Seq::<Tone>::empty());
    }
    assert(total_ns(more) >= line_ns(m)) by (nonlinear_arith)
        requires total_ns(more) == total_ns(lead_tones(m)) + groups_of(m) * line_ns(m), groups_of(m) >= 1, total_ns(lead_tones(m)) >= 0;
    assert(fs * total_ns(more) >= 8000 * 1_000_000) by (nonlinear_arith)
        requires total_ns(more) >= 1_000_000, fs >= 8000;
    assert(sample_freqs(fs, 0, more).len() > 0);
    let pic: Seq<Seq<Rgb>> = Seq::empty();
    lemma_mode_received(fs, m, more, pic);
    let f = freqs_of(fs, None, rendered(fs, 0, 0, picture_tones(img, m)));
    assert(Seq::empty() + f =~= f);
    let s2 = vis_step(fs, leader_step(fs, Snapshot { mode: State::Idle, queue: f, picture: pic, counter: 0 }));
    assert(s2.mode.format() == Some(m));
    assert(s2.counter == 0);
}

} // verus!
