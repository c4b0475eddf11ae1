//! Cutting the frequencies of one received line along the layout of its
//! mode, and turning them into rows of pixels.
//!
//! Line `k` starts `lead + k * line` nanoseconds after the VIS code. Every
//! boundary, of a part or of a pixel, falls on the sample that the sample
//! clock gives for its time, so that rounding never accumulates over a
//! picture and the receiver cuts where the transmitter switched tones.
use crate::arith::{lemma_sample_at_monotonic, lemma_sum_bounds, sample_at, sample_at_exec, sum, window_sum};
use crate::color::{level_of, level_of_exec, ycc_to_rgb, ycc_to_rgb_exec, Rgb};
use crate::encoder::Mode;
use crate::layout::{
    height_of, is_ycc, layout, lead_of, rows_of, segments_of, width_of, Channel, Part, Segment,
};
use std::collections::VecDeque;
use vstd::prelude::*;

verus! {

/// Time taken by a part of a line.
pub open spec fn seg_time(s: Segment, width: nat) -> nat {
    match s.part {
        Part::Tone(_) => s.duration_ns as nat,
        Part::Scan(_, _) => (width * s.duration_ns) as nat,
    }
}

/// Time from the start of a line to the start of part `j`.
pub open spec fn time_before(segs: Seq<Segment>, width: nat, j: int) -> nat
    decreases j,
{
    if j <= 0 {
        0
    } else {
        time_before(segs, width, j - 1) + seg_time(segs[j - 1], width)
    }
}

/// Duration of one line.
pub open spec fn line_ns(m: Mode) -> nat {
    time_before(segments_of(m), width_of(m), segments_of(m).len() as int)
}

/// Number of lines in a picture.
pub open spec fn groups_of(m: Mode) -> nat {
    height_of(m) / rows_of(m)
}

/// Time at which line `k` starts, counted from the end of the VIS code.
pub open spec fn line_start(m: Mode, k: nat) -> nat {
    (lead_of(m) + k * line_ns(m)) as nat
}

/// The first line also takes in the pulse sent before it.
pub open spec fn group_begin(m: Mode, k: nat) -> nat {
    if k == 0 {
        0
    } else {
        line_start(m, k)
    }
}

/// Number of samples that line `k` takes at `fs` samples per second.
pub open spec fn group_len(fs: nat, m: Mode, k: nat) -> nat {
    (sample_at(fs, line_start(m, k + 1)) - sample_at(fs, group_begin(m, k))) as nat
}

proof fn lemma_time_before_bounds(segs: Seq<Segment>, width: nat, j: int, d: nat)
    requires
        0 <= j <= segs.len(),
        width >= 1,
        forall|i: int| 0 <= i < segs.len() ==> segs[i].duration_ns <= d,
    ensures
        time_before(segs, width, j) <= j * width * d,
        forall|i: int| 0 <= i <= j ==> time_before(segs, width, i) <= time_before(segs, width, j),
    decreases j,
{
    if j > 0 {
        lemma_time_before_bounds(segs, width, j - 1, d);
        let s = segs[j - 1];
        assert(seg_time(s, width) <= width * d) by (nonlinear_arith)
            requires
                s.duration_ns <= d,
                width >= 1,
                seg_time(s, width) == s.duration_ns || seg_time(s, width) == width * s.duration_ns,
        ;
        assert((j - 1) * width * d + width * d == j * width * d) by (nonlinear_arith);
    }
}

/// A scan names a row of the lines's group of rows.
pub open spec fn scan_row_fits(s: Segment, rows: nat) -> bool {
    match s.part {
        Part::Scan(_, row) => row < rows,
        Part::Tone(_) => true,
    }
}

/// A steady tone of a layout lies between 1200 and 2300 Hz.
pub open spec fn tone_fits(s: Segment) -> bool {
    match s.part {
        Part::Tone(f) => 1_200_000 <= f <= 2_300_000,
        Part::Scan(_, _) => true,
    }
}

/// The sizes that every layout keeps within.
pub proof fn lemma_layout_bounds(m: Mode)
    ensures
        1 <= width_of(m) <= 800,
        1 <= rows_of(m) <= 2,
        rows_of(m) < height_of(m) <= 616,
        height_of(m) % rows_of(m) == 0,
        1 <= groups_of(m) <= 616,
        lead_of(m) <= 9_000_000,
        segments_of(m).len() <= 12,
        forall|i: int| 0 <= i < segments_of(m).len() ==> #[trigger] segments_of(m)[i].duration_ns <= 20_000_000,
        forall|j: int|
            0 <= j <= segments_of(m).len() ==> #[trigger] time_before(segments_of(m), width_of(m), j) <= line_ns(m),
        line_ns(m) <= 200_000_000_000,
        forall|i: int| 0 <= i < segments_of(m).len() ==> scan_row_fits(#[trigger] segments_of(m)[i], rows_of(m)),
        forall|i: int| 0 <= i < segments_of(m).len() ==> tone_fits(#[trigger] segments_of(m)[i]),
        line_ns(m) >= 1_000_000,
{
    let segs = segments_of(m);
    if rows_of(m) == 1 {
        assert(groups_of(m) == height_of(m));
    } else {
        assert(rows_of(m) == 2);
        assert(1 <= height_of(m) / 2 <= 308);
    }
    assert(forall|i: int| 0 <= i < segs.len() ==> #[trigger] segs[i].duration_ns <= 20_000_000);
    lemma_time_before_bounds(segs, width_of(m), segs.len() as int, 20_000_000);
    assert(time_before(segs, width_of(m), 0) == 0);
    assert(time_before(segs, width_of(m), 1) == seg_time(segs[0], width_of(m)));
    assert(time_before(segs, width_of(m), 1) >= 1_000_000);
    assert(segs.len() * width_of(m) * 20_000_000 <= 12 * 800 * 20_000_000) by (nonlinear_arith)
        requires segs.len() <= 12, width_of(m) <= 800;
}

/// Levels of the `width` pixels of a scan that starts at time `t0`, cut out
/// of `w`, whose first sample is the one due at the sample index `base`.
pub open spec fn scan_levels(w: Seq<u32>, fs: nat, base: nat, t0: nat, px: nat, width: nat) -> Seq<u8> {
    Seq::new(
        width,
        |x: int|
            {
                let a = sample_at(fs, (t0 + x * px) as nat) - base;
                let b = sample_at(fs, (t0 + (x + 1) * px) as nat) - base;
                level_of(sum(w.subrange(a, b)), b - a)
            },
    )
}

/// Where the levels of a scan are kept: red, green, blue in slots 0 to 2; or
/// Y of the first row, R-Y, B-Y and Y of the second row in slots 0 to 3.
pub open spec fn slot_index(c: Channel, row: u8) -> int {
    match c {
        Channel::Red => 0,
        Channel::Green => 1,
        Channel::Blue => 2,
        Channel::Luma => if row == 0 {
            0
        } else {
            3
        },
        Channel::RedDiff => 1,
        Channel::BlueDiff => 2,
    }
}

/// The four slots after the first `j` parts of a line that starts at `t`.
pub open spec fn slots_after(
    w: Seq<u32>,
    fs: nat,
    base: nat,
    t: nat,
    segs: Seq<Segment>,
    width: nat,
    j: int,
) -> Seq<Seq<u8>>
    decreases j,
{
    if j <= 0 {
        Seq::new(4, |i: int| Seq::new(width, |x: int| 0u8))
    } else {
        let prev = slots_after(w, fs, base, t, segs, width, j - 1);
        match segs[j - 1].part {
            Part::Tone(_) => prev,
            Part::Scan(c, row) => prev.update(
                slot_index(c, row),
                scan_levels(
                    w,
                    fs,
                    base,
                    t + time_before(segs, width, j - 1),
                    segs[j - 1].duration_ns as nat,
                    width,
                ),
            ),
        }
    }
}

/// The rows that a line yields from its slots.
pub open spec fn rows_from_slots(m: Mode, s: Seq<Seq<u8>>) -> Seq<Seq<Rgb>> {
    let width = width_of(m);
    if !is_ycc(m) {
        seq![Seq::new(width, |x: int| (s[0][x], s[1][x], s[2][x]))]
    } else if rows_of(m) == 1 {
        seq![Seq::new(width, |x: int| ycc_to_rgb(s[0][x], s[1][x], s[2][x]))]
    } else {
        seq![
            Seq::new(width, |x: int| ycc_to_rgb(s[0][x], s[1][x], s[2][x])),
            Seq::new(width, |x: int| ycc_to_rgb(s[3][x], s[1][x], s[2][x])),
        ]
    }
}

/// The rows of line `k` of a picture in mode `m`, read from `w`, which holds
/// the samples of that line from its first one on.
pub open spec fn line_rows(fs: nat, m: Mode, k: nat, w: Seq<u32>) -> Seq<Seq<Rgb>> {
    let segs = segments_of(m);
    rows_from_slots(
        m,
        slots_after(
            w,
            fs,
            sample_at(fs, group_begin(m, k)),
            line_start(m, k),
            segs,
            width_of(m),
            segs.len() as int,
        ),
    )
}

pub open spec fn rows_view<T>(r: Seq<Vec<T>>) -> Seq<Seq<T>> {
    Seq::new(r.len(), |i: int| r[i]@)
}

fn scan_levels_exec(q: &VecDeque<u32>, fs: u32, base: u128, t0: u64, px: u64, width: usize) -> (r: Vec<u8>)
    requires
        t0 + width * px <= 0xffff_ffff_ffff_ffff,
        base <= sample_at(fs as nat, t0 as nat),
        sample_at(fs as nat, (t0 + width * px) as nat) - base <= q@.len(),
    ensures
        r@ == scan_levels(q@, fs as nat, base as nat, t0 as nat, px as nat, width as nat),
{
    let mut out: Vec<u8> = Vec::new();
    let mut x: usize = 0;
    while x < width
        invariant
            x <= width,
            t0 + width * px <= 0xffff_ffff_ffff_ffff,
            base <= sample_at(fs as nat, t0 as nat),
            sample_at(fs as nat, (t0 + width * px) as nat) - base <= q@.len(),
            out@.len() == x,
            forall|i: int|
                0 <= i < x ==> #[trigger] out@[i] == scan_levels(
                    q@,
                    fs as nat,
                    base as nat,
                    t0 as nat,
                    px as nat,
                    width as nat,
                )[i],
        decreases width - x,
    {
        assert(x * px + px == (x + 1) * px && (x + 1) * px <= width * px && 0 <= x * px) by (nonlinear_arith)
            requires x < width;
        let ta: u64 = t0 + x as u64 * px;
        let tb: u64 = ta + px;
        proof {
            lemma_sample_at_monotonic(fs as nat, t0 as nat, ta as nat);
            lemma_sample_at_monotonic(fs as nat, ta as nat, tb as nat);
            lemma_sample_at_monotonic(fs as nat, tb as nat, (t0 + width * px) as nat);
        }
        let sa = sample_at_exec(fs, ta);
        let sb = sample_at_exec(fs, tb);
        assert(ta == t0 + x * px);
        assert(tb <= t0 + width * px);
        assert(base <= sa <= sb);
        let qlen = q.len();
        assert(sb - base <= qlen);
        let a = (sa - base) as usize;
        let b = (sb - base) as usize;
        let total = window_sum(q, a, b);
        proof {
            lemma_sum_bounds(q@.subrange(a as int, b as int), 0xffff_ffff);
        }
        let v = level_of_exec(total, (b - a) as u128);
        out.push(v);
        x = x + 1;
    }
    assert(out@ =~= scan_levels(q@, fs as nat, base as nat, t0 as nat, px as nat, width as nat));
    out
}

/// Duration of one line of mode `m`.
pub fn line_duration(m: Mode) -> (r: u64)
    ensures
        r == line_ns(m),
        r <= 200_000_000_000,
{
    proof {
        lemma_layout_bounds(m);
    }
    let l = layout(m);
    let width = l.width;
    let segs = &l.segments;
    let ghost gsegs = segments_of(m);
    let mut t: u64 = 0;
    let mut i: usize = 0;
    while i < segs.len()
        invariant
            i <= segs@.len(),
            segs@ == gsegs,
            width == width_of(m),
            gsegs == segments_of(m),
            t == time_before(gsegs, width as nat, i as int),
            forall|a: int|
                0 <= a <= gsegs.len() ==> #[trigger] time_before(gsegs, width as nat, a) <= line_ns(m),
            line_ns(m) <= 200_000_000_000,
        decreases segs@.len() - i,
    {
        let s = segs[i];
        assert(time_before(gsegs, width as nat, i + 1) <= line_ns(m));
        t = match s.part {
            Part::Tone(_) => t + s.duration_ns,
            Part::Scan(_, _) => t + width as u64 * s.duration_ns,
        };
        i = i + 1;
    }
    t
}

/// Number of samples that line `k` of mode `m` takes.
pub fn group_len_exec(fs: u32, m: Mode, k: usize) -> (r: u64)
    requires
        k < groups_of(m),
    ensures
        r == group_len(fs as nat, m, k as nat),
{
    proof {
        lemma_layout_bounds(m);
    }
    let line = line_duration(m);
    let lead = layout(m).lead_ns;
    assert((k + 1) * line <= 616 * 200_000_000_000) by (nonlinear_arith)
        requires k < 616, line <= 200_000_000_000;
    assert(k * line <= (k + 1) * line) by (nonlinear_arith);
    let start: u64 = lead + k as u64 * line;
    let begin: u64 = if k == 0 {
        0
    } else {
        start
    };
    let next: u64 = start + line;
    assert(next == line_start(m, (k + 1) as nat)) by (nonlinear_arith)
        requires next == start + line, start == lead_of(m) + k * line_ns(m), line == line_ns(m);
    proof {
        lemma_sample_at_monotonic(fs as nat, begin as nat, next as nat);
    }
    let a = sample_at_exec(fs, begin);
    let b = sample_at_exec(fs, next);
    assert(b <= 0xffff_ffff_ffff_ffff) by {
        assert(fs as nat * next as nat <= 0xffff_ffff * 0xffff_ffff_ffff_ffffnat) by (nonlinear_arith)
            requires fs <= 0xffff_ffff, next <= 0xffff_ffff_ffff_ffff;
        assert(next <= 200_000_000_000 * 617 + 9_000_000);
        assert(fs as nat * next as nat <= 0xffff_ffff * (200_000_000_000 * 617 + 9_000_000)) by (nonlinear_arith)
            requires fs <= 0xffff_ffff, next <= 200_000_000_000 * 617 + 9_000_000;
    }
    (b - a) as u64
}

/// Reads line `k` of a picture in mode `m` from the front of the queue.
pub fn decode_line(q: &VecDeque<u32>, fs: u32, m: Mode, k: usize) -> (r: Vec<Vec<Rgb>>)
    requires
        k < groups_of(m),
        group_len(fs as nat, m, k as nat) <= q@.len(),
    ensures
        rows_view(r@) == line_rows(fs as nat, m, k as nat, q@),
        r@.len() == rows_of(m),
        forall|i: int| 0 <= i < r@.len() ==> (#[trigger] r@[i])@.len() == width_of(m),
{
    proof {
        lemma_layout_bounds(m);
    }
    let l = layout(m);
    let width = l.width;
    let segs = &l.segments;
    let ghost gsegs = segments_of(m);
    let line: u64 = line_duration(m);
    assert((k + 1) * line <= 616 * 200_000_000_000) by (nonlinear_arith)
        requires k < 616, line <= 200_000_000_000;
    assert(k * line <= (k + 1) * line) by (nonlinear_arith);
    let start: u64 = l.lead_ns + k as u64 * line;
    let begin: u64 = if k == 0 {
        0
    } else {
        start
    };
    let ghost next = line_start(m, (k + 1) as nat);
    assert(next == start + line) by (nonlinear_arith)
        requires next == lead_of(m) + (k + 1) * line_ns(m), start == lead_of(m) + k * line_ns(m), line == line_ns(m);
    proof {
        lemma_sample_at_monotonic(fs as nat, begin as nat, start as nat);
    }
    let base = sample_at_exec(fs, begin);
    let mut slots: Vec<Vec<u8>> = Vec::new();
    let mut j: usize = 0;
    while j < 4
        invariant
            j <= 4,
            slots@.len() == j,
            forall|a: int| 0 <= a < j ==> (#[trigger] slots@[a])@ == Seq::new(width as nat, |x: int| 0u8),
        decreases 4 - j,
    {
        let mut z: Vec<u8> = Vec::new();
        let mut x: usize = 0;
        while x < width
            invariant
                x <= width,
                z@ == Seq::new(x as nat, |x: int| 0u8),
            decreases width - x,
        {
            z.push(0);
            x = x + 1;
            assert(z@ =~= Seq::new(x as nat, |x: int| 0u8));
        }
        slots.push(z);
        j = j + 1;
    }
    let ghost w = q@;
    let ghost gbase = base as nat;
    let mut t: u64 = 0;
    let mut i: usize = 0;
    assert(rows_view(slots@) =~= slots_after(w, fs as nat, gbase, start as nat, gsegs, width as nat, 0));
    while i < segs.len()
        invariant
            i <= segs@.len(),
            segs@ == gsegs,
            gsegs == segments_of(m),
            width == width_of(m),
            1 <= width <= 800,
            gsegs.len() <= 12,
            forall|a: int| 0 <= a < gsegs.len() ==> #[trigger] gsegs[a].duration_ns <= 20_000_000,
            forall|a: int| 0 <= a <= gsegs.len() ==> #[trigger] time_before(gsegs, width as nat, a) <= line,
            line == line_ns(m),
            start + line <= 0xffff_ffff_ffff_ffff,
            next == start + line,
            next == line_start(m, (k + 1) as nat),
            base == sample_at(fs as nat, begin as nat),
            begin <= start,
            sample_at(fs as nat, next) - base <= q@.len(),
            w == q@,
            gbase == base,
            t == time_before(gsegs, width as nat, i as int),
            slots@.len() == 4,
            rows_view(slots@) == slots_after(w, fs as nat, gbase, start as nat, gsegs, width as nat, i as int),
        decreases segs@.len() - i,
    {
        let s = segs[i];
        assert(time_before(gsegs, width as nat, i + 1) <= line);
        match s.part {
            Part::Tone(_) => {
                t = t + s.duration_ns;
            },
            Part::Scan(c, row) => {
                let t0 = start + t;
                proof {
                    lemma_sample_at_monotonic(fs as nat, begin as nat, t0 as nat);
                    lemma_sample_at_monotonic(fs as nat, (t0 + width * s.duration_ns) as nat, next);
                }
                let levels = scan_levels_exec(q, fs, base, t0, s.duration_ns, width);
                let idx: usize = match c {
                    Channel::Red => 0,
                    Channel::Green => 1,
                    Channel::Blue => 2,
                    Channel::Luma => if row == 0 {
                        0
                    } else {
                        3
                    },
                    Channel::RedDiff => 1,
                    Channel::BlueDiff => 2,
                };
                assert(idx == slot_index(c, row));
                slots.set(idx, levels);
                t = t + width as u64 * s.duration_ns;
            },
        }
        i = i + 1;
        assert(rows_view(slots@) =~= slots_after(w, fs as nat, gbase, start as nat, gsegs, width as nat, i as int));
    }
    let ghost fin = slots_after(w, fs as nat, gbase, start as nat, gsegs, width as nat, gsegs.len() as int);
    assert(fin == rows_view(slots@));
    assert forall|a: int| 0 <= a < 4 implies (#[trigger] fin[a]).len() == width by {
        lemma_slots_width(w, fs as nat, gbase, start as nat, gsegs, width as nat, gsegs.len() as int);
    }
    let ghost expect = line_rows(fs as nat, m, k as nat, q@);
    let mut rows: Vec<Vec<Rgb>> = Vec::new();
    let nrows: usize = if l.ycc && l.rows == 2 {
        2
    } else {
        1
    };
    let mut r: usize = 0;
    while r < nrows
        invariant
            r <= nrows,
            nrows == rows_of(m) || (!is_ycc(m) && nrows == 1),
            rows@.len() == r,
            slots@.len() == 4,
            width == width_of(m),
            l.ycc == is_ycc(m),
            l.rows == rows_of(m),
            fin == rows_view(slots@),
            forall|a: int| 0 <= a < 4 ==> (#[trigger] fin[a]).len() == width,
            expect == rows_from_slots(m, fin),
            expect.len() == nrows,
            forall|a: int| 0 <= a < r ==> (#[trigger] rows@[a])@ == expect[a],
        decreases nrows - r,
    {
        let mut row: Vec<Rgb> = Vec::new();
        let ysrc: usize = if r == 0 {
            0
        } else {
            3
        };
        let mut x: usize = 0;
        while x < width
            invariant
                x <= width,
                r < nrows,
                ysrc == (if r == 0 { 0usize } else { 3usize }),
                slots@.len() == 4,
                width == width_of(m),
                l.ycc == is_ycc(m),
                l.rows == rows_of(m),
                nrows == rows_of(m) || (!is_ycc(m) && nrows == 1),
                fin == rows_view(slots@),
                forall|a: int| 0 <= a < 4 ==> (#[trigger] fin[a]).len() == width,
                expect == rows_from_slots(m, fin),
                row@.len() == x,
                forall|a: int| 0 <= a < x ==> #[trigger] row@[a] == expect[r as int][a],
            decreases width - x,
        {
            let p: Rgb = if l.ycc {
                ycc_to_rgb_exec(slots[ysrc][x], slots[1][x], slots[2][x])
            } else {
                (slots[0][x], slots[1][x], slots[2][x])
            };
            row.push(p);
            x = x + 1;
        }
        assert(row@ =~= expect[r as int]);
        rows.push(row);
        r = r + 1;
    }
    assert(rows_view(rows@) =~= expect);
    rows
}

proof fn lemma_slots_width(
    w: Seq<u32>,
    fs: nat,
    base: nat,
    t: nat,
    segs: Seq<Segment>,
    width: nat,
    j: int,
)
    requires
        0 <= j <= segs.len(),
    ensures
        slots_after(w, fs, base, t, segs, width, j).len() == 4,
        forall|a: int| 0 <= a < 4 ==> (#[trigger] slots_after(w, fs, base, t, segs, width, j)[a]).len() == width,
    decreases j,
{
    if j > 0 {
        lemma_slots_width(w, fs, base, t, segs, width, j - 1);
    }
}

} // verus!
