//! The transmitter: from a picture to the tones that carry it, and from the
//! tones to the phases of the signal.
use crate::color::{average, level_freq, level_freq_exec, rgb_to_ycc, Rgb};
use crate::layout::{
    height_of, layout, lead_of, rows_of, segments_of, width_of, Channel, Part, Segment,
};
use crate::line::{groups_of, lemma_layout_bounds, line_duration, line_ns, scan_row_fits, seg_time, time_before};
use crate::sample_generator::{rendered, total_ns, SampleGenerator, Tone};
use crate::sstv_image::{source_of, SSTVImage};
use crate::vis::{encode_vis, payload_of, vis_code_of};
use vstd::prelude::*;

verus! {

/// Transmission modes.
#[allow(non_camel_case_types)]
#[derive(PartialEq, Eq, Structural, Debug, Clone, Copy)]
pub enum Mode {
    Scottie1,
    Scottie2,
    ScottieDx,
    Martin1,
    Martin2,
    Robot36,
    Robot72,
    WrasseSc2_180,
    P3,
    P5,
    P7,
    Pd50,
    Pd90,
    Pd120,
    Pd160,
    Pd180,
    Pd240,
    Pd290,
}

/// Why a transmission could not be written out.
#[derive(Debug)]
pub enum FileError {
    CreateFileError(String),
    WriteFileError(String),
}

pub open spec fn tone(d: u64, f: u32) -> Tone {
    Tone { duration_ns: d, freq_mhz: f }
}

/// A VIS bit: 30 ms at 1100 Hz for a one, 1300 Hz for a zero.
pub open spec fn bit_tone(b: bool) -> Tone {
    tone(30_000_000, if b { 1_100_000 } else { 1_300_000 })
}

/// Leader, break, leader, start bit, the eight payload bits and the stop bit.
pub open spec fn header_tones(c: u8) -> Seq<Tone> {
    seq![
        tone(300_000_000, 1_900_000),
        tone(10_000_000, 1_200_000),
        tone(300_000_000, 1_900_000),
        tone(30_000_000, 1_200_000),
    ] + Seq::new(8, |i: int| bit_tone(payload_of(c)[i])) + seq![tone(30_000_000, 1_200_000)]
}

/// The tones that open a transmission in mode `mode`.
pub fn generate_header(mode: &Mode) -> (r: Vec<Tone>)
    ensures
        r@ == header_tones(vis_code_of(*mode)),
{
    let c = encode_vis(mode);
    let mut v: Vec<Tone> = vec![
        Tone { duration_ns: 300_000_000, freq_mhz: 1_900_000 },
        Tone { duration_ns: 10_000_000, freq_mhz: 1_200_000 },
        Tone { duration_ns: 300_000_000, freq_mhz: 1_900_000 },
        Tone { duration_ns: 30_000_000, freq_mhz: 1_200_000 },
    ];
    let b0 = (c >> 0u8) & 1 == 1;
    let b1 = (c >> 1u8) & 1 == 1;
    let b2 = (c >> 2u8) & 1 == 1;
    let b3 = (c >> 3u8) & 1 == 1;
    let b4 = (c >> 4u8) & 1 == 1;
    let b5 = (c >> 5u8) & 1 == 1;
    let b6 = (c >> 6u8) & 1 == 1;
    let ones: u8 = b0 as u8 + b1 as u8 + b2 as u8 + b3 as u8 + b4 as u8 + b5 as u8 + b6 as u8;
    let p = ones % 2 == 1;
    let bits: [bool; 8] = [b0, b1, b2, b3, b4, b5, b6, p];
    let mut i: usize = 0;
    while i < 8
        invariant
            i <= 8,
            bits@ == payload_of(c),
            v@.len() == 4 + i,
            v@.subrange(0, 4) == header_tones(c).subrange(0, 4),
            forall|k: int| 4 <= k < 4 + i ==> #[trigger] v@[k] == bit_tone(payload_of(c)[k - 4]),
        decreases 8 - i,
    {
        let b = bits[i];
        v.push(Tone { duration_ns: 30_000_000, freq_mhz: if b { 1_100_000 } else { 1_300_000 } });
        i = i + 1;
    }
    let ghost body = v@;
    v.push(Tone { duration_ns: 30_000_000, freq_mhz: 1_200_000 });
    let ghost h = header_tones(c);
    assert forall|k: int| 0 <= k < 12 implies #[trigger] v@[k] == h[k] by {
        assert(v@[k] == body[k]);
        if k < 4 {
            assert(body.subrange(0, 4)[k] == h.subrange(0, 4)[k]);
        }
    }
    assert(v@ =~= header_tones(c));
    v
}

/// The pixel at column `x` of row `y` of the picture stretched to the size
/// of mode `m`.
pub open spec fn source_pixel(img: &SSTVImage, m: Mode, x: nat, y: nat) -> Rgb {
    img.pixel(
        source_of(x, img.width as nat, width_of(m)) as int,
        source_of(y, img.height as nat, height_of(m)) as int,
    )
}

/// The level that a scan of channel `c`, row `row` sends for column `x` of
/// the group of rows starting at row `y0`. Two-row modes send the mean of
/// the chroma of both rows.
pub open spec fn value_at(img: &SSTVImage, m: Mode, c: Channel, row: u8, y0: nat, x: nat) -> u8 {
    let p = source_pixel(img, m, x, (y0 + row) as nat);
    let a = rgb_to_ycc(source_pixel(img, m, x, y0));
    let b = rgb_to_ycc(source_pixel(img, m, x, (y0 + rows_of(m) - 1) as nat));
    match c {
        Channel::Red => p.0,
        Channel::Green => p.1,
        Channel::Blue => p.2,
        Channel::Luma => rgb_to_ycc(p).0,
        Channel::RedDiff => if rows_of(m) == 2 {
            average(a.1, b.1)
        } else {
            a.1
        },
        Channel::BlueDiff => if rows_of(m) == 2 {
            average(a.2, b.2)
        } else {
            a.2
        },
    }
}

/// The tones of one part of a line.
pub open spec fn segment_tones(img: &SSTVImage, m: Mode, y0: nat, s: Segment) -> Seq<Tone> {
    match s.part {
        Part::Tone(f) => seq![tone(s.duration_ns, f)],
        Part::Scan(c, row) => Seq::new(
            width_of(m),
            |x: int| tone(s.duration_ns, level_freq(value_at(img, m, c, row, y0, x as nat))),
        ),
    }
}

/// The tones of the first `j` parts of the line for rows `y0` on.
pub open spec fn segs_tones(img: &SSTVImage, m: Mode, y0: nat, j: int) -> Seq<Tone>
    decreases j,
{
    if j <= 0 {
        Seq::empty()
    } else {
        segs_tones(img, m, y0, j - 1) + segment_tones(img, m, y0, segments_of(m)[j - 1])
    }
}

/// The tones of line `g`.
pub open spec fn line_tones(img: &SSTVImage, m: Mode, g: nat) -> Seq<Tone> {
    segs_tones(img, m, g * rows_of(m), segments_of(m).len() as int)
}

/// The tones of the first `g` lines.
pub open spec fn lines_tones(img: &SSTVImage, m: Mode, g: nat) -> Seq<Tone>
    decreases g,
{
    if g == 0 {
        Seq::empty()
    } else {
        lines_tones(img, m, (g - 1) as nat) + line_tones(img, m, (g - 1) as nat)
    }
}

/// The pulse sent once before the first line, if the mode has one.
pub open spec fn lead_tones(m: Mode) -> Seq<Tone> {
    if lead_of(m) > 0 {
        seq![tone(lead_of(m), 1_200_000)]
    } else {
        Seq::empty()
    }
}

/// Every tone of a transmission of `img` in mode `m`.
pub open spec fn picture_tones(img: &SSTVImage, m: Mode) -> Seq<Tone> {
    header_tones(vis_code_of(m)) + lead_tones(m) + lines_tones(img, m, groups_of(m))
}

/// How long a transmission in mode `m` lasts: 910 ms of header, the lead
/// pulse, and the lines.
pub open spec fn transmission_ns(m: Mode) -> nat {
    (910_000_000 + lead_of(m) + groups_of(m) * line_ns(m)) as nat
}

/// The pixel of the picture stretched to the mode's size, read from the
/// stretched picture.
fn channel_value(
    resized: &SSTVImage,
    Ghost(img): Ghost<&SSTVImage>,
    m: Mode,
    rows: usize,
    c: Channel,
    row: u8,
    y0: usize,
    x: usize,
) -> (r: u8)
    requires
        resized.wf(),
        resized.width == width_of(m),
        resized.height == height_of(m),
        rows == rows_of(m),
        forall|i: int, j: int|
            0 <= i < width_of(m) && 0 <= j < height_of(m) ==> #[trigger] resized.pixel(i, j) == source_pixel(
                img,
                m,
                i as nat,
                j as nat,
            ),
        x < width_of(m),
        y0 + rows <= height_of(m),
        row < rows,
    ensures
        r == value_at(img, m, c, row, y0 as nat, x as nat),
{
    match c {
        Channel::Red => resized.get_rgb_pixel(x, y0 + row as usize).0,
        Channel::Green => resized.get_rgb_pixel(x, y0 + row as usize).1,
        Channel::Blue => resized.get_rgb_pixel(x, y0 + row as usize).2,
        Channel::Luma => resized.get_ycrcb_pixel(x, y0 + row as usize).0,
        Channel::RedDiff => {
            let a = resized.get_ycrcb_pixel(x, y0).1;
            if rows == 2 {
                let b = resized.get_ycrcb_pixel(x, y0 + 1).1;
                ((a as u16 + b as u16) / 2) as u8
            } else {
                a
            }
        },
        Channel::BlueDiff => {
            let a = resized.get_ycrcb_pixel(x, y0).2;
            if rows == 2 {
                let b = resized.get_ycrcb_pixel(x, y0 + 1).2;
                ((a as u16 + b as u16) / 2) as u8
            } else {
                a
            }
        },
    }
}

/// Every tone of a transmission of `image` in mode `mode`: the header, then
/// the picture stretched to the mode's size, line after line.
pub fn encode_picture_into_tones(image: &SSTVImage, mode: &Mode) -> (r: Vec<Tone>)
    requires
        image.wf(),
        1 <= image.width <= 0xffff_ffff,
        1 <= image.height <= 0xffff_ffff,
    ensures
        r@ == picture_tones(image, *mode),
{
    let m = *mode;
    proof {
        lemma_layout_bounds(m);
    }
    let l = layout(m);
    assert(l.width * l.height <= 800 * 616) by (nonlinear_arith)
        requires l.width <= 800, l.height <= 616;
    let resized = image.resize_image(l.width, l.height);
    let mut out = generate_header(mode);
    if l.lead_ns > 0 {
        out.push(Tone { duration_ns: l.lead_ns, freq_mhz: 1_200_000 });
    }
    assert(out@ =~= header_tones(vis_code_of(m)) + lead_tones(m) + lines_tones(image, m, 0));
    let groups = l.height / l.rows;
    let segs = &l.segments;
    let mut g: usize = 0;
    while g < groups
        invariant
            g <= groups,
            groups == groups_of(m),
            1 <= groups <= 616,
            l.width == width_of(m),
            l.height == height_of(m),
            l.rows == rows_of(m),
            1 <= l.rows <= 2,
            height_of(m) % rows_of(m) == 0,
            height_of(m) <= 616,
            segs@ == segments_of(m),
            forall|i: int| 0 <= i < segments_of(m).len() ==> scan_row_fits(#[trigger] segments_of(m)[i], rows_of(m)),
            resized.wf(),
            resized.width == width_of(m),
            resized.height == height_of(m),
            forall|i: int, j: int|
                0 <= i < width_of(m) && 0 <= j < height_of(m) ==> #[trigger] resized.pixel(i, j) == source_pixel(
                    image,
                    m,
                    i as nat,
                    j as nat,
                ),
            out@ == header_tones(vis_code_of(m)) + lead_tones(m) + lines_tones(image, m, g as nat),
        decreases groups - g,
    {
        assert(g * l.rows <= 616 * 2) by (nonlinear_arith)
            requires g < 616, l.rows <= 2;
        let y0 = g * l.rows;
        assert(y0 + l.rows <= l.height) by (nonlinear_arith)
            requires
                y0 == g * l.rows,
                g < groups,
                groups == l.height / l.rows,
                1 <= l.rows <= 2,
                l.height % l.rows == 0,
        ;
        let ghost before = out@;
        let mut j: usize = 0;
        while j < segs.len()
            invariant
                j <= segs@.len(),
                segs@ == segments_of(m),
                g < groups,
                y0 == g * rows_of(m),
                y0 + l.rows <= l.height,
                l.width == width_of(m),
                l.height == height_of(m),
                l.rows == rows_of(m),
                forall|i: int| 0 <= i < segments_of(m).len() ==> scan_row_fits(#[trigger] segments_of(m)[i], rows_of(m)),
                resized.wf(),
                resized.width == width_of(m),
                resized.height == height_of(m),
                forall|i: int, j: int|
                    0 <= i < width_of(m) && 0 <= j < height_of(m) ==> #[trigger] resized.pixel(i, j) == source_pixel(
                        image,
                        m,
                        i as nat,
                        j as nat,
                    ),
                out@ == before + segs_tones(image, m, y0 as nat, j as int),
            decreases segs@.len() - j,
        {
            let s = segs[j];
            assert(scan_row_fits(segments_of(m)[j as int], rows_of(m)));
            let ghost mid = out@;
            match s.part {
                Part::Tone(f) => {
                    out.push(Tone { duration_ns: s.duration_ns, freq_mhz: f });
                    assert(out@ =~= mid + segment_tones(image, m, y0 as nat, segments_of(m)[j as int]));
                },
                Part::Scan(c, row) => {
                    let mut x: usize = 0;
                    while x < l.width
                        invariant
                            x <= l.width,
                            l.width == width_of(m),
                            l.rows == rows_of(m),
                            y0 + l.rows <= l.height,
                            l.height == height_of(m),
                            row < l.rows,
                            resized.wf(),
                            resized.width == width_of(m),
                            resized.height == height_of(m),
                            forall|i: int, j: int|
                                0 <= i < width_of(m) && 0 <= j < height_of(m) ==> #[trigger] resized.pixel(i, j)
                                    == source_pixel(image, m, i as nat, j as nat),
                            out@.len() == mid.len() + x,
                            out@.subrange(0, mid.len() as int) == mid,
                            forall|i: int|
                                0 <= i < x ==> #[trigger] out@[mid.len() + i] == tone(
                                    s.duration_ns,
                                    level_freq(value_at(image, m, c, row, y0 as nat, i as nat)),
                                ),
                        decreases l.width - x,
                    {
                        let v = channel_value(&resized, Ghost(image), m, l.rows, c, row, y0, x);
                        let f = level_freq_exec(v);
                        out.push(Tone { duration_ns: s.duration_ns, freq_mhz: f });
                        x = x + 1;
                        assert(out@.subrange(0, mid.len() as int) =~= mid);
                    }
                    let ghost st = segment_tones(image, m, y0 as nat, segments_of(m)[j as int]);
                    assert(st.len() == l.width);
                    assert forall|k: int| mid.len() <= k < out@.len() implies #[trigger] out@[k] == st[k - mid.len()] by {
                        let i = k - mid.len();
                        assert(out@[mid.len() + i] == tone(
                            s.duration_ns,
                            level_freq(value_at(image, m, c, row, y0 as nat, i as nat)),
                        ));
                    }
                    assert forall|k: int| 0 <= k < mid.len() implies #[trigger] out@[k] == mid[k] by {
                        assert(out@.subrange(0, mid.len() as int)[k] == out@[k]);
                    }
                    assert(out@ =~= mid + st);
                },
            }
            j = j + 1;
        }
        assert(out@ =~= header_tones(vis_code_of(m)) + lead_tones(m) + lines_tones(image, m, (g + 1) as nat));
        g = g + 1;
    }
    out
}

pub(crate) proof fn lemma_total_concat(a: Seq<Tone>, b: Seq<Tone>)
    ensures
        total_ns(a + b) == total_ns(a) + total_ns(b),
    decreases b.len(),
{
    if b.len() == 0 {
        assert(a + b =~= a);
    } else {
        lemma_total_concat(a, b.drop_last());
        assert((a + b).drop_last() =~= a + b.drop_last());
    }
}

proof fn lemma_total_segment(img: &SSTVImage, m: Mode, y0: nat, s: Segment)
    ensures
        total_ns(segment_tones(img, m, y0, s)) == seg_time(s, width_of(m)),
{
    match s.part {
        Part::Tone(f) => {
            let t = segment_tones(img, m, y0, s);
            assert(t.drop_last() =~= Seq::<Tone>::empty());
            assert(total_ns(Seq::<Tone>::empty()) == 0);
            assert(t.last() == tone(s.duration_ns, f));
        },
        Part::Scan(c, row) => {
            lemma_total_scan(img, m, y0, s, width_of(m));
            let t = segment_tones(img, m, y0, s);
            assert(t.subrange(0, width_of(m) as int) =~= t);
        },
    }
}

proof fn lemma_total_scan(img: &SSTVImage, m: Mode, y0: nat, s: Segment, n: nat)
    requires
        s.part is Scan,
        n <= width_of(m),
    ensures
        total_ns(segment_tones(img, m, y0, s).subrange(0, n as int)) == n * s.duration_ns,
    decreases n,
{
    let t = segment_tones(img, m, y0, s);
    if n == 0 {
        assert(t.subrange(0, 0) =~= Seq::<Tone>::empty());
    }
    if n > 0 {
        lemma_total_scan(img, m, y0, s, (n - 1) as nat);
        assert(t.len() == width_of(m));
        assert(t[n - 1].duration_ns == s.duration_ns);
        assert(t.subrange(0, n as int).last() == t[n - 1]);
        assert(t.subrange(0, n as int).drop_last() =~= t.subrange(0, n - 1));
        assert(n * s.duration_ns == (n - 1) * s.duration_ns + s.duration_ns) by (nonlinear_arith);
    }
}

proof fn lemma_total_uniform(t: Seq<Tone>, d: u64)
    requires
        forall|i: int| 0 <= i < t.len() ==> (#[trigger] t[i]).duration_ns == d,
    ensures
        total_ns(t) == t.len() * d,
    decreases t.len(),
{
    if t.len() > 0 {
        lemma_total_uniform(t.drop_last(), d);
        assert(t.len() * d == (t.len() - 1) * d + d) by (nonlinear_arith);
    }
}

proof fn lemma_segs_total(img: &SSTVImage, m: Mode, y0: nat, j: int)
    requires
        0 <= j <= segments_of(m).len(),
    ensures
        total_ns(segs_tones(img, m, y0, j)) == time_before(segments_of(m), width_of(m), j),
    decreases j,
{
    if j > 0 {
        lemma_segs_total(img, m, y0, j - 1);
        lemma_total_concat(segs_tones(img, m, y0, j - 1), segment_tones(img, m, y0, segments_of(m)[j - 1]));
        lemma_total_segment(img, m, y0, segments_of(m)[j - 1]);
    }
}

pub(crate) proof fn lemma_lines_total(img: &SSTVImage, m: Mode, g: nat)
    ensures
        total_ns(lines_tones(img, m, g)) == g * line_ns(m),
    decreases g,
{
    if g > 0 {
        let gp = (g - 1) as nat;
        lemma_lines_total(img, m, gp);
        lemma_total_concat(lines_tones(img, m, gp), line_tones(img, m, gp));
        lemma_segs_total(img, m, gp * rows_of(m), segments_of(m).len() as int);
        assert(g * line_ns(m) == gp * line_ns(m) + line_ns(m)) by (nonlinear_arith)
            requires gp == g - 1;
    } else {
        assert(total_ns(Seq::<Tone>::empty()) == 0);
        assert(g * line_ns(m) == 0) by (nonlinear_arith)
            requires g == 0;
    }
}

/// A transmission lasts exactly its header, its lead pulse and its lines:
/// the transmitter takes the time that the receiver cuts the picture by,
/// whatever the picture.
pub proof fn lemma_transmission_time(img: &SSTVImage, m: Mode)
    ensures
        total_ns(picture_tones(img, m)) == transmission_ns(m),
{
    let c = vis_code_of(m);
    let h = header_tones(c);
    let first = seq![
        tone(300_000_000, 1_900_000),
        tone(10_000_000, 1_200_000),
        tone(300_000_000, 1_900_000),
        tone(30_000_000, 1_200_000),
    ];
    let bits = Seq::new(8, |i: int| bit_tone(payload_of(c)[i]));
    let stop = seq![tone(30_000_000, 1_200_000)];
    assert(total_ns(first) == 640_000_000) by {
        let f1 = seq![tone(300_000_000, 1_900_000)];
        let f2 = seq![tone(300_000_000, 1_900_000), tone(10_000_000, 1_200_000)];
        let f3 = seq![tone(300_000_000, 1_900_000), tone(10_000_000, 1_200_000), tone(300_000_000, 1_900_000)];
        assert(f1.drop_last() =~= Seq::<Tone>::empty());
        assert(f2.drop_last() =~= f1);
        assert(f3.drop_last() =~= f2);
        assert(first.drop_last() =~= f3);
        assert(total_ns(Seq::<Tone>::empty()) == 0);
        assert(total_ns(f1) == 300_000_000);
        assert(total_ns(f2) == 310_000_000);
        assert(total_ns(f3) == 610_000_000);
    }
    lemma_total_uniform(bits, 30_000_000);
    lemma_total_uniform(stop, 30_000_000);
    lemma_total_concat(first, bits);
    lemma_total_concat(first + bits, stop);
    assert(h == first + bits + stop);
    let lead = lead_tones(m);
    if lead_of(m) > 0 {
        lemma_total_uniform(lead, lead_of(m));
    } else {
        assert(total_ns(lead) == 0);
    }
    lemma_total_concat(h, lead);
    lemma_lines_total(img, m, groups_of(m));
    lemma_total_concat(h + lead, lines_tones(img, m, groups_of(m)));
}

/// Phases of the whole transmission of `image` in mode `mode`, going on
/// from the state of `ctx`.
pub fn encode_picture_into_phases(ctx: &mut SampleGenerator, image: &SSTVImage, mode: &Mode) -> (r: Vec<u32>)
    requires
        old(ctx).wf(),
        image.wf(),
        1 <= image.width <= 0xffff_ffff,
        1 <= image.height <= 0xffff_ffff,
        (old(ctx).sample_rate * transmission_ns(*mode) + old(ctx).carry) / 1_000_000_000 <= usize::MAX,
    ensures
        final(ctx).wf(),
        final(ctx).sample_rate == old(ctx).sample_rate,
        r@ == rendered(
            old(ctx).sample_rate as nat,
            old(ctx).carry as nat,
            old(ctx).phase as nat,
            picture_tones(image, *mode),
        ),
        r@.len() == (old(ctx).sample_rate * transmission_ns(*mode) + old(ctx).carry) / 1_000_000_000,
{
    let tones = encode_picture_into_tones(image, mode);
    proof {
        lemma_transmission_time(image, *mode);
    }
    ctx.render(tones.as_slice())
}

/// Number of samples that `ctx` will give for a transmission in mode
/// `mode`, if that many fit in memory.
pub fn transmission_samples(ctx: &SampleGenerator, mode: &Mode) -> (r: Option<usize>)
    requires
        ctx.wf(),
    ensures
        r is Some <==> (ctx.sample_rate * transmission_ns(*mode) + ctx.carry) / 1_000_000_000 <= usize::MAX,
        r matches Some(n) ==> n == (ctx.sample_rate * transmission_ns(*mode) + ctx.carry) / 1_000_000_000,
{
    let m = *mode;
    proof {
        lemma_layout_bounds(m);
    }
    let l = layout(m);
    let line = line_duration(m);
    let groups = l.height / l.rows;
    assert(groups * line <= 616 * 200_000_000_000) by (nonlinear_arith)
        requires groups <= 616, line <= 200_000_000_000;
    let total: u64 = 910_000_000 + l.lead_ns + groups as u64 * line;
    assert(ctx.sample_rate as nat * total as nat <= 0xffff_ffff * 0xffff_ffff_ffff_ffffnat) by (nonlinear_arith)
        requires ctx.sample_rate <= 0xffff_ffff, total <= 0xffff_ffff_ffff_ffff;
    let n: u128 = (ctx.sample_rate as u128 * total as u128 + ctx.carry as u128) / 1_000_000_000;
    if n <= usize::MAX as u128 {
        Some(n as usize)
    } else {
        None
    }
}

} // verus!
