//! The layout of a line in each transmission mode: its tones and its
//! scans, with their durations in nanoseconds. The transmitter sends it and
//! the receiver cuts the received frequencies along it.
use crate::encoder::Mode;
use vstd::prelude::*;

verus! {

/// What a scan carries.
#[derive(PartialEq, Eq, Structural, Debug, Clone, Copy)]
pub enum Channel {
    Red,
    Green,
    Blue,
    /// Y
    Luma,
    /// R-Y
    RedDiff,
    /// B-Y
    BlueDiff,
}

/// A part of a line: a steady tone (millihertz), or a scan of one channel of
/// one row of the group of rows that the line carries.
#[derive(PartialEq, Eq, Structural, Debug, Clone, Copy)]
pub enum Part {
    Tone(u32),
    Scan(Channel, u8),
}

/// A part with its duration; for a scan, the duration of each pixel.
#[derive(PartialEq, Eq, Structural, Debug, Clone, Copy)]
pub struct Segment {
    pub duration_ns: u64,
    pub part: Part,
}

pub open spec fn tone(d: u64, f: u32) -> Segment {
    Segment { duration_ns: d, part: Part::Tone(f) }
}

pub open spec fn scan(c: Channel, row: u8, px: u64) -> Segment {
    Segment { duration_ns: px, part: Part::Scan(c, row) }
}

fn tone_seg(d: u64, f: u32) -> (r: Segment)
    ensures
        r == tone(d, f),
{
    Segment { duration_ns: d, part: Part::Tone(f) }
}

fn scan_seg(c: Channel, row: u8, px: u64) -> (r: Segment)
    ensures
        r == scan(c, row, px),
{
    Segment { duration_ns: px, part: Part::Scan(c, row) }
}

/// Pixels per row.
pub open spec fn width_of(m: Mode) -> nat {
    match m {
        Mode::Scottie1 => 320,
        Mode::Scottie2 => 320,
        Mode::ScottieDx => 320,
        Mode::Martin1 => 320,
        Mode::Martin2 => 320,
        Mode::Robot36 => 320,
        Mode::Robot72 => 320,
        Mode::WrasseSc2_180 => 320,
        Mode::P3 => 640,
        Mode::P5 => 640,
        Mode::P7 => 640,
        Mode::Pd50 => 320,
        Mode::Pd90 => 320,
        Mode::Pd120 => 640,
        Mode::Pd160 => 640,
        Mode::Pd180 => 512,
        Mode::Pd240 => 640,
        Mode::Pd290 => 800,
    }
}

/// Rows of the picture.
pub open spec fn height_of(m: Mode) -> nat {
    match m {
        Mode::Scottie1 => 256,
        Mode::Scottie2 => 256,
        Mode::ScottieDx => 256,
        Mode::Martin1 => 256,
        Mode::Martin2 => 256,
        Mode::Robot36 => 240,
        Mode::Robot72 => 240,
        Mode::WrasseSc2_180 => 256,
        Mode::P3 => 496,
        Mode::P5 => 496,
        Mode::P7 => 496,
        Mode::Pd50 => 256,
        Mode::Pd90 => 256,
        Mode::Pd120 => 496,
        Mode::Pd160 => 496,
        Mode::Pd180 => 400,
        Mode::Pd240 => 496,
        Mode::Pd290 => 616,
    }
}

/// Rows carried by one line.
pub open spec fn rows_of(m: Mode) -> nat {
    match m {
        Mode::Scottie1 => 1,
        Mode::Scottie2 => 1,
        Mode::ScottieDx => 1,
        Mode::Martin1 => 1,
        Mode::Martin2 => 1,
        Mode::Robot36 => 2,
        Mode::Robot72 => 1,
        Mode::WrasseSc2_180 => 1,
        Mode::P3 => 1,
        Mode::P5 => 1,
        Mode::P7 => 1,
        Mode::Pd50 => 2,
        Mode::Pd90 => 2,
        Mode::Pd120 => 2,
        Mode::Pd160 => 2,
        Mode::Pd180 => 2,
        Mode::Pd240 => 2,
        Mode::Pd290 => 2,
    }
}

/// Duration of the 1200 Hz pulse sent once before the first line.
pub open spec fn lead_of(m: Mode) -> u64 {
    match m {
        Mode::Scottie1 => 9_000_000,
        Mode::Scottie2 => 9_000_000,
        Mode::ScottieDx => 9_000_000,
        Mode::Martin1 => 0,
        Mode::Martin2 => 0,
        Mode::Robot36 => 0,
        Mode::Robot72 => 0,
        Mode::WrasseSc2_180 => 0,
        Mode::P3 => 0,
        Mode::P5 => 0,
        Mode::P7 => 0,
        Mode::Pd50 => 0,
        Mode::Pd90 => 0,
        Mode::Pd120 => 0,
        Mode::Pd160 => 0,
        Mode::Pd180 => 0,
        Mode::Pd240 => 0,
        Mode::Pd290 => 0,
    }
}

/// Whether the mode sends Y, R-Y, B-Y rather than red, green, blue.
pub open spec fn is_ycc(m: Mode) -> bool {
    match m {
        Mode::Scottie1 => false,
        Mode::Scottie2 => false,
        Mode::ScottieDx => false,
        Mode::Martin1 => false,
        Mode::Martin2 => false,
        Mode::Robot36 => true,
        Mode::Robot72 => true,
        Mode::WrasseSc2_180 => false,
        Mode::P3 => false,
        Mode::P5 => false,
        Mode::P7 => false,
        Mode::Pd50 => true,
        Mode::Pd90 => true,
        Mode::Pd120 => true,
        Mode::Pd160 => true,
        Mode::Pd180 => true,
        Mode::Pd240 => true,
        Mode::Pd290 => true,
    }
}

/// The parts of a line, in the order in which they are sent.
pub open spec fn segments_of(m: Mode) -> Seq<Segment> {
    match m {
        Mode::Scottie1 => seq![
            tone(1_500_000, 1_500_000),
            scan(Channel::Green, 0, 432_000),
            tone(1_500_000, 1_500_000),
            scan(Channel::Blue, 0, 432_000),
            tone(9_000_000, 1_200_000),
            tone(1_500_000, 1_500_000),
            scan(Channel::Red, 0, 432_000),
        ],
        Mode::Scottie2 => seq![
            tone(1_500_000, 1_500_000),
            scan(Channel::Green, 0, 275_200),
            tone(1_500_000, 1_500_000),
            scan(Channel::Blue, 0, 275_200),
            tone(9_000_000, 1_200_000),
            tone(1_500_000, 1_500_000),
            scan(Channel::Red, 0, 275_200),
        ],
        Mode::ScottieDx => seq![
            tone(1_500_000, 1_500_000),
            scan(Channel::Green, 0, 1_080_000),
            tone(1_500_000, 1_500_000),
            scan(Channel::Blue, 0, 1_080_000),
            tone(9_000_000, 1_200_000),
            tone(1_500_000, 1_500_000),
            scan(Channel::Red, 0, 1_080_000),
        ],
        Mode::Martin1 => seq![
            tone(4_862_000, 1_200_000),
            tone(572_000, 1_500_000),
            scan(Channel::Green, 0, 457_600),
            tone(572_000, 1_500_000),
            scan(Channel::Blue, 0, 457_600),
            tone(572_000, 1_500_000),
            scan(Channel::Red, 0, 457_600),
            tone(572_000, 1_500_000),
        ],
        Mode::Martin2 => seq![
            tone(4_862_000, 1_200_000),
            tone(572_000, 1_500_000),
            scan(Channel::Green, 0, 228_800),
            tone(572_000, 1_500_000),
            scan(Channel::Blue, 0, 228_800),
            tone(572_000, 1_500_000),
            scan(Channel::Red, 0, 228_800),
            tone(572_000, 1_500_000),
        ],
        Mode::Robot36 => seq![
            tone(9_000_000, 1_200_000),
            tone(3_000_000, 1_500_000),
            scan(Channel::Luma, 0, 275_000),
            tone(4_500_000, 1_500_000),
            tone(1_500_000, 1_900_000),
            scan(Channel::RedDiff, 0, 137_500),
            tone(9_000_000, 1_200_000),
            tone(3_000_000, 1_500_000),
            scan(Channel::Luma, 1, 275_000),
            tone(4_500_000, 2_300_000),
            tone(1_500_000, 1_500_000),
            scan(Channel::BlueDiff, 0, 137_500),
        ],
        Mode::Robot72 => seq![
            tone(9_000_000, 1_200_000),
            tone(3_000_000, 1_500_000),
            scan(Channel::Luma, 0, 431_250),
            tone(4_500_000, 1_500_000),
            tone(1_500_000, 1_900_000),
            scan(Channel::RedDiff, 0, 215_625),
            tone(4_500_000, 2_300_000),
            tone(1_500_000, 1_500_000),
            scan(Channel::BlueDiff, 0, 215_625),
        ],
        Mode::WrasseSc2_180 => seq![
            tone(5_522_500, 1_200_000),
            tone(500_000, 1_500_000),
            scan(Channel::Red, 0, 734_400),
            scan(Channel::Green, 0, 734_400),
            scan(Channel::Blue, 0, 734_400),
        ],
        Mode::P3 => seq![
            tone(5_208_000, 1_200_000),
            tone(1_042_000, 1_500_000),
            scan(Channel::Red, 0, 208_300),
            tone(1_042_000, 1_500_000),
            scan(Channel::Green, 0, 208_300),
            tone(1_042_000, 1_500_000),
            scan(Channel::Blue, 0, 208_300),
            tone(1_042_000, 1_500_000),
        ],
        Mode::P5 => seq![
            tone(7_813_000, 1_200_000),
            tone(1_563_000, 1_500_000),
            scan(Channel::Red, 0, 312_500),
            tone(1_563_000, 1_500_000),
            scan(Channel::Green, 0, 312_500),
            tone(1_563_000, 1_500_000),
            scan(Channel::Blue, 0, 312_500),
            tone(1_563_000, 1_500_000),
        ],
        Mode::P7 => seq![
            tone(10_417_000, 1_200_000),
            tone(2_083_000, 1_500_000),
            scan(Channel::Red, 0, 416_700),
            tone(2_083_000, 1_500_000),
            scan(Channel::Green, 0, 416_700),
            tone(2_083_000, 1_500_000),
            scan(Channel::Blue, 0, 416_700),
            tone(2_083_000, 1_500_000),
        ],
        Mode::Pd50 => seq![
            tone(20_000_000, 1_200_000),
            tone(2_080_000, 1_500_000),
            scan(Channel::Luma, 0, 286_000),
            scan(Channel::RedDiff, 0, 286_000),
            scan(Channel::BlueDiff, 0, 286_000),
            scan(Channel::Luma, 1, 286_000),
        ],
        Mode::Pd90 => seq![
            tone(20_000_000, 1_200_000),
            tone(2_080_000, 1_500_000),
            scan(Channel::Luma, 0, 532_000),
            scan(Channel::RedDiff, 0, 532_000),
            scan(Channel::BlueDiff, 0, 532_000),
            scan(Channel::Luma, 1, 532_000),
        ],
        Mode::Pd120 => seq![
            tone(20_000_000, 1_200_000),
            tone(2_080_000, 1_500_000),
            scan(Channel::Luma, 0, 190_000),
            scan(Channel::RedDiff, 0, 190_000),
            scan(Channel::BlueDiff, 0, 190_000),
            scan(Channel::Luma, 1, 190_000),
        ],
        Mode::Pd160 => seq![
            tone(20_000_000, 1_200_000),
            tone(2_080_000, 1_500_000),
            scan(Channel::Luma, 0, 305_600),
            scan(Channel::RedDiff, 0, 305_600),
            scan(Channel::BlueDiff, 0, 305_600),
            scan(Channel::Luma, 1, 305_600),
        ],
        Mode::Pd180 => seq![
            tone(20_000_000, 1_200_000),
            tone(2_080_000, 1_500_000),
            scan(Channel::Luma, 0, 357_500),
            scan(Channel::RedDiff, 0, 357_500),
            scan(Channel::BlueDiff, 0, 357_500),
            scan(Channel::Luma, 1, 357_500),
        ],
        Mode::Pd240 => seq![
            tone(20_000_000, 1_200_000),
            tone(2_080_000, 1_500_000),
            scan(Channel::Luma, 0, 382_000),
            scan(Channel::RedDiff, 0, 382_000),
            scan(Channel::BlueDiff, 0, 382_000),
            scan(Channel::Luma, 1, 382_000),
        ],
        Mode::Pd290 => seq![
            tone(20_000_000, 1_200_000),
            tone(2_080_000, 1_500_000),
            scan(Channel::Luma, 0, 286_000),
            scan(Channel::RedDiff, 0, 286_000),
            scan(Channel::BlueDiff, 0, 286_000),
            scan(Channel::Luma, 1, 286_000),
        ],
    }
}

/// The whole layout of a mode.
pub struct Layout {
    pub width: usize,
    pub height: usize,
    pub rows: usize,
    pub lead_ns: u64,
    pub ycc: bool,
    pub segments: Vec<Segment>,
}

pub open spec fn layout_matches(l: &Layout, m: Mode) -> bool {
    &&& l.width == width_of(m)
    &&& l.height == height_of(m)
    &&& l.rows == rows_of(m)
    &&& l.lead_ns == lead_of(m)
    &&& l.ycc == is_ycc(m)
    &&& l.segments@ == segments_of(m)
}

fn segments(m: Mode) -> (r: Vec<Segment>)
    ensures
        r@ == segments_of(m),
{
    let v = match m {
        Mode::Scottie1 => vec![
            tone_seg(1_500_000, 1_500_000),
            scan_seg(Channel::Green, 0, 432_000),
            tone_seg(1_500_000, 1_500_000),
            scan_seg(Channel::Blue, 0, 432_000),
            tone_seg(9_000_000, 1_200_000),
            tone_seg(1_500_000, 1_500_000),
            scan_seg(Channel::Red, 0, 432_000),
        ],
        Mode::Scottie2 => vec![
            tone_seg(1_500_000, 1_500_000),
            scan_seg(Channel::Green, 0, 275_200),
            tone_seg(1_500_000, 1_500_000),
            scan_seg(Channel::Blue, 0, 275_200),
            tone_seg(9_000_000, 1_200_000),
            tone_seg(1_500_000, 1_500_000),
            scan_seg(Channel::Red, 0, 275_200),
        ],
        Mode::ScottieDx => vec![
            tone_seg(1_500_000, 1_500_000),
            scan_seg(Channel::Green, 0, 1_080_000),
            tone_seg(1_500_000, 1_500_000),
            scan_seg(Channel::Blue, 0, 1_080_000),
            tone_seg(9_000_000, 1_200_000),
            tone_seg(1_500_000, 1_500_000),
            scan_seg(Channel::Red, 0, 1_080_000),
        ],
        Mode::Martin1 => vec![
            tone_seg(4_862_000, 1_200_000),
            tone_seg(572_000, 1_500_000),
            scan_seg(Channel::Green, 0, 457_600),
            tone_seg(572_000, 1_500_000),
            scan_seg(Channel::Blue, 0, 457_600),
            tone_seg(572_000, 1_500_000),
            scan_seg(Channel::Red, 0, 457_600),
            tone_seg(572_000, 1_500_000),
        ],
        Mode::Martin2 => vec![
            tone_seg(4_862_000, 1_200_000),
            tone_seg(572_000, 1_500_000),
            scan_seg(Channel::Green, 0, 228_800),
            tone_seg(572_000, 1_500_000),
            scan_seg(Channel::Blue, 0, 228_800),
            tone_seg(572_000, 1_500_000),
            scan_seg(Channel::Red, 0, 228_800),
            tone_seg(572_000, 1_500_000),
        ],
        Mode::Robot36 => vec![
            tone_seg(9_000_000, 1_200_000),
            tone_seg(3_000_000, 1_500_000),
            scan_seg(Channel::Luma, 0, 275_000),
            tone_seg(4_500_000, 1_500_000),
            tone_seg(1_500_000, 1_900_000),
            scan_seg(Channel::RedDiff, 0, 137_500),
            tone_seg(9_000_000, 1_200_000),
            tone_seg(3_000_000, 1_500_000),
            scan_seg(Channel::Luma, 1, 275_000),
            tone_seg(4_500_000, 2_300_000),
            tone_seg(1_500_000, 1_500_000),
            scan_seg(Channel::BlueDiff, 0, 137_500),
        ],
        Mode::Robot72 => vec![
            tone_seg(9_000_000, 1_200_000),
            tone_seg(3_000_000, 1_500_000),
            scan_seg(Channel::Luma, 0, 431_250),
            tone_seg(4_500_000, 1_500_000),
            tone_seg(1_500_000, 1_900_000),
            scan_seg(Channel::RedDiff, 0, 215_625),
            tone_seg(4_500_000, 2_300_000),
            tone_seg(1_500_000, 1_500_000),
            scan_seg(Channel::BlueDiff, 0, 215_625),
        ],
        Mode::WrasseSc2_180 => vec![
            tone_seg(5_522_500, 1_200_000),
            tone_seg(500_000, 1_500_000),
            scan_seg(Channel::Red, 0, 734_400),
            scan_seg(Channel::Green, 0, 734_400),
            scan_seg(Channel::Blue, 0, 734_400),
        ],
        Mode::P3 => vec![
            tone_seg(5_208_000, 1_200_000),
            tone_seg(1_042_000, 1_500_000),
            scan_seg(Channel::Red, 0, 208_300),
            tone_seg(1_042_000, 1_500_000),
            scan_seg(Channel::Green, 0, 208_300),
            tone_seg(1_042_000, 1_500_000),
            scan_seg(Channel::Blue, 0, 208_300),
            tone_seg(1_042_000, 1_500_000),
        ],
        Mode::P5 => vec![
            tone_seg(7_813_000, 1_200_000),
            tone_seg(1_563_000, 1_500_000),
            scan_seg(Channel::Red, 0, 312_500),
            tone_seg(1_563_000, 1_500_000),
            scan_seg(Channel::Green, 0, 312_500),
            tone_seg(1_563_000, 1_500_000),
            scan_seg(Channel::Blue, 0, 312_500),
            tone_seg(1_563_000, 1_500_000),
        ],
        Mode::P7 => vec![
            tone_seg(10_417_000, 1_200_000),
            tone_seg(2_083_000, 1_500_000),
            scan_seg(Channel::Red, 0, 416_700),
            tone_seg(2_083_000, 1_500_000),
            scan_seg(Channel::Green, 0, 416_700),
            tone_seg(2_083_000, 1_500_000),
            scan_seg(Channel::Blue, 0, 416_700),
            tone_seg(2_083_000, 1_500_000),
        ],
        Mode::Pd50 => vec![
            tone_seg(20_000_000, 1_200_000),
            tone_seg(2_080_000, 1_500_000),
            scan_seg(Channel::Luma, 0, 286_000),
            scan_seg(Channel::RedDiff, 0, 286_000),
            scan_seg(Channel::BlueDiff, 0, 286_000),
            scan_seg(Channel::Luma, 1, 286_000),
        ],
        Mode::Pd90 => vec![
            tone_seg(20_000_000, 1_200_000),
            tone_seg(2_080_000, 1_500_000),
            scan_seg(Channel::Luma, 0, 532_000),
            scan_seg(Channel::RedDiff, 0, 532_000),
            scan_seg(Channel::BlueDiff, 0, 532_000),
            scan_seg(Channel::Luma, 1, 532_000),
        ],
        Mode::Pd120 => vec![
            tone_seg(20_000_000, 1_200_000),
            tone_seg(2_080_000, 1_500_000),
            scan_seg(Channel::Luma, 0, 190_000),
            scan_seg(Channel::RedDiff, 0, 190_000),
            scan_seg(Channel::BlueDiff, 0, 190_000),
            scan_seg(Channel::Luma, 1, 190_000),
        ],
        Mode::Pd160 => vec![
            tone_seg(20_000_000, 1_200_000),
            tone_seg(2_080_000, 1_500_000),
            scan_seg(Channel::Luma, 0, 305_600),
            scan_seg(Channel::RedDiff, 0, 305_600),
            scan_seg(Channel::BlueDiff, 0, 305_600),
            scan_seg(Channel::Luma, 1, 305_600),
        ],
        Mode::Pd180 => vec![
            tone_seg(20_000_000, 1_200_000),
            tone_seg(2_080_000, 1_500_000),
            scan_seg(Channel::Luma, 0, 357_500),
            scan_seg(Channel::RedDiff, 0, 357_500),
            scan_seg(Channel::BlueDiff, 0, 357_500),
            scan_seg(Channel::Luma, 1, 357_500),
        ],
        Mode::Pd240 => vec![
            tone_seg(20_000_000, 1_200_000),
            tone_seg(2_080_000, 1_500_000),
            scan_seg(Channel::Luma, 0, 382_000),
            scan_seg(Channel::RedDiff, 0, 382_000),
            scan_seg(Channel::BlueDiff, 0, 382_000),
            scan_seg(Channel::Luma, 1, 382_000),
        ],
        Mode::Pd290 => vec![
            tone_seg(20_000_000, 1_200_000),
            tone_seg(2_080_000, 1_500_000),
            scan_seg(Channel::Luma, 0, 286_000),
            scan_seg(Channel::RedDiff, 0, 286_000),
            scan_seg(Channel::BlueDiff, 0, 286_000),
            scan_seg(Channel::Luma, 1, 286_000),
        ],
    };
    assert(v@ =~= segments_of(m));
    v
}

pub fn layout(m: Mode) -> (r: Layout)
    ensures
        layout_matches(&r, m),
{
    let (width, height, rows, lead_ns, ycc): (usize, usize, usize, u64, bool) = match m {
        Mode::Scottie1 => (320, 256, 1, 9_000_000, false),
        Mode::Scottie2 => (320, 256, 1, 9_000_000, false),
        Mode::ScottieDx => (320, 256, 1, 9_000_000, false),
        Mode::Martin1 => (320, 256, 1, 0, false),
        Mode::Martin2 => (320, 256, 1, 0, false),
        Mode::Robot36 => (320, 240, 2, 0, true),
        Mode::Robot72 => (320, 240, 1, 0, true),
        Mode::WrasseSc2_180 => (320, 256, 1, 0, false),
        Mode::P3 => (640, 496, 1, 0, false),
        Mode::P5 => (640, 496, 1, 0, false),
        Mode::P7 => (640, 496, 1, 0, false),
        Mode::Pd50 => (320, 256, 2, 0, true),
        Mode::Pd90 => (320, 256, 2, 0, true),
        Mode::Pd120 => (640, 496, 2, 0, true),
        Mode::Pd160 => (640, 496, 2, 0, true),
        Mode::Pd180 => (512, 400, 2, 0, true),
        Mode::Pd240 => (640, 496, 2, 0, true),
        Mode::Pd290 => (800, 616, 2, 0, true),
    };
    Layout { width, height, rows, lead_ns, ycc, segments: segments(m) }
}

} // verus!
