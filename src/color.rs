//! Brightness levels, their frequencies, and the Y / R-Y / B-Y colour model.
//!
//! The constants of the colour formulas are those of the usual SSTV
//! references, scaled to integers: 0.003906 is 3906 / 10^6 and the other
//! factors are given in thousandths.
use vstd::prelude::*;

verus! {

/// A pixel: red, green, blue.
pub type Rgb = (u8, u8, u8);

/// Frequency of brightness level `s`: 1500 Hz + s * 800 / 255 Hz, in
/// millihertz rounded up, so that reading the tone back, which rounds
/// down, gives `s` again.
pub open spec fn level_freq(s: u8) -> u32 {
    (1_500_000 + (s as int * 800_000 + 254) / 255) as u32
}

pub fn level_freq_exec(s: u8) -> (r: u32)
    ensures
        r == level_freq(s),
        1_500_000 <= r <= 2_300_000,
{
    1_500_000 + (s as u32 * 800_000 + 254) / 255
}

pub open spec fn clamp_u8(x: int) -> u8 {
    if x < 0 {
        0
    } else if x > 255 {
        255
    } else {
        x as u8
    }
}

/// Level of a scan whose `n` frequencies sum to `total`: the mean mapped
/// linearly from 1500 ..= 2300 Hz onto 0 ..= 255, rounded down and clamped.
/// An empty scan reads as black.
pub open spec fn level_of(total: int, n: int) -> u8 {
    if n <= 0 {
        0
    } else {
        clamp_u8(((total - 1_500_000 * n) * 255) / (800_000 * n))
    }
}

pub fn level_of_exec(total: u128, n: u128) -> (r: u8)
    requires
        total <= n * 0xffff_ffff,
        n <= 0xffff_ffff_ffff_ffff,
    ensures
        r == level_of(total as int, n as int),
{
    if n == 0 {
        return 0;
    }
    let base: u128 = 1_500_000 * n;
    if total <= base {
        proof {
            assert((total - 1_500_000 * n) * 255 <= 0) by (nonlinear_arith)
                requires total <= 1_500_000 * n;
            assert(((total - 1_500_000 * n) * 255) / (800_000 * n) <= 0) by (nonlinear_arith)
                requires (total - 1_500_000 * n) * 255 <= 0, n > 0;
        }
        return 0;
    }
    assert((total - base) * 255 <= 0xffff_ffff_ffff_ffff * 0xffff_ffff * 255) by (nonlinear_arith)
        requires total <= n * 0xffff_ffff, n <= 0xffff_ffff_ffff_ffff, base <= total;
    let q: u128 = ((total - base) * 255) / (800_000 * n);
    if q > 255 {
        255
    } else {
        q as u8
    }
}

/// A scan window of any length held at the frequency of a level reads back
/// as that level.
pub proof fn lemma_level_round_trip(s: u8, n: nat)
    requires
        n > 0,
    ensures
        level_of(n * level_freq(s), n as int) == s,
{
    let e: int = (s as int * 800_000 + 254) / 255;
    vstd::arithmetic::div_mod::lemma_fundamental_div_mod(s as int * 800_000 + 254, 255);
    vstd::arithmetic::div_mod::lemma_mod_pos_bound(s as int * 800_000 + 254, 255);
    assert(s * 800_000 <= e * 255 <= s * 800_000 + 254);
    assert(level_freq(s) == 1_500_000 + e);
    let num = (n * level_freq(s) - 1_500_000 * n) * 255;
    let den: int = (800_000 * n) as int;
    assert(num == n * (e * 255)) by (nonlinear_arith)
        requires level_freq(s) == 1_500_000 + e, num == (n * level_freq(s) - 1_500_000 * n) * 255;
    assert(s * den <= num < (s + 1) * den) by (nonlinear_arith)
        requires
            num == n * (e * 255),
            den == 800_000 * n,
            s * 800_000 <= e * 255 <= s * 800_000 + 254,
            n > 0,
    ;
    assert(den > 0 && (s + 1) * den == s * den + den) by (nonlinear_arith)
        requires den == 800_000 * n, n > 0;
    vstd::arithmetic::div_mod::lemma_fundamental_div_mod_converse(num, den, s as int, num - s * den);
    assert(level_of(n * level_freq(s), n as int) == clamp_u8(num / den));
}

/// Y, R-Y, B-Y to red, green, blue:
/// Y' = 298.082 (Y - 16),
/// R = 0.003906 (Y' + 408.583 (R-Y - 128)),
/// G = 0.003906 (Y' - 100.291 (B-Y - 128) - 208.12 (R-Y - 128)),
/// B = 0.003906 (Y' + 516.411 (B-Y - 128)),
/// each rounded down and clamped to 0 ..= 255.
pub open spec fn ycc_to_rgb(y: u8, ry: u8, by: u8) -> Rgb {
    let yy = 298_082 * (y - 16);
    (
        clamp_u8((3906 * (yy + 408_583 * (ry - 128))) / 1_000_000_000),
        clamp_u8((3906 * (yy - 100_291 * (by - 128) - 208_120 * (ry - 128))) / 1_000_000_000),
        clamp_u8((3906 * (yy + 516_411 * (by - 128))) / 1_000_000_000),
    )
}

fn scaled_to_u8(v: i64) -> (r: u8)
    ensures
        r == clamp_u8(v / 1_000_000_000),
{
    if v < 0 {
        assert(v / 1_000_000_000 < 0);
        0
    } else {
        let q = v / 1_000_000_000;
        if q > 255 {
            255
        } else {
            q as u8
        }
    }
}

pub fn ycc_to_rgb_exec(y: u8, ry: u8, by: u8) -> (r: Rgb)
    ensures
        r == ycc_to_rgb(y, ry, by),
{
    let yy: i64 = 298_082 * (y as i64 - 16);
    let cr: i64 = ry as i64 - 128;
    let cb: i64 = by as i64 - 128;
    (
        scaled_to_u8(3906 * (yy + 408_583 * cr)),
        scaled_to_u8(3906 * (yy - 100_291 * cb - 208_120 * cr)),
        scaled_to_u8(3906 * (yy + 516_411 * cb)),
    )
}

/// Red, green, blue to Y, R-Y, B-Y:
/// Y = 16 + 0.003906 (65.738 R + 129.057 G + 25.064 B),
/// R-Y = 128 + 0.003906 (112.439 R - 94.154 G - 18.285 B),
/// B-Y = 128 + 0.003906 (-37.945 R - 74.494 G + 112.439 B),
/// each rounded down.
pub open spec fn rgb_to_ycc(p: Rgb) -> (u8, u8, u8) {
    let (r, g, b) = p;
    (
        ((16_000_000_000 + 3906 * (65_738 * r + 129_057 * g + 25_064 * b)) / 1_000_000_000) as u8,
        ((128_000_000_000 + 3906 * (112_439 * r - 94_154 * g - 18_285 * b)) / 1_000_000_000) as u8,
        ((128_000_000_000 + 3906 * (-37_945 * r - 74_494 * g + 112_439 * b)) / 1_000_000_000) as u8,
    )
}

pub fn rgb_to_ycc_exec(p: Rgb) -> (r: (u8, u8, u8))
    ensures
        r == rgb_to_ycc(p),
        16 <= r.0 <= 235,
        16 <= r.1 <= 240,
        16 <= r.2 <= 240,
{
    let (r, g, b) = p;
    let r = r as i64;
    let g = g as i64;
    let b = b as i64;
    let y: i64 = 16_000_000_000 + 3906 * (65_738 * r + 129_057 * g + 25_064 * b);
    let cr: i64 = 128_000_000_000 + 3906 * (112_439 * r - 94_154 * g - 18_285 * b);
    let cb: i64 = 128_000_000_000 + 3906 * (-37_945 * r - 74_494 * g + 112_439 * b);
    assert(16_000_000_000 <= y <= 235_999_999_999) by (nonlinear_arith)
        requires
            0 <= r <= 255,
            0 <= g <= 255,
            0 <= b <= 255,
            y == 16_000_000_000 + 3906 * (65_738 * r + 129_057 * g + 25_064 * b),
    ;
    assert(16_000_000_000 <= cr <= 240_999_999_999) by (nonlinear_arith)
        requires
            0 <= r <= 255,
            0 <= g <= 255,
            0 <= b <= 255,
            cr == 128_000_000_000 + 3906 * (112_439 * r - 94_154 * g - 18_285 * b),
    ;
    assert(16_000_000_000 <= cb <= 240_999_999_999) by (nonlinear_arith)
        requires
            0 <= r <= 255,
            0 <= g <= 255,
            0 <= b <= 255,
            cb == 128_000_000_000 + 3906 * (-37_945 * r - 74_494 * g + 112_439 * b),
    ;
    ((y / 1_000_000_000) as u8, (cr / 1_000_000_000) as u8, (cb / 1_000_000_000) as u8)
}

/// Mean of two levels, rounded down: how two rows share one chroma scan.
pub open spec fn average(a: u8, b: u8) -> u8 {
    ((a + b) / 2) as u8
}

} // verus!
