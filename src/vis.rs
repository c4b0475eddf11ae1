//! The VIS code: seven data bits, least significant first, and an even
//! parity bit, naming the transmission mode.
use crate::encoder::Mode;
use vstd::prelude::*;

verus! {

/// The VIS code of each transmission mode.
pub open spec fn vis_code_of(m: Mode) -> u8 {
    match m {
        Mode::Scottie1 => 60,
        Mode::Scottie2 => 56,
        Mode::ScottieDx => 76,
        Mode::Martin1 => 44,
        Mode::Martin2 => 40,
        Mode::Robot36 => 8,
        Mode::Robot72 => 12,
        Mode::WrasseSc2_180 => 55,
        Mode::P3 => 113,
        Mode::P5 => 114,
        Mode::P7 => 115,
        Mode::Pd50 => 93,
        Mode::Pd90 => 99,
        Mode::Pd120 => 95,
        Mode::Pd160 => 98,
        Mode::Pd180 => 96,
        Mode::Pd240 => 97,
        Mode::Pd290 => 94,
    }
}

/// The mode that a VIS code names, if any.
pub open spec fn mode_of_vis(c: u8) -> Option<Mode> {
    if c == 60 {
        Some(Mode::Scottie1)
    } else if c == 56 {
        Some(Mode::Scottie2)
    } else if c == 76 {
        Some(Mode::ScottieDx)
    } else if c == 44 {
        Some(Mode::Martin1)
    } else if c == 40 {
        Some(Mode::Martin2)
    } else if c == 8 {
        Some(Mode::Robot36)
    } else if c == 12 {
        Some(Mode::Robot72)
    } else if c == 55 {
        Some(Mode::WrasseSc2_180)
    } else if c == 113 {
        Some(Mode::P3)
    } else if c == 114 {
        Some(Mode::P5)
    } else if c == 115 {
        Some(Mode::P7)
    } else if c == 93 {
        Some(Mode::Pd50)
    } else if c == 99 {
        Some(Mode::Pd90)
    } else if c == 95 {
        Some(Mode::Pd120)
    } else if c == 98 {
        Some(Mode::Pd160)
    } else if c == 96 {
        Some(Mode::Pd180)
    } else if c == 97 {
        Some(Mode::Pd240)
    } else if c == 94 {
        Some(Mode::Pd290)
    } else {
        None
    }
}

pub fn encode_vis(m: &Mode) -> (r: u8)
    ensures
        r == vis_code_of(*m),
{
    match m {
        Mode::Scottie1 => 60,
        Mode::Scottie2 => 56,
        Mode::ScottieDx => 76,
        Mode::Martin1 => 44,
        Mode::Martin2 => 40,
        Mode::Robot36 => 8,
        Mode::Robot72 => 12,
        Mode::WrasseSc2_180 => 55,
        Mode::P3 => 113,
        Mode::P5 => 114,
        Mode::P7 => 115,
        Mode::Pd50 => 93,
        Mode::Pd90 => 99,
        Mode::Pd120 => 95,
        Mode::Pd160 => 98,
        Mode::Pd180 => 96,
        Mode::Pd240 => 97,
        Mode::Pd290 => 94,
    }
}

pub fn mode_from_vis(c: u8) -> (r: Option<Mode>)
    ensures
        r == mode_of_vis(c),
{
    match c {
        60 => Some(Mode::Scottie1),
        56 => Some(Mode::Scottie2),
        76 => Some(Mode::ScottieDx),
        44 => Some(Mode::Martin1),
        40 => Some(Mode::Martin2),
        8 => Some(Mode::Robot36),
        12 => Some(Mode::Robot72),
        55 => Some(Mode::WrasseSc2_180),
        113 => Some(Mode::P3),
        114 => Some(Mode::P5),
        115 => Some(Mode::P7),
        93 => Some(Mode::Pd50),
        99 => Some(Mode::Pd90),
        95 => Some(Mode::Pd120),
        98 => Some(Mode::Pd160),
        96 => Some(Mode::Pd180),
        97 => Some(Mode::Pd240),
        94 => Some(Mode::Pd290),
        _ => None,
    }
}

/// Data bit `i` (0 ..= 6) of a code.
pub open spec fn code_bit(c: u8, i: u8) -> bool {
    (c >> i) & 1u8 == 1u8
}

pub open spec fn b2i(b: bool) -> int {
    if b {
        1
    } else {
        0
    }
}

/// Number of one bits among the seven data bits.
pub open spec fn ones_of(c: u8) -> int {
    b2i(code_bit(c, 0)) + b2i(code_bit(c, 1)) + b2i(code_bit(c, 2)) + b2i(code_bit(c, 3))
        + b2i(code_bit(c, 4)) + b2i(code_bit(c, 5)) + b2i(code_bit(c, 6))
}

/// The eight transmitted bits of a code: seven data bits and the bit that
/// makes the number of ones even.
pub open spec fn payload_of(c: u8) -> Seq<bool> {
    seq![
        code_bit(c, 0),
        code_bit(c, 1),
        code_bit(c, 2),
        code_bit(c, 3),
        code_bit(c, 4),
        code_bit(c, 5),
        code_bit(c, 6),
        ones_of(c) % 2 == 1,
    ]
}

/// Number of one bits among the first seven bits of a payload.
pub open spec fn data_ones(bits: Seq<bool>) -> int {
    b2i(bits[0]) + b2i(bits[1]) + b2i(bits[2]) + b2i(bits[3]) + b2i(bits[4]) + b2i(bits[5])
        + b2i(bits[6])
}

/// The code that the first seven bits of a payload spell, least significant
/// bit first.
pub open spec fn data_code(bits: Seq<bool>) -> int {
    b2i(bits[0]) + 2 * b2i(bits[1]) + 4 * b2i(bits[2]) + 8 * b2i(bits[3]) + 16 * b2i(bits[4])
        + 32 * b2i(bits[5]) + 64 * b2i(bits[6])
}

/// A received payload of eight bits: the code if the parity bit agrees with
/// the data bits, none otherwise.
pub open spec fn code_of_payload(bits: Seq<bool>) -> Option<u8> {
    if (data_ones(bits) % 2 == 1) == bits[7] {
        Some(data_code(bits) as u8)
    } else {
        None
    }
}

/// The mode that a received payload names.
pub open spec fn mode_of_payload(bits: Seq<bool>) -> Option<Mode> {
    match code_of_payload(bits) {
        Some(c) => mode_of_vis(c),
        None => None,
    }
}

pub open spec fn flip(bits: Seq<bool>, j: int) -> Seq<bool> {
    bits.update(j, !bits[j])
}

pub(crate) proof fn lemma_bits_spell_code(c: u8)
    requires
        c < 128,
    ensures
        data_code(payload_of(c)) == c as int,
{
    let b0 = (c >> 0u8) & 1u8;
    let b1 = (c >> 1u8) & 1u8;
    let b2 = (c >> 2u8) & 1u8;
    let b3 = (c >> 3u8) & 1u8;
    let b4 = (c >> 4u8) & 1u8;
    let b5 = (c >> 5u8) & 1u8;
    let b6 = (c >> 6u8) & 1u8;
    assert(c == b0 + 2 * b1 + 4 * b2 + 8 * b3 + 16 * b4 + 32 * b5 + 64 * b6
        && b0 <= 1 && b1 <= 1 && b2 <= 1 && b3 <= 1 && b4 <= 1 && b5 <= 1 && b6 <= 1) by (bit_vector)
        requires
            c < 128u8,
            b0 == (c >> 0u8) & 1u8,
            b1 == (c >> 1u8) & 1u8,
            b2 == (c >> 2u8) & 1u8,
            b3 == (c >> 3u8) & 1u8,
            b4 == (c >> 4u8) & 1u8,
            b5 == (c >> 5u8) & 1u8,
            b6 == (c >> 6u8) & 1u8,
    ;
}

/// Every mode of the table has its own seven-bit code, and decoding the
/// payload sent for a mode gives that mode back.
pub proof fn lemma_vis_round_trip(m: Mode)
    ensures
        vis_code_of(m) < 128,
        mode_of_vis(vis_code_of(m)) == Some(m),
        mode_of_payload(payload_of(vis_code_of(m))) == Some(m),
{
    let c = vis_code_of(m);
    lemma_bits_spell_code(c);
    let p = payload_of(c);
    assert(data_ones(p) == ones_of(c));
}

/// A code outside the table names no mode, and a code of the table names
/// the mode that it was assigned to.
pub proof fn lemma_vis_table_exact(c: u8)
    ensures
        mode_of_vis(c) is None <==> (forall|m: Mode| vis_code_of(m) != c),
        mode_of_vis(c) matches Some(m) ==> vis_code_of(m) == c,
{
    if mode_of_vis(c) is None {
        assert forall|m: Mode| vis_code_of(m) != c by {
            match m {
                Mode::Scottie1 => {},
                Mode::Scottie2 => {},
                Mode::ScottieDx => {},
                Mode::Martin1 => {},
                Mode::Martin2 => {},
                Mode::Robot36 => {},
                Mode::Robot72 => {},
                Mode::WrasseSc2_180 => {},
                Mode::P3 => {},
                Mode::P5 => {},
                Mode::P7 => {},
                Mode::Pd50 => {},
                Mode::Pd90 => {},
                Mode::Pd120 => {},
                Mode::Pd160 => {},
                Mode::Pd180 => {},
                Mode::Pd240 => {},
                Mode::Pd290 => {},
            }
        }
    } else {
        let m = mode_of_vis(c).unwrap();
        assert(vis_code_of(m) == c);
    }
}

/// Flipping any one of the eight bits of the payload of a code breaks its
/// parity: the receiver names no mode.
pub proof fn lemma_parity_catches_single_flip(c: u8, j: int)
    requires
        c < 128,
        0 <= j < 8,
    ensures
        code_of_payload(flip(payload_of(c), j)) is None,
        mode_of_payload(flip(payload_of(c), j)) is None,
{
    let p = payload_of(c);
    let q = flip(p, j);
    assert(data_ones(p) == ones_of(c));
    if j < 7 {
        assert(q[7] == p[7]);
        assert(data_ones(q) == data_ones(p) + 1 || data_ones(q) == data_ones(p) - 1);
    } else {
        assert(data_ones(q) == data_ones(p));
    }
}

} // verus!
