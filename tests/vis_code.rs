use sstv::encoder::Mode;
use sstv::header::{decode_vis, take_leader};
use sstv::vis::{encode_vis, mode_from_vis};
use std::collections::VecDeque;

const ALL: [Mode; 18] = [
    Mode::Scottie1,
    Mode::Scottie2,
    Mode::ScottieDx,
    Mode::Martin1,
    Mode::Martin2,
    Mode::Robot36,
    Mode::Robot72,
    Mode::WrasseSc2_180,
    Mode::P3,
    Mode::P5,
    Mode::P7,
    Mode::Pd50,
    Mode::Pd90,
    Mode::Pd120,
    Mode::Pd160,
    Mode::Pd180,
    Mode::Pd240,
    Mode::Pd290,
];

fn payload(code: u8) -> [bool; 8] {
    let mut bits = [false; 8];
    let mut ones = 0;
    for i in 0..7 {
        bits[i] = (code >> i) & 1 == 1;
        if bits[i] {
            ones += 1;
        }
    }
    bits[7] = ones % 2 == 1;
    bits
}

/// A VIS code as steady tones, `b` samples a slot, in millihertz.
fn vis_window(b: usize, bits: &[bool; 8]) -> VecDeque<u32> {
    let mut q = VecDeque::new();
    for slot in 0..10 {
        let f = if slot == 0 || slot == 9 {
            1_200_000
        } else if bits[slot - 1] {
            1_100_000
        } else {
            1_300_000
        };
        for _ in 0..b {
            q.push_back(f);
        }
    }
    q
}

fn leader(fs: usize, offset: i64) -> Vec<u32> {
    let a = (fs * 300 + 500) / 1000;
    let b = (fs * 310 + 500) / 1000;
    let h = (fs * 610 + 500) / 1000;
    let mut v = Vec::new();
    for i in 0..h {
        let base: i64 = if i >= a && i < b { 1_200_000 } else { 1_900_000 };
        v.push((base + offset) as u32);
    }
    v
}

#[test]
fn vis_codes_match_the_table() {
    let expected: [u8; 18] = [60, 56, 76, 44, 40, 8, 12, 55, 113, 114, 115, 93, 99, 95, 98, 96, 97, 94];
    for (m, c) in ALL.iter().zip(expected.iter()) {
        assert_eq!(encode_vis(m), *c);
    }
}

#[test]
fn vis_code_round_trip() {
    for m in ALL.iter() {
        assert_eq!(mode_from_vis(encode_vis(m)), Some(*m));
    }
    let codes: Vec<u8> = ALL.iter().map(|m| encode_vis(m)).collect();
    for c in 0u8..128 {
        if !codes.contains(&c) {
            assert_eq!(mode_from_vis(c), None);
        }
    }
}

#[test]
fn vis_window_round_trip() {
    for m in ALL.iter() {
        let q = vis_window(240, &payload(encode_vis(m)));
        assert_eq!(decode_vis(&q, q.len()), Some(*m));
    }
}

#[test]
fn vis_window_unknown_code_is_none() {
    let q = vis_window(240, &payload(1));
    assert_eq!(decode_vis(&q, q.len()), None);
}

#[test]
fn vis_single_bit_flip_is_rejected() {
    for m in ALL.iter() {
        for j in 0..8 {
            let mut bits = payload(encode_vis(m));
            bits[j] = !bits[j];
            let q = vis_window(240, &bits);
            assert_eq!(decode_vis(&q, q.len()), None);
        }
    }
}

#[test]
fn vis_bad_stop_bit_is_rejected() {
    let mut q = vis_window(240, &payload(95));
    let n = q.len();
    for i in n - 240..n {
        q[i] = 1_900_000;
    }
    assert_eq!(decode_vis(&q, n), None);
}

#[test]
fn leader_tolerance() {
    for &d in [0i64, 40_000, -40_000, 50_000, -50_000].iter() {
        let mut q: VecDeque<u32> = leader(8000, d).into_iter().collect();
        assert!(take_leader(&mut q, 8000));
        assert!(q.is_empty());
    }
    for &d in [60_000i64, -60_000].iter() {
        let mut q: VecDeque<u32> = leader(8000, d).into_iter().collect();
        assert!(!take_leader(&mut q, 8000));
        assert_eq!(q.len(), 4879);
    }
}

#[test]
fn leader_found_after_other_tones() {
    let mut q: VecDeque<u32> = VecDeque::new();
    for _ in 0..777 {
        q.push_back(2_500_000);
    }
    q.extend(leader(8000, 0));
    q.push_back(1_234_567);
    assert!(take_leader(&mut q, 8000));
    // the earliest start that passes is five samples early: a window
    // shifted by five still has its break within 50 Hz of 1200 Hz
    assert_eq!(q.len(), 6);
    assert_eq!(q[5], 1_234_567);
}

#[test]
fn leader_too_short_keeps_queue() {
    let mut q: VecDeque<u32> = leader(8000, 0).into_iter().take(4000).collect();
    assert!(!take_leader(&mut q, 8000));
    assert_eq!(q.len(), 4000);
}
