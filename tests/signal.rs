use sstv::color::{level_freq_exec, level_of_exec, rgb_to_ycc_exec, ycc_to_rgb_exec};
use sstv::discriminator::{inst_freq_exec, instantaneous_frequencies};
use sstv::sample_generator::{SampleGenerator, Tone};

#[test]
fn discriminator_exact_values() {
    // a quarter turn a sample at 8000 Hz is 2000 Hz
    assert_eq!(inst_freq_exec(8000, 0, 0x4000_0000), 2_000_000);
    // backwards is the same frequency
    assert_eq!(inst_freq_exec(8000, 0x4000_0000, 0), 2_000_000);
    // wrapping across zero
    assert_eq!(inst_freq_exec(8000, 0xF000_0000, 0x3000_0000), 2_000_000);
    // clamped to 1000 ..= 3000 Hz
    assert_eq!(inst_freq_exec(8000, 0, 0), 1_000_000);
    assert_eq!(inst_freq_exec(8000, 0, 0x8000_0000), 3_000_000);
}

#[test]
fn discriminator_blocks_join() {
    let phases: Vec<u32> = (0..5000u64).map(|i| ((i * i * 7919 + i * 104_729) % (1 << 32)) as u32).collect();
    let whole = instantaneous_frequencies(48_000, None, &phases);
    assert_eq!(whole.len(), phases.len() - 1);
    let mut joined = Vec::new();
    let mut prev = None;
    for chunk in phases.chunks(512) {
        joined.extend(instantaneous_frequencies(48_000, prev, chunk));
        prev = Some(*chunk.last().unwrap());
    }
    assert_eq!(joined, whole);
}

#[test]
fn fm_demod_of_generated_tone() {
    let mut g = SampleGenerator::new(8000);
    let phases = g.generate_samples(10_000_000, 1_500_000);
    assert_eq!(phases.len(), 80);
    let f = instantaneous_frequencies(8000, None, &phases);
    assert_eq!(f.len(), 79);
    for v in f {
        assert!(v >= 1_499_990 && v <= 1_500_010, "{}", v);
    }
}

#[test]
fn discriminator_accuracy_over_band() {
    for &fs in [8000u32, 11_025, 44_100, 48_000].iter() {
        let mut f = 1_000_000u32;
        while f <= 3_000_000 {
            if (fs as u64) * 1000 * 10 >= (f as u64) * 22 {
                let mut g = SampleGenerator::new(fs);
                let p = g.generate_samples(5_000_000, f);
                let out = instantaneous_frequencies(fs, None, &p);
                let mean: u64 = out.iter().map(|&x| x as u64).sum::<u64>() / out.len() as u64;
                assert!((mean as i64 - f as i64).abs() <= 10_000, "fs {} f {} mean {}", fs, f, mean);
            }
            f += 100_000;
        }
    }
}

#[test]
fn generator_carries_fractions() {
    let mut g = SampleGenerator::new(8000);
    // 0.19 ms is 1.52 samples
    assert_eq!(g.generate_samples(190_000, 1_500_000).len(), 1);
    assert_eq!(g.carry, 520_000_000);
    assert_eq!(g.generate_samples(190_000, 1_500_000).len(), 2);
    assert_eq!(g.carry, 40_000_000);
}

#[test]
fn generator_phase_is_continuous() {
    let mut g = SampleGenerator::new(8000);
    let a = g.generate_samples(1_000_000, 2_000_000);
    let b = g.generate_samples(1_000_000, 2_000_000);
    // 2000 Hz at 8000 samples per second: a quarter turn a sample
    assert_eq!(a, vec![0, 0x4000_0000, 0x8000_0000, 0xC000_0000, 0, 0x4000_0000, 0x8000_0000, 0xC000_0000]);
    assert_eq!(b, a);
}

#[test]
fn render_counts_whole_duration() {
    let mut g = SampleGenerator::new(44_100);
    let tones: Vec<Tone> = (0..1000).map(|i| Tone { duration_ns: 190_000 + i, freq_mhz: 1_700_000 }).collect();
    let total: u64 = tones.iter().map(|t| t.duration_ns).sum();
    let out = g.render(&tones);
    assert_eq!(out.len() as u64, 44_100 * total / 1_000_000_000);
}

#[test]
fn level_frequencies() {
    assert_eq!(level_freq_exec(0), 1_500_000);
    assert_eq!(level_freq_exec(255), 2_300_000);
    assert_eq!(level_freq_exec(128), 1_901_569);
    assert_eq!(level_freq_exec(125), 1_892_157);
}

#[test]
fn level_of_mean_frequency() {
    assert_eq!(level_of_exec(0, 0), 0);
    assert_eq!(level_of_exec(3 * 1_400_000, 3), 0);
    assert_eq!(level_of_exec(2 * 2_300_000, 2), 255);
    assert_eq!(level_of_exec(2 * 2_900_000, 2), 255);
    assert_eq!(level_of_exec(1_900_000, 1), 127);
    assert_eq!(level_of_exec(2 * 1_901_569, 2), 128);
    assert_eq!(level_of_exec(2 * 1_892_157, 2), 125);
}

#[test]
fn colour_conversions() {
    assert_eq!(rgb_to_ycc_exec((128, 128, 128)), (125, 128, 128));
    assert_eq!(rgb_to_ycc_exec((255, 255, 255)), (234, 128, 128));
    assert_eq!(rgb_to_ycc_exec((0, 0, 0)), (16, 128, 128));
    assert_eq!(rgb_to_ycc_exec((255, 0, 0)), (81, 239, 90));
    assert_eq!(ycc_to_rgb_exec(125, 128, 128), (126, 126, 126));
    assert_eq!(ycc_to_rgb_exec(16, 128, 128), (0, 0, 0));
    assert_eq!(ycc_to_rgb_exec(235, 128, 128), (254, 254, 254));
    assert_eq!(ycc_to_rgb_exec(255, 128, 128), (255, 255, 255));
}

#[test]
fn steady_tone_reads_exactly() {
    for &fs in [8000u32, 11_025, 44_100, 48_000].iter() {
        let mut f = 1_000_000u32;
        while f <= 3_000_000 {
            if (2 * f as u64) < (fs as u64 * 1000) {
                let mut g = SampleGenerator::new(fs);
                g.generate_samples(1_234_567, 1_777_000);
                let p = g.generate_samples(10_000_000, f);
                for v in instantaneous_frequencies(fs, None, &p) {
                    assert_eq!(v, f, "fs {}", fs);
                }
            }
            f += 50_000;
        }
    }
}

#[test]
fn colour_samples_use_level_frequency() {
    let mut a = SampleGenerator::new(8000);
    let mut b = SampleGenerator::new(8000);
    assert_eq!(a.generate_color_samples(5_000_000, 255), b.generate_samples(5_000_000, 2_300_000));
    assert_eq!(a.generate_color_samples(5_000_000, 0), b.generate_samples(5_000_000, 1_500_000));
    assert_eq!(a.phase, b.phase);
}

#[test]
fn five_second_tone_in_blocks_has_no_spike() {
    let fs = 48_000u32;
    let f = 1_900_000u32;
    let mut g = SampleGenerator::new(fs);
    let phases = g.generate_samples(5_000_000_000, f);
    assert_eq!(phases.len(), 240_000);
    let mut prev = None;
    let mut n = 0;
    for block in phases.chunks(512) {
        for v in instantaneous_frequencies(fs, prev, block) {
            assert_eq!(v, f);
            n += 1;
        }
        prev = Some(*block.last().unwrap());
    }
    assert_eq!(n, 239_999);
}
