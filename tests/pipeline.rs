use sstv::color::Rgb;
use sstv::encoder::{encode_picture_into_phases, encode_picture_into_tones, generate_header, transmission_samples, Mode};
use sstv::mode::Mode as State;
use sstv::sample_generator::{SampleGenerator, Tone};
use sstv::sstv_decoder::SSTVDecoder;
use sstv::sstv_image::SSTVImage;

fn solid(w: usize, h: usize, p: Rgb) -> SSTVImage {
    SSTVImage::new(w, h, vec![p; w * h]).unwrap()
}

fn transmit(img: &SSTVImage, mode: Mode, fs: u32) -> Vec<u32> {
    let mut g = SampleGenerator::new(fs);
    let mut p = encode_picture_into_phases(&mut g, img, &mode);
    // the transmitter falls back to black after the picture
    p.extend(g.generate_samples(100_000_000, 1_500_000));
    p
}

/// Feeds the phases in blocks of the given sizes (cycled) and collects the
/// pictures handed out, with the highest row counter seen.
fn receive(phases: &[u32], fs: u32, sizes: &[usize]) -> (Vec<Vec<Vec<Rgb>>>, usize, Vec<State>) {
    let mut d = SSTVDecoder::new(fs);
    let mut out = Vec::new();
    let mut max_counter = 0;
    let mut states = vec![State::Idle];
    let mut at = 0;
    let mut k = 0;
    while at < phases.len() {
        let n = sizes[k % sizes.len()].min(phases.len() - at);
        if let Some(p) = d.decode(&phases[at..at + n]) {
            out.push(p);
        }
        max_counter = max_counter.max(d.counter);
        if *states.last().unwrap() != d.mode {
            states.push(d.mode);
        }
        at += n;
        k += 1;
    }
    (out, max_counter, states)
}

fn assert_uniform(pic: &Vec<Vec<Rgb>>, w: usize, h: usize, want: Rgb, tol: i32) {
    assert_eq!(pic.len(), h);
    for row in pic {
        assert_eq!(row.len(), w);
        for p in row {
            assert!((p.0 as i32 - want.0 as i32).abs() <= tol, "{:?}", p);
            assert!((p.1 as i32 - want.1 as i32).abs() <= tol, "{:?}", p);
            assert!((p.2 as i32 - want.2 as i32).abs() <= tol, "{:?}", p);
        }
    }
}

#[test]
fn pd120_gray_round_trip() {
    let img = solid(640, 496, (128, 128, 128));
    let phases = transmit(&img, Mode::Pd120, 8000);
    let (pics, counter, states) = receive(&phases, 8000, &[1024]);
    assert_eq!(pics.len(), 1);
    assert!(counter >= 494);
    assert_eq!(states, vec![State::Idle, State::VisFind, State::Pd120, State::Idle]);
    assert_uniform(&pics[0], 640, 496, (128, 128, 128), 4);
}

#[test]
fn pd120_striped_picture() {
    let colours: [Rgb; 3] = [(255, 0, 0), (0, 255, 0), (0, 0, 255)];
    let mut pixels = Vec::new();
    for y in 0..496 {
        for _ in 0..640 {
            pixels.push(colours[(y / 32) % 3]);
        }
    }
    let img = SSTVImage::new(640, 496, pixels).unwrap();
    let phases = transmit(&img, Mode::Pd120, 8000);
    let (pics, counter, states) = receive(&phases, 8000, &[1024]);
    assert!(states.contains(&State::Pd120));
    assert!(counter >= 494);
    assert_eq!(pics.len(), 1);
    let pic = &pics[0];
    assert_eq!(pic.len(), 496);
    for band in 0..(496 / 32) {
        let mut sum = [0i64; 3];
        let mut n = 0i64;
        for y in band * 32..(band + 1) * 32 {
            for p in &pic[y] {
                sum[0] += p.0 as i64;
                sum[1] += p.1 as i64;
                sum[2] += p.2 as i64;
                n += 1;
            }
        }
        let want = colours[band % 3];
        assert!((sum[0] / n - want.0 as i64).abs() <= 8, "band {} {:?}", band, sum);
        assert!((sum[1] / n - want.1 as i64).abs() <= 8, "band {} {:?}", band, sum);
        assert!((sum[2] / n - want.2 as i64).abs() <= 8, "band {} {:?}", band, sum);
    }
}

#[test]
fn block_sizes_do_not_matter() {
    let mut pixels = Vec::new();
    for y in 0..240usize {
        for x in 0..320usize {
            pixels.push(((x % 256) as u8, (y % 256) as u8, ((x + y) % 256) as u8));
        }
    }
    let img = SSTVImage::new(320, 240, pixels).unwrap();
    let phases = transmit(&img, Mode::Robot36, 8000);
    let (by_one, _, _) = receive(&phases, 8000, &[1]);
    let (by_block, _, _) = receive(&phases, 8000, &[1024]);
    assert_eq!(by_one.len(), 1);
    assert_eq!(by_one, by_block);
}

#[test]
fn random_block_sizes_give_same_picture() {
    let img = solid(320, 240, (200, 60, 30));
    let phases = transmit(&img, Mode::Robot36, 8000);
    let (reference, _, _) = receive(&phases, 8000, &[1024]);
    let mut seed: u64 = 12345;
    let mut sizes = Vec::new();
    for _ in 0..997 {
        seed = seed.wrapping_mul(6364136223846793005).wrapping_add(1442695040888963407);
        sizes.push(1 + ((seed >> 33) % 1500) as usize);
    }
    let (random, _, _) = receive(&phases, 8000, &sizes);
    assert_eq!(reference.len(), 1);
    assert_eq!(random, reference);
}

#[test]
fn whole_transmission_in_one_block_reads_one_line() {
    let img = solid(640, 496, (128, 128, 128));
    let mut g = SampleGenerator::new(8000);
    let phases = encode_picture_into_phases(&mut g, &img, &Mode::Pd120);
    let mut d = SSTVDecoder::new(8000);
    assert!(d.decode(&phases).is_none());
    assert_eq!(d.mode, State::Pd120);
    assert_eq!(d.counter, 2);
}

#[test]
fn noise_never_locks() {
    let fs = 48_000u32;
    let mut seed: u64 = 987_654_321;
    let mut d = SSTVDecoder::new(fs);
    let mut buf = Vec::new();
    for _ in 0..(10 * fs as usize) {
        seed = seed.wrapping_mul(6364136223846793005).wrapping_add(1442695040888963407);
        buf.push((seed >> 32) as u32);
        if buf.len() == 1024 {
            assert!(d.decode(&buf).is_none());
            assert_eq!(d.mode, State::Idle);
            buf.clear();
        }
    }
    assert!(d.picture.is_empty());
    assert_eq!(d.counter, 0);
}

#[test]
fn bad_parity_goes_back_to_idle() {
    let mut tones = generate_header(&Mode::Pd120);
    // the parity bit of code 95 is a zero (1300 Hz); send a one instead
    assert_eq!(tones[11].freq_mhz, 1_300_000);
    tones[11].freq_mhz = 1_100_000;
    tones.push(Tone { duration_ns: 1_000_000_000, freq_mhz: 1_500_000 });
    let mut g = SampleGenerator::new(8000);
    let phases = g.render(&tones);
    let (pics, _, states) = receive(&phases, 8000, &[256]);
    assert!(pics.is_empty());
    assert_eq!(states, vec![State::Idle, State::VisFind, State::Idle]);
}

#[test]
fn robot36_white_timing() {
    let img = solid(320, 240, (255, 255, 255));
    let tones = encode_picture_into_tones(&img, &Mode::Robot36);
    let header: u64 = tones[..13].iter().map(|t| t.duration_ns).sum();
    let body: u64 = tones[13..].iter().map(|t| t.duration_ns).sum();
    assert_eq!(header, 910_000_000);
    assert_eq!(body, 36_000_000_000);
    // Y of white is 234, sent at 1500 + 234 * 800 / 255 Hz
    let y_scan = &tones[13 + 2..13 + 2 + 320];
    for t in y_scan {
        assert_eq!(t.duration_ns, 275_000);
        assert_eq!(t.freq_mhz, 2_234_118);
    }
    let mut g = SampleGenerator::new(8000);
    let phases = encode_picture_into_phases(&mut g, &img, &Mode::Robot36);
    assert_eq!(phases.len(), 295_280);
}

#[test]
fn header_tones_of_pd120() {
    let t = generate_header(&Mode::Pd120);
    let f: Vec<u32> = t.iter().map(|t| t.freq_mhz).collect();
    assert_eq!(
        f,
        vec![
            1_900_000, 1_200_000, 1_900_000, 1_200_000, 1_100_000, 1_100_000, 1_100_000, 1_100_000, 1_100_000,
            1_300_000, 1_100_000, 1_300_000, 1_200_000
        ]
    );
    let d: u64 = t.iter().map(|t| t.duration_ns).sum();
    assert_eq!(d, 910_000_000);
}

fn round_trip(mode: Mode, w: usize, h: usize, fs: u32) {
    let img = solid(w, h, (128, 128, 128));
    let phases = transmit(&img, mode, fs);
    let (pics, _, _) = receive(&phases, fs, &[1024]);
    assert_eq!(pics.len(), 1);
    assert_uniform(&pics[0], w, h, (128, 128, 128), 4);
}

#[test]
fn robot36_round_trip() {
    round_trip(Mode::Robot36, 320, 240, 8000);
}

#[test]
fn robot72_round_trip() {
    round_trip(Mode::Robot72, 320, 240, 8000);
}

#[test]
fn scottie1_round_trip() {
    round_trip(Mode::Scottie1, 320, 256, 8000);
}

#[test]
fn martin2_round_trip() {
    round_trip(Mode::Martin2, 320, 256, 8000);
}

#[test]
fn pd50_round_trip() {
    round_trip(Mode::Pd50, 320, 256, 8000);
}

#[test]
fn wrasse_round_trip() {
    round_trip(Mode::WrasseSc2_180, 320, 256, 8000);
}

#[test]
fn p3_round_trip() {
    round_trip(Mode::P3, 640, 496, 8000);
}

#[test]
fn transmission_sample_counts() {
    let g = SampleGenerator::new(8000);
    assert_eq!(transmission_samples(&g, &Mode::Robot36), Some(295_280));
    // 910 ms + 248 lines of 508.48 ms
    assert_eq!(transmission_samples(&g, &Mode::Pd120), Some(1_016_104));
    // 910 ms + 9 ms + 256 lines of 428.22 ms
    let g = SampleGenerator::new(48_000);
    assert_eq!(transmission_samples(&g, &Mode::Scottie1), Some(5_306_079));
}
