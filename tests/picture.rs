use sstv::sstv_decoder::SSTVDecoder;
use sstv::mode::Mode as State;
use sstv::sstv_image::{ImageCreationError, SSTVImage};

#[test]
fn image_size_must_match() {
    assert_eq!(SSTVImage::new(2, 2, vec![(0, 0, 0); 3]).err(), Some(ImageCreationError::VectorSize(3, 4)));
    let img = SSTVImage::new(2, 1, vec![(1, 2, 3), (4, 5, 6)]).unwrap();
    assert_eq!(img.get_width(), 2);
    assert_eq!(img.get_height(), 1);
    assert_eq!(img.get_rgb_pixel(1, 0), (4, 5, 6));
    assert_eq!(img.get_ycrcb_pixel(0, 0), (17, 127, 128));
}

#[test]
fn resize_takes_nearest_pixel() {
    let img = SSTVImage::new(2, 2, vec![(1, 1, 1), (2, 2, 2), (3, 3, 3), (4, 4, 4)]).unwrap();
    let big = img.resize_image(4, 4);
    assert_eq!(big.get_width(), 4);
    assert_eq!(big.get_height(), 4);
    // x * 2 / 4 rounded: 0, 1 (0.5 rounds up), 1, 1 (at most the last)
    let row0: Vec<_> = (0..4).map(|x| big.get_rgb_pixel(x, 0)).collect();
    assert_eq!(row0, vec![(1, 1, 1), (2, 2, 2), (2, 2, 2), (2, 2, 2)]);
    let col0: Vec<_> = (0..4).map(|y| big.get_rgb_pixel(0, y)).collect();
    assert_eq!(col0, vec![(1, 1, 1), (3, 3, 3), (3, 3, 3), (3, 3, 3)]);
    let small = img.resize_image(1, 1);
    assert_eq!(small.get_rgb_pixel(0, 0), (1, 1, 1));
}

#[test]
fn new_decoder_is_idle() {
    let d = SSTVDecoder::new(44_100);
    assert_eq!(d.mode, State::Idle);
    assert_eq!(d.header_sample_num, 26_901);
    assert_eq!(d.vis_sample_num, 13_230);
    assert!(d.sample_queue.is_empty());
    assert!(d.picture.is_empty());
}

#[test]
fn switching_sample_rate_resets() {
    let mut d = SSTVDecoder::new(8000);
    d.decode(&[1, 2, 3, 4, 5]);
    assert_eq!(d.sample_queue.len(), 4);
    d.switch_sample(11_025);
    assert_eq!(d.sample_rate, 11_025);
    assert_eq!(d.header_sample_num, 6725);
    assert_eq!(d.vis_sample_num, 3308);
    assert!(d.sample_queue.is_empty());
    assert_eq!(d.prev, None);
    assert_eq!(d.mode, State::Idle);
}

#[test]
fn empty_block_changes_nothing() {
    let mut d = SSTVDecoder::new(8000);
    d.decode(&[7]);
    assert!(d.decode(&[]).is_none());
    assert_eq!(d.prev, Some(7));
    assert!(d.sample_queue.is_empty());
}
