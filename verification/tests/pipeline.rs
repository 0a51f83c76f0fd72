//! End-to-end checks of the equalizer.

use clahe_rs::buffer::GrayBuffer;
use clahe_rs::{clahe, ClaheConfig, ClaheError};

fn gradient(w: u32, h: u32) -> GrayBuffer {
    let mut data = Vec::new();
    for i in 0..(w as usize * h as usize) {
        data.push((i * 7 % 256) as u8);
    }
    GrayBuffer::from_raw(w, h, data).unwrap()
}

#[test]
fn rejects_grid_with_empty_tiles() {
    let img = GrayBuffer::from_raw(16, 16, vec![0; 256]).unwrap();
    let cfg = ClaheConfig { tiles_hz: 32, tiles_vt: 8, clip_limit: 40 };
    assert!(matches!(clahe(&img, &cfg), Err(ClaheError::ConfigError)));
    let cfg = ClaheConfig { tiles_hz: 8, tiles_vt: 32, clip_limit: 40 };
    assert!(matches!(clahe(&img, &cfg), Err(ClaheError::ConfigError)));
}

#[test]
fn rejects_single_tile_axis() {
    let img = GrayBuffer::from_raw(16, 16, vec![0; 256]).unwrap();
    let cfg = ClaheConfig { tiles_hz: 1, tiles_vt: 8, clip_limit: 40 };
    assert!(matches!(clahe(&img, &cfg), Err(ClaheError::ConfigError)));
    let cfg = ClaheConfig { tiles_hz: 8, tiles_vt: 1, clip_limit: 40 };
    assert!(matches!(clahe(&img, &cfg), Err(ClaheError::ConfigError)));
}

#[test]
fn accepts_default_config_on_small_image() {
    let img = gradient(16, 16);
    let out = clahe(&img, &ClaheConfig::default()).unwrap();
    assert_eq!(out.width, 16);
    assert_eq!(out.height, 16);
    assert_eq!(out.data.len(), 256);
}

#[test]
fn constant_image_saturates_everywhere() {
    // Each 2 x 2 tile holds four samples of intensity 100; nothing is
    // clipped under limit 40, and the cumulative mapping sends the one
    // occupied bin to floor((4 / 4) * 255) = 255 in every tile, so every
    // blend yields exactly 255.
    let img = GrayBuffer::from_raw(16, 16, vec![100; 256]).unwrap();
    let out = clahe(&img, &ClaheConfig::default()).unwrap();
    assert!(out.data.iter().all(|&p| p == 255));
    // the same holds for the darkest input
    let img = GrayBuffer::from_raw(16, 16, vec![0; 256]).unwrap();
    let out = clahe(&img, &ClaheConfig::default()).unwrap();
    assert!(out.data.iter().all(|&p| p == 255));
}

#[test]
fn corner_pixel_maps_through_its_tile_lut() {
    // With a constant image the top-left tile's LUT sends the input
    // intensity to 255; the origin pixel lies in that tile's corner zone
    // and must carry exactly that value.
    let img = GrayBuffer::from_raw(16, 16, vec![42; 256]).unwrap();
    let out = clahe(&img, &ClaheConfig::default()).unwrap();
    assert_eq!(out.data[0], 255);
}

#[test]
fn repeated_runs_are_byte_identical() {
    let img = gradient(20, 20);
    let cfg = ClaheConfig { tiles_hz: 4, tiles_vt: 2, clip_limit: 3 };
    let out1 = clahe(&img, &cfg).unwrap();
    let out2 = clahe(&img, &cfg).unwrap();
    assert_eq!(out1.width, out2.width);
    assert_eq!(out1.height, out2.height);
    assert_eq!(out1.data, out2.data);
}

#[test]
fn output_covers_remainder_tiles() {
    // 23 is not divisible by 3: the rightmost column and bottom row of
    // tiles absorb the remainder, and the output still covers every pixel.
    let img = gradient(23, 23);
    let cfg = ClaheConfig { tiles_hz: 3, tiles_vt: 3, clip_limit: 40 };
    let out = clahe(&img, &cfg).unwrap();
    assert_eq!(out.data.len(), 23 * 23);
}

#[test]
fn zero_clip_limit_empties_small_tiles() {
    // With limit 0 every sample is excess; 4 counts spread over 256 bins
    // leave nothing, so each tile's LUT maps everything to 0.
    let img = GrayBuffer::from_raw(16, 16, vec![100; 256]).unwrap();
    let cfg = ClaheConfig { tiles_hz: 8, tiles_vt: 8, clip_limit: 0 };
    let out = clahe(&img, &cfg).unwrap();
    assert!(out.data.iter().all(|&p| p == 0));
}
