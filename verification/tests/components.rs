//! Component-level checks: buffers, histograms, clipping, mapping tables,
//! classification, and blending, each against hand-derived values.

use clahe_rs::buffer::GrayBuffer;
use clahe_rs::clip::clip_histogram;
use clahe_rs::histogram::{build_histogram, Histogram};
use clahe_rs::interp::{lerp, map_pixel, LutGrid};
use clahe_rs::lut::build_lut;
use clahe_rs::region::{classify, Region, TileCoordinate};
use clahe_rs::tile_span;

fn hist_from(pairs: &[(usize, u64)]) -> Histogram {
    let mut counts = vec![0u64; 256];
    for &(bin, c) in pairs {
        counts[bin] = c;
    }
    Histogram { counts }
}

fn t(x: u32, y: u32) -> TileCoordinate {
    TileCoordinate { x, y }
}

/// A 2 x 2 grid whose tiles map intensity 100 to 50 (top-left),
/// 100 (top-right), 200 (bottom-left) and 150 (bottom-right).
fn demo_grid() -> LutGrid {
    let mut tables: Vec<Vec<u8>> = Vec::new();
    for val in [50u8, 100, 200, 150] {
        let mut table = vec![0u8; 256];
        table[100] = val;
        tables.push(table);
    }
    LutGrid { tiles_hz: 2, tiles_vt: 2, tables }
}

#[test]
fn from_raw_validates_shape() {
    assert!(GrayBuffer::from_raw(4, 4, vec![0; 16]).is_some());
    assert!(GrayBuffer::from_raw(4, 4, vec![0; 15]).is_none());
    assert!(GrayBuffer::from_raw(0, 1, vec![]).is_none());
    assert!(GrayBuffer::from_raw(1, 0, vec![]).is_none());
}

#[test]
fn histogram_counts_each_intensity() {
    let img = GrayBuffer::from_raw(4, 2, vec![0, 1, 1, 2, 3, 3, 3, 9]).unwrap();
    let hist = build_histogram(&img, 0, 0, 4, 2);
    assert_eq!(hist.counts[0], 1);
    assert_eq!(hist.counts[1], 2);
    assert_eq!(hist.counts[2], 1);
    assert_eq!(hist.counts[3], 3);
    assert_eq!(hist.counts[9], 1);
    let total: u64 = hist.counts.iter().sum();
    assert_eq!(total, 8);
}

#[test]
fn histogram_respects_tile_bounds() {
    let img = GrayBuffer::from_raw(4, 2, vec![0, 1, 1, 2, 3, 3, 3, 9]).unwrap();
    let hist = build_histogram(&img, 1, 0, 2, 2);
    assert_eq!(hist.counts[1], 2);
    assert_eq!(hist.counts[3], 2);
    let total: u64 = hist.counts.iter().sum();
    assert_eq!(total, 4);
}

#[test]
fn constant_region_fills_one_bin() {
    let img = GrayBuffer::from_raw(16, 16, vec![100; 256]).unwrap();
    let hist = build_histogram(&img, 0, 0, 2, 2);
    for v in 0..256 {
        assert_eq!(hist.counts[v], if v == 100 { 4 } else { 0 });
    }
}

#[test]
fn clip_below_limit_changes_nothing() {
    let hist = hist_from(&[(10, 5), (20, 39)]);
    let clipped = clip_histogram(&hist, 40);
    assert_eq!(clipped.counts, hist.counts);
}

#[test]
fn clip_caps_bins_and_drops_remainder() {
    // excess 50 + 10 = 60; 60 / 256 = 0 per bin, so 60 counts vanish.
    let hist = hist_from(&[(0, 100), (1, 60)]);
    let clipped = clip_histogram(&hist, 50);
    assert_eq!(clipped.counts[0], 50);
    assert_eq!(clipped.counts[1], 50);
    assert_eq!(clipped.counts[2], 0);
    let before: u64 = hist.counts.iter().sum();
    let after: u64 = clipped.counts.iter().sum();
    assert_eq!(before - after, 60 % 256);
}

#[test]
fn clip_redistributes_excess_uniformly() {
    // excess 900; 900 / 256 = 3 per bin; deficit 900 % 256 = 132.
    let hist = hist_from(&[(0, 1000)]);
    let clipped = clip_histogram(&hist, 100);
    assert_eq!(clipped.counts[0], 103);
    assert_eq!(clipped.counts[1], 3);
    assert_eq!(clipped.counts[255], 3);
    let after: u64 = clipped.counts.iter().sum();
    assert_eq!(after, 1000 - 132);
}

#[test]
fn lut_maps_cumulative_distribution() {
    let hist = hist_from(&[(0, 1), (255, 1)]);
    let lut = build_lut(&hist);
    assert_eq!(lut.len(), 256);
    assert_eq!(lut[0], 127);
    assert_eq!(lut[100], 127);
    assert_eq!(lut[254], 127);
    assert_eq!(lut[255], 255);
}

#[test]
fn lut_of_empty_histogram_is_zero() {
    let hist = Histogram { counts: vec![0u64; 256] };
    let lut = build_lut(&hist);
    assert!(lut.iter().all(|&e| e == 0));
}

#[test]
fn lut_of_single_bin_saturates() {
    let hist = hist_from(&[(100, 4)]);
    let lut = build_lut(&hist);
    assert_eq!(lut[99], 0);
    assert_eq!(lut[100], 255);
    assert_eq!(lut[255], 255);
}

#[test]
fn lut_is_monotone() {
    let hist = hist_from(&[(3, 7), (10, 1), (50, 40), (51, 2), (200, 13)]);
    let lut = build_lut(&hist);
    for i in 1..256 {
        assert!(lut[i - 1] <= lut[i]);
    }
}

#[test]
fn classify_corner_zones_use_closed_near_edges() {
    // 20 x 20 image, 2 x 2 grid: tiles are 10 wide, half-tile is 5,
    // the far threshold is 15.
    assert_eq!(classify(0, 0, 2, 2, 20, 20), Region::Corner(t(0, 0)));
    assert_eq!(classify(5, 5, 2, 2, 20, 20), Region::Corner(t(0, 0)));
    assert_eq!(classify(16, 5, 2, 2, 20, 20), Region::Corner(t(1, 0)));
    assert_eq!(classify(16, 16, 2, 2, 20, 20), Region::Corner(t(1, 1)));
    assert_eq!(classify(5, 16, 2, 2, 20, 20), Region::Corner(t(0, 1)));
    // one past the near edge is no longer a corner
    assert_eq!(
        classify(6, 5, 2, 2, 20, 20),
        Region::Border(t(0, 0), t(1, 0))
    );
    // the far threshold itself is not past it
    assert_eq!(
        classify(15, 5, 2, 2, 20, 20),
        Region::Border(t(0, 0), t(1, 0))
    );
}

#[test]
fn classify_borders_pair_adjacent_tiles() {
    assert_eq!(
        classify(10, 2, 2, 2, 20, 20),
        Region::Border(t(0, 0), t(1, 0))
    );
    assert_eq!(
        classify(10, 17, 2, 2, 20, 20),
        Region::Border(t(0, 1), t(1, 1))
    );
    assert_eq!(
        classify(2, 10, 2, 2, 20, 20),
        Region::Border(t(0, 0), t(0, 1))
    );
    assert_eq!(
        classify(17, 10, 2, 2, 20, 20),
        Region::Border(t(1, 0), t(1, 1))
    );
}

#[test]
fn classify_interior_orders_four_tiles() {
    assert_eq!(
        classify(6, 6, 2, 2, 20, 20),
        Region::Interior(t(0, 0), t(1, 0), t(1, 1), t(0, 1))
    );
    // every pixel of the image gets a region; a 3 x 3 grid on an odd
    // size exercises the remainder column and row
    for y in 0..23u32 {
        for x in 0..23u32 {
            let r = classify(x, y, 3, 3, 23, 23);
            match r {
                Region::Corner(a) => assert!(a.x < 3 && a.y < 3),
                Region::Border(a, b) => {
                    assert!(a.x < 3 && a.y < 3 && b.x < 3 && b.y < 3);
                    assert!((a.x == b.x) != (a.y == b.y));
                }
                Region::Interior(a, b, c, d) => {
                    assert_eq!((b.x, b.y), (a.x + 1, a.y));
                    assert_eq!((c.x, c.y), (a.x + 1, a.y + 1));
                    assert_eq!((d.x, d.y), (a.x, a.y + 1));
                }
            }
        }
    }
}

#[test]
fn lerp_truncates_and_saturates() {
    assert_eq!(lerp(10, 20, 0, 5), 10);
    assert_eq!(lerp(10, 20, 5, 5), 20);
    assert_eq!(lerp(0, 1, 1, 2), 0);
    assert_eq!(lerp(100, 50, 1, 2), 75);
    assert_eq!(lerp(200, 100, 3, 10), 170);
    assert_eq!(lerp(0, 255, 11, 10), 255);
    assert_eq!(lerp(255, 0, 11, 10), 0);
}

#[test]
fn interior_midpoint_is_the_mean_of_four_tiles() {
    let grid = demo_grid();
    // (10, 10) lies midway between all four tile centers: both weights
    // are 1/2, so the output is the mean of 50, 100, 200 and 150.
    assert_eq!(map_pixel(&grid, 10, 10, 100, 20, 20), 125);
}

#[test]
fn tile_center_pixel_takes_that_tile_value() {
    let grid = demo_grid();
    // (15, 15) is the bottom-right tile's center: both weights are 1.
    assert_eq!(map_pixel(&grid, 15, 15, 100, 20, 20), 150);
    // (5, 5) is the top-left tile's center, inside its corner zone.
    assert_eq!(map_pixel(&grid, 5, 5, 100, 20, 20), 50);
}

#[test]
fn border_pixel_blends_two_tiles() {
    let grid = demo_grid();
    // top border, midway between the two top centers: (50 + 100) / 2
    assert_eq!(map_pixel(&grid, 10, 2, 100, 20, 20), 75);
    // left border, midway between the two left centers: (50 + 200) / 2
    assert_eq!(map_pixel(&grid, 2, 10, 100, 20, 20), 125);
}

#[test]
fn corner_pixel_uses_one_tile_exactly() {
    let grid = demo_grid();
    assert_eq!(map_pixel(&grid, 0, 0, 100, 20, 20), 50);
    // an intensity no tile maps stays at the table default
    assert_eq!(map_pixel(&grid, 0, 0, 99, 20, 20), 0);
}

#[test]
fn tile_span_gives_last_tile_the_remainder() {
    assert_eq!(tile_span(17, 8, 0), (0, 2));
    assert_eq!(tile_span(17, 8, 6), (12, 2));
    assert_eq!(tile_span(17, 8, 7), (14, 3));
    assert_eq!(tile_span(16, 8, 7), (14, 2));
}
