//! Contrast-Limited Adaptive Histogram Equalization (CLAHE) for 8-bit
//! grayscale images.
//!
//! The image is partitioned into a grid of tiles; each tile gets a clipped
//! intensity histogram and a cumulative-distribution lookup table (LUT).
//! Every output pixel is produced by blending the LUT outputs of the one,
//! two, or four tiles that govern its position (corner, border, or interior
//! of the tile grid).

#![allow(unused_imports)]
use vstd::prelude::*;
use vstd::arithmetic::div_mod::{
    lemma_fundamental_div_mod, lemma_fundamental_div_mod_converse_div,
    lemma_fundamental_div_mod_converse_mod, lemma_mod_bound,
};
use vstd::arithmetic::mul::lemma_mul_inequality;

pub mod buffer;
pub mod clip;
pub mod histogram;
pub mod interp;
pub mod lut;
pub mod region;

use crate::buffer::{lemma_row_major_decompose, lemma_row_major_index, GrayBuffer};
use crate::clip::{clip_histogram, clip_seq, clip_spec};
use crate::histogram::{build_histogram, count_rect, total_count, Histogram};
use crate::interp::{map_pixel, pixel_spec, LutGrid};
use crate::lut::{build_lut, lemma_lut_entry_range, lut_entry};
use crate::region::valid_grid;

verus! {

/// Grid and clip configuration for the equalizer.
#[derive(Clone, Copy, Debug, PartialEq, Eq, Structural)]
pub struct ClaheConfig {
    /// Number of tile columns.
    pub tiles_hz: u32,
    /// Number of tile rows.
    pub tiles_vt: u32,
    /// Maximum histogram bin count before the excess is redistributed.
    pub clip_limit: u32,
}

impl Default for ClaheConfig {
    /// An 8 x 8 tile grid with clip limit 40.
    fn default() -> (r: Self)
        ensures
            r.tiles_hz == 8,
            r.tiles_vt == 8,
            r.clip_limit == 40,
    {
        ClaheConfig { tiles_hz: 8, tiles_vt: 8, clip_limit: 40 }
    }
}

/// The error kinds the equalizer can surface.
#[derive(Clone, Copy, Debug, PartialEq, Eq, Structural)]
pub enum ClaheError {
    /// The tile grid does not fit the image: a tile extent would be zero,
    /// or an axis has fewer than two tiles, so no border pair exists.
    ConfigError,
    /// Defensive kind: a histogram input with other than one channel.
    /// A `GrayBuffer` is single-channel by construction, and the contract
    /// of `clahe` shows this error is never returned.
    ChannelCountError,
}

/// The origin of tile `idx` along one axis.
pub open spec fn tile_origin(dim: int, tiles: int, idx: int) -> int {
    (dim / tiles) * idx
}

/// The extent of tile `idx` along one axis: `dim / tiles`, with the last
/// tile absorbing the division remainder so the tiles cover the axis.
pub open spec fn tile_size(dim: int, tiles: int, idx: int) -> int {
    if idx == tiles - 1 {
        dim / tiles + dim % tiles
    } else {
        dim / tiles
    }
}

/// The origin and extent of tile `idx` along one axis.
pub fn tile_span(dim: u32, tiles: u32, idx: u32) -> (r: (u32, u32))
    requires
        1 <= tiles,
        idx < tiles,
        1 <= dim as int / tiles as int,
    ensures
        r.0 as int == tile_origin(dim as int, tiles as int, idx as int),
        r.1 as int == tile_size(dim as int, tiles as int, idx as int),
        r.0 as int + r.1 as int <= dim,
        1 <= r.1,
{
    let ext: u32 = dim / tiles;
    proof {
        lemma_fundamental_div_mod(dim as int, tiles as int);
        lemma_mod_bound(dim as int, tiles as int);
        lemma_mul_inequality(idx as int + 1, tiles as int, ext as int);
        assert((idx as int + 1) * ext as int == idx as int * ext as int + ext as int)
            by (nonlinear_arith);
        assert(tiles as int * ext as int == ext as int * tiles as int) by (nonlinear_arith);
        assert(ext as int * idx as int == idx as int * ext as int) by (nonlinear_arith);
    }
    let origin: u32 = ext * idx;
    let size: u32 = if idx == tiles - 1 {
        ext + dim % tiles
    } else {
        ext
    };
    (origin, size)
}

/// The histogram of one tile of the image, as a 256-bin sequence.
pub open spec fn tile_hist_seq(img: GrayBuffer, cfg: ClaheConfig, col: int, row: int) -> Seq<
    u64,
> {
    Seq::new(
        256,
        |v: int|
            count_rect(
                img.data@,
                img.width as int,
                tile_origin(img.width as int, cfg.tiles_hz as int, col),
                tile_origin(img.height as int, cfg.tiles_vt as int, row),
                tile_size(img.width as int, cfg.tiles_hz as int, col),
                tile_size(img.height as int, cfg.tiles_vt as int, row),
                v as u8,
            ) as u64,
    )
}

/// The lookup table of one tile: its histogram, clipped, then mapped by
/// cumulative distribution.
pub open spec fn tile_lut(img: GrayBuffer, cfg: ClaheConfig, col: int, row: int) -> Seq<u8> {
    Seq::new(
        256,
        |i: int|
            lut_entry(
                clip_seq(tile_hist_seq(img, cfg, col, row), cfg.clip_limit as int),
                i,
            ) as u8,
    )
}

/// All tile LUTs, row-major by tile coordinate.
pub open spec fn tile_luts(img: GrayBuffer, cfg: ClaheConfig) -> Seq<Seq<u8>> {
    Seq::new(
        (cfg.tiles_hz as int * cfg.tiles_vt as int) as nat,
        |k: int| tile_lut(img, cfg, k % (cfg.tiles_hz as int), k / (cfg.tiles_hz as int)),
    )
}

/// The output intensity of one pixel: its input intensity mapped through
/// the LUTs of its governing tiles.
pub open spec fn clahe_pixel(img: GrayBuffer, cfg: ClaheConfig, x: int, y: int) -> int {
    pixel_spec(
        tile_luts(img, cfg),
        x,
        y,
        img.pixel(x, y) as int,
        cfg.tiles_hz as int,
        cfg.tiles_vt as int,
        img.width as int,
        img.height as int,
    )
}

/// What it means for `out` to be the equalized image for `img` under
/// `cfg`: same dimensions, and every pixel carries its blended LUT output.
pub open spec fn is_clahe_output(img: GrayBuffer, cfg: ClaheConfig, out: GrayBuffer) -> bool {
    &&& out.wf()
    &&& out.width == img.width
    &&& out.height == img.height
    &&& forall|x: int, y: int|
        0 <= x < img.width as int && 0 <= y < img.height as int ==> (#[trigger] out.pixel(
            x,
            y,
        )) as int == clahe_pixel(img, cfg, x, y)
}

/// A tile's pixel count is bounded by the image's pixel count.
#[verifier::nonlinear]
proof fn lemma_tile_mass_fits(rw: int, rh: int, w: int, h: int)
    requires
        0 <= rw <= w,
        0 <= rh <= h,
        w * h <= 0xffff_ffff,
    ensures
        rw * rh <= 0xffff_ffff,
{
}

/// Contrast-limited adaptive histogram equalization. Builds one clipped
/// and equalized lookup table per tile of the grid, then maps every pixel
/// through the tables of the tiles that govern it. Rejects a grid whose
/// tiles would be empty or that has fewer than two tiles on an axis.
pub fn clahe(input: &GrayBuffer, cfg: &ClaheConfig) -> (r: Result<GrayBuffer, ClaheError>)
    requires
        input.wf(),
    ensures
        match r {
            Ok(out) => valid_grid(
                input.width as int,
                input.height as int,
                cfg.tiles_hz as int,
                cfg.tiles_vt as int,
            ) && is_clahe_output(*input, *cfg, out),
            Err(e) => !valid_grid(
                input.width as int,
                input.height as int,
                cfg.tiles_hz as int,
                cfg.tiles_vt as int,
            ) && e == ClaheError::ConfigError,
        },
{
    let w: u32 = input.width;
    let h: u32 = input.height;
    let m: u32 = cfg.tiles_hz;
    let n: u32 = cfg.tiles_vt;
    if m < 2 || n < 2 || w / m < 1 || h / n < 1 {
        return Err(ClaheError::ConfigError);
    }
    let ghost im: GrayBuffer = *input;
    let ghost cg: ClaheConfig = *cfg;
    let mut tables: Vec<Vec<u8>> = Vec::new();
    let mut row: u32 = 0;
    while row < n
        invariant
            input.wf(),
            im == *input,
            cg == *cfg,
            w == input.width,
            h == input.height,
            m == cfg.tiles_hz,
            n == cfg.tiles_vt,
            valid_grid(w as int, h as int, m as int, n as int),
            row <= n,
            tables@.len() == row as int * m as int,
            forall|k: int|
                0 <= k < tables@.len() ==> (#[trigger] tables@[k])@ == tile_lut(
                    im,
                    cg,
                    k % (m as int),
                    k / (m as int),
                ),
        decreases n - row,
    {
        let mut col: u32 = 0;
        while col < m
            invariant
                input.wf(),
                im == *input,
                cg == *cfg,
                w == input.width,
                h == input.height,
                m == cfg.tiles_hz,
                n == cfg.tiles_vt,
                valid_grid(w as int, h as int, m as int, n as int),
                row < n,
                col <= m,
                tables@.len() == row as int * m as int + col as int,
                forall|k: int|
                    0 <= k < tables@.len() ==> (#[trigger] tables@[k])@ == tile_lut(
                        im,
                        cg,
                        k % (m as int),
                        k / (m as int),
                    ),
            decreases m - col,
        {
            let xspan: (u32, u32) = tile_span(w, m, col);
            let yspan: (u32, u32) = tile_span(h, n, row);
            let hist: Histogram = build_histogram(input, xspan.0, yspan.0, xspan.1, yspan.1);
            proof {
                lemma_tile_mass_fits(
                    xspan.1 as int,
                    yspan.1 as int,
                    w as int,
                    h as int,
                );
            }
            let clipped: Histogram = clip_histogram(&hist, cfg.clip_limit);
            let lut_table: Vec<u8> = build_lut(&clipped);
            proof {
                let s0 = tile_hist_seq(im, cg, col as int, row as int);
                assert forall|v: int| 0 <= v < 256 implies hist.counts@[v] == s0[v] by {}
                assert(hist.counts@ =~= s0);
                let s1 = clip_seq(s0, cg.clip_limit as int);
                assert forall|v: int| 0 <= v < 256 implies clipped.counts@[v] == s1[v] by {}
                assert(clipped.counts@ =~= s1);
                let tl = tile_lut(im, cg, col as int, row as int);
                assert forall|i: int| 0 <= i < 256 implies lut_table@[i] == tl[i] by {
                    lemma_lut_entry_range(s1, i);
                }
                assert(lut_table@ =~= tl);
            }
            tables.push(lut_table);
            proof {
                let k0 = row as int * m as int + col as int;
                lemma_fundamental_div_mod_converse_div(k0, m as int, row as int, col as int);
                lemma_fundamental_div_mod_converse_mod(k0, m as int, row as int, col as int);
            }
            col += 1;
        }
        proof {
            assert((row as int + 1) * m as int == row as int * m as int + m as int)
                by (nonlinear_arith);
        }
        row += 1;
    }
    let grid = LutGrid { tiles_hz: m, tiles_vt: n, tables };
    proof {
        assert(n as int * m as int == m as int * n as int) by (nonlinear_arith);
        assert forall|k: int| 0 <= k < grid@.len() implies grid@[k] == tile_luts(im, cg)[k] by {}
        assert(grid@ =~= tile_luts(im, cg));
    }
    let mut data: Vec<u8> = Vec::new();
    let mut y: u32 = 0;
    while y < h
        invariant
            input.wf(),
            im == *input,
            cg == *cfg,
            w == input.width,
            h == input.height,
            m == cfg.tiles_hz,
            n == cfg.tiles_vt,
            valid_grid(w as int, h as int, m as int, n as int),
            grid.wf(),
            grid.tiles_hz == m,
            grid.tiles_vt == n,
            grid@ == tile_luts(im, cg),
            y <= h,
            data@.len() == y as int * w as int,
            forall|k: int|
                0 <= k < data@.len() ==> (#[trigger] data@[k]) as int == clahe_pixel(
                    im,
                    cg,
                    k % (w as int),
                    k / (w as int),
                ),
        decreases h - y,
    {
        let mut x: u32 = 0;
        while x < w
            invariant
                input.wf(),
                im == *input,
                cg == *cfg,
                w == input.width,
                h == input.height,
                m == cfg.tiles_hz,
                n == cfg.tiles_vt,
                valid_grid(w as int, h as int, m as int, n as int),
                grid.wf(),
                grid.tiles_hz == m,
                grid.tiles_vt == n,
                grid@ == tile_luts(im, cg),
                y < h,
                x <= w,
                data@.len() == y as int * w as int + x as int,
                forall|k: int|
                    0 <= k < data@.len() ==> (#[trigger] data@[k]) as int == clahe_pixel(
                        im,
                        cg,
                        k % (w as int),
                        k / (w as int),
                    ),
            decreases w - x,
        {
            let v: u8 = input.get(x, y);
            let o: u8 = map_pixel(&grid, x, y, v, w, h);
            proof {
                let k0 = y as int * w as int + x as int;
                lemma_fundamental_div_mod_converse_div(k0, w as int, y as int, x as int);
                lemma_fundamental_div_mod_converse_mod(k0, w as int, y as int, x as int);
            }
            data.push(o);
            x += 1;
        }
        proof {
            assert((y as int + 1) * w as int == y as int * w as int + w as int)
                by (nonlinear_arith);
        }
        y += 1;
    }
    let out = GrayBuffer { width: w, height: h, data };
    proof {
        assert(h as int * w as int == w as int * h as int) by (nonlinear_arith);
        assert forall|px: int, py: int|
            0 <= px < w as int && 0 <= py < h as int implies (#[trigger] out.pixel(
            px,
            py,
        )) as int == clahe_pixel(im, cg, px, py) by {
            lemma_row_major_index(px, py, w as int, h as int);
            let k0 = py * (w as int) + px;
            lemma_fundamental_div_mod_converse_div(k0, w as int, py, px);
            lemma_fundamental_div_mod_converse_mod(k0, w as int, py, px);
        }
    }
    Ok(out)
}

/// Determinism: the output is a function of the input image and the
/// configuration alone, so any two outputs of the same input and
/// configuration are byte-identical.
pub proof fn lemma_clahe_deterministic(
    img: GrayBuffer,
    cfg: ClaheConfig,
    out1: GrayBuffer,
    out2: GrayBuffer,
)
    requires
        is_clahe_output(img, cfg, out1),
        is_clahe_output(img, cfg, out2),
    ensures
        out1.width == out2.width,
        out1.height == out2.height,
        out1.data@ == out2.data@,
{
    let w = img.width as int;
    let h = img.height as int;
    assert forall|k: int| 0 <= k < out1.data@.len() implies out1.data@[k] == out2.data@[k] by {
        lemma_row_major_decompose(k, w, h);
        let x = k % w;
        let y = k / w;
        assert(out1.pixel(x, y) as int == clahe_pixel(img, cfg, x, y));
        assert(out2.pixel(x, y) as int == clahe_pixel(img, cfg, x, y));
    }
    assert(out1.data@ =~= out2.data@);
}

} // verus!
