//! Blending of per-tile LUT outputs. A pixel's output is its governing
//! tile's LUT value (corner), or a linear (border) or bilinear (interior)
//! blend of the governing tiles' LUT values. Lookups always use the input
//! pixel's own intensity; only the looked-up outputs are blended.

#![allow(unused_imports)]
use vstd::prelude::*;
use vstd::arithmetic::div_mod::lemma_div_pos_is_pos;
use crate::buffer::lemma_row_major_index;
use crate::region::{
    classify, lemma_region_facts, region_spec, region_wf, tc, tile_center, valid_grid, Region,
    TileCoordinate,
};

verus! {

/// Linear blend of `a` towards `b` by the weight `num / den`:
/// `round_down(a + (b - a) * num / den)`, saturated into `0 ..= 255`
/// (the blended value is truncated, and a negative or overlarge value is
/// clamped, as a saturating cast to a byte would do).
pub open spec fn lerp_spec(a: int, b: int, num: int, den: int) -> int {
    let t = a * (den - num) + b * num;
    if t <= 0 {
        0
    } else if t / den > 255 {
        255
    } else {
        t / den
    }
}

/// A blend of two bytes is a byte.
pub proof fn lemma_lerp_range(a: int, b: int, num: int, den: int)
    requires
        1 <= den,
    ensures
        0 <= lerp_spec(a, b, num, den) <= 255,
{
    let t = a * (den - num) + b * num;
    if t > 0 {
        lemma_div_pos_is_pos(t, den);
    }
}

/// The products in the blend stay far inside the 64-bit signed range.
#[verifier::nonlinear]
proof fn lemma_lerp_products_fit(a: int, b: int, num: int, den: int)
    requires
        0 <= a <= 255,
        0 <= b <= 255,
        0 <= num <= 0xffff_ffff,
        0 <= den <= 0xffff_ffff,
    ensures
        -0x100_0000_0000_0000 <= a * (den - num) <= 0x100_0000_0000_0000,
        0 <= b * num <= 0x100_0000_0000_0000,
{
}

/// Computes the linear blend `round_down(a + (b - a) * num / den)` in
/// exact integer arithmetic, saturating into a byte.
pub fn lerp(a: u8, b: u8, num: u32, den: u32) -> (r: u8)
    requires
        1 <= den,
    ensures
        r as int == lerp_spec(a as int, b as int, num as int, den as int),
{
    proof {
        lemma_lerp_products_fit(a as int, b as int, num as int, den as int);
    }
    let t: i64 = (a as i64) * (den as i64 - num as i64) + (b as i64) * (num as i64);
    if t <= 0 {
        0
    } else {
        proof {
            lemma_div_pos_is_pos(t as int, den as int);
        }
        let q: u64 = (t as u64) / (den as u64);
        if q > 255 {
            255
        } else {
            q as u8
        }
    }
}

/// One 256-entry lookup table per tile, row-major by tile coordinate,
/// built once and then read-only.
pub struct LutGrid {
    pub tiles_hz: u32,
    pub tiles_vt: u32,
    pub tables: Vec<Vec<u8>>,
}

impl LutGrid {
    pub open spec fn wf(&self) -> bool {
        &&& 2 <= self.tiles_hz
        &&& 2 <= self.tiles_vt
        &&& self.tables@.len() == self.tiles_hz as int * self.tiles_vt as int
        &&& forall|k: int|
            0 <= k < self.tables@.len() ==> (#[trigger] self.tables@[k])@.len() == 256
    }
}

impl View for LutGrid {
    type V = Seq<Seq<u8>>;

    open spec fn view(&self) -> Seq<Seq<u8>> {
        Seq::new(self.tables@.len(), |k: int| self.tables@[k]@)
    }
}

/// The LUT output of tile `t` for input intensity `v`, in a grid `m`
/// tiles wide.
pub open spec fn lut_value(grid: Seq<Seq<u8>>, m: int, t: TileCoordinate, v: int) -> int {
    grid[t.y as int * m + t.x as int][v] as int
}

/// The output intensity of pixel `(x, y)` with input intensity `v`: the
/// governing tiles' LUT outputs at `v`, blended by the pixel's offset from
/// the reference tile's center, normalized by the tile extent. A border
/// pair blends along the axis on which the two tiles differ; the interior
/// blends the top pair and the bottom pair along x, then the two results
/// along y.
pub open spec fn pixel_spec(
    grid: Seq<Seq<u8>>,
    x: int,
    y: int,
    v: int,
    m: int,
    n: int,
    w: int,
    h: int,
) -> int {
    let tw = w / m;
    let th = h / n;
    match region_spec(x, y, m, n, w, h) {
        Region::Corner(t) => lut_value(grid, m, t, v),
        Region::Border(t0, t1) => {
            if t0.x == t1.x {
                lerp_spec(
                    lut_value(grid, m, t0, v),
                    lut_value(grid, m, t1, v),
                    y - tile_center(t0.y as int, th),
                    th,
                )
            } else {
                lerp_spec(
                    lut_value(grid, m, t0, v),
                    lut_value(grid, m, t1, v),
                    x - tile_center(t0.x as int, tw),
                    tw,
                )
            }
        },
        Region::Interior(tl, tr, br, bl) => {
            let nx = x - tile_center(tl.x as int, tw);
            let ny = y - tile_center(tl.y as int, th);
            lerp_spec(
                lerp_spec(lut_value(grid, m, tl, v), lut_value(grid, m, tr, v), nx, tw),
                lerp_spec(lut_value(grid, m, bl, v), lut_value(grid, m, br, v), nx, tw),
                ny,
                th,
            )
        },
    }
}

/// Every output sample is a byte: in `0 ..= 255`.
pub proof fn lemma_pixel_range(
    grid: Seq<Seq<u8>>,
    x: int,
    y: int,
    v: int,
    m: int,
    n: int,
    w: int,
    h: int,
)
    requires
        valid_grid(w, h, m, n),
    ensures
        0 <= pixel_spec(grid, x, y, v, m, n, w, h) <= 255,
{
    let tw = w / m;
    let th = h / n;
    match region_spec(x, y, m, n, w, h) {
        Region::Corner(t) => {},
        Region::Border(t0, t1) => {
            if t0.x == t1.x {
                lemma_lerp_range(
                    lut_value(grid, m, t0, v),
                    lut_value(grid, m, t1, v),
                    y - tile_center(t0.y as int, th),
                    th,
                );
            } else {
                lemma_lerp_range(
                    lut_value(grid, m, t0, v),
                    lut_value(grid, m, t1, v),
                    x - tile_center(t0.x as int, tw),
                    tw,
                );
            }
        },
        Region::Interior(tl, tr, br, bl) => {
            let nx = x - tile_center(tl.x as int, tw);
            let ny = y - tile_center(tl.y as int, th);
            lemma_lerp_range(lut_value(grid, m, tl, v), lut_value(grid, m, tr, v), nx, tw);
            lemma_lerp_range(lut_value(grid, m, bl, v), lut_value(grid, m, br, v), nx, tw);
            lemma_lerp_range(
                lerp_spec(lut_value(grid, m, tl, v), lut_value(grid, m, tr, v), nx, tw),
                lerp_spec(lut_value(grid, m, bl, v), lut_value(grid, m, br, v), nx, tw),
                ny,
                th,
            );
        },
    }
}

/// The pixel at the origin is governed by the top-left corner zone alone:
/// its output is exactly tile `(0, 0)`'s LUT value at the input intensity,
/// with no contribution from any other tile.
pub proof fn lemma_corner_origin(grid: Seq<Seq<u8>>, v: int, m: int, n: int, w: int, h: int)
    requires
        valid_grid(w, h, m, n),
    ensures
        region_spec(0, 0, m, n, w, h) == Region::Corner(tc(0, 0)),
        pixel_spec(grid, 0, 0, v, m, n, w, h) == grid[0][v] as int,
{
    lemma_div_pos_is_pos(w / m, 2);
    lemma_div_pos_is_pos(h / n, 2);
    assert(0int * m == 0) by (nonlinear_arith);
}

fn lut_get(grid: &LutGrid, t: TileCoordinate, v: u8) -> (r: u8)
    requires
        grid.wf(),
        (t.x as int) < grid.tiles_hz as int,
        (t.y as int) < grid.tiles_vt as int,
    ensures
        r as int == lut_value(grid@, grid.tiles_hz as int, t, v as int),
{
    proof {
        lemma_row_major_index(
            t.x as int,
            t.y as int,
            grid.tiles_hz as int,
            grid.tiles_vt as int,
        );
    }
    let _count: usize = grid.tables.len();
    let idx: usize = (t.y as usize) * (grid.tiles_hz as usize) + (t.x as usize);
    grid.tables[idx][v as usize]
}

/// Maps one pixel through the LUT grid: classifies it, looks the input
/// intensity up in each governing tile's table, and blends the outputs.
pub fn map_pixel(grid: &LutGrid, x: u32, y: u32, v: u8, w: u32, h: u32) -> (r: u8)
    requires
        grid.wf(),
        valid_grid(w as int, h as int, grid.tiles_hz as int, grid.tiles_vt as int),
    ensures
        r as int == pixel_spec(
            grid@,
            x as int,
            y as int,
            v as int,
            grid.tiles_hz as int,
            grid.tiles_vt as int,
            w as int,
            h as int,
        ),
{
    let m = grid.tiles_hz;
    let n = grid.tiles_vt;
    let tw: u32 = w / m;
    let th: u32 = h / n;
    proof {
        lemma_region_facts(x as int, y as int, m as int, n as int, w as int, h as int);
    }
    match classify(x, y, m, n, w, h) {
        Region::Corner(t) => lut_get(grid, t, v),
        Region::Border(t0, t1) => {
            let p0 = lut_get(grid, t0, v);
            let p1 = lut_get(grid, t1, v);
            if t0.x == t1.x {
                lerp(p0, p1, y - (t0.y * th + th / 2), th)
            } else {
                lerp(p0, p1, x - (t0.x * tw + tw / 2), tw)
            }
        },
        Region::Interior(tl, tr, br, bl) => {
            let p_tl = lut_get(grid, tl, v);
            let p_tr = lut_get(grid, tr, v);
            let p_br = lut_get(grid, br, v);
            let p_bl = lut_get(grid, bl, v);
            let nx: u32 = x - (tl.x * tw + tw / 2);
            let ny: u32 = y - (tl.y * th + th / 2);
            let top = lerp(p_tl, p_tr, nx, tw);
            let bottom = lerp(p_bl, p_br, nx, tw);
            lerp(top, bottom, ny, th)
        },
    }
}

} // verus!
