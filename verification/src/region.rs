//! Spatial classification of a pixel against the tile grid: every pixel is
//! governed by one tile (corner zone), two tiles (border zone), or four
//! tiles (interior). The classification is total: the three zones cover the
//! whole image, so no pixel is ever left without a defined output.

#![allow(unused_imports)]
use vstd::prelude::*;
use vstd::arithmetic::div_mod::{
    lemma_div_pos_is_pos, lemma_fundamental_div_mod, lemma_mod_bound,
};
use vstd::arithmetic::mul::lemma_mul_inequality;

verus! {

/// Zero-based column/row index of a tile in the grid.
#[derive(Clone, Copy, Debug, PartialEq, Eq, Structural)]
pub struct TileCoordinate {
    pub x: u32,
    pub y: u32,
}

/// The tiles that govern a pixel: one (corner), two (border, in axis
/// order), or four (interior: top-left, top-right, bottom-right,
/// bottom-left).
#[derive(Clone, Copy, Debug, PartialEq, Eq, Structural)]
pub enum Region {
    Corner(TileCoordinate),
    Border(TileCoordinate, TileCoordinate),
    Interior(TileCoordinate, TileCoordinate, TileCoordinate, TileCoordinate),
}

/// A grid the classifier accepts: at least two tiles per axis, so every
/// border zone has an adjacent tile pair, and at least one pixel per tile.
pub open spec fn valid_grid(w: int, h: int, m: int, n: int) -> bool {
    &&& 2 <= m
    &&& 2 <= n
    &&& 1 <= w / m
    &&& 1 <= h / n
}

/// Within half a tile of the near image edge along one axis.
pub open spec fn near_edge(c: int, ext: int) -> bool {
    c <= ext / 2
}

/// Past the farthest tile center along one axis.
pub open spec fn far_edge(c: int, ext: int, tiles: int) -> bool {
    c > tiles * ext - ext / 2
}

/// The pixel coordinate of the center of tile `t` along one axis.
pub open spec fn tile_center(t: int, ext: int) -> int {
    t * ext + ext / 2
}

/// The lower of the two tile indices whose centers bracket coordinate `c`,
/// clamped into `0 ..= tiles - 2`.
pub open spec fn lower_tile(c: int, ext: int, tiles: int) -> int {
    let q = (c - ext / 2) / ext;
    if q > tiles - 2 {
        tiles - 2
    } else {
        q
    }
}

pub open spec fn tc(x: int, y: int) -> TileCoordinate {
    TileCoordinate { x: x as u32, y: y as u32 }
}

/// The region governing pixel `(x, y)` in a `w` x `h` image under an
/// `m` x `n` tile grid. Near/far comparisons are `<=` on the near edge and
/// `>` on the far edge, and the four corners are checked first, then the
/// top, bottom, left and right borders, then the interior.
pub open spec fn region_spec(x: int, y: int, m: int, n: int, w: int, h: int) -> Region {
    let tw = w / m;
    let th = h / n;
    if near_edge(x, tw) && near_edge(y, th) {
        Region::Corner(tc(0, 0))
    } else if far_edge(x, tw, m) && near_edge(y, th) {
        Region::Corner(tc(m - 1, 0))
    } else if far_edge(x, tw, m) && far_edge(y, th, n) {
        Region::Corner(tc(m - 1, n - 1))
    } else if near_edge(x, tw) && far_edge(y, th, n) {
        Region::Corner(tc(0, n - 1))
    } else if near_edge(y, th) {
        Region::Border(tc(lower_tile(x, tw, m), 0), tc(lower_tile(x, tw, m) + 1, 0))
    } else if far_edge(y, th, n) {
        Region::Border(tc(lower_tile(x, tw, m), n - 1), tc(lower_tile(x, tw, m) + 1, n - 1))
    } else if near_edge(x, tw) {
        Region::Border(tc(0, lower_tile(y, th, n)), tc(0, lower_tile(y, th, n) + 1))
    } else if far_edge(x, tw, m) {
        Region::Border(tc(m - 1, lower_tile(y, th, n)), tc(m - 1, lower_tile(y, th, n) + 1))
    } else {
        Region::Interior(
            tc(lower_tile(x, tw, m), lower_tile(y, th, n)),
            tc(lower_tile(x, tw, m) + 1, lower_tile(y, th, n)),
            tc(lower_tile(x, tw, m) + 1, lower_tile(y, th, n) + 1),
            tc(lower_tile(x, tw, m), lower_tile(y, th, n) + 1),
        )
    }
}

/// The clamped lower tile index brackets the coordinate from below.
pub proof fn lemma_lower_tile(c: int, ext: int, tiles: int)
    requires
        1 <= ext,
        2 <= tiles,
        ext / 2 < c,
    ensures
        0 <= lower_tile(c, ext, tiles) <= tiles - 2,
        tile_center(lower_tile(c, ext, tiles), ext) <= c,
{
    let q = (c - ext / 2) / ext;
    lemma_div_pos_is_pos(c - ext / 2, ext);
    lemma_fundamental_div_mod(c - ext / 2, ext);
    lemma_mod_bound(c - ext / 2, ext);
    assert(ext * q == q * ext) by (nonlinear_arith);
    if q > tiles - 2 {
        lemma_mul_inequality(tiles - 2, q, ext);
    }
}

/// Geometric facts about the governing tiles: indices lie inside the grid,
/// paired tiles are adjacent, and the reference tile's center does not lie
/// past the pixel. Together with the totality of `region_spec` this is the
/// exhaustiveness of the classification: every pixel of the image falls in
/// exactly one zone, with usable tile indices.
pub proof fn lemma_region_facts(x: int, y: int, m: int, n: int, w: int, h: int)
    requires
        valid_grid(w, h, m, n),
        0 <= x,
        0 <= y,
        m <= 0xffff_ffff,
        n <= 0xffff_ffff,
    ensures
        region_wf(region_spec(x, y, m, n, w, h), x, y, m, n, w, h),
{
    let tw = w / m;
    let th = h / n;
    if tw / 2 < x {
        lemma_lower_tile(x, tw, m);
    }
    if th / 2 < y {
        lemma_lower_tile(y, th, n);
    }
}

/// What `lemma_region_facts` guarantees of a classification result.
pub open spec fn region_wf(r: Region, x: int, y: int, m: int, n: int, w: int, h: int) -> bool {
    let tw = w / m;
    let th = h / n;
    match r {
        Region::Corner(t) => t.x < m && t.y < n,
        Region::Border(t0, t1) => {
            &&& t0.x < m && t0.y < n && t1.x < m && t1.y < n
            &&& (t0.y == t1.y ==> t1.x == t0.x + 1 && tile_center(t0.x as int, tw) <= x)
            &&& (t0.x == t1.x ==> t1.y == t0.y + 1 && tile_center(t0.y as int, th) <= y)
            &&& !(t0.x == t1.x && t0.y == t1.y)
        },
        Region::Interior(tl, tr, br, bl) => {
            &&& tl.x + 1 < m && tl.y + 1 < n
            &&& tr.x == tl.x + 1 && tr.y == tl.y
            &&& br.x == tl.x + 1 && br.y == tl.y + 1
            &&& bl.x == tl.x && bl.y == tl.y + 1
            &&& tile_center(tl.x as int, tw) <= x
            &&& tile_center(tl.y as int, th) <= y
        },
    }
}

fn lower_tile_idx(c: u32, ext: u32, tiles: u32) -> (r: u32)
    requires
        1 <= ext,
        2 <= tiles,
        ext / 2 < c,
    ensures
        r as int == lower_tile(c as int, ext as int, tiles as int),
        r <= tiles - 2,
{
    let q: u32 = (c - ext / 2) / ext;
    if q > tiles - 2 {
        tiles - 2
    } else {
        q
    }
}

/// Decides which zone governs pixel `(x, y)` and returns the governing
/// tile coordinates. Total: every pixel gets exactly one of the three
/// region kinds.
pub fn classify(x: u32, y: u32, tiles_hz: u32, tiles_vt: u32, w: u32, h: u32) -> (r: Region)
    requires
        valid_grid(w as int, h as int, tiles_hz as int, tiles_vt as int),
    ensures
        r == region_spec(x as int, y as int, tiles_hz as int, tiles_vt as int, w as int, h as int),
{
    let m = tiles_hz;
    let n = tiles_vt;
    let tw: u32 = w / m;
    let th: u32 = h / n;
    proof {
        lemma_fundamental_div_mod(w as int, m as int);
        lemma_mod_bound(w as int, m as int);
        lemma_fundamental_div_mod(h as int, n as int);
        lemma_mod_bound(h as int, n as int);
        assert(m as int * tw as int == tw as int * m as int) by (nonlinear_arith);
        assert(n as int * th as int == th as int * n as int) by (nonlinear_arith);
        lemma_mul_inequality(1, m as int, tw as int);
        lemma_mul_inequality(1, n as int, th as int);
    }
    let far_x: u32 = m * tw - tw / 2;
    let far_y: u32 = n * th - th / 2;
    let nx = x <= tw / 2;
    let fx = x > far_x;
    let ny = y <= th / 2;
    let fy = y > far_y;
    if nx && ny {
        Region::Corner(TileCoordinate { x: 0, y: 0 })
    } else if fx && ny {
        Region::Corner(TileCoordinate { x: m - 1, y: 0 })
    } else if fx && fy {
        Region::Corner(TileCoordinate { x: m - 1, y: n - 1 })
    } else if nx && fy {
        Region::Corner(TileCoordinate { x: 0, y: n - 1 })
    } else if ny {
        let bx = lower_tile_idx(x, tw, m);
        Region::Border(TileCoordinate { x: bx, y: 0 }, TileCoordinate { x: bx + 1, y: 0 })
    } else if fy {
        let bx = lower_tile_idx(x, tw, m);
        Region::Border(
            TileCoordinate { x: bx, y: n - 1 },
            TileCoordinate { x: bx + 1, y: n - 1 },
        )
    } else if nx {
        let by = lower_tile_idx(y, th, n);
        Region::Border(TileCoordinate { x: 0, y: by }, TileCoordinate { x: 0, y: by + 1 })
    } else if fx {
        let by = lower_tile_idx(y, th, n);
        Region::Border(
            TileCoordinate { x: m - 1, y: by },
            TileCoordinate { x: m - 1, y: by + 1 },
        )
    } else {
        let bx = lower_tile_idx(x, tw, m);
        let by = lower_tile_idx(y, th, n);
        Region::Interior(
            TileCoordinate { x: bx, y: by },
            TileCoordinate { x: bx + 1, y: by },
            TileCoordinate { x: bx + 1, y: by + 1 },
            TileCoordinate { x: bx, y: by + 1 },
        )
    }
}

} // verus!
