//! Per-tile 256-bin intensity histograms.

#![allow(unused_imports)]
use vstd::prelude::*;
use vstd::pervasive::VecAdditionalExecFns;
use crate::buffer::GrayBuffer;

verus! {

/// Sum of the first `k` bins of a histogram.
pub open spec fn psum(s: Seq<u64>, k: int) -> int
    decreases k,
{
    if k <= 0 {
        0
    } else {
        psum(s, k - 1) + s[k - 1]
    }
}

/// Total mass of a 256-bin histogram.
pub open spec fn total_count(s: Seq<u64>) -> int {
    psum(s, 256)
}

pub proof fn lemma_psum_nonneg(s: Seq<u64>, k: int)
    ensures
        0 <= psum(s, k),
    decreases k,
{
    if k > 0 {
        lemma_psum_nonneg(s, k - 1);
    }
}

pub proof fn lemma_psum_monotone(s: Seq<u64>, k1: int, k2: int)
    requires
        k1 <= k2,
    ensures
        psum(s, k1) <= psum(s, k2),
    decreases k2 - k1,
{
    if k1 < k2 {
        lemma_psum_monotone(s, k1, k2 - 1);
    }
}

/// A bin never exceeds the total mass.
pub proof fn lemma_bin_le_total(s: Seq<u64>, v: int)
    requires
        0 <= v < 256,
    ensures
        s[v] <= total_count(s),
{
    lemma_psum_nonneg(s, v);
    lemma_psum_monotone(s, v + 1, 256);
}

/// How a prefix sum changes when one bin is replaced.
pub proof fn lemma_psum_update(s: Seq<u64>, i: int, v: u64, k: int)
    requires
        0 <= i < s.len(),
        k <= s.len(),
    ensures
        psum(s.update(i, v), k) == psum(s, k) + (if i < k {
            v - s[i]
        } else {
            0int
        }),
    decreases k,
{
    if k > 0 {
        lemma_psum_update(s, i, v, k - 1);
    }
}

/// A prefix of zero bins sums to zero.
pub proof fn lemma_psum_zero(s: Seq<u64>, k: int)
    requires
        forall|j: int| 0 <= j < k ==> s[j] == 0u64,
    ensures
        psum(s, k) == 0,
    decreases k,
{
    if k > 0 {
        lemma_psum_zero(s, k - 1);
    }
}

/// How many samples of the row `y`, columns `x0 .. x0 + len`, equal `v`.
pub open spec fn count_row(data: Seq<u8>, w: int, y: int, x0: int, len: int, v: u8) -> int
    decreases len,
{
    if len <= 0 {
        0
    } else {
        count_row(data, w, y, x0, len - 1, v) + if data[y * w + x0 + (len - 1)] == v {
            1int
        } else {
            0int
        }
    }
}

/// How many samples of the rectangle at `(x0, y0)`, `rw` wide and `rows`
/// high, equal `v`; the image is `w` samples wide.
pub open spec fn count_rect(
    data: Seq<u8>,
    w: int,
    x0: int,
    y0: int,
    rw: int,
    rows: int,
    v: u8,
) -> int
    decreases rows,
{
    if rows <= 0 {
        0
    } else {
        count_rect(data, w, x0, y0, rw, rows - 1, v) + count_row(data, w, y0 + rows - 1, x0, rw, v)
    }
}

pub proof fn lemma_count_row_bound(data: Seq<u8>, w: int, y: int, x0: int, len: int, v: u8)
    requires
        0 <= len,
    ensures
        0 <= count_row(data, w, y, x0, len, v) <= len,
    decreases len,
{
    if len > 0 {
        lemma_count_row_bound(data, w, y, x0, len - 1, v);
    }
}

pub proof fn lemma_count_rect_bound(
    data: Seq<u8>,
    w: int,
    x0: int,
    y0: int,
    rw: int,
    rows: int,
    v: u8,
)
    requires
        0 <= rw,
        0 <= rows,
    ensures
        0 <= count_rect(data, w, x0, y0, rw, rows, v) <= rows * rw,
    decreases rows,
{
    if rows > 0 {
        lemma_count_rect_bound(data, w, x0, y0, rw, rows - 1, v);
        lemma_count_row_bound(data, w, y0 + rows - 1, x0, rw, v);
        assert((rows - 1) * rw + rw == rows * rw) by (nonlinear_arith);
    }
}

/// The samples already aggregated stay below the image's pixel count.
#[verifier::nonlinear]
proof fn lemma_processed_bound(yy: int, xx: int, rw: int, rh: int, w: int, h: int)
    requires
        0 <= yy < rh,
        0 <= xx < rw,
        rw <= w,
        rh <= h,
        w * h <= 0xffff_ffff,
    ensures
        yy * rw + xx < 0xffff_ffff,
{
}

/// A 256-bin intensity histogram.
pub struct Histogram {
    pub counts: Vec<u64>,
}

impl Histogram {
    pub open spec fn wf(&self) -> bool {
        self.counts@.len() == 256
    }
}

/// Aggregates the histogram of one rectangular tile. Each bin holds the
/// number of samples of its intensity; the mass equals the tile's pixel
/// count.
pub fn build_histogram(img: &GrayBuffer, x0: u32, y0: u32, rw: u32, rh: u32) -> (r: Histogram)
    requires
        img.wf(),
        x0 + rw <= img.width,
        y0 + rh <= img.height,
    ensures
        r.wf(),
        forall|v: int|
            0 <= v < 256 ==> #[trigger] r.counts@[v] == count_rect(
                img.data@,
                img.width as int,
                x0 as int,
                y0 as int,
                rw as int,
                rh as int,
                v as u8,
            ),
        total_count(r.counts@) == rw as int * rh as int,
{
    let ghost d: Seq<u8> = img.data@;
    let ghost wi: int = img.width as int;
    let mut counts: Vec<u64> = Vec::new();
    let mut i: usize = 0;
    while i < 256
        invariant
            counts@.len() == i,
            i <= 256,
            forall|j: int| 0 <= j < i ==> counts@[j] == 0u64,
        decreases 256 - i,
    {
        counts.push(0);
        i += 1;
    }
    proof {
        lemma_psum_zero(counts@, 256);
    }
    let mut yy: u32 = 0;
    while yy < rh
        invariant
            img.wf(),
            x0 + rw <= img.width,
            y0 + rh <= img.height,
            d == img.data@,
            wi == img.width as int,
            yy <= rh,
            counts@.len() == 256,
            forall|v: int|
                0 <= v < 256 ==> #[trigger] counts@[v] == count_rect(
                    d,
                    wi,
                    x0 as int,
                    y0 as int,
                    rw as int,
                    yy as int,
                    v as u8,
                ),
            psum(counts@, 256) == yy as int * rw as int,
        decreases rh - yy,
    {
        let mut xx: u32 = 0;
        while xx < rw
            invariant
                img.wf(),
                x0 + rw <= img.width,
                y0 + rh <= img.height,
                d == img.data@,
                wi == img.width as int,
                yy < rh,
                xx <= rw,
                counts@.len() == 256,
                forall|v: int|
                    0 <= v < 256 ==> #[trigger] counts@[v] == count_rect(
                        d,
                        wi,
                        x0 as int,
                        y0 as int,
                        rw as int,
                        yy as int,
                        v as u8,
                    ) + count_row(d, wi, y0 as int + yy as int, x0 as int, xx as int, v as u8),
                psum(counts@, 256) == yy as int * rw as int + xx as int,
            decreases rw - xx,
        {
            let px: u8 = img.get(x0 + xx, y0 + yy);
            let c: u64 = counts[px as usize];
            proof {
                lemma_count_rect_bound(d, wi, x0 as int, y0 as int, rw as int, yy as int, px);
                lemma_count_row_bound(d, wi, y0 as int + yy as int, x0 as int, xx as int, px);
                lemma_processed_bound(
                    yy as int,
                    xx as int,
                    rw as int,
                    rh as int,
                    img.width as int,
                    img.height as int,
                );
                lemma_psum_update(counts@, px as int, (c + 1) as u64, 256);
            }
            counts.set(px as usize, c + 1);
            proof {
                assert forall|v: int| 0 <= v < 256 implies #[trigger] counts@[v] == count_rect(
                    d,
                    wi,
                    x0 as int,
                    y0 as int,
                    rw as int,
                    yy as int,
                    v as u8,
                ) + count_row(
                    d,
                    wi,
                    y0 as int + yy as int,
                    x0 as int,
                    xx as int + 1,
                    v as u8,
                ) by {
                    let cr = count_row(
                        d,
                        wi,
                        y0 as int + yy as int,
                        x0 as int,
                        xx as int + 1,
                        v as u8,
                    );
                    assert(cr == count_row(d, wi, y0 as int + yy as int, x0 as int, xx as int, v as u8)
                        + if d[(y0 as int + yy as int) * wi + x0 as int + xx as int] == v as u8 {
                            1int
                        } else {
                            0int
                        });
                    assert(d[(y0 as int + yy as int) * wi + (x0 as int + xx as int)] == px);
                }
            }
            xx += 1;
        }
        proof {
            assert forall|v: int| 0 <= v < 256 implies #[trigger] counts@[v] == count_rect(
                d,
                wi,
                x0 as int,
                y0 as int,
                rw as int,
                yy as int + 1,
                v as u8,
            ) by {
                assert(count_rect(d, wi, x0 as int, y0 as int, rw as int, yy as int + 1, v as u8)
                    == count_rect(d, wi, x0 as int, y0 as int, rw as int, yy as int, v as u8)
                    + count_row(d, wi, y0 as int + yy as int, x0 as int, rw as int, v as u8));
            }
            assert((yy as int + 1) * rw as int == yy as int * rw as int + rw as int)
                by (nonlinear_arith);
        }
        yy += 1;
    }
    proof {
        assert(rh as int * rw as int == rw as int * rh as int) by (nonlinear_arith);
    }
    Histogram { counts }
}

} // verus!
