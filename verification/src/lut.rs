//! Per-tile gray-level mapping tables built by cumulative-distribution
//! mapping over a clipped histogram.

#![allow(unused_imports)]
use vstd::prelude::*;
use vstd::arithmetic::div_mod::{
    lemma_div_is_ordered, lemma_div_multiples_vanish, lemma_div_pos_is_pos,
};
use vstd::arithmetic::mul::lemma_mul_inequality;
use crate::histogram::{psum, total_count, Histogram, lemma_psum_monotone, lemma_psum_nonneg};

verus! {

/// LUT entry `i`: the cumulative mass of bins `0 ..= i`, scaled into
/// `0 ..= 255` with a flooring division by the total mass. A histogram
/// with no mass maps every entry to 0.
pub open spec fn lut_entry(s: Seq<u64>, i: int) -> int {
    if total_count(s) <= 0 {
        0
    } else {
        psum(s, i + 1) * 255 / total_count(s)
    }
}

/// Every LUT entry is a byte.
pub proof fn lemma_lut_entry_range(s: Seq<u64>, i: int)
    requires
        0 <= i < 256,
    ensures
        0 <= lut_entry(s, i) <= 255,
{
    let n = total_count(s);
    if n > 0 {
        lemma_psum_nonneg(s, i + 1);
        lemma_psum_monotone(s, i + 1, 256);
        lemma_mul_inequality(psum(s, i + 1), n, 255);
        lemma_div_is_ordered(psum(s, i + 1) * 255, n * 255, n);
        lemma_div_multiples_vanish(255, n);
        lemma_div_pos_is_pos(psum(s, i + 1) * 255, n);
    }
}

/// The mapping is non-decreasing in the input intensity, because the
/// cumulative sum is non-decreasing and the scaling preserves order.
pub proof fn lemma_lut_monotone(s: Seq<u64>, i: int, j: int)
    requires
        i <= j,
    ensures
        lut_entry(s, i) <= lut_entry(s, j),
{
    let n = total_count(s);
    if n > 0 {
        lemma_psum_monotone(s, i + 1, j + 1);
        lemma_mul_inequality(psum(s, i + 1), psum(s, j + 1), 255);
        lemma_div_is_ordered(psum(s, i + 1) * 255, psum(s, j + 1) * 255, n);
    }
}

/// Builds the 256-entry lookup table of a clipped histogram: entry `i` is
/// `floor(cumulative(i) * 255 / total)`. The table is non-decreasing.
pub fn build_lut(hist: &Histogram) -> (r: Vec<u8>)
    requires
        hist.wf(),
        total_count(hist.counts@) <= 0xffff_ffff,
    ensures
        r@.len() == 256,
        forall|i: int| 0 <= i < 256 ==> #[trigger] r@[i] as int == lut_entry(hist.counts@, i),
        forall|i: int, j: int| 0 <= i <= j < 256 ==> r@[i] <= r@[j],
{
    let ghost s: Seq<u64> = hist.counts@;
    let mut total: u64 = 0;
    let mut i: usize = 0;
    while i < 256
        invariant
            hist.wf(),
            s == hist.counts@,
            total_count(s) <= 0xffff_ffff,
            i <= 256,
            total as int == psum(s, i as int),
        decreases 256 - i,
    {
        proof {
            lemma_psum_monotone(s, i as int + 1, 256);
            lemma_psum_nonneg(s, i as int);
        }
        total = total + hist.counts[i];
        i += 1;
    }
    let mut lut: Vec<u8> = Vec::new();
    if total == 0 {
        let mut j: usize = 0;
        while j < 256
            invariant
                j <= 256,
                lut@.len() == j,
                total_count(s) == 0,
                forall|t: int| 0 <= t < j ==> #[trigger] lut@[t] == 0u8,
            decreases 256 - j,
        {
            lut.push(0);
            j += 1;
        }
    } else {
        let mut cum: u64 = 0;
        let mut j: usize = 0;
        while j < 256
            invariant
                hist.wf(),
                s == hist.counts@,
                total as int == total_count(s),
                0 < total,
                total_count(s) <= 0xffff_ffff,
                j <= 256,
                lut@.len() == j,
                cum as int == psum(s, j as int),
                forall|t: int| 0 <= t < j ==> #[trigger] lut@[t] as int == lut_entry(s, t),
            decreases 256 - j,
        {
            proof {
                lemma_psum_monotone(s, j as int + 1, 256);
                lemma_psum_nonneg(s, j as int);
                lemma_psum_nonneg(s, j as int + 1);
            }
            cum = cum + hist.counts[j];
            proof {
                lemma_mul_inequality(psum(s, j as int + 1), total as int, 255);
                lemma_div_is_ordered(
                    psum(s, j as int + 1) * 255,
                    total as int * 255,
                    total as int,
                );
                lemma_div_multiples_vanish(255, total as int);
                lemma_div_pos_is_pos(psum(s, j as int + 1) * 255, total as int);
            }
            let q: u64 = (cum * 255) / total;
            lut.push(q as u8);
            j += 1;
        }
        proof {
            assert forall|a: int, b: int| 0 <= a <= b < 256 implies lut@[a] <= lut@[b] by {
                lemma_lut_monotone(s, a, b);
            }
        }
    }
    lut
}

} // verus!
