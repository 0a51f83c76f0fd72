//! Histogram clipping: bins are capped at a limit, and the total excess,
//! divided by 256 with the remainder discarded, is added back to every bin.

#![allow(unused_imports)]
use vstd::prelude::*;
use vstd::arithmetic::div_mod::lemma_fundamental_div_mod;
use crate::histogram::{psum, total_count, Histogram, lemma_psum_monotone, lemma_psum_nonneg,
    lemma_bin_le_total};

verus! {

/// One bin after the capping step, before redistribution.
pub open spec fn clipped_bin(s: Seq<u64>, limit: int, v: int) -> int {
    if s[v] > limit {
        limit
    } else {
        s[v] as int
    }
}

/// Excess mass gathered from the first `k` bins by the capping step.
pub open spec fn pexcess(s: Seq<u64>, limit: int, k: int) -> int
    decreases k,
{
    if k <= 0 {
        0
    } else {
        pexcess(s, limit, k - 1) + (if s[k - 1] > limit {
            s[k - 1] - limit
        } else {
            0int
        })
    }
}

/// Total excess mass the capping step removes.
pub open spec fn clip_excess(s: Seq<u64>, limit: int) -> int {
    pexcess(s, limit, 256)
}

/// One bin of the final clipped histogram: capped, plus the uniform share
/// of the excess (integer division by 256; the remainder is dropped).
pub open spec fn clip_spec(s: Seq<u64>, limit: int, v: int) -> int {
    clipped_bin(s, limit, v) + clip_excess(s, limit) / 256
}

/// The whole clipped histogram, for composing tile-level specifications.
pub open spec fn clip_seq(s: Seq<u64>, limit: int) -> Seq<u64> {
    Seq::new(256, |v: int| clip_spec(s, limit, v) as u64)
}

/// Sum of the first `k` capped bins.
pub open spec fn pclip(s: Seq<u64>, limit: int, k: int) -> int
    decreases k,
{
    if k <= 0 {
        0
    } else {
        pclip(s, limit, k - 1) + clipped_bin(s, limit, k - 1)
    }
}

/// Clip bound: the capping step never leaves a bin above the limit.
/// (The redistribution step afterwards adds the uniform excess share on
/// top of these capped bins.)
pub proof fn lemma_clip_bound(s: Seq<u64>, limit: int, v: int)
    requires
        0 <= limit,
    ensures
        0 <= clipped_bin(s, limit, v) <= limit,
{
}

pub proof fn lemma_pexcess_nonneg(s: Seq<u64>, limit: int, k: int)
    ensures
        0 <= pexcess(s, limit, k),
    decreases k,
{
    if k > 0 {
        lemma_pexcess_nonneg(s, limit, k - 1);
    }
}

/// Capped mass and excess mass together make up the original mass.
pub proof fn lemma_clip_split(s: Seq<u64>, limit: int, k: int)
    ensures
        pclip(s, limit, k) + pexcess(s, limit, k) == psum(s, k),
    decreases k,
{
    if k > 0 {
        lemma_clip_split(s, limit, k - 1);
    }
}

pub proof fn lemma_pclip_nonneg(s: Seq<u64>, limit: int, k: int)
    requires
        0 <= limit,
    ensures
        0 <= pclip(s, limit, k),
    decreases k,
{
    if k > 0 {
        lemma_pclip_nonneg(s, limit, k - 1);
    }
}

/// The gathered excess never exceeds the mass it was gathered from.
pub proof fn lemma_pexcess_le_psum(s: Seq<u64>, limit: int, k: int)
    requires
        0 <= limit,
    ensures
        pexcess(s, limit, k) <= psum(s, k),
{
    lemma_clip_split(s, limit, k);
    lemma_pclip_nonneg(s, limit, k);
}

/// Summing bins that each hold a capped bin plus a constant share.
proof fn lemma_sum_capped_plus(r: Seq<u64>, s: Seq<u64>, limit: int, p: int, k: int)
    requires
        0 <= k,
        0 <= p,
        forall|v: int| 0 <= v < k ==> #[trigger] r[v] as int == clipped_bin(s, limit, v) + p,
    ensures
        psum(r, k) == pclip(s, limit, k) + k * p,
    decreases k,
{
    if k > 0 {
        lemma_sum_capped_plus(r, s, limit, p, k - 1);
        assert(k * p == (k - 1) * p + p) by (nonlinear_arith);
    } else {
        assert(0 * p == 0) by (nonlinear_arith);
    }
}

/// Clips a histogram: every bin above `limit` is capped and the gathered
/// excess, divided by 256 (remainder discarded), is added to every bin.
/// The mass can shrink by exactly `excess % 256`.
pub fn clip_histogram(hist: &Histogram, limit: u32) -> (r: Histogram)
    requires
        hist.wf(),
        total_count(hist.counts@) <= 0xffff_ffff,
    ensures
        r.wf(),
        forall|v: int|
            0 <= v < 256 ==> #[trigger] r.counts@[v] as int == clip_spec(
                hist.counts@,
                limit as int,
                v,
            ),
        total_count(r.counts@) == total_count(hist.counts@) - clip_excess(
            hist.counts@,
            limit as int,
        ) % 256,
        total_count(r.counts@) <= total_count(hist.counts@),
{
    let ghost s: Seq<u64> = hist.counts@;
    let ghost li: int = limit as int;
    let lim64: u64 = limit as u64;
    let mut excess: u64 = 0;
    let mut clipped: Vec<u64> = Vec::new();
    let mut i: usize = 0;
    while i < 256
        invariant
            hist.wf(),
            s == hist.counts@,
            li == limit as int,
            lim64 == limit as u64,
            total_count(s) <= 0xffff_ffff,
            i <= 256,
            clipped@.len() == i,
            forall|v: int| 0 <= v < i ==> #[trigger] clipped@[v] as int == clipped_bin(s, li, v),
            excess as int == pexcess(s, li, i as int),
        decreases 256 - i,
    {
        let c: u64 = hist.counts[i];
        proof {
            lemma_pexcess_le_psum(s, li, i as int + 1);
            lemma_psum_monotone(s, i as int + 1, 256);
        }
        if c > lim64 {
            excess = excess + (c - lim64);
            clipped.push(lim64);
        } else {
            clipped.push(c);
        }
        i += 1;
    }
    proof {
        lemma_pexcess_nonneg(s, li, 256);
        lemma_pexcess_le_psum(s, li, 256);
    }
    let per_bin: u64 = excess / 256;
    let ghost pb: int = per_bin as int;
    let mut out_counts: Vec<u64> = Vec::new();
    let mut j: usize = 0;
    while j < 256
        invariant
            s == hist.counts@,
            li == limit as int,
            total_count(s) <= 0xffff_ffff,
            j <= 256,
            out_counts@.len() == j,
            clipped@.len() == 256,
            forall|v: int| 0 <= v < 256 ==> #[trigger] clipped@[v] as int == clipped_bin(s, li, v),
            forall|v: int|
                0 <= v < j ==> #[trigger] out_counts@[v] as int == clipped_bin(s, li, v) + pb,
            pb == per_bin as int,
            excess as int == clip_excess(s, li),
            excess as int <= 0xffff_ffff,
            per_bin as int == clip_excess(s, li) / 256,
        decreases 256 - j,
    {
        let c: u64 = clipped[j];
        proof {
            lemma_bin_le_total(s, j as int);
            lemma_psum_nonneg(s, 256);
        }
        out_counts.push(c + per_bin);
        j += 1;
    }
    proof {
        lemma_sum_capped_plus(out_counts@, s, li, pb, 256);
        lemma_clip_split(s, li, 256);
        lemma_fundamental_div_mod(clip_excess(s, li), 256);
        assert(256 * (clip_excess(s, li) / 256) == 256 * pb);
    }
    Histogram { counts: out_counts }
}

} // verus!
