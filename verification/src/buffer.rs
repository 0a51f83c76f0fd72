//! The in-memory grayscale image: a row-major grid of 8-bit samples.

#![allow(unused_imports)]
use vstd::prelude::*;
use vstd::arithmetic::div_mod::{
    lemma_fundamental_div_mod, lemma_fundamental_div_mod_converse_div,
    lemma_fundamental_div_mod_converse_mod,
};

verus! {

/// A W x H grid of 8-bit grayscale samples, stored row-major.
pub struct GrayBuffer {
    pub width: u32,
    pub height: u32,
    pub data: Vec<u8>,
}

impl GrayBuffer {
    /// Well-formed: at least one pixel per axis, the data covers the grid
    /// exactly, and the pixel count fits in a `u32` (the histogram and LUT
    /// arithmetic counts pixels in 32 bits, as wide as the dimensions).
    pub open spec fn wf(&self) -> bool {
        &&& 1 <= self.width
        &&& 1 <= self.height
        &&& self.data@.len() == self.width as int * self.height as int
        &&& self.data@.len() <= u32::MAX
    }

    /// The sample at column `x`, row `y`.
    pub open spec fn pixel(&self, x: int, y: int) -> u8 {
        self.data@[y * self.width as int + x]
    }

    /// Builds a buffer from raw row-major bytes; `None` when the length
    /// does not match the dimensions or a well-formedness bound fails.
    pub fn from_raw(width: u32, height: u32, data: Vec<u8>) -> (r: Option<GrayBuffer>)
        ensures
            match r {
                Some(b) => {
                    &&& b.wf()
                    &&& b.width == width
                    &&& b.height == height
                    &&& b.data@ == data@
                },
                None => !(1 <= width && 1 <= height
                    && data@.len() == width as int * height as int
                    && data@.len() <= u32::MAX),
            },
    {
        proof {
            assert(width as int * height as int <= 0xffff_fffe_0000_0001int) by (nonlinear_arith)
                requires
                    0 <= width as int <= 0xffff_ffffint,
                    0 <= height as int <= 0xffff_ffffint,
            {
            }
        }
        let pixels: u64 = (width as u64) * (height as u64);
        if width >= 1 && height >= 1 && (data.len() as u64) == pixels && pixels <= u32::MAX as u64 {
            Some(GrayBuffer { width, height, data })
        } else {
            None
        }
    }

    /// Reads one sample.
    pub fn get(&self, x: u32, y: u32) -> (r: u8)
        requires
            self.wf(),
            x < self.width,
            y < self.height,
        ensures
            r == self.pixel(x as int, y as int),
    {
        proof {
            lemma_row_major_index(x as int, y as int, self.width as int, self.height as int);
        }
        let idx: usize = (y as usize) * (self.width as usize) + (x as usize);
        self.data[idx]
    }
}

/// A pixel inside the grid has a row-major index inside the data.
#[verifier::nonlinear]
pub proof fn lemma_row_major_index(x: int, y: int, w: int, h: int)
    requires
        0 <= x < w,
        0 <= y < h,
    ensures
        0 <= y * w + x < w * h,
        y * w <= y * w + x,
{
}

/// A row-major index decomposes into the column `k % w` and the row `k / w`.
pub proof fn lemma_row_major_decompose(k: int, w: int, h: int)
    requires
        1 <= w,
        0 <= k < w * h,
    ensures
        0 <= k % w < w,
        0 <= k / w < h,
        (k / w) * w + (k % w) == k,
{
    lemma_fundamental_div_mod(k, w);
    assert((k / w) * w + (k % w) == k) by (nonlinear_arith)
        requires k == w * (k / w) + (k % w),
    {
    }
    assert(k / w < h) by (nonlinear_arith)
        requires 1 <= w, 0 <= k < w * h, k == w * (k / w) + (k % w), 0 <= k % w < w,
    {
    }
}

} // verus!
