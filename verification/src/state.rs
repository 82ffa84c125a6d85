//! A small self-contained demo state: a time counter and a plasma-like
//! test pattern it paints into a bare RGB pixel buffer, plus a tiny
//! three-way comparison helper.

use vstd::prelude::*;

verus! {

use crate::fixed::{isqrt_spec, isqrt64};

/// Three-way comparison of two integers.
pub fn cmp(a: i32, b: i32) -> (r: core::cmp::Ordering)
    ensures
        r == (if a < b {
            core::cmp::Ordering::Less
        } else if a > b {
            core::cmp::Ordering::Greater
        } else {
            core::cmp::Ordering::Equal
        }),
{
    if a < b {
        core::cmp::Ordering::Less
    } else if a > b {
        core::cmp::Ordering::Greater
    } else {
        core::cmp::Ordering::Equal
    }
}

/// The demo state: a frame counter.
#[derive(Debug)]
pub struct State {
    pub t: usize,
}

/// The colour of the demo pattern at pixel `(x, y)` on frame `t`:
/// the truncated distance from the origin, and two ramps driven by
/// the frame counter, each reduced to one byte.
pub open spec fn state_color_spec(t: int, x: int, y: int) -> (u8, u8, u8) {
    (
        (isqrt_spec((x * x + y * y) as nat) % 256) as u8,
        ((3 * y + 10 * t) % 256) as u8,
        ((7 * t) % 256) as u8,
    )
}

impl State {
    /// Advance the frame counter.
    pub fn step(&mut self)
        requires
            old(self).t < usize::MAX,
        ensures
            final(self).t == old(self).t + 1,
    {
        self.t = self.t + 1;
    }

    /// The pattern colour of one pixel.
    pub fn get_color(&self, x: usize, y: usize) -> (r: (u8, u8, u8))
        requires
            x <= 0x10000,
            y <= 0x10000,
            self.t <= 0x10_0000,
        ensures
            r == state_color_spec(self.t as int, x as int, y as int),
    {
        proof {
            assert(x as int * x as int + y as int * y as int <= 0x2_0000_0000) by (nonlinear_arith)
                requires
                    0 <= x <= 0x10000,
                    0 <= y <= 0x10000,
            ;
            assert(x as int * x as int >= 0) by (nonlinear_arith);
            assert(y as int * y as int >= 0) by (nonlinear_arith);
        }
        let sq: u64 = (x as u64) * (x as u64) + (y as u64) * (y as u64);
        let dist: u64 = isqrt64(sq);
        ((dist % 256) as u8, ((3 * y + 10 * self.t) % 0x100) as u8, ((7 * self.t) % 0x100) as u8)
    }

    /// Paint the full test pattern into a 3-byte-per-pixel buffer,
    /// blue-green-red channel order.
    pub fn draw(&self, pixels: &mut Vec<u8>, w: usize, h: usize)
        requires
            old(pixels)@.len() == 3 * w * h,
            w <= 4096,
            h <= 4096,
            self.t <= 0x10_0000,
        ensures
            final(pixels)@.len() == 3 * w * h,
            forall|x: int, y: int|
                #![trigger state_color_spec(self.t as int, x, y)]
                0 <= x < w && 0 <= y < h ==> {
                    let c = state_color_spec(self.t as int, x, y);
                    &&& final(pixels)@[3 * (w * y + x)] == c.2
                    &&& final(pixels)@[3 * (w * y + x) + 1] == c.1
                    &&& final(pixels)@[3 * (w * y + x) + 2] == c.0
                },
    {
        let mut x: usize = 0;
        while x < w
            invariant
                x <= w,
                w <= 4096,
                h <= 4096,
                self.t <= 0x10_0000,
                pixels@.len() == 3 * w * h,
                forall|xx: int, yy: int|
                    #![trigger state_color_spec(self.t as int, xx, yy)]
                    0 <= xx < x && 0 <= yy < h ==> {
                        let c = state_color_spec(self.t as int, xx, yy);
                        &&& pixels@[3 * (w * yy + xx)] == c.2
                        &&& pixels@[3 * (w * yy + xx) + 1] == c.1
                        &&& pixels@[3 * (w * yy + xx) + 2] == c.0
                    },
            decreases w - x,
        {
            let mut y: usize = 0;
            while y < h
                invariant
                    x < w,
                    y <= h,
                    w <= 4096,
                    h <= 4096,
                    self.t <= 0x10_0000,
                    pixels@.len() == 3 * w * h,
                    forall|xx: int, yy: int|
                        #![trigger state_color_spec(self.t as int, xx, yy)]
                        0 <= xx < x && 0 <= yy < h ==> {
                            let c = state_color_spec(self.t as int, xx, yy);
                            &&& pixels@[3 * (w * yy + xx)] == c.2
                            &&& pixels@[3 * (w * yy + xx) + 1] == c.1
                            &&& pixels@[3 * (w * yy + xx) + 2] == c.0
                        },
                    forall|yy: int|
                        #![trigger state_color_spec(self.t as int, x as int, yy)]
                        0 <= yy < y ==> {
                            let c = state_color_spec(self.t as int, x as int, yy);
                            &&& pixels@[3 * (w * yy + x as int)] == c.2
                            &&& pixels@[3 * (w * yy + x as int) + 1] == c.1
                            &&& pixels@[3 * (w * yy + x as int) + 2] == c.0
                        },
                decreases h - y,
            {
                proof {
                    lemma_row_index_bound(w as int, h as int, x as int, y as int);
                }
                let (r, g, b) = self.get_color(x, y);
                let base: usize = 3 * (w * y + x);
                let ghost p0 = pixels@;
                pixels.set(base, b);
                pixels.set(base + 1, g);
                pixels.set(base + 2, r);
                proof {
                    assert forall|xx: int, yy: int|
                        #![trigger state_color_spec(self.t as int, xx, yy)]
                        0 <= xx < w && 0 <= yy < h && (xx != x as int || yy != y as int) implies {
                        let c = state_color_spec(self.t as int, xx, yy);
                        &&& pixels@[3 * (w * yy + xx)] == p0[3 * (w * yy + xx)]
                        &&& pixels@[3 * (w * yy + xx) + 1] == p0[3 * (w * yy + xx) + 1]
                        &&& pixels@[3 * (w * yy + xx) + 2] == p0[3 * (w * yy + xx) + 2]
                    } by {
                        lemma_row_index_distinct(w as int, h as int, xx, yy, x as int, y as int);
                        lemma_row_index_bound(w as int, h as int, xx, yy);
                    }
                }
                y = y + 1;
            }
            x = x + 1;
        }
    }
}

/// A pixel's flat index lies inside the buffer.
proof fn lemma_row_index_bound(w: int, h: int, x: int, y: int)
    requires
        0 <= x < w,
        0 <= y < h,
        w <= 4096,
        h <= 4096,
    ensures
        0 <= w * y + x < w * h,
        w * h <= 0x100_0000,
        3 * (w * y + x) + 2 < 3 * w * h,
{
    assert(w * y + x < w * h && w * h <= 0x100_0000 && 3 * (w * y + x) + 2 < 3 * w * h)
        by (nonlinear_arith)
        requires
            0 <= x < w,
            0 <= y < h,
            w <= 4096,
            h <= 4096,
    ;
    assert(w * y >= 0) by (nonlinear_arith)
        requires
            w >= 0,
            y >= 0,
    ;
}

/// Distinct pixels have distinct flat indices.
proof fn lemma_row_index_distinct(w: int, h: int, x1: int, y1: int, x2: int, y2: int)
    requires
        0 <= x1 < w,
        0 <= y1 < h,
        0 <= x2 < w,
        0 <= y2 < h,
        x1 != x2 || y1 != y2,
    ensures
        w * y1 + x1 != w * y2 + x2,
{
    assert(w * y1 + x1 != w * y2 + x2) by (nonlinear_arith)
        requires
            0 <= x1 < w,
            0 <= y1 < h,
            0 <= x2 < w,
            0 <= y2 < h,
            x1 != x2 || y1 != y2,
    ;
}

} // verus!
