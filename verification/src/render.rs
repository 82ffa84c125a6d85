//! The column renderer: perspective projection of ray-cast hits into a
//! pixel buffer, with occlusion bookkeeping, plus the overhead map view.
//!
//! The pixel buffer layout (RGB or ARGB) is a run-time parameter. Wall
//! and flat shading are deliberately stylized: an XOR of two 8-bit
//! quantized coordinates stands in for a texture sample, and brightness
//! is an inverse-distance falloff clamped to `[0, 1]`.

use vstd::prelude::*;

verus! {

use crate::fixed::{fx_abs, tdiv, fx_clamp, fx_mul_spec, fx_div_spec, lemma_tdiv_abs_le};
use crate::fixed::{fx_mul, fx_div};
use crate::fixed::{sin_fx_spec, cos_fx_spec};
use vstd::arithmetic::mul::lemma_mul_upper_bound;
use vstd::arithmetic::mul::lemma_mul_inequality;

/// The byte layout of one pixel in the output buffer.
#[derive(Clone, Copy, PartialEq, Eq, Structural, Debug)]
pub enum PixelFormat {
    /// Three bytes per pixel: red, green, blue.
    Rgb,
    /// Four bytes per pixel: alpha (always 0xFF), red, green, blue.
    Argb,
}

/// Bytes per pixel of a layout.
pub open spec fn bpp_spec(f: PixelFormat) -> int {
    match f {
        PixelFormat::Rgb => 3,
        PixelFormat::Argb => 4,
    }
}

/// The flat byte index where pixel `(x, y)` starts.
pub open spec fn px_base(f: PixelFormat, w: int, x: int, y: int) -> int {
    bpp_spec(f) * (w * y + x)
}

/// The red, green and blue bytes of pixel `(x, y)` in `s`.
pub open spec fn px_rgb(s: Seq<u8>, f: PixelFormat, w: int, x: int, y: int) -> (u8, u8, u8) {
    let base = px_base(f, w, x, y);
    match f {
        PixelFormat::Rgb => (s[base], s[base + 1], s[base + 2]),
        PixelFormat::Argb => (s[base + 1], s[base + 2], s[base + 3]),
    }
}

/// Pixel `(x, y)` holds the same bytes in `a` as in `b`.
pub open spec fn px_eq(a: Seq<u8>, b: Seq<u8>, f: PixelFormat, w: int, x: int, y: int) -> bool {
    let base = px_base(f, w, x, y);
    &&& a[base] == b[base]
    &&& a[base + 1] == b[base + 1]
    &&& a[base + 2] == b[base + 2]
    &&& (f is Argb ==> a[base + 3] == b[base + 3])
}

/// A pixel buffer with its dimensions and layout.
#[derive(Debug)]
pub struct RenderContext {
    pub pixels: Vec<u8>,
    pub width: usize,
    pub height: usize,
    pub format: PixelFormat,
}

/// The buffer invariant: dimensions in range, length matching them.
pub open spec fn rc_wf(c: RenderContext) -> bool {
    &&& c.width <= 4096
    &&& c.height <= 4096
    &&& c.pixels@.len() == bpp_spec(c.format) * (c.width * c.height)
}

/// Dimensions and layout of `a` equal those of `b`.
pub open spec fn rc_same_shape(a: RenderContext, b: RenderContext) -> bool {
    &&& a.width == b.width
    &&& a.height == b.height
    &&& a.format == b.format
    &&& a.pixels@.len() == b.pixels@.len()
}

/// A pixel's byte range lies inside the buffer, and pixel ranges of
/// distinct pixels do not overlap.
proof fn lemma_px_bounds(f: PixelFormat, w: int, h: int, x: int, y: int)
    requires
        0 <= x < w,
        0 <= y < h,
        w <= 4096,
        h <= 4096,
    ensures
        0 <= px_base(f, w, x, y),
        px_base(f, w, x, y) + bpp_spec(f) <= bpp_spec(f) * (w * h),
        bpp_spec(f) * (w * h) <= 0x400_0000,
{
    let b = bpp_spec(f);
    assert(0 <= b * (w * y + x) && b * (w * y + x) + b <= b * (w * h) && b * (w * h) <= 0x400_0000)
        by (nonlinear_arith)
        requires
            0 <= x < w,
            0 <= y < h,
            w <= 4096,
            h <= 4096,
            3 <= b <= 4,
    ;
}

/// Distinct pixels occupy disjoint byte ranges.
proof fn lemma_px_disjoint(f: PixelFormat, w: int, h: int, x1: int, y1: int, x2: int, y2: int)
    requires
        0 <= x1 < w,
        0 <= y1 < h,
        0 <= x2 < w,
        0 <= y2 < h,
        x1 != x2 || y1 != y2,
    ensures
        px_base(f, w, x1, y1) + bpp_spec(f) <= px_base(f, w, x2, y2) || px_base(f, w, x2, y2)
            + bpp_spec(f) <= px_base(f, w, x1, y1),
{
    let b = bpp_spec(f);
    assert(b * (w * y1 + x1) + b <= b * (w * y2 + x2) || b * (w * y2 + x2) + b <= b * (w * y1
        + x1)) by (nonlinear_arith)
        requires
            0 <= x1 < w,
            0 <= y1 < h,
            0 <= x2 < w,
            0 <= y2 < h,
            x1 != x2 || y1 != y2,
            3 <= b <= 4,
    ;
}

/// Read the red, green and blue bytes of pixel `(x, y)` from a bare
/// 3-byte-per-pixel texture of row width `w`.
pub fn get_px(tex: &[u8], x: usize, y: usize, w: usize) -> (r: (u8, u8, u8))
    requires
        3 * (w * y + x) + 2 < tex@.len(),
        tex@.len() <= usize::MAX,
    ensures
        r.0 == tex@[3 * (w * y + x)],
        r.1 == tex@[3 * (w * y + x) + 1],
        r.2 == tex@[3 * (w * y + x) + 2],
{
    proof {
        assert(w * y >= 0) by (nonlinear_arith)
            requires
                w >= 0,
                y >= 0,
        ;
    }
    let base: usize = 3 * (w * y + x);
    (tex[base], tex[base + 1], tex[base + 2])
}

/// Inverse-distance brightness, clamped to `[0, 1]`: `20 / d` in fixed
/// point, zero for non-positive distances.
pub open spec fn brightness_spec(d: int) -> int {
    if d <= 0 {
        0
    } else {
        fx_clamp(tdiv(85899345920, d), 0, 65536)
    }
}

/// Brightness of a surface at fixed-point distance `d`.
pub fn brightness_from_dist(d: i64) -> (r: i64)
    ensures
        r == brightness_spec(d as int),
        0 <= r <= 65536,
{
    if d <= 0 {
        0
    } else {
        let q: u64 = 85899345920u64 / (d as u64);
        proof {
            vstd::arithmetic::div_mod::lemma_div_nonincreasing(85899345920, d as int);
            vstd::arithmetic::div_mod::lemma_div_pos_is_pos(85899345920, d as int);
        }
        if q > 65536 {
            65536
        } else {
            q as i64
        }
    }
}

/// The low byte of an integer, as Euclidean remainder by 256.
fn ubyte_of(v: i64) -> (r: u8)
    ensures
        r as int == (v as int) % 256,
{
    if v >= 0 {
        ((v as u64) % 256) as u8
    } else {
        let k: u64 = ((-(v as i128)) as u128 % 256) as u64;
        proof {
            let vi = v as int;
            let d = (-vi) / 256;
            vstd::arithmetic::div_mod::lemma_fundamental_div_mod(-vi, 256);
            vstd::arithmetic::div_mod::lemma_mod_pos_bound(-vi, 256);
            if k == 0 {
                assert(vi == 256 * (-d) + 0);
                vstd::arithmetic::div_mod::lemma_mod_multiples_vanish(-d, 0, 256);
                vstd::arithmetic::div_mod::lemma_small_mod(0nat, 256nat);
            } else {
                assert(vi == 256 * (-d - 1) + (256 - k as int));
                vstd::arithmetic::div_mod::lemma_mod_multiples_vanish(-d - 1, 256 - k as int, 256);
                vstd::arithmetic::div_mod::lemma_small_mod((256 - k as int) as nat, 256nat);
            }
        }
        if k == 0 {
            0
        } else {
            (256 - k) as u8
        }
    }
}

impl RenderContext {
    /// Write one pixel. Only the bytes of pixel `(x, y)` change; on an
    /// ARGB layout the alpha byte is set to 0xFF.
    pub fn put_px(&mut self, x: usize, y: usize, r: u8, g: u8, b: u8)
        requires
            rc_wf(*old(self)),
            x < old(self).width,
            y < old(self).height,
        ensures
            rc_wf(*final(self)),
            rc_same_shape(*final(self), *old(self)),
            px_rgb(
                final(self).pixels@,
                final(self).format,
                final(self).width as int,
                x as int,
                y as int,
            ) == (r, g, b),
            final(self).format is Argb ==> final(self).pixels@[px_base(
                final(self).format,
                final(self).width as int,
                x as int,
                y as int,
            )] == 0xFFu8,
            forall|j: int|
                0 <= j < final(self).pixels@.len() && !(px_base(
                    old(self).format,
                    old(self).width as int,
                    x as int,
                    y as int,
                ) <= j < px_base(old(self).format, old(self).width as int, x as int, y as int)
                    + bpp_spec(old(self).format)) ==> final(self).pixels@[j] == old(
                    self,
                ).pixels@[j],
    {
        proof {
            lemma_px_bounds(
                self.format,
                self.width as int,
                self.height as int,
                x as int,
                y as int,
            );
        }
        match self.format {
            PixelFormat::Rgb => {
                let base: usize = 3 * (self.width * y + x);
                self.pixels.set(base, r);
                self.pixels.set(base + 1, g);
                self.pixels.set(base + 2, b);
            },
            PixelFormat::Argb => {
                let base: usize = 4 * (self.width * y + x);
                self.pixels.set(base, 0xFF);
                self.pixels.set(base + 1, r);
                self.pixels.set(base + 2, g);
                self.pixels.set(base + 3, b);
            },
        }
    }

    /// Paint every pixel black.
    pub fn clear(&mut self)
        requires
            rc_wf(*old(self)),
        ensures
            rc_wf(*final(self)),
            rc_same_shape(*final(self), *old(self)),
            forall|x: int, y: int|
                #![trigger px_base(final(self).format, final(self).width as int, x, y)]
                0 <= x < final(self).width && 0 <= y < final(self).height ==> px_rgb(
                    final(self).pixels@,
                    final(self).format,
                    final(self).width as int,
                    x,
                    y,
                ) == (0u8, 0u8, 0u8),
    {
        let w: usize = self.width;
        let h: usize = self.height;
        let mut x: usize = 0;
        while x < w
            invariant
                x <= w,
                w == self.width,
                h == self.height,
                rc_wf(*self),
                rc_same_shape(*self, *old(self)),
                forall|xx: int, yy: int|
                    #![trigger px_base(self.format, self.width as int, xx, yy)]
                    0 <= xx < x && 0 <= yy < h ==> px_rgb(
                        self.pixels@,
                        self.format,
                        self.width as int,
                        xx,
                        yy,
                    ) == (0u8, 0u8, 0u8),
            decreases w - x,
        {
            let mut y: usize = 0;
            while y < h
                invariant
                    x < w,
                    y <= h,
                    w == self.width,
                    h == self.height,
                    rc_wf(*self),
                    rc_same_shape(*self, *old(self)),
                    forall|xx: int, yy: int|
                        #![trigger px_base(self.format, self.width as int, xx, yy)]
                        0 <= xx < x && 0 <= yy < h ==> px_rgb(
                            self.pixels@,
                            self.format,
                            self.width as int,
                            xx,
                            yy,
                        ) == (0u8, 0u8, 0u8),
                    forall|yy: int|
                        #![trigger px_base(self.format, self.width as int, x as int, yy)]
                        0 <= yy < y ==> px_rgb(
                            self.pixels@,
                            self.format,
                            self.width as int,
                            x as int,
                            yy,
                        ) == (0u8, 0u8, 0u8),
                decreases h - y,
            {
                let ghost prev = self.pixels@;
                self.put_px(x, y, 0, 0, 0);
                proof {
                    assert forall|xx: int, yy: int|
                        #![trigger px_base(self.format, self.width as int, xx, yy)]
                        0 <= xx < w && 0 <= yy < h && (xx != x as int || yy != y as int) implies px_eq(
                        self.pixels@,
                        prev,
                        self.format,
                        self.width as int,
                        xx,
                        yy,
                    ) by {
                        lemma_px_disjoint(
                            self.format,
                            self.width as int,
                            self.height as int,
                            xx,
                            yy,
                            x as int,
                            y as int,
                        );
                        lemma_px_bounds(self.format, self.width as int, self.height as int, xx, yy);
                    }
                }
                y = y + 1;
            }
            x = x + 1;
        }
    }
}

/// The vertical band `[top, bottom)` clipped to the screen: empty when
/// wholly off screen, otherwise cut at 0 and the height.
pub open spec fn col_range_spec(h: int, top: int, bottom: int) -> (int, int) {
    if bottom < 0 || top >= h {
        (0, 0)
    } else {
        (
            if top < 0 {
                0
            } else {
                top
            },
            if bottom > h {
                h
            } else {
                bottom
            },
        )
    }
}

/// The colour of a wall pixel: an XOR of the quantized texture
/// coordinate along the wall and the quantized height below the wall's
/// base, shaded by inverse distance; drawn as a blue-grey.
#[verifier::opaque]
pub open spec fn wall_color_spec(along: int, cast_dist: int, rows: int) -> (u8, u8, u8) {
    let t1 = (along * 25 / 65536) % 256;
    let t2 = (rows * cast_dist / 5000 / 128) % 256;
    let tex = (t1 as u8) ^ (t2 as u8);
    let c = ((tex as int) * brightness_spec(cast_dist) / 65536) as u8;
    (((c as int) / 2) as u8, ((c as int) / 2) as u8, c)
}

/// The colour of a floor or ceiling pixel: the flat's world position is
/// recovered by inverting the projection at this screen row, quantized,
/// XOR-textured and shaded by inverse distance; drawn as green.
#[verifier::opaque]
pub open spec fn flat_color_spec(
    elevation: int,
    pos: crate::math::Vec2,
    hit: crate::math::Vec2,
    cos_angle: int,
    visplane: int,
    rows: int,
) -> (u8, u8, u8) {
    let diff = crate::math::Vec2 { x: (hit.x - pos.x) as i64, y: (hit.y - pos.y) as i64 };
    let len = crate::math::v2_len_spec(diff);
    let nx = fx_div_spec(diff.x as int, len);
    let ny = fx_div_spec(diff.y as int, len);
    let df = tdiv(visplane * elevation, rows);
    let sx = fx_div_spec(fx_mul_spec(nx, df), cos_angle);
    let sy = fx_div_spec(fx_mul_spec(ny, df), cos_angle);
    let t1 = (tdiv((pos.x + sx) * 10, 65536)) % 256;
    let t2 = (tdiv((pos.y + sy) * 10, 65536)) % 256;
    let tex = (t1 as u8) ^ (t2 as u8);
    let c = ((tex as int) * brightness_spec(df) / 65536) as u8;
    (0u8, c, 0u8)
}

/// The screen position of the `t`-th dot of a drawn segment: the point
/// at parameter `t / (len / FX_ONE)`, scaled to pixels and centred on
/// the middle of a `w` by `h` screen.
pub open spec fn seg_dot_spec(seg: crate::math::LineSeg, len: int, t: int, w: int, h: int) -> (
    int,
    int,
) {
    let param = tdiv(t * 65536 * 65536, len);
    let pt = crate::math::seg_at_spec(seg, param);
    (tdiv(pt.x as int, 65536) + w / 2, tdiv(pt.y as int, 65536) + h / 2)
}

/// Pixels outside the band `[lo, hi)` of column `x` hold the same
/// bytes in `a` as in `b`.
pub open spec fn outside_band_eq(
    a: Seq<u8>,
    b: Seq<u8>,
    f: PixelFormat,
    w: int,
    h: int,
    x: int,
    lo: int,
    hi: int,
) -> bool {
    forall|xx: int, yy: int|
        #![trigger px_base(f, w, xx, yy)]
        0 <= xx < w && 0 <= yy < h && !(xx == x && lo <= yy < hi) ==> px_eq(a, b, f, w, xx, yy)
}

impl RenderContext {
    /// Clip the band `[top, bottom)` to the screen rows.
    pub fn column_range(&self, top: i64, bottom: i64) -> (r: (usize, usize))
        requires
            rc_wf(*self),
            -0x4000_0000_0000 <= top <= 0x4000_0000_0000,
            -0x4000_0000_0000 <= bottom <= 0x4000_0000_0000,
        ensures
            (r.0 as int, r.1 as int) == col_range_spec(self.height as int, top as int, bottom as int),
            r.0 <= self.height,
            r.1 <= self.height,
    {
        if bottom < 0 || top >= self.height as i64 {
            (0, 0)
        } else {
            let cut_top: usize = if top < 0 {
                0
            } else {
                top as usize
            };
            let cut_bottom: usize = if bottom > self.height as i64 {
                self.height
            } else {
                bottom as usize
            };
            (cut_top, cut_bottom)
        }
    }

    /// Paint a vertical wall span in column `x`, rows `[top, bottom)`
    /// clipped to the screen: each painted row `yy` takes
    /// `wall_color_spec` at height `bottom + y_offset - yy` above the
    /// wall's base; no other pixel changes.
    pub fn draw_wall(&mut self, x: usize, top: i64, bottom: i64, y_offset: i64, along: i64, cast_dist: i64)
        requires
            rc_wf(*old(self)),
            x < old(self).width,
            0 <= along <= 0x8000_0000,
            1 <= cast_dist <= 0x2_0000_0000,
            0 <= y_offset <= 0x4000_0000_0000,
            -0x2000_0000_0000 <= top <= 0x2000_0000_0000,
            -0x2000_0000_0000 <= bottom <= 0x2000_0000_0000,
        ensures
            rc_wf(*final(self)),
            rc_same_shape(*final(self), *old(self)),
            ({
                let (s, e) = col_range_spec(old(self).height as int, top as int, bottom as int);
                &&& outside_band_eq(
                    final(self).pixels@,
                    old(self).pixels@,
                    old(self).format,
                    old(self).width as int,
                    old(self).height as int,
                    x as int,
                    s,
                    e,
                )
                &&& forall|yy: int|
                    #![trigger px_base(old(self).format, old(self).width as int, x as int, yy)]
                    s <= yy < e ==> px_rgb(
                        final(self).pixels@,
                        old(self).format,
                        old(self).width as int,
                        x as int,
                        yy,
                    ) == wall_color_spec(
                        along as int,
                        cast_dist as int,
                        bottom + y_offset - yy,
                    )
            }),
    {
        let rng: (usize, usize) = self.column_range(top, bottom);
        let s: usize = rng.0;
        let e: usize = rng.1;
        let bright: i64 = brightness_from_dist(cast_dist);
        let t1: u8 = ((along * 25 / 65536) % 256) as u8;
        let mut y: usize = s;
        while y < e
            invariant
                s <= y,
                y <= e || y == s,
                e <= self.height,
                rc_wf(*self),
                rc_same_shape(*self, *old(self)),
                x < self.width,
                0 <= along <= 0x8000_0000,
                1 <= cast_dist <= 0x2_0000_0000,
                0 <= y_offset <= 0x4000_0000_0000,
                -0x2000_0000_0000 <= top <= 0x2000_0000_0000,
                -0x2000_0000_0000 <= bottom <= 0x2000_0000_0000,
                (s as int, e as int) == col_range_spec(self.height as int, top as int, bottom as int),
                bright == brightness_spec(cast_dist as int),
                t1 as int == (along * 25 / 65536) % 256,
                outside_band_eq(
                    self.pixels@,
                    old(self).pixels@,
                    self.format,
                    self.width as int,
                    self.height as int,
                    x as int,
                    s as int,
                    e as int,
                ),
                forall|yy: int|
                    #![trigger px_base(self.format, self.width as int, x as int, yy)]
                    s <= yy < y ==> px_rgb(
                        self.pixels@,
                        self.format,
                        self.width as int,
                        x as int,
                        yy,
                    ) == wall_color_spec(along as int, cast_dist as int, bottom + y_offset - yy),
            decreases e - y,
        {
            let rows: i64 = bottom + y_offset - (y as i64);
            proof {
                assert(rows as int * cast_dist as int
                    <= 0x1_0000_0000_0000 as int * 0x2_0000_0000 as int) by (nonlinear_arith)
                    requires
                        0 <= rows <= 0x1_0000_0000_0000,
                        1 <= cast_dist <= 0x2_0000_0000,
                ;
                assert(rows as int * cast_dist as int >= 0) by (nonlinear_arith)
                    requires
                        rows >= 0,
                        cast_dist >= 0,
                ;
            }
            let prod: i128 = (rows as i128) * (cast_dist as i128);
            let t2: u8 = ((prod / 5000 / 128) % 256) as u8;
            let tex: u8 = t1 ^ t2;
            proof {
                lemma_mul_upper_bound(tex as int, 255, bright as int, 65536);
                vstd::arithmetic::div_mod::lemma_div_is_ordered(
                    tex as int * bright as int,
                    255int * 65536int,
                    65536int,
                );
                vstd::arithmetic::div_mod::lemma_div_pos_is_pos(tex as int * bright as int, 65536);
                assert(tex as int * bright as int >= 0) by (nonlinear_arith)
                    requires
                        tex as int >= 0,
                        bright >= 0,
                ;
            }
            let c: i64 = (tex as i64) * bright / 65536;
            let cb: u8 = c as u8;
            proof {
                reveal(wall_color_spec);
                assert((cb / 2, cb / 2, cb) == wall_color_spec(
                    along as int,
                    cast_dist as int,
                    bottom + y_offset - y,
                ));
            }
            let ghost prev = self.pixels@;
            self.put_px(x, y, cb / 2, cb / 2, cb);
            proof {
                assert forall|xx: int, yy: int|
                    #![trigger px_base(self.format, self.width as int, xx, yy)]
                    0 <= xx < self.width && 0 <= yy < self.height && (xx != x as int || yy
                        != y as int) implies px_eq(
                    self.pixels@,
                    prev,
                    self.format,
                    self.width as int,
                    xx,
                    yy,
                ) by {
                    lemma_px_disjoint(
                        self.format,
                        self.width as int,
                        self.height as int,
                        xx,
                        yy,
                        x as int,
                        y as int,
                    );
                    lemma_px_bounds(self.format, self.width as int, self.height as int, xx, yy);
                }
            }
            y = y + 1;
        }
    }

    /// Paint a floor or ceiling span in column `x`, rows `[top,
    /// bottom)` clipped to the screen: each painted row takes
    /// `flat_color_spec` at its projection row offset; a row exactly
    /// at the horizon (zero offset) is left untouched, as is every
    /// pixel outside the band.
    pub fn draw_flat(
        &mut self,
        x: usize,
        top: i64,
        bottom: i64,
        elevation: i64,
        pos: crate::math::Vec2,
        hit_pos: crate::math::Vec2,
        cos_angle: i64,
        look: i64,
        visplane: i64,
    )
        requires
            rc_wf(*old(self)),
            x < old(self).width,
            -0x100_0000 <= elevation <= 0x100_0000,
            crate::math::v2_bounded(pos, crate::fixed::FX_LIM as int),
            crate::math::v2_bounded(hit_pos, crate::fixed::FX_LIM as int),
            hit_pos != pos,
            1 <= cos_angle <= 65536,
            -4096 <= look <= 4096,
            1 <= visplane <= 100000,
            -0x2000_0000_0000 <= top <= 0x2000_0000_0000,
            -0x2000_0000_0000 <= bottom <= 0x2000_0000_0000,
        ensures
            rc_wf(*final(self)),
            rc_same_shape(*final(self), *old(self)),
            ({
                let (s, e) = col_range_spec(old(self).height as int, top as int, bottom as int);
                &&& outside_band_eq(
                    final(self).pixels@,
                    old(self).pixels@,
                    old(self).format,
                    old(self).width as int,
                    old(self).height as int,
                    x as int,
                    s,
                    e,
                )
                &&& forall|yy: int|
                    #![trigger px_base(old(self).format, old(self).width as int, x as int, yy)]
                    s <= yy < e ==> {
                        let rows = yy + look - (old(self).height as int) / 2;
                        if rows == 0 {
                            px_eq(
                                final(self).pixels@,
                                old(self).pixels@,
                                old(self).format,
                                old(self).width as int,
                                x as int,
                                yy,
                            )
                        } else {
                            px_rgb(
                                final(self).pixels@,
                                old(self).format,
                                old(self).width as int,
                                x as int,
                                yy,
                            ) == flat_color_spec(
                                elevation as int,
                                pos,
                                hit_pos,
                                cos_angle as int,
                                visplane as int,
                                rows,
                            )
                        }
                    }
            }),
    {
        let rng: (usize, usize) = self.column_range(top, bottom);
        let s: usize = rng.0;
        let e: usize = rng.1;
        let diff: crate::math::Vec2 = hit_pos.sub(pos);
        let n: crate::math::Vec2 = diff.normalize();
        let half_h: i64 = (self.height as i64) / 2;
        let mut y: usize = s;
        while y < e
            invariant
                s <= y,
                y <= e || y == s,
                e <= self.height,
                rc_wf(*self),
                rc_same_shape(*self, *old(self)),
                x < self.width,
                -0x100_0000 <= elevation <= 0x100_0000,
                crate::math::v2_bounded(pos, crate::fixed::FX_LIM as int),
                crate::math::v2_bounded(hit_pos, crate::fixed::FX_LIM as int),
                1 <= cos_angle <= 65536,
                -4096 <= look <= 4096,
                1 <= visplane <= 100000,
                half_h == (self.height as int) / 2,
                diff == (crate::math::Vec2 {
                    x: (hit_pos.x - pos.x) as i64,
                    y: (hit_pos.y - pos.y) as i64,
                }),
                crate::math::v2_bounded(n, 65536),
                n.x == fx_div_spec(diff.x as int, crate::math::v2_len_spec(diff)),
                n.y == fx_div_spec(diff.y as int, crate::math::v2_len_spec(diff)),
                (s as int, e as int) == col_range_spec(self.height as int, top as int, bottom as int),
                outside_band_eq(
                    self.pixels@,
                    old(self).pixels@,
                    self.format,
                    self.width as int,
                    self.height as int,
                    x as int,
                    s as int,
                    e as int,
                ),
                forall|yy: int|
                    #![trigger px_base(self.format, self.width as int, x as int, yy)]
                    s <= yy < y ==> {
                        let rows = yy + look - (self.height as int) / 2;
                        if rows == 0 {
                            px_eq(
                                self.pixels@,
                                old(self).pixels@,
                                self.format,
                                self.width as int,
                                x as int,
                                yy,
                            )
                        } else {
                            px_rgb(
                                self.pixels@,
                                self.format,
                                self.width as int,
                                x as int,
                                yy,
                            ) == flat_color_spec(
                                elevation as int,
                                pos,
                                hit_pos,
                                cos_angle as int,
                                visplane as int,
                                rows,
                            )
                        }
                    },
                forall|yy: int|
                    #![trigger px_base(self.format, self.width as int, x as int, yy)]
                    y <= yy < e ==> px_eq(
                        self.pixels@,
                        old(self).pixels@,
                        self.format,
                        self.width as int,
                        x as int,
                        yy,
                    ),
            decreases e - y,
        {
            let rows: i64 = (y as i64) + look - half_h;
            if rows != 0 {
                proof {
                    assert(visplane as int * elevation as int <= 100000int * 0x100_0000int
                        && visplane as int * elevation as int >= -(100000int * 0x100_0000int))
                        by (nonlinear_arith)
                        requires
                            1 <= visplane <= 100000,
                            -0x100_0000 <= elevation <= 0x100_0000,
                    ;
                    crate::fixed::lemma_tdiv_abs_le(
                        visplane as int * elevation as int,
                        fx_abs(rows as int),
                        100000int * 0x100_0000int,
                    );
                    lemma_mul_inequality(1, fx_abs(rows as int), 100000int * 0x100_0000int);
                    assert(fx_abs(rows as int) * (100000int * 0x100_0000int) == (100000int
                        * 0x100_0000int) * fx_abs(rows as int)) by (nonlinear_arith);
                }
                let df: i64 = crate::fixed::tdiv_i64(visplane * elevation, rows);
                proof {
                    assert(fx_abs(n.x as int * df as int) <= 65536
                        * (100000int * 0x100_0000int)) by (nonlinear_arith)
                        requires
                            -65536 <= n.x <= 65536,
                            -(100000int * 0x100_0000int) <= df <= 100000int * 0x100_0000int,
                    ;
                    assert(fx_abs(n.y as int * df as int) <= 65536
                        * (100000int * 0x100_0000int)) by (nonlinear_arith)
                        requires
                            -65536 <= n.y <= 65536,
                            -(100000int * 0x100_0000int) <= df <= 100000int * 0x100_0000int,
                    ;
                    crate::fixed::lemma_tdiv_abs_le(
                        n.x as int * df as int,
                        65536,
                        100000int * 0x100_0000int,
                    );
                    crate::fixed::lemma_tdiv_abs_le(
                        n.y as int * df as int,
                        65536,
                        100000int * 0x100_0000int,
                    );
                }
                let mx: i64 = fx_mul(n.x, df);
                let my: i64 = fx_mul(n.y, df);
                proof {
                    assert(fx_abs(mx as int * 65536) == fx_abs(mx as int) * 65536)
                        by (nonlinear_arith);
                    assert(fx_abs(my as int * 65536) == fx_abs(my as int) * 65536)
                        by (nonlinear_arith);
                    lemma_mul_inequality(1, cos_angle as int, fx_abs(mx as int) * 65536);
                    lemma_mul_inequality(1, cos_angle as int, fx_abs(my as int) * 65536);
                    assert(fx_abs(mx as int) * 65536 <= cos_angle as int * (fx_abs(mx as int)
                        * 65536)) by (nonlinear_arith)
                        requires
                            cos_angle >= 1,
                            fx_abs(mx as int) >= 0,
                    ;
                    assert(fx_abs(my as int) * 65536 <= cos_angle as int * (fx_abs(my as int)
                        * 65536)) by (nonlinear_arith)
                        requires
                            cos_angle >= 1,
                            fx_abs(my as int) >= 0,
                    ;
                    crate::fixed::lemma_tdiv_abs_le(
                        mx as int * 65536,
                        cos_angle as int,
                        fx_abs(mx as int) * 65536,
                    );
                    crate::fixed::lemma_tdiv_abs_le(
                        my as int * 65536,
                        cos_angle as int,
                        fx_abs(my as int) * 65536,
                    );
                }
                let sx: i64 = fx_div(mx, cos_angle);
                let sy: i64 = fx_div(my, cos_angle);
                let fpx: i64 = pos.x + sx;
                let fpy: i64 = pos.y + sy;
                let t1: u8 = ubyte_of(crate::fixed::tdiv64(fpx * 10, 65536));
                let t2: u8 = ubyte_of(crate::fixed::tdiv64(fpy * 10, 65536));
                let tex: u8 = t1 ^ t2;
                let bright: i64 = brightness_from_dist(df);
                proof {
                    lemma_mul_upper_bound(tex as int, 255, bright as int, 65536);
                    vstd::arithmetic::div_mod::lemma_div_is_ordered(
                        tex as int * bright as int,
                        255int * 65536int,
                        65536int,
                    );
                    vstd::arithmetic::div_mod::lemma_div_pos_is_pos(
                        tex as int * bright as int,
                        65536,
                    );
                    assert(tex as int * bright as int >= 0) by (nonlinear_arith)
                        requires
                            tex as int >= 0,
                            bright >= 0,
                    ;
                }
                let c: i64 = (tex as i64) * bright / 65536;
                let cb: u8 = c as u8;
                proof {
                    reveal(flat_color_spec);
                    assert((0u8, cb, 0u8) == flat_color_spec(
                        elevation as int,
                        pos,
                        hit_pos,
                        cos_angle as int,
                        visplane as int,
                        (y as int) + look - (self.height as int) / 2,
                    ));
                }
                let ghost prev = self.pixels@;
                self.put_px(x, y, 0, cb, 0);
                proof {
                    assert forall|xx: int, yy: int|
                        #![trigger px_base(self.format, self.width as int, xx, yy)]
                        0 <= xx < self.width && 0 <= yy < self.height && (xx != x as int || yy
                            != y as int) implies px_eq(
                        self.pixels@,
                        prev,
                        self.format,
                        self.width as int,
                        xx,
                        yy,
                    ) by {
                        lemma_px_disjoint(
                            self.format,
                            self.width as int,
                            self.height as int,
                            xx,
                            yy,
                            x as int,
                            y as int,
                        );
                        lemma_px_bounds(self.format, self.width as int, self.height as int, xx, yy);
                    }
                }
            }
            y = y + 1;
        }
    }

    /// Copy a sky texture span into column `x`, rows `[top, bottom)`
    /// clipped to the screen; the sky is a bare 3-byte-per-pixel image
    /// of the same dimensions as the buffer.
    pub fn draw_sky(&mut self, sky: &Vec<u8>, x: usize, top: i64, bottom: i64)
        requires
            rc_wf(*old(self)),
            x < old(self).width,
            sky@.len() == 3 * (old(self).width * old(self).height),
            -0x4000_0000_0000 <= top <= 0x4000_0000_0000,
            -0x4000_0000_0000 <= bottom <= 0x4000_0000_0000,
        ensures
            rc_wf(*final(self)),
            rc_same_shape(*final(self), *old(self)),
            ({
                let (s, e) = col_range_spec(old(self).height as int, top as int, bottom as int);
                &&& outside_band_eq(
                    final(self).pixels@,
                    old(self).pixels@,
                    old(self).format,
                    old(self).width as int,
                    old(self).height as int,
                    x as int,
                    s,
                    e,
                )
                &&& forall|yy: int|
                    #![trigger px_base(old(self).format, old(self).width as int, x as int, yy)]
                    s <= yy < e ==> px_rgb(
                        final(self).pixels@,
                        old(self).format,
                        old(self).width as int,
                        x as int,
                        yy,
                    ) == (
                        sky@[3 * (old(self).width as int * yy + x as int)],
                        sky@[3 * (old(self).width as int * yy + x as int) + 1],
                        sky@[3 * (old(self).width as int * yy + x as int) + 2],
                    )
            }),
    {
        let rng: (usize, usize) = self.column_range(top, bottom);
        let s: usize = rng.0;
        let e: usize = rng.1;
        let sky_len: usize = sky.len();
        let mut y: usize = s;
        while y < e
            invariant
                s <= y,
                y <= e || y == s,
                e <= self.height,
                rc_wf(*self),
                rc_same_shape(*self, *old(self)),
                x < self.width,
                sky@.len() == 3 * (self.width * self.height),
                sky@.len() == sky_len,
                (s as int, e as int) == col_range_spec(self.height as int, top as int, bottom as int),
                outside_band_eq(
                    self.pixels@,
                    old(self).pixels@,
                    self.format,
                    self.width as int,
                    self.height as int,
                    x as int,
                    s as int,
                    e as int,
                ),
                forall|yy: int|
                    #![trigger px_base(self.format, self.width as int, x as int, yy)]
                    s <= yy < y ==> px_rgb(
                        self.pixels@,
                        self.format,
                        self.width as int,
                        x as int,
                        yy,
                    ) == (
                        sky@[3 * (self.width as int * yy + x as int)],
                        sky@[3 * (self.width as int * yy + x as int) + 1],
                        sky@[3 * (self.width as int * yy + x as int) + 2],
                    ),
            decreases e - y,
        {
            proof {
                assert(3 * (self.width as int * y as int + x as int) + 2 < 3 * (self.width as int
                    * self.height as int) && 0 <= 3 * (self.width as int * y as int + x as int))
                    by (nonlinear_arith)
                    requires
                        0 <= (x as int) && (x as int) < (self.width as int),
                        0 <= (y as int) && (y as int) < (self.height as int),
                        self.width <= 4096,
                        self.height <= 4096,
                ;
            }
            let c: (u8, u8, u8) = get_px(sky.as_slice(), x, y, self.width);
            let ghost prev = self.pixels@;
            self.put_px(x, y, c.0, c.1, c.2);
            proof {
                assert forall|xx: int, yy: int|
                    #![trigger px_base(self.format, self.width as int, xx, yy)]
                    0 <= xx < self.width && 0 <= yy < self.height && (xx != x as int || yy
                        != y as int) implies px_eq(
                    self.pixels@,
                    prev,
                    self.format,
                    self.width as int,
                    xx,
                    yy,
                ) by {
                    lemma_px_disjoint(
                        self.format,
                        self.width as int,
                        self.height as int,
                        xx,
                        yy,
                        x as int,
                        y as int,
                    );
                    lemma_px_bounds(self.format, self.width as int, self.height as int, xx, yy);
                }
            }
            y = y + 1;
        }
    }

    /// Draw a segment in screen space, centred on the middle of the
    /// buffer, one dot per unit of length; dots falling outside the
    /// buffer are skipped. Every pixel either keeps its old bytes or
    /// holds the given colour.
    pub fn draw_seg(&mut self, seg: crate::math::LineSeg, r: u8, g: u8, b: u8)
        requires
            rc_wf(*old(self)),
            crate::math::seg_bounded(seg, 0x2000_0000),
        ensures
            rc_wf(*final(self)),
            rc_same_shape(*final(self), *old(self)),
            forall|xx: int, yy: int|
                #![trigger px_base(final(self).format, final(self).width as int, xx, yy)]
                0 <= xx < final(self).width && 0 <= yy < final(self).height ==> px_eq(
                    final(self).pixels@,
                    old(self).pixels@,
                    final(self).format,
                    final(self).width as int,
                    xx,
                    yy,
                ) || px_rgb(
                    final(self).pixels@,
                    final(self).format,
                    final(self).width as int,
                    xx,
                    yy,
                ) == (r, g, b),
            ({
                let len = crate::math::v2_len_spec(
                    crate::math::Vec2 {
                        x: (seg.b.x - seg.a.x) as i64,
                        y: (seg.b.y - seg.a.y) as i64,
                    },
                );
                forall|t: int|
                    #![trigger seg_dot_spec(seg, len, t, old(self).width as int, old(self).height as int)]
                    0 <= t < len / 65536 ==> {
                        let dot = seg_dot_spec(
                            seg,
                            len,
                            t,
                            old(self).width as int,
                            old(self).height as int,
                        );
                        (0 <= dot.0 < old(self).width && 0 <= dot.1 < old(self).height) ==> px_rgb(
                            final(self).pixels@,
                            old(self).format,
                            old(self).width as int,
                            dot.0,
                            dot.1,
                        ) == (r, g, b)
                    }
            }),
            ({
                let len = crate::math::v2_len_spec(
                    crate::math::Vec2 {
                        x: (seg.b.x - seg.a.x) as i64,
                        y: (seg.b.y - seg.a.y) as i64,
                    },
                );
                forall|xx: int, yy: int|
                    #![trigger px_base(old(self).format, old(self).width as int, xx, yy)]
                    0 <= xx < old(self).width && 0 <= yy < old(self).height && (forall|t: int|
                        #![trigger seg_dot_spec(seg, len, t, old(self).width as int, old(self).height as int)]
                        0 <= t < len / 65536 ==> seg_dot_spec(
                            seg,
                            len,
                            t,
                            old(self).width as int,
                            old(self).height as int,
                        ) != (xx, yy)) ==> px_eq(
                        final(self).pixels@,
                        old(self).pixels@,
                        old(self).format,
                        old(self).width as int,
                        xx,
                        yy,
                    )
            }),
    {
        let len: i64 = seg.get_length();
        let steps: usize = (len / 65536) as usize;
        let mut t: usize = 0;
        while t < steps
            invariant
                t <= steps,
                rc_wf(*self),
                rc_same_shape(*self, *old(self)),
                crate::math::seg_bounded(seg, 0x2000_0000),
                len == crate::math::v2_len_spec(
                    crate::math::Vec2 {
                        x: (seg.b.x - seg.a.x) as i64,
                        y: (seg.b.y - seg.a.y) as i64,
                    },
                ),
                0 <= len <= 0x8000_0000,
                steps == len / 65536,
                forall|xx: int, yy: int|
                    #![trigger px_base(self.format, self.width as int, xx, yy)]
                    0 <= xx < self.width && 0 <= yy < self.height ==> px_eq(
                        self.pixels@,
                        old(self).pixels@,
                        self.format,
                        self.width as int,
                        xx,
                        yy,
                    ) || px_rgb(
                        self.pixels@,
                        self.format,
                        self.width as int,
                        xx,
                        yy,
                    ) == (r, g, b),
                forall|u: int|
                    #![trigger seg_dot_spec(seg, len as int, u, self.width as int, self.height as int)]
                    0 <= u < t ==> {
                        let dot = seg_dot_spec(seg, len as int, u, self.width as int, self.height as int);
                        (0 <= dot.0 < self.width && 0 <= dot.1 < self.height) ==> px_rgb(
                            self.pixels@,
                            self.format,
                            self.width as int,
                            dot.0,
                            dot.1,
                        ) == (r, g, b)
                    },
                forall|xx: int, yy: int|
                    #![trigger px_base(self.format, self.width as int, xx, yy)]
                    0 <= xx < self.width && 0 <= yy < self.height && (forall|u: int|
                        #![trigger seg_dot_spec(seg, len as int, u, self.width as int, self.height as int)]
                        0 <= u < t ==> seg_dot_spec(
                            seg,
                            len as int,
                            u,
                            self.width as int,
                            self.height as int,
                        ) != (xx, yy)) ==> px_eq(
                        self.pixels@,
                        old(self).pixels@,
                        self.format,
                        self.width as int,
                        xx,
                        yy,
                    ),
            decreases steps - t,
        {
            proof {
                vstd::arithmetic::div_mod::lemma_fundamental_div_mod(len as int, 65536);
                vstd::arithmetic::div_mod::lemma_mod_pos_bound(len as int, 65536);
                assert((t as int) * 65536 < len as int) by (nonlinear_arith)
                    requires
                        0 <= (t as int) && (t as int) < (len as int) / 65536,
                        len as int == 65536 * ((len as int) / 65536) + (len as int) % 65536,
                        0 <= (len as int) % 65536,
                ;
                assert(fx_abs((t as int) * 65536 * 65536) <= len as int * 65536)
                    by (nonlinear_arith)
                    requires
                        0 <= (t as int) * 65536 < len as int,
                ;
                crate::fixed::lemma_tdiv_abs_le(
                    (t as int) * 65536 * 65536,
                    len as int,
                    65536,
                );
                vstd::arithmetic::div_mod::lemma_div_pos_is_pos(
                    fx_abs((t as int) * 65536 * 65536),
                    len as int,
                );
            }
            let tf: i64 = (t as i64) * 65536;
            let param: i64 = fx_div(tf, len);
            let pt: crate::math::Vec2 = seg.at(param);
            let ux: i64 = crate::fixed::tdiv64(pt.x, 65536) + (self.width as i64) / 2;
            let uy: i64 = crate::fixed::tdiv64(pt.y, 65536) + (self.height as i64) / 2;
            proof {
                assert(tf as int * 65536 == t as int * 65536 * 65536) by (nonlinear_arith)
                    requires
                        tf == t as int * 65536,
                ;
                assert(seg_dot_spec(seg, len as int, t as int, self.width as int, self.height as int)
                    == (ux as int, uy as int));
            }
            if 0 <= ux && ux < self.width as i64 && 0 <= uy && uy < self.height as i64 {
                let ghost prev = self.pixels@;
                self.put_px(ux as usize, uy as usize, r, g, b);
                proof {
                    assert forall|xx: int, yy: int|
                        #![trigger px_base(self.format, self.width as int, xx, yy)]
                        0 <= xx < self.width && 0 <= yy < self.height && (xx != ux as int || yy
                            != uy as int) implies px_eq(
                        self.pixels@,
                        prev,
                        self.format,
                        self.width as int,
                        xx,
                        yy,
                    ) by {
                        lemma_px_disjoint(
                            self.format,
                            self.width as int,
                            self.height as int,
                            xx,
                            yy,
                            ux as int,
                            uy as int,
                        );
                        lemma_px_bounds(self.format, self.width as int, self.height as int, xx, yy);
                    }
                }
            }
            t = t + 1;
        }
    }
}

/// Paint the two wall spans (lower, then upper) of one hit into
/// column `x`. Rows in the upper span show its colour, remaining rows
/// of the lower span show its colour, everything else keeps its bytes.
#[verifier::rlimit(100)]
fn paint_wall_spans(
    ctx: &mut RenderContext,
    x: usize,
    dfwt: i64,
    dfwb: i64,
    fob: i64,
    dcwt: i64,
    dcwb: i64,
    along: i64,
    cast_dist: i64,
)
    requires
        rc_wf(*old(ctx)),
        x < old(ctx).width,
        0 <= along <= 0x8000_0000,
        1 <= cast_dist <= 0x2_0000_0000,
        0 <= fob <= 0x4000_0000_0000,
        -0x2000_0000_0000 <= dfwt <= 0x2000_0000_0000,
        -0x2000_0000_0000 <= dfwb <= 0x2000_0000_0000,
        -0x2000_0000_0000 <= dcwt <= 0x2000_0000_0000,
        -0x2000_0000_0000 <= dcwb <= 0x2000_0000_0000,
    ensures
        rc_wf(*final(ctx)),
        rc_same_shape(*final(ctx), *old(ctx)),
        forall|y: int|
            #![trigger px_base(old(ctx).format, old(ctx).width as int, x as int, y)]
            0 <= y < old(ctx).height ==> {
                let h = old(ctx).height as int;
                let b2 = col_range_spec(h, dcwt as int, dcwb as int);
                let b1 = col_range_spec(h, dfwt as int, dfwb as int);
                if b2.0 <= y < b2.1 {
                    px_rgb(final(ctx).pixels@, old(ctx).format, old(ctx).width as int, x as int, y)
                        == wall_color_spec(along as int, cast_dist as int, dcwb - y)
                } else if b1.0 <= y < b1.1 {
                    px_rgb(final(ctx).pixels@, old(ctx).format, old(ctx).width as int, x as int, y)
                        == wall_color_spec(along as int, cast_dist as int, dfwb + fob - y)
                } else {
                    px_eq(
                        final(ctx).pixels@,
                        old(ctx).pixels@,
                        old(ctx).format,
                        old(ctx).width as int,
                        x as int,
                        y,
                    )
                }
            },
        forall|xc: int, y: int|
            #![trigger px_base(old(ctx).format, old(ctx).width as int, xc, y)]
            0 <= xc < old(ctx).width && 0 <= y < old(ctx).height && xc != x as int ==> px_eq(
                final(ctx).pixels@,
                old(ctx).pixels@,
                old(ctx).format,
                old(ctx).width as int,
                xc,
                y,
            ),
{
    let ghost wv = ctx.width as int;
    let ghost hv = ctx.height as int;
    let ghost p0 = ctx.pixels@;
    ctx.draw_wall(x, dfwt, dfwb, fob, along, cast_dist);
    let ghost p1 = ctx.pixels@;
    ctx.draw_wall(x, dcwt, dcwb, 0, along, cast_dist);
    proof {
        let b2 = col_range_spec(hv, dcwt as int, dcwb as int);
        let b1 = col_range_spec(hv, dfwt as int, dfwb as int);
        assert forall|y: int|
            #![trigger px_base(ctx.format, wv, x as int, y)]
            0 <= y < hv implies {
            if b2.0 <= y < b2.1 {
                px_rgb(ctx.pixels@, ctx.format, wv, x as int, y) == wall_color_spec(
                    along as int,
                    cast_dist as int,
                    dcwb - y,
                )
            } else if b1.0 <= y < b1.1 {
                px_rgb(ctx.pixels@, ctx.format, wv, x as int, y) == wall_color_spec(
                    along as int,
                    cast_dist as int,
                    dfwb + fob - y,
                )
            } else {
                px_eq(ctx.pixels@, p0, ctx.format, wv, x as int, y)
            }
        } by {
            if b2.0 <= y < b2.1 {
            } else {
                assert(px_eq(ctx.pixels@, p1, ctx.format, wv, x as int, y));
            }
        }
        assert forall|xc: int, y: int|
            #![trigger px_base(ctx.format, wv, xc, y)]
            0 <= xc < wv && 0 <= y < hv && xc != x as int implies px_eq(
            ctx.pixels@,
            p0,
            ctx.format,
            wv,
            xc,
            y,
        ) by {
            assert(px_eq(p1, p0, ctx.format, wv, xc, y));
            assert(px_eq(ctx.pixels@, p1, ctx.format, wv, xc, y));
        }
    }
}

/// Paint the floor flat and the ceiling flat or sky of one hit into
/// column `x`. Ceiling rows show sky or ceiling-flat colour, remaining
/// floor rows the floor-flat colour, everything else keeps its bytes;
/// flat rows exactly at the horizon are left alone.
#[verifier::rlimit(100)]
fn paint_flat_spans(
    ctx: &mut RenderContext,
    x: usize,
    rt: i64,
    rb: i64,
    dfwb: i64,
    dcwt: i64,
    elev_floor: i64,
    elev_ceil: i64,
    sky_flag: bool,
    pos: crate::math::Vec2,
    hit_pos: crate::math::Vec2,
    cos_offset: i64,
    look_px: i64,
    vis: i64,
    sky: &Vec<u8>,
)
    requires
        rc_wf(*old(ctx)),
        x < old(ctx).width,
        sky@.len() == 3 * (old(ctx).width * old(ctx).height),
        -0x100_0000 <= elev_floor <= 0x100_0000,
        -0x100_0000 <= elev_ceil <= 0x100_0000,
        crate::math::v2_bounded(pos, crate::fixed::FX_LIM as int),
        crate::math::v2_bounded(hit_pos, crate::fixed::FX_LIM as int),
        hit_pos != pos,
        1 <= cos_offset <= 65536,
        -120 <= look_px <= 120,
        1 <= vis <= 100000,
        -0x1000_0000_0000 <= rt <= 0x1000_0000_0000,
        -0x1000_0000_0000 <= rb <= 0x1000_0000_0000,
        -0x2000_0000_0000 <= dfwb <= 0x2000_0000_0000,
        -0x2000_0000_0000 <= dcwt <= 0x2000_0000_0000,
    ensures
        rc_wf(*final(ctx)),
        rc_same_shape(*final(ctx), *old(ctx)),
        forall|y: int|
            #![trigger px_base(old(ctx).format, old(ctx).width as int, x as int, y)]
            0 <= y < old(ctx).height ==> {
                let h = old(ctx).height as int;
                let w = old(ctx).width as int;
                let b4 = col_range_spec(h, rt as int, dcwt as int);
                let b3 = col_range_spec(h, dfwb as int, rb as int);
                let rows_flat = y + look_px - h / 2;
                if b4.0 <= y < b4.1 && sky_flag {
                    px_rgb(final(ctx).pixels@, old(ctx).format, w, x as int, y) == (
                        sky@[3 * (w * y + x as int)],
                        sky@[3 * (w * y + x as int) + 1],
                        sky@[3 * (w * y + x as int) + 2],
                    )
                } else if b4.0 <= y < b4.1 && rows_flat != 0 {
                    px_rgb(final(ctx).pixels@, old(ctx).format, w, x as int, y)
                        == flat_color_spec(
                        elev_ceil as int,
                        pos,
                        hit_pos,
                        cos_offset as int,
                        vis as int,
                        rows_flat,
                    )
                } else if b3.0 <= y < b3.1 && rows_flat != 0 {
                    px_rgb(final(ctx).pixels@, old(ctx).format, w, x as int, y)
                        == flat_color_spec(
                        elev_floor as int,
                        pos,
                        hit_pos,
                        cos_offset as int,
                        vis as int,
                        rows_flat,
                    )
                } else {
                    px_eq(
                        final(ctx).pixels@,
                        old(ctx).pixels@,
                        old(ctx).format,
                        old(ctx).width as int,
                        x as int,
                        y,
                    )
                }
            },
        forall|xc: int, y: int|
            #![trigger px_base(old(ctx).format, old(ctx).width as int, xc, y)]
            0 <= xc < old(ctx).width && 0 <= y < old(ctx).height && xc != x as int ==> px_eq(
                final(ctx).pixels@,
                old(ctx).pixels@,
                old(ctx).format,
                old(ctx).width as int,
                xc,
                y,
            ),
{
    let ghost wv = ctx.width as int;
    let ghost hv = ctx.height as int;
    let ghost p0 = ctx.pixels@;
    ctx.draw_flat(x, dfwb, rb, elev_floor, pos, hit_pos, cos_offset, look_px, vis);
    let ghost p1 = ctx.pixels@;
    if sky_flag {
        ctx.draw_sky(sky, x, rt, dcwt);
    } else {
        ctx.draw_flat(x, rt, dcwt, elev_ceil, pos, hit_pos, cos_offset, look_px, vis);
    }
    proof {
        let b4 = col_range_spec(hv, rt as int, dcwt as int);
        let b3 = col_range_spec(hv, dfwb as int, rb as int);
        assert forall|y: int|
            #![trigger px_base(ctx.format, wv, x as int, y)]
            0 <= y < hv implies {
            let rows_flat = y + look_px - hv / 2;
            if b4.0 <= y < b4.1 && sky_flag {
                px_rgb(ctx.pixels@, ctx.format, wv, x as int, y) == (
                    sky@[3 * (wv * y + x as int)],
                    sky@[3 * (wv * y + x as int) + 1],
                    sky@[3 * (wv * y + x as int) + 2],
                )
            } else if b4.0 <= y < b4.1 && rows_flat != 0 {
                px_rgb(ctx.pixels@, ctx.format, wv, x as int, y) == flat_color_spec(
                    elev_ceil as int,
                    pos,
                    hit_pos,
                    cos_offset as int,
                    vis as int,
                    rows_flat,
                )
            } else if b3.0 <= y < b3.1 && rows_flat != 0 {
                px_rgb(ctx.pixels@, ctx.format, wv, x as int, y) == flat_color_spec(
                    elev_floor as int,
                    pos,
                    hit_pos,
                    cos_offset as int,
                    vis as int,
                    rows_flat,
                )
            } else {
                px_eq(ctx.pixels@, p0, ctx.format, wv, x as int, y)
            }
        } by {
            let rows_flat = y + look_px - hv / 2;
            if b4.0 <= y < b4.1 && sky_flag {
            } else if b4.0 <= y < b4.1 && rows_flat != 0 {
            } else {
                assert(px_eq(ctx.pixels@, p1, ctx.format, wv, x as int, y));
            }
        }
        assert forall|xc: int, y: int|
            #![trigger px_base(ctx.format, wv, xc, y)]
            0 <= xc < wv && 0 <= y < hv && xc != x as int implies px_eq(
            ctx.pixels@,
            p0,
            ctx.format,
            wv,
            xc,
            y,
        ) by {
            assert(px_eq(p1, p0, ctx.format, wv, xc, y));
            assert(px_eq(ctx.pixels@, p1, ctx.format, wv, xc, y));
        }
    }
}

/// Project one hit: its fisheye-corrected distance and the four raw
/// span boundaries (lower wall bottom/top, upper wall top/bottom).
/// `None` when the hit is at or behind the eye and paints nothing.
#[verifier::rlimit(100)]
fn project_hit(
    hit: crate::world::RayCastResult,
    pos: crate::math::Vec2,
    cos_offset: i64,
    look_px: i64,
    person_height: i64,
    vis: i64,
    h: usize,
) -> (sp: Option<(i64, i64, i64, i64, i64)>)
    requires
        h <= 4096,
        1 <= cos_offset <= 65536,
        -120 <= look_px <= 120,
        -0x80_0000 <= person_height <= 0x80_0000,
        1 <= vis <= 100000,
        crate::math::v2_bounded(pos, crate::fixed::FX_LIM as int),
        crate::math::v2_bounded(hit.hit_pos, crate::fixed::FX_LIM as int),
        -crate::world::ELEV_LIM <= hit.in_info.floor_elev < hit.in_info.ceiling_elev
            <= crate::world::ELEV_LIM,
        hit.out_info matches Some(oi) ==> -crate::world::ELEV_LIM <= oi.floor_elev
            < oi.ceiling_elev <= crate::world::ELEV_LIM,
    ensures
        (sp is Some) <==> !hit_skipped_spec(pos, hit, cos_offset as int),
        sp matches Some(v) ==> {
            let hv = h as int;
            let lookv = look_px as int;
            let phv = person_height as int;
            let visv = vis as int;
            let cosv = cos_offset as int;
            &&& v.0 as int == hit_cast_spec(pos, hit, cosv)
            &&& 1 <= v.0 <= 0x2_0000_0000
            &&& v.1 as int == hit_fwb_spec(pos, hit, cosv, hv, lookv, phv, visv)
            &&& v.2 as int == hit_fwt_spec(pos, hit, cosv, hv, lookv, phv, visv)
            &&& v.3 as int == hit_cwt_spec(pos, hit, cosv, hv, lookv, phv, visv)
            &&& v.4 as int == hit_cwb_spec(pos, hit, cosv, hv, lookv, phv, visv)
            &&& -0x2000_0000_0000 <= v.1 <= 0x2000_0000_0000
            &&& -0x2000_0000_0000 <= v.2 <= 0x2000_0000_0000
            &&& -0x2000_0000_0000 <= v.3 <= 0x2000_0000_0000
            &&& -0x2000_0000_0000 <= v.4 <= 0x2000_0000_0000
            &&& hit.hit_pos != pos
        },
{
    let ghost hv = h as int;
    let ghost cosv = cos_offset as int;
    let ghost lookv = look_px as int;
    let ghost phv = person_height as int;
    let ghost visv = vis as int;
    let dvec: crate::math::Vec2 = hit.hit_pos.sub(pos);
    let dist: i64 = dvec.get_length();
    proof {
        assert(fx_abs(dist as int * cos_offset as int) <= 65536 * dist) by (nonlinear_arith)
            requires
                0 <= dist,
                1 <= cos_offset <= 65536,
        ;
        lemma_tdiv_abs_le(dist as int * cos_offset as int, 65536, dist as int);
    }
    let cast_dist: i64 = fx_mul(dist, cos_offset);
    proof {
        reveal(hit_cast_spec);
        assert(cast_dist as int == hit_cast_spec(pos, hit, cosv));
    }
    if cast_dist >= 1 && !(hit.hit_pos.x == pos.x && hit.hit_pos.y == pos.y) {
        proof {
            reveal(hit_skipped_spec);
            assert(!hit_skipped_spec(pos, hit, cosv));
        }
        let fw_h: i64 = match hit.out_info {
            Some(oi) => oi.floor_elev - hit.in_info.floor_elev,
            None => hit.in_info.ceiling_elev - hit.in_info.floor_elev,
        };
        proof {
            lemma_vis_product(vis as int, fw_h as int);
            lemma_div_keeps_cap(vis as int * fw_h as int, cast_dist as int, 0x800_0000_0000);
        }
        let fw_px: i64 = if fw_h > 0 {
            crate::fixed::tdiv_i64(vis * fw_h, cast_dist)
        } else {
            0
        };
        let cw_h: i64 = match hit.out_info {
            Some(oi) => hit.in_info.ceiling_elev - oi.ceiling_elev,
            None => 0,
        };
        proof {
            lemma_vis_product(vis as int, cw_h as int);
            lemma_div_keeps_cap(vis as int * cw_h as int, cast_dist as int, 0x800_0000_0000);
        }
        let cw_px: i64 = if cw_h > 0 {
            crate::fixed::tdiv_i64(vis * cw_h, cast_dist)
        } else {
            0
        };
        let middle: i64 = (h as i64) / 2 + (-look_px);
        proof {
            lemma_vis_product(vis as int, person_height as int - hit.in_info.floor_elev as int);
            lemma_div_keeps_cap(
                vis as int * (person_height as int - hit.in_info.floor_elev as int),
                cast_dist as int,
                0x800_0000_0000,
            );
            lemma_vis_product(vis as int, person_height as int - hit.in_info.ceiling_elev as int);
            lemma_div_keeps_cap(
                vis as int * (person_height as int - hit.in_info.ceiling_elev as int),
                cast_dist as int,
                0x800_0000_0000,
            );
        }
        let floor_wall_bottom: i64 = middle + crate::fixed::tdiv_i64(
            vis * (person_height - hit.in_info.floor_elev),
            cast_dist,
        );
        let floor_wall_top: i64 = floor_wall_bottom - fw_px;
        let ceiling_wall_top: i64 = middle + crate::fixed::tdiv_i64(
            vis * (person_height - hit.in_info.ceiling_elev),
            cast_dist,
        );
        let ceiling_wall_bottom: i64 = ceiling_wall_top + cw_px;
        proof {
            reveal(hit_fwb_spec);
            reveal(hit_fw_px_spec);
            reveal(hit_fwt_spec);
            reveal(hit_cwt_spec);
            reveal(hit_cw_px_spec);
            reveal(hit_cwb_spec);
            assert(middle as int == hv / 2 + (-lookv));
            assert(floor_wall_bottom as int == hit_fwb_spec(pos, hit, cosv, hv, lookv, phv, visv));
            assert(fw_px as int == hit_fw_px_spec(pos, hit, cosv, visv));
            assert(floor_wall_top as int == hit_fwt_spec(pos, hit, cosv, hv, lookv, phv, visv));
            assert(cw_px as int == hit_cw_px_spec(pos, hit, cosv, visv));
            assert(ceiling_wall_top as int == hit_cwt_spec(pos, hit, cosv, hv, lookv, phv, visv));
            assert(ceiling_wall_bottom as int == hit_cwb_spec(pos, hit, cosv, hv, lookv, phv, visv));
        }
        Some((cast_dist, floor_wall_bottom, floor_wall_top, ceiling_wall_top, ceiling_wall_bottom))
    } else {
        proof {
            reveal(hit_skipped_spec);
            assert(hit_skipped_spec(pos, hit, cosv));
        }
        None
    }
}

/// Paint the four spans of one ray hit into column `x` under the
/// occlusion band `(render_top, render_bottom)`, and return the
/// shrunken band. Exactly realizes `hit_paint_spec` and
/// `band_step_spec`; hits at or behind the eye paint nothing.
#[verifier::rlimit(100)]
fn paint_hit(
    ctx: &mut RenderContext,
    x: usize,
    hit: crate::world::RayCastResult,
    pos: crate::math::Vec2,
    cos_offset: i64,
    look_px: i64,
    person_height: i64,
    vis: i64,
    sky: &Vec<u8>,
    render_top: i64,
    render_bottom: i64,
) -> (nb: (i64, i64))
    requires
        rc_wf(*old(ctx)),
        x < old(ctx).width,
        sky@.len() == 3 * (old(ctx).width * old(ctx).height),
        1 <= cos_offset <= 65536,
        -120 <= look_px <= 120,
        -0x80_0000 <= person_height <= 0x80_0000,
        1 <= vis <= 100000,
        crate::math::v2_bounded(pos, crate::fixed::FX_LIM as int),
        crate::math::v2_bounded(hit.hit_pos, crate::fixed::FX_LIM as int),
        0 <= hit.along <= 0x8000_0000,
        -crate::world::ELEV_LIM <= hit.in_info.floor_elev < hit.in_info.ceiling_elev
            <= crate::world::ELEV_LIM,
        hit.out_info matches Some(oi) ==> -crate::world::ELEV_LIM <= oi.floor_elev
            < oi.ceiling_elev <= crate::world::ELEV_LIM,
        -0x1000_0000_0000 <= render_top <= 0x1000_0000_0000,
        -0x1000_0000_0000 <= render_bottom <= 0x1000_0000_0000,
    ensures
        rc_wf(*final(ctx)),
        rc_same_shape(*final(ctx), *old(ctx)),
        (nb.0 as int, nb.1 as int) == band_step_spec(
            pos,
            hit,
            cos_offset as int,
            old(ctx).height as int,
            look_px as int,
            person_height as int,
            vis as int,
            render_top as int,
            render_bottom as int,
        ),
        -0x1000_0000_0000 <= nb.0 <= 0x1000_0000_0000,
        -0x1000_0000_0000 <= nb.1 <= 0x1000_0000_0000,
        forall|y: int|
            #![trigger px_base(old(ctx).format, old(ctx).width as int, x as int, y)]
            0 <= y < old(ctx).height ==> match hit_paint_spec(
                pos,
                hit,
                cos_offset as int,
                old(ctx).height as int,
                look_px as int,
                person_height as int,
                vis as int,
                sky@,
                old(ctx).width as int,
                x as int,
                render_top as int,
                render_bottom as int,
                y,
            ) {
                Some(c) => px_rgb(
                    final(ctx).pixels@,
                    old(ctx).format,
                    old(ctx).width as int,
                    x as int,
                    y,
                ) == c,
                None => px_eq(
                    final(ctx).pixels@,
                    old(ctx).pixels@,
                    old(ctx).format,
                    old(ctx).width as int,
                    x as int,
                    y,
                ),
            },
        forall|xc: int, y: int|
            #![trigger px_base(old(ctx).format, old(ctx).width as int, xc, y)]
            0 <= xc < old(ctx).width && 0 <= y < old(ctx).height && xc != x as int ==> px_eq(
                final(ctx).pixels@,
                old(ctx).pixels@,
                old(ctx).format,
                old(ctx).width as int,
                xc,
                y,
            ),
{
    let w: usize = ctx.width;
    let h: usize = ctx.height;
    let ghost wv = w as int;
    let ghost hv = h as int;
    let ghost cosv = cos_offset as int;
    let ghost lookv = look_px as int;
    let ghost phv = person_height as int;
    let ghost visv = vis as int;
    let ghost rt = render_top as int;
    let ghost rb = render_bottom as int;
    let proj: Option<(i64, i64, i64, i64, i64)> = project_hit(
        hit,
        pos,
        cos_offset,
        look_px,
        person_height,
        vis,
        h,
    );
    match proj {
        Some(sp) => {
            let cast_dist: i64 = sp.0;
            let floor_wall_bottom: i64 = sp.1;
            let floor_wall_top: i64 = sp.2;
            let ceiling_wall_top: i64 = sp.3;
            let ceiling_wall_bottom: i64 = sp.4;
            let floor_wall_offset_bottom: i64 = if floor_wall_bottom > render_bottom {
                floor_wall_bottom - render_bottom
            } else {
                0
            };
            let draw_floor_wall_top: i64 = if floor_wall_top < render_top {
                render_top
            } else {
                floor_wall_top
            };
            let draw_floor_wall_bottom: i64 = if floor_wall_bottom > render_bottom {
                render_bottom
            } else {
                floor_wall_bottom
            };
            let draw_ceiling_wall_top: i64 = if ceiling_wall_top < render_top {
                render_top
            } else {
                ceiling_wall_top
            };
            let draw_ceiling_wall_bottom: i64 = if ceiling_wall_bottom > render_bottom {
                render_bottom
            } else {
                ceiling_wall_bottom
            };
            let ghost iter0 = ctx.pixels@;
            paint_wall_spans(
                ctx,
                x,
                draw_floor_wall_top,
                draw_floor_wall_bottom,
                floor_wall_offset_bottom,
                draw_ceiling_wall_top,
                draw_ceiling_wall_bottom,
                hit.along,
                cast_dist,
            );
            let ghost p2 = ctx.pixels@;
            paint_flat_spans(
                ctx,
                x,
                render_top,
                render_bottom,
                draw_floor_wall_bottom,
                draw_ceiling_wall_top,
                person_height - hit.in_info.floor_elev,
                person_height - hit.in_info.ceiling_elev,
                hit.in_info.ceiling_elev > 1441792,
                pos,
                hit.hit_pos,
                cos_offset,
                look_px,
                vis,
                sky,
            );
            proof {
                let dfwt = draw_floor_wall_top as int;
                let dfwb = draw_floor_wall_bottom as int;
                let dcwt = draw_ceiling_wall_top as int;
                let dcwb = draw_ceiling_wall_bottom as int;
                let fob = floor_wall_offset_bottom as int;
                let b4 = col_range_spec(hv, rt, dcwt);
                let b3 = col_range_spec(hv, dfwb, rb);
                let b2 = col_range_spec(hv, dcwt, dcwb);
                let b1 = col_range_spec(hv, dfwt, dfwb);
                assert forall|y: int|
                    #![trigger px_base(ctx.format, wv, x as int, y)]
                    0 <= y < hv implies (match hit_paint_spec(
                    pos,
                    hit,
                    cosv,
                    hv,
                    lookv,
                    phv,
                    visv,
                    sky@,
                    wv,
                    x as int,
                    rt,
                    rb,
                    y,
                ) {
                    Some(c) => px_rgb(ctx.pixels@, ctx.format, wv, x as int, y) == c,
                    None => px_eq(ctx.pixels@, iter0, ctx.format, wv, x as int, y),
                }) by {
                    let rows_flat = y + lookv - hv / 2;
                    if b4.0 <= y < b4.1 && hit.in_info.ceiling_elev > 1441792 {
                    } else if b4.0 <= y < b4.1 && rows_flat != 0 {
                    } else if b3.0 <= y < b3.1 && rows_flat != 0 {
                    } else {
                        assert(px_eq(ctx.pixels@, p2, ctx.format, wv, x as int, y));
                        if b2.0 <= y < b2.1 {
                        } else if b1.0 <= y < b1.1 {
                        } else {
                            assert(px_eq(p2, iter0, ctx.format, wv, x as int, y));
                        }
                    }
                }
                assert forall|xc: int, y: int|
                    #![trigger px_base(ctx.format, wv, xc, y)]
                    0 <= xc < wv && 0 <= y < hv && xc != x as int implies px_eq(
                    ctx.pixels@,
                    iter0,
                    ctx.format,
                    wv,
                    xc,
                    y,
                ) by {
                    assert(px_eq(p2, iter0, ctx.format, wv, xc, y));
                    assert(px_eq(ctx.pixels@, p2, ctx.format, wv, xc, y));
                }
            }
            let new_top: i64 = if ceiling_wall_bottom < -0x1000_0000_0000 {
                -0x1000_0000_0000
            } else if ceiling_wall_bottom > 0x1000_0000_0000 {
                0x1000_0000_0000
            } else {
                ceiling_wall_bottom
            };
            let new_bottom: i64 = if floor_wall_top < -0x1000_0000_0000 {
                -0x1000_0000_0000
            } else if floor_wall_top > 0x1000_0000_0000 {
                0x1000_0000_0000
            } else {
                floor_wall_top
            };
            (new_top, new_bottom)
        },
        None => (render_top, render_bottom),
    }
}

/// The renderer's projection parameters: pixels of horizontal offset
/// per radian of view angle, the projection-plane distance in pixels,
/// and the viewer's eye height above the floor.
#[derive(Clone, Copy, Debug)]
pub struct RenderConfig {
    pub fov_scale: i64,
    pub visplane_dist: i64,
    pub person_height: i64,
}

/// Acceptable projection parameters.
pub open spec fn config_wf(c: RenderConfig) -> bool {
    &&& 1 <= c.fov_scale <= 100000
    &&& 1 <= c.visplane_dist <= 100000
    &&& 0 <= c.person_height <= crate::world::ELEV_LIM
}

impl Default for RenderConfig {
    /// The documented defaults: a 300-pixel field-of-view scale and
    /// projection plane, and an eye height of five units.
    fn default() -> (r: RenderConfig)
        ensures
            r.fov_scale == 300,
            r.visplane_dist == 300,
            r.person_height == 327680,
            config_wf(r),
    {
        RenderConfig { fov_scale: 300, visplane_dist: 300, person_height: 327680 }
    }
}

/// A quotient by a positive divisor keeps any magnitude bound of its
/// dividend.
proof fn lemma_div_keeps_cap(n: int, d: int, cap: int)
    requires
        d >= 1,
        0 <= cap,
        fx_abs(n) <= cap,
    ensures
        fx_abs(tdiv(n, d)) <= cap,
{
    lemma_mul_inequality(1, d, cap);
    lemma_tdiv_abs_le(n, d, cap);
}

/// The entrywise fixed-point matrix product, as `Mat3::mul` computes it.
pub open spec fn m3_mul_spec(a: crate::math::Mat3, b: crate::math::Mat3) -> crate::math::Mat3 {
    crate::math::Mat3 {
        a00: (tdiv(a.a00 * b.a00 + a.a01 * b.a10 + a.a02 * b.a20, 65536)) as i64,
        a01: (tdiv(a.a00 * b.a01 + a.a01 * b.a11 + a.a02 * b.a21, 65536)) as i64,
        a02: (tdiv(a.a00 * b.a02 + a.a01 * b.a12 + a.a02 * b.a22, 65536)) as i64,
        a10: (tdiv(a.a10 * b.a00 + a.a11 * b.a10 + a.a12 * b.a20, 65536)) as i64,
        a11: (tdiv(a.a10 * b.a01 + a.a11 * b.a11 + a.a12 * b.a21, 65536)) as i64,
        a12: (tdiv(a.a10 * b.a02 + a.a11 * b.a12 + a.a12 * b.a22, 65536)) as i64,
        a20: (tdiv(a.a20 * b.a00 + a.a21 * b.a10 + a.a22 * b.a20, 65536)) as i64,
        a21: (tdiv(a.a20 * b.a01 + a.a21 * b.a11 + a.a22 * b.a21, 65536)) as i64,
        a22: (tdiv(a.a20 * b.a02 + a.a21 * b.a12 + a.a22 * b.a22, 65536)) as i64,
    }
}

/// The overhead-map transform: rotate by the opposite facing angle,
/// translate by twice the opposite viewer position, scale by two.
pub open spec fn map_matrix_spec(g: crate::game::Game) -> crate::math::Mat3 {
    let rot = crate::math::Mat3 {
        a00: (cos_fx_spec(-g.face_angle)) as i64,
        a01: (-sin_fx_spec(-g.face_angle)) as i64,
        a02: 0,
        a10: (sin_fx_spec(-g.face_angle)) as i64,
        a11: (cos_fx_spec(-g.face_angle)) as i64,
        a12: 0,
        a20: 0,
        a21: 0,
        a22: 65536,
    };
    let trans = crate::math::Mat3 {
        a00: 65536,
        a01: 0,
        a02: (fx_mul_spec(-g.pos.x, 131072)) as i64,
        a10: 0,
        a11: 65536,
        a12: (fx_mul_spec(-g.pos.y, 131072)) as i64,
        a20: 0,
        a21: 0,
        a22: 65536,
    };
    let scl = crate::math::Mat3 {
        a00: 131072,
        a01: 0,
        a02: 0,
        a10: 0,
        a11: 131072,
        a12: 0,
        a20: 0,
        a21: 0,
        a22: 65536,
    };
    m3_mul_spec(m3_mul_spec(rot, trans), scl)
}

/// A wall's boundary segment as the overhead map draws it.
pub open spec fn map_seg_spec(g: crate::game::Game, wl: crate::world::Wall) -> crate::math::LineSeg {
    crate::math::LineSeg {
        a: crate::math::m3_apply_spec(map_matrix_spec(g), wl.seg.a),
        b: crate::math::m3_apply_spec(map_matrix_spec(g), wl.seg.b),
    }
}

/// Whether wall `i` of the first sector, drawn on the overhead map,
/// puts a dot on pixel `(x, y)`. A wall whose transformed segment
/// leaves the drawable coordinate range is skipped whole.
pub open spec fn map_wall_dot_covers(
    secs: Seq<crate::world::Sector>,
    g: crate::game::Game,
    i: int,
    w: int,
    h: int,
    x: int,
    y: int,
) -> bool {
    let sg = map_seg_spec(g, secs[0].walls@[i]);
    let len = crate::math::v2_len_spec(
        crate::math::Vec2 { x: (sg.b.x - sg.a.x) as i64, y: (sg.b.y - sg.a.y) as i64 },
    );
    &&& crate::math::seg_bounded(sg, 0x2000_0000)
    &&& exists|t: int|
        #![trigger seg_dot_spec(sg, len, t, w, h)]
        0 <= t < len / 65536 && seg_dot_spec(sg, len, t, w, h) == (x, y)
}

/// Whether pixel `(x, y)` carries a dot of one of the first `n` walls
/// of the first sector, drawn on the overhead map.
pub open spec fn map_wall_dot_spec(
    secs: Seq<crate::world::Sector>,
    g: crate::game::Game,
    n: int,
    w: int,
    h: int,
    x: int,
    y: int,
) -> bool {
    exists|i: int|
        0 <= i < n && i < secs[0].walls@.len() && #[trigger] map_wall_dot_covers(
            secs,
            g,
            i,
            w,
            h,
            x,
            y,
        )
}


/// The angular offset of screen column `x` for a width-`w` screen:
/// its horizontal distance from the screen centre, divided by the
/// field-of-view scale.
pub open spec fn col_offset_spec(x: int, w: int, fov: int) -> int {
    tdiv((x - w / 2) * 65536, fov)
}

/// The ray-cast trace seen through screen column `x`.
pub open spec fn column_trace_spec(
    secs: Seq<crate::world::Sector>,
    g: crate::game::Game,
    cfg: RenderConfig,
    w: int,
    x: int,
) -> Seq<crate::world::RayCastResult> {
    let off = col_offset_spec(x, w, cfg.fov_scale as int);
    crate::world::cast_trace_spec(
        secs,
        g.sector.0 as int,
        None,
        g.pos,
        crate::world::RAY_REACH as int * sin_fx_spec(g.face_angle + off),
        -(crate::world::RAY_REACH as int * cos_fx_spec(g.face_angle + off)),
        crate::world::MAX_PORTAL_HOPS as nat,
    )
}

/// The fisheye-corrected distance of a hit.
#[verifier::opaque]
pub open spec fn hit_cast_spec(pos: crate::math::Vec2, hit: crate::world::RayCastResult, cos: int) -> int {
    fx_mul_spec(
        crate::math::v2_len_spec(
            crate::math::Vec2 { x: (hit.hit_pos.x - pos.x) as i64, y: (hit.hit_pos.y - pos.y) as i64 },
        ),
        cos,
    )
}

/// A hit too close to paint: at or behind the eye.
#[verifier::opaque]
pub open spec fn hit_skipped_spec(pos: crate::math::Vec2, hit: crate::world::RayCastResult, cos: int) -> bool {
    hit_cast_spec(pos, hit, cos) < 1 || hit.hit_pos == pos
}

/// The projected bottom row of the lower wall span.
#[verifier::opaque]
pub open spec fn hit_fwb_spec(pos: crate::math::Vec2, hit: crate::world::RayCastResult, cos: int, h: int, look: int, ph: int, vis: int) -> int {
    h / 2 + (-look) + tdiv(vis * (ph - hit.in_info.floor_elev), hit_cast_spec(pos, hit, cos))
}

/// The pixel height of the lower wall span.
#[verifier::opaque]
pub open spec fn hit_fw_px_spec(pos: crate::math::Vec2, hit: crate::world::RayCastResult, cos: int, vis: int) -> int {
    let fh = match hit.out_info {
        Some(oi) => oi.floor_elev - hit.in_info.floor_elev,
        None => hit.in_info.ceiling_elev - hit.in_info.floor_elev,
    };
    if fh > 0 {
        tdiv(vis * fh, hit_cast_spec(pos, hit, cos))
    } else {
        0
    }
}

/// The projected top row of the lower wall span.
#[verifier::opaque]
pub open spec fn hit_fwt_spec(pos: crate::math::Vec2, hit: crate::world::RayCastResult, cos: int, h: int, look: int, ph: int, vis: int) -> int {
    hit_fwb_spec(pos, hit, cos, h, look, ph, vis) - hit_fw_px_spec(pos, hit, cos, vis)
}

/// The projected top row of the upper wall span.
#[verifier::opaque]
pub open spec fn hit_cwt_spec(pos: crate::math::Vec2, hit: crate::world::RayCastResult, cos: int, h: int, look: int, ph: int, vis: int) -> int {
    h / 2 + (-look) + tdiv(vis * (ph - hit.in_info.ceiling_elev), hit_cast_spec(pos, hit, cos))
}

/// The pixel height of the upper wall span.
#[verifier::opaque]
pub open spec fn hit_cw_px_spec(pos: crate::math::Vec2, hit: crate::world::RayCastResult, cos: int, vis: int) -> int {
    let ch = match hit.out_info {
        Some(oi) => hit.in_info.ceiling_elev - oi.ceiling_elev,
        None => 0,
    };
    if ch > 0 {
        tdiv(vis * ch, hit_cast_spec(pos, hit, cos))
    } else {
        0
    }
}

/// The projected bottom row of the upper wall span.
#[verifier::opaque]
pub open spec fn hit_cwb_spec(pos: crate::math::Vec2, hit: crate::world::RayCastResult, cos: int, h: int, look: int, ph: int, vis: int) -> int {
    hit_cwt_spec(pos, hit, cos, h, look, ph, vis) + hit_cw_px_spec(pos, hit, cos, vis)
}

/// How one hit shrinks the occlusion band (kept within the renderer's
/// working row range).
pub open spec fn band_step_spec(pos: crate::math::Vec2, hit: crate::world::RayCastResult, cos: int, h: int, look: int, ph: int, vis: int, rt: int, rb: int) -> (int, int) {
    if hit_skipped_spec(pos, hit, cos) {
        (rt, rb)
    } else {
        (
            fx_clamp(hit_cwb_spec(pos, hit, cos, h, look, ph, vis), -0x1000_0000_0000, 0x1000_0000_0000),
            fx_clamp(hit_fwt_spec(pos, hit, cos, h, look, ph, vis), -0x1000_0000_0000, 0x1000_0000_0000),
        )
    }
}

/// The occlusion band on entry to hit `k` of a trace.
pub open spec fn band_at_spec(hits: Seq<crate::world::RayCastResult>, k: int, pos: crate::math::Vec2, cos: int, h: int, look: int, ph: int, vis: int) -> (int, int)
    decreases k,
{
    if k <= 0 {
        (0, h)
    } else {
        let prev = band_at_spec(hits, k - 1, pos, cos, h, look, ph, vis);
        band_step_spec(pos, hits[k - 1], cos, h, look, ph, vis, prev.0, prev.1)
    }
}

/// What one hit paints at row `y` of its column, given the occlusion
/// band `(rt, rb)`: its four spans in reverse drawing order, so the
/// last-drawn span shows. `None` where the hit leaves the row alone.
pub open spec fn hit_paint_spec(
    pos: crate::math::Vec2,
    hit: crate::world::RayCastResult,
    cos: int,
    h: int,
    look: int,
    ph: int,
    vis: int,
    skyv: Seq<u8>,
    w: int,
    x: int,
    rt: int,
    rb: int,
    y: int,
) -> Option<(u8, u8, u8)> {
    if hit_skipped_spec(pos, hit, cos) {
        None
    } else {
        let cast = hit_cast_spec(pos, hit, cos);
        let fwb = hit_fwb_spec(pos, hit, cos, h, look, ph, vis);
        let fwt = hit_fwt_spec(pos, hit, cos, h, look, ph, vis);
        let cwt = hit_cwt_spec(pos, hit, cos, h, look, ph, vis);
        let cwb = hit_cwb_spec(pos, hit, cos, h, look, ph, vis);
        let fob = if fwb > rb {
            fwb - rb
        } else {
            0
        };
        let dfwt = if fwt < rt {
            rt
        } else {
            fwt
        };
        let dfwb = if fwb > rb {
            rb
        } else {
            fwb
        };
        let dcwt = if cwt < rt {
            rt
        } else {
            cwt
        };
        let dcwb = if cwb > rb {
            rb
        } else {
            cwb
        };
        let b4 = col_range_spec(h, rt, dcwt);
        let b3 = col_range_spec(h, dfwb, rb);
        let b2 = col_range_spec(h, dcwt, dcwb);
        let b1 = col_range_spec(h, dfwt, dfwb);
        let rows_flat = y + look - h / 2;
        if b4.0 <= y < b4.1 && hit.in_info.ceiling_elev > 1441792 {
            Some((skyv[3 * (w * y + x)], skyv[3 * (w * y + x) + 1], skyv[3 * (w * y + x) + 2]))
        } else if b4.0 <= y < b4.1 && rows_flat != 0 {
            Some(flat_color_spec(ph - hit.in_info.ceiling_elev, pos, hit.hit_pos, cos, vis, rows_flat))
        } else if b3.0 <= y < b3.1 && rows_flat != 0 {
            Some(flat_color_spec(ph - hit.in_info.floor_elev, pos, hit.hit_pos, cos, vis, rows_flat))
        } else if b2.0 <= y < b2.1 {
            Some(wall_color_spec(hit.along as int, cast, dcwb - y))
        } else if b1.0 <= y < b1.1 {
            Some(wall_color_spec(hit.along as int, cast, dfwb + fob - y))
        } else {
            None
        }
    }
}

/// What the first `k` hits of a trace leave at row `y`: the latest
/// hit that paints the row wins; `None` where none of them does.
pub open spec fn trace_paint_spec(
    hits: Seq<crate::world::RayCastResult>,
    k: int,
    pos: crate::math::Vec2,
    cos: int,
    h: int,
    look: int,
    ph: int,
    vis: int,
    skyv: Seq<u8>,
    w: int,
    x: int,
    y: int,
) -> Option<(u8, u8, u8)>
    decreases k,
{
    if k <= 0 {
        None
    } else {
        let band = band_at_spec(hits, k - 1, pos, cos, h, look, ph, vis);
        let cur = hit_paint_spec(pos, hits[k - 1], cos, h, look, ph, vis, skyv, w, x, band.0, band.1, y);
        if cur is Some {
            cur
        } else {
            trace_paint_spec(hits, k - 1, pos, cos, h, look, ph, vis, skyv, w, x, y)
        }
    }
}

/// What the first-person renderer paints at pixel `(x, y)` before the
/// crosshair overlay: the column's trace folded near to far, the
/// sky/floor fallback when the trace is empty, nothing when the
/// column's view cosine vanishes. `None` means the pixel keeps its
/// old bytes.
pub open spec fn column_paint_spec(
    secs: Seq<crate::world::Sector>,
    g: crate::game::Game,
    cfg: RenderConfig,
    skyv: Seq<u8>,
    w: int,
    h: int,
    x: int,
    y: int,
) -> Option<(u8, u8, u8)> {
    let off = col_offset_spec(x, w, cfg.fov_scale as int);
    let cos = cos_fx_spec(off);
    if cos < 1 {
        None
    } else {
        let hits = column_trace_spec(secs, g, cfg, w, x);
        let look = tdiv(g.look_angle as int, 65536);
        let ph = cfg.person_height + secs[g.sector.0 as int].info.floor_elev;
        if hits.len() == 0 {
            if 0 <= y < h / 2 {
                Some((skyv[3 * (w * y + x)], skyv[3 * (w * y + x) + 1], skyv[3 * (w * y + x) + 2]))
            } else if h / 2 <= y < h {
                Some((0u8, 64u8, 0u8))
            } else {
                None
            }
        } else {
            trace_paint_spec(
                hits,
                hits.len() as int,
                g.pos,
                cos,
                h,
                look,
                ph,
                cfg.visplane_dist as int,
                skyv,
                w,
                x,
                y,
            )
        }
    }
}

/// The vertical stroke of the crosshair.
pub open spec fn crosshair_v_seg() -> crate::math::LineSeg {
    crate::math::LineSeg {
        a: crate::math::Vec2 { x: 0, y: -196608i64 },
        b: crate::math::Vec2 { x: 0, y: 262144 },
    }
}

/// The horizontal stroke of the crosshair.
pub open spec fn crosshair_h_seg() -> crate::math::LineSeg {
    crate::math::LineSeg {
        a: crate::math::Vec2 { x: -196608i64, y: 0 },
        b: crate::math::Vec2 { x: 262144, y: 0 },
    }
}

/// Whether a drawn stroke puts a dot on pixel `(x, y)`.
pub open spec fn crosshair_covers_spec(sg: crate::math::LineSeg, w: int, h: int, x: int, y: int) -> bool {
    let len = crate::math::v2_len_spec(
        crate::math::Vec2 { x: (sg.b.x - sg.a.x) as i64, y: (sg.b.y - sg.a.y) as i64 },
    );
    exists|t: int|
        #![trigger seg_dot_spec(sg, len, t, w, h)]
        0 <= t < len / 65536 && seg_dot_spec(sg, len, t, w, h) == (x, y)
}

impl crate::game::Game {
    /// Render one frame: the overhead map when it is toggled on, the
    /// first-person view otherwise.
    pub fn render(&self, world: &crate::world::World, cfg: &RenderConfig, sky: &Vec<u8>, ctx: &mut RenderContext)
        requires
            crate::world::world_wf(world.sectors@),
            crate::game::game_wf(*self, world.sectors@),
            config_wf(*cfg),
            rc_wf(*old(ctx)),
            sky@.len() == 3 * (old(ctx).width * old(ctx).height),
        ensures
            rc_wf(*final(ctx)),
            rc_same_shape(*final(ctx), *old(ctx)),
            !self.show_map && 160 < old(ctx).width && 120 < old(ctx).height ==> px_rgb(
                final(ctx).pixels@,
                old(ctx).format,
                old(ctx).width as int,
                160,
                120,
            ) == (0u8, 0u8, 0u8),
            self.show_map && 0 < old(ctx).width && 0 < old(ctx).height ==> px_rgb(
                final(ctx).pixels@,
                old(ctx).format,
                old(ctx).width as int,
                old(ctx).width as int / 2,
                old(ctx).height as int / 2,
            ) == (0xFFu8, 0u8, 0u8),
            !self.show_map ==> forall|x: int, y: int|
                #![trigger px_base(old(ctx).format, old(ctx).width as int, x, y)]
                0 <= x < old(ctx).width && 0 <= y < old(ctx).height ==> {
                    let wv = old(ctx).width as int;
                    let hv = old(ctx).height as int;
                    if 160 < wv && 120 < hv && x == 160 && y == 120 {
                        px_rgb(final(ctx).pixels@, old(ctx).format, wv, x, y) == (0u8, 0u8, 0u8)
                    } else if crosshair_covers_spec(crosshair_v_seg(), wv, hv, x, y)
                        || crosshair_covers_spec(crosshair_h_seg(), wv, hv, x, y) {
                        px_rgb(final(ctx).pixels@, old(ctx).format, wv, x, y) == (
                            255u8,
                            255u8,
                            255u8,
                        )
                    } else {
                        match column_paint_spec(world.sectors@, *self, *cfg, sky@, wv, hv, x, y) {
                            Some(c) => px_rgb(final(ctx).pixels@, old(ctx).format, wv, x, y) == c,
                            None => px_eq(
                                final(ctx).pixels@,
                                old(ctx).pixels@,
                                old(ctx).format,
                                wv,
                                x,
                                y,
                            ),
                        }
                    }
                },
            self.show_map ==> forall|x: int, y: int|
                #![trigger px_base(old(ctx).format, old(ctx).width as int, x, y)]
                0 <= x < old(ctx).width && 0 <= y < old(ctx).height ==> px_rgb(
                    final(ctx).pixels@,
                    old(ctx).format,
                    old(ctx).width as int,
                    x,
                    y,
                ) == (if (x == old(ctx).width as int / 2 && y == old(ctx).height as int / 2)
                    || map_wall_dot_spec(
                    world.sectors@,
                    *self,
                    world.sectors@[0].walls@.len() as int,
                    old(ctx).width as int,
                    old(ctx).height as int,
                    x,
                    y,
                ) {
                    (0xFFu8, 0u8, 0u8)
                } else {
                    (0u8, 0u8, 0u8)
                }),
    {
        if self.show_map {
            self.render_map(world, ctx);
        } else {
            self.render_game(world, cfg, sky, ctx);
        }
    }

    /// Render the overhead map: every wall of the first sector, scaled
    /// and rotated about the viewer, who is marked at the centre of the
    /// screen.
    pub fn render_map(&self, world: &crate::world::World, ctx: &mut RenderContext)
        requires
            crate::world::world_wf(world.sectors@),
            crate::game::game_wf(*self, world.sectors@),
            rc_wf(*old(ctx)),
        ensures
            rc_wf(*final(ctx)),
            rc_same_shape(*final(ctx), *old(ctx)),
            forall|x: int, y: int|
                #![trigger px_base(old(ctx).format, old(ctx).width as int, x, y)]
                0 <= x < old(ctx).width && 0 <= y < old(ctx).height ==> px_rgb(
                    final(ctx).pixels@,
                    old(ctx).format,
                    old(ctx).width as int,
                    x,
                    y,
                ) == (if (x == old(ctx).width as int / 2 && y == old(ctx).height as int / 2)
                    || map_wall_dot_spec(
                    world.sectors@,
                    *self,
                    world.sectors@[0].walls@.len() as int,
                    old(ctx).width as int,
                    old(ctx).height as int,
                    x,
                    y,
                ) {
                    (0xFFu8, 0u8, 0u8)
                } else {
                    (0u8, 0u8, 0u8)
                }),
            0 < old(ctx).width && 0 < old(ctx).height ==> px_rgb(
                final(ctx).pixels@,
                old(ctx).format,
                old(ctx).width as int,
                old(ctx).width as int / 2,
                old(ctx).height as int / 2,
            ) == (0xFFu8, 0u8, 0u8),
    {
        let rot: crate::math::Mat3 = crate::math::Mat3::rotation(-self.face_angle);
        proof {
            assert(fx_abs(self.pos.x as int * -131072) <= 65536int * 0x2000_0000)
                by (nonlinear_arith)
                requires
                    -0x1000_0000 <= self.pos.x <= 0x1000_0000,
            ;
            assert(fx_abs(self.pos.y as int * -131072) <= 65536int * 0x2000_0000)
                by (nonlinear_arith)
                requires
                    -0x1000_0000 <= self.pos.y <= 0x1000_0000,
            ;
            lemma_tdiv_abs_le(self.pos.x as int * -131072, 65536, 0x2000_0000);
            lemma_tdiv_abs_le(self.pos.y as int * -131072, 65536, 0x2000_0000);
        }
        let t: crate::math::Vec2 = self.pos.neg().mul(131072);
        let trans: crate::math::Mat3 = crate::math::Mat3::translation(t);
        let scl: crate::math::Mat3 = crate::math::Mat3::scale(crate::math::Vec2::new(131072, 131072));
        let m1: crate::math::Mat3 = rot.mul(trans);
        proof {
            lemma_m1_bound(rot, trans, m1);
        }
        let m2: crate::math::Mat3 = m1.mul(scl);
        proof {
            lemma_m2_bound(m1, scl, m2);
            assert(m2 == map_matrix_spec(*self));
        }

        ctx.clear();
        let ghost g = *self;
        let ghost secs = world.sectors@;
        let ghost wint = ctx.width as int;
        let ghost hint = ctx.height as int;
        if ctx.width > 0 && ctx.height > 0 {
            let px: usize = ctx.width / 2;
            let py: usize = ctx.height / 2;
            let ghost prev = ctx.pixels@;
            ctx.put_px(px, py, 0xFF, 0x00, 0x00);
            proof {
                assert forall|x: int, y: int|
                    #![trigger px_base(ctx.format, wint, x, y)]
                    0 <= x < wint && 0 <= y < hint && (x != px as int || y != py as int) implies px_eq(
                    ctx.pixels@,
                    prev,
                    ctx.format,
                    wint,
                    x,
                    y,
                ) by {
                    lemma_px_disjoint(ctx.format, wint, hint, x, y, px as int, py as int);
                    lemma_px_bounds(ctx.format, wint, hint, x, y);
                }
            }
        }
        proof {
            assert forall|x: int, y: int|
                #![trigger px_base(ctx.format, wint, x, y)]
                0 <= x < wint && 0 <= y < hint implies px_rgb(ctx.pixels@, ctx.format, wint, x, y)
                == (if (x == wint / 2 && y == hint / 2) || map_wall_dot_spec(
                secs,
                g,
                0,
                wint,
                hint,
                x,
                y,
            ) {
                (0xFFu8, 0u8, 0u8)
            } else {
                (0u8, 0u8, 0u8)
            }) by {
                assert(!map_wall_dot_spec(secs, g, 0, wint, hint, x, y));
            }
        }

        let walls: &Vec<crate::world::Wall> = world.get_walls();
        let mut i: usize = 0;
        while i < walls.len()
            invariant
                i <= walls.len(),
                rc_wf(*ctx),
                rc_same_shape(*ctx, *old(ctx)),
                crate::world::world_wf(world.sectors@),
                walls@ == world.sectors@[0].walls@,
                crate::math::m3_bounded(m2, 0x10_0000_0000),
                m2 == map_matrix_spec(g),
                g == *self,
                secs == world.sectors@,
                wint == ctx.width as int,
                hint == ctx.height as int,
                forall|x: int, y: int|
                    #![trigger px_base(ctx.format, wint, x, y)]
                    0 <= x < wint && 0 <= y < hint ==> px_rgb(ctx.pixels@, ctx.format, wint, x, y)
                        == (if (x == wint / 2 && y == hint / 2) || map_wall_dot_spec(
                        secs,
                        g,
                        i as int,
                        wint,
                        hint,
                        x,
                        y,
                    ) {
                        (0xFFu8, 0u8, 0u8)
                    } else {
                        (0u8, 0u8, 0u8)
                    }),
            decreases walls.len() - i,
        {
            proof {
                assert(crate::world::sector_ok(world.sectors@, world.sectors@[0]));
                assert(crate::world::wall_ok(world.sectors@, walls@[i as int]));
            }
            let sg: crate::math::LineSeg = walls[i].seg.transform(m2);
            proof {
                assert(sg == map_seg_spec(g, secs[0].walls@[i as int]));
            }
            let ghost sglen = crate::math::v2_len_spec(
                crate::math::Vec2 { x: (sg.b.x - sg.a.x) as i64, y: (sg.b.y - sg.a.y) as i64 },
            );
            if -0x2000_0000 <= sg.a.x && sg.a.x <= 0x2000_0000 && -0x2000_0000 <= sg.a.y && sg.a.y
                <= 0x2000_0000 && -0x2000_0000 <= sg.b.x && sg.b.x <= 0x2000_0000 && -0x2000_0000
                <= sg.b.y && sg.b.y <= 0x2000_0000 {
                let ghost prev = ctx.pixels@;
                ctx.draw_seg(sg, 0xFF, 0x00, 0x00);
                proof {
                    assert forall|x: int, y: int|
                        #![trigger px_base(ctx.format, wint, x, y)]
                        0 <= x < wint && 0 <= y < hint implies px_rgb(
                        ctx.pixels@,
                        ctx.format,
                        wint,
                        x,
                        y,
                    ) == (if (x == wint / 2 && y == hint / 2) || map_wall_dot_spec(
                        secs,
                        g,
                        i as int + 1,
                        wint,
                        hint,
                        x,
                        y,
                    ) {
                        (0xFFu8, 0u8, 0u8)
                    } else {
                        (0u8, 0u8, 0u8)
                    }) by {
                        if exists|u: int|
                            #![trigger seg_dot_spec(sg, sglen, u, wint, hint)]
                            0 <= u < sglen / 65536 && seg_dot_spec(sg, sglen, u, wint, hint) == (
                            x,
                            y,
                        ) {
                            let u0 = choose|u: int|
                                0 <= u < sglen / 65536 && #[trigger] seg_dot_spec(
                                    sg,
                                    sglen,
                                    u,
                                    wint,
                                    hint,
                                ) == (x, y);
                            assert(px_rgb(ctx.pixels@, ctx.format, wint, x, y) == (
                                0xFFu8,
                                0u8,
                                0u8,
                            ));
                            assert(crate::math::seg_bounded(sg, 0x2000_0000));
                            assert(seg_dot_spec(sg, sglen, u0, wint, hint) == (x, y));
                            assert(map_wall_dot_covers(secs, g, i as int, wint, hint, x, y));
                            assert(map_wall_dot_spec(secs, g, i as int + 1, wint, hint, x, y));
                        } else {
                            assert(px_eq(ctx.pixels@, prev, ctx.format, wint, x, y));
                            assert(map_wall_dot_spec(secs, g, i as int + 1, wint, hint, x, y)
                                == map_wall_dot_spec(secs, g, i as int, wint, hint, x, y)) by {
                                if map_wall_dot_spec(secs, g, i as int + 1, wint, hint, x, y) {
                                    let j = choose|j: int|
                                        0 <= j < i as int + 1 && j < secs[0].walls@.len()
                                            && #[trigger] map_wall_dot_covers(
                                            secs,
                                            g,
                                            j,
                                            wint,
                                            hint,
                                            x,
                                            y,
                                        );
                                    assert(j < i as int);
                                    assert(map_wall_dot_spec(secs, g, i as int, wint, hint, x, y));
                                }
                                if map_wall_dot_spec(secs, g, i as int, wint, hint, x, y) {
                                    assert(map_wall_dot_spec(
                                        secs,
                                        g,
                                        i as int + 1,
                                        wint,
                                        hint,
                                        x,
                                        y,
                                    ));
                                }
                            }
                        }
                    }
                }
            } else {
                proof {
                    assert forall|x: int, y: int|
                        #![trigger px_base(ctx.format, wint, x, y)]
                        0 <= x < wint && 0 <= y < hint implies map_wall_dot_spec(
                        secs,
                        g,
                        i as int + 1,
                        wint,
                        hint,
                        x,
                        y,
                    ) == map_wall_dot_spec(secs, g, i as int, wint, hint, x, y) by {
                        if map_wall_dot_spec(secs, g, i as int + 1, wint, hint, x, y) {
                            let j = choose|j: int|
                                0 <= j < i as int + 1 && j < secs[0].walls@.len()
                                    && #[trigger] map_wall_dot_covers(secs, g, j, wint, hint, x, y);
                            assert(j < i as int);
                            assert(map_wall_dot_spec(secs, g, i as int, wint, hint, x, y));
                        }
                        if map_wall_dot_spec(secs, g, i as int, wint, hint, x, y) {
                            assert(map_wall_dot_spec(secs, g, i as int + 1, wint, hint, x, y));
                        }
                    }
                }
            }
            i = i + 1;
        }
    }

    /// Render the first-person view: one ray cast per column, walls
    /// painted near to far under the occlusion band, floors, ceilings
    /// and sky filling the rest, the sky/floor fallback where a column
    /// sees nothing, and a crosshair on top. The whole frame is pinned:
    /// every pixel holds its column's painted value, a crosshair dot,
    /// or its old bytes.
    #[verifier::rlimit(100)]
    pub fn render_game(&self, world: &crate::world::World, cfg: &RenderConfig, sky: &Vec<u8>, ctx: &mut RenderContext)
        requires
            crate::world::world_wf(world.sectors@),
            crate::game::game_wf(*self, world.sectors@),
            config_wf(*cfg),
            rc_wf(*old(ctx)),
            sky@.len() == 3 * (old(ctx).width * old(ctx).height),
        ensures
            rc_wf(*final(ctx)),
            rc_same_shape(*final(ctx), *old(ctx)),
            forall|x: int, y: int|
                #![trigger px_base(old(ctx).format, old(ctx).width as int, x, y)]
                0 <= x < old(ctx).width && 0 <= y < old(ctx).height ==> {
                    let wv = old(ctx).width as int;
                    let hv = old(ctx).height as int;
                    if 160 < wv && 120 < hv && x == 160 && y == 120 {
                        px_rgb(final(ctx).pixels@, old(ctx).format, wv, x, y) == (0u8, 0u8, 0u8)
                    } else if crosshair_covers_spec(crosshair_v_seg(), wv, hv, x, y)
                        || crosshair_covers_spec(crosshair_h_seg(), wv, hv, x, y) {
                        px_rgb(final(ctx).pixels@, old(ctx).format, wv, x, y) == (
                            255u8,
                            255u8,
                            255u8,
                        )
                    } else {
                        match column_paint_spec(world.sectors@, *self, *cfg, sky@, wv, hv, x, y) {
                            Some(c) => px_rgb(final(ctx).pixels@, old(ctx).format, wv, x, y) == c,
                            None => px_eq(
                                final(ctx).pixels@,
                                old(ctx).pixels@,
                                old(ctx).format,
                                wv,
                                x,
                                y,
                            ),
                        }
                    }
                },
            160 < old(ctx).width && 120 < old(ctx).height ==> px_rgb(
                final(ctx).pixels@,
                old(ctx).format,
                old(ctx).width as int,
                160,
                120,
            ) == (0u8, 0u8, 0u8),
    {
        let person_height: i64 = cfg.person_height + world.get_elevation(self.sector);
        proof {
            assert(crate::world::sector_ok(world.sectors@, world.sectors@[self.sector.0 as int]));
            lemma_div_keeps_cap(self.look_angle as int, 65536, crate::game::LOOK_LIM as int);
        }
        let look_px: i64 = crate::fixed::tdiv64(self.look_angle, 65536);
        proof {
            lemma_tdiv_abs_le(self.look_angle as int, 65536, 120);
        }
        let looking_offset: i64 = -look_px;
        let w: usize = ctx.width;
        let h: usize = ctx.height;
        let ghost g = *self;
        let ghost secs = world.sectors@;
        let ghost cfgv = *cfg;
        let ghost skyv = sky@;
        let ghost wv = w as int;
        let ghost hv = h as int;
        let ghost lookv = look_px as int;
        let ghost phv = person_height as int;
        let ghost visv = cfg.visplane_dist as int;
        let mut x: usize = 0;
        while x < w
            invariant
                x <= w,
                w == ctx.width,
                h == ctx.height,
                rc_wf(*ctx),
                rc_same_shape(*ctx, *old(ctx)),
                sky@.len() == 3 * (ctx.width * ctx.height),
                crate::world::world_wf(secs),
                crate::game::game_wf(g, secs),
                config_wf(cfgv),
                g == *self,
                secs == world.sectors@,
                cfgv == *cfg,
                skyv == sky@,
                wv == w as int,
                hv == h as int,
                -0x80_0000 <= person_height <= 0x80_0000,
                -120 <= looking_offset <= 120,
                -120 <= look_px <= 120,
                looking_offset == -look_px,
                lookv == look_px as int,
                lookv == tdiv(g.look_angle as int, 65536),
                phv == person_height as int,
                phv == cfgv.person_height + secs[g.sector.0 as int].info.floor_elev,
                visv == cfgv.visplane_dist as int,
                forall|xc: int, y: int|
                    #![trigger px_base(ctx.format, wv, xc, y)]
                    0 <= xc < x && 0 <= y < hv ==> match column_paint_spec(
                        secs,
                        g,
                        cfgv,
                        skyv,
                        wv,
                        hv,
                        xc,
                        y,
                    ) {
                        Some(c) => px_rgb(ctx.pixels@, ctx.format, wv, xc, y) == c,
                        None => px_eq(ctx.pixels@, old(ctx).pixels@, ctx.format, wv, xc, y),
                    },
                forall|xc: int, y: int|
                    #![trigger px_base(ctx.format, wv, xc, y)]
                    x <= xc < wv && 0 <= y < hv ==> px_eq(
                        ctx.pixels@,
                        old(ctx).pixels@,
                        ctx.format,
                        wv,
                        xc,
                        y,
                    ),
            decreases w - x,
        {
            let ghost col0 = ctx.pixels@;
            let offset: i64 = crate::fixed::tdiv_i64(
                ((x as i64) - (w as i64) / 2) * 65536,
                cfg.fov_scale,
            );
            proof {
                lemma_div_keeps_cap(
                    ((x as i64) - (w as i64) / 2) as int * 65536,
                    cfg.fov_scale as int,
                    0x1000_0000,
                );
                assert(offset == col_offset_spec(x as int, wv, cfgv.fov_scale as int));
            }
            let cos_offset: i64 = crate::fixed::cos_fx(offset);
            let ghost cosv = cos_offset as int;
            proof {
                assert(cosv == cos_fx_spec(col_offset_spec(x as int, wv, cfgv.fov_scale as int)));
            }
            if cos_offset >= 1 {
                let angle: i64 = self.face_angle + offset;
                let results: Vec<crate::world::RayCastResult> = world.cast_ray(
                    self.sector,
                    self.pos,
                    angle,
                );
                let ghost hits = results@;
                proof {
                    assert(hits == column_trace_spec(secs, g, cfgv, wv, x as int));
                }
                if results.len() == 0 {
                    ctx.draw_sky(sky, x, 0, (h as i64) / 2);
                    let ghost post_sky = ctx.pixels@;
                    let mut fy: usize = h / 2;
                    while fy < h
                        invariant
                            h == ctx.height,
                            w == ctx.width,
                            x < w,
                            h / 2 <= fy,
                            fy <= h,
                            rc_wf(*ctx),
                            rc_same_shape(*ctx, *old(ctx)),
                            wv == w as int,
                            hv == h as int,
                            outside_band_eq(
                                ctx.pixels@,
                                post_sky,
                                ctx.format,
                                wv,
                                hv,
                                x as int,
                                hv / 2,
                                fy as int,
                            ),
                            forall|yy: int|
                                #![trigger px_base(ctx.format, wv, x as int, yy)]
                                hv / 2 <= yy < fy ==> px_rgb(
                                    ctx.pixels@,
                                    ctx.format,
                                    wv,
                                    x as int,
                                    yy,
                                ) == (0u8, 64u8, 0u8),
                        decreases h - fy,
                    {
                        let ghost prevg = ctx.pixels@;
                        ctx.put_px(x, fy, 0, 64, 0);
                        proof {
                            assert forall|xx: int, yy: int|
                                #![trigger px_base(ctx.format, wv, xx, yy)]
                                0 <= xx < wv && 0 <= yy < hv && (xx != x as int || yy
                                    != fy as int) implies px_eq(
                                ctx.pixels@,
                                prevg,
                                ctx.format,
                                wv,
                                xx,
                                yy,
                            ) by {
                                lemma_px_disjoint(ctx.format, wv, hv, xx, yy, x as int, fy as int);
                                lemma_px_bounds(ctx.format, wv, hv, xx, yy);
                            }
                        }
                        fy = fy + 1;
                    }
                    proof {
                        assert forall|y: int|
                            #![trigger px_base(ctx.format, wv, x as int, y)]
                            0 <= y < hv implies (match column_paint_spec(
                            secs,
                            g,
                            cfgv,
                            skyv,
                            wv,
                            hv,
                            x as int,
                            y,
                        ) {
                            Some(c) => px_rgb(ctx.pixels@, ctx.format, wv, x as int, y) == c,
                            None => px_eq(ctx.pixels@, col0, ctx.format, wv, x as int, y),
                        }) by {
                            if y < hv / 2 {
                                assert(px_eq(ctx.pixels@, post_sky, ctx.format, wv, x as int, y));
                            }
                        }
                        assert forall|xc: int, y: int|
                            #![trigger px_base(ctx.format, wv, xc, y)]
                            0 <= xc < wv && 0 <= y < hv && xc != x as int implies px_eq(
                            ctx.pixels@,
                            col0,
                            ctx.format,
                            wv,
                            xc,
                            y,
                        ) by {
                            assert(px_eq(ctx.pixels@, post_sky, ctx.format, wv, xc, y));
                            assert(px_eq(post_sky, col0, ctx.format, wv, xc, y));
                        }
                    }
                } else {
                    let mut render_bottom: i64 = h as i64;
                    let mut render_top: i64 = 0;
                    let mut k: usize = 0;
                    while k < results.len()
                        invariant
                            k <= results.len(),
                            w == ctx.width,
                            h == ctx.height,
                            x < w,
                            rc_wf(*ctx),
                            rc_same_shape(*ctx, *old(ctx)),
                            sky@.len() == 3 * (ctx.width * ctx.height),
                            config_wf(cfgv),
                            cfgv == *cfg,
                            skyv == sky@,
                            wv == w as int,
                            hv == h as int,
                            -0x80_0000 <= person_height <= 0x80_0000,
                            -120 <= look_px <= 120,
                            looking_offset == -look_px,
                            lookv == look_px as int,
                            phv == person_height as int,
                            visv == cfgv.visplane_dist as int,
                            1 <= cos_offset <= 65536,
                            cosv == cos_offset as int,
                            hits == results@,
                            crate::math::v2_bounded(g.pos, crate::game::POS_LIM as int),
                            g.pos == self.pos,
                            -0x1000_0000_0000 <= render_bottom <= 0x1000_0000_0000,
                            -0x1000_0000_0000 <= render_top <= 0x1000_0000_0000,
                            (render_top as int, render_bottom as int) == band_at_spec(
                                hits,
                                k as int,
                                g.pos,
                                cosv,
                                hv,
                                lookv,
                                phv,
                                visv,
                            ),
                            forall|y: int|
                                #![trigger px_base(ctx.format, wv, x as int, y)]
                                0 <= y < hv ==> match trace_paint_spec(
                                    hits,
                                    k as int,
                                    g.pos,
                                    cosv,
                                    hv,
                                    lookv,
                                    phv,
                                    visv,
                                    skyv,
                                    wv,
                                    x as int,
                                    y,
                                ) {
                                    Some(c) => px_rgb(ctx.pixels@, ctx.format, wv, x as int, y)
                                        == c,
                                    None => px_eq(ctx.pixels@, col0, ctx.format, wv, x as int, y),
                                },
                            forall|xc: int, y: int|
                                #![trigger px_base(ctx.format, wv, xc, y)]
                                0 <= xc < wv && 0 <= y < hv && xc != x as int ==> px_eq(
                                    ctx.pixels@,
                                    col0,
                                    ctx.format,
                                    wv,
                                    xc,
                                    y,
                                ),
                            forall|i: int|
                                0 <= i < results@.len() ==> {
                                    &&& crate::math::v2_bounded(
                                        (#[trigger] results@[i]).hit_pos,
                                        crate::fixed::FX_LIM as int,
                                    )
                                    &&& 0 <= results@[i].along <= 0x8000_0000
                                    &&& -crate::world::ELEV_LIM <= results@[i].in_info.floor_elev
                                        < results@[i].in_info.ceiling_elev <= crate::world::ELEV_LIM
                                    &&& results@[i].out_info matches Some(oi)
                                        ==> -crate::world::ELEV_LIM <= oi.floor_elev
                                        < oi.ceiling_elev <= crate::world::ELEV_LIM
                                },
                        decreases results.len() - k,
                    {
                        let ghost rt = render_top as int;
                        let ghost rb = render_bottom as int;
                        let hit: crate::world::RayCastResult = results[k];
                        let ghost hitv = hits[k as int];
                        let ghost pre_hit = ctx.pixels@;
                        proof {
                            assert(hit == hitv);
                        }
                        let nb: (i64, i64) = paint_hit(
                            ctx,
                            x,
                            hit,
                            self.pos,
                            cos_offset,
                            look_px,
                            person_height,
                            cfg.visplane_dist,
                            sky,
                            render_top,
                            render_bottom,
                        );
                        render_top = nb.0;
                        render_bottom = nb.1;
                        proof {
                            assert forall|y: int|
                                #![trigger px_base(ctx.format, wv, x as int, y)]
                                0 <= y < hv implies (match trace_paint_spec(
                                hits,
                                k as int + 1,
                                g.pos,
                                cosv,
                                hv,
                                lookv,
                                phv,
                                visv,
                                skyv,
                                wv,
                                x as int,
                                y,
                            ) {
                                Some(c) => px_rgb(ctx.pixels@, ctx.format, wv, x as int, y) == c,
                                None => px_eq(ctx.pixels@, col0, ctx.format, wv, x as int, y),
                            }) by {
                                let hp = hit_paint_spec(
                                    g.pos,
                                    hitv,
                                    cosv,
                                    hv,
                                    lookv,
                                    phv,
                                    visv,
                                    skyv,
                                    wv,
                                    x as int,
                                    rt,
                                    rb,
                                    y,
                                );
                                if hp is Some {
                                } else {
                                    assert(px_eq(ctx.pixels@, pre_hit, ctx.format, wv, x as int, y));
                                }
                            }
                            assert forall|xc: int, y: int|
                                #![trigger px_base(ctx.format, wv, xc, y)]
                                0 <= xc < wv && 0 <= y < hv && xc != x as int implies px_eq(
                                ctx.pixels@,
                                col0,
                                ctx.format,
                                wv,
                                xc,
                                y,
                            ) by {
                                assert(px_eq(ctx.pixels@, pre_hit, ctx.format, wv, xc, y));
                            }
                        }
                        k = k + 1;
                    }
                    proof {
                        assert forall|y: int|
                            #![trigger px_base(ctx.format, wv, x as int, y)]
                            0 <= y < hv implies (match column_paint_spec(
                            secs,
                            g,
                            cfgv,
                            skyv,
                            wv,
                            hv,
                            x as int,
                            y,
                        ) {
                            Some(c) => px_rgb(ctx.pixels@, ctx.format, wv, x as int, y) == c,
                            None => px_eq(ctx.pixels@, col0, ctx.format, wv, x as int, y),
                        }) by {}
                    }
                }
            } else {
                proof {
                    assert forall|y: int|
                        #![trigger px_base(ctx.format, wv, x as int, y)]
                        0 <= y < hv implies column_paint_spec(
                        secs,
                        g,
                        cfgv,
                        skyv,
                        wv,
                        hv,
                        x as int,
                        y,
                    ) is None by {}
                }
            }
            proof {
                assert forall|xc: int, y: int|
                    #![trigger px_base(ctx.format, wv, xc, y)]
                    0 <= xc < x as int + 1 && 0 <= y < hv implies (match column_paint_spec(
                    secs,
                    g,
                    cfgv,
                    skyv,
                    wv,
                    hv,
                    xc,
                    y,
                ) {
                    Some(c) => px_rgb(ctx.pixels@, ctx.format, wv, xc, y) == c,
                    None => px_eq(ctx.pixels@, old(ctx).pixels@, ctx.format, wv, xc, y),
                }) by {
                    if xc != x as int {
                        assert(px_eq(ctx.pixels@, col0, ctx.format, wv, xc, y));
                        assert(px_eq(col0, ctx.pixels@, ctx.format, wv, xc, y));
                    } else {
                        assert(px_eq(col0, old(ctx).pixels@, ctx.format, wv, xc, y));
                    }
                }
                assert forall|xc: int, y: int|
                    #![trigger px_base(ctx.format, wv, xc, y)]
                    x as int + 1 <= xc < wv && 0 <= y < hv implies px_eq(
                    ctx.pixels@,
                    old(ctx).pixels@,
                    ctx.format,
                    wv,
                    xc,
                    y,
                ) by {
                    assert(px_eq(ctx.pixels@, col0, ctx.format, wv, xc, y));
                    assert(px_eq(col0, old(ctx).pixels@, ctx.format, wv, xc, y));
                }
            }
            x = x + 1;
        }
        let ghost pre_cross = ctx.pixels@;
        ctx.draw_seg(crate::math::LineSeg::new(0, -196608, 0, 262144), 0xFF, 0xFF, 0xFF);
        let ghost mid_cross = ctx.pixels@;
        ctx.draw_seg(crate::math::LineSeg::new(-196608, 0, 262144, 0), 0xFF, 0xFF, 0xFF);
        let ghost post_segs = ctx.pixels@;
        if 160 < ctx.width && 120 < ctx.height {
            let ghost prevc = ctx.pixels@;
            ctx.put_px(160, 120, 0x00, 0x00, 0x00);
            proof {
                assert forall|xx: int, yy: int|
                    #![trigger px_base(ctx.format, wv, xx, yy)]
                    0 <= xx < wv && 0 <= yy < hv && (xx != 160 || yy != 120) implies px_eq(
                    ctx.pixels@,
                    prevc,
                    ctx.format,
                    wv,
                    xx,
                    yy,
                ) by {
                    lemma_px_disjoint(ctx.format, wv, hv, xx, yy, 160, 120);
                    lemma_px_bounds(ctx.format, wv, hv, xx, yy);
                }
            }
        }
        proof {
            let vs = crosshair_v_seg();
            let hs = crosshair_h_seg();
            assert(vs == (crate::math::LineSeg {
                a: crate::math::Vec2 { x: 0, y: -196608i64 },
                b: crate::math::Vec2 { x: 0, y: 262144 },
            }));
            assert(hs == (crate::math::LineSeg {
                a: crate::math::Vec2 { x: -196608i64, y: 0 },
                b: crate::math::Vec2 { x: 262144, y: 0 },
            }));
            assert forall|x: int, y: int|
                #![trigger px_base(ctx.format, wv, x, y)]
                0 <= x < wv && 0 <= y < hv implies {
                if 160 < wv && 120 < hv && x == 160 && y == 120 {
                    px_rgb(ctx.pixels@, ctx.format, wv, x, y) == (0u8, 0u8, 0u8)
                } else if crosshair_covers_spec(vs, wv, hv, x, y) || crosshair_covers_spec(
                    hs,
                    wv,
                    hv,
                    x,
                    y,
                ) {
                    px_rgb(ctx.pixels@, ctx.format, wv, x, y) == (255u8, 255u8, 255u8)
                } else {
                    match column_paint_spec(secs, g, cfgv, skyv, wv, hv, x, y) {
                        Some(c) => px_rgb(ctx.pixels@, ctx.format, wv, x, y) == c,
                        None => px_eq(ctx.pixels@, old(ctx).pixels@, ctx.format, wv, x, y),
                    }
                }
            } by {
                if 160 < wv && 120 < hv && x == 160 && y == 120 {
                } else {
                    if 160 < wv && 120 < hv {
                        assert(px_eq(ctx.pixels@, post_segs, ctx.format, wv, x, y));
                    } else {
                        assert(ctx.pixels@ == post_segs);
                    }
                    if crosshair_covers_spec(hs, wv, hv, x, y) {
                        assert(px_rgb(post_segs, ctx.format, wv, x, y) == (255u8, 255u8, 255u8));
                    } else if crosshair_covers_spec(vs, wv, hv, x, y) {
                        assert(px_rgb(mid_cross, ctx.format, wv, x, y) == (255u8, 255u8, 255u8));
                        assert(px_eq(post_segs, mid_cross, ctx.format, wv, x, y));
                    } else {
                        assert(px_eq(mid_cross, pre_cross, ctx.format, wv, x, y));
                        assert(px_eq(post_segs, mid_cross, ctx.format, wv, x, y));
                    }
                }
            }
        }
    }
}

/// The projection numerator stays within `2^41`.
proof fn lemma_vis_product(vis: int, e: int)
    requires
        1 <= vis <= 100000,
        -0x200_0000 <= e <= 0x200_0000,
    ensures
        fx_abs(vis * e) <= 0x800_0000_0000,
{
    assert(fx_abs(vis * e) <= 0x800_0000_0000) by (nonlinear_arith)
        requires
            1 <= vis <= 100000,
            -0x200_0000 <= e <= 0x200_0000,
    ;
}

/// The entries of a rotation-times-translation product stay within
/// `2^30`.
proof fn lemma_m1_bound(a: crate::math::Mat3, b: crate::math::Mat3, r: crate::math::Mat3)
    requires
        crate::math::m3_bounded(a, 65536),
        crate::math::m3_bounded(b, 0x2000_0000),
        r.a00 == tdiv(a.a00 * b.a00 + a.a01 * b.a10 + a.a02 * b.a20, 65536),
        r.a01 == tdiv(a.a00 * b.a01 + a.a01 * b.a11 + a.a02 * b.a21, 65536),
        r.a02 == tdiv(a.a00 * b.a02 + a.a01 * b.a12 + a.a02 * b.a22, 65536),
        r.a10 == tdiv(a.a10 * b.a00 + a.a11 * b.a10 + a.a12 * b.a20, 65536),
        r.a11 == tdiv(a.a10 * b.a01 + a.a11 * b.a11 + a.a12 * b.a21, 65536),
        r.a12 == tdiv(a.a10 * b.a02 + a.a11 * b.a12 + a.a12 * b.a22, 65536),
        r.a20 == tdiv(a.a20 * b.a00 + a.a21 * b.a10 + a.a22 * b.a20, 65536),
        r.a21 == tdiv(a.a20 * b.a01 + a.a21 * b.a11 + a.a22 * b.a21, 65536),
        r.a22 == tdiv(a.a20 * b.a02 + a.a21 * b.a12 + a.a22 * b.a22, 65536),
    ensures
        crate::math::m3_bounded(r, 0x1_0000_0000),
{
    crate::math::lemma_m3_dot_bound(a.a00 as int, b.a00 as int, a.a01 as int, b.a10 as int, a.a02 as int, b.a20 as int, 65536, 0x2000_0000, 0x1_0000_0000);
    crate::math::lemma_m3_dot_bound(a.a00 as int, b.a01 as int, a.a01 as int, b.a11 as int, a.a02 as int, b.a21 as int, 65536, 0x2000_0000, 0x1_0000_0000);
    crate::math::lemma_m3_dot_bound(a.a00 as int, b.a02 as int, a.a01 as int, b.a12 as int, a.a02 as int, b.a22 as int, 65536, 0x2000_0000, 0x1_0000_0000);
    crate::math::lemma_m3_dot_bound(a.a10 as int, b.a00 as int, a.a11 as int, b.a10 as int, a.a12 as int, b.a20 as int, 65536, 0x2000_0000, 0x1_0000_0000);
    crate::math::lemma_m3_dot_bound(a.a10 as int, b.a01 as int, a.a11 as int, b.a11 as int, a.a12 as int, b.a21 as int, 65536, 0x2000_0000, 0x1_0000_0000);
    crate::math::lemma_m3_dot_bound(a.a10 as int, b.a02 as int, a.a11 as int, b.a12 as int, a.a12 as int, b.a22 as int, 65536, 0x2000_0000, 0x1_0000_0000);
    crate::math::lemma_m3_dot_bound(a.a20 as int, b.a00 as int, a.a21 as int, b.a10 as int, a.a22 as int, b.a20 as int, 65536, 0x2000_0000, 0x1_0000_0000);
    crate::math::lemma_m3_dot_bound(a.a20 as int, b.a01 as int, a.a21 as int, b.a11 as int, a.a22 as int, b.a21 as int, 65536, 0x2000_0000, 0x1_0000_0000);
    crate::math::lemma_m3_dot_bound(a.a20 as int, b.a02 as int, a.a21 as int, b.a12 as int, a.a22 as int, b.a22 as int, 65536, 0x2000_0000, 0x1_0000_0000);
}

/// The entries of that product scaled once more stay within `2^33`.
proof fn lemma_m2_bound(a: crate::math::Mat3, b: crate::math::Mat3, r: crate::math::Mat3)
    requires
        crate::math::m3_bounded(a, 0x1_0000_0000),
        crate::math::m3_bounded(b, 131072),
        r.a00 == tdiv(a.a00 * b.a00 + a.a01 * b.a10 + a.a02 * b.a20, 65536),
        r.a01 == tdiv(a.a00 * b.a01 + a.a01 * b.a11 + a.a02 * b.a21, 65536),
        r.a02 == tdiv(a.a00 * b.a02 + a.a01 * b.a12 + a.a02 * b.a22, 65536),
        r.a10 == tdiv(a.a10 * b.a00 + a.a11 * b.a10 + a.a12 * b.a20, 65536),
        r.a11 == tdiv(a.a10 * b.a01 + a.a11 * b.a11 + a.a12 * b.a21, 65536),
        r.a12 == tdiv(a.a10 * b.a02 + a.a11 * b.a12 + a.a12 * b.a22, 65536),
        r.a20 == tdiv(a.a20 * b.a00 + a.a21 * b.a10 + a.a22 * b.a20, 65536),
        r.a21 == tdiv(a.a20 * b.a01 + a.a21 * b.a11 + a.a22 * b.a21, 65536),
        r.a22 == tdiv(a.a20 * b.a02 + a.a21 * b.a12 + a.a22 * b.a22, 65536),
    ensures
        crate::math::m3_bounded(r, 0x10_0000_0000),
{
    crate::math::lemma_m3_dot_bound(a.a00 as int, b.a00 as int, a.a01 as int, b.a10 as int, a.a02 as int, b.a20 as int, 0x1_0000_0000, 131072, 0x10_0000_0000);
    crate::math::lemma_m3_dot_bound(a.a00 as int, b.a01 as int, a.a01 as int, b.a11 as int, a.a02 as int, b.a21 as int, 0x1_0000_0000, 131072, 0x10_0000_0000);
    crate::math::lemma_m3_dot_bound(a.a00 as int, b.a02 as int, a.a01 as int, b.a12 as int, a.a02 as int, b.a22 as int, 0x1_0000_0000, 131072, 0x10_0000_0000);
    crate::math::lemma_m3_dot_bound(a.a10 as int, b.a00 as int, a.a11 as int, b.a10 as int, a.a12 as int, b.a20 as int, 0x1_0000_0000, 131072, 0x10_0000_0000);
    crate::math::lemma_m3_dot_bound(a.a10 as int, b.a01 as int, a.a11 as int, b.a11 as int, a.a12 as int, b.a21 as int, 0x1_0000_0000, 131072, 0x10_0000_0000);
    crate::math::lemma_m3_dot_bound(a.a10 as int, b.a02 as int, a.a11 as int, b.a12 as int, a.a12 as int, b.a22 as int, 0x1_0000_0000, 131072, 0x10_0000_0000);
    crate::math::lemma_m3_dot_bound(a.a20 as int, b.a00 as int, a.a21 as int, b.a10 as int, a.a22 as int, b.a20 as int, 0x1_0000_0000, 131072, 0x10_0000_0000);
    crate::math::lemma_m3_dot_bound(a.a20 as int, b.a01 as int, a.a21 as int, b.a11 as int, a.a22 as int, b.a21 as int, 0x1_0000_0000, 131072, 0x10_0000_0000);
    crate::math::lemma_m3_dot_bound(a.a20 as int, b.a02 as int, a.a21 as int, b.a12 as int, a.a22 as int, b.a22 as int, 0x1_0000_0000, 131072, 0x10_0000_0000);
}

} // verus!
