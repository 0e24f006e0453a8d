//! The rasterizer: scan-conversion of circles, rotated rectangles and
//! textures into the pixel buffer, in two families — unmasked (painted
//! directly) and masked (every written pixel attenuated by the mask's
//! coverage at that pixel).
//!
//! All per-pixel tests are exact integer arithmetic over coordinates
//! clamped into the rasterization window (see [`crate::camera::COORD_CLAMP`]);
//! the horizontal axis is widened by the stretch factor to compensate for
//! terminal cells being taller than wide.
use vstd::prelude::*;
use crate::{Color, Circle, Rectangle, Texture, blend, blend_spec, blend_channel_spec};
use crate::transform::{Transform, FIXED_ONE};
use crate::camera::{COORD_CLAMP, clamp_coord_spec};
use crate::mask::Mask;

verus! {

/// A 2D grid of colors, one per logical render-resolution cell, row-major.
/// Replaced wholesale when the camera resolution changes.
pub struct PixelBuffer {
    pub width: usize,
    pub height: usize,
    pub data: Vec<Color>,
}

impl PixelBuffer {
    /// The grid really is `width x height` and both sides fit a terminal
    /// dimension.
    pub open spec fn well_formed(self) -> bool {
        &&& self.data@.len() == self.width * self.height
        &&& self.width <= u16::MAX
        &&& self.height <= u16::MAX
    }

    /// The color at column `px` of row `py`.
    pub open spec fn at(self, px: int, py: int) -> Color {
        self.data@[py * self.width as int + px]
    }

    /// A fresh buffer of the given size, filled with `background`.
    pub fn new(width: u32, height: u32, background: Color) -> (buf: PixelBuffer)
        requires
            width <= u16::MAX,
            height <= u16::MAX,
        ensures
            buf.well_formed(),
            buf.width == width,
            buf.height == height,
            forall|px: int, py: int| 0 <= px < width && 0 <= py < height
                ==> buf.at(px, py) == background,
    {
        let w = width as usize;
        let h = height as usize;
        assert(w as int * (h as int) <= 0xFFFF * 0xFFFF) by (nonlinear_arith)
            requires w as int <= 0xFFFF && h as int <= 0xFFFF;
        let n = w * h;
        let mut data: Vec<Color> = Vec::new();
        let mut i: usize = 0;
        while i < n
            invariant
                i <= n,
                data@.len() == i,
                forall|j: int| 0 <= j < i ==> data@[j] == background,
            decreases n - i,
        {
            data.push(background);
            i = i + 1;
        }
        let buf = PixelBuffer { width: w, height: h, data };
        proof {
            assert forall|px: int, py: int| 0 <= px < width && 0 <= py < height
                implies buf.at(px, py) == background by {
                assert(0 <= py * w as int + px < w as int * h as int) by (nonlinear_arith)
                    requires 0 <= px < w as int && 0 <= py < h as int;
            }
        }
        buf
    }

    /// Reads one pixel.
    pub fn get_pixel(&self, px: usize, py: usize) -> (c: Color)
        requires
            self.well_formed(),
            px < self.width,
            py < self.height,
        ensures
            c == self.at(px as int, py as int),
    {
        proof {
            let w = self.width as int;
            let h = self.height as int;
            let x = px as int;
            let y = py as int;
            assert(0 <= y * w + x < w * h) by (nonlinear_arith)
                requires 0 <= x < w && 0 <= y < h;
            assert(w * h <= 0xFFFF * 0xFFFF) by (nonlinear_arith)
                requires 0 <= w <= 0xFFFF && 0 <= h <= 0xFFFF;
        }
        self.data[py * self.width + px]
    }

    /// Writes one pixel; every other cell keeps its color.
    pub fn set_pixel(&mut self, px: usize, py: usize, c: Color)
        requires
            old(self).well_formed(),
            px < old(self).width,
            py < old(self).height,
        ensures
            final(self).well_formed(),
            final(self).width == old(self).width,
            final(self).height == old(self).height,
            final(self).at(px as int, py as int) == c,
            forall|qx: int, qy: int|
                0 <= qx < old(self).width && 0 <= qy < old(self).height
                && !(qx == px as int && qy == py as int)
                ==> final(self).at(qx, qy) == old(self).at(qx, qy),
    {
        proof {
            let w = self.width as int;
            let h = self.height as int;
            let x = px as int;
            let y = py as int;
            assert(0 <= y * w + x < w * h) by (nonlinear_arith)
                requires 0 <= x < w && 0 <= y < h;
            assert(w * h <= 0xFFFF * 0xFFFF) by (nonlinear_arith)
                requires 0 <= w <= 0xFFFF && 0 <= h <= 0xFFFF;
        }
        let idx = py * self.width + px;
        self.data.set(idx, c);
        proof {
            assert forall|qx: int, qy: int|
                0 <= qx < old(self).width && 0 <= qy < old(self).height
                && !(qx == px as int && qy == py as int)
                implies final(self).at(qx, qy) == old(self).at(qx, qy) by {
                let w = old(self).width as int;
                let h = old(self).height as int;
                let x = px as int;
                let y = py as int;
                assert(0 <= qy * w + qx < w * h) by (nonlinear_arith)
                    requires 0 <= qx < w && 0 <= qy < h;
                assert(qy * w + qx != y * w + x) by (nonlinear_arith)
                    requires 0 <= qx < w && 0 <= qy && 0 <= x < w && 0 <= y
                        && !(qx == x && qy == y);
            }
        }
    }
}

/// The fixed-point approximations of pi and 2 pi used by the integer trig
/// below; `PI_FP` is even so that the quarter-wave peak is hit exactly.
pub const PI_FP: i64 = 3142;
pub const TWO_PI_FP: i64 = 6284;

/// Reduces an angle into `[0, TWO_PI_FP)`.
pub open spec fn angle_reduce_spec(a: int) -> int {
    if a >= 0 {
        a % (TWO_PI_FP as int)
    } else {
        let m = (-a) % (TWO_PI_FP as int);
        if m == 0 {
            0
        } else {
            (TWO_PI_FP as int) - m
        }
    }
}

/// The fixed-point sine: a quarter-wave parabola approximation of
/// `sin(a / FIXED_ONE) * FIXED_ONE`, exact at multiples of `PI_FP`, with
/// `sin_fp_spec(a + PI_FP/2)` exactly `FIXED_ONE` at `a == 0`.
pub open spec fn sin_fp_spec(a: int) -> int {
    let r = angle_reduce_spec(a);
    if r < PI_FP as int {
        4 * (FIXED_ONE as int) * r * ((PI_FP as int) - r)
            / ((PI_FP as int) * (PI_FP as int))
    } else {
        let r2 = r - PI_FP as int;
        -(4 * (FIXED_ONE as int) * r2 * ((PI_FP as int) - r2)
            / ((PI_FP as int) * (PI_FP as int)))
    }
}

/// The fixed-point cosine: the sine shifted a quarter turn.
pub open spec fn cos_fp_spec(a: int) -> int {
    sin_fp_spec(a + (PI_FP as int) / 2)
}

proof fn lemma_quarter_wave_bounds(r: int)
    by (nonlinear_arith)
    requires
        0 <= r < PI_FP as int,
    ensures
        0 <= 4 * (FIXED_ONE as int) * r * ((PI_FP as int) - r)
            <= (FIXED_ONE as int) * ((PI_FP as int) * (PI_FP as int)),
{
    assert((PI_FP as int - 2 * r) * (PI_FP as int - 2 * r) >= 0);
}

fn sin_reduced(r: i64) -> (out: i64)
    requires
        0 <= r < TWO_PI_FP,
    ensures
        out as int == sin_fp_spec(r as int),
        -FIXED_ONE <= out <= FIXED_ONE,
{
    proof {
        assert(angle_reduce_spec(r as int) == r as int);
    }
    if r < PI_FP {
        proof {
            lemma_quarter_wave_bounds(r as int);
            vstd::arithmetic::div_mod::lemma_div_pos_is_pos(
                4 * (FIXED_ONE as int) * (r as int) * ((PI_FP as int) - r as int),
                (PI_FP as int) * (PI_FP as int));
            vstd::arithmetic::div_mod::lemma_div_is_ordered(
                4 * (FIXED_ONE as int) * (r as int) * ((PI_FP as int) - r as int),
                (FIXED_ONE as int) * ((PI_FP as int) * (PI_FP as int)),
                (PI_FP as int) * (PI_FP as int));
            vstd::arithmetic::div_mod::lemma_div_multiples_vanish(
                FIXED_ONE as int, (PI_FP as int) * (PI_FP as int));
            assert((PI_FP as int) * (PI_FP as int) * (FIXED_ONE as int)
                == (FIXED_ONE as int) * ((PI_FP as int) * (PI_FP as int))) by (nonlinear_arith);
        }
        proof {
            let rr = r as int;
            assert(0 <= 4 * (FIXED_ONE as int) * rr <= 4 * 1000 * 6284) by (nonlinear_arith)
                requires 0 <= rr && rr <= 6284;
        }
        let num: i64 = 4 * FIXED_ONE * r;
        proof {
            let n = num as int;
            let rr = r as int;
            assert(0 <= n * ((PI_FP as int) - rr)
                <= (FIXED_ONE as int) * ((PI_FP as int) * (PI_FP as int))) by (nonlinear_arith)
                requires n == 4 * (FIXED_ONE as int) * rr && 0 <= rr && rr < PI_FP as int;
        }
        (num * (PI_FP - r)) / (PI_FP * PI_FP)
    } else {
        let r2 = r - PI_FP;
        proof {
            lemma_quarter_wave_bounds(r2 as int);
            vstd::arithmetic::div_mod::lemma_div_pos_is_pos(
                4 * (FIXED_ONE as int) * (r2 as int) * ((PI_FP as int) - r2 as int),
                (PI_FP as int) * (PI_FP as int));
            vstd::arithmetic::div_mod::lemma_div_is_ordered(
                4 * (FIXED_ONE as int) * (r2 as int) * ((PI_FP as int) - r2 as int),
                (FIXED_ONE as int) * ((PI_FP as int) * (PI_FP as int)),
                (PI_FP as int) * (PI_FP as int));
            vstd::arithmetic::div_mod::lemma_div_multiples_vanish(
                FIXED_ONE as int, (PI_FP as int) * (PI_FP as int));
            assert((PI_FP as int) * (PI_FP as int) * (FIXED_ONE as int)
                == (FIXED_ONE as int) * ((PI_FP as int) * (PI_FP as int))) by (nonlinear_arith);
        }
        proof {
            let rr = r2 as int;
            assert(0 <= 4 * (FIXED_ONE as int) * rr <= 4 * 1000 * 6284) by (nonlinear_arith)
                requires 0 <= rr && rr <= 6284;
        }
        let num: i64 = 4 * FIXED_ONE * r2;
        proof {
            let n = num as int;
            let rr = r2 as int;
            assert(0 <= n * ((PI_FP as int) - rr)
                <= (FIXED_ONE as int) * ((PI_FP as int) * (PI_FP as int))) by (nonlinear_arith)
                requires n == 4 * (FIXED_ONE as int) * rr && 0 <= rr && rr < PI_FP as int;
        }
        -((num * (PI_FP - r2)) / (PI_FP * PI_FP))
    }
}

fn angle_reduce_wide(a: i128) -> (r: i64)
    requires
        -0x4000_0000_0000_0000_0000 <= a <= 0x4000_0000_0000_0000_0000,
    ensures
        r as int == angle_reduce_spec(a as int),
        0 <= r < TWO_PI_FP,
{
    if a >= 0 {
        (a % TWO_PI_FP as i128) as i64
    } else {
        let m = (-a) % TWO_PI_FP as i128;
        if m == 0 {
            0
        } else {
            (TWO_PI_FP as i128 - m) as i64
        }
    }
}

/// The fixed-point sine of an angle in fixed-point radians.
pub fn sin_fp(a: i64) -> (out: i64)
    ensures
        out as int == sin_fp_spec(a as int),
        -FIXED_ONE <= out <= FIXED_ONE,
{
    sin_reduced(angle_reduce_wide(a as i128))
}

/// The fixed-point cosine of an angle in fixed-point radians.
pub fn cos_fp(a: i64) -> (out: i64)
    ensures
        out as int == cos_fp_spec(a as int),
        -FIXED_ONE <= out <= FIXED_ONE,
{
    sin_reduced(angle_reduce_wide(a as i128 + (PI_FP / 2) as i128))
}

/// The clamped center of a shape under a transform: position plus local
/// origin offset, brought into the rasterization window.
pub open spec fn center_x_spec(t: Transform) -> int {
    clamp_coord_spec(t.x as int + t.origin_x as int)
}

pub open spec fn center_y_spec(t: Transform) -> int {
    clamp_coord_spec(t.y as int + t.origin_y as int)
}

/// The effective stretch factor: the configured one, or `FIXED_ONE` when it
/// is zero (a degenerate configuration treated as no stretch).
pub open spec fn stretch_val(stretch: u16) -> int {
    if stretch > 0 { stretch as int } else { FIXED_ONE as int }
}

/// A shape extent scaled by the transform's scale and clamped, `0` when the
/// scale is not positive (the degenerate case: nothing is covered).
pub open spec fn scaled_extent_spec(base: int, t: Transform) -> int {
    if t.scale > 0 {
        clamp_coord_spec(base * (t.scale as int) / (FIXED_ONE as int))
    } else {
        0
    }
}

/// Whether the disc of `c` under `t` covers the pixel `(px, py)`: the
/// stretch-corrected distance from the pixel to the center stays within the
/// scaled radius. A non-positive scaled radius covers nothing.
pub open spec fn circle_covers(c: Circle, t: Transform, stretch: u16, px: int, py: int) -> bool {
    let s = FIXED_ONE as int;
    let st = stretch_val(stretch);
    let rs = scaled_extent_spec(c.radius as int, t);
    let dx = px * s - center_x_spec(t);
    let dy = py * s - center_y_spec(t);
    rs > 0 && (dx * s) * (dx * s) + (dy * st) * (dy * st) <= (rs * st) * (rs * st)
}

/// The stretch-space rotated coordinates of a pixel relative to a shape
/// center: the horizontal world distance is the column distance divided by
/// the stretch, and both are rotated back through the transform's rotation.
/// Both results carry the factor `stretch * FIXED_ONE`.
pub open spec fn rot_a_spec(t: Transform, stretch: u16, px: int, py: int) -> int {
    let s = FIXED_ONE as int;
    let st = stretch_val(stretch);
    let dx = px * s - center_x_spec(t);
    let dy = py * s - center_y_spec(t);
    dx * cos_fp_spec(t.rotation as int) * s + dy * sin_fp_spec(t.rotation as int) * st
}

pub open spec fn rot_b_spec(t: Transform, stretch: u16, px: int, py: int) -> int {
    let s = FIXED_ONE as int;
    let st = stretch_val(stretch);
    let dx = px * s - center_x_spec(t);
    let dy = py * s - center_y_spec(t);
    -dx * sin_fp_spec(t.rotation as int) * s + dy * cos_fp_spec(t.rotation as int) * st
}

/// Whether the (possibly rotated) rectangle covers the pixel: the pixel,
/// rotated back into the rectangle's frame, falls inside both scaled half
/// extents. Degenerate (non-positive) extents cover nothing.
pub open spec fn rect_covers(rc: Rectangle, t: Transform, stretch: u16, px: int, py: int) -> bool {
    let s = FIXED_ONE as int;
    let st = stretch_val(stretch);
    let hw = scaled_extent_spec((rc.width as int) / 2, t);
    let hh = scaled_extent_spec((rc.height as int) / 2, t);
    let a = rot_a_spec(t, stretch, px, py);
    let b = rot_b_spec(t, stretch, px, py);
    hw > 0 && hh > 0 && -(hw * st * s) <= a <= hw * st * s && -(hh * st * s) <= b <= hh * st * s
}

/// The texel of `tex` that the pixel maps to under the inverse transform
/// (nearest sample), or `None` when the pixel falls outside the texture,
/// the scale is degenerate, or a texture side exceeds `u16::MAX`.
pub open spec fn texture_sample_spec(tex: Texture, t: Transform, stretch: u16, px: int, py: int)
    -> Option<Color>
{
    let s = FIXED_ONE as int;
    let st = stretch_val(stretch);
    let tw = tex.width_spec() as int;
    let th = tex.height_spec() as int;
    if t.scale <= 0 || tw == 0 || th == 0 || tw > u16::MAX || th > u16::MAX {
        None
    } else {
        let d = (t.scale as int) * st;
        let ds = d * s;
        let a = rot_a_spec(t, stretch, px, py);
        let b = rot_b_spec(t, stretch, px, py);
        // Texel index: the rotated world offset in texel units, shifted by
        // half the texture extent; `a` and `b` carry `st * s`, one texel is
        // `scale` world units, so one texel of `a` is `d * s`.
        let nu = 2 * a + tw * ds;
        let nv = 2 * b + th * ds;
        if nu < 0 || nv < 0 {
            None
        } else {
            let iu = nu / (2 * ds);
            let iv = nv / (2 * ds);
            if iu < tw && iv < th {
                Some(tex.pixels@[iv]@[iu])
            } else {
                None
            }
        }
    }
}

/// The mask's coverage at a destination pixel: the mask grid is centered on
/// the masked shape's center; pixels outside the grid (or a grid with a
/// side over `u16::MAX`) have coverage `0`.
pub open spec fn mask_coverage_spec(m: Mask, t: Transform, px: int, py: int) -> int {
    let s = FIXED_ONE as int;
    let mw = m.width_spec() as int;
    let mh = m.height_spec() as int;
    if mw == 0 || mh == 0 || mw > u16::MAX || mh > u16::MAX {
        0
    } else {
        let ax = (center_x_spec(t) + (COORD_CLAMP as int) * s) / s - (COORD_CLAMP as int) - mw / 2;
        let ay = (center_y_spec(t) + (COORD_CLAMP as int) * s) / s - (COORD_CLAMP as int) - mh / 2;
        let ix = px - ax;
        let iy = py - ay;
        if 0 <= ix < mw && 0 <= iy < mh {
            m.coverage@[iy]@[ix] as int
        } else {
            0
        }
    }
}

/// A source color attenuated by a mask coverage byte: the alpha scales by
/// `cov / 255`, so coverage `0` leaves the destination untouched and
/// coverage `255` paints exactly as the unmasked draw would.
pub open spec fn attenuate_spec(c: Color, cov: int) -> Color {
    Color { a: ((c.a as int) * cov / 255) as u8, ..c }
}

/// Attenuates a color by a mask coverage byte.
pub fn attenuate(c: Color, cov: u8) -> (out: Color)
    ensures
        out == attenuate_spec(c, cov as int),
{
    proof {
        assert(0 <= (c.a as int) * (cov as int) <= 255 * 255) by (nonlinear_arith)
            requires 0 <= c.a as int <= 255 && 0 <= cov as int <= 255;
        vstd::arithmetic::div_mod::lemma_div_pos_is_pos((c.a as int) * (cov as int), 255);
        vstd::arithmetic::div_mod::lemma_div_is_ordered(
            (c.a as int) * (cov as int), 255int * 255, 255int);
    }
    Color { a: ((c.a as u32 * cov as u32) / 255) as u8, ..c }
}

/// A checked i128 product: the ghost bounds make the overflow reasoning
/// local to this one function.
fn mul_bnd(a: i128, b: i128, Ghost(ba): Ghost<int>, Ghost(bb): Ghost<int>) -> (r: i128)
    requires
        0 <= ba,
        0 <= bb,
        -ba <= a as int <= ba,
        -bb <= b as int <= bb,
        ba * bb <= 0x4000_0000_0000_0000_0000_0000_0000_0000,
    ensures
        r as int == a as int * b as int,
        -(ba * bb) <= r as int <= ba * bb,
{
    assert(-(ba * bb) <= a as int * (b as int) <= ba * bb) by (nonlinear_arith)
        requires 0 <= ba && 0 <= bb && -ba <= a as int <= ba && -bb <= b as int <= bb;
    a * b
}

/// The clamped center abscissa of a shape under a transform.
pub fn center_x(t: &Transform) -> (r: i64)
    ensures
        r as int == center_x_spec(*t),
        -COORD_CLAMP <= r <= COORD_CLAMP,
{
    let wide: i128 = t.x as i128 + t.origin_x as i128;
    if wide > COORD_CLAMP as i128 {
        COORD_CLAMP
    } else if wide < -(COORD_CLAMP as i128) {
        -COORD_CLAMP
    } else {
        wide as i64
    }
}

/// The clamped center ordinate of a shape under a transform.
pub fn center_y(t: &Transform) -> (r: i64)
    ensures
        r as int == center_y_spec(*t),
        -COORD_CLAMP <= r <= COORD_CLAMP,
{
    let wide: i128 = t.y as i128 + t.origin_y as i128;
    if wide > COORD_CLAMP as i128 {
        COORD_CLAMP
    } else if wide < -(COORD_CLAMP as i128) {
        -COORD_CLAMP
    } else {
        wide as i64
    }
}

fn scaled_extent_of(base: i64, t: &Transform) -> (r: i64)
    requires
        0 <= base <= COORD_CLAMP,
    ensures
        r as int == scaled_extent_spec(base as int, *t),
        0 <= r <= COORD_CLAMP,
{
    if t.scale > 0 {
        assert(0 <= base as int * (t.scale as int)
            <= COORD_CLAMP as int * (i64::MAX as int)) by (nonlinear_arith)
            requires 0 <= base as int <= COORD_CLAMP as int
                && 0 < t.scale as int <= i64::MAX as int;
        proof {
            vstd::arithmetic::div_mod::lemma_div_pos_is_pos(
                base as int * (t.scale as int), FIXED_ONE as int);
        }
        let wide: i128 = base as i128 * t.scale as i128 / FIXED_ONE as i128;
        if wide > COORD_CLAMP as i128 {
            COORD_CLAMP
        } else {
            wide as i64
        }
    } else {
        0
    }
}

fn stretch_of(stretch: u16) -> (r: i64)
    ensures
        r as int == stretch_val(stretch),
        0 < r <= 0x1_0000,
{
    if stretch > 0 { stretch as i64 } else { FIXED_ONE }
}

fn pixel_dx(t: &Transform, px: usize) -> (r: i128)
    requires
        px <= u16::MAX,
    ensures
        r as int == px as int * (FIXED_ONE as int) - center_x_spec(*t),
        -0x200_0000_0000 <= r <= 0x200_0000_0000,
{
    proof {
        let p = px as int;
        assert(0 <= p * (FIXED_ONE as int) <= 0xFFFF * 1000) by (nonlinear_arith)
            requires 0 <= p && p <= 0xFFFF;
    }
    px as i128 * FIXED_ONE as i128 - center_x(t) as i128
}

fn pixel_dy(t: &Transform, py: usize) -> (r: i128)
    requires
        py <= u16::MAX,
    ensures
        r as int == py as int * (FIXED_ONE as int) - center_y_spec(*t),
        -0x200_0000_0000 <= r <= 0x200_0000_0000,
{
    proof {
        let p = py as int;
        assert(0 <= p * (FIXED_ONE as int) <= 0xFFFF * 1000) by (nonlinear_arith)
            requires 0 <= p && p <= 0xFFFF;
    }
    py as i128 * FIXED_ONE as i128 - center_y(t) as i128
}

/// Whether the circle covers the pixel; mirrors [`circle_covers`].
pub fn circle_covers_at(c: &Circle, t: &Transform, stretch: u16, px: usize, py: usize)
    -> (r: bool)
    requires
        px <= u16::MAX,
        py <= u16::MAX,
    ensures
        r == circle_covers(*c, *t, stretch, px as int, py as int),
{
    let s: i128 = FIXED_ONE as i128;
    let st: i128 = stretch_of(stretch) as i128;
    let radius_c: i64 = if c.radius as i64 > COORD_CLAMP { COORD_CLAMP } else { c.radius as i64 };
    let rs: i64 = scaled_extent_of(radius_c, t);
    if rs <= 0 {
        return false;
    }
    let dx = pixel_dx(t, px);
    let dy = pixel_dy(t, py);
    let dxs = mul_bnd(dx, s, Ghost(0x200_0000_0000int), Ghost(0x400int));
    let dyst = mul_bnd(dy, st, Ghost(0x200_0000_0000int), Ghost(0x2_0000int));
    let rsst = mul_bnd(rs as i128, st, Ghost(0x200_0000_0000int), Ghost(0x2_0000int));
    let lhs = mul_bnd(dxs, dxs,
            Ghost(0x80_0000_0000_0000int), Ghost(0x80_0000_0000_0000int))
        + mul_bnd(dyst, dyst,
            Ghost(0x4000_0000_0000_0000int), Ghost(0x4000_0000_0000_0000int));
    let rhs = mul_bnd(rsst, rsst,
        Ghost(0x4000_0000_0000_0000int), Ghost(0x4000_0000_0000_0000int));
    lhs <= rhs
}

/// Whether the rectangle covers the pixel; mirrors [`rect_covers`].
pub fn rect_covers_at(rc: &Rectangle, t: &Transform, stretch: u16, px: usize, py: usize)
    -> (r: bool)
    requires
        px <= u16::MAX,
        py <= u16::MAX,
    ensures
        r == rect_covers(*rc, *t, stretch, px as int, py as int),
{
    let s: i128 = FIXED_ONE as i128;
    let st: i128 = stretch_of(stretch) as i128;
    let hw: i64 = scaled_extent_of((rc.width / 2) as i64, t);
    let hh: i64 = scaled_extent_of((rc.height / 2) as i64, t);
    if hw <= 0 || hh <= 0 {
        return false;
    }
    let co: i128 = cos_fp(t.rotation) as i128;
    let si: i128 = sin_fp(t.rotation) as i128;
    let dx = pixel_dx(t, px);
    let dy = pixel_dy(t, py);
    let a = mul_bnd(mul_bnd(dx, co, Ghost(0x200_0000_0000int), Ghost(0x400int)), s,
            Ghost(0x80_0000_0000_0000int), Ghost(0x400int))
        + mul_bnd(mul_bnd(dy, si, Ghost(0x200_0000_0000int), Ghost(0x400int)), st,
            Ghost(0x80_0000_0000_0000int), Ghost(0x2_0000int));
    let b = mul_bnd(mul_bnd(-dx, si, Ghost(0x200_0000_0000int), Ghost(0x400int)), s,
            Ghost(0x80_0000_0000_0000int), Ghost(0x400int))
        + mul_bnd(mul_bnd(dy, co, Ghost(0x200_0000_0000int), Ghost(0x400int)), st,
            Ghost(0x80_0000_0000_0000int), Ghost(0x2_0000int));
    let bw = mul_bnd(mul_bnd(hw as i128, st, Ghost(0x200_0000_0000int), Ghost(0x2_0000int)), s,
        Ghost(0x400_0000_0000_0000_0000int), Ghost(0x400int));
    let bh = mul_bnd(mul_bnd(hh as i128, st, Ghost(0x200_0000_0000int), Ghost(0x2_0000int)), s,
        Ghost(0x400_0000_0000_0000_0000int), Ghost(0x400int));
    -bw <= a && a <= bw && -bh <= b && b <= bh
}

/// The texel the pixel samples from the texture, if any; mirrors
/// [`texture_sample_spec`].
pub fn texture_sample_at(tex: &Texture, t: &Transform, stretch: u16, px: usize, py: usize)
    -> (r: Option<Color>)
    requires
        tex.well_formed(),
        px <= u16::MAX,
        py <= u16::MAX,
    ensures
        r == texture_sample_spec(*tex, *t, stretch, px as int, py as int),
{
    let s: i128 = FIXED_ONE as i128;
    let st: i128 = stretch_of(stretch) as i128;
    let th = tex.pixels.len();
    let tw = if th == 0 { 0 } else { tex.pixels[0].len() };
    if t.scale <= 0 || tw == 0 || th == 0 || tw > u16::MAX as usize || th > u16::MAX as usize {
        return None;
    }
    let d: i128 = mul_bnd(t.scale as i128, st,
        Ghost(0x8000_0000_0000_0000int), Ghost(0x2_0000int));
    let ds: i128 = mul_bnd(d, s,
        Ghost(0x10_0000_0000_0000_0000_0000int), Ghost(0x400int));
    assert(ds > 0) by (nonlinear_arith)
        requires t.scale as int > 0 && st as int > 0
            && d as int == t.scale as int * (st as int)
            && ds as int == d as int * (FIXED_ONE as int);
    let co: i128 = cos_fp(t.rotation) as i128;
    let si: i128 = sin_fp(t.rotation) as i128;
    let dx = pixel_dx(t, px);
    let dy = pixel_dy(t, py);
    let a = mul_bnd(mul_bnd(dx, co, Ghost(0x200_0000_0000int), Ghost(0x400int)), s,
            Ghost(0x80_0000_0000_0000int), Ghost(0x400int))
        + mul_bnd(mul_bnd(dy, si, Ghost(0x200_0000_0000int), Ghost(0x400int)), st,
            Ghost(0x80_0000_0000_0000int), Ghost(0x2_0000int));
    let b = mul_bnd(mul_bnd(-dx, si, Ghost(0x200_0000_0000int), Ghost(0x400int)), s,
            Ghost(0x80_0000_0000_0000int), Ghost(0x400int))
        + mul_bnd(mul_bnd(dy, co, Ghost(0x200_0000_0000int), Ghost(0x400int)), st,
            Ghost(0x80_0000_0000_0000int), Ghost(0x2_0000int));
    let tds = mul_bnd(ds, tw as i128,
        Ghost(0x4000_0000_0000_0000_0000_0000int), Ghost(0x1_0000int));
    let tds_h = mul_bnd(ds, th as i128,
        Ghost(0x4000_0000_0000_0000_0000_0000int), Ghost(0x1_0000int));
    assert(tds as int == tex.width_spec() as int * (ds as int)) by (nonlinear_arith)
        requires tds as int == ds as int * (tw as int) && tw as int == tex.width_spec() as int;
    assert(tds_h as int == tex.height_spec() as int * (ds as int)) by (nonlinear_arith)
        requires tds_h as int == ds as int * (th as int) && th as int == tex.height_spec() as int;
    let nu = 2 * a + tds;
    let nv = 2 * b + tds_h;
    if nu < 0 || nv < 0 {
        return None;
    }
    let den = 2 * ds;
    let iu = nu / den;
    let iv = nv / den;
    proof {
        vstd::arithmetic::div_mod::lemma_div_pos_is_pos(nu as int, den as int);
        vstd::arithmetic::div_mod::lemma_div_pos_is_pos(nv as int, den as int);
    }
    if iu < tw as i128 && iv < th as i128 {
        let iui = iu as usize;
        let ivi = iv as usize;
        assert(tex.pixels@[ivi as int]@.len() == tw);
        Some(tex.pixels[ivi][iui])
    } else {
        None
    }
}

fn mask_well_formed_check(m: &Mask) -> (r: bool)
    ensures
        r == m.well_formed(),
{
    let h = m.coverage.len();
    if h == 0 {
        return true;
    }
    let w = m.coverage[0].len();
    let mut i: usize = 0;
    while i < h
        invariant
            h == m.coverage@.len(),
            i <= h,
            h > 0,
            w == m.width_spec(),
            forall|j: int| 0 <= j < i ==> (#[trigger] m.coverage@[j])@.len() == w,
        decreases h - i,
    {
        if m.coverage[i].len() != w {
            return false;
        }
        i = i + 1;
    }
    true
}

/// The mask's coverage byte at a destination pixel; mirrors
/// [`mask_coverage_spec`].
pub fn mask_coverage_at(m: &Mask, t: &Transform, px: usize, py: usize) -> (r: u8)
    requires
        m.well_formed(),
        px <= u16::MAX,
        py <= u16::MAX,
    ensures
        r as int == mask_coverage_spec(*m, *t, px as int, py as int),
{
    let s: i128 = FIXED_ONE as i128;
    let mh = m.coverage.len();
    let mw = if mh == 0 { 0 } else { m.coverage[0].len() };
    if mw == 0 || mh == 0 || mw > u16::MAX as usize || mh > u16::MAX as usize {
        return 0;
    }
    let shifted_x: i128 = center_x(t) as i128 + COORD_CLAMP as i128 * s;
    let shifted_y: i128 = center_y(t) as i128 + COORD_CLAMP as i128 * s;
    let ax: i128 = shifted_x / s - COORD_CLAMP as i128 - (mw / 2) as i128;
    let ay: i128 = shifted_y / s - COORD_CLAMP as i128 - (mh / 2) as i128;
    proof {
        vstd::arithmetic::div_mod::lemma_div_pos_is_pos(shifted_x as int, s as int);
        vstd::arithmetic::div_mod::lemma_div_pos_is_pos(shifted_y as int, s as int);
    }
    let ix: i128 = px as i128 - ax;
    let iy: i128 = py as i128 - ay;
    if 0 <= ix && ix < mw as i128 && 0 <= iy && iy < mh as i128 {
        let ixi = ix as usize;
        let iyi = iy as usize;
        assert(m.coverage@[iyi as int]@.len() == mw);
        m.coverage[iyi][ixi]
    } else {
        0
    }
}

/// What one pixel becomes when a sample is painted over it, possibly
/// through a mask: no sample leaves it alone; a sample is blended
/// source-over, its alpha first attenuated by the mask's coverage when a
/// mask is present.
pub open spec fn painted_spec(
    sample: Option<Color>,
    maskv: Option<Mask>,
    t: Transform,
    qx: int,
    qy: int,
    under: Color,
) -> Color {
    match sample {
        None => under,
        Some(col) => match maskv {
            None => blend_spec(col, under),
            Some(m) => blend_spec(
                attenuate_spec(col, mask_coverage_spec(m, t, qx, qy)), under),
        },
    }
}

/// A borrowed shape for the shared scan-conversion core.
pub enum ShapeRef<'a> {
    Circ(&'a Circle),
    Rect(&'a Rectangle),
    Tex(&'a Texture),
}

/// What a shape shows at one pixel: its fill color where it covers the
/// pixel (the sampled texel for a texture), nothing elsewhere.
pub open spec fn shape_sample_spec(
    shape: ShapeRef,
    t: Transform,
    stretch: u16,
    qx: int,
    qy: int,
) -> Option<Color> {
    match shape {
        ShapeRef::Circ(c) => if circle_covers(*c, t, stretch, qx, qy) {
            Some(c.color)
        } else {
            None
        },
        ShapeRef::Rect(rc) => if rect_covers(*rc, t, stretch, qx, qy) {
            Some(rc.color)
        } else {
            None
        },
        ShapeRef::Tex(tex) => texture_sample_spec(*tex, t, stretch, qx, qy),
    }
}

pub open spec fn shape_ref_wf(shape: ShapeRef) -> bool {
    match shape {
        ShapeRef::Tex(tex) => tex.well_formed(),
        _ => true,
    }
}

fn shape_sample_at(shape: &ShapeRef, t: &Transform, stretch: u16, px: usize, py: usize)
    -> (r: Option<Color>)
    requires
        shape_ref_wf(*shape),
        px <= u16::MAX,
        py <= u16::MAX,
    ensures
        r == shape_sample_spec(*shape, *t, stretch, px as int, py as int),
{
    match shape {
        ShapeRef::Circ(c) => if circle_covers_at(c, t, stretch, px, py) {
            Some(c.color)
        } else {
            None
        },
        ShapeRef::Rect(rc) => if rect_covers_at(rc, t, stretch, px, py) {
            Some(rc.color)
        } else {
            None
        },
        ShapeRef::Tex(tex) => texture_sample_at(tex, t, stretch, px, py),
    }
}

/// The ghost view of an optional borrowed mask.
pub open spec fn opt_mask(mask: Option<&Mask>) -> Option<Mask> {
    match mask {
        Some(m) => Some(*m),
        None => None,
    }
}

/// The shared scan-conversion core: paints the shape over the whole buffer,
/// pixel by pixel, through the mask when one is given.
fn draw_shape(
    shape: ShapeRef,
    t: &Transform,
    grid: &mut PixelBuffer,
    stretch: u16,
    mask: Option<&Mask>,
)
    requires
        old(grid).well_formed(),
        shape_ref_wf(shape),
        match mask {
            Some(m) => m.well_formed(),
            None => true,
        },
    ensures
        final(grid).well_formed(),
        final(grid).width == old(grid).width,
        final(grid).height == old(grid).height,
        forall|qx: int, qy: int|
            0 <= qx < old(grid).width && 0 <= qy < old(grid).height
            ==> final(grid).at(qx, qy) == painted_spec(
                shape_sample_spec(shape, *t, stretch, qx, qy),
                opt_mask(mask), *t, qx, qy, old(grid).at(qx, qy)),
{
    let w = grid.width;
    let h = grid.height;
    let mut py: usize = 0;
    while py < h
        invariant
            grid.well_formed(),
            grid.width == w,
            grid.height == h,
            w == old(grid).width,
            h == old(grid).height,
            w <= u16::MAX,
            h <= u16::MAX,
            py <= h,
            shape_ref_wf(shape),
            match mask {
                Some(m) => m.well_formed(),
                None => true,
            },
            forall|qx: int, qy: int|
                0 <= qx < w && 0 <= qy < py
                ==> grid.at(qx, qy) == painted_spec(
                    shape_sample_spec(shape, *t, stretch, qx, qy),
                    opt_mask(mask), *t, qx, qy, old(grid).at(qx, qy)),
            forall|qx: int, qy: int|
                0 <= qx < w && py <= qy < h
                ==> grid.at(qx, qy) == old(grid).at(qx, qy),
        decreases h - py,
    {
        let mut px: usize = 0;
        while px < w
            invariant
                grid.well_formed(),
                grid.width == w,
                grid.height == h,
                w == old(grid).width,
                h == old(grid).height,
                w <= u16::MAX,
                h <= u16::MAX,
                py < h,
                px <= w,
                shape_ref_wf(shape),
                match mask {
                    Some(m) => m.well_formed(),
                    None => true,
                },
                forall|qx: int, qy: int|
                    0 <= qx < w && 0 <= qy < py
                    ==> grid.at(qx, qy) == painted_spec(
                        shape_sample_spec(shape, *t, stretch, qx, qy),
                        opt_mask(mask), *t, qx, qy, old(grid).at(qx, qy)),
                forall|qx: int|
                    0 <= qx < px
                    ==> grid.at(qx, py as int) == painted_spec(
                        shape_sample_spec(shape, *t, stretch, qx, py as int),
                        opt_mask(mask), *t, qx, py as int, old(grid).at(qx, py as int)),
                forall|qx: int|
                    px <= qx < w
                    ==> grid.at(qx, py as int) == old(grid).at(qx, py as int),
                forall|qx: int, qy: int|
                    0 <= qx < w && py < qy < h
                    ==> grid.at(qx, qy) == old(grid).at(qx, qy),
            decreases w - px,
        {
            let sample = shape_sample_at(&shape, t, stretch, px, py);
            match sample {
                None => {}
                Some(col) => {
                    let shown = match mask {
                        Some(m) => attenuate(col, mask_coverage_at(m, t, px, py)),
                        None => col,
                    };
                    let under = grid.get_pixel(px, py);
                    grid.set_pixel(px, py, blend(shown, under));
                }
            }
            px = px + 1;
        }
        py = py + 1;
    }
}

/// Paints the circle over the whole buffer (no mask, no culling: the
/// caller culls).
pub fn render_circle(circle: &Circle, transform: &Transform, pixel_grid: &mut PixelBuffer,
    stretch: u16)
    requires
        old(pixel_grid).well_formed(),
    ensures
        final(pixel_grid).well_formed(),
        final(pixel_grid).width == old(pixel_grid).width,
        final(pixel_grid).height == old(pixel_grid).height,
        forall|qx: int, qy: int|
            0 <= qx < old(pixel_grid).width && 0 <= qy < old(pixel_grid).height
            ==> final(pixel_grid).at(qx, qy) == painted_spec(
                shape_sample_spec(ShapeRef::Circ(circle), *transform, stretch, qx, qy),
                None, *transform, qx, qy, old(pixel_grid).at(qx, qy)),
{
    draw_shape(ShapeRef::Circ(circle), transform, pixel_grid, stretch, None);
}

/// Paints the rectangle over the whole buffer.
pub fn render_rectangle(rectangle: &Rectangle, transform: &Transform,
    pixel_grid: &mut PixelBuffer, stretch: u16)
    requires
        old(pixel_grid).well_formed(),
    ensures
        final(pixel_grid).well_formed(),
        final(pixel_grid).width == old(pixel_grid).width,
        final(pixel_grid).height == old(pixel_grid).height,
        forall|qx: int, qy: int|
            0 <= qx < old(pixel_grid).width && 0 <= qy < old(pixel_grid).height
            ==> final(pixel_grid).at(qx, qy) == painted_spec(
                shape_sample_spec(ShapeRef::Rect(rectangle), *transform, stretch, qx, qy),
                None, *transform, qx, qy, old(pixel_grid).at(qx, qy)),
{
    draw_shape(ShapeRef::Rect(rectangle), transform, pixel_grid, stretch, None);
}

/// Paints the texture over the whole buffer (nearest-sampled through the
/// inverse transform, alpha blended source over destination).
pub fn render_texture(texture: &Texture, transform: &Transform, pixel_grid: &mut PixelBuffer,
    stretch: u16)
    requires
        old(pixel_grid).well_formed(),
        texture.well_formed(),
    ensures
        final(pixel_grid).well_formed(),
        final(pixel_grid).width == old(pixel_grid).width,
        final(pixel_grid).height == old(pixel_grid).height,
        forall|qx: int, qy: int|
            0 <= qx < old(pixel_grid).width && 0 <= qy < old(pixel_grid).height
            ==> final(pixel_grid).at(qx, qy) == painted_spec(
                shape_sample_spec(ShapeRef::Tex(texture), *transform, stretch, qx, qy),
                None, *transform, qx, qy, old(pixel_grid).at(qx, qy)),
{
    draw_shape(ShapeRef::Tex(texture), transform, pixel_grid, stretch, None);
}

/// Paints the circle composited through the mask's per-pixel coverage.
pub fn render_circle_with_mask(circle: &Circle, transform: &Transform,
    pixel_grid: &mut PixelBuffer, stretch: u16, mask: &Mask)
    requires
        old(pixel_grid).well_formed(),
        mask.well_formed(),
    ensures
        final(pixel_grid).well_formed(),
        final(pixel_grid).width == old(pixel_grid).width,
        final(pixel_grid).height == old(pixel_grid).height,
        forall|qx: int, qy: int|
            0 <= qx < old(pixel_grid).width && 0 <= qy < old(pixel_grid).height
            ==> final(pixel_grid).at(qx, qy) == painted_spec(
                shape_sample_spec(ShapeRef::Circ(circle), *transform, stretch, qx, qy),
                Some(*mask), *transform, qx, qy, old(pixel_grid).at(qx, qy)),
{
    draw_shape(ShapeRef::Circ(circle), transform, pixel_grid, stretch, Some(mask));
}

/// Paints the rectangle composited through the mask's per-pixel coverage.
pub fn render_rectangle_with_mask(rectangle: &Rectangle, transform: &Transform,
    pixel_grid: &mut PixelBuffer, stretch: u16, mask: &Mask)
    requires
        old(pixel_grid).well_formed(),
        mask.well_formed(),
    ensures
        final(pixel_grid).well_formed(),
        final(pixel_grid).width == old(pixel_grid).width,
        final(pixel_grid).height == old(pixel_grid).height,
        forall|qx: int, qy: int|
            0 <= qx < old(pixel_grid).width && 0 <= qy < old(pixel_grid).height
            ==> final(pixel_grid).at(qx, qy) == painted_spec(
                shape_sample_spec(ShapeRef::Rect(rectangle), *transform, stretch, qx, qy),
                Some(*mask), *transform, qx, qy, old(pixel_grid).at(qx, qy)),
{
    draw_shape(ShapeRef::Rect(rectangle), transform, pixel_grid, stretch, Some(mask));
}

/// Paints the texture composited through the mask's per-pixel coverage.
pub fn render_texture_with_mask(texture: &Texture, transform: &Transform,
    pixel_grid: &mut PixelBuffer, stretch: u16, mask: &Mask)
    requires
        old(pixel_grid).well_formed(),
        texture.well_formed(),
        mask.well_formed(),
    ensures
        final(pixel_grid).well_formed(),
        final(pixel_grid).width == old(pixel_grid).width,
        final(pixel_grid).height == old(pixel_grid).height,
        forall|qx: int, qy: int|
            0 <= qx < old(pixel_grid).width && 0 <= qy < old(pixel_grid).height
            ==> final(pixel_grid).at(qx, qy) == painted_spec(
                shape_sample_spec(ShapeRef::Tex(texture), *transform, stretch, qx, qy),
                Some(*mask), *transform, qx, qy, old(pixel_grid).at(qx, qy)),
{
    draw_shape(ShapeRef::Tex(texture), transform, pixel_grid, stretch, Some(mask));
}

/// Whether every row of the mask's grid has the same length.
pub fn mask_is_well_formed(m: &Mask) -> (r: bool)
    ensures
        r == m.well_formed(),
{
    mask_well_formed_check(m)
}

/// Whether every row of the texture's grid has the same length.
pub fn texture_is_well_formed(tex: &Texture) -> (r: bool)
    ensures
        r == tex.well_formed(),
{
    let h = tex.pixels.len();
    if h == 0 {
        return true;
    }
    let w = tex.pixels[0].len();
    let mut i: usize = 0;
    while i < h
        invariant
            h == tex.pixels@.len(),
            i <= h,
            h > 0,
            w == tex.width_spec(),
            forall|j: int| 0 <= j < i ==> (#[trigger] tex.pixels@[j])@.len() == w,
        decreases h - i,
    {
        if tex.pixels[i].len() != w {
            return false;
        }
        i = i + 1;
    }
    true
}

/// Masked compositing at the extremes: coverage `0` leaves the destination
/// pixel exactly unchanged, and coverage `255` paints exactly what the
/// unmasked draw would.
pub proof fn lemma_mask_coverage_extremes(c: Color, under: Color)
    ensures
        blend_spec(attenuate_spec(c, 0), under) == under,
        attenuate_spec(c, 255) == c,
{
    assert((c.a as int) * 0 / 255 == 0) by (nonlinear_arith);
    assert((c.a as int) * 255 / 255 == c.a as int) by (nonlinear_arith);
    let z = attenuate_spec(c, 0);
    assert(z.a == 0);
    assert(blend_channel_spec(z.r as int, under.r as int, 0) == under.r as int) by {
        assert((z.r as int) * 0 + (under.r as int) * 255 == (under.r as int) * 255);
        vstd::arithmetic::div_mod::lemma_div_multiples_vanish(under.r as int, 255);
        assert(255 * (under.r as int) == (under.r as int) * 255) by (nonlinear_arith);
    }
    assert(blend_channel_spec(z.g as int, under.g as int, 0) == under.g as int) by {
        vstd::arithmetic::div_mod::lemma_div_multiples_vanish(under.g as int, 255);
        assert(255 * (under.g as int) == (under.g as int) * 255) by (nonlinear_arith);
    }
    assert(blend_channel_spec(z.b as int, under.b as int, 0) == under.b as int) by {
        vstd::arithmetic::div_mod::lemma_div_multiples_vanish(under.b as int, 255);
        assert(255 * (under.b as int) == (under.b as int) * 255) by (nonlinear_arith);
    }
    assert(blend_channel_spec(0, under.a as int, 0) == under.a as int) by {
        vstd::arithmetic::div_mod::lemma_div_multiples_vanish(under.a as int, 255);
        assert(255 * (under.a as int) == (under.a as int) * 255) by (nonlinear_arith);
    }
    assert(blend_spec(z, under) == under);
}

} // verus!
