//! The camera: a viewport and the projection that brings the scene into
//! camera space, plus the view-frustum test used to cull unmasked sprites.
use vstd::prelude::*;
use crate::transform::{Transform, Depth, FIXED_ONE, sat64};
use crate::Sprite;

verus! {

/// A camera component: the viewport size in pixels and whether this camera
/// is the one the renderer projects through. Viewport sides are capped at
/// `u16::MAX`, the largest size a terminal can be told to take.
#[derive(Clone, Copy, Debug, PartialEq, Eq, Structural)]
pub struct Camera {
    pub width: u32,
    pub height: u32,
    pub is_active: bool,
}

impl Camera {
    pub open spec fn well_formed(self) -> bool {
        &&& 0 < self.width <= u16::MAX
        &&& 0 < self.height <= u16::MAX
    }
}

/// The inverse-camera transform: position negated and re-centered on the
/// viewport, rotation negated, scale inverted (degenerate to `0` when the
/// camera's own scale is not positive), depth and origin zeroed. Feeding it
/// to the scene collector as the base offset puts every collected transform
/// in camera space.
pub open spec fn camera_inverse_spec(cam_t: Transform, width: u32, height: u32) -> Transform {
    Transform {
        x: sat64(-(cam_t.x as int) + (width as int) * (FIXED_ONE as int) / 2) as i64,
        y: sat64(-(cam_t.y as int) + (height as int) * (FIXED_ONE as int) / 2) as i64,
        z: Depth::Finite(0),
        rotation: sat64(-(cam_t.rotation as int)) as i64,
        scale: if cam_t.scale > 0 {
            sat64((FIXED_ONE as int) * (FIXED_ONE as int) / (cam_t.scale as int)) as i64
        } else {
            0
        },
        origin_x: 0,
        origin_y: 0,
    }
}

fn half_viewport(side: u32) -> (r: i64)
    requires
        side <= u16::MAX,
    ensures
        r as int == (side as int) * (FIXED_ONE as int) / 2,
{
    (side as i64 * FIXED_ONE) / 2
}

fn sat_neg_add(v: i64, off: i64) -> (r: i64)
    ensures
        r as int == sat64(-(v as int) + off as int),
{
    let wide: i128 = -(v as i128) + off as i128;
    if wide > i64::MAX as i128 {
        i64::MAX
    } else if wide < i64::MIN as i128 {
        i64::MIN
    } else {
        wide as i64
    }
}

/// Computes the inverse-camera transform of the active camera.
pub fn camera_inverse_transform(cam_t: &Transform, width: u32, height: u32) -> (r: Transform)
    requires
        width <= u16::MAX,
        height <= u16::MAX,
    ensures
        r == camera_inverse_spec(*cam_t, width, height),
{
    let scale: i64 = if cam_t.scale > 0 {
        (FIXED_ONE as i128 * FIXED_ONE as i128 / cam_t.scale as i128) as i64
    } else {
        0
    };
    assert(cam_t.scale > 0 ==> scale as int
        == sat64((FIXED_ONE as int) * (FIXED_ONE as int) / (cam_t.scale as int))) by {
        if cam_t.scale > 0 {
            vstd::arithmetic::div_mod::lemma_div_is_ordered(
                1, cam_t.scale as int, 1);
            assert((FIXED_ONE as int) * (FIXED_ONE as int) / (cam_t.scale as int)
                <= FIXED_ONE as int * FIXED_ONE as int) by {
                vstd::arithmetic::div_mod::lemma_div_is_ordered_by_denominator(
                    FIXED_ONE as int * FIXED_ONE as int, 1, cam_t.scale as int);
            }
            vstd::arithmetic::div_mod::lemma_div_pos_is_pos(
                FIXED_ONE as int * FIXED_ONE as int, cam_t.scale as int);
        }
    }
    Transform {
        x: sat_neg_add(cam_t.x, half_viewport(width)),
        y: sat_neg_add(cam_t.y, half_viewport(height)),
        z: Depth::Finite(0),
        rotation: sat_neg_add(cam_t.rotation, 0),
        scale,
        origin_x: 0,
        origin_y: 0,
    }
}

/// The window all rasterization math is clamped into: far outside it no
/// pixel of any viewport can be hit, and inside it every product the
/// per-pixel tests need fits the machine integers.
pub const COORD_CLAMP: i64 = 0x100_0000_0000;

/// Clamps a coordinate into the rasterization window.
pub open spec fn clamp_coord_spec(v: int) -> int {
    if v > COORD_CLAMP as int {
        COORD_CLAMP as int
    } else if v < -(COORD_CLAMP as int) {
        -(COORD_CLAMP as int)
    } else {
        v
    }
}

pub fn clamp_coord(v: i64) -> (r: i64)
    ensures
        r as int == clamp_coord_spec(v as int),
        -COORD_CLAMP <= r <= COORD_CLAMP,
{
    if v > COORD_CLAMP {
        COORD_CLAMP
    } else if v < -COORD_CLAMP {
        -COORD_CLAMP
    } else {
        v
    }
}

/// The half-extent, in fixed-point camera units, of a sprite's rendered
/// footprint under a transform: the scaled radius for a circle, half the
/// scaled diagonal bound for a rectangle or texture (a box that holds the
/// shape under any rotation), all clamped into the rasterization window.
/// The fixed-point half-diagonal bound of a texture's footprint, before
/// scaling, clamped into the rasterization window.
pub open spec fn texture_half_diag_spec(w: int, h: int) -> int {
    clamp_coord_spec((w + h + 2) * (FIXED_ONE as int) / 2)
}

pub open spec fn footprint_half_extent_spec(sprite: Sprite, t: Transform) -> int {
    let scale: int = if t.scale > 0 { t.scale as int } else { 0 };
    let raw: int = match sprite {
        Sprite::Circle(c) => (c.radius as int) * scale / (FIXED_ONE as int),
        Sprite::Rectangle(r) => ((r.width as int + r.height as int) / 2 + 1) * scale
            / (FIXED_ONE as int),
        Sprite::Image(im) => texture_half_diag_spec(
            im.texture.width_spec() as int, im.texture.height_spec() as int)
            * scale / (FIXED_ONE as int),
        Sprite::Animation(a) => {
            if a.current_frame < a.frames@.len() {
                let tex = a.frames@[a.current_frame as int].texture;
                texture_half_diag_spec(tex.width_spec() as int, tex.height_spec() as int)
                    * scale / (FIXED_ONE as int)
            } else {
                0
            }
        },
    };
    clamp_coord_spec(raw)
}

/// Whether a sprite's footprint, centered on its camera-space transform,
/// meets the viewport rectangle. Unmasked draws skip sprites that fail this
/// test; the test is generous (a bounding box), never the shape itself.
pub open spec fn object_in_view_spec(cam: Camera, t: Transform, sprite: Sprite, stretch: u16) -> bool {
    let ext = footprint_half_extent_spec(sprite, t);
    let st: int = if stretch > 0 { stretch as int } else { FIXED_ONE as int };
    let cx = clamp_coord_spec(t.x as int + t.origin_x as int);
    let cy = clamp_coord_spec(t.y as int + t.origin_y as int);
    // Horizontal extents widen by the stretch factor: a world unit spans
    // `stretch / FIXED_ONE` columns.
    &&& (cx - ext * st / (FIXED_ONE as int)) < (cam.width as int) * (FIXED_ONE as int)
    &&& (cx + ext * st / (FIXED_ONE as int)) >= 0
    &&& (cy - ext) < (cam.height as int) * (FIXED_ONE as int)
    &&& (cy + ext) >= 0
}

fn texture_half_diag(w: usize, h: usize) -> (r: i64)
    ensures
        r as int == texture_half_diag_spec(w as int, h as int),
        0 <= r <= COORD_CLAMP,
{
    let raw: i128 = (w as i128 + h as i128 + 2) * FIXED_ONE as i128 / 2;
    assert((w as int + h as int + 2) * (FIXED_ONE as int) >= 0) by (nonlinear_arith)
        requires w as int >= 0 && h as int >= 0;
    if raw > COORD_CLAMP as i128 {
        COORD_CLAMP
    } else {
        raw as i64
    }
}

fn scaled_extent(base: i64, scale: i64) -> (r: i64)
    requires
        0 <= base <= COORD_CLAMP,
        0 <= scale,
    ensures
        r as int == clamp_coord_spec(base as int * (scale as int) / (FIXED_ONE as int)),
        0 <= r <= COORD_CLAMP,
{
    assert(0 <= base as int * (scale as int)
        <= COORD_CLAMP as int * (i64::MAX as int)) by (nonlinear_arith)
        requires 0 <= base as int <= COORD_CLAMP as int && 0 <= scale as int <= i64::MAX as int;
    proof {
        vstd::arithmetic::div_mod::lemma_div_pos_is_pos(
            base as int * (scale as int), FIXED_ONE as int);
    }
    let raw: i128 = base as i128 * scale as i128 / FIXED_ONE as i128;
    if raw > COORD_CLAMP as i128 {
        COORD_CLAMP
    } else {
        raw as i64
    }
}

fn footprint_half_extent(sprite: &Sprite, t: &Transform) -> (r: i64)
    ensures
        r as int == footprint_half_extent_spec(*sprite, *t),
        0 <= r <= COORD_CLAMP,
{
    let scale: i64 = if t.scale > 0 { t.scale } else { 0 };
    match sprite {
        Sprite::Circle(c) => {
            if c.radius as i64 > COORD_CLAMP {
                // Unreachable for a u32 radius; keeps the bound syntactic.
                scaled_extent(COORD_CLAMP, scale)
            } else {
                scaled_extent(c.radius as i64, scale)
            }
        },
        Sprite::Rectangle(rc) => {
            let base: i64 = (rc.width as i64 + rc.height as i64) / 2 + 1;
            scaled_extent(base, scale)
        },
        Sprite::Image(im) => {
            let h = im.texture.pixels.len();
            let w = if h == 0 { 0 } else { im.texture.pixels[0].len() };
            scaled_extent(texture_half_diag(w, h), scale)
        },
        Sprite::Animation(a) => {
            if a.current_frame < a.frames.len() {
                let tex = &a.frames[a.current_frame].texture;
                let h = tex.pixels.len();
                let w = if h == 0 { 0 } else { tex.pixels[0].len() };
                scaled_extent(texture_half_diag(w, h), scale)
            } else {
                0
            }
        },
    }
}

/// The view-frustum test: whether the sprite's footprint under `t` meets
/// the camera's viewport.
pub fn object_is_in_view_of_camera(cam: &Camera, t: &Transform, sprite: &Sprite, stretch: u16)
    -> (r: bool)
    ensures
        r == object_in_view_spec(*cam, *t, *sprite, stretch),
{
    let ext: i64 = footprint_half_extent(sprite, t);
    let st: i64 = if stretch > 0 { stretch as i64 } else { FIXED_ONE };
    let cx: i64 = clamp_coord(sat_add_coord(t.x, t.origin_x));
    let cy: i64 = clamp_coord(sat_add_coord(t.y, t.origin_y));
    assert(0 <= ext as int * (st as int) <= COORD_CLAMP as int * (u16::MAX as int + 1))
        by (nonlinear_arith)
        requires 0 <= ext as int <= COORD_CLAMP as int
            && 0 < st as int <= u16::MAX as int + 1;
    proof {
        vstd::arithmetic::div_mod::lemma_div_pos_is_pos(
            ext as int * (st as int), FIXED_ONE as int);
        vstd::arithmetic::div_mod::lemma_div_is_ordered_by_denominator(
            ext as int * (st as int), 1, FIXED_ONE as int);
    }
    let ext_x: i64 = (ext as i128 * st as i128 / FIXED_ONE as i128) as i64;
    let wfp: i64 = cam.width as i64 * FIXED_ONE;
    let hfp: i64 = cam.height as i64 * FIXED_ONE;
    (cx as i128 - ext_x as i128) < wfp as i128
        && (cx as i128 + ext_x as i128) >= 0
        && (cy as i128 - ext as i128) < hfp as i128
        && (cy as i128 + ext as i128) >= 0
}

fn sat_add_coord(a: i64, b: i64) -> (r: i64)
    ensures
        r as int == sat64(a as int + b as int),
{
    let wide: i128 = a as i128 + b as i128;
    if wide > i64::MAX as i128 {
        i64::MAX
    } else if wide < i64::MIN as i128 {
        i64::MIN
    } else {
        wide as i64
    }
}

} // verus!
