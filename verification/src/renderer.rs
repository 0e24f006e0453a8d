//! The renderer: one frame per call. It finds the single active camera,
//! projects the scene into camera space, collects and depth-sorts the
//! renderable entities, rasterizes them in painter's-algorithm order into a
//! fresh pixel buffer, and diffs that buffer against the previous frame's
//! to produce the glyph writes the terminal needs.
use vstd::prelude::*;
use crate::{Color, SceneParams, Sprite, RenderError};
use crate::transform::{Transform, compose, compose_spec};
use crate::scene::{Scene, Node};
use crate::mask::Mask;
use crate::camera::{Camera, camera_inverse_spec, camera_inverse_transform,
    object_in_view_spec, object_is_in_view_of_camera};
use crate::raster::{PixelBuffer, ShapeRef, shape_sample_spec, painted_spec,
    render_circle, render_rectangle, render_texture,
    render_circle_with_mask, render_rectangle_with_mask, render_texture_with_mask,
    mask_is_well_formed, texture_is_well_formed};
use crate::depth::{collect_renderable_entities, sort_by_depth, collect_spec,
    sort_by_depth_spec, models, has_invalid_depth,
    lemma_sort_by_depth_sorted, lemma_sort_membership, lemma_collect_paths_valid};
use crate::presenter::{CellWrite, present, diff_cells, char_ok,
    lemma_resized_full_repaint};
use crate::animation::{update_animation, update_animation_spec};

verus! {

/// The renderer's own frame parameters: the buffer size (taken from the
/// active camera), the aspect-correction stretch factor (fixed-point, see
/// [`crate::transform::FIXED_ONE`]) and the integer pixel scale.
pub struct RendererParams {
    pub width: u32,
    pub height: u32,
    pub stretch: u16,
    pub pixel_scale: u16,
}

/// The renderer: frame parameters, scene presentation parameters, and the
/// previous frame's pixel buffer kept for diffing (empty before the first
/// frame).
pub struct Renderer {
    pub renderer_params: RendererParams,
    pub scene_params: SceneParams,
    pub last_pixel_grid: PixelBuffer,
}

/// The index of the first entity carrying an active camera, scanning the
/// arena in index order (the order entities were added): the first active
/// camera wins and any further active cameras are ignored.
pub open spec fn first_active_camera(scene: Scene, i: int) -> Option<int>
    decreases scene.nodes@.len() - i,
    when 0 <= i <= scene.nodes@.len()
{
    if i >= scene.nodes@.len() {
        None
    } else {
        match scene.nodes@[i].camera {
            Some(c) => if c.is_active {
                Some(i)
            } else {
                first_active_camera(scene, i + 1)
            },
            None => first_active_camera(scene, i + 1),
        }
    }
}

fn find_active_camera(scene: &Scene) -> (r: Option<usize>)
    ensures
        match r {
            Some(i) => first_active_camera(*scene, 0) == Some(i as int),
            None => first_active_camera(*scene, 0) is None,
        },
{
    let n = scene.nodes.len();
    let mut k: usize = 0;
    while k < n
        invariant
            n == scene.nodes@.len(),
            k <= n,
            first_active_camera(*scene, 0) == first_active_camera(*scene, k as int),
        decreases n - k,
    {
        match &scene.nodes[k].camera {
            Some(c) => {
                if c.is_active {
                    return Some(k);
                }
            }
            None => {}
        }
        k = k + 1;
    }
    None
}

/// Two scenes holding the same entities: equal node and root views.
pub open spec fn same_scene(a: Scene, b: Scene) -> bool {
    a.nodes@ == b.nodes@ && a.roots@ == b.roots@
}

/// Two buffers holding the same frame: equal dimensions and cell views.
pub open spec fn same_grid(a: PixelBuffer, b: PixelBuffer) -> bool {
    a.width == b.width && a.height == b.height && a.data@ == b.data@
}

/// The scene after a frame differs from the scene before it only in
/// sprite state (animations advance as they are drawn): every entity keeps
/// its transform, mask, camera and children.
pub open spec fn same_scene_structure(a: Scene, b: Scene) -> bool {
    &&& a.nodes@.len() == b.nodes@.len()
    &&& a.roots@ == b.roots@
    &&& forall|i: int| 0 <= i < a.nodes@.len() ==> {
        &&& (#[trigger] a.nodes@[i]).transform == b.nodes@[i].transform
        &&& a.nodes@[i].mask == b.nodes@[i].mask
        &&& a.nodes@[i].camera == b.nodes@[i].camera
        &&& a.nodes@[i].children@ == b.nodes@[i].children@
    }
}

/// What a sprite shows at one pixel at draw time: its fill color where its
/// shape covers the pixel, the sampled texel for an image or for an
/// animation's current frame, and nothing for a ragged (ill-formed)
/// texture, an out-of-range frame index, or an uncovered pixel.
pub open spec fn sprite_sample_spec(sprite: Sprite, t: Transform, stretch: u16, qx: int, qy: int)
    -> Option<Color>
{
    match sprite {
        Sprite::Circle(c) => if crate::raster::circle_covers(c, t, stretch, qx, qy) {
            Some(c.color)
        } else {
            None
        },
        Sprite::Rectangle(rc) => if crate::raster::rect_covers(rc, t, stretch, qx, qy) {
            Some(rc.color)
        } else {
            None
        },
        Sprite::Image(im) => if im.texture.well_formed() {
            crate::raster::texture_sample_spec(im.texture, t, stretch, qx, qy)
        } else {
            None
        },
        Sprite::Animation(a) => if a.current_frame < a.frames@.len()
            && a.frames@[a.current_frame as int].texture.well_formed() {
            crate::raster::texture_sample_spec(
                a.frames@[a.current_frame as int].texture, t, stretch, qx, qy)
        } else {
            None
        },
    }
}

/// A sprite's state after the draw-time animation advance: an animation's
/// clock moves to `now_ms`; every other sprite is untouched.
pub open spec fn advanced_sprite_spec(sprite: Sprite, now_ms: u64) -> Sprite {
    match sprite {
        Sprite::Animation(a) => Sprite::Animation(update_animation_spec(a, now_ms)),
        _ => sprite,
    }
}

/// `grid1` is `grid0` with the sprite painted over it, pixel for pixel,
/// through `maskv` when a mask is given.
pub open spec fn painted_grid(
    grid0: PixelBuffer,
    grid1: PixelBuffer,
    sprite: Sprite,
    t: Transform,
    stretch: u16,
    maskv: Option<Mask>,
) -> bool {
    &&& grid1.well_formed()
    &&& grid1.width == grid0.width
    &&& grid1.height == grid0.height
    &&& forall|qx: int, qy: int| 0 <= qx < grid0.width && 0 <= qy < grid0.height
        ==> #[trigger] grid1.at(qx, qy) == painted_spec(
            sprite_sample_spec(sprite, t, stretch, qx, qy), maskv, t, qx, qy,
            grid0.at(qx, qy))
}

/// One depth item's whole effect on the scene and the buffer, exactly as
/// the draw pass makes it:
/// - the entity at the end of the item's path has its animation clock
///   advanced (if its sprite is an animation) whenever it has a transform;
/// - an unmasked renderable (sprite and transform, no mask) is painted at
///   the item's accumulated transform, but only when it passes the camera
///   view test;
/// - a masked renderable (sprite, mask and transform) is painted through
///   its mask — no culling — at its own transform composed onto the item's
///   accumulated one;
/// - an entity missing a transform, an item that does not re-locate an
///   entity (the collector never emits one), or a ragged mask paints
///   nothing.
pub open spec fn draw_item_rel(
    scene0: Scene,
    grid0: PixelBuffer,
    item: (Seq<usize>, Transform),
    stretch: u16,
    cam: Camera,
    now_ms: u64,
    scene1: Scene,
    grid1: PixelBuffer,
) -> bool {
    let path = item.0;
    let t_item = item.1;
    if path.len() == 0 || path.last() >= scene0.nodes@.len() {
        same_scene(scene0, scene1) && same_grid(grid0, grid1)
    } else {
        let idx = path.last() as int;
        let node = scene0.nodes@[idx];
        match (node.sprite, node.mask, node.transform) {
            (Some(sprite), None, Some(_)) => {
                let drawn = advanced_sprite_spec(sprite, now_ms);
                &&& scene1.nodes@ == scene0.nodes@.update(
                    idx, Node { sprite: Some(drawn), ..node })
                &&& scene1.roots@ == scene0.roots@
                &&& if object_in_view_spec(cam, t_item, drawn, stretch) {
                    painted_grid(grid0, grid1, drawn, t_item, stretch, None)
                } else {
                    same_grid(grid0, grid1)
                }
            },
            (Some(sprite), Some(mask), Some(t_own)) => {
                let drawn = advanced_sprite_spec(sprite, now_ms);
                let t_masked = compose_spec(t_own, t_item);
                &&& scene1.nodes@ == scene0.nodes@.update(
                    idx, Node { sprite: Some(drawn), ..node })
                &&& scene1.roots@ == scene0.roots@
                &&& if mask.well_formed() {
                    painted_grid(grid0, grid1, drawn, t_masked, stretch, Some(mask))
                } else {
                    same_grid(grid0, grid1)
                }
            },
            _ => same_scene(scene0, scene1) && same_grid(grid0, grid1),
        }
    }
}

/// The draw pass: the items' effects applied one after the other, in the
/// order of the (depth-sorted) sequence. Painter's algorithm is this
/// order: a later item paints over what an earlier one left.
pub open spec fn draw_pass_rel(
    scene0: Scene,
    grid0: PixelBuffer,
    items: Seq<(Seq<usize>, Transform)>,
    stretch: u16,
    cam: Camera,
    now_ms: u64,
    scene1: Scene,
    grid1: PixelBuffer,
) -> bool
    decreases items.len(),
{
    if items.len() == 0 {
        same_scene(scene0, scene1) && same_grid(grid0, grid1)
    } else {
        exists|mid_scene: Scene, mid_grid: PixelBuffer|
            #[trigger] draw_item_rel(scene0, grid0, items[0], stretch, cam, now_ms,
                mid_scene, mid_grid)
            && draw_pass_rel(mid_scene, mid_grid, items.skip(1), stretch, cam, now_ms,
                scene1, grid1)
    }
}

/// The whole frame: some background-filled buffer of the camera's
/// resolution, transformed by the draw pass over the depth-sorted collected
/// items.
pub open spec fn frame_rel(
    scene0: Scene,
    offset: Transform,
    stretch: u16,
    cam: Camera,
    now_ms: u64,
    bg: Color,
    scene1: Scene,
    grid1: PixelBuffer,
) -> bool {
    exists|g0: PixelBuffer|
        #[trigger] g0.well_formed()
        && g0.width == cam.width
        && g0.height == cam.height
        && (forall|px: int, py: int| 0 <= px < g0.width && 0 <= py < g0.height
            ==> #[trigger] g0.at(px, py) == bg)
        && draw_pass_rel(scene0, g0, sort_by_depth_spec(collect_spec(scene0, offset)),
            stretch, cam, now_ms, scene1, grid1)
}

/// The item relation reads its starting scene and buffer only through
/// their views, so view-equal starts give the same relation.
proof fn lemma_item_rel_view(
    sa: Scene,
    ga: PixelBuffer,
    sb: Scene,
    gb: PixelBuffer,
    item: (Seq<usize>, Transform),
    stretch: u16,
    cam: Camera,
    now_ms: u64,
    s1: Scene,
    g1: PixelBuffer,
)
    requires
        same_scene(sa, sb),
        same_grid(ga, gb),
        draw_item_rel(sb, gb, item, stretch, cam, now_ms, s1, g1),
    ensures
        draw_item_rel(sa, ga, item, stretch, cam, now_ms, s1, g1),
{
    assert(forall|qx: int, qy: int| ga.at(qx, qy) == #[trigger] gb.at(qx, qy));
}

proof fn lemma_draw_pass_snoc(
    scene0: Scene,
    grid0: PixelBuffer,
    items: Seq<(Seq<usize>, Transform)>,
    stretch: u16,
    cam: Camera,
    now_ms: u64,
    s1: Scene,
    g1: PixelBuffer,
    item: (Seq<usize>, Transform),
    s2: Scene,
    g2: PixelBuffer,
)
    requires
        draw_pass_rel(scene0, grid0, items, stretch, cam, now_ms, s1, g1),
        draw_item_rel(s1, g1, item, stretch, cam, now_ms, s2, g2),
    ensures
        draw_pass_rel(scene0, grid0, items.push(item), stretch, cam, now_ms, s2, g2),
    decreases items.len(),
{
    let whole = items.push(item);
    if items.len() == 0 {
        lemma_item_rel_view(scene0, grid0, s1, g1, item, stretch, cam, now_ms, s2, g2);
        assert(whole[0] == item);
        assert(whole.skip(1) =~= Seq::<(Seq<usize>, Transform)>::empty());
        assert(draw_item_rel(scene0, grid0, whole[0], stretch, cam, now_ms, s2, g2));
        assert(draw_pass_rel(s2, g2, whole.skip(1), stretch, cam, now_ms, s2, g2));
    } else {
        let (ms, mg) = choose|ms: Scene, mg: PixelBuffer|
            #[trigger] draw_item_rel(scene0, grid0, items[0], stretch, cam, now_ms, ms, mg)
            && draw_pass_rel(ms, mg, items.skip(1), stretch, cam, now_ms, s1, g1);
        lemma_draw_pass_snoc(ms, mg, items.skip(1), stretch, cam, now_ms, s1, g1,
            item, s2, g2);
        assert(whole[0] == items[0]);
        assert(whole.skip(1) =~= items.skip(1).push(item));
        assert(draw_item_rel(scene0, grid0, whole[0], stretch, cam, now_ms, ms, mg));
        assert(draw_pass_rel(ms, mg, whole.skip(1), stretch, cam, now_ms, s2, g2));
    }
}


proof fn lemma_grid_pointwise_eq(a: PixelBuffer, b: PixelBuffer)
    requires
        a.well_formed(),
        b.well_formed(),
        a.width == b.width,
        a.height == b.height,
        forall|qx: int, qy: int| 0 <= qx < a.width && 0 <= qy < a.height
            ==> #[trigger] a.at(qx, qy) == b.at(qx, qy),
    ensures
        same_grid(a, b),
{
    assert forall|m: int| 0 <= m < a.data@.len() implies a.data@[m] == b.data@[m] by {
        let w = a.width as int;
        let h = a.height as int;
        assert(a.data@.len() == w * h);
        assert(w > 0) by (nonlinear_arith)
            requires 0 <= m < w * h && w >= 0 && h >= 0;
        let qy = m / w;
        let qx = m % w;
        vstd::arithmetic::div_mod::lemma_fundamental_div_mod(m, w);
        vstd::arithmetic::div_mod::lemma_mod_bound(m, w);
        vstd::arithmetic::div_mod::lemma_div_pos_is_pos(m, w);
        assert(qy < h) by (nonlinear_arith)
            requires m < w * h && w > 0 && m == w * qy + qx && 0 <= qx && 0 <= qy;
        assert(a.at(qx, qy) == b.at(qx, qy));
        assert(qy * w + qx == m);
    }
    assert(a.data@ =~= b.data@);
}

proof fn lemma_item_rel_deterministic(
    s0: Scene,
    g0: PixelBuffer,
    item: (Seq<usize>, Transform),
    stretch: u16,
    cam: Camera,
    now_ms: u64,
    s1a: Scene,
    g1a: PixelBuffer,
    s1b: Scene,
    g1b: PixelBuffer,
)
    requires
        g0.well_formed(),
        draw_item_rel(s0, g0, item, stretch, cam, now_ms, s1a, g1a),
        draw_item_rel(s0, g0, item, stretch, cam, now_ms, s1b, g1b),
    ensures
        same_scene(s1a, s1b),
        same_grid(g1a, g1b),
        g1a.well_formed(),
{
    let path = item.0;
    if path.len() == 0 || path.last() >= s0.nodes@.len() {
    } else {
        let idx = path.last() as int;
        let node = s0.nodes@[idx];
        match (node.sprite, node.mask, node.transform) {
            (Some(sprite), None, Some(_)) => {
                let drawn = advanced_sprite_spec(sprite, now_ms);
                if object_in_view_spec(cam, item.1, drawn, stretch) {
                    lemma_grid_pointwise_eq(g1a, g1b);
                }
            },
            (Some(sprite), Some(mask), Some(_)) => {
                if mask.well_formed() {
                    lemma_grid_pointwise_eq(g1a, g1b);
                }
            },
            _ => {},
        }
    }
}

proof fn lemma_pass_rel_view(
    sa: Scene,
    ga: PixelBuffer,
    sb: Scene,
    gb: PixelBuffer,
    items: Seq<(Seq<usize>, Transform)>,
    stretch: u16,
    cam: Camera,
    now_ms: u64,
    s1: Scene,
    g1: PixelBuffer,
)
    requires
        same_scene(sa, sb),
        same_grid(ga, gb),
        draw_pass_rel(sb, gb, items, stretch, cam, now_ms, s1, g1),
    ensures
        draw_pass_rel(sa, ga, items, stretch, cam, now_ms, s1, g1),
    decreases items.len(),
{
    if items.len() > 0 {
        let (ms, mg) = choose|ms: Scene, mg: PixelBuffer|
            #[trigger] draw_item_rel(sb, gb, items[0], stretch, cam, now_ms, ms, mg)
            && draw_pass_rel(ms, mg, items.skip(1), stretch, cam, now_ms, s1, g1);
        lemma_item_rel_view(sa, ga, sb, gb, items[0], stretch, cam, now_ms, ms, mg);
        assert(draw_item_rel(sa, ga, items[0], stretch, cam, now_ms, ms, mg));
    }
}

proof fn lemma_pass_rel_deterministic(
    s0: Scene,
    g0: PixelBuffer,
    items: Seq<(Seq<usize>, Transform)>,
    stretch: u16,
    cam: Camera,
    now_ms: u64,
    s1a: Scene,
    g1a: PixelBuffer,
    s1b: Scene,
    g1b: PixelBuffer,
)
    requires
        g0.well_formed(),
        draw_pass_rel(s0, g0, items, stretch, cam, now_ms, s1a, g1a),
        draw_pass_rel(s0, g0, items, stretch, cam, now_ms, s1b, g1b),
    ensures
        same_scene(s1a, s1b),
        same_grid(g1a, g1b),
    decreases items.len(),
{
    if items.len() == 0 {
    } else {
        let (msa, mga) = choose|msa: Scene, mga: PixelBuffer|
            #[trigger] draw_item_rel(s0, g0, items[0], stretch, cam, now_ms, msa, mga)
            && draw_pass_rel(msa, mga, items.skip(1), stretch, cam, now_ms, s1a, g1a);
        let (msb, mgb) = choose|msb: Scene, mgb: PixelBuffer|
            #[trigger] draw_item_rel(s0, g0, items[0], stretch, cam, now_ms, msb, mgb)
            && draw_pass_rel(msb, mgb, items.skip(1), stretch, cam, now_ms, s1b, g1b);
        lemma_item_rel_deterministic(s0, g0, items[0], stretch, cam, now_ms,
            msa, mga, msb, mgb);
        lemma_pass_rel_view(msa, mga, msb, mgb, items.skip(1), stretch, cam, now_ms,
            s1b, g1b);
        lemma_pass_rel_deterministic(msa, mga, items.skip(1), stretch, cam, now_ms,
            s1a, g1a, s1b, g1b);
    }
}

/// The frame is a function of its inputs: two draw passes over the same
/// scene, camera, clock and background paint the same buffer and leave the
/// same scene. So rendering a scene twice with no state change in between
/// yields an identical retained frame, and the presenter
/// ([`crate::presenter::lemma_identical_frames_no_writes`]) then emits zero
/// writes for the second frame.
pub proof fn lemma_frame_deterministic(
    scene0: Scene,
    offset: Transform,
    stretch: u16,
    cam: Camera,
    now_ms: u64,
    bg: Color,
    s1a: Scene,
    g1a: PixelBuffer,
    s1b: Scene,
    g1b: PixelBuffer,
)
    requires
        frame_rel(scene0, offset, stretch, cam, now_ms, bg, s1a, g1a),
        frame_rel(scene0, offset, stretch, cam, now_ms, bg, s1b, g1b),
    ensures
        same_scene(s1a, s1b),
        same_grid(g1a, g1b),
{
    let items = sort_by_depth_spec(collect_spec(scene0, offset));
    let g0a = choose|g0a: PixelBuffer|
        #[trigger] g0a.well_formed()
        && g0a.width == cam.width
        && g0a.height == cam.height
        && (forall|px: int, py: int| 0 <= px < g0a.width && 0 <= py < g0a.height
            ==> #[trigger] g0a.at(px, py) == bg)
        && draw_pass_rel(scene0, g0a, items, stretch, cam, now_ms, s1a, g1a);
    let g0b = choose|g0b: PixelBuffer|
        #[trigger] g0b.well_formed()
        && g0b.width == cam.width
        && g0b.height == cam.height
        && (forall|px: int, py: int| 0 <= px < g0b.width && 0 <= py < g0b.height
            ==> #[trigger] g0b.at(px, py) == bg)
        && draw_pass_rel(scene0, g0b, items, stretch, cam, now_ms, s1b, g1b);
    lemma_grid_pointwise_eq(g0a, g0b);
    lemma_pass_rel_view(scene0, g0a, scene0, g0b, items, stretch, cam, now_ms, s1b, g1b);
    lemma_pass_rel_deterministic(scene0, g0a, items, stretch, cam, now_ms,
        s1a, g1a, s1b, g1b);
}

proof fn lemma_first_active_camera_props(scene: Scene, i: int)
    requires
        0 <= i <= scene.nodes@.len(),
    ensures
        match first_active_camera(scene, i) {
            Some(j) => i <= j < scene.nodes@.len()
                && scene.nodes@[j].camera is Some
                && scene.nodes@[j].camera->Some_0.is_active,
            None => true,
        },
    decreases scene.nodes@.len() - i,
{
    if i < scene.nodes@.len() {
        lemma_first_active_camera_props(scene, i + 1);
    }
}

impl Renderer {
    /// A fresh renderer: a 160x160 buffer expectation, stretch 2.3, pixel
    /// scale 1, default scene parameters, and no previous frame (so the
    /// first frame paints fully).
    pub fn new() -> (r: Renderer)
        ensures
            r.renderer_params.width == 160,
            r.renderer_params.height == 160,
            r.renderer_params.stretch == 2300,
            r.renderer_params.pixel_scale == 1,
            r.scene_params == (SceneParams {
                background_color: Color { r: 0, g: 0, b: 0, a: 255 },
                is_random_chars: false,
                character: '=',
            }),
            r.last_pixel_grid.well_formed(),
            r.last_pixel_grid.width == 0,
            r.last_pixel_grid.height == 0,
    {
        Renderer {
            renderer_params: RendererParams {
                width: 160,
                height: 160,
                stretch: 2300,
                pixel_scale: 1,
            },
            scene_params: SceneParams::new(),
            last_pixel_grid: PixelBuffer::new(0, 0, Color { r: 0, g: 0, b: 0, a: 255 }),
        }
    }

    /// Sets the aspect-correction stretch factor (fixed-point: `2300`
    /// stands for 2.3).
    pub fn set_stretch(&mut self, stretch: u16)
        ensures
            final(self).renderer_params == (RendererParams {
                stretch, ..old(self).renderer_params }),
            final(self).scene_params == old(self).scene_params,
            final(self).last_pixel_grid == old(self).last_pixel_grid,
    {
        self.renderer_params.stretch = stretch;
    }

    /// Sets the pixel scale: each logical pixel becomes an `N x N` block of
    /// terminal cells. The caller resizes the terminal accordingly.
    pub fn set_pixel_scale(&mut self, pixel_scale: u16)
        ensures
            final(self).renderer_params == (RendererParams {
                pixel_scale, ..old(self).renderer_params }),
            final(self).scene_params == old(self).scene_params,
            final(self).last_pixel_grid == old(self).last_pixel_grid,
    {
        self.renderer_params.pixel_scale = pixel_scale;
    }

    pub fn set_scene_params(&mut self, scene_params: SceneParams)
        ensures
            final(self).scene_params == scene_params,
            final(self).renderer_params == old(self).renderer_params,
            final(self).last_pixel_grid == old(self).last_pixel_grid,
    {
        self.scene_params = scene_params;
    }

    pub fn get_scene_params(&self) -> (p: SceneParams)
        ensures
            p == self.scene_params,
    {
        self.scene_params
    }

    /// Renders one frame of the scene at time `now_ms` and returns the
    /// glyph writes of the diff against the previous frame.
    ///
    /// Fatal cases, reported instead of output: no active camera in the
    /// scene; an active camera without a transform or with an unusable
    /// resolution; a collected depth that does not compare. On success the
    /// retained buffer is exactly the frame the draw pass paints over the
    /// background fill ([`frame_rel`]), and the writes are exactly its
    /// diff against the previous frame — the whole frame after a camera
    /// resize.
    pub fn render(&mut self, scene: &mut Scene, now_ms: u64)
        -> (r: Result<Vec<CellWrite>, RenderError>)
        requires
            old(scene).well_formed(),
            old(self).last_pixel_grid.well_formed(),
        ensures
            final(self).last_pixel_grid.well_formed(),
            same_scene_structure(*old(scene), *final(scene)),
            r == Err::<Vec<CellWrite>, RenderError>(RenderError::NoActiveCamera)
                <==> first_active_camera(*old(scene), 0) is None,
            r == Err::<Vec<CellWrite>, RenderError>(RenderError::CameraWithoutTransform)
                <==> (match first_active_camera(*old(scene), 0) {
                    Some(ci) => old(scene).nodes@[ci].transform is None,
                    None => false,
                }),
            r == Err::<Vec<CellWrite>, RenderError>(RenderError::InvalidCameraResolution)
                <==> (match first_active_camera(*old(scene), 0) {
                    Some(ci) => old(scene).nodes@[ci].transform is Some
                        && !old(scene).nodes@[ci].camera->Some_0.well_formed(),
                    None => false,
                }),
            (match first_active_camera(*old(scene), 0) {
                Some(ci) => match old(scene).nodes@[ci].transform {
                    Some(cam_t) => ({
                        let cam = old(scene).nodes@[ci].camera->Some_0;
                        let w = cam.width;
                        let h = cam.height;
                        let offset = camera_inverse_spec(cam_t, w, h);
                        let items = collect_spec(*old(scene), offset);
                        let resized = old(self).renderer_params.width != w
                            || old(self).renderer_params.height != h;
                        &&& (cam.well_formed() ==> {
                            &&& (r == Err::<Vec<CellWrite>, RenderError>(
                                    RenderError::InvalidDepth)
                                <==> has_invalid_depth(items))
                            &&& (!has_invalid_depth(items) ==> r is Ok)
                        })
                        &&& (r is Ok ==> {
                            let writes = r->Ok_0;
                            &&& final(self).renderer_params.width == w
                            &&& final(self).renderer_params.height == h
                            &&& final(self).renderer_params.stretch
                                == old(self).renderer_params.stretch
                            &&& final(self).renderer_params.pixel_scale
                                == old(self).renderer_params.pixel_scale
                            &&& final(self).scene_params == old(self).scene_params
                            &&& final(self).last_pixel_grid.width == w
                            &&& final(self).last_pixel_grid.height == h
                            &&& frame_rel(*old(scene), offset,
                                old(self).renderer_params.stretch, cam, now_ms,
                                old(self).scene_params.background_color,
                                *final(scene), final(self).last_pixel_grid)
                            &&& (resized ==> {
                                &&& writes@.len() == w * h
                                &&& forall|i: int| 0 <= i < writes@.len() ==> {
                                    let wr = #[trigger] writes@[i];
                                    &&& wr.x as int == i % (w as int)
                                    &&& wr.y as int == i / (w as int)
                                    &&& wr.color == final(self).last_pixel_grid.at(
                                        i % (w as int), i / (w as int))
                                    &&& char_ok(old(self).scene_params, wr.character)
                                }
                            })
                            &&& (!resized ==> {
                                let diff = diff_cells(
                                    old(self).last_pixel_grid, final(self).last_pixel_grid);
                                &&& writes@.len() == diff.len()
                                &&& forall|i: int| 0 <= i < writes@.len() ==> {
                                    let idx = #[trigger] diff[i];
                                    &&& writes@[i].x as int == idx % (w as int)
                                    &&& writes@[i].y as int == idx / (w as int)
                                    &&& writes@[i].color == final(self).last_pixel_grid.at(
                                        idx % (w as int), idx / (w as int))
                                    &&& char_ok(old(self).scene_params, writes@[i].character)
                                }
                            })
                            &&& (items.len() == 0 ==> forall|px: int, py: int|
                                0 <= px < w && 0 <= py < h
                                ==> final(self).last_pixel_grid.at(px, py)
                                    == old(self).scene_params.background_color)
                        })
                    }),
                    None => true,
                },
                None => true,
            }),
    {
        proof {
            lemma_first_active_camera_props(*scene, 0);
        }
        let ci = match find_active_camera(scene) {
            Some(ci) => ci,
            None => {
                return Err(RenderError::NoActiveCamera);
            }
        };
        let cam: Camera = match &scene.nodes[ci].camera {
            Some(c) => *c,
            None => {
                return Err(RenderError::NoActiveCamera);
            }
        };
        let cam_t: Transform = match &scene.nodes[ci].transform {
            Some(t) => *t,
            None => {
                return Err(RenderError::CameraWithoutTransform);
            }
        };
        if cam.width == 0 || cam.height == 0
            || cam.width > u16::MAX as u32 || cam.height > u16::MAX as u32 {
            return Err(RenderError::InvalidCameraResolution);
        }
        let w = cam.width;
        let h = cam.height;
        let resized = self.renderer_params.width != w || self.renderer_params.height != h;
        self.renderer_params.width = w;
        self.renderer_params.height = h;

        let mut pixel_grid = PixelBuffer::new(w, h, self.scene_params.background_color);
        let ghost g0 = pixel_grid;
        let offset = camera_inverse_transform(&cam_t, w, h);
        match self.render_objects(scene, &mut pixel_grid, &offset, &cam, now_ms) {
            Ok(()) => {}
            Err(e) => {
                return Err(e);
            }
        }
        proof {
            assert(frame_rel(*old(scene), offset, self.renderer_params.stretch, cam,
                now_ms, self.scene_params.background_color, *scene, pixel_grid));
            let items_g = collect_spec(*old(scene), offset);
            if items_g.len() == 0 {
                crate::depth::lemma_sort_by_depth_sorted(items_g);
                assert(sort_by_depth_spec(items_g).len() == 0);
                assert(same_grid(g0, pixel_grid));
                assert forall|px: int, py: int| 0 <= px < w && 0 <= py < h
                    implies #[trigger] pixel_grid.at(px, py)
                        == self.scene_params.background_color by {
                    assert(pixel_grid.at(px, py) == g0.at(px, py));
                    assert(g0.at(px, py) == self.scene_params.background_color);
                }
            }
        }

        let writes = if resized {
            let empty_prev = PixelBuffer::new(0, 0, self.scene_params.background_color);
            let ws = present(&empty_prev, &pixel_grid, &self.scene_params);
            proof {
                lemma_resized_full_repaint(empty_prev, pixel_grid);
                assert forall|i: int| 0 <= i < ws@.len()
                    implies ({
                        let wr = #[trigger] ws@[i];
                        &&& wr.x as int == i % (w as int)
                        &&& wr.y as int == i / (w as int)
                        &&& wr.color == pixel_grid.at(i % (w as int), i / (w as int))
                        &&& char_ok(self.scene_params, wr.character)
                    }) by {
                    assert(diff_cells(empty_prev, pixel_grid)[i] == i);
                }
            }
            ws
        } else {
            present(&self.last_pixel_grid, &pixel_grid, &self.scene_params)
        };
        self.last_pixel_grid = pixel_grid;
        Ok(writes)
    }

    /// Collects, depth-sorts and draws every renderable entity into the
    /// pixel buffer, advancing animations as they are drawn: the buffer
    /// and the scene end exactly as the draw pass over the sorted items
    /// leaves them ([`draw_pass_rel`]). Fails only — and always — when a
    /// collected depth does not compare.
    fn render_objects(
        &self,
        entities_and_components: &mut Scene,
        pixel_grid: &mut PixelBuffer,
        camera_offset: &Transform,
        camera: &Camera,
        now_ms: u64,
    ) -> (r: Result<(), RenderError>)
        requires
            old(entities_and_components).well_formed(),
            old(pixel_grid).well_formed(),
        ensures
            final(pixel_grid).well_formed(),
            final(pixel_grid).width == old(pixel_grid).width,
            final(pixel_grid).height == old(pixel_grid).height,
            same_scene_structure(
                *old(entities_and_components), *final(entities_and_components)),
            ({
                let items = collect_spec(*old(entities_and_components), *camera_offset);
                &&& (r is Err <==> has_invalid_depth(items))
                &&& (r is Err ==> r == Err::<(), RenderError>(RenderError::InvalidDepth))
                &&& (r is Ok ==> draw_pass_rel(
                    *old(entities_and_components), *old(pixel_grid),
                    sort_by_depth_spec(items), self.renderer_params.stretch, *camera,
                    now_ms, *final(entities_and_components), *final(pixel_grid)))
            }),
    {
        let items = collect_renderable_entities(entities_and_components, camera_offset);
        let ghost items_model = models(items@);
        let sorted = match sort_by_depth(items) {
            Ok(s) => s,
            Err(e) => {
                return Err(e);
            }
        };
        let ghost sorted_model = models(sorted@);
        let ghost scene00 = *entities_and_components;
        proof {
            lemma_sort_by_depth_sorted(items_model);
            lemma_sort_membership(items_model);
            lemma_collect_paths_valid(scene00, *camera_offset);
            // Every sorted item is a collected item, so its path re-locates
            // a live entity.
            assert forall|i: int| 0 <= i < sorted_model.len()
                implies (#[trigger] sorted_model[i]).0.len() > 0
                    && sorted_model[i].0.last() < scene00.nodes@.len() by {
                let j = choose|j: int| 0 <= j < items_model.len()
                    && (#[trigger] items_model[j]) == sorted_model[i];
                assert(collect_spec(scene00, *camera_offset)[j] == sorted_model[i]);
            }
        }
        let n = sorted.len();
        let mut k: usize = 0;
        while k < n
            invariant
                n == sorted@.len(),
                k <= n,
                sorted_model == models(sorted@),
                sorted_model == sort_by_depth_spec(
                    collect_spec(*old(entities_and_components), *camera_offset)),
                !has_invalid_depth(collect_spec(*old(entities_and_components), *camera_offset)),
                forall|i: int| 0 <= i < sorted_model.len()
                    ==> (#[trigger] sorted_model[i]).0.len() > 0
                        && sorted_model[i].0.last()
                            < old(entities_and_components).nodes@.len(),
                entities_and_components.well_formed(),
                same_scene_structure(
                    *old(entities_and_components), *entities_and_components),
                entities_and_components.nodes@.len()
                    == old(entities_and_components).nodes@.len(),
                pixel_grid.well_formed(),
                pixel_grid.width == old(pixel_grid).width,
                pixel_grid.height == old(pixel_grid).height,
                draw_pass_rel(*old(entities_and_components), *old(pixel_grid),
                    sorted_model.take(k as int), self.renderer_params.stretch, *camera,
                    now_ms, *entities_and_components, *pixel_grid),
            decreases n - k,
        {
            let ghost scene_pre = *entities_and_components;
            let ghost grid_pre = *pixel_grid;
            let ghost m_item = sorted_model[k as int];
            let item = &sorted[k];
            proof {
                assert(m_item == crate::depth::item_model(sorted@[k as int]));
                assert(item.path@ == m_item.0);
            }
            let idx = item.path[item.path.len() - 1];
            proof {
                assert(idx == m_item.0.last());
                assert(idx < entities_and_components.nodes@.len());
            }
            let item_transform = item.transform;
            let stretch = self.renderer_params.stretch;
            let ghost pre_nodes = entities_and_components.nodes@;
            let mut node = entities_and_components.nodes.remove(idx);
            let ghost node0 = node;
            match (&mut node.sprite, &node.mask, &node.transform) {
                (Some(sprite), None, Some(_)) => {
                    // Advance a drawn animation's clock before sampling its
                    // current frame.
                    if let Sprite::Animation(animation) = sprite {
                        update_animation(animation, now_ms);
                    }
                    if object_is_in_view_of_camera(camera, &item_transform, sprite, stretch) {
                        let ghost drawn = *sprite;
                        match sprite {
                            Sprite::Circle(circle) => {
                                render_circle(circle, &item_transform, pixel_grid, stretch);
                                proof {
                                    assert(forall|qx: int, qy: int|
                                        shape_sample_spec(ShapeRef::Circ(circle),
                                            item_transform, stretch, qx, qy)
                                        == sprite_sample_spec(drawn, item_transform,
                                            stretch, qx, qy));
                                }
                            }
                            Sprite::Rectangle(rectangle) => {
                                render_rectangle(
                                    rectangle, &item_transform, pixel_grid, stretch);
                                proof {
                                    assert(forall|qx: int, qy: int|
                                        shape_sample_spec(ShapeRef::Rect(rectangle),
                                            item_transform, stretch, qx, qy)
                                        == sprite_sample_spec(drawn, item_transform,
                                            stretch, qx, qy));
                                }
                            }
                            Sprite::Image(image) => {
                                if texture_is_well_formed(&image.texture) {
                                    render_texture(
                                        &image.texture, &item_transform, pixel_grid, stretch);
                                    proof {
                                        assert(forall|qx: int, qy: int|
                                            shape_sample_spec(ShapeRef::Tex(&image.texture),
                                                item_transform, stretch, qx, qy)
                                            == sprite_sample_spec(drawn, item_transform,
                                                stretch, qx, qy));
                                    }
                                } else {
                                    proof {
                                        assert(forall|qx: int, qy: int|
                                            sprite_sample_spec(drawn, item_transform,
                                                stretch, qx, qy) is None);
                                    }
                                }
                            }
                            Sprite::Animation(animation) => {
                                if animation.current_frame < animation.frames.len() {
                                    let frame = &animation.frames[animation.current_frame];
                                    if texture_is_well_formed(&frame.texture) {
                                        render_texture(
                                            &frame.texture, &item_transform, pixel_grid,
                                            stretch);
                                        proof {
                                            assert(forall|qx: int, qy: int|
                                                shape_sample_spec(
                                                    ShapeRef::Tex(&frame.texture),
                                                    item_transform, stretch, qx, qy)
                                                == sprite_sample_spec(drawn, item_transform,
                                                    stretch, qx, qy));
                                        }
                                    } else {
                                        proof {
                                            assert(forall|qx: int, qy: int|
                                                sprite_sample_spec(drawn, item_transform,
                                                    stretch, qx, qy) is None);
                                        }
                                    }
                                } else {
                                    proof {
                                        assert(forall|qx: int, qy: int|
                                            sprite_sample_spec(drawn, item_transform,
                                                stretch, qx, qy) is None);
                                    }
                                }
                            }
                        }
                        proof {
                            assert(painted_grid(grid_pre, *pixel_grid, drawn,
                                item_transform, stretch, None));
                        }
                    }
                }
                (Some(sprite), Some(mask), Some(node_transform)) => {
                    // The mask rides with its anchor in the parent's
                    // footprint: compose with the accumulated transform and
                    // skip camera culling.
                    let masked_transform = compose(node_transform, &item_transform);
                    if let Sprite::Animation(animation) = sprite {
                        update_animation(animation, now_ms);
                    }
                    if mask_is_well_formed(mask) {
                        let ghost drawn = *sprite;
                        match sprite {
                            Sprite::Circle(circle) => {
                                render_circle_with_mask(
                                    circle, &masked_transform, pixel_grid, stretch, mask);
                                proof {
                                    assert(forall|qx: int, qy: int|
                                        shape_sample_spec(ShapeRef::Circ(circle),
                                            masked_transform, stretch, qx, qy)
                                        == sprite_sample_spec(drawn, masked_transform,
                                            stretch, qx, qy));
                                }
                            }
                            Sprite::Rectangle(rectangle) => {
                                render_rectangle_with_mask(
                                    rectangle, &masked_transform, pixel_grid, stretch, mask);
                                proof {
                                    assert(forall|qx: int, qy: int|
                                        shape_sample_spec(ShapeRef::Rect(rectangle),
                                            masked_transform, stretch, qx, qy)
                                        == sprite_sample_spec(drawn, masked_transform,
                                            stretch, qx, qy));
                                }
                            }
                            Sprite::Image(image) => {
                                if texture_is_well_formed(&image.texture) {
                                    render_texture_with_mask(
                                        &image.texture, &masked_transform, pixel_grid,
                                        stretch, mask);
                                    proof {
                                        assert(forall|qx: int, qy: int|
                                            shape_sample_spec(ShapeRef::Tex(&image.texture),
                                                masked_transform, stretch, qx, qy)
                                            == sprite_sample_spec(drawn, masked_transform,
                                                stretch, qx, qy));
                                    }
                                } else {
                                    proof {
                                        assert(forall|qx: int, qy: int|
                                            sprite_sample_spec(drawn, masked_transform,
                                                stretch, qx, qy) is None);
                                    }
                                }
                            }
                            Sprite::Animation(animation) => {
                                if animation.current_frame < animation.frames.len() {
                                    let frame = &animation.frames[animation.current_frame];
                                    if texture_is_well_formed(&frame.texture) {
                                        render_texture_with_mask(
                                            &frame.texture, &masked_transform, pixel_grid,
                                            stretch, mask);
                                        proof {
                                            assert(forall|qx: int, qy: int|
                                                shape_sample_spec(
                                                    ShapeRef::Tex(&frame.texture),
                                                    masked_transform, stretch, qx, qy)
                                                == sprite_sample_spec(drawn,
                                                    masked_transform, stretch, qx, qy));
                                        }
                                    } else {
                                        proof {
                                            assert(forall|qx: int, qy: int|
                                                sprite_sample_spec(drawn, masked_transform,
                                                    stretch, qx, qy) is None);
                                        }
                                    }
                                } else {
                                    proof {
                                        assert(forall|qx: int, qy: int|
                                            sprite_sample_spec(drawn, masked_transform,
                                                stretch, qx, qy) is None);
                                    }
                                }
                            }
                        }
                        proof {
                            assert(painted_grid(grid_pre, *pixel_grid, drawn,
                                masked_transform, stretch, Some(*mask)));
                        }
                    }
                }
                // An entity with a sprite but no transform cannot be
                // positioned: it is skipped, not an error.
                _ => {}
            }
            entities_and_components.nodes.insert(idx, node);
            proof {
                assert(entities_and_components.nodes@
                    =~= pre_nodes.update(idx as int, node));
                assert(entities_and_components.well_formed());
                assert(same_scene_structure(
                    *old(entities_and_components), *entities_and_components));
                match (node0.sprite, node0.mask, node0.transform) {
                    (Some(_), None, Some(_)) => {
                        assert(node == (Node {
                            sprite: Some(advanced_sprite_spec(
                                node0.sprite->Some_0, now_ms)),
                            ..node0
                        }));
                    }
                    (Some(_), Some(_), Some(_)) => {
                        assert(node == (Node {
                            sprite: Some(advanced_sprite_spec(
                                node0.sprite->Some_0, now_ms)),
                            ..node0
                        }));
                    }
                    _ => {
                        assert(node == node0);
                        assert(entities_and_components.nodes@ =~= pre_nodes);
                        assert(same_scene(scene_pre, *entities_and_components));
                        assert(same_grid(grid_pre, *pixel_grid));
                    }
                }
                assert(draw_item_rel(scene_pre, grid_pre, m_item, stretch, *camera,
                    now_ms, *entities_and_components, *pixel_grid));
                lemma_draw_pass_snoc(
                    *old(entities_and_components), *old(pixel_grid),
                    sorted_model.take(k as int), stretch, *camera, now_ms,
                    scene_pre, grid_pre, m_item, *entities_and_components, *pixel_grid);
                assert(sorted_model.take(k as int + 1)
                    =~= sorted_model.take(k as int).push(m_item));
            }
            k = k + 1;
        }
        proof {
            assert(sorted_model.take(n as int) =~= sorted_model);
        }
        Ok(())
    }
}

} // verus!
