use console_renderer::transform::{Transform, Depth, FIXED_ONE, compose, identity};
use console_renderer::{Color, Circle, Rectangle, Sprite, SceneParams, RenderError, blend};
use console_renderer::scene::Scene;
use console_renderer::camera::Camera;
use console_renderer::raster::{PixelBuffer, render_circle, render_circle_with_mask, sin_fp,
    cos_fp};
use console_renderer::mask::Mask;
use console_renderer::depth::{collect_renderable_entities, sort_by_depth};
use console_renderer::animation::update_animation;
use console_renderer::Animation;
use console_renderer::renderer::Renderer;

fn flat(x: i64) -> Transform {
    Transform {
        x,
        y: 0,
        z: Depth::Finite(0),
        rotation: 0,
        scale: FIXED_ONE,
        origin_x: 0,
        origin_y: 0,
    }
}

#[test]
fn compose_adds_positions_and_multiplies_scales() {
    let child = Transform {
        x: 1000,
        y: 2000,
        z: Depth::Finite(3),
        rotation: 500,
        scale: 2000,
        origin_x: 10,
        origin_y: 20,
    };
    let parent = Transform {
        x: 100,
        y: 200,
        z: Depth::Finite(4),
        rotation: 250,
        scale: 500,
        origin_x: 1,
        origin_y: 2,
    };
    let r = compose(&child, &parent);
    assert_eq!(r.x, 1100);
    assert_eq!(r.y, 2200);
    assert_eq!(r.z, Depth::Finite(7));
    assert_eq!(r.rotation, 750);
    // 2.0 * 0.5 == 1.0 in fixed point.
    assert_eq!(r.scale, 1000);
    assert_eq!(r.origin_x, 11);
    assert_eq!(r.origin_y, 22);
}

#[test]
fn compose_with_identity_is_neutral() {
    let t = flat(1234);
    let r = compose(&t, &identity());
    assert_eq!(r, t);
}

#[test]
fn invalid_depth_poisons_composition() {
    let mut t = flat(0);
    t.z = Depth::Invalid;
    let r = compose(&t, &identity());
    assert_eq!(r.z, Depth::Invalid);
}

#[test]
fn blend_opaque_replaces_and_transparent_keeps() {
    let red = Color { r: 200, g: 10, b: 20, a: 255 };
    let blue = Color { r: 0, g: 0, b: 150, a: 255 };
    let over = blend(red, blue);
    assert_eq!((over.r, over.g, over.b), (200, 10, 20));
    let clear = Color { r: 200, g: 10, b: 20, a: 0 };
    let kept = blend(clear, blue);
    assert_eq!((kept.r, kept.g, kept.b), (0, 0, 150));
}

#[test]
fn blend_half_alpha_exact_value() {
    let src = Color { r: 100, g: 0, b: 0, a: 102 };
    let dst = Color { r: 0, g: 0, b: 0, a: 255 };
    let out = blend(src, dst);
    // (100 * 102 + 0 * 153) / 255 == 40.
    assert_eq!(out.r, 40);
}

fn item_scene() -> Scene {
    // Three sprite entities with depths 2, 1, 1 in traversal order.
    let mut scene = Scene::new();
    let a = scene.add_entity(None);
    let mut ta = flat(0);
    ta.z = Depth::Finite(2);
    scene.set_transform(a, ta);
    scene.set_sprite(a, Sprite::Circle(Circle { radius: 1000, color: Color::default() }));
    let b = scene.add_entity(None);
    let mut tb = flat(1);
    tb.z = Depth::Finite(1);
    scene.set_transform(b, tb);
    scene.set_sprite(b, Sprite::Circle(Circle { radius: 1000, color: Color::default() }));
    let c = scene.add_entity(None);
    let mut tc = flat(2);
    tc.z = Depth::Finite(1);
    scene.set_transform(c, tc);
    scene.set_sprite(c, Sprite::Circle(Circle { radius: 1000, color: Color::default() }));
    scene
}

#[test]
fn sort_orders_by_depth_and_keeps_ties_stable() {
    let scene = item_scene();
    let items = collect_renderable_entities(&scene, &identity());
    assert_eq!(items.len(), 3);
    let sorted = sort_by_depth(items).expect("all depths finite");
    // Depth 1 items come first, in traversal order (entities 1 then 2),
    // the depth 2 item last.
    assert_eq!(sorted[0].path, vec![1]);
    assert_eq!(sorted[1].path, vec![2]);
    assert_eq!(sorted[2].path, vec![0]);
}

#[test]
fn sort_reports_invalid_depth() {
    let mut scene = Scene::new();
    let a = scene.add_entity(None);
    let mut t = flat(0);
    t.z = Depth::Invalid;
    scene.set_transform(a, t);
    scene.set_sprite(a, Sprite::Circle(Circle { radius: 1000, color: Color::default() }));
    let items = collect_renderable_entities(&scene, &identity());
    assert_eq!(sort_by_depth(items).unwrap_err(), RenderError::InvalidDepth);
}

#[test]
fn collect_composes_down_the_tree_and_skips_unpositioned() {
    let mut scene = Scene::new();
    let parent = scene.add_entity(None);
    scene.set_transform(parent, flat(1000));
    let child = scene.add_entity(Some(parent));
    scene.set_transform(child, flat(500));
    scene.set_sprite(child, Sprite::Rectangle(Rectangle {
        width: 1000,
        height: 1000,
        color: Color::default(),
    }));
    // A sprite without a transform cannot be positioned and is skipped.
    let loose = scene.add_entity(None);
    scene.set_sprite(loose, Sprite::Circle(Circle { radius: 1, color: Color::default() }));

    let items = collect_renderable_entities(&scene, &identity());
    assert_eq!(items.len(), 1);
    assert_eq!(items[0].path, vec![parent, child]);
    // Child offset composed with parent's: 500 + 1000.
    assert_eq!(items[0].transform.x, 1500);
}

#[test]
fn trig_is_exact_at_zero() {
    assert_eq!(sin_fp(0), 0);
    assert_eq!(cos_fp(0), FIXED_ONE);
}

#[test]
fn circle_paints_center_not_corner() {
    let mut grid = PixelBuffer::new(9, 9, Color { r: 0, g: 0, b: 0, a: 255 });
    let red = Color { r: 255, g: 0, b: 0, a: 255 };
    let circle = Circle { radius: 2000, color: red };
    let mut t = flat(4000);
    t.y = 4000;
    render_circle(&circle, &t, &mut grid, 1000);
    let center = grid.get_pixel(4, 4);
    assert_eq!((center.r, center.g, center.b), (255, 0, 0));
    let corner = grid.get_pixel(0, 0);
    assert_eq!((corner.r, corner.g, corner.b), (0, 0, 0));
}

#[test]
fn mask_zero_keeps_destination_and_full_matches_unmasked() {
    let bg = Color { r: 5, g: 6, b: 7, a: 255 };
    let red = Color { r: 255, g: 0, b: 0, a: 255 };
    let circle = Circle { radius: 2000, color: red };
    let mut t = flat(2000);
    t.y = 2000;

    let mut plain = PixelBuffer::new(5, 5, bg);
    render_circle(&circle, &t, &mut plain, 1000);

    // Full coverage everywhere: identical to the unmasked draw.
    let full = Mask { coverage: vec![vec![255u8; 64]; 64] };
    let mut masked_full = PixelBuffer::new(5, 5, bg);
    render_circle_with_mask(&circle, &t, &mut masked_full, 1000, &full);
    for y in 0..5usize {
        for x in 0..5usize {
            assert_eq!(plain.get_pixel(x, y), masked_full.get_pixel(x, y));
        }
    }

    // Zero coverage everywhere: the destination is untouched.
    let none = Mask { coverage: vec![vec![0u8; 64]; 64] };
    let mut masked_none = PixelBuffer::new(5, 5, bg);
    render_circle_with_mask(&circle, &t, &mut masked_none, 1000, &none);
    for y in 0..5usize {
        for x in 0..5usize {
            assert_eq!(masked_none.get_pixel(x, y), bg);
        }
    }
}

fn fresh_animation(n: usize, frame_time_ms: u64, loop_animation: bool) -> Animation {
    let mut frames = Vec::new();
    for _ in 0..n {
        frames.push(console_renderer::Image {
            texture: console_renderer::Texture { pixels: vec![vec![Color::default()]] },
        });
    }
    Animation {
        frames,
        current_frame: 0,
        frame_time_ms,
        current_frame_start_ms: 0,
        loop_animation,
        finished: false,
    }
}

#[test]
fn animation_advances_once_per_period() {
    let mut a = fresh_animation(4, 10, false);
    update_animation(&mut a, 10);
    assert_eq!(a.current_frame, 1);
    assert!(!a.finished);
    update_animation(&mut a, 20);
    assert_eq!(a.current_frame, 2);
    assert!(!a.finished);
    // Not yet a full period since the last advance: no change.
    update_animation(&mut a, 25);
    assert_eq!(a.current_frame, 2);
}

#[test]
fn animation_freezes_on_last_frame_without_loop() {
    let mut a = fresh_animation(3, 10, false);
    update_animation(&mut a, 10);
    update_animation(&mut a, 20);
    assert_eq!(a.current_frame, 2);
    assert!(!a.finished);
    update_animation(&mut a, 30);
    assert_eq!(a.current_frame, 2);
    assert!(a.finished);
    // Terminal state: nothing moves any more.
    update_animation(&mut a, 100);
    assert_eq!(a.current_frame, 2);
    assert!(a.finished);
}

#[test]
fn animation_wraps_with_loop() {
    let mut a = fresh_animation(3, 10, true);
    for step in 1..=7u64 {
        update_animation(&mut a, step * 10);
        assert!(!a.finished);
        assert_eq!(a.current_frame, (step % 3) as usize);
    }
}

fn camera_scene(w: u32, h: u32) -> Scene {
    let mut scene = Scene::new();
    let cam = scene.add_entity(None);
    scene.set_camera(cam, Camera { width: w, height: h, is_active: true });
    scene.set_transform(cam, flat(0));
    scene
}

#[test]
fn empty_scene_renders_background_everywhere() {
    let mut renderer = Renderer::new();
    renderer.set_scene_params(
        SceneParams::new().with_background_color(Color { r: 9, g: 8, b: 7, a: 255 }));
    let mut scene = camera_scene(4, 3);
    let writes = renderer.render(&mut scene, 0).expect("scene has an active camera");
    // First frame: a full repaint of 4x3 cells, all background.
    assert_eq!(writes.len(), 12);
    for w in &writes {
        assert_eq!((w.color.r, w.color.g, w.color.b), (9, 8, 7));
        assert_eq!(w.character, '=');
    }
}

#[test]
fn second_identical_frame_emits_no_writes() {
    let mut renderer = Renderer::new();
    let mut scene = camera_scene(6, 6);
    let first = renderer.render(&mut scene, 0).unwrap();
    assert_eq!(first.len(), 36);
    let second = renderer.render(&mut scene, 0).unwrap();
    assert_eq!(second.len(), 0);
}

#[test]
fn camera_resize_forces_full_repaint() {
    let mut renderer = Renderer::new();
    let mut scene = camera_scene(6, 6);
    renderer.render(&mut scene, 0).unwrap();
    // Change the active camera's resolution mid-run.
    scene.set_camera(0, Camera { width: 8, height: 5, is_active: true });
    let writes = renderer.render(&mut scene, 0).unwrap();
    assert_eq!(writes.len(), 40);
}

#[test]
fn render_without_active_camera_is_fatal() {
    let mut renderer = Renderer::new();
    let mut scene = Scene::new();
    let e = scene.add_entity(None);
    scene.set_transform(e, flat(0));
    scene.set_sprite(e, Sprite::Circle(Circle { radius: 1000, color: Color::default() }));
    assert_eq!(renderer.render(&mut scene, 0).unwrap_err(), RenderError::NoActiveCamera);

    // An inactive camera does not count either.
    let cam = scene.add_entity(None);
    scene.set_camera(cam, Camera { width: 4, height: 4, is_active: false });
    assert_eq!(renderer.render(&mut scene, 0).unwrap_err(), RenderError::NoActiveCamera);
}

#[test]
fn active_camera_without_transform_is_fatal() {
    let mut renderer = Renderer::new();
    let mut scene = Scene::new();
    let cam = scene.add_entity(None);
    scene.set_camera(cam, Camera { width: 4, height: 4, is_active: true });
    assert_eq!(
        renderer.render(&mut scene, 0).unwrap_err(),
        RenderError::CameraWithoutTransform);
}

#[test]
fn invalid_depth_in_scene_is_reported() {
    let mut renderer = Renderer::new();
    let mut scene = camera_scene(4, 4);
    let e = scene.add_entity(None);
    let mut t = flat(0);
    t.z = Depth::Invalid;
    scene.set_transform(e, t);
    scene.set_sprite(e, Sprite::Circle(Circle { radius: 1000, color: Color::default() }));
    assert_eq!(renderer.render(&mut scene, 0).unwrap_err(), RenderError::InvalidDepth);
}

#[test]
fn painters_algorithm_draws_larger_z_on_top() {
    let mut renderer = Renderer::new();
    let mut scene = camera_scene(3, 3);
    // Two opaque rectangles covering the whole view; the one with larger z
    // must win every pixel.
    let red = Color { r: 255, g: 0, b: 0, a: 255 };
    let blue = Color { r: 0, g: 0, b: 255, a: 255 };
    let near = scene.add_entity(None);
    let mut tn = flat(1500);
    tn.y = 1500;
    tn.z = Depth::Finite(5);
    scene.set_transform(near, tn);
    scene.set_sprite(near, Sprite::Rectangle(Rectangle {
        width: 20000, height: 20000, color: red }));
    let far = scene.add_entity(None);
    let mut tf = flat(1500);
    tf.y = 1500;
    tf.z = Depth::Finite(1);
    scene.set_transform(far, tf);
    scene.set_sprite(far, Sprite::Rectangle(Rectangle {
        width: 20000, height: 20000, color: blue }));
    let writes = renderer.render(&mut scene, 0).unwrap();
    assert_eq!(writes.len(), 9);
    for w in &writes {
        assert_eq!((w.color.r, w.color.g, w.color.b), (255, 0, 0));
    }
}

#[test]
fn compose_is_associative_on_exact_inputs() {
    let child = Transform {
        x: 10, y: 20, z: Depth::Finite(1), rotation: 100, scale: 2000,
        origin_x: 1, origin_y: 2,
    };
    let parent = Transform {
        x: 30, y: 40, z: Depth::Finite(2), rotation: 200, scale: 500,
        origin_x: 3, origin_y: 4,
    };
    let offset = Transform {
        x: 50, y: 60, z: Depth::Finite(3), rotation: 300, scale: 3000,
        origin_x: 5, origin_y: 6,
    };
    // 2.0 * 0.5 and 0.5 * 3.0 both land exactly on the fixed-point grid,
    // so both groupings must agree exactly.
    let lhs = compose(&child, &compose(&parent, &offset));
    let rhs = compose(&compose(&child, &parent), &offset);
    assert_eq!(lhs, rhs);
}

#[test]
fn masked_sprite_rides_on_parent_transform() {
    // A masked rectangle with full coverage paints like an unmasked one.
    let mut renderer = Renderer::new();
    let mut scene = camera_scene(3, 3);
    let red = Color { r: 255, g: 0, b: 0, a: 255 };
    let e = scene.add_entity(None);
    let mut t = flat(1500);
    t.y = 1500;
    scene.set_transform(e, t);
    scene.set_sprite(e, Sprite::Rectangle(Rectangle {
        width: 20000, height: 20000, color: red }));
    scene.set_mask(e, Mask { coverage: vec![vec![255u8; 64]; 64] });
    let writes = renderer.render(&mut scene, 0).unwrap();
    assert_eq!(writes.len(), 9);
    for w in &writes {
        assert_eq!((w.color.r, w.color.g, w.color.b), (255, 0, 0));
    }
}

#[test]
fn semi_transparent_draw_blends_with_background() {
    let mut renderer = Renderer::new();
    renderer.set_scene_params(
        SceneParams::new().with_background_color(Color { r: 0, g: 0, b: 100, a: 255 }));
    let mut scene = camera_scene(1, 1);
    let e = scene.add_entity(None);
    let mut t = flat(500);
    t.y = 500;
    scene.set_transform(e, t);
    // Alpha 102 of red 100 over blue 100: r == 40, b == 60.
    scene.set_sprite(e, Sprite::Rectangle(Rectangle {
        width: 20000, height: 20000, color: Color { r: 100, g: 0, b: 0, a: 102 } }));
    let writes = renderer.render(&mut scene, 0).unwrap();
    assert_eq!(writes.len(), 1);
    assert_eq!((writes[0].color.r, writes[0].color.b), (40, 60));
}

#[test]
fn unusable_camera_resolution_is_fatal() {
    let mut renderer = Renderer::new();
    let mut scene = Scene::new();
    let cam = scene.add_entity(None);
    scene.set_camera(cam, Camera { width: 0, height: 4, is_active: true });
    scene.set_transform(cam, flat(0));
    assert_eq!(
        renderer.render(&mut scene, 0).unwrap_err(),
        RenderError::InvalidCameraResolution);

    scene.set_camera(cam, Camera { width: 4, height: 0x1_0000, is_active: true });
    assert_eq!(
        renderer.render(&mut scene, 0).unwrap_err(),
        RenderError::InvalidCameraResolution);
}

#[test]
fn masked_animation_frame_composites_through_the_mask() {
    // A masked animation with zero coverage must leave the frame untouched,
    // exactly like any other masked sprite.
    let mut renderer = Renderer::new();
    renderer.set_scene_params(
        SceneParams::new().with_background_color(Color { r: 1, g: 2, b: 3, a: 255 }));
    let mut scene = camera_scene(2, 2);
    let e = scene.add_entity(None);
    let mut t = flat(1000);
    t.y = 1000;
    scene.set_transform(e, t);
    let red = Color { r: 255, g: 0, b: 0, a: 255 };
    scene.set_sprite(e, Sprite::Animation(fresh_animation_colored(red)));
    scene.set_mask(e, Mask { coverage: vec![vec![0u8; 64]; 64] });
    let writes = renderer.render(&mut scene, 0).unwrap();
    // Full first paint, every cell still the background color.
    assert_eq!(writes.len(), 4);
    for w in &writes {
        assert_eq!((w.color.r, w.color.g, w.color.b), (1, 2, 3));
    }
}

fn fresh_animation_colored(color: Color) -> Animation {
    Animation {
        frames: vec![console_renderer::Image {
            texture: console_renderer::Texture { pixels: vec![vec![color; 8]; 8] },
        }],
        current_frame: 0,
        frame_time_ms: 1000,
        current_frame_start_ms: 0,
        loop_animation: true,
        finished: false,
    }
}
