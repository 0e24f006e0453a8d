//! A 2D sprite renderer for character-cell terminals.
//!
//! A scene is a tree of entities; each entity may carry a transform, a
//! sprite, a mask and a camera. Each frame the renderer walks the tree
//! composing transforms, orders the renderable entities by depth, rasterizes
//! them into a pixel buffer in painter's-algorithm order, and diffs that
//! buffer against the previous frame to produce the minimal set of terminal
//! cell writes.
//!
//! All geometry is carried in fixed-point integers with three decimal digits
//! of fraction (see [`transform::FIXED_ONE`]); alpha and mask coverage are
//! carried as a byte, `255` standing for fully opaque / full coverage.
use vstd::prelude::*;

pub mod transform;
pub mod mask;
pub mod scene;
pub mod depth;
pub mod camera;
pub mod raster;
pub mod animation;
pub mod presenter;
pub mod renderer;
pub mod input;

verus! {

/// A color: red, green, blue bytes plus an alpha byte, `255` meaning fully
/// opaque.
#[derive(Clone, Copy, Debug, PartialEq, Eq, Structural)]
pub struct Color {
    pub r: u8,
    pub g: u8,
    pub b: u8,
    pub a: u8,
}

impl Default for Color {
    /// The default color is opaque black.
    fn default() -> (c: Self)
        ensures
            c == (Color { r: 0, g: 0, b: 0, a: 255 }),
    {
        Color { r: 0, g: 0, b: 0, a: 255 }
    }
}

/// One channel of source-over-destination alpha blending:
/// `(src * alpha + dst * (255 - alpha)) / 255`.
pub open spec fn blend_channel_spec(src: int, dst: int, alpha: int) -> int {
    (src * alpha + dst * (255 - alpha)) / 255
}

/// Source-over-destination blending of a full color. The source's alpha
/// weighs its channels against the destination's; the blended alpha is the
/// usual source-over alpha.
pub open spec fn blend_spec(src: Color, dst: Color) -> Color {
    Color {
        r: blend_channel_spec(src.r as int, dst.r as int, src.a as int) as u8,
        g: blend_channel_spec(src.g as int, dst.g as int, src.a as int) as u8,
        b: blend_channel_spec(src.b as int, dst.b as int, src.a as int) as u8,
        a: (src.a as int + blend_channel_spec(0, dst.a as int, src.a as int)) as u8,
    }
}

proof fn lemma_blend_channel_bounds(src: int, dst: int, alpha: int)
    requires
        0 <= src <= 255,
        0 <= dst <= 255,
        0 <= alpha <= 255,
    ensures
        0 <= blend_channel_spec(src, dst, alpha) <= 255,
        blend_channel_spec(0, dst, alpha) <= 255 - alpha,
{
    assert(src * alpha + dst * (255 - alpha) <= 255 * 255) by (nonlinear_arith)
        requires 0 <= src <= 255 && 0 <= dst <= 255 && 0 <= alpha <= 255;
    assert(src * alpha + dst * (255 - alpha) >= 0) by (nonlinear_arith)
        requires 0 <= src <= 255 && 0 <= dst <= 255 && 0 <= alpha <= 255;
    assert(dst * (255 - alpha) <= 255 * (255 - alpha)) by (nonlinear_arith)
        requires 0 <= dst <= 255 && 0 <= alpha <= 255;
    assert(255 * (255 - alpha) / 255 == 255 - alpha) by (nonlinear_arith)
        requires 0 <= alpha <= 255;
    vstd::arithmetic::div_mod::lemma_div_is_ordered(
        dst * (255 - alpha), 255 * (255 - alpha), 255);
}

fn blend_channel(src: u8, dst: u8, alpha: u8) -> (out: u8)
    ensures
        out as int == blend_channel_spec(src as int, dst as int, alpha as int),
{
    proof { lemma_blend_channel_bounds(src as int, dst as int, alpha as int); }
    let n: u32 = src as u32 * alpha as u32 + dst as u32 * (255 - alpha as u32);
    (n / 255) as u8
}

/// Blends `src` over `dst` (painter's algorithm: the source is painted over
/// whatever the buffer already holds).
pub fn blend(src: Color, dst: Color) -> (out: Color)
    ensures
        out == blend_spec(src, dst),
{
    proof { lemma_blend_channel_bounds(0, dst.a as int, src.a as int); }
    Color {
        r: blend_channel(src.r, dst.r, src.a),
        g: blend_channel(src.g, dst.g, src.a),
        b: blend_channel(src.b, dst.b, src.a),
        a: src.a + blend_channel(0, dst.a, src.a),
    }
}

/// A filled disc: radius in fixed-point world units.
#[derive(Clone, Copy, Debug, PartialEq, Eq, Structural)]
pub struct Circle {
    pub radius: u32,
    pub color: Color,
}

/// A filled (possibly rotated) rectangle: extent in fixed-point world units.
#[derive(Clone, Copy, Debug, PartialEq, Eq, Structural)]
pub struct Rectangle {
    pub width: u32,
    pub height: u32,
    pub color: Color,
}

/// A 2D grid of colors, row-major; immutable while rendering.
#[derive(Clone, Debug, PartialEq, Eq)]
pub struct Texture {
    pub pixels: Vec<Vec<Color>>,
}

impl Texture {
    /// Every row has the same length: the texture is a proper rectangle.
    pub open spec fn well_formed(self) -> bool {
        forall|i: int| 0 <= i < self.pixels@.len()
            ==> (#[trigger] self.pixels@[i])@.len() == self.width_spec()
    }

    pub open spec fn height_spec(self) -> nat {
        self.pixels@.len()
    }

    pub open spec fn width_spec(self) -> nat {
        if self.pixels@.len() == 0 { 0 } else { self.pixels@[0]@.len() }
    }
}

/// A sprite drawn from a texture; the texture carries its own extent.
#[derive(Clone, Debug, PartialEq, Eq)]
pub struct Image {
    pub texture: Texture,
}

/// A timed flip-book of image frames.
#[derive(Clone, Debug, PartialEq, Eq)]
pub struct Animation {
    pub frames: Vec<Image>,
    pub current_frame: usize,
    /// How long one frame stays up, in milliseconds.
    pub frame_time_ms: u64,
    /// When the current frame went up, in milliseconds.
    pub current_frame_start_ms: u64,
    pub loop_animation: bool,
    pub finished: bool,
}

/// A sprite is one of a circle, a rectangle, a textured image, or a timed
/// animation of images.
#[derive(Clone, Debug, PartialEq, Eq)]
pub enum Sprite {
    Circle(Circle),
    Rectangle(Rectangle),
    Image(Image),
    Animation(Animation),
}

impl From<Circle> for Sprite {
    fn from(circle: Circle) -> (s: Self) {
        Sprite::Circle(circle)
    }
}

impl vstd::std_specs::convert::FromSpecImpl<Circle> for Sprite {
    open spec fn obeys_from_spec() -> bool {
        true
    }

    open spec fn from_spec(circle: Circle) -> Self {
        Sprite::Circle(circle)
    }
}

impl From<Rectangle> for Sprite {
    fn from(rectangle: Rectangle) -> (s: Self) {
        Sprite::Rectangle(rectangle)
    }
}

impl vstd::std_specs::convert::FromSpecImpl<Rectangle> for Sprite {
    open spec fn obeys_from_spec() -> bool {
        true
    }

    open spec fn from_spec(rectangle: Rectangle) -> Self {
        Sprite::Rectangle(rectangle)
    }
}

impl From<Image> for Sprite {
    fn from(image: Image) -> (s: Self) {
        Sprite::Image(image)
    }
}

impl vstd::std_specs::convert::FromSpecImpl<Image> for Sprite {
    open spec fn obeys_from_spec() -> bool {
        true
    }

    open spec fn from_spec(image: Image) -> Self {
        Sprite::Image(image)
    }
}

/// A fatal configuration error of a frame: the scene cannot be rendered and
/// the whole render call reports it instead of producing output.
#[derive(Clone, Copy, Debug, PartialEq, Eq, Structural)]
pub enum RenderError {
    /// No entity carries an active camera.
    NoActiveCamera,
    /// The first active camera entity has no transform.
    CameraWithoutTransform,
    /// The first active camera's resolution is zero or exceeds what a
    /// terminal can be told to take.
    InvalidCameraResolution,
    /// Some collected item carries a depth that does not compare.
    InvalidDepth,
}

/// Scene-wide presentation parameters: the background color, whether changed
/// cells are written with random letters, and the fixed character used
/// otherwise.
#[derive(Clone, Copy, Debug, PartialEq, Eq, Structural)]
pub struct SceneParams {
    pub background_color: Color,
    pub is_random_chars: bool,
    pub character: char,
}

impl SceneParams {
    pub fn new() -> (p: SceneParams)
        ensures
            p.background_color == (Color { r: 0, g: 0, b: 0, a: 255 }),
            p.is_random_chars == false,
            p.character == '=',
    {
        SceneParams {
            background_color: Color { r: 0, g: 0, b: 0, a: 255 },
            is_random_chars: false,
            character: '=',
        }
    }

    /// The background color of the scene.
    pub fn set_background_color(&mut self, color: Color)
        ensures
            *final(self) == (SceneParams { background_color: color, ..*old(self) }),
    {
        self.background_color = color;
    }

    /// The background color of the scene.
    pub fn with_background_color(self, color: Color) -> (p: Self)
        ensures
            p == (SceneParams { background_color: color, ..self }),
    {
        let mut out = self;
        out.set_background_color(color);
        out
    }

    /// Whether changed cells are written with random letters rather than the
    /// fixed character.
    pub fn set_random_chars(&mut self, is_random_chars: bool)
        ensures
            *final(self) == (SceneParams { is_random_chars, ..*old(self) }),
    {
        self.is_random_chars = is_random_chars;
    }

    /// Whether changed cells are written with random letters rather than the
    /// fixed character.
    pub fn with_random_chars(self, is_random_chars: bool) -> (p: Self)
        ensures
            p == (SceneParams { is_random_chars, ..self }),
    {
        let mut out = self;
        out.set_random_chars(is_random_chars);
        out
    }

    /// The character written for a changed cell when random mode is off.
    pub fn set_character(&mut self, character: char)
        ensures
            *final(self) == (SceneParams { character, ..*old(self) }),
    {
        self.character = character;
    }

    /// The character written for a changed cell when random mode is off.
    pub fn with_character(self, character: char) -> (p: Self)
        ensures
            p == (SceneParams { character, ..self }),
    {
        let mut out = self;
        out.set_character(character);
        out
    }
}

} // verus!
