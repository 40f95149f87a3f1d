use vstd::prelude::*;

pub mod asset;
pub mod batcher;
pub mod color;
pub mod error;
pub mod image;
pub mod math;
pub mod mesh;
pub mod packer;
pub mod path;
pub mod text;
pub mod texture;

use crate::color::Color;
use crate::image::ImageId;
use crate::math::Transform;
use crate::math::URect;
use crate::math::Vec2;
use crate::path::FillOptions;
use crate::path::Path;
use crate::path::StrokeOptions;
use crate::text::FontId;

verus! {

/// Id of a surface (usually a window), issued by the renderer.
#[derive(Debug, Clone, Copy, PartialEq, Eq, Structural)]
pub struct SurfaceId(pub u64);

/// Id of a glyph within a font face.
pub type GlyphId = u16;

/// One frame's commands for one surface.
#[derive(Debug)]
pub struct DrawList {
    pub surface: SurfaceId,
    pub commands: Vec<Command>,
}

/// One draw operation of a command tree.
#[derive(Debug)]
pub enum Command {
    ClearRect(ClearRect),
    DrawRect(DrawRect),
    DrawGlyph(DrawGlyph),
    DrawLayer(DrawLayer),
    FillPath(FillPath),
    StrokePath(StrokePath),
}

/// Clears a rectangle to a color.
#[derive(Debug, Clone, Copy, PartialEq, Eq, Structural)]
pub struct ClearRect {
    pub pos: Vec2,
    pub size: Vec2,
    pub color: Color,
}

/// Draws a filled rectangle, optionally with rounded corners, a border and
/// a shadow.
#[derive(Debug, Clone, Copy, PartialEq, Eq, Structural)]
pub struct DrawRect {
    pub pos: Vec2,
    pub size: Vec2,
    pub fill: Fill,
    pub corner_radii: CornerRadii,
    pub border: Option<Border>,
    pub shadow: Option<Shadow>,
}

/// Draws one glyph. `size` is the font size in fixed-point pixels.
#[derive(Debug, Clone, Copy, PartialEq, Eq, Structural)]
pub struct DrawGlyph {
    pub pos: Vec2,
    pub size: i64,
    pub font: FontId,
    pub glyph: GlyphId,
    pub color: Color,
}

/// A nested group of commands carrying a transform, a tint, and an
/// optional scissor.
#[derive(Debug)]
pub struct DrawLayer {
    pub commands: Vec<Command>,
    pub tint: Color,
    pub scissor: Option<Scissor>,
    pub transform: Transform,
}

/// Fills the interior of a path.
#[derive(Debug, Clone)]
pub struct FillPath {
    pub pos: Vec2,
    pub path: Path,
    pub options: FillOptions,
    pub fill: Fill,
}

/// Strokes the outline of a path.
#[derive(Debug, Clone)]
pub struct StrokePath {
    pub pos: Vec2,
    pub path: Path,
    pub options: StrokeOptions,
    pub fill: Fill,
}

/// A clipping rectangle with rounded corners.
#[derive(Debug, Clone, Copy, PartialEq, Eq, Structural)]
pub struct Scissor {
    pub pos: Vec2,
    pub size: Vec2,
    pub corner_radii: CornerRadii,
}

/// What a rectangle or path is filled with.
#[derive(Debug, Clone, Copy, PartialEq, Eq, Structural)]
pub enum Fill {
    Solid(Color),
    Image(FillImage),
}

/// An image fill: the image, a tint, and an optional clip in texels.
#[derive(Debug, Clone, Copy, PartialEq, Eq, Structural)]
pub struct FillImage {
    pub image: ImageId,
    pub tint: Color,
    pub clip_rect: Option<URect>,
}

/// A rectangle border.
#[derive(Debug, Clone, Copy, PartialEq, Eq, Structural)]
pub struct Border {
    pub color: Color,
    pub width: i64,
}

/// A rectangle drop shadow.
#[derive(Debug, Clone, Copy, PartialEq, Eq, Structural)]
pub struct Shadow {
    pub blur_radius: i64,
    pub spread_radius: i64,
    pub offset: Vec2,
    pub color: Color,
}

/// Radii of the four corners of a rectangle, in fixed-point pixels.
#[derive(Debug, Clone, Copy, PartialEq, Eq, Structural)]
pub struct CornerRadii {
    pub top_left: i64,
    pub top_right: i64,
    pub bottom_right: i64,
    pub bottom_left: i64,
}

/// All four corner radii zero: square corners.
pub open spec fn s_square_corners() -> CornerRadii {
    CornerRadii { top_left: 0i64, top_right: 0i64, bottom_right: 0i64, bottom_left: 0i64 }
}

impl CornerRadii {
    /// Radii for all four corners, from top-left in clockwise order.
    pub fn new(top_left: i64, top_right: i64, bottom_right: i64, bottom_left: i64) -> (r:
        CornerRadii)
        ensures
            r == (CornerRadii { top_left, top_right, bottom_right, bottom_left }),
    {
        CornerRadii { top_left, top_right, bottom_right, bottom_left }
    }

    /// All four radii equal to `v`.
    pub fn new_equal(v: i64) -> (r: CornerRadii)
        ensures
            r == (CornerRadii { top_left: v, top_right: v, bottom_right: v, bottom_left: v }),
    {
        CornerRadii { top_left: v, top_right: v, bottom_right: v, bottom_left: v }
    }
}

impl Default for CornerRadii {
    /// Square corners.
    fn default() -> (r: CornerRadii)
        ensures
            r == s_square_corners(),
    {
        CornerRadii { top_left: 0, top_right: 0, bottom_right: 0, bottom_left: 0 }
    }
}

} // verus!
