use vstd::prelude::*;

use crate::color::s_transparent;
use crate::color::s_white;
use crate::color::Color;
use crate::math::s_identity;
use crate::math::s_transform_point;
use crate::math::Rect;
use crate::math::Transform;
use crate::math::UVec2;
use crate::math::Vec2;
use crate::mesh::Mesh;
use crate::mesh::MeshKind;
use crate::mesh::PathCache;
use crate::texture::AllocatedGlyph;
use crate::texture::TextureCache;
use crate::texture::TextureId;
use crate::image::ImageFormat;
use crate::text::GlyphKey;
use crate::text::SubpixelBin;
use crate::Command;
use crate::ClearRect;
use crate::DrawGlyph;
use crate::DrawLayer;
use crate::DrawList;
use crate::DrawRect;
use crate::Fill;
use crate::FillPath;
use crate::StrokePath;
use crate::SurfaceId;

verus! {

/// Sentinel instance id: sample the source directly, no per-instance
/// shader effects.
pub const INSTANCE_FILL: usize = usize::MAX;

/// Sentinel instance id: treat the sample as a coverage mask tinted by the
/// vertex color.
pub const INSTANCE_FILL_GRAY: usize = usize::MAX - 1;

/// One vertex of the shared buffers. Texture coordinates are in texels of
/// the batch's source; the renderer normalizes.
#[derive(Debug, Clone, Copy, PartialEq, Eq, Structural)]
pub struct Vertex {
    pub pos: Vec2,
    pub local_pos: Vec2,
    pub tex: Vec2,
    pub color: Color,
    pub instance_id: usize,
}

/// A per-primitive parameter record for rects with corner radii, borders
/// or shadows.
#[derive(Debug, Clone, Copy, PartialEq, Eq, Structural)]
pub struct Instance {
    pub corner_radii: crate::CornerRadii,
    pub border_color: Color,
    pub shadow_color: Color,
    pub shadow_offset: Vec2,
    pub size: Vec2,
    pub border_width: i64,
    pub shadow_blur_radius: i64,
    pub shadow_spread_radius: i64,
}

/// Id of a framebuffer of the embedding renderer.
#[derive(Debug, Clone, Copy, PartialEq, Eq, Structural)]
pub struct FramebufferId(pub u64);

/// A frame-scoped offscreen target used to composite one nested layer.
#[derive(Debug, Clone, Copy, PartialEq, Eq, Structural)]
pub struct Intermediate {
    pub size: UVec2,
    pub msaa: bool,
}

/// Index of an [`Intermediate`] of this frame.
#[derive(Debug, Clone, Copy, PartialEq, Eq, Structural)]
pub struct IntermediateId(pub usize);

/// Where a batch draws to.
#[derive(Debug, Clone, Copy, PartialEq, Eq, Structural)]
pub enum Target {
    Surface(SurfaceId),
    Intermediate(IntermediateId),
}

/// What a batch samples from.
#[derive(Debug, Clone, Copy, PartialEq, Eq, Structural)]
pub enum Source {
    White,
    Texture(TextureId),
    Intermediate(IntermediateId),
}

/// What a texture binding resolves to, for renderers that index bindings.
#[derive(Debug, Clone, Copy, PartialEq, Eq, Structural)]
pub enum TextureBinding {
    White,
    Offscreen(u8),
}

/// Which shader family a batch uses.
#[derive(Debug, Clone, Copy, PartialEq, Eq, Structural)]
pub enum ShaderKind {
    Uber,
}

/// One contiguous run of indices sharing render state.
#[derive(Debug, Clone, Copy, PartialEq, Eq, Structural)]
pub struct Batch {
    pub clear: bool,
    pub msaa_resolve: bool,
    pub target: Target,
    pub source: Source,
    pub index_start: usize,
    pub index_end: usize,
    pub vertex_start: usize,
    pub vertex_end: usize,
    pub instance_buffer_id: usize,
}

/// The batcher's full state, as contracts speak of it.
#[verifier::ext_equal]
pub ghost struct BatcherModel {
    pub vertices: Seq<Vertex>,
    pub indices: Seq<usize>,
    pub instances: Seq<Instance>,
    pub batches: Seq<Batch>,
    pub transforms: Seq<Transform>,
    pub intermediates: Seq<Intermediate>,
    pub cur_clear: bool,
    pub cur_target: Target,
    pub cur_source: Source,
    pub max_per: usize,
    pub cur_ibuf: usize,
    pub last_index: usize,
    pub last_vertex: usize,
}

/// The transform applied to geometry: top of the stack, or identity.
pub open spec fn s_top(m: BatcherModel) -> Transform {
    if m.transforms.len() > 0 {
        m.transforms.last()
    } else {
        s_identity()
    }
}

/// Emits the pending index range as one batch; with nothing pending, does
/// nothing. Batches are contiguous: each starts where the last ended.
pub open spec fn s_flush(m: BatcherModel) -> BatcherModel {
    if m.indices.len() > m.last_index {
        BatcherModel {
            batches: m.batches.push(
                Batch {
                    clear: m.cur_clear,
                    msaa_resolve: false,
                    target: m.cur_target,
                    source: m.cur_source,
                    index_start: m.last_index,
                    index_end: m.indices.len() as usize,
                    vertex_start: m.last_vertex,
                    vertex_end: m.vertices.len() as usize,
                    instance_buffer_id: m.cur_ibuf,
                },
            ),
            last_index: m.indices.len() as usize,
            last_vertex: m.vertices.len() as usize,
            ..m
        }
    } else {
        m
    }
}

pub open spec fn s_set_source(m: BatcherModel, source: Source) -> BatcherModel {
    if m.cur_source != source {
        BatcherModel { cur_source: source, ..s_flush(m) }
    } else {
        BatcherModel { cur_source: source, ..m }
    }
}

pub open spec fn s_set_target(m: BatcherModel, target: Target) -> BatcherModel {
    if m.cur_target != target {
        BatcherModel { cur_target: target, ..s_flush(m) }
    } else {
        BatcherModel { cur_target: target, ..m }
    }
}

pub open spec fn s_set_clear(m: BatcherModel, clear: bool) -> BatcherModel {
    if m.cur_clear != clear {
        BatcherModel { cur_clear: clear, ..s_flush(m) }
    } else {
        BatcherModel { cur_clear: clear, ..m }
    }
}

pub open spec fn s_add_vertex(m: BatcherModel, v: Vertex) -> BatcherModel {
    BatcherModel {
        vertices: m.vertices.push(
            Vertex { pos: s_transform_point(s_top(m), v.pos), ..v },
        ),
        ..m
    }
}

/// The geometry of one quad before vertex expansion.
#[derive(Debug, Clone, Copy, PartialEq, Eq, Structural)]
pub struct Quad {
    pub min: Vec2,
    pub max: Vec2,
    pub local_min: Vec2,
    pub local_max: Vec2,
    pub tex_min: Vec2,
    pub tex_max: Vec2,
    pub color: Color,
    pub instance_id: usize,
}

/// Four transformed corner vertices and six indices in the order
/// a, b, c, c, d, a.
pub open spec fn s_add_quad(m: BatcherModel, q: Quad) -> BatcherModel {
    let a = m.vertices.len() as usize;
    let b = (m.vertices.len() + 1) as usize;
    let c = (m.vertices.len() + 2) as usize;
    let d = (m.vertices.len() + 3) as usize;
    let m1 = s_add_vertex(
        m,
        Vertex {
            pos: q.min,
            local_pos: q.local_min,
            tex: q.tex_min,
            color: q.color,
            instance_id: q.instance_id,
        },
    );
    let m2 = s_add_vertex(
        m1,
        Vertex {
            pos: Vec2 { x: q.max.x, y: q.min.y },
            local_pos: Vec2 { x: q.local_max.x, y: q.local_min.y },
            tex: Vec2 { x: q.tex_max.x, y: q.tex_min.y },
            color: q.color,
            instance_id: q.instance_id,
        },
    );
    let m3 = s_add_vertex(
        m2,
        Vertex {
            pos: q.max,
            local_pos: q.local_max,
            tex: q.tex_max,
            color: q.color,
            instance_id: q.instance_id,
        },
    );
    let m4 = s_add_vertex(
        m3,
        Vertex {
            pos: Vec2 { x: q.min.x, y: q.max.y },
            local_pos: Vec2 { x: q.local_min.x, y: q.local_max.y },
            tex: Vec2 { x: q.tex_min.x, y: q.tex_max.y },
            color: q.color,
            instance_id: q.instance_id,
        },
    );
    BatcherModel {
        indices: m4.indices.push(a).push(b).push(c).push(c).push(d).push(a),
        ..m4
    }
}

/// Records one clear-rect: the batch becomes a clearing one and a covering
/// quad is emitted with the clear color.
pub open spec fn s_cmd_clear_rect(m: BatcherModel, c: ClearRect) -> BatcherModel {
    let m1 = s_set_source(s_set_clear(m, true), Source::White);
    s_add_quad(
        m1,
        Quad {
            min: c.pos,
            max: crate::math::sv_add(c.pos, c.size),
            local_min: Vec2 { x: 0i64, y: 0i64 },
            local_max: Vec2 { x: 0i64, y: 0i64 },
            tex_min: Vec2 { x: 0i64, y: 0i64 },
            tex_max: Vec2 { x: 0i64, y: 0i64 },
            color: c.color,
            instance_id: INSTANCE_FILL,
        },
    )
}

/// What a fill resolves to: a color, a source, and texel coordinates.
pub open spec fn s_get_fill(cache: &TextureCache, fill: Fill) -> (Color, Source, Vec2, Vec2) {
    match fill {
        Fill::Solid(color) => (
            color,
            Source::White,
            Vec2 { x: 0i64, y: 0i64 },
            Vec2 { x: 0i64, y: 0i64 },
        ),
        Fill::Image(fi) => match cache.s_get_image(fi.image) {
            Some(img) => {
                let lo = match fi.clip_rect {
                    Some(clip) => UVec2 {
                        x: crate::math::s_min(
                            (img.rect.min.x + clip.min.x) as int,
                            img.rect.max.x as int,
                        ) as u32,
                        y: crate::math::s_min(
                            (img.rect.min.y + clip.min.y) as int,
                            img.rect.max.y as int,
                        ) as u32,
                    },
                    None => img.rect.min,
                };
                let hi = match fi.clip_rect {
                    Some(clip) => UVec2 {
                        x: crate::math::s_min(
                            (img.rect.min.x + clip.max.x) as int,
                            img.rect.max.x as int,
                        ) as u32,
                        y: crate::math::s_min(
                            (img.rect.min.y + clip.max.y) as int,
                            img.rect.max.y as int,
                        ) as u32,
                    },
                    None => img.rect.max,
                };
                (
                    fi.tint,
                    Source::Texture(img.texture),
                    Vec2 { x: (lo.x as i64 * 256) as i64, y: (lo.y as i64 * 256) as i64 },
                    Vec2 { x: (hi.x as i64 * 256) as i64, y: (hi.y as i64 * 256) as i64 },
                )
            },
            None => (
                fi.tint,
                Source::White,
                Vec2 { x: 0i64, y: 0i64 },
                Vec2 { x: 0i64, y: 0i64 },
            ),
        },
    }
}

/// Appends one instance record, moving to the next instance buffer (and
/// flushing) when the current one is full. Yields the record's id within
/// its buffer.
pub open spec fn s_add_instance(m: BatcherModel, inst: Instance) -> (BatcherModel, usize) {
    let m1 = if m.instances.len() > 0 && m.max_per > 0 && m.instances.len() as int % (
    m.max_per as int) == 0 {
        BatcherModel {
            cur_ibuf: if m.cur_ibuf < usize::MAX {
                (m.cur_ibuf + 1) as usize
            } else {
                m.cur_ibuf
            },
            ..s_flush(m)
        }
    } else {
        m
    };
    (
        BatcherModel { instances: m1.instances.push(inst), ..m1 },
        (m1.instances.len() as int % (if m.max_per > 0 {
            m.max_per as int
        } else {
            1
        })) as usize,
    )
}

/// The plain-rect test: no border, no shadow, square corners.
pub open spec fn s_rect_is_plain(r: DrawRect) -> bool {
    r.border is None && r.shadow is None && r.corner_radii == crate::s_square_corners()
}

/// One filled rectangle. A plain rect is one directly sampled quad; any
/// border, shadow or rounding takes an instance record, and the quad grows
/// to cover the shadow, its texture coordinates extrapolated in step.
pub open spec fn s_cmd_draw_rect(m: BatcherModel, cache: &TextureCache, r: DrawRect) -> BatcherModel {
    let m0 = s_set_clear(m, false);
    let f = s_get_fill(cache, r.fill);
    let color = f.0;
    let m1 = s_set_source(m0, f.1);
    if s_rect_is_plain(r) {
        s_add_quad(
            m1,
            Quad {
                min: r.pos,
                max: crate::math::sv_add(r.pos, r.size),
                local_min: Vec2 { x: 0i64, y: 0i64 },
                local_max: Vec2 { x: 0i64, y: 0i64 },
                tex_min: f.2,
                tex_max: f.3,
                color,
                instance_id: INSTANCE_FILL,
            },
        )
    } else {
        let shadow_offset = match r.shadow {
            Some(s) => s.offset,
            None => Vec2 { x: 0i64, y: 0i64 },
        };
        let blur = match r.shadow {
            Some(s) => s.blur_radius,
            None => 0i64,
        };
        let spread = match r.shadow {
            Some(s) => s.spread_radius,
            None => 0i64,
        };
        let border_color = match r.border {
            Some(b) => b.color,
            None => s_transparent(),
        };
        let border_width = match r.border {
            Some(b) => b.width,
            None => 0i64,
        };
        let shadow_color = match r.shadow {
            Some(s) => s.color,
            None => s_transparent(),
        };
        let mi = s_add_instance(
            m1,
            Instance {
                corner_radii: r.corner_radii,
                border_color,
                shadow_color,
                shadow_offset,
                size: r.size,
                border_width,
                shadow_blur_radius: blur,
                shadow_spread_radius: spread,
            },
        );
        let m2 = mi.0;
        let inst_id = mi.1;
        let radius = crate::math::s_add(blur as int, spread as int) as i64;
        let rvec = Vec2 { x: radius, y: radius };
        let rect_min = r.pos;
        let rect_max = crate::math::sv_add(r.pos, r.size);
        let shadow_min = crate::math::sv_add(crate::math::sv_sub(rect_min, rvec), shadow_offset);
        let shadow_max = crate::math::sv_add(crate::math::sv_add(rect_max, rvec), shadow_offset);
        let lo = crate::math::sv_min(shadow_min, rect_min);
        let hi = crate::math::sv_max(shadow_max, rect_max);
        let tex_size = crate::math::sv_sub(f.3, f.2);
        let t_lo = crate::math::sv_sub(
            f.2,
            crate::math::sv_div(
                crate::math::sv_mul(crate::math::sv_sub(rect_min, lo), tex_size),
                r.size,
            ),
        );
        let t_hi = crate::math::sv_add(
            f.3,
            crate::math::sv_div(
                crate::math::sv_mul(crate::math::sv_sub(hi, rect_max), tex_size),
                r.size,
            ),
        );
        s_add_quad(
            m2,
            Quad {
                min: lo,
                max: hi,
                local_min: crate::math::sv_sub(lo, r.pos),
                local_max: crate::math::sv_sub(hi, r.pos),
                tex_min: t_lo,
                tex_max: t_hi,
                color,
                instance_id: inst_id,
            },
        )
    }
}

/// The cache key a drawn glyph resolves under.
pub open spec fn s_glyph_key(g: DrawGlyph) -> GlyphKey {
    GlyphKey {
        font: g.font,
        glyph: g.glyph,
        size: g.size,
        subpixel_bin: SubpixelBin {
            x: crate::text::s_bin_of(g.pos.x as int) as u8,
            y: crate::text::s_bin_of(g.pos.y as int) as u8,
        },
    }
}

/// One glyph. An unresolved glyph is skipped silently. A colored glyph
/// samples directly at full color; a monochrome one is a coverage mask
/// tinted by the requested color.
pub open spec fn s_cmd_draw_glyph(m: BatcherModel, cache: &TextureCache, g: DrawGlyph) -> BatcherModel {
    let m0 = s_set_clear(m, false);
    match cache.s_get_glyph(s_glyph_key(g)) {
        None => m0,
        Some(ag) => {
            let m1 = s_set_source(m0, Source::Texture(ag.texture));
            let pos = crate::math::sv_add(
                Vec2 {
                    x: crate::math::s_trunc(g.pos.x as int) as i64,
                    y: crate::math::s_trunc(g.pos.y as int) as i64,
                },
                ag.offset,
            );
            let size = Vec2 {
                x: (crate::math::s_max(0, ag.rect.max.x - ag.rect.min.x) * 256) as i64,
                y: (crate::math::s_max(0, ag.rect.max.y - ag.rect.min.y) * 256) as i64,
            };
            let color = if ag.format == ImageFormat::Gray8 {
                g.color
            } else {
                s_white()
            };
            let instance_id = if ag.format == ImageFormat::Gray8 {
                INSTANCE_FILL_GRAY
            } else {
                INSTANCE_FILL
            };
            s_add_quad(
                m1,
                Quad {
                    min: pos,
                    max: crate::math::sv_add(pos, size),
                    local_min: Vec2 { x: 0i64, y: 0i64 },
                    local_max: Vec2 { x: 0i64, y: 0i64 },
                    tex_min: Vec2 { x: (ag.rect.min.x * 256) as i64, y: (ag.rect.min.y * 256) as i64 },
                    tex_max: Vec2 { x: (ag.rect.max.x * 256) as i64, y: (ag.rect.max.y * 256) as i64 },
                    color,
                    instance_id,
                },
            )
        },
    }
}

/// The mesh loaded for a path and kind, if the mesh cache holds one.
pub open spec fn s_mesh_for(meshes: &PathCache, events: Seq<crate::path::PathEvent>, kind: MeshKind) -> Option<Mesh> {
    if exists|i: int|
        0 <= i < meshes.s_ids().len() && meshes.s_ids()[i] == (crate::mesh::MeshId {
            events,
            kind,
        }) {
        let i = choose|i: int|
            0 <= i < meshes.s_ids().len() && meshes.s_ids()[i] == (crate::mesh::MeshId {
                events,
                kind,
            });
        Some(meshes.s_mesh_at(i))
    } else {
        None
    }
}

/// Appends a mesh's triangles: vertices are placed at the origin, run
/// through the active transform, and their texture coordinates remap the
/// mesh's bounding rectangle onto the fill's texel rectangle. The mesh is
/// the primitive: no instance record.
pub open spec fn s_draw_mesh(
    m: BatcherModel,
    mesh: Mesh,
    origin: Vec2,
    color: Color,
    tex_min: Vec2,
    tex_max: Vec2,
) -> BatcherModel
    decreases mesh.vertices@.len(),
{
    match mesh.bounding_rect {
        None => m,
        Some(rect) => {
            let scale = crate::math::sv_div(
                crate::math::sv_sub(tex_max, tex_min),
                crate::math::sv_sub(rect.max, rect.min),
            );
            let first = m.vertices.len() as usize;
            BatcherModel {
                vertices: m.vertices + Seq::new(
                    mesh.vertices@.len(),
                    |i: int|
                        Vertex {
                            pos: s_transform_point(
                                s_top(m),
                                crate::math::sv_add(origin, mesh.vertices@[i]),
                            ),
                            local_pos: mesh.vertices@[i],
                            tex: crate::math::sv_add(
                                tex_min,
                                crate::math::sv_mul(
                                    crate::math::sv_sub(mesh.vertices@[i], rect.min),
                                    scale,
                                ),
                            ),
                            color,
                            instance_id: INSTANCE_FILL,
                        },
                ),
                indices: m.indices + Seq::new(
                    mesh.indices@.len(),
                    |i: int|
                        crate::math::s_min(
                            mesh.indices@[i] + first,
                            usize::MAX as int,
                        ) as usize,
                ),
                ..m
            }
        },
    }
}

pub open spec fn s_cmd_fill_path(m: BatcherModel, cache: &TextureCache, meshes: &PathCache, p: &FillPath) -> BatcherModel {
    let f = s_get_fill(cache, p.fill);
    let m1 = s_set_source(m, f.1);
    match s_mesh_for(meshes, p.path.events@, MeshKind::Fill(p.options)) {
        None => m1,
        Some(mesh) => s_draw_mesh(m1, mesh, p.pos, f.0, f.2, f.3),
    }
}

pub open spec fn s_cmd_stroke_path(m: BatcherModel, cache: &TextureCache, meshes: &PathCache, p: &StrokePath) -> BatcherModel {
    let f = s_get_fill(cache, p.fill);
    let m1 = s_set_source(m, f.1);
    match s_mesh_for(meshes, p.path.events@, MeshKind::Stroke(p.options)) {
        None => m1,
        Some(mesh) => s_draw_mesh(m1, mesh, p.pos, f.0, f.2, f.3),
    }
}

/// Whether a layer takes the fast path: opaque white tint and no scissor.
pub open spec fn s_layer_fast(l: &DrawLayer) -> bool {
    l.tint == s_white() && l.scissor is None
}


/// A fixed-point vector as whole texels: negative components clamp to
/// zero, fractions truncate.
pub open spec fn s_to_uvec2(v: Vec2) -> UVec2 {
    crate::math::s_to_texels(v)
}

/// The bounding rectangle one command contributes, if any.
pub open spec fn s_bound_step(cache: &TextureCache, meshes: &PathCache, c: &Command) -> Option<
    Rect,
>
    decreases c, 0nat,
{
    match c {
        Command::ClearRect(cr) => Some(
            Rect { min: cr.pos, max: crate::math::sv_add(cr.pos, cr.size) },
        ),
        Command::DrawRect(r) => {
            let shadow_offset = match r.shadow {
                Some(sh) => sh.offset,
                None => Vec2 { x: 0i64, y: 0i64 },
            };
            let blur = match r.shadow {
                Some(sh) => sh.blur_radius,
                None => 0i64,
            };
            let spread = match r.shadow {
                Some(sh) => sh.spread_radius,
                None => 0i64,
            };
            let radius = crate::math::s_add(blur as int, spread as int) as i64;
            let rvec = Vec2 { x: radius, y: radius };
            let rect_min = r.pos;
            let rect_max = crate::math::sv_add(r.pos, r.size);
            let shadow_min = crate::math::sv_add(
                crate::math::sv_sub(rect_min, rvec),
                shadow_offset,
            );
            let shadow_max = crate::math::sv_add(
                crate::math::sv_add(rect_max, rvec),
                shadow_offset,
            );
            Some(
                Rect {
                    min: crate::math::sv_min(shadow_min, rect_min),
                    max: crate::math::sv_max(shadow_max, rect_max),
                },
            )
        },
        Command::DrawGlyph(g) => match cache.s_get_glyph(s_glyph_key(*g)) {
            None => None,
            Some(ag) => {
                let pos = crate::math::sv_add(
                    Vec2 {
                        x: crate::math::s_trunc(g.pos.x as int) as i64,
                        y: crate::math::s_trunc(g.pos.y as int) as i64,
                    },
                    ag.offset,
                );
                let size = Vec2 {
                    x: (crate::math::s_max(0, ag.rect.max.x - ag.rect.min.x) * 256) as i64,
                    y: (crate::math::s_max(0, ag.rect.max.y - ag.rect.min.y) * 256) as i64,
                };
                Some(Rect { min: pos, max: crate::math::sv_add(pos, size) })
            },
        },
        Command::DrawLayer(l) => match s_bound_of(cache, meshes, l.commands@, 0) {
            None => None,
            Some(rect) => Some(crate::math::s_rect_transform(rect, l.transform)),
        },
        Command::FillPath(p) => match s_mesh_for(meshes, p.path.events@, MeshKind::Fill(p.options)) {
            None => None,
            Some(mesh) => mesh.bounding_rect,
        },
        Command::StrokePath(p) => match s_mesh_for(
            meshes,
            p.path.events@,
            MeshKind::Stroke(p.options),
        ) {
            None => None,
            Some(mesh) => mesh.bounding_rect,
        },
    }
}

/// The union of the bounds of `cmds[i..]`.
pub open spec fn s_bound_of(
    cache: &TextureCache,
    meshes: &PathCache,
    cmds: Seq<Command>,
    i: int,
) -> Option<Rect>
    decreases cmds, 1nat, cmds.len() - i,
{
    if i < 0 || i >= cmds.len() {
        None
    } else {
        let here = s_bound_step(cache, meshes, &cmds[i]);
        let rest = s_bound_of(cache, meshes, cmds, i + 1);
        match (here, rest) {
            (Some(a), Some(b)) => Some(crate::math::s_rect_union(a, b)),
            (Some(a), None) => Some(a),
            (None, Some(b)) => Some(b),
            (None, None) => None,
        }
    }
}

/// Whether the subtree needs multisampling: it holds a path command,
/// descending through fast-path layers only.
pub open spec fn s_needs_msaa(cmds: Seq<Command>, i: int) -> bool
    decreases cmds, 1nat, cmds.len() - i,
{
    if i < 0 || i >= cmds.len() {
        false
    } else {
        let here = match cmds[i] {
            Command::FillPath(_) => true,
            Command::StrokePath(_) => true,
            Command::DrawLayer(l) => s_layer_fast(&l) && s_needs_msaa(l.commands@, 0),
            _ => false,
        };
        here || s_needs_msaa(cmds, i + 1)
    }
}

/// Marks the last batch targeting the intermediate for multisample
/// resolve.
pub open spec fn s_mark_last(batches: Seq<Batch>, iid: IntermediateId) -> Seq<Batch>
    decreases batches.len(),
{
    if batches.len() == 0 {
        batches
    } else if batches.last().target == Target::Intermediate(iid) {
        batches.drop_last().push(Batch { msaa_resolve: true, ..batches.last() })
    } else {
        s_mark_last(batches.drop_last(), iid).push(batches.last())
    }
}

/// One command's full effect on the batcher.
pub open spec fn s_step(
    m: BatcherModel,
    cache: &TextureCache,
    meshes: &PathCache,
    c: &Command,
) -> BatcherModel
    decreases c, 1nat, 0nat,
{
    match c {
        Command::ClearRect(cr) => s_cmd_clear_rect(m, *cr),
        Command::DrawRect(r) => s_cmd_draw_rect(m, cache, *r),
        Command::DrawGlyph(g) => s_cmd_draw_glyph(m, cache, *g),
        Command::FillPath(p) => s_cmd_fill_path(m, cache, meshes, p),
        Command::StrokePath(p) => s_cmd_stroke_path(m, cache, meshes, p),
        Command::DrawLayer(l) => {
            if s_layer_fast(l) {
                let m1 = BatcherModel {
                    transforms: m.transforms.push(
                        crate::math::s_compose(s_top(m), l.transform),
                    ),
                    ..m
                };
                let m2 = s_run(m1, cache, meshes, l.commands@, 0);
                BatcherModel { transforms: m2.transforms.drop_last(), ..m2 }
            } else {
                s_layer_offscreen(m, cache, meshes, l.commands@, l.tint, l.transform)
            }
        },
    }
}

/// The slow path: composite the subtree into a fresh intermediate, then
/// draw it into the parent as one tinted quad.
pub open spec fn s_layer_offscreen(
    m: BatcherModel,
    cache: &TextureCache,
    meshes: &PathCache,
    cmds: Seq<Command>,
    tint: Color,
    transform: Transform,
) -> BatcherModel
    decreases cmds, 3nat, 0nat,
{
    let m0 = s_set_clear(m, false);
    match s_bound_of(cache, meshes, cmds, 0) {
        None => m0,
        Some(local_rect) => {
            let layer_t = crate::math::s_compose(s_top(m0), transform);
            let r0 = crate::math::s_rect_transform(local_rect, layer_t);
            let rect = Rect {
                min: Vec2 {
                    x: crate::math::s_sub(crate::math::s_floor(r0.min.x as int), 256) as i64,
                    y: crate::math::s_sub(crate::math::s_floor(r0.min.y as int), 256) as i64,
                },
                max: Vec2 {
                    x: crate::math::s_add(crate::math::s_ceil(r0.max.x as int), 256) as i64,
                    y: crate::math::s_add(crate::math::s_ceil(r0.max.y as int), 256) as i64,
                },
            };
            let enable_msaa = s_needs_msaa(cmds, 0);
            let size = crate::math::sv_sub(rect.max, rect.min);
            let m1 = s_flush(m0);
            let iid = IntermediateId(m1.intermediates.len() as usize);
            let m2 = BatcherModel {
                intermediates: m1.intermediates.push(
                    Intermediate { size: s_to_uvec2(size), msaa: enable_msaa },
                ),
                ..m1
            };
            let old_target = m2.cur_target;
            let m3 = s_set_target(m2, Target::Intermediate(iid));
            let m4 = BatcherModel { transforms: m3.transforms.push(s_identity()), ..m3 };
            let m5 = s_cmd_clear_rect(
                m4,
                ClearRect { pos: Vec2 { x: 0i64, y: 0i64 }, size, color: s_transparent() },
            );
            let m6 = BatcherModel { transforms: m5.transforms.drop_last(), ..m5 };
            let m7 = BatcherModel {
                transforms: m6.transforms.push(
                    crate::math::s_compose(
                        crate::math::s_translation(
                            Vec2 {
                                x: crate::math::s_sub(0, rect.min.x as int) as i64,
                                y: crate::math::s_sub(0, rect.min.y as int) as i64,
                            },
                        ),
                        layer_t,
                    ),
                ),
                ..m6
            };
            let m8 = s_run(m7, cache, meshes, cmds, 0);
            let m9 = BatcherModel { transforms: m8.transforms.drop_last(), ..m8 };
            let m10 = s_flush(m9);
            let m11 = if enable_msaa {
                BatcherModel { batches: s_mark_last(m10.batches, iid), ..m10 }
            } else {
                m10
            };
            let m12 = s_set_target(m11, old_target);
            let m13 = s_set_source(m12, Source::Intermediate(iid));
            let m14 = BatcherModel { transforms: m13.transforms.push(s_identity()), ..m13 };
            let m15 = s_add_quad(
                m14,
                Quad {
                    min: rect.min,
                    max: rect.max,
                    local_min: Vec2 { x: 0i64, y: 0i64 },
                    local_max: Vec2 { x: 0i64, y: 0i64 },
                    tex_min: Vec2 { x: 0i64, y: 0i64 },
                    tex_max: Vec2 {
                        x: (s_to_uvec2(size).x * 256) as i64,
                        y: (s_to_uvec2(size).y * 256) as i64,
                    },
                    color: tint,
                    instance_id: INSTANCE_FILL,
                },
            );
            BatcherModel { transforms: m15.transforms.drop_last(), ..m15 }
        },
    }
}

/// Runs `cmds[i..]` in order.
pub open spec fn s_run(
    m: BatcherModel,
    cache: &TextureCache,
    meshes: &PathCache,
    cmds: Seq<Command>,
    i: int,
) -> BatcherModel
    decreases cmds, 2nat, cmds.len() - i,
{
    if i < 0 || i >= cmds.len() {
        m
    } else {
        s_run(s_step(m, cache, meshes, &cmds[i]), cache, meshes, cmds, i + 1)
    }
}

/// One draw list: aim at its surface, run its commands (through one
/// offscreen pass when the whole list needs multisampling), flush.
pub open spec fn s_prepare(
    m: BatcherModel,
    cache: &TextureCache,
    meshes: &PathCache,
    list: &DrawList,
) -> BatcherModel {
    if list.commands@.len() == 0 {
        m
    } else {
        let m1 = s_set_target(m, Target::Surface(list.surface));
        let m2 = if s_needs_msaa(list.commands@, 0) {
            s_layer_offscreen(m1, cache, meshes, list.commands@, s_white(), s_identity())
        } else {
            s_run(m1, cache, meshes, list.commands@, 0)
        };
        s_flush(m2)
    }
}


/// Walks one or more command trees against the loaded caches and produces
/// the frame's vertex, index and instance buffers, its intermediates, and
/// its ordered batch list. Holds its buffers across frames as scratch.
pub struct Batcher {
    vertices: Vec<Vertex>,
    indices: Vec<usize>,
    instances: Vec<Instance>,
    batches: Vec<Batch>,
    transforms: Vec<Transform>,
    intermediates: Vec<Intermediate>,
    cur_clear: bool,
    cur_target: Target,
    cur_source: Source,
    max_instances_per_buffer: usize,
    cur_instance_buffer_id: usize,
    last_index: usize,
    last_vertex: usize,
}

/// The model of a fresh batcher.
pub open spec fn s_fresh(max_per: usize) -> BatcherModel {
    BatcherModel {
        vertices: Seq::empty(),
        indices: Seq::empty(),
        instances: Seq::empty(),
        batches: Seq::empty(),
        transforms: Seq::empty(),
        intermediates: Seq::empty(),
        cur_clear: false,
        cur_target: Target::Intermediate(IntermediateId(0usize)),
        cur_source: Source::White,
        max_per,
        cur_ibuf: 0usize,
        last_index: 0usize,
        last_vertex: 0usize,
    }
}

impl Batcher {
    /// The batcher's state as one value.
    pub closed spec fn m(&self) -> BatcherModel {
        BatcherModel {
            vertices: self.vertices@,
            indices: self.indices@,
            instances: self.instances@,
            batches: self.batches@,
            transforms: self.transforms@,
            intermediates: self.intermediates@,
            cur_clear: self.cur_clear,
            cur_target: self.cur_target,
            cur_source: self.cur_source,
            max_per: self.max_instances_per_buffer,
            cur_ibuf: self.cur_instance_buffer_id,
            last_index: self.last_index,
            last_vertex: self.last_vertex,
        }
    }

    pub fn new(max_instances_per_buffer: usize) -> (r: Batcher)
        requires
            max_instances_per_buffer >= 1,
        ensures
            r.m() == s_fresh(max_instances_per_buffer),
    {
        let r = Batcher {
            vertices: Vec::new(),
            indices: Vec::new(),
            instances: Vec::new(),
            batches: Vec::new(),
            transforms: Vec::new(),
            intermediates: Vec::new(),
            cur_clear: false,
            cur_target: Target::Intermediate(IntermediateId(0)),
            cur_source: Source::White,
            max_instances_per_buffer,
            cur_instance_buffer_id: 0,
            last_index: 0,
            last_vertex: 0,
        };
        proof {
            assert(r.m() =~= s_fresh(max_instances_per_buffer));
        }
        r
    }

    /// Drops the last frame's output, keeping the allocations.
    pub fn clear(&mut self)
        ensures
            final(self).m() == s_fresh(old(self).m().max_per),
    {
        self.vertices.clear();
        self.indices.clear();
        self.instances.clear();
        self.batches.clear();
        self.transforms.clear();
        self.intermediates.clear();
        self.cur_clear = false;
        self.cur_target = Target::Intermediate(IntermediateId(0));
        self.cur_source = Source::White;
        self.cur_instance_buffer_id = 0;
        self.last_index = 0;
        self.last_vertex = 0;
        proof {
            assert(self.m() =~= s_fresh(old(self).m().max_per));
        }
    }

    pub fn batches(&self) -> (r: &Vec<Batch>)
        ensures
            r@ == self.m().batches,
    {
        &self.batches
    }

    pub fn vertices(&self) -> (r: &Vec<Vertex>)
        ensures
            r@ == self.m().vertices,
    {
        &self.vertices
    }

    pub fn indices(&self) -> (r: &Vec<usize>)
        ensures
            r@ == self.m().indices,
    {
        &self.indices
    }

    pub fn instances(&self) -> (r: &Vec<Instance>)
        ensures
            r@ == self.m().instances,
    {
        &self.instances
    }

    pub fn intermediates(&self) -> (r: &Vec<Intermediate>)
        ensures
            r@ == self.m().intermediates,
    {
        &self.intermediates
    }

    fn flush(&mut self)
        ensures
            final(self).m() == s_flush(old(self).m()),
    {
        if self.indices.len() > self.last_index {
            self.batches.push(
                Batch {
                    clear: self.cur_clear,
                    msaa_resolve: false,
                    target: self.cur_target,
                    source: self.cur_source,
                    index_start: self.last_index,
                    index_end: self.indices.len(),
                    vertex_start: self.last_vertex,
                    vertex_end: self.vertices.len(),
                    instance_buffer_id: self.cur_instance_buffer_id,
                },
            );
            self.last_index = self.indices.len();
            self.last_vertex = self.vertices.len();
        }
    }

    fn set_source(&mut self, source: Source)
        ensures
            final(self).m() == s_set_source(old(self).m(), source),
    {
        if self.cur_source != source {
            self.flush();
        }
        self.cur_source = source;
    }

    fn set_target(&mut self, target: Target)
        ensures
            final(self).m() == s_set_target(old(self).m(), target),
    {
        if self.cur_target != target {
            self.flush();
        }
        self.cur_target = target;
    }

    fn set_clear(&mut self, clear: bool)
        ensures
            final(self).m() == s_set_clear(old(self).m(), clear),
    {
        if self.cur_clear != clear {
            self.flush();
        }
        self.cur_clear = clear;
    }

    /// The active transform: top of the stack, or identity.
    fn top_transform(&self) -> (r: Transform)
        ensures
            r == s_top(self.m()),
    {
        if self.transforms.len() > 0 {
            self.transforms[self.transforms.len() - 1]
        } else {
            Transform::identity()
        }
    }

    fn add_vertex(&mut self, v: Vertex)
        ensures
            final(self).m() == s_add_vertex(old(self).m(), v),
    {
        let top: Transform = self.top_transform();
        let pos: Vec2 = top.transform_point(v.pos);
        self.vertices.push(Vertex { pos, ..v });
    }

    fn add_quad(&mut self, q: Quad)
        ensures
            final(self).m() == s_add_quad(old(self).m(), q),
    {
        let a: usize = self.vertices.len();
        self.add_vertex(
            Vertex {
                pos: q.min,
                local_pos: q.local_min,
                tex: q.tex_min,
                color: q.color,
                instance_id: q.instance_id,
            },
        );
        let b: usize = self.vertices.len() - 1 + 1;
        self.add_vertex(
            Vertex {
                pos: Vec2 { x: q.max.x, y: q.min.y },
                local_pos: Vec2 { x: q.local_max.x, y: q.local_min.y },
                tex: Vec2 { x: q.tex_max.x, y: q.tex_min.y },
                color: q.color,
                instance_id: q.instance_id,
            },
        );
        let c: usize = self.vertices.len() - 1 + 1;
        self.add_vertex(
            Vertex {
                pos: q.max,
                local_pos: q.local_max,
                tex: q.tex_max,
                color: q.color,
                instance_id: q.instance_id,
            },
        );
        let d: usize = self.vertices.len() - 1 + 1;
        self.add_vertex(
            Vertex {
                pos: Vec2 { x: q.min.x, y: q.max.y },
                local_pos: Vec2 { x: q.local_min.x, y: q.local_max.y },
                tex: Vec2 { x: q.tex_min.x, y: q.tex_max.y },
                color: q.color,
                instance_id: q.instance_id,
            },
        );
        self.indices.push(a);
        self.indices.push(b);
        self.indices.push(c);
        self.indices.push(c);
        self.indices.push(d);
        self.indices.push(a);
        proof {
            assert(b == a + 1 && c == a + 2 && d == a + 3);
            assert(final(self).m() =~= s_add_quad(old(self).m(), q));
        }
    }
}


impl Batcher {
    fn add_instance(&mut self, inst: Instance) -> (r: usize)
        requires
            old(self).m().max_per >= 1,
        ensures
            final(self).m() == s_add_instance(old(self).m(), inst).0,
            r == s_add_instance(old(self).m(), inst).1,
    {
        if self.instances.len() > 0 && self.instances.len() % self.max_instances_per_buffer == 0 {
            self.flush();
            if self.cur_instance_buffer_id < usize::MAX {
                self.cur_instance_buffer_id = self.cur_instance_buffer_id + 1;
            }
        }
        let idx: usize = self.instances.len() % self.max_instances_per_buffer;
        self.instances.push(inst);
        idx
    }

    fn cmd_clear_rect(&mut self, c: ClearRect)
        ensures
            final(self).m() == s_cmd_clear_rect(old(self).m(), c),
    {
        self.set_clear(true);
        self.set_source(Source::White);
        self.add_quad(
            Quad {
                min: c.pos,
                max: c.pos.add(c.size),
                local_min: Vec2 { x: 0, y: 0 },
                local_max: Vec2 { x: 0, y: 0 },
                tex_min: Vec2 { x: 0, y: 0 },
                tex_max: Vec2 { x: 0, y: 0 },
                color: c.color,
                instance_id: INSTANCE_FILL,
            },
        );
    }

    /// Resolves a fill: its color, its source, and its texel rectangle.
    fn get_fill(&self, cache: &TextureCache, fill: Fill) -> (r: (Color, Source, Vec2, Vec2))
        ensures
            r == s_get_fill(cache, fill),
    {
        match fill {
            Fill::Solid(color) => (
                color,
                Source::White,
                Vec2 { x: 0, y: 0 },
                Vec2 { x: 0, y: 0 },
            ),
            Fill::Image(fi) => {
                match cache.get_image(fi.image) {
                    Some(img) => {
                        let (lo, hi) = match fi.clip_rect {
                            Some(clip) => {
                                let lox = sat_uadd_capped(img.rect.min.x, clip.min.x, img.rect.max.x);
                                let loy = sat_uadd_capped(img.rect.min.y, clip.min.y, img.rect.max.y);
                                let hix = sat_uadd_capped(img.rect.min.x, clip.max.x, img.rect.max.x);
                                let hiy = sat_uadd_capped(img.rect.min.y, clip.max.y, img.rect.max.y);
                                (UVec2 { x: lox, y: loy }, UVec2 { x: hix, y: hiy })
                            },
                            None => (img.rect.min, img.rect.max),
                        };
                        (
                            fi.tint,
                            Source::Texture(img.texture),
                            Vec2 { x: lo.x as i64 * 256, y: lo.y as i64 * 256 },
                            Vec2 { x: hi.x as i64 * 256, y: hi.y as i64 * 256 },
                        )
                    },
                    None => (fi.tint, Source::White, Vec2 { x: 0, y: 0 }, Vec2 { x: 0, y: 0 }),
                }
            },
        }
    }

    fn cmd_draw_rect(&mut self, cache: &TextureCache, r: DrawRect)
        requires
            old(self).m().max_per >= 1,
        ensures
            final(self).m() == s_cmd_draw_rect(old(self).m(), cache, r),
    {
        self.set_clear(false);
        let f = self.get_fill(cache, r.fill);
        let color: Color = f.0;
        self.set_source(f.1);
        let plain: bool = r.border.is_none() && r.shadow.is_none() && r.corner_radii
            == crate::CornerRadii::new(0, 0, 0, 0);
        if plain {
            proof {
                assert(s_rect_is_plain(r));
            }
            self.add_quad(
                Quad {
                    min: r.pos,
                    max: r.pos.add(r.size),
                    local_min: Vec2 { x: 0, y: 0 },
                    local_max: Vec2 { x: 0, y: 0 },
                    tex_min: f.2,
                    tex_max: f.3,
                    color,
                    instance_id: INSTANCE_FILL,
                },
            );
            return;
        }
        proof {
            assert(!s_rect_is_plain(r));
        }
        let shadow_offset: Vec2 = match r.shadow {
            Some(s) => s.offset,
            None => Vec2 { x: 0, y: 0 },
        };
        let blur: i64 = match r.shadow {
            Some(s) => s.blur_radius,
            None => 0,
        };
        let spread: i64 = match r.shadow {
            Some(s) => s.spread_radius,
            None => 0,
        };
        let border_color: Color = match r.border {
            Some(b) => b.color,
            None => Color::transparent(),
        };
        let border_width: i64 = match r.border {
            Some(b) => b.width,
            None => 0,
        };
        let shadow_color: Color = match r.shadow {
            Some(s) => s.color,
            None => Color::transparent(),
        };
        let inst_id: usize = self.add_instance(
            Instance {
                corner_radii: r.corner_radii,
                border_color,
                shadow_color,
                shadow_offset,
                size: r.size,
                border_width,
                shadow_blur_radius: blur,
                shadow_spread_radius: spread,
            },
        );
        let radius: i64 = crate::math::fx_add(blur, spread);
        let rvec = Vec2 { x: radius, y: radius };
        let rect_min: Vec2 = r.pos;
        let rect_max: Vec2 = r.pos.add(r.size);
        let shadow_min: Vec2 = rect_min.sub(rvec).add(shadow_offset);
        let shadow_max: Vec2 = rect_max.add(rvec).add(shadow_offset);
        let lo: Vec2 = shadow_min.min(rect_min);
        let hi: Vec2 = shadow_max.max(rect_max);
        let tex_size: Vec2 = f.3.sub(f.2);
        let t_lo: Vec2 = f.2.sub(rect_min.sub(lo).mul(tex_size).div(r.size));
        let t_hi: Vec2 = f.3.add(hi.sub(rect_max).mul(tex_size).div(r.size));
        self.add_quad(
            Quad {
                min: lo,
                max: hi,
                local_min: lo.sub(r.pos),
                local_max: hi.sub(r.pos),
                tex_min: t_lo,
                tex_max: t_hi,
                color,
                instance_id: inst_id,
            },
        );
    }

    fn cmd_draw_glyph(&mut self, cache: &TextureCache, g: DrawGlyph)
        ensures
            final(self).m() == s_cmd_draw_glyph(old(self).m(), cache, g),
    {
        self.set_clear(false);
        let key = GlyphKey {
            font: g.font,
            glyph: g.glyph,
            size: g.size,
            subpixel_bin: SubpixelBin::new(g.pos),
        };
        proof {
            assert(key == s_glyph_key(g));
        }
        let ag: AllocatedGlyph = match cache.get_glyph(&key) {
            Some(v) => v,
            None => {
                return;
            },
        };
        self.set_source(Source::Texture(ag.texture));
        let pos: Vec2 = g.pos.trunc().add(ag.offset);
        let gsize: UVec2 = ag.rect.size();
        let size = Vec2 { x: gsize.x as i64 * 256, y: gsize.y as i64 * 256 };
        let (color, instance_id): (Color, usize) = if ag.format == ImageFormat::Gray8 {
            (g.color, INSTANCE_FILL_GRAY)
        } else {
            (Color::white(), INSTANCE_FILL)
        };
        self.add_quad(
            Quad {
                min: pos,
                max: pos.add(size),
                local_min: Vec2 { x: 0, y: 0 },
                local_max: Vec2 { x: 0, y: 0 },
                tex_min: Vec2 { x: ag.rect.min.x as i64 * 256, y: ag.rect.min.y as i64 * 256 },
                tex_max: Vec2 { x: ag.rect.max.x as i64 * 256, y: ag.rect.max.y as i64 * 256 },
                color,
                instance_id,
            },
        );
    }
}

/// `a + b`, capped at `cap`.
fn sat_uadd_capped(a: u32, b: u32, cap: u32) -> (r: u32)
    ensures
        r as int == crate::math::s_min(a as int + b as int, cap as int),
{
    let sum: u64 = a as u64 + b as u64;
    if sum >= cap as u64 {
        cap
    } else {
        sum as u32
    }
}



/// Every command leaves the transform stack as it found it.
#[verifier::rlimit(100)]
#[verifier::spinoff_prover]
pub proof fn lemma_step_transforms(
    m: BatcherModel,
    cache: &TextureCache,
    meshes: &PathCache,
    c: &Command,
)
    ensures
        s_step(m, cache, meshes, c).transforms == m.transforms,
    decreases c, 9nat, 0nat,
{
    match c {
        Command::ClearRect(cr) => {},
        Command::DrawRect(r) => {},
        Command::DrawGlyph(g) => {},
        Command::FillPath(p) => {},
        Command::StrokePath(p) => {},
        Command::DrawLayer(l) => {
            if s_layer_fast(l) {
                let m1 = BatcherModel {
                    transforms: m.transforms.push(
                        crate::math::s_compose(s_top(m), l.transform),
                    ),
                    ..m
                };
                lemma_run_transforms(m1, cache, meshes, l.commands@, 0);
                assert(s_run(m1, cache, meshes, l.commands@, 0).transforms.drop_last()
                    =~= m.transforms);
            } else {
                lemma_offscreen_transforms(m, cache, meshes, l.commands@, l.tint, l.transform);
            }
        },
    }
}

/// Running a list leaves the transform stack as it found it.
pub proof fn lemma_run_transforms(
    m: BatcherModel,
    cache: &TextureCache,
    meshes: &PathCache,
    cmds: Seq<Command>,
    i: int,
)
    ensures
        s_run(m, cache, meshes, cmds, i).transforms == m.transforms,
    decreases cmds, 2nat, cmds.len() - i,
{
    if 0 <= i < cmds.len() {
        lemma_step_transforms(m, cache, meshes, &cmds[i]);
        lemma_run_transforms(s_step(m, cache, meshes, &cmds[i]), cache, meshes, cmds, i + 1);
    }
}

/// The offscreen pass leaves the transform stack as it found it.
#[verifier::rlimit(100)]
#[verifier::spinoff_prover]
pub proof fn lemma_offscreen_transforms(
    m: BatcherModel,
    cache: &TextureCache,
    meshes: &PathCache,
    cmds: Seq<Command>,
    tint: Color,
    transform: Transform,
)
    ensures
        s_layer_offscreen(m, cache, meshes, cmds, tint, transform).transforms == m.transforms,
    decreases cmds, 3nat, 0nat,
{
    let m0 = s_set_clear(m, false);
    match s_bound_of(cache, meshes, cmds, 0) {
        None => {},
        Some(local_rect) => {
            let layer_t = crate::math::s_compose(s_top(m0), transform);
            let r0 = crate::math::s_rect_transform(local_rect, layer_t);
            let rect = Rect {
                min: Vec2 {
                    x: crate::math::s_sub(crate::math::s_floor(r0.min.x as int), 256) as i64,
                    y: crate::math::s_sub(crate::math::s_floor(r0.min.y as int), 256) as i64,
                },
                max: Vec2 {
                    x: crate::math::s_add(crate::math::s_ceil(r0.max.x as int), 256) as i64,
                    y: crate::math::s_add(crate::math::s_ceil(r0.max.y as int), 256) as i64,
                },
            };
            let enable_msaa = s_needs_msaa(cmds, 0);
            let size = crate::math::sv_sub(rect.max, rect.min);
            let m1 = s_flush(m0);
            let iid = IntermediateId(m1.intermediates.len() as usize);
            let m2 = BatcherModel {
                intermediates: m1.intermediates.push(
                    Intermediate { size: s_to_uvec2(size), msaa: enable_msaa },
                ),
                ..m1
            };
            let old_target = m2.cur_target;
            let m3 = s_set_target(m2, Target::Intermediate(iid));
            let m4 = BatcherModel { transforms: m3.transforms.push(s_identity()), ..m3 };
            let m5 = s_cmd_clear_rect(
                m4,
                ClearRect { pos: Vec2 { x: 0i64, y: 0i64 }, size, color: s_transparent() },
            );
            let m6 = BatcherModel { transforms: m5.transforms.drop_last(), ..m5 };
            let m7 = BatcherModel {
                transforms: m6.transforms.push(
                    crate::math::s_compose(
                        crate::math::s_translation(
                            Vec2 {
                                x: crate::math::s_sub(0, rect.min.x as int) as i64,
                                y: crate::math::s_sub(0, rect.min.y as int) as i64,
                            },
                        ),
                        layer_t,
                    ),
                ),
                ..m6
            };
            lemma_run_transforms(m7, cache, meshes, cmds, 0);
            let m8 = s_run(m7, cache, meshes, cmds, 0);
            let m9 = BatcherModel { transforms: m8.transforms.drop_last(), ..m8 };
            let m10 = s_flush(m9);
            let m11 = if enable_msaa {
                BatcherModel { batches: s_mark_last(m10.batches, iid), ..m10 }
            } else {
                m10
            };
            let m12 = s_set_target(m11, old_target);
            let m13 = s_set_source(m12, Source::Intermediate(iid));
            let m14 = BatcherModel { transforms: m13.transforms.push(s_identity()), ..m13 };
            assert(m5.transforms == m4.transforms);
            assert(m6.transforms =~= m3.transforms);
            assert(m8.transforms == m7.transforms);
            assert(m9.transforms =~= m6.transforms);
            assert(m14.transforms.drop_last() =~= m13.transforms);
            assert(m13.transforms == m.transforms);
        },
    }
}

/// A fixed-point vector as whole texels, clamped.
fn to_uvec2(v: Vec2) -> (r: UVec2)
    ensures
        r == s_to_uvec2(v),
{
    crate::math::to_texels(v)
}

/// Sets the multisample-resolve flag on the last batch drawn into the
/// intermediate.
fn mark_last(batches: &mut Vec<Batch>, iid: IntermediateId)
    ensures
        final(batches)@ == s_mark_last(old(batches)@, iid),
    decreases old(batches)@.len(),
{
    if batches.len() == 0 {
        return;
    }
    let n: usize = batches.len() - 1;
    if batches[n].target == Target::Intermediate(iid) {
        batches[n].msaa_resolve = true;
        proof {
            assert(batches@ =~= old(batches)@.drop_last().push(
                Batch { msaa_resolve: true, ..old(batches)@.last() },
            ));
        }
    } else {
        let popped: Batch = batches.pop().unwrap();
        mark_last(batches, iid);
        batches.push(popped);
        proof {
            assert(batches@ =~= s_mark_last(old(batches)@.drop_last(), iid).push(
                old(batches)@.last(),
            ));
        }
    }
}

/// The bounding rectangle one command contributes.
fn bound_step_exec(cache: &TextureCache, meshes: &PathCache, c: &Command) -> (r: Option<Rect>)
    requires
        meshes.wf(),
    ensures
        r == s_bound_step(cache, meshes, c),
    decreases c, 0nat, 0nat,
{
    match c {
        Command::ClearRect(cr) => Some(Rect { min: cr.pos, max: cr.pos.add(cr.size) }),
        Command::DrawRect(r) => {
            let shadow_offset: Vec2 = match r.shadow {
                Some(sh) => sh.offset,
                None => Vec2 { x: 0, y: 0 },
            };
            let blur: i64 = match r.shadow {
                Some(sh) => sh.blur_radius,
                None => 0,
            };
            let spread: i64 = match r.shadow {
                Some(sh) => sh.spread_radius,
                None => 0,
            };
            let radius: i64 = crate::math::fx_add(blur, spread);
            let rvec = Vec2 { x: radius, y: radius };
            let rect_min: Vec2 = r.pos;
            let rect_max: Vec2 = r.pos.add(r.size);
            let shadow_min: Vec2 = rect_min.sub(rvec).add(shadow_offset);
            let shadow_max: Vec2 = rect_max.add(rvec).add(shadow_offset);
            Some(Rect { min: shadow_min.min(rect_min), max: shadow_max.max(rect_max) })
        },
        Command::DrawGlyph(g) => {
            let key = GlyphKey {
                font: g.font,
                glyph: g.glyph,
                size: g.size,
                subpixel_bin: SubpixelBin::new(g.pos),
            };
            proof {
                assert(key == s_glyph_key(*g));
            }
            match cache.get_glyph(&key) {
                None => None,
                Some(ag) => {
                    let pos: Vec2 = g.pos.trunc().add(ag.offset);
                    let gsize: UVec2 = ag.rect.size();
                    let size = Vec2 { x: gsize.x as i64 * 256, y: gsize.y as i64 * 256 };
                    Some(Rect { min: pos, max: pos.add(size) })
                },
            }
        },
        Command::DrawLayer(l) => {
            match bound_of_exec(cache, meshes, &l.commands) {
                None => None,
                Some(rect) => Some(rect.transform(&l.transform)),
            }
        },
        Command::FillPath(p) => {
            match meshes.get(&p.path, MeshKind::Fill(p.options)) {
                Some(mesh) => {
                    proof {
                        lemma_mesh_found(meshes, p.path.events@, MeshKind::Fill(p.options), mesh);
                    }
                    mesh.bounding_rect
                },
                None => None,
            }
        },
        Command::StrokePath(p) => {
            match meshes.get(&p.path, MeshKind::Stroke(p.options)) {
                Some(mesh) => {
                    proof {
                        lemma_mesh_found(
                            meshes,
                            p.path.events@,
                            MeshKind::Stroke(p.options),
                            mesh,
                        );
                    }
                    mesh.bounding_rect
                },
                None => None,
            }
        },
    }
}

/// A mesh the cache handed out is the one the model sees.
pub proof fn lemma_mesh_found(
    meshes: &PathCache,
    events: Seq<crate::path::PathEvent>,
    kind: MeshKind,
    mesh: &Mesh,
)
    requires
        meshes.wf(),
        exists|i: int|
            0 <= i < meshes.s_ids().len() && meshes.s_ids()[i] == (crate::mesh::MeshId {
                events,
                kind,
            }) && *mesh == meshes.s_mesh_at(i),
    ensures
        s_mesh_for(meshes, events, kind) == Some(*mesh),
{
    let id = crate::mesh::MeshId { events, kind };
    let i = choose|i: int|
        0 <= i < meshes.s_ids().len() && meshes.s_ids()[i] == id && *mesh == meshes.s_mesh_at(i);
    let k = choose|k: int| 0 <= k < meshes.s_ids().len() && meshes.s_ids()[k] == id;
    if i != k {
        if i < k {
            assert(meshes.s_ids()[i] != meshes.s_ids()[k]);
        } else {
            assert(meshes.s_ids()[k] != meshes.s_ids()[i]);
        }
        assert(false);
    }
}

/// The union of the bounds of every command.
fn bound_of_exec(cache: &TextureCache, meshes: &PathCache, cmds: &Vec<Command>) -> (r: Option<
    Rect,
>)
    requires
        meshes.wf(),
    ensures
        r == s_bound_of(cache, meshes, cmds@, 0),
    decreases cmds@, 1nat, 0nat,
{
    let mut acc: Option<Rect> = None;
    let mut i: usize = cmds.len();
    while i > 0
        invariant
            meshes.wf(),
            i <= cmds@.len(),
            acc == s_bound_of(cache, meshes, cmds@, i as int),
        decreases i,
    {
        i = i - 1;
        let here: Option<Rect> = bound_step_exec(cache, meshes, &cmds[i]);
        acc = match (here, acc) {
            (Some(a), Some(b)) => Some(a.union(b)),
            (Some(a), None) => Some(a),
            (None, Some(b)) => Some(b),
            (None, None) => None,
        };
    }
    acc
}

/// Whether the subtree holds a path command beneath fast-path layers only.
fn needs_msaa_exec(cmds: &Vec<Command>) -> (r: bool)
    ensures
        r == s_needs_msaa(cmds@, 0),
    decreases cmds@, 1nat, 0nat,
{
    let mut i: usize = 0;
    while i < cmds.len()
        invariant
            i <= cmds@.len(),
            s_needs_msaa(cmds@, 0) == s_needs_msaa(cmds@, i as int),
        decreases cmds@.len() - i,
    {
        let here: bool = match &cmds[i] {
            Command::FillPath(_) => true,
            Command::StrokePath(_) => true,
            Command::DrawLayer(l) => {
                let fast: bool = l.tint == Color::white() && l.scissor.is_none();
                if fast {
                    needs_msaa_exec(&l.commands)
                } else {
                    false
                }
            },
            _ => false,
        };
        if here {
            return true;
        }
        i = i + 1;
    }
    false
}

impl Batcher {
    /// Appends a mesh's triangles, remapping its bounding rectangle onto
    /// the fill's texel rectangle.
    fn draw_mesh(&mut self, mesh: &Mesh, origin: Vec2, color: Color, tex_min: Vec2, tex_max: Vec2)
        ensures
            final(self).m() == s_draw_mesh(old(self).m(), *mesh, origin, color, tex_min, tex_max),
    {
        let rect: Rect = match mesh.bounding_rect {
            Some(r) => r,
            None => {
                return;
            },
        };
        let scale: Vec2 = tex_max.sub(tex_min).div(rect.max.sub(rect.min));
        let first: usize = self.vertices.len();
        let top: Transform = self.top_transform();
        let mut k: usize = 0;
        while k < mesh.vertices.len()
            invariant
                k <= mesh.vertices@.len(),
                top == s_top(old(self).m()),
                scale == crate::math::sv_div(
                    crate::math::sv_sub(tex_max, tex_min),
                    crate::math::sv_sub(rect.max, rect.min),
                ),
                first == old(self).m().vertices.len(),
                self.indices@ == old(self).m().indices,
                self.instances@ == old(self).m().instances,
                self.batches@ == old(self).m().batches,
                self.transforms@ == old(self).m().transforms,
                self.intermediates@ == old(self).m().intermediates,
                self.cur_clear == old(self).m().cur_clear,
                self.cur_target == old(self).m().cur_target,
                self.cur_source == old(self).m().cur_source,
                self.max_instances_per_buffer == old(self).m().max_per,
                self.cur_instance_buffer_id == old(self).m().cur_ibuf,
                self.last_index == old(self).m().last_index,
                self.last_vertex == old(self).m().last_vertex,
                self.vertices@.len() == first + k,
                forall|j: int|
                    0 <= j < first ==> #[trigger] self.vertices@[j] == old(self).m().vertices[j],
                forall|j: int|
                    0 <= j < k ==> #[trigger] self.vertices@[first + j] == (Vertex {
                        pos: s_transform_point(
                            s_top(old(self).m()),
                            crate::math::sv_add(origin, mesh.vertices@[j]),
                        ),
                        local_pos: mesh.vertices@[j],
                        tex: crate::math::sv_add(
                            tex_min,
                            crate::math::sv_mul(
                                crate::math::sv_sub(mesh.vertices@[j], rect.min),
                                crate::math::sv_div(
                                    crate::math::sv_sub(tex_max, tex_min),
                                    crate::math::sv_sub(rect.max, rect.min),
                                ),
                            ),
                        ),
                        color,
                        instance_id: INSTANCE_FILL,
                    }),
            decreases mesh.vertices@.len() - k,
        {
            let v: Vec2 = mesh.vertices[k];
            let pos: Vec2 = top.transform_point(origin.add(v));
            let tex: Vec2 = tex_min.add(v.sub(rect.min).mul(scale));
            self.vertices.push(
                Vertex { pos, local_pos: v, tex, color, instance_id: INSTANCE_FILL },
            );
            k = k + 1;
        }
        let mut t: usize = 0;
        while t < mesh.indices.len()
            invariant
                t <= mesh.indices@.len(),
                first == old(self).m().vertices.len(),
                self.vertices@.len() == first + mesh.vertices@.len(),
                self.indices@.len() == old(self).m().indices.len() + t,
                forall|j: int|
                    0 <= j < old(self).m().indices.len() ==> #[trigger] self.indices@[j] == old(
                        self,
                    ).m().indices[j],
                forall|j: int|
                    0 <= j < t ==> #[trigger] self.indices@[old(self).m().indices.len() + j]
                        as int == crate::math::s_min(
                        mesh.indices@[j] + first,
                        usize::MAX as int,
                    ),
                self.instances@ == old(self).m().instances,
                self.batches@ == old(self).m().batches,
                self.transforms@ == old(self).m().transforms,
                self.intermediates@ == old(self).m().intermediates,
                self.cur_clear == old(self).m().cur_clear,
                self.cur_target == old(self).m().cur_target,
                self.cur_source == old(self).m().cur_source,
                self.max_instances_per_buffer == old(self).m().max_per,
                self.cur_instance_buffer_id == old(self).m().cur_ibuf,
                self.last_index == old(self).m().last_index,
                self.last_vertex == old(self).m().last_vertex,
                forall|j: int|
                    0 <= j < first ==> #[trigger] self.vertices@[j] == old(self).m().vertices[j],
                forall|j: int|
                    0 <= j < mesh.vertices@.len() ==> #[trigger] self.vertices@[first + j]
                        == (Vertex {
                        pos: s_transform_point(
                            s_top(old(self).m()),
                            crate::math::sv_add(origin, mesh.vertices@[j]),
                        ),
                        local_pos: mesh.vertices@[j],
                        tex: crate::math::sv_add(
                            tex_min,
                            crate::math::sv_mul(
                                crate::math::sv_sub(mesh.vertices@[j], rect.min),
                                crate::math::sv_div(
                                    crate::math::sv_sub(tex_max, tex_min),
                                    crate::math::sv_sub(rect.max, rect.min),
                                ),
                            ),
                        ),
                        color,
                        instance_id: INSTANCE_FILL,
                    }),
            decreases mesh.indices@.len() - t,
        {
            let idx: usize = mesh.indices[t];
            let shifted: usize = if idx <= usize::MAX - first {
                idx + first
            } else {
                usize::MAX
            };
            self.indices.push(shifted);
            t = t + 1;
        }
        proof {
            let spec_result = s_draw_mesh(
                old(self).m(),
                *mesh,
                origin,
                color,
                tex_min,
                tex_max,
            );
            assert forall|j: int|
                0 <= j < spec_result.vertices.len() implies #[trigger] self.m().vertices[j]
                == spec_result.vertices[j] by {
                if j >= first {
                    assert(self.vertices@[first + (j - first)] == spec_result.vertices[j]);
                }
            }
            assert(self.m().vertices =~= spec_result.vertices);
            assert forall|j: int|
                0 <= j < spec_result.indices.len() implies #[trigger] self.m().indices[j]
                == spec_result.indices[j] by {
                if j >= old(self).m().indices.len() {
                    let jj = j - old(self).m().indices.len();
                    assert(self.indices@[old(self).m().indices.len() + jj] as int
                        == crate::math::s_min(mesh.indices@[jj] + first, usize::MAX as int));
                }
            }
            assert(self.m().indices =~= spec_result.indices);
            assert(self.m() =~= spec_result);
        }
    }

    fn cmd_fill_path(&mut self, cache: &TextureCache, meshes: &PathCache, p: &FillPath)
        requires
            meshes.wf(),
        ensures
            final(self).m() == s_cmd_fill_path(old(self).m(), cache, meshes, p),
    {
        let f = self.get_fill(cache, p.fill);
        self.set_source(f.1);
        match meshes.get(&p.path, MeshKind::Fill(p.options)) {
            Some(mesh) => {
                proof {
                    lemma_mesh_found(meshes, p.path.events@, MeshKind::Fill(p.options), mesh);
                }
                self.draw_mesh(mesh, p.pos, f.0, f.2, f.3);
            },
            None => {
            },
        }
    }

    fn cmd_stroke_path(&mut self, cache: &TextureCache, meshes: &PathCache, p: &StrokePath)
        requires
            meshes.wf(),
        ensures
            final(self).m() == s_cmd_stroke_path(old(self).m(), cache, meshes, p),
    {
        let f = self.get_fill(cache, p.fill);
        self.set_source(f.1);
        match meshes.get(&p.path, MeshKind::Stroke(p.options)) {
            Some(mesh) => {
                proof {
                    lemma_mesh_found(meshes, p.path.events@, MeshKind::Stroke(p.options), mesh);
                }
                self.draw_mesh(mesh, p.pos, f.0, f.2, f.3);
            },
            None => {
            },
        }
    }

    /// Dispatches one command.
    #[verifier::rlimit(100)]
    #[verifier::spinoff_prover]
    fn step(&mut self, cache: &TextureCache, meshes: &PathCache, c: &Command)
        requires
            old(self).m().max_per >= 1,
            meshes.wf(),
        ensures
            final(self).m() == s_step(old(self).m(), cache, meshes, c),
            final(self).m().max_per == old(self).m().max_per,
        decreases c, 9nat, 0nat,
    {
        match c {
            Command::ClearRect(cr) => self.cmd_clear_rect(*cr),
            Command::DrawRect(r) => self.cmd_draw_rect(cache, *r),
            Command::DrawGlyph(g) => self.cmd_draw_glyph(cache, *g),
            Command::FillPath(p) => self.cmd_fill_path(cache, meshes, p),
            Command::StrokePath(p) => self.cmd_stroke_path(cache, meshes, p),
            Command::DrawLayer(l) => {
                let fast: bool = l.tint == Color::white() && l.scissor.is_none();
                if fast {
                    proof {
                        assert(s_layer_fast(l));
                    }
                    let top: Transform = self.top_transform();
                    let composed: Transform = top.compose(&l.transform);
                    self.transforms.push(composed);
                    proof {
                        assert(self.m() =~= (BatcherModel {
                            transforms: old(self).m().transforms.push(
                                crate::math::s_compose(s_top(old(self).m()), l.transform),
                            ),
                            ..old(self).m()
                        }));
                    }
                    let ghost mm1 = self.m();
                    self.run(cache, meshes, &l.commands);
                    let ghost mm2 = self.m();
                    proof {
                        lemma_run_transforms(mm1, cache, meshes, l.commands@, 0);
                        assert(mm2.transforms.len() > 0);
                    }
                    let popped = self.transforms.pop();
                    proof {
                        assert(self.m() =~= (BatcherModel {
                            transforms: mm2.transforms.drop_last(),
                            ..mm2
                        }));
                        assert(mm2 == s_run(mm1, cache, meshes, l.commands@, 0));
                        assert(self.m() =~= s_step(old(self).m(), cache, meshes, c));
                    }
                } else {
                    proof {
                        assert(!s_layer_fast(l));
                    }
                    self.draw_intermediate_layer(cache, meshes, &l.commands, l.tint, l.transform);
                }
            },
        }
    }

    /// Runs every command of the list in order.
    fn run(&mut self, cache: &TextureCache, meshes: &PathCache, cmds: &Vec<Command>)
        requires
            old(self).m().max_per >= 1,
            meshes.wf(),
        ensures
            final(self).m() == s_run(old(self).m(), cache, meshes, cmds@, 0),
            final(self).m().max_per == old(self).m().max_per,
        decreases cmds@, 2nat, 0nat,
    {
        let mut i: usize = 0;
        while i < cmds.len()
            invariant
                meshes.wf(),
                i <= cmds@.len(),
                self.m().max_per == old(self).m().max_per >= 1,
                s_run(old(self).m(), cache, meshes, cmds@, 0) == s_run(
                    self.m(),
                    cache,
                    meshes,
                    cmds@,
                    i as int,
                ),
            decreases cmds@.len() - i,
        {
            self.step(cache, meshes, &cmds[i]);
            i = i + 1;
        }
    }

    /// Composites the subtree into a fresh intermediate, then draws that
    /// intermediate into the parent as one tinted quad.
    #[verifier::rlimit(100)]
    #[verifier::spinoff_prover]
    fn draw_intermediate_layer(
        &mut self,
        cache: &TextureCache,
        meshes: &PathCache,
        cmds: &Vec<Command>,
        tint: Color,
        transform: Transform,
    )
        requires
            old(self).m().max_per >= 1,
            meshes.wf(),
        ensures
            final(self).m() == s_layer_offscreen(
                old(self).m(),
                cache,
                meshes,
                cmds@,
                tint,
                transform,
            ),
            final(self).m().max_per == old(self).m().max_per,
        decreases cmds@, 3nat, 0nat,
    {
        self.set_clear(false);
        let ghost mm0 = self.m();
        let local_rect: Rect = match bound_of_exec(cache, meshes, cmds) {
            Some(r) => r,
            None => {
                return;
            },
        };
        let top: Transform = self.top_transform();
        let layer_t: Transform = top.compose(&transform);
        let r0: Rect = local_rect.transform(&layer_t);
        let rect = Rect {
            min: Vec2 {
                x: crate::math::fx_sub(crate::math::fx_floor(r0.min.x), 256),
                y: crate::math::fx_sub(crate::math::fx_floor(r0.min.y), 256),
            },
            max: Vec2 {
                x: crate::math::fx_add(crate::math::fx_ceil(r0.max.x), 256),
                y: crate::math::fx_add(crate::math::fx_ceil(r0.max.y), 256),
            },
        };
        let enable_msaa: bool = needs_msaa_exec(cmds);
        let size: Vec2 = rect.max.sub(rect.min);
        self.flush();
        let ghost mm1 = self.m();
        let iid = IntermediateId(self.intermediates.len());
        self.intermediates.push(Intermediate { size: to_uvec2(size), msaa: enable_msaa });
        proof {
            assert(self.m() =~= (BatcherModel {
                intermediates: mm1.intermediates.push(
                    Intermediate { size: s_to_uvec2(size), msaa: enable_msaa },
                ),
                ..mm1
            }));
        }
        let ghost mm2 = self.m();
        let old_target: Target = self.cur_target;
        self.set_target(Target::Intermediate(iid));
        let ghost mm3 = self.m();
        self.transforms.push(Transform::identity());
        proof {
            assert(self.m() =~= (BatcherModel {
                transforms: mm3.transforms.push(s_identity()),
                ..mm3
            }));
        }
        let ghost mm4 = self.m();
        self.cmd_clear_rect(
            ClearRect { pos: Vec2 { x: 0, y: 0 }, size, color: Color::transparent() },
        );
        let ghost mm5 = self.m();
        let popped1 = self.transforms.pop();
        proof {
            assert(self.m() =~= (BatcherModel { transforms: mm5.transforms.drop_last(), ..mm5 }));
        }
        let ghost mm6 = self.m();
        let neg_min = Vec2 {
            x: crate::math::fx_sub(0, rect.min.x),
            y: crate::math::fx_sub(0, rect.min.y),
        };
        let shifted: Transform = Transform::translation(neg_min).compose(&layer_t);
        self.transforms.push(shifted);
        proof {
            assert(self.m() =~= (BatcherModel {
                transforms: mm6.transforms.push(
                    crate::math::s_compose(crate::math::s_translation(neg_min), layer_t),
                ),
                ..mm6
            }));
        }
        let ghost mm7 = self.m();
        self.run(cache, meshes, cmds);
        let ghost mm8 = self.m();
        proof {
            lemma_run_transforms(mm7, cache, meshes, cmds@, 0);
            assert(mm8.transforms.len() > 0);
        }
        let popped2 = self.transforms.pop();
        proof {
            assert(self.m() =~= (BatcherModel { transforms: mm8.transforms.drop_last(), ..mm8 }));
        }
        let ghost mm9 = self.m();
        self.flush();
        let ghost mm10 = self.m();
        if enable_msaa {
            mark_last(&mut self.batches, iid);
            proof {
                assert(self.m() =~= (BatcherModel {
                    batches: s_mark_last(mm10.batches, iid),
                    ..mm10
                }));
            }
        }
        let ghost mm11 = self.m();
        self.set_target(old_target);
        let ghost mm12 = self.m();
        self.set_source(Source::Intermediate(iid));
        let ghost mm13 = self.m();
        self.transforms.push(Transform::identity());
        proof {
            assert(self.m() =~= (BatcherModel {
                transforms: mm13.transforms.push(s_identity()),
                ..mm13
            }));
        }
        let ghost mm14 = self.m();
        let texel_size: UVec2 = to_uvec2(size);
        self.add_quad(
            Quad {
                min: rect.min,
                max: rect.max,
                local_min: Vec2 { x: 0, y: 0 },
                local_max: Vec2 { x: 0, y: 0 },
                tex_min: Vec2 { x: 0, y: 0 },
                tex_max: Vec2 { x: texel_size.x as i64 * 256, y: texel_size.y as i64 * 256 },
                color: tint,
                instance_id: INSTANCE_FILL,
            },
        );
        let ghost mm15 = self.m();
        let popped3 = self.transforms.pop();
        proof {
            assert(self.m() =~= (BatcherModel {
                transforms: mm15.transforms.drop_last(),
                ..mm15
            }));
            assert(self.m() =~= s_layer_offscreen(mm0, cache, meshes, cmds@, tint, transform));
            assert(mm0 == s_set_clear(old(self).m(), false));
        }
    }

    /// Batches one draw list into its surface. When the list needs
    /// multisampling it is composited through one offscreen pass first.
    pub fn prepare(&mut self, cache: &TextureCache, meshes: &PathCache, list: &DrawList)
        requires
            old(self).m().max_per >= 1,
            meshes.wf(),
        ensures
            final(self).m() == s_prepare(old(self).m(), cache, meshes, list),
            final(self).m().max_per == old(self).m().max_per,
    {
        if list.commands.len() == 0 {
            return;
        }
        self.set_target(Target::Surface(list.surface));
        if needs_msaa_exec(&list.commands) {
            self.draw_intermediate_layer(
                cache,
                meshes,
                &list.commands,
                Color::white(),
                Transform::identity(),
            );
        } else {
            self.run(cache, meshes, &list.commands);
        }
        self.flush();
    }
}


/// Whether two states agree on everything but the transform stack.
pub open spec fn s_same_but_transforms(a: BatcherModel, b: BatcherModel) -> bool {
    &&& a.vertices == b.vertices
    &&& a.indices == b.indices
    &&& a.instances == b.instances
    &&& a.batches == b.batches
    &&& a.intermediates == b.intermediates
    &&& a.cur_clear == b.cur_clear
    &&& a.cur_target == b.cur_target
    &&& a.cur_source == b.cur_source
    &&& a.max_per == b.max_per
    &&& a.cur_ibuf == b.cur_ibuf
    &&& a.last_index == b.last_index
    &&& a.last_vertex == b.last_vertex
}

/// Composing with the identity changes nothing: the fixed-point products
/// cancel exactly.
pub proof fn lemma_compose_identity(t: Transform)
    ensures
        crate::math::s_compose(t, s_identity()) == t,
{
    assert forall|x: i64| crate::math::s_mul(x as int, 256) == x as int by {
        if x >= 0 {
            assert((x as int) * 256 / 256 == x as int) by (nonlinear_arith);
        } else {
            assert((-((x as int) * 256)) == (-(x as int)) * 256) by (nonlinear_arith);
            assert((-(x as int)) * 256 / 256 == -(x as int)) by (nonlinear_arith);
        }
    }
    assert forall|x: i64| crate::math::s_mul(x as int, 0) == 0 by {}
    assert(crate::math::s_compose(t, s_identity()) == t);
}

/// The filled-rectangle case of the stack-abstraction argument, spun off
/// for the solver's sake.
#[verifier::rlimit(100)]
#[verifier::spinoff_prover]
proof fn lemma_rect_top_only(
    m1: BatcherModel,
    m2: BatcherModel,
    cache: &TextureCache,
    r: DrawRect,
)
    requires
        s_same_but_transforms(m1, m2),
        s_top(m1) == s_top(m2),
    ensures
        s_same_but_transforms(
            s_cmd_draw_rect(m1, cache, r),
            s_cmd_draw_rect(m2, cache, r),
        ),
{
    assert(s_flush(m1) == (BatcherModel { transforms: m1.transforms, ..s_flush(m2) }));
}

/// A state that differs only in its transform stack, with the same active
/// transform on top, runs every command to the same outputs: geometry
/// depends on the stack only through its top.
#[verifier::rlimit(100)]
#[verifier::spinoff_prover]
pub proof fn lemma_step_top_only(
    m1: BatcherModel,
    m2: BatcherModel,
    cache: &TextureCache,
    meshes: &PathCache,
    c: &Command,
)
    requires
        s_same_but_transforms(m1, m2),
        s_top(m1) == s_top(m2),
    ensures
        s_same_but_transforms(
            s_step(m1, cache, meshes, c),
            s_step(m2, cache, meshes, c),
        ),
    decreases c, 9nat, 0nat,
{
    assert(s_flush(m1) == (BatcherModel { transforms: m1.transforms, ..s_flush(m2) }));
    match c {
        Command::ClearRect(cr) => {},
        Command::DrawRect(r) => {
            lemma_rect_top_only(m1, m2, cache, *r);
        },
        Command::DrawGlyph(g) => {},
        Command::FillPath(p) => {},
        Command::StrokePath(p) => {},
        Command::DrawLayer(l) => {
            if s_layer_fast(l) {
                let composed = crate::math::s_compose(s_top(m1), l.transform);
                let a1 = BatcherModel { transforms: m1.transforms.push(composed), ..m1 };
                let a2 = BatcherModel { transforms: m2.transforms.push(composed), ..m2 };
                assert(s_top(a1) == s_top(a2));
                lemma_run_top_only(a1, a2, cache, meshes, l.commands@, 0);
            } else {
                lemma_offscreen_top_only(m1, m2, cache, meshes, l.commands@, l.tint, l.transform);
            }
        },
    }
}

#[verifier::rlimit(100)]
#[verifier::spinoff_prover]
pub proof fn lemma_run_top_only(
    m1: BatcherModel,
    m2: BatcherModel,
    cache: &TextureCache,
    meshes: &PathCache,
    cmds: Seq<Command>,
    i: int,
)
    requires
        s_same_but_transforms(m1, m2),
        s_top(m1) == s_top(m2),
    ensures
        s_same_but_transforms(
            s_run(m1, cache, meshes, cmds, i),
            s_run(m2, cache, meshes, cmds, i),
        ),
    decreases cmds, 2nat, cmds.len() - i,
{
    if 0 <= i < cmds.len() {
        lemma_step_top_only(m1, m2, cache, meshes, &cmds[i]);
        lemma_step_transforms(m1, cache, meshes, &cmds[i]);
        lemma_step_transforms(m2, cache, meshes, &cmds[i]);
        lemma_run_top_only(
            s_step(m1, cache, meshes, &cmds[i]),
            s_step(m2, cache, meshes, &cmds[i]),
            cache,
            meshes,
            cmds,
            i + 1,
        );
    }
}

#[verifier::rlimit(100)]
#[verifier::spinoff_prover]
pub proof fn lemma_offscreen_top_only(
    m1: BatcherModel,
    m2: BatcherModel,
    cache: &TextureCache,
    meshes: &PathCache,
    cmds: Seq<Command>,
    tint: Color,
    transform: Transform,
)
    requires
        s_same_but_transforms(m1, m2),
        s_top(m1) == s_top(m2),
    ensures
        s_same_but_transforms(
            s_layer_offscreen(m1, cache, meshes, cmds, tint, transform),
            s_layer_offscreen(m2, cache, meshes, cmds, tint, transform),
        ),
    decreases cmds, 3nat, 0nat,
{
    let a1 = s_set_clear(m1, false);
    let a2 = s_set_clear(m2, false);
    assert(s_same_but_transforms(a1, a2));
    assert(s_top(a1) == s_top(a2));
    match s_bound_of(cache, meshes, cmds, 0) {
        None => {},
        Some(local_rect) => {
            let layer_t = crate::math::s_compose(s_top(a1), transform);
            let r0 = crate::math::s_rect_transform(local_rect, layer_t);
            let rect = Rect {
                min: Vec2 {
                    x: crate::math::s_sub(crate::math::s_floor(r0.min.x as int), 256) as i64,
                    y: crate::math::s_sub(crate::math::s_floor(r0.min.y as int), 256) as i64,
                },
                max: Vec2 {
                    x: crate::math::s_add(crate::math::s_ceil(r0.max.x as int), 256) as i64,
                    y: crate::math::s_add(crate::math::s_ceil(r0.max.y as int), 256) as i64,
                },
            };
            let shift = crate::math::s_compose(
                crate::math::s_translation(
                    Vec2 {
                        x: crate::math::s_sub(0, rect.min.x as int) as i64,
                        y: crate::math::s_sub(0, rect.min.y as int) as i64,
                    },
                ),
                layer_t,
            );
            let b1 = s_cmd_clear_rect(
                BatcherModel {
                    transforms: s_set_target(
                        BatcherModel {
                            intermediates: s_flush(a1).intermediates.push(
                                Intermediate {
                                    size: s_to_uvec2(crate::math::sv_sub(rect.max, rect.min)),
                                    msaa: s_needs_msaa(cmds, 0),
                                },
                            ),
                            ..s_flush(a1)
                        },
                        Target::Intermediate(
                            IntermediateId(s_flush(a1).intermediates.len() as usize),
                        ),
                    ).transforms.push(s_identity()),
                    ..s_set_target(
                        BatcherModel {
                            intermediates: s_flush(a1).intermediates.push(
                                Intermediate {
                                    size: s_to_uvec2(crate::math::sv_sub(rect.max, rect.min)),
                                    msaa: s_needs_msaa(cmds, 0),
                                },
                            ),
                            ..s_flush(a1)
                        },
                        Target::Intermediate(
                            IntermediateId(s_flush(a1).intermediates.len() as usize),
                        ),
                    )
                },
                ClearRect {
                    pos: Vec2 { x: 0i64, y: 0i64 },
                    size: crate::math::sv_sub(rect.max, rect.min),
                    color: s_transparent(),
                },
            );
            let c1 = BatcherModel {
                transforms: b1.transforms.drop_last().push(shift),
                ..b1
            };
            let b2 = s_cmd_clear_rect(
                BatcherModel {
                    transforms: s_set_target(
                        BatcherModel {
                            intermediates: s_flush(a2).intermediates.push(
                                Intermediate {
                                    size: s_to_uvec2(crate::math::sv_sub(rect.max, rect.min)),
                                    msaa: s_needs_msaa(cmds, 0),
                                },
                            ),
                            ..s_flush(a2)
                        },
                        Target::Intermediate(
                            IntermediateId(s_flush(a2).intermediates.len() as usize),
                        ),
                    ).transforms.push(s_identity()),
                    ..s_set_target(
                        BatcherModel {
                            intermediates: s_flush(a2).intermediates.push(
                                Intermediate {
                                    size: s_to_uvec2(crate::math::sv_sub(rect.max, rect.min)),
                                    msaa: s_needs_msaa(cmds, 0),
                                },
                            ),
                            ..s_flush(a2)
                        },
                        Target::Intermediate(
                            IntermediateId(s_flush(a2).intermediates.len() as usize),
                        ),
                    )
                },
                ClearRect {
                    pos: Vec2 { x: 0i64, y: 0i64 },
                    size: crate::math::sv_sub(rect.max, rect.min),
                    color: s_transparent(),
                },
            );
            let c2 = BatcherModel {
                transforms: b2.transforms.drop_last().push(shift),
                ..b2
            };
            assert(s_same_but_transforms(c1, c2));
            assert(s_top(c1) == s_top(c2));
            lemma_run_top_only(c1, c2, cache, meshes, cmds, 0);
            lemma_run_transforms(c1, cache, meshes, cmds, 0);
            lemma_run_transforms(c2, cache, meshes, cmds, 0);
        },
    }
}

/// A fast-path layer (opaque white tint, no scissor) with the identity
/// transform produces exactly what dispatching its children directly
/// produces: it never introduces an intermediate, and its batch and
/// buffer output is the same, batch for batch.
pub proof fn lemma_fast_layer_inlines(
    m: BatcherModel,
    cache: &TextureCache,
    meshes: &PathCache,
    l: &DrawLayer,
)
    requires
        s_layer_fast(l),
        l.transform == s_identity(),
    ensures
        s_step(m, cache, meshes, &Command::DrawLayer(*l)) == s_run(
            m,
            cache,
            meshes,
            l.commands@,
            0,
        ),
{
    let composed = crate::math::s_compose(s_top(m), l.transform);
    lemma_compose_identity(s_top(m));
    assert(composed == s_top(m));
    let m1 = BatcherModel { transforms: m.transforms.push(composed), ..m };
    assert(s_top(m1) == s_top(m));
    assert(s_same_but_transforms(m1, m));
    lemma_run_top_only(m1, m, cache, meshes, l.commands@, 0);
    lemma_run_transforms(m1, cache, meshes, l.commands@, 0);
    lemma_run_transforms(m, cache, meshes, l.commands@, 0);
    let r1 = s_run(m1, cache, meshes, l.commands@, 0);
    let r = s_run(m, cache, meshes, l.commands@, 0);
    assert(r1.transforms == m1.transforms);
    assert(r1.transforms.drop_last() =~= m.transforms);
    assert(s_step(m, cache, meshes, &Command::DrawLayer(*l)) =~= r);
}

/// Consecutive filled rectangles of identical state coalesce: dispatching
/// any number of plain, solidly filled rectangles from a state already
/// drawing non-clearing white-sourced geometry emits no batch; each adds
/// one quad of six indices.
pub proof fn lemma_rects_coalesce(
    m: BatcherModel,
    cache: &TextureCache,
    meshes: &PathCache,
    cmds: Seq<Command>,
    i: int,
)
    requires
        0 <= i <= cmds.len(),
        forall|j: int|
            i <= j < cmds.len() ==> ((#[trigger] cmds[j]) matches Command::DrawRect(r)
                && s_rect_is_plain(r) && (r.fill matches Fill::Solid(col))),
        m.cur_clear == false,
        m.cur_source == Source::White,
    ensures
        s_run(m, cache, meshes, cmds, i).batches == m.batches,
        s_run(m, cache, meshes, cmds, i).cur_clear == false,
        s_run(m, cache, meshes, cmds, i).cur_source == Source::White,
        s_run(m, cache, meshes, cmds, i).cur_target == m.cur_target,
        s_run(m, cache, meshes, cmds, i).last_index == m.last_index,
        s_run(m, cache, meshes, cmds, i).indices.len() == m.indices.len() + 6 * (cmds.len()
            - i),
    decreases cmds.len() - i,
{
    if i < cmds.len() {
        let c = cmds[i];
        let r = c->DrawRect_0;
        let m1 = s_step(m, cache, meshes, &c);
        assert(m1 == s_cmd_draw_rect(m, cache, r));
        assert(s_set_clear(m, false) == m);
        assert(s_get_fill(cache, r.fill).1 == Source::White);
        assert(m1.batches == m.batches);
        assert(m1.cur_clear == false && m1.cur_source == Source::White);
        assert(m1.indices.len() == m.indices.len() + 6);
        assert(m1.last_index == m.last_index && m1.cur_target == m.cur_target);
        lemma_rects_coalesce(m1, cache, meshes, cmds, i + 1);
    }
}

} // verus!




