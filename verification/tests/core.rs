use std::cell::Cell;

use ohm::asset::AssetPath;
use ohm::asset::AssetSource;
use ohm::asset::AssetSources;
use ohm::batcher::Batcher;
use ohm::batcher::Source;
use ohm::batcher::Target;
use ohm::color::Color;
use ohm::error::ErrorKind;
use ohm::error::OhmResult;
use ohm::image::ImageData;
use ohm::image::ImageDecoder;
use ohm::image::ImageFormat;
use ohm::math::fx_add;
use ohm::math::fx_div;
use ohm::math::fx_floor;
use ohm::math::fx_mul;
use ohm::math::isqrt;
use ohm::math::UVec2;
use ohm::math::Vec2;
use ohm::mesh::compute_bounding_rect;
use ohm::mesh::MeshKind;
use ohm::mesh::PathCache;
use ohm::mesh::Tessellator;
use ohm::path::FillOptions;
use ohm::path::Path;
use ohm::path::PathBuilder;
use ohm::path::PathEvent;
use ohm::path::StrokeOptions;
use ohm::text::FontAttrs;
use ohm::text::FontDatabase;
use ohm::text::FontFace;
use ohm::text::FontFamily;
use ohm::text::FontId;
use ohm::text::FontMetrics;
use ohm::text::FontSource;
use ohm::text::FontStyle;
use ohm::text::FontWeight;
use ohm::text::FontWidth;
use ohm::text::GlyphKey;
use ohm::text::RasterizedGlyph;
use ohm::text::Rasterizer;
use ohm::text::SubpixelBin;
use ohm::texture::TextureCache;
use ohm::texture::TextureCommand;
use ohm::texture::MipmapMode;
use ohm::ClearRect;
use ohm::Command;
use ohm::CornerRadii;
use ohm::DrawLayer;
use ohm::DrawList;
use ohm::DrawRect;
use ohm::Fill;
use ohm::SurfaceId;

const PX: i64 = 256;

fn px(v: i64) -> i64 {
    v * PX
}

fn solid_rect(x: i64, y: i64, w: i64, h: i64, color: Color) -> Command {
    Command::DrawRect(DrawRect {
        pos: Vec2 { x: px(x), y: px(y) },
        size: Vec2 { x: px(w), y: px(h) },
        fill: Fill::Solid(color),
        corner_radii: CornerRadii::new(0, 0, 0, 0),
        border: None,
        shadow: None,
    })
}

#[test]
fn fixed_point_ops_are_exact() {
    assert_eq!(fx_add(px(2), px(3)), px(5));
    assert_eq!(fx_add(i64::MAX, 1), i64::MAX);
    assert_eq!(fx_mul(px(3), px(4)), px(12));
    assert_eq!(fx_mul(-px(3), px(4)), -px(12));
    assert_eq!(fx_div(px(12), px(4)), px(3));
    assert_eq!(fx_div(px(1), 0), 0);
    assert_eq!(fx_floor(px(2) + 10), px(2));
    assert_eq!(fx_floor(-px(2) - 10), -px(3));
    assert_eq!(isqrt(144), 12);
    assert_eq!(isqrt(150), 12);
}

#[test]
fn asset_path_splits_scheme_and_extension() {
    let p = AssetPath::new(String::from("file:images/a.png"));
    assert_eq!(p.scheme(), "file");
    assert_eq!(p.path(), "images/a.png");
    assert_eq!(p.extension().as_deref(), Some("png"));
    let q = AssetPath::new(String::from("mem:noext"));
    assert_eq!(q.extension(), None);
}

#[test]
fn asset_sources_reject_unknown_scheme() {
    let sources = AssetSources::new();
    let p = AssetPath::new(String::from("file:a.bin"));
    let e = sources.load(&p).err().expect("no source registered");
    assert_eq!(e.kind(), ErrorKind::InvalidPath);
}

#[test]
fn convert_image_premultiplies_channels() {
    let mut data = vec![255u8, 255, 255, 128, 10, 20, 30, 255];
    ohm::image::convert_image(&mut data);
    assert_eq!(data, vec![128, 128, 128, 128, 10, 20, 30, 255]);
}

#[test]
fn bounding_rect_of_vertices() {
    let vs = vec![
        Vec2 { x: px(3), y: px(1) },
        Vec2 { x: px(-2), y: px(5) },
        Vec2 { x: px(0), y: px(0) },
    ];
    let r = compute_bounding_rect(&vs).unwrap();
    assert_eq!(r.min, Vec2 { x: px(-2), y: px(0) });
    assert_eq!(r.max, Vec2 { x: px(3), y: px(5) });
    assert_eq!(compute_bounding_rect(&Vec::new()), None);
}

struct CountingDecoder {
    decodes: Cell<u32>,
    size: UVec2,
}

impl ImageDecoder for CountingDecoder {
    fn probe(&self, _extension: &Option<String>, _data: &Vec<u8>) -> bool {
        true
    }

    fn decode(
        &self,
        _extension: &Option<String>,
        _data: &Vec<u8>,
        _requested_size: Option<UVec2>,
    ) -> OhmResult<ImageData> {
        self.decodes.set(self.decodes.get() + 1);
        let n = (self.size.x * self.size.y * 4) as usize;
        Ok(ImageData { format: ImageFormat::Srgba8, size: self.size, data: vec![0u8; n] })
    }
}

struct ByteSource;

impl AssetSource for ByteSource {
    fn load(&self, _path: &AssetPath) -> OhmResult<Vec<u8>> {
        Ok(vec![1, 2, 3])
    }
}

struct RequestEchoSource;

impl AssetSource for RequestEchoSource {
    fn load(&self, _path: &AssetPath) -> OhmResult<Vec<u8>> {
        Ok(Vec::new())
    }
}

/// Decodes to exactly the resolution the cache asks for.
struct EchoDecoder;

impl ImageDecoder for EchoDecoder {
    fn probe(&self, _extension: &Option<String>, _data: &Vec<u8>) -> bool {
        true
    }

    fn decode(
        &self,
        _extension: &Option<String>,
        _data: &Vec<u8>,
        requested_size: Option<UVec2>,
    ) -> OhmResult<ImageData> {
        let size = requested_size.unwrap_or(UVec2 { x: 1, y: 1 });
        let n = (size.x * size.y * 4) as usize;
        Ok(ImageData { format: ImageFormat::Srgba8, size, data: vec![0u8; n] })
    }
}

fn image_data(w: u32, h: u32) -> ImageData {
    ImageData {
        format: ImageFormat::Srgba8,
        size: UVec2 { x: w, y: h },
        data: vec![0u8; (w * h * 4) as usize],
    }
}

#[test]
fn same_path_never_double_allocates() {
    let mut cache = TextureCache::new();
    let p1 = AssetPath::new(String::from("mem:one.img"));
    let p2 = AssetPath::new(String::from("mem:one.img"));
    let a = cache.add_image_from_path(p1, MipmapMode::Disabled);
    let b = cache.add_image_from_path(p2, MipmapMode::Disabled);
    assert_eq!(a, b);
    let decoder = CountingDecoder { decodes: Cell::new(0), size: UVec2 { x: 16, y: 16 } };
    let mut commands: Vec<TextureCommand> = Vec::new();
    cache.load_images(&ByteSource, &decoder, &mut commands).unwrap();
    assert_eq!(decoder.decodes.get(), 1);
    // A second load pass touches nothing: the entry is resolved.
    cache.load_images(&ByteSource, &decoder, &mut commands).unwrap();
    assert_eq!(decoder.decodes.get(), 1);
}

#[test]
fn atlas_regions_stay_inside_and_apart() {
    let mut cache = TextureCache::new();
    let a = cache.add_image(image_data(100, 50), MipmapMode::Disabled);
    let b = cache.add_image(image_data(60, 70), MipmapMode::Disabled);
    let decoder = CountingDecoder { decodes: Cell::new(0), size: UVec2 { x: 1, y: 1 } };
    let mut commands: Vec<TextureCommand> = Vec::new();
    cache.load_images(&ByteSource, &decoder, &mut commands).unwrap();
    let ia = cache.get_image(a).unwrap();
    let ib = cache.get_image(b).unwrap();
    assert_eq!(ia.texture, ib.texture, "both fit one shared atlas");
    for r in [&ia, &ib] {
        assert!(r.rect.max.x <= r.texture_size.x);
        assert!(r.rect.max.y <= r.texture_size.y);
        assert!(r.rect.min.x < r.rect.max.x && r.rect.min.y < r.rect.max.y);
    }
    let disjoint = ia.rect.max.x <= ib.rect.min.x || ib.rect.max.x <= ia.rect.min.x
        || ia.rect.max.y <= ib.rect.min.y || ib.rect.max.y <= ia.rect.min.y;
    assert!(disjoint, "live regions never overlap");
}

#[test]
fn growth_copies_old_extent_and_keeps_regions() {
    let mut cache = TextureCache::new();
    let a = cache.add_image(image_data(600, 600), MipmapMode::Disabled);
    let b = cache.add_image(image_data(600, 600), MipmapMode::Disabled);
    let decoder = CountingDecoder { decodes: Cell::new(0), size: UVec2 { x: 1, y: 1 } };
    let mut commands: Vec<TextureCommand> = Vec::new();
    cache.load_images(&ByteSource, &decoder, &mut commands).unwrap();
    let ia = cache.get_image(a).unwrap();
    let ib = cache.get_image(b).unwrap();
    let copies: Vec<&TextureCommand> = commands
        .iter()
        .filter(|c| matches!(c, TextureCommand::Copy { .. }))
        .collect();
    assert_eq!(copies.len(), 1, "one growth migrates the old extent");
    match copies[0] {
        TextureCommand::Copy { src_rect, dst_rect, dst_id, .. } => {
            assert_eq!(src_rect.min, UVec2 { x: 0, y: 0 });
            assert_eq!(src_rect.max, UVec2 { x: 1024, y: 1024 }, "the whole previous extent");
            assert_eq!(src_rect, dst_rect);
            assert_eq!(*dst_id, ia.texture, "the grown texture backs the old region");
        },
        _ => unreachable!(),
    }
    // Both regions are valid in the grown atlas.
    assert_eq!(ia.texture, ib.texture);
    assert_eq!(ia.texture_size, UVec2 { x: 2048, y: 2048 });
    assert!(ia.rect.max.x <= 2048 && ib.rect.max.x <= 2048);
}

#[test]
fn cleanup_evicts_unused_entries() {
    let mut cache = TextureCache::new();
    let a = cache.add_image(image_data(32, 32), MipmapMode::Disabled);
    let decoder = CountingDecoder { decodes: Cell::new(0), size: UVec2 { x: 1, y: 1 } };
    let mut commands: Vec<TextureCommand> = Vec::new();
    cache.load_images(&ByteSource, &decoder, &mut commands).unwrap();
    assert!(cache.get_image(a).is_some());
    // First cleanup: the entry was used this frame (adding marks it), so it
    // stays, with its mark cleared.
    cache.cleanup(&mut commands);
    assert!(cache.get_image(a).is_some());
    // Second cleanup: nothing marked it used, so it is evicted.
    cache.cleanup(&mut commands);
    assert!(cache.get_image(a).is_none());
}

#[test]
fn standalone_threshold_uses_dedicated_texture() {
    let mut cache = TextureCache::new();
    let big = cache.add_image(image_data(1024, 16), MipmapMode::Disabled);
    let small = cache.add_image(image_data(100, 100), MipmapMode::Disabled);
    let decoder = CountingDecoder { decodes: Cell::new(0), size: UVec2 { x: 1, y: 1 } };
    let mut commands: Vec<TextureCommand> = Vec::new();
    cache.load_images(&ByteSource, &decoder, &mut commands).unwrap();
    let ibig = cache.get_image(big).unwrap();
    let ismall = cache.get_image(small).unwrap();
    // The big image owns its texture exactly.
    assert_eq!(ibig.rect.min, UVec2 { x: 0, y: 0 });
    assert_eq!(ibig.rect.max, UVec2 { x: 1024, y: 16 });
    assert_eq!(ibig.texture_size, UVec2 { x: 1024, y: 16 });
    assert!(commands.iter().any(|c| matches!(c, TextureCommand::CreateStatic { id, .. } if *id == ibig.texture)));
    // The small one shares an atlas-sized texture, floored at the
    // minimum atlas side.
    assert_ne!(ismall.texture, ibig.texture);
    assert_eq!(ismall.texture_size, UVec2 { x: 512, y: 512 });
}

#[test]
fn evicted_path_can_be_registered_and_loaded_again() {
    let mut cache = TextureCache::new();
    let decoder = CountingDecoder { decodes: Cell::new(0), size: UVec2 { x: 8, y: 8 } };
    let mut commands: Vec<TextureCommand> = Vec::new();
    let a = cache.add_image_from_path(
        AssetPath::new(String::from("mem:icon.img")),
        MipmapMode::Disabled,
    );
    cache.load_images(&ByteSource, &decoder, &mut commands).unwrap();
    cache.cleanup(&mut commands);
    cache.cleanup(&mut commands);
    assert!(cache.get_image(a).is_none(), "evicted after an unused frame");
    // The path mapping was erased with the entry, so re-adding the path
    // makes a fresh entry that loads again.
    let b = cache.add_image_from_path(
        AssetPath::new(String::from("mem:icon.img")),
        MipmapMode::Disabled,
    );
    assert_ne!(a, b);
    cache.load_images(&ByteSource, &decoder, &mut commands).unwrap();
    assert_eq!(decoder.decodes.get(), 2);
    assert!(cache.get_image(b).is_some());
}

#[test]
fn oversized_glyph_gets_dedicated_texture() {
    let mut db = FontDatabase::new();
    db.add_source(Box::new(StubFontSource));
    let font = FontId { source_id: 0, opaque_id: 7 };
    db.load(font).unwrap();
    let mut cache = TextureCache::new();
    let bin = SubpixelBin::new(Vec2 { x: 0, y: 0 });
    // The stub rasterizer draws a square of size/256 texels, so a huge
    // font size crosses the standalone threshold.
    let key = GlyphKey { font, glyph: 1, size: px(2048), subpixel_bin: bin };
    cache.add_glyph(key);
    let mut rasterizer = StubRasterizer { calls: Cell::new(0) };
    let mut commands: Vec<TextureCommand> = Vec::new();
    cache.load_glyphs(&db, &mut rasterizer, &mut commands).unwrap();
    let g = cache.get_glyph(&key).unwrap();
    assert_eq!(g.rect.min, UVec2 { x: 0, y: 0 });
    assert_eq!(g.texture_size, g.rect.max, "a dedicated texture, not an atlas");
    assert!(commands.iter().any(
        |c| matches!(c, TextureCommand::CreateStatic { id, .. } if *id == g.texture),
    ));
}

#[test]
fn usage_scan_registers_tree_glyphs_and_image_sizes() {
    let mut cache = TextureCache::new();
    let meshes = PathCache::new(4);
    let image = cache.add_image_from_path(
        AssetPath::new(String::from("mem:tex.img")),
        MipmapMode::Disabled,
    );
    let glyph_cmd = Command::DrawGlyph(ohm::DrawGlyph {
        pos: Vec2 { x: 0, y: 0 },
        size: px(16),
        font: FontId { source_id: 0, opaque_id: 1 },
        glyph: 3,
        color: Color::black(),
    });
    let rect_cmd = Command::DrawRect(DrawRect {
        pos: Vec2 { x: 0, y: 0 },
        size: Vec2 { x: px(64), y: px(32) },
        fill: Fill::Image(ohm::FillImage { image, tint: Color::white(), clip_rect: None }),
        corner_radii: CornerRadii::new(0, 0, 0, 0),
        border: None,
        shadow: None,
    });
    let list = DrawList {
        surface: SurfaceId(1),
        commands: vec![Command::DrawLayer(DrawLayer {
            commands: vec![glyph_cmd, rect_cmd],
            tint: Color::white(),
            scissor: None,
            transform: ohm::math::Transform::identity(),
        })],
    };
    let lists = vec![list];
    cache.add_glyphs_from_lists(&lists);
    cache.set_image_sizes_from_lists(&meshes, &lists);
    // The nested glyph is registered (unresolved, so not drawable yet).
    let bin = SubpixelBin::new(Vec2 { x: 0, y: 0 });
    let key = GlyphKey {
        font: FontId { source_id: 0, opaque_id: 1 },
        glyph: 3,
        size: px(16),
        subpixel_bin: bin,
    };
    assert!(cache.get_glyph(&key).is_none());
    // The image's requested size follows the on-screen size; the decoder
    // sees it as its target resolution.
    let mut commands: Vec<TextureCommand> = Vec::new();
    cache.load_images(&RequestEchoSource, &EchoDecoder, &mut commands).unwrap();
    let img = cache.get_image(image).unwrap();
    assert_eq!(img.rect.max.x - img.rect.min.x, 64);
    assert_eq!(img.rect.max.y - img.rect.min.y, 32);
}

struct StubFontSource;

impl FontSource for StubFontSource {
    fn query(&self, _attrs: &FontAttrs) -> Option<u64> {
        Some(7)
    }

    fn load(&mut self, id: FontId) -> OhmResult<FontFace> {
        Ok(FontFace::new(
            id,
            vec![0u8; 4],
            0,
            FontAttrs {
                family: FontFamily::sans_serif(),
                weight: FontWeight(400),
                width: FontWidth::Normal,
                style: FontStyle::Normal,
                is_variable_weight: false,
                is_variable_width: false,
            },
            FontMetrics { ascender: 800, descender: -200, line_gap: 0, units_per_em: 1000 },
        ))
    }
}

struct StubRasterizer {
    calls: Cell<u32>,
}

impl Rasterizer for StubRasterizer {
    fn rasterize(
        &mut self,
        _font_face: &FontFace,
        glyph_id: u16,
        size: i64,
        _subpixel_bin: SubpixelBin,
    ) -> Option<RasterizedGlyph> {
        self.calls.set(self.calls.get() + 1);
        if glyph_id == 2 {
            return None;
        }
        // A square of one texel per pixel of font size, floored at 8.
        let side = ((size / PX).max(8) as u32).min(4096);
        Some(RasterizedGlyph {
            image: ImageData {
                format: ImageFormat::Gray8,
                size: UVec2 { x: side, y: side },
                data: vec![255u8; (side * side) as usize],
            },
            offset: Vec2 { x: 0, y: -px(6) },
        })
    }
}

#[test]
fn glyphs_resolve_once_and_empty_is_cached() {
    let mut db = FontDatabase::new();
    db.add_source(Box::new(StubFontSource));
    let font = db.query(&FontAttrs {
        family: FontFamily::sans_serif(),
        weight: FontWeight(400),
        width: FontWidth::Normal,
        style: FontStyle::Normal,
        is_variable_weight: false,
        is_variable_width: false,
    }).unwrap();
    db.load(font).unwrap();

    let mut cache = TextureCache::new();
    let bin = SubpixelBin::new(Vec2 { x: 0, y: 0 });
    let drawn = GlyphKey { font, glyph: 1, size: px(16), subpixel_bin: bin };
    let empty = GlyphKey { font, glyph: 2, size: px(16), subpixel_bin: bin };
    cache.add_glyph(drawn);
    cache.add_glyph(empty);
    let mut rasterizer = StubRasterizer { calls: Cell::new(0) };
    let mut commands: Vec<TextureCommand> = Vec::new();
    cache.load_glyphs(&db, &mut rasterizer, &mut commands).unwrap();
    assert_eq!(rasterizer.calls.get(), 2);
    let g = cache.get_glyph(&drawn).unwrap();
    assert_eq!(g.rect.max.x - g.rect.min.x, 16);
    assert_eq!(g.format, ImageFormat::Gray8);
    assert!(cache.get_glyph(&empty).is_none(), "an empty glyph resolves to nothing");
    // Neither is rasterized again: resolved and empty results are cached.
    cache.load_glyphs(&db, &mut rasterizer, &mut commands).unwrap();
    assert_eq!(rasterizer.calls.get(), 2);
}

struct StubTessellator;

impl Tessellator for StubTessellator {
    fn fill(&mut self, _events: &Vec<PathEvent>, _options: &FillOptions) -> (Vec<Vec2>, Vec<usize>) {
        (
            vec![
                Vec2 { x: 0, y: 0 },
                Vec2 { x: px(10), y: 0 },
                Vec2 { x: 0, y: px(10) },
            ],
            vec![0, 1, 2],
        )
    }

    fn stroke(
        &mut self,
        _events: &Vec<PathEvent>,
        _options: &StrokeOptions,
    ) -> (Vec<Vec2>, Vec<usize>) {
        (Vec::new(), Vec::new())
    }
}

fn triangle_path() -> Path {
    let mut b = PathBuilder::new();
    b.move_to(Vec2 { x: 0, y: 0 });
    b.line_to(Vec2 { x: px(10), y: 0 });
    b.line_to(Vec2 { x: 0, y: px(10) });
    b.close();
    b.finish()
}

#[test]
fn mesh_cache_keys_on_content_and_evicts_lru() {
    let mut meshes = PathCache::new(1);
    let mut tess = StubTessellator;
    let pa = triangle_path();
    // A structurally identical path is the same content, so the same entry.
    let pa2 = triangle_path();
    let kind = MeshKind::Fill(FillOptions::default());
    meshes.load(&mut tess, &pa, kind);
    assert!(meshes.get(&pa2, kind).is_some());
    // Loading different content in a one-entry cache evicts the older mesh.
    let mut b = PathBuilder::new();
    b.move_to(Vec2 { x: px(1), y: 0 });
    b.close();
    let pb = b.finish();
    meshes.load(&mut tess, &pb, kind);
    assert!(meshes.get(&pa, kind).is_none());
    assert!(meshes.get(&pb, kind).is_some());
}

fn fresh_frame() -> (TextureCache, PathCache, Batcher) {
    (TextureCache::new(), PathCache::new(8), Batcher::new(1024))
}

#[test]
fn consecutive_rects_collapse_into_one_batch() {
    let (cache, meshes, mut batcher) = fresh_frame();
    let list = DrawList {
        surface: SurfaceId(1),
        commands: vec![
            solid_rect(0, 0, 10, 10, Color::rgb(255, 0, 0)),
            solid_rect(20, 0, 10, 10, Color::rgb(0, 255, 0)),
            solid_rect(40, 0, 10, 10, Color::rgb(0, 0, 255)),
        ],
    };
    batcher.prepare(&cache, &meshes, &list);
    assert_eq!(batcher.batches().len(), 1);
    assert_eq!(batcher.indices().len(), 18);
    let b = &batcher.batches()[0];
    assert_eq!(b.index_start, 0);
    assert_eq!(b.index_end, 18);
    assert!(!b.clear);
}

#[test]
fn clear_then_rect_makes_exactly_two_batches() {
    let (cache, meshes, mut batcher) = fresh_frame();
    let list = DrawList {
        surface: SurfaceId(1),
        commands: vec![
            Command::ClearRect(ClearRect {
                pos: Vec2 { x: 0, y: 0 },
                size: Vec2 { x: px(100), y: px(100) },
                color: Color::white(),
            }),
            solid_rect(10, 10, 50, 50, Color::rgb(255, 0, 0)),
        ],
    };
    batcher.prepare(&cache, &meshes, &list);
    assert_eq!(batcher.batches().len(), 2);
    let clear = &batcher.batches()[0];
    let rect = &batcher.batches()[1];
    assert!(clear.clear && !rect.clear);
    assert_eq!(clear.target, Target::Surface(SurfaceId(1)));
    assert_eq!(rect.target, Target::Surface(SurfaceId(1)));
    assert_eq!(clear.source, Source::White);
    assert_eq!(rect.source, Source::White);
    assert_eq!((clear.index_start, clear.index_end), (0, 6));
    assert_eq!((rect.index_start, rect.index_end), (6, 12), "a single quad: six indices");
}

#[test]
fn fast_path_layer_equals_inlined_children() {
    let children = || vec![
        solid_rect(0, 0, 10, 10, Color::rgb(255, 0, 0)),
        solid_rect(5, 5, 10, 10, Color::rgb(0, 255, 0)),
    ];
    let (cache, meshes, mut with_layer) = fresh_frame();
    let layered = DrawList {
        surface: SurfaceId(1),
        commands: vec![Command::DrawLayer(DrawLayer {
            commands: children(),
            tint: Color::white(),
            scissor: None,
            transform: ohm::math::Transform::identity(),
        })],
    };
    with_layer.prepare(&cache, &meshes, &layered);
    let (cache2, meshes2, mut inlined) = fresh_frame();
    let plain = DrawList { surface: SurfaceId(1), commands: children() };
    inlined.prepare(&cache2, &meshes2, &plain);
    assert_eq!(with_layer.batches(), inlined.batches());
    assert_eq!(with_layer.vertices(), inlined.vertices());
    assert_eq!(with_layer.indices(), inlined.indices());
    assert_eq!(with_layer.intermediates().len(), 0, "a fast-path layer composites nothing");
}

#[test]
fn tinted_layer_composites_first_and_tints_once() {
    let (cache, meshes, mut batcher) = fresh_frame();
    let tint = Color::rgba(128, 128, 128, 128);
    let red = Color::rgb(255, 0, 0);
    let green = Color::rgb(0, 255, 0);
    let list = DrawList {
        surface: SurfaceId(1),
        commands: vec![Command::DrawLayer(DrawLayer {
            commands: vec![solid_rect(0, 0, 10, 10, red), solid_rect(5, 5, 10, 10, green)],
            tint,
            scissor: None,
            transform: ohm::math::Transform::identity(),
        })],
    };
    batcher.prepare(&cache, &meshes, &list);
    assert_eq!(batcher.intermediates().len(), 1);
    let batches = batcher.batches();
    // The subtree draws into the intermediate; the last batch draws the
    // intermediate into the surface as one quad carrying the tint.
    let last = &batches[batches.len() - 1];
    assert_eq!(last.target, Target::Surface(SurfaceId(1)));
    assert_eq!(last.source, ohm::batcher::Source::Intermediate(ohm::batcher::IntermediateId(0)));
    assert_eq!(last.index_end - last.index_start, 6, "the composite is one quad");
    for b in &batches[..batches.len() - 1] {
        assert_eq!(b.target, Target::Intermediate(ohm::batcher::IntermediateId(0)));
    }
    // The children keep their own colors; the tint is applied once, on the
    // composite quad.
    let vs = batcher.vertices();
    let quad = &vs[last.vertex_start..last.vertex_end];
    assert!(quad.iter().all(|v| v.color == tint));
    assert!(vs[..last.vertex_start].iter().any(|v| v.color == red));
    assert!(vs[..last.vertex_start].iter().any(|v| v.color == green));
    assert!(vs[..last.vertex_start].iter().all(|v| v.color != tint));
}

#[test]
fn path_builder_records_events() {
    let p = triangle_path();
    assert_eq!(p.events().len(), 4);
    assert!(matches!(p.events()[0], PathEvent::MoveTo { .. }));
    assert!(matches!(p.events()[3], PathEvent::Close));
}
