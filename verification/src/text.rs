use vstd::prelude::*;

use crate::error::Error;
use crate::error::ErrorKind;
use crate::error::OhmResult;
use crate::image::ImageData;
use crate::math::fx_fract;
use crate::math::Vec2;
use crate::GlyphId;

verus! {

/// Id of a font face: which source it came from, and that source's own id.
#[derive(Debug, Clone, Copy, PartialEq, Eq, Structural)]
pub struct FontId {
    pub source_id: usize,
    pub opaque_id: u64,
}

/// Attributes that select a font face.
#[derive(Debug, Clone)]
pub struct FontAttrs {
    pub family: FontFamily,
    pub weight: FontWeight,
    pub width: FontWidth,
    pub style: FontStyle,
    pub is_variable_weight: bool,
    pub is_variable_width: bool,
}

/// A font family name.
#[derive(Debug, Clone)]
pub struct FontFamily {
    name: String,
}

impl FontFamily {
    pub closed spec fn s_name(&self) -> Seq<char> {
        self.name@
    }

    pub fn new(name: String) -> (r: FontFamily)
        ensures
            r.s_name() == name@,
    {
        FontFamily { name }
    }

    pub fn serif() -> (r: FontFamily)
        ensures
            r.s_name() == "serif"@,
    {
        FontFamily { name: String::from_str("serif") }
    }

    pub fn sans_serif() -> (r: FontFamily)
        ensures
            r.s_name() == "sans-serif"@,
    {
        FontFamily { name: String::from_str("sans-serif") }
    }

    pub fn cursive() -> (r: FontFamily)
        ensures
            r.s_name() == "cursive"@,
    {
        FontFamily { name: String::from_str("cursive") }
    }

    pub fn fantasy() -> (r: FontFamily)
        ensures
            r.s_name() == "fantasy"@,
    {
        FontFamily { name: String::from_str("fantasy") }
    }

    pub fn monospace() -> (r: FontFamily)
        ensures
            r.s_name() == "monospace"@,
    {
        FontFamily { name: String::from_str("monospace") }
    }

    pub fn name(&self) -> (r: &String)
        ensures
            r@ == self.s_name(),
    {
        &self.name
    }
}

/// Font weight, on the usual 100 to 900 scale.
#[derive(Debug, Clone, Copy, PartialEq, Eq, Structural)]
pub struct FontWeight(pub u16);

/// Font width.
#[derive(Debug, Clone, Copy, PartialEq, Eq, Structural)]
pub enum FontWidth {
    UltraCondensed,
    ExtraCondensed,
    Condensed,
    SemiCondensed,
    Normal,
    SemiExpanded,
    Expanded,
    ExtraExpanded,
    UltraExpanded,
}

/// Font style.
#[derive(Debug, Clone, Copy, PartialEq, Eq, Structural)]
pub enum FontStyle {
    Normal,
    Italic,
    Oblique,
}

/// Vertical metrics of a face, in font units.
#[derive(Debug, Clone, Copy, PartialEq, Eq, Structural)]
pub struct FontMetrics {
    pub ascender: i16,
    pub descender: i16,
    pub line_gap: i16,
    pub units_per_em: u16,
}

/// A loaded font face: the raw font bytes and what was parsed of them.
/// Parsing itself is the font source's concern.
#[derive(Debug, Clone)]
pub struct FontFace {
    id: FontId,
    data: Vec<u8>,
    face_index: u32,
    attrs: FontAttrs,
    metrics: FontMetrics,
}

impl FontFace {
    pub fn new(
        id: FontId,
        data: Vec<u8>,
        face_index: u32,
        attrs: FontAttrs,
        metrics: FontMetrics,
    ) -> (r: FontFace)
        ensures
            r.id() == id,
            r.s_data() == data@,
            r.face_index() == face_index,
            r.metrics() == metrics,
    {
        FontFace { id, data, face_index, attrs, metrics }
    }

    pub closed spec fn s_data(&self) -> Seq<u8> {
        self.data@
    }

    #[verifier::when_used_as_spec(s_id)]
    pub fn id(&self) -> (r: FontId)
        ensures
            r == self.s_id(),
    {
        self.id
    }

    pub closed spec fn s_id(&self) -> FontId {
        self.id
    }

    pub fn data(&self) -> (r: &Vec<u8>)
        ensures
            r@ == self.s_data(),
    {
        &self.data
    }

    #[verifier::when_used_as_spec(s_face_index)]
    pub fn face_index(&self) -> (r: u32)
        ensures
            r == self.s_face_index(),
    {
        self.face_index
    }

    pub closed spec fn s_face_index(&self) -> u32 {
        self.face_index
    }

    pub closed spec fn s_attrs(&self) -> FontAttrs {
        self.attrs
    }

    pub fn attrs(&self) -> (r: &FontAttrs)
        ensures
            *r == self.s_attrs(),
    {
        &self.attrs
    }

    #[verifier::when_used_as_spec(s_metrics)]
    pub fn metrics(&self) -> (r: FontMetrics)
        ensures
            r == self.s_metrics(),
    {
        self.metrics
    }

    pub closed spec fn s_metrics(&self) -> FontMetrics {
        self.metrics
    }
}

/// A provider of font faces, implemented by the embedding application.
pub trait FontSource {
    /// The source's own id for a face matching `attrs`, if it has one.
    fn query(&self, attrs: &FontAttrs) -> Option<u64>;

    /// Loads the face for `id`.
    fn load(&mut self, id: FontId) -> OhmResult<FontFace>;
}

/// Identity of one rasterized glyph: face, glyph, size and sub-pixel bin.
#[derive(Debug, Clone, Copy, PartialEq, Eq, Structural)]
pub struct GlyphKey {
    pub font: FontId,
    pub glyph: GlyphId,
    /// Font size in fixed-point pixels.
    pub size: i64,
    pub subpixel_bin: SubpixelBin,
}

/// A fractional position quantized to quarter pixels, used to key glyph
/// raster entries.
#[derive(Debug, Clone, Copy, PartialEq, Eq, Structural)]
pub struct SubpixelBin {
    pub x: u8,
    pub y: u8,
}

/// The quarter-pixel bin of a fractional coordinate.
pub open spec fn s_bin_of(a: int) -> int {
    crate::math::s_fract(a) / 64
}

impl SubpixelBin {
    /// The bin of a position: each axis's fractional part, quantized to
    /// quarters of a pixel.
    pub fn new(pos: Vec2) -> (r: SubpixelBin)
        ensures
            r.x as int == s_bin_of(pos.x as int),
            r.y as int == s_bin_of(pos.y as int),
            r.x < 4 && r.y < 4,
    {
        let fx: i64 = fx_fract(pos.x);
        let fy: i64 = fx_fract(pos.y);
        SubpixelBin { x: (fx / 64) as u8, y: (fy / 64) as u8 }
    }

    /// The fixed-point offset this bin stands for: bin quarters of a pixel.
    pub fn offset(self) -> (r: Vec2)
        ensures
            r.x as int == self.x as int * 64,
            r.y as int == self.y as int * 64,
    {
        Vec2 { x: self.x as i64 * 64, y: self.y as i64 * 64 }
    }
}

/// One glyph rasterized to pixels, with its placement offset.
#[derive(Debug, Clone)]
pub struct RasterizedGlyph {
    pub image: ImageData,
    pub offset: Vec2,
}

/// A glyph rasterizer, implemented by the embedding application. `None`
/// means the glyph renders nothing, permanently.
pub trait Rasterizer {
    fn rasterize(
        &mut self,
        font_face: &FontFace,
        glyph_id: GlyphId,
        size: i64,
        subpixel_bin: SubpixelBin,
    ) -> Option<RasterizedGlyph>;
}

/// One registered face provider.
struct FontSourceSlot {
    source: Box<dyn FontSource>,
}

/// Loads and keeps font faces from registered sources; failures are cached
/// so a broken font is not retried every frame.
pub struct FontDatabase {
    sources: Vec<FontSourceSlot>,
    loaded: Vec<(FontId, FontFace)>,
    failed: Vec<FontId>,
}

impl FontDatabase {
    /// The ids of the loaded faces, in load order.
    pub closed spec fn loaded_ids(&self) -> Seq<FontId> {
        self.loaded@.map_values(|p: (FontId, FontFace)| p.0)
    }

    /// The ids whose loads failed and were cached as failures.
    pub closed spec fn failed_ids(&self) -> Seq<FontId> {
        self.failed@
    }

    pub closed spec fn source_count(&self) -> nat {
        self.sources@.len()
    }

    pub fn new() -> (r: FontDatabase)
        ensures
            r.loaded_ids() == Seq::<FontId>::empty(),
            r.failed_ids() == Seq::<FontId>::empty(),
            r.source_count() == 0,
    {
        FontDatabase { sources: Vec::new(), loaded: Vec::new(), failed: Vec::new() }
    }

    fn push_source(&mut self, slot: FontSourceSlot)
        ensures
            final(self).source_count() == old(self).source_count() + 1,
            final(self).loaded_ids() == old(self).loaded_ids(),
            final(self).failed_ids() == old(self).failed_ids(),
    {
        self.sources.push(slot);
    }

    /// Registers a face provider at the end of the query order. What the
    /// boxed source does is its implementor's; only the count is stated.
    pub fn add_source(&mut self, source: Box<dyn FontSource>)
        ensures
            final(self).source_count() == old(self).source_count() + 1,
            final(self).loaded_ids() == old(self).loaded_ids(),
            final(self).failed_ids() == old(self).failed_ids(),
    {
        self.push_source(FontSourceSlot { source });
    }

    /// Asks each source in order; the first that knows a face wins. The
    /// returned id names that source.
    pub fn query(&self, attrs: &FontAttrs) -> (r: Option<FontId>)
        ensures
            r matches Some(id) ==> id.source_id < self.source_count(),
    {
        let mut i: usize = 0;
        while i < self.sources.len()
            invariant
                i <= self.source_count(),
                self.sources@.len() == self.source_count(),
            decreases self.source_count() - i,
        {
            if let Some(opaque_id) = self.sources[i].source.query(attrs) {
                return Some(FontId { source_id: i, opaque_id });
            }
            i = i + 1;
        }
        None
    }

    fn find_loaded(&self, id: FontId) -> (r: Option<usize>)
        ensures
            r matches Some(i) ==> i < self.loaded_ids().len() && self.loaded_ids()[i as int]
                == id,
            r is None ==> !self.loaded_ids().contains(id),
    {
        let mut i: usize = 0;
        while i < self.loaded.len()
            invariant
                i <= self.loaded@.len(),
                forall|j: int| 0 <= j < i ==> self.loaded_ids()[j] != id,
            decreases self.loaded@.len() - i,
        {
            if self.loaded[i].0 == id {
                proof {
                    assert(self.loaded_ids()[i as int] == id);
                }
                return Some(i);
            }
            i = i + 1;
        }
        None
    }

    fn find_failed(&self, id: FontId) -> (r: bool)
        ensures
            r == self.failed_ids().contains(id),
    {
        let mut i: usize = 0;
        while i < self.failed.len()
            invariant
                i <= self.failed@.len(),
                forall|j: int| 0 <= j < i ==> self.failed_ids()[j] != id,
            decreases self.failed@.len() - i,
        {
            if self.failed[i] == id {
                proof {
                    assert(self.failed_ids()[i as int] == id);
                }
                return true;
            }
            i = i + 1;
        }
        proof {
            if self.failed_ids().contains(id) {
                let j = choose|j: int|
                    0 <= j < self.failed_ids().len() && self.failed_ids()[j] == id;
                assert(false);
            }
        }
        false
    }

    /// Loads a face through its source. An id that failed before fails at
    /// once with `CachedFailure`; an id naming no source fails with
    /// `InvalidId`; a fresh failure is cached.
    pub fn load(&mut self, id: FontId) -> (r: OhmResult<&FontFace>)
        ensures
            old(self).failed_ids().contains(id) ==> (r matches Err(e) && e.kind
                == ErrorKind::CachedFailure) && final(self).loaded_ids() == old(self).loaded_ids(),
            !old(self).failed_ids().contains(id) && id.source_id >= old(self).source_count()
                ==> (r matches Err(e) && e.kind == ErrorKind::InvalidId) && final(self).loaded_ids() == old(self).loaded_ids(),
            r matches Ok(face) ==> face.id() == id || final(self).loaded_ids() == old(self).loaded_ids().push(id),
            final(self).source_count() == old(self).source_count(),
    {
        if self.find_failed(id) {
            return Err(Error::new(ErrorKind::CachedFailure, String::from_str("cached failure")));
        }
        if id.source_id >= self.sources.len() {
            return Err(Error::new(ErrorKind::InvalidId, String::from_str("invalid font id")));
        }
        let loaded = match self.sources[id.source_id].source.load(id) {
            Ok(v) => v,
            Err(e) => {
                self.failed.push(id);
                return Err(e);
            },
        };
        self.loaded.push((id, loaded));
        proof {
            assert(self.loaded_ids() =~= old(self).loaded_ids().push(id));
            assert(self.loaded_ids()[self.loaded_ids().len() - 1] == id);
        }
        let n: usize = self.loaded.len();
        Ok(&self.loaded[n - 1].1)
    }

    /// The loaded face for `id`, or `None` while it is not loaded.
    pub fn get(&self, id: FontId) -> (r: Option<&FontFace>)
        ensures
            r is Some <==> self.loaded_ids().contains(id),
    {
        proof {
            if self.loaded_ids().contains(id) {
                let j = choose|j: int|
                    0 <= j < self.loaded_ids().len() && self.loaded_ids()[j] == id;
            }
        }
        match self.find_loaded(id) {
            Some(i) => Some(&self.loaded[i].1),
            None => None,
        }
    }

    /// The loaded face for `id`, loading it first if need be.
    pub fn get_or_load(&mut self, id: FontId) -> (r: OhmResult<&FontFace>)
        ensures
            final(self).source_count() == old(self).source_count(),
            old(self).loaded_ids().contains(id) ==> r is Ok && final(self).loaded_ids() == old(self).loaded_ids(),
            !old(self).loaded_ids().contains(id) && old(self).failed_ids().contains(id) ==> (
            r matches Err(e) && e.kind == ErrorKind::CachedFailure),
            !old(self).loaded_ids().contains(id) && !old(self).failed_ids().contains(id)
                && id.source_id >= old(self).source_count() ==> (r matches Err(e) && e.kind
                == ErrorKind::InvalidId),
            r matches Ok(face) ==> face.id() == id || final(self).loaded_ids() == old(self).loaded_ids().push(id) || old(self).loaded_ids().contains(id),
    {
        if self.find_loaded(id).is_some() {
            let i = self.find_loaded(id).unwrap();
            Ok(&self.loaded[i].1)
        } else {
            self.load(id)
        }
    }
}


/// One registered rasterizer.
struct RasterizerSlot {
    rasterizer: Box<dyn Rasterizer>,
}

/// A chain of rasterizers, tried in registration order; the first to
/// return a bitmap wins.
pub struct FontRasterizers {
    rasterizers: Vec<RasterizerSlot>,
}

impl FontRasterizers {
    /// How many rasterizers are registered.
    pub closed spec fn count(&self) -> nat {
        self.rasterizers@.len()
    }

    pub fn new() -> (r: FontRasterizers)
        ensures
            r.count() == 0,
    {
        FontRasterizers { rasterizers: Vec::new() }
    }

    fn push_slot(&mut self, slot: RasterizerSlot)
        ensures
            final(self).count() == old(self).count() + 1,
    {
        self.rasterizers.push(slot);
    }

    /// Appends a rasterizer to the chain; earlier ones are asked first.
    pub fn add_rasterizer(&mut self, rasterizer: Box<dyn Rasterizer>)
        ensures
            final(self).count() == old(self).count() + 1,
    {
        self.push_slot(RasterizerSlot { rasterizer });
    }
}

impl Rasterizer for FontRasterizers {
    fn rasterize(
        &mut self,
        font_face: &FontFace,
        glyph_id: GlyphId,
        size: i64,
        subpixel_bin: SubpixelBin,
    ) -> Option<RasterizedGlyph> {
        let mut i: usize = 0;
        while i < self.rasterizers.len()
            decreases self.rasterizers@.len() - i,
        {
            let res = self.rasterizers[i].rasterizer.rasterize(
                font_face,
                glyph_id,
                size,
                subpixel_bin,
            );
            if res.is_some() {
                return res;
            }
            i = i + 1;
        }
        None
    }
}

} // verus!

