use vstd::prelude::*;

use guillotiere::AllocId;
use guillotiere::AtlasAllocator;

use crate::asset::AssetPath;
use crate::asset::AssetSource;
use crate::asset::str_eq;
use crate::error::Error;
use crate::error::ErrorKind;
use crate::error::OhmResult;
use crate::image::ImageData;
use crate::image::ImageDecoder;
use crate::image::ImageFormat;
use crate::image::ImageId;
use crate::math::URect;
use crate::math::UVec2;
use crate::math::Transform;
use crate::math::Vec2;
use crate::packer::packed_of;
use crate::packer::packer_alloc;
use crate::packer::packer_bounds;
use crate::packer::packer_free;
use crate::packer::packer_grow;
use crate::packer::packer_fits;
use crate::packer::packer_id;
use crate::packer::packer_is_empty;
use crate::packer::packer_new;
use crate::packer::packer_regions;
use crate::packer::rect_in_bounds;
use crate::packer::rects_disjoint;
use crate::packer::PackedRect;
use crate::mesh::PathCache;
use crate::text::FontDatabase;
use crate::Command;
use crate::Fill;
use crate::DrawList;
use crate::text::GlyphKey;
use crate::text::Rasterizer;
use crate::text::SubpixelBin;
use crate::text::RasterizedGlyph;

verus! {

/// Id of one GPU texture.
#[derive(Debug, Clone, Copy, PartialEq, Eq, Structural)]
pub struct TextureId(pub u64);

/// How a texture's mip chain is handled.
#[derive(Debug, Clone, Copy, PartialEq, Eq, Structural)]
pub enum MipmapMode {
    Disabled,
    Enabled,
}

/// One texture mutation for the renderer to apply, in order.
#[derive(Debug)]
pub enum TextureCommand {
    CreateStatic { id: TextureId, data: ImageData, mipmap_mode: MipmapMode },
    CreateDynamic { id: TextureId, format: ImageFormat, size: UVec2, mipmap_mode: MipmapMode },
    Copy { src_id: TextureId, dst_id: TextureId, src_rect: URect, dst_rect: URect },
    Write { dst_id: TextureId, dst_rect: URect, data: ImageData },
    Free { id: TextureId },
}

/// Where a resolved image lives: its texture, that texture's size, and the
/// region inside it.
#[derive(Debug, Clone, Copy, PartialEq, Eq, Structural)]
pub struct AllocatedImage {
    pub texture: TextureId,
    pub texture_size: UVec2,
    pub rect: URect,
}

/// Where a resolved glyph lives, with its raster placement offset.
#[derive(Debug, Clone, Copy, PartialEq, Eq, Structural)]
pub struct AllocatedGlyph {
    pub texture: TextureId,
    pub format: ImageFormat,
    pub texture_size: UVec2,
    pub rect: URect,
    pub offset: Vec2,
}

/// Hands out texture ids, counting up; the count saturates rather than
/// reusing ids.
#[derive(Debug)]
pub struct TextureIdAllocator {
    next_id: u64,
}

impl TextureIdAllocator {
    pub closed spec fn s_next(&self) -> u64 {
        self.next_id
    }

    pub fn new() -> (r: TextureIdAllocator)
        ensures
            r.s_next() == 0,
    {
        TextureIdAllocator { next_id: 0 }
    }

    pub fn allocate(&mut self) -> (r: TextureId)
        ensures
            r == TextureId(old(self).s_next()),
            final(self).s_next() == if old(self).s_next() < u64::MAX {
                old(self).s_next() + 1
            } else {
                u64::MAX as int
            },
    {
        let id = TextureId(self.next_id);
        if self.next_id < u64::MAX {
            self.next_id = self.next_id + 1;
        }
        id
    }
}

/// The first association under a key, scanning from the front.
pub open spec fn s_assoc<K, V>(s: Seq<(K, V)>, key: K) -> Option<V>
    decreases s.len(),
{
    if s.len() == 0 {
        None
    } else if s[0].0 == key {
        Some(s[0].1)
    } else {
        s_assoc(s.skip(1), key)
    }
}

/// Scanning past a non-matching front element keeps the association.
pub proof fn lemma_assoc_step<K, V>(s: Seq<(K, V)>, i: int, key: K)
    requires
        0 <= i < s.len(),
        s[i].0 != key,
    ensures
        s_assoc(s.skip(i), key) == s_assoc(s.skip(i + 1), key),
{
    assert(s.skip(i)[0] == s[i]);
    assert(s.skip(i).skip(1) =~= s.skip(i + 1));
}

/// A found index is the association.
pub proof fn lemma_assoc_found<K, V>(s: Seq<(K, V)>, i: int, key: K)
    requires
        0 <= i < s.len(),
        s[i].0 == key,
        forall|j: int| 0 <= j < i ==> s[j].0 != key,
    ensures
        s_assoc(s, key) == Some(s[i].1),
    decreases i,
{
    if i == 0 {
        assert(s.skip(0) =~= s);
    } else {
        lemma_assoc_found(s.skip(1), i - 1, key);
        assert(s.skip(1).skip(i - 1) =~= s.skip(i));
        assert(forall|j: int| 0 <= j < i - 1 ==> s.skip(1)[j] == s[j + 1]);
        assert(s.skip(1)[i - 1] == s[i]);
    }
}

/// With no index matching, there is no association.
pub proof fn lemma_assoc_none<K, V>(s: Seq<(K, V)>, key: K)
    requires
        forall|j: int| 0 <= j < s.len() ==> s[j].0 != key,
    ensures
        s_assoc(s, key) is None,
    decreases s.len(),
{
    if s.len() > 0 {
        lemma_assoc_none(s.skip(1), key);
    }
}

/// Appending an entry leaves every other key's association alone.
pub proof fn lemma_assoc_push_other<K, V>(s: Seq<(K, V)>, x: (K, V), k2: K)
    requires
        x.0 != k2,
    ensures
        s_assoc(s.push(x), k2) == s_assoc(s, k2),
    decreases s.len(),
{
    let t = s.push(x);
    assert(t.len() == s.len() + 1);
    if s.len() == 0 {
        assert(t[0] == x);
        assert(t.skip(1) =~= Seq::<(K, V)>::empty());
        assert(s_assoc(t, k2) == s_assoc(t.skip(1), k2));
        assert(s_assoc(t.skip(1), k2) is None);
        assert(s_assoc(s, k2) is None);
    } else {
        assert(t[0] == s[0]);
        if s[0].0 != k2 {
            assert(t.skip(1) =~= s.skip(1).push(x));
            lemma_assoc_push_other(s.skip(1), x, k2);
            assert(s_assoc(t, k2) == s_assoc(t.skip(1), k2));
            assert(s_assoc(s, k2) == s_assoc(s.skip(1), k2));
        } else {
            assert(s_assoc(t, k2) == Some(t[0].1));
            assert(s_assoc(s, k2) == Some(s[0].1));
        }
    }
}

/// Updating one entry's value leaves every other key's association alone.
pub proof fn lemma_assoc_update_other<K, V>(s: Seq<(K, V)>, i: int, v: V, k2: K)
    requires
        0 <= i < s.len(),
        s[i].0 != k2,
    ensures
        s_assoc(s.update(i, (s[i].0, v)), k2) == s_assoc(s, k2),
    decreases s.len(),
{
    let t = s.update(i, (s[i].0, v));
    assert(t.len() == s.len());
    if i == 0 {
        assert(t[0].0 == s[0].0);
        if s[0].0 != k2 {
            assert(t.skip(1) =~= s.skip(1));
        }
    } else {
        assert(t[0] == s[0]);
        if s[0].0 != k2 {
            assert(s.skip(1)[i - 1] == s[i]);
            lemma_assoc_update_other(s.skip(1), i - 1, v, k2);
            assert(t.skip(1) =~= s.skip(1).update(i - 1, (s[i].0, v)));
        }
    }
}

/// The create command a growth emits: the grown texture, same format and
/// mipmap mode, at the new size.
pub open spec fn grow_create_cmd(pre: &TextureAtlas, post: &TextureAtlas) -> TextureCommand {
    TextureCommand::CreateDynamic {
        id: post.texture,
        format: pre.format,
        size: post.size,
        mipmap_mode: pre.mipmap_mode,
    }
}

/// The copy a growth emits: the entire previous extent, into the grown
/// texture's origin.
pub open spec fn grow_copy_cmd(pre: &TextureAtlas, post: &TextureAtlas) -> TextureCommand {
    TextureCommand::Copy {
        src_id: pre.texture,
        dst_id: post.texture,
        src_rect: URect { min: UVec2 { x: 0u32, y: 0u32 }, max: pre.size },
        dst_rect: URect { min: UVec2 { x: 0u32, y: 0u32 }, max: pre.size },
    }
}

/// One shared atlas texture and the packer that parcels it out.
pub struct TextureAtlas {
    pub texture: TextureId,
    pub format: ImageFormat,
    pub size: UVec2,
    pub allocator: AtlasAllocator,
    pub mipmap_mode: MipmapMode,
}

/// The least side of a fresh atlas.
pub const ATLAS_MIN_SIZE: u32 = 512;

pub const ATLAS_MAX_SIZE: u32 = 4096;

/// Any dimension at or above this goes to a dedicated texture instead of
/// an atlas.
pub const MIN_STANDALONE_SIZE: u32 = 1024;

impl TextureAtlas {
    pub open spec fn regions(&self) -> Map<int, PackedRect> {
        packer_regions(self.allocator)
    }

    /// The atlas's invariant: the packer covers exactly the texture's
    /// size, and every live region sits inside it, off every other.
    pub open spec fn wf(&self) -> bool {
        &&& packer_bounds(self.allocator).w == self.size.x as int
        &&& packer_bounds(self.allocator).h == self.size.y as int
        &&& 0 < self.size.x <= ATLAS_MAX_SIZE
        &&& 0 < self.size.y <= ATLAS_MAX_SIZE
        &&& forall|k: int|
            self.regions().contains_key(k) ==> rect_in_bounds(
                #[trigger] self.regions()[k],
                packer_bounds(self.allocator),
            )
        &&& forall|k1: int, k2: int|
            self.regions().contains_key(k1) && self.regions().contains_key(k2) && k1 != k2
                ==> rects_disjoint(#[trigger] self.regions()[k1], #[trigger] self.regions()[k2])
    }

    /// A fresh atlas: one dynamic texture, nothing packed yet.
    pub fn new(
        id_allocator: &mut TextureIdAllocator,
        commands: &mut Vec<TextureCommand>,
        format: ImageFormat,
        size: UVec2,
        mipmap_mode: MipmapMode,
    ) -> (r: TextureAtlas)
        requires
            0 < size.x <= ATLAS_MAX_SIZE,
            0 < size.y <= ATLAS_MAX_SIZE,
        ensures
            r.wf(),
            r.regions() =~= Map::empty(),
            r.format == format,
            r.mipmap_mode == mipmap_mode,
            r.size == size,
            r.texture == TextureId(old(id_allocator).s_next()),
            old(id_allocator).s_next() <= final(id_allocator).s_next(),
            final(commands)@ == old(commands)@.push(
                TextureCommand::CreateDynamic { id: r.texture, format, size, mipmap_mode },
            ),
    {
        let texture: TextureId = id_allocator.allocate();
        commands.push(TextureCommand::CreateDynamic { id: texture, format, size, mipmap_mode });
        let allocator: AtlasAllocator = packer_new(size.x, size.y);
        TextureAtlas { texture, format, size, allocator, mipmap_mode }
    }

    /// One packing attempt at the current size. On success the pixel data
    /// is written into the returned region.
    fn try_alloc(
        &mut self,
        commands: &mut Vec<TextureCommand>,
        size: UVec2,
        data: &mut Option<ImageData>,
    ) -> (r: Option<(AllocId, URect)>)
        requires
            old(self).wf(),
            0 < size.x <= ATLAS_MAX_SIZE,
            0 < size.y <= ATLAS_MAX_SIZE,
            (*old(data)) is Some,
        ensures
            final(self).wf(),
            final(self).texture == old(self).texture,
            final(self).size == old(self).size,
            final(self).format == old(self).format,
            final(self).mipmap_mode == old(self).mipmap_mode,
            r is Some <==> packer_fits(old(self).allocator, size.x, size.y),
            r is None ==> final(self).regions() == old(self).regions() && packer_bounds(
                final(self).allocator,
            ) == packer_bounds(old(self).allocator) && final(commands)@ == old(commands)@
                && *final(data) == *old(data),
            r is None ==> forall|w2: u32, h2: u32|
                packer_fits(final(self).allocator, w2, h2) == packer_fits(
                    old(self).allocator,
                    w2,
                    h2,
                ),
            r matches Some(p) ==> {
                &&& !old(self).regions().contains_key(packer_id(p.0))
                &&& final(self).regions() =~= old(self).regions().insert(
                    packer_id(p.0),
                    packed_of(p.1),
                )
                &&& packed_of(p.1).x1 - packed_of(p.1).x0 == size.x
                &&& packed_of(p.1).y1 - packed_of(p.1).y0 == size.y
                &&& rect_in_bounds(packed_of(p.1), packer_bounds(final(self).allocator))
                &&& forall|k: int|
                    old(self).regions().contains_key(k) ==> rects_disjoint(
                        packed_of(p.1),
                        #[trigger] old(self).regions()[k],
                    )
                &&& (*final(data)) is None
                &&& final(commands)@ == old(commands)@.push(
                    TextureCommand::Write {
                        dst_id: old(self).texture,
                        dst_rect: p.1,
                        data: (*old(data))->0,
                    },
                )
            },
    {
        let result = packer_alloc(&mut self.allocator, size.x, size.y);
        match result {
            Some((alloc_id, rect)) => {
                let payload: ImageData = data.take().unwrap();
                commands.push(
                    TextureCommand::Write { dst_id: self.texture, dst_rect: rect, data: payload },
                );
                proof {
                    let p = (alloc_id, rect);
                    assert forall|k: int| self.regions().contains_key(k) implies rect_in_bounds(
                        #[trigger] self.regions()[k],
                        packer_bounds(self.allocator),
                    ) by {
                        if k != packer_id(alloc_id) {
                            assert(old(self).regions().contains_key(k));
                        }
                    }
                    assert forall|k1: int, k2: int|
                        self.regions().contains_key(k1) && self.regions().contains_key(k2) && k1
                            != k2 implies rects_disjoint(
                        #[trigger] self.regions()[k1],
                        #[trigger] self.regions()[k2],
                    ) by {
                        if k1 == packer_id(alloc_id) {
                            assert(old(self).regions().contains_key(k2));
                            assert(rects_disjoint(packed_of(rect), old(self).regions()[k2]));
                        } else if k2 == packer_id(alloc_id) {
                            assert(old(self).regions().contains_key(k1));
                            assert(rects_disjoint(packed_of(rect), old(self).regions()[k1]));
                        } else {
                            assert(old(self).regions().contains_key(k1));
                            assert(old(self).regions().contains_key(k2));
                        }
                    }
                }
                proof {
                    assert(self.wf());
                }
                Some((alloc_id, rect))
            },
            None => {
                proof {
                    assert(packer_regions(self.allocator) == packer_regions(
                        old(self).allocator,
                    ));
                    assert forall|k: int| self.regions().contains_key(k) implies rect_in_bounds(
                        #[trigger] self.regions()[k],
                        packer_bounds(self.allocator),
                    ) by {
                        assert(old(self).regions().contains_key(k));
                        assert(old(self).regions()[k] == self.regions()[k]);
                    }
                    assert forall|k1: int, k2: int|
                        self.regions().contains_key(k1) && self.regions().contains_key(k2) && k1
                            != k2 implies rects_disjoint(
                        #[trigger] self.regions()[k1],
                        #[trigger] self.regions()[k2],
                    ) by {
                        assert(old(self).regions().contains_key(k1));
                        assert(old(self).regions().contains_key(k2));
                    }
                    assert(self.wf());
                }
                None
            },
        }
    }

    /// Packs a region, growing the texture when the current size will not
    /// do: the size doubles (repeatedly, until the request fits), the old
    /// contents are copied across in full, and the pack is retried once.
    /// Growth to at or beyond the maximum size is refused instead.
    pub fn allocate(
        &mut self,
        id_allocator: &mut TextureIdAllocator,
        commands: &mut Vec<TextureCommand>,
        alloc_size: UVec2,
        data: &mut Option<ImageData>,
    ) -> (r: Option<(AllocId, URect)>)
        requires
            old(self).wf(),
            0 < alloc_size.x <= ATLAS_MAX_SIZE,
            0 < alloc_size.y <= ATLAS_MAX_SIZE,
            (*old(data)) is Some,
        ensures
            final(self).wf(),
            final(self).format == old(self).format,
            final(self).mipmap_mode == old(self).mipmap_mode,
            old(self).size.x <= final(self).size.x && old(self).size.y <= final(self).size.y,
            old(id_allocator).s_next() <= final(id_allocator).s_next(),
            old(commands)@.is_prefix_of(final(commands)@),
            r is None ==> final(self).regions() == old(self).regions() && *final(data) == *old(data),
            r matches Some(p) ==> {
                &&& !old(self).regions().contains_key(packer_id(p.0))
                &&& final(self).regions() =~= old(self).regions().insert(
                    packer_id(p.0),
                    packed_of(p.1),
                )
                &&& packed_of(p.1).x1 - packed_of(p.1).x0 == alloc_size.x
                &&& packed_of(p.1).y1 - packed_of(p.1).y0 == alloc_size.y
                &&& rect_in_bounds(packed_of(p.1), packer_bounds(final(self).allocator))
                &&& forall|k: int|
                    old(self).regions().contains_key(k) ==> rects_disjoint(
                        packed_of(p.1),
                        #[trigger] old(self).regions()[k],
                    )
                &&& (*final(data)) is None
            },
            packer_fits(old(self).allocator, alloc_size.x, alloc_size.y) ==> r is Some
                && final(self).size == old(self).size,
            r is None ==> !packer_fits(final(self).allocator, alloc_size.x, alloc_size.y),
            r is None && final(self).size == old(self).size ==> final(self).texture == old(self).texture && final(commands)@ == old(commands)@,
            final(self).size != old(self).size ==> old(self).size.x < final(self).size.x && old(self).size.y < final(self).size.y && final(self).size.x < ATLAS_MAX_SIZE && final(self).size.y < ATLAS_MAX_SIZE,
            (r is None && final(self).size != old(self).size) ==> final(commands)@ == old(commands)@.push(grow_create_cmd(old(self), final(self))).push(
                grow_copy_cmd(old(self), final(self)),
            ),
            r matches Some(p) ==> final(commands)@ == (if final(self).size != old(self).size {
                old(commands)@.push(grow_create_cmd(old(self), final(self))).push(
                    grow_copy_cmd(old(self), final(self)),
                )
            } else {
                old(commands)@
            }).push(
                TextureCommand::Write {
                    dst_id: final(self).texture,
                    dst_rect: p.1,
                    data: (*old(data))->0,
                },
            ),
    {
        let first = self.try_alloc(commands, alloc_size, data);
        if first.is_some() {
            return first;
        }
        // Double until the request fits, as far as the size cap allows.
        let mut new_w: u32 = if self.size.x <= 0x20000000 {
            self.size.x * 2
        } else {
            return None;
        };
        let mut new_h: u32 = if self.size.y <= 0x20000000 {
            self.size.y * 2
        } else {
            return None;
        };
        while new_w < alloc_size.x || new_h < alloc_size.y
            invariant
                0 < new_w <= 0x40000000,
                0 < new_h <= 0x40000000,
                alloc_size.x <= 0x40000000,
                alloc_size.y <= 0x40000000,
                self.wf(),
                self.texture == old(self).texture,
                self.size == old(self).size,
                self.format == old(self).format,
                self.mipmap_mode == old(self).mipmap_mode,
                self.regions() == old(self).regions(),
                commands@ == old(commands)@,
                *data == *old(data),
                !packer_fits(old(self).allocator, alloc_size.x, alloc_size.y),
                forall|w2: u32, h2: u32|
                    packer_fits(self.allocator, w2, h2) == packer_fits(
                        old(self).allocator,
                        w2,
                        h2,
                    ),
            decreases crate::math::s_max(0, alloc_size.x - new_w) + crate::math::s_max(
                0,
                alloc_size.y - new_h,
            ),
        {
            if new_w >= ATLAS_MAX_SIZE || new_h >= ATLAS_MAX_SIZE {
                return None;
            }
            if new_w < alloc_size.x {
                new_w = new_w * 2;
            }
            if new_h < alloc_size.y {
                new_h = new_h * 2;
            }
        }
        if new_w >= ATLAS_MAX_SIZE || new_h >= ATLAS_MAX_SIZE {
            return None;
        }
        if new_w <= self.size.x || new_h <= self.size.y {
            return None;
        }
        let src_id: TextureId = self.texture;
        let dst_id: TextureId = id_allocator.allocate();
        let new_size = UVec2 { x: new_w, y: new_h };
        commands.push(
            TextureCommand::CreateDynamic {
                id: dst_id,
                format: self.format,
                size: new_size,
                mipmap_mode: self.mipmap_mode,
            },
        );
        let full = URect { min: UVec2 { x: 0, y: 0 }, max: self.size };
        commands.push(
            TextureCommand::Copy { src_id, dst_id, src_rect: full, dst_rect: full },
        );
        let ghost after_copy = commands@;
        self.texture = dst_id;
        self.size = new_size;
        packer_grow(&mut self.allocator, new_w, new_h);
        proof {
            assert forall|k: int| self.regions().contains_key(k) implies rect_in_bounds(
                #[trigger] self.regions()[k],
                packer_bounds(self.allocator),
            ) by {
                assert(old(self).regions().contains_key(k));
                assert(rect_in_bounds(old(self).regions()[k], packer_bounds(old(self).allocator)));
            }
        }
        let second = self.try_alloc(commands, alloc_size, data);
        proof {
            assert(after_copy == old(commands)@.push(grow_create_cmd(old(self), self)).push(
                grow_copy_cmd(old(self), self),
            ));
            match second {
                Some(p) => {
                    assert(commands@ == after_copy.push(
                        TextureCommand::Write {
                            dst_id: self.texture,
                            dst_rect: p.1,
                            data: (*old(data))->0,
                        },
                    ));
                },
                None => {
                    assert(commands@ == after_copy);
                },
            }
        }
        second
    }

    /// Returns a region to the packer. The texture does not shrink.
    pub fn free(&mut self, id: AllocId)
        requires
            old(self).wf(),
            old(self).regions().contains_key(packer_id(id)),
        ensures
            final(self).wf(),
            final(self).regions() =~= old(self).regions().remove(packer_id(id)),
            final(self).texture == old(self).texture,
            final(self).size == old(self).size,
            final(self).format == old(self).format,
            final(self).mipmap_mode == old(self).mipmap_mode,
    {
        packer_free(&mut self.allocator, id);
        proof {
            assert forall|k: int| self.regions().contains_key(k) implies rect_in_bounds(
                #[trigger] self.regions()[k],
                packer_bounds(self.allocator),
            ) by {
                assert(old(self).regions().contains_key(k));
            }
        }
    }

    /// Whether nothing is packed, so the pool may destroy the texture.
    pub fn is_empty(&self) -> (r: bool)
        ensures
            r == (self.regions() =~= Map::empty()),
    {
        packer_is_empty(&self.allocator)
    }
}


/// Groups atlases; an allocation goes to a compatible atlas that can take
/// it, else into a freshly created one. Destroyed atlases leave their slot
/// empty so positions stay stable.
pub struct TextureAtlasPool {
    atlases: Vec<Option<TextureAtlas>>,
}

impl TextureAtlasPool {
    pub closed spec fn s_atlases(&self) -> Seq<Option<TextureAtlas>> {
        self.atlases@
    }

    pub open spec fn wf(&self) -> bool {
        forall|j: int|
            0 <= j < self.s_atlases().len() && self.s_atlases()[j] is Some
                ==> (#[trigger] self.s_atlases()[j])->0.wf()
    }

    pub fn new() -> (r: TextureAtlasPool)
        ensures
            r.wf(),
            r.s_atlases().len() == 0,
    {
        TextureAtlasPool { atlases: Vec::new() }
    }
}

/// How a pool's atlases may change under one allocation: at most one new
/// slot, no slot emptied or filled, formats kept, and every already
/// allocated region still there, unmoved.
pub open spec fn s_atlases_stable(
    olds: Seq<Option<TextureAtlas>>,
    news: Seq<Option<TextureAtlas>>,
) -> bool {
    &&& olds.len() <= news.len() <= olds.len() + 1
    &&& forall|j: int|
        0 <= j < olds.len() ==> ((#[trigger] olds[j]) is Some <==> news[j] is Some)
    &&& forall|j: int|
        0 <= j < olds.len() && olds[j] is Some ==> (#[trigger] news[j])->0.format
            == olds[j]->0.format && news[j]->0.mipmap_mode == olds[j]->0.mipmap_mode
            && news[j]->0.size.x >= olds[j]->0.size.x && news[j]->0.size.y >= olds[j]->0.size.y
    &&& forall|j: int, k: int|
        0 <= j < olds.len() && olds[j] is Some && #[trigger] olds[j]->0.regions().contains_key(k)
            ==> news[j]->0.regions().contains_key(k) && news[j]->0.regions()[k]
            == olds[j]->0.regions()[k]
}

/// A request the pool refuses outright: empty, or too large for the
/// packer's index range.
pub open spec fn s_degenerate(sz: UVec2) -> bool {
    sz.x == 0 || sz.y == 0 || sz.x > ATLAS_MAX_SIZE || sz.y > ATLAS_MAX_SIZE
}

/// Doubling from `c` until it reaches `v`.
pub open spec fn s_pow2_from(c: int, v: int) -> int
    decreases crate::math::s_max(0, v - c),
{
    if c >= v || c <= 0 {
        c
    } else {
        s_pow2_from(2 * c, v)
    }
}

/// The side of a fresh atlas for a request whose larger dimension is `v`:
/// the minimum side doubled until it covers `v`.
pub open spec fn s_atlas_side(v: int) -> int {
    s_pow2_from(ATLAS_MIN_SIZE as int, v)
}

/// The larger dimension of a size.
pub open spec fn s_umax(v: UVec2) -> int {
    crate::math::s_max(v.x as int, v.y as int)
}

fn atlas_side_for(v: u32) -> (r: u32)
    requires
        v <= 4096,
    ensures
        r as int == s_atlas_side(v as int),
        r >= v,
        ATLAS_MIN_SIZE <= r <= ATLAS_MAX_SIZE,
{
    let mut r: u32 = ATLAS_MIN_SIZE;
    while r < v
        invariant
            r == 512 || r == 1024 || r == 2048 || r == 4096,
            v <= 4096,
            s_atlas_side(v as int) == s_pow2_from(r as int, v as int),
        decreases crate::math::s_max(0, v - r),
    {
        r = r * 2;
    }
    r
}

impl TextureAtlasPool {
    /// Finds room for the pixels in a compatible atlas, growing or
    /// creating one as needed: every existing compatible atlas is tried
    /// (with its own growth) before a fresh one is created, square, with
    /// the least power-of-two side at or above the minimum that covers
    /// the request. Degenerate (zero-sized) and oversized requests are
    /// refused outright.
    pub fn allocate(
        &mut self,
        id_allocator: &mut TextureIdAllocator,
        commands: &mut Vec<TextureCommand>,
        data: ImageData,
        mipmap_mode: MipmapMode,
    ) -> (r: Option<((usize, AllocId), URect)>)
        requires
            old(self).wf(),
        ensures
            final(self).wf(),
            s_atlases_stable(old(self).s_atlases(), final(self).s_atlases()),
            old(id_allocator).s_next() <= final(id_allocator).s_next(),
            old(commands)@.is_prefix_of(final(commands)@),
            s_degenerate(data.size) ==> r is None && final(self).s_atlases() == old(self).s_atlases() && final(commands)@ == old(commands)@,
            r is None && !s_degenerate(data.size) ==> final(self).s_atlases().len() == old(self).s_atlases().len() + 1 && final(self).s_atlases().last() is Some && !packer_fits(
                final(self).s_atlases().last()->0.allocator,
                data.size.x,
                data.size.y,
            ),
            (r is None && !s_degenerate(data.size)) ==> forall|jj: int|
                0 <= jj < old(self).s_atlases().len() && (#[trigger] old(self).s_atlases()[jj])
                    is Some && old(self).s_atlases()[jj]->0.format == data.format && old(self).s_atlases()[jj]->0.mipmap_mode == mipmap_mode ==> !packer_fits(
                    final(self).s_atlases()[jj]->0.allocator,
                    data.size.x,
                    data.size.y,
                ),
            r matches Some(p) ==> p.0.0 < old(self).s_atlases().len() || p.0.0 == old(self).s_atlases().len() && (forall|jj: int|
                0 <= jj < old(self).s_atlases().len() && (#[trigger] old(self).s_atlases()[jj])
                    is Some && old(self).s_atlases()[jj]->0.format == data.format && old(self).s_atlases()[jj]->0.mipmap_mode == mipmap_mode ==> !packer_fits(
                    final(self).s_atlases()[jj]->0.allocator,
                    data.size.x,
                    data.size.y,
                )),
            r matches Some(p) ==> p.0.0 < old(self).s_atlases().len() || (exists|ci: int|
                old(commands)@.len() <= ci < final(commands)@.len() && ((#[trigger] final(commands)@[ci]) matches TextureCommand::CreateDynamic { id: _, format: f, size: sz, mipmap_mode: mm }
                    && f == data.format && sz == (UVec2 {
                    x: s_atlas_side(s_umax(data.size)) as u32,
                    y: s_atlas_side(s_umax(data.size)) as u32,
                }) && mm == mipmap_mode)),
            r matches Some(p) ==> final(commands)@.len() > old(commands)@.len() && final(commands)@.last() == (TextureCommand::Write {
                dst_id: final(self).s_atlases()[p.0.0 as int]->0.texture,
                dst_rect: p.1,
                data: data,
            }),
            r is None ==> forall|j: int|
                0 <= j < old(self).s_atlases().len() && (#[trigger] old(self).s_atlases()[j])
                    is Some ==> final(self).s_atlases()[j]->0.regions() == old(self).s_atlases()[j]->0.regions(),
            r matches Some(p) ==> {
                &&& p.0.0 < final(self).s_atlases().len()
                &&& final(self).s_atlases()[p.0.0 as int] is Some
                &&& final(self).s_atlases()[p.0.0 as int]->0.regions().contains_key(
                    packer_id(p.0.1),
                )
                &&& final(self).s_atlases()[p.0.0 as int]->0.regions()[packer_id(p.0.1)]
                    == packed_of(p.1)
                &&& packed_of(p.1).x1 - packed_of(p.1).x0 == data.size.x
                &&& packed_of(p.1).y1 - packed_of(p.1).y0 == data.size.y
                &&& final(self).s_atlases()[p.0.0 as int]->0.format == data.format
                &&& final(self).s_atlases()[p.0.0 as int]->0.mipmap_mode == mipmap_mode
                &&& (p.0.0 < old(self).s_atlases().len() ==> old(self).s_atlases()[p.0.0 as int]
                    is Some && !old(self).s_atlases()[p.0.0 as int]->0.regions().contains_key(
                    packer_id(p.0.1),
                ))
                &&& forall|jj: int|
                    0 <= jj < old(self).s_atlases().len() && jj != p.0.0 && (#[trigger] old(self).s_atlases()[jj]) is Some ==> final(self).s_atlases()[jj]->0.regions() == old(self).s_atlases()[jj]->0.regions()
            },
    {
        let alloc_w: u32 = data.size.x;
        let alloc_h: u32 = data.size.y;
        let alloc_format: ImageFormat = data.format;
        if alloc_w == 0 || alloc_h == 0 || alloc_w > ATLAS_MAX_SIZE || alloc_h > ATLAS_MAX_SIZE {
            return None;
        }
        let mut data_opt: Option<ImageData> = Some(data);
        let mut j: usize = 0;
        while j < self.atlases.len()
            invariant
                old(self).wf(),
                self.wf(),
                0 < alloc_w <= ATLAS_MAX_SIZE,
                0 < alloc_h <= ATLAS_MAX_SIZE,
                self.s_atlases().len() == old(self).s_atlases().len(),
                forall|jj: int|
                    0 <= jj < old(self).s_atlases().len() ==> ((#[trigger] old(self).s_atlases()[jj]) is Some <==> self.s_atlases()[jj] is Some),
                forall|jj: int|
                    0 <= jj < old(self).s_atlases().len() && old(self).s_atlases()[jj] is Some
                        ==> (#[trigger] self.s_atlases()[jj])->0.format == old(self).s_atlases()[jj]->0.format && self.s_atlases()[jj]->0.mipmap_mode == old(self).s_atlases()[jj]->0.mipmap_mode && self.s_atlases()[jj]->0.size.x >= old(self).s_atlases()[jj]->0.size.x && self.s_atlases()[jj]->0.size.y >= old(self).s_atlases()[jj]->0.size.y,
                forall|jj: int|
                    0 <= jj < old(self).s_atlases().len() && (#[trigger] old(self).s_atlases()[jj])
                        is Some ==> self.s_atlases()[jj]->0.regions() == old(self).s_atlases()[jj]->0.regions(),
                old(commands)@.is_prefix_of(commands@),
                old(id_allocator).s_next() <= id_allocator.s_next(),
                alloc_w == data.size.x,
                alloc_h == data.size.y,
                alloc_format == data.format,
                data_opt == Some(data),
                forall|jj: int|
                    0 <= jj < j && (#[trigger] old(self).s_atlases()[jj]) is Some && old(self).s_atlases()[jj]->0.format == data.format && old(self).s_atlases()[jj]->0.mipmap_mode == mipmap_mode ==> !packer_fits(
                        self.s_atlases()[jj]->0.allocator,
                        alloc_w,
                        alloc_h,
                    ),
            decreases self.s_atlases().len() - j,
        {
            let ghost pool0 = self.s_atlases();
            let mut slot: Option<TextureAtlas> = None;
            core::mem::swap(&mut self.atlases[j], &mut slot);
            match slot {
                Some(mut atlas) => {
                    if atlas.format == alloc_format && atlas.mipmap_mode == mipmap_mode {
                        let ghost atlas0 = atlas;
                        let res = atlas.allocate(
                            id_allocator,
                            commands,
                            UVec2 { x: alloc_w, y: alloc_h },
                            &mut data_opt,
                        );
                        self.atlases.set(j, Some(atlas));
                        proof {
                            assert(self.s_atlases()[j as int] == Some(atlas));
                            assert forall|jj: int|
                                0 <= jj < self.s_atlases().len() && jj != j
                                    implies self.s_atlases()[jj] == pool0[jj] by {}
                            assert forall|jj: int|
                                0 <= jj < self.s_atlases().len() && self.s_atlases()[jj]
                                    is Some implies (#[trigger] self.s_atlases()[jj])->0.wf() by {
                                if jj != j {
                                    assert(self.s_atlases()[jj] == pool0[jj]);
                                }
                            }
                        }
                        match res {
                            Some((aid, rect)) => {
                                proof {
                                    let olds = old(self).s_atlases();
                                    let news = self.s_atlases();
                                    assert(news[j as int]->0 == atlas);
                                    assert(pool0[j as int]->0.regions() == olds[j as int]
                                        ->0.regions());
                                    assert(!olds[j as int]->0.regions().contains_key(
                                        packer_id(aid),
                                    ));
                                    assert forall|jj: int|
                                        0 <= jj < olds.len() && jj != j implies news[jj]
                                        == pool0[jj] by {}
                                    assert forall|jj: int, k: int|
                                        0 <= jj < olds.len() && olds[jj] is Some
                                            && #[trigger] olds[jj]->0.regions().contains_key(
                                            k,
                                        ) implies news[jj]->0.regions().contains_key(k)
                                        && news[jj]->0.regions()[k] == olds[jj]->0.regions()[k] by {
                                        if jj == j {
                                            assert(atlas.regions() =~= olds[jj]
                                                ->0.regions().insert(
                                                packer_id(aid),
                                                packed_of(rect),
                                            ));
                                        } else {
                                            assert(news[jj] == pool0[jj]);
                                        }
                                    }
                                }
                                proof {
                                    assert(commands@.last() == (TextureCommand::Write {
                                        dst_id: atlas.texture,
                                        dst_rect: rect,
                                        data: data,
                                    }));
                                    assert(commands@.len() > old(commands)@.len());
                                }
                                return Some(((j, aid), rect));
                            },
                            None => {
                            },
                        }
                    } else {
                        self.atlases.set(j, Some(atlas));
                        proof {
                            assert(self.s_atlases() =~= pool0);
                        }
                    }
                },
                None => {
                    proof {
                        assert(self.s_atlases() =~= pool0);
                    }
                },
            }
            j = j + 1;
        }
        let side: u32 = if alloc_w >= alloc_h {
            atlas_side_for(alloc_w)
        } else {
            atlas_side_for(alloc_h)
        };
        proof {
            assert(side as int == s_atlas_side(s_umax(data.size)));
        }
        let ghost cd_idx = commands@.len() as int;
        let mut new_atlas: TextureAtlas = TextureAtlas::new(
            id_allocator,
            commands,
            alloc_format,
            UVec2 { x: side, y: side },
            mipmap_mode,
        );
        proof {
            assert(commands@[cd_idx] == (TextureCommand::CreateDynamic {
                id: new_atlas.texture,
                format: alloc_format,
                size: UVec2 { x: side, y: side },
                mipmap_mode,
            }));
        }
        let ghost pre_alloc_cmds = commands@;
        let res = new_atlas.allocate(
            id_allocator,
            commands,
            UVec2 { x: alloc_w, y: alloc_h },
            &mut data_opt,
        );
        proof {
            assert(pre_alloc_cmds.is_prefix_of(commands@));
            assert(commands@[cd_idx] == pre_alloc_cmds[cd_idx]);
        }
        let j_new: usize = self.atlases.len();
        let ghost prev = self.s_atlases();
        self.atlases.push(Some(new_atlas));
        proof {
            assert(self.s_atlases()[j_new as int] == Some(new_atlas));
            assert forall|jj: int|
                0 <= jj < self.s_atlases().len() && self.s_atlases()[jj] is Some implies (
            #[trigger] self.s_atlases()[jj])->0.wf() by {
                if jj != j_new {
                    assert(self.s_atlases()[jj] == prev[jj]);
                }
            }
            assert forall|jj: int|
                0 <= jj < old(self).s_atlases().len() && (#[trigger] old(self).s_atlases()[jj])
                    is Some && old(self).s_atlases()[jj]->0.format == data.format && old(self).s_atlases()[jj]->0.mipmap_mode == mipmap_mode implies !packer_fits(
                self.s_atlases()[jj]->0.allocator,
                alloc_w,
                alloc_h,
            ) by {
                assert(self.s_atlases()[jj] == prev[jj]);
            }
        }
        match res {
            Some((aid, rect)) => {
                proof {
                    assert(commands@.last() == (TextureCommand::Write {
                        dst_id: new_atlas.texture,
                        dst_rect: rect,
                        data: data,
                    }));
                    assert(self.s_atlases()[j_new as int]->0.texture == new_atlas.texture);
                }
                Some(((j_new, aid), rect))
            },
            None => {
                proof {
                    assert(self.s_atlases().last() == Some(new_atlas));
                    assert(!packer_fits(new_atlas.allocator, alloc_w, alloc_h));
                }
                None
            },
        }
    }
}

impl TextureAtlasPool {
    /// Returns one region to its atlas's packer.
    pub fn free(&mut self, atlas_index: usize, id: AllocId)
        requires
            old(self).wf(),
            atlas_index < old(self).s_atlases().len(),
            old(self).s_atlases()[atlas_index as int] is Some,
            old(self).s_atlases()[atlas_index as int]->0.regions().contains_key(packer_id(id)),
        ensures
            final(self).wf(),
            final(self).s_atlases().len() == old(self).s_atlases().len(),
            forall|j: int|
                0 <= j < old(self).s_atlases().len() && j != atlas_index ==> final(self).s_atlases()[j] == (#[trigger] old(self).s_atlases()[j]),
            final(self).s_atlases()[atlas_index as int] is Some,
            final(self).s_atlases()[atlas_index as int]->0.regions() =~= old(self).s_atlases()[atlas_index as int]->0.regions().remove(packer_id(id)),
            final(self).s_atlases()[atlas_index as int]->0.texture == old(self).s_atlases()[atlas_index as int]->0.texture,
            final(self).s_atlases()[atlas_index as int]->0.size == old(self).s_atlases()[atlas_index as int]->0.size,
            final(self).s_atlases()[atlas_index as int]->0.format == old(self).s_atlases()[atlas_index as int]->0.format,
            final(self).s_atlases()[atlas_index as int]->0.mipmap_mode == old(self).s_atlases()[atlas_index as int]->0.mipmap_mode,
    {
        let mut slot: Option<TextureAtlas> = None;
        core::mem::swap(&mut self.atlases[atlas_index], &mut slot);
        let mut atlas: TextureAtlas = slot.unwrap();
        atlas.free(id);
        self.atlases.set(atlas_index, Some(atlas));
        proof {
            assert(self.s_atlases()[atlas_index as int] == Some(atlas));
            assert forall|j: int|
                0 <= j < self.s_atlases().len() && self.s_atlases()[j] is Some implies (
            #[trigger] self.s_atlases()[j])->0.wf() by {
                if j != atlas_index {
                    assert(self.s_atlases()[j] == old(self).s_atlases()[j]);
                }
            }
        }
    }

    /// Destroys every atlas that holds nothing, freeing its texture; an
    /// atlas is destroyed only when it has no live region.
    pub fn cleanup(&mut self, commands: &mut Vec<TextureCommand>)
        requires
            old(self).wf(),
        ensures
            final(self).wf(),
            final(self).s_atlases().len() == old(self).s_atlases().len(),
            forall|j: int|
                0 <= j < old(self).s_atlases().len() && (#[trigger] final(self).s_atlases()[j])
                    is Some ==> final(self).s_atlases()[j] == old(self).s_atlases()[j],
            forall|j: int|
                0 <= j < old(self).s_atlases().len() && (#[trigger] old(self).s_atlases()[j])
                    is Some && final(self).s_atlases()[j] is None ==> old(self).s_atlases()[j]->0.regions() =~= Map::empty(),
            forall|j: int|
                0 <= j < old(self).s_atlases().len() && (#[trigger] old(self).s_atlases()[j])
                    is Some && old(self).s_atlases()[j]->0.regions() =~= Map::empty() ==> final(self).s_atlases()[j] is None,
            forall|j: int|
                0 <= j < old(self).s_atlases().len() && (#[trigger] old(self).s_atlases()[j])
                    is Some && final(self).s_atlases()[j] is None ==> exists|ci: int|
                    old(commands)@.len() <= ci < final(commands)@.len() && final(commands)@[ci]
                        == (TextureCommand::Free { id: old(self).s_atlases()[j]->0.texture }),
            old(commands)@.is_prefix_of(final(commands)@),
    {
        let mut j: usize = 0;
        while j < self.atlases.len()
            invariant
                self.wf(),
                self.s_atlases().len() == old(self).s_atlases().len(),
                forall|jj: int|
                    0 <= jj < old(self).s_atlases().len() && (#[trigger] self.s_atlases()[jj])
                        is Some ==> self.s_atlases()[jj] == old(self).s_atlases()[jj],
                forall|jj: int|
                    0 <= jj < old(self).s_atlases().len() && (#[trigger] old(self).s_atlases()[jj])
                        is Some && self.s_atlases()[jj] is None ==> old(self).s_atlases()[jj]->0.regions() =~= Map::empty(),
                forall|jj: int|
                    0 <= jj < j && (#[trigger] old(self).s_atlases()[jj]) is Some && old(self).s_atlases()[jj]->0.regions() =~= Map::empty() ==> self.s_atlases()[jj]
                        is None,
                forall|jj: int|
                    0 <= jj < old(self).s_atlases().len() && (#[trigger] old(self).s_atlases()[jj])
                        is Some && self.s_atlases()[jj] is None ==> exists|ci: int|
                        old(commands)@.len() <= ci < commands@.len() && commands@[ci]
                            == (TextureCommand::Free { id: old(self).s_atlases()[jj]->0.texture }),
                old(commands)@.is_prefix_of(commands@),
            decreases self.s_atlases().len() - j,
        {
            let ghost pool0 = self.s_atlases();
            let is_discardable: bool = match &self.atlases[j] {
                Some(atlas) => atlas.is_empty(),
                None => false,
            };
            if is_discardable {
                let texture: TextureId = match &self.atlases[j] {
                    Some(atlas) => atlas.texture,
                    None => TextureId(0),
                };
                proof {
                    assert(texture == old(self).s_atlases()[j as int]->0.texture);
                }
                let ghost cmds0 = commands@;
                let ghost free_idx = commands@.len() as int;
                commands.push(TextureCommand::Free { id: texture });
                self.atlases.set(j, None);
                proof {
                    assert forall|jj: int|
                        0 <= jj < self.s_atlases().len() && jj != j implies self.s_atlases()[jj]
                        == pool0[jj] by {}
                    assert(commands@[free_idx] == (TextureCommand::Free { id: texture }));
                    assert forall|jj: int|
                        0 <= jj < old(self).s_atlases().len() && (#[trigger] old(self).s_atlases()[jj]) is Some && self.s_atlases()[jj]
                            is None implies exists|ci: int|
                        old(commands)@.len() <= ci < commands@.len() && commands@[ci]
                            == (TextureCommand::Free {
                            id: old(self).s_atlases()[jj]->0.texture,
                        }) by {
                        if jj == j {
                            assert(old(commands)@.len() <= free_idx < commands@.len()
                                && commands@[free_idx] == (TextureCommand::Free {
                                id: old(self).s_atlases()[jj]->0.texture,
                            }));
                        } else {
                            assert(pool0[jj] == self.s_atlases()[jj]);
                            let ci0 = choose|ci: int|
                                old(commands)@.len() <= ci < cmds0.len() && cmds0[ci]
                                    == (TextureCommand::Free {
                                    id: old(self).s_atlases()[jj]->0.texture,
                                });
                            assert(commands@[ci0] == cmds0[ci0]);
                        }
                    }
                }
            }
            j = j + 1;
        }
    }
}

/// What the cache records of one image.
#[derive(Debug)]
pub struct ImageEntry {
    /// Marked during the frame's usage scan; unused entries are evicted.
    pub used: bool,
    pub path: Option<AssetPath>,
    pub data: Option<ImageData>,
    pub mipmap_mode: MipmapMode,
    /// The dedicated texture of a standalone image.
    pub texture: Option<TextureId>,
    pub rect: URect,
    /// The atlas slot and packer id of an atlas-resident image.
    pub alloc: Option<(usize, AllocId)>,
    /// The resolution most recently asked for by the usage scan.
    pub requested_size: UVec2,
    /// High-water mark: a source already rasterized at its largest size.
    pub max_size: UVec2,
}

/// What the cache records of one glyph.
#[derive(Debug)]
pub struct GlyphEntry {
    pub used: bool,
    pub rect: URect,
    pub alloc: Option<(usize, AllocId)>,
    /// The dedicated texture of a standalone glyph, with its format.
    pub texture: Option<TextureId>,
    pub format: ImageFormat,
    pub offset: Vec2,
    /// The rasterizer said the glyph renders nothing; never retried.
    pub is_empty: bool,
}

/// Whether an atlas reference is backed by a live packer region that holds
/// exactly the entry's rectangle.
pub open spec fn s_alloc_ok(
    atlases: Seq<Option<TextureAtlas>>,
    alloc: Option<(usize, AllocId)>,
    rect: URect,
) -> bool {
    match alloc {
        Some(pair) => {
            &&& (pair.0 as int) < atlases.len()
            &&& atlases[pair.0 as int] is Some
            &&& atlases[pair.0 as int]->0.regions().contains_key(packer_id(pair.1))
            &&& atlases[pair.0 as int]->0.regions()[packer_id(pair.1)] == packed_of(rect)
        },
        None => true,
    }
}

/// An atlas reference as a comparable identity.
pub open spec fn s_pair(alloc: Option<(usize, AllocId)>) -> Option<(int, int)> {
    match alloc {
        Some(p) => Some((p.0 as int, packer_id(p.1))),
        None => None,
    }
}

/// Owns the image and glyph entries, the shared atlases, and the dedicated
/// textures; resolves entries lazily and evicts per frame.
pub struct TextureCache {
    images: Vec<(u64, ImageEntry)>,
    next_image_id: u64,
    images_by_path: Vec<(AssetPath, u64)>,
    glyphs: Vec<(GlyphKey, GlyphEntry)>,
    atlases: TextureAtlasPool,
    id_allocator: TextureIdAllocator,
}

impl TextureCache {
    pub closed spec fn s_images(&self) -> Seq<(u64, ImageEntry)> {
        self.images@
    }

    pub closed spec fn s_glyphs(&self) -> Seq<(GlyphKey, GlyphEntry)> {
        self.glyphs@
    }

    pub closed spec fn s_atlases(&self) -> Seq<Option<TextureAtlas>> {
        self.atlases.s_atlases()
    }

    pub closed spec fn s_next_image_id(&self) -> u64 {
        self.next_image_id
    }

    pub closed spec fn s_paths(&self) -> Seq<(Seq<char>, u64)> {
        self.images_by_path@.map_values(|p: (AssetPath, u64)| (p.0.s_url(), p.1))
    }

    /// The entry stored for an image id.
    pub open spec fn s_image(&self, id: ImageId) -> Option<ImageEntry> {
        s_assoc(self.s_images(), id.0)
    }

    /// The entry stored for a glyph key.
    pub open spec fn s_glyph(&self, key: GlyphKey) -> Option<GlyphEntry> {
        s_assoc(self.s_glyphs(), key)
    }

    /// The cache's invariant. Every atlas reference of an entry names a
    /// live region holding exactly the entry's rectangle, and no two
    /// entries share a region: one identity, one allocation.
    pub closed spec fn wf(&self) -> bool {
        &&& self.atlases.wf()
        &&& forall|i1: int, i2: int|
            #![trigger self.s_images()[i1], self.s_images()[i2]]
            0 <= i1 < i2 < self.s_images().len() ==> self.s_images()[i1].0
                != self.s_images()[i2].0
        &&& forall|i: int|
            0 <= i < self.s_images().len() ==> (#[trigger] self.s_images()[i]).0
                < self.s_next_image_id()
        &&& forall|i1: int, i2: int|
            #![trigger self.s_glyphs()[i1], self.s_glyphs()[i2]]
            0 <= i1 < i2 < self.s_glyphs().len() ==> self.s_glyphs()[i1].0
                != self.s_glyphs()[i2].0
        &&& forall|i: int|
            0 <= i < self.s_images().len() ==> s_alloc_ok(
                self.s_atlases(),
                (#[trigger] self.s_images()[i]).1.alloc,
                self.s_images()[i].1.rect,
            )
        &&& forall|i: int|
            0 <= i < self.s_images().len() && (#[trigger] self.s_images()[i]).1.alloc is Some
                ==> self.s_images()[i].1.texture is None
        &&& forall|i: int|
            0 <= i < self.s_glyphs().len() ==> s_alloc_ok(
                self.s_atlases(),
                (#[trigger] self.s_glyphs()[i]).1.alloc,
                self.s_glyphs()[i].1.rect,
            )
        &&& forall|i: int|
            0 <= i < self.s_glyphs().len() && (#[trigger] self.s_glyphs()[i]).1.alloc is Some
                ==> self.s_glyphs()[i].1.texture is None
        &&& forall|i1: int, i2: int|
            #![trigger self.s_images()[i1].1.alloc, self.s_images()[i2].1.alloc]
            0 <= i1 < i2 < self.s_images().len() && self.s_images()[i1].1.alloc is Some
                && self.s_images()[i2].1.alloc is Some ==> s_pair(self.s_images()[i1].1.alloc)
                != s_pair(self.s_images()[i2].1.alloc)
        &&& forall|i1: int, i2: int|
            #![trigger self.s_glyphs()[i1].1.alloc, self.s_glyphs()[i2].1.alloc]
            0 <= i1 < i2 < self.s_glyphs().len() && self.s_glyphs()[i1].1.alloc is Some
                && self.s_glyphs()[i2].1.alloc is Some ==> s_pair(self.s_glyphs()[i1].1.alloc)
                != s_pair(self.s_glyphs()[i2].1.alloc)
        &&& forall|i: int, g: int|
            #![trigger self.s_images()[i].1.alloc, self.s_glyphs()[g].1.alloc]
            0 <= i < self.s_images().len() && 0 <= g < self.s_glyphs().len()
                && self.s_images()[i].1.alloc is Some && self.s_glyphs()[g].1.alloc is Some
                ==> s_pair(
                self.s_images()[i].1.alloc,
            ) != s_pair(self.s_glyphs()[g].1.alloc)
    }

    pub fn new() -> (r: TextureCache)
        ensures
            r.wf(),
            r.s_images().len() == 0,
            r.s_glyphs().len() == 0,
            r.s_atlases().len() == 0,
            r.s_paths().len() == 0,
            r.s_next_image_id() == 0,
    {
        let r = TextureCache {
            images: Vec::new(),
            next_image_id: 0,
            images_by_path: Vec::new(),
            glyphs: Vec::new(),
            atlases: TextureAtlasPool::new(),
            id_allocator: TextureIdAllocator::new(),
        };
        proof {
            assert(r.s_paths().len() == 0);
        }
        r
    }

    fn find_image(&self, id: u64) -> (r: Option<usize>)
        ensures
            r matches Some(i) ==> i < self.s_images().len() && self.s_images()[i as int].0 == id
                && s_assoc(self.s_images(), id) == Some(self.s_images()[i as int].1) && (forall|
                j: int,
            | 0 <= j < i ==> (#[trigger] self.s_images()[j]).0 != id),
            r is None ==> s_assoc(self.s_images(), id) is None,
    {
        let mut i: usize = 0;
        while i < self.images.len()
            invariant
                i <= self.s_images().len(),
                forall|j: int| 0 <= j < i ==> (#[trigger] self.s_images()[j]).0 != id,
            decreases self.s_images().len() - i,
        {
            if self.images[i].0 == id {
                proof {
                    lemma_assoc_found(self.s_images(), i as int, id);
                }
                return Some(i);
            }
            i = i + 1;
        }
        proof {
            lemma_assoc_none(self.s_images(), id);
        }
        None
    }

    fn find_glyph(&self, key: &GlyphKey) -> (r: Option<usize>)
        ensures
            r matches Some(i) ==> i < self.s_glyphs().len() && self.s_glyphs()[i as int].0 == *key
                && s_assoc(self.s_glyphs(), *key) == Some(self.s_glyphs()[i as int].1),
            r is None ==> s_assoc(self.s_glyphs(), *key) is None,
    {
        let mut i: usize = 0;
        while i < self.glyphs.len()
            invariant
                i <= self.s_glyphs().len(),
                forall|j: int| 0 <= j < i ==> (#[trigger] self.s_glyphs()[j]).0 != *key,
            decreases self.s_glyphs().len() - i,
        {
            if self.glyphs[i].0 == *key {
                proof {
                    lemma_assoc_found(self.s_glyphs(), i as int, *key);
                }
                return Some(i);
            }
            i = i + 1;
        }
        proof {
            lemma_assoc_none(self.s_glyphs(), *key);
        }
        None
    }

    /// Registers inline image pixels under a fresh id, marked used and not
    /// yet resolved.
    pub fn add_image(&mut self, data: ImageData, mipmap_mode: MipmapMode) -> (r: ImageId)
        requires
            old(self).wf(),
            old(self).s_next_image_id() < u64::MAX,
        ensures
            final(self).wf(),
            r == ImageId(old(self).s_next_image_id()),
            final(self).s_images().len() == old(self).s_images().len() + 1,
            final(self).s_images() == old(self).s_images().push(
                (
                    old(self).s_next_image_id(),
                    ImageEntry {
                        used: true,
                        path: None,
                        data: Some(data),
                        mipmap_mode,
                        texture: None,
                        rect: URect {
                            min: UVec2 { x: 0u32, y: 0u32 },
                            max: UVec2 { x: 0u32, y: 0u32 },
                        },
                        alloc: None,
                        requested_size: data.size,
                        max_size: data.size,
                    },
                ),
            ),
            final(self).s_glyphs() == old(self).s_glyphs(),
            final(self).s_atlases() == old(self).s_atlases(),
            final(self).s_paths() == old(self).s_paths(),
            final(self).s_next_image_id() == old(self).s_next_image_id() + 1,
    {
        let id: u64 = self.next_image_id;
        self.next_image_id = self.next_image_id + 1;
        let requested_size: UVec2 = data.size;
        self.images.push(
            (
                id,
                ImageEntry {
                    used: true,
                    path: None,
                    data: Some(data),
                    mipmap_mode,
                    texture: None,
                    rect: URect {
                        min: UVec2 { x: 0, y: 0 },
                        max: UVec2 { x: 0, y: 0 },
                    },
                    alloc: None,
                    requested_size,
                    max_size: requested_size,
                },
            ),
        );
        ImageId(id)
    }
}

impl TextureAtlasPool {
    /// The atlas in a slot, while one is there.
    pub fn get(&self, j: usize) -> (r: Option<&TextureAtlas>)
        ensures
            r is Some <==> j < self.s_atlases().len() && self.s_atlases()[j as int] is Some,
            r matches Some(a) ==> *a == self.s_atlases()[j as int]->0,
    {
        if j < self.atlases.len() {
            match &self.atlases[j] {
                Some(atlas) => Some(atlas),
                None => None,
            }
        } else {
            None
        }
    }
}

/// Whether two image tables hold the same ids and entries, apart from the
/// usage marks.
pub open spec fn s_images_same_but_used(
    olds: Seq<(u64, ImageEntry)>,
    news: Seq<(u64, ImageEntry)>,
) -> bool {
    &&& news.len() == olds.len()
    &&& forall|i: int|
        0 <= i < olds.len() ==> (#[trigger] news[i]).0 == olds[i].0 && news[i].1 == (ImageEntry {
            used: news[i].1.used,
            ..olds[i].1
        })
}

/// Whether two glyph tables hold the same keys and entries, apart from the
/// usage marks.
pub open spec fn s_glyphs_same_but_used(
    olds: Seq<(GlyphKey, GlyphEntry)>,
    news: Seq<(GlyphKey, GlyphEntry)>,
) -> bool {
    &&& news.len() == olds.len()
    &&& forall|i: int|
        0 <= i < olds.len() ==> (#[trigger] news[i]).0 == olds[i].0 && news[i].1 == (GlyphEntry {
            used: news[i].1.used,
            ..olds[i].1
        })
}

impl TextureCache {
    proof fn lemma_wf_after_used_change(&self, other: &TextureCache)
        requires
            self.wf(),
            s_images_same_but_used(self.s_images(), other.s_images()),
            s_glyphs_same_but_used(self.s_glyphs(), other.s_glyphs()),
            other.s_atlases() == self.s_atlases(),
            other.s_next_image_id() == self.s_next_image_id(),
        ensures
            other.wf(),
    {
        assert forall|i: int|
            0 <= i < other.s_images().len() implies s_alloc_ok(
            other.s_atlases(),
            (#[trigger] other.s_images()[i]).1.alloc,
            other.s_images()[i].1.rect,
        ) by {
            assert(other.s_images()[i].1.alloc == self.s_images()[i].1.alloc);
            assert(other.s_images()[i].1.rect == self.s_images()[i].1.rect);
            assert(s_alloc_ok(
                self.s_atlases(),
                self.s_images()[i].1.alloc,
                self.s_images()[i].1.rect,
            ));
        }
        assert forall|i: int|
            0 <= i < other.s_glyphs().len() implies s_alloc_ok(
            other.s_atlases(),
            (#[trigger] other.s_glyphs()[i]).1.alloc,
            other.s_glyphs()[i].1.rect,
        ) by {
            assert(other.s_glyphs()[i].1.alloc == self.s_glyphs()[i].1.alloc);
            assert(s_alloc_ok(
                self.s_atlases(),
                self.s_glyphs()[i].1.alloc,
                self.s_glyphs()[i].1.rect,
            ));
        }
        assert forall|i1: int, i2: int|
            #![trigger other.s_images()[i1].1.alloc, other.s_images()[i2].1.alloc]
            0 <= i1 < i2 < other.s_images().len() && other.s_images()[i1].1.alloc is Some
                && other.s_images()[i2].1.alloc is Some implies s_pair(
            other.s_images()[i1].1.alloc,
        ) != s_pair(other.s_images()[i2].1.alloc) by {
            assert(other.s_images()[i1].1.alloc == self.s_images()[i1].1.alloc);
            assert(other.s_images()[i2].1.alloc == self.s_images()[i2].1.alloc);
        }
        assert forall|i1: int, i2: int|
            #![trigger other.s_glyphs()[i1].1.alloc, other.s_glyphs()[i2].1.alloc]
            0 <= i1 < i2 < other.s_glyphs().len() && other.s_glyphs()[i1].1.alloc is Some
                && other.s_glyphs()[i2].1.alloc is Some implies s_pair(
            other.s_glyphs()[i1].1.alloc,
        ) != s_pair(other.s_glyphs()[i2].1.alloc) by {
            assert(other.s_glyphs()[i1].1.alloc == self.s_glyphs()[i1].1.alloc);
            assert(other.s_glyphs()[i2].1.alloc == self.s_glyphs()[i2].1.alloc);
        }
        assert forall|i: int, g: int|
            #![trigger other.s_images()[i].1.alloc, other.s_glyphs()[g].1.alloc]
            0 <= i < other.s_images().len() && 0 <= g < other.s_glyphs().len()
                && other.s_images()[i].1.alloc is Some && other.s_glyphs()[g].1.alloc
                is Some implies s_pair(other.s_images()[i].1.alloc) != s_pair(
            other.s_glyphs()[g].1.alloc,
        ) by {
            assert(other.s_images()[i].1.alloc == self.s_images()[i].1.alloc);
            assert(other.s_glyphs()[g].1.alloc == self.s_glyphs()[g].1.alloc);
        }
        assert forall|i1: int, i2: int|
            #![trigger other.s_images()[i1], other.s_images()[i2]]
            0 <= i1 < i2 < other.s_images().len() implies other.s_images()[i1].0
            != other.s_images()[i2].0 by {
            assert(other.s_images()[i1].0 == self.s_images()[i1].0);
            assert(other.s_images()[i2].0 == self.s_images()[i2].0);
        }
        assert forall|i1: int, i2: int|
            #![trigger other.s_glyphs()[i1], other.s_glyphs()[i2]]
            0 <= i1 < i2 < other.s_glyphs().len() implies other.s_glyphs()[i1].0
            != other.s_glyphs()[i2].0 by {
            assert(other.s_glyphs()[i1].0 == self.s_glyphs()[i1].0);
            assert(other.s_glyphs()[i2].0 == self.s_glyphs()[i2].0);
        }
        assert forall|i: int|
            0 <= i < other.s_images().len() implies (#[trigger] other.s_images()[i]).0
            < other.s_next_image_id() by {
            assert(other.s_images()[i].0 == self.s_images()[i].0);
        }
        assert forall|i: int|
            0 <= i < other.s_images().len() && (#[trigger] other.s_images()[i]).1.alloc
                is Some implies other.s_images()[i].1.texture is None by {
            assert(other.s_images()[i].1 == (ImageEntry {
                used: other.s_images()[i].1.used,
                ..self.s_images()[i].1
            }));
        }
        assert forall|i: int|
            0 <= i < other.s_glyphs().len() && (#[trigger] other.s_glyphs()[i]).1.alloc
                is Some implies other.s_glyphs()[i].1.texture is None by {
            assert(other.s_glyphs()[i].1 == (GlyphEntry {
                used: other.s_glyphs()[i].1.used,
                ..self.s_glyphs()[i].1
            }));
        }
    }

    /// Marks an image used this frame; an id the cache does not know is
    /// ignored.
    pub fn mark_image_used(&mut self, id: ImageId)
        requires
            old(self).wf(),
        ensures
            final(self).wf(),
            s_images_same_but_used(old(self).s_images(), final(self).s_images()),
            final(self).s_glyphs() == old(self).s_glyphs(),
            final(self).s_atlases() == old(self).s_atlases(),
            final(self).s_paths() == old(self).s_paths(),
            final(self).s_next_image_id() == old(self).s_next_image_id(),
            final(self).s_image(id) matches Some(e) ==> e.used,
            old(self).s_image(id) is Some <==> final(self).s_image(id) is Some,
    {
        match self.find_image(id.0) {
            Some(i) => {
                self.images[i].1.used = true;
                proof {
                    assert(self.s_images()[i as int].1 == (ImageEntry {
                        used: true,
                        ..old(self).s_images()[i as int].1
                    }));
                    assert forall|j: int|
                        0 <= j < old(self).s_images().len() && j != i
                            implies #[trigger] self.s_images()[j] == old(self).s_images()[j] by {}
                    old(self).lemma_wf_after_used_change(self);
                    assert forall|j: int| 0 <= j < i implies (#[trigger] self.s_images()[j]).0
                        != id.0 by {
                        assert(self.s_images()[j] == old(self).s_images()[j]);
                    }
                    lemma_assoc_found(self.s_images(), i as int, id.0);
                }
            },
            None => {
            },
        }
    }

    /// Marks an image released: unless it is used again before the next
    /// cleanup, it will be evicted there. Replaces destructor-driven
    /// release with an explicit call.
    pub fn release_image(&mut self, id: ImageId)
        requires
            old(self).wf(),
        ensures
            final(self).wf(),
            s_images_same_but_used(old(self).s_images(), final(self).s_images()),
            final(self).s_glyphs() == old(self).s_glyphs(),
            final(self).s_atlases() == old(self).s_atlases(),
            final(self).s_paths() == old(self).s_paths(),
            final(self).s_next_image_id() == old(self).s_next_image_id(),
            final(self).s_image(id) matches Some(e) ==> !e.used,
            old(self).s_image(id) is Some <==> final(self).s_image(id) is Some,
    {
        match self.find_image(id.0) {
            Some(i) => {
                self.images[i].1.used = false;
                proof {
                    assert(self.s_images()[i as int].1 == (ImageEntry {
                        used: false,
                        ..old(self).s_images()[i as int].1
                    }));
                    assert forall|j: int|
                        0 <= j < old(self).s_images().len() && j != i
                            implies #[trigger] self.s_images()[j] == old(self).s_images()[j] by {}
                    old(self).lemma_wf_after_used_change(self);
                    assert forall|j: int| 0 <= j < i implies (#[trigger] self.s_images()[j]).0
                        != id.0 by {
                        assert(self.s_images()[j] == old(self).s_images()[j]);
                    }
                    lemma_assoc_found(self.s_images(), i as int, id.0);
                }
            },
            None => {
            },
        }
    }

    /// Registers a glyph key and marks it used. A key already present is
    /// not allocated or reset again: only its usage mark changes.
    pub fn add_glyph(&mut self, key: GlyphKey)
        requires
            old(self).wf(),
        ensures
            final(self).wf(),
            final(self).s_images() == old(self).s_images(),
            final(self).s_atlases() == old(self).s_atlases(),
            final(self).s_paths() == old(self).s_paths(),
            final(self).s_next_image_id() == old(self).s_next_image_id(),
            old(self).s_glyph(key) is Some ==> s_glyphs_same_but_used(
                old(self).s_glyphs(),
                final(self).s_glyphs(),
            ) && final(self).s_glyph(key) == Some(
                GlyphEntry { used: true, ..old(self).s_glyph(key)->0 },
            ),
            forall|k2: GlyphKey|
                k2 != key ==> #[trigger] final(self).s_glyph(k2) == old(self).s_glyph(k2),
            old(self).s_glyph(key) is None ==> final(self).s_glyphs() == old(self).s_glyphs().push(
                (
                    key,
                    GlyphEntry {
                        used: true,
                        rect: URect {
                            min: UVec2 { x: 0u32, y: 0u32 },
                            max: UVec2 { x: 0u32, y: 0u32 },
                        },
                        alloc: None,
                        texture: None,
                        format: ImageFormat::Gray8,
                        offset: Vec2 { x: 0i64, y: 0i64 },
                        is_empty: false,
                    },
                ),
            ),
            final(self).s_glyph(key) matches Some(e) && e.used,
    {
        match self.find_glyph(&key) {
            Some(i) => {
                self.glyphs[i].1.used = true;
                proof {
                    assert(self.s_glyphs()[i as int].1 == (GlyphEntry {
                        used: true,
                        ..old(self).s_glyphs()[i as int].1
                    }));
                    assert forall|j: int|
                        0 <= j < old(self).s_glyphs().len() && j != i
                            implies #[trigger] self.s_glyphs()[j] == old(self).s_glyphs()[j] by {}
                    old(self).lemma_wf_after_used_change(self);
                    assert forall|j: int| 0 <= j < i implies (#[trigger] self.s_glyphs()[j]).0
                        != key by {
                        assert(self.s_glyphs()[j] == old(self).s_glyphs()[j]);
                    }
                    lemma_assoc_found(self.s_glyphs(), i as int, key);
                    lemma_assoc_found(old(self).s_glyphs(), i as int, key);
                    assert(self.s_glyphs() =~= old(self).s_glyphs().update(
                        i as int,
                        (key, GlyphEntry { used: true, ..old(self).s_glyphs()[i as int].1 }),
                    ));
                    assert forall|k2: GlyphKey| k2 != key implies #[trigger] self.s_glyph(k2)
                        == old(self).s_glyph(k2) by {
                        lemma_assoc_update_other(
                            old(self).s_glyphs(),
                            i as int,
                            GlyphEntry { used: true, ..old(self).s_glyphs()[i as int].1 },
                            k2,
                        );
                    }
                }
            },
            None => {
                self.glyphs.push(
                    (
                        key,
                        GlyphEntry {
                            used: true,
                            rect: URect {
                                min: UVec2 { x: 0, y: 0 },
                                max: UVec2 { x: 0, y: 0 },
                            },
                            alloc: None,
                            texture: None,
                            format: ImageFormat::Gray8,
                            offset: Vec2 { x: 0, y: 0 },
                            is_empty: false,
                        },
                    ),
                );
                proof {
                    let n = old(self).s_glyphs().len() as int;
                    assert(self.s_glyphs()[n].0 == key);
                    assert forall|j: int| 0 <= j < n implies (#[trigger] self.s_glyphs()[j]).0
                        != key by {
                        assert(self.s_glyphs()[j] == old(self).s_glyphs()[j]);
                        if old(self).s_glyphs()[j].0 == key {
                            lemma_assoc_found(old(self).s_glyphs(), j, key);
                        }
                    }
                    lemma_assoc_found(self.s_glyphs(), n, key);
                    assert forall|k2: GlyphKey| k2 != key implies #[trigger] self.s_glyph(k2)
                        == old(self).s_glyph(k2) by {
                        lemma_assoc_push_other(
                            old(self).s_glyphs(),
                            self.s_glyphs()[n],
                            k2,
                        );
                        assert(self.s_glyphs() == old(self).s_glyphs().push(self.s_glyphs()[n]));
                    }
                }
            },
        }
    }

    /// Where a resolved image lives now, or `None` while it is not
    /// resolved (the caller skips drawing it).
    pub open spec fn s_get_image(&self, id: ImageId) -> Option<AllocatedImage> {
        match s_assoc(self.s_images(), id.0) {
            None => None,
            Some(e) => match e.texture {
                Some(t) => Some(
                    AllocatedImage { texture: t, texture_size: e.rect.max, rect: e.rect },
                ),
                None => match e.alloc {
                    Some(pair) => if pair.0 < self.s_atlases().len() && self.s_atlases()[pair.0
                        as int] is Some {
                        Some(
                            AllocatedImage {
                                texture: self.s_atlases()[pair.0 as int]->0.texture,
                                texture_size: self.s_atlases()[pair.0 as int]->0.size,
                                rect: e.rect,
                            },
                        )
                    } else {
                        None
                    },
                    None => None,
                },
            },
        }
    }

    /// Where a resolved glyph lives now, or `None` while it is not
    /// resolved or renders nothing.
    pub open spec fn s_get_glyph(&self, key: GlyphKey) -> Option<AllocatedGlyph> {
        match s_assoc(self.s_glyphs(), key) {
            None => None,
            Some(e) => if e.texture is Some {
                Some(
                    AllocatedGlyph {
                        texture: e.texture->0,
                        format: e.format,
                        texture_size: e.rect.max,
                        rect: e.rect,
                        offset: e.offset,
                    },
                )
            } else {
                match e.alloc {
                Some(pair) => if pair.0 < self.s_atlases().len() && self.s_atlases()[pair.0
                    as int] is Some {
                    Some(
                        AllocatedGlyph {
                            texture: self.s_atlases()[pair.0 as int]->0.texture,
                            format: self.s_atlases()[pair.0 as int]->0.format,
                            texture_size: self.s_atlases()[pair.0 as int]->0.size,
                            rect: e.rect,
                            offset: e.offset,
                        },
                    )
                } else {
                    None
                },
                None => None,
            }
            },
        }
    }

    /// Looks a resolved image up; `None` asks the caller to skip it.
    pub fn get_image(&self, id: ImageId) -> (r: Option<AllocatedImage>)
        ensures
            r == self.s_get_image(id),
    {
        match self.find_image(id.0) {
            Some(i) => {
                let entry = &self.images[i].1;
                match entry.texture {
                    Some(t) => Some(
                        AllocatedImage { texture: t, texture_size: entry.rect.max, rect: entry.rect },
                    ),
                    None => match entry.alloc {
                        Some((j, _aid)) => match self.atlases.get(j) {
                            Some(atlas) => Some(
                                AllocatedImage {
                                    texture: atlas.texture,
                                    texture_size: atlas.size,
                                    rect: entry.rect,
                                },
                            ),
                            None => None,
                        },
                        None => None,
                    },
                }
            },
            None => None,
        }
    }

    /// Looks a resolved glyph up; `None` asks the caller to skip it.
    pub fn get_glyph(&self, key: &GlyphKey) -> (r: Option<AllocatedGlyph>)
        ensures
            r == self.s_get_glyph(*key),
    {
        match self.find_glyph(key) {
            Some(i) => {
                let entry = &self.glyphs[i].1;
                match entry.texture {
                    Some(t) => Some(
                        AllocatedGlyph {
                            texture: t,
                            format: entry.format,
                            texture_size: entry.rect.max,
                            rect: entry.rect,
                            offset: entry.offset,
                        },
                    ),
                    None => match entry.alloc {
                        Some((j, _aid)) => match self.atlases.get(j) {
                            Some(atlas) => Some(
                                AllocatedGlyph {
                                    texture: atlas.texture,
                                    format: atlas.format,
                                    texture_size: atlas.size,
                                    rect: entry.rect,
                                    offset: entry.offset,
                                },
                            ),
                            None => None,
                        },
                        None => None,
                    },
                }
            },
            None => None,
        }
    }
}

/// An entry as cleanup keeps it: the usage mark cleared for the next frame.
pub open spec fn s_reset_image(e: ImageEntry) -> ImageEntry {
    ImageEntry { used: false, ..e }
}

pub open spec fn s_reset_glyph(e: GlyphEntry) -> GlyphEntry {
    GlyphEntry { used: false, ..e }
}

impl TextureCache {
    /// The pool part of the invariant alone.
    pub closed spec fn wf_pool_only(&self) -> bool {
        self.atlases.wf()
    }

    /// Clears the usage mark of the image entry at `i`.
    fn reset_image_mark_at(&mut self, i: usize)
        requires
            old(self).wf(),
            i < old(self).s_images().len(),
        ensures
            final(self).wf(),
            final(self).s_images() == old(self).s_images().update(
                i as int,
                (old(self).s_images()[i as int].0, s_reset_image(old(self).s_images()[i as int].1)),
            ),
            final(self).s_glyphs() == old(self).s_glyphs(),
            final(self).s_atlases() == old(self).s_atlases(),
            final(self).s_paths() == old(self).s_paths(),
            final(self).s_next_image_id() == old(self).s_next_image_id(),
    {
        self.images[i].1.used = false;
        proof {
            assert(self.s_images() =~= old(self).s_images().update(
                i as int,
                (old(self).s_images()[i as int].0, s_reset_image(old(self).s_images()[i as int].1)),
            ));
            assert(s_images_same_but_used(old(self).s_images(), self.s_images())) by {
                assert forall|m: int|
                    0 <= m < old(self).s_images().len() implies (#[trigger] self.s_images()[m]).0
                        == old(self).s_images()[m].0 && self.s_images()[m].1 == (ImageEntry {
                        used: self.s_images()[m].1.used,
                        ..old(self).s_images()[m].1
                    }) by {
                    if m != i {
                        assert(self.s_images()[m] == old(self).s_images()[m]);
                    }
                }
            }
            old(self).lemma_wf_after_used_change(self);
        }
    }

    /// Clears the usage mark of the glyph entry at `g`.
    fn reset_glyph_mark_at(&mut self, g: usize)
        requires
            old(self).wf(),
            g < old(self).s_glyphs().len(),
        ensures
            final(self).wf(),
            final(self).s_glyphs() == old(self).s_glyphs().update(
                g as int,
                (old(self).s_glyphs()[g as int].0, s_reset_glyph(old(self).s_glyphs()[g as int].1)),
            ),
            final(self).s_images() == old(self).s_images(),
            final(self).s_atlases() == old(self).s_atlases(),
            final(self).s_paths() == old(self).s_paths(),
            final(self).s_next_image_id() == old(self).s_next_image_id(),
    {
        self.glyphs[g].1.used = false;
        proof {
            assert(self.s_glyphs() =~= old(self).s_glyphs().update(
                g as int,
                (old(self).s_glyphs()[g as int].0, s_reset_glyph(old(self).s_glyphs()[g as int].1)),
            ));
            assert(s_glyphs_same_but_used(old(self).s_glyphs(), self.s_glyphs())) by {
                assert forall|m: int|
                    0 <= m < old(self).s_glyphs().len() implies (#[trigger] self.s_glyphs()[m]).0
                        == old(self).s_glyphs()[m].0 && self.s_glyphs()[m].1 == (GlyphEntry {
                        used: self.s_glyphs()[m].1.used,
                        ..old(self).s_glyphs()[m].1
                    }) by {
                    if m != g {
                        assert(self.s_glyphs()[m] == old(self).s_glyphs()[m]);
                    }
                }
            }
            assert(s_images_same_but_used(old(self).s_images(), self.s_images())) by {
                assert forall|m: int|
                    0 <= m < old(self).s_images().len() implies (#[trigger] self.s_images()[m]).0
                        == old(self).s_images()[m].0 && self.s_images()[m].1 == (ImageEntry {
                        used: self.s_images()[m].1.used,
                        ..old(self).s_images()[m].1
                    }) by {}
            }
            old(self).lemma_wf_after_used_change(self);
        }
    }

    /// Removes the image entry at `i`, freeing its atlas region or
    /// queueing its dedicated texture for destruction.
    #[verifier::rlimit(60)]
    fn evict_image_at(&mut self, i: usize, commands: &mut Vec<TextureCommand>)
        requires
            old(self).wf(),
            i < old(self).s_images().len(),
        ensures
            final(self).wf(),
            final(self).s_images() == old(self).s_images().remove(i as int),
            final(self).s_glyphs() == old(self).s_glyphs(),
            final(self).s_next_image_id() == old(self).s_next_image_id(),
            old(commands)@.is_prefix_of(final(commands)@),
            forall|pv: (Seq<char>, u64)|
                final(self).s_paths().contains(pv) ==> old(self).s_paths().contains(pv),
            forall|p: int|
                0 <= p < final(self).s_paths().len() ==> (#[trigger] final(self).s_paths()[p]).1
                    != old(self).s_images()[i as int].0,
            old(self).s_images()[i as int].1.texture matches Some(t) ==> (old(self).s_images()[i
                as int].1.alloc is None ==> final(commands)@ == old(commands)@.push(
                TextureCommand::Free { id: t },
            )),
            final(self).s_atlases().len() == old(self).s_atlases().len(),
            forall|j: int|
                0 <= j < old(self).s_atlases().len() && Some(j) != alloc_slot_of(
                    old(self).s_images()[i as int].1.alloc,
                ) ==> final(self).s_atlases()[j] == (#[trigger] old(self).s_atlases()[j]),
            old(self).s_images()[i as int].1.alloc matches Some(pair) ==> final(self).s_atlases()[pair.0 as int] is Some && !final(self).s_atlases()[pair.0 as int]->0.regions().contains_key(packer_id(pair.1)) && final(self).s_atlases()[pair.0
                as int]->0.texture == old(self).s_atlases()[pair.0 as int]->0.texture && final(self).s_atlases()[pair.0 as int]->0.size == old(self).s_atlases()[pair.0
                as int]->0.size && (
            forall|k: int|
                #[trigger] final(self).s_atlases()[pair.0 as int]->0.regions().contains_key(k)
                    ==> old(self).s_atlases()[pair.0 as int]->0.regions().contains_key(k) && final(self).s_atlases()[pair.0 as int]->0.regions()[k] == old(self).s_atlases()[pair.0
                    as int]->0.regions()[k]),
    {
        let evicted_id: u64 = self.images[i].0;
        let mut p: usize = 0;
        let ghost paths0 = self.s_paths();
        while p < self.images_by_path.len()
            invariant
                old(self).wf(),
                *self == (TextureCache { images_by_path: self.images_by_path, ..*old(self) }),
                p <= self.s_paths().len(),
                evicted_id == old(self).s_images()[i as int].0,
                i < old(self).s_images().len(),
                forall|m: int| 0 <= m < p ==> (#[trigger] self.s_paths()[m]).1 != evicted_id,
                forall|pv: (Seq<char>, u64)|
                    self.s_paths().contains(pv) ==> old(self).s_paths().contains(pv),
            decreases self.s_paths().len() - p,
        {
            if self.images_by_path[p].1 == evicted_id {
                let ghost mid_paths = self.s_paths();
                let removed_path = self.images_by_path.remove(p);
                proof {
                    assert(self.s_paths() =~= mid_paths.remove(p as int));
                    assert forall|m: int| 0 <= m < p implies #[trigger] self.s_paths()[m]
                        == mid_paths[m] by {}
                    assert forall|pv: (Seq<char>, u64)|
                        self.s_paths().contains(pv) implies old(self).s_paths().contains(
                        pv,
                    ) by {
                        let m = choose|m: int|
                            0 <= m < self.s_paths().len() && self.s_paths()[m] == pv;
                        if m < p {
                            assert(mid_paths[m] == pv);
                        } else {
                            assert(mid_paths[m + 1] == pv);
                        }
                        assert(mid_paths.contains(pv));
                    }
                }
            } else {
                p = p + 1;
            }
        }
        proof {
            assert(self.wf());
        }
        let entry_alloc: Option<(usize, AllocId)> = self.images[i].1.alloc;
        let entry_texture: Option<TextureId> = self.images[i].1.texture;
        let ghost pre = *self;
        match entry_alloc {
            Some((aj, aid)) => {
                proof {
                    assert(s_alloc_ok(
                        pre.s_atlases(),
                        pre.s_images()[i as int].1.alloc,
                        pre.s_images()[i as int].1.rect,
                    ));
                }
                self.atlases.free(aj, aid);
                proof {
                    assert forall|m: int|
                        0 <= m < self.s_images().len() && m != i implies s_alloc_ok(
                        self.s_atlases(),
                        (#[trigger] self.s_images()[m]).1.alloc,
                        self.s_images()[m].1.rect,
                    ) by {
                        if self.s_images()[m].1.alloc is Some {
                            let p = self.s_images()[m].1.alloc->0;
                            assert(s_alloc_ok(
                                pre.s_atlases(),
                                pre.s_images()[m].1.alloc,
                                pre.s_images()[m].1.rect,
                            ));
                            if p.0 == aj {
                                if m < i {
                                    assert(s_pair(pre.s_images()[m].1.alloc) != s_pair(
                                        pre.s_images()[i as int].1.alloc,
                                    ));
                                } else {
                                    assert(s_pair(pre.s_images()[i as int].1.alloc) != s_pair(
                                        pre.s_images()[m].1.alloc,
                                    ));
                                }
                                assert(packer_id(p.1) != packer_id(aid));
                            }
                        }
                    }
                    assert forall|m: int|
                        0 <= m < self.s_glyphs().len() implies s_alloc_ok(
                        self.s_atlases(),
                        (#[trigger] self.s_glyphs()[m]).1.alloc,
                        self.s_glyphs()[m].1.rect,
                    ) by {
                        if self.s_glyphs()[m].1.alloc is Some {
                            let p = self.s_glyphs()[m].1.alloc->0;
                            assert(s_alloc_ok(
                                pre.s_atlases(),
                                pre.s_glyphs()[m].1.alloc,
                                pre.s_glyphs()[m].1.rect,
                            ));
                            if p.0 == aj {
                                assert(s_pair(pre.s_images()[i as int].1.alloc) != s_pair(
                                    pre.s_glyphs()[m].1.alloc,
                                ));
                                assert(packer_id(p.1) != packer_id(aid));
                            }
                        }
                    }
                }
            },
            None => {
                match entry_texture {
                    Some(tid) => {
                        commands.push(TextureCommand::Free { id: tid });
                    },
                    None => {
                    },
                }
            },
        }
        let ghost mid = *self;
        let removed = self.images.remove(i);
        proof {
            assert(self.s_images() =~= mid.s_images().remove(i as int));
            let olds2 = mid.s_images();
            let news2 = self.s_images();
            assert forall|m: int| 0 <= m < news2.len() implies #[trigger] news2[m] == (if m
                < i {
                olds2[m]
            } else {
                olds2[m + 1]
            }) by {}
            assert forall|i1: int, i2: int|
                #![trigger news2[i1], news2[i2]]
                0 <= i1 < i2 < news2.len() implies news2[i1].0 != news2[i2].0 by {
                let j1 = if i1 < i { i1 } else { i1 + 1 };
                let j2 = if i2 < i { i2 } else { i2 + 1 };
                assert(news2[i1] == olds2[j1] && news2[i2] == olds2[j2]);
            }
            assert forall|m: int| 0 <= m < news2.len() implies (#[trigger] news2[m]).0
                < self.s_next_image_id() by {
                let j = if m < i { m } else { m + 1 };
                assert(news2[m] == olds2[j]);
            }
            assert forall|m: int|
                0 <= m < news2.len() implies s_alloc_ok(
                self.s_atlases(),
                (#[trigger] news2[m]).1.alloc,
                news2[m].1.rect,
            ) && (news2[m].1.alloc is Some ==> news2[m].1.texture is None) by {
                let j = if m < i { m } else { m + 1 };
                assert(news2[m] == olds2[j]);
                assert(j != i ==> s_alloc_ok(
                    self.s_atlases(),
                    olds2[j].1.alloc,
                    olds2[j].1.rect,
                ));
            }
            assert forall|i1: int, i2: int|
                #![trigger news2[i1].1.alloc, news2[i2].1.alloc]
                0 <= i1 < i2 < news2.len() && news2[i1].1.alloc is Some && news2[i2].1.alloc
                    is Some implies s_pair(news2[i1].1.alloc) != s_pair(news2[i2].1.alloc) by {
                let j1 = if i1 < i { i1 } else { i1 + 1 };
                let j2 = if i2 < i { i2 } else { i2 + 1 };
                assert(news2[i1] == olds2[j1] && news2[i2] == olds2[j2]);
                assert(s_pair(olds2[j1].1.alloc) != s_pair(olds2[j2].1.alloc));
            }
            assert forall|m: int, g: int|
                #![trigger news2[m].1.alloc, self.s_glyphs()[g].1.alloc]
                0 <= m < news2.len() && 0 <= g < self.s_glyphs().len() && news2[m].1.alloc
                    is Some && self.s_glyphs()[g].1.alloc is Some implies s_pair(
                news2[m].1.alloc,
            ) != s_pair(self.s_glyphs()[g].1.alloc) by {
                let j = if m < i { m } else { m + 1 };
                assert(news2[m] == olds2[j]);
                assert(s_pair(olds2[j].1.alloc) != s_pair(mid.s_glyphs()[g].1.alloc));
            }
        }
    }

    /// Removes the glyph entry at `g`, freeing its atlas region.
    #[verifier::rlimit(60)]
    fn evict_glyph_at(&mut self, g: usize, commands: &mut Vec<TextureCommand>)
        requires
            old(self).wf(),
            g < old(self).s_glyphs().len(),
        ensures
            final(self).wf(),
            final(self).s_glyphs() == old(self).s_glyphs().remove(g as int),
            final(self).s_images() == old(self).s_images(),
            final(self).s_paths() == old(self).s_paths(),
            final(self).s_next_image_id() == old(self).s_next_image_id(),
            final(self).s_atlases().len() == old(self).s_atlases().len(),
            old(commands)@.is_prefix_of(final(commands)@),
            old(self).s_glyphs()[g as int].1.texture matches Some(t) ==> (old(self).s_glyphs()[g
                as int].1.alloc is None ==> final(commands)@ == old(commands)@.push(
                TextureCommand::Free { id: t },
            )),
            forall|j: int|
                0 <= j < old(self).s_atlases().len() && Some(j) != alloc_slot_of(
                    old(self).s_glyphs()[g as int].1.alloc,
                ) ==> final(self).s_atlases()[j] == (#[trigger] old(self).s_atlases()[j]),
            old(self).s_glyphs()[g as int].1.alloc matches Some(pair) ==> final(self).s_atlases()[pair.0 as int] is Some && !final(self).s_atlases()[pair.0 as int]->0.regions().contains_key(packer_id(pair.1)) && final(self).s_atlases()[pair.0
                as int]->0.texture == old(self).s_atlases()[pair.0 as int]->0.texture && final(self).s_atlases()[pair.0 as int]->0.size == old(self).s_atlases()[pair.0
                as int]->0.size && (
            forall|k: int|
                #[trigger] final(self).s_atlases()[pair.0 as int]->0.regions().contains_key(k)
                    ==> old(self).s_atlases()[pair.0 as int]->0.regions().contains_key(k) && final(self).s_atlases()[pair.0 as int]->0.regions()[k] == old(self).s_atlases()[pair.0
                    as int]->0.regions()[k]),
    {
        let entry_alloc: Option<(usize, AllocId)> = self.glyphs[g].1.alloc;
        let entry_texture: Option<TextureId> = self.glyphs[g].1.texture;
        let ghost pre = *self;
        match entry_alloc {
            Some((aj, aid)) => {
                proof {
                    assert(s_alloc_ok(
                        pre.s_atlases(),
                        pre.s_glyphs()[g as int].1.alloc,
                        pre.s_glyphs()[g as int].1.rect,
                    ));
                }
                self.atlases.free(aj, aid);
                proof {
                    assert forall|m: int|
                        0 <= m < self.s_images().len() implies s_alloc_ok(
                        self.s_atlases(),
                        (#[trigger] self.s_images()[m]).1.alloc,
                        self.s_images()[m].1.rect,
                    ) by {
                        if self.s_images()[m].1.alloc is Some {
                            let p = self.s_images()[m].1.alloc->0;
                            assert(s_alloc_ok(
                                pre.s_atlases(),
                                pre.s_images()[m].1.alloc,
                                pre.s_images()[m].1.rect,
                            ));
                            if p.0 == aj {
                                assert(s_pair(pre.s_images()[m].1.alloc) != s_pair(
                                    pre.s_glyphs()[g as int].1.alloc,
                                ));
                                assert(packer_id(p.1) != packer_id(aid));
                            }
                        }
                    }
                    assert forall|m: int|
                        0 <= m < self.s_glyphs().len() && m != g implies s_alloc_ok(
                        self.s_atlases(),
                        (#[trigger] self.s_glyphs()[m]).1.alloc,
                        self.s_glyphs()[m].1.rect,
                    ) by {
                        if self.s_glyphs()[m].1.alloc is Some {
                            let p = self.s_glyphs()[m].1.alloc->0;
                            assert(s_alloc_ok(
                                pre.s_atlases(),
                                pre.s_glyphs()[m].1.alloc,
                                pre.s_glyphs()[m].1.rect,
                            ));
                            if p.0 == aj {
                                if m < g {
                                    assert(s_pair(pre.s_glyphs()[m].1.alloc) != s_pair(
                                        pre.s_glyphs()[g as int].1.alloc,
                                    ));
                                } else {
                                    assert(s_pair(pre.s_glyphs()[g as int].1.alloc) != s_pair(
                                        pre.s_glyphs()[m].1.alloc,
                                    ));
                                }
                                assert(packer_id(p.1) != packer_id(aid));
                            }
                        }
                    }
                }
            },
            None => {
                match entry_texture {
                    Some(tid) => {
                        commands.push(TextureCommand::Free { id: tid });
                    },
                    None => {
                    },
                }
            },
        }
        let ghost mid = *self;
        let removed = self.glyphs.remove(g);
        proof {
            assert(self.s_glyphs() =~= mid.s_glyphs().remove(g as int));
            let olds2 = mid.s_glyphs();
            let news2 = self.s_glyphs();
            assert forall|m: int| 0 <= m < news2.len() implies #[trigger] news2[m] == (if m
                < g {
                olds2[m]
            } else {
                olds2[m + 1]
            }) by {}
            assert forall|i1: int, i2: int|
                #![trigger news2[i1], news2[i2]]
                0 <= i1 < i2 < news2.len() implies news2[i1].0 != news2[i2].0 by {
                let j1 = if i1 < g { i1 } else { i1 + 1 };
                let j2 = if i2 < g { i2 } else { i2 + 1 };
                assert(news2[i1] == olds2[j1] && news2[i2] == olds2[j2]);
            }
            assert forall|m: int|
                0 <= m < news2.len() implies s_alloc_ok(
                self.s_atlases(),
                (#[trigger] news2[m]).1.alloc,
                news2[m].1.rect,
            ) by {
                let j = if m < g { m } else { m + 1 };
                assert(news2[m] == olds2[j]);
                assert(j != g ==> s_alloc_ok(
                    self.s_atlases(),
                    olds2[j].1.alloc,
                    olds2[j].1.rect,
                ));
            }
            assert forall|i1: int, i2: int|
                #![trigger news2[i1].1.alloc, news2[i2].1.alloc]
                0 <= i1 < i2 < news2.len() && news2[i1].1.alloc is Some && news2[i2].1.alloc
                    is Some implies s_pair(news2[i1].1.alloc) != s_pair(news2[i2].1.alloc) by {
                let j1 = if i1 < g { i1 } else { i1 + 1 };
                let j2 = if i2 < g { i2 } else { i2 + 1 };
                assert(news2[i1] == olds2[j1] && news2[i2] == olds2[j2]);
                assert(s_pair(olds2[j1].1.alloc) != s_pair(olds2[j2].1.alloc));
            }
            assert forall|m: int, gg: int|
                #![trigger self.s_images()[m].1.alloc, news2[gg].1.alloc]
                0 <= m < self.s_images().len() && 0 <= gg < news2.len()
                    && self.s_images()[m].1.alloc is Some && news2[gg].1.alloc
                    is Some implies s_pair(self.s_images()[m].1.alloc) != s_pair(
                news2[gg].1.alloc,
            ) by {
                let j = if gg < g { gg } else { gg + 1 };
                assert(news2[gg] == olds2[j]);
                assert(s_pair(mid.s_images()[m].1.alloc) != s_pair(olds2[j].1.alloc));
            }
            assert forall|m: int|
                0 <= m < news2.len() && (#[trigger] news2[m]).1.alloc is Some implies news2[m
                ].1.texture is None by {
                let j = if m < g { m } else { m + 1 };
                assert(news2[m] == olds2[j]);
            }
        }
    }

    /// Evicts every entry not marked used since the last cleanup: a kept
    /// entry survives exactly as it was, mark cleared; an evicted one frees
    /// its atlas region or queues its dedicated texture's destruction, and
    /// its path mapping is erased. Afterwards empty atlases are destroyed.
    /// Run once per frame, after batching.
    #[verifier::rlimit(100)]
    #[verifier::spinoff_prover]
    pub fn cleanup(&mut self, commands: &mut Vec<TextureCommand>)
        requires
            old(self).wf(),
        ensures
            final(self).wf(),
            old(commands)@.is_prefix_of(final(commands)@),
            forall|i: int|
                0 <= i < final(self).s_images().len() ==> !(#[trigger] final(self).s_images()[i]).1.used,
            forall|i: int|
                0 <= i < final(self).s_glyphs().len() ==> !(#[trigger] final(self).s_glyphs()[i]).1.used,
            forall|jj: int|
                0 <= jj < old(self).s_images().len() && (#[trigger] old(self).s_images()[jj]).1.used ==> exists|i: int|
                    0 <= i < final(self).s_images().len() && final(self).s_images()[i] == (
                    old(self).s_images()[jj].0,
                    s_reset_image(old(self).s_images()[jj].1),
                ),
            forall|jj: int, i: int|
                0 <= jj < old(self).s_images().len() && !(#[trigger] old(self).s_images()[jj]).1.used && 0 <= i < final(self).s_images().len() ==> (
                #[trigger] final(self).s_images()[i]).0 != old(self).s_images()[jj].0,
            forall|jj: int|
                0 <= jj < old(self).s_glyphs().len() && (#[trigger] old(self).s_glyphs()[jj]).1.used ==> exists|i: int|
                    0 <= i < final(self).s_glyphs().len() && final(self).s_glyphs()[i] == (
                    old(self).s_glyphs()[jj].0,
                    s_reset_glyph(old(self).s_glyphs()[jj].1),
                ),
            forall|jj: int, i: int|
                0 <= jj < old(self).s_glyphs().len() && !(#[trigger] old(self).s_glyphs()[jj]).1.used && 0 <= i < final(self).s_glyphs().len() ==> (
                #[trigger] final(self).s_glyphs()[i]).0 != old(self).s_glyphs()[jj].0,
            forall|jj: int, p: int|
                0 <= jj < old(self).s_images().len() && !(#[trigger] old(self).s_images()[jj]).1.used && 0 <= p < final(self).s_paths().len() ==> (
                #[trigger] final(self).s_paths()[p]).1 != old(self).s_images()[jj].0,
            forall|pv: (Seq<char>, u64)|
                final(self).s_paths().contains(pv) ==> old(self).s_paths().contains(pv),
            forall|jj: int|
                0 <= jj < old(self).s_images().len() && !(#[trigger] old(self).s_images()[jj]).1.used && old(self).s_images()[jj].1.alloc is Some ==> {
                    let pair = old(self).s_images()[jj].1.alloc->0;
                    final(self).s_atlases()[pair.0 as int] is None || !final(self).s_atlases()[pair.0 as int]->0.regions().contains_key(packer_id(pair.1))
                },
            forall|jj: int|
                0 <= jj < old(self).s_glyphs().len() && !(#[trigger] old(self).s_glyphs()[jj]).1.used && old(self).s_glyphs()[jj].1.alloc is Some ==> {
                    let pair = old(self).s_glyphs()[jj].1.alloc->0;
                    final(self).s_atlases()[pair.0 as int] is None || !final(self).s_atlases()[pair.0 as int]->0.regions().contains_key(packer_id(pair.1))
                },
            forall|jj: int|
                0 <= jj < old(self).s_images().len() && !(#[trigger] old(self).s_images()[jj]).1.used && old(self).s_images()[jj].1.alloc is None && old(
                    self,
                ).s_images()[jj].1.texture is Some ==> exists|ci: int|
                    old(commands)@.len() <= ci < final(commands)@.len() && final(commands)@[ci]
                        == (TextureCommand::Free {
                        id: old(self).s_images()[jj].1.texture->0,
                    }),
            forall|jj: int|
                0 <= jj < old(self).s_glyphs().len() && !(#[trigger] old(self).s_glyphs()[jj]).1.used && old(self).s_glyphs()[jj].1.alloc is None && old(
                    self,
                ).s_glyphs()[jj].1.texture is Some ==> exists|ci: int|
                    old(commands)@.len() <= ci < final(commands)@.len() && final(commands)@[ci]
                        == (TextureCommand::Free {
                        id: old(self).s_glyphs()[jj].1.texture->0,
                    }),
            final(self).s_next_image_id() == old(self).s_next_image_id(),
    {
        let mut i: usize = 0;
        let ghost olds = old(self).s_images();
        let ghost oldg = old(self).s_glyphs();
        let ghost k: int = 0;
        while i < self.images.len()
            invariant
                self.wf(),
                i <= self.s_images().len(),
                0 <= k <= olds.len(),
                self.s_glyphs() == oldg,
                self.s_next_image_id() == old(self).s_next_image_id(),
                self.s_images().skip(i as int) =~= olds.skip(k),
                olds == old(self).s_images(),
                oldg == old(self).s_glyphs(),
                old(self).wf(),
                old(commands)@.is_prefix_of(commands@),
                self.s_atlases().len() == old(self).s_atlases().len(),
                forall|j: int|
                    0 <= j < old(self).s_atlases().len() && (#[trigger] old(self).s_atlases()[j]) is Some ==> self.s_atlases()[j] is Some
                        && self.s_atlases()[j]->0.texture == old(self).s_atlases()[j]->0.texture
                        && (forall|kk: int|
                        self.s_atlases()[j]->0.regions().contains_key(kk) ==> old(self).s_atlases()[j]->0.regions().contains_key(kk)),
                forall|j: int|
                    0 <= j < old(self).s_atlases().len() && (#[trigger] old(self).s_atlases()[j]) is None ==> self.s_atlases()[j] is None,
                forall|m: int| 0 <= m < i ==> !(#[trigger] self.s_images()[m]).1.used,
                forall|jj: int|
                    0 <= jj < k && (#[trigger] olds[jj]).1.used ==> exists|m: int|
                        0 <= m < i && self.s_images()[m] == (
                        olds[jj].0,
                        s_reset_image(olds[jj].1),
                    ),
                forall|jj: int, m: int|
                    0 <= jj < k && !(#[trigger] olds[jj]).1.used && 0 <= m < i ==> (
                    #[trigger] self.s_images()[m]).0 != olds[jj].0,
                forall|jj: int, p: int|
                    0 <= jj < k && !(#[trigger] olds[jj]).1.used && 0 <= p
                        < self.s_paths().len() ==> (#[trigger] self.s_paths()[p]).1
                        != olds[jj].0,
                forall|pv: (Seq<char>, u64)|
                    self.s_paths().contains(pv) ==> old(self).s_paths().contains(pv),
                forall|jj: int|
                    0 <= jj < k && !(#[trigger] olds[jj]).1.used && olds[jj].1.alloc is Some
                        ==> {
                        let pair = olds[jj].1.alloc->0;
                        !self.s_atlases()[pair.0 as int]->0.regions().contains_key(
                            packer_id(pair.1),
                        )
                    },
                forall|jj: int|
                    0 <= jj < k && !(#[trigger] olds[jj]).1.used && olds[jj].1.alloc is None
                        && olds[jj].1.texture is Some ==> exists|ci: int|
                        old(commands)@.len() <= ci < commands@.len() && commands@[ci]
                            == (TextureCommand::Free { id: olds[jj].1.texture->0 }),
            decreases self.s_images().len() - i,
        {
            let ghost pre = *self;
            let ghost cmds_pre = commands@;
            proof {
                let a = pre.s_images().skip(i as int);
                let b = olds.skip(k);
                assert(a.len() == b.len());
                assert(k < olds.len());
                assert(a[0] == pre.s_images()[i as int]);
                assert(b[0] == olds[k]);
                assert(pre.s_images()[i as int] == olds[k]);
            }
            if self.images[i].1.used {
                self.reset_image_mark_at(i);
                proof {
                    assert(self.s_images()[i as int] == (olds[k].0, s_reset_image(olds[k].1)));
                    assert forall|m: int|
                        0 <= m < self.s_images().len() && m != i
                            implies #[trigger] self.s_images()[m] == pre.s_images()[m] by {}
                    assert forall|m: int|
                        0 <= m < self.s_images().len() - (i + 1) implies #[trigger] self.s_images().skip(i + 1)[m] == olds.skip(k + 1)[m] by {
                        assert(self.s_images()[i + 1 + m] == pre.s_images()[i + 1 + m]);
                        assert(pre.s_images()[i + 1 + m] == pre.s_images().skip(i as int)[1 + m]);
                        assert(pre.s_images().skip(i as int)[1 + m] == olds.skip(k)[1 + m]);
                        assert(olds.skip(k)[1 + m] == olds[k + 1 + m]);
                        assert(olds.skip(k + 1)[m] == olds[k + 1 + m]);
                    }
                    assert(self.s_images().skip(i + 1) =~= olds.skip(k + 1));
                    assert(self.s_paths() == pre.s_paths());
                    assert forall|jj: int|
                        0 <= jj < k && (#[trigger] olds[jj]).1.used implies exists|m: int|
                        0 <= m < i + 1 && self.s_images()[m] == (
                        olds[jj].0,
                        s_reset_image(olds[jj].1),
                    ) by {
                        let m0 = choose|m: int|
                            0 <= m < i && pre.s_images()[m] == (
                            olds[jj].0,
                            s_reset_image(olds[jj].1),
                        );
                        assert(self.s_images()[m0] == pre.s_images()[m0]);
                    }
                }
                i = i + 1;
                proof {
                    k = k + 1;
                }
            } else {
                self.evict_image_at(i, commands);
                proof {
                    assert forall|m: int| 0 <= m < i implies #[trigger] self.s_images()[m]
                        == pre.s_images()[m] by {}
                    assert forall|jj: int|
                        0 <= jj < k && (#[trigger] olds[jj]).1.used implies exists|m: int|
                        0 <= m < i && self.s_images()[m] == (
                        olds[jj].0,
                        s_reset_image(olds[jj].1),
                    ) by {
                        let m0 = choose|m: int|
                            0 <= m < i && pre.s_images()[m] == (
                            olds[jj].0,
                            s_reset_image(olds[jj].1),
                        );
                        assert(self.s_images()[m0] == pre.s_images()[m0]);
                    }
                    assert forall|jj: int, p: int|
                        0 <= jj < k + 1 && !(#[trigger] olds[jj]).1.used && 0 <= p
                            < self.s_paths().len() implies (#[trigger] self.s_paths()[p]).1
                        != olds[jj].0 by {
                        if jj == k {
                            assert(pre.s_images()[i as int].0 == olds[k].0);
                        } else {
                            assert(self.s_paths().contains(self.s_paths()[p]));
                            assert(pre.s_paths().contains(self.s_paths()[p]));
                            let q = choose|q: int|
                                0 <= q < pre.s_paths().len() && pre.s_paths()[q]
                                    == self.s_paths()[p];
                            assert(pre.s_paths()[q].1 != olds[jj].0);
                        }
                    }
                    assert forall|m: int|
                        0 <= m < self.s_images().len() - i implies #[trigger] self.s_images().skip(
                        i as int,
                    )[m] == olds.skip(k + 1)[m] by {
                        assert(self.s_images().skip(i as int)[m] == self.s_images()[i + m]);
                        assert(self.s_images()[i + m] == pre.s_images()[i + m + 1]);
                        assert(pre.s_images()[i + m + 1] == pre.s_images().skip(i as int)[m + 1]);
                        assert(pre.s_images().skip(i as int)[m + 1] == olds.skip(k)[m + 1]);
                        assert(olds.skip(k)[m + 1] == olds[k + 1 + m]);
                        assert(olds.skip(k + 1)[m] == olds[k + 1 + m]);
                    }
                    assert(self.s_images().skip(i as int) =~= olds.skip(k + 1));
                    assert forall|j: int|
                        0 <= j < old(self).s_atlases().len() && (#[trigger] old(self).s_atlases()[j]) is Some implies self.s_atlases()[j] is Some
                        && self.s_atlases()[j]->0.texture == old(self).s_atlases()[j]->0.texture
                        && (forall|kk: int|
                        self.s_atlases()[j]->0.regions().contains_key(kk) ==> old(self).s_atlases()[j]->0.regions().contains_key(kk)) by {
                        if Some(j) == alloc_slot_of(pre.s_images()[i as int].1.alloc) {
                            assert forall|kk: int|
                                self.s_atlases()[j]->0.regions().contains_key(
                                    kk,
                                ) implies old(self).s_atlases()[j]->0.regions().contains_key(
                                kk,
                            ) by {
                                assert(pre.s_atlases()[j]->0.regions().contains_key(kk));
                            }
                        } else {
                            assert(self.s_atlases()[j] == pre.s_atlases()[j]);
                        }
                    }
                    // The freed pair of the evicted entry, and everyone
                    // already freed, stay out of the shrinking regions.
                    assert forall|jj: int|
                        0 <= jj < k + 1 && !(#[trigger] olds[jj]).1.used && olds[jj].1.alloc
                            is Some implies {
                        let pair = olds[jj].1.alloc->0;
                        !self.s_atlases()[pair.0 as int]->0.regions().contains_key(
                            packer_id(pair.1),
                        )
                    } by {
                        let pair = olds[jj].1.alloc->0;
                        if jj == k {
                            assert(pre.s_images()[i as int].1.alloc == olds[k].1.alloc);
                        } else {
                            assert(!pre.s_atlases()[pair.0 as int]->0.regions().contains_key(
                                packer_id(pair.1),
                            ));
                            if Some(pair.0 as int) == alloc_slot_of(
                                pre.s_images()[i as int].1.alloc,
                            ) {
                                if self.s_atlases()[pair.0 as int]->0.regions().contains_key(
                                    packer_id(pair.1),
                                ) {
                                    assert(pre.s_atlases()[pair.0
                                        as int]->0.regions().contains_key(packer_id(pair.1)));
                                    assert(false);
                                }
                            } else {
                                assert(self.s_atlases()[pair.0 as int] == pre.s_atlases()[pair.0
                                    as int]);
                            }
                        }
                    }
                    assert forall|jj: int|
                        0 <= jj < k + 1 && !(#[trigger] olds[jj]).1.used && olds[jj].1.alloc
                            is None && olds[jj].1.texture is Some implies exists|ci: int|
                        old(commands)@.len() <= ci < commands@.len() && commands@[ci]
                            == (TextureCommand::Free { id: olds[jj].1.texture->0 }) by {
                        if jj == k {
                            assert(commands@ == cmds_pre.push(
                                TextureCommand::Free { id: olds[k].1.texture->0 },
                            ));
                            assert(commands@[cmds_pre.len() as int] == (TextureCommand::Free {
                                id: olds[jj].1.texture->0,
                            }));
                        } else {
                            let ci0 = choose|ci: int|
                                old(commands)@.len() <= ci < cmds_pre.len() && cmds_pre[ci]
                                    == (TextureCommand::Free { id: olds[jj].1.texture->0 });
                            assert(cmds_pre.is_prefix_of(commands@));
                            assert(commands@[ci0] == cmds_pre[ci0]);
                        }
                    }
                    k = k + 1;
                }
            }
        }
        proof {
            assert(k == olds.len());
        }
        let mut g: usize = 0;
        let ghost gk: int = 0;
        let ghost after_images = *self;
        let ghost cmds_imgs = commands@;
        while g < self.glyphs.len()
            invariant
                self.wf(),
                g <= self.s_glyphs().len(),
                0 <= gk <= oldg.len(),
                self.s_next_image_id() == old(self).s_next_image_id(),
                self.s_glyphs().skip(g as int) =~= oldg.skip(gk),
                olds == old(self).s_images(),
                oldg == old(self).s_glyphs(),
                old(self).wf(),
                old(commands)@.is_prefix_of(commands@),
                cmds_imgs.is_prefix_of(commands@),
                self.s_images() == after_images.s_images(),
                self.s_paths() == after_images.s_paths(),
                self.s_atlases().len() == old(self).s_atlases().len(),
                forall|j: int|
                    0 <= j < old(self).s_atlases().len() && (#[trigger] old(self).s_atlases()[j]) is Some ==> self.s_atlases()[j] is Some
                        && self.s_atlases()[j]->0.texture == old(self).s_atlases()[j]->0.texture
                        && (forall|kk: int|
                        self.s_atlases()[j]->0.regions().contains_key(kk) ==> old(self).s_atlases()[j]->0.regions().contains_key(kk)),
                forall|j: int|
                    0 <= j < old(self).s_atlases().len() && (#[trigger] old(self).s_atlases()[j]) is None ==> self.s_atlases()[j] is None,
                forall|m: int| 0 <= m < g ==> !(#[trigger] self.s_glyphs()[m]).1.used,
                forall|m: int|
                    0 <= m < self.s_images().len() ==> !(#[trigger] self.s_images()[m]).1.used,
                forall|jj: int|
                    0 <= jj < olds.len() && (#[trigger] olds[jj]).1.used ==> exists|m: int|
                        0 <= m < self.s_images().len() && self.s_images()[m] == (
                        olds[jj].0,
                        s_reset_image(olds[jj].1),
                    ),
                forall|jj: int, m: int|
                    0 <= jj < olds.len() && !(#[trigger] olds[jj]).1.used && 0 <= m
                        < self.s_images().len() ==> (#[trigger] self.s_images()[m]).0
                        != olds[jj].0,
                forall|jj: int, p: int|
                    0 <= jj < olds.len() && !(#[trigger] olds[jj]).1.used && 0 <= p
                        < self.s_paths().len() ==> (#[trigger] self.s_paths()[p]).1
                        != olds[jj].0,
                forall|pv: (Seq<char>, u64)|
                    self.s_paths().contains(pv) ==> old(self).s_paths().contains(pv),
                forall|jj: int|
                    0 <= jj < olds.len() && !(#[trigger] olds[jj]).1.used && olds[jj].1.alloc
                        is Some ==> {
                        let pair = olds[jj].1.alloc->0;
                        !self.s_atlases()[pair.0 as int]->0.regions().contains_key(
                            packer_id(pair.1),
                        )
                    },
                forall|jj: int|
                    0 <= jj < olds.len() && !(#[trigger] olds[jj]).1.used && olds[jj].1.alloc
                        is None && olds[jj].1.texture is Some ==> exists|ci: int|
                        old(commands)@.len() <= ci < commands@.len() && commands@[ci]
                            == (TextureCommand::Free { id: olds[jj].1.texture->0 }),
                forall|jj: int|
                    0 <= jj < gk && (#[trigger] oldg[jj]).1.used ==> exists|m: int|
                        0 <= m < g && self.s_glyphs()[m] == (
                        oldg[jj].0,
                        s_reset_glyph(oldg[jj].1),
                    ),
                forall|jj: int, m: int|
                    0 <= jj < gk && !(#[trigger] oldg[jj]).1.used && 0 <= m < g ==> (
                    #[trigger] self.s_glyphs()[m]).0 != oldg[jj].0,
                forall|jj: int|
                    0 <= jj < gk && !(#[trigger] oldg[jj]).1.used && oldg[jj].1.alloc is Some
                        ==> {
                        let pair = oldg[jj].1.alloc->0;
                        !self.s_atlases()[pair.0 as int]->0.regions().contains_key(
                            packer_id(pair.1),
                        )
                    },
                forall|jj: int|
                    0 <= jj < gk && !(#[trigger] oldg[jj]).1.used && oldg[jj].1.alloc is None
                        && oldg[jj].1.texture is Some ==> exists|ci: int|
                        old(commands)@.len() <= ci < commands@.len() && commands@[ci]
                            == (TextureCommand::Free { id: oldg[jj].1.texture->0 }),
            decreases self.s_glyphs().len() - g,
        {
            let ghost pre = *self;
            let ghost cmds_pre = commands@;
            proof {
                let a = pre.s_glyphs().skip(g as int);
                let b = oldg.skip(gk);
                assert(a.len() == b.len());
                assert(gk < oldg.len());
                assert(a[0] == pre.s_glyphs()[g as int]);
                assert(b[0] == oldg[gk]);
                assert(pre.s_glyphs()[g as int] == oldg[gk]);
            }
            if self.glyphs[g].1.used {
                self.reset_glyph_mark_at(g);
                proof {
                    assert(self.s_glyphs()[g as int] == (oldg[gk].0, s_reset_glyph(oldg[gk].1)));
                    assert forall|m: int|
                        0 <= m < self.s_glyphs().len() && m != g
                            implies #[trigger] self.s_glyphs()[m] == pre.s_glyphs()[m] by {}
                    assert forall|m: int|
                        0 <= m < self.s_glyphs().len() - (g + 1) implies #[trigger] self.s_glyphs().skip(g + 1)[m] == oldg.skip(gk + 1)[m] by {
                        assert(self.s_glyphs()[g + 1 + m] == pre.s_glyphs()[g + 1 + m]);
                        assert(pre.s_glyphs()[g + 1 + m] == pre.s_glyphs().skip(g as int)[1 + m]);
                        assert(pre.s_glyphs().skip(g as int)[1 + m] == oldg.skip(gk)[1 + m]);
                        assert(oldg.skip(gk)[1 + m] == oldg[gk + 1 + m]);
                        assert(oldg.skip(gk + 1)[m] == oldg[gk + 1 + m]);
                    }
                    assert(self.s_glyphs().skip(g + 1) =~= oldg.skip(gk + 1));
                    assert forall|jj: int|
                        0 <= jj < gk && (#[trigger] oldg[jj]).1.used implies exists|m: int|
                        0 <= m < g + 1 && self.s_glyphs()[m] == (
                        oldg[jj].0,
                        s_reset_glyph(oldg[jj].1),
                    ) by {
                        let m0 = choose|m: int|
                            0 <= m < g && pre.s_glyphs()[m] == (
                            oldg[jj].0,
                            s_reset_glyph(oldg[jj].1),
                        );
                        assert(self.s_glyphs()[m0] == pre.s_glyphs()[m0]);
                    }
                }
                g = g + 1;
                proof {
                    gk = gk + 1;
                }
            } else {
                self.evict_glyph_at(g, commands);
                proof {
                    assert forall|m: int| 0 <= m < g implies #[trigger] self.s_glyphs()[m]
                        == pre.s_glyphs()[m] by {}
                    assert forall|jj: int|
                        0 <= jj < gk && (#[trigger] oldg[jj]).1.used implies exists|m: int|
                        0 <= m < g && self.s_glyphs()[m] == (
                        oldg[jj].0,
                        s_reset_glyph(oldg[jj].1),
                    ) by {
                        let m0 = choose|m: int|
                            0 <= m < g && pre.s_glyphs()[m] == (
                            oldg[jj].0,
                            s_reset_glyph(oldg[jj].1),
                        );
                        assert(self.s_glyphs()[m0] == pre.s_glyphs()[m0]);
                    }
                    assert forall|m: int|
                        0 <= m < self.s_glyphs().len() - g implies #[trigger] self.s_glyphs().skip(
                        g as int,
                    )[m] == oldg.skip(gk + 1)[m] by {
                        assert(self.s_glyphs().skip(g as int)[m] == self.s_glyphs()[g + m]);
                        assert(self.s_glyphs()[g + m] == pre.s_glyphs()[g + m + 1]);
                        assert(pre.s_glyphs()[g + m + 1] == pre.s_glyphs().skip(g as int)[m + 1]);
                        assert(pre.s_glyphs().skip(g as int)[m + 1] == oldg.skip(gk)[m + 1]);
                        assert(oldg.skip(gk)[m + 1] == oldg[gk + 1 + m]);
                        assert(oldg.skip(gk + 1)[m] == oldg[gk + 1 + m]);
                    }
                    assert(self.s_glyphs().skip(g as int) =~= oldg.skip(gk + 1));
                    assert forall|j: int|
                        0 <= j < old(self).s_atlases().len() && (#[trigger] old(self).s_atlases()[j]) is Some implies self.s_atlases()[j] is Some
                        && self.s_atlases()[j]->0.texture == old(self).s_atlases()[j]->0.texture
                        && (forall|kk: int|
                        self.s_atlases()[j]->0.regions().contains_key(kk) ==> old(self).s_atlases()[j]->0.regions().contains_key(kk)) by {
                        if Some(j) == alloc_slot_of(pre.s_glyphs()[g as int].1.alloc) {
                            assert forall|kk: int|
                                self.s_atlases()[j]->0.regions().contains_key(
                                    kk,
                                ) implies old(self).s_atlases()[j]->0.regions().contains_key(
                                kk,
                            ) by {
                                assert(pre.s_atlases()[j]->0.regions().contains_key(kk));
                            }
                        } else {
                            assert(self.s_atlases()[j] == pre.s_atlases()[j]);
                        }
                    }
                    assert forall|jj: int|
                        0 <= jj < gk + 1 && !(#[trigger] oldg[jj]).1.used && oldg[jj].1.alloc
                            is Some implies {
                        let pair = oldg[jj].1.alloc->0;
                        !self.s_atlases()[pair.0 as int]->0.regions().contains_key(
                            packer_id(pair.1),
                        )
                    } by {
                        let pair = oldg[jj].1.alloc->0;
                        if jj == gk {
                            assert(pre.s_glyphs()[g as int].1.alloc == oldg[gk].1.alloc);
                        } else {
                            assert(!pre.s_atlases()[pair.0 as int]->0.regions().contains_key(
                                packer_id(pair.1),
                            ));
                            if Some(pair.0 as int) == alloc_slot_of(
                                pre.s_glyphs()[g as int].1.alloc,
                            ) {
                                if self.s_atlases()[pair.0 as int]->0.regions().contains_key(
                                    packer_id(pair.1),
                                ) {
                                    assert(pre.s_atlases()[pair.0
                                        as int]->0.regions().contains_key(packer_id(pair.1)));
                                    assert(false);
                                }
                            } else {
                                assert(self.s_atlases()[pair.0 as int] == pre.s_atlases()[pair.0
                                    as int]);
                            }
                        }
                    }
                    assert forall|jj: int|
                        0 <= jj < olds.len() && !(#[trigger] olds[jj]).1.used && olds[jj].1.alloc
                            is Some implies {
                        let pair = olds[jj].1.alloc->0;
                        !self.s_atlases()[pair.0 as int]->0.regions().contains_key(
                            packer_id(pair.1),
                        )
                    } by {
                        let pair = olds[jj].1.alloc->0;
                        assert(!pre.s_atlases()[pair.0 as int]->0.regions().contains_key(
                            packer_id(pair.1),
                        ));
                        if Some(pair.0 as int) == alloc_slot_of(pre.s_glyphs()[g as int].1.alloc) {
                            if self.s_atlases()[pair.0 as int]->0.regions().contains_key(
                                packer_id(pair.1),
                            ) {
                                assert(pre.s_atlases()[pair.0 as int]->0.regions().contains_key(
                                    packer_id(pair.1),
                                ));
                                assert(false);
                            }
                        } else {
                            assert(self.s_atlases()[pair.0 as int] == pre.s_atlases()[pair.0
                                as int]);
                        }
                    }
                    assert forall|jj: int|
                        0 <= jj < gk + 1 && !(#[trigger] oldg[jj]).1.used && oldg[jj].1.alloc
                            is None && oldg[jj].1.texture is Some implies exists|ci: int|
                        old(commands)@.len() <= ci < commands@.len() && commands@[ci]
                            == (TextureCommand::Free { id: oldg[jj].1.texture->0 }) by {
                        if jj == gk {
                            assert(commands@ == cmds_pre.push(
                                TextureCommand::Free { id: oldg[gk].1.texture->0 },
                            ));
                            assert(commands@[cmds_pre.len() as int] == (TextureCommand::Free {
                                id: oldg[jj].1.texture->0,
                            }));
                        } else {
                            let ci0 = choose|ci: int|
                                old(commands)@.len() <= ci < cmds_pre.len() && cmds_pre[ci]
                                    == (TextureCommand::Free { id: oldg[jj].1.texture->0 });
                            assert(cmds_pre.is_prefix_of(commands@));
                            assert(commands@[ci0] == cmds_pre[ci0]);
                        }
                    }
                    gk = gk + 1;
                }
            }
        }
        let ghost before_pool = *self;
        let ghost cmds_bp = commands@;
        self.atlases.cleanup(commands);
        proof {
            assert forall|m: int|
                0 <= m < self.s_images().len() implies s_alloc_ok(
                self.s_atlases(),
                (#[trigger] self.s_images()[m]).1.alloc,
                self.s_images()[m].1.rect,
            ) by {
                if self.s_images()[m].1.alloc is Some {
                    let p = self.s_images()[m].1.alloc->0;
                    assert(s_alloc_ok(
                        before_pool.s_atlases(),
                        before_pool.s_images()[m].1.alloc,
                        before_pool.s_images()[m].1.rect,
                    ));
                    if self.s_atlases()[p.0 as int] is None {
                        assert(before_pool.s_atlases()[p.0 as int]->0.regions() =~= Map::empty());
                        assert(false);
                    }
                    assert(self.s_atlases()[p.0 as int] == before_pool.s_atlases()[p.0 as int]);
                }
            }
            assert forall|m: int|
                0 <= m < self.s_glyphs().len() implies s_alloc_ok(
                self.s_atlases(),
                (#[trigger] self.s_glyphs()[m]).1.alloc,
                self.s_glyphs()[m].1.rect,
            ) by {
                if self.s_glyphs()[m].1.alloc is Some {
                    let p = self.s_glyphs()[m].1.alloc->0;
                    assert(s_alloc_ok(
                        before_pool.s_atlases(),
                        before_pool.s_glyphs()[m].1.alloc,
                        before_pool.s_glyphs()[m].1.rect,
                    ));
                    if self.s_atlases()[p.0 as int] is None {
                        assert(before_pool.s_atlases()[p.0 as int]->0.regions() =~= Map::empty());
                        assert(false);
                    }
                    assert(self.s_atlases()[p.0 as int] == before_pool.s_atlases()[p.0 as int]);
                }
            }
            assert forall|jj: int|
                0 <= jj < olds.len() && !(#[trigger] olds[jj]).1.used && olds[jj].1.alloc
                    is Some implies {
                let pair = olds[jj].1.alloc->0;
                self.s_atlases()[pair.0 as int] is None || !self.s_atlases()[pair.0
                    as int]->0.regions().contains_key(packer_id(pair.1))
            } by {
                let pair = olds[jj].1.alloc->0;
                if self.s_atlases()[pair.0 as int] is Some {
                    assert(self.s_atlases()[pair.0 as int] == before_pool.s_atlases()[pair.0
                        as int]);
                }
            }
            assert forall|jj: int|
                0 <= jj < oldg.len() && !(#[trigger] oldg[jj]).1.used && oldg[jj].1.alloc
                    is Some implies {
                let pair = oldg[jj].1.alloc->0;
                self.s_atlases()[pair.0 as int] is None || !self.s_atlases()[pair.0
                    as int]->0.regions().contains_key(packer_id(pair.1))
            } by {
                let pair = oldg[jj].1.alloc->0;
                if self.s_atlases()[pair.0 as int] is Some {
                    assert(self.s_atlases()[pair.0 as int] == before_pool.s_atlases()[pair.0
                        as int]);
                }
            }
            assert forall|jj: int|
                0 <= jj < olds.len() && !(#[trigger] olds[jj]).1.used && olds[jj].1.alloc
                    is None && olds[jj].1.texture is Some implies exists|ci: int|
                old(commands)@.len() <= ci < commands@.len() && commands@[ci]
                    == (TextureCommand::Free { id: olds[jj].1.texture->0 }) by {
                let ci0 = choose|ci: int|
                    old(commands)@.len() <= ci < cmds_bp.len() && cmds_bp[ci]
                        == (TextureCommand::Free { id: olds[jj].1.texture->0 });
                assert(cmds_bp.is_prefix_of(commands@));
                assert(commands@[ci0] == cmds_bp[ci0]);
            }
            assert forall|jj: int|
                0 <= jj < oldg.len() && !(#[trigger] oldg[jj]).1.used && oldg[jj].1.alloc
                    is None && oldg[jj].1.texture is Some implies exists|ci: int|
                old(commands)@.len() <= ci < commands@.len() && commands@[ci]
                    == (TextureCommand::Free { id: oldg[jj].1.texture->0 }) by {
                let ci0 = choose|ci: int|
                    old(commands)@.len() <= ci < cmds_bp.len() && cmds_bp[ci]
                        == (TextureCommand::Free { id: oldg[jj].1.texture->0 });
                assert(cmds_bp.is_prefix_of(commands@));
                assert(commands@[ci0] == cmds_bp[ci0]);
            }
        }
    }
}

/// The atlas slot an entry's allocation names, if it has one.
pub open spec fn alloc_slot_of(alloc: Option<(usize, AllocId)>) -> Option<int> {
    match alloc {
        Some(p) => Some(p.0 as int),
        None => None,
    }
}



impl TextureCache {
    /// One entry changed fields the invariant does not track (usage mark,
    /// pixel data, a dedicated texture of an unallocated entry): the
    /// invariant carries over.
    proof fn lemma_wf_entry_fields(pre: &TextureCache, post: &TextureCache, i: int)
        requires
            pre.wf(),
            0 <= i < pre.s_images().len(),
            post.s_glyphs() == pre.s_glyphs(),
            post.s_atlases() == pre.s_atlases(),
            post.s_next_image_id() == pre.s_next_image_id(),
            post.s_images().len() == pre.s_images().len(),
            forall|m: int|
                0 <= m < pre.s_images().len() && m != i ==> #[trigger] post.s_images()[m]
                    == pre.s_images()[m],
            post.s_images()[i].0 == pre.s_images()[i].0,
            post.s_images()[i].1.alloc == pre.s_images()[i].1.alloc,
            post.s_images()[i].1.alloc is Some ==> post.s_images()[i].1.rect
                == pre.s_images()[i].1.rect && post.s_images()[i].1.texture is None,
        ensures
            post.wf(),
    {
        assert forall|m: int|
            0 <= m < post.s_images().len() implies s_alloc_ok(
            post.s_atlases(),
            (#[trigger] post.s_images()[m]).1.alloc,
            post.s_images()[m].1.rect,
        ) && (post.s_images()[m].1.alloc is Some ==> post.s_images()[m].1.texture is None) by {
            if m != i {
                assert(post.s_images()[m] == pre.s_images()[m]);
            }
            assert(s_alloc_ok(
                pre.s_atlases(),
                pre.s_images()[m].1.alloc,
                pre.s_images()[m].1.rect,
            ));
        }
        assert forall|i1: int, i2: int|
            #![trigger post.s_images()[i1], post.s_images()[i2]]
            0 <= i1 < i2 < post.s_images().len() implies post.s_images()[i1].0
            != post.s_images()[i2].0 by {
            assert(post.s_images()[i1].0 == pre.s_images()[i1].0);
            assert(post.s_images()[i2].0 == pre.s_images()[i2].0);
        }
        assert forall|m: int| 0 <= m < post.s_images().len() implies (
        #[trigger] post.s_images()[m]).0 < post.s_next_image_id() by {
            assert(post.s_images()[m].0 == pre.s_images()[m].0);
        }
        assert forall|i1: int, i2: int|
            #![trigger post.s_images()[i1].1.alloc, post.s_images()[i2].1.alloc]
            0 <= i1 < i2 < post.s_images().len() && post.s_images()[i1].1.alloc is Some
                && post.s_images()[i2].1.alloc is Some implies s_pair(post.s_images()[i1].1.alloc)
            != s_pair(post.s_images()[i2].1.alloc) by {
            assert(post.s_images()[i1].1.alloc == pre.s_images()[i1].1.alloc);
            assert(post.s_images()[i2].1.alloc == pre.s_images()[i2].1.alloc);
        }
        assert forall|m: int, g: int|
            #![trigger post.s_images()[m].1.alloc, post.s_glyphs()[g].1.alloc]
            0 <= m < post.s_images().len() && 0 <= g < post.s_glyphs().len()
                && post.s_images()[m].1.alloc is Some && post.s_glyphs()[g].1.alloc
                is Some implies s_pair(post.s_images()[m].1.alloc) != s_pair(
            post.s_glyphs()[g].1.alloc,
        ) by {
            assert(post.s_images()[m].1.alloc == pre.s_images()[m].1.alloc);
        }
    }
}

/// Whether an image entry is already resolved to a location.
pub open spec fn s_resolved(e: ImageEntry) -> bool {
    e.texture is Some || e.alloc is Some
}

impl TextureCache {
    /// Registers an image by path, marked used. A path already registered
    /// yields its existing id; nothing is allocated twice for one path.
    pub fn add_image_from_path(&mut self, path: AssetPath, mipmap_mode: MipmapMode) -> (r:
        ImageId)
        requires
            old(self).wf(),
            old(self).s_next_image_id() < u64::MAX,
        ensures
            final(self).wf(),
            final(self).s_glyphs() == old(self).s_glyphs(),
            final(self).s_atlases() == old(self).s_atlases(),
            s_assoc(old(self).s_paths(), path.s_url()) matches Some(id0) ==> r == ImageId(id0)
                && s_images_same_but_used(old(self).s_images(), final(self).s_images()) && final(self).s_paths()
                == old(self).s_paths(),
            s_assoc(old(self).s_paths(), path.s_url()) is None ==> r == ImageId(
                old(self).s_next_image_id(),
            ) && final(self).s_images() == old(self).s_images().push(
                (
                    old(self).s_next_image_id(),
                    ImageEntry {
                        used: true,
                        path: Some(path),
                        data: None,
                        mipmap_mode,
                        texture: None,
                        rect: URect {
                            min: UVec2 { x: 0u32, y: 0u32 },
                            max: UVec2 { x: 0u32, y: 0u32 },
                        },
                        alloc: None,
                        requested_size: UVec2 { x: 0u32, y: 0u32 },
                        max_size: UVec2 { x: 0u32, y: 0u32 },
                    },
                ),
            ) && final(self).s_paths() == old(self).s_paths().push(
                (path.s_url(), old(self).s_next_image_id()),
            ),
            s_assoc(old(self).s_paths(), path.s_url()) is Some ==> final(self).s_next_image_id() == old(self).s_next_image_id(),
            s_assoc(old(self).s_paths(), path.s_url()) is None ==> final(self).s_next_image_id() == old(self).s_next_image_id() + 1,
    {
        let mut i: usize = 0;
        while i < self.images_by_path.len()
            invariant
                *self == *old(self),
                old(self).wf(),
                old(self).s_next_image_id() < u64::MAX,
                i <= self.s_paths().len(),
                forall|j: int| 0 <= j < i ==> (#[trigger] self.s_paths()[j]).0 != path.s_url(),
                self.s_paths().len() == self.images_by_path@.len(),
            decreases self.s_paths().len() - i,
        {
            if str_eq(self.images_by_path[i].0.url().as_str(), path.url().as_str()) {
                let found: u64 = self.images_by_path[i].1;
                proof {
                    assert(self.s_paths()[i as int].0 == path.s_url());
                    assert(self.s_paths()[i as int].1 == found);
                    lemma_assoc_found(self.s_paths(), i as int, path.s_url());
                }
                self.mark_image_used(ImageId(found));
                return ImageId(found);
            }
            proof {
                assert(self.s_paths()[i as int].0 != path.s_url());
            }
            i = i + 1;
        }
        proof {
            lemma_assoc_none(self.s_paths(), path.s_url());
        }
        let id: u64 = self.next_image_id;
        self.next_image_id = self.next_image_id + 1;
        let url_copy: AssetPath = path.as_borrowed();
        self.images.push(
            (
                id,
                ImageEntry {
                    used: true,
                    path: Some(path),
                    data: None,
                    mipmap_mode,
                    texture: None,
                    rect: URect {
                        min: UVec2 { x: 0, y: 0 },
                        max: UVec2 { x: 0, y: 0 },
                    },
                    alloc: None,
                    requested_size: UVec2 { x: 0, y: 0 },
                    max_size: UVec2 { x: 0, y: 0 },
                },
            ),
        );
        self.images_by_path.push((url_copy, id));
        proof {
            let news = self.s_paths();
            let olds = old(self).s_paths();
            assert forall|j: int| 0 <= j < olds.len() implies news[j] == olds[j] by {
                assert(self.images_by_path@[j] == old(self).images_by_path@[j]);
            }
            assert(self.images_by_path@[olds.len() as int] == (url_copy, id));
            assert(news[olds.len() as int] == (url_copy.s_url(), id));
            assert(news =~= olds.push((path.s_url(), id)));
        }
        ImageId(id)
    }
}

impl TextureCache {
    /// Re-establishes the cache invariant after one entry at `i` gained a
    /// fresh atlas pair from the pool.
    proof fn lemma_wf_after_image_alloc(pre: &TextureCache, post: &TextureCache, i: int)
        requires
            pre.wf(),
            0 <= i < pre.s_images().len(),
            post.s_glyphs() == pre.s_glyphs(),
            post.s_next_image_id() == pre.s_next_image_id(),
            post.s_images().len() == pre.s_images().len(),
            forall|m: int|
                0 <= m < pre.s_images().len() && m != i ==> #[trigger] post.s_images()[m]
                    == pre.s_images()[m],
            post.s_images()[i].0 == pre.s_images()[i].0,
            post.s_images()[i].1.texture is None,
            post.s_images()[i].1.alloc is Some,
            s_atlases_stable(pre.s_atlases(), post.s_atlases()),
            s_alloc_ok(post.s_atlases(), post.s_images()[i].1.alloc, post.s_images()[i].1.rect),
            post.wf_pool_only(),
            ({
                let pair = post.s_images()[i].1.alloc->0;
                pair.0 < pre.s_atlases().len() ==> pre.s_atlases()[pair.0 as int] is Some && !pre.s_atlases()[pair.0 as int]->0.regions().contains_key(packer_id(pair.1))
            }),
        ensures
            post.wf(),
    {
        let pair = post.s_images()[i].1.alloc->0;
        assert forall|m: int|
            0 <= m < post.s_images().len() implies s_alloc_ok(
            post.s_atlases(),
            (#[trigger] post.s_images()[m]).1.alloc,
            post.s_images()[m].1.rect,
        ) && (post.s_images()[m].1.alloc is Some ==> post.s_images()[m].1.texture is None) by {
            if m != i {
                assert(post.s_images()[m] == pre.s_images()[m]);
                assert(s_alloc_ok(
                    pre.s_atlases(),
                    pre.s_images()[m].1.alloc,
                    pre.s_images()[m].1.rect,
                ));
                if pre.s_images()[m].1.alloc is Some {
                    let p = pre.s_images()[m].1.alloc->0;
                    assert(pre.s_atlases()[p.0 as int]->0.regions().contains_key(packer_id(p.1)));
                }
            }
        }
        assert forall|m: int|
            0 <= m < post.s_glyphs().len() implies s_alloc_ok(
            post.s_atlases(),
            (#[trigger] post.s_glyphs()[m]).1.alloc,
            post.s_glyphs()[m].1.rect,
        ) by {
            assert(s_alloc_ok(
                pre.s_atlases(),
                pre.s_glyphs()[m].1.alloc,
                pre.s_glyphs()[m].1.rect,
            ));
        }
        assert forall|i1: int, i2: int|
            #![trigger post.s_images()[i1], post.s_images()[i2]]
            0 <= i1 < i2 < post.s_images().len() implies post.s_images()[i1].0
            != post.s_images()[i2].0 by {
            assert(post.s_images()[i1].0 == pre.s_images()[i1].0);
            assert(post.s_images()[i2].0 == pre.s_images()[i2].0);
        }
        assert forall|m: int| 0 <= m < post.s_images().len() implies (
        #[trigger] post.s_images()[m]).0 < post.s_next_image_id() by {
            assert(post.s_images()[m].0 == pre.s_images()[m].0);
        }
        assert forall|i1: int, i2: int|
            #![trigger post.s_images()[i1].1.alloc, post.s_images()[i2].1.alloc]
            0 <= i1 < i2 < post.s_images().len() && post.s_images()[i1].1.alloc is Some
                && post.s_images()[i2].1.alloc is Some implies s_pair(post.s_images()[i1].1.alloc)
            != s_pair(post.s_images()[i2].1.alloc) by {
            if i1 != i && i2 != i {
                assert(s_pair(pre.s_images()[i1].1.alloc) != s_pair(pre.s_images()[i2].1.alloc));
            } else {
                let m = if i1 == i { i2 } else { i1 };
                assert(post.s_images()[m] == pre.s_images()[m]);
                if pre.s_images()[m].1.alloc is Some {
                    let p = pre.s_images()[m].1.alloc->0;
                    assert(s_alloc_ok(
                        pre.s_atlases(),
                        pre.s_images()[m].1.alloc,
                        pre.s_images()[m].1.rect,
                    ));
                    if p.0 == pair.0 {
                        assert(packer_id(p.1) != packer_id(pair.1));
                    }
                }
            }
        }
        assert forall|i1: int, i2: int|
            #![trigger post.s_glyphs()[i1].1.alloc, post.s_glyphs()[i2].1.alloc]
            0 <= i1 < i2 < post.s_glyphs().len() && post.s_glyphs()[i1].1.alloc is Some
                && post.s_glyphs()[i2].1.alloc is Some implies s_pair(post.s_glyphs()[i1].1.alloc)
            != s_pair(post.s_glyphs()[i2].1.alloc) by {
            assert(s_pair(pre.s_glyphs()[i1].1.alloc) != s_pair(pre.s_glyphs()[i2].1.alloc));
        }
        assert forall|m: int, g: int|
            #![trigger post.s_images()[m].1.alloc, post.s_glyphs()[g].1.alloc]
            0 <= m < post.s_images().len() && 0 <= g < post.s_glyphs().len()
                && post.s_images()[m].1.alloc is Some && post.s_glyphs()[g].1.alloc
                is Some implies s_pair(post.s_images()[m].1.alloc) != s_pair(
            post.s_glyphs()[g].1.alloc,
        ) by {
            if m != i {
                assert(s_pair(pre.s_images()[m].1.alloc) != s_pair(pre.s_glyphs()[g].1.alloc));
            } else {
                if pre.s_glyphs()[g].1.alloc is Some {
                    let p = pre.s_glyphs()[g].1.alloc->0;
                    assert(s_alloc_ok(
                        pre.s_atlases(),
                        pre.s_glyphs()[g].1.alloc,
                        pre.s_glyphs()[g].1.rect,
                    ));
                    if p.0 == pair.0 {
                        assert(packer_id(p.1) != packer_id(pair.1));
                    }
                }
            }
        }
    }

    /// Same, for a glyph entry at `g`.
    proof fn lemma_wf_after_glyph_alloc(pre: &TextureCache, post: &TextureCache, g: int)
        requires
            pre.wf(),
            0 <= g < pre.s_glyphs().len(),
            post.s_images() == pre.s_images(),
            post.s_next_image_id() == pre.s_next_image_id(),
            post.s_glyphs().len() == pre.s_glyphs().len(),
            forall|m: int|
                0 <= m < pre.s_glyphs().len() && m != g ==> #[trigger] post.s_glyphs()[m]
                    == pre.s_glyphs()[m],
            post.s_glyphs()[g].0 == pre.s_glyphs()[g].0,
            post.s_glyphs()[g].1.alloc is Some,
            post.s_glyphs()[g].1.texture is None,
            s_atlases_stable(pre.s_atlases(), post.s_atlases()),
            s_alloc_ok(post.s_atlases(), post.s_glyphs()[g].1.alloc, post.s_glyphs()[g].1.rect),
            post.wf_pool_only(),
            ({
                let pair = post.s_glyphs()[g].1.alloc->0;
                pair.0 < pre.s_atlases().len() ==> pre.s_atlases()[pair.0 as int] is Some && !pre.s_atlases()[pair.0 as int]->0.regions().contains_key(packer_id(pair.1))
            }),
        ensures
            post.wf(),
    {
        let pair = post.s_glyphs()[g].1.alloc->0;
        assert forall|m: int|
            0 <= m < post.s_glyphs().len() && (#[trigger] post.s_glyphs()[m]).1.alloc
                is Some implies post.s_glyphs()[m].1.texture is None by {
            if m != g {
                assert(post.s_glyphs()[m] == pre.s_glyphs()[m]);
            }
        }
        assert forall|m: int|
            0 <= m < post.s_glyphs().len() implies s_alloc_ok(
            post.s_atlases(),
            (#[trigger] post.s_glyphs()[m]).1.alloc,
            post.s_glyphs()[m].1.rect,
        ) by {
            if m != g {
                assert(post.s_glyphs()[m] == pre.s_glyphs()[m]);
                assert(s_alloc_ok(
                    pre.s_atlases(),
                    pre.s_glyphs()[m].1.alloc,
                    pre.s_glyphs()[m].1.rect,
                ));
            }
        }
        assert forall|m: int|
            0 <= m < post.s_images().len() implies s_alloc_ok(
            post.s_atlases(),
            (#[trigger] post.s_images()[m]).1.alloc,
            post.s_images()[m].1.rect,
        ) && (post.s_images()[m].1.alloc is Some ==> post.s_images()[m].1.texture is None) by {
            assert(s_alloc_ok(
                pre.s_atlases(),
                pre.s_images()[m].1.alloc,
                pre.s_images()[m].1.rect,
            ));
        }
        assert forall|i1: int, i2: int|
            #![trigger post.s_glyphs()[i1], post.s_glyphs()[i2]]
            0 <= i1 < i2 < post.s_glyphs().len() implies post.s_glyphs()[i1].0
            != post.s_glyphs()[i2].0 by {
            assert(post.s_glyphs()[i1].0 == pre.s_glyphs()[i1].0);
            assert(post.s_glyphs()[i2].0 == pre.s_glyphs()[i2].0);
        }
        assert forall|i1: int, i2: int|
            #![trigger post.s_glyphs()[i1].1.alloc, post.s_glyphs()[i2].1.alloc]
            0 <= i1 < i2 < post.s_glyphs().len() && post.s_glyphs()[i1].1.alloc is Some
                && post.s_glyphs()[i2].1.alloc is Some implies s_pair(post.s_glyphs()[i1].1.alloc)
            != s_pair(post.s_glyphs()[i2].1.alloc) by {
            if i1 != g && i2 != g {
                assert(s_pair(pre.s_glyphs()[i1].1.alloc) != s_pair(pre.s_glyphs()[i2].1.alloc));
            } else {
                let m = if i1 == g { i2 } else { i1 };
                assert(post.s_glyphs()[m] == pre.s_glyphs()[m]);
                if pre.s_glyphs()[m].1.alloc is Some {
                    let p = pre.s_glyphs()[m].1.alloc->0;
                    assert(s_alloc_ok(
                        pre.s_atlases(),
                        pre.s_glyphs()[m].1.alloc,
                        pre.s_glyphs()[m].1.rect,
                    ));
                    if p.0 == pair.0 {
                        assert(packer_id(p.1) != packer_id(pair.1));
                    }
                }
            }
        }
        assert forall|m: int, gg: int|
            #![trigger post.s_images()[m].1.alloc, post.s_glyphs()[gg].1.alloc]
            0 <= m < post.s_images().len() && 0 <= gg < post.s_glyphs().len()
                && post.s_images()[m].1.alloc is Some && post.s_glyphs()[gg].1.alloc
                is Some implies s_pair(post.s_images()[m].1.alloc) != s_pair(
            post.s_glyphs()[gg].1.alloc,
        ) by {
            if gg != g {
                assert(s_pair(pre.s_images()[m].1.alloc) != s_pair(pre.s_glyphs()[gg].1.alloc));
            } else {
                if pre.s_images()[m].1.alloc is Some {
                    let p = pre.s_images()[m].1.alloc->0;
                    assert(s_alloc_ok(
                        pre.s_atlases(),
                        pre.s_images()[m].1.alloc,
                        pre.s_images()[m].1.rect,
                    ));
                    if p.0 == pair.0 {
                        assert(packer_id(p.1) != packer_id(pair.1));
                    }
                }
            }
        }
    }

    /// Resolves the unresolved image entry at `i`: obtains pixels (inline
    /// or loaded and decoded), then places them standalone or in an atlas.
    #[verifier::rlimit(80)]
    fn resolve_image_at<S: AssetSource + ?Sized, D: ImageDecoder + ?Sized>(
        &mut self,
        i: usize,
        source: &S,
        decoder: &D,
        commands: &mut Vec<TextureCommand>,
    ) -> (r: OhmResult<()>)
        requires
            old(self).wf(),
            i < old(self).s_images().len(),
            !s_resolved(old(self).s_images()[i as int].1),
        ensures
            final(self).wf(),
            final(self).s_glyphs() == old(self).s_glyphs(),
            final(self).s_paths() == old(self).s_paths(),
            final(self).s_next_image_id() == old(self).s_next_image_id(),
            final(self).s_images().len() == old(self).s_images().len(),
            forall|m: int|
                0 <= m < old(self).s_images().len() && m != i ==> #[trigger] final(self).s_images()[m] == old(self).s_images()[m],
            final(self).s_images()[i as int].0 == old(self).s_images()[i as int].0,
            final(self).s_images()[i as int].1.used == old(self).s_images()[i as int].1.used,
            old(commands)@.is_prefix_of(final(commands)@),
            s_atlases_stable(old(self).s_atlases(), final(self).s_atlases()),
            r is Ok ==> s_resolved(final(self).s_images()[i as int].1) || (old(self).s_images()[i as int].1.data is None && old(self).s_images()[i as int].1.path
                is None && final(self).s_images()[i as int] == old(self).s_images()[i as int]),
            final(self).s_images()[i as int].1.texture is Some ==> final(self).s_images()[i as int].1.rect.min == (UVec2 { x: 0u32, y: 0u32 }) && (final(self).s_images()[i as int].1.rect.max.x >= MIN_STANDALONE_SIZE || final(self).s_images()[i as int].1.rect.max.y >= MIN_STANDALONE_SIZE),
            final(self).s_images()[i as int].1.alloc is Some ==> (final(self).s_images()[i as int].1.rect.max.x - final(self).s_images()[i as int].1.rect.min.x)
                < MIN_STANDALONE_SIZE && (final(self).s_images()[i as int].1.rect.max.y - final(self).s_images()[i as int].1.rect.min.y) < MIN_STANDALONE_SIZE,
            old(self).s_images()[i as int].1.data matches Some(d) ==> ((d.size.x
                >= MIN_STANDALONE_SIZE || d.size.y >= MIN_STANDALONE_SIZE) ==> r is Ok),
            old(self).s_images()[i as int].1.data is None && old(self).s_images()[i
                as int].1.path is None ==> r is Ok && final(self).s_images()[i as int] == (
            old(self).s_images()[i as int].0,
            ImageEntry { data: None, ..old(self).s_images()[i as int].1 },
            ),
            r matches Err(e) ==> (old(self).s_images()[i as int].1.path is None ==> e.kind
                == ErrorKind::AtlasAlloc),
            r is Err ==> !s_resolved(final(self).s_images()[i as int].1),
            final(self).s_images()[i as int].1.texture matches Some(t) ==> exists|ci: int|
                old(commands)@.len() <= ci < final(commands)@.len() && ((#[trigger] final(commands)@[ci]) matches TextureCommand::CreateStatic { id, data: d, mipmap_mode: mm }
                    && id == t && d.size == final(self).s_images()[i as int].1.rect.max && mm
                    == final(self).s_images()[i as int].1.mipmap_mode),
    {
        let mut taken: Option<ImageData> = None;
        core::mem::swap(&mut self.images[i].1.data, &mut taken);
        let ghost after_take = *self;
        proof {
            assert(self.s_images() =~= old(self).s_images().update(
                i as int,
                (
                    old(self).s_images()[i as int].0,
                    ImageEntry { data: None, ..old(self).s_images()[i as int].1 },
                ),
            ));
            assert forall|m: int|
                0 <= m < old(self).s_images().len() && m != i
                    implies #[trigger] self.s_images()[m] == old(self).s_images()[m] by {}
            Self::lemma_wf_entry_fields(old(self), self, i as int);
        }
        let data: ImageData = match taken {
            Some(d) => d,
            None => {
                let has_path: bool = self.images[i].1.path.is_some();
                if !has_path {
                    return Ok(());
                }
                let path: AssetPath = match &self.images[i].1.path {
                    Some(p) => p.as_borrowed(),
                    None => {
                        return Ok(());
                    },
                };
                let req: UVec2 = self.images[i].1.requested_size;
                let requested: Option<UVec2> = if req.x != 0 && req.y != 0 {
                    Some(req)
                } else {
                    None
                };
                let raw: Vec<u8> = match source.load(&path) {
                    Ok(v) => v,
                    Err(e) => {
                        return Err(e);
                    },
                };
                let ext: Option<String> = path.extension();
                let decoded: ImageData = match decoder.decode(&ext, &raw, requested) {
                    Ok(v) => v,
                    Err(e) => {
                        return Err(e);
                    },
                };
                // A decoder that returned less than asked has hit the
                // source's intrinsic maximum: record it, so the usage
                // scan never asks to re-rasterize beyond it.
                let ghost mid_take = *self;
                if req.x != 0 && req.y != 0 && (req.x > decoded.size.x || req.y
                    > decoded.size.y) {
                    self.images[i].1.max_size = decoded.size;
                    proof {
                        assert forall|m: int|
                            0 <= m < self.s_images().len() && m != i
                                implies #[trigger] self.s_images()[m] == mid_take.s_images()[m]
                            by {}
                        Self::lemma_wf_entry_fields(&mid_take, self, i as int);
                    }
                }
                decoded
            },
        };
        if data.size.x >= MIN_STANDALONE_SIZE || data.size.y >= MIN_STANDALONE_SIZE {
            let texture_id: TextureId = self.id_allocator.allocate();
            let size: UVec2 = data.size;
            let mipmap_mode: MipmapMode = self.images[i].1.mipmap_mode;
            self.images[i].1.texture = Some(texture_id);
            self.images[i].1.rect = URect { min: UVec2 { x: 0, y: 0 }, max: size };
            let ghost cs_idx = commands@.len() as int;
            let ghost cs_size = data.size;
            commands.push(TextureCommand::CreateStatic { id: texture_id, data, mipmap_mode });
            proof {
                assert(commands@[cs_idx] matches TextureCommand::CreateStatic { id, data: d, mipmap_mode: mm }
                    && id == texture_id && d.size == cs_size && mm == mipmap_mode);
                assert forall|m: int|
                    0 <= m < self.s_images().len() && m != i implies #[trigger] self.s_images()[m]
                    == after_take.s_images()[m] by {}
                assert(self.s_images()[i as int].1.alloc is None);
                Self::lemma_wf_entry_fields(&after_take, self, i as int);
            }
            return Ok(());
        }
        let ghost before_alloc = *self;
        let mipmap_mode: MipmapMode = self.images[i].1.mipmap_mode;
        let res = self.atlases.allocate(&mut self.id_allocator, commands, data, mipmap_mode);
        match res {
            Some(((aj, aid), rect)) => {
                self.images[i].1.alloc = Some((aj, aid));
                self.images[i].1.rect = rect;
                proof {
                    assert forall|m: int|
                        0 <= m < self.s_images().len() && m != i
                            implies #[trigger] self.s_images()[m] == after_take.s_images()[m]
                        by {}
                    assert(s_alloc_ok(
                        self.s_atlases(),
                        self.s_images()[i as int].1.alloc,
                        self.s_images()[i as int].1.rect,
                    ));
                    Self::lemma_wf_after_image_alloc(&after_take, self, i as int);
                }
                Ok(())
            },
            None => {
                proof {
                    assert forall|m: int|
                        0 <= m < self.s_images().len() && m != i
                            implies #[trigger] self.s_images()[m] == after_take.s_images()[m]
                        by {}
                    assert forall|m: int|
                        0 <= m < self.s_images().len() implies s_alloc_ok(
                        self.s_atlases(),
                        (#[trigger] self.s_images()[m]).1.alloc,
                        self.s_images()[m].1.rect,
                    ) by {
                        assert(s_alloc_ok(
                            before_alloc.s_atlases(),
                            before_alloc.s_images()[m].1.alloc,
                            before_alloc.s_images()[m].1.rect,
                        ));
                        if self.s_images()[m].1.alloc is Some {
                            let p = self.s_images()[m].1.alloc->0;
                            assert(before_alloc.s_atlases()[p.0 as int]->0.regions().contains_key(
                                packer_id(p.1),
                            ));
                        }
                    }
                    assert forall|m: int|
                        0 <= m < self.s_glyphs().len() implies s_alloc_ok(
                        self.s_atlases(),
                        (#[trigger] self.s_glyphs()[m]).1.alloc,
                        self.s_glyphs()[m].1.rect,
                    ) by {
                        assert(s_alloc_ok(
                            before_alloc.s_atlases(),
                            before_alloc.s_glyphs()[m].1.alloc,
                            before_alloc.s_glyphs()[m].1.rect,
                        ));
                    }
                }
                Err(
                    Error::new(
                        ErrorKind::AtlasAlloc,
                        String::from_str("failed to allocate image in atlas"),
                    ),
                )
            },
        }
    }

    /// Decodes and places every unresolved image; an entry that is already
    /// resolved is never touched again. Images at or above the standalone
    /// threshold on either axis get a dedicated texture; the rest go to a
    /// shared atlas, or the pass stops with `AtlasAlloc`.
    pub fn load_images<S: AssetSource + ?Sized, D: ImageDecoder + ?Sized>(
        &mut self,
        source: &S,
        decoder: &D,
        commands: &mut Vec<TextureCommand>,
    ) -> (r: OhmResult<()>)
        requires
            old(self).wf(),
        ensures
            final(self).wf(),
            final(self).s_glyphs() == old(self).s_glyphs(),
            final(self).s_paths() == old(self).s_paths(),
            final(self).s_next_image_id() == old(self).s_next_image_id(),
            final(self).s_images().len() == old(self).s_images().len(),
            old(commands)@.is_prefix_of(final(commands)@),
            forall|m: int|
                0 <= m < old(self).s_images().len() ==> (#[trigger] final(self).s_images()[m]).0
                    == old(self).s_images()[m].0,
            forall|m: int|
                0 <= m < old(self).s_images().len() && s_resolved(
                    (#[trigger] old(self).s_images()[m]).1,
                ) ==> final(self).s_images()[m] == old(self).s_images()[m],
            r is Ok ==> forall|m: int|
                0 <= m < old(self).s_images().len() && ((#[trigger] old(self).s_images()[m]).1.data is Some || old(self).s_images()[m].1.path is Some)
                    ==> s_resolved(final(self).s_images()[m].1),
            forall|m: int|
                0 <= m < old(self).s_images().len() && !s_resolved(
                    (#[trigger] old(self).s_images()[m]).1,
                ) && final(self).s_images()[m].1.texture is Some ==> final(self).s_images()[m].1.rect.min == (UVec2 { x: 0u32, y: 0u32 }) && (final(self).s_images()[m].1.rect.max.x >= MIN_STANDALONE_SIZE || final(self).s_images()[m].1.rect.max.y >= MIN_STANDALONE_SIZE),
            forall|m: int|
                0 <= m < old(self).s_images().len() && !s_resolved(
                    (#[trigger] old(self).s_images()[m]).1,
                ) && final(self).s_images()[m].1.alloc is Some ==> (final(self).s_images()[m].1.rect.max.x - final(self).s_images()[m].1.rect.min.x)
                    < MIN_STANDALONE_SIZE && (final(self).s_images()[m].1.rect.max.y - final(self).s_images()[m].1.rect.min.y) < MIN_STANDALONE_SIZE,
            (forall|m: int|
                0 <= m < old(self).s_images().len() ==> s_resolved(
                    (#[trigger] old(self).s_images()[m]).1,
                ) || (old(self).s_images()[m].1.data matches Some(d) && (d.size.x
                    >= MIN_STANDALONE_SIZE || d.size.y >= MIN_STANDALONE_SIZE)) || (old(self).s_images()[m].1.data is None && old(self).s_images()[m].1.path is None))
                ==> r is Ok,
            r matches Err(e) ==> ((forall|m: int|
                0 <= m < old(self).s_images().len() ==> (#[trigger] old(self).s_images()[m]).1.path is None) ==> e.kind == ErrorKind::AtlasAlloc),
            r is Err ==> exists|fi: int|
                0 <= fi < old(self).s_images().len() && !s_resolved(
                    #[trigger] final(self).s_images()[fi].1,
                ) && !s_resolved(old(self).s_images()[fi].1) && (forall|m: int|
                    fi < m < old(self).s_images().len() ==> final(self).s_images()[m] == old(self).s_images()[m]),
            forall|m: int|
                0 <= m < old(self).s_images().len() && !s_resolved(
                    (#[trigger] old(self).s_images()[m]).1,
                ) && final(self).s_images()[m].1.texture is Some ==> exists|ci: int|
                    old(commands)@.len() <= ci < final(commands)@.len() && ((#[trigger] final(commands)@[ci]) matches TextureCommand::CreateStatic { id, data: d, mipmap_mode: mm }
                        && id == final(self).s_images()[m].1.texture->0 && d.size == final(self).s_images()[m].1.rect.max && mm
                        == final(self).s_images()[m].1.mipmap_mode),
    {
        let mut i: usize = 0;
        while i < self.images.len()
            invariant
                self.wf(),
                old(self).wf(),
                i <= self.s_images().len(),
                self.s_images().len() == old(self).s_images().len(),
                self.s_glyphs() == old(self).s_glyphs(),
                self.s_paths() == old(self).s_paths(),
                self.s_next_image_id() == old(self).s_next_image_id(),
                old(commands)@.is_prefix_of(commands@),
                forall|m: int|
                    0 <= m < old(self).s_images().len() ==> (#[trigger] self.s_images()[m]).0
                        == old(self).s_images()[m].0,
                forall|m: int|
                    0 <= m < old(self).s_images().len() && s_resolved(
                        (#[trigger] old(self).s_images()[m]).1,
                    ) ==> self.s_images()[m] == old(self).s_images()[m],
                forall|m: int|
                    i <= m < old(self).s_images().len() ==> #[trigger] self.s_images()[m] == old(self).s_images()[m],
                forall|m: int|
                    0 <= m < i && ((#[trigger] old(self).s_images()[m]).1.data is Some || old(self).s_images()[m].1.path is Some) ==> s_resolved(self.s_images()[m].1),
                forall|m: int|
                    0 <= m < old(self).s_images().len() && !s_resolved(
                        (#[trigger] old(self).s_images()[m]).1,
                    ) && self.s_images()[m].1.texture is Some ==> self.s_images()[m].1.rect.min
                        == (UVec2 { x: 0u32, y: 0u32 }) && (self.s_images()[m].1.rect.max.x
                        >= MIN_STANDALONE_SIZE || self.s_images()[m].1.rect.max.y
                        >= MIN_STANDALONE_SIZE),
                forall|m: int|
                    0 <= m < old(self).s_images().len() && !s_resolved(
                        (#[trigger] old(self).s_images()[m]).1,
                    ) && self.s_images()[m].1.alloc is Some ==> (self.s_images()[m].1.rect.max.x
                        - self.s_images()[m].1.rect.min.x) < MIN_STANDALONE_SIZE && (
                    self.s_images()[m].1.rect.max.y - self.s_images()[m].1.rect.min.y)
                        < MIN_STANDALONE_SIZE,
                forall|m: int|
                    0 <= m < old(self).s_images().len() && !s_resolved(
                        (#[trigger] old(self).s_images()[m]).1,
                    ) && self.s_images()[m].1.texture is Some ==> exists|ci: int|
                        old(commands)@.len() <= ci < commands@.len() && ((#[trigger] commands@[ci]) matches TextureCommand::CreateStatic { id, data: d, mipmap_mode: mm }
                            && id == self.s_images()[m].1.texture->0 && d.size == self.s_images()[m].1.rect.max && mm
                            == self.s_images()[m].1.mipmap_mode),
            decreases self.s_images().len() - i,
        {
            let ghost pre = *self;
            let ghost cmds_pre = commands@;
            let resolved: bool = self.images[i].1.texture.is_some()
                || self.images[i].1.alloc.is_some();
            if !resolved {
                let res = self.resolve_image_at(i, source, decoder, commands);
                proof {
                    assert forall|m: int|
                        0 <= m < old(self).s_images().len() && !s_resolved(
                            (#[trigger] old(self).s_images()[m]).1,
                        ) && self.s_images()[m].1.texture is Some implies exists|ci: int|
                        old(commands)@.len() <= ci < commands@.len() && ((
                        #[trigger] commands@[ci]) matches TextureCommand::CreateStatic { id, data: d, mipmap_mode: mm }
                            && id == self.s_images()[m].1.texture->0 && d.size
                            == self.s_images()[m].1.rect.max && mm
                            == self.s_images()[m].1.mipmap_mode) by {
                        if m == i {
                        } else {
                            assert(self.s_images()[m] == pre.s_images()[m]);
                            let ci0 = choose|ci: int|
                                old(commands)@.len() <= ci < cmds_pre.len() && ((
                                #[trigger] cmds_pre[ci]) matches TextureCommand::CreateStatic { id, data: d, mipmap_mode: mm }
                                    && id == pre.s_images()[m].1.texture->0 && d.size
                                    == pre.s_images()[m].1.rect.max && mm
                                    == pre.s_images()[m].1.mipmap_mode);
                            assert(cmds_pre.is_prefix_of(commands@));
                            assert(commands@[ci0] == cmds_pre[ci0]);
                        }
                    }
                }
                if let Err(e) = res {
                    proof {
                        assert(!s_resolved(self.s_images()[i as int].1));
                        assert(!s_resolved(old(self).s_images()[i as int].1));
                        assert(forall|m: int|
                            i < m < old(self).s_images().len() ==> #[trigger] self.s_images()[m]
                                == old(self).s_images()[m]);
                        assert(exists|fi: int|
                            0 <= fi < old(self).s_images().len() && !s_resolved(
                                #[trigger] self.s_images()[fi].1,
                            ) && !s_resolved(old(self).s_images()[fi].1) && (forall|m: int|
                                fi < m < old(self).s_images().len() ==> self.s_images()[m]
                                    == old(self).s_images()[m]));
                        if old(self).s_images()[i as int].1.data matches Some(d) && (d.size.x
                            >= MIN_STANDALONE_SIZE || d.size.y >= MIN_STANDALONE_SIZE) {
                            assert(false);
                        }
                        if old(self).s_images()[i as int].1.data is None && old(self).s_images()[i as int].1.path is None {
                            assert(false);
                        }
                    }
                    return Err(e);
                }
            }
            i = i + 1;
        }
        Ok(())
    }
}

impl TextureCache {
    /// One glyph entry changed fields the invariant does not track.
    proof fn lemma_wf_glyph_fields(pre: &TextureCache, post: &TextureCache, g: int)
        requires
            pre.wf(),
            0 <= g < pre.s_glyphs().len(),
            post.s_images() == pre.s_images(),
            post.s_atlases() == pre.s_atlases(),
            post.s_next_image_id() == pre.s_next_image_id(),
            post.s_glyphs().len() == pre.s_glyphs().len(),
            forall|m: int|
                0 <= m < pre.s_glyphs().len() && m != g ==> #[trigger] post.s_glyphs()[m]
                    == pre.s_glyphs()[m],
            post.s_glyphs()[g].0 == pre.s_glyphs()[g].0,
            post.s_glyphs()[g].1.alloc == pre.s_glyphs()[g].1.alloc,
            post.s_glyphs()[g].1.alloc is Some ==> post.s_glyphs()[g].1.rect
                == pre.s_glyphs()[g].1.rect && post.s_glyphs()[g].1.texture is None,
        ensures
            post.wf(),
    {
        assert forall|m: int|
            0 <= m < post.s_glyphs().len() && (#[trigger] post.s_glyphs()[m]).1.alloc
                is Some implies post.s_glyphs()[m].1.texture is None by {
            if m != g {
                assert(post.s_glyphs()[m] == pre.s_glyphs()[m]);
            }
        }
        assert forall|m: int|
            0 <= m < post.s_glyphs().len() implies s_alloc_ok(
            post.s_atlases(),
            (#[trigger] post.s_glyphs()[m]).1.alloc,
            post.s_glyphs()[m].1.rect,
        ) by {
            if m != g {
                assert(post.s_glyphs()[m] == pre.s_glyphs()[m]);
            }
            assert(s_alloc_ok(
                pre.s_atlases(),
                pre.s_glyphs()[m].1.alloc,
                pre.s_glyphs()[m].1.rect,
            ));
        }
        assert forall|i1: int, i2: int|
            #![trigger post.s_glyphs()[i1], post.s_glyphs()[i2]]
            0 <= i1 < i2 < post.s_glyphs().len() implies post.s_glyphs()[i1].0
            != post.s_glyphs()[i2].0 by {
            assert(post.s_glyphs()[i1].0 == pre.s_glyphs()[i1].0);
            assert(post.s_glyphs()[i2].0 == pre.s_glyphs()[i2].0);
        }
        assert forall|i1: int, i2: int|
            #![trigger post.s_glyphs()[i1].1.alloc, post.s_glyphs()[i2].1.alloc]
            0 <= i1 < i2 < post.s_glyphs().len() && post.s_glyphs()[i1].1.alloc is Some
                && post.s_glyphs()[i2].1.alloc is Some implies s_pair(post.s_glyphs()[i1].1.alloc)
            != s_pair(post.s_glyphs()[i2].1.alloc) by {
            assert(post.s_glyphs()[i1].1.alloc == pre.s_glyphs()[i1].1.alloc);
            assert(post.s_glyphs()[i2].1.alloc == pre.s_glyphs()[i2].1.alloc);
        }
        assert forall|m: int, gg: int|
            #![trigger post.s_images()[m].1.alloc, post.s_glyphs()[gg].1.alloc]
            0 <= m < post.s_images().len() && 0 <= gg < post.s_glyphs().len()
                && post.s_images()[m].1.alloc is Some && post.s_glyphs()[gg].1.alloc
                is Some implies s_pair(post.s_images()[m].1.alloc) != s_pair(
            post.s_glyphs()[gg].1.alloc,
        ) by {
            assert(post.s_glyphs()[gg].1.alloc == pre.s_glyphs()[gg].1.alloc);
        }
    }

    /// Resolves the unresolved glyph entry at `g` through the face store
    /// and the rasterizer.
    #[verifier::rlimit(80)]
    /// Records what the rasterizer answered for the pending glyph at `g`.
    /// `None` becomes the permanent renders-nothing mark, never retried; a
    /// bitmap is placed standalone (at or above the threshold on either
    /// axis) or in a shared atlas, and the entry records the bitmap's
    /// size, format and raster offset. Only the atlas pool can fail.
    #[verifier::rlimit(60)]
    pub fn store_glyph_raster(
        &mut self,
        g: usize,
        raster: Option<RasterizedGlyph>,
        commands: &mut Vec<TextureCommand>,
    ) -> (r: OhmResult<()>)
        requires
            old(self).wf(),
            g < old(self).s_glyphs().len(),
            old(self).s_glyphs()[g as int].1.alloc is None,
            old(self).s_glyphs()[g as int].1.texture is None,
            !old(self).s_glyphs()[g as int].1.is_empty,
        ensures
            final(self).wf(),
            final(self).s_images() == old(self).s_images(),
            final(self).s_paths() == old(self).s_paths(),
            final(self).s_next_image_id() == old(self).s_next_image_id(),
            final(self).s_glyphs().len() == old(self).s_glyphs().len(),
            forall|m: int|
                0 <= m < old(self).s_glyphs().len() && m != g ==> #[trigger] final(self).s_glyphs()[m] == old(self).s_glyphs()[m],
            final(self).s_glyphs()[g as int].0 == old(self).s_glyphs()[g as int].0,
            final(self).s_glyphs()[g as int].1.used == old(self).s_glyphs()[g as int].1.used,
            old(commands)@.is_prefix_of(final(commands)@),
            s_atlases_stable(old(self).s_atlases(), final(self).s_atlases()),
            r matches Err(e) ==> e.kind == ErrorKind::AtlasAlloc,
            raster is None ==> r is Ok && final(self).s_glyphs() == old(self).s_glyphs().update(
                g as int,
                (
                    old(self).s_glyphs()[g as int].0,
                    GlyphEntry { is_empty: true, ..old(self).s_glyphs()[g as int].1 },
                ),
            ),
            raster matches Some(rg) ==> {
                &&& (r is Err ==> final(self).s_glyphs() == old(self).s_glyphs()
                    && rg.image.size.x < MIN_STANDALONE_SIZE && rg.image.size.y
                    < MIN_STANDALONE_SIZE)
                &&& (r is Ok ==> !final(self).s_glyphs()[g as int].1.is_empty && final(self).s_glyphs()[g as int].1.offset == rg.offset)
                &&& ((r is Ok && (rg.image.size.x >= MIN_STANDALONE_SIZE || rg.image.size.y
                    >= MIN_STANDALONE_SIZE)) ==> final(self).s_glyphs()[g as int].1.texture
                    is Some && final(self).s_glyphs()[g as int].1.format == rg.image.format
                    && final(self).s_glyphs()[g as int].1.rect == (URect {
                    min: UVec2 { x: 0u32, y: 0u32 },
                    max: rg.image.size,
                }) && final(self).s_glyphs()[g as int].1.alloc is None)
                &&& ((r is Ok && rg.image.size.x < MIN_STANDALONE_SIZE && rg.image.size.y
                    < MIN_STANDALONE_SIZE) ==> final(self).s_glyphs()[g as int].1.alloc is Some
                    && final(self).s_glyphs()[g as int].1.texture is None && (final(self).s_glyphs()[g as int].1.rect.max.x - final(self).s_glyphs()[g
                    as int].1.rect.min.x) == rg.image.size.x && (final(self).s_glyphs()[g
                    as int].1.rect.max.y - final(self).s_glyphs()[g as int].1.rect.min.y)
                    == rg.image.size.y)
                &&& ((r is Ok && (rg.image.size.x >= MIN_STANDALONE_SIZE || rg.image.size.y
                    >= MIN_STANDALONE_SIZE)) ==> exists|ci: int|
                    old(commands)@.len() <= ci < final(commands)@.len() && final(commands)@[ci]
                        == (TextureCommand::CreateStatic {
                        id: final(self).s_glyphs()[g as int].1.texture->0,
                        data: rg.image,
                        mipmap_mode: MipmapMode::Disabled,
                    }))
            },
    {
        let result: RasterizedGlyph = match raster {
            Some(v) => v,
            None => {
                self.glyphs[g].1.is_empty = true;
                proof {
                    assert forall|m: int|
                        0 <= m < old(self).s_glyphs().len() && m != g
                            implies #[trigger] self.s_glyphs()[m] == old(self).s_glyphs()[m]
                        by {}
                    Self::lemma_wf_glyph_fields(old(self), self, g as int);
                    assert(self.s_glyphs() =~= old(self).s_glyphs().update(
                        g as int,
                        (
                            old(self).s_glyphs()[g as int].0,
                            GlyphEntry { is_empty: true, ..old(self).s_glyphs()[g as int].1 },
                        ),
                    ));
                }
                return Ok(());
            },
        };
        let offset: Vec2 = result.offset;
        if result.image.size.x >= MIN_STANDALONE_SIZE || result.image.size.y
            >= MIN_STANDALONE_SIZE {
            let texture_id: TextureId = self.id_allocator.allocate();
            let size: UVec2 = result.image.size;
            let format: ImageFormat = result.image.format;
            self.glyphs[g].1.texture = Some(texture_id);
            self.glyphs[g].1.format = format;
            self.glyphs[g].1.rect = URect { min: UVec2 { x: 0, y: 0 }, max: size };
            self.glyphs[g].1.offset = offset;
            let ghost cs_idx = commands@.len() as int;
            commands.push(
                TextureCommand::CreateStatic {
                    id: texture_id,
                    data: result.image,
                    mipmap_mode: MipmapMode::Disabled,
                },
            );
            proof {
                assert(commands@[cs_idx] == (TextureCommand::CreateStatic {
                    id: texture_id,
                    data: raster->0.image,
                    mipmap_mode: MipmapMode::Disabled,
                }));
                assert forall|m: int|
                    0 <= m < old(self).s_glyphs().len() && m != g
                        implies #[trigger] self.s_glyphs()[m] == old(self).s_glyphs()[m] by {}
                assert(self.s_glyphs()[g as int].1.alloc is None);
                Self::lemma_wf_glyph_fields(old(self), self, g as int);
            }
            return Ok(());
        }
        let ghost before_alloc = *self;
        let res = self.atlases.allocate(
            &mut self.id_allocator,
            commands,
            result.image,
            MipmapMode::Disabled,
        );
        match res {
            Some(((aj, aid), rect)) => {
                self.glyphs[g].1.alloc = Some((aj, aid));
                self.glyphs[g].1.rect = rect;
                self.glyphs[g].1.offset = offset;
                proof {
                    assert forall|m: int|
                        0 <= m < self.s_glyphs().len() && m != g
                            implies #[trigger] self.s_glyphs()[m] == old(self).s_glyphs()[m]
                        by {}
                    assert(s_alloc_ok(
                        self.s_atlases(),
                        self.s_glyphs()[g as int].1.alloc,
                        self.s_glyphs()[g as int].1.rect,
                    ));
                    Self::lemma_wf_after_glyph_alloc(old(self), self, g as int);
                }
                Ok(())
            },
            None => {
                proof {
                    assert forall|m: int|
                        0 <= m < self.s_glyphs().len() implies s_alloc_ok(
                        self.s_atlases(),
                        (#[trigger] self.s_glyphs()[m]).1.alloc,
                        self.s_glyphs()[m].1.rect,
                    ) by {
                        assert(s_alloc_ok(
                            before_alloc.s_atlases(),
                            before_alloc.s_glyphs()[m].1.alloc,
                            before_alloc.s_glyphs()[m].1.rect,
                        ));
                        if self.s_glyphs()[m].1.alloc is Some {
                            let p = self.s_glyphs()[m].1.alloc->0;
                            assert(before_alloc.s_atlases()[p.0 as int]->0.regions().contains_key(
                                packer_id(p.1),
                            ));
                        }
                    }
                    assert forall|m: int|
                        0 <= m < self.s_images().len() implies s_alloc_ok(
                        self.s_atlases(),
                        (#[trigger] self.s_images()[m]).1.alloc,
                        self.s_images()[m].1.rect,
                    ) && (self.s_images()[m].1.alloc is Some ==> self.s_images()[m].1.texture
                        is None) by {
                        assert(s_alloc_ok(
                            before_alloc.s_atlases(),
                            before_alloc.s_images()[m].1.alloc,
                            before_alloc.s_images()[m].1.rect,
                        ));
                    }
                }
                Err(
                    Error::new(
                        ErrorKind::AtlasAlloc,
                        String::from_str("failed to allocate glyph in atlas"),
                    ),
                )
            },
        }
    }

    /// Resolves the pending glyph at `g`: looks its face up, asks the
    /// rasterizer, and stores whatever came back.
    fn resolve_glyph_at<R: Rasterizer + ?Sized>(
        &mut self,
        g: usize,
        font_db: &FontDatabase,
        rasterizer: &mut R,
        commands: &mut Vec<TextureCommand>,
    ) -> (r: OhmResult<()>)
        requires
            old(self).wf(),
            g < old(self).s_glyphs().len(),
            old(self).s_glyphs()[g as int].1.alloc is None,
            old(self).s_glyphs()[g as int].1.texture is None,
            !old(self).s_glyphs()[g as int].1.is_empty,
        ensures
            final(self).wf(),
            final(self).s_images() == old(self).s_images(),
            final(self).s_paths() == old(self).s_paths(),
            final(self).s_next_image_id() == old(self).s_next_image_id(),
            final(self).s_glyphs().len() == old(self).s_glyphs().len(),
            forall|m: int|
                0 <= m < old(self).s_glyphs().len() && m != g ==> #[trigger] final(self).s_glyphs()[m] == old(self).s_glyphs()[m],
            final(self).s_glyphs()[g as int].0 == old(self).s_glyphs()[g as int].0,
            old(commands)@.is_prefix_of(final(commands)@),
            s_atlases_stable(old(self).s_atlases(), final(self).s_atlases()),
            r is Ok ==> final(self).s_glyphs()[g as int].1.alloc is Some || final(self).s_glyphs()[g as int].1.texture is Some || final(self).s_glyphs()[g
                as int].1.is_empty || (!font_db.loaded_ids().contains(
                old(self).s_glyphs()[g as int].0.font,
            ) && final(self).s_glyphs()[g as int] == old(self).s_glyphs()[g as int]),
            r matches Err(e) ==> e.kind == ErrorKind::AtlasAlloc,
            r is Err ==> final(self).s_glyphs() == old(self).s_glyphs(),
            final(self).s_glyphs()[g as int].1.texture is Some ==> final(self).s_glyphs()[g
                as int].1.rect.min == (UVec2 { x: 0u32, y: 0u32 }) && (final(self).s_glyphs()[g
                as int].1.rect.max.x >= MIN_STANDALONE_SIZE || final(self).s_glyphs()[g
                as int].1.rect.max.y >= MIN_STANDALONE_SIZE),
            final(self).s_glyphs()[g as int].1.alloc is Some ==> (final(self).s_glyphs()[g
                as int].1.rect.max.x - final(self).s_glyphs()[g as int].1.rect.min.x)
                < MIN_STANDALONE_SIZE && (final(self).s_glyphs()[g as int].1.rect.max.y - final(self).s_glyphs()[g as int].1.rect.min.y) < MIN_STANDALONE_SIZE,
            !font_db.loaded_ids().contains(old(self).s_glyphs()[g as int].0.font) ==> r is Ok,
    {
        let key: GlyphKey = self.glyphs[g].0;
        let face = match font_db.get(key.font) {
            Some(f) => f,
            None => {
                return Ok(());
            },
        };
        let rasterized = rasterizer.rasterize(face, key.glyph, key.size, key.subpixel_bin);
        self.store_glyph_raster(g, rasterized, commands)
    }

    /// Rasterizes and places every unresolved glyph. A glyph the
    /// rasterizer declines is cached as permanently empty and never
    /// retried; one whose face is not loaded is skipped for this frame.
    /// Entries already resolved are never touched again.
    pub fn load_glyphs<R: Rasterizer + ?Sized>(
        &mut self,
        font_db: &FontDatabase,
        rasterizer: &mut R,
        commands: &mut Vec<TextureCommand>,
    ) -> (r: OhmResult<()>)
        requires
            old(self).wf(),
        ensures
            final(self).wf(),
            final(self).s_images() == old(self).s_images(),
            final(self).s_paths() == old(self).s_paths(),
            final(self).s_next_image_id() == old(self).s_next_image_id(),
            final(self).s_glyphs().len() == old(self).s_glyphs().len(),
            old(commands)@.is_prefix_of(final(commands)@),
            forall|m: int|
                0 <= m < old(self).s_glyphs().len() ==> (#[trigger] final(self).s_glyphs()[m]).0
                    == old(self).s_glyphs()[m].0,
            forall|m: int|
                0 <= m < old(self).s_glyphs().len() && ((#[trigger] old(self).s_glyphs()[m]).1.alloc is Some || old(self).s_glyphs()[m].1.texture is Some || old(self).s_glyphs()[m].1.is_empty) ==> final(self).s_glyphs()[m] == old(self).s_glyphs()[m],
            r is Ok ==> forall|m: int|
                0 <= m < old(self).s_glyphs().len() ==> (#[trigger] final(self).s_glyphs()[m]).1.alloc is Some || final(self).s_glyphs()[m].1.texture is Some || final(self).s_glyphs()[m].1.is_empty || !font_db.loaded_ids().contains(
                    old(self).s_glyphs()[m].0.font,
                ),
            r matches Err(e) ==> e.kind == ErrorKind::AtlasAlloc,
            (forall|m: int|
                0 <= m < old(self).s_glyphs().len() ==> (#[trigger] old(self).s_glyphs()[m]).1.alloc is Some || old(self).s_glyphs()[m].1.texture is Some || old(self).s_glyphs()[m].1.is_empty || !font_db.loaded_ids().contains(
                    old(self).s_glyphs()[m].0.font,
                )) ==> r is Ok,
            forall|m: int|
                0 <= m < old(self).s_glyphs().len() && !((#[trigger] old(self).s_glyphs()[m]).1.alloc is Some || old(self).s_glyphs()[m].1.texture is Some) && final(self).s_glyphs()[m].1.texture is Some ==> final(self).s_glyphs()[m].1.rect.min == (
                UVec2 { x: 0u32, y: 0u32 }) && (final(self).s_glyphs()[m].1.rect.max.x
                    >= MIN_STANDALONE_SIZE || final(self).s_glyphs()[m].1.rect.max.y
                    >= MIN_STANDALONE_SIZE),
            forall|m: int|
                0 <= m < old(self).s_glyphs().len() && !((#[trigger] old(self).s_glyphs()[m]).1.alloc is Some || old(self).s_glyphs()[m].1.texture is Some) && final(self).s_glyphs()[m].1.alloc is Some ==> (final(self).s_glyphs()[m].1.rect.max.x
                    - final(self).s_glyphs()[m].1.rect.min.x) < MIN_STANDALONE_SIZE && (final(self).s_glyphs()[m].1.rect.max.y - final(self).s_glyphs()[m].1.rect.min.y)
                    < MIN_STANDALONE_SIZE,
            r is Err ==> exists|fi: int|
                0 <= fi < old(self).s_glyphs().len() && !((#[trigger] old(self).s_glyphs()[fi]).1.alloc is Some || old(self).s_glyphs()[fi].1.texture is Some || old(self).s_glyphs()[fi].1.is_empty) && final(self).s_glyphs()[fi] == old(self).s_glyphs()[fi] && (forall|m: int|
                    fi < m < old(self).s_glyphs().len() ==> final(self).s_glyphs()[m] == old(self).s_glyphs()[m]),
    {
        let mut g: usize = 0;
        while g < self.glyphs.len()
            invariant
                self.wf(),
                old(self).wf(),
                g <= self.s_glyphs().len(),
                self.s_glyphs().len() == old(self).s_glyphs().len(),
                self.s_images() == old(self).s_images(),
                self.s_paths() == old(self).s_paths(),
                self.s_next_image_id() == old(self).s_next_image_id(),
                old(commands)@.is_prefix_of(commands@),
                forall|m: int|
                    0 <= m < old(self).s_glyphs().len() ==> (#[trigger] self.s_glyphs()[m]).0
                        == old(self).s_glyphs()[m].0,
                forall|m: int|
                    0 <= m < old(self).s_glyphs().len() && ((#[trigger] old(self).s_glyphs()[m]).1.alloc is Some || old(self).s_glyphs()[m].1.texture is Some
                        || old(self).s_glyphs()[m].1.is_empty) ==> self.s_glyphs()[m] == old(self).s_glyphs()[m],
                forall|m: int|
                    g <= m < old(self).s_glyphs().len() ==> #[trigger] self.s_glyphs()[m] == old(self).s_glyphs()[m],
                forall|m: int|
                    0 <= m < g ==> (#[trigger] self.s_glyphs()[m]).1.alloc is Some
                        || self.s_glyphs()[m].1.texture is Some || self.s_glyphs()[m].1.is_empty
                        || !font_db.loaded_ids().contains(old(self).s_glyphs()[m].0.font),
                forall|m: int|
                    0 <= m < old(self).s_glyphs().len() && !((#[trigger] old(self).s_glyphs()[m]).1.alloc is Some || old(self).s_glyphs()[m].1.texture is Some)
                        && self.s_glyphs()[m].1.texture is Some ==> self.s_glyphs()[m].1.rect.min
                        == (UVec2 { x: 0u32, y: 0u32 }) && (self.s_glyphs()[m].1.rect.max.x
                        >= MIN_STANDALONE_SIZE || self.s_glyphs()[m].1.rect.max.y
                        >= MIN_STANDALONE_SIZE),
                forall|m: int|
                    0 <= m < old(self).s_glyphs().len() && !((#[trigger] old(self).s_glyphs()[m]).1.alloc is Some || old(self).s_glyphs()[m].1.texture is Some)
                        && self.s_glyphs()[m].1.alloc is Some ==> (self.s_glyphs()[m].1.rect.max.x
                        - self.s_glyphs()[m].1.rect.min.x) < MIN_STANDALONE_SIZE && (
                    self.s_glyphs()[m].1.rect.max.y - self.s_glyphs()[m].1.rect.min.y)
                        < MIN_STANDALONE_SIZE,
            decreases self.s_glyphs().len() - g,
        {
            let ghost pre = *self;
            let unresolved: bool = self.glyphs[g].1.alloc.is_none() && self.glyphs[g].1.texture.is_none() && !self.glyphs[g].1.is_empty;
            if unresolved {
                let res = self.resolve_glyph_at(g, font_db, rasterizer, commands);
                if let Err(e) = res {
                    proof {
                        assert(self.s_glyphs() == pre.s_glyphs());
                        assert(self.s_glyphs()[g as int] == old(self).s_glyphs()[g as int]);
                        assert(forall|m: int|
                            g < m < old(self).s_glyphs().len()
                                ==> #[trigger] self.s_glyphs()[m] == old(self).s_glyphs()[m]);
                        assert(exists|fi: int|
                            0 <= fi < old(self).s_glyphs().len() && !((#[trigger] old(self).s_glyphs()[fi]).1.alloc is Some || old(self).s_glyphs()[fi].1.texture
                                is Some || old(self).s_glyphs()[fi].1.is_empty) && self.s_glyphs()[fi] == old(self).s_glyphs()[fi] && (forall|m: int|
                                fi < m < old(self).s_glyphs().len() ==> self.s_glyphs()[m]
                                    == old(self).s_glyphs()[m]));
                    }
                    return Err(e);
                }
            }
            g = g + 1;
        }
        Ok(())
    }
}

/// The glyph keys referenced anywhere in `cmds[i..]`, nested layers
/// included.
pub open spec fn s_tree_glyph_keys(cmds: Seq<Command>, i: int) -> Set<GlyphKey>
    decreases cmds, 1nat, cmds.len() - i,
{
    if i < 0 || i >= cmds.len() {
        Set::empty()
    } else {
        let here = match cmds[i] {
            Command::DrawGlyph(g) => Set::empty().insert(crate::batcher::s_glyph_key(g)),
            Command::DrawLayer(l) => s_tree_glyph_keys(l.commands@, 0),
            _ => Set::empty(),
        };
        here.union(s_tree_glyph_keys(cmds, i + 1))
    }
}

/// Whether `news` differs from `olds` at most in usage marks, associating
/// every key to the same resolution state.
pub open spec fn s_glyph_assoc_same_but_used(pre: &TextureCache, post: &TextureCache) -> bool {
    forall|k: GlyphKey|
        (#[trigger] pre.s_glyph(k)) matches Some(e0) ==> post.s_glyph(k) == Some(
            GlyphEntry { used: post.s_glyph(k)->0.used, ..e0 },
        )
}

impl TextureCache {
    /// Registers every glyph the command tree draws, marking each used;
    /// keys already present keep their resolution untouched (spec 4.3
    /// step 1, the glyph half of the usage scan).
    #[verifier::rlimit(100)]
    #[verifier::spinoff_prover]
    pub fn add_glyphs_from_commands(&mut self, commands: &Vec<Command>)
        requires
            old(self).wf(),
        ensures
            final(self).wf(),
            final(self).s_images() == old(self).s_images(),
            final(self).s_atlases() == old(self).s_atlases(),
            final(self).s_paths() == old(self).s_paths(),
            final(self).s_next_image_id() == old(self).s_next_image_id(),
            forall|k: GlyphKey|
                s_tree_glyph_keys(commands@, 0).contains(k) ==> ((#[trigger] final(self).s_glyph(
                    k,
                )) matches Some(e) && e.used),
            forall|k: GlyphKey|
                !s_tree_glyph_keys(commands@, 0).contains(k) ==> (#[trigger] final(self).s_glyph(
                    k,
                )) == old(self).s_glyph(k),
            s_glyph_assoc_same_but_used(old(self), final(self)),
        decreases commands@, 9nat, 0nat,
    {
        let ghost tree0 = s_tree_glyph_keys(commands@, 0);
        let mut i: usize = 0;
        while i < commands.len()
            invariant
                self.wf(),
                old(self).wf(),
                tree0 == s_tree_glyph_keys(commands@, 0),
                i <= commands@.len(),
                self.s_images() == old(self).s_images(),
                self.s_atlases() == old(self).s_atlases(),
                self.s_paths() == old(self).s_paths(),
                self.s_next_image_id() == old(self).s_next_image_id(),
                s_tree_glyph_keys(commands@, i as int).subset_of(tree0),
                forall|k: GlyphKey|
                    tree0.contains(k) ==> (s_tree_glyph_keys(commands@, i as int).contains(k) || ((
                    #[trigger] self.s_glyph(k)) matches Some(e) && e.used)),
                forall|k: GlyphKey|
                    !tree0.contains(k) ==> (#[trigger] self.s_glyph(k)) == old(self).s_glyph(k),
                s_glyph_assoc_same_but_used(old(self), self),
            decreases commands@.len() - i,
        {
            let ghost pre = *self;
            let ghost treei = s_tree_glyph_keys(commands@, i as int);
            let ghost treen = s_tree_glyph_keys(commands@, i + 1);
            match &commands[i] {
                Command::DrawGlyph(g) => {
                    let key = GlyphKey {
                        font: g.font,
                        glyph: g.glyph,
                        size: g.size,
                        subpixel_bin: SubpixelBin::new(g.pos),
                    };
                    proof {
                        assert(key == crate::batcher::s_glyph_key(*g));
                        assert(treei == Set::empty().insert(key).union(treen));
                        assert(treei.contains(key));
                    }
                    self.add_glyph(key);
                    proof {
                        assert forall|k: GlyphKey|
                            tree0.contains(k) implies treen.contains(k) || ((
                        #[trigger] self.s_glyph(k)) matches Some(e) && e.used) by {
                            if k == key {
                            } else if treei.contains(k) {
                                assert(treen.contains(k));
                            } else {
                                assert(pre.s_glyph(k) matches Some(e) && e.used);
                                assert(self.s_glyph(k) == pre.s_glyph(k));
                            }
                        }
                        assert forall|k: GlyphKey|
                            !tree0.contains(k) implies (#[trigger] self.s_glyph(k)) == old(
                            self,
                        ).s_glyph(k) by {
                            assert(k != key);
                            assert(self.s_glyph(k) == pre.s_glyph(k));
                        }
                        assert forall|k: GlyphKey|
                            (#[trigger] old(self).s_glyph(k)) is Some implies self.s_glyph(k)
                            == Some(
                            GlyphEntry {
                                used: self.s_glyph(k)->0.used,
                                ..old(self).s_glyph(k)->0
                            },
                        ) by {
                            if k != key {
                                assert(self.s_glyph(k) == pre.s_glyph(k));
                            } else {
                                if pre.s_glyph(key) is Some {
                                    assert(pre.s_glyph(key) == Some(
                                        GlyphEntry {
                                            used: pre.s_glyph(key)->0.used,
                                            ..old(self).s_glyph(key)->0
                                        },
                                    ));
                                }
                            }
                        }
                    }
                },
                Command::DrawLayer(l) => {
                    proof {
                        assert(treei == s_tree_glyph_keys(l.commands@, 0).union(treen));
                    }
                    self.add_glyphs_from_commands(&l.commands);
                    proof {
                        let sub = s_tree_glyph_keys(l.commands@, 0);
                        assert forall|k: GlyphKey|
                            tree0.contains(k) implies treen.contains(k) || ((
                        #[trigger] self.s_glyph(k)) matches Some(e) && e.used) by {
                            if sub.contains(k) {
                            } else if treei.contains(k) {
                                assert(treen.contains(k));
                            } else if !treei.contains(k) && !(pre.s_glyph(k) matches Some(e)
                                && e.used) {
                            } else {
                                assert(self.s_glyph(k) == pre.s_glyph(k));
                            }
                        }
                        assert forall|k: GlyphKey|
                            !tree0.contains(k) implies (#[trigger] self.s_glyph(k)) == old(
                            self,
                        ).s_glyph(k) by {
                            assert(!sub.contains(k));
                            assert(self.s_glyph(k) == pre.s_glyph(k));
                        }
                        assert forall|k: GlyphKey|
                            (#[trigger] old(self).s_glyph(k)) is Some implies self.s_glyph(k)
                            == Some(
                            GlyphEntry {
                                used: self.s_glyph(k)->0.used,
                                ..old(self).s_glyph(k)->0
                            },
                        ) by {
                            assert(pre.s_glyph(k) == Some(
                                GlyphEntry {
                                    used: pre.s_glyph(k)->0.used,
                                    ..old(self).s_glyph(k)->0
                                },
                            ));
                        }
                    }
                },
                _ => {
                    proof {
                        assert(treei == Set::<GlyphKey>::empty().union(treen));
                    }
                },
            }
            i = i + 1;
        }
        proof {
            assert(s_tree_glyph_keys(commands@, commands@.len() as int) =~= Set::empty());
        }
    }

    /// The usage scan's glyph half over every list of the frame.
    pub fn add_glyphs_from_lists(&mut self, lists: &Vec<DrawList>)
        requires
            old(self).wf(),
        ensures
            final(self).wf(),
            final(self).s_images() == old(self).s_images(),
            final(self).s_atlases() == old(self).s_atlases(),
            final(self).s_paths() == old(self).s_paths(),
            final(self).s_next_image_id() == old(self).s_next_image_id(),
            forall|li: int, k: GlyphKey|
                0 <= li < lists@.len() && #[trigger] s_tree_glyph_keys(
                    lists@[li].commands@,
                    0,
                ).contains(k) ==> (final(self).s_glyph(k) matches Some(e) && e.used),
            s_glyph_assoc_same_but_used(old(self), final(self)),
    {
        let mut li: usize = 0;
        while li < lists.len()
            invariant
                self.wf(),
                old(self).wf(),
                li <= lists@.len(),
                self.s_images() == old(self).s_images(),
                self.s_atlases() == old(self).s_atlases(),
                self.s_paths() == old(self).s_paths(),
                self.s_next_image_id() == old(self).s_next_image_id(),
                forall|lj: int, k: GlyphKey|
                    0 <= lj < li && #[trigger] s_tree_glyph_keys(
                        lists@[lj].commands@,
                        0,
                    ).contains(k) ==> (self.s_glyph(k) matches Some(e) && e.used),
                s_glyph_assoc_same_but_used(old(self), self),
            decreases lists@.len() - li,
        {
            let ghost pre = *self;
            self.add_glyphs_from_commands(&lists[li].commands);
            proof {
                assert forall|lj: int, k: GlyphKey|
                    0 <= lj < li + 1 && #[trigger] s_tree_glyph_keys(
                        lists@[lj].commands@,
                        0,
                    ).contains(k) implies (self.s_glyph(k) matches Some(e) && e.used) by {
                    if lj < li {
                        if s_tree_glyph_keys(lists@[li as int].commands@, 0).contains(k) {
                        } else {
                            assert(self.s_glyph(k) == pre.s_glyph(k));
                            assert(pre.s_glyph(k) matches Some(e) && e.used);
                        }
                    }
                }
                assert forall|k: GlyphKey|
                    (#[trigger] old(self).s_glyph(k)) is Some implies self.s_glyph(k) == Some(
                    GlyphEntry { used: self.s_glyph(k)->0.used, ..old(self).s_glyph(k)->0 },
                ) by {
                    assert(pre.s_glyph(k) == Some(
                        GlyphEntry { used: pre.s_glyph(k)->0.used, ..old(self).s_glyph(k)->0 },
                    ));
                }
            }
            li = li + 1;
        }
    }
}


/// Whether `news` keeps every image exactly, except that requested sizes
/// may only have grown: the monotone high-water mark of the usage scan.
pub open spec fn s_images_requested_grown(
    olds: Seq<(u64, ImageEntry)>,
    news: Seq<(u64, ImageEntry)>,
) -> bool {
    &&& news.len() == olds.len()
    &&& forall|i: int|
        0 <= i < olds.len() ==> (#[trigger] news[i]).0 == olds[i].0 && news[i].1 == (ImageEntry {
            requested_size: news[i].1.requested_size,
            ..olds[i].1
        }) && news[i].1.requested_size.x >= olds[i].1.requested_size.x
            && news[i].1.requested_size.y >= olds[i].1.requested_size.y
}

/// The length of a fixed-point column vector.
pub open spec fn s_column_norm(x: int, y: int) -> int {
    crate::math::s_isqrt(x * x + y * y)
}

/// The largest linear scale factor of a transform: the longer of its two
/// column vectors, in fixed-point units, clamped into `i64`.
pub open spec fn s_transform_scale(t: Transform) -> int {
    crate::math::s_min(
        crate::math::s_max(
            s_column_norm(t.m00 as int, t.m10 as int),
            s_column_norm(t.m01 as int, t.m11 as int),
        ),
        i64::MAX as int,
    )
}

fn transform_scale(t: &Transform) -> (r: i64)
    ensures
        r >= 0,
        r as int == s_transform_scale(*t),
{
    let c0: u128 = column_norm(t.m00, t.m10);
    let c1: u128 = column_norm(t.m01, t.m11);
    let m: u128 = if c0 >= c1 {
        c0
    } else {
        c1
    };
    if m > i64::MAX as u128 {
        i64::MAX
    } else {
        m as i64
    }
}

/// The length of a fixed-point column vector, rounded down.
fn column_norm(x: i64, y: i64) -> (r: u128)
    ensures
        r as int == s_column_norm(x as int, y as int),
        r >= 0,
{
    proof {
        assert((x as int) * (x as int) >= 0 && (x as int) * (x as int) <= 0x8000000000000000
            * 0x8000000000000000) by (nonlinear_arith)
            requires
                -0x8000000000000000 <= x as int <= 0x7FFFFFFFFFFFFFFF,
        ;
        assert((y as int) * (y as int) >= 0 && (y as int) * (y as int) <= 0x8000000000000000
            * 0x8000000000000000) by (nonlinear_arith)
            requires
                -0x8000000000000000 <= y as int <= 0x7FFFFFFFFFFFFFFF,
        ;
    }
    let xx: u128 = (x as i128 * x as i128) as u128;
    let yy: u128 = (y as i128 * y as i128) as u128;
    proof {
        assert(xx as int == (x as int) * (x as int));
        assert(yy as int == (y as int) * (y as int));
    }
    crate::math::isqrt(xx + yy)
}

/// The on-screen resolution an image fill needs: its drawn size, spread
/// over any clip, scaled by the transform's largest factor, in texels.
pub open spec fn s_size_target(size: Vec2, clip: Option<URect>, scale: int) -> UVec2 {
    let clipped = match clip {
        Some(c) => crate::math::sv_div(
            size,
            Vec2 {
                x: (crate::math::s_max(0, c.max.x - c.min.x) * 256) as i64,
                y: (crate::math::s_max(0, c.max.y - c.min.y) * 256) as i64,
            },
        ),
        None => size,
    };
    crate::math::s_to_texels(
        crate::math::sv_mul(clipped, Vec2 { x: scale as i64, y: scale as i64 }),
    )
}

/// Whether the table's entry for `id`, if any, already asks for at least
/// `target` — unless its intrinsic maximum is known, which caps requests.
pub open spec fn s_size_satisfied(
    images: Seq<(u64, ImageEntry)>,
    id: ImageId,
    target: UVec2,
) -> bool {
    s_assoc(images, id.0) matches Some(e) ==> (e.max_size == (UVec2 { x: 0u32, y: 0u32 })
        ==> e.requested_size.x >= target.x && e.requested_size.y >= target.y)
}

/// Whether some image fill of `id` in `cmds[i..]`, under the accumulated
/// transform `t`, derives exactly the resolution `target`.
pub open spec fn s_fill_target_in(
    meshes: &PathCache,
    cmds: Seq<Command>,
    i: int,
    t: Transform,
    id: ImageId,
    target: UVec2,
) -> bool
    decreases cmds, 1nat, cmds.len() - i,
{
    if i < 0 || i >= cmds.len() {
        false
    } else {
        let here = match cmds[i] {
            Command::DrawRect(r) => (r.fill matches Fill::Image(fi) && fi.image == id && target
                == s_size_target(r.size, fi.clip_rect, s_transform_scale(t))),
            Command::FillPath(p) => (p.fill matches Fill::Image(fi) && fi.image == id && (
            match crate::batcher::s_mesh_for(
                meshes,
                p.path.events@,
                crate::mesh::MeshKind::Fill(p.options),
            ) {
                Some(mesh) => match mesh.bounding_rect {
                    Some(rect) => target == s_size_target(
                        crate::math::sv_sub(rect.max, rect.min),
                        fi.clip_rect,
                        s_transform_scale(t),
                    ),
                    None => false,
                },
                None => false,
            })),
            Command::StrokePath(p) => (p.fill matches Fill::Image(fi) && fi.image == id && (
            match crate::batcher::s_mesh_for(
                meshes,
                p.path.events@,
                crate::mesh::MeshKind::Stroke(p.options),
            ) {
                Some(mesh) => match mesh.bounding_rect {
                    Some(rect) => target == s_size_target(
                        crate::math::sv_sub(rect.max, rect.min),
                        fi.clip_rect,
                        s_transform_scale(t),
                    ),
                    None => false,
                },
                None => false,
            })),
            Command::DrawLayer(l) => s_fill_target_in(
                meshes,
                l.commands@,
                0,
                crate::math::s_compose(l.transform, t),
                id,
                target,
            ),
            _ => false,
        };
        here || s_fill_target_in(meshes, cmds, i + 1, t, id, target)
    }
}

/// Growing requested sizes keeps every association, entry for entry, with
/// the requested size only larger.
proof fn lemma_assoc_grown(olds: Seq<(u64, ImageEntry)>, news: Seq<(u64, ImageEntry)>, k: u64)
    requires
        s_images_requested_grown(olds, news),
    ensures
        s_assoc(olds, k) is Some <==> s_assoc(news, k) is Some,
        s_assoc(olds, k) matches Some(e) ==> s_assoc(news, k) matches Some(e2) && e2
            == (ImageEntry { requested_size: e2.requested_size, ..e }) && e2.requested_size.x
            >= e.requested_size.x && e2.requested_size.y >= e.requested_size.y,
    decreases olds.len(),
{
    if olds.len() > 0 {
        assert(news[0].0 == olds[0].0);
        if olds[0].0 != k {
            assert forall|i: int|
                0 <= i < olds.skip(1).len() implies (#[trigger] news.skip(1)[i]).0 == olds.skip(
                1,
            )[i].0 && news.skip(1)[i].1 == (ImageEntry {
                requested_size: news.skip(1)[i].1.requested_size,
                ..olds.skip(1)[i].1
            }) && news.skip(1)[i].1.requested_size.x >= olds.skip(1)[i].1.requested_size.x
                && news.skip(1)[i].1.requested_size.y >= olds.skip(1)[i].1.requested_size.y by {
                assert(olds.skip(1)[i] == olds[i + 1]);
                assert(news.skip(1)[i] == news[i + 1]);
            }
            lemma_assoc_grown(olds.skip(1), news.skip(1), k);
        }
    }
}

/// A step that contributes no fill target of its own: the reachable set
/// reduces to the rest of the list, and satisfied targets stay satisfied.
proof fn lemma_walk_no_fill(
    meshes: &PathCache,
    cmds: Seq<Command>,
    i: int,
    t: Transform,
    pres: Seq<(u64, ImageEntry)>,
    news: Seq<(u64, ImageEntry)>,
)
    requires
        0 <= i < cmds.len(),
        s_images_requested_grown(pres, news),
        forall|id2: ImageId, t2: UVec2|
            #[trigger] s_fill_target_in(meshes, cmds, i, t, id2, t2) ==> s_fill_target_in(
                meshes,
                cmds,
                i + 1,
                t,
                id2,
                t2,
            ),
        forall|id2: ImageId, t2: UVec2|
            #[trigger] s_fill_target_in(meshes, cmds, 0, t, id2, t2) ==> s_fill_target_in(
                meshes,
                cmds,
                i,
                t,
                id2,
                t2,
            ) || s_size_satisfied(pres, id2, t2),
    ensures
        forall|id2: ImageId, t2: UVec2|
            #[trigger] s_fill_target_in(meshes, cmds, 0, t, id2, t2) ==> s_fill_target_in(
                meshes,
                cmds,
                i + 1,
                t,
                id2,
                t2,
            ) || s_size_satisfied(news, id2, t2),
{
    assert forall|id2: ImageId, t2: UVec2|
        #[trigger] s_fill_target_in(meshes, cmds, 0, t, id2, t2) implies s_fill_target_in(
        meshes,
        cmds,
        i + 1,
        t,
        id2,
        t2,
    ) || s_size_satisfied(news, id2, t2) by {
        if s_size_satisfied(pres, id2, t2) {
            lemma_satisfied_grown(pres, news, id2, t2);
        }
    }
}

/// Growing requested sizes keeps a satisfied target satisfied.
proof fn lemma_satisfied_grown(
    olds: Seq<(u64, ImageEntry)>,
    news: Seq<(u64, ImageEntry)>,
    id: ImageId,
    target: UVec2,
)
    requires
        s_images_requested_grown(olds, news),
        s_size_satisfied(olds, id, target),
    ensures
        s_size_satisfied(news, id, target),
{
    lemma_assoc_grown(olds, news, id.0);
}

/// The on-screen resolution for a fill, as the usage scan derives it.
fn fill_target(size: Vec2, clip: Option<URect>, scale: i64) -> (r: UVec2)
    requires
        scale >= 0,
    ensures
        r == s_size_target(size, clip, scale as int),
{
    let clipped: Vec2 = match clip {
        Some(c) => {
            let cs: UVec2 = c.size();
            size.div(cs.to_fx())
        },
        None => size,
    };
    let scaled: Vec2 = clipped.mul(Vec2 { x: scale, y: scale });
    crate::math::to_texels(scaled)
}

impl TextureCache {
    /// Raises one image's requested resolution to at least `target`; the
    /// rest of the entry, and every other entry, stays as it is.
    fn bump_requested(&mut self, id: ImageId, target: UVec2)
        requires
            old(self).wf(),
        ensures
            final(self).wf(),
            s_images_requested_grown(old(self).s_images(), final(self).s_images()),
            final(self).s_glyphs() == old(self).s_glyphs(),
            final(self).s_atlases() == old(self).s_atlases(),
            final(self).s_paths() == old(self).s_paths(),
            final(self).s_next_image_id() == old(self).s_next_image_id(),
            s_size_satisfied(final(self).s_images(), id, target),
    {
        let idx: usize = match self.find_image(id.0) {
            Some(v) => v,
            None => {
                return;
            },
        };
        let cur: UVec2 = self.images[idx].1.requested_size;
        let maxed: UVec2 = self.images[idx].1.max_size;
        // A source already rasterized at its intrinsic maximum is never
        // asked to grow further.
        if !(maxed.x == 0 && maxed.y == 0) {
            return;
        }
        let grown = UVec2 {
            x: if target.x >= cur.x {
                target.x
            } else {
                cur.x
            },
            y: if target.y >= cur.y {
                target.y
            } else {
                cur.y
            },
        };
        self.images[idx].1.requested_size = grown;
        proof {
            assert forall|m: int|
                0 <= m < old(self).s_images().len() && m != idx
                    implies #[trigger] self.s_images()[m] == old(self).s_images()[m] by {}
            Self::lemma_wf_entry_fields(old(self), self, idx as int);
            assert forall|j: int| 0 <= j < idx implies (#[trigger] self.s_images()[j]).0
                != id.0 by {
                assert(self.s_images()[j] == old(self).s_images()[j]);
            }
            lemma_assoc_found(self.s_images(), idx as int, id.0);
            assert(self.s_images()[idx as int].1.requested_size == grown);
        }
    }

    /// The usage scan's sizing half (spec 4.3 step 1): walks the tree,
    /// derives each image fill's on-screen resolution from the transform
    /// stack (and any clip), and raises the entry's requested size, which
    /// never shrinks.
    pub fn set_image_sizes_from_commands(
        &mut self,
        meshes: &PathCache,
        commands: &Vec<Command>,
        transform: Transform,
    )
        requires
            old(self).wf(),
            meshes.wf(),
        ensures
            final(self).wf(),
            s_images_requested_grown(old(self).s_images(), final(self).s_images()),
            final(self).s_glyphs() == old(self).s_glyphs(),
            final(self).s_atlases() == old(self).s_atlases(),
            final(self).s_paths() == old(self).s_paths(),
            final(self).s_next_image_id() == old(self).s_next_image_id(),
            forall|id2: ImageId, t2: UVec2|
                #[trigger] s_fill_target_in(meshes, commands@, 0, transform, id2, t2)
                    ==> s_size_satisfied(final(self).s_images(), id2, t2),
        decreases commands@, 9nat, 0nat,
    {
        let scale: i64 = transform_scale(&transform);
        let mut i: usize = 0;
        while i < commands.len()
            invariant
                self.wf(),
                old(self).wf(),
                meshes.wf(),
                i <= commands@.len(),
                scale >= 0,
                scale as int == s_transform_scale(transform),
                s_images_requested_grown(old(self).s_images(), self.s_images()),
                self.s_glyphs() == old(self).s_glyphs(),
                self.s_atlases() == old(self).s_atlases(),
                self.s_paths() == old(self).s_paths(),
                self.s_next_image_id() == old(self).s_next_image_id(),
                forall|id2: ImageId, t2: UVec2|
                    #[trigger] s_fill_target_in(meshes, commands@, 0, transform, id2, t2)
                        ==> s_fill_target_in(meshes, commands@, i as int, transform, id2, t2)
                        || s_size_satisfied(self.s_images(), id2, t2),
            decreases commands@.len() - i,
        {
            let ghost pre = *self;
            match &commands[i] {
                Command::DrawLayer(l) => {
                    let composed: Transform = l.transform.compose(&transform);
                    self.set_image_sizes_from_commands(meshes, &l.commands, composed);
                    proof {
                        lemma_requested_grown_trans(
                            old(self).s_images(),
                            pre.s_images(),
                            self.s_images(),
                        );
                        assert forall|id2: ImageId, t2: UVec2|
                            #[trigger] s_fill_target_in(meshes, commands@, 0, transform, id2, t2)
                                implies s_fill_target_in(
                            meshes,
                            commands@,
                            i + 1,
                            transform,
                            id2,
                            t2,
                        ) || s_size_satisfied(self.s_images(), id2, t2) by {
                            if s_size_satisfied(pre.s_images(), id2, t2) {
                                lemma_satisfied_grown(
                                    pre.s_images(),
                                    self.s_images(),
                                    id2,
                                    t2,
                                );
                            } else if !s_fill_target_in(
                                meshes,
                                commands@,
                                i + 1,
                                transform,
                                id2,
                                t2,
                            ) {
                                assert(commands@[i as int] matches Command::DrawLayer(l2) && l2.commands@ == l.commands@ && l2.transform == l.transform);
                                assert(s_fill_target_in(
                                    meshes,
                                    l.commands@,
                                    0,
                                    crate::math::s_compose(l.transform, transform),
                                    id2,
                                    t2,
                                ));
                                assert(composed == crate::math::s_compose(
                                    l.transform,
                                    transform,
                                ));
                            }
                        }
                    }
                },
                Command::DrawRect(r) => {
                    match r.fill {
                        Fill::Image(fi) => {
                            let target: UVec2 = fill_target(r.size, fi.clip_rect, scale);
                            self.bump_requested(fi.image, target);
                            proof {
                                lemma_requested_grown_trans(
                                    old(self).s_images(),
                                    pre.s_images(),
                                    self.s_images(),
                                );
                                assert forall|id2: ImageId, t2: UVec2|
                                    #[trigger] s_fill_target_in(
                                        meshes,
                                        commands@,
                                        0,
                                        transform,
                                        id2,
                                        t2,
                                    ) implies s_fill_target_in(
                                    meshes,
                                    commands@,
                                    i + 1,
                                    transform,
                                    id2,
                                    t2,
                                ) || s_size_satisfied(self.s_images(), id2, t2) by {
                                    if s_size_satisfied(pre.s_images(), id2, t2) {
                                        lemma_satisfied_grown(
                                            pre.s_images(),
                                            self.s_images(),
                                            id2,
                                            t2,
                                        );
                                    } else if !s_fill_target_in(
                                        meshes,
                                        commands@,
                                        i + 1,
                                        transform,
                                        id2,
                                        t2,
                                    ) {
                                        assert(commands@[i as int] == Command::DrawRect(*r));
                                        assert(id2 == fi.image && t2 == s_size_target(
                                            r.size,
                                            fi.clip_rect,
                                            s_transform_scale(transform),
                                        ));
                                        assert(t2 == target);
                                    }
                                }
                            }
                        },
                        _ => {
                            proof {
                                assert forall|id2: ImageId, t2: UVec2|
                                    #[trigger] s_fill_target_in(
                                        meshes,
                                        commands@,
                                        i as int,
                                        transform,
                                        id2,
                                        t2,
                                    ) implies s_fill_target_in(
                                    meshes,
                                    commands@,
                                    i + 1,
                                    transform,
                                    id2,
                                    t2,
                                ) by {
                                    assert(commands@[i as int] == Command::DrawRect(*r));
                                }
                                lemma_walk_no_fill(
                                    meshes,
                                    commands@,
                                    i as int,
                                    transform,
                                    pre.s_images(),
                                    self.s_images(),
                                );
                            }
                        },
                    }
                },
                Command::FillPath(p) => {
                    match p.fill {
                        Fill::Image(fi) => {
                            match meshes.get(&p.path, crate::mesh::MeshKind::Fill(p.options)) {
                                Some(mesh) => {
                                    proof {
                                        crate::batcher::lemma_mesh_found(
                                            meshes,
                                            p.path.events@,
                                            crate::mesh::MeshKind::Fill(p.options),
                                            mesh,
                                        );
                                    }
                                    match mesh.bounding_rect {
                                        Some(rect) => {
                                            let target: UVec2 = fill_target(
                                                rect.max.sub(rect.min),
                                                fi.clip_rect,
                                                scale,
                                            );
                                            self.bump_requested(fi.image, target);
                                            proof {
                                                lemma_requested_grown_trans(
                                                    old(self).s_images(),
                                                    pre.s_images(),
                                                    self.s_images(),
                                                );
                                                assert forall|id2: ImageId, t2: UVec2|
                                                    #[trigger] s_fill_target_in(
                                                        meshes,
                                                        commands@,
                                                        0,
                                                        transform,
                                                        id2,
                                                        t2,
                                                    ) implies s_fill_target_in(
                                                    meshes,
                                                    commands@,
                                                    i + 1,
                                                    transform,
                                                    id2,
                                                    t2,
                                                ) || s_size_satisfied(
                                                    self.s_images(),
                                                    id2,
                                                    t2,
                                                ) by {
                                                    if s_size_satisfied(
                                                        pre.s_images(),
                                                        id2,
                                                        t2,
                                                    ) {
                                                        lemma_satisfied_grown(
                                                            pre.s_images(),
                                                            self.s_images(),
                                                            id2,
                                                            t2,
                                                        );
                                                    } else if !s_fill_target_in(
                                                        meshes,
                                                        commands@,
                                                        i + 1,
                                                        transform,
                                                        id2,
                                                        t2,
                                                    ) {
                                                        assert(commands@[i as int] matches Command::FillPath(p2) && p2.fill == p.fill && p2.path.events@ == p.path.events@ && p2.options == p.options);
                                                        assert(id2 == fi.image && t2
                                                            == s_size_target(
                                                            crate::math::sv_sub(
                                                                rect.max,
                                                                rect.min,
                                                            ),
                                                            fi.clip_rect,
                                                            s_transform_scale(transform),
                                                        ));
                                                        assert(t2 == target);
                                                    }
                                                }
                                            }
                                        },
                                        None => {
                                            proof {
                                                lemma_walk_no_fill(
                                                    meshes,
                                                    commands@,
                                                    i as int,
                                                    transform,
                                                    pre.s_images(),
                                                    self.s_images(),
                                                );
                                            }
                                        },
                                    }
                                },
                                None => {
                                    proof {
                                        lemma_walk_no_fill(
                                            meshes,
                                            commands@,
                                            i as int,
                                            transform,
                                            pre.s_images(),
                                            self.s_images(),
                                        );
                                    }
                                },
                            }
                        },
                        _ => {
                            proof {
                                lemma_walk_no_fill(
                                    meshes,
                                    commands@,
                                    i as int,
                                    transform,
                                    pre.s_images(),
                                    self.s_images(),
                                );
                            }
                        },
                    }
                },
                Command::StrokePath(p) => {
                    match p.fill {
                        Fill::Image(fi) => {
                            match meshes.get(&p.path, crate::mesh::MeshKind::Stroke(p.options)) {
                                Some(mesh) => {
                                    proof {
                                        crate::batcher::lemma_mesh_found(
                                            meshes,
                                            p.path.events@,
                                            crate::mesh::MeshKind::Stroke(p.options),
                                            mesh,
                                        );
                                    }
                                    match mesh.bounding_rect {
                                        Some(rect) => {
                                            let target: UVec2 = fill_target(
                                                rect.max.sub(rect.min),
                                                fi.clip_rect,
                                                scale,
                                            );
                                            self.bump_requested(fi.image, target);
                                            proof {
                                                lemma_requested_grown_trans(
                                                    old(self).s_images(),
                                                    pre.s_images(),
                                                    self.s_images(),
                                                );
                                                assert forall|id2: ImageId, t2: UVec2|
                                                    #[trigger] s_fill_target_in(
                                                        meshes,
                                                        commands@,
                                                        0,
                                                        transform,
                                                        id2,
                                                        t2,
                                                    ) implies s_fill_target_in(
                                                    meshes,
                                                    commands@,
                                                    i + 1,
                                                    transform,
                                                    id2,
                                                    t2,
                                                ) || s_size_satisfied(
                                                    self.s_images(),
                                                    id2,
                                                    t2,
                                                ) by {
                                                    if s_size_satisfied(
                                                        pre.s_images(),
                                                        id2,
                                                        t2,
                                                    ) {
                                                        lemma_satisfied_grown(
                                                            pre.s_images(),
                                                            self.s_images(),
                                                            id2,
                                                            t2,
                                                        );
                                                    } else if !s_fill_target_in(
                                                        meshes,
                                                        commands@,
                                                        i + 1,
                                                        transform,
                                                        id2,
                                                        t2,
                                                    ) {
                                                        assert(commands@[i as int] matches Command::StrokePath(p2) && p2.fill == p.fill && p2.path.events@ == p.path.events@ && p2.options == p.options);
                                                        assert(id2 == fi.image && t2
                                                            == s_size_target(
                                                            crate::math::sv_sub(
                                                                rect.max,
                                                                rect.min,
                                                            ),
                                                            fi.clip_rect,
                                                            s_transform_scale(transform),
                                                        ));
                                                        assert(t2 == target);
                                                    }
                                                }
                                            }
                                        },
                                        None => {
                                            proof {
                                                lemma_walk_no_fill(
                                                    meshes,
                                                    commands@,
                                                    i as int,
                                                    transform,
                                                    pre.s_images(),
                                                    self.s_images(),
                                                );
                                            }
                                        },
                                    }
                                },
                                None => {
                                    proof {
                                        lemma_walk_no_fill(
                                            meshes,
                                            commands@,
                                            i as int,
                                            transform,
                                            pre.s_images(),
                                            self.s_images(),
                                        );
                                    }
                                },
                            }
                        },
                        _ => {
                            proof {
                                lemma_walk_no_fill(
                                    meshes,
                                    commands@,
                                    i as int,
                                    transform,
                                    pre.s_images(),
                                    self.s_images(),
                                );
                            }
                        },
                    }
                },
                _ => {
                    proof {
                        lemma_walk_no_fill(
                            meshes,
                            commands@,
                            i as int,
                            transform,
                            pre.s_images(),
                            self.s_images(),
                        );
                    }
                },
            }
            i = i + 1;
        }
        proof {
            assert forall|id2: ImageId, t2: UVec2|
                #[trigger] s_fill_target_in(meshes, commands@, 0, transform, id2, t2)
                    implies s_size_satisfied(self.s_images(), id2, t2) by {
                assert(!s_fill_target_in(
                    meshes,
                    commands@,
                    commands@.len() as int,
                    transform,
                    id2,
                    t2,
                ));
            }
        }
    }

    /// The usage scan's sizing half over every list of the frame, from an
    /// identity root transform.
    pub fn set_image_sizes_from_lists(&mut self, meshes: &PathCache, lists: &Vec<DrawList>)
        requires
            old(self).wf(),
            meshes.wf(),
        ensures
            final(self).wf(),
            s_images_requested_grown(old(self).s_images(), final(self).s_images()),
            final(self).s_glyphs() == old(self).s_glyphs(),
            final(self).s_atlases() == old(self).s_atlases(),
            final(self).s_paths() == old(self).s_paths(),
            final(self).s_next_image_id() == old(self).s_next_image_id(),
            forall|li: int, id2: ImageId, t2: UVec2|
                0 <= li < lists@.len() && #[trigger] s_fill_target_in(
                    meshes,
                    lists@[li].commands@,
                    0,
                    crate::math::s_identity(),
                    id2,
                    t2,
                ) ==> s_size_satisfied(final(self).s_images(), id2, t2),
    {
        let mut li: usize = 0;
        while li < lists.len()
            invariant
                self.wf(),
                old(self).wf(),
                meshes.wf(),
                li <= lists@.len(),
                s_images_requested_grown(old(self).s_images(), self.s_images()),
                self.s_glyphs() == old(self).s_glyphs(),
                self.s_atlases() == old(self).s_atlases(),
                self.s_paths() == old(self).s_paths(),
                self.s_next_image_id() == old(self).s_next_image_id(),
                forall|lj: int, id2: ImageId, t2: UVec2|
                    0 <= lj < li && #[trigger] s_fill_target_in(
                        meshes,
                        lists@[lj].commands@,
                        0,
                        crate::math::s_identity(),
                        id2,
                        t2,
                    ) ==> s_size_satisfied(self.s_images(), id2, t2),
            decreases lists@.len() - li,
        {
            let ghost pre = *self;
            self.set_image_sizes_from_commands(
                meshes,
                &lists[li].commands,
                Transform::identity(),
            );
            proof {
                lemma_requested_grown_trans(
                    old(self).s_images(),
                    pre.s_images(),
                    self.s_images(),
                );
                assert forall|lj: int, id2: ImageId, t2: UVec2|
                    0 <= lj < li + 1 && #[trigger] s_fill_target_in(
                        meshes,
                        lists@[lj].commands@,
                        0,
                        crate::math::s_identity(),
                        id2,
                        t2,
                    ) implies s_size_satisfied(self.s_images(), id2, t2) by {
                    if lj < li {
                        lemma_satisfied_grown(pre.s_images(), self.s_images(), id2, t2);
                    }
                }
            }
            li = li + 1;
        }
    }
}

/// The requested-size relation is transitive.
proof fn lemma_requested_grown_trans(
    a: Seq<(u64, ImageEntry)>,
    b: Seq<(u64, ImageEntry)>,
    c: Seq<(u64, ImageEntry)>,
)
    requires
        s_images_requested_grown(a, b),
        s_images_requested_grown(b, c),
    ensures
        s_images_requested_grown(a, c),
{
    assert forall|i: int|
        0 <= i < a.len() implies (#[trigger] c[i]).0 == a[i].0 && c[i].1 == (ImageEntry {
            requested_size: c[i].1.requested_size,
            ..a[i].1
        }) && c[i].1.requested_size.x >= a[i].1.requested_size.x && c[i].1.requested_size.y
        >= a[i].1.requested_size.y by {
        assert(b[i].0 == a[i].0 && b[i].1 == (ImageEntry {
            requested_size: b[i].1.requested_size,
            ..a[i].1
        }));
        assert(c[i].0 == b[i].0 && c[i].1 == (ImageEntry {
            requested_size: c[i].1.requested_size,
            ..b[i].1
        }));
    }
}

} // verus!
