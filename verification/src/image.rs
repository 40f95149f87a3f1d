use vstd::prelude::*;

use crate::asset::AssetPath;
use crate::error::OhmResult;
use crate::math::UVec2;

verus! {

/// Id of an image held by the texture cache.
#[derive(Debug, Clone, Copy, PartialEq, Eq, Structural)]
pub struct ImageId(pub u64);

/// Format of image pixels.
#[derive(Debug, Clone, Copy, PartialEq, Eq, Structural)]
pub enum ImageFormat {
    /// sRGB, non-linear, premultiplied, 8 bits per channel.
    Srgba8,
    /// Grayscale, linear, 8 bits.
    Gray8,
}

/// Fully decoded image pixels: tightly packed rows, no padding.
#[derive(Debug, Clone)]
pub struct ImageData {
    pub format: ImageFormat,
    pub size: UVec2,
    pub data: Vec<u8>,
}

/// An image decoder for one or more formats (PNG, SVG, ...), implemented
/// by the embedding application.
pub trait ImageDecoder {
    /// Whether this decoder may be able to decode `data`.
    fn probe(&self, extension: &Option<String>, data: &Vec<u8>) -> bool;

    /// Decodes an image, optionally aiming at `requested_size`; the size of
    /// the result is the decoder's to choose.
    fn decode(
        &self,
        extension: &Option<String>,
        data: &Vec<u8>,
        requested_size: Option<UVec2>,
    ) -> OhmResult<ImageData>;
}

/// A source of raw image bytes for one path scheme, implemented by the
/// embedding application.
pub trait ImageSource {
    /// The scheme this source serves.
    fn scheme(&self) -> String;

    /// Loads and decodes the image at `path`.
    fn load(&mut self, path: &AssetPath, size: Option<UVec2>) -> OhmResult<ImageData>;
}

/// One registered decoder.
struct DecoderEntry {
    decoder: Box<dyn ImageDecoder>,
}

/// A registry of decoders, tried in registration order; the first whose
/// `probe` answers yes decodes.
pub struct ImageDecoders {
    decoders: Vec<DecoderEntry>,
}

impl ImageDecoders {
    /// How many decoders are registered.
    pub closed spec fn count(&self) -> nat {
        self.decoders@.len()
    }

    pub fn new() -> (r: ImageDecoders)
        ensures
            r.count() == 0,
    {
        ImageDecoders { decoders: Vec::new() }
    }

    fn push_entry(&mut self, entry: DecoderEntry)
        ensures
            final(self).count() == old(self).count() + 1,
    {
        self.decoders.push(entry);
    }

    /// Appends a decoder to the chain.
    pub fn add_decoder(&mut self, decoder: Box<dyn ImageDecoder>)
        ensures
            final(self).count() == old(self).count() + 1,
    {
        self.push_entry(DecoderEntry { decoder });
    }

    /// Whether any registered decoder recognizes the data.
    pub fn probe(&self, extension: &Option<String>, data: &Vec<u8>) -> bool {
        let mut i: usize = 0;
        while i < self.decoders.len()
            decreases self.decoders@.len() - i,
        {
            if self.decoders[i].decoder.probe(extension, data) {
                return true;
            }
            i = i + 1;
        }
        false
    }

    /// Decodes with the first decoder whose probe answers yes; with none
    /// willing — in particular, with none registered — fails as an
    /// unrecognized image. Which decoder wins is decided by the boxed
    /// implementations, of which nothing further can be stated.
    pub fn decode(
        &self,
        extension: &Option<String>,
        data: &Vec<u8>,
        requested_size: Option<UVec2>,
    ) -> (r: OhmResult<ImageData>)
        ensures
            self.count() == 0 ==> (r matches Err(e) && e.kind
                == crate::error::ErrorKind::InvalidImage),
    {
        let mut i: usize = 0;
        while i < self.decoders.len()
            decreases self.decoders@.len() - i,
        {
            if self.decoders[i].decoder.probe(extension, data) {
                return self.decoders[i].decoder.decode(extension, data, requested_size);
            }
            i = i + 1;
        }
        Err(
            crate::error::Error::new(
                crate::error::ErrorKind::InvalidImage,
                String::from_str("unrecognized image"),
            ),
        )
    }
}

impl ImageDecoder for ImageDecoders {
    fn probe(&self, extension: &Option<String>, data: &Vec<u8>) -> bool {
        ImageDecoders::probe(self, extension, data)
    }

    fn decode(
        &self,
        extension: &Option<String>,
        data: &Vec<u8>,
        requested_size: Option<UVec2>,
    ) -> OhmResult<ImageData> {
        ImageDecoders::decode(self, extension, data, requested_size)
    }
}

/// What one RGBA pixel channel becomes under premultiplication by alpha.
pub open spec fn s_premul(c: int, a: int) -> int {
    c * a / 255
}

/// Premultiplies straight-alpha RGBA bytes in place: each color channel of
/// each 4-byte pixel is scaled by that pixel's alpha; alpha bytes and any
/// trailing partial pixel stay as they are.
pub fn convert_image(data: &mut Vec<u8>)
    ensures
        final(data)@.len() == old(data)@.len(),
        forall|i: int|
            0 <= i < old(data)@.len() ==> final(data)@[i] == (if i % 4 == 3 || i + 4
                - i % 4 > old(data)@.len() {
                old(data)@[i]
            } else {
                s_premul(old(data)@[i] as int, old(data)@[i + 3 - i % 4] as int) as u8
            }),
{
    let ghost n = old(data)@.len() as int;
    let mut p: usize = 0;
    while p < data.len() && data.len() - p >= 4
        invariant
            data@.len() == old(data)@.len(),
            p % 4 == 0,
            p <= data@.len(),
            forall|i: int|
                0 <= i < data@.len() ==> data@[i] == (if i >= p || i % 4 == 3 {
                    old(data)@[i]
                } else {
                    s_premul(old(data)@[i] as int, old(data)@[i + 3 - i % 4] as int) as u8
                }),
        decreases data@.len() - p,
    {
        let a: u16 = data[p + 3] as u16;
        proof {
            let pi = p as int;
            assert forall|c: int, al: int| 0 <= c <= 255 && 0 <= al <= 255 implies 0 <= #[trigger] (c
                * al) <= 65025 by {
                assert(c * al <= 65025) by (nonlinear_arith)
                    requires
                        0 <= c <= 255,
                        0 <= al <= 255,
                ;
                assert(c * al >= 0) by (nonlinear_arith)
                    requires
                        0 <= c,
                        0 <= al,
                ;
            }
        }
        let r: u8 = ((data[p] as u16 * a) / 255) as u8;
        let g: u8 = ((data[p + 1] as u16 * a) / 255) as u8;
        let b: u8 = ((data[p + 2] as u16 * a) / 255) as u8;
        proof {
            let pi = p as int;
            assert(old(data)@[pi] == data@[pi]);
            assert(old(data)@[pi + 1] == data@[pi + 1]);
            assert(old(data)@[pi + 2] == data@[pi + 2]);
            assert(old(data)@[pi + 3] == data@[pi + 3]);
            assert(s_premul(data@[pi] as int, a as int) == (data@[pi] as u16 * a) as int / 255);
            assert(s_premul(data@[pi + 1] as int, a as int) == (data@[pi + 1] as u16 * a) as int
                / 255);
            assert(s_premul(data@[pi + 2] as int, a as int) == (data@[pi + 2] as u16 * a) as int
                / 255);
            assert((data@[pi] as u16 * a) as int / 255 <= 255);
            assert((data@[pi + 1] as u16 * a) as int / 255 <= 255);
            assert((data@[pi + 2] as u16 * a) as int / 255 <= 255);
        }
        data.set(p, r);
        data.set(p + 1, g);
        data.set(p + 2, b);
        proof {
            let pi = p as int;
            assert forall|i: int| 0 <= i < data@.len() implies data@[i] == (if i >= pi + 4 || i
                % 4 == 3 {
                old(data)@[i]
            } else {
                s_premul(old(data)@[i] as int, old(data)@[i + 3 - i % 4] as int) as u8
            }) by {
                if pi <= i < pi + 4 && i % 4 != 3 {
                    assert(i - i % 4 == pi);
                    assert(i + 3 - i % 4 == pi + 3);
                }
            }
        }
        p = p + 4;
    }
    proof {
        let len = data@.len() as int;
        assert forall|i: int| 0 <= i < len implies data@[i] == (if i % 4 == 3 || i + 4 - i % 4
            > len {
            old(data)@[i]
        } else {
            s_premul(old(data)@[i] as int, old(data)@[i + 3 - i % 4] as int) as u8
        }) by {
            let st = i - i % 4;
            if i % 4 != 3 && i + 4 - i % 4 <= len {
                assert(st + 4 <= len);
                assert(len - (p as int) < 4 || p == len);
                assert(st < p || st >= p as int);
                if st >= p as int {
                    assert(st + 4 > len);
                    assert(false);
                }
                assert(i < p as int || i % 4 > (p as int) - 1 - st);
                assert(i <= st + 3);
                assert(st <= (p as int) - 4 || st > (p as int) - 4);
                if st > (p as int) - 4 {
                    assert(st % 4 == 0 && (p as int) % 4 == 0);
                    assert(st >= p as int);
                    assert(false);
                }
                assert(i < p as int);
            }
        }
    }
}

} // verus!
