//! Destructible terrain bitmap.
//!
//! The map is the alpha channel of an RGBA image, one byte per pixel in
//! row-major order: a pixel is solid exactly when its alpha byte is non-zero.
//! Explosions carve the terrain by clearing pixels. The bitmap is owned by
//! the one task that runs a match, so plain mutable access suffices.

use vstd::prelude::*;

verus! {

/// What decoding an encoded image yields: its width, height, and the alpha
/// byte of each pixel in row-major order; `None` when the bytes are not a
/// decodable image. A function of the bytes alone.
pub uninterp spec fn image_alpha_of(bytes: Seq<u8>) -> Option<(u32, u32, Seq<u8>)>;

pub struct TerrainMap {
    width: u32,
    height: u32,
    alpha: Vec<u8>,
}

impl TerrainMap {
    /// Largest accepted map side, in pixels.
    pub const MAX_DIM: u32 = 65536;

    pub closed spec fn wf(self) -> bool {
        &&& 1 <= self.width <= Self::MAX_DIM
        &&& 1 <= self.height <= Self::MAX_DIM
        &&& self.alpha@.len() == self.width * self.height
    }

    pub closed spec fn spec_width(self) -> u32 {
        self.width
    }

    pub closed spec fn spec_height(self) -> u32 {
        self.height
    }

    /// True when (x, y) lies on the map and its pixel is solid.
    pub closed spec fn solid(self, x: int, y: int) -> bool {
        &&& 0 <= x < self.width
        &&& 0 <= y < self.height
        &&& self.alpha@[y * self.width + x] != 0
    }

    /// The map's solid pixels, as a set of plain coordinates.
    pub closed spec fn solid_set(self) -> Set<(int, int)> {
        Set::new(|t: (int, int)| self.solid(t.0, t.1))
    }

    /// Membership in the solid set is solidity of the pixel.
    pub proof fn lemma_solid_set(self, x: int, y: int)
        ensures
            self.solid_set().contains((x, y)) == self.solid(x, y),
    {
    }

    /// A solid pixel always lies on the map.
    pub proof fn lemma_solid_in_bounds(self, x: int, y: int)
        ensures
            self.solid(x, y) ==> 0 <= x < self.spec_width() && 0 <= y < self.spec_height(),
    {
    }

    /// A well-formed map's sides are between one pixel and the maximum.
    pub proof fn lemma_wf_dims(self)
        requires
            self.wf(),
        ensures
            1 <= self.spec_width() <= Self::MAX_DIM,
            1 <= self.spec_height() <= Self::MAX_DIM,
    {
    }

    proof fn lemma_index_in_bounds(self, x: int, y: int)
        requires
            self.wf(),
            0 <= x < self.width,
            0 <= y < self.height,
        ensures
            0 <= y * self.width + x < self.alpha@.len(),
            y * self.width + x <= 0xffff_ffff,
    {
        let w = self.width as int;
        let h = self.height as int;
        assert(0 <= y * w + x && y * w + x < h * w) by (nonlinear_arith)
            requires
                0 <= x < w,
                0 <= y < h,
        ;
        assert(h * w == w * h) by (nonlinear_arith);
        assert(h * w <= 0x10000 * 0x10000) by (nonlinear_arith)
            requires
                0 < w <= 0x10000,
                0 < h <= 0x10000,
        ;
    }

    /// Builds a map from plain dimensions and alpha bytes; fails exactly when
    /// the dimensions are out of range or the byte count does not match.
    pub fn new(width: u32, height: u32, alpha: Vec<u8>) -> (r: Option<TerrainMap>)
        ensures
            (r matches Some(m) ==> {
                &&& m.wf()
                &&& m.spec_width() == width
                &&& m.spec_height() == height
                &&& forall|x: int, y: int|
                    #[trigger] m.solid(x, y) == (0 <= x < width && 0 <= y < height
                        && alpha[y * width + x] != 0)
            }),
            r is None <==> !(1 <= width <= Self::MAX_DIM && 1 <= height <= Self::MAX_DIM
                && alpha@.len() == width * height),
    {
        if 1 <= width && width <= Self::MAX_DIM && 1 <= height && height <= Self::MAX_DIM {
            proof {
                assert((width as int) * (height as int) <= 0x10000 * 0x10000) by (nonlinear_arith)
                    requires
                        0 < width as int <= 0x10000,
                        0 < height as int <= 0x10000,
                ;
            }
            let need: u64 = (width as u64) * (height as u64);

            if (alpha.len() as u64) == need {
                return Some(TerrainMap { width, height, alpha });
            }
        }

        None
    }

    pub fn width(&self) -> (r: u32)
        ensures
            r == self.spec_width(),
    {
        self.width
    }

    pub fn height(&self) -> (r: u32)
        ensures
            r == self.spec_height(),
    {
        self.height
    }

    /// Samples one pixel; coordinates off the map read as empty.
    pub fn solid_at(&self, x: u32, y: u32) -> (r: bool)
        requires
            self.wf(),
        ensures
            r == self.solid(x as int, y as int),
    {
        if x < self.width && y < self.height {
            proof { self.lemma_index_in_bounds(x as int, y as int); }
            let idx: usize = (y as usize) * (self.width as usize) + (x as usize);
            self.alpha[idx] > 0
        } else {
            false
        }
    }

    /// Clears one pixel: afterwards it is empty, and every other pixel is as
    /// it was.
    pub fn clear_pixel(&mut self, x: u32, y: u32)
        requires
            old(self).wf(),
            x < old(self).spec_width(),
            y < old(self).spec_height(),
        ensures
            final(self).wf(),
            final(self).spec_width() == old(self).spec_width(),
            final(self).spec_height() == old(self).spec_height(),
            !final(self).solid(x as int, y as int),
            forall|a: int, b: int| !(a == x && b == y)
                ==> #[trigger] final(self).solid(a, b) == old(self).solid(a, b),
    {
        proof { self.lemma_index_in_bounds(x as int, y as int); }
        let idx: usize = (y as usize) * (self.width as usize) + (x as usize);
        self.alpha.set(idx, 0);

        proof {
            assert forall|a: int, b: int| !(a == x && b == y) implies #[trigger] self.solid(a, b)
                == old(self).solid(a, b) by {
                if 0 <= a < self.width && 0 <= b < self.height {
                    self.lemma_index_in_bounds(a, b);
                    let xi = x as int;
                    let yi = y as int;
                    let w = self.width as int;
                    let h = self.height as int;
                    assert(b * w + a != yi * w + xi) by (nonlinear_arith)
                        requires
                            0 <= a < w,
                            0 <= b < h,
                            0 <= xi < w,
                            0 <= yi < h,
                            !(a == xi && b == yi),
                    ;
                }
            }
        }
    }

    /// Relies on image::load_from_memory and DynamicImage::into_rgba8:
    /// decodes an encoded image and hands back its dimensions and each
    /// pixel's alpha byte in row-major order. The result depends on the
    /// bytes alone; the RGBA buffer holds exactly width * height pixels.
    #[verifier::external_body]
    fn decode_image_alpha(bytes: &Vec<u8>) -> (r: Option<(u32, u32, Vec<u8>)>)
        ensures
            (match r {
                Some(t) => image_alpha_of(bytes@) == Some((t.0, t.1, t.2@))
                    && t.2@.len() == t.0 * t.1,
                None => image_alpha_of(bytes@) is None,
            }),
    {
        let img = match image::load_from_memory(bytes.as_slice()) {
            Ok(i) => i,
            Err(_) => {
                return None;
            },
        };
        let rgba = img.into_rgba8();
        let width = rgba.width();
        let height = rgba.height();
        let alpha: Vec<u8> = rgba.pixels().map(|p| p.0[3]).collect();
        Some((width, height, alpha))
    }

    /// Decodes an encoded image into a terrain map. Fails exactly when the
    /// bytes do not decode or the decoded dimensions are out of range.
    pub fn from_encoded_image(bytes: &Vec<u8>) -> (r: Option<TerrainMap>)
        ensures
            (match r {
                Some(m) => {
                    &&& m.wf()
                    &&& image_alpha_of(bytes@) matches Some(t) && m.spec_width() == t.0
                        && m.spec_height() == t.1
                        && (forall|x: int, y: int|
                            #[trigger] m.solid(x, y) == (0 <= x < t.0 && 0 <= y < t.1
                                && t.2[y * t.0 + x] != 0))
                },
                None => (match image_alpha_of(bytes@) {
                    Some(t) => !(1 <= t.0 <= Self::MAX_DIM && 1 <= t.1 <= Self::MAX_DIM
                        && t.2.len() == t.0 * t.1),
                    None => true,
                }),
            }),
    {
        match Self::decode_image_alpha(bytes) {
            Some((width, height, alpha)) => Self::new(width, height, alpha),
            None => None,
        }
    }
}

} // verus!
