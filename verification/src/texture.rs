//! Decoded images: random-access color lookup with an out-of-bounds
//! sentinel.
//!
//! Decoding an image file is outside the renderer; a caller hands the
//! decoded size and pixels in, either packed or as raw RGB bytes.

use vstd::prelude::*;
use vstd::arithmetic::div_mod::{
    lemma_fundamental_div_mod_converse_div, lemma_fundamental_div_mod_converse_mod,
};
use vstd::arithmetic::mul::lemma_mul_inequality;
use crate::framebuffer::lemma_pixel_index_in_range;

verus! {

/// The color returned for a lookup outside the image.
pub const SENTINEL_COLOR: u32 = 0xFF00FF;

/// A packed 24-bit RGB color from its channels.
pub open spec fn rgb_spec(r: u8, g: u8, b: u8) -> u32 {
    ((r as int) * 0x10000 + (g as int) * 0x100 + (b as int)) as u32
}

/// Packs three color channels into one 24-bit RGB value.
pub fn pack_color(r: u8, g: u8, b: u8) -> (c: u32)
    ensures
        c == rgb_spec(r, g, b),
{
    (r as u32) * 0x10000 + (g as u32) * 0x100 + (b as u32)
}

/// An immutable decoded image. Pixels are stored column-major: the pixel
/// at column `x`, row `y` sits at index `x * height + y`.
pub struct Texture {
    pub width: u32,
    pub height: u32,
    pub pixels: Vec<u32>,
}

impl Texture {
    /// One color per pixel, and dimensions small enough that every index
    /// computation fits the machine word.
    pub open spec fn wf(&self) -> bool {
        &&& self.pixels@.len() == self.width * self.height
        &&& self.width <= 32768
        &&& self.height <= 32768
    }

    /// The color at `(x, y)`: the stored pixel in bounds, the sentinel
    /// outside.
    pub open spec fn pixel_spec(&self, x: int, y: int) -> u32 {
        if 0 <= x < self.width && 0 <= y < self.height {
            self.pixels@[x * self.height + y]
        } else {
            SENTINEL_COLOR
        }
    }

    /// Builds a texture from already-packed pixels; rejects a pixel vector
    /// whose length does not match the dimensions.
    pub fn new(width: u32, height: u32, pixels: Vec<u32>) -> (r: Option<Texture>)
        ensures
            match r {
                Some(t) => {
                    &&& t.wf()
                    &&& t.width == width
                    &&& t.height == height
                    &&& t.pixels@ == pixels@
                },
                None => !(pixels@.len() == width * height && width <= 32768 && height <= 32768),
            },
    {
        if width > 32768 || height > 32768 {
            return None;
        }
        assert((width as int) * (height as int) <= 0x4000_0000) by (nonlinear_arith)
            requires width <= 32768 && height <= 32768;
        let total = (width as usize) * (height as usize);
        if pixels.len() != total {
            return None;
        }
        Some(Texture { width, height, pixels })
    }

    /// Bounds-checked color lookup; out-of-range coordinates give the
    /// sentinel instead of failing.
    pub fn get_pixel_color(&self, x: u32, y: u32) -> (c: u32)
        requires
            self.wf(),
        ensures
            c == self.pixel_spec(x as int, y as int),
    {
        if x >= self.width || y >= self.height {
            SENTINEL_COLOR
        } else {
            proof {
                lemma_pixel_index_in_range(
                    self.height as int,
                    self.width as int,
                    y as int,
                    x as int,
                );
                assert((self.height as int) * (self.width as int) == (self.width as int) * (
                self.height as int)) by (nonlinear_arith);
            }
            let idx = (x as usize) * (self.height as usize) + (y as usize);
            self.pixels[idx]
        }
    }
}

/// The packed color that position `i` of a column-major pixel vector takes
/// from a row-major RGB byte stream.
pub open spec fn texel_from_rgb(rgb: Seq<u8>, width: int, height: int, i: int) -> u32 {
    let x = i / height;
    let y = i % height;
    let base = 3 * (y * width + x);
    rgb_spec(rgb[base], rgb[base + 1], rgb[base + 2])
}

/// Builds a texture from a row-major stream of RGB byte triples, as an
/// image decoder hands them out; rejects a stream whose length does not
/// match the dimensions.
pub fn texture_from_rgb(width: u32, height: u32, rgb: &Vec<u8>) -> (r: Option<Texture>)
    ensures
        match r {
            Some(t) => {
                &&& t.wf()
                &&& t.width == width
                &&& t.height == height
                &&& forall|i: int|
                    0 <= i < t.pixels@.len() ==> t.pixels@[i] == texel_from_rgb(
                        rgb@,
                        width as int,
                        height as int,
                        i,
                    )
            },
            None => !(rgb@.len() == 3 * width * height && width <= 32768 && height <= 32768
                && width > 0 && height > 0),
        },
{
    if width == 0 || height == 0 || width > 32768 || height > 32768 {
        return None;
    }
    assert((width as int) * (height as int) <= 0x4000_0000) by (nonlinear_arith)
        requires width <= 32768 && height <= 32768;
    let total = (width as usize) * (height as usize);
    proof {
        vstd::arithmetic::div_mod::lemma_fundamental_div_mod(rgb@.len() as int, 3);
        assert(3 * (width as int) * (height as int) == 3 * ((width as int) * (height as int)))
            by (nonlinear_arith);
    }
    if rgb.len() / 3 != total || rgb.len() % 3 != 0 {
        return None;
    }
    assert(rgb@.len() == 3 * (width as int) * (height as int));
    let w = width as usize;
    let h = height as usize;
    let mut pixels: Vec<u32> = Vec::new();
    let mut x: usize = 0;
    while x < w
        invariant
            x <= w,
            w == width,
            h == height,
            0 < width <= 32768,
            0 < height <= 32768,
            rgb@.len() == 3 * (width as int) * (height as int),
            pixels@.len() == x * height,
            forall|i: int|
                0 <= i < pixels@.len() ==> pixels@[i] == texel_from_rgb(
                    rgb@,
                    width as int,
                    height as int,
                    i,
                ),
        decreases w - x,
    {
        let mut y: usize = 0;
        while y < h
            invariant
                x < w,
                y <= h,
                w == width,
                h == height,
                0 < width <= 32768,
                0 < height <= 32768,
                rgb@.len() == 3 * (width as int) * (height as int),
                pixels@.len() == x * height + y,
                forall|i: int|
                    0 <= i < pixels@.len() ==> pixels@[i] == texel_from_rgb(
                        rgb@,
                        width as int,
                        height as int,
                        i,
                    ),
            decreases h - y,
        {
            proof {
                lemma_pixel_index_in_range(width as int, height as int, x as int, y as int);
                lemma_mul_inequality(y as int + 1, height as int, width as int);
            }
            assert(3 * ((y as int) * (width as int) + (x as int)) + 2 < rgb@.len())
                by (nonlinear_arith)
                requires
                    rgb@.len() == 3 * (width as int) * (height as int),
                    0 <= (x as int) < (width as int),
                    0 <= (y as int) < (height as int),
            ;
            let base = 3 * (y * w + x);
            let color = pack_color(rgb[base], rgb[base + 1], rgb[base + 2]);
            proof {
                let i0 = (x as int) * (height as int) + (y as int);
                lemma_fundamental_div_mod_converse_div(i0, height as int, x as int, y as int);
                lemma_fundamental_div_mod_converse_mod(i0, height as int, x as int, y as int);
            }
            pixels.push(color);
            y = y + 1;
        }
        x = x + 1;
        proof {
            assert((x as int) * (height as int) == (x as int - 1) * (height as int)
                + height as int) by (nonlinear_arith);
        }
    }
    let t = Texture { width, height, pixels };
    proof {
        assert(t.pixels@.len() == width * height);
    }
    Some(t)
}

} // verus!
