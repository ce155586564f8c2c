//! The rendered frame: a row-major pixel buffer with its dimensions, and
//! the byte conversion an image sink consumes.

use vstd::prelude::*;

verus! {

use crate::fixed::FX_SCALE;
use crate::vec3::Color;
use crate::run::pixels_in_range;

/// A row-major frame of tone-mapped pixels.
pub struct Image {
    pub pixels: Vec<Color>,
    pub height: usize,
    pub width: usize,
}

/// Output encodings a sink can write.
pub enum FileFormat {
    PPM,
    PNG,
}

impl Image {
    /// Wrap a pixel buffer; the buffer must match the dimensions.
    pub fn new(pixels: Vec<Color>, height: usize, width: usize) -> (r: Image)
        requires
            pixels@.len() == height as int * width as int,
        ensures
            r.pixels == pixels && r.height == height && r.width == width,
    {
        Image { pixels, height, width }
    }

    /// Get the image's pixels.
    pub fn pixels(&self) -> (r: &Vec<Color>)
        ensures
            r == &self.pixels,
    {
        &self.pixels
    }

    /// Get the image's height.
    pub fn height(&self) -> (r: usize)
        ensures
            r == self.height,
    {
        self.height
    }

    /// Get the image's width.
    pub fn width(&self) -> (r: usize)
        ensures
            r == self.width,
    {
        self.width
    }
}

/// One tone-mapped pixel as bytes: each channel's whole units.
pub fn pixel_bytes(c: &Color) -> (r: (u8, u8, u8))
    requires
        0 <= c.x@ < 256 * FX_SCALE as int,
        0 <= c.y@ < 256 * FX_SCALE as int,
        0 <= c.z@ < 256 * FX_SCALE as int,
    ensures
        r.0 as int == c.x@ / (FX_SCALE as int),
        r.1 as int == c.y@ / (FX_SCALE as int),
        r.2 as int == c.z@ / (FX_SCALE as int),
{
    let x = ((c.x.to_micros() as u64) / (FX_SCALE as u64)) as u8;
    let y = ((c.y.to_micros() as u64) / (FX_SCALE as u64)) as u8;
    let z = ((c.z.to_micros() as u64) / (FX_SCALE as u64)) as u8;
    (x, y, z)
}

/// A whole frame as byte triples, row-major.
pub fn image_bytes(img: &Image) -> (r: Vec<u8>)
    requires
        pixels_in_range(img.pixels@),
    ensures
        r@.len() == 3 * img.pixels@.len(),
{
    let n = img.pixels.len();
    let mut out: Vec<u8> = Vec::new();
    let mut i: usize = 0;
    while i < n
        invariant
            i <= n,
            n == img.pixels@.len(),
            pixels_in_range(img.pixels@),
            out@.len() == 3 * i,
        decreases n - i,
    {
        let (x, y, z) = pixel_bytes(&img.pixels[i]);
        out.push(x);
        out.push(y);
        out.push(z);
        i = i + 1;
    }
    out
}

} // verus!
