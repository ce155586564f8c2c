//! Decoded image data, already resident in memory.
//!
//! The renderer never reads files itself: whatever decodes an image hands
//! the pixels over as plain color values, and construction checks the
//! dimensions and clamps every channel into the unit interval.

use vstd::prelude::*;

verus! {

use crate::fixed::{Fx, FX_SCALE};
use crate::vec3::{Color, color01};

/// Well-formed image data: the buffer matches the dimensions row-major and
/// every channel lies inside the unit interval.
pub open spec fn holder_wf(h: ImageHolder) -> bool {
    &&& h.pixels@.len() == h.width as int * h.height as int
    &&& forall|i: int| 0 <= i < h.pixels@.len() ==> color01(#[trigger] h.pixels@[i])
}

pub struct ImageHolder {
    pub pixels: Vec<Color>,
    pub height: usize,
    pub width: usize,
}

impl ImageHolder {
    /// Wrap a decoded pixel buffer.  Succeeds exactly when the buffer
    /// matches the dimensions; channels are clamped into the unit interval.
    pub fn new(pixels: Vec<Color>, height: usize, width: usize) -> (r: Option<ImageHolder>)
        requires
            width as int * height as int <= usize::MAX as int,
        ensures
            r.is_some() <==> pixels@.len() == width as int * height as int,
            r.is_some() ==> holder_wf(r.unwrap()) && r.unwrap().height == height
                && r.unwrap().width == width,
    {
        proof {
            assert(width as int * height as int == height as int * width as int)
                by (nonlinear_arith);
        }
        if pixels.len() != width * height {
            return None;
        }
        let zero = Fx::zero();
        let one = Fx::one();
        let mut clamped: Vec<Color> = Vec::new();
        let n = pixels.len();
        let mut i: usize = 0;
        while i < n
            invariant
                i <= n,
                n == pixels@.len(),
                clamped@.len() == i,
                zero@ == 0,
                one@ == FX_SCALE as int,
                forall|j: int| 0 <= j < i ==> color01(#[trigger] clamped@[j]),
            decreases n - i,
        {
            let p = pixels[i];
            let c = Color::new(
                p.x.clamp(zero, one),
                p.y.clamp(zero, one),
                p.z.clamp(zero, one),
            );
            clamped.push(c);
            i = i + 1;
        }
        Some(ImageHolder { pixels: clamped, height, width })
    }

    /// Get the image's height in pixels.
    pub fn height(&self) -> (r: usize)
        ensures
            r == self.height,
    {
        self.height
    }

    /// Get the image's width in pixels.
    pub fn width(&self) -> (r: usize)
        ensures
            r == self.width,
    {
        self.width
    }

    /// The pixel in column `x` of row `y`.
    pub fn pixel(&self, x: usize, y: usize) -> (r: Color)
        requires
            holder_wf(*self),
            x < self.width,
            y < self.height,
        ensures
            r == self.pixels@[y as int * self.width as int + x as int],
            color01(r),
    {
        let n = self.pixels.len();
        proof {
            assert(0 <= (y as int) * (self.width as int) + (x as int) && (y as int) * (
            self.width as int) + (x as int) < (self.width as int) * (self.height as int))
                by (nonlinear_arith)
                requires
                    x < self.width,
                    y < self.height,
            ;
        }
        self.pixels[y * self.width + x]
    }
}

} // verus!
