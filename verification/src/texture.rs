//! Color sources: solid colors, the sine checker, Perlin-noise marble, and
//! image-sampled textures, as one closed sum dispatched by a switch.

use vstd::prelude::*;

verus! {

use crate::approx::{fx_sin, sin_spec};
use crate::fixed::{Fx, FX_SCALE, fx_mul};
use crate::loader::{ImageHolder, holder_wf};
use crate::perlin::{Perlin, perlin_wf};
use crate::vec3::{Color, Point, color01};

pub struct SolidColor {
    pub color_value: Color,
}

pub struct CheckerTexture {
    pub odd: Box<Texture>,
    pub even: Box<Texture>,
}

pub struct NoiseTexture {
    pub noise: Perlin,
    pub scale: Fx,
}

pub struct ImageTexture {
    pub img: Option<ImageHolder>,
}

/// Every color source the renderer knows, as one closed sum.
pub enum Texture {
    Solid(SolidColor),
    Checker(CheckerTexture),
    Noise(NoiseTexture),
    Image(ImageTexture),
}

/// Structural well-formedness: noise tables are full, image data matches
/// its dimensions.
pub open spec fn texture_wf(t: Texture) -> bool
    decreases t,
{
    match t {
        Texture::Solid(_) => true,
        Texture::Checker(c) => texture_wf(*c.odd) && texture_wf(*c.even),
        Texture::Noise(n) => perlin_wf(n.noise),
        Texture::Image(i) => match i.img {
            Option::Some(h) => holder_wf(h),
            Option::None => true,
        },
    }
}

/// The sine product that selects a checker cell: the approximate sines of
/// ten times each coordinate, multiplied in evaluation order.
pub open spec fn checker_sines(p: Point) -> int {
    let ten = 10 * FX_SCALE as int;
    fx_mul(
        fx_mul(sin_spec(fx_mul(ten, p.x@)), sin_spec(fx_mul(ten, p.y@))),
        sin_spec(fx_mul(ten, p.z@)),
    )
}

/// A coordinate clamped into the unit interval.
pub open spec fn clamp01(c: int) -> int {
    if c < 0 {
        0
    } else if c > FX_SCALE as int {
        FX_SCALE as int
    } else {
        c
    }
}

/// The whole texel a clamped coordinate falls on, when the coordinate
/// spans `base` texels: the integer part of `c · (base - 1)`.
pub open spec fn texel_base(c: int, base: int) -> int {
    c * (base - 1) / (FX_SCALE as int)
}

/// The fractional position between that texel and the next.
pub open spec fn texel_frac(c: int, base: int) -> int {
    c * (base - 1) % (FX_SCALE as int)
}

/// The linear blend of two channels by a fractional weight, stepwise in
/// fixed point.
pub open spec fn blend(a: int, b: int, t: int) -> int {
    crate::fixed::fx_add(fx_mul(a, crate::fixed::fx_sub(FX_SCALE as int, t)), fx_mul(b, t))
}

/// The componentwise blend of two colors.
pub open spec fn blend3(a: Color, b: Color, t: int) -> Color {
    Color {
        x: crate::vec3::to_fx(blend(a.x@, b.x@, t)),
        y: crate::vec3::to_fx(blend(a.y@, b.y@, t)),
        z: crate::vec3::to_fx(blend(a.z@, b.z@, t)),
    }
}

/// The bilinear sample of an image at clamped surface coordinates: the
/// vertical coordinate is flipped into image rows, both coordinates are
/// split into a texel and a fraction, and the four surrounding texels are
/// blended by the fractions.
pub open spec fn bilinear_texel(img: ImageHolder, u: int, v: int) -> Color {
    let uu = clamp01(u);
    let vv = FX_SCALE as int - clamp01(v);
    let w = img.width as int;
    let h = img.height as int;
    let i0 = texel_base(uu, w);
    let fu = texel_frac(uu, w);
    let i1 = if i0 + 1 < w {
        i0 + 1
    } else {
        w - 1
    };
    let j0 = texel_base(vv, h);
    let fv = texel_frac(vv, h);
    let j1 = if j0 + 1 < h {
        j0 + 1
    } else {
        h - 1
    };
    let top = blend3(img.pixels@[j0 * w + i0], img.pixels@[j0 * w + i1], fu);
    let bot = blend3(img.pixels@[j1 * w + i0], img.pixels@[j1 * w + i1], fu);
    blend3(top, bot, fv)
}

/// The color a texture yields at surface coordinates and a point, as a
/// value: every arm of the dispatch is a pure function of the texture, the
/// coordinates and the point.
pub open spec fn texture_value_spec(t: Texture, u: int, v: int, p: Point) -> Color
    decreases t,
{
    match t {
        Texture::Solid(s) => s.color_value,
        Texture::Checker(c) => if checker_sines(p) < 0 {
            texture_value_spec(*c.odd, u, v, p)
        } else {
            texture_value_spec(*c.even, u, v, p)
        },
        Texture::Noise(n) => {
            let sn = crate::approx::sin_spec(
                crate::fixed::fx_add(
                    fx_mul(n.scale@, p.z@),
                    fx_mul(10 * FX_SCALE as int, crate::perlin::turb_spec(n.noise, p, 7)),
                ),
            );
            let level = fx_mul(500_000, crate::fixed::fx_add(FX_SCALE as int, sn));
            Color {
                x: crate::vec3::to_fx(level),
                y: crate::vec3::to_fx(level),
                z: crate::vec3::to_fx(level),
            }
        },
        Texture::Image(it) => match it.img {
            Option::Some(img) => if img.width == 0 || img.height == 0 {
                Color {
                    x: crate::vec3::to_fx(0),
                    y: crate::vec3::to_fx(FX_SCALE as int),
                    z: crate::vec3::to_fx(FX_SCALE as int),
                }
            } else {
                bilinear_texel(img, u, v)
            },
            Option::None => Color {
                x: crate::vec3::to_fx(0),
                y: crate::vec3::to_fx(FX_SCALE as int),
                z: crate::vec3::to_fx(FX_SCALE as int),
            },
        },
    }
}

/// Whether every color the texture can produce lies in the unit interval:
/// solid colors must, and the procedural and image sources always do.
pub open spec fn texture_bounded(t: Texture) -> bool
    decreases t,
{
    match t {
        Texture::Solid(s) => color01(s.color_value),
        Texture::Checker(c) => texture_bounded(*c.odd) && texture_bounded(*c.even),
        Texture::Noise(_) => true,
        Texture::Image(_) => true,
    }
}

impl SolidColor {
    pub fn new(color_value: Color) -> (r: SolidColor)
        ensures
            r.color_value == color_value,
    {
        SolidColor { color_value }
    }
}

impl CheckerTexture {
    pub fn with_color(even: Color, odd: Color) -> (r: Texture)
        ensures
            texture_wf(r),
            color01(even) && color01(odd) ==> texture_bounded(r),
    {
        CheckerTexture::with_texture(
            Texture::Solid(SolidColor::new(even)),
            Texture::Solid(SolidColor::new(odd)),
        )
    }

    pub fn with_texture(even: Texture, odd: Texture) -> (r: Texture)
        ensures
            texture_wf(even) && texture_wf(odd) ==> texture_wf(r),
            texture_bounded(even) && texture_bounded(odd) ==> texture_bounded(r),
    {
        Texture::Checker(CheckerTexture { odd: Box::new(odd), even: Box::new(even) })
    }
}

impl NoiseTexture {
    pub fn new() -> (r: Texture)
        ensures
            texture_wf(r) && texture_bounded(r),
    {
        NoiseTexture::with_scale(Fx::one())
    }

    pub fn with_scale(scale: Fx) -> (r: Texture)
        ensures
            texture_wf(r) && texture_bounded(r),
    {
        Texture::Noise(NoiseTexture { noise: Perlin::new(), scale })
    }
}

impl ImageTexture {
    /// Wrap already-decoded image data.
    pub fn from_holder(img: ImageHolder) -> (r: Texture)
        requires
            holder_wf(img),
        ensures
            texture_wf(r) && texture_bounded(r),
    {
        Texture::Image(ImageTexture { img: Some(img) })
    }

    /// A texture with no data; it samples as solid cyan, a debugging aid.
    pub fn empty() -> (r: Texture)
        ensures
            texture_wf(r) && texture_bounded(r),
    {
        Texture::Image(ImageTexture { img: None })
    }
}

impl Texture {
    /// Sample the texture at surface coordinates `(u, v)` and point `p`.
    /// A bounded texture yields a unit-interval color.
    pub fn value(&self, u: Fx, v: Fx, p: &Point) -> (r: Color)
        requires
            texture_wf(*self),
        ensures
            texture_bounded(*self) ==> color01(r),
            r == texture_value_spec(*self, u@, v@, *p),
        decreases *self,
    {
        match self {
            Texture::Solid(s) => s.color_value,
            Texture::Checker(c) => {
                let ten = Fx::from_whole(10);
                let sines = fx_sin(ten.mul(p.x)).mul(fx_sin(ten.mul(p.y))).mul(
                    fx_sin(ten.mul(p.z)),
                );
                proof {
                    assert(sines@ == checker_sines(*p));
                }
                if sines.to_micros() < 0 {
                    c.odd.value(u, v, p)
                } else {
                    c.even.value(u, v, p)
                }
            },
            Texture::Noise(n) => {
                let s = fx_sin(n.scale.mul(p.z).add(Fx::from_whole(10).mul(n.noise.turb(p))));
                let lift = Fx::one().add(s);
                let half = Fx::from_micros(FX_SCALE / 2);
                let level = half.mul(lift);
                proof {
                    assert(0 <= crate::fixed::fx_mul(500_000, lift@) <= FX_SCALE as int)
                        by (nonlinear_arith)
                        requires
                            0 <= lift@ <= 2_000_000,
                    ;
                }
                let r = Color::new(level, level, level);
                proof {
                    assert(r == texture_value_spec(*self, u@, v@, *p));
                }
                r
            },
            Texture::Image(it) => {
                match &it.img {
                    Option::None => Color::from_micros(0, FX_SCALE, FX_SCALE),
                    Option::Some(img) => {
                        let zero = Fx::zero();
                        let one = Fx::one();
                        let uu = u.clamp(zero, one);
                        let vv = one.sub(v.clamp(zero, one));
                        if img.width() == 0 || img.height() == 0 {
                            Color::from_micros(0, FX_SCALE, FX_SCALE)
                        } else {
                            let (i0, fu, i1) = texel_coord(uu, img.width());
                            let (j0, fv, j1) = texel_coord(vv, img.height());
                            let top = blend_color(img.pixel(i0, j0), img.pixel(i1, j0), fu);
                            let bot = blend_color(img.pixel(i0, j1), img.pixel(i1, j1), fu);
                            blend_color(top, bot, fv)
                        }
                    },
                }
            },
        }
    }
}

/// Split a clamped coordinate over `base` texels into the surrounding
/// texel pair and the fractional position between them.
fn texel_coord(c: Fx, base: usize) -> (r: (usize, Fx, usize))
    requires
        0 <= c@ <= FX_SCALE as int,
        base >= 1,
    ensures
        r.0 as int == texel_base(c@, base as int),
        r.1@ == texel_frac(c@, base as int),
        r.2 as int == (if r.0 as int + 1 < base as int {
            r.0 as int + 1
        } else {
            base as int - 1
        }),
        r.0 < base,
        r.2 < base,
        0 <= r.1@ < FX_SCALE as int,
{
    proof {
        assert(0 <= c@ * (base as int - 1) && c@ * (base as int - 1) <= 1_000_000 * (base as int
            - 1)) by (nonlinear_arith)
            requires
                0 <= c@ <= 1_000_000,
                base >= 1,
        ;
        assert(0 <= c@ * (base as int - 1) / 1_000_000 && c@ * (base as int - 1) / 1_000_000
            <= base as int - 1) by (nonlinear_arith)
            requires
                0 <= c@ * (base as int - 1) <= 1_000_000 * (base as int - 1),
        ;
    }
    let scaled: u128 = (c.to_micros() as u128) * ((base - 1) as u128);
    let i0: usize = (scaled / (FX_SCALE as u128)) as usize;
    let fu = Fx::from_micros((scaled % (FX_SCALE as u128)) as i64);
    let i1 = if i0 + 1 < base {
        i0 + 1
    } else {
        base - 1
    };
    (i0, fu, i1)
}

/// The componentwise linear blend of two colors by a fractional weight; a
/// unit-interval weight keeps unit-interval colors inside the unit
/// interval.
fn blend_color(a: Color, b: Color, t: Fx) -> (r: Color)
    ensures
        r == blend3(a, b, t@),
        color01(a) && color01(b) && 0 <= t@ <= FX_SCALE as int ==> color01(r),
{
    let s = Fx::one().sub(t);
    let r = a.scale(s).add(b.scale(t));
    proof {
        assert(r == blend3(a, b, t@));
        if color01(a) && color01(b) && 0 <= t@ <= FX_SCALE as int {
            lemma_blend01(a.x@, b.x@, t@);
            lemma_blend01(a.y@, b.y@, t@);
            lemma_blend01(a.z@, b.z@, t@);
        }
    }
    r
}

/// A fixed-point blend of two unit-interval channels stays inside the
/// unit interval.
proof fn lemma_blend01(a: int, b: int, t: int)
    requires
        0 <= a <= FX_SCALE as int,
        0 <= b <= FX_SCALE as int,
        0 <= t <= FX_SCALE as int,
    ensures
        0 <= blend(a, b, t) <= FX_SCALE as int,
{
    assert(0 <= a * (1_000_000 - t) && a * (1_000_000 - t) <= 1_000_000 * (1_000_000 - t) && 0 <= b
        * t && b * t <= 1_000_000 * t) by (nonlinear_arith)
        requires
            0 <= a <= 1_000_000 && 0 <= b <= 1_000_000 && 0 <= t <= 1_000_000,
    ;
    assert(a * (1_000_000 - t) / 1_000_000 + b * t / 1_000_000 <= 1_000_000) by (nonlinear_arith)
        requires
            0 <= a * (1_000_000 - t) <= 1_000_000 * (1_000_000 - t),
            0 <= b * t <= 1_000_000 * t,
            0 <= t <= 1_000_000,
    ;
    assert(0 <= a * (1_000_000 - t) / 1_000_000 && 0 <= b * t / 1_000_000) by (nonlinear_arith)
        requires
            0 <= a * (1_000_000 - t) && 0 <= b * t,
    ;
}

} // verus!
