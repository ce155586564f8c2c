//! The Monte-Carlo integrator and the per-pixel sampler.
//!
//! `ray_color` follows a ray's bounces through the scene, bounded by the
//! depth budget; the sampler jitters, accumulates and tone-maps every
//! pixel of a row.  Rows are independent, so a caller may map them over
//! worker threads and reassemble them in order; each row draws from its
//! own generator seeded from the run's seed and the row index.

use vstd::prelude::*;

verus! {

use crate::camera::Camera;
use crate::fixed::{Fx, FX_SCALE, fx_add, fx_sub, fx_mul, fx_div, sat64};
use crate::hittable::{Hittable, wf_hittable, det_tree, some_leaf_hits_at};
use crate::material::{Material, material_wf, material_bounded, non_emissive};
use crate::ray::Ray;
use crate::rng::Prng;
use crate::vec3::{Color, Vec3, color01, is_v3, unit3};

/// What a ray that leaves the scene sees: one flat color, or a vertical
/// gradient from a horizon color up to a zenith color.
pub enum Background {
    Solid(Color),
    VerticalGradient { zenith: Color, horizon: Color },
}

/// Every color the background can produce lies in the unit interval.
pub open spec fn background_bounded(b: Background) -> bool {
    match b {
        Background::Solid(c) => color01(c),
        Background::VerticalGradient { zenith, horizon } => color01(zenith) && color01(horizon),
    }
}

/// Every material of the arena has well-formed textures.
pub open spec fn mats_wf(mats: Seq<Material>) -> bool {
    forall|i: int| 0 <= i < mats.len() ==> material_wf(#[trigger] mats[i])
}

/// Every material of the arena attenuates without brightening.
pub open spec fn mats_bounded(mats: Seq<Material>) -> bool {
    forall|i: int| 0 <= i < mats.len() ==> material_bounded(#[trigger] mats[i])
}

/// No material of the arena emits light.
pub open spec fn mats_non_emissive(mats: Seq<Material>) -> bool {
    forall|i: int| 0 <= i < mats.len() ==> non_emissive(#[trigger] mats[i])
}

/// A product of unit-interval channels stays in the unit interval.
proof fn lemma_mul01(a: int, b: int)
    requires
        0 <= a <= FX_SCALE as int,
        0 <= b <= FX_SCALE as int,
    ensures
        0 <= fx_mul(a, b) <= FX_SCALE as int,
{
    assert(0 <= a * b && a * b <= 1_000_000 * 1_000_000) by (nonlinear_arith)
        requires
            0 <= a <= 1_000_000 && 0 <= b <= 1_000_000,
    ;
    assert(0 <= a * b / 1_000_000 && a * b / 1_000_000 <= 1_000_000) by (nonlinear_arith)
        requires
            0 <= a * b <= 1_000_000_000_000,
    ;
}

/// Componentwise form of the product bound.
proof fn lemma_mul01_v3(a: Color, b: Color)
    requires
        color01(a),
        color01(b),
    ensures
        0 <= fx_mul(a.x@, b.x@) <= FX_SCALE as int,
        0 <= fx_mul(a.y@, b.y@) <= FX_SCALE as int,
        0 <= fx_mul(a.z@, b.z@) <= FX_SCALE as int,
{
    lemma_mul01(a.x@, b.x@);
    lemma_mul01(a.y@, b.y@);
    lemma_mul01(a.z@, b.z@);
}

/// The color the background contributes along a ray, as a value: the flat
/// color, or the clamped vertical blend of horizon and zenith.
pub open spec fn background_rgb(b: Background, r: Ray) -> (int, int, int) {
    match b {
        Background::Solid(c) => (c.x@, c.y@, c.z@),
        Background::VerticalGradient { zenith, horizon } => {
            let ud = unit3(r.dir);
            let traw = fx_mul(fx_add(ud.y@, FX_SCALE as int), 500_000);
            let t = if traw < 0 {
                0
            } else if traw > FX_SCALE as int {
                FX_SCALE as int
            } else {
                traw
            };
            (
                fx_add(fx_mul(horizon.x@, fx_sub(FX_SCALE as int, t)), fx_mul(zenith.x@, t)),
                fx_add(fx_mul(horizon.y@, fx_sub(FX_SCALE as int, t)), fx_mul(zenith.y@, t)),
                fx_add(fx_mul(horizon.z@, fx_sub(FX_SCALE as int, t)), fx_mul(zenith.z@, t)),
            )
        },
    }
}

/// The color a ray that hits nothing contributes.
pub fn background_color(b: &Background, r: &Ray) -> (res: Color)
    ensures
        background_bounded(*b) ==> color01(res),
        b matches Background::Solid(c) ==> res == c,
        ({
            let (bx, by, bz) = background_rgb(*b, *r);
            is_v3(res, bx, by, bz)
        }),
{
    match b {
        Background::Solid(c) => *c,
        Background::VerticalGradient { zenith, horizon } => {
            let one = Fx::one();
            let zero = Fx::zero();
            let half = Fx::from_micros(FX_SCALE / 2);
            let ud = r.dir.unit_vector();
            let t = ud.y.add(one).mul(half).clamp(zero, one);
            let res = horizon.scale(one.sub(t)).add(zenith.scale(t));
            proof {
                if background_bounded(*b) {
                    lemma_lerp_bound(horizon.x@, zenith.x@, t@);
                    lemma_lerp_bound(horizon.y@, zenith.y@, t@);
                    lemma_lerp_bound(horizon.z@, zenith.z@, t@);
                }
            }
            res
        },
    }
}

/// One full unit times a channel is the channel itself, and adding it to
/// black changes nothing.
proof fn lemma_one_times(c: int)
    requires
        i64::MIN as int <= c <= i64::MAX as int,
    ensures
        fx_add(0, fx_mul(FX_SCALE as int, c)) == c,
{
    assert(crate::fixed::divp_trunc(1_000_000 * c, 1_000_000) == c) by (nonlinear_arith);
}

/// A fixed-point blend of two unit-interval channels stays inside the
/// unit interval.
proof fn lemma_lerp_bound(h: int, z: int, t: int)
    requires
        0 <= h <= FX_SCALE as int,
        0 <= z <= FX_SCALE as int,
        0 <= t <= FX_SCALE as int,
    ensures
        0 <= fx_add(fx_mul(h, crate::fixed::fx_sub(FX_SCALE as int, t)), fx_mul(z, t)) <= (
        FX_SCALE as int),
{
    assert(0 <= h * (1_000_000 - t) && h * (1_000_000 - t) <= 1_000_000 * (1_000_000 - t) && 0 <= z
        * t && z * t <= 1_000_000 * t) by (nonlinear_arith)
        requires
            0 <= h <= 1_000_000 && 0 <= z <= 1_000_000 && 0 <= t <= 1_000_000,
    ;
    assert(h * (1_000_000 - t) / 1_000_000 + z * t / 1_000_000 <= 1_000_000) by (nonlinear_arith)
        requires
            0 <= h * (1_000_000 - t) <= 1_000_000 * (1_000_000 - t),
            0 <= z * t <= 1_000_000 * t,
            0 <= t <= 1_000_000,
    ;
    assert(0 <= h * (1_000_000 - t) / 1_000_000 && 0 <= z * t / 1_000_000) by (nonlinear_arith)
        requires
            0 <= h * (1_000_000 - t) && 0 <= z * t,
    ;
}

/// Follow a ray's bounces through the scene.  A spent depth budget is
/// black; a miss is the background; a hit adds the material's emission and
/// continues, attenuated, along the scattered ray.  With bounded,
/// non-emissive materials and a bounded background, no channel of the
/// result ever exceeds one: light is never created.
pub fn ray_color(
    r: &Ray,
    background: &Background,
    world: &Hittable,
    mats: &Vec<Material>,
    depth: usize,
    prng: &mut Prng,
) -> (res: Color)
    requires
        wf_hittable(*world, mats@.len() as int),
        mats_wf(mats@),
    ensures
        depth == 0 ==> crate::vec3::is_v3(res, 0, 0, 0),
        mats_bounded(mats@) && mats_non_emissive(mats@) && background_bounded(*background)
            ==> color01(res),
        depth > 0 && det_tree(*world) && (forall|t: int|
            !some_leaf_hits_at(*world, *r, 1000, i64::MAX as int, t)) ==> ({
            let (bx, by, bz) = background_rgb(*background, *r);
            is_v3(res, bx, by, bz)
        }),
{
    let ghost ok = mats_bounded(mats@) && mats_non_emissive(mats@) && background_bounded(
        *background,
    );
    let ghost first_miss = depth > 0 && det_tree(*world) && (forall|t: int|
        !some_leaf_hits_at(*world, *r, 1000, i64::MAX as int, t));
    let eps = Fx::from_micros(1000);
    let huge = Fx::from_micros(i64::MAX);
    let mut cur = *r;
    let mut total = Color::zeros();
    let mut throughput = Color::ones();
    let mut k: usize = 0;
    while k < depth
        invariant
            wf_hittable(*world, mats@.len() as int),
            mats_wf(mats@),
            ok == (mats_bounded(mats@) && mats_non_emissive(mats@) && background_bounded(
                *background,
            )),
            first_miss == (depth > 0 && det_tree(*world) && (forall|t: int|
                !some_leaf_hits_at(*world, *r, 1000, i64::MAX as int, t))),
            eps@ == 1000,
            huge@ == i64::MAX as int,
            ok ==> color01(throughput) && crate::vec3::is_v3(total, 0, 0, 0),
            k <= depth,
            k == 0 ==> crate::vec3::is_v3(total, 0, 0, 0),
            k == 0 ==> cur == *r && is_v3(
                throughput,
                FX_SCALE as int,
                FX_SCALE as int,
                FX_SCALE as int,
            ),
            first_miss ==> k == 0,
        decreases depth - k,
    {
        let rec = match world.hit(&cur, eps, huge, prng) {
            Option::Some(rec) => rec,
            Option::None => {
                let bg = background_color(background, &cur);
                let out = total.add(throughput.mul(bg));
                proof {
                    if ok {
                        lemma_mul01_v3(throughput, bg);
                    }
                    if first_miss {
                        lemma_one_times(bg.x@);
                        lemma_one_times(bg.y@);
                        lemma_one_times(bg.z@);
                    }
                }
                return out;
            },
        };
        proof {
            if first_miss {
                // A first-bounce hit contradicts the hypothesis that no
                // leaf is hit in the full window.
                assert(some_leaf_hits_at(*world, *r, 1000, i64::MAX as int, rec.t@));
                assert(false);
            }
        }
        proof {
            assert(wf_hittable(*world, mats@.len() as int));
        }
        let m = &mats[rec.mat];
        let emitted = m.emitted(rec.u, rec.v, &rec.p);
        proof {
            if ok {
                assert(non_emissive(mats@[rec.mat as int]));
                assert(crate::vec3::is_v3(emitted, 0, 0, 0));
            }
        }
        total = total.add(throughput.mul(emitted));
        match m.scatter(&cur, &rec, prng) {
            Option::None => {
                return total;
            },
            Option::Some((attenuation, scattered)) => {
                proof {
                    if ok {
                        lemma_mul01_v3(throughput, attenuation);
                    }
                }
                throughput = throughput.mul(attenuation);
                cur = scattered;
            },
        }
        k = k + 1;
    }
    total
}

/// One tone-mapped channel: average over the samples, gamma-correct,
/// clamp, and scale to the byte range.  The result always lies in
/// `[0, 256)` units.
pub open spec fn tone_map_spec(c: int, spp: int, gamma: int) -> int {
    let fs = fx_div(FX_SCALE as int, sat64(spp * FX_SCALE as int));
    let v = fx_mul(fs, c);
    let p = if v <= 0 {
        0
    } else {
        crate::approx::pow_approx(v, fx_div(FX_SCALE as int, gamma))
    };
    let cl = if p < 0 {
        0
    } else if p > 999_000 {
        999_000
    } else {
        p
    };
    fx_mul(cl, 256 * FX_SCALE as int)
}

/// Tone-map one accumulated channel.
pub fn tone_map(c: Fx, spp: usize, gamma: Fx) -> (r: Fx)
    requires
        spp <= 1_000_000,
    ensures
        r@ == tone_map_spec(c@, spp as int, gamma@),
        0 <= r@ < 256 * FX_SCALE as int,
{
    let fs = Fx::one().div(Fx::from_whole(spp as i64));
    let v = fs.mul(c);
    let p = if v.to_micros() <= 0 {
        Fx::zero()
    } else {
        crate::approx::pow_fx(v, Fx::one().div(gamma))
    };
    let cl = p.clamp(Fx::zero(), Fx::from_micros(999_000));
    let r = cl.mul(Fx::from_whole(256));
    proof {
        assert(0 <= crate::fixed::divp_trunc(cl@ * (256 * 1_000_000), 1_000_000) && (cl@ * (256
            * 1_000_000)) / 1_000_000 < 256_000_000) by (nonlinear_arith)
            requires
                0 <= cl@ <= 999_000,
        ;
    }
    r
}

/// Tone-map an accumulated pixel.
pub fn fix_pixel(p: Color, spp: usize, gamma: Fx) -> (r: Color)
    requires
        spp <= 1_000_000,
    ensures
        r.x@ == tone_map_spec(p.x@, spp as int, gamma@),
        r.y@ == tone_map_spec(p.y@, spp as int, gamma@),
        r.z@ == tone_map_spec(p.z@, spp as int, gamma@),
        0 <= r.x@ < 256 * FX_SCALE as int,
        0 <= r.y@ < 256 * FX_SCALE as int,
        0 <= r.z@ < 256 * FX_SCALE as int,
{
    Vec3::new(
        tone_map(p.x, spp, gamma),
        tone_map(p.y, spp, gamma),
        tone_map(p.z, spp, gamma),
    )
}


/// Whether every channel of every pixel lies in the tone-mapped byte
/// range.
pub open spec fn pixels_in_range(p: Seq<Color>) -> bool {
    forall|i: int|
        0 <= i < p.len() ==> 0 <= (#[trigger] p[i]).x@ < 256 * FX_SCALE as int && 0 <= p[i].y@
            < 256 * FX_SCALE as int && 0 <= p[i].z@ < 256 * FX_SCALE as int
}

/// Whether a pixel is the tone map of one accumulated radiance: its three
/// channels come from a single accumulator through `tone_map_spec` at the
/// given sampling effort and gamma.
pub open spec fn tone_mapped_pixel(c: Color, spp: int, gamma: int) -> bool {
    exists|acc: Color|
        c.x@ == #[trigger] tone_map_spec(acc.x@, spp, gamma) && c.y@ == tone_map_spec(
            acc.y@,
            spp,
            gamma,
        ) && c.z@ == tone_map_spec(acc.z@, spp, gamma)
}

/// Whether every pixel of a run is the tone map of one accumulated
/// radiance.
pub open spec fn pixels_tone_mapped(p: Seq<Color>, spp: int, gamma: int) -> bool {
    forall|i: int| 0 <= i < p.len() ==> tone_mapped_pixel(#[trigger] p[i], spp, gamma)
}

/// The channelwise saturating sum of a run of sample colors, folded in
/// accumulation order.
pub open spec fn sum_colors(s: Seq<Color>) -> Color
    decreases s.len(),
{
    if s.len() == 0 {
        Color { x: crate::vec3::to_fx(0), y: crate::vec3::to_fx(0), z: crate::vec3::to_fx(0) }
    } else {
        crate::vec3::v3_add(sum_colors(s.drop_last()), s.last())
    }
}

/// Whether a pixel is the tone map of the fold of one run of traced
/// sample colors: exactly `spp` samples, each of them inside the unit
/// interval whenever the scene is bounded (bounded non-emissive materials
/// under a bounded background).
pub open spec fn pixel_from_samples(c: Color, spp: int, gamma: int, bounded: bool) -> bool {
    exists|samples: Seq<Color>|
        #![trigger sum_colors(samples)]
        samples.len() == spp && (bounded ==> forall|k: int|
            0 <= k < samples.len() ==> color01(#[trigger] samples[k])) && c.x@ == tone_map_spec(
            sum_colors(samples).x@,
            spp,
            gamma,
        ) && c.y@ == tone_map_spec(sum_colors(samples).y@, spp, gamma) && c.z@ == tone_map_spec(
            sum_colors(samples).z@,
            spp,
            gamma,
        )
}

/// Whether every pixel of a run is the tone map of a fold of `spp` traced
/// samples.
pub open spec fn pixels_from_samples(p: Seq<Color>, spp: int, gamma: int, bounded: bool) -> bool {
    forall|i: int| 0 <= i < p.len() ==> pixel_from_samples(#[trigger] p[i], spp, gamma, bounded)
}

/// Render settings: image shape, sampling effort, bounce budget, gamma,
/// and the background.
pub struct Config {
    pub aspect_ratio: Fx,
    pub image_width: usize,
    pub image_height: usize,
    pub samples_per_pixel: usize,
    pub max_depth: usize,
    pub gamma: Fx,
    pub background: Background,
    pub repetition: usize,
}

/// The height derived from a width and an aspect ratio: the quotient,
/// truncated to whole rows.
pub open spec fn derived_height(w: int, aspect: int) -> int {
    if aspect <= 0 {
        0
    } else {
        w * FX_SCALE as int / aspect
    }
}

impl Config {
    /// Get the config's aspect ratio.
    pub fn aspect_ratio(&self) -> (r: Fx)
        ensures
            r == self.aspect_ratio,
    {
        self.aspect_ratio
    }

    /// Get the config's image width.
    pub fn image_width(&self) -> (r: usize)
        ensures
            r == self.image_width,
    {
        self.image_width
    }

    /// Get the config's image height.
    pub fn image_height(&self) -> (r: usize)
        ensures
            r == self.image_height,
    {
        self.image_height
    }

    /// Recompute the height from the width and the aspect ratio, capped at
    /// the machine's range.
    fn fix_image_height(&mut self)
        ensures
            derived_height(old(self).image_width as int, old(self).aspect_ratio@) <= usize::MAX
                ==> final(self).image_height as int == derived_height(
                old(self).image_width as int,
                old(self).aspect_ratio@,
            ),
            derived_height(old(self).image_width as int, old(self).aspect_ratio@) > usize::MAX
                ==> final(self).image_height == usize::MAX,
            *final(self) == (Config { image_height: final(self).image_height, ..*old(self) }),
    {
        let a = self.aspect_ratio.to_micros();
        if a <= 0 {
            self.image_height = 0;
            return;
        }
        let num: u128 = (self.image_width as u128) * (FX_SCALE as u128);
        let h: u128 = num / (a as u128);
        if h > usize::MAX as u128 {
            self.image_height = usize::MAX;
        } else {
            self.image_height = h as usize;
        }
    }

    /// Set the config's image width, rederiving the height.
    pub fn set_image_width(&mut self, image_width: usize)
        ensures
            final(self).image_width == image_width,
            derived_height(image_width as int, old(self).aspect_ratio@) <= usize::MAX ==> final(self).image_height as int == derived_height(
                image_width as int,
                old(self).aspect_ratio@,
            ),
            derived_height(image_width as int, old(self).aspect_ratio@) > usize::MAX ==> final(self).image_height == usize::MAX,
            *final(self) == (Config {
                image_width,
                image_height: final(self).image_height,
                ..*old(self)
            }),
    {
        self.image_width = image_width;
        self.fix_image_height();
    }

    /// Set the config's aspect ratio, rederiving the height.
    pub fn set_aspect_ratio(&mut self, aspect_ratio: Fx)
        ensures
            final(self).aspect_ratio == aspect_ratio,
            derived_height(old(self).image_width as int, aspect_ratio@) <= usize::MAX ==> final(self).image_height as int == derived_height(
                old(self).image_width as int,
                aspect_ratio@,
            ),
            derived_height(old(self).image_width as int, aspect_ratio@) > usize::MAX ==> final(self).image_height == usize::MAX,
            *final(self) == (Config {
                aspect_ratio,
                image_height: final(self).image_height,
                ..*old(self)
            }),
    {
        self.aspect_ratio = aspect_ratio;
        self.fix_image_height();
    }

    /// Get the config's samples per pixel.
    pub fn samples_per_pixel(&self) -> (r: usize)
        ensures
            r == self.samples_per_pixel,
    {
        self.samples_per_pixel
    }

    /// Get the config's maximum bounce depth.
    pub fn max_depth(&self) -> (r: usize)
        ensures
            r == self.max_depth,
    {
        self.max_depth
    }

    /// Get the config's gamma.
    pub fn gamma(&self) -> (r: Fx)
        ensures
            r == self.gamma,
    {
        self.gamma
    }

    /// Get a reference to the config's background.
    pub fn background(&self) -> (r: &Background)
        ensures
            r == &self.background,
    {
        &self.background
    }

    /// Get the number of independent whole-image runs to average.
    pub fn repetition(&self) -> (r: usize)
        ensures
            r == self.repetition,
    {
        self.repetition
    }

    /// Set the config's samples per pixel.
    pub fn set_samples_per_pixel(&mut self, samples_per_pixel: usize)
        ensures
            *final(self) == (Config { samples_per_pixel, ..*old(self) }),
    {
        self.samples_per_pixel = samples_per_pixel;
    }

    /// Set the config's background.
    pub fn set_background(&mut self, background: Background)
        ensures
            *final(self) == (Config { background, ..*old(self) }),
    {
        self.background = background;
    }
}

impl Default for Config {
    /// A landscape frame at moderate effort over a black background.
    fn default() -> (r: Config)
        ensures
            r.image_width == 640,
            r.aspect_ratio@ == 1_777_778,
            r.samples_per_pixel == 100,
            r.max_depth == 50,
            r.gamma@ == 2 * FX_SCALE as int,
            (r.background matches Background::Solid(c) && crate::vec3::is_v3(c, 0, 0, 0)),
            r.repetition == 1,
    {
        let mut c = Config {
            aspect_ratio: Fx::from_micros(1_777_778),
            image_width: 640,
            image_height: 0,
            samples_per_pixel: 100,
            max_depth: 50,
            gamma: Fx::from_whole(2),
            background: Background::Solid(Vec3::zeros()),
            repetition: 1,
        };
        c.fix_image_height();
        c
    }
}

/// Render one image row: for every pixel, average the traced samples and
/// tone-map.  The row draws from its own generator, seeded from the run's
/// seed and the row index, so a fixed seed renders reproducibly.
pub fn render_row(
    world: &Hittable,
    mats: &Vec<Material>,
    cam: &Camera,
    conf: &Config,
    j: usize,
    seed: u64,
) -> (row: Vec<Color>)
    requires
        wf_hittable(*world, mats@.len() as int),
        mats_wf(mats@),
        conf.image_width <= 100_000,
        conf.image_height <= 100_000,
        1 <= conf.samples_per_pixel <= 100_000,
        j < conf.image_height,
    ensures
        row@.len() == conf.image_width,
        pixels_in_range(row@),
        pixels_tone_mapped(row@, conf.samples_per_pixel as int, conf.gamma@),
        pixels_from_samples(
            row@,
            conf.samples_per_pixel as int,
            conf.gamma@,
            mats_bounded(mats@) && mats_non_emissive(mats@) && background_bounded(conf.background),
        ),
{
    let ghost bounded = mats_bounded(mats@) && mats_non_emissive(mats@) && background_bounded(
        conf.background,
    );
    let mut prng = Prng::seeded(seed.wrapping_add((j as u64).wrapping_mul(0x9E37_79B9_7F4A_7C15)));
    let mut row: Vec<Color> = Vec::new();
    let w = conf.image_width;
    let h = conf.image_height;
    let spp = conf.samples_per_pixel;
    let mut i: usize = 0;
    while i < w
        invariant
            wf_hittable(*world, mats@.len() as int),
            mats_wf(mats@),
            w == conf.image_width,
            h == conf.image_height,
            spp == conf.samples_per_pixel,
            w <= 100_000,
            h <= 100_000,
            1 <= spp <= 100_000,
            j < h,
            i <= w,
            row@.len() == i,
            pixels_in_range(row@),
            pixels_tone_mapped(row@, spp as int, conf.gamma@),
            bounded == (mats_bounded(mats@) && mats_non_emissive(mats@) && background_bounded(
                conf.background,
            )),
            pixels_from_samples(row@, spp as int, conf.gamma@, bounded),
        decreases w - i,
    {
        let mut acc = Vec3::zeros();
        let ghost mut samples: Seq<Color> = Seq::empty();
        let mut sidx: usize = 0;
        while sidx < spp
            invariant
                wf_hittable(*world, mats@.len() as int),
                mats_wf(mats@),
                w == conf.image_width,
                h == conf.image_height,
                w <= 100_000,
                h <= 100_000,
                j < h,
                i < w,
                sidx <= spp,
                samples.len() == sidx,
                acc == sum_colors(samples),
                bounded == (mats_bounded(mats@) && mats_non_emissive(mats@) && background_bounded(
                    conf.background,
                )),
                bounded ==> forall|k: int|
                    0 <= k < samples.len() ==> color01(#[trigger] samples[k]),
            decreases spp - sidx,
        {
            let ju = Fx::from_whole(i as i64).add(Fx::from_micros(prng.next_micros()));
            let jv = Fx::from_whole(j as i64).add(Fx::from_micros(prng.next_micros()));
            let u = ju.div(Fx::from_whole((w - 1) as i64));
            let v = jv.div(Fx::from_whole((h - 1) as i64));
            let ray = cam.get_ray(u, v, &mut prng);
            let c = ray_color(&ray, &conf.background, world, mats, conf.max_depth, &mut prng);
            let ghost samples_before = samples;
            acc = acc.add(c);
            proof {
                samples = samples.push(c);
                assert(samples.drop_last() =~= samples_before);
                assert(samples.last() == c);
            }
            sidx = sidx + 1;
        }
        let pixel = fix_pixel(acc, spp, conf.gamma);
        let ghost row_before = row@;
        row.push(pixel);
        proof {
            assert(tone_mapped_pixel(pixel, spp as int, conf.gamma@)) by {
                assert(pixel.x@ == tone_map_spec(acc.x@, spp as int, conf.gamma@));
            }
            assert(pixel_from_samples(pixel, spp as int, conf.gamma@, bounded)) by {
                assert(sum_colors(samples) == acc);
                assert(pixel.x@ == tone_map_spec(sum_colors(samples).x@, spp as int, conf.gamma@));
            }
            assert forall|idx: int| 0 <= idx < row@.len() implies tone_mapped_pixel(
                #[trigger] row@[idx],
                spp as int,
                conf.gamma@,
            ) && pixel_from_samples(row@[idx], spp as int, conf.gamma@, bounded) by {
                if idx < row_before.len() {
                    assert(row@[idx] == row_before[idx]);
                } else {
                    assert(row@[idx] == pixel);
                }
            }
        }
        i = i + 1;
    }
    row
}

/// Render the whole frame sequentially, top row first, row-major.  A
/// parallel caller may instead map `render_row` over the rows and
/// concatenate in the same order.
pub fn render(
    world: &Hittable,
    mats: &Vec<Material>,
    cam: &Camera,
    conf: &Config,
    seed: u64,
) -> (pixels: Vec<Color>)
    requires
        wf_hittable(*world, mats@.len() as int),
        mats_wf(mats@),
        conf.image_width <= 100_000,
        conf.image_height <= 100_000,
        1 <= conf.samples_per_pixel <= 100_000,
    ensures
        pixels@.len() == conf.image_width as int * conf.image_height as int,
        pixels_in_range(pixels@),
        pixels_tone_mapped(pixels@, conf.samples_per_pixel as int, conf.gamma@),
        pixels_from_samples(
            pixels@,
            conf.samples_per_pixel as int,
            conf.gamma@,
            mats_bounded(mats@) && mats_non_emissive(mats@) && background_bounded(conf.background),
        ),
        exists|rows: Seq<Vec<Color>>|
            #![trigger rows.len()]
            rows.len() == conf.image_height as int && (forall|k: int|
                0 <= k < rows.len() ==> call_ensures(
                    render_row,
                    (world, mats, cam, conf, (conf.image_height - 1 - k) as usize, seed),
                    #[trigger] rows[k],
                )) && (forall|k: int|
                0 <= k < rows.len() ==> (#[trigger] rows[k])@ == pixels@.subrange(
                    k * conf.image_width as int,
                    (k + 1) * conf.image_width as int,
                )),
{
    let w = conf.image_width;
    let h = conf.image_height;
    let ghost mut rows: Seq<Vec<Color>> = Seq::empty();
    proof {
        assert(0 <= (w as int) * (h as int) && (w as int) * (h as int) <= 100_000 * 100_000)
            by (nonlinear_arith)
            requires
                w <= 100_000 && h <= 100_000,
        ;
    }
    let mut pixels: Vec<Color> = Vec::new();
    let mut done: usize = 0;
    while done < h
        invariant
            wf_hittable(*world, mats@.len() as int),
            mats_wf(mats@),
            w == conf.image_width,
            h == conf.image_height,
            w <= 100_000,
            h <= 100_000,
            1 <= conf.samples_per_pixel <= 100_000,
            done <= h,
            pixels@.len() == w as int * done as int,
            pixels_in_range(pixels@),
            pixels_tone_mapped(pixels@, conf.samples_per_pixel as int, conf.gamma@),
            pixels_from_samples(
                pixels@,
                conf.samples_per_pixel as int,
                conf.gamma@,
                mats_bounded(mats@) && mats_non_emissive(mats@) && background_bounded(
                    conf.background,
                ),
            ),
            rows.len() == done as int,
            forall|k: int|
                0 <= k < rows.len() ==> call_ensures(
                    render_row,
                    (world, mats, cam, conf, (h - 1 - k) as usize, seed),
                    #[trigger] rows[k],
                ),
            forall|k: int|
                0 <= k < rows.len() ==> (#[trigger] rows[k])@ == pixels@.subrange(
                    k * w as int,
                    (k + 1) * w as int,
                ),
        decreases h - done,
    {
        let j = h - 1 - done;
        let mut row = render_row(world, mats, cam, conf, j, seed);
        let ghost rowvec = row;
        let ghost rowv = row@;
        let ghost before = pixels@;
        let ghost rows_before = rows;
        pixels.append(&mut row);
        proof {
            rows = rows.push(rowvec);
            assert(pixels@.len() == w as int * done as int + w as int);
            assert(w as int * (done as int + 1) == w as int * done as int + w as int)
                by (nonlinear_arith);
            assert forall|k: int| 0 <= k < rows.len() implies (#[trigger] rows[k])@
                == pixels@.subrange(k * w as int, (k + 1) * w as int) by {
                assert(0 <= k * w as int && (k + 1) * w as int <= pixels@.len() && k * w as int
                    <= (k + 1) * w as int) by (nonlinear_arith)
                    requires
                        0 <= k < rows.len(),
                        rows.len() == done as int + 1,
                        pixels@.len() == w as int * (done as int + 1),
                        w as int >= 0,
                ;
                if k < done as int {
                    assert(rows[k] == rows_before[k]);
                    assert((k + 1) * w as int <= before.len()) by (nonlinear_arith)
                        requires
                            0 <= k < done as int,
                            before.len() == w as int * done as int,
                            w as int >= 0,
                    ;
                    assert(pixels@.subrange(k * w as int, (k + 1) * w as int) =~= before.subrange(
                        k * w as int,
                        (k + 1) * w as int,
                    ));
                } else {
                    assert(rows[k] == rowvec);
                    assert(k * w as int == w as int * done as int && (k + 1) * w as int == w as int
                        * done as int + w as int) by (nonlinear_arith)
                        requires
                            k == done as int,
                    ;
                    assert(k * w as int == before.len());
                    assert(pixels@.subrange(k * w as int, (k + 1) * w as int) =~= rowv);
                }
            }
            assert forall|idx: int| 0 <= idx < pixels@.len() implies 0 <= (
            #[trigger] pixels@[idx]).x@ < 256 * FX_SCALE as int && 0 <= pixels@[idx].y@ < 256
                * FX_SCALE as int && 0 <= pixels@[idx].z@ < 256 * FX_SCALE as int by {
                if idx < before.len() {
                    assert(pixels@[idx] == before[idx]);
                }
            }
            assert forall|idx: int| 0 <= idx < pixels@.len() implies tone_mapped_pixel(
                #[trigger] pixels@[idx],
                conf.samples_per_pixel as int,
                conf.gamma@,
            ) && pixel_from_samples(
                pixels@[idx],
                conf.samples_per_pixel as int,
                conf.gamma@,
                mats_bounded(mats@) && mats_non_emissive(mats@) && background_bounded(
                    conf.background,
                ),
            ) by {
                if idx < before.len() {
                    assert(pixels@[idx] == before[idx]);
                } else {
                    assert(pixels@[idx] == rowv[idx - before.len()]);
                }
            }
        }
        done = done + 1;
    }
    proof {
        assert(pixels@.len() == w as int * h as int);
    }
    pixels
}

/// Add a second rendering into an accumulator, channel by channel: the
/// summation step of repeated independent runs.
pub fn accumulate_image(acc: &mut Vec<Color>, add: &Vec<Color>)
    requires
        old(acc)@.len() == add@.len(),
    ensures
        final(acc)@.len() == old(acc)@.len(),
        forall|i: int|
            0 <= i < final(acc)@.len() ==> (#[trigger] final(acc)@[i]).x@ == fx_add(
                old(acc)@[i].x@,
                add@[i].x@,
            ) && final(acc)@[i].y@ == fx_add(old(acc)@[i].y@, add@[i].y@) && final(acc)@[i].z@
                == fx_add(old(acc)@[i].z@, add@[i].z@),
{
    let n = acc.len();
    let mut i: usize = 0;
    while i < n
        invariant
            n == acc@.len(),
            acc@.len() == old(acc)@.len(),
            add@.len() == old(acc)@.len(),
            i <= n,
            forall|k: int| i <= k < n ==> acc@[k] == old(acc)@[k],
            forall|k: int|
                0 <= k < i ==> (#[trigger] acc@[k]).x@ == fx_add(old(acc)@[k].x@, add@[k].x@)
                    && acc@[k].y@ == fx_add(old(acc)@[k].y@, add@[k].y@) && acc@[k].z@ == fx_add(
                    old(acc)@[k].z@,
                    add@[k].z@,
                ),
        decreases n - i,
    {
        let s = acc[i].add(add[i]);
        acc[i] = s;
        i = i + 1;
    }
}

/// Divide an accumulated image by the number of runs: the averaging step
/// of repeated independent runs.
pub fn scale_image(acc: &mut Vec<Color>, runs: usize)
    requires
        runs >= 1,
        runs <= 1_000_000,
    ensures
        final(acc)@.len() == old(acc)@.len(),
        forall|i: int|
            0 <= i < final(acc)@.len() ==> (#[trigger] final(acc)@[i]).x@ == fx_div(
                old(acc)@[i].x@,
                crate::fixed::sat64(runs as int * FX_SCALE as int),
            ),
{
    let d = Fx::from_whole(runs as i64);
    let n = acc.len();
    let mut i: usize = 0;
    while i < n
        invariant
            n == acc@.len(),
            acc@.len() == old(acc)@.len(),
            d@ == crate::fixed::sat64(runs as int * FX_SCALE as int),
            i <= n,
            forall|k: int| i <= k < n ==> acc@[k] == old(acc)@[k],
            forall|k: int|
                0 <= k < i ==> (#[trigger] acc@[k]).x@ == fx_div(old(acc)@[k].x@, d@)
                    && acc@[k].y@ == fx_div(old(acc)@[k].y@, d@) && acc@[k].z@ == fx_div(
                    old(acc)@[k].z@,
                    d@,
                ),
        decreases n - i,
    {
        let s = acc[i].div_by(d);
        acc[i] = s;
        i = i + 1;
    }
}

} // verus!
