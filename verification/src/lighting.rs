//! What the integrators share: the light that a surface gives off, the light that is sampled on
//! it, and how the two are weighted against each other.
use crate::expr::{mis_weight, mis_weight_spec, Color, Scalar};
use crate::value::{
    Float2, Float3, Ray, Single, StylizationFlags, SurfaceHit, Uint2,
};
use vstd::prelude::*;

verus! {

/// A point on a surface, as the scene describes it.
#[derive(Clone, Copy, Debug, PartialEq, Eq, Structural)]
pub struct SurfaceInteraction {
    pub inst_id: u32,
    pub prim_id: u32,
    pub bary: Float2,
    pub p: Float3,
    pub ng: Float3,
    pub ns: Float3,
    pub valid: bool,
}

impl SurfaceInteraction {
    pub open spec fn spec_hit(self) -> SurfaceHit {
        SurfaceHit { inst_id: self.inst_id, prim_id: self.prim_id, bary: self.bary }
    }

    /// Where the point is, without what the scene derives from that.
    #[verifier::when_used_as_spec(spec_hit)]
    pub fn hit(self) -> (r: SurfaceHit)
        ensures
            r == self.spec_hit(),
    {
        SurfaceHit { inst_id: self.inst_id, prim_id: self.prim_id, bary: self.bary }
    }
}

/// What the lights of the scene say of a surface: whether it gives off light, how much, and the
/// density with which light sampling would have picked the point.
#[derive(Clone, Copy, Debug, PartialEq, Eq, Structural)]
pub struct LightHit {
    pub valid: bool,
    pub le: Float3,
    pub pdf: Single,
}

/// A light that was sampled from a surface point.
#[derive(Clone, Copy, Debug, PartialEq, Eq, Structural)]
pub struct LightSample {
    pub valid: bool,
    pub li: Float3,
    pub wi: Float3,
    pub pdf: Single,
    pub shadow_ray: Ray,
    pub si: SurfaceInteraction,
}

/// The value and the density of a scattering function for one pair of directions.
#[derive(Clone, Copy, Debug, PartialEq, Eq, Structural)]
pub struct BsdfEval {
    pub f: Float3,
    pub pdf: Single,
}

/// A direction that was sampled from a scattering function, and where the ray along it starts.
#[derive(Clone, Copy, Debug, PartialEq, Eq, Structural)]
pub struct BsdfSample {
    pub wi: Float3,
    pub pdf: Single,
    pub color: Float3,
    pub origin: Float3,
}

/// The light that a sampled light sends to a surface.
#[derive(Debug, PartialEq)]
pub struct DirectLighting {
    pub irradiance: Color,
    pub wi: Float3,
    pub pdf: Single,
    pub shadow_ray: Ray,
    pub valid: bool,
}

impl DirectLighting {
    pub open spec fn spec_invalid() -> DirectLighting {
        DirectLighting {
            irradiance: Color::zero(),
            wi: Float3::zero(),
            pdf: Single::zero(),
            shadow_ray: Ray::zeroed(),
            valid: false,
        }
    }

    /// No light.
    #[verifier::when_used_as_spec(spec_invalid)]
    pub fn invalid() -> (r: DirectLighting)
        ensures
            r == DirectLighting::spec_invalid(),
    {
        DirectLighting {
            irradiance: Color::zero(),
            wi: Float3::zero(),
            pdf: Single::zero(),
            shadow_ray: Ray::zeroed(),
            valid: false,
        }
    }
}

pub open spec fn sample_light_spec(
    si: SurfaceInteraction,
    path_depth: u32,
    flags: StylizationFlags,
    sample: LightSample,
) -> DirectLighting {
    if sample.valid {
        DirectLighting {
            irradiance: if si.valid {
                Color::Rgb(sample.li).stylize(
                    path_depth,
                    sample.si.hit(),
                    sample.wi.neg(),
                    flags,
                )
            } else {
                Color::Rgb(sample.li)
            },
            wi: sample.wi,
            pdf: sample.pdf,
            shadow_ray: Ray {
                exclude0: Uint2 { x: si.inst_id, y: si.prim_id },
                ..sample.shadow_ray
            },
            valid: true,
        }
    } else {
        DirectLighting::invalid()
    }
}

/// The light that the sampled light sends to `si`, in the style of the surface that sends it. Its
/// shadow ray does not meet the surface that it starts from.
pub fn sample_light(
    si: SurfaceInteraction,
    path_depth: u32,
    flags: StylizationFlags,
    sample: LightSample,
) -> (r: DirectLighting)
    ensures
        r == sample_light_spec(si, path_depth, flags, sample),
{
    if sample.valid {
        let mut shadow_ray = sample.shadow_ray;
        shadow_ray.exclude0 = Uint2 { x: si.inst_id, y: si.prim_id };
        let irradiance = if si.valid {
            Color::Rgb(sample.li).stylize(path_depth, sample.si.hit(), sample.wi.neg(), flags)
        } else {
            Color::Rgb(sample.li)
        };
        DirectLighting { irradiance, wi: sample.wi, pdf: sample.pdf, shadow_ray, valid: true }
    } else {
        DirectLighting::invalid()
    }
}

pub open spec fn surface_light_spec(
    light: LightHit,
    path_depth: u32,
    prev_bsdf_pdf: Single,
) -> (Color, Scalar, bool) {
    if light.valid {
        if path_depth == 0 {
            (Color::Rgb(light.le), Scalar::one(), true)
        } else {
            (
                Color::Rgb(light.le),
                mis_weight_spec(Scalar::Value(prev_bsdf_pdf), Scalar::Value(light.pdf), 1),
                true,
            )
        }
    } else {
        (Color::zero(), Scalar::zero(), false)
    }
}

/// The light that a surface gives off towards a path, its weight against the light that was
/// sampled at the vertex before, and whether it gives off any. At the start of a path nothing was
/// sampled, so the light counts in full.
pub fn handle_surface_light(light: LightHit, path_depth: u32, prev_bsdf_pdf: Single) -> (r: (
    Color,
    Scalar,
    bool,
))
    ensures
        r == surface_light_spec(light, path_depth, prev_bsdf_pdf),
{
    if light.valid {
        if path_depth == 0 {
            (Color::Rgb(light.le), Scalar::one(), true)
        } else {
            let w = mis_weight(Scalar::Value(prev_bsdf_pdf), Scalar::Value(light.pdf), 1);
            (Color::Rgb(light.le), w, true)
        }
    } else {
        (Color::zero(), Scalar::zero(), false)
    }
}

/// The weight with which a vertex counts for the vertex before it: that of its own light where
/// it gives off light, and one elsewhere.
pub open spec fn vertex_weight_spec(
    light: LightHit,
    path_depth: u32,
    prev_bsdf_pdf: Single,
) -> Scalar {
    if light.valid {
        surface_light_spec(light, path_depth, prev_bsdf_pdf).1
    } else {
        Scalar::one()
    }
}

pub open spec fn shade_direct_spec(direct_lighting: DirectLighting, eval: BsdfEval) -> Color {
    if direct_lighting.valid {
        direct_lighting.irradiance.times(Color::Rgb(eval.f)).scale(
            mis_weight_spec(Scalar::Value(direct_lighting.pdf), Scalar::Value(eval.pdf), 1),
        ).over(Scalar::Value(direct_lighting.pdf))
    } else {
        Color::zero()
    }
}

/// The light that a surface scatters of what a sampled light sends to it, where `eval` is the
/// scattering function for the direction of that light.
pub fn shade_direct(direct_lighting: &DirectLighting, eval: BsdfEval) -> (r: Color)
    ensures
        r == shade_direct_spec(*direct_lighting, eval),
{
    if direct_lighting.valid {
        let w = mis_weight(Scalar::Value(direct_lighting.pdf), Scalar::Value(eval.pdf), 1);
        direct_lighting.irradiance.clone().times(Color::Rgb(eval.f)).scale(w).over(
            Scalar::Value(direct_lighting.pdf),
        )
    } else {
        Color::zero()
    }
}

/// What is kept of a surface for removing noise.
#[derive(Debug, PartialEq)]
pub struct BsdfDenoisingFeatures {
    pub albedo: Color,
    pub roughness: Single,
    pub roughness_interval: Single,
}

/// What a surface shows of itself.
#[derive(Clone, Copy, Debug, PartialEq, Eq, Structural)]
pub struct SurfaceLook {
    pub albedo: Float3,
    pub emission: Float3,
    pub roughness: Single,
}

pub open spec fn albedo_spec(look: SurfaceLook) -> Color {
    Color::Rgb(look.albedo).plus(Color::Rgb(look.emission))
}

/// The features of a surface: what it reflects and gives off, and how rough it is.
pub fn denoising_features(look: SurfaceLook) -> (r: BsdfDenoisingFeatures)
    ensures
        r.albedo == albedo_spec(look),
        r.roughness == look.roughness,
        r.roughness_interval == Single::zero(),
{
    BsdfDenoisingFeatures {
        albedo: Color::Rgb(look.albedo).plus(Color::Rgb(look.emission)),
        roughness: look.roughness,
        roughness_interval: Single::zero(),
    }
}

pub open spec fn pixel_spec(px_idx: u32, width: u32) -> Uint2 {
    Uint2 { x: px_idx % width, y: px_idx / width }
}

/// The pixel with a given number, counted row by row.
pub fn pixel(px_idx: u32, width: u32) -> (px: Uint2)
    requires
        width > 0,
    ensures
        px == pixel_spec(px_idx, width),
{
    Uint2 { x: px_idx % width, y: px_idx / width }
}

/// A pixel's number is its row times the width, plus its column, and every pixel of the image
/// has a number of its own.
pub proof fn law_pixel_numbering(px_idx: u32, width: u32, height: u32)
    requires
        width > 0,
        px_idx < width * height,
    ensures
        pixel_spec(px_idx, width).x < width,
        pixel_spec(px_idx, width).y < height,
        pixel_spec(px_idx, width).y * width + pixel_spec(px_idx, width).x == px_idx,
{
    let (i, w, h) = (px_idx as int, width as int, height as int);
    vstd::arithmetic::div_mod::lemma_fundamental_div_mod(i, w);
    assert((i / w) * w == w * (i / w)) by (nonlinear_arith);
    assert(i / w < h) by (nonlinear_arith)
        requires
            i < w * h,
            w > 0,
            i >= 0,
    ;
}

/// A sample that is added to the film.
#[derive(Debug, PartialEq)]
pub struct FilmSample {
    pub px: Uint2,
    pub color: Color,
    /// How much the sample counts in the mean of its pixel.
    pub weight: Single,
}

/// A film has the size of what the camera sees. On a film of another size nothing is rendered.
pub fn film_fits(resolution: Uint2, film_resolution: Uint2) -> (r: bool)
    ensures
        r == (resolution == film_resolution),
{
    resolution == film_resolution
}

} // verus!
