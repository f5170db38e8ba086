//! Path filtering: every path has one vertex for each depth, and the light that arrives at a
//! vertex is estimated from the light that was recorded at the vertices around it.
//!
//! The vertices of a depth are entered into a hash grid, gathered into clusters, and filtered;
//! what they then send out is recorded for the vertices of the depth above.
use crate::expr::{Color, Scalar};
use crate::lighting::{
    albedo_spec, denoising_features, sample_light, sample_light_spec, shade_direct,
    shade_direct_spec, surface_light_spec, BsdfEval, BsdfSample, LightHit, LightSample,
    SurfaceInteraction, SurfaceLook,
};
use crate::value::{Float3, Ray, Single, StylizationFlags, Uint2, NONE};
use vstd::prelude::*;

pub use crate::expr::mis_weight;
pub use crate::hash_grid::{hash, GridState, HashGrid, HashGridVar};
pub use crate::lighting::{BsdfDenoisingFeatures, DirectLighting};
pub use crate::value::SurfaceHit;

pub mod balance;
pub mod cluster;
pub mod fairness;
pub mod filter;
pub mod memory;
pub mod render;
pub mod trace;
pub mod turns;

verus! {

/// The bit pattern of `0.1`.
pub const TENTH_BITS: u32 = 0x3dcc_cccd;

/// The bit pattern of `0.05`.
pub const TWENTIETH_BITS: u32 = 0x3d4c_cccd;

#[derive(Debug)]
pub struct Config {
    pub max_depth: u32,
    pub repeats: u32,
    /// The number of paths through each pixel.
    pub branch: u32,
    /// The radius around a vertex for each depth, relative to the scene; the last one goes on.
    pub radius_scale: Vec<Single>,
    /// The number of neighbours for each depth; the last one goes on.
    pub reuse: Vec<u32>,
    /// The memory for lists of neighbours, in megabytes.
    pub vram: usize,
    /// Weigh a neighbour's record against the densities of all neighbours.
    pub smis: bool,
    pub no_first_hit_stylization: bool,
    /// Take neighbours whatever their paths have met.
    pub disable_flag_check: bool,
    pub cluster: bool,
    /// The box that the grid covers, in place of that of the scene.
    pub scene_bounds: Option<Vec<Float3>>,
}

impl Default for Config {
    fn default() -> (r: Self)
        ensures
            r.max_depth == 7,
            r.repeats == 1,
            r.branch == 1,
            r.radius_scale@ == seq![Single { bits: TENTH_BITS }, Single { bits: TWENTIETH_BITS }],
            r.reuse@ == seq![128u32, 64],
            r.vram == 2048,
            r.smis,
            !r.no_first_hit_stylization,
            !r.disable_flag_check,
            r.cluster,
            r.scene_bounds is None,
    {
        Config {
            max_depth: 7,
            repeats: 1,
            branch: 1,
            radius_scale: vec![Single { bits: TENTH_BITS }, Single { bits: TWENTIETH_BITS }],
            reuse: vec![128, 64],
            vram: 2048,
            smis: true,
            no_first_hit_stylization: false,
            disable_flag_check: false,
            cluster: true,
            scene_bounds: None,
        }
    }
}

pub struct PathFiltering {
    pub config: Config,
}

/// Light that arrives along a direction.
#[derive(Debug, PartialEq)]
pub struct IrradianceRecord {
    pub wi: Float3,
    pub irradiance: Color,
    /// The density with which the direction was sampled.
    pub pdf: Single,
    pub mis: Scalar,
}

impl Clone for IrradianceRecord {
    fn clone(&self) -> (r: Self)
        ensures
            r == *self,
    {
        IrradianceRecord {
            wi: self.wi,
            irradiance: self.irradiance.clone(),
            pdf: self.pdf,
            mis: self.mis.clone(),
        }
    }
}

impl IrradianceRecord {
    pub open spec fn spec_zeroed() -> IrradianceRecord {
        IrradianceRecord {
            wi: Float3::zero(),
            irradiance: Color::zero(),
            pdf: Single::zero(),
            mis: Scalar::zero(),
        }
    }

    /// The record of no light.
    #[verifier::when_used_as_spec(spec_zeroed)]
    pub fn zeroed() -> (r: IrradianceRecord)
        ensures
            r == IrradianceRecord::spec_zeroed(),
    {
        IrradianceRecord {
            wi: Float3::zero(),
            irradiance: Color::zero(),
            pdf: Single::zero(),
            mis: Scalar::zero(),
        }
    }
}

/// A sum of densities, none of them negative. It is positive where one of them is: adding a
/// non-negative number never makes a sum smaller.
#[derive(Debug, PartialEq)]
pub struct DensitySum {
    pub value: Scalar,
    pub positive: bool,
}

impl Clone for DensitySum {
    fn clone(&self) -> (r: Self)
        ensures
            r == *self,
    {
        DensitySum { value: self.value.clone(), positive: self.positive }
    }
}

impl DensitySum {
    pub open spec fn spec_zero() -> DensitySum {
        DensitySum { value: Scalar::zero(), positive: false }
    }

    /// The sum of nothing.
    #[verifier::when_used_as_spec(spec_zero)]
    pub fn zero() -> (r: DensitySum)
        ensures
            r == DensitySum::spec_zero(),
    {
        DensitySum { value: Scalar::zero(), positive: false }
    }

    pub open spec fn spec_plus(self, pdf: Single) -> DensitySum {
        DensitySum {
            value: self.value.plus(Scalar::Value(pdf)),
            positive: self.positive || pdf.is_positive(),
        }
    }

    /// The sum with one more density.
    #[verifier::when_used_as_spec(spec_plus)]
    pub fn plus(self, pdf: Single) -> (r: DensitySum)
        ensures
            r == self.spec_plus(pdf),
    {
        DensitySum {
            value: self.value.plus(Scalar::Value(pdf)),
            positive: self.positive || pdf.gt_zero(),
        }
    }
}

/// A vertex of a path.
#[derive(Debug, PartialEq)]
pub struct Vertex {
    pub wo: Float3,
    pub p: Float3,
    pub hit: SurfaceHit,
    /// The light that the surface gives off by itself.
    pub le: Color,
    pub mis: Scalar,
    pub direct: IrradianceRecord,
    pub indirect: IrradianceRecord,
    /// The light that leaves the vertex, once it is filtered.
    pub radiance: Color,
    pub bsdf_pdf: Single,
    pub flags: StylizationFlags,
    pub new_flags: StylizationFlags,
    pub sum_pdf: DensitySum,
    /// The vertex at the centre of this vertex's cluster.
    pub cluster_id: u32,
    /// The number of vertices that joined the cluster around this vertex.
    pub cluster_size: u32,
}

impl Clone for Vertex {
    fn clone(&self) -> (r: Self)
        ensures
            r == *self,
    {
        Vertex {
            wo: self.wo,
            p: self.p,
            hit: self.hit,
            le: self.le.clone(),
            mis: self.mis.clone(),
            direct: self.direct.clone(),
            indirect: self.indirect.clone(),
            radiance: self.radiance.clone(),
            bsdf_pdf: self.bsdf_pdf,
            flags: self.flags,
            new_flags: self.new_flags,
            sum_pdf: self.sum_pdf.clone(),
            cluster_id: self.cluster_id,
            cluster_size: self.cluster_size,
        }
    }
}

impl Vertex {
    pub open spec fn spec_blank() -> Vertex {
        Vertex {
            wo: Float3::zero(),
            p: Float3::zero(),
            hit: SurfaceHit::zeroed(),
            le: Color::zero(),
            mis: Scalar::zero(),
            direct: IrradianceRecord::zeroed(),
            indirect: IrradianceRecord::zeroed(),
            radiance: Color::zero(),
            bsdf_pdf: Single::zero(),
            flags: StylizationFlags::zeroed(),
            new_flags: StylizationFlags::zeroed(),
            sum_pdf: DensitySum::zero(),
            cluster_id: NONE,
            cluster_size: 0,
        }
    }

    /// A vertex in no cluster, all else zero.
    #[verifier::when_used_as_spec(spec_blank)]
    pub fn blank() -> (r: Vertex)
        ensures
            r == Vertex::spec_blank(),
    {
        Vertex {
            wo: Float3::zero(),
            p: Float3::zero(),
            hit: SurfaceHit::zeroed(),
            le: Color::zero(),
            mis: Scalar::zero(),
            direct: IrradianceRecord::zeroed(),
            indirect: IrradianceRecord::zeroed(),
            radiance: Color::zero(),
            bsdf_pdf: Single::zero(),
            flags: StylizationFlags::zeroed(),
            new_flags: StylizationFlags::zeroed(),
            sum_pdf: DensitySum::zero(),
            cluster_id: NONE,
            cluster_size: 0,
        }
    }
}

/// How far a path has come.
#[derive(Clone, Copy, Debug, PartialEq, Eq, Structural)]
pub struct PathState {
    pub depth: u32,
    pub px: Uint2,
    /// The path has met a surface.
    pub valid: bool,
    pub vertex_idx: u32,
    pub prev_p: Float3,
    pub prev_ng: Float3,
    pub prev_bsdf_pdf: Single,
    pub flags: StylizationFlags,
    pub terminated: bool,
}

impl PathState {
    pub open spec fn spec_zeroed() -> PathState {
        PathState {
            depth: 0,
            px: Uint2 { x: 0, y: 0 },
            valid: false,
            vertex_idx: 0,
            prev_p: Float3::zero(),
            prev_ng: Float3::zero(),
            prev_bsdf_pdf: Single::zero(),
            flags: StylizationFlags::zeroed(),
            terminated: false,
        }
    }

    /// The state whose every byte is zero.
    #[verifier::when_used_as_spec(spec_zeroed)]
    pub fn zeroed() -> (r: PathState)
        ensures
            r == PathState::spec_zeroed(),
    {
        PathState {
            depth: 0,
            px: Uint2 { x: 0, y: 0 },
            valid: false,
            vertex_idx: 0,
            prev_p: Float3::zero(),
            prev_ng: Float3::zero(),
            prev_bsdf_pdf: Single::zero(),
            flags: StylizationFlags::zeroed(),
            terminated: false,
        }
    }

    pub open spec fn spec_reaches(self, path_depth: u32) -> bool {
        self.valid && path_depth <= self.depth
    }

    /// The path has a vertex at the given depth.
    #[verifier::when_used_as_spec(spec_reaches)]
    pub fn reaches(self, path_depth: u32) -> (r: bool)
        ensures
            r == self.spec_reaches(path_depth),
    {
        self.valid && path_depth <= self.depth
    }
}

/// The buffers of a rendering. All but `first_hit_radiance_buf`, `reuses_per_depth` and
/// `neighbor_buf` have one entry for each path.
pub struct RenderState {
    /// The light that was gathered for each pixel.
    pub first_hit_radiance_buf: Vec<Color>,
    pub path_state_buf: Vec<PathState>,
    /// The number of neighbours for each depth.
    pub reuses_per_depth: Vec<u32>,
    /// The number of neighbours that were met.
    pub neighbor_counter: u64,
    /// The vertices of the depth that is worked on.
    pub vertex_buf: Vec<Vertex>,
    pub ray_buf: Vec<Ray>,
    /// What the vertices of the depth below send out.
    pub record_buf: Vec<IrradianceRecord>,
    /// Room for lists of neighbours.
    pub neighbor_buf: Vec<u32>,
}

impl RenderState {
    pub open spec fn wf(&self) -> bool {
        let n = self.path_state_buf.len();
        &&& n <= NONE
        &&& self.vertex_buf.len() == n
        &&& self.ray_buf.len() == n
        &&& self.record_buf.len() == n
        &&& forall|i: int|
            0 <= i < n ==> (#[trigger] self.path_state_buf@[i]).vertex_idx < self.vertex_buf.len()
    }

    /// Every path has its vertex at its own index, as tracing its first vertex leaves it.
    pub open spec fn traced(&self) -> bool {
        forall|i: int|
            0 <= i < self.path_state_buf.len() ==> (#[trigger] self.path_state_buf@[i]).vertex_idx
                == i
    }
}

impl PathFiltering {
    pub fn new(config: Config) -> (r: Self)
        ensures
            r.config == config,
    {
        PathFiltering { config }
    }

    /// The light that a surface gives off towards a path, its weight, and whether there is any.
    pub fn handle_surface_light(
        &self,
        light: LightHit,
        path_depth: u32,
        prev_bsdf_pdf: Single,
    ) -> (r: (Color, Scalar, bool))
        ensures
            r == surface_light_spec(light, path_depth, prev_bsdf_pdf),
    {
        crate::lighting::handle_surface_light(light, path_depth, prev_bsdf_pdf)
    }

    /// The direction that was sampled, the features of the surface, and the light that it
    /// scatters of what a sampled light sends to it.
    pub fn sample_surface_and_shade_direct(
        &self,
        direct_lighting: &DirectLighting,
        eval: BsdfEval,
        sample: BsdfSample,
        look: SurfaceLook,
    ) -> (r: (BsdfSample, BsdfDenoisingFeatures, Color))
        ensures
            r.0 == sample,
            r.1.albedo == albedo_spec(look),
            r.1.roughness == look.roughness,
            r.1.roughness_interval == Single::zero(),
            r.2 == shade_direct_spec(*direct_lighting, eval),
    {
        (sample, denoising_features(look), shade_direct(direct_lighting, eval))
    }

    /// The light that the sampled light sends to `si`.
    pub fn sample_light(
        &self,
        si: SurfaceInteraction,
        path_depth: u32,
        flags: StylizationFlags,
        sample: LightSample,
    ) -> (r: DirectLighting)
        ensures
            r == sample_light_spec(si, path_depth, flags, sample),
    {
        sample_light(si, path_depth, flags, sample)
    }
}

} // verus!
