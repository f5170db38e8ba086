//! A path tracer that branches: at every rough surface a path goes on along several directions,
//! and the light that comes back along them is averaged before the style of the surface is
//! applied to it.
//!
//! The vertices of all paths are stored in one buffer, level by level. A vertex keeps the list of
//! the vertices that it branched into as a linked list through that buffer.
use crate::expr::{Color, Scalar};
use crate::lighting::{
    sample_light, sample_light_spec, shade_direct, shade_direct_spec, surface_light_spec,
    BsdfEval, BsdfSample, LightHit, LightSample, SurfaceInteraction,
};
use crate::value::{Float3, Single, StylizationFlags, NONE};
use vstd::prelude::*;

pub use crate::expr::mis_weight;
pub use crate::lighting::DirectLighting;
pub use crate::value::SurfaceHit;

pub mod advance;
pub mod balance;
pub mod capacity;
pub mod propagate;
pub mod render;
pub mod turns;

verus! {

/// The bit pattern of `0.01`, the roughness above which a surface branches.
pub const BRANCHING_ROUGHNESS_BITS: u32 = 0x3c23_d70a;

/// The bit pattern of `0.65`.
pub const DEFAULT_DEBIAS_R_BITS: u32 = 0x3f26_6666;

/// What is kept of a surface for removing noise.
#[derive(Debug, PartialEq)]
pub struct BsdfDenoisingFeatures {
    pub albedo: Color,
    pub roughness: Single,
}

/// How the bias of averaging before stylizing is taken out.
#[derive(Clone, Copy, Debug, PartialEq, Eq, Structural)]
pub struct DebiasConfig {
    /// The chance that a further sample is the last.
    pub r: Single,
    pub jackknife: bool,
}

impl Default for DebiasConfig {
    fn default() -> (r: Self)
        ensures
            r.r.bits == DEFAULT_DEBIAS_R_BITS,
            r.jackknife,
    {
        DebiasConfig { r: Single { bits: DEFAULT_DEBIAS_R_BITS }, jackknife: true }
    }
}

#[derive(Debug)]
pub struct Config {
    pub max_depth: u32,
    /// The memory of the device that may be used, in megabytes.
    pub vram: u32,
    pub use_nee: bool,
    pub rr_depth: u32,
    pub repeats: u32,
    /// The number of branches at each branching of a path; one where the list ends.
    pub inner_samples: Vec<u32>,
    pub debias: Option<DebiasConfig>,
}

impl Default for Config {
    fn default() -> (r: Self)
        ensures
            r.max_depth == 7,
            r.rr_depth == 5,
            r.vram == 8192,
            r.use_nee,
            r.repeats == 1,
            r.inner_samples@ == seq![256u32, 32, 8, 1],
            r.debias is None,
    {
        Config {
            max_depth: 7,
            rr_depth: 5,
            vram: 8192,
            use_nee: true,
            repeats: 1,
            inner_samples: vec![256, 32, 8, 1],
            debias: None,
        }
    }
}

pub struct BranchingPathTracer {
    pub config: Config,
}

/// A vertex of a path.
#[derive(Debug, PartialEq)]
pub struct Vertex {
    pub wo: Float3,
    pub hit: SurfaceHit,
    pub throughput: Color,
    /// The vertex that this one branched from, or the pixel of a path's first vertex.
    pub parent: u32,
    pub mis: Scalar,
    pub radiance: Color,
    /// Where the samples of this vertex start in the tables for debiasing.
    pub debias_radiance_idx: u32,
    /// The first of the vertices that this one branched into.
    pub indirect_vertex: u32,
    /// The next vertex that branched from the same one.
    pub slibing: u32,
    pub prev_p: Float3,
    pub prev_ng: Float3,
    pub prev_bsdf_pdf: Single,
    pub flags: StylizationFlags,
    pub n_inner_samples: u32,
    pub actual_branching_depths: u32,
    pub debiasing_samples: u32,
    /// Which sample of its parent this vertex is.
    pub indirect_branch_idx: u32,
}

impl Clone for Vertex {
    fn clone(&self) -> (r: Self)
        ensures
            r == *self,
    {
        Vertex {
            wo: self.wo,
            hit: self.hit,
            throughput: self.throughput.clone(),
            parent: self.parent,
            mis: self.mis.clone(),
            radiance: self.radiance.clone(),
            debias_radiance_idx: self.debias_radiance_idx,
            indirect_vertex: self.indirect_vertex,
            slibing: self.slibing,
            prev_p: self.prev_p,
            prev_ng: self.prev_ng,
            prev_bsdf_pdf: self.prev_bsdf_pdf,
            flags: self.flags,
            n_inner_samples: self.n_inner_samples,
            actual_branching_depths: self.actual_branching_depths,
            debiasing_samples: self.debiasing_samples,
            indirect_branch_idx: self.indirect_branch_idx,
        }
    }
}

impl Vertex {
    pub open spec fn spec_blank() -> Vertex {
        Vertex {
            wo: Float3::zero(),
            hit: SurfaceHit::zeroed(),
            throughput: Color::zero(),
            parent: 0,
            mis: Scalar::zero(),
            radiance: Color::zero(),
            debias_radiance_idx: NONE,
            indirect_vertex: NONE,
            slibing: NONE,
            prev_p: Float3::zero(),
            prev_ng: Float3::zero(),
            prev_bsdf_pdf: Single::zero(),
            flags: StylizationFlags::zeroed(),
            n_inner_samples: 0,
            actual_branching_depths: 0,
            debiasing_samples: 0,
            indirect_branch_idx: 0,
        }
    }

    /// A vertex that is linked to nothing, all else zero.
    #[verifier::when_used_as_spec(spec_blank)]
    pub fn blank() -> (r: Vertex)
        ensures
            r == Vertex::spec_blank(),
    {
        Vertex {
            wo: Float3::zero(),
            hit: SurfaceHit::zeroed(),
            throughput: Color::zero(),
            parent: 0,
            mis: Scalar::zero(),
            radiance: Color::zero(),
            debias_radiance_idx: NONE,
            indirect_vertex: NONE,
            slibing: NONE,
            prev_p: Float3::zero(),
            prev_ng: Float3::zero(),
            prev_bsdf_pdf: Single::zero(),
            flags: StylizationFlags::zeroed(),
            n_inner_samples: 0,
            actual_branching_depths: 0,
            debiasing_samples: 0,
            indirect_branch_idx: 0,
        }
    }
}

/// The buffers of a pass. A buffer holds what was handed out of it so far, so that its length is
/// the counter that hands out its entries.
pub struct RenderState {
    pub vertex_buffer: Vec<Vertex>,
    /// The number of branches at each branching depth.
    pub n_inner_samples: Vec<u32>,
    /// The direct light of every sample of every vertex, where bias is taken out.
    pub debiasing_direct_radiance: Vec<Color>,
}

/// Vertex `i` is linked to vertices that exist. The list that it is on goes towards lower indices
/// and lower sample numbers; the list of its own branches starts above it.
pub open spec fn vertex_ok(vs: Seq<Vertex>, samples: nat, i: int) -> bool {
    let v = vs[i];
    &&& v.slibing != NONE ==> {
        &&& v.slibing < i
        &&& vs[v.slibing as int].parent == v.parent
        &&& vs[v.slibing as int].indirect_branch_idx < v.indirect_branch_idx
    }
    &&& v.indirect_vertex != NONE ==> {
        &&& i < v.indirect_vertex < vs.len()
        &&& vs[v.indirect_vertex as int].parent == i
        &&& vs[v.indirect_vertex as int].indirect_branch_idx < v.n_inner_samples
    }
    &&& v.debias_radiance_idx != NONE ==> v.debias_radiance_idx + v.n_inner_samples <= samples
    &&& v.debiasing_samples <= v.n_inner_samples
}

impl RenderState {
    pub open spec fn wf(&self) -> bool {
        &&& self.vertex_buffer.len() <= NONE
        &&& self.debiasing_direct_radiance.len() <= NONE
        &&& forall|i: int|
            0 <= i < self.vertex_buffer.len() ==> #[trigger] vertex_ok(
                self.vertex_buffer@,
                self.debiasing_direct_radiance@.len(),
                i,
            )
    }
}

impl BranchingPathTracer {
    pub fn new(config: Config) -> (r: Self)
        ensures
            r.config == config,
    {
        BranchingPathTracer { config }
    }

    /// The light that the sampled light sends to `si`.
    pub fn sample_light(
        &self,
        si: SurfaceInteraction,
        path_depth: u32,
        flags: StylizationFlags,
        sample: LightSample,
    ) -> (r: DirectLighting)
        ensures
            r == sample_light_spec(si, path_depth, flags, sample),
    {
        sample_light(si, path_depth, flags, sample)
    }

    /// The direction that was sampled, and the light that the surface scatters of what a sampled
    /// light sends to it.
    pub fn sample_surface_and_shade_direct(
        &self,
        direct_lighting: &DirectLighting,
        eval: BsdfEval,
        sample: BsdfSample,
    ) -> (r: (BsdfSample, Color))
        ensures
            r.0 == sample,
            r.1 == shade_direct_spec(*direct_lighting, eval),
    {
        (sample, shade_direct(direct_lighting, eval))
    }

    /// The light that a surface gives off towards a path, its weight, and whether there is any.
    pub fn handle_surface_light(
        &self,
        light: LightHit,
        path_depth: u32,
        prev_bsdf_pdf: Single,
    ) -> (r: (Color, Scalar, bool))
        ensures
            r == surface_light_spec(light, path_depth, prev_bsdf_pdf),
    {
        crate::lighting::handle_surface_light(light, path_depth, prev_bsdf_pdf)
    }
}

} // verus!
