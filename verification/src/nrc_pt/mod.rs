//! A path tracer with a neural radiance cache: a network learns what light leaves a surface, and
//! paths end early where its answer is taken.
//!
//! Each path has a slab of `max_depth + 1` vertices of its own. Vertices that the network is asked
//! about get a number, which is also the row of their inputs and of the network's answers.
use crate::expr::{Color, Scalar};
use crate::lighting::{
    albedo_spec, denoising_features, sample_light, sample_light_spec, shade_direct,
    shade_direct_spec, surface_light_spec, BsdfEval, BsdfSample, LightHit, LightSample,
    SurfaceInteraction, SurfaceLook,
};
use crate::value::{Float3, Single, StylizationFlags, Uint2, NONE};
use vstd::prelude::*;

pub use crate::expr::mis_weight;
pub use crate::lighting::{BsdfDenoisingFeatures, DirectLighting};
pub use crate::value::SurfaceHit;

pub mod balance;
pub mod gather;
pub mod inputs;
pub mod network;
pub mod render;
pub mod schedule;
pub mod trace;

verus! {

/// The bit pattern of `0.05`, the roughness above which a path is handed to the network.
pub const SPLITTING_ROUGHNESS_BITS: u32 = 0x3d4c_cccd;

/// The bit pattern of `1e-3`.
pub const DEFAULT_LEARNING_RATE_BITS: u32 = 0x3a83_126f;

/// The bit pattern of `0.995`.
pub const DEFAULT_DECAY_RATE_BITS: u32 = 0x3f7e_b852;

/// The number of inputs of the network besides the depth: three for the position, three for the
/// normal, three for the direction, one for the roughness, three for the albedo, six for flags.
pub const FEATURES: u32 = 19;

/// The number of outputs of the network.
pub const OUTPUTS: u32 = 3;

#[derive(Debug)]
pub struct Config {
    pub max_depth: u32,
    pub rr_depth: u32,
    pub training_iters: u32,
    pub baches_per_iter: u32,
    pub batch_size: u32,
    pub n_hash_grid_features: u32,
    pub n_hash_grid_levels: u32,
    pub n_hidden_layers: u32,
    pub n_hidden_units: u32,
    pub learning_rate: Single,
    pub decay_interval: u32,
    pub decay_rate: Single,
    pub repeats: u32,
    /// The number of rays that are followed from the vertex where a path is handed over.
    pub final_gather: Option<u32>,
    pub no_first_hit_stylization: bool,
    /// The network learns light to which the style of the surface was applied.
    pub learn_stylized_radiance: bool,
    /// Train the deepest level first, and one level more after each so many iterations.
    pub per_level_training: Option<u32>,
    /// The box that positions are relative to, in place of that of the scene.
    pub scene_bounds: Option<Vec<Float3>>,
}

impl Default for Config {
    fn default() -> (r: Self)
        ensures
            r.max_depth == 7,
            r.rr_depth == 5,
            r.repeats == 1,
            r.training_iters == 512,
            r.baches_per_iter == 16,
            r.batch_size == 65536,
            r.n_hidden_layers == 5,
            r.n_hidden_units == 128,
            r.learning_rate.bits == DEFAULT_LEARNING_RATE_BITS,
            r.decay_interval == 50,
            r.decay_rate.bits == DEFAULT_DECAY_RATE_BITS,
            r.n_hash_grid_features == 2,
            r.final_gather is None,
            !r.no_first_hit_stylization,
            !r.learn_stylized_radiance,
            r.per_level_training is None,
            r.n_hash_grid_levels == 18,
            r.scene_bounds is None,
    {
        Config {
            max_depth: 7,
            rr_depth: 5,
            repeats: 1,
            training_iters: 512,
            baches_per_iter: 16,
            batch_size: 65536,
            n_hidden_layers: 5,
            n_hidden_units: 128,
            learning_rate: Single { bits: DEFAULT_LEARNING_RATE_BITS },
            decay_interval: 50,
            decay_rate: Single { bits: DEFAULT_DECAY_RATE_BITS },
            n_hash_grid_features: 2,
            final_gather: None,
            no_first_hit_stylization: false,
            learn_stylized_radiance: false,
            per_level_training: None,
            n_hash_grid_levels: 18,
            scene_bounds: None,
        }
    }
}

pub struct NRCPathTracer {
    pub config: Config,
}

/// A vertex of a path.
#[derive(Debug, PartialEq)]
pub struct Vertex {
    pub wo: Float3,
    pub hit: SurfaceHit,
    /// What the vertex before scatters of the light that arrives from here.
    pub throughput: Color,
    /// The row of the network's inputs and answers for this vertex.
    pub nrc_idx: u32,
    /// The light that the surface gives off by itself.
    pub le: Color,
    pub w_le: Scalar,
    pub mis: Scalar,
    pub direct: Color,
    pub indirect: Color,
    pub albedo: Color,
    pub roughness: Single,
    pub flags: StylizationFlags,
    pub new_flags: StylizationFlags,
}

impl Clone for Vertex {
    fn clone(&self) -> (r: Self)
        ensures
            r == *self,
    {
        Vertex {
            wo: self.wo,
            hit: self.hit,
            throughput: self.throughput.clone(),
            nrc_idx: self.nrc_idx,
            le: self.le.clone(),
            w_le: self.w_le.clone(),
            mis: self.mis.clone(),
            direct: self.direct.clone(),
            indirect: self.indirect.clone(),
            albedo: self.albedo.clone(),
            roughness: self.roughness,
            flags: self.flags,
            new_flags: self.new_flags,
        }
    }
}

impl Vertex {
    pub open spec fn spec_blank() -> Vertex {
        Vertex {
            wo: Float3::zero(),
            hit: SurfaceHit::zeroed(),
            throughput: Color::zero(),
            nrc_idx: NONE,
            le: Color::zero(),
            w_le: Scalar::zero(),
            mis: Scalar::zero(),
            direct: Color::zero(),
            indirect: Color::zero(),
            albedo: Color::zero(),
            roughness: Single::zero(),
            flags: StylizationFlags::zeroed(),
            new_flags: StylizationFlags::zeroed(),
        }
    }

    /// A vertex that the network was not asked about, all else zero.
    #[verifier::when_used_as_spec(spec_blank)]
    pub fn blank() -> (r: Vertex)
        ensures
            r == Vertex::spec_blank(),
    {
        Vertex {
            wo: Float3::zero(),
            hit: SurfaceHit::zeroed(),
            throughput: Color::zero(),
            nrc_idx: NONE,
            le: Color::zero(),
            w_le: Scalar::zero(),
            mis: Scalar::zero(),
            direct: Color::zero(),
            indirect: Color::zero(),
            albedo: Color::zero(),
            roughness: Single::zero(),
            flags: StylizationFlags::zeroed(),
            new_flags: StylizationFlags::zeroed(),
        }
    }
}

/// How far a path has come.
#[derive(Clone, Copy, Debug, PartialEq, Eq, Structural)]
pub struct PathState {
    /// The depth of the last vertex.
    pub depth: u32,
    /// Where the slab of the path starts.
    pub vertex_idx: u32,
    /// The number of rays that were followed from the vertex where the path was handed over.
    pub n_final_gathered: u32,
    /// The depth at which the path was handed over.
    pub splitting_depth: u32,
    pub px: Uint2,
    /// The path has met a surface.
    pub valid: bool,
}

impl PathState {
    pub open spec fn spec_starting(vertex_idx: u32, px: Uint2) -> PathState {
        PathState {
            depth: 0,
            vertex_idx,
            n_final_gathered: 0,
            splitting_depth: NONE,
            px,
            valid: false,
        }
    }

    /// The state of a path that has met nothing yet.
    #[verifier::when_used_as_spec(spec_starting)]
    pub fn starting(vertex_idx: u32, px: Uint2) -> (r: PathState)
        ensures
            r == PathState::spec_starting(vertex_idx, px),
    {
        PathState {
            depth: 0,
            vertex_idx,
            n_final_gathered: 0,
            splitting_depth: NONE,
            px,
            valid: false,
        }
    }
}

/// The buffers of a rendering.
pub struct RenderState {
    /// The box that positions are relative to.
    pub aabb: (Float3, Float3),
    pub path_state_buf: Vec<PathState>,
    pub vertex_buffer: Vec<Vertex>,
    /// The number of rows that were handed out.
    pub counter: u32,
    pub input_dim: u32,
    pub output_dim: u32,
    pub training_inputs: Vec<Scalar>,
    pub training_targets: Vec<Scalar>,
    pub inference_inputs: Vec<Scalar>,
    pub inference_outputs: Vec<Single>,
}

/// A path keeps to its slab. One that was handed over has come to the vertex where that happened,
/// or one vertex further.
pub open spec fn path_ok(ps: PathState, i: int, max_depth: u32) -> bool {
    ps.valid ==> {
        &&& ps.vertex_idx == i * (max_depth + 1)
        &&& ps.depth <= max_depth
        &&& ps.splitting_depth != NONE ==> {
            &&& ps.splitting_depth < max_depth
            &&& ps.depth == ps.splitting_depth || ps.depth == ps.splitting_depth + 1
        }
    }
}

impl RenderState {
    pub open spec fn wf(&self, max_depth: u32) -> bool {
        &&& self.path_state_buf.len() * (max_depth + 1) <= self.vertex_buffer.len()
        &&& self.vertex_buffer.len() <= u32::MAX
        &&& self.input_dim == max_depth + 1 + FEATURES
        &&& self.output_dim == OUTPUTS
        &&& forall|i: int|
            0 <= i < self.path_state_buf.len() ==> path_ok(
                #[trigger] self.path_state_buf@[i],
                i,
                max_depth,
            )
    }
}

/// Only the states of the paths and the vertices changed.
pub open spec fn same_tables(a: RenderState, b: RenderState) -> bool {
    &&& a.aabb == b.aabb
    &&& a.counter == b.counter
    &&& a.input_dim == b.input_dim
    &&& a.output_dim == b.output_dim
    &&& a.training_inputs == b.training_inputs
    &&& a.training_targets == b.training_targets
    &&& a.inference_inputs == b.inference_inputs
    &&& a.inference_outputs == b.inference_outputs
}

/// The slab of a path lies within the buffer of vertices.
pub proof fn lemma_slab(state: RenderState, max_depth: u32, tid: int)
    requires
        state.wf(max_depth),
        0 <= tid < state.path_state_buf.len(),
    ensures
        0 <= tid * (max_depth + 1),
        tid * (max_depth + 1) + max_depth < state.vertex_buffer.len(),
{
    let n = state.path_state_buf.len() as int;
    let m = max_depth + 1;
    assert(tid * m >= 0) by (nonlinear_arith)
        requires
            tid >= 0,
            m >= 0,
    ;
    assert((tid + 1) * m == tid * m + m) by (nonlinear_arith);
    assert((tid + 1) * m <= n * m) by (nonlinear_arith)
        requires
            tid + 1 <= n,
            m >= 0,
    ;
}

/// No two paths share a vertex.
pub proof fn law_slabs_are_disjoint(max_depth: u32, a: int, b: int, i: int, j: int)
    requires
        0 <= a < b,
        0 <= i <= max_depth,
        0 <= j <= max_depth,
    ensures
        a * (max_depth + 1) + i < b * (max_depth + 1) + j,
{
    let m = max_depth + 1;
    assert((a + 1) * m == a * m + m) by (nonlinear_arith);
    assert((a + 1) * m <= b * m) by (nonlinear_arith)
        requires
            a + 1 <= b,
            m >= 0,
    ;
}

impl NRCPathTracer {
    pub fn new(config: Config) -> (r: Self)
        ensures
            r.config == config,
    {
        NRCPathTracer { config }
    }

    /// The direction that was sampled, the features of the surface, and the light that it
    /// scatters of what a sampled light sends to it.
    pub fn sample_surface_and_shade_direct(
        &self,
        direct_lighting: &DirectLighting,
        eval: BsdfEval,
        sample: BsdfSample,
        look: SurfaceLook,
    ) -> (r: (BsdfSample, BsdfDenoisingFeatures, Color))
        ensures
            r.0 == sample,
            r.1.albedo == albedo_spec(look),
            r.1.roughness == look.roughness,
            r.1.roughness_interval == Single::zero(),
            r.2 == shade_direct_spec(*direct_lighting, eval),
    {
        (sample, denoising_features(look), shade_direct(direct_lighting, eval))
    }

    /// The light that a surface gives off towards a path, its weight, and whether there is any.
    pub fn handle_surface_light(
        &self,
        light: LightHit,
        path_depth: u32,
        prev_bsdf_pdf: Single,
    ) -> (r: (Color, Scalar, bool))
        ensures
            r == surface_light_spec(light, path_depth, prev_bsdf_pdf),
    {
        crate::lighting::handle_surface_light(light, path_depth, prev_bsdf_pdf)
    }

    /// The light that the sampled light sends to `si`.
    pub fn sample_light(
        &self,
        si: SurfaceInteraction,
        path_depth: u32,
        flags: StylizationFlags,
        sample: LightSample,
    ) -> (r: DirectLighting)
        ensures
            r == sample_light_spec(si, path_depth, flags, sample),
    {
        sample_light(si, path_depth, flags, sample)
    }
}

} // verus!
