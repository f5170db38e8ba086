//! Tracing the paths, and following further rays from where they were handed over.
use super::{
    lemma_slab, path_ok, same_tables, NRCPathTracer, PathState, RenderState, Vertex,
    SPLITTING_ROUGHNESS_BITS,
};
use crate::expr::{Color, Scalar};
use crate::lighting::{
    albedo_spec, denoising_features, pixel, pixel_spec, sample_light_spec, shade_direct_spec,
    surface_light_spec, vertex_weight_spec, BsdfEval, BsdfSample, FilmSample, LightHit, LightSample,
    SurfaceInteraction, SurfaceLook,
};
use crate::value::{Float3, Ray, Single, StylizationFlags, NONE};
use vstd::prelude::*;

verus! {

/// A path under way.
#[derive(Debug, PartialEq)]
pub struct Walk {
    pub state: PathState,
    pub ray: Ray,
    /// The depth of the vertex that the ray leads to.
    pub depth: u32,
    pub prev_p: Float3,
    pub prev_ng: Float3,
    pub prev_bsdf_pdf: Single,
    /// What the last vertex scatters of the light that arrives along the ray.
    pub throughput: Color,
    pub flags: StylizationFlags,
}

/// What the scene and the random numbers say of the vertex that a path comes to.
#[derive(Clone, Copy, Debug, PartialEq, Eq, Structural)]
pub struct WalkProbe {
    pub si: SurfaceInteraction,
    pub light: LightHit,
    /// What the path has met, that surface counted.
    pub new_flags: StylizationFlags,
    pub look: SurfaceLook,
    pub light_sample: LightSample,
    /// The scattering function for the direction of the sampled light.
    pub eval: BsdfEval,
    pub sample: BsdfSample,
    /// The shadow ray to the sampled light is blocked.
    pub occluded: bool,
}

pub open spec fn start_spec(max_depth: u32, tid: u32, px_idx: u32, width: u32, ray: Ray) -> Walk {
    Walk {
        state: PathState::starting((tid * (max_depth + 1)) as u32, pixel_spec(px_idx, width)),
        ray,
        depth: 0,
        prev_p: ray.o,
        prev_ng: ray.d,
        prev_bsdf_pdf: Single::zero(),
        throughput: Color::zero(),
        flags: StylizationFlags::zeroed(),
    }
}

/// The vertex that a path comes to.
pub open spec fn vertex_spec(walk: Walk, max_trace_depth: u32, probe: WalkProbe) -> Vertex {
    let light = surface_light_spec(probe.light, walk.depth, walk.prev_bsdf_pdf);
    let dl = sample_light_spec(
        probe.si,
        (walk.depth + 1) as u32,
        probe.new_flags,
        probe.light_sample,
    );
    Vertex {
        wo: walk.ray.d.neg(),
        hit: probe.si.hit(),
        throughput: walk.throughput,
        nrc_idx: NONE,
        le: light.0,
        w_le: light.1,
        mis: vertex_weight_spec(probe.light, walk.depth, walk.prev_bsdf_pdf),
        direct: if walk.depth < max_trace_depth && !probe.occluded {
            shade_direct_spec(dl, probe.eval)
        } else {
            Color::zero()
        },
        indirect: Color::zero(),
        albedo: albedo_spec(probe.look),
        roughness: probe.look.roughness,
        flags: walk.flags,
        new_flags: probe.new_flags,
    }
}

/// The path is handed to the network at this vertex.
pub open spec fn splits(walk: Walk, max_trace_depth: u32, is_inference: bool, probe: WalkProbe) -> bool {
    &&& is_inference
    &&& walk.depth < max_trace_depth
    &&& probe.look.roughness.exceeds(Single { bits: SPLITTING_ROUGHNESS_BITS })
}

/// The path goes on from this vertex.
pub open spec fn goes_on(walk: Walk, max_trace_depth: u32, is_inference: bool, probe: WalkProbe) -> bool {
    &&& probe.si.valid
    &&& walk.depth < max_trace_depth
    &&& !splits(walk, max_trace_depth, is_inference, probe)
    &&& !(probe.sample.pdf.is_zero() || probe.sample.pdf.is_negative())
}

/// The state of a path after the vertex that it comes to.
pub open spec fn state_after(
    walk: Walk,
    max_trace_depth: u32,
    is_inference: bool,
    probe: WalkProbe,
) -> PathState {
    if probe.si.valid {
        PathState {
            valid: true,
            depth: walk.depth,
            splitting_depth: if splits(walk, max_trace_depth, is_inference, probe) {
                walk.depth
            } else {
                walk.state.splitting_depth
            },
            ..walk.state
        }
    } else {
        walk.state
    }
}

/// The path after the vertex that it comes to.
pub open spec fn step_spec(
    walk: Walk,
    max_trace_depth: u32,
    is_inference: bool,
    probe: WalkProbe,
) -> Walk {
    let state = state_after(walk, max_trace_depth, is_inference, probe);
    if goes_on(walk, max_trace_depth, is_inference, probe) {
        Walk {
            state,
            ray: Ray::leaving(
                probe.sample.origin,
                probe.sample.wi,
                probe.si.inst_id,
                probe.si.prim_id,
            ),
            depth: (walk.depth + 1) as u32,
            prev_p: probe.si.p,
            prev_ng: probe.si.ng,
            prev_bsdf_pdf: probe.sample.pdf,
            throughput: Color::Rgb(probe.sample.color).over(Scalar::Value(probe.sample.pdf)),
            flags: probe.new_flags,
        }
    } else {
        Walk { state, ..walk }
    }
}

/// A path of a thread that has not come beyond its slab.
pub open spec fn walk_ok(walk: Walk, max_depth: u32, max_trace_depth: u32, tid: u32) -> bool {
    &&& walk.state.vertex_idx == tid * (max_depth + 1)
    &&& walk.state.splitting_depth == NONE
    &&& walk.state.depth <= walk.depth <= max_trace_depth <= max_depth
}

/// The path and the vertices after `k` vertices, where it goes on that far.
pub open spec fn walk_upto(
    walk: Walk,
    vs: Seq<Vertex>,
    max_trace_depth: u32,
    is_inference: bool,
    probes: Seq<WalkProbe>,
    k: nat,
) -> (Walk, Seq<Vertex>)
    decreases k,
{
    if k == 0 {
        (walk, vs)
    } else {
        let (w, before) = walk_upto(
            walk,
            vs,
            max_trace_depth,
            is_inference,
            probes,
            (k - 1) as nat,
        );
        let probe = probes[k - 1];
        (
            step_spec(w, max_trace_depth, is_inference, probe),
            if probe.si.valid {
                before.update(
                    w.state.vertex_idx + w.depth,
                    vertex_spec(w, max_trace_depth, probe),
                )
            } else {
                before
            },
        )
    }
}

/// The path ends with the `k`-th vertex, counted from one, and not before.
pub open spec fn ends_at(
    walk: Walk,
    vs: Seq<Vertex>,
    max_trace_depth: u32,
    is_inference: bool,
    probes: Seq<WalkProbe>,
    k: nat,
) -> bool {
    &&& 0 < k <= probes.len()
    &&& forall|j: int|
        1 <= j < k ==> goes_on(
            (#[trigger] walk_upto(walk, vs, max_trace_depth, is_inference, probes, (j - 1) as nat)).0,
            max_trace_depth,
            is_inference,
            probes[j - 1],
        )
    &&& !goes_on(
        walk_upto(walk, vs, max_trace_depth, is_inference, probes, (k - 1) as nat).0,
        max_trace_depth,
        is_inference,
        probes[k - 1],
    )
}

/// What a vertex gives off and scatters by itself.
pub open spec fn own_light(v: Vertex) -> Color {
    v.le.scale(v.w_le).plus(v.direct)
}

/// The light that a path brings back to its vertex `i`, where `depth` is its last one.
pub open spec fn brought_back(vs: Seq<Vertex>, start: int, depth: int, i: int) -> Color
    decreases depth - i,
{
    if i >= depth {
        Color::zero().times(Color::one()).plus(own_light(vs[start + depth]))
    } else {
        brought_back(vs, start, depth, i + 1).times(vs[start + i + 1].throughput).plus(
            own_light(vs[start + i]),
        )
    }
}

/// What tracing a path leaves behind, where it ends with its `k`-th vertex.
pub open spec fn trace_result(
    start: Walk,
    before: RenderState,
    max_trace_depth: u32,
    is_inference: bool,
    run_radiance_check: bool,
    tid: u32,
    probes: Seq<WalkProbe>,
    k: nat,
    after: RenderState,
    r: Option<FilmSample>,
) -> bool {
    let vs = before.vertex_buffer@;
    let end = walk_upto(start, vs, max_trace_depth, is_inference, probes, k);
    let ps = end.0.state;
    &&& ends_at(start, vs, max_trace_depth, is_inference, probes, k)
    &&& after.vertex_buffer@ == end.1
    &&& after.path_state_buf@ == before.path_state_buf@.update(tid as int, ps)
    &&& r == (if run_radiance_check && ps.valid {
        Some(
            FilmSample {
                px: ps.px,
                color: brought_back(end.1, ps.vertex_idx as int, ps.depth as int, 0),
                weight: Single::one(),
            },
        )
    } else {
        None
    })
}

impl NRCPathTracer {
    /// The start of a path through a pixel.
    pub fn start_walk(&self, tid: u32, px_idx: u32, width: u32, camera_ray: Ray) -> (r: Walk)
        requires
            width > 0,
            tid * (self.config.max_depth + 1) <= u32::MAX,
            self.config.max_depth < u32::MAX,
        ensures
            r == start_spec(self.config.max_depth, tid, px_idx, width, camera_ray),
    {
        let vertex_start_idx: u32 = tid * (self.config.max_depth + 1);
        Walk {
            state: PathState::starting(vertex_start_idx, pixel(px_idx, width)),
            ray: camera_ray,
            depth: 0,
            prev_p: camera_ray.o,
            prev_ng: camera_ray.d,
            prev_bsdf_pdf: Single::zero(),
            throughput: Color::zero(),
            flags: StylizationFlags::zeroed(),
        }
    }

    /// One vertex of a path: stores it, and takes the path on. `probe` is what the scene says of
    /// the ray of the path. Tells whether the path goes on.
    pub fn walk_step(
        &self,
        state: &mut RenderState,
        walk: &mut Walk,
        tid: u32,
        max_trace_depth: u32,
        is_inference: bool,
        probe: WalkProbe,
    ) -> (go_on: bool)
        requires
            old(state).wf(self.config.max_depth),
            tid < old(state).path_state_buf.len(),
            walk_ok(*old(walk), self.config.max_depth, max_trace_depth, tid),
        ensures
            final(state).wf(self.config.max_depth),
            same_tables(*old(state), *final(state)),
            final(state).path_state_buf == old(state).path_state_buf,
            go_on == goes_on(*old(walk), max_trace_depth, is_inference, probe),
            *final(walk) == step_spec(*old(walk), max_trace_depth, is_inference, probe),
            go_on ==> walk_ok(*final(walk), self.config.max_depth, max_trace_depth, tid),
            final(state).vertex_buffer@ == (if probe.si.valid {
                old(state).vertex_buffer@.update(
                    old(walk).state.vertex_idx + old(walk).depth,
                    vertex_spec(*old(walk), max_trace_depth, probe),
                )
            } else {
                old(state).vertex_buffer@
            }),
    {
        proof {
            lemma_slab(*state, self.config.max_depth, tid as int);
        }
        let si = probe.si;
        if !si.valid {
            return false;
        }
        walk.state.valid = true;
        walk.state.depth = walk.depth;
        let (le, w_le, le_valid) = self.handle_surface_light(
            probe.light,
            walk.depth,
            walk.prev_bsdf_pdf,
        );
        let vertex_idx: u32 = walk.state.vertex_idx + walk.depth;
        let features = denoising_features(probe.look);
        let mut v = Vertex::blank();
        v.mis = if le_valid {
            w_le.clone()
        } else {
            Scalar::one()
        };
        v.hit = si.hit();
        v.flags = walk.flags;
        v.w_le = w_le;
        v.le = le;
        v.wo = walk.ray.d.neg();
        v.throughput = walk.throughput.clone();
        v.new_flags = probe.new_flags;
        v.albedo = features.albedo;
        v.roughness = features.roughness;
        if walk.depth >= max_trace_depth {
            state.vertex_buffer.set(vertex_idx as usize, v);
            return false;
        }
        let depth: u32 = walk.depth + 1;
        let dl = self.sample_light(si, depth, probe.new_flags, probe.light_sample);
        let (bs, denoising, direct) = self.sample_surface_and_shade_direct(
            &dl,
            probe.eval,
            probe.sample,
            probe.look,
        );
        if !probe.occluded {
            v.direct = direct;
        }
        state.vertex_buffer.set(vertex_idx as usize, v);
        if is_inference && denoising.roughness.gt(Single { bits: SPLITTING_ROUGHNESS_BITS }) {
            walk.state.splitting_depth = walk.depth;
            return false;
        }
        if bs.pdf.le_zero() {
            return false;
        }
        walk.depth = depth;
        walk.flags = probe.new_flags;
        walk.throughput = Color::Rgb(bs.color).over(Scalar::Value(bs.pdf));
        walk.prev_bsdf_pdf = bs.pdf;
        walk.prev_ng = si.ng;
        walk.prev_p = si.p;
        walk.ray = Ray::leaving(bs.origin, bs.wi, si.inst_id, si.prim_id);
        true
    }

    /// The light that a path brings back to the camera.
    fn bring_back(&self, state: &RenderState, ps: PathState) -> (radiance: Color)
        requires
            ps.vertex_idx + ps.depth < state.vertex_buffer.len() <= u32::MAX,
        ensures
            radiance == brought_back(
                state.vertex_buffer@,
                ps.vertex_idx as int,
                ps.depth as int,
                0,
            ),
    {
        let mut radiance = Color::zero();
        let mut throughput = Color::one();
        let mut i: u32 = ps.depth;
        let ghost vs = state.vertex_buffer@;
        let ghost start = ps.vertex_idx as int;
        loop
            invariant_except_break
                i == ps.depth ==> radiance == Color::zero() && throughput == Color::one(),
                i < ps.depth ==> {
                    &&& radiance == brought_back(vs, start, ps.depth as int, i + 1)
                    &&& throughput == vs[start + i + 1].throughput
                },
            invariant
                i <= ps.depth,
                vs == state.vertex_buffer@,
                start == ps.vertex_idx,
                ps.vertex_idx + ps.depth < state.vertex_buffer.len() <= u32::MAX,
            ensures
                radiance == brought_back(vs, start, ps.depth as int, 0),
            decreases i,
        {
            let v = &state.vertex_buffer[(ps.vertex_idx + i) as usize];
            let own = v.le.clone().scale(v.w_le.clone()).plus(v.direct.clone());
            radiance = radiance.times(throughput).plus(own);
            throughput = v.throughput.clone();
            assert(radiance == brought_back(vs, start, ps.depth as int, i as int));
            if i == 0 {
                break;
            }
            i -= 1;
        }
        radiance
    }

    /// Traces a path to its end. `probes` is what the scene says of its rays, one after the other.
    /// Where `run_radiance_check` is set, the light that the path brings back is for the film.
    pub fn kernel_mk_trace(
        &self,
        state: &mut RenderState,
        tid: u32,
        px_idx: u32,
        width: u32,
        max_trace_depth: u32,
        is_inference: bool,
        run_radiance_check: bool,
        camera_ray: Ray,
        probes: &Vec<WalkProbe>,
    ) -> (r: Option<FilmSample>)
        requires
            old(state).wf(self.config.max_depth),
            tid < old(state).path_state_buf.len(),
            width > 0,
            max_trace_depth <= self.config.max_depth < u32::MAX,
            probes.len() > max_trace_depth,
        ensures
            final(state).wf(self.config.max_depth),
            same_tables(*old(state), *final(state)),
            exists|k: nat| #[trigger]
                trace_result(
                    start_spec(self.config.max_depth, tid, px_idx, width, camera_ray),
                    *old(state),
                    max_trace_depth,
                    is_inference,
                    run_radiance_check,
                    tid,
                    probes@,
                    k,
                    *final(state),
                    r,
                ),
            forall|i: int|
                0 <= i < old(state).vertex_buffer.len() && !(tid * (self.config.max_depth + 1) <= i
                    <= tid * (self.config.max_depth + 1) + max_trace_depth)
                    ==> #[trigger] final(state).vertex_buffer@[i] == old(state).vertex_buffer@[i],
    {
        proof {
            lemma_slab(*state, self.config.max_depth, tid as int);
        }
        let mut walk = self.start_walk(tid, px_idx, width, camera_ray);
        let ghost start = walk;
        let ghost vs = state.vertex_buffer@;
        let ghost slab = tid * (self.config.max_depth + 1);
        let mut k: usize = 0;
        loop
            invariant_except_break
                k <= max_trace_depth,
                walk.depth == k,
                walk_ok(walk, self.config.max_depth, max_trace_depth, tid),
                (walk, state.vertex_buffer@) == walk_upto(
                    start,
                    vs,
                    max_trace_depth,
                    is_inference,
                    probes@,
                    k as nat,
                ),
                forall|j: int|
                    1 <= j <= k ==> goes_on(
                        (#[trigger] walk_upto(
                            start,
                            vs,
                            max_trace_depth,
                            is_inference,
                            probes@,
                            (j - 1) as nat,
                        )).0,
                        max_trace_depth,
                        is_inference,
                        probes@[j - 1],
                    ),
            invariant
                state.wf(self.config.max_depth),
                same_tables(*old(state), *state),
                state.path_state_buf == old(state).path_state_buf,
                tid < state.path_state_buf.len(),
                vs == old(state).vertex_buffer@,
                start == start_spec(self.config.max_depth, tid, px_idx, width, camera_ray),
                slab == tid * (self.config.max_depth + 1),
                max_trace_depth <= self.config.max_depth,
                probes.len() > max_trace_depth,
                state.vertex_buffer.len() == vs.len(),
                forall|i: int|
                    0 <= i < vs.len() && !(slab <= i <= slab + max_trace_depth)
                        ==> #[trigger] state.vertex_buffer@[i] == vs[i],
            ensures
                k > 0,
                ends_at(start, vs, max_trace_depth, is_inference, probes@, k as nat),
                (walk, state.vertex_buffer@) == walk_upto(
                    start,
                    vs,
                    max_trace_depth,
                    is_inference,
                    probes@,
                    k as nat,
                ),
                path_ok(walk.state, tid as int, self.config.max_depth),
            decreases max_trace_depth - k,
        {
            proof {
                lemma_slab(*state, self.config.max_depth, tid as int);
            }
            let go_on = self.walk_step(
                state,
                &mut walk,
                tid,
                max_trace_depth,
                is_inference,
                probes[k],
            );
            k += 1;
            if !go_on {
                break;
            }
        }
        let ps = walk.state;
        let r = if run_radiance_check && ps.valid {
            proof {
                lemma_slab(*state, self.config.max_depth, tid as int);
            }
            Some(
                FilmSample {
                    px: ps.px,
                    color: self.bring_back(state, ps),
                    weight: Single::one(),
                },
            )
        } else {
            None
        };
        state.path_state_buf.set(tid as usize, ps);
        assert(trace_result(
            start,
            *old(state),
            max_trace_depth,
            is_inference,
            run_radiance_check,
            tid,
            probes@,
            k as nat,
            *state,
            r,
        ));
        r
    }
}

/// A path has one end: it follows from what the scene says.
pub proof fn law_paths_have_one_end(
    walk: Walk,
    vs: Seq<Vertex>,
    max_trace_depth: u32,
    is_inference: bool,
    probes: Seq<WalkProbe>,
    a: nat,
    b: nat,
)
    requires
        ends_at(walk, vs, max_trace_depth, is_inference, probes, a),
        ends_at(walk, vs, max_trace_depth, is_inference, probes, b),
    ensures
        a == b,
{
    let at_a = walk_upto(walk, vs, max_trace_depth, is_inference, probes, (a - 1) as nat);
    let at_b = walk_upto(walk, vs, max_trace_depth, is_inference, probes, (b - 1) as nat);
    if a < b {
        assert(goes_on(at_a.0, max_trace_depth, is_inference, probes[a - 1]));
    }
    if b < a {
        assert(goes_on(at_b.0, max_trace_depth, is_inference, probes[b - 1]));
    }
}

/// However far a path is traced, it keeps its pixel and its slab, and no ray was followed from
/// where it was handed over. One that is traced to its first vertex only is not handed over.
pub proof fn law_traced_paths_are_fresh(
    walk: Walk,
    vs: Seq<Vertex>,
    max_trace_depth: u32,
    is_inference: bool,
    probes: Seq<WalkProbe>,
    k: nat,
)
    requires
        walk.state.n_final_gathered == 0,
        walk.state.splitting_depth == NONE,
        walk.state.depth == 0,
        walk.depth == 0,
    ensures
        ({
            let w = walk_upto(walk, vs, max_trace_depth, is_inference, probes, k).0;
            &&& w.state.px == walk.state.px
            &&& w.state.vertex_idx == walk.state.vertex_idx
            &&& w.state.n_final_gathered == 0
            &&& max_trace_depth == 0 ==> w.depth == 0 && w.state.depth == 0
                && w.state.splitting_depth == NONE
        }),
    decreases k,
{
    if k > 0 {
        law_traced_paths_are_fresh(
            walk,
            vs,
            max_trace_depth,
            is_inference,
            probes,
            (k - 1) as nat,
        );
    }
}

/// What the scene and the random numbers say of one more ray from the vertex where a path was
/// handed over.
#[derive(Clone, Copy, Debug, PartialEq, Eq, Structural)]
pub struct GatherProbe {
    /// The point of that vertex.
    pub si: SurfaceInteraction,
    /// What the path has met, that surface counted.
    pub new_flags: StylizationFlags,
    pub light_sample: LightSample,
    /// The scattering function for the direction of the sampled light.
    pub eval: BsdfEval,
    pub sample: BsdfSample,
    /// The shadow ray to the sampled light is blocked.
    pub occluded: bool,
    /// What the ray meets.
    pub new_si: SurfaceInteraction,
    pub light: LightHit,
    pub look: SurfaceLook,
    /// What the path has met, both surfaces counted.
    pub next_flags: StylizationFlags,
}

/// The vertex where the path was handed over, with the light of one more sampled light.
pub open spec fn relit_spec(v: Vertex, splitting_depth: u32, probe: GatherProbe) -> Vertex {
    let dl = sample_light_spec(
        probe.si,
        (splitting_depth + 1) as u32,
        probe.new_flags,
        probe.light_sample,
    );
    Vertex {
        direct: if probe.occluded {
            v.direct
        } else {
            v.direct.plus(shade_direct_spec(dl, probe.eval))
        },
        ..v
    }
}

/// The vertex that the ray leads to.
pub open spec fn gathered_vertex_spec(splitting_depth: u32, probe: GatherProbe) -> Vertex {
    Vertex {
        wo: probe.sample.wi.neg(),
        hit: probe.new_si.hit(),
        albedo: albedo_spec(probe.look),
        roughness: probe.look.roughness,
        mis: vertex_weight_spec(probe.light, (splitting_depth + 1) as u32, probe.sample.pdf),
        throughput: Color::Rgb(probe.sample.color).over(Scalar::Value(probe.sample.pdf)),
        flags: probe.new_flags,
        new_flags: probe.next_flags,
        ..Vertex::blank()
    }
}

/// The ray leads to a surface.
pub open spec fn gather_hits(probe: GatherProbe) -> bool {
    probe.sample.pdf.is_positive() && probe.new_si.valid
}

/// The vertices after one more ray from vertex `at`.
pub open spec fn regathered_vertices(
    vs: Seq<Vertex>,
    at: int,
    splitting_depth: u32,
    probe: GatherProbe,
) -> Seq<Vertex> {
    let relit = vs.update(at, relit_spec(vs[at], splitting_depth, probe));
    if gather_hits(probe) {
        relit.update(at + 1, gathered_vertex_spec(splitting_depth, probe))
    } else {
        relit
    }
}

/// The state of a path after one more ray.
pub open spec fn regathered(ps: PathState, probe: GatherProbe) -> PathState {
    if !ps.valid || ps.splitting_depth == NONE {
        ps
    } else if gather_hits(probe) {
        PathState { depth: (ps.splitting_depth + 1) as u32, ..ps }
    } else {
        PathState { depth: ps.splitting_depth, ..ps }
    }
}

impl NRCPathTracer {
    /// Follows one more ray from the vertex where a path was handed over. The vertex that it
    /// leads to takes the place of the one that the ray before led to.
    pub fn kernel_final_gather_trace(&self, state: &mut RenderState, tid: u32, probe: GatherProbe)
        requires
            old(state).wf(self.config.max_depth),
            tid < old(state).path_state_buf.len(),
            ({
                let ps = old(state).path_state_buf@[tid as int];
                ps.valid && ps.splitting_depth != NONE ==> probe.si.hit()
                    == old(state).vertex_buffer@[ps.vertex_idx + ps.splitting_depth].hit
            }),
        ensures
            final(state).wf(self.config.max_depth),
            same_tables(*old(state), *final(state)),
            ({
                let ps = old(state).path_state_buf@[tid as int];
                let at = ps.vertex_idx + ps.splitting_depth;
                let vs = old(state).vertex_buffer@;
                if !ps.valid || ps.splitting_depth == NONE {
                    *final(state) == *old(state)
                } else {
                    &&& final(state).vertex_buffer@ == regathered_vertices(
                        vs,
                        at,
                        ps.splitting_depth,
                        probe,
                    )
                    &&& final(state).path_state_buf@ == old(state).path_state_buf@.update(
                        tid as int,
                        regathered(ps, probe),
                    )
                }
            }),
    {
        let mut ps = state.path_state_buf[tid as usize];
        if !ps.valid {
            return;
        }
        if ps.splitting_depth == NONE {
            return;
        }
        proof {
            lemma_slab(*state, self.config.max_depth, tid as int);
            assert(path_ok(state.path_state_buf@[tid as int], tid as int, self.config.max_depth));
        }
        let at: u32 = ps.vertex_idx + ps.splitting_depth;
        let ghost vs = state.vertex_buffer@;
        let mut vertex = state.vertex_buffer[at as usize].clone();
        let si = probe.si;
        let dl = self.sample_light(
            si,
            1 + ps.splitting_depth,
            probe.new_flags,
            probe.light_sample,
        );
        let (bs, _features, direct) = self.sample_surface_and_shade_direct(
            &dl,
            probe.eval,
            probe.sample,
            probe.look,
        );
        if !probe.occluded {
            vertex.direct = vertex.direct.clone().plus(direct);
        }
        ps.depth = ps.splitting_depth;
        if bs.pdf.gt_zero() {
            let ray = Ray::leaving(bs.origin, bs.wi, si.inst_id, si.prim_id);
            let new_si = probe.new_si;
            if new_si.valid {
                ps.depth = 1 + ps.splitting_depth;
                let (_le, mis, valid) = self.handle_surface_light(probe.light, ps.depth, bs.pdf);
                let features = denoising_features(probe.look);
                let mut new_vertex = Vertex::blank();
                new_vertex.wo = ray.d.neg();
                new_vertex.hit = new_si.hit();
                new_vertex.albedo = features.albedo;
                new_vertex.roughness = features.roughness;
                new_vertex.mis = if valid {
                    mis
                } else {
                    Scalar::one()
                };
                new_vertex.throughput = Color::Rgb(bs.color).over(Scalar::Value(bs.pdf));
                new_vertex.flags = probe.new_flags;
                new_vertex.new_flags = probe.next_flags;
                state.vertex_buffer.set((at + 1) as usize, new_vertex);
            }
        }
        state.vertex_buffer.set(at as usize, vertex);
        state.path_state_buf.set(tid as usize, ps);
        proof {
            let relit = vs.update(at as int, vertex);
            if gather_hits(probe) {
                assert(state.vertex_buffer@ =~= relit.update(
                    at + 1,
                    gathered_vertex_spec(ps.splitting_depth, probe),
                ));
            }
        }
    }
}

} // verus!
