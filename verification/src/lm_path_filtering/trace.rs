//! Tracing the paths, gathering the vertices of a depth, and bringing light to the film.
use super::{IrradianceRecord, PathFiltering, PathState, RenderState, Vertex};
use crate::expr::{Color, Scalar};
use crate::lighting::{
    pixel, pixel_spec, sample_light_spec, surface_light_spec, vertex_weight_spec, BsdfSample,
    FilmSample, LightHit, LightSample, SurfaceInteraction,
};
use crate::value::{Float3, Ray, Single, StylizationFlags};
use vstd::prelude::*;

verus! {

/// What the scene and the random numbers say of the next vertex of a path.
#[derive(Clone, Copy, Debug, PartialEq, Eq, Structural)]
pub struct TraceProbe {
    /// What the ray of the path meets.
    pub si: SurfaceInteraction,
    pub light: LightHit,
    /// What the path has met, that surface counted.
    pub new_flags: StylizationFlags,
    pub light_sample: LightSample,
    /// The shadow ray to the sampled light is blocked.
    pub occluded: bool,
    pub sample: BsdfSample,
}

/// The state of a path and the ray along which it goes on.
#[derive(Clone, Copy, Debug, PartialEq, Eq, Structural)]
pub struct PathHead {
    pub state: PathState,
    pub ray: Ray,
}

pub open spec fn head_spec(
    state: RenderState,
    tid: u32,
    px_idx: u32,
    width: u32,
    depth: u32,
    camera_ray: Ray,
) -> PathHead {
    if depth == 0 {
        PathHead {
            state: PathState {
                px: pixel_spec(px_idx, width),
                prev_p: camera_ray.o,
                prev_ng: camera_ray.d,
                vertex_idx: tid,
                ..PathState::zeroed()
            },
            ray: camera_ray,
        }
    } else {
        PathHead {
            state: state.path_state_buf@[tid as int],
            ray: state.ray_buf@[tid as int],
        }
    }
}

/// The vertex that a ray leads to, before any light is sampled at it.
pub open spec fn bare_vertex_spec(ps: PathState, ray: Ray, depth: u32, probe: TraceProbe) -> Vertex {
    Vertex {
        hit: probe.si.hit(),
        le: surface_light_spec(probe.light, depth, ps.prev_bsdf_pdf).0,
        mis: vertex_weight_spec(probe.light, depth, ps.prev_bsdf_pdf),
        wo: ray.d.neg(),
        p: probe.si.p,
        flags: ps.flags,
        new_flags: probe.new_flags,
        ..Vertex::blank()
    }
}

/// The record of the light that was sampled at a vertex.
pub open spec fn direct_record_spec(depth: u32, probe: TraceProbe) -> IrradianceRecord {
    if probe.occluded {
        IrradianceRecord::zeroed()
    } else {
        let dl = sample_light_spec(
            probe.si,
            (depth + 1) as u32,
            probe.new_flags,
            probe.light_sample,
        );
        IrradianceRecord { irradiance: dl.irradiance, wi: dl.wi, pdf: dl.pdf, mis: Scalar::one() }
    }
}

/// What one step of a path leaves behind.
pub struct Traced {
    pub state: PathState,
    pub vertex: Option<Vertex>,
    pub ray: Option<Ray>,
}

pub open spec fn traced_spec(
    head: PathHead,
    depth: u32,
    max_trace_depth: u32,
    probe: TraceProbe,
) -> Traced {
    let ps = head.state;
    let si = probe.si;
    if !si.valid {
        Traced { state: (PathState { terminated: true, ..ps }), vertex: None, ray: None }
    } else {
        let met = PathState { valid: true, depth, flags: probe.new_flags, ..ps };
        let bare = bare_vertex_spec(ps, head.ray, depth, probe);
        if depth >= max_trace_depth {
            Traced { state: met, vertex: Some(bare), ray: None }
        } else {
            let vertex = Vertex {
                direct: direct_record_spec(depth, probe),
                bsdf_pdf: probe.sample.pdf,
                ..bare
            };
            if probe.sample.pdf.is_positive() {
                Traced {
                    state: PathState {
                        prev_bsdf_pdf: probe.sample.pdf,
                        prev_ng: si.ng,
                        prev_p: si.p,
                        ..met
                    },
                    vertex: Some(vertex),
                    ray: Some(
                        Ray::leaving(probe.sample.origin, probe.sample.wi, si.inst_id, si.prim_id),
                    ),
                }
            } else {
                Traced {
                    state: (PathState { terminated: true, ..met }),
                    vertex: Some(vertex),
                    ray: None,
                }
            }
        }
    }
}

/// The paths below `n` that have a vertex at the given depth, in order.
pub open spec fn alive(states: Seq<PathState>, path_depth: u32, n: nat) -> Seq<u32>
    decreases n,
{
    if n == 0 {
        Seq::empty()
    } else {
        let before = alive(states, path_depth, (n - 1) as nat);
        if states[n - 1].reaches(path_depth) {
            before.push((n - 1) as u32)
        } else {
            before
        }
    }
}

/// Where those vertices are.
pub open spec fn positions(vs: Seq<Vertex>, states: Seq<PathState>, tids: Seq<u32>) -> Seq<Float3> {
    Seq::new(tids.len(), |i: int| vs[states[tids[i] as int].vertex_idx as int].p)
}

/// The light of the pixels, with that of one more path.
pub open spec fn splatted(
    pixels: Seq<Color>,
    ps: PathState,
    vs: Seq<Vertex>,
    width: u32,
) -> Seq<Color> {
    let i = ps.px.y * width + ps.px.x;
    if ps.valid {
        pixels.update(i, pixels[i].plus(vs[ps.vertex_idx as int].radiance))
    } else {
        pixels
    }
}

/// The light of the pixels, with that of `k` more paths.
pub open spec fn splatted_all(
    pixels: Seq<Color>,
    states: Seq<PathState>,
    vs: Seq<Vertex>,
    width: u32,
    k: nat,
) -> Seq<Color>
    decreases k,
{
    if k == 0 {
        pixels
    } else {
        splatted(
            splatted_all(pixels, states, vs, width, (k - 1) as nat),
            states[k - 1],
            vs,
            width,
        )
    }
}

pub open spec fn film_sample_spec(
    tracer: PathFiltering,
    state: RenderState,
    tid: u32,
    n_pixels: u32,
    scale: Scalar,
) -> Option<FilmSample> {
    let ps = state.path_state_buf@[tid as int];
    if !ps.valid {
        None
    } else {
        let v = state.vertex_buf@[ps.vertex_idx as int];
        let radiance = state.first_hit_radiance_buf@[(tid % n_pixels) as int].scale(scale);
        Some(
            FilmSample {
                px: ps.px,
                color: if tracer.config.no_first_hit_stylization {
                    radiance
                } else {
                    radiance.stylize(0, v.hit, v.wo, v.flags)
                },
                weight: Single::one(),
            },
        )
    }
}

impl PathFiltering {
    /// The state and the ray of a path before its vertex at `depth` is found: a new path from the
    /// camera at the start, and what the vertex before left behind elsewhere.
    pub fn path_head(
        &self,
        state: &RenderState,
        tid: u32,
        px_idx: u32,
        width: u32,
        depth: u32,
        camera_ray: Ray,
    ) -> (r: PathHead)
        requires
            state.wf(),
            tid < state.path_state_buf.len(),
            width > 0,
        ensures
            r == head_spec(*state, tid, px_idx, width, depth, camera_ray),
    {
        if depth == 0 {
            let mut ps = PathState::zeroed();
            ps.px = pixel(px_idx, width);
            ps.prev_p = camera_ray.o;
            ps.prev_ng = camera_ray.d;
            ps.vertex_idx = tid;
            PathHead { state: ps, ray: camera_ray }
        } else {
            PathHead {
                state: state.path_state_buf[tid as usize],
                ray: state.ray_buf[tid as usize],
            }
        }
    }

    /// The vertex that a path comes to, and the state in which it comes there.
    fn meet_surface(&self, head: PathHead, depth: u32, probe: TraceProbe) -> (r: (PathState, Vertex))
        ensures
            r.0 == (PathState { valid: true, depth, flags: probe.new_flags, ..head.state }),
            r.1 == bare_vertex_spec(head.state, head.ray, depth, probe),
    {
        let mut ps = head.state;
        ps.valid = true;
        ps.depth = depth;
        let (le, mis, valid) = self.handle_surface_light(probe.light, depth, ps.prev_bsdf_pdf);
        let mut v = Vertex::blank();
        v.hit = probe.si.hit();
        v.le = le;
        v.mis = if valid {
            mis
        } else {
            Scalar::one()
        };
        v.wo = head.ray.d.neg();
        v.p = probe.si.p;
        v.flags = ps.flags;
        v.new_flags = probe.new_flags;
        ps.flags = probe.new_flags;
        (ps, v)
    }

    /// The light that was sampled at a vertex, recorded unless it is blocked.
    fn record_direct(&self, depth: u32, probe: TraceProbe) -> (r: IrradianceRecord)
        requires
            depth < u32::MAX,
        ensures
            r == direct_record_spec(depth, probe),
    {
        let dl = self.sample_light(probe.si, depth + 1, probe.new_flags, probe.light_sample);
        if probe.occluded {
            IrradianceRecord::zeroed()
        } else {
            IrradianceRecord {
                irradiance: dl.irradiance,
                wi: dl.wi,
                pdf: dl.pdf,
                mis: Scalar::one(),
            }
        }
    }

    /// Finds the vertex of a path at `depth`, and where the path goes on from it. `probe` is what
    /// the scene says of the ray that [`PathFiltering::path_head`] gives.
    pub fn kernel_mk_trace(
        &self,
        state: &mut RenderState,
        tid: u32,
        px_idx: u32,
        width: u32,
        depth: u32,
        max_trace_depth: u32,
        camera_ray: Ray,
        probe: TraceProbe,
    )
        requires
            old(state).wf(),
            tid < old(state).path_state_buf.len(),
            width > 0,
        ensures
            final(state).wf(),
            old(state).traced() ==> final(state).traced(),
            ({
                let head = head_spec(*old(state), tid, px_idx, width, depth, camera_ray);
                let done = traced_spec(head, depth, max_trace_depth, probe);
                let i = tid as int;
                if head.state.terminated {
                    *final(state) == *old(state)
                } else {
                    &&& final(state).path_state_buf@ == old(state).path_state_buf@.update(
                        i,
                        done.state,
                    )
                    &&& final(state).vertex_buf@ == (match done.vertex {
                        Some(v) => old(state).vertex_buf@.update(i, v),
                        None => old(state).vertex_buf@,
                    })
                    &&& final(state).ray_buf@ == (match done.ray {
                        Some(ray) => old(state).ray_buf@.update(i, ray),
                        None => old(state).ray_buf@,
                    })
                    &&& final(state).first_hit_radiance_buf == old(state).first_hit_radiance_buf
                    &&& final(state).reuses_per_depth == old(state).reuses_per_depth
                    &&& final(state).neighbor_counter == old(state).neighbor_counter
                    &&& final(state).record_buf == old(state).record_buf
                    &&& final(state).neighbor_buf == old(state).neighbor_buf
                }
            }),
    {
        let head = self.path_head(state, tid, px_idx, width, depth, camera_ray);
        if head.state.terminated {
            return;
        }
        let si = probe.si;
        if !si.valid {
            let mut ps = head.state;
            ps.terminated = true;
            state.path_state_buf.set(tid as usize, ps);
            return;
        }
        let (mut ps, mut v) = self.meet_surface(head, depth, probe);
        if depth < max_trace_depth {
            v.direct = self.record_direct(depth, probe);
            v.bsdf_pdf = probe.sample.pdf;
            if probe.sample.pdf.gt_zero() {
                ps.prev_bsdf_pdf = probe.sample.pdf;
                ps.prev_ng = si.ng;
                ps.prev_p = si.p;
                let ray = Ray::leaving(
                    probe.sample.origin,
                    probe.sample.wi,
                    si.inst_id,
                    si.prim_id,
                );
                state.ray_buf.set(tid as usize, ray);
            } else {
                ps.terminated = true;
            }
        }
        state.vertex_buf.set(tid as usize, v);
        state.path_state_buf.set(tid as usize, ps);
    }

    /// Enters the vertex of a path into the lists of the points of a depth.
    pub fn kernel_gather_points(
        &self,
        state: &RenderState,
        tid: u32,
        path_depth: u32,
        pos: &mut Vec<Float3>,
        indices: &mut Vec<u32>,
    )
        requires
            state.wf(),
            tid < state.path_state_buf.len(),
        ensures
            ({
                let ps = state.path_state_buf@[tid as int];
                if ps.reaches(path_depth) {
                    &&& final(pos)@ == old(pos)@.push(state.vertex_buf@[ps.vertex_idx as int].p)
                    &&& final(indices)@ == old(indices)@.push(tid)
                } else {
                    &&& final(pos)@ == old(pos)@
                    &&& final(indices)@ == old(indices)@
                }
            }),
    {
        let ps = state.path_state_buf[tid as usize];
        if !ps.reaches(path_depth) {
            return;
        }
        pos.push(state.vertex_buf[ps.vertex_idx as usize].p);
        indices.push(tid);
    }

    /// The points of a depth, and the paths that they belong to.
    pub fn gather_points(&self, state: &RenderState, path_depth: u32) -> (r: (
        Vec<Float3>,
        Vec<u32>,
    ))
        requires
            state.wf(),
        ensures
            r.1@ == alive(state.path_state_buf@, path_depth, state.path_state_buf@.len()),
            r.0@ == positions(state.vertex_buf@, state.path_state_buf@, r.1@),
    {
        let mut pos: Vec<Float3> = Vec::new();
        let mut indices: Vec<u32> = Vec::new();
        let n: u32 = state.path_state_buf.len() as u32;
        let mut tid: u32 = 0;
        while tid < n
            invariant
                tid <= n,
                n == state.path_state_buf.len(),
                state.wf(),
                indices@ == alive(state.path_state_buf@, path_depth, tid as nat),
                pos@ =~= positions(state.vertex_buf@, state.path_state_buf@, indices@),
            decreases n - tid,
        {
            self.kernel_gather_points(state, tid, path_depth, &mut pos, &mut indices);
            tid += 1;
        }
        (pos, indices)
    }

    /// Adds the light of a path to its pixel.
    pub fn kernel_splat(&self, state: &mut RenderState, tid: u32, width: u32)
        requires
            old(state).wf(),
            tid < old(state).path_state_buf.len(),
            old(state).path_state_buf@[tid as int].valid ==> old(state).path_state_buf@[tid as int].px.y
                * width + old(state).path_state_buf@[tid as int].px.x < old(
                state).first_hit_radiance_buf.len() <= u32::MAX,
        ensures
            final(state).first_hit_radiance_buf@ == splatted(
                old(state).first_hit_radiance_buf@,
                old(state).path_state_buf@[tid as int],
                old(state).vertex_buf@,
                width,
            ),
            final(state).wf(),
            final(state).path_state_buf == old(state).path_state_buf,
            final(state).reuses_per_depth == old(state).reuses_per_depth,
            final(state).neighbor_counter == old(state).neighbor_counter,
            final(state).vertex_buf == old(state).vertex_buf,
            final(state).ray_buf == old(state).ray_buf,
            final(state).record_buf == old(state).record_buf,
            final(state).neighbor_buf == old(state).neighbor_buf,
    {
        let ps = state.path_state_buf[tid as usize];
        if !ps.valid {
            return;
        }
        let px_idx: u32 = {
            proof {
                assert(ps.px.y * width >= 0) by (nonlinear_arith);
            }
            ps.px.y * width + ps.px.x
        };
        let radiance = state.vertex_buf[ps.vertex_idx as usize].radiance.clone();
        let sum = state.first_hit_radiance_buf[px_idx as usize].clone().plus(radiance);
        state.first_hit_radiance_buf.set(px_idx as usize, sum);
    }

    /// What a path adds to the film: the light of its pixel, in the style of the surface that the
    /// path met first.
    pub fn kernel_update_film(
        &self,
        state: &RenderState,
        tid: u32,
        n_pixels: u32,
        scale: &Scalar,
    ) -> (r: Option<FilmSample>)
        requires
            state.wf(),
            tid < state.path_state_buf.len(),
            n_pixels > 0,
            state.first_hit_radiance_buf.len() == n_pixels,
        ensures
            r == film_sample_spec(*self, *state, tid, n_pixels, *scale),
    {
        let ps = state.path_state_buf[tid as usize];
        if !ps.valid {
            return None;
        }
        let px_idx: u32 = tid % n_pixels;
        let v = &state.vertex_buf[ps.vertex_idx as usize];
        let radiance = state.first_hit_radiance_buf[px_idx as usize].clone().scale(scale.clone());
        let color = if self.config.no_first_hit_stylization {
            radiance
        } else {
            radiance.stylize(0, v.hit, v.wo, v.flags)
        };
        Some(FilmSample { px: ps.px, color, weight: Single::one() })
    }

    /// Takes the light of a pixel back to none.
    pub fn kernel_reset_radiance_buf(&self, state: &mut RenderState, tid: u32)
        requires
            tid < old(state).first_hit_radiance_buf.len(),
        ensures
            final(state).first_hit_radiance_buf@ == old(state).first_hit_radiance_buf@.update(
                tid as int,
                Color::zero(),
            ),
            final(state).path_state_buf == old(state).path_state_buf,
            final(state).reuses_per_depth == old(state).reuses_per_depth,
            final(state).neighbor_counter == old(state).neighbor_counter,
            final(state).vertex_buf == old(state).vertex_buf,
            final(state).ray_buf == old(state).ray_buf,
            final(state).record_buf == old(state).record_buf,
            final(state).neighbor_buf == old(state).neighbor_buf,
    {
        state.first_hit_radiance_buf.set(tid as usize, Color::zero());
    }
}

/// The points of a depth are those of the paths that have a vertex there, each path once.
pub proof fn law_each_path_is_gathered_once(states: Seq<PathState>, path_depth: u32, n: nat)
    requires
        n <= states.len(),
        states.len() <= u32::MAX,
    ensures
        alive(states, path_depth, n).no_duplicates(),
        forall|tid: u32| #[trigger] alive(states, path_depth, n).contains(tid) <==> tid < n && states[tid as int].reaches(path_depth),
    decreases n,
{
    let all = alive(states, path_depth, n);
    if n > 0 {
        let before = alive(states, path_depth, (n - 1) as nat);
        law_each_path_is_gathered_once(states, path_depth, (n - 1) as nat);
        let last = (n - 1) as u32;
        assert forall|tid: u32| #[trigger] all.contains(tid) <==> tid < n && states[tid as int].reaches(path_depth) by {
            if states[n - 1].reaches(path_depth) {
                assert(all[before.len() as int] == last);
                if before.contains(tid) {
                    let k = before.index_of(tid);
                    assert(all[k] == tid);
                }
                if all.contains(tid) && tid != last {
                    let k = all.index_of(tid);
                    assert(before[k] == tid);
                    assert(before.contains(tid));
                }
            }
        }
        assert forall|i: int, j: int| 0 <= i < all.len() && 0 <= j < all.len() && i != j implies all[i] != all[j] by {
            if i < before.len() {
                assert(before.contains(before[i]));
            }
            if j < before.len() {
                assert(before.contains(before[j]));
            }
        }
    }
}

/// The points that are gathered follow the vertices: where the vertex of a path is put somewhere
/// else, its point moves there, and the points of paths with other vertices stay.
pub proof fn law_points_follow_their_vertices(
    vs: Seq<Vertex>,
    states: Seq<PathState>,
    tids: Seq<u32>,
    i: int,
    moved: Vertex,
)
    requires
        0 <= i < tids.len(),
        forall|k: int| 0 <= k < tids.len() ==> #[trigger] tids[k] < states.len(),
        forall|t: int| 0 <= t < states.len() ==> (#[trigger] states[t]).vertex_idx < vs.len(),
    ensures
        ({
            let at = states[tids[i] as int].vertex_idx as int;
            let after = positions(vs.update(at, moved), states, tids);
            &&& after.len() == tids.len()
            &&& after[i] == moved.p
            &&& forall|k: int|
                0 <= k < tids.len() && states[tids[k] as int].vertex_idx != at
                    ==> #[trigger] after[k] == positions(vs, states, tids)[k]
        }),
{
    assert(tids[i] < states.len());
    let at = states[tids[i] as int].vertex_idx as int;
    let after = positions(vs.update(at, moved), states, tids);
    assert forall|k: int|
        0 <= k < tids.len() && states[tids[k] as int].vertex_idx != at implies #[trigger] after[k]
        == positions(vs, states, tids)[k] by {
        assert(tids[k] < states.len());
    }
}

/// A path ends exactly where its ray meets nothing, or where no direction is left to go on before
/// the last depth. It has reached the depth of the last surface that it met and every depth before,
/// and no other, and it keeps its pixel and the place of its vertices.
pub proof fn law_where_paths_end(head: PathHead, depth: u32, max_trace_depth: u32, probe: TraceProbe)
    requires
        !head.state.terminated,
    ensures
        traced_spec(head, depth, max_trace_depth, probe).state.terminated <==> !probe.si.valid || (
        depth < max_trace_depth && !probe.sample.pdf.is_positive()),
        !probe.si.valid ==> traced_spec(head, depth, max_trace_depth, probe).state.depth
            == head.state.depth,
        forall|d: u32| #[trigger]
            traced_spec(head, depth, max_trace_depth, probe).state.reaches(d) <==> if probe.si.valid {
                d <= depth
            } else {
                head.state.reaches(d)
            },
        traced_spec(head, depth, max_trace_depth, probe).state.vertex_idx == head.state.vertex_idx,
        traced_spec(head, depth, max_trace_depth, probe).state.px == head.state.px,
{
}

} // verus!
