//! Taking the network's answers: to the vertices where paths were handed over, and to the film.
use super::inputs::{answer, answered, features_of, rows_fit, with_row};
use super::trace::{regathered, GatherProbe};
use super::{lemma_slab, path_ok, Config, NRCPathTracer, PathState, RenderState, Vertex};
use crate::expr::{Color, Scalar};
use crate::lighting::{FilmSample, SurfaceInteraction};
use crate::value::{Single, NONE};
use vstd::prelude::*;

verus! {

/// The network is asked about the last vertex of a path: unless the path met nothing, or was never
/// handed over and has had its answer, or its last ray met nothing.
pub open spec fn asks(ps: PathState) -> bool {
    &&& ps.valid
    &&& !(ps.splitting_depth == NONE && ps.n_final_gathered > 0)
    &&& ps.depth != ps.splitting_depth
}

/// The last ray of a path that was handed over met nothing.
pub open spec fn missed(ps: PathState) -> bool {
    &&& ps.valid
    &&& !(ps.splitting_depth == NONE && ps.n_final_gathered > 0)
    &&& ps.depth == ps.splitting_depth
}

/// The path shows the network's answer for its first vertex.
pub open spec fn is_direct_view(ps: PathState) -> bool {
    ps.depth == 0 && ps.splitting_depth == NONE
}

/// The light that leaves the last vertex of a path, by the network's answer.
pub open spec fn said_spec(config: Config, state: RenderState, ps: PathState) -> Color {
    let v = state.vertex_buffer@[ps.vertex_idx + ps.depth];
    let said = Color::Rgb(answer(state.inference_outputs@, v.nrc_idx));
    if config.learn_stylized_radiance {
        said
    } else {
        said.stylize(ps.depth, v.hit, v.wo, v.flags).remove_nan()
    }
}

/// The vertex above the last one, with the light that arrives from there.
pub open spec fn lit_spec(config: Config, state: RenderState, ps: PathState) -> Vertex {
    let v = state.vertex_buffer@[ps.vertex_idx + ps.depth];
    let prev = state.vertex_buffer@[ps.vertex_idx + ps.depth - 1];
    Vertex {
        indirect: prev.indirect.plus(
            said_spec(config, state, ps).times(v.throughput).scale(v.mis),
        ),
        ..prev
    }
}

/// The vertices after the network's answer for a path was taken.
pub open spec fn lit_vertices(
    config: Config,
    state: RenderState,
    ps: PathState,
    indirect_finite: bool,
) -> Seq<Vertex> {
    if asks(ps) && !is_direct_view(ps) && indirect_finite {
        state.vertex_buffer@.update(
            ps.vertex_idx + ps.depth - 1,
            lit_spec(config, state, ps),
        )
    } else {
        state.vertex_buffer@
    }
}

/// Where the light of a path is brought back from.
pub open spec fn last_of(ps: PathState) -> u32 {
    if ps.splitting_depth == NONE {
        ps.depth
    } else {
        ps.splitting_depth
    }
}

/// The light that leaves a vertex, before the style of its surface is applied.
pub open spec fn unstyled(
    vs: Seq<Vertex>,
    ps: PathState,
    i: int,
    below: Color,
    throughput: Color,
    mis: Scalar,
) -> Color {
    let v = vs[ps.vertex_idx + i];
    let n = Scalar::Count(ps.n_final_gathered);
    if i == ps.splitting_depth {
        v.le.plus(v.direct.over(n.plus(Scalar::one()))).plus(v.indirect.over(n))
    } else {
        v.le.plus(v.direct).plus(throughput.times(below).scale(mis))
    }
}

/// Light in the style of vertex `i`, where the configuration has it styled.
pub open spec fn styled(config: Config, vs: Seq<Vertex>, ps: PathState, i: int, light: Color) -> Color {
    let v = vs[ps.vertex_idx + i];
    if !config.learn_stylized_radiance && (i > 0 || !config.no_first_hit_stylization) {
        light.stylize(i as u32, v.hit, v.wo, v.flags)
    } else {
        light
    }
}

/// The light that a path brings back to its vertex `i`.
pub open spec fn carried_back(config: Config, vs: Seq<Vertex>, ps: PathState, i: int) -> Color
    decreases last_of(ps) - i,
{
    let light = if i >= last_of(ps) {
        unstyled(vs, ps, i, Color::zero(), Color::zero(), Scalar::one())
    } else {
        let below = vs[ps.vertex_idx + i + 1];
        unstyled(
            vs,
            ps,
            i,
            carried_back(config, vs, ps, i + 1),
            below.throughput,
            below.mis,
        )
    };
    styled(config, vs, ps, i, light)
}

/// The state of a path after its answer was taken.
pub open spec fn counted(ps: PathState) -> PathState {
    if asks(ps) || missed(ps) {
        PathState { n_final_gathered: (ps.n_final_gathered + 1) as u32, ..ps }
    } else {
        ps
    }
}

/// What a path adds to the film when its answer is taken.
pub open spec fn answer_sample(config: Config, state: RenderState, ps: PathState) -> Option<
    FilmSample,
> {
    let v = state.vertex_buffer@[ps.vertex_idx + ps.depth];
    if asks(ps) && is_direct_view(ps) {
        Some(
            FilmSample {
                px: ps.px,
                color: if config.no_first_hit_stylization {
                    Color::Rgb(answer(state.inference_outputs@, v.nrc_idx))
                } else {
                    said_spec(config, state, ps)
                },
                weight: Single::one(),
            },
        )
    } else {
        None
    }
}

/// What a path adds to the film when its light is brought back.
pub open spec fn splat_sample(config: Config, vs: Seq<Vertex>, ps: PathState) -> Option<FilmSample> {
    if ps.valid && !is_direct_view(ps) {
        Some(
            FilmSample {
                px: ps.px,
                color: carried_back(config, vs, ps, 0),
                weight: Single::one(),
            },
        )
    } else {
        None
    }
}

impl NRCPathTracer {
    /// Numbers the last vertex of a path and enters what the network is asked about it. `si` is
    /// the point of that vertex.
    pub fn kernel_inference_stage_nrc_inference_inputs(
        &self,
        state: &mut RenderState,
        tid: u32,
        si: SurfaceInteraction,
    )
        requires
            old(state).wf(self.config.max_depth),
            tid < old(state).path_state_buf.len(),
            asks(old(state).path_state_buf@[tid as int]) ==> {
                &&& si.hit() == old(state).vertex_buffer@[old(
                    state).path_state_buf@[tid as int].vertex_idx + old(
                    state).path_state_buf@[tid as int].depth].hit
                &&& rows_fit(*old(state), old(state).inference_inputs@, 1)
            },
        ensures
            final(state).wf(self.config.max_depth),
            ({
                let ps = old(state).path_state_buf@[tid as int];
                let at = ps.vertex_idx + ps.depth;
                let v = old(state).vertex_buffer@[at];
                if asks(ps) {
                    &&& final(state).counter == old(state).counter + 1
                    &&& final(state).vertex_buffer@ == old(state).vertex_buffer@.update(
                        at,
                        Vertex { nrc_idx: old(state).counter, ..v },
                    )
                    &&& final(state).inference_inputs@ == with_row(
                        old(state).inference_inputs@,
                        old(state).counter * old(state).input_dim,
                        features_of(old(state).aabb, self.config.max_depth, v, si, ps.depth),
                    )
                    &&& final(state).aabb == old(state).aabb
                    &&& final(state).path_state_buf == old(state).path_state_buf
                    &&& final(state).input_dim == old(state).input_dim
                    &&& final(state).output_dim == old(state).output_dim
                    &&& final(state).training_inputs == old(state).training_inputs
                    &&& final(state).training_targets == old(state).training_targets
                    &&& final(state).inference_outputs == old(state).inference_outputs
                } else {
                    *final(state) == *old(state)
                }
            }),
    {
        let ps = state.path_state_buf[tid as usize];
        if !ps.valid {
            return;
        }
        if ps.splitting_depth == NONE && ps.n_final_gathered > 0 {
            return;
        }
        if ps.depth == ps.splitting_depth {
            return;
        }
        proof {
            lemma_slab(*state, self.config.max_depth, tid as int);
            assert(path_ok(ps, tid as int, self.config.max_depth));
            let c = state.counter as int;
            let dim = state.input_dim as int;
            assert((c + 1) * dim == c * dim + dim) by (nonlinear_arith);
            assert(c * dim >= 0) by (nonlinear_arith)
                requires
                    c >= 0,
                    dim >= 0,
            ;
            assert(c < (c + 1) * dim) by (nonlinear_arith)
                requires
                    dim >= 1,
                    c >= 0,
            ;
        }
        let at: u32 = ps.vertex_idx + ps.depth;
        let mut v = state.vertex_buffer[at as usize].clone();
        v.nrc_idx = state.counter;
        state.counter = state.counter + 1;
        let data_idx: u32 = v.nrc_idx * state.input_dim;
        let aabb = state.aabb;
        self.write_nrc_inputs(
            aabb,
            si.p,
            si.ns,
            v.wo,
            &v.albedo,
            v.roughness,
            ps.depth,
            v.new_flags,
            &mut state.inference_inputs,
            data_idx,
        );
        state.vertex_buffer.set(at as usize, v);
    }

    /// The light that leaves the last vertex of a path, by the network's answer.
    fn said(&self, state: &RenderState, ps: PathState) -> (r: Color)
        requires
            ps.vertex_idx + ps.depth < state.vertex_buffer.len() <= u32::MAX,
            answered(
                state.inference_outputs@,
                state.vertex_buffer@[ps.vertex_idx + ps.depth],
            ),
        ensures
            r == said_spec(self.config, *state, ps),
    {
        let v = &state.vertex_buffer[(ps.vertex_idx + ps.depth) as usize];
        let said = Color::Rgb(self.read_answer(state, v));
        if self.config.learn_stylized_radiance {
            said
        } else {
            said.stylize(ps.depth, v.hit, v.wo, v.flags).remove_nan()
        }
    }

    /// Takes the network's answer for the last vertex of a path: to the film where that is the
    /// first vertex, and to the vertex above it elsewhere. `indirect_finite` says whether what the
    /// vertex above has received so far is finite; if not, it receives nothing more.
    pub fn kernel_inference_stage_gathering(
        &self,
        state: &mut RenderState,
        tid: u32,
        indirect_finite: bool,
    ) -> (r: Option<FilmSample>)
        requires
            old(state).wf(self.config.max_depth),
            tid < old(state).path_state_buf.len(),
            ({
                let ps = old(state).path_state_buf@[tid as int];
                &&& asks(ps) ==> answered(
                    old(state).inference_outputs@,
                    old(state).vertex_buffer@[ps.vertex_idx + ps.depth],
                )
                &&& asks(ps) || missed(ps) ==> ps.n_final_gathered < u32::MAX
            }),
        ensures
            final(state).wf(self.config.max_depth),
            super::same_tables(*old(state), *final(state)),
            ({
                let ps = old(state).path_state_buf@[tid as int];
                &&& final(state).path_state_buf@ == old(state).path_state_buf@.update(
                    tid as int,
                    counted(ps),
                )
                &&& final(state).vertex_buffer@ == lit_vertices(
                    self.config,
                    *old(state),
                    ps,
                    indirect_finite,
                )
                &&& r == answer_sample(self.config, *old(state), ps)
            }),
    {
        let mut ps = state.path_state_buf[tid as usize];
        if !ps.valid {
            return None;
        }
        if ps.splitting_depth == NONE && ps.n_final_gathered > 0 {
            return None;
        }
        proof {
            lemma_slab(*state, self.config.max_depth, tid as int);
            assert(path_ok(ps, tid as int, self.config.max_depth));
        }
        if ps.depth == ps.splitting_depth {
            ps.n_final_gathered = ps.n_final_gathered + 1;
            state.path_state_buf.set(tid as usize, ps);
            return None;
        }
        let at: u32 = ps.vertex_idx + ps.depth;
        let exitant = self.said(state, ps);
        let mut r: Option<FilmSample> = None;
        if ps.depth == 0 && ps.splitting_depth == NONE {
            let v = &state.vertex_buffer[at as usize];
            let color = if self.config.no_first_hit_stylization {
                Color::Rgb(self.read_answer(state, v))
            } else {
                exitant
            };
            r = Some(FilmSample { px: ps.px, color, weight: Single::one() });
        } else {
            let mut prev = state.vertex_buffer[(at - 1) as usize].clone();
            if indirect_finite {
                let v = &state.vertex_buffer[at as usize];
                prev.indirect = prev.indirect.clone().plus(
                    exitant.times(v.throughput.clone()).scale(v.mis.clone()),
                );
                state.vertex_buffer.set((at - 1) as usize, prev);
            }
        }
        ps.n_final_gathered = ps.n_final_gathered + 1;
        state.path_state_buf.set(tid as usize, ps);
        r
    }

    /// The light that leaves vertex `i` of a path, where `below` arrives from the next one.
    fn leave_vertex(
        &self,
        state: &RenderState,
        ps: PathState,
        i: u32,
        below: Color,
        throughput: Color,
        mis: Scalar,
    ) -> (r: Color)
        requires
            ps.vertex_idx + i < state.vertex_buffer.len() <= u32::MAX,
        ensures
            r == styled(
                self.config,
                state.vertex_buffer@,
                ps,
                i as int,
                unstyled(state.vertex_buffer@, ps, i as int, below, throughput, mis),
            ),
    {
        let v = &state.vertex_buffer[(ps.vertex_idx + i) as usize];
        let light = if i == ps.splitting_depth {
            let n = Scalar::Count(ps.n_final_gathered);
            v.le.clone().plus(v.direct.clone().over(n.clone().plus(Scalar::one()))).plus(
                v.indirect.clone().over(n),
            )
        } else {
            v.le.clone().plus(v.direct.clone()).plus(throughput.times(below).scale(mis))
        };
        let should_stylize = !self.config.learn_stylized_radiance && (i > 0
            || !self.config.no_first_hit_stylization);
        if should_stylize {
            light.stylize(i, v.hit, v.wo, v.flags)
        } else {
            light
        }
    }

    /// Brings the light of a path back to the camera, from where it was handed over or else from
    /// its last vertex. A path that showed the network's answer directly is done already.
    pub fn kernel_inference_stage_propagate_and_splat(&self, state: &RenderState, tid: u32) -> (r:
        Option<FilmSample>)
        requires
            state.wf(self.config.max_depth),
            tid < state.path_state_buf.len(),
        ensures
            r == splat_sample(
                self.config,
                state.vertex_buffer@,
                state.path_state_buf@[tid as int],
            ),
    {
        let ps = state.path_state_buf[tid as usize];
        if !ps.valid {
            return None;
        }
        if ps.depth == 0 && ps.splitting_depth == NONE {
            return None;
        }
        proof {
            lemma_slab(*state, self.config.max_depth, tid as int);
            assert(path_ok(ps, tid as int, self.config.max_depth));
        }
        let ghost vs = state.vertex_buffer@;
        let last: u32 = if ps.splitting_depth == NONE {
            ps.depth
        } else {
            ps.splitting_depth
        };
        let mut i: u32 = last;
        let mut radiance = Color::zero();
        let mut throughput = Color::zero();
        let mut mis = Scalar::one();
        loop
            invariant_except_break
                i == last ==> radiance == Color::zero() && throughput == Color::zero() && mis
                    == Scalar::one(),
                i < last ==> {
                    &&& radiance == carried_back(self.config, vs, ps, i + 1)
                    &&& throughput == vs[ps.vertex_idx + i + 1].throughput
                    &&& mis == vs[ps.vertex_idx + i + 1].mis
                },
            invariant
                i <= last,
                last == last_of(ps),
                vs == state.vertex_buffer@,
                ps.vertex_idx + last < vs.len() <= u32::MAX,
            ensures
                radiance == carried_back(self.config, vs, ps, 0),
            decreases i,
        {
            radiance = self.leave_vertex(state, ps, i, radiance, throughput, mis);
            assert(radiance == carried_back(self.config, vs, ps, i as int));
            let v = &state.vertex_buffer[(ps.vertex_idx + i) as usize];
            mis = v.mis.clone();
            throughput = v.throughput.clone();
            if i == 0 {
                break;
            }
            i -= 1;
        }
        Some(FilmSample { px: ps.px, color: radiance, weight: Single::one() })
    }
}

/// A round of gathering, as far as one path has part in it: what the scene says of the ray that is
/// followed, and the buffers when the network's answer is taken.
pub struct GatherRound {
    pub probe: GatherProbe,
    pub state: RenderState,
}

/// The state of a path after `k` rounds.
pub open spec fn path_after(ps: PathState, rounds: Seq<GatherRound>, k: nat) -> PathState
    decreases k,
{
    if k == 0 {
        ps
    } else {
        counted(regathered(path_after(ps, rounds, (k - 1) as nat), rounds[k - 1].probe))
    }
}

/// The state of a path when its answer is taken in round `k`.
pub open spec fn path_asked(ps: PathState, rounds: Seq<GatherRound>, k: int) -> PathState {
    regathered(path_after(ps, rounds, k as nat), rounds[k].probe)
}

pub open spec fn with_sample(samples: Seq<FilmSample>, sample: Option<FilmSample>) -> Seq<FilmSample> {
    match sample {
        Some(s) => samples.push(s),
        None => samples,
    }
}

/// What a path adds to the film in the first `k` rounds.
pub open spec fn samples_after(config: Config, ps: PathState, rounds: Seq<GatherRound>, k: nat) -> Seq<
    FilmSample,
>
    decreases k,
{
    if k == 0 {
        Seq::empty()
    } else {
        with_sample(
            samples_after(config, ps, rounds, (k - 1) as nat),
            answer_sample(config, rounds[k - 1].state, path_asked(ps, rounds, k - 1)),
        )
    }
}

pub proof fn lemma_rounds(config: Config, ps: PathState, rounds: Seq<GatherRound>, k: nat)
    requires
        ps.n_final_gathered == 0,
        k <= rounds.len() <= u32::MAX,
    ensures
        ({
            let after = path_after(ps, rounds, k);
            let samples = samples_after(config, ps, rounds, k);
            &&& after.valid == ps.valid
            &&& after.px == ps.px
            &&& after.splitting_depth == ps.splitting_depth
            &&& ps.splitting_depth == NONE || !ps.valid ==> after.depth == ps.depth
            &&& ps.valid && ps.splitting_depth == NONE ==> after.n_final_gathered == (if k == 0 {
                0int
            } else {
                1
            })
            &&& ps.valid && ps.splitting_depth != NONE ==> after.n_final_gathered == k
            &&& samples.len() == (if ps.valid && is_direct_view(ps) && k > 0 {
                1int
            } else {
                0
            })
            &&& samples.len() == 1 ==> samples[0].px == ps.px && samples[0].weight == Single::one()
        }),
    decreases k,
{
    if k > 0 {
        lemma_rounds(config, ps, rounds, (k - 1) as nat);
    }
}

/// Over a whole repetition, in which a path is traced, takes part in one or more rounds of
/// gathering, and is brought back, a path that met a surface adds exactly one sample to the film:
/// at its pixel, and with weight one. It is added in the first round where the path shows the
/// network's answer for its first vertex, and then no more when it is brought back; and elsewhere
/// when it is brought back. A path that met nothing adds none.
pub proof fn law_one_sample_for_each_path(
    config: Config,
    ps: PathState,
    rounds: Seq<GatherRound>,
    vs: Seq<Vertex>,
)
    requires
        ps.n_final_gathered == 0,
        1 <= rounds.len() <= u32::MAX,
    ensures
        ({
            let after = path_after(ps, rounds, rounds.len());
            let brought = splat_sample(config, vs, after);
            let all = with_sample(samples_after(config, ps, rounds, rounds.len()), brought);
            &&& all.len() == (if ps.valid {
                1int
            } else {
                0
            })
            &&& ps.valid ==> all[0].px == ps.px && all[0].weight == Single::one()
            &&& samples_after(config, ps, rounds, 1).len() == (if ps.valid && is_direct_view(ps) {
                1int
            } else {
                0
            })
            &&& brought is Some <==> ps.valid && !is_direct_view(ps)
        }),
{
    lemma_rounds(config, ps, rounds, 1);
    lemma_rounds(config, ps, rounds, rounds.len());
}

} // verus!
