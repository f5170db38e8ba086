//! Making vertices: the first of each path, and those that a vertex branches into.
use super::{
    vertex_ok, BranchingPathTracer, Config, RenderState, Vertex, BRANCHING_ROUGHNESS_BITS,
};
use crate::expr::{Color, Scalar};
use crate::lighting::{
    sample_light_spec, shade_direct_spec, surface_light_spec, vertex_weight_spec, BsdfEval,
    BsdfSample, LightHit, LightSample, SurfaceInteraction,
};
use crate::value::{Float3, Single, StylizationFlags, NONE};
use vstd::prelude::*;

verus! {

/// What the scene says of the surface of a vertex that is advanced.
#[derive(Clone, Copy, Debug, PartialEq, Eq, Structural)]
pub struct SurfaceProbe {
    pub si: SurfaceInteraction,
    pub light: LightHit,
    /// The flags of the path after this surface.
    pub new_flags: StylizationFlags,
    pub roughness: Single,
}

/// What came of one sample of a vertex.
#[derive(Clone, Copy, Debug, PartialEq, Eq, Structural)]
pub struct BranchSample {
    /// The light that was sampled.
    pub light: LightSample,
    /// The scattering function for the direction of that light.
    pub eval: BsdfEval,
    /// Something lies between the surface and that light.
    pub occluded: bool,
    /// The direction in which the path goes on.
    pub bs: BsdfSample,
    /// What the ray in that direction meets.
    pub next_hit: SurfaceInteraction,
}

pub open spec fn first_vertex_spec(px_idx: u32, ray_d: Float3, si: SurfaceInteraction) -> Vertex {
    Vertex { parent: px_idx, hit: si.hit(), wo: ray_d.neg(), ..Vertex::blank() }
}

/// A vertex has taken no samples yet.
pub open spec fn is_fresh(v: Vertex) -> bool {
    v.n_inner_samples == 0 && v.debias_radiance_idx == NONE && v.indirect_vertex == NONE
}

/// A surface is rough enough to branch.
pub open spec fn branches(roughness: Single) -> bool {
    roughness.exceeds(Single { bits: BRANCHING_ROUGHNESS_BITS })
}

/// The number of further samples that a vertex takes for taking out bias, where `draw` is how
/// many it drew.
pub open spec fn debiasing_spec(config: Config, draw: u32) -> u32 {
    if config.debias is Some {
        draw
    } else {
        0
    }
}

/// The number of samples that a vertex takes.
pub open spec fn inner_count(config: Config, table: Seq<u32>, v: Vertex, roughness: Single, draw: u32) -> int {
    if branches(roughness) {
        table[v.actual_branching_depths as int] + debiasing_spec(config, draw)
    } else {
        1
    }
}

/// The path goes on after a sample.
pub open spec fn goes_on(s: BranchSample) -> bool {
    !(s.bs.pdf.is_zero() || s.bs.pdf.is_negative()) && s.next_hit.valid
}

/// The direct light of a sample.
pub open spec fn direct_of(probe: SurfaceProbe, path_depth: u32, s: BranchSample) -> Color {
    shade_direct_spec(
        sample_light_spec(probe.si, (path_depth + 1) as u32, probe.new_flags, s.light),
        s.eval,
    )
}

/// The vertex that sample number `n` leads to.
pub open spec fn child_spec(
    probe: SurfaceProbe,
    vertex_id: u32,
    branching_depths: u32,
    n: u32,
    s: BranchSample,
    slibing: u32,
) -> Vertex {
    Vertex {
        slibing,
        indirect_branch_idx: n,
        wo: s.bs.wi.neg(),
        hit: s.next_hit.hit(),
        flags: probe.new_flags,
        throughput: Color::Rgb(s.bs.color).over(Scalar::Value(s.bs.pdf)),
        parent: vertex_id,
        prev_bsdf_pdf: s.bs.pdf,
        prev_ng: probe.si.ng,
        prev_p: probe.si.p,
        actual_branching_depths: branching_depths,
        ..Vertex::blank()
    }
}

/// The head of a list of `n` vertices that are stored from `base` on, the last one first.
pub open spec fn head_of(base: nat, n: nat) -> u32 {
    if n == 0 {
        NONE
    } else {
        (base + n - 1) as u32
    }
}

/// The vertices that the first `k` samples lead to, stored from `base` on. Each is linked to the
/// one before it.
pub open spec fn children(
    probe: SurfaceProbe,
    vertex_id: u32,
    branching_depths: u32,
    samples: Seq<BranchSample>,
    base: nat,
    k: nat,
) -> Seq<Vertex>
    decreases k,
{
    if k == 0 {
        Seq::empty()
    } else {
        let before = children(probe, vertex_id, branching_depths, samples, base, (k - 1) as nat);
        if goes_on(samples[k - 1]) {
            before.push(
                child_spec(
                    probe,
                    vertex_id,
                    branching_depths,
                    (k - 1) as u32,
                    samples[k - 1],
                    head_of(base, before.len()),
                ),
            )
        } else {
            before
        }
    }
}

/// `init` and the direct light of the first `k` samples that nothing hides, averaged over `n`.
pub open spec fn direct_sum(
    init: Color,
    probe: SurfaceProbe,
    path_depth: u32,
    samples: Seq<BranchSample>,
    n: u32,
    k: nat,
) -> Color
    decreases k,
{
    if k == 0 {
        init
    } else {
        let before = direct_sum(init, probe, path_depth, samples, n, (k - 1) as nat);
        if samples[k - 1].occluded {
            before
        } else {
            before.plus(
                direct_of(probe, path_depth, samples[k - 1]).scale(
                    Scalar::one().over(Scalar::Count(n)),
                ),
            )
        }
    }
}

/// The direct light of each of the first `k` samples; none where something hides it.
pub open spec fn direct_table(
    probe: SurfaceProbe,
    path_depth: u32,
    samples: Seq<BranchSample>,
    k: nat,
) -> Seq<Color> {
    Seq::new(
        k,
        |i: int|
            if samples[i].occluded {
                Color::zero()
            } else {
                direct_of(probe, path_depth, samples[i])
            },
    )
}

/// What a kernel run does to a vertex.
pub struct Advanced {
    pub vertex: Vertex,
    pub children: Seq<Vertex>,
    pub directs: Seq<Color>,
}

/// The vertex after it was advanced, the vertices that it branched into, and the entries that it
/// adds to the table for debiasing.
pub open spec fn advance_spec(
    config: Config,
    table: Seq<u32>,
    vertices: nat,
    directs: nat,
    v: Vertex,
    vertex_id: u32,
    path_depth: u32,
    probe: SurfaceProbe,
    draw: u32,
    samples: Seq<BranchSample>,
) -> Advanced {
    let n = inner_count(config, table, v, probe.roughness, draw) as u32;
    let bd = (v.actual_branching_depths + if branches(probe.roughness) {
        1int
    } else {
        0
    }) as u32;
    let deeper = path_depth + 1 <= config.max_depth;
    let le = Color::zero().plus(surface_light_spec(probe.light, path_depth, v.prev_bsdf_pdf).0);
    let made = if deeper {
        children(probe, vertex_id, bd, samples, vertices, n as nat)
    } else {
        Seq::empty()
    };
    let added = if deeper && config.debias is Some {
        direct_table(probe, path_depth, samples, n as nat)
    } else {
        Seq::empty()
    };
    Advanced {
        vertex: Vertex {
            mis: vertex_weight_spec(probe.light, path_depth, v.prev_bsdf_pdf),
            debiasing_samples: if branches(probe.roughness) {
                debiasing_spec(config, draw)
            } else {
                v.debiasing_samples
            },
            n_inner_samples: n,
            debias_radiance_idx: if deeper && config.debias is Some {
                directs as u32
            } else {
                v.debias_radiance_idx
            },
            indirect_vertex: head_of(vertices, made.len()),
            radiance: if deeper && config.debias is None {
                direct_sum(le, probe, path_depth, samples, n, n as nat)
            } else {
                le
            },
            ..v
        },
        children: made,
        directs: added,
    }
}

/// No sample leads to two vertices.
pub proof fn lemma_children_len(
    probe: SurfaceProbe,
    vertex_id: u32,
    bd: u32,
    samples: Seq<BranchSample>,
    base: nat,
    k: nat,
)
    ensures
        children(probe, vertex_id, bd, samples, base, k).len() <= k,
    decreases k,
{
    if k > 0 {
        lemma_children_len(probe, vertex_id, bd, samples, base, (k - 1) as nat);
    }
}

/// Each child is the vertex of a sample of its own, later children of later samples.
pub proof fn lemma_child(
    probe: SurfaceProbe,
    vertex_id: u32,
    bd: u32,
    samples: Seq<BranchSample>,
    base: nat,
    k: nat,
    c: int,
)
    requires
        0 <= c < children(probe, vertex_id, bd, samples, base, k).len(),
        k <= u32::MAX,
    ensures
        ({
            let made = children(probe, vertex_id, bd, samples, base, k);
            let n = made[c].indirect_branch_idx;
            &&& n < k
            &&& goes_on(samples[n as int])
            &&& made[c] == child_spec(
                probe,
                vertex_id,
                bd,
                n,
                samples[n as int],
                head_of(base, c as nat),
            )
            &&& c > 0 ==> made[c - 1].indirect_branch_idx < n
        }),
    decreases k,
{
    let before = children(probe, vertex_id, bd, samples, base, (k - 1) as nat);
    if c < before.len() {
        lemma_child(probe, vertex_id, bd, samples, base, (k - 1) as nat, c);
    } else {
        if c > 0 {
            lemma_child(probe, vertex_id, bd, samples, base, (k - 1) as nat, c - 1);
        }
    }
}

impl BranchingPathTracer {
    /// Stores the first vertex of the path through pixel `start_px_idx + tid`, where its ray
    /// meets a surface, and gives its index.
    pub fn kernel_init(
        &self,
        state: &mut RenderState,
        start_px_idx: u32,
        tid: u32,
        ray_d: Float3,
        si: SurfaceInteraction,
    ) -> (vertex_id: Option<u32>)
        requires
            old(state).wf(),
            start_px_idx + tid <= u32::MAX,
            old(state).vertex_buffer.len() < NONE,
        ensures
            final(state).wf(),
            final(state).n_inner_samples == old(state).n_inner_samples,
            final(state).debiasing_direct_radiance == old(state).debiasing_direct_radiance,
            vertex_id == (if si.valid {
                Some(old(state).vertex_buffer.len() as u32)
            } else {
                None
            }),
            final(state).vertex_buffer@ == (if si.valid {
                old(state).vertex_buffer@.push(
                    first_vertex_spec((start_px_idx + tid) as u32, ray_d, si),
                )
            } else {
                old(state).vertex_buffer@
            }),
    {
        let px_idx: u32 = start_px_idx + tid;
        if si.valid {
            let id: u32 = state.vertex_buffer.len() as u32;
            let mut v = Vertex::blank();
            v.parent = px_idx;
            v.hit = si.hit();
            v.wo = ray_d.neg();
            state.vertex_buffer.push(v);
            proof {
                let vs = state.vertex_buffer@;
                let samples = state.debiasing_direct_radiance@.len();
                assert forall|i: int| 0 <= i < vs.len() implies #[trigger] vertex_ok(
                    vs,
                    samples,
                    i,
                ) by {
                    if i < old(state).vertex_buffer.len() {
                        assert(vertex_ok(old(state).vertex_buffer@, samples, i));
                    }
                }
            }
            Some(id)
        } else {
            None
        }
    }

    /// The number of samples that a run of draws asks for: up to the first that succeeds.
    pub fn count_draws(draws: &Vec<bool>) -> (r: Option<u32>)
        requires
            draws.len() <= u32::MAX,
        ensures
            r is Some <==> draws@.contains(true),
            r matches Some(n) ==> {
                &&& 1 <= n <= draws.len()
                &&& draws@[n - 1]
                &&& forall|i: int| 0 <= i < n - 1 ==> !#[trigger] draws@[i]
            },
    {
        let mut n: usize = 0;
        while n < draws.len()
            invariant
                n <= draws.len(),
                draws.len() <= u32::MAX,
                forall|i: int| 0 <= i < n ==> !#[trigger] draws@[i],
            decreases draws.len() - n,
        {
            if draws[n] {
                assert(draws@.contains(draws@[n as int]));
                return Some(n as u32 + 1);
            }
            n += 1;
        }
        None
    }

    /// The number of samples that a vertex takes on a surface of the given roughness.
    pub fn inner_samples_of(&self, state: &RenderState, vertex_id: u32, roughness: Single, draw: u32) -> (n: u32)
        requires
            vertex_id < state.vertex_buffer.len(),
            state.vertex_buffer@[vertex_id as int].actual_branching_depths
                < state.n_inner_samples.len(),
            inner_count(
                self.config,
                state.n_inner_samples@,
                state.vertex_buffer@[vertex_id as int],
                roughness,
                draw,
            ) <= u32::MAX,
        ensures
            n == inner_count(
                self.config,
                state.n_inner_samples@,
                state.vertex_buffer@[vertex_id as int],
                roughness,
                draw,
            ),
    {
        if roughness.gt(Single { bits: BRANCHING_ROUGHNESS_BITS }) {
            let d: u32 = state.vertex_buffer[vertex_id as usize].actual_branching_depths;
            let base: u32 = state.n_inner_samples[d as usize];
            if self.config.debias.is_some() {
                base + draw
            } else {
                base
            }
        } else {
            1
        }
    }

    /// Advances a vertex by one level: finds the light at it, and stores the vertices that its
    /// samples lead to. `draw` is the number of further samples that it drew for taking out bias.
    pub fn kernel_advance(
        &self,
        state: &mut RenderState,
        vertex_id: u32,
        path_depth: u32,
        probe: SurfaceProbe,
        draw: u32,
        samples: &Vec<BranchSample>,
    )
        requires
            old(state).wf(),
            path_depth < u32::MAX,
            vertex_id < old(state).vertex_buffer.len(),
            old(state).vertex_buffer@[vertex_id as int].actual_branching_depths < old(
                state,
            ).n_inner_samples.len(),
            old(state).n_inner_samples.len() <= u32::MAX,
            is_fresh(old(state).vertex_buffer@[vertex_id as int]),
            ({
                let n = inner_count(
                    self.config,
                    old(state).n_inner_samples@,
                    old(state).vertex_buffer@[vertex_id as int],
                    probe.roughness,
                    draw,
                );
                &&& n <= u32::MAX
                &&& path_depth + 1 <= self.config.max_depth ==> {
                    &&& samples.len() == n
                    &&& old(state).vertex_buffer.len() + n <= NONE
                    &&& self.config.debias is Some ==> old(
                        state,
                    ).debiasing_direct_radiance.len() + n <= NONE
                }
            }),
        ensures
            final(state).wf(),
            final(state).n_inner_samples == old(state).n_inner_samples,
            ({
                let done = advance_spec(
                    self.config,
                    old(state).n_inner_samples@,
                    old(state).vertex_buffer@.len(),
                    old(state).debiasing_direct_radiance@.len(),
                    old(state).vertex_buffer@[vertex_id as int],
                    vertex_id,
                    path_depth,
                    probe,
                    draw,
                    samples@,
                );
                &&& final(state).vertex_buffer@ == old(state).vertex_buffer@.update(
                    vertex_id as int,
                    done.vertex,
                ) + done.children
                &&& final(state).debiasing_direct_radiance@ == old(
                    state,
                ).debiasing_direct_radiance@ + done.directs
            }),
    {
        let mut v = state.vertex_buffer[vertex_id as usize].clone();
        let ghost v0 = v;
        let ghost vs0 = state.vertex_buffer@;
        let ghost ds0 = state.debiasing_direct_radiance@;
        let ghost config = self.config;
        proof {
            assert(vertex_ok(vs0, ds0.len(), vertex_id as int));
        }
        let (le, w_le, valid) = self.handle_surface_light(probe.light, path_depth, v.prev_bsdf_pdf);
        let mut radiance = Color::zero().plus(le);
        let ghost le0 = radiance;
        v.mis = if valid {
            w_le
        } else {
            Scalar::one()
        };
        let n: u32 = self.inner_samples_of(state, vertex_id, probe.roughness, draw);
        let mut bd: u32 = v.actual_branching_depths;
        let debias = self.config.debias.is_some();
        if probe.roughness.gt(Single { bits: BRANCHING_ROUGHNESS_BITS }) {
            v.debiasing_samples = if debias {
                draw
            } else {
                0
            };
            bd = bd + 1;
        }
        v.n_inner_samples = n;
        let mut head: u32 = NONE;
        if path_depth + 1 <= self.config.max_depth {
            if debias {
                v.debias_radiance_idx = state.debiasing_direct_radiance.len() as u32;
            }
            let mut s_id: u32 = 0;
            while s_id < n
                invariant
                    s_id <= n,
                    n == samples.len(),
                    path_depth < u32::MAX,
                    vs0.len() + n <= NONE,
                    debias == (config.debias is Some),
                    state.n_inner_samples == old(state).n_inner_samples,
                    state.vertex_buffer@ == vs0 + children(
                        probe,
                        vertex_id,
                        bd,
                        samples@,
                        vs0.len(),
                        s_id as nat,
                    ),
                    head == head_of(
                        vs0.len(),
                        children(probe, vertex_id, bd, samples@, vs0.len(), s_id as nat).len(),
                    ),
                    state.debiasing_direct_radiance@ == ds0 + (if debias {
                        direct_table(probe, path_depth, samples@, s_id as nat)
                    } else {
                        Seq::empty()
                    }),
                    radiance == (if debias {
                        le0
                    } else {
                        direct_sum(le0, probe, path_depth, samples@, n, s_id as nat)
                    }),
                decreases n - s_id,
            {
                let sample = samples[s_id as usize];
                let ghost made = children(
                    probe,
                    vertex_id,
                    bd,
                    samples@,
                    vs0.len(),
                    s_id as nat,
                );
                proof {
                    lemma_children_len(probe, vertex_id, bd, samples@, vs0.len(), s_id as nat);
                }
                let dl = self.sample_light(
                    probe.si,
                    path_depth + 1,
                    probe.new_flags,
                    sample.light,
                );
                let (bs, direct) = self.sample_surface_and_shade_direct(
                    &dl,
                    sample.eval,
                    sample.bs,
                );
                let ghost ds = state.debiasing_direct_radiance@;
                if !sample.occluded {
                    if debias {
                        state.debiasing_direct_radiance.push(direct);
                    } else {
                        radiance = radiance.plus(
                            direct.scale(Scalar::one().over(Scalar::Count(n))),
                        );
                    }
                } else {
                    if debias {
                        state.debiasing_direct_radiance.push(Color::zero());
                    }
                }
                proof {
                    if debias {
                        assert(state.debiasing_direct_radiance@ =~= ds0 + direct_table(
                            probe,
                            path_depth,
                            samples@,
                            (s_id + 1) as nat,
                        ));
                    }
                }
                if !bs.pdf.le_zero() && sample.next_hit.valid {
                    let mut next_v = Vertex::blank();
                    next_v.indirect_branch_idx = s_id;
                    let next_v_idx: u32 = state.vertex_buffer.len() as u32;
                    next_v.slibing = head;
                    head = next_v_idx;
                    next_v.wo = bs.wi.neg();
                    next_v.hit = sample.next_hit.hit();
                    next_v.flags = probe.new_flags;
                    next_v.throughput = Color::Rgb(bs.color).over(Scalar::Value(bs.pdf));
                    next_v.parent = vertex_id;
                    next_v.prev_bsdf_pdf = bs.pdf;
                    next_v.prev_ng = probe.si.ng;
                    next_v.prev_p = probe.si.p;
                    next_v.actual_branching_depths = bd;
                    state.vertex_buffer.push(next_v);
                    proof {
                        let now = children(
                            probe,
                            vertex_id,
                            bd,
                            samples@,
                            vs0.len(),
                            (s_id + 1) as nat,
                        );
                        assert(now == made.push(next_v));
                        assert(state.vertex_buffer@ =~= vs0 + now);
                    }
                }
                s_id += 1;
            }
        }
        v.indirect_vertex = head;
        v.radiance = radiance;
        state.vertex_buffer.set(vertex_id as usize, v);
        proof {
            let done = advance_spec(
                config,
                state.n_inner_samples@,
                vs0.len(),
                ds0.len(),
                v0,
                vertex_id,
                path_depth,
                probe,
                draw,
                samples@,
            );
            assert(v == done.vertex);
            assert(state.vertex_buffer@ =~= vs0.update(vertex_id as int, done.vertex)
                + done.children);
            assert(state.debiasing_direct_radiance@ =~= ds0 + done.directs);
            lemma_children_len(probe, vertex_id, bd, samples@, vs0.len(), n as nat);
            lemma_advance_wf(
                vs0,
                ds0.len(),
                done,
                config,
                vertex_id,
                path_depth,
                probe,
                bd,
                samples@,
                n,
            );
        }
    }
}

/// Linking new vertices in front of the list of one vertex leaves all lists in order.
proof fn lemma_advance_wf(
    vs: Seq<Vertex>,
    directs: nat,
    done: Advanced,
    config: Config,
    vertex_id: u32,
    path_depth: u32,
    probe: SurfaceProbe,
    bd: u32,
    samples: Seq<BranchSample>,
    n: u32,
)
    requires
        vertex_id < vs.len(),
        vs.len() <= NONE,
        done.children.len() > 0 ==> vs.len() + n <= NONE,
        forall|i: int| 0 <= i < vs.len() ==> #[trigger] vertex_ok(vs, directs, i),
        is_fresh(vs[vertex_id as int]),
        done.vertex.n_inner_samples == n,
        done.vertex.slibing == vs[vertex_id as int].slibing,
        done.vertex.parent == vs[vertex_id as int].parent,
        done.vertex.indirect_branch_idx == vs[vertex_id as int].indirect_branch_idx,
        done.vertex.debiasing_samples <= n,
        done.vertex.indirect_vertex == head_of(vs.len(), done.children.len()),
        done.children == children(probe, vertex_id, bd, samples, vs.len(), n as nat)
            || done.children.len() == 0,
        done.vertex.debias_radiance_idx != NONE ==> done.vertex.debias_radiance_idx + n <= directs
            + done.directs.len(),
        done.directs.len() <= n,
    ensures
        ({
            let now = vs.update(vertex_id as int, done.vertex) + done.children;
            forall|i: int|
                0 <= i < now.len() ==> #[trigger] vertex_ok(
                    now,
                    directs + done.directs.len(),
                    i,
                )
        }),
{
    let now = vs.update(vertex_id as int, done.vertex) + done.children;
    lemma_children_len(probe, vertex_id, bd, samples, vs.len(), n as nat);
    assert forall|i: int| 0 <= i < now.len() implies #[trigger] vertex_ok(
        now,
        directs + done.directs.len(),
        i,
    ) by {
        if i < vs.len() {
            assert(vertex_ok(vs, directs, i));
            if i == vertex_id {
                if done.children.len() > 0 {
                    lemma_child(
                        probe,
                        vertex_id,
                        bd,
                        samples,
                        vs.len(),
                        n as nat,
                        done.children.len() - 1,
                    );
                    assert(now[done.vertex.indirect_vertex as int]
                        == done.children[done.children.len() - 1]);
                }
            } else {
                let v = vs[i];
                if v.slibing != NONE {
                    assert(now[v.slibing as int].parent == vs[v.slibing as int].parent);
                }
                if v.indirect_vertex != NONE {
                    assert(now[v.indirect_vertex as int].parent
                        == vs[v.indirect_vertex as int].parent);
                }
            }
        } else {
            let c = i - vs.len();
            lemma_child(probe, vertex_id, bd, samples, vs.len(), n as nat, c);
            if c > 0 {
                assert(now[i - 1] == done.children[c - 1]);
                lemma_child(probe, vertex_id, bd, samples, vs.len(), n as nat, c - 1);
            }
        }
    }
}

} // verus!
