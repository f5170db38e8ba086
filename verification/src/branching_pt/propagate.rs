//! Bringing light back: from the vertices that a vertex branched into to the vertex itself, and
//! from the first vertex of a path to the film.
use super::advance::{
    advance_spec, branches, head_of, inner_count, lemma_child, BranchSample, SurfaceProbe,
};
use super::{vertex_ok, BranchingPathTracer, Config, DebiasConfig, RenderState, Vertex};
use crate::expr::{lemma_sum_push, power_of, sum_from, Color, Scalar};
use crate::lighting::{pixel, pixel_spec, FilmSample};
use crate::value::{Single, NONE};
use vstd::prelude::*;

verus! {

/// The vertices of the list that starts at `head`, in order.
pub open spec fn siblings(vs: Seq<Vertex>, head: u32) -> Seq<u32>
    decreases head,
{
    if head >= vs.len() {
        Seq::empty()
    } else if vs[head as int].slibing < head {
        seq![head] + siblings(vs, vs[head as int].slibing)
    } else {
        seq![head]
    }
}

/// The light that comes back from a vertex to the one that it branched from.
pub open spec fn carried(v: Vertex) -> Color {
    v.throughput.times(v.radiance).scale(v.mis)
}

/// The light that comes back from each vertex of a list.
pub open spec fn carried_all(vs: Seq<Vertex>, list: Seq<u32>) -> Seq<Color> {
    list.map_values(|c: u32| carried(vs[c as int]))
}

/// The light that comes back along each of `n` samples, where the list holds the vertices that
/// the samples led to.
pub open spec fn indirect_table(vs: Seq<Vertex>, list: Seq<u32>, n: nat) -> Seq<Color>
    decreases list.len(),
{
    if list.len() == 0 {
        Seq::new(n, |i: int| Color::zero())
    } else {
        let c = vs[list.last() as int];
        indirect_table(vs, list.drop_last(), n).update(c.indirect_branch_idx as int, carried(c))
    }
}

/// The style of the surface of a vertex, applied to the mean of `n` samples and the light that
/// the surface gives off.
pub open spec fn estimate(
    v: Vertex,
    path_depth: u32,
    directs: Seq<Color>,
    indirects: Seq<Color>,
    n: u32,
) -> Color {
    sum_from(Color::zero(), directs).plus(sum_from(Color::zero(), indirects)).over(
        Scalar::Count(n),
    ).plus(v.radiance).stylize(path_depth, v.hit, v.wo, v.flags)
}

/// The estimate from the first `n` samples.
pub open spec fn estimate_first(
    v: Vertex,
    path_depth: u32,
    directs: Seq<Color>,
    indirects: Seq<Color>,
    n: int,
) -> Color {
    estimate(v, path_depth, directs.take(n), indirects.take(n), n as u32)
}

/// `1 - r`.
pub open spec fn fail_chance(debias: DebiasConfig) -> Scalar {
    Scalar::one().minus(Scalar::Value(debias.r))
}

/// The chance of having drawn as many further samples as the vertex did.
pub open spec fn draw_chance(debias: DebiasConfig, v: Vertex) -> Scalar {
    Scalar::Value(debias.r).times(
        fail_chance(debias).powi((v.debiasing_samples as i32).wrapping_sub(1)),
    )
}

/// What leaving sample `k` out adds to the jackknife.
pub open spec fn jackknife_term(
    debias: DebiasConfig,
    v: Vertex,
    path_depth: u32,
    directs: Seq<Color>,
    indirects: Seq<Color>,
    k: int,
) -> Color {
    let n = v.n_inner_samples;
    estimate_first(v, path_depth, directs, indirects, n as int).minus(
        estimate(v, path_depth, directs.remove(k), indirects.remove(k), (n - 1) as u32),
    ).over(Scalar::Count(n)).over(draw_chance(debias, v))
}

/// What the further sample number `k` adds to the telescoping sum.
pub open spec fn telescope_term(
    debias: DebiasConfig,
    v: Vertex,
    path_depth: u32,
    directs: Seq<Color>,
    indirects: Seq<Color>,
    k: int,
) -> Color {
    let base = v.n_inner_samples - v.debiasing_samples;
    estimate_first(v, path_depth, directs, indirects, base + k + 1).minus(
        estimate_first(v, path_depth, directs, indirects, base + k),
    ).over(power_of(fail_chance(debias), k as nat))
}

/// The light that leaves a vertex, without bias.
pub open spec fn debiased(
    debias: DebiasConfig,
    v: Vertex,
    path_depth: u32,
    directs: Seq<Color>,
    indirects: Seq<Color>,
) -> Color {
    let base = v.n_inner_samples - v.debiasing_samples;
    let first = estimate_first(v, path_depth, directs, indirects, base);
    if debias.jackknife {
        sum_from(
            first,
            Seq::new(
                v.n_inner_samples as nat,
                |k: int| jackknife_term(debias, v, path_depth, directs, indirects, k),
            ),
        )
    } else {
        sum_from(
            first,
            Seq::new(
                v.debiasing_samples as nat,
                |k: int| telescope_term(debias, v, path_depth, directs, indirects, k),
            ),
        )
    }
}

/// The light that leaves a vertex towards the one before it.
pub open spec fn outgoing(
    config: Config,
    vs: Seq<Vertex>,
    directs: Seq<Color>,
    vertex_id: u32,
    path_depth: u32,
) -> Color {
    let v = vs[vertex_id as int];
    let list = siblings(vs, v.indirect_vertex);
    let n = v.n_inner_samples;
    match config.debias {
        None => v.radiance.plus(
            sum_from(Color::zero(), carried_all(vs, list)).scale(
                Scalar::one().over(Scalar::Count(n)),
            ),
        ).stylize(path_depth, v.hit, v.wo, v.flags),
        Some(debias) => if v.debias_radiance_idx == NONE {
            v.radiance.stylize(path_depth, v.hit, v.wo, v.flags)
        } else {
            let start = v.debias_radiance_idx as int;
            debiased(
                debias,
                v,
                path_depth,
                directs.subrange(start, start + n),
                indirect_table(vs, list, n as nat),
            )
        },
    }
}

/// What a vertex gives to the film: its light, where it is the first of its path.
pub open spec fn film_sample(v: Vertex, path_depth: u32, width: u32, light: Color) -> Option<
    FilmSample,
> {
    if path_depth == 0 {
        Some(FilmSample { px: pixel_spec(v.parent, width), color: light, weight: Single::one() })
    } else {
        None
    }
}

/// The vertices, where one has the light that leaves it.
pub open spec fn with_radiance(vs: Seq<Vertex>, vertex_id: u32, light: Color) -> Seq<Vertex> {
    vs.update(vertex_id as int, Vertex { radiance: light, ..vs[vertex_id as int] })
}

/// The branch numbers of a list go down, all below a bound.
proof fn lemma_siblings(vs: Seq<Vertex>, samples: nat, head: u32, bound: u32)
    requires
        vs.len() <= NONE,
        forall|i: int| 0 <= i < vs.len() ==> #[trigger] vertex_ok(vs, samples, i),
        head != NONE ==> head < vs.len() && vs[head as int].indirect_branch_idx < bound,
    ensures
        forall|j: int|
            0 <= j < siblings(vs, head).len() ==> (#[trigger] siblings(vs, head)[j]) < vs.len()
                && vs[siblings(vs, head)[j] as int].indirect_branch_idx < bound,
        head != NONE ==> siblings(vs, head).len() > 0 && siblings(vs, head)[0] == head,
    decreases head,
{
    if head != NONE {
        assert(vertex_ok(vs, samples, head as int));
        let s = vs[head as int].slibing;
        if s < head {
            lemma_siblings(vs, samples, s, bound);
            let rest = siblings(vs, s);
            assert forall|j: int| 0 <= j < siblings(vs, head).len() implies (#[trigger] siblings(
                vs,
                head,
            )[j]) < vs.len() && vs[siblings(vs, head)[j] as int].indirect_branch_idx < bound by {
                if j > 0 {
                    assert(siblings(vs, head)[j] == rest[j - 1]);
                }
            }
        }
    }
}

/// One step along a list.
proof fn lemma_siblings_step(vs: Seq<Vertex>, samples: nat, head: u32)
    requires
        vs.len() <= NONE,
        forall|i: int| 0 <= i < vs.len() ==> #[trigger] vertex_ok(vs, samples, i),
        head < vs.len(),
    ensures
        siblings(vs, head) == seq![head] + siblings(vs, vs[head as int].slibing),
{
    assert(vertex_ok(vs, samples, head as int));
    if vs[head as int].slibing >= head {
        assert(siblings(vs, vs[head as int].slibing) =~= Seq::<u32>::empty());
        assert(seq![head] + Seq::<u32>::empty() =~= seq![head]);
    }
}

proof fn lemma_table_len(vs: Seq<Vertex>, list: Seq<u32>, n: nat)
    requires
        forall|j: int|
            0 <= j < list.len() ==> vs[(#[trigger] list[j]) as int].indirect_branch_idx < n,
    ensures
        indirect_table(vs, list, n).len() == n,
    decreases list.len(),
{
    if list.len() > 0 {
        lemma_table_len(vs, list.drop_last(), n);
    }
}

/// The sum of `src[start .. start + n]`, leaving out entry `start + skip`; all of them where
/// `skip` is not below `n`.
fn sum_range(init: Color, src: &Vec<Color>, start: usize, n: usize, skip: usize) -> (r: Color)
    requires
        start + n <= src.len(),
    ensures
        r == sum_from(
            init,
            if skip < n {
                src@.subrange(start as int, start + n).remove(skip as int)
            } else {
                src@.subrange(start as int, start + n)
            },
        ),
{
    let ghost all = src@.subrange(start as int, start + n);
    let ghost kept = if skip < n {
        all.remove(skip as int)
    } else {
        all
    };
    let mut acc = init;
    let mut i: usize = 0;
    let ghost mut done: int = 0;
    assert(kept.take(0) =~= Seq::<Color>::empty());
    while i < n
        invariant
            i <= n,
            start + n <= src.len(),
            all == src@.subrange(start as int, start + n),
            kept == (if skip < n {
                all.remove(skip as int)
            } else {
                all
            }),
            done == (if skip < i {
                i - 1
            } else {
                i as int
            }),
            done <= kept.len(),
            acc == sum_from(init, kept.take(done)),
        decreases n - i,
    {
        if i != skip {
            proof {
                assert(kept[done] == src@[start + i]);
                assert(kept.take(done + 1) =~= kept.take(done).push(kept[done]));
                lemma_sum_push(init, kept.take(done), kept[done]);
                done = done + 1;
            }
            acc = acc.plus(src[start + i].clone());
        }
        i += 1;
    }
    assert(kept.take(done) =~= kept);
    acc
}

/// What a run of [`BranchingPathTracer::kernel_propagate`] found.
#[derive(Debug)]
pub struct Propagated {
    pub out_radiance: Color,
    /// What goes to the film, at the first vertex of a path.
    pub sample: Option<FilmSample>,
}

impl BranchingPathTracer {
    /// The style of a vertex's surface, applied to the mean of `n` samples: `directs[start ..]`
    /// and `indirects`, leaving out sample `skip`.
    fn estimate_of(
        v: &Vertex,
        path_depth: u32,
        directs: &Vec<Color>,
        indirects: &Vec<Color>,
        n: u32,
        skip: u32,
        divisor: u32,
    ) -> (r: Color)
        requires
            v.debias_radiance_idx + n <= directs.len(),
            n <= indirects.len(),
        ensures
            ({
                let start = v.debias_radiance_idx as int;
                let d = directs@.subrange(start, start + n);
                let i = indirects@.subrange(0, n as int);
                r == (if skip < n {
                    estimate(
                        *v,
                        path_depth,
                        d.remove(skip as int),
                        i.remove(skip as int),
                        divisor,
                    )
                } else {
                    estimate(*v, path_depth, d, i, divisor)
                })
            }),
    {
        let direct = sum_range(
            Color::zero(),
            directs,
            v.debias_radiance_idx as usize,
            n as usize,
            skip as usize,
        );
        let indirect = sum_range(Color::zero(), indirects, 0, n as usize, skip as usize);
        direct.plus(indirect).over(Scalar::Count(divisor)).plus(v.radiance.clone()).stylize(
            path_depth,
            v.hit,
            v.wo,
            v.flags,
        )
    }

    fn debiased_of(
        debias: &DebiasConfig,
        v: &Vertex,
        path_depth: u32,
        directs: &Vec<Color>,
        indirects: &Vec<Color>,
    ) -> (r: Color)
        requires
            v.debias_radiance_idx + v.n_inner_samples <= directs.len(),
            v.n_inner_samples == indirects.len(),
            v.debiasing_samples <= v.n_inner_samples,
        ensures
            r == debiased(
                *debias,
                *v,
                path_depth,
                directs@.subrange(
                    v.debias_radiance_idx as int,
                    v.debias_radiance_idx + v.n_inner_samples,
                ),
                indirects@,
            ),
    {
        let n: u32 = v.n_inner_samples;
        let base: u32 = n - v.debiasing_samples;
        let ghost start = v.debias_radiance_idx as int;
        let ghost d = directs@.subrange(start, start + n);
        let ghost ind = indirects@;
        let first = Self::estimate_of(v, path_depth, directs, indirects, base, base, base);
        proof {
            assert(d.take(base as int) =~= directs@.subrange(start, start + base));
            assert(ind.take(base as int) =~= ind.subrange(0, base as int));
        }
        let mut out = first.clone();
        if debias.jackknife {
            let full = Self::estimate_of(v, path_depth, directs, indirects, n, n, n);
            proof {
                assert(d.take(n as int) =~= d);
                assert(ind.take(n as int) =~= ind);
                assert(ind.subrange(0, n as int) =~= ind);
            }
            let pmf = Scalar::Value(debias.r).times(
                Scalar::one().minus(Scalar::Value(debias.r)).powi(
                    (v.debiasing_samples as i32).wrapping_sub(1),
                ),
            );
            let ghost terms = Seq::new(
                n as nat,
                |k: int| jackknife_term(*debias, *v, path_depth, d, ind, k),
            );
            let mut removal_idx: u32 = 0;
            assert(terms.take(0) =~= Seq::<Color>::empty());
            while removal_idx < n
                invariant
                    removal_idx <= n,
                    n == v.n_inner_samples,
                    v.debias_radiance_idx + n <= directs.len(),
                    n == indirects.len(),
                    start == v.debias_radiance_idx,
                    d == directs@.subrange(start, start + n),
                    ind == indirects@,
                    ind.subrange(0, n as int) == ind,
                    full == estimate_first(*v, path_depth, d, ind, n as int),
                    pmf == draw_chance(*debias, *v),
                    terms == Seq::new(
                        n as nat,
                        |k: int| jackknife_term(*debias, *v, path_depth, d, ind, k),
                    ),
                    out == sum_from(first, terms.take(removal_idx as int)),
                decreases n - removal_idx,
            {
                let estimator = Self::estimate_of(
                    v,
                    path_depth,
                    directs,
                    indirects,
                    n,
                    removal_idx,
                    n - 1,
                );
                let delta = full.clone().minus(estimator).over(Scalar::Count(n)).over(pmf.clone());
                proof {
                    assert(delta == terms[removal_idx as int]);
                    assert(terms.take(removal_idx + 1) =~= terms.take(removal_idx as int).push(
                        terms[removal_idx as int],
                    ));
                    lemma_sum_push(first, terms.take(removal_idx as int), delta);
                }
                out = out.plus(delta);
                removal_idx += 1;
            }
            assert(terms.take(n as int) =~= terms);
            out
        } else {
            let ghost terms = Seq::new(
                v.debiasing_samples as nat,
                |k: int| telescope_term(*debias, *v, path_depth, d, ind, k),
            );
            let mut prev = first.clone();
            let mut pmf = Scalar::one();
            let mut i: u32 = 0;
            assert(terms.take(0) =~= Seq::<Color>::empty());
            while i < v.debiasing_samples
                invariant
                    i <= v.debiasing_samples,
                    n == v.n_inner_samples,
                    base + v.debiasing_samples == n,
                    v.debias_radiance_idx + n <= directs.len(),
                    n == indirects.len(),
                    start == v.debias_radiance_idx,
                    d == directs@.subrange(start, start + n),
                    ind == indirects@,
                    prev == estimate_first(*v, path_depth, d, ind, base + i),
                    pmf == power_of(fail_chance(*debias), i as nat),
                    terms == Seq::new(
                        v.debiasing_samples as nat,
                        |k: int| telescope_term(*debias, *v, path_depth, d, ind, k),
                    ),
                    out == sum_from(first, terms.take(i as int)),
                decreases v.debiasing_samples - i,
            {
                let m: u32 = base + i + 1;
                let estimator = Self::estimate_of(v, path_depth, directs, indirects, m, m, m);
                proof {
                    assert(d.take(m as int) =~= directs@.subrange(start, start + m));
                    assert(ind.take(m as int) =~= ind.subrange(0, m as int));
                }
                let delta = estimator.clone().minus(prev).over(pmf.clone());
                proof {
                    assert(delta == terms[i as int]);
                    assert(terms.take(i + 1) =~= terms.take(i as int).push(terms[i as int]));
                    lemma_sum_push(first, terms.take(i as int), delta);
                }
                out = out.plus(delta);
                prev = estimator;
                pmf = pmf.times(Scalar::one().minus(Scalar::Value(debias.r)));
                i += 1;
            }
            assert(terms.take(v.debiasing_samples as int) =~= terms);
            out
        }
    }

    /// Brings the light of the vertices that a vertex branched into back to it, and hands the
    /// light of a path's first vertex to the film, which is `width` pixels wide.
    pub fn kernel_propagate(
        &self,
        state: &mut RenderState,
        vertex_id: u32,
        path_depth: u32,
        width: u32,
    ) -> (r: Propagated)
        requires
            old(state).wf(),
            vertex_id < old(state).vertex_buffer.len(),
            width > 0,
        ensures
            r.out_radiance == outgoing(
                self.config,
                old(state).vertex_buffer@,
                old(state).debiasing_direct_radiance@,
                vertex_id,
                path_depth,
            ),
            r.sample == film_sample(
                old(state).vertex_buffer@[vertex_id as int],
                path_depth,
                width,
                r.out_radiance,
            ),
            final(state).wf(),
            final(state).n_inner_samples == old(state).n_inner_samples,
            final(state).debiasing_direct_radiance == old(state).debiasing_direct_radiance,
            final(state).vertex_buffer@ == with_radiance(
                old(state).vertex_buffer@,
                vertex_id,
                r.out_radiance,
            ),
    {
        let mut v = state.vertex_buffer[vertex_id as usize].clone();
        let ghost vs = state.vertex_buffer@;
        let ghost samples = state.debiasing_direct_radiance@.len();
        let ghost list = siblings(vs, v.indirect_vertex);
        let n: u32 = v.n_inner_samples;
        proof {
            assert(vertex_ok(vs, samples, vertex_id as int));
            lemma_siblings(vs, samples, v.indirect_vertex, n);
        }
        let debiasing = v.debias_radiance_idx != NONE;
        let mut indirects: Vec<Color> = Vec::new();
        if debiasing {
            let mut i: u32 = 0;
            while i < n
                invariant
                    i <= n,
                    indirects@ == Seq::new(i as nat, |k: int| Color::zero()),
                decreases n - i,
            {
                indirects.push(Color::zero());
                i += 1;
            }
        }
        let mut indirect_radiance = Color::zero();
        let mut head: u32 = v.indirect_vertex;
        let ghost mut cnt: int = 0;
        proof {
            assert(list.take(0) =~= Seq::<u32>::empty());
            assert(list.skip(0) =~= list);
            assert(carried_all(vs, list.take(0)) =~= Seq::<Color>::empty());
        }
        while head != NONE
            invariant
                vs == state.vertex_buffer@,
                vs.len() <= NONE,
                forall|i: int| 0 <= i < vs.len() ==> #[trigger] vertex_ok(vs, samples, i),
                0 <= cnt <= list.len(),
                list.skip(cnt) == siblings(vs, head),
                head != NONE ==> head < vs.len(),
                forall|j: int|
                    0 <= j < list.len() ==> (#[trigger] list[j]) < vs.len()
                        && vs[list[j] as int].indirect_branch_idx < n,
                indirect_radiance == sum_from(Color::zero(), carried_all(vs, list.take(cnt))),
                debiasing ==> indirects@ == indirect_table(vs, list.take(cnt), n as nat),
            decreases list.len() - cnt,
        {
            proof {
                lemma_siblings_step(vs, samples, head);
                assert(list.skip(cnt).len() == list.len() - cnt);
                assert(list.skip(cnt).len() >= 1);
                assert(list.skip(cnt)[0] == head);
                assert(list[cnt] == head);
                assert(list.skip(cnt + 1) =~= list.skip(cnt).skip(1));
                assert((seq![head] + siblings(vs, vs[head as int].slibing)).skip(1) =~= siblings(
                    vs,
                    vs[head as int].slibing,
                ));
                let now = list.take(cnt + 1);
                assert(now.drop_last() =~= list.take(cnt));
                assert(carried_all(vs, now) =~= carried_all(vs, list.take(cnt)).push(
                    carried(vs[head as int]),
                ));
                lemma_sum_push(
                    Color::zero(),
                    carried_all(vs, list.take(cnt)),
                    carried(vs[head as int]),
                );
                lemma_table_len(vs, list.take(cnt), n as nat);
                assert(vertex_ok(vs, samples, head as int));
            }
            let indirect_v = &state.vertex_buffer[head as usize];
            let l = indirect_v.throughput.clone().times(indirect_v.radiance.clone()).scale(
                indirect_v.mis.clone(),
            );
            indirect_radiance = indirect_radiance.plus(l.clone());
            if debiasing {
                indirects.set(indirect_v.indirect_branch_idx as usize, l);
            }
            head = indirect_v.slibing;
            proof {
                cnt = cnt + 1;
            }
        }
        proof {
            assert(siblings(vs, NONE) =~= Seq::<u32>::empty());
            assert(list.skip(cnt).len() == list.len() - cnt);
            assert(list.take(cnt) =~= list);
            lemma_table_len(vs, list, n as nat);
        }
        let out_radiance = match &self.config.debias {
            Some(debias) => {
                if debiasing {
                    Self::debiased_of(
                        debias,
                        &v,
                        path_depth,
                        &state.debiasing_direct_radiance,
                        &indirects,
                    )
                } else {
                    v.radiance.clone().stylize(path_depth, v.hit, v.wo, v.flags)
                }
            },
            None => {
                let indirect = indirect_radiance.scale(Scalar::one().over(Scalar::Count(n)));
                v.radiance.clone().plus(indirect).stylize(path_depth, v.hit, v.wo, v.flags)
            },
        };
        let parent: u32 = v.parent;
        v.radiance = out_radiance.clone();
        state.vertex_buffer.set(vertex_id as usize, v);
        proof {
            let now = state.vertex_buffer@;
            assert forall|i: int| 0 <= i < now.len() implies #[trigger] vertex_ok(
                now,
                samples,
                i,
            ) by {
                assert(vertex_ok(vs, samples, i));
            }
        }
        let sample = if path_depth == 0 {
            Some(
                FilmSample {
                    px: pixel(parent, width),
                    color: out_radiance.clone(),
                    weight: Single::one(),
                },
            )
        } else {
            None
        };
        Propagated { out_radiance, sample }
    }
}

proof fn lemma_list(vs: Seq<Vertex>, base: nat, n: nat)
    requires
        base + n <= vs.len() <= NONE,
        forall|c: int|
            0 <= c < n ==> (#[trigger] vs[base + c]).slibing == head_of(base, c as nat),
    ensures
        siblings(vs, head_of(base, n)) == Seq::new(n, |i: int| (base + n - 1 - i) as u32),
    decreases n,
{
    let all = Seq::new(n, |i: int| (base + n - 1 - i) as u32);
    if n == 0 {
        assert(all =~= Seq::empty());
    } else {
        let last = (base + n - 1) as u32;
        let rest = Seq::new((n - 1) as nat, |i: int| (base + (n - 1) - 1 - i) as u32);
        lemma_list(vs, base, (n - 1) as nat);
        let c = n - 1;
        assert(vs[base + c].slibing == head_of(base, (n - 1) as nat));
        if n == 1 {
            assert(rest =~= Seq::empty());
        }
        assert(all =~= seq![last] + rest);
    }
}

/// Light comes back from exactly the vertices that a vertex branched into: its list has all that
/// advancing it made, the last one first.
pub proof fn law_branches_are_listed(
    config: Config,
    table: Seq<u32>,
    vs: Seq<Vertex>,
    directs: nat,
    vertex_id: u32,
    path_depth: u32,
    probe: SurfaceProbe,
    draw: u32,
    samples: Seq<BranchSample>,
)
    requires
        vertex_id < vs.len(),
    ensures
        ({
            let done = advance_spec(
                config,
                table,
                vs.len(),
                directs,
                vs[vertex_id as int],
                vertex_id,
                path_depth,
                probe,
                draw,
                samples,
            );
            let after = vs.update(vertex_id as int, done.vertex) + done.children;
            after.len() <= NONE ==> siblings(after, done.vertex.indirect_vertex) == Seq::new(
                done.children.len(),
                |i: int| (after.len() - 1 - i) as u32,
            )
        }),
{
    let v = vs[vertex_id as int];
    let done = advance_spec(
        config,
        table,
        vs.len(),
        directs,
        v,
        vertex_id,
        path_depth,
        probe,
        draw,
        samples,
    );
    let after = vs.update(vertex_id as int, done.vertex) + done.children;
    let n = inner_count(config, table, v, probe.roughness, draw) as u32;
    let bd = (v.actual_branching_depths + if branches(probe.roughness) {
        1int
    } else {
        0
    }) as u32;
    let base = vs.len();
    if after.len() <= NONE {
        assert forall|c: int| 0 <= c < done.children.len() implies (#[trigger] after[base
            + c]).slibing == head_of(base, c as nat) by {
            lemma_child(probe, vertex_id, bd, samples, base, n as nat, c);
            assert(after[base + c] == done.children[c]);
        }
        lemma_list(after, base, done.children.len());
        assert(Seq::new(
            done.children.len(),
            |i: int| (base + done.children.len() - 1 - i) as u32,
        ) =~= Seq::new(done.children.len(), |i: int| (after.len() - 1 - i) as u32));
    }
}

} // verus!
