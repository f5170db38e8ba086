//! What light a vertex gathers from its neighbours, in exact arithmetic.
use super::filter::{
    counts_for, density_at, direct_term, gather_step, gather_upto, law_light_is_handed_up,
    leaving_spec, received_spec, recorded, reused_spec, smis_sum, weight_for, with_radiance,
    Gathered, NeighborEval,
};
use super::render::film_scale_spec;
use super::trace::{film_sample_spec, splatted_all, traced_spec, PathHead, TraceProbe};
use super::{Config, IrradianceRecord, PathFiltering, PathState, RenderState, Vertex};
use crate::exact::{is_number, law_sign_of_bits, single_worth, units};
use crate::expr::{Axis, Color, Scalar};
use crate::lighting::{BsdfEval, SurfaceInteraction};
use crate::radiance::{
    amount, arriving_light, component, law_light_of_a_surface,
    law_sampled_light_is_styled_at_its_source, lemma_cancel, lemma_constants,
    lemma_positive_worth, lemma_styled, lemma_total_scaled, lemma_weight, light, restyled, total,
    Style, Styling,
};
use crate::value::{Float3, Single, StylizationFlags, SurfaceHit, NONE};
use vstd::prelude::*;

verus! {

/// The light of a record, as a scattering function scatters it.
pub open spec fn scattered(
    record: IrradianceRecord,
    eval: BsdfEval,
    style: Style,
    axis: Axis,
) -> real {
    single_worth(component(eval.f, axis)) * light(record.irradiance, style, axis) * amount(
        record.mis,
        style,
    )
}

/// The vertex of a neighbour.
pub open spec fn vertex_of(
    states: Seq<PathState>,
    vs: Seq<Vertex>,
    kept: Seq<u32>,
    i: int,
) -> Vertex {
    vs[states[kept[i] as int].vertex_idx as int]
}

/// The densities that neighbours have for a direction, added up.
pub open spec fn density_total(
    states: Seq<PathState>,
    path_depth: u32,
    kept: Seq<u32>,
    pdfs: Seq<Single>,
) -> real {
    total(
        Seq::new(
            kept.len(),
            |j: int|
                if states[kept[j] as int].reaches(path_depth) {
                    single_worth(pdfs[j])
                } else {
                    0real
                },
        ),
    )
}

/// The densities against which a neighbour's light is weighed: those that were added up before,
/// where clusters allow that and the sum is above zero, and elsewhere those of all neighbours.
pub open spec fn divisor(
    config: Config,
    states: Seq<PathState>,
    vs: Seq<Vertex>,
    path_depth: u32,
    kept: Seq<u32>,
    evals: Seq<NeighborEval>,
    i: int,
    style: Style,
) -> real {
    let v = vertex_of(states, vs, kept, i);
    if config.cluster && v.sum_pdf.positive {
        amount(v.sum_pdf.value, style)
    } else {
        density_total(states, path_depth, kept, evals[i].alternative_pdfs@)
    }
}

/// What neighbour `i` adds to the indirect light. With stratified weights its light is divided by
/// the densities of all neighbours, and elsewhere by its own density and the number of neighbours.
pub open spec fn indirect_share(
    config: Config,
    states: Seq<PathState>,
    vs: Seq<Vertex>,
    path_depth: u32,
    kept: Seq<u32>,
    evals: Seq<NeighborEval>,
    i: int,
    style: Style,
    axis: Axis,
) -> real {
    let reused = scattered(
        vertex_of(states, vs, kept, i).indirect,
        evals[i].indirect,
        style,
        axis,
    );
    if !states[kept[i] as int].reaches(path_depth) || evals[i].no_direction {
        0real
    } else if config.smis {
        reused / divisor(config, states, vs, path_depth, kept, evals, i, style)
    } else if units(evals[i].indirect.pdf) > 0 {
        reused / single_worth(evals[i].indirect.pdf) / (kept.len() as int as real)
    } else {
        0real
    }
}

/// What neighbour `i` adds to the direct light: its sampled light, over both densities with which
/// its direction could have been found, averaged over the neighbours.
pub open spec fn direct_share(
    states: Seq<PathState>,
    vs: Seq<Vertex>,
    path_depth: u32,
    kept: Seq<u32>,
    evals: Seq<NeighborEval>,
    i: int,
    style: Style,
    axis: Axis,
) -> real {
    let record = vertex_of(states, vs, kept, i).direct;
    if states[kept[i] as int].reaches(path_depth) && units(record.pdf) > 0 {
        scattered(record, evals[i].direct, style, axis) / (single_worth(record.pdf) + single_worth(
            evals[i].direct.pdf,
        )) / (kept.len() as int as real)
    } else {
        0real
    }
}

/// The neighbours can be asked: they are paths, their densities are numbers that are not negative,
/// and one that is listed twice says the same twice.
pub open spec fn neighbors_ok(
    states: Seq<PathState>,
    vs: Seq<Vertex>,
    kept: Seq<u32>,
    evals: Seq<NeighborEval>,
) -> bool {
    &&& 0 < kept.len() <= u32::MAX
    &&& evals.len() == kept.len()
    &&& forall|i: int| 0 <= i < states.len() ==> (#[trigger] states[i]).vertex_idx < vs.len()
    &&& forall|i: int|
        0 <= i < kept.len() ==> {
            &&& (#[trigger] kept[i]) < states.len()
            &&& is_number(vertex_of(states, vs, kept, i).direct.pdf)
            &&& is_number(evals[i].indirect.pdf)
            &&& is_number(evals[i].direct.pdf)
            &&& units(evals[i].direct.pdf) >= 0
        }
    &&& forall|i: int, j: int|
        0 <= i < kept.len() && 0 <= j < kept.len() && states[(
        #[trigger] kept[i]) as int].vertex_idx == states[(#[trigger] kept[j]) as int].vertex_idx
            ==> evals[i].alternative_pdfs@ == evals[j].alternative_pdfs@
}

proof fn lemma_density(
    states: Seq<PathState>,
    path_depth: u32,
    kept: Seq<u32>,
    pdfs: Seq<Single>,
    k: nat,
    style: Style,
)
    requires
        k <= kept.len(),
    ensures
        amount(density_at(states, path_depth, kept, pdfs, k).value, style) == density_total(
            states,
            path_depth,
            kept.take(k as int),
            pdfs,
        ),
    decreases k,
{
    lemma_constants(style, Axis::X);
    if k > 0 {
        lemma_density(states, path_depth, kept, pdfs, (k - 1) as nat, style);
        let part = |s: Seq<u32>|
            Seq::new(
                s.len(),
                |j: int|
                    if states[s[j] as int].reaches(path_depth) {
                        single_worth(pdfs[j])
                    } else {
                        0real
                    },
            );
        assert(part(kept.take(k as int)).drop_last() =~= part(kept.take(k - 1)));
        reveal_with_fuel(amount, 2);
    }
}

/// What is stored with a vertex on the way is what was stored before, or the densities of all
/// neighbours.
proof fn lemma_stored(
    config: Config,
    states: Seq<PathState>,
    vs: Seq<Vertex>,
    path_depth: u32,
    kept: Seq<u32>,
    evals: Seq<NeighborEval>,
    k: nat,
    i: int,
)
    requires
        neighbors_ok(states, vs, kept, evals),
        k <= kept.len(),
        0 <= i < kept.len(),
    ensures
        ({
            let g = gather_upto(config, states, vs, path_depth, kept, evals, k);
            let (before, after) = (
                vertex_of(states, vs, kept, i),
                vertex_of(states, g.vertices, kept, i),
            );
            &&& g.vertices.len() == vs.len()
            &&& after == (Vertex { sum_pdf: after.sum_pdf, ..before })
            &&& config.cluster && before.sum_pdf.positive ==> after.sum_pdf == before.sum_pdf
            &&& after.sum_pdf == before.sum_pdf || after.sum_pdf == density_at(
                states,
                path_depth,
                kept,
                evals[i].alternative_pdfs@,
                kept.len(),
            )
        }),
    decreases k,
{
    if k > 0 {
        lemma_stored(config, states, vs, path_depth, kept, evals, (k - 1) as nat, i);
        lemma_stored(config, states, vs, path_depth, kept, evals, (k - 1) as nat, k - 1);
        assert(kept[k - 1] < states.len());
        assert(kept[i] < states.len());
    }
}

/// The light that a vertex gathers from its neighbours is the sum of their shares. With stratified
/// weights, a share of the indirect light is the neighbour's light as the vertex scatters it, over
/// the sum of the densities that the neighbours have for its direction.
pub proof fn law_neighbors_share_their_light(
    config: Config,
    states: Seq<PathState>,
    vs: Seq<Vertex>,
    path_depth: u32,
    kept: Seq<u32>,
    evals: Seq<NeighborEval>,
    k: nat,
    style: Style,
    axis: Axis,
)
    requires
        neighbors_ok(states, vs, kept, evals),
        k <= kept.len(),
    ensures
        ({
            let g = gather_upto(config, states, vs, path_depth, kept, evals, k);
            &&& light(g.indirect, style, axis) == total(
                Seq::new(
                    k,
                    |i: int|
                        indirect_share(
                            config,
                            states,
                            vs,
                            path_depth,
                            kept,
                            evals,
                            i,
                            style,
                            axis,
                        ),
                ),
            )
            &&& light(g.direct, style, axis) == total(
                Seq::new(
                    k,
                    |i: int| direct_share(states, vs, path_depth, kept, evals, i, style, axis),
                ),
            )
        }),
    decreases k,
{
    lemma_constants(style, axis);
    let indirects = |m: nat|
        Seq::new(
            m,
            |i: int|
                indirect_share(config, states, vs, path_depth, kept, evals, i, style, axis),
        );
    let directs = |m: nat|
        Seq::new(m, |i: int| direct_share(states, vs, path_depth, kept, evals, i, style, axis));
    if k > 0 {
        let m = (k - 1) as nat;
        let i = k - 1;
        law_neighbors_share_their_light(
            config,
            states,
            vs,
            path_depth,
            kept,
            evals,
            m,
            style,
            axis,
        );
        assert(indirects(k).drop_last() =~= indirects(m));
        assert(directs(k).drop_last() =~= directs(m));
        let g = gather_upto(config, states, vs, path_depth, kept, evals, m);
        lemma_stored(config, states, vs, path_depth, kept, evals, m, i);
        lemma_step(config, states, vs, path_depth, kept, evals, g, i, style, axis);
    }
}

/// What one neighbour adds.
proof fn lemma_step(
    config: Config,
    states: Seq<PathState>,
    vs: Seq<Vertex>,
    path_depth: u32,
    kept: Seq<u32>,
    evals: Seq<NeighborEval>,
    g: Gathered,
    i: int,
    style: Style,
    axis: Axis,
)
    requires
        neighbors_ok(states, vs, kept, evals),
        0 <= i < kept.len(),
        ({
            let (before, now) = (
                vertex_of(states, vs, kept, i),
                vertex_of(states, g.vertices, kept, i),
            );
            &&& now == (Vertex { sum_pdf: now.sum_pdf, ..before })
            &&& config.cluster && before.sum_pdf.positive ==> now.sum_pdf == before.sum_pdf
            &&& now.sum_pdf == before.sum_pdf || now.sum_pdf == density_at(
                states,
                path_depth,
                kept,
                evals[i].alternative_pdfs@,
                kept.len(),
            )
        }),
    ensures
        ({
            let h = gather_step(config, states, path_depth, kept, evals[i], g, i);
            &&& light(h.indirect, style, axis) == light(g.indirect, style, axis) + indirect_share(
                config,
                states,
                vs,
                path_depth,
                kept,
                evals,
                i,
                style,
                axis,
            )
            &&& light(h.direct, style, axis) == light(g.direct, style, axis) + direct_share(
                states,
                vs,
                path_depth,
                kept,
                evals,
                i,
                style,
                axis,
            )
        }),
{
    let v = vertex_of(states, g.vertices, kept, i);
    let eval = evals[i];
    let cnt = kept.len() as u32;
    assert(kept[i] < states.len());
    law_sign_of_bits(v.direct.pdf);
    law_sign_of_bits(eval.indirect.pdf);
    law_sign_of_bits(eval.direct.pdf);
    let reused = reused_spec(v.indirect, eval.indirect);
    assert(light(reused, style, axis) == scattered(v.indirect, eval.indirect, style, axis)) by {
        reveal_with_fuel(light, 4);
    }
    if states[kept[i] as int].reaches(path_depth) {
        if v.direct.pdf.is_positive() {
            let (x, y) = (single_worth(v.direct.pdf), single_worth(eval.direct.pdf));
            lemma_positive_worth(v.direct.pdf);
            lemma_not_negative(eval.direct.pdf);
            lemma_weight(Scalar::Value(v.direct.pdf), Scalar::Value(eval.direct.pdf), style);
            let a = scattered(v.direct, eval.direct, style, axis);
            lemma_cancel(a, x, y);
            assert(light(direct_term(v.direct, eval.direct, cnt), style, axis) == a * (x / (x + y))
                / x / (cnt as int as real)) by {
                reveal_with_fuel(light, 7);
                reveal_with_fuel(amount, 2);
            }
        }
        if !eval.no_direction {
            if config.smis {
                lemma_density(
                    states,
                    path_depth,
                    kept,
                    eval.alternative_pdfs@,
                    kept.len(),
                    style,
                );
                assert(kept.take(kept.len() as int) =~= kept);
                let sum = weight_for(config, states, path_depth, kept, eval, v);
                assert(amount(sum.value, style) == divisor(
                    config,
                    states,
                    vs,
                    path_depth,
                    kept,
                    evals,
                    i,
                    style,
                ));
                assert(light(g.indirect.plus(reused.over(sum.value)), style, axis) == light(
                    g.indirect,
                    style,
                    axis,
                ) + light(reused, style, axis) / amount(sum.value, style)) by {
                    reveal_with_fuel(light, 3);
                }
            } else if eval.indirect.pdf.is_positive() {
                let one = reused.over(Scalar::Value(eval.indirect.pdf)).over(Scalar::Count(cnt));
                assert(light(g.indirect.plus(one), style, axis) == light(g.indirect, style, axis)
                    + light(reused, style, axis) / single_worth(eval.indirect.pdf) / (
                cnt as int as real)) by {
                    reveal_with_fuel(light, 4);
                    reveal_with_fuel(amount, 2);
                }
            }
        }
    }
}

/// A number that is not negative is worth no less than zero.
proof fn lemma_not_negative(s: Single)
    requires
        units(s) >= 0,
    ensures
        single_worth(s) >= 0real,
{
    crate::exact::law_zero_and_one(|c: Color, a: Axis| 0real);
    let (n, u) = (units(s) as real, crate::exact::units_of_one() as real);
    assert(n / u >= 0real) by (nonlinear_arith)
        requires
            n >= 0real,
            u > 0real,
    ;
}

/// The light that leaves a vertex is what it gives off, what it scatters of sampled lights and what
/// it scatters of the light of its neighbours; in the style of its surface, but for the first
/// vertex where that is not to be styled.
pub proof fn law_filtered_light_leaves(
    config: Config,
    le: Color,
    states: Seq<PathState>,
    vs: Seq<Vertex>,
    path_depth: u32,
    kept: Seq<u32>,
    evals: Seq<NeighborEval>,
    si: SurfaceInteraction,
    wo: Float3,
    flags: StylizationFlags,
    style: Style,
    axis: Axis,
)
    requires
        neighbors_ok(states, vs, kept, evals),
    ensures
        ({
            let g = gather_upto(config, states, vs, path_depth, kept, evals, kept.len());
            let n = kept.len();
            let arriving = |a: Axis|
                light(le, style, a) + total(
                    Seq::new(
                        n,
                        |i: int| direct_share(states, vs, path_depth, kept, evals, i, style, a),
                    ),
                ) + total(
                    Seq::new(
                        n,
                        |i: int|
                            indirect_share(
                                config,
                                states,
                                vs,
                                path_depth,
                                kept,
                                evals,
                                i,
                                style,
                                a,
                            ),
                    ),
                );
            let at = Styling {
                path_depth,
                hit: SurfaceHit { inst_id: si.inst_id, prim_id: si.prim_id, bary: si.bary },
                wo,
                flags,
            };
            light(leaving_spec(config, le, g, path_depth, si, wo, flags), style, axis) == (
            if path_depth == 0 && config.no_first_hit_stylization {
                arriving(axis)
            } else {
                restyled(style, at, arriving, axis)
            })
        }),
{
    let g = gather_upto(config, states, vs, path_depth, kept, evals, kept.len());
    let n = kept.len();
    let arriving = |a: Axis|
        light(le, style, a) + total(
            Seq::new(
                n,
                |i: int| direct_share(states, vs, path_depth, kept, evals, i, style, a),
            ),
        ) + total(
            Seq::new(
                n,
                |i: int|
                    indirect_share(config, states, vs, path_depth, kept, evals, i, style, a),
            ),
        );
    let sum = le.plus(g.direct).plus(g.indirect);
    assert forall|a: Axis| #[trigger] light(sum, style, a) == arriving(a) by {
        law_neighbors_share_their_light(
            config,
            states,
            vs,
            path_depth,
            kept,
            evals,
            n,
            style,
            a,
        );
        reveal_with_fuel(light, 3);
    }
    let at = Styling {
        path_depth,
        hit: SurfaceHit { inst_id: si.inst_id, prim_id: si.prim_id, bary: si.bary },
        wo,
        flags,
    };
    lemma_styled(sum, at, arriving, style, axis);
    assert(light(sum, style, axis) == arriving(axis));
}

/// A single neighbour gives its light over the density that it has for its direction.
pub proof fn law_one_neighbor_gives_its_light(
    config: Config,
    states: Seq<PathState>,
    vs: Seq<Vertex>,
    path_depth: u32,
    id: u32,
    eval: NeighborEval,
    style: Style,
    axis: Axis,
)
    requires
        config.smis,
        neighbors_ok(states, vs, seq![id], seq![eval]),
        states[id as int].reaches(path_depth),
        !eval.no_direction,
        !(config.cluster && vs[states[id as int].vertex_idx as int].sum_pdf.positive),
    ensures
        light(
            gather_upto(config, states, vs, path_depth, seq![id], seq![eval], 1).indirect,
            style,
            axis,
        ) == scattered(
            vs[states[id as int].vertex_idx as int].indirect,
            eval.indirect,
            style,
            axis,
        ) / single_worth(eval.alternative_pdfs@[0]),
{
    let (kept, evals) = (seq![id], seq![eval]);
    reveal_with_fuel(total, 2);
    law_neighbors_share_their_light(
        config,
        states,
        vs,
        path_depth,
        kept,
        evals,
        1,
        style,
        axis,
    );
    let shares = Seq::new(
        1,
        |i: int| indirect_share(config, states, vs, path_depth, kept, evals, i, style, axis),
    );
    assert(shares.drop_last() =~= Seq::<real>::empty());
    assert(total(shares) == shares[0]);
    let parts = Seq::new(
        kept.len(),
        |j: int|
            if states[kept[j] as int].reaches(path_depth) {
                single_worth(eval.alternative_pdfs@[j])
            } else {
                0real
            },
    );
    assert(parts.drop_last() =~= Seq::<real>::empty());
    assert(total(parts) == parts[0]);
}

/// Where all densities are `m` times as large, the indirect light is the `m`-th part.
pub proof fn law_denser_sampling_gives_less_light(
    config: Config,
    states: Seq<PathState>,
    vs: Seq<Vertex>,
    path_depth: u32,
    kept: Seq<u32>,
    evals: Seq<NeighborEval>,
    denser: Seq<NeighborEval>,
    m: real,
    style: Style,
    axis: Axis,
)
    requires
        config.smis,
        m > 0real,
        neighbors_ok(states, vs, kept, evals),
        neighbors_ok(states, vs, kept, denser),
        forall|i: int|
            0 <= i < kept.len() ==> {
                &&& !(config.cluster && (#[trigger] vertex_of(
                    states,
                    vs,
                    kept,
                    i,
                )).sum_pdf.positive)
                &&& denser[i].no_direction == evals[i].no_direction
                &&& denser[i].indirect.f == evals[i].indirect.f
                &&& density_total(states, path_depth, kept, evals[i].alternative_pdfs@) > 0real
            },
        forall|i: int, j: int|
            0 <= i < kept.len() && 0 <= j < kept.len() ==> single_worth(
                #[trigger] denser[i].alternative_pdfs@[j],
            ) == single_worth(evals[i].alternative_pdfs@[j]) * m,
    ensures
        light(
            gather_upto(config, states, vs, path_depth, kept, denser, kept.len()).indirect,
            style,
            axis,
        ) * m == light(
            gather_upto(config, states, vs, path_depth, kept, evals, kept.len()).indirect,
            style,
            axis,
        ),
{
    let n = kept.len();
    law_neighbors_share_their_light(config, states, vs, path_depth, kept, evals, n, style, axis);
    law_neighbors_share_their_light(config, states, vs, path_depth, kept, denser, n, style, axis);
    let shares = |es: Seq<NeighborEval>|
        Seq::new(
            n,
            |i: int| indirect_share(config, states, vs, path_depth, kept, es, i, style, axis),
        );
    assert forall|i: int| 0 <= i < n implies #[trigger] shares(evals)[i] == shares(denser)[i]
        * m by {
        let v = vertex_of(states, vs, kept, i);
        let part = |pdfs: Seq<Single>|
            Seq::new(
                kept.len(),
                |j: int|
                    if states[kept[j] as int].reaches(path_depth) {
                        single_worth(pdfs[j])
                    } else {
                        0real
                    },
            );
        let (p, q) = (part(evals[i].alternative_pdfs@), part(denser[i].alternative_pdfs@));
        assert forall|j: int| 0 <= j < p.len() implies #[trigger] q[j] == p[j] * m by {
            assert(single_worth(denser[i].alternative_pdfs@[j]) == single_worth(
                evals[i].alternative_pdfs@[j],
            ) * m);
            assert(0real * m == 0real) by (nonlinear_arith);
        }
        lemma_total_scaled(p, q, m);
        let d = density_total(states, path_depth, kept, evals[i].alternative_pdfs@);
        let a = scattered(v.indirect, evals[i].indirect, style, axis);
        assert(d == total(p));
        assert(a / (d * m) * m == a / d) by (nonlinear_arith)
            requires
                d > 0real,
                m > 0real,
        ;
        assert(0real * m == 0real) by (nonlinear_arith);
    }
    lemma_total_scaled(shares(denser), shares(evals), m);
}

/// The sum that is stored with a vertex is that of the densities of the neighbours that are in its
/// cluster and have its flags, and it is marked as positive where one of them is above zero.
pub proof fn law_stored_sum_adds_up(
    config: Config,
    states: Seq<PathState>,
    vs: Seq<Vertex>,
    path_depth: u32,
    v: Vertex,
    list: Seq<u32>,
    pdfs: Seq<Single>,
    k: nat,
    style: Style,
)
    requires
        k <= list.len(),
        list.len() <= pdfs.len(),
    ensures
        ({
            let sum = smis_sum(config, states, vs, path_depth, v, list, pdfs, k);
            let counts = |i: int|
                {
                    let ps = states[list[i] as int];
                    let other = vs[ps.vertex_idx as int];
                    &&& ps.reaches(path_depth)
                    &&& other.cluster_id == v.cluster_id
                    &&& config.disable_flag_check || other.new_flags == v.new_flags
                };
            &&& amount(sum.value, style) == total(
                Seq::new(
                    k,
                    |i: int|
                        if counts(i) {
                            single_worth(pdfs[i])
                        } else {
                            0real
                        },
                ),
            )
            &&& sum.positive <==> exists|i: int|
                0 <= i < k && counts(i) && (#[trigger] pdfs[i]).is_positive()
        }),
    decreases k,
{
    lemma_constants(style, Axis::X);
    let counts = |i: int|
        {
            let ps = states[list[i] as int];
            let other = vs[ps.vertex_idx as int];
            &&& ps.reaches(path_depth)
            &&& other.cluster_id == v.cluster_id
            &&& config.disable_flag_check || other.new_flags == v.new_flags
        };
    let parts = |m: nat|
        Seq::new(
            m,
            |i: int|
                if counts(i) {
                    single_worth(pdfs[i])
                } else {
                    0real
                },
        );
    if k > 0 {
        let m = (k - 1) as nat;
        law_stored_sum_adds_up(config, states, vs, path_depth, v, list, pdfs, m, style);
        assert(parts(k).drop_last() =~= parts(m));
        reveal_with_fuel(amount, 2);
        let before = smis_sum(config, states, vs, path_depth, v, list, pdfs, m);
        let sum = smis_sum(config, states, vs, path_depth, v, list, pdfs, k);
        assert(counts_for(config, states, vs, path_depth, v, list[k - 1]) == counts(k - 1));
        if before.positive {
            let i = choose|i: int| 0 <= i < m && counts(i) && (#[trigger] pdfs[i]).is_positive();
            assert(pdfs[i].is_positive());
        }
        if sum.positive && !before.positive {
            assert(pdfs[k - 1].is_positive());
        }
    }
}

/// A vertex that a path comes to has the light that its surface gives off, and counts in full for
/// the vertex before it unless it lies on a light that could have been sampled there. Above the last
/// depth it records the light of a light that was sampled and is not hidden, as the surface of that
/// light sends it, and the density of the direction that was sampled for going on. It belongs to no
/// cluster yet.
pub proof fn law_traced_vertices_have_their_light(
    head: PathHead,
    depth: u32,
    max_trace_depth: u32,
    probe: TraceProbe,
    style: Style,
    axis: Axis,
)
    requires
        probe.si.valid,
    ensures
        ({
            let done = traced_spec(head, depth, max_trace_depth, probe);
            let v = done.vertex->0;
            let (b, l) = (single_worth(head.state.prev_bsdf_pdf), single_worth(probe.light.pdf));
            &&& done.vertex is Some
            &&& light(v.le, style, axis) == (if probe.light.valid {
                single_worth(component(probe.light.le, axis))
            } else {
                0real
            })
            &&& amount(v.mis, style) == (if probe.light.valid && depth > 0 {
                b / (b + l)
            } else {
                1real
            })
            &&& light(v.radiance, style, axis) == 0real
            &&& depth < max_trace_depth && !probe.occluded ==> {
                &&& light(v.direct.irradiance, style, axis) == arriving_light(
                    probe.si,
                    (depth + 1) as u32,
                    probe.new_flags,
                    probe.light_sample,
                    style,
                    axis,
                )
                &&& amount(v.direct.mis, style) == 1real
                &&& probe.light_sample.valid ==> v.direct.pdf == probe.light_sample.pdf
                    && v.direct.wi == probe.light_sample.wi
                &&& !probe.light_sample.valid ==> single_worth(v.direct.pdf) == 0real
            }
            &&& depth >= max_trace_depth || probe.occluded ==> {
                &&& light(v.direct.irradiance, style, axis) == 0real
                &&& single_worth(v.direct.pdf) == 0real
            }
            &&& depth < max_trace_depth ==> v.bsdf_pdf == probe.sample.pdf
            &&& !v.sum_pdf.positive
            &&& v.cluster_id == NONE
            &&& v.cluster_size == 0
            &&& v.wo == head.ray.d.neg()
            &&& v.p == probe.si.p
            &&& v.hit == probe.si.hit()
            &&& v.flags == head.state.flags
            &&& v.new_flags == probe.new_flags
            &&& done.ray is Some <==> depth < max_trace_depth && probe.sample.pdf.is_positive()
            &&& done.ray is Some ==> {
                &&& done.ray->0.o == probe.sample.origin
                &&& done.ray->0.d == probe.sample.wi
                &&& done.ray->0.exclude0.x == probe.si.inst_id
                &&& done.ray->0.exclude0.y == probe.si.prim_id
                &&& done.state.prev_bsdf_pdf == probe.sample.pdf
                &&& done.state.prev_p == probe.si.p
                &&& done.state.prev_ng == probe.si.ng
            }
            &&& done.state.flags == probe.new_flags
        }),
{
    lemma_constants(style, axis);
    law_light_of_a_surface(probe.light, depth, head.state.prev_bsdf_pdf, style, axis);
    law_sampled_light_is_styled_at_its_source(
        probe.si,
        (depth + 1) as u32,
        probe.new_flags,
        probe.light_sample,
        style,
        axis,
    );
    assert(single_worth(Single::zero()) == amount(Scalar::zero(), style));
}

/// The light of a pixel is the sum of the light of its paths.
pub proof fn law_pixels_collect_their_paths(
    pixels: Seq<Color>,
    states: Seq<PathState>,
    vs: Seq<Vertex>,
    width: u32,
    k: nat,
    i: int,
    style: Style,
    axis: Axis,
)
    requires
        k <= states.len(),
        0 <= i < pixels.len(),
        forall|t: int|
            0 <= t < states.len() && (#[trigger] states[t]).valid ==> states[t].px.y * width
                + states[t].px.x < pixels.len(),
    ensures
        ({
            let after = splatted_all(pixels, states, vs, width, k);
            &&& after.len() == pixels.len()
            &&& light(after[i], style, axis) == light(pixels[i], style, axis) + total(
                Seq::new(
                    k,
                    |t: int|
                        if states[t].valid && states[t].px.y * width + states[t].px.x == i {
                            light(vs[states[t].vertex_idx as int].radiance, style, axis)
                        } else {
                            0real
                        },
                ),
            )
        }),
    decreases k,
{
    let parts = |m: nat|
        Seq::new(
            m,
            |t: int|
                if states[t].valid && states[t].px.y * width + states[t].px.x == i {
                    light(vs[states[t].vertex_idx as int].radiance, style, axis)
                } else {
                    0real
                },
        );
    if k > 0 {
        let m = (k - 1) as nat;
        law_pixels_collect_their_paths(pixels, states, vs, width, m, i, style, axis);
        assert(parts(k).drop_last() =~= parts(m));
        let ps = states[k - 1];
        let at = ps.px.y * width + ps.px.x;
        assert(ps.px.y * width >= 0) by (nonlinear_arith);
        reveal_with_fuel(light, 2);
    }
}

/// A path that met a surface adds to its pixel of the film the light of the pixel over the number
/// of paths that a pixel has, in the style of the surface that the path met first unless that is not
/// to be styled. So where all paths of a pixel bring the same light, that is what is styled.
pub proof fn law_film_is_given_the_mean(
    tracer: PathFiltering,
    state: RenderState,
    tid: u32,
    n_pixels: u32,
    style: Style,
    axis: Axis,
)
    requires
        tracer.config.branch > 0,
    ensures
        ({
            let ps = state.path_state_buf@[tid as int];
            let v = state.vertex_buf@[ps.vertex_idx as int];
            let r = film_sample_spec(tracer, state, tid, n_pixels, film_scale_spec(tracer.config));
            let b = tracer.config.branch as int as real;
            let mean = |a: Axis|
                light(state.first_hit_radiance_buf@[(tid % n_pixels) as int], style, a) / b;
            let at = Styling { path_depth: 0, hit: v.hit, wo: v.wo, flags: v.flags };
            &&& r is Some <==> ps.valid
            &&& ps.valid ==> {
                &&& r->0.px == ps.px
                &&& r->0.weight == Single::one()
                &&& light(r->0.color, style, axis) == (if tracer.config.no_first_hit_stylization {
                    mean(axis)
                } else {
                    restyled(style, at, mean, axis)
                })
            }
        }),
{
    let ps = state.path_state_buf@[tid as int];
    let v = state.vertex_buf@[ps.vertex_idx as int];
    let pixel = state.first_hit_radiance_buf@[(tid % n_pixels) as int];
    let scale = film_scale_spec(tracer.config);
    let b = tracer.config.branch as int as real;
    let mean = |a: Axis| light(pixel, style, a) / b;
    lemma_constants(style, axis);
    assert(amount(scale, style) == 1real / b) by {
        reveal_with_fuel(amount, 2);
    }
    assert forall|a: Axis| #[trigger] light(pixel.scale(scale), style, a) == mean(a) by {
        let x = light(pixel, style, a);
        assert(x * (1real / b) == x / b) by (nonlinear_arith)
            requires
                b > 0real,
        ;
        reveal_with_fuel(light, 2);
    }
    let at = Styling { path_depth: 0, hit: v.hit, wo: v.wo, flags: v.flags };
    lemma_styled(pixel.scale(scale), at, mean, style, axis);
    assert(light(pixel.scale(scale), style, axis) == mean(axis));
}

/// The light that leaves a vertex is stored with it, and below the first depth it is recorded and
/// handed to the vertex above, which receives it with the weight of the vertex below, along the
/// direction that leads there. At the first depth no record is left.
pub proof fn law_light_reaches_the_vertex_above(
    vs: Seq<Vertex>,
    records: Seq<IrradianceRecord>,
    at: int,
    ps_idx: int,
    path_depth: u32,
    v: Vertex,
    above: Vertex,
    leaving: Color,
    style: Style,
    axis: Axis,
)
    requires
        0 <= at < vs.len(),
        0 <= ps_idx < records.len(),
    ensures
        ({
            let stored = with_radiance(vs, at, v, leaving);
            let left = recorded(records, ps_idx, path_depth, v, leaving);
            let received = received_spec(above, left[ps_idx]);
            &&& light(stored[at].radiance, style, axis) == light(leaving, style, axis)
            &&& stored[at] == (Vertex { radiance: stored[at].radiance, ..v })
            &&& forall|i: int| 0 <= i < vs.len() && i != at ==> #[trigger] stored[i] == vs[i]
            &&& forall|i: int|
                0 <= i < records.len() && i != ps_idx ==> #[trigger] left[i] == records[i]
            &&& path_depth == 0 ==> left == records
            &&& path_depth > 0 ==> {
                &&& light(received.indirect.irradiance, style, axis) == light(leaving, style, axis)
                &&& amount(received.indirect.mis, style) == amount(v.mis, style)
                &&& received.indirect.wi.neg() == v.wo
                &&& received.indirect.pdf == above.bsdf_pdf
            }
        }),
{
    law_light_is_handed_up(v, above, leaving);
}

} // verus!
