//! What light the vertices of a path have, what the network is taught of it and what the film is
//! given, in exact arithmetic.
use super::gather::{
    answer_sample, asks, carried_back, last_of, lemma_rounds, lit_spec, lit_vertices, path_after,
    splat_sample, styled, unstyled, GatherRound,
};
use super::inputs::{
    answer, entered, exitant_spec, features_of, halved, normalized, numbered, target, taught,
};
use super::render::rows_of;
use super::trace::{
    brought_back, gather_hits, gathered_vertex_spec, goes_on, own_light, regathered,
    regathered_vertices, relit_spec, start_spec, step_spec, trace_result, vertex_spec, walk_upto,
    GatherProbe, Walk, WalkProbe,
};
use super::{Config, PathState, RenderState, Vertex, FEATURES, SPLITTING_ROUGHNESS_BITS};
use crate::exact::{is_number, law_half, law_sign_of_bits, single_worth, units};
use crate::expr::{Axis, Color, Scalar};
use crate::lighting::{law_pixel_numbering, FilmSample, SurfaceInteraction};
use crate::limits::law_limits_compare;
use crate::radiance::{
    amount, component, law_albedo, law_light_of_a_surface, law_sampled_light_is_scattered,
    law_throughput, lemma_constants, lemma_styled, light, restyled, scattered_light, total, weighs,
    Style, Styling,
};
use crate::value::{Float3, Ray, Single, StylizationFlags, NONE};
use vstd::prelude::*;

verus! {

/// Where the light of a vertex is styled.
pub open spec fn styling_of(v: Vertex, depth: u32, flags: StylizationFlags) -> Styling {
    Styling { path_depth: depth, hit: v.hit, wo: v.wo, flags }
}

/// Which of three entries belongs to a component.
pub open spec fn place(axis: Axis) -> int {
    match axis {
        Axis::X => 0,
        Axis::Y => 1,
        Axis::Z => 2,
    }
}

/// What the network says of a vertex: the three numbers of its row.
pub open spec fn said_light(outputs: Seq<Single>, v: Vertex, axis: Axis) -> real {
    single_worth(outputs[v.nrc_idx * 3 + place(axis)])
}

/// The network is taught of a vertex the light that it gives off, its direct light and, where the
/// path goes on, what arrives from the next vertex: what the network says leaves there, in its style
/// unless styled light is learned, times what scattering lets through and its weight. Where styled
/// light is learned, the light of a vertex from which the path goes on is styled.
pub proof fn law_targets(
    learn_stylized: bool,
    vs: Seq<Vertex>,
    outputs: Seq<Single>,
    ps: PathState,
    i: u32,
    style: Style,
    axis: Axis,
)
    requires
        i <= ps.depth,
    ensures
        ({
            let v = vs[ps.vertex_idx + i];
            let next = vs[ps.vertex_idx + i + 1];
            let said = |a: Axis| said_light(outputs, next, a);
            let arriving = |a: Axis|
                if learn_stylized {
                    said(a)
                } else {
                    restyled(style, styling_of(next, (i + 1) as u32, next.flags), said, a)
                };
            let all = |a: Axis|
                light(v.le, style, a) + light(v.direct, style, a) + (if i < ps.depth {
                    arriving(a) * amount(next.mis, style) * light(next.throughput, style, a)
                } else {
                    0real
                });
            let taught = light(exitant_spec(learn_stylized, vs, outputs, ps, i), style, axis);
            taught == (if learn_stylized && i < ps.depth {
                restyled(style, styling_of(v, i, next.flags), all, axis)
            } else {
                all(axis)
            })
        }),
{
    let v = vs[ps.vertex_idx + i];
    let next = vs[ps.vertex_idx + i + 1];
    let own = v.le.plus(v.direct);
    if i < ps.depth {
        let said = |a: Axis| said_light(outputs, next, a);
        let c = Color::Rgb(answer(outputs, next.nrc_idx));
        assert forall|a: Axis| #[trigger] light(c, style, a) == said(a) by {}
        let at = styling_of(next, (i + 1) as u32, next.flags);
        let arriving = |a: Axis|
            if learn_stylized {
                said(a)
            } else {
                restyled(style, at, said, a)
            };
        let d = if learn_stylized {
            c
        } else {
            c.stylize((i + 1) as u32, next.hit, next.wo, next.flags)
        };
        assert forall|a: Axis| #[trigger] light(d, style, a) == arriving(a) by {
            lemma_styled(c, at, said, style, a);
            assert(light(c, style, a) == said(a));
        }
        let sum = own.plus(d.scale(next.mis).times(next.throughput));
        let all = |a: Axis|
            light(v.le, style, a) + light(v.direct, style, a) + (if i < ps.depth {
                arriving(a) * amount(next.mis, style) * light(next.throughput, style, a)
            } else {
                0real
            });
        assert forall|a: Axis| #[trigger] light(sum, style, a) == all(a) by {
            assert(light(d, style, a) == arriving(a));
            reveal_with_fuel(light, 4);
        }
        lemma_styled(sum, styling_of(v, i, next.flags), all, style, axis);
        assert(light(sum, style, axis) == all(axis));
    } else {
        reveal_with_fuel(light, 2);
    }
}

/// Where light starts to come back: from where the path was handed over, or else from its last
/// vertex.
pub open spec fn end_of(ps: PathState) -> int {
    if ps.splitting_depth == NONE {
        ps.depth as int
    } else {
        ps.splitting_depth as int
    }
}

/// The light that leaves vertex `i` of a path, before its style is applied: what it gives off, its
/// direct light and what arrives from below. Where the path was handed over, one light more was
/// sampled than rays were followed, and both are averaged.
pub open spec fn leaving_light(
    config: Config,
    vs: Seq<Vertex>,
    ps: PathState,
    i: int,
    style: Style,
    a: Axis,
) -> real {
    let v = vs[ps.vertex_idx + i];
    let below = vs[ps.vertex_idx + i + 1];
    let n = ps.n_final_gathered as int as real;
    light(v.le, style, a) + (if i == ps.splitting_depth {
        light(v.direct, style, a) / (n + 1real) + light(v.indirect, style, a) / n
    } else {
        light(v.direct, style, a) + (if i < end_of(ps) {
            light(below.throughput, style, a) * light(
                carried_back(config, vs, ps, i + 1),
                style,
                a,
            ) * amount(below.mis, style)
        } else {
            0real
        })
    })
}

/// The light that a path brings back to a vertex is the light that leaves it: in the style of its
/// surface, unless styled light was learned, or it is the first vertex and that is not to be styled.
pub proof fn law_light_is_brought_back(
    config: Config,
    vs: Seq<Vertex>,
    ps: PathState,
    i: int,
    style: Style,
    axis: Axis,
)
    requires
        0 <= i <= end_of(ps),
    ensures
        ({
            let v = vs[ps.vertex_idx + i];
            let got = light(carried_back(config, vs, ps, i), style, axis);
            let leaving = |a: Axis| leaving_light(config, vs, ps, i, style, a);
            got == (if config.learn_stylized_radiance || (i == 0
                && config.no_first_hit_stylization) {
                leaving(axis)
            } else {
                restyled(style, styling_of(v, i as u32, v.flags), leaving, axis)
            })
        }),
{
    let v = vs[ps.vertex_idx + i];
    let below = vs[ps.vertex_idx + i + 1];
    let n = Scalar::Count(ps.n_final_gathered);
    let sum = if i >= last_of(ps) {
        unstyled(vs, ps, i, Color::zero(), Color::zero(), Scalar::one())
    } else {
        unstyled(
            vs,
            ps,
            i,
            carried_back(config, vs, ps, i + 1),
            below.throughput,
            below.mis,
        )
    };
    let leaving = |a: Axis| leaving_light(config, vs, ps, i, style, a);
    assert forall|a: Axis| #[trigger] light(sum, style, a) == leaving(a) by {
        lemma_constants(style, a);
        reveal_with_fuel(light, 4);
        reveal_with_fuel(amount, 3);
        assert(amount(n.plus(Scalar::one()), style) == ps.n_final_gathered as int as real + 1real);
        assert(0real * 0real * 1real == 0real) by (nonlinear_arith);
    }
    lemma_styled(sum, styling_of(v, i as u32, v.flags), leaving, style, axis);
    assert(light(sum, style, axis) == leaving(axis));
    assert(carried_back(config, vs, ps, i) == styled(config, vs, ps, i, sum));
}

/// Where the first vertex gives off more light, the film is given as much more, before styling.
pub proof fn law_first_vertex_shows_its_light(
    config: Config,
    vs: Seq<Vertex>,
    brighter: Vertex,
    ps: PathState,
    style: Style,
    axis: Axis,
)
    requires
        ps.valid,
        ps.depth > 0 || ps.splitting_depth != NONE,
        ps.vertex_idx + end_of(ps) < vs.len(),
        brighter == (Vertex { le: brighter.le, ..vs[ps.vertex_idx as int] }),
    ensures
        ({
            let other = vs.update(ps.vertex_idx as int, brighter);
            let (a, b) = (splat_sample(config, vs, ps), splat_sample(config, other, ps));
            let more = light(brighter.le, style, axis) - light(
                vs[ps.vertex_idx as int].le,
                style,
                axis,
            );
            &&& a is Some && b is Some
            &&& leaving_light(config, other, ps, 0, style, axis) == leaving_light(
                config,
                vs,
                ps,
                0,
                style,
                axis,
            ) + more
            &&& config.learn_stylized_radiance || config.no_first_hit_stylization ==> light(
                b->0.color,
                style,
                axis,
            ) == light(a->0.color, style, axis) + more
        }),
{
    let other = vs.update(ps.vertex_idx as int, brighter);
    if 0 < last_of(ps) {
        lemma_below(config, vs, other, ps, 1);
    }
    law_light_is_brought_back(config, vs, ps, 0, style, axis);
    law_light_is_brought_back(config, other, ps, 0, style, axis);
}

/// What is brought back to a vertex depends on it and those below it alone.
proof fn lemma_below(
    config: Config,
    vs: Seq<Vertex>,
    other: Seq<Vertex>,
    ps: PathState,
    i: int,
)
    requires
        0 <= i <= last_of(ps),
        forall|j: int|
            ps.vertex_idx + i <= j <= ps.vertex_idx + last_of(ps) ==> #[trigger] vs[j] == other[j],
    ensures
        carried_back(config, vs, ps, i) == carried_back(config, other, ps, i),
    decreases last_of(ps) - i,
{
    assert(vs[ps.vertex_idx + i] == other[ps.vertex_idx + i]);
    if i < last_of(ps) {
        assert(vs[ps.vertex_idx + i + 1] == other[ps.vertex_idx + i + 1]);
        lemma_below(config, vs, other, ps, i + 1);
    }
}

/// The light that leaves the last vertex of a path is what the network says of it, in the style of
/// its surface unless styled light was learned. A path that shows it directly gives it to the film,
/// without style where the first vertex is not to be styled. Elsewhere it adds to what the vertex
/// above receives: times what scattering lets through and its weight.
pub proof fn law_answers_arrive(
    config: Config,
    state: RenderState,
    ps: PathState,
    style: Style,
    axis: Axis,
)
    requires
        ps.valid,
        ps.depth != ps.splitting_depth,
        ps.splitting_depth != NONE || ps.n_final_gathered == 0,
    ensures
        ({
            let v = state.vertex_buffer@[ps.vertex_idx + ps.depth];
            let prev = state.vertex_buffer@[ps.vertex_idx + ps.depth - 1];
            let said = |a: Axis| said_light(state.inference_outputs@, v, a);
            let leaving = if config.learn_stylized_radiance {
                said(axis)
            } else {
                restyled(style, styling_of(v, ps.depth, v.flags), said, axis)
            };
            let lit = lit_spec(config, state, ps);
            let direct_view = ps.depth == 0 && ps.splitting_depth == NONE;
            &&& asks(ps)
            &&& direct_view ==> {
                let r = answer_sample(config, state, ps);
                &&& r is Some
                &&& light(r->0.color, style, axis) == (if config.no_first_hit_stylization {
                    said(axis)
                } else {
                    leaving
                })
            }
            &&& !direct_view ==> answer_sample(config, state, ps) is None
            &&& light(lit.indirect, style, axis) == light(prev.indirect, style, axis) + leaving
                * light(v.throughput, style, axis) * amount(v.mis, style)
            &&& lit == (Vertex { indirect: lit.indirect, ..prev })
        }),
{
    let v = state.vertex_buffer@[ps.vertex_idx + ps.depth];
    let said = |a: Axis| said_light(state.inference_outputs@, v, a);
    let c = Color::Rgb(answer(state.inference_outputs@, v.nrc_idx));
    assert forall|a: Axis| #[trigger] light(c, style, a) == said(a) by {}
    lemma_styled(c, styling_of(v, ps.depth, v.flags), said, style, axis);
    assert(light(c, style, axis) == said(axis));
    let d = c.stylize(ps.depth, v.hit, v.wo, v.flags);
    assert(light(d.remove_nan(), style, axis) == light(d, style, axis));
    reveal_with_fuel(light, 4);
}

/// A path that is traced for the film brings back, at each of its vertices, what arrives from the
/// next one as scattering lets it through, the light that the vertex gives off with its weight, and
/// its direct light.
pub proof fn law_traced_light_is_brought_back(
    vs: Seq<Vertex>,
    start: int,
    depth: int,
    i: int,
    style: Style,
    axis: Axis,
)
    requires
        i <= depth,
    ensures
        ({
            let v = vs[start + i];
            light(brought_back(vs, start, depth, i), style, axis) == light(v.le, style, axis)
                * amount(v.w_le, style) + light(v.direct, style, axis) + (if i < depth {
                light(brought_back(vs, start, depth, i + 1), style, axis) * light(
                    vs[start + i + 1].throughput,
                    style,
                    axis,
                )
            } else {
                0real
            })
        }),
{
    lemma_constants(style, axis);
    reveal_with_fuel(light, 4);
    assert(0real * 1real == 0real) by (nonlinear_arith);
    assert(light(own_light(vs[start + i]), style, axis) == light(vs[start + i].le, style, axis)
        * amount(vs[start + i].w_le, style) + light(vs[start + i].direct, style, axis));
}

/// A vertex that a path comes to has the light that its surface gives off, with the weight that it
/// has against the lights that were sampled at the vertex before, and above the last depth the light
/// of a light that was sampled and is not hidden. It looks back along the ray, and has what the
/// vertex before scatters along it.
pub proof fn law_traced_vertices_have_their_light(
    walk: Walk,
    max_trace_depth: u32,
    probe: WalkProbe,
    style: Style,
    axis: Axis,
)
    requires
        weighs(probe.light_sample, probe.eval),
    ensures
        ({
            let v = vertex_spec(walk, max_trace_depth, probe);
            let (b, l) = (single_worth(walk.prev_bsdf_pdf), single_worth(probe.light.pdf));
            let w = if walk.depth == 0 {
                1real
            } else {
                b / (b + l)
            };
            &&& light(v.le, style, axis) == (if probe.light.valid {
                single_worth(component(probe.light.le, axis))
            } else {
                0real
            })
            &&& amount(v.w_le, style) == (if probe.light.valid {
                w
            } else {
                0real
            })
            &&& amount(v.mis, style) == (if probe.light.valid {
                w
            } else {
                1real
            })
            &&& light(v.direct, style, axis) == (if walk.depth < max_trace_depth
                && !probe.occluded {
                scattered_light(
                    probe.si,
                    (walk.depth + 1) as u32,
                    probe.new_flags,
                    probe.light_sample,
                    probe.eval,
                    style,
                    axis,
                )
            } else {
                0real
            })
            &&& light(v.indirect, style, axis) == 0real
            &&& light(v.albedo, style, axis) == single_worth(component(probe.look.albedo, axis))
                + single_worth(component(probe.look.emission, axis))
            &&& v.roughness == probe.look.roughness
            &&& v.throughput == walk.throughput
            &&& v.wo == walk.ray.d.neg()
            &&& v.hit == probe.si.hit()
            &&& v.flags == walk.flags
            &&& v.new_flags == probe.new_flags
        }),
{
    lemma_constants(style, axis);
    law_light_of_a_surface(probe.light, walk.depth, walk.prev_bsdf_pdf, style, axis);
    law_sampled_light_is_scattered(
        probe.si,
        (walk.depth + 1) as u32,
        probe.new_flags,
        probe.light_sample,
        probe.eval,
        style,
        axis,
    );
    law_albedo(probe.look, style, axis);
}

/// A path goes on along the direction that was sampled, from where that ray starts. What comes back
/// along it is multiplied with what the surface scatters, over the density of the direction.
pub proof fn law_paths_go_on(
    walk: Walk,
    max_trace_depth: u32,
    is_inference: bool,
    probe: WalkProbe,
    style: Style,
    axis: Axis,
)
    requires
        is_number(probe.sample.pdf),
        goes_on(walk, max_trace_depth, is_inference, probe),
    ensures
        ({
            let next = step_spec(walk, max_trace_depth, is_inference, probe);
            &&& units(probe.sample.pdf) > 0
            &&& light(next.throughput, style, axis) * single_worth(probe.sample.pdf)
                == single_worth(component(probe.sample.color, axis))
            &&& next.depth == walk.depth + 1
            &&& next.ray.o == probe.sample.origin
            &&& next.ray.d == probe.sample.wi
            &&& next.ray.exclude0.x == probe.si.inst_id
            &&& next.ray.exclude0.y == probe.si.prim_id
            &&& next.prev_bsdf_pdf == probe.sample.pdf
            &&& next.prev_p == probe.si.p
            &&& next.prev_ng == probe.si.ng
            &&& next.flags == probe.new_flags
            &&& next.state.depth == walk.depth
            &&& next.state.splitting_depth == walk.state.splitting_depth
        }),
{
    law_sign_of_bits(probe.sample.pdf);
    law_throughput(probe.sample.color, probe.sample.pdf, style, axis);
}

/// Following one more ray adds the light of one more sampled light to the vertex where the path was
/// handed over, unless it is hidden. The vertex that the ray leads to looks back along it, and has
/// what is scattered along it, over its density, and the weight of its own light.
pub proof fn law_further_rays_add_light(
    v: Vertex,
    splitting_depth: u32,
    probe: GatherProbe,
    style: Style,
    axis: Axis,
)
    requires
        splitting_depth < u32::MAX,
        weighs(probe.light_sample, probe.eval),
        is_number(probe.sample.pdf),
    ensures
        ({
            let relit = relit_spec(v, splitting_depth, probe);
            let next = gathered_vertex_spec(splitting_depth, probe);
            let (b, l) = (single_worth(probe.sample.pdf), single_worth(probe.light.pdf));
            &&& light(relit.direct, style, axis) == light(v.direct, style, axis) + (
            if probe.occluded {
                0real
            } else {
                scattered_light(
                    probe.si,
                    (splitting_depth + 1) as u32,
                    probe.new_flags,
                    probe.light_sample,
                    probe.eval,
                    style,
                    axis,
                )
            })
            &&& relit == (Vertex { direct: relit.direct, ..v })
            &&& gather_hits(probe) <==> units(probe.sample.pdf) > 0 && probe.new_si.valid
            &&& gather_hits(probe) ==> light(next.throughput, style, axis) * b == single_worth(
                component(probe.sample.color, axis),
            )
            &&& amount(next.mis, style) == (if probe.light.valid {
                b / (b + l)
            } else {
                1real
            })
            &&& light(next.albedo, style, axis) == single_worth(component(probe.look.albedo, axis))
                + single_worth(component(probe.look.emission, axis))
            &&& next.roughness == probe.look.roughness
            &&& next.wo == probe.sample.wi.neg()
            &&& next.hit == probe.new_si.hit()
            &&& next.flags == probe.new_flags
            &&& next.new_flags == probe.next_flags
        }),
{
    law_sampled_light_is_scattered(
        probe.si,
        (splitting_depth + 1) as u32,
        probe.new_flags,
        probe.light_sample,
        probe.eval,
        style,
        axis,
    );
    law_light_of_a_surface(
        probe.light,
        (splitting_depth + 1) as u32,
        probe.sample.pdf,
        style,
        axis,
    );
    law_albedo(probe.look, style, axis);
    law_sign_of_bits(probe.sample.pdf);
    if units(probe.sample.pdf) > 0 {
        law_throughput(probe.sample.color, probe.sample.pdf, style, axis);
    }
    reveal_with_fuel(light, 2);
}

/// One where something holds, and zero elsewhere.
pub open spec fn indicator(holds: bool) -> real {
    if holds {
        1real
    } else {
        0real
    }
}

/// The inputs of the network say where a vertex lies in the box, from zero to one along each axis;
/// where its normal and its direction point, taken from `-1 .. 1` to `0 .. 1`; how rough the surface
/// is and what it reflects; whether it is styled and in which of the styles; and its depth.
pub proof fn law_inputs_describe_the_vertex(
    aabb: (Float3, Float3),
    max_depth: u32,
    v: Vertex,
    si: SurfaceInteraction,
    depth: u32,
    style: Style,
    axis: Axis,
)
    ensures
        ({
            let row = features_of(aabb, max_depth, v, si, depth);
            let input = |i: int| amount(row[i], style);
            let (low, high) = (
                single_worth(component(aabb.0, axis)),
                single_worth(component(aabb.1, axis)),
            );
            &&& row.len() == FEATURES + max_depth + 1
            &&& low != high ==> input(place(axis)) * (high - low) == single_worth(
                component(si.p, axis),
            ) - low
            &&& 2real * input(3 + place(axis)) - 1real == single_worth(component(si.ns, axis))
            &&& 2real * input(6 + place(axis)) - 1real == single_worth(component(v.wo, axis))
            &&& input(9) == single_worth(v.roughness)
            &&& input(10 + place(axis)) == light(v.albedo, style, axis)
            &&& input(13) == indicator(v.new_flags.stylization_disabled)
            &&& input(14) == indicator(!v.new_flags.stylization_disabled)
            &&& forall|i: int|
                0 <= i < 4 ==> #[trigger] input(15 + i) == indicator(i == v.new_flags.style_index)
            &&& forall|d: int|
                0 <= d <= max_depth ==> #[trigger] input(19 + d) == indicator(d == depth)
        }),
{
    let row = features_of(aabb, max_depth, v, si, depth);
    lemma_constants(style, axis);
    law_half();
    let p = component(si.p, axis);
    lemma_normalized(p, component(aabb.0, axis), component(aabb.1, axis), style);
    lemma_halved(component(si.ns, axis), style);
    lemma_halved(component(v.wo, axis), style);
    reveal_with_fuel(amount, 2);
    assert(row[place(axis)] == normalized(p, component(aabb.0, axis), component(aabb.1, axis)));
    assert(row[3 + place(axis)] == halved(component(si.ns, axis)));
    assert(row[6 + place(axis)] == halved(component(v.wo, axis)));
    assert(row[10 + place(axis)] == v.albedo.channel(axis));
}

proof fn lemma_normalized(p: Single, low: Single, high: Single, style: Style)
    ensures
        single_worth(low) != single_worth(high) ==> amount(normalized(p, low, high), style) * (
        single_worth(high) - single_worth(low)) == single_worth(p) - single_worth(low),
{
    reveal_with_fuel(amount, 3);
    let (x, d) = (single_worth(p) - single_worth(low), single_worth(high) - single_worth(low));
    if d != 0real {
        assert(x / d * d == x) by (nonlinear_arith)
            requires
                d != 0real,
        ;
    }
}

proof fn lemma_halved(x: Single, style: Style)
    ensures
        2real * amount(halved(x), style) - 1real == single_worth(x),
{
    law_half();
    reveal_with_fuel(amount, 3);
    let w = single_worth(x);
    let h = 1real / 2real;
    assert(2real * (w * h + h) - 1real == w) by (nonlinear_arith)
        requires
            h == 1real / 2real,
    ;
}

/// A row lies before the next one, and does not reach into it.
proof fn lemma_rows(a: int, b: int, dim: int, i: int, j: int)
    requires
        0 <= a,
        0 <= b,
        0 <= i < dim,
        0 <= j < dim,
        a * dim + i == b * dim + j,
    ensures
        a == b && i == j,
{
    if a < b {
        assert(a * dim + dim <= b * dim) by (nonlinear_arith)
            requires
                a + 1 <= b,
                dim > 0,
        ;
    }
    if b < a {
        assert(b * dim + dim <= a * dim) by (nonlinear_arith)
            requires
                b + 1 <= a,
                dim > 0,
        ;
    }
}

proof fn lemma_row_in(a: int, n: int, dim: int, i: int)
    requires
        0 <= a < n,
        0 <= i < dim,
    ensures
        0 <= a * dim,
        a * dim + i < n * dim,
{
    assert(0 <= a * dim && a * dim + dim <= n * dim) by (nonlinear_arith)
        requires
            0 <= a,
            a + 1 <= n,
            dim > 0,
    ;
}

/// Every vertex of a path that is entered has a number of its own, and the row of that number has
/// its inputs. No other row changes.
pub proof fn law_vertices_are_asked_about(
    aabb: (Float3, Float3),
    max_depth: u32,
    buf: Seq<Scalar>,
    vs: Seq<Vertex>,
    ps: PathState,
    start: u32,
    counter: u32,
    sis: Seq<SurfaceInteraction>,
    n: nat,
)
    requires
        start + n <= u32::MAX,
        (counter + n) * (FEATURES + max_depth + 1) <= buf.len(),
        counter + n <= u32::MAX,
        ps.vertex_idx + start + n <= vs.len(),
    ensures
        ({
            let after = entered(aabb, max_depth, buf, vs, ps, start, counter, sis, n);
            let dim = FEATURES + max_depth + 1;
            &&& after.len() == buf.len()
            &&& forall|m: int, j: int|
                0 <= m < n && 0 <= j < dim ==> #[trigger] after[(counter + m) * dim + j]
                    == features_of(
                    aabb,
                    max_depth,
                    vs[ps.vertex_idx + start + m],
                    sis[start + m],
                    (start + m) as u32,
                )[j]
            &&& forall|i: int|
                0 <= i < buf.len() && !(counter * dim <= i < (counter + n) * dim)
                    ==> #[trigger] after[i] == buf[i]
            &&& forall|m: int|
                0 <= m < n ==> (#[trigger] numbered(
                    vs,
                    ps,
                    start,
                    counter,
                    n as int,
                )[ps.vertex_idx + start + m]).nrc_idx == counter + m
        }),
    decreases n,
{
    let dim = FEATURES + max_depth + 1;
    let after = entered(aabb, max_depth, buf, vs, ps, start, counter, sis, n);
    if n > 0 {
        let k = (n - 1) as nat;
        lemma_total_rows(counter as int, k as int, dim as int);
        law_vertices_are_asked_about(aabb, max_depth, buf, vs, ps, start, counter, sis, k);
        let before = entered(aabb, max_depth, buf, vs, ps, start, counter, sis, k);
        let at = (counter + n - 1) * (max_depth + 1 + FEATURES);
        assert(at == (counter + k) * dim);
        assert forall|m: int, j: int| 0 <= m < n && 0 <= j < dim implies #[trigger] after[(counter
            + m) * dim + j] == features_of(
            aabb,
            max_depth,
            vs[ps.vertex_idx + start + m],
            sis[start + m],
            (start + m) as u32,
        )[j] by {
            lemma_row_in(counter + m, counter + n as int, dim as int, j);
            if m < k {
                if at <= (counter + m) * dim + j < at + dim {
                    let i = (counter + m) * dim + j - at;
                    lemma_rows(counter + m, (counter + k) as int, dim as int, j, i);
                }
                assert(after[(counter + m) * dim + j] == before[(counter + m) * dim + j]);
            }
        }
        assert forall|i: int|
            0 <= i < buf.len() && !(counter * dim <= i < (counter + n) * dim) implies #[trigger] after[i]
            == buf[i] by {
            assert(before[i] == buf[i]);
        }
    }
}

/// `n` rows more end where the next one starts.
proof fn lemma_total_rows(counter: int, k: int, dim: int)
    requires
        counter >= 0,
        k >= 0,
        dim > 0,
    ensures
        counter * dim <= (counter + k) * dim,
        (counter + k) * dim + dim == (counter + k + 1) * dim,
{
    assert(counter * dim <= (counter + k) * dim && (counter + k) * dim + dim == (counter + k + 1)
        * dim) by (nonlinear_arith)
        requires
            counter >= 0,
            k >= 0,
            dim > 0,
    ;
}

/// Every vertex of a path whose light is finite is taught: its row of the targets has the
/// components of the light that leaves it, beside its inputs in the same row of the inputs. A vertex
/// whose light is not finite leaves its row as it was, and no other row changes.
pub proof fn law_vertices_are_taught(
    learn_stylized: bool,
    aabb: (Float3, Float3),
    max_depth: u32,
    inputs: Seq<Scalar>,
    targets: Seq<Scalar>,
    vs: Seq<Vertex>,
    outputs: Seq<Single>,
    ps: PathState,
    start: u32,
    counter: u32,
    sis: Seq<SurfaceInteraction>,
    finite: Seq<bool>,
    n: nat,
    style: Style,
)
    requires
        start + n <= u32::MAX,
        counter + n <= u32::MAX,
        (counter + n) * (FEATURES + max_depth + 1) <= inputs.len(),
        (counter + n) * 3 <= targets.len(),
    ensures
        ({
            let after = taught(
                learn_stylized,
                aabb,
                max_depth,
                inputs,
                targets,
                vs,
                outputs,
                ps,
                start,
                counter,
                sis,
                finite,
                n,
            );
            let dim = FEATURES + max_depth + 1;
            &&& after.0.len() == inputs.len()
            &&& after.1.len() == targets.len()
            &&& forall|m: int, a: Axis|
                0 <= m < n && finite[start + m] ==> amount(
                    #[trigger] after.1[(counter + m) * 3 + place(a)],
                    style,
                ) == light(
                    exitant_spec(learn_stylized, vs, outputs, ps, (start + m) as u32),
                    style,
                    a,
                )
            &&& forall|m: int, j: int|
                0 <= m < n && finite[start + m] && 0 <= j < dim ==> #[trigger] after.0[(counter + m)
                    * dim + j] == features_of(
                    aabb,
                    max_depth,
                    vs[ps.vertex_idx + start + m],
                    sis[start + m],
                    (start + m) as u32,
                )[j]
            &&& forall|m: int, j: int|
                0 <= m < n && !finite[start + m] && 0 <= j < 3 ==> #[trigger] after.1[(counter + m)
                    * 3 + j] == targets[(counter + m) * 3 + j]
            &&& forall|m: int, j: int|
                0 <= m < n && !finite[start + m] && 0 <= j < dim ==> #[trigger] after.0[(counter
                    + m) * dim + j] == inputs[(counter + m) * dim + j]
            &&& forall|i: int|
                0 <= i < targets.len() && !(counter * 3 <= i < (counter + n) * 3)
                    ==> #[trigger] after.1[i] == targets[i]
            &&& forall|i: int|
                0 <= i < inputs.len() && !(counter * dim <= i < (counter + n) * dim)
                    ==> #[trigger] after.0[i] == inputs[i]
        }),
    decreases n,
{
    let dim = (FEATURES + max_depth + 1) as int;
    let after = taught(
        learn_stylized,
        aabb,
        max_depth,
        inputs,
        targets,
        vs,
        outputs,
        ps,
        start,
        counter,
        sis,
        finite,
        n,
    );
    if n > 0 {
        let k = (n - 1) as nat;
        lemma_total_rows(counter as int, k as int, dim);
        law_vertices_are_taught(
            learn_stylized,
            aabb,
            max_depth,
            inputs,
            targets,
            vs,
            outputs,
            ps,
            start,
            counter,
            sis,
            finite,
            k,
            style,
        );
        let before = taught(
            learn_stylized,
            aabb,
            max_depth,
            inputs,
            targets,
            vs,
            outputs,
            ps,
            start,
            counter,
            sis,
            finite,
            k,
        );
        let d = (start + k) as u32;
        let at = (counter + n - 1) * (max_depth + 1 + FEATURES);
        assert(at == (counter + k) * dim);
        let c = exitant_spec(learn_stylized, vs, outputs, ps, d);
        assert forall|m: int, a: Axis| 0 <= m < n && finite[start + m] implies amount(
            #[trigger] after.1[(counter + m) * 3 + place(a)],
            style,
        ) == light(
            exitant_spec(learn_stylized, vs, outputs, ps, (start + m) as u32),
            style,
            a,
        ) by {
            if m < k {
                assert(after.1[(counter + m) * 3 + place(a)] == before.1[(counter + m) * 3 + place(
                    a,
                )]);
            } else {
                assert(target(c)[place(a)] == c.channel(a));
                assert(after.1[(counter + m) * 3 + place(a)] == c.channel(a));
            }
        }
        assert forall|m: int, j: int|
            0 <= m < n && !finite[start + m] && 0 <= j < 3 implies #[trigger] after.1[(counter + m)
            * 3 + j] == targets[(counter + m) * 3 + j] by {
            if m < k {
                assert(after.1[(counter + m) * 3 + j] == before.1[(counter + m) * 3 + j]);
            } else {
                assert(before.1[(counter + m) * 3 + j] == targets[(counter + m) * 3 + j]);
            }
        }
        assert forall|m: int, j: int| 0 <= m < n && 0 <= j < dim implies {
            let now = #[trigger] after.0[(counter + m) * dim + j];
            if finite[start + m] {
                now == features_of(
                    aabb,
                    max_depth,
                    vs[ps.vertex_idx + start + m],
                    sis[start + m],
                    (start + m) as u32,
                )[j]
            } else {
                now == inputs[(counter + m) * dim + j]
            }
        } by {
            lemma_row_in(counter + m, counter + n as int, dim, j);
            if m < k {
                if at <= (counter + m) * dim + j < at + dim {
                    let i = (counter + m) * dim + j - at;
                    lemma_rows(counter + m, (counter + k) as int, dim, j, i);
                }
                assert(after.0[(counter + m) * dim + j] == before.0[(counter + m) * dim + j]);
            } else if !finite[start + m] {
                assert(before.0[(counter + m) * dim + j] == inputs[(counter + m) * dim + j]);
            }
        }
        assert forall|i: int|
            0 <= i < targets.len() && !(counter * 3 <= i < (counter + n) * 3) implies #[trigger] after.1[i]
            == targets[i] by {
            assert(before.1[i] == targets[i]);
        }
        assert forall|i: int|
            0 <= i < inputs.len() && !(counter * dim <= i < (counter + n) * dim) implies #[trigger] after.0[i]
            == inputs[i] by {
            assert(before.0[i] == inputs[i]);
        }
    }
}

/// The network is asked about the last vertex of every path that met a surface, but not where the
/// last ray from where it was handed over met nothing, nor again where the path was never handed
/// over. Every ray of a path that was handed over counts, whatever it met; and so does the one
/// answer of a path that was not.
pub proof fn law_rays_are_counted(
    config: Config,
    ps: PathState,
    rounds: Seq<GatherRound>,
    k: nat,
)
    requires
        ps.n_final_gathered == 0,
        k <= rounds.len() <= u32::MAX,
    ensures
        ({
            let after = path_after(ps, rounds, k);
            &&& ps.valid && ps.splitting_depth != NONE ==> after.n_final_gathered == k
            &&& ps.valid && ps.splitting_depth == NONE ==> after.n_final_gathered == (if k == 0 {
                0int
            } else {
                1
            })
            &&& asks(ps) <==> {
                &&& ps.valid
                &&& ps.splitting_depth != NONE || ps.n_final_gathered == 0
                &&& ps.depth != ps.splitting_depth
            }
        }),
{
    lemma_rounds(config, ps, rounds, k);
}

/// A path goes on, or is handed over, or ends: it is handed over at a surface above the last depth
/// that is rougher than the limit, where the image is made and not the network trained; it goes on
/// from other surfaces above the last depth where a direction with a density above zero was sampled.
pub proof fn law_where_paths_are_handed_over(
    walk: Walk,
    max_trace_depth: u32,
    is_inference: bool,
    probe: WalkProbe,
)
    requires
        is_number(probe.sample.pdf),
        is_number(probe.look.roughness),
    ensures
        ({
            let next = step_spec(walk, max_trace_depth, is_inference, probe).state;
            let rough = units(probe.look.roughness) > units(
                Single { bits: SPLITTING_ROUGHNESS_BITS },
            );
            let over = is_inference && walk.depth < max_trace_depth && rough;
            &&& goes_on(walk, max_trace_depth, is_inference, probe) <==> {
                &&& probe.si.valid
                &&& walk.depth < max_trace_depth
                &&& !over
                &&& units(probe.sample.pdf) > 0
            }
            &&& probe.si.valid ==> {
                &&& next.valid
                &&& next.depth == walk.depth
                &&& next.splitting_depth == (if over {
                    walk.depth
                } else {
                    walk.state.splitting_depth
                })
            }
            &&& !probe.si.valid ==> next == walk.state
            &&& next.px == walk.state.px
            &&& next.vertex_idx == walk.state.vertex_idx
        }),
{
    law_sign_of_bits(probe.sample.pdf);
    law_limits_compare(probe.look.roughness, Single { bits: SPLITTING_ROUGHNESS_BITS });
}

/// A further ray takes the path one vertex below where it was handed over where it meets a surface,
/// and elsewhere back to that vertex. A path that was not handed over stays as it is.
pub proof fn law_where_further_rays_lead(ps: PathState, probe: GatherProbe)
    requires
        is_number(probe.sample.pdf),
    ensures
        ({
            let next = regathered(ps, probe);
            &&& ps.valid && ps.splitting_depth < NONE ==> next.depth == ps.splitting_depth + (
            if units(probe.sample.pdf) > 0 && probe.new_si.valid {
                1int
            } else {
                0
            })
            &&& !ps.valid || ps.splitting_depth == NONE ==> next == ps
            &&& next == (PathState { depth: next.depth, ..ps })
        }),
{
    law_sign_of_bits(probe.sample.pdf);
}

/// A path that met a surface gives the film one sample when it is brought back, at its pixel and
/// with weight one, unless it showed the network's answer for its first vertex.
pub proof fn law_brought_light_goes_to_the_film(config: Config, vs: Seq<Vertex>, ps: PathState)
    ensures
        ({
            let r = splat_sample(config, vs, ps);
            &&& r is Some <==> ps.valid && (ps.depth > 0 || ps.splitting_depth != NONE)
            &&& r matches Some(s) ==> {
                &&& s.px == ps.px
                &&& s.weight == Single::one()
                &&& s.color == carried_back(config, vs, ps, 0)
            }
        }),
{
}

/// What scattering lets through from vertex `i` of a path to its first one.
pub open spec fn let_through(vs: Seq<Vertex>, start: int, i: int, style: Style, axis: Axis) -> real
    decreases i,
{
    if i <= 0 {
        1real
    } else {
        let_through(vs, start, i - 1, style, axis) * light(vs[start + i].throughput, style, axis)
    }
}

/// What each vertex of a path adds to the light that the path brings to the camera: the light that
/// it gives off with its weight and its direct light, as far as scattering lets it through.
pub open spec fn vertex_shares(
    vs: Seq<Vertex>,
    start: int,
    depth: int,
    style: Style,
    axis: Axis,
) -> Seq<real> {
    Seq::new(
        (depth + 1) as nat,
        |i: int|
            (light(vs[start + i].le, style, axis) * amount(vs[start + i].w_le, style) + light(
                vs[start + i].direct,
                style,
                axis,
            )) * let_through(vs, start, i, style, axis),
    )
}

/// A path that is traced for the film brings the sum of what its vertices add: all of them, and
/// each as far as scattering lets it through on the way to the camera.
pub proof fn law_a_path_adds_up_its_vertices(
    vs: Seq<Vertex>,
    start: int,
    depth: int,
    style: Style,
    axis: Axis,
)
    requires
        0 <= depth,
    ensures
        light(brought_back(vs, start, depth, 0), style, axis) == total(
            vertex_shares(vs, start, depth, style, axis),
        ),
{
    let shares = vertex_shares(vs, start, depth, style, axis);
    lemma_path_sum(vs, start, depth, 0, style, axis);
    assert(shares.take(0) =~= Seq::<real>::empty());
    let x = light(brought_back(vs, start, depth, 0), style, axis);
    assert(x * 1real == x) by (nonlinear_arith);
}

proof fn lemma_path_sum(
    vs: Seq<Vertex>,
    start: int,
    depth: int,
    i: int,
    style: Style,
    axis: Axis,
)
    requires
        0 <= i <= depth,
    ensures
        total(vertex_shares(vs, start, depth, style, axis)) == total(
            vertex_shares(vs, start, depth, style, axis).take(i),
        ) + light(brought_back(vs, start, depth, i), style, axis) * let_through(
            vs,
            start,
            i,
            style,
            axis,
        ),
    decreases depth - i,
{
    let shares = vertex_shares(vs, start, depth, style, axis);
    law_traced_light_is_brought_back(vs, start, depth, i, style, axis);
    assert(shares.take(i + 1).drop_last() =~= shares.take(i));
    let own = light(vs[start + i].le, style, axis) * amount(vs[start + i].w_le, style) + light(
        vs[start + i].direct,
        style,
        axis,
    );
    let t = let_through(vs, start, i, style, axis);
    assert(total(shares.take(i + 1)) == total(shares.take(i)) + own * t);
    if i < depth {
        lemma_path_sum(vs, start, depth, i + 1, style, axis);
        let b = light(brought_back(vs, start, depth, i + 1), style, axis);
        let q = light(vs[start + i + 1].throughput, style, axis);
        assert((own + b * q) * t == own * t + b * (t * q)) by (nonlinear_arith);
    } else {
        assert(shares.take(i + 1) =~= shares);
        assert((own + 0real) * t == own * t) by (nonlinear_arith);
    }
}

/// Tracing a path for the film gives it one sample where it met a surface: at its pixel, with weight
/// one, and with the light that all its vertices add up to. Elsewhere nothing is given.
pub proof fn law_traced_light_goes_to_the_film(
    start: Walk,
    before: RenderState,
    max_trace_depth: u32,
    is_inference: bool,
    run_radiance_check: bool,
    tid: u32,
    probes: Seq<WalkProbe>,
    k: nat,
    after: RenderState,
    r: Option<FilmSample>,
    style: Style,
    axis: Axis,
)
    requires
        tid < before.path_state_buf@.len(),
        trace_result(
            start,
            before,
            max_trace_depth,
            is_inference,
            run_radiance_check,
            tid,
            probes,
            k,
            after,
            r,
        ),
    ensures
        ({
            let ps = after.path_state_buf@[tid as int];
            &&& r is Some <==> run_radiance_check && ps.valid
            &&& r matches Some(s) ==> {
                &&& s.px == ps.px
                &&& s.weight == Single::one()
                &&& light(s.color, style, axis) == total(
                    vertex_shares(
                        after.vertex_buffer@,
                        ps.vertex_idx as int,
                        ps.depth as int,
                        style,
                        axis,
                    ),
                )
            }
            &&& forall|i: int|
                0 <= i < before.path_state_buf@.len() && i != tid
                    ==> #[trigger] after.path_state_buf@[i] == before.path_state_buf@[i]
        }),
{
    let ps = after.path_state_buf@[tid as int];
    law_a_path_adds_up_its_vertices(
        after.vertex_buffer@,
        ps.vertex_idx as int,
        ps.depth as int,
        style,
        axis,
    );
}

/// The vertices of a path lie in its slab in the order of their depths, each where its depth says,
/// and nothing else is touched.
pub proof fn law_vertices_are_stored_by_depth(
    walk: Walk,
    vs: Seq<Vertex>,
    max_trace_depth: u32,
    is_inference: bool,
    probes: Seq<WalkProbe>,
    k: nat,
)
    requires
        walk.depth == 0,
        0 < k <= probes.len(),
        k <= u32::MAX,
        walk.state.vertex_idx + k <= vs.len(),
        forall|j: int|
            0 <= j < k - 1 ==> goes_on(
                (#[trigger] walk_upto(
                    walk,
                    vs,
                    max_trace_depth,
                    is_inference,
                    probes,
                    j as nat,
                )).0,
                max_trace_depth,
                is_inference,
                probes[j],
            ),
    ensures
        ({
            let at = walk.state.vertex_idx as int;
            let end = walk_upto(walk, vs, max_trace_depth, is_inference, probes, k);
            &&& end.1.len() == vs.len()
            &&& walk_upto(
                walk,
                vs,
                max_trace_depth,
                is_inference,
                probes,
                (k - 1) as nat,
            ).0.depth == k - 1
            &&& forall|j: int|
                0 <= j < k && (#[trigger] probes[j]).si.valid ==> end.1[at + j] == vertex_spec(
                    walk_upto(walk, vs, max_trace_depth, is_inference, probes, j as nat).0,
                    max_trace_depth,
                    probes[j],
                )
            &&& forall|i: int|
                0 <= i < vs.len() && !(at <= i < at + k) ==> #[trigger] end.1[i] == vs[i]
            &&& end.0.state.vertex_idx == at
        }),
    decreases k,
{
    let at = walk.state.vertex_idx as int;
    let m = (k - 1) as nat;
    let before = walk_upto(walk, vs, max_trace_depth, is_inference, probes, m);
    let end = walk_upto(walk, vs, max_trace_depth, is_inference, probes, k);
    if m > 0 {
        law_vertices_are_stored_by_depth(
            walk,
            vs,
            max_trace_depth,
            is_inference,
            probes,
            m,
        );
        let prior = walk_upto(walk, vs, max_trace_depth, is_inference, probes, (m - 1) as nat);
        assert(goes_on(prior.0, max_trace_depth, is_inference, probes[m - 1]));
        assert(before.0.depth == prior.0.depth + 1);
    } else {
        assert(before.0 == walk && before.1 == vs);
    }
    assert forall|j: int| 0 <= j < k && (#[trigger] probes[j]).si.valid implies end.1[at + j]
        == vertex_spec(
        walk_upto(walk, vs, max_trace_depth, is_inference, probes, j as nat).0,
        max_trace_depth,
        probes[j],
    ) by {
        if j < m {
            assert(before.1[at + j] == end.1[at + j]);
        }
    }
}

/// A path starts at the camera: at its pixel and in its slab, having met nothing.
pub proof fn law_paths_start_at_the_camera(
    max_depth: u32,
    tid: u32,
    px_idx: u32,
    width: u32,
    height: u32,
    ray: Ray,
)
    requires
        width > 0,
        px_idx < width * height,
        tid * (max_depth + 1) <= u32::MAX,
    ensures
        ({
            let walk = start_spec(max_depth, tid, px_idx, width, ray);
            &&& walk.ray == ray
            &&& walk.depth == 0
            &&& walk.state.px.x < width && walk.state.px.y < height
            &&& walk.state.px.y * width + walk.state.px.x == px_idx
            &&& walk.state.vertex_idx == tid * (max_depth + 1)
            &&& walk.state.splitting_depth == NONE
            &&& walk.state.n_final_gathered == 0
            &&& walk.state.depth == 0
            &&& !walk.state.valid
            &&& !walk.flags.stylization_disabled
            &&& walk.flags.style_index == 0
        }),
{
    assert(tid * (max_depth + 1) >= 0) by (nonlinear_arith);
    law_pixel_numbering(px_idx, width, height);
}

/// A buffer has a row for each vertex of each path, and no more: one path more takes as many rows
/// more as it can have vertices.
pub proof fn law_each_path_takes_its_rows(config: Config, paths: int, dims: int)
    ensures
        rows_of(config, 0, dims) == 0,
        rows_of(config, paths + 1, dims) - rows_of(config, paths, dims) == dims * (config.max_depth
            + 1),
{
    let m = config.max_depth + 1;
    assert((paths + 1) * dims * m - paths * dims * m == dims * m) by (nonlinear_arith);
    assert(0 * dims * m == 0) by (nonlinear_arith);
}

/// An answer adds to the light that the vertex above the last one receives, where that is finite so
/// far, and changes nothing else. It changes nothing where the path shows it directly, and nothing
/// where the network was not asked.
pub proof fn law_answers_change_the_vertex_above(
    config: Config,
    state: RenderState,
    ps: PathState,
    indirect_finite: bool,
    style: Style,
    axis: Axis,
)
    requires
        0 <= ps.vertex_idx + ps.depth - 1,
        ps.vertex_idx + ps.depth < state.vertex_buffer@.len(),
    ensures
        ({
            let vs = state.vertex_buffer@;
            let at = ps.vertex_idx + ps.depth - 1;
            let after = lit_vertices(config, state, ps, indirect_finite);
            let v = vs[at + 1];
            let said = |a: Axis| said_light(state.inference_outputs@, v, a);
            let leaving = if config.learn_stylized_radiance {
                said(axis)
            } else {
                restyled(style, styling_of(v, ps.depth, v.flags), said, axis)
            };
            let taken = ps.valid && ps.depth != ps.splitting_depth && (if ps.splitting_depth
                == NONE {
                ps.n_final_gathered == 0 && ps.depth > 0
            } else {
                true
            }) && indirect_finite;
            &&& after.len() == vs.len()
            &&& forall|i: int| 0 <= i < vs.len() && i != at ==> #[trigger] after[i] == vs[i]
            &&& light(after[at].indirect, style, axis) == light(vs[at].indirect, style, axis) + (
            if taken {
                leaving * light(v.throughput, style, axis) * amount(v.mis, style)
            } else {
                0real
            })
            &&& after[at] == (Vertex { indirect: after[at].indirect, ..vs[at] })
        }),
{
    if asks(ps) {
        law_answers_arrive(config, state, ps, style, axis);
    }
}

/// One more ray changes the vertex from which it is followed in its direct light alone, puts the
/// vertex that it leads to behind it, and leaves all others as they are.
pub proof fn law_further_rays_change_two_vertices(
    vs: Seq<Vertex>,
    at: int,
    splitting_depth: u32,
    probe: GatherProbe,
)
    requires
        0 <= at,
        at + 1 < vs.len(),
        is_number(probe.sample.pdf),
    ensures
        ({
            let after = regathered_vertices(vs, at, splitting_depth, probe);
            let hits = units(probe.sample.pdf) > 0 && probe.new_si.valid;
            &&& after.len() == vs.len()
            &&& after[at] == relit_spec(vs[at], splitting_depth, probe)
            &&& after[at] == (Vertex { direct: after[at].direct, ..vs[at] })
            &&& hits ==> after[at + 1] == gathered_vertex_spec(splitting_depth, probe)
            &&& !hits ==> after[at + 1] == vs[at + 1]
            &&& forall|i: int|
                0 <= i < vs.len() && i != at && i != at + 1 ==> #[trigger] after[i] == vs[i]
        }),
{
    law_sign_of_bits(probe.sample.pdf);
}

} // verus!
