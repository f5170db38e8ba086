//! What light a vertex has, in exact arithmetic: what it finds when it is advanced, what comes back
//! to it from its branches, and how the bias of styling a mean is taken out.
use super::advance::{
    advance_spec, child_spec, children, direct_of, direct_sum, direct_table, first_vertex_spec,
    goes_on, head_of, inner_count, lemma_child, BranchSample, SurfaceProbe,
};
use super::propagate::{
    carried_all, debiased, draw_chance, estimate, fail_chance, film_sample, indirect_table,
    jackknife_term, outgoing, siblings, telescope_term, with_radiance,
};
use super::render::{factor, per_pass, reach, reach_sum, total_spec};
use super::{vertex_ok, Config, DebiasConfig, Vertex, BRANCHING_ROUGHNESS_BITS};
use crate::exact::{is_number, law_sign_of_bits, power, single_worth, units};
use crate::expr::{sum_from, Axis, Color, Scalar};
use crate::lighting::SurfaceInteraction;
use crate::radiance::{
    amount, component, law_direct_light, law_light_of_a_surface,
    law_sampled_light_is_styled_at_its_source, lemma_constants, lemma_positive_worth,
    lemma_power_amount, lemma_styled, lemma_sum_light, lemma_total_add, lemma_total_same,
    lemma_total_scaled, light, lights, restyled, total, Style, Styling,
};
use crate::value::{Float3, Single, SurfaceHit, NONE};
use vstd::arithmetic::div_mod::{lemma_fundamental_div_mod, lemma_mod_bound};
use vstd::prelude::*;

verus! {

/// Where the light of a vertex is styled.
pub open spec fn styling_of(v: Vertex, path_depth: u32) -> Styling {
    Styling { path_depth, hit: v.hit, wo: v.wo, flags: v.flags }
}

/// What a vertex carries to the one that it branched from: its light, times what scattering lets
/// through, times its weight.
pub open spec fn carried_light(v: Vertex, style: Style, axis: Axis) -> real {
    light(v.throughput, style, axis) * light(v.radiance, style, axis) * amount(v.mis, style)
}

/// What the vertices of a list carry, one by one.
pub open spec fn carried_lights(vs: Seq<Vertex>, list: Seq<u32>, style: Style, axis: Axis) -> Seq<
    real,
> {
    Seq::new(list.len(), |i: int| carried_light(vs[list[i] as int], style, axis))
}

/// Without debiasing, the light that is styled at a vertex is its own and the mean of what its
/// samples brought: the sum of what its branches carry, over the number of its samples. Samples
/// that led nowhere count as dark.
pub proof fn law_branches_are_averaged(
    config: Config,
    vs: Seq<Vertex>,
    directs: Seq<Color>,
    vertex_id: u32,
    path_depth: u32,
    style: Style,
    axis: Axis,
)
    requires
        config.debias is None,
        vertex_id < vs.len(),
        vs[vertex_id as int].n_inner_samples > 0,
    ensures
        ({
            let v = vs[vertex_id as int];
            let list = siblings(vs, v.indirect_vertex);
            let n = v.n_inner_samples as int as real;
            let arriving = |a: Axis|
                light(v.radiance, style, a) + total(carried_lights(vs, list, style, a)) / n;
            light(outgoing(config, vs, directs, vertex_id, path_depth), style, axis) == restyled(
                style,
                styling_of(v, path_depth),
                arriving,
                axis,
            )
        }),
{
    let v = vs[vertex_id as int];
    let list = siblings(vs, v.indirect_vertex);
    let n = v.n_inner_samples as int as real;
    let sum = sum_from(Color::zero(), carried_all(vs, list));
    let mean = sum.scale(Scalar::one().over(Scalar::Count(v.n_inner_samples)));
    assert forall|a: Axis| #[trigger] light(v.radiance.plus(mean), style, a) == light(
        v.radiance,
        style,
        a,
    ) + total(carried_lights(vs, list, style, a)) / n by {
        lemma_constants(style, a);
        lemma_sum_light(Color::zero(), carried_all(vs, list), style, a);
        reveal_with_fuel(light, 4);
        reveal_with_fuel(amount, 3);
        assert(lights(carried_all(vs, list), style, a) =~= carried_lights(vs, list, style, a));
        let t = total(carried_lights(vs, list, style, a));
        assert(t * (1real / n) == t / n) by (nonlinear_arith)
            requires
                n > 0real,
        ;
    }
    let arriving = |a: Axis|
        light(v.radiance, style, a) + total(carried_lights(vs, list, style, a)) / n;
    lemma_styled(v.radiance.plus(mean), styling_of(v, path_depth), arriving, style, axis);
}

/// Where every sample of a vertex leads to a branch, and all branches carry the same light, the
/// vertex receives that light, however many samples it took.
pub proof fn law_equal_branches_bring_their_light(
    config: Config,
    vs: Seq<Vertex>,
    directs: Seq<Color>,
    vertex_id: u32,
    path_depth: u32,
    l: spec_fn(Axis) -> real,
    style: Style,
    axis: Axis,
)
    requires
        config.debias is None,
        vertex_id < vs.len(),
        vs[vertex_id as int].n_inner_samples > 0,
        siblings(vs, vs[vertex_id as int].indirect_vertex).len()
            == vs[vertex_id as int].n_inner_samples,
        forall|i: int, a: Axis|
            0 <= i < siblings(vs, vs[vertex_id as int].indirect_vertex).len()
                ==> #[trigger] carried_light(
                vs[siblings(vs, vs[vertex_id as int].indirect_vertex)[i] as int],
                style,
                a,
            ) == l(a),
    ensures
        ({
            let v = vs[vertex_id as int];
            light(outgoing(config, vs, directs, vertex_id, path_depth), style, axis) == restyled(
                style,
                styling_of(v, path_depth),
                |a: Axis| light(v.radiance, style, a) + l(a),
                axis,
            )
        }),
{
    law_branches_are_averaged(config, vs, directs, vertex_id, path_depth, style, axis);
    let v = vs[vertex_id as int];
    let list = siblings(vs, v.indirect_vertex);
    let n = v.n_inner_samples as int as real;
    assert forall|a: Axis| #[trigger] total(carried_lights(vs, list, style, a)) / n == l(a) by {
        let s = carried_lights(vs, list, style, a);
        lemma_total_same(s, l(a));
        let x = l(a);
        assert((n * x) / n == x) by (nonlinear_arith)
            requires
                n > 0real,
        ;
    }
    assert(total(carried_lights(vs, list, style, Axis::X)) / n == l(Axis::X));
    assert(total(carried_lights(vs, list, style, Axis::Y)) / n == l(Axis::Y));
    assert(total(carried_lights(vs, list, style, Axis::Z)) / n == l(Axis::Z));
}

/// What the branch of sample `j` carries; nothing where it led nowhere.
pub open spec fn brought(
    vs: Seq<Vertex>,
    list: Seq<u32>,
    j: int,
    style: Style,
    axis: Axis,
) -> real {
    total(
        Seq::new(
            list.len(),
            |i: int|
                if vs[list[i] as int].indirect_branch_idx == j {
                    carried_light(vs[list[i] as int], style, axis)
                } else {
                    0real
                },
        ),
    )
}

/// What each sample of a vertex brought: its direct light, and what its branch carries.
pub open spec fn sample_lights(
    vs: Seq<Vertex>,
    directs: Seq<Color>,
    v: Vertex,
    style: Style,
    axis: Axis,
) -> Seq<real> {
    Seq::new(
        v.n_inner_samples as nat,
        |j: int|
            light(directs[v.debias_radiance_idx + j], style, axis) + brought(
                vs,
                siblings(vs, v.indirect_vertex),
                j,
                style,
                axis,
            ),
    )
}

/// The style of a vertex, applied to its own light and the mean over `n` of what samples brought.
pub open spec fn styled_mean(
    v: Vertex,
    path_depth: u32,
    brought: spec_fn(Axis) -> Seq<real>,
    n: int,
    style: Style,
    axis: Axis,
) -> real {
    restyled(
        style,
        styling_of(v, path_depth),
        |a: Axis| total(brought(a)) / (n as real) + light(v.radiance, style, a),
        axis,
    )
}

proof fn lemma_estimate(
    v: Vertex,
    path_depth: u32,
    ds: Seq<Color>,
    is: Seq<Color>,
    n: u32,
    xs: spec_fn(Axis) -> Seq<real>,
    style: Style,
    axis: Axis,
)
    requires
        ds.len() == is.len(),
        forall|a: Axis| (#[trigger] xs(a)).len() == ds.len(),
        forall|a: Axis, j: int|
            0 <= j < ds.len() ==> #[trigger] xs(a)[j] == light(ds[j], style, a) + light(
                is[j],
                style,
                a,
            ),
    ensures
        light(estimate(v, path_depth, ds, is, n), style, axis) == styled_mean(
            v,
            path_depth,
            xs,
            n as int,
            style,
            axis,
        ),
{
    let mean = sum_from(Color::zero(), ds).plus(sum_from(Color::zero(), is)).over(Scalar::Count(n));
    let f = |a: Axis| total(xs(a)) / (n as int as real) + light(v.radiance, style, a);
    assert forall|a: Axis| #[trigger] light(mean.plus(v.radiance), style, a) == f(a) by {
        lemma_constants(style, a);
        lemma_sum_light(Color::zero(), ds, style, a);
        lemma_sum_light(Color::zero(), is, style, a);
        lemma_total_add(lights(ds, style, a), lights(is, style, a), xs(a));
        reveal_with_fuel(light, 4);
        reveal_with_fuel(amount, 2);
    }
    lemma_styled(mean.plus(v.radiance), styling_of(v, path_depth), f, style, axis);
}

/// Along a list, sample numbers go down.
proof fn lemma_list_descends(vs: Seq<Vertex>, samples: nat, head: u32)
    requires
        vs.len() <= NONE,
        forall|i: int| 0 <= i < vs.len() ==> #[trigger] vertex_ok(vs, samples, i),
    ensures
        ({
            let list = siblings(vs, head);
            &&& forall|i: int| 0 <= i < list.len() ==> (#[trigger] list[i]) < vs.len()
            &&& head < vs.len() ==> list.len() > 0 && list[0] == head
            &&& forall|i: int, k: int|
                0 <= i < k < list.len() ==> vs[(#[trigger] list[i]) as int].indirect_branch_idx
                    > vs[(#[trigger] list[k]) as int].indirect_branch_idx
        }),
    decreases head,
{
    if head < vs.len() {
        assert(vertex_ok(vs, samples, head as int));
        let s = vs[head as int].slibing;
        if s < head {
            lemma_list_descends(vs, samples, s);
            let (list, rest) = (siblings(vs, head), siblings(vs, s));
            assert(list =~= seq![head] + rest);
            assert forall|i: int, k: int| 0 <= i < k < list.len() implies vs[(
            #[trigger] list[i]) as int].indirect_branch_idx > vs[(
            #[trigger] list[k]) as int].indirect_branch_idx by {
                assert(list[k] == rest[k - 1]);
                if i > 0 {
                    assert(list[i] == rest[i - 1]);
                } else if k > 1 {
                    assert(vs[rest[0] as int].indirect_branch_idx
                        > vs[rest[k - 1] as int].indirect_branch_idx);
                }
            }
        }
    }
}

/// The table of branches has what each sample's branch carries.
proof fn lemma_table_light(
    vs: Seq<Vertex>,
    list: Seq<u32>,
    n: nat,
    j: int,
    style: Style,
    axis: Axis,
)
    requires
        0 <= j < n,
        forall|i: int|
            0 <= i < list.len() ==> vs[(#[trigger] list[i]) as int].indirect_branch_idx < n,
        forall|i: int, k: int|
            0 <= i < k < list.len() ==> vs[(#[trigger] list[i]) as int].indirect_branch_idx > vs[(
            #[trigger] list[k]) as int].indirect_branch_idx,
    ensures
        indirect_table(vs, list, n).len() == n,
        light(indirect_table(vs, list, n)[j], style, axis) == brought(vs, list, j, style, axis),
    decreases list.len(),
{
    let parts = Seq::new(
        list.len(),
        |i: int|
            if vs[list[i] as int].indirect_branch_idx == j {
                carried_light(vs[list[i] as int], style, axis)
            } else {
                0real
            },
    );
    if list.len() == 0 {
        lemma_constants(style, axis);
    } else {
        let rest = list.drop_last();
        let c = vs[list.last() as int];
        lemma_table_light(vs, rest, n, j, style, axis);
        let before = Seq::new(
            rest.len(),
            |i: int|
                if vs[rest[i] as int].indirect_branch_idx == j {
                    carried_light(vs[rest[i] as int], style, axis)
                } else {
                    0real
                },
        );
        assert(parts.drop_last() =~= before);
        if c.indirect_branch_idx == j {
            assert forall|i: int| 0 <= i < before.len() implies #[trigger] before[i] == 0real by {
                assert(rest[i] == list[i]);
                assert(vs[list[i] as int].indirect_branch_idx > vs[list[list.len()
                    - 1] as int].indirect_branch_idx);
            }
            lemma_total_same(before, 0real);
            assert(before.len() as int as real * 0real == 0real) by (nonlinear_arith);
            reveal_with_fuel(light, 3);
        }
    }
}

/// A vertex whose bias is taken out, as far as the laws ask it.
pub open spec fn is_debiased(
    vs: Seq<Vertex>,
    directs: Seq<Color>,
    vertex_id: u32,
    debias: DebiasConfig,
) -> bool {
    let v = vs[vertex_id as int];
    &&& vs.len() <= NONE
    &&& forall|i: int| 0 <= i < vs.len() ==> #[trigger] vertex_ok(vs, directs.len(), i)
    &&& vertex_id < vs.len()
    &&& v.debias_radiance_idx != NONE
    &&& 0real < single_worth(debias.r) < 1real
}

/// What the samples of a vertex brought agrees with the tables that estimates are made from.
proof fn lemma_samples(
    vs: Seq<Vertex>,
    directs: Seq<Color>,
    vertex_id: u32,
    style: Style,
    a: Axis,
)
    requires
        vs.len() <= NONE,
        forall|i: int| 0 <= i < vs.len() ==> #[trigger] vertex_ok(vs, directs.len(), i),
        vertex_id < vs.len(),
        vs[vertex_id as int].debias_radiance_idx != NONE,
    ensures
        ({
            let v = vs[vertex_id as int];
            let n = v.n_inner_samples;
            let start = v.debias_radiance_idx as int;
            let ds = directs.subrange(start, start + n);
            let is = indirect_table(vs, siblings(vs, v.indirect_vertex), n as nat);
            let xs = sample_lights(vs, directs, v, style, a);
            &&& ds.len() == n
            &&& is.len() == n
            &&& xs.len() == n
            &&& forall|j: int|
                0 <= j < n ==> #[trigger] xs[j] == light(ds[j], style, a) + light(is[j], style, a)
        }),
{
    let v = vs[vertex_id as int];
    let n = v.n_inner_samples;
    let start = v.debias_radiance_idx as int;
    let list = siblings(vs, v.indirect_vertex);
    let ds = directs.subrange(start, start + n);
    let is = indirect_table(vs, list, n as nat);
    let xs = sample_lights(vs, directs, v, style, a);
    assert(vertex_ok(vs, directs.len(), vertex_id as int));
    lemma_list_descends(vs, directs.len(), v.indirect_vertex);
    assert forall|i: int| 0 <= i < list.len() implies vs[(
    #[trigger] list[i]) as int].indirect_branch_idx < n by {
        if i > 0 {
            assert(vs[list[0] as int].indirect_branch_idx
                > vs[list[i] as int].indirect_branch_idx);
        }
    }
    assert forall|j: int| 0 <= j < n implies #[trigger] xs[j] == light(ds[j], style, a) + light(
        is[j],
        style,
        a,
    ) by {
        lemma_table_light(vs, list, n as nat, j, style, a);
    }
    if n > 0 {
        lemma_table_light(vs, list, n as nat, 0, style, a);
    } else {
        assert(list.len() == 0);
    }
}

/// The mean of differences from one number.
proof fn lemma_differences(full: real, xs: Seq<real>, ts: Seq<real>, p: real)
    requires
        p > 0real,
        xs.len() == ts.len(),
        xs.len() > 0,
        forall|j: int|
            0 <= j < xs.len() ==> #[trigger] ts[j] == (full - xs[j]) / (xs.len() as int as real)
                / p,
    ensures
        total(ts) == (full - total(xs) / (xs.len() as int as real)) / p,
{
    let n = xs.len() as int as real;
    let ds = Seq::new(xs.len(), |j: int| full - xs[j]);
    let fs = Seq::new(xs.len(), |j: int| full);
    let k = 1real / n / p;
    assert(n > 0real);
    assert forall|j: int| 0 <= j < ds.len() implies #[trigger] ts[j] == ds[j] * k by {
        let d = full - xs[j];
        assert(d / n / p == d * (1real / n / p)) by (nonlinear_arith)
            requires
                n > 0real,
                p > 0real,
        ;
    }
    lemma_total_scaled(ds, ts, k);
    lemma_total_add(ds, xs, fs);
    lemma_total_same(fs, full);
    let t = total(xs);
    assert((n * full - t) * (1real / n / p) == (full - t / n) / p) by (nonlinear_arith)
        requires
            n > 0real,
            p > 0real,
    ;
}

/// With the jackknife, the light that leaves a vertex is the estimate from the samples that were
/// not drawn for debiasing, and how far the estimate from all samples is above the mean of the
/// estimates that leave one sample out, over the chance of having drawn as many samples: `r` times
/// `1 - r` for each but the last.
pub proof fn law_jackknife_takes_bias_out(
    config: Config,
    debias: DebiasConfig,
    vs: Seq<Vertex>,
    directs: Seq<Color>,
    vertex_id: u32,
    path_depth: u32,
    style: Style,
    axis: Axis,
)
    requires
        config.debias == Some(debias),
        debias.jackknife,
        is_debiased(vs, directs, vertex_id, debias),
        1 <= vs[vertex_id as int].debiasing_samples <= i32::MAX,
    ensures
        ({
            let v = vs[vertex_id as int];
            let (n, k) = (v.n_inner_samples as int, v.debiasing_samples as int);
            let r = single_worth(debias.r);
            let xs = |a: Axis| sample_lights(vs, directs, v, style, a);
            let first = styled_mean(
                v,
                path_depth,
                |a: Axis| xs(a).take(n - k),
                n - k,
                style,
                axis,
            );
            let full = styled_mean(v, path_depth, xs, n, style, axis);
            let without = Seq::new(
                n as nat,
                |j: int|
                    styled_mean(v, path_depth, |a: Axis| xs(a).remove(j), n - 1, style, axis),
            );
            light(outgoing(config, vs, directs, vertex_id, path_depth), style, axis) == first + (
            full - total(without) / (n as real)) / (r * power(1real - r, (k - 1) as nat))
        }),
{
    let v = vs[vertex_id as int];
    assert(vertex_ok(vs, directs.len(), vertex_id as int));
    let n = v.n_inner_samples;
    let k = v.debiasing_samples as int;
    let start = v.debias_radiance_idx as int;
    let ds = directs.subrange(start, start + n);
    let is = indirect_table(vs, siblings(vs, v.indirect_vertex), n as nat);
    let r = single_worth(debias.r);
    let xs = |a: Axis| sample_lights(vs, directs, v, style, a);
    assert forall|a: Axis| true implies {
        &&& ds.len() == n
        &&& is.len() == n
        &&& (#[trigger] xs(a)).len() == n
        &&& forall|j: int|
            0 <= j < n ==> #[trigger] xs(a)[j] == light(ds[j], style, a) + light(is[j], style, a)
    } by {
        lemma_samples(vs, directs, vertex_id, style, a);
    }
    assert(xs(Axis::X).len() == n);
    let base = n - k;
    let head = |a: Axis| xs(a).take(base);
    lemma_estimate(v, path_depth, ds.take(base), is.take(base), base as u32, head, style, axis);
    assert(ds.take(n as int) =~= ds);
    assert(is.take(n as int) =~= is);
    lemma_estimate(v, path_depth, ds, is, n, xs, style, axis);
    let p = r * power(1real - r, (k - 1) as nat);
    lemma_chance(debias, v, style);
    let terms = Seq::new(
        n as nat,
        |j: int| jackknife_term(debias, v, path_depth, ds, is, j),
    );
    let first = estimate(v, path_depth, ds.take(base), is.take(base), base as u32);
    let full = styled_mean(v, path_depth, xs, n as int, style, axis);
    let without = Seq::new(
        n as nat,
        |j: int| styled_mean(v, path_depth, |a: Axis| xs(a).remove(j), n - 1, style, axis),
    );
    assert forall|j: int| 0 <= j < n implies #[trigger] lights(terms, style, axis)[j] == (full
        - without[j]) / (n as int as real) / p by {
        let rest = |a: Axis| xs(a).remove(j);
        lemma_estimate(
            v,
            path_depth,
            ds.remove(j),
            is.remove(j),
            (n - 1) as u32,
            rest,
            style,
            axis,
        );
        reveal_with_fuel(light, 4);
        reveal_with_fuel(amount, 2);
    }
    lemma_sum_light(first, terms, style, axis);
    lemma_differences(full, without, lights(terms, style, axis), p);
    assert(debiased(debias, v, path_depth, ds, is) == sum_from(first, terms));
}

/// The chance of having drawn as many samples as a vertex did.
proof fn lemma_chance(debias: DebiasConfig, v: Vertex, style: Style)
    requires
        1 <= v.debiasing_samples <= i32::MAX,
        0real < single_worth(debias.r) < 1real,
    ensures
        ({
            let r = single_worth(debias.r);
            let p = r * power(1real - r, (v.debiasing_samples - 1) as nat);
            amount(draw_chance(debias, v), style) == p && p > 0real
        }),
{
    let r = single_worth(debias.r);
    let k = v.debiasing_samples;
    lemma_constants(style, Axis::X);
    assert((k as i32).wrapping_sub(1) == k - 1);
    reveal_with_fuel(amount, 4);
    assert(amount(fail_chance(debias), style) == 1real - r);
    let q = power(1real - r, (k - 1) as nat);
    lemma_power_above_zero(1real - r, (k - 1) as nat);
    assert(r * q > 0real) by (nonlinear_arith)
        requires
            r > 0real,
            q > 0real,
    ;
}

proof fn lemma_power_above_zero(x: real, n: nat)
    requires
        x > 0real,
    ensures
        power(x, n) > 0real,
    decreases n,
{
    if n > 0 {
        lemma_power_above_zero(x, (n - 1) as nat);
        let p = power(x, (n - 1) as nat);
        assert(p * x > 0real) by (nonlinear_arith)
            requires
                p > 0real,
                x > 0real,
        ;
    }
}

/// Without the jackknife, the light that leaves a vertex is the estimate from the samples that were
/// not drawn for debiasing, and for each further sample how much it changes the estimate, over the
/// chance of having drawn it: `1 - r` for each sample that was drawn before it.
pub proof fn law_telescoping_takes_bias_out(
    config: Config,
    debias: DebiasConfig,
    vs: Seq<Vertex>,
    directs: Seq<Color>,
    vertex_id: u32,
    path_depth: u32,
    style: Style,
    axis: Axis,
)
    requires
        config.debias == Some(debias),
        !debias.jackknife,
        is_debiased(vs, directs, vertex_id, debias),
    ensures
        ({
            let v = vs[vertex_id as int];
            let (n, k) = (v.n_inner_samples as int, v.debiasing_samples as int);
            let r = single_worth(debias.r);
            let xs = |a: Axis| sample_lights(vs, directs, v, style, a);
            let of_first = |m: int|
                styled_mean(v, path_depth, |a: Axis| xs(a).take(m), m, style, axis);
            light(outgoing(config, vs, directs, vertex_id, path_depth), style, axis) == of_first(
                n - k,
            ) + total(
                Seq::new(
                    k as nat,
                    |j: int|
                        (of_first(n - k + j + 1) - of_first(n - k + j)) / power(
                            1real - r,
                            j as nat,
                        ),
                ),
            )
        }),
{
    let v = vs[vertex_id as int];
    assert(vertex_ok(vs, directs.len(), vertex_id as int));
    let n = v.n_inner_samples;
    let k = v.debiasing_samples as int;
    let start = v.debias_radiance_idx as int;
    let ds = directs.subrange(start, start + n);
    let is = indirect_table(vs, siblings(vs, v.indirect_vertex), n as nat);
    let r = single_worth(debias.r);
    let xs = |a: Axis| sample_lights(vs, directs, v, style, a);
    assert forall|a: Axis| true implies {
        &&& ds.len() == n
        &&& is.len() == n
        &&& (#[trigger] xs(a)).len() == n
        &&& forall|j: int|
            0 <= j < n ==> #[trigger] xs(a)[j] == light(ds[j], style, a) + light(is[j], style, a)
    } by {
        lemma_samples(vs, directs, vertex_id, style, a);
    }
    assert(xs(Axis::X).len() == n);
    let base = n - k;
    let of_first = |m: int| styled_mean(v, path_depth, |a: Axis| xs(a).take(m), m, style, axis);
    let first = |m: int| estimate(v, path_depth, ds.take(m), is.take(m), m as u32);
    assert forall|m: int| 0 <= m <= n implies light(#[trigger] first(m), style, axis) == of_first(
        m,
    ) by {
        let head = |a: Axis| xs(a).take(m);
        lemma_estimate(v, path_depth, ds.take(m), is.take(m), m as u32, head, style, axis);
    }
    let terms = Seq::new(k as nat, |j: int| telescope_term(debias, v, path_depth, ds, is, j));
    let parts = Seq::new(
        k as nat,
        |j: int| (of_first(base + j + 1) - of_first(base + j)) / power(1real - r, j as nat),
    );
    lemma_constants(style, axis);
    assert forall|j: int| 0 <= j < k implies #[trigger] lights(terms, style, axis)[j]
        == parts[j] by {
        lemma_power_amount(fail_chance(debias), j as nat, style);
        reveal_with_fuel(light, 3);
        reveal_with_fuel(amount, 3);
        assert(light(first(base + j + 1), style, axis) == of_first(base + j + 1));
        assert(light(first(base + j), style, axis) == of_first(base + j));
    }
    assert(lights(terms, style, axis) =~= parts);
    lemma_sum_light(first(base), terms, style, axis);
    assert(light(first(base), style, axis) == of_first(base));
    assert(debiased(debias, v, path_depth, ds, is) == sum_from(first(base), terms));
}

/// At a vertex that took no samples for debiasing, the vertex's own light is styled.
pub proof fn law_last_vertices_show_their_own_light(
    config: Config,
    vs: Seq<Vertex>,
    directs: Seq<Color>,
    vertex_id: u32,
    path_depth: u32,
    style: Style,
    axis: Axis,
)
    requires
        config.debias is Some,
        vertex_id < vs.len(),
        vs[vertex_id as int].debias_radiance_idx == NONE,
    ensures
        ({
            let v = vs[vertex_id as int];
            light(outgoing(config, vs, directs, vertex_id, path_depth), style, axis) == restyled(
                style,
                styling_of(v, path_depth),
                |a: Axis| light(v.radiance, style, a),
                axis,
            )
        }),
{
    let v = vs[vertex_id as int];
    lemma_styled(
        v.radiance,
        styling_of(v, path_depth),
        |a: Axis| light(v.radiance, style, a),
        style,
        axis,
    );
}

/// The light that a sample finds at a light that nothing hides, as the surface of the light sends
/// it and the surface of the vertex scatters it: over both densities with which its direction could
/// have been found.
pub open spec fn sampled_light(
    probe: SurfaceProbe,
    path_depth: u32,
    s: BranchSample,
    style: Style,
    axis: Axis,
) -> real {
    let at = Styling {
        path_depth: (path_depth + 1) as u32,
        hit: SurfaceHit {
            inst_id: s.light.si.inst_id,
            prim_id: s.light.si.prim_id,
            bary: s.light.si.bary,
        },
        wo: s.light.wi.neg(),
        flags: probe.new_flags,
    };
    let sent = |a: Axis| single_worth(component(s.light.li, a));
    let arriving = if probe.si.valid {
        restyled(style, at, sent, axis)
    } else {
        sent(axis)
    };
    if s.occluded || !s.light.valid {
        0real
    } else {
        arriving * single_worth(component(s.eval.f, axis)) / (single_worth(s.light.pdf)
            + single_worth(s.eval.pdf))
    }
}

/// A light was sampled with a density above zero, and scattering has no density below zero.
pub open spec fn can_weigh(s: BranchSample) -> bool {
    s.light.valid ==> single_worth(s.light.pdf) > 0real && single_worth(s.eval.pdf) >= 0real
}

proof fn lemma_direct_of(
    probe: SurfaceProbe,
    path_depth: u32,
    s: BranchSample,
    style: Style,
    axis: Axis,
)
    requires
        can_weigh(s),
    ensures
        !s.occluded ==> light(direct_of(probe, path_depth, s), style, axis) == sampled_light(
            probe,
            path_depth,
            s,
            style,
            axis,
        ),
{
    let depth = (path_depth + 1) as u32;
    law_sampled_light_is_styled_at_its_source(
        probe.si,
        depth,
        probe.new_flags,
        s.light,
        style,
        axis,
    );
    law_direct_light(
        crate::lighting::sample_light_spec(probe.si, depth, probe.new_flags, s.light),
        s.eval,
        style,
        axis,
    );
}

proof fn lemma_direct_sum(
    init: Color,
    probe: SurfaceProbe,
    path_depth: u32,
    samples: Seq<BranchSample>,
    n: u32,
    k: nat,
    style: Style,
    axis: Axis,
)
    requires
        n > 0,
        k <= samples.len(),
        forall|i: int| 0 <= i < samples.len() ==> can_weigh(#[trigger] samples[i]),
    ensures
        light(direct_sum(init, probe, path_depth, samples, n, k), style, axis) == light(
            init,
            style,
            axis,
        ) + total(Seq::new(k, |i: int| sampled_light(probe, path_depth, samples[i], style, axis)))
            / (n as int as real),
    decreases k,
{
    let d = n as int as real;
    if k == 0 {
        assert(0real / d == 0real) by (nonlinear_arith)
            requires
                d > 0real,
        ;
    } else {
        lemma_direct_sum(init, probe, path_depth, samples, n, (k - 1) as nat, style, axis);
        lemma_direct_of(probe, path_depth, samples[k - 1], style, axis);
        lemma_constants(style, axis);
        let before = Seq::new((k - 1) as nat, |i: int| sampled_light(probe, path_depth, samples[i], style, axis));
        let all = Seq::new(k, |i: int| sampled_light(probe, path_depth, samples[i], style, axis));
        assert(all.drop_last() =~= before);
        let (t, x) = (total(before), sampled_light(probe, path_depth, samples[k - 1], style, axis));
        assert(x * (1real / d) == x / d && t / d + x / d == (t + x) / d) by (nonlinear_arith)
            requires
                d > 0real,
        ;
        let prior = direct_sum(init, probe, path_depth, samples, n, (k - 1) as nat);
        let c = direct_of(probe, path_depth, samples[k - 1]);
        let share = Scalar::one().over(Scalar::Count(n));
        assert(amount(share, style) == amount(Scalar::one(), style) / amount(
            Scalar::Count(n),
            style,
        ));
        assert(amount(share, style) == 1real / d);
        assert(light(c.scale(share), style, axis) == light(c, style, axis) * amount(share, style));
        assert(light(prior.plus(c.scale(share)), style, axis) == light(prior, style, axis) + light(
            c.scale(share),
            style,
            axis,
        ));
        assert(total(all) == t + x);
    }
}

/// A vertex that is advanced has the light that its surface gives off. Above the last depth it also
/// has the mean of the light that its samples found; with debiasing that stands in the table
/// instead, sample by sample. It counts in full for the vertex before it unless it lies on a light
/// that could have been sampled there. It takes one sample where the surface is smooth, and
/// elsewhere as many as its branching depth has, and those drawn for debiasing.
pub proof fn law_advanced_vertices_have_their_light(
    config: Config,
    table: Seq<u32>,
    vertices: nat,
    directs: nat,
    v: Vertex,
    vertex_id: u32,
    path_depth: u32,
    probe: SurfaceProbe,
    draw: u32,
    samples: Seq<BranchSample>,
    style: Style,
    axis: Axis,
)
    requires
        path_depth < u32::MAX,
        1 <= inner_count(config, table, v, probe.roughness, draw) <= u32::MAX,
        path_depth < config.max_depth ==> samples.len() == inner_count(
            config,
            table,
            v,
            probe.roughness,
            draw,
        ),
        forall|i: int| 0 <= i < samples.len() ==> can_weigh(#[trigger] samples[i]),
    ensures
        ({
            let done = advance_spec(
                config,
                table,
                vertices,
                directs,
                v,
                vertex_id,
                path_depth,
                probe,
                draw,
                samples,
            );
            let own = if probe.light.valid {
                single_worth(component(probe.light.le, axis))
            } else {
                0real
            };
            let n = done.vertex.n_inner_samples;
            let found = Seq::new(
                n as nat,
                |i: int| sampled_light(probe, path_depth, samples[i], style, axis),
            );
            let (b, l) = (single_worth(v.prev_bsdf_pdf), single_worth(probe.light.pdf));
            let rough = probe.roughness.exceeds(Single { bits: BRANCHING_ROUGHNESS_BITS });
            &&& n == (if rough {
                table[v.actual_branching_depths as int] + (if config.debias is Some {
                    draw as int
                } else {
                    0
                })
            } else {
                1
            })
            &&& light(done.vertex.radiance, style, axis) == own + (if path_depth < config.max_depth
                && config.debias is None {
                total(found) / (n as int as real)
            } else {
                0real
            })
            &&& path_depth < config.max_depth && config.debias is Some ==> {
                &&& lights(done.directs, style, axis) =~= found
                &&& done.vertex.debias_radiance_idx == directs as u32
            }
            &&& path_depth >= config.max_depth ==> done.children.len() == 0
            &&& amount(done.vertex.mis, style) == (if probe.light.valid && path_depth > 0 {
                b / (b + l)
            } else {
                1real
            })
            &&& done.vertex.hit == v.hit
            &&& done.vertex.wo == v.wo
            &&& done.vertex.flags == v.flags
            &&& done.vertex.throughput == v.throughput
        }),
{
    let n = inner_count(config, table, v, probe.roughness, draw) as u32;
    let le = Color::zero().plus(
        crate::lighting::surface_light_spec(probe.light, path_depth, v.prev_bsdf_pdf).0,
    );
    lemma_constants(style, axis);
    law_light_of_a_surface(probe.light, path_depth, v.prev_bsdf_pdf, style, axis);
    assert(light(le, style, axis) == 0real + light(
        crate::lighting::surface_light_spec(probe.light, path_depth, v.prev_bsdf_pdf).0,
        style,
        axis,
    ));
    if path_depth < config.max_depth {
        lemma_direct_sum(le, probe, path_depth, samples, n, n as nat, style, axis);
        let made = direct_table(probe, path_depth, samples, n as nat);
        assert forall|i: int| 0 <= i < n implies #[trigger] lights(made, style, axis)[i]
            == sampled_light(probe, path_depth, samples[i], style, axis) by {
            lemma_direct_of(probe, path_depth, samples[i], style, axis);
        }
    }
}

/// Every sample whose ray was scattered with a density above zero and met a surface leads to
/// exactly one branch, and every branch comes from such a sample. The branch lies where the ray
/// met the surface and looks back along it; what its light is multiplied with, times the density
/// of the direction, is what the surface scatters.
pub proof fn law_branches_follow_samples(
    probe: SurfaceProbe,
    vertex_id: u32,
    bd: u32,
    samples: Seq<BranchSample>,
    base: nat,
    style: Style,
    axis: Axis,
)
    requires
        samples.len() <= u32::MAX,
        base + samples.len() <= NONE,
        forall|i: int| 0 <= i < samples.len() ==> is_number((#[trigger] samples[i]).bs.pdf),
    ensures
        ({
            let made = children(probe, vertex_id, bd, samples, base, samples.len());
            let leads = |i: int| units(samples[i].bs.pdf) > 0 && samples[i].next_hit.valid;
            &&& forall|c: int|
                0 <= c < made.len() ==> {
                    let child = #[trigger] made[c];
                    let s = samples[child.indirect_branch_idx as int];
                    &&& child.indirect_branch_idx < samples.len()
                    &&& leads(child.indirect_branch_idx as int)
                    &&& light(child.throughput, style, axis) * single_worth(s.bs.pdf)
                        == single_worth(component(s.bs.color, axis))
                    &&& child.prev_bsdf_pdf == s.bs.pdf
                    &&& child.wo == s.bs.wi.neg()
                    &&& child.hit.inst_id == s.next_hit.inst_id
                    &&& child.hit.prim_id == s.next_hit.prim_id
                    &&& child.hit.bary == s.next_hit.bary
                    &&& child.flags == probe.new_flags
                    &&& child.prev_p == probe.si.p
                    &&& child.prev_ng == probe.si.ng
                    &&& child.parent == vertex_id
                    &&& child.actual_branching_depths == bd
                }
            &&& forall|i: int|
                0 <= i < samples.len() && #[trigger] leads(i) ==> exists|c: int|
                    0 <= c < made.len() && (#[trigger] made[c]).indirect_branch_idx == i
            &&& forall|c: int, d: int|
                0 <= c < d < made.len() ==> (#[trigger] made[c]).indirect_branch_idx < (
                #[trigger] made[d]).indirect_branch_idx
        }),
{
    let k = samples.len();
    let made = children(probe, vertex_id, bd, samples, base, k);
    let leads = |i: int| units(samples[i].bs.pdf) > 0 && samples[i].next_hit.valid;
    assert forall|i: int| 0 <= i < k implies #[trigger] goes_on(samples[i]) == leads(i) by {
        law_sign_of_bits(samples[i].bs.pdf);
    }
    assert forall|c: int| 0 <= c < made.len() implies {
        let child = #[trigger] made[c];
        let s = samples[child.indirect_branch_idx as int];
        &&& child.indirect_branch_idx < samples.len()
        &&& leads(child.indirect_branch_idx as int)
        &&& light(child.throughput, style, axis) * single_worth(s.bs.pdf) == single_worth(
            component(s.bs.color, axis),
        )
    } by {
        lemma_child(probe, vertex_id, bd, samples, base, k, c);
        let s = samples[made[c].indirect_branch_idx as int];
        assert(goes_on(s) == leads(made[c].indirect_branch_idx as int));
        lemma_positive_worth(s.bs.pdf);
        reveal_with_fuel(light, 2);
        reveal_with_fuel(amount, 2);
        let (x, p) = (single_worth(component(s.bs.color, axis)), single_worth(s.bs.pdf));
        assert(x / p * p == x) by (nonlinear_arith)
            requires
                p > 0real,
        ;
    }
    assert forall|c: int| 0 <= c < made.len() implies (#[trigger] made[c]) == child_spec(
        probe,
        vertex_id,
        bd,
        made[c].indirect_branch_idx,
        samples[made[c].indirect_branch_idx as int],
        head_of(base, c as nat),
    ) by {
        lemma_child(probe, vertex_id, bd, samples, base, k, c);
    }
    lemma_children_cover(probe, vertex_id, bd, samples, base, k);
    assert forall|i: int| 0 <= i < samples.len() && #[trigger] leads(i) implies exists|c: int|
        0 <= c < made.len() && (#[trigger] made[c]).indirect_branch_idx == i by {
        assert(goes_on(samples[i]));
    }
}

proof fn lemma_children_cover(
    probe: SurfaceProbe,
    vertex_id: u32,
    bd: u32,
    samples: Seq<BranchSample>,
    base: nat,
    k: nat,
)
    requires
        k <= samples.len() <= u32::MAX,
    ensures
        ({
            let made = children(probe, vertex_id, bd, samples, base, k);
            &&& forall|i: int|
                0 <= i < k && #[trigger] goes_on(samples[i]) ==> exists|c: int|
                    0 <= c < made.len() && (#[trigger] made[c]).indirect_branch_idx == i
            &&& forall|c: int, d: int|
                0 <= c < d < made.len() ==> (#[trigger] made[c]).indirect_branch_idx < (
                #[trigger] made[d]).indirect_branch_idx
            &&& forall|c: int| 0 <= c < made.len() ==> (#[trigger] made[c]).indirect_branch_idx < k
        }),
    decreases k,
{
    if k > 0 {
        lemma_children_cover(probe, vertex_id, bd, samples, base, (k - 1) as nat);
        let before = children(probe, vertex_id, bd, samples, base, (k - 1) as nat);
        let made = children(probe, vertex_id, bd, samples, base, k);
        assert forall|i: int| 0 <= i < k && #[trigger] goes_on(samples[i]) implies exists|c: int|
            0 <= c < made.len() && (#[trigger] made[c]).indirect_branch_idx == i by {
            if i == k - 1 {
                assert(made[before.len() as int].indirect_branch_idx == i);
            } else {
                let c = choose|c: int|
                    0 <= c < before.len() && (#[trigger] before[c]).indirect_branch_idx == i;
                assert(made[c] == before[c]);
            }
        }
    }
}

/// A pass has as many pixels as the memory holds: their vertices fit, and those of one pixel more
/// would not.
pub proof fn law_passes_fill_the_memory(config: Config, total: int, vertex_bytes: u32)
    requires
        total > 0,
        vertex_bytes > 0,
    ensures
        ({
            let n = per_pass(config, total, vertex_bytes);
            &&& n * (total * vertex_bytes) <= config.vram * 1048576
            &&& (n + 1) * (total * vertex_bytes) > config.vram * 1048576
        }),
{
    let m = total * vertex_bytes;
    let all = config.vram * 1024 * 1024;
    assert(m > 0) by (nonlinear_arith)
        requires
            m == total * vertex_bytes,
            total > 0,
            vertex_bytes > 0,
    ;
    let n = all / m;
    lemma_fundamental_div_mod(all, m);
    lemma_mod_bound(all, m);
    assert(n * m <= all && (n + 1) * m > all) by (nonlinear_arith)
        requires
            all == m * n + all % m,
            0 <= all % m < m,
    ;
}

/// The product of numbers.
pub open spec fn product(s: Seq<int>) -> int
    decreases s.len(),
{
    if s.len() == 0 {
        1
    } else {
        product(s.drop_last()) * s.last()
    }
}

/// The numbers of branches that are reckoned with at the first `k` depths: those of the list, one
/// where it ends, and the mean of the samples for debiasing.
pub open spec fn branchings(config: Config, mean: u32, k: nat) -> Seq<int> {
    Seq::new(
        k,
        |d: int|
            (if d < config.inner_samples.len() {
                config.inner_samples@[d] as int
            } else {
                1
            }) + (if config.debias is Some {
                mean as int
            } else {
                0
            }),
    )
}

/// Room is made for every vertex that a pixel can lead to where each branches as often as its depth
/// has branches, and for one vertex more at each depth and one besides. A path that goes one level
/// deeper needs as many vertices more as its branches multiply to, and one.
pub proof fn law_room_for_all_branches(config: Config, deeper: Config, mean: u32)
    requires
        deeper.max_depth == config.max_depth + 1,
        deeper.inner_samples@ == config.inner_samples@,
        deeper.inner_samples.len() == config.inner_samples.len(),
        deeper.debias is Some == config.debias is Some,
    ensures
        total_spec(deeper, mean) - total_spec(config, mean) == product(
            branchings(config, mean, (config.max_depth + 2) as nat),
        ) + 1,
        config.max_depth == 0 ==> total_spec(config, mean) == product(
            branchings(config, mean, 1),
        ) + 2,
{
    let k = (config.max_depth + 1) as nat;
    lemma_reach_same(config, deeper, mean, k);
    lemma_reach_product(deeper, mean, k + 1);
    lemma_reach_product(config, mean, 1);
    assert(branchings(deeper, mean, k + 1) =~= branchings(config, mean, k + 1));
    reveal_with_fuel(reach_sum, 2);
}

proof fn lemma_reach_product(config: Config, mean: u32, k: nat)
    ensures
        reach(config, mean, k) == product(branchings(config, mean, k)),
    decreases k,
{
    if k > 0 {
        lemma_reach_product(config, mean, (k - 1) as nat);
        assert(branchings(config, mean, k).drop_last() =~= branchings(
            config,
            mean,
            (k - 1) as nat,
        ));
    }
}

proof fn lemma_reach_same(config: Config, deeper: Config, mean: u32, k: nat)
    requires
        deeper.inner_samples@ == config.inner_samples@,
        deeper.inner_samples.len() == config.inner_samples.len(),
        deeper.debias is Some == config.debias is Some,
    ensures
        reach(deeper, mean, k) == reach(config, mean, k),
        reach_sum(deeper, mean, k) == reach_sum(config, mean, k),
    decreases k,
{
    if k > 0 {
        lemma_reach_same(config, deeper, mean, (k - 1) as nat);
        assert(factor(deeper, mean, k - 1) == factor(config, mean, k - 1));
    }
}

/// The light that leaves a vertex is stored with it, and nothing else changes, so that the vertex
/// above finds it there. The light of the first vertex of a path is given to the film, once, with
/// weight one, and at the pixel whose number the vertex has.
pub proof fn law_light_is_stored_and_shown(
    vs: Seq<Vertex>,
    vertex_id: u32,
    path_depth: u32,
    width: u32,
    height: u32,
    leaving: Color,
    style: Style,
    axis: Axis,
)
    requires
        vertex_id < vs.len(),
        width > 0,
        vs[vertex_id as int].parent < width * height,
    ensures
        ({
            let after = with_radiance(vs, vertex_id, leaving);
            let v = vs[vertex_id as int];
            let r = film_sample(v, path_depth, width, leaving);
            &&& after.len() == vs.len()
            &&& light(after[vertex_id as int].radiance, style, axis) == light(leaving, style, axis)
            &&& after[vertex_id as int] == (Vertex {
                radiance: after[vertex_id as int].radiance,
                ..v
            })
            &&& forall|i: int| 0 <= i < vs.len() && i != vertex_id ==> #[trigger] after[i] == vs[i]
            &&& r is Some <==> path_depth == 0
            &&& r matches Some(s) ==> {
                &&& light(s.color, style, axis) == light(leaving, style, axis)
                &&& s.weight == Single::one()
                &&& s.px.x < width && s.px.y < height
                &&& s.px.y * width + s.px.x == v.parent
            }
        }),
{
    crate::lighting::law_pixel_numbering(vs[vertex_id as int].parent, width, height);
}

/// The first vertex of a path lies where its ray met a surface, looks back along the ray, and has
/// the number of its pixel. It has no light yet, is linked to nothing, and has met nothing.
pub proof fn law_paths_start_at_the_camera(
    px_idx: u32,
    ray_d: Float3,
    si: SurfaceInteraction,
    style: Style,
    axis: Axis,
)
    ensures
        ({
            let v = first_vertex_spec(px_idx, ray_d, si);
            &&& v.parent == px_idx
            &&& v.wo == ray_d.neg()
            &&& v.hit.inst_id == si.inst_id
            &&& v.hit.prim_id == si.prim_id
            &&& v.hit.bary == si.bary
            &&& light(v.radiance, style, axis) == 0real
            &&& v.actual_branching_depths == 0
            &&& v.slibing == NONE
            &&& v.indirect_vertex == NONE
            &&& v.debias_radiance_idx == NONE
            &&& !v.flags.stylization_disabled
            &&& v.flags.style_index == 0
        }),
{
    lemma_constants(style, axis);
}

} // verus!
