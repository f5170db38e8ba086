//! What colours are worth in exact arithmetic, and what the shared parts of shading do to light.
//!
//! A style is any function of the light that leaves a surface. The laws hold whatever the styles
//! do.
use crate::exact::{law_zero_and_one, power, single_worth, units, units_of_one, worth};
use crate::expr::{mis_weight_spec, power_of, sum_from, Axis, Color, Scalar};
use crate::lighting::{
    albedo_spec, sample_light_spec, shade_direct_spec, surface_light_spec, vertex_weight_spec,
    BsdfEval, DirectLighting, LightHit, LightSample, SurfaceInteraction, SurfaceLook,
};
use crate::value::{Float3, Single, StylizationFlags, SurfaceHit};
use vstd::prelude::*;

verus! {

/// Where light is styled: the surface, the direction in which it leaves, the depth of the path and
/// what the path has met.
pub struct Styling {
    pub path_depth: u32,
    pub hit: SurfaceHit,
    pub wo: Float3,
    pub flags: StylizationFlags,
}

/// What a style makes of light, given by its three components: one component of the result.
pub type Style = spec_fn(Styling, (real, real, real), Axis) -> real;

/// A component of a known colour.
pub open spec fn component(v: Float3, axis: Axis) -> Single {
    match axis {
        Axis::X => v.x,
        Axis::Y => v.y,
        Axis::Z => v.z,
    }
}

/// A component of the light that a colour stands for. Exact arithmetic leaves nothing undefined
/// that would have to be taken out.
pub open spec fn light(c: Color, style: Style, axis: Axis) -> real
    decreases c,
{
    match c {
        Color::Rgb(v) => single_worth(component(v, axis)),
        Color::Add(a, b) => light(*a, style, axis) + light(*b, style, axis),
        Color::Sub(a, b) => light(*a, style, axis) - light(*b, style, axis),
        Color::Mul(a, b) => light(*a, style, axis) * light(*b, style, axis),
        Color::Scale(a, s) => light(*a, style, axis) * amount(*s, style),
        Color::Over(a, s) => light(*a, style, axis) / amount(*s, style),
        Color::Stylize { path_depth, hit, wo, li, flags } => style(
            Styling { path_depth, hit, wo, flags },
            (light(*li, style, Axis::X), light(*li, style, Axis::Y), light(*li, style, Axis::Z)),
            axis,
        ),
        Color::RemoveNan(a) => light(*a, style, axis),
    }
}

/// The number that an expression stands for.
pub open spec fn amount(s: Scalar, style: Style) -> real
    decreases s,
{
    match s {
        Scalar::Value(v) => single_worth(v),
        Scalar::Count(n) => n as int as real,
        Scalar::Add(a, b) => amount(*a, style) + amount(*b, style),
        Scalar::Sub(a, b) => amount(*a, style) - amount(*b, style),
        Scalar::Mul(a, b) => amount(*a, style) * amount(*b, style),
        Scalar::Div(a, b) => amount(*a, style) / amount(*b, style),
        Scalar::Powi(a, n) => if n >= 0 {
            power(amount(*a, style), n as nat)
        } else {
            1real / power(amount(*a, style), (-n) as nat)
        },
        Scalar::Channel(c, axis) => light(*c, style, axis),
    }
}

/// What a style makes of light whose components are given by `f`.
pub open spec fn restyled(
    style: Style,
    at: Styling,
    f: spec_fn(Axis) -> real,
    axis: Axis,
) -> real {
    style(at, (f(Axis::X), f(Axis::Y), f(Axis::Z)), axis)
}

/// The sum of numbers.
pub open spec fn total(s: Seq<real>) -> real
    decreases s.len(),
{
    if s.len() == 0 {
        0real
    } else {
        total(s.drop_last()) + s.last()
    }
}

/// What each of some colours is worth.
pub open spec fn lights(s: Seq<Color>, style: Style, axis: Axis) -> Seq<real> {
    Seq::new(s.len(), |i: int| light(s[i], style, axis))
}

pub proof fn lemma_constants(style: Style, axis: Axis)
    ensures
        light(Color::zero(), style, axis) == 0real,
        light(Color::one(), style, axis) == 1real,
        amount(Scalar::zero(), style) == 0real,
        amount(Scalar::one(), style) == 1real,
{
    let channel = |c: Color, a: Axis| 0real;
    law_zero_and_one(channel);
    assert(worth(Scalar::zero(), channel) == single_worth(Single::zero()));
    assert(worth(Scalar::one(), channel) == single_worth(Single::one()));
}

pub proof fn lemma_total_same(s: Seq<real>, x: real)
    requires
        forall|i: int| 0 <= i < s.len() ==> #[trigger] s[i] == x,
    ensures
        total(s) == s.len() as int as real * x,
    decreases s.len(),
{
    if s.len() > 0 {
        lemma_total_same(s.drop_last(), x);
        let n = s.len() as int as real;
        assert((n - 1real) * x + x == n * x) by (nonlinear_arith);
        assert((s.len() - 1) as int as real == n - 1real);
    } else {
        assert(0real * x == 0real) by (nonlinear_arith);
    }
}

/// Sums may be added entry by entry.
pub proof fn lemma_total_add(s: Seq<real>, t: Seq<real>, u: Seq<real>)
    requires
        s.len() == t.len(),
        u.len() == t.len(),
        forall|i: int| 0 <= i < u.len() ==> #[trigger] u[i] == s[i] + t[i],
    ensures
        total(u) == total(s) + total(t),
    decreases u.len(),
{
    if u.len() > 0 {
        lemma_total_add(s.drop_last(), t.drop_last(), u.drop_last());
        assert(u.last() == s.last() + t.last());
    }
}

/// A common factor may be taken out of a sum.
pub proof fn lemma_total_scaled(s: Seq<real>, t: Seq<real>, k: real)
    requires
        s.len() == t.len(),
        forall|i: int| 0 <= i < s.len() ==> #[trigger] t[i] == s[i] * k,
    ensures
        total(t) == total(s) * k,
    decreases s.len(),
{
    if s.len() > 0 {
        lemma_total_scaled(s.drop_last(), t.drop_last(), k);
        let (a, b) = (total(s.drop_last()), s.last());
        assert(t.last() == s.last() * k);
        assert(a * k + b * k == (a + b) * k) by (nonlinear_arith);
    } else {
        assert(0real * k == 0real) by (nonlinear_arith);
    }
}

/// A colour that is added up is worth the sum.
pub proof fn lemma_sum_light(init: Color, s: Seq<Color>, style: Style, axis: Axis)
    ensures
        light(sum_from(init, s), style, axis) == light(init, style, axis) + total(
            lights(s, style, axis),
        ),
    decreases s.len(),
{
    if s.len() > 0 {
        lemma_sum_light(init, s.drop_last(), style, axis);
        assert(lights(s, style, axis).drop_last() =~= lights(s.drop_last(), style, axis));
    }
}

pub proof fn lemma_power_amount(x: Scalar, n: nat, style: Style)
    ensures
        amount(power_of(x, n), style) == power(amount(x, style), n),
    decreases n,
{
    if n == 0 {
        lemma_constants(style, Axis::X);
    } else {
        lemma_power_amount(x, (n - 1) as nat, style);
    }
}

/// A weight of the first power is the density's share of both.
pub proof fn lemma_weight(a: Scalar, b: Scalar, style: Style)
    ensures
        amount(mis_weight_spec(a, b, 1), style) == amount(a, style) / (amount(a, style) + amount(
            b,
            style,
        )),
{
    let (x, y) = (amount(a, style), amount(b, style));
    lemma_power_amount(a, 1, style);
    lemma_power_amount(b, 1, style);
    reveal_with_fuel(power, 2);
    reveal_with_fuel(amount, 3);
    assert(1real * x == x && 1real * y == y) by (nonlinear_arith);
}

/// A number above zero is worth more than zero.
pub proof fn lemma_positive_worth(s: Single)
    requires
        units(s) > 0,
    ensures
        single_worth(s) > 0real,
{
    law_zero_and_one(|c: Color, a: Axis| 0real);
    let (n, u) = (units(s) as real, units_of_one() as real);
    assert(n / u > 0real) by (nonlinear_arith)
        requires
            n > 0real,
            u > 0real,
    ;
}

/// A style works on the light that it is given.
pub proof fn lemma_styled(c: Color, at: Styling, f: spec_fn(Axis) -> real, style: Style, axis: Axis)
    requires
        forall|a: Axis| #[trigger] light(c, style, a) == f(a),
    ensures
        light(c.stylize(at.path_depth, at.hit, at.wo, at.flags), style, axis) == restyled(
            style,
            at,
            f,
            axis,
        ),
{
    assert(light(c, style, Axis::X) == f(Axis::X));
    assert(light(c, style, Axis::Y) == f(Axis::Y));
    assert(light(c, style, Axis::Z) == f(Axis::Z));
}

/// A sampled light reaches a surface as the style of the surface that sends it has it: for the
/// direction in which it leaves there, and with what the path has met. Where there is no surface to
/// reach it is not styled, and no light is no light. Its shadow ray passes the surface that it
/// starts from.
pub proof fn law_sampled_light_is_styled_at_its_source(
    si: SurfaceInteraction,
    path_depth: u32,
    flags: StylizationFlags,
    sample: LightSample,
    style: Style,
    axis: Axis,
)
    ensures
        ({
            let dl = sample_light_spec(si, path_depth, flags, sample);
            let got = light(dl.irradiance, style, axis);
            let at = Styling {
                path_depth,
                hit: SurfaceHit {
                    inst_id: sample.si.inst_id,
                    prim_id: sample.si.prim_id,
                    bary: sample.si.bary,
                },
                wo: sample.wi.neg(),
                flags,
            };
            let sent = |a: Axis| single_worth(component(sample.li, a));
            &&& sample.valid && si.valid ==> got == restyled(style, at, sent, axis)
            &&& sample.valid && !si.valid ==> got == sent(axis)
            &&& !sample.valid ==> got == 0real
            &&& dl.valid == sample.valid
            &&& sample.valid ==> {
                &&& dl.wi == sample.wi
                &&& dl.pdf == sample.pdf
                &&& dl.shadow_ray.o == sample.shadow_ray.o
                &&& dl.shadow_ray.d == sample.shadow_ray.d
                &&& dl.shadow_ray.exclude0.x == si.inst_id
                &&& dl.shadow_ray.exclude0.y == si.prim_id
            }
        }),
{
    lemma_constants(style, axis);
    reveal_with_fuel(light, 2);
}

/// A surface that gives off light gives off `le`. The path that starts there has it in full; a path
/// that came there by scattering has the share that the density of scattering has of both
/// densities.
pub proof fn law_light_of_a_surface(
    hit: LightHit,
    path_depth: u32,
    prev_bsdf_pdf: Single,
    style: Style,
    axis: Axis,
)
    ensures
        ({
            let (le, w, valid) = surface_light_spec(hit, path_depth, prev_bsdf_pdf);
            let counted = amount(vertex_weight_spec(hit, path_depth, prev_bsdf_pdf), style);
            let (b, l) = (single_worth(prev_bsdf_pdf), single_worth(hit.pdf));
            &&& valid == hit.valid
            &&& light(le, style, axis) == (if hit.valid {
                single_worth(component(hit.le, axis))
            } else {
                0real
            })
            &&& hit.valid && path_depth == 0 ==> amount(w, style) == 1real && counted == 1real
            &&& hit.valid && path_depth > 0 ==> amount(w, style) == b / (b + l) && counted == b / (b
                + l)
            &&& !hit.valid ==> amount(w, style) == 0real && counted == 1real
        }),
{
    lemma_constants(style, axis);
    lemma_weight(Scalar::Value(prev_bsdf_pdf), Scalar::Value(hit.pdf), style);
    reveal_with_fuel(light, 2);
    reveal_with_fuel(amount, 2);
}

/// Light from a sampled light is scattered by the scattering function, and divided by both
/// densities with which its direction could have been found: its own density cancels against its
/// weight.
pub proof fn law_direct_light(dl: DirectLighting, eval: BsdfEval, style: Style, axis: Axis)
    requires
        dl.valid ==> single_worth(dl.pdf) > 0real && single_worth(eval.pdf) >= 0real,
    ensures
        ({
            let got = light(shade_direct_spec(dl, eval), style, axis);
            let f = single_worth(component(eval.f, axis));
            &&& dl.valid ==> got == light(dl.irradiance, style, axis) * f / (single_worth(dl.pdf)
                + single_worth(eval.pdf))
            &&& !dl.valid ==> got == 0real
        }),
{
    lemma_constants(style, axis);
    if dl.valid {
        let (x, y) = (single_worth(dl.pdf), single_worth(eval.pdf));
        let (a, f) = (light(dl.irradiance, style, axis), single_worth(component(eval.f, axis)));
        lemma_weight(Scalar::Value(dl.pdf), Scalar::Value(eval.pdf), style);
        reveal_with_fuel(light, 4);
        reveal_with_fuel(amount, 2);
        let w = x / (x + y);
        assert(light(shade_direct_spec(dl, eval), style, axis) == (a * f) * w / x);
        lemma_cancel(a * f, x, y);
    }
}

/// `p * (x / (x + y)) / x == p / (x + y)`.
pub proof fn lemma_cancel(p: real, x: real, y: real)
    requires
        x > 0real,
        x + y > 0real,
    ensures
        p * (x / (x + y)) / x == p / (x + y),
{
    let s = x + y;
    let w = x / s;
    assert(w * s == x) by (nonlinear_arith)
        requires
            w == x / s,
            s > 0real,
    ;
    let q = p / s;
    assert(q * s == p) by (nonlinear_arith)
        requires
            q == p / s,
            s > 0real,
    ;
    assert(p * w == q * x) by (nonlinear_arith)
        requires
            w * s == x,
            q * s == p,
            s > 0real,
    ;
    assert((q * x) / x == q) by (nonlinear_arith)
        requires
            x > 0real,
    ;
}

/// The light that a sampled light sends to a surface, as the surface of the light has it.
pub open spec fn arriving_light(
    si: SurfaceInteraction,
    path_depth: u32,
    flags: StylizationFlags,
    sample: LightSample,
    style: Style,
    axis: Axis,
) -> real {
    let at = Styling {
        path_depth,
        hit: SurfaceHit {
            inst_id: sample.si.inst_id,
            prim_id: sample.si.prim_id,
            bary: sample.si.bary,
        },
        wo: sample.wi.neg(),
        flags,
    };
    let sent = |a: Axis| single_worth(component(sample.li, a));
    if !sample.valid {
        0real
    } else if si.valid {
        restyled(style, at, sent, axis)
    } else {
        sent(axis)
    }
}

/// The light that a surface scatters of a sampled light: over both densities with which its
/// direction could have been found.
pub open spec fn scattered_light(
    si: SurfaceInteraction,
    path_depth: u32,
    flags: StylizationFlags,
    sample: LightSample,
    eval: BsdfEval,
    style: Style,
    axis: Axis,
) -> real {
    if sample.valid {
        arriving_light(si, path_depth, flags, sample, style, axis) * single_worth(
            component(eval.f, axis),
        ) / (single_worth(sample.pdf) + single_worth(eval.pdf))
    } else {
        0real
    }
}

/// A light was sampled with a density above zero, and scattering has no density below zero.
pub open spec fn weighs(sample: LightSample, eval: BsdfEval) -> bool {
    sample.valid ==> single_worth(sample.pdf) > 0real && single_worth(eval.pdf) >= 0real
}

/// What a surface scatters of a sampled light.
pub proof fn law_sampled_light_is_scattered(
    si: SurfaceInteraction,
    path_depth: u32,
    flags: StylizationFlags,
    sample: LightSample,
    eval: BsdfEval,
    style: Style,
    axis: Axis,
)
    requires
        weighs(sample, eval),
    ensures
        light(sample_light_spec(si, path_depth, flags, sample).irradiance, style, axis)
            == arriving_light(si, path_depth, flags, sample, style, axis),
        light(
            shade_direct_spec(sample_light_spec(si, path_depth, flags, sample), eval),
            style,
            axis,
        ) == scattered_light(si, path_depth, flags, sample, eval, style, axis),
{
    law_sampled_light_is_styled_at_its_source(si, path_depth, flags, sample, style, axis);
    law_direct_light(sample_light_spec(si, path_depth, flags, sample), eval, style, axis);
}

/// What comes along a sampled direction is multiplied with what is scattered, over the density of
/// the direction.
pub proof fn law_throughput(color: Float3, pdf: Single, style: Style, axis: Axis)
    requires
        units(pdf) > 0,
    ensures
        light(Color::Rgb(color).over(Scalar::Value(pdf)), style, axis) * single_worth(pdf)
            == single_worth(component(color, axis)),
{
    lemma_positive_worth(pdf);
    reveal_with_fuel(light, 2);
    reveal_with_fuel(amount, 2);
    let (x, p) = (single_worth(component(color, axis)), single_worth(pdf));
    assert(x / p * p == x) by (nonlinear_arith)
        requires
            p > 0real,
    ;
}

/// Both ways of finding a light together give all of it. Light sampling finds the light with
/// density `l`, scattering with density `b`; each way, weighted and taken as often as its density
/// says, gives the part of `f * le` that the other leaves.
pub proof fn law_both_ways_give_all_light(
    dl: DirectLighting,
    eval: BsdfEval,
    hit: LightHit,
    path_depth: u32,
    style: Style,
    axis: Axis,
)
    requires
        dl.valid,
        hit.valid,
        path_depth > 0,
        dl.pdf == hit.pdf,
        light(dl.irradiance, style, axis) == single_worth(component(hit.le, axis)),
        single_worth(dl.pdf) > 0real,
        single_worth(eval.pdf) > 0real,
    ensures
        ({
            let (l, b) = (single_worth(dl.pdf), single_worth(eval.pdf));
            let f = single_worth(component(eval.f, axis));
            let (le, w, _) = surface_light_spec(hit, path_depth, eval.pdf);
            let by_light = light(shade_direct_spec(dl, eval), style, axis);
            let by_scattering = f * light(le, style, axis) * amount(w, style) / b;
            l * by_light + b * by_scattering == f * single_worth(component(hit.le, axis))
        }),
{
    law_direct_light(dl, eval, style, axis);
    law_light_of_a_surface(hit, path_depth, eval.pdf, style, axis);
    let (l, b) = (single_worth(dl.pdf), single_worth(eval.pdf));
    let f = single_worth(component(eval.f, axis));
    let e = single_worth(component(hit.le, axis));
    let s = l + b;
    assert(e * f == f * e) by (nonlinear_arith);
    lemma_cancel(f * e, b, l);
    let p = f * e;
    let q = p / s;
    assert(q * s == p) by (nonlinear_arith)
        requires
            q == p / s,
            s > 0real,
    ;
    assert(l * q + b * q == q * s) by (nonlinear_arith)
        requires
            s == l + b,
    ;
}

/// The albedo of a surface is what it reflects and what it gives off.
pub proof fn law_albedo(look: SurfaceLook, style: Style, axis: Axis)
    ensures
        light(albedo_spec(look), style, axis) == single_worth(component(look.albedo, axis))
            + single_worth(component(look.emission, axis)),
{
    reveal_with_fuel(light, 2);
}

} // verus!
