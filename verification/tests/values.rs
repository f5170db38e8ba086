use akari_integrator::decimal::{decimal, single_decimal};
use akari_integrator::expr::{mis_weight, Axis, Color, Scalar};
use akari_integrator::lighting::{
    denoising_features, film_fits, handle_surface_light, pixel, sample_light, shade_direct, BsdfEval,
    DirectLighting, LightHit, LightSample, SurfaceInteraction, SurfaceLook,
};
use akari_integrator::value::{
    Float2, Float3, Ray, Single, StylizationFlags, SurfaceHit, Uint2, NONE, RAY_T_MAX_BITS,
};

fn f(x: f32) -> Single {
    Single { bits: x.to_bits() }
}

fn v(x: f32, y: f32, z: f32) -> Float3 {
    Float3 { x: f(x), y: f(y), z: f(z) }
}

fn surface(inst_id: u32, prim_id: u32, valid: bool) -> SurfaceInteraction {
    SurfaceInteraction {
        inst_id,
        prim_id,
        bary: Float2 { x: f(0.25), y: f(0.5) },
        p: v(1.0, 2.0, 3.0),
        ng: v(0.0, 1.0, 0.0),
        ns: v(0.0, 0.0, 1.0),
        valid,
    }
}

#[test]
fn comparisons_agree_with_the_numbers() {
    let samples = [
        0.0f32,
        -0.0,
        1.0,
        -1.0,
        0.01,
        0.05,
        0.051,
        1e-45,
        -1e-45,
        1e-5,
        0.9e-5,
        f32::INFINITY,
        f32::NEG_INFINITY,
        f32::NAN,
        -f32::NAN,
        f32::MAX,
    ];
    for x in samples {
        assert_eq!(f(x).gt_zero(), x > 0.0, "{x}");
        assert_eq!(f(x).le_zero(), x <= 0.0, "{x}");
        assert_eq!(f(x).gt(f(0.05)), x > 0.05, "{x}");
        assert_eq!(f(x).gt(f(0.0)), x > 0.0, "{x}");
        assert_eq!(f(x).lt(f(1e-5)), x < 1e-5, "{x}");
        assert_eq!(f(x).neg().bits, (-x).to_bits(), "{x}");
    }
}

#[test]
fn constants_are_their_bit_patterns() {
    assert_eq!(Single::zero(), f(0.0));
    assert_eq!(Single::one(), f(1.0));
    assert_eq!(Single::half(), f(0.5));
    assert_eq!(RAY_T_MAX_BITS, 1e20f32.to_bits());
    assert_eq!(akari_integrator::branching_pt::BRANCHING_ROUGHNESS_BITS, 0.01f32.to_bits());
    assert_eq!(akari_integrator::nrc_pt::SPLITTING_ROUGHNESS_BITS, 0.05f32.to_bits());
    assert_eq!(akari_integrator::nrc_pt::render::STOPPING_RATE_BITS, 1e-5f32.to_bits());
}

#[test]
fn negating_twice_gives_the_number_back() {
    let a = v(1.5, -2.5, 0.0);
    assert_eq!(a.neg().neg(), a);
    assert_eq!(a.neg(), v(-1.5, 2.5, -0.0));
}

#[test]
fn a_ray_that_leaves_does_not_meet_its_surface() {
    let r = Ray::leaving(v(1.0, 0.0, 0.0), v(0.0, 1.0, 0.0), 7, 9);
    assert_eq!(r.o, v(1.0, 0.0, 0.0));
    assert_eq!(r.d, v(0.0, 1.0, 0.0));
    assert_eq!(r.t_min, f(0.0));
    assert_eq!(r.t_max, f(1e20));
    assert_eq!(r.exclude0, Uint2 { x: 7, y: 9 });
    assert_eq!(r.exclude1, Uint2 { x: NONE, y: NONE });
}

#[test]
fn mis_weight_is_a_over_a_plus_b() {
    let (a, b) = (Scalar::Value(f(3.0)), Scalar::Value(f(5.0)));
    let one = |x: &Scalar| Scalar::one().times(x.clone());
    let two = |x: &Scalar| one(x).times(x.clone());
    assert_eq!(mis_weight(a.clone(), b.clone(), 1), one(&a).over(one(&a).plus(one(&b))));
    assert_eq!(mis_weight(a.clone(), b.clone(), 2), two(&a).over(two(&a).plus(two(&b))));
    assert_eq!(
        mis_weight(a, b, 0),
        Scalar::one().over(Scalar::one().plus(Scalar::one()))
    );
}

#[test]
fn colours_keep_the_order_of_their_operations() {
    let c = Color::one().times(Color::zero()).plus(Color::one());
    assert_eq!(
        c,
        Color::Add(
            Box::new(Color::Mul(Box::new(Color::one()), Box::new(Color::zero()))),
            Box::new(Color::one()),
        )
    );
    assert_eq!(
        c.clone().channel(Axis::Y),
        Scalar::Channel(Box::new(c), Axis::Y)
    );
}

#[test]
fn pixels_are_numbered_row_by_row() {
    assert_eq!(pixel(0, 4), Uint2 { x: 0, y: 0 });
    assert_eq!(pixel(7, 4), Uint2 { x: 3, y: 1 });
    assert_eq!(pixel(8, 4), Uint2 { x: 0, y: 2 });
    for i in 0..12u32 {
        let p = pixel(i, 4);
        assert!(p.x < 4 && p.y < 3);
        assert_eq!(p.y * 4 + p.x, i);
    }
}

#[test]
fn light_of_a_first_vertex_counts_in_full() {
    let light = LightHit { valid: true, le: v(1.0, 2.0, 3.0), pdf: f(0.5) };
    assert_eq!(
        handle_surface_light(light, 0, f(0.0)),
        (Color::Rgb(v(1.0, 2.0, 3.0)), Scalar::one(), true)
    );
    let w = mis_weight(Scalar::Value(f(0.25)), Scalar::Value(f(0.5)), 1);
    assert_eq!(
        handle_surface_light(light, 3, f(0.25)),
        (Color::Rgb(v(1.0, 2.0, 3.0)), w, true)
    );
    let dark = LightHit { valid: false, ..light };
    assert_eq!(handle_surface_light(dark, 3, f(0.25)), (Color::zero(), Scalar::zero(), false));
}

#[test]
fn sampled_light_is_stylized_by_its_own_surface() {
    let flags = StylizationFlags { stylization_disabled: false, style_index: 2 };
    let sample = LightSample {
        valid: true,
        li: v(4.0, 5.0, 6.0),
        wi: v(0.0, 1.0, 0.0),
        pdf: f(0.125),
        shadow_ray: Ray::zeroed(),
        si: surface(11, 12, true),
    };
    let dl = sample_light(surface(3, 4, true), 2, flags, sample);
    assert!(dl.valid);
    assert_eq!(dl.pdf, f(0.125));
    assert_eq!(dl.shadow_ray.exclude0, Uint2 { x: 3, y: 4 });
    assert_eq!(
        dl.irradiance,
        Color::Rgb(v(4.0, 5.0, 6.0)).stylize(
            2,
            SurfaceHit { inst_id: 11, prim_id: 12, bary: Float2 { x: f(0.25), y: f(0.5) } },
            v(-0.0, -1.0, -0.0),
            flags,
        )
    );
    let plain = sample_light(surface(3, 4, false), 2, flags, sample);
    assert_eq!(plain.irradiance, Color::Rgb(v(4.0, 5.0, 6.0)));
    let none = sample_light(surface(3, 4, true), 2, flags, LightSample { valid: false, ..sample });
    assert_eq!(none, DirectLighting::invalid());
}

#[test]
fn direct_light_is_scattered_and_weighted() {
    let dl = DirectLighting {
        irradiance: Color::Rgb(v(1.0, 1.0, 1.0)),
        wi: v(0.0, 1.0, 0.0),
        pdf: f(0.5),
        shadow_ray: Ray::zeroed(),
        valid: true,
    };
    let eval = BsdfEval { f: v(0.5, 0.5, 0.5), pdf: f(0.25) };
    let w = mis_weight(Scalar::Value(f(0.5)), Scalar::Value(f(0.25)), 1);
    assert_eq!(
        shade_direct(&dl, eval),
        Color::Rgb(v(1.0, 1.0, 1.0))
            .times(Color::Rgb(v(0.5, 0.5, 0.5)))
            .scale(w)
            .over(Scalar::Value(f(0.5)))
    );
    assert_eq!(shade_direct(&DirectLighting::invalid(), eval), Color::zero());
}

#[test]
fn features_add_what_a_surface_gives_off() {
    let look = SurfaceLook {
        albedo: v(0.1, 0.2, 0.3),
        emission: v(1.0, 0.0, 0.0),
        roughness: f(0.4),
    };
    let r = denoising_features(look);
    assert_eq!(r.albedo, Color::Rgb(look.albedo).plus(Color::Rgb(look.emission)));
    assert_eq!(r.roughness, f(0.4));
    assert_eq!(r.roughness_interval, f(0.0));
}

fn text(bytes: Vec<u8>) -> String {
    String::from_utf8(bytes).unwrap()
}

#[test]
fn decimals_are_written_out() {
    assert_eq!(text(decimal(9, 1)), "0.9");
    assert_eq!(text(decimal(99, 2)), "0.99");
    assert_eq!(text(decimal(1, 8)), "0.00000001");
    assert_eq!(text(decimal(0, 1)), "0.0");
    assert_eq!(text(decimal(20, 1)), "2.0");
    assert_eq!(text(decimal(u32::MAX, 3)), "4294967.295");
}

#[test]
fn singles_are_written_exactly() {
    assert_eq!(text(single_decimal(f(0.5)).unwrap()), "0.500000000000000000000000");
    assert_eq!(text(single_decimal(f(-3.0)).unwrap()), "-3.0000000000000000000000");
    assert_eq!(text(single_decimal(f(1e30)).unwrap()), "1000000015047466219876688855040.0");
    for x in [
        0.0f32,
        -0.0,
        1.0,
        0.995,
        1e-3,
        1e-45,
        f32::MIN_POSITIVE,
        f32::MAX,
        f32::MIN,
        123456.78,
        3.4e-40,
        16777216.0,
        8388608.0,
        8388607.5,
    ] {
        let t = text(single_decimal(f(x)).unwrap());
        let back: f64 = t.parse().unwrap();
        assert_eq!(back.to_bits(), (x as f64).to_bits(), "{t}");
    }
    for x in [f32::NAN, f32::INFINITY, f32::NEG_INFINITY] {
        assert!(single_decimal(f(x)).is_none());
    }
}

#[test]
fn flags_are_equal_in_every_part() {
    let a = StylizationFlags { stylization_disabled: false, style_index: 1 };
    assert!(a.is_equal(a));
    assert!(!a.is_equal(StylizationFlags { style_index: 2, ..a }));
    assert!(!a.is_equal(StylizationFlags { stylization_disabled: true, ..a }));
}

fn worth(s: &Scalar) -> f64 {
    match s {
        Scalar::Value(v) => f32::from_bits(v.bits) as f64,
        Scalar::Count(n) => *n as f64,
        Scalar::Add(a, b) => worth(a) + worth(b),
        Scalar::Sub(a, b) => worth(a) - worth(b),
        Scalar::Mul(a, b) => worth(a) * worth(b),
        Scalar::Div(a, b) => worth(a) / worth(b),
        Scalar::Powi(a, n) => worth(a).powi(*n),
        Scalar::Channel(_, _) => unreachable!(),
    }
}

#[test]
fn the_weights_of_both_ways_add_up() {
    let value = |x: f32| Scalar::Value(f(x));
    for power in 1..4 {
        for (a, b) in [(1.0f32, 3.0f32), (0.5, 0.0), (0.0, 2.0), (4.0, 4.0)] {
            let w = worth(&mis_weight(value(a), value(b), power));
            let u = worth(&mis_weight(value(b), value(a), power));
            assert!((w + u - 1.0).abs() < 1e-12);
            let scaled = mis_weight(
                value(8.0).times(value(a)),
                value(8.0).times(value(b)),
                power,
            );
            assert!((worth(&scaled) - w).abs() < 1e-12);
        }
    }
    assert_eq!(worth(&mis_weight(value(1.0), value(3.0), 1)), 0.25);
}

#[test]
fn a_film_has_the_size_of_the_view() {
    let size = Uint2 { x: 4, y: 3 };
    assert!(film_fits(size, size));
    assert!(!film_fits(size, Uint2 { x: 3, y: 4 }));
    assert!(!film_fits(size, Uint2 { x: 4, y: 4 }));
}
