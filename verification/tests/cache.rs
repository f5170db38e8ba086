use akari_integrator::expr::{Axis, Color, Scalar};
use akari_integrator::lighting::{
    shade_direct, BsdfEval, BsdfSample, LightHit, LightSample, SurfaceInteraction, SurfaceLook,
};
use akari_integrator::nrc_pt::render::{Command, RenderLoop, Report, Session};
use akari_integrator::nrc_pt::trace::{GatherProbe, WalkProbe};
use akari_integrator::nrc_pt::{Config, NRCPathTracer, PathState, RenderState, Vertex};
use akari_integrator::value::{
    Float2, Float3, Ray, Single, StylizationFlags, Uint2, NONE,
};

fn f(x: f32) -> Single {
    Single { bits: x.to_bits() }
}

fn v(x: f32, y: f32, z: f32) -> Float3 {
    Float3 { x: f(x), y: f(y), z: f(z) }
}

fn rgb(x: f32) -> Color {
    Color::Rgb(v(x, x, x))
}

fn value(x: f32) -> Scalar {
    Scalar::Value(f(x))
}

fn surface(inst_id: u32, valid: bool) -> SurfaceInteraction {
    SurfaceInteraction {
        inst_id,
        prim_id: 2,
        bary: Float2 { x: f(0.25), y: f(0.5) },
        p: v(1.0, 2.0, 3.0),
        ng: v(0.0, 1.0, 0.0),
        ns: v(0.0, 0.5, 1.0),
        valid,
    }
}

fn flags(style_index: u32) -> StylizationFlags {
    StylizationFlags { stylization_disabled: false, style_index }
}

fn look(roughness: f32) -> SurfaceLook {
    SurfaceLook { albedo: v(0.1, 0.2, 0.3), emission: v(0.0, 0.0, 0.0), roughness: f(roughness) }
}

fn light_sample() -> LightSample {
    LightSample {
        valid: true,
        li: v(2.0, 2.0, 2.0),
        wi: v(0.0, 1.0, 0.0),
        pdf: f(0.5),
        shadow_ray: Ray::zeroed(),
        si: surface(9, true),
    }
}

fn sample(pdf: f32) -> BsdfSample {
    BsdfSample {
        wi: v(0.0, 0.0, 1.0),
        pdf: f(pdf),
        color: v(0.5, 0.5, 0.5),
        origin: v(1.0, 2.0, 3.0),
    }
}

fn probe(inst_id: u32, roughness: f32) -> WalkProbe {
    WalkProbe {
        si: surface(inst_id, true),
        light: LightHit { valid: false, le: v(0.0, 0.0, 0.0), pdf: f(0.0) },
        new_flags: flags(1),
        look: look(roughness),
        light_sample: light_sample(),
        eval: BsdfEval { f: v(0.5, 0.5, 0.5), pdf: f(0.25) },
        sample: sample(0.25),
        occluded: false,
    }
}

fn miss() -> WalkProbe {
    WalkProbe { si: surface(0, false), ..probe(0, 0.0) }
}

fn camera_ray() -> Ray {
    Ray { o: v(0.0, 0.0, 5.0), d: v(0.0, 0.0, -1.0), ..Ray::zeroed() }
}

fn tracer(config: Config) -> NRCPathTracer {
    NRCPathTracer::new(config)
}

fn small() -> Config {
    Config { max_depth: 2, ..Config::default() }
}

fn state(n: usize, max_depth: u32) -> RenderState {
    let vertices = n * (max_depth as usize + 1);
    let dim = max_depth + 20;
    RenderState {
        aabb: (v(0.0, 0.0, 0.0), v(4.0, 4.0, 4.0)),
        path_state_buf: vec![PathState::starting(0, Uint2 { x: 0, y: 0 }); n],
        vertex_buffer: (0..vertices).map(|_| Vertex::blank()).collect(),
        counter: 0,
        input_dim: dim,
        output_dim: 3,
        training_inputs: (0..vertices * dim as usize).map(|_| Scalar::zero()).collect(),
        training_targets: (0..vertices * 3).map(|_| Scalar::zero()).collect(),
        inference_inputs: (0..vertices * dim as usize).map(|_| Scalar::zero()).collect(),
        inference_outputs: (0..vertices * 3).map(|i| f(i as f32)).collect(),
    }
}

fn direct(t: &NRCPathTracer, inst_id: u32, depth: u32) -> Color {
    let dl = t.sample_light(surface(inst_id, true), depth, flags(1), light_sample());
    shade_direct(&dl, BsdfEval { f: v(0.5, 0.5, 0.5), pdf: f(0.25) })
}

fn throughput() -> Color {
    rgb(0.5).over(value(0.25))
}

#[test]
fn cache_defaults() {
    let c = Config::default();
    assert_eq!((c.max_depth, c.rr_depth, c.repeats), (7, 5, 1));
    assert_eq!((c.training_iters, c.baches_per_iter, c.batch_size), (512, 16, 65536));
    assert_eq!((c.n_hidden_layers, c.n_hidden_units), (5, 128));
    assert_eq!((c.n_hash_grid_features, c.n_hash_grid_levels), (2, 18));
    assert_eq!((c.learning_rate, c.decay_rate), (f(1e-3), f(0.995)));
    assert_eq!(c.decay_interval, 50);
    assert_eq!((c.final_gather, c.per_level_training), (None, None));
    assert!(!c.no_first_hit_stylization && !c.learn_stylized_radiance);
    assert!(c.scene_bounds.is_none());
}

#[test]
fn a_path_is_traced_into_its_slab() {
    let t = tracer(small());
    let mut s = state(2, 2);
    let probes = vec![probe(1, 0.0), probe(3, 0.0), probe(4, 0.0)];
    let r = t.kernel_mk_trace(&mut s, 1, 3, 2, 2, false, false, camera_ray(), &probes);
    assert!(r.is_none());
    let ps = s.path_state_buf[1];
    assert!(ps.valid);
    assert_eq!((ps.depth, ps.vertex_idx, ps.splitting_depth), (2, 3, NONE));
    assert_eq!(ps.px, Uint2 { x: 1, y: 1 });
    assert_eq!(s.vertex_buffer[0], Vertex::blank());
    let (a, b, c) = (&s.vertex_buffer[3], &s.vertex_buffer[4], &s.vertex_buffer[5]);
    assert_eq!((a.hit.inst_id, b.hit.inst_id, c.hit.inst_id), (1, 3, 4));
    assert_eq!(a.throughput, Color::zero());
    assert_eq!(b.throughput, throughput());
    assert_eq!(a.direct, direct(&t, 1, 1));
    assert_eq!(b.direct, direct(&t, 3, 2));
    assert_eq!(c.direct, Color::zero());
    assert_eq!(a.flags, StylizationFlags::zeroed());
    assert_eq!(b.flags, flags(1));
    assert_eq!(a.nrc_idx, NONE);
    assert_eq!(a.mis, Scalar::one());
    assert_eq!(a.w_le, Scalar::zero());
    assert_eq!(b.wo, v(-0.0, -0.0, -1.0));
}

#[test]
fn a_path_is_handed_over_at_the_first_rough_surface() {
    let t = tracer(small());
    let mut s = state(1, 2);
    let probes = vec![probe(1, 0.05), probe(3, 0.06), probe(4, 0.0)];
    t.kernel_mk_trace(&mut s, 0, 0, 2, 2, true, false, camera_ray(), &probes);
    assert_eq!((s.path_state_buf[0].depth, s.path_state_buf[0].splitting_depth), (1, 1));
    let mut s = state(1, 2);
    t.kernel_mk_trace(&mut s, 0, 0, 2, 2, false, false, camera_ray(), &probes);
    assert_eq!((s.path_state_buf[0].depth, s.path_state_buf[0].splitting_depth), (2, NONE));
    // with only one vertex to trace there is no handing over
    let mut s = state(1, 2);
    t.kernel_mk_trace(&mut s, 0, 0, 2, 0, true, false, camera_ray(), &vec![probe(1, 0.9)]);
    assert_eq!((s.path_state_buf[0].depth, s.path_state_buf[0].splitting_depth), (0, NONE));
}

#[test]
fn a_path_ends_with_its_last_surface() {
    let t = tracer(small());
    let mut s = state(1, 2);
    let probes = vec![probe(1, 0.0), miss(), miss()];
    t.kernel_mk_trace(&mut s, 0, 0, 2, 2, false, false, camera_ray(), &probes);
    assert_eq!((s.path_state_buf[0].valid, s.path_state_buf[0].depth), (true, 0));
    let mut s = state(1, 2);
    t.kernel_mk_trace(&mut s, 0, 0, 2, 2, false, true, camera_ray(), &vec![miss(), miss(), miss()]);
    assert!(!s.path_state_buf[0].valid);
    let mut s = state(1, 2);
    let stuck = WalkProbe { sample: sample(0.0), occluded: true, ..probe(1, 0.0) };
    t.kernel_mk_trace(&mut s, 0, 0, 2, 2, false, false, camera_ray(), &vec![stuck, stuck, stuck]);
    assert_eq!((s.path_state_buf[0].valid, s.path_state_buf[0].depth), (true, 0));
    assert_eq!(s.vertex_buffer[0].direct, Color::zero());
}

#[test]
fn the_light_of_a_path_is_brought_back() {
    let t = tracer(small());
    let mut s = state(1, 2);
    let lit = WalkProbe {
        light: LightHit { valid: true, le: v(7.0, 7.0, 7.0), pdf: f(0.5) },
        ..probe(3, 0.0)
    };
    let probes = vec![probe(1, 0.0), lit, miss()];
    let r = t
        .kernel_mk_trace(&mut s, 0, 1, 2, 2, false, true, camera_ray(), &probes)
        .unwrap();
    assert_eq!(r.px, Uint2 { x: 1, y: 0 });
    let own = |v: &Vertex| v.le.clone().scale(v.w_le.clone()).plus(v.direct.clone());
    let (a, b) = (&s.vertex_buffer[0], &s.vertex_buffer[1]);
    assert_eq!(b.le, rgb(7.0));
    let expected = Color::zero()
        .times(Color::one())
        .plus(own(b))
        .times(b.throughput.clone())
        .plus(own(a));
    assert_eq!(r.color, expected);
}

#[test]
fn further_rays_replace_the_vertex_below() {
    let t = tracer(small());
    let mut s = state(1, 2);
    t.kernel_mk_trace(&mut s, 0, 0, 2, 2, true, false, camera_ray(), &vec![probe(1, 0.5), miss(), miss()]);
    let before = s.vertex_buffer[0].clone();
    let g = GatherProbe {
        si: surface(1, true),
        new_flags: flags(1),
        light_sample: light_sample(),
        eval: BsdfEval { f: v(0.5, 0.5, 0.5), pdf: f(0.25) },
        sample: sample(0.25),
        occluded: false,
        new_si: surface(6, true),
        light: LightHit { valid: false, le: v(0.0, 0.0, 0.0), pdf: f(0.0) },
        look: look(0.25),
        next_flags: flags(3),
    };
    t.kernel_final_gather_trace(&mut s, 0, g);
    assert_eq!(s.path_state_buf[0].depth, 1);
    assert_eq!(
        s.vertex_buffer[0].direct,
        before.direct.clone().plus(direct(&t, 1, 1))
    );
    let next = &s.vertex_buffer[1];
    assert_eq!(next.hit.inst_id, 6);
    assert_eq!(next.throughput, throughput());
    assert_eq!(next.mis, Scalar::one());
    assert_eq!((next.flags, next.new_flags), (flags(1), flags(3)));
    // a ray that meets nothing
    let missed = GatherProbe { new_si: surface(6, false), occluded: true, ..g };
    t.kernel_final_gather_trace(&mut s, 0, missed);
    assert_eq!(s.path_state_buf[0].depth, 0);
    // a path that was not handed over is left alone
    let mut s = state(1, 2);
    t.kernel_mk_trace(&mut s, 0, 0, 2, 2, true, false, camera_ray(), &vec![probe(1, 0.0), miss(), miss()]);
    let before = s.vertex_buffer[0].clone();
    t.kernel_final_gather_trace(&mut s, 0, g);
    assert_eq!(s.vertex_buffer[0], before);
}

#[test]
fn the_features_of_a_vertex() {
    let t = tracer(small());
    let albedo = rgb(0.5);
    let row = t.nrc_features(
        (v(0.0, 0.0, 0.0), v(4.0, 4.0, 4.0)),
        v(1.0, 2.0, 3.0),
        v(0.0, 0.5, 1.0),
        v(0.0, 0.0, -1.0),
        &albedo,
        f(0.25),
        1,
        StylizationFlags { stylization_disabled: true, style_index: 2 },
    );
    assert_eq!(row.len(), 22);
    let normalized = |x: f32| value(x).minus(value(0.0)).over(value(4.0).minus(value(0.0)));
    let halved = |x: f32| value(x).times(value(0.5)).plus(value(0.5));
    assert_eq!(row[..3], [normalized(1.0), normalized(2.0), normalized(3.0)]);
    assert_eq!(row[3..6], [halved(0.0), halved(0.5), halved(1.0)]);
    assert_eq!(row[6..9], [halved(0.0), halved(0.0), halved(-1.0)]);
    assert_eq!(row[9], value(0.25));
    assert_eq!(row[10], albedo.clone().channel(Axis::X));
    assert_eq!(row[12], albedo.channel(Axis::Z));
    assert_eq!(row[13..15], [Scalar::one(), Scalar::zero()]);
    let hot: Vec<bool> = row[15..].iter().map(|s| *s == Scalar::one()).collect();
    assert_eq!(hot, vec![false, false, true, false, false, true, false]);
}

fn traced(t: &NRCPathTracer, s: &mut RenderState) {
    let probes = vec![probe(1, 0.0), probe(3, 0.0), probe(4, 0.0)];
    t.kernel_mk_trace(s, 0, 0, 2, 2, false, false, camera_ray(), &probes);
}

fn points() -> Vec<SurfaceInteraction> {
    vec![surface(1, true), surface(3, true), surface(4, true)]
}

#[test]
fn vertices_are_numbered_in_order() {
    let t = tracer(small());
    let mut s = state(2, 2);
    traced(&t, &mut s);
    s.counter = 2;
    t.kernel_training_stage_nrc_inference_inputs(&mut s, 0, 1, 2, &points());
    assert_eq!(s.counter, 4);
    let ids: Vec<u32> = s.vertex_buffer.iter().map(|v| v.nrc_idx).collect();
    assert_eq!(ids[..3], [NONE, 2, 3]);
    let vertex = &s.vertex_buffer[1];
    let row = t.nrc_features(
        s.aabb,
        v(1.0, 2.0, 3.0),
        v(0.0, 0.5, 1.0),
        vertex.wo,
        &vertex.albedo,
        vertex.roughness,
        1,
        vertex.new_flags,
    );
    assert_eq!(s.inference_inputs[44..66], row[..]);
    assert_eq!(s.inference_inputs[43], Scalar::zero());
    // a path that met nothing enters nothing
    t.kernel_training_stage_nrc_inference_inputs(&mut s, 1, 0, 2, &vec![]);
    assert_eq!(s.counter, 4);
}

#[test]
fn examples_are_entered_where_they_are_finite() {
    let t = tracer(small());
    let mut s = state(2, 2);
    traced(&t, &mut s);
    t.kernel_training_stage_nrc_inference_inputs(&mut s, 0, 0, 2, &points());
    let next = s.vertex_buffer[1].clone();
    let own = s.vertex_buffer[0].le.clone().plus(s.vertex_buffer[0].direct.clone());
    let said = Color::Rgb(v(3.0, 4.0, 5.0)).stylize(1, next.hit, next.wo, next.flags);
    let expected = own
        .clone()
        .plus(said.scale(next.mis.clone()).times(next.throughput.clone()));
    assert_eq!(t.exitant_radiance(&s, 0, 0), expected);
    let last = s.vertex_buffer[2].le.clone().plus(s.vertex_buffer[2].direct.clone());
    assert_eq!(t.exitant_radiance(&s, 0, 2), last);
    s.counter = 0;
    t.kernel_training_stage_nrc_training_data(&mut s, 0, 0, 2, &points(), &vec![true, false, true]);
    assert_eq!(s.counter, 3);
    assert_eq!(s.training_targets[0], expected.clone().channel(Axis::X));
    assert_eq!(s.training_targets[2], expected.channel(Axis::Z));
    assert_eq!(s.training_targets[3], Scalar::zero());
    assert_eq!(s.training_targets[7], last.channel(Axis::Y));
    assert_eq!(s.training_inputs[..22], s.inference_inputs[..22]);
    assert_eq!(s.training_inputs[22], Scalar::zero());
    assert_eq!(s.training_inputs[44..66], s.inference_inputs[44..66]);
    // learning stylized light, the style comes last
    let styled = tracer(Config { learn_stylized_radiance: true, ..small() });
    let vertex = &s.vertex_buffer[0];
    assert_eq!(
        styled.exitant_radiance(&s, 0, 0),
        own.plus(
            Color::Rgb(v(3.0, 4.0, 5.0))
                .scale(next.mis.clone())
                .times(next.throughput.clone())
        )
        .stylize(0, vertex.hit, vertex.wo, next.flags)
    );
}

#[test]
fn first_vertices_show_the_answer() {
    let t = tracer(small());
    let mut s = state(1, 2);
    t.kernel_mk_trace(&mut s, 0, 0, 2, 0, true, false, camera_ray(), &vec![probe(1, 0.9)]);
    t.kernel_inference_stage_nrc_inference_inputs(&mut s, 0, surface(1, true));
    assert_eq!((s.counter, s.vertex_buffer[0].nrc_idx), (1, 0));
    let flat = tracer(Config { no_first_hit_stylization: true, ..small() });
    let mut s2 = state(1, 2);
    flat.kernel_mk_trace(&mut s2, 0, 0, 2, 0, true, false, camera_ray(), &vec![probe(1, 0.9)]);
    flat.kernel_inference_stage_nrc_inference_inputs(&mut s2, 0, surface(1, true));
    let r = t.kernel_inference_stage_gathering(&mut s, 0, true).unwrap();
    let vertex = &s.vertex_buffer[0];
    assert_eq!(
        r.color,
        Color::Rgb(v(0.0, 1.0, 2.0))
            .stylize(0, vertex.hit, vertex.wo, vertex.flags)
            .remove_nan()
    );
    let r = flat.kernel_inference_stage_gathering(&mut s2, 0, true).unwrap();
    assert_eq!(r.color, Color::Rgb(v(0.0, 1.0, 2.0)));
    // it is shown once, and not brought back again
    assert_eq!(s.path_state_buf[0].n_final_gathered, 1);
    assert!(t.kernel_inference_stage_gathering(&mut s, 0, true).is_none());
    assert_eq!(s.path_state_buf[0].n_final_gathered, 1);
    assert!(t.kernel_inference_stage_propagate_and_splat(&s, 0).is_none());
}

#[test]
fn gathered_light_is_averaged_and_brought_back() {
    let t = tracer(small());
    let mut s = state(1, 2);
    t.kernel_mk_trace(&mut s, 0, 0, 2, 2, true, false, camera_ray(), &vec![probe(1, 0.0), probe(3, 0.5), miss()]);
    assert_eq!(s.path_state_buf[0].splitting_depth, 1);
    let g = GatherProbe {
        si: surface(3, true),
        new_flags: flags(1),
        light_sample: light_sample(),
        eval: BsdfEval { f: v(0.5, 0.5, 0.5), pdf: f(0.25) },
        sample: sample(0.25),
        occluded: true,
        new_si: surface(6, true),
        light: LightHit { valid: false, le: v(0.0, 0.0, 0.0), pdf: f(0.0) },
        look: look(0.25),
        next_flags: flags(3),
    };
    t.kernel_final_gather_trace(&mut s, 0, g);
    t.kernel_inference_stage_nrc_inference_inputs(&mut s, 0, surface(6, true));
    assert!(t.kernel_inference_stage_gathering(&mut s, 0, true).is_none());
    let below = s.vertex_buffer[2].clone();
    let said = Color::Rgb(v(0.0, 1.0, 2.0))
        .stylize(2, below.hit, below.wo, below.flags)
        .remove_nan();
    let arrived = Color::zero().plus(said.times(below.throughput.clone()).scale(below.mis.clone()));
    assert_eq!(s.vertex_buffer[1].indirect, arrived);
    // a ray that met nothing counts too, and what is not finite receives nothing
    t.kernel_final_gather_trace(&mut s, 0, GatherProbe { new_si: surface(6, false), ..g });
    assert!(t.kernel_inference_stage_gathering(&mut s, 0, true).is_none());
    assert_eq!(s.path_state_buf[0].n_final_gathered, 2);
    t.kernel_final_gather_trace(&mut s, 0, g);
    s.counter = 0;
    t.kernel_inference_stage_nrc_inference_inputs(&mut s, 0, surface(6, true));
    assert!(t.kernel_inference_stage_gathering(&mut s, 0, false).is_none());
    assert_eq!(s.path_state_buf[0].n_final_gathered, 3);
    assert_eq!(s.vertex_buffer[1].indirect, arrived);
    let r = t.kernel_inference_stage_propagate_and_splat(&s, 0).unwrap();
    let (a, b) = (&s.vertex_buffer[0], &s.vertex_buffer[1]);
    let n = Scalar::Count(3);
    let light = b
        .le
        .clone()
        .plus(b.direct.clone().over(n.clone().plus(Scalar::one())))
        .plus(arrived.over(n))
        .stylize(1, b.hit, b.wo, b.flags);
    let expected = a
        .le
        .clone()
        .plus(a.direct.clone())
        .plus(b.throughput.clone().times(light).scale(b.mis.clone()))
        .stylize(0, a.hit, a.wo, a.flags);
    assert_eq!(r.color, expected);
}

#[test]
fn the_network_is_described() {
    let text = tracer(Config::default()).network_config();
    assert_eq!(
        text,
        concat_str(&[
            "{\"ema_decay\":0.95,",
            "\"encoding\":{\"nested\":[",
            "{\"base_resolution\":16,\"interpolation\":\"Linear\",\"log2_hashmap_size\":19,",
            "\"n_dims_to_encode\":3,\"n_features_per_level\":2,\"n_levels\":18,",
            "\"otype\":\"Grid\",\"per_level_scale\":2.0,\"type\":\"Hash\"},",
            "{\"n_bins\":4,\"n_dims_to_encode\":7,\"otype\":\"OneBlob\"},",
            "{\"otype\":\"Identity\"}],\"otype\":\"Composite\"},",
            "\"loss\":{\"otype\":\"RelativeL2\"},",
            "\"network\":{\"activation\":\"ReLU\",\"n_hidden_layers\":5,\"n_neurons\":128,",
            "\"otype\":\"FullyFusedMLP\",\"output_activation\":\"None\"},",
            "\"optimizer\":{\"decay_base\":0.9950000047683716,\"decay_end\":1000000,",
            "\"decay_interval\":50,\"decay_start\":0,",
            "\"nested\":{\"beta1\":0.9,\"beta2\":0.99,\"epsilon\":1e-8,\"l2_reg\":0.0,",
            "\"learning_rate\":0.0010000000474974513,\"otype\":\"Adam\"},",
            "\"otype\":\"ExponentialDecay\"}}",
        ])
    );
}

fn concat_str(parts: &[&str]) -> String {
    parts.concat()
}

#[test]
fn the_description_agrees_with_the_values() {
    let config = Config {
        learning_rate: f(-2.5e-7),
        decay_rate: f(f32::NAN),
        n_hidden_units: 48,
        ..Config::default()
    };
    let text = tracer(config).network_config();
    let read: serde_json::Value = serde_json::from_str(&text).unwrap();
    assert_eq!(read["optimizer"]["decay_base"], serde_json::Value::Null);
    assert_eq!(
        read["optimizer"]["nested"]["learning_rate"],
        serde_json::Value::from(-2.5e-7f32)
    );
    assert_eq!(read["optimizer"]["nested"]["epsilon"], serde_json::Value::from(1e-8));
    assert_eq!(read["network"]["otype"], serde_json::Value::from("CutlassMLP"));
    assert_eq!(read["network"]["n_neurons"], serde_json::Value::from(48));
}

#[test]
fn fast_networks_have_certain_widths() {
    for n in [16, 32, 64, 128] {
        let t = tracer(Config { n_hidden_units: n, ..Config::default() });
        assert_eq!(t.network_type(), "FullyFusedMLP");
    }
    for n in [0, 8, 48, 256] {
        let t = tracer(Config { n_hidden_units: n, ..Config::default() });
        assert_eq!(t.network_type(), "CutlassMLP");
    }
}

#[test]
fn the_sizes_of_a_rendering() {
    let t = tracer(Config { baches_per_iter: 2, batch_size: 256, ..small() });
    let p = t.plan(Uint2 { x: 100, y: 10 }, Uint2 { x: 100, y: 10 }).unwrap();
    assert_eq!(p.n_pixels, 1000);
    assert_eq!(p.training_pixels, 512 / 3);
    assert_eq!((p.n_input_dims, p.n_output_dims), (22, 3));
    assert_eq!(p.vertices, 3000);
    assert_eq!(p.training_inputs, 170 * 22 * 3);
    assert_eq!(p.training_targets, 170 * 3 * 3);
    assert_eq!(p.inference_inputs, 1000 * 22 * 3);
    assert_eq!(p.inference_outputs, 1000 * 3 * 3);
    assert_eq!(t.plan(Uint2 { x: 5, y: 5 }, Uint2 { x: 5, y: 5 }).unwrap().training_pixels, 25);
    let few = tracer(Config { baches_per_iter: 0, ..small() });
    assert_eq!(few.plan(Uint2 { x: 5, y: 5 }, Uint2 { x: 5, y: 5 }).unwrap().training_pixels, 1);
    assert!(t.plan(Uint2 { x: 0, y: 5 }, Uint2 { x: 0, y: 5 }).is_none());
    assert!(t.plan(Uint2 { x: 1 << 20, y: 1 << 20 }, Uint2 { x: 1 << 20, y: 1 << 20 }).is_none());
    let many = tracer(Config { baches_per_iter: 1 << 20, batch_size: 1 << 20, ..small() });
    assert!(many.plan(Uint2 { x: 5, y: 5 }, Uint2 { x: 5, y: 5 }).is_none());
    let deep = tracer(Config { max_depth: u32::MAX - 5, ..Config::default() });
    assert!(deep.plan(Uint2 { x: 5, y: 5 }, Uint2 { x: 5, y: 5 }).is_none());
}

#[test]
fn positions_are_relative_to_the_configured_box() {
    let scene = (v(0.0, 0.0, 0.0), v(1.0, 1.0, 1.0));
    assert_eq!(tracer(small()).scene_aabb(scene), scene);
    let bounds = vec![v(-1.0, -1.0, -1.0), v(2.0, 2.0, 2.0)];
    let b = tracer(Config { scene_bounds: Some(bounds.clone()), ..small() });
    assert_eq!(b.scene_aabb(scene), (bounds[0], bounds[1]));
}

fn report(count: u32, rate: f32, save_due: bool) -> Report {
    Report { count, learning_rate: f(rate), save_due }
}

#[test]
fn the_commands_of_a_training() {
    let config = Config { training_iters: 2, repeats: 1, baches_per_iter: 4, ..small() };
    let quiet = Session { display: false, save_intermediate: false };
    assert!(RenderLoop::start(true, &config, quiet).is_none());
    let mut l = RenderLoop::start(false, &config, quiet).unwrap();
    let got: Vec<Command> = (0..12).map(|i| l.next(report(i, 1e-3, true))).collect();
    assert_eq!(
        got,
        vec![
            Command::CollectInputs { level: 0 },
            Command::Estimate { count: 1, level: 0 },
            Command::Train { count: 2, iters: 4 },
            Command::CollectInputs { level: 0 },
            Command::Estimate { count: 4, level: 0 },
            Command::Train { count: 5, iters: 4 },
            Command::Preview,
            Command::PreviewAnswer { count: 7 },
            Command::ClearFilm,
            Command::PlainPass,
            Command::PlainAnswer { count: 10 },
            Command::Done,
        ]
    );
    assert_eq!(l.next(report(0, 1e-3, true)), Command::Done);
}

#[test]
fn training_stops_when_the_rate_is_too_low() {
    let config = Config { training_iters: 100, final_gather: Some(2), ..small() };
    let shown = Session { display: true, save_intermediate: true };
    let mut l = RenderLoop::new(&config, shown);
    let mut trained = 0;
    let mut saved = vec![];
    let mut gathered = 0;
    let mut finals = vec![];
    loop {
        let rate = if trained >= 3 { 0.9e-5 } else { 1e-3 };
        match l.next(report(1, rate, trained != 2)) {
            Command::Train { .. } => trained += 1,
            Command::Save { index } => saved.push(index),
            Command::GatherPass => gathered += 1,
            Command::Done => break,
            c => finals.push(c),
        }
    }
    assert_eq!(trained, 3);
    assert_eq!(saved, vec![0, 1]);
    assert_eq!(gathered, 2);
    assert_eq!(finals[finals.len() - 2..], [Command::Splat, Command::Show]);
}

#[test]
fn levels_are_trained_from_the_deepest_on() {
    let config = Config { training_iters: 8, per_level_training: Some(2), ..small() };
    let mut l = RenderLoop::new(&config, Session { display: false, save_intermediate: false });
    let mut levels = vec![];
    loop {
        match l.next(report(1, 1e-3, false)) {
            Command::CollectInputs { level } => levels.push(level),
            Command::Done => break,
            _ => {}
        }
    }
    assert_eq!(levels, vec![2, 2, 1, 1, 0, 0, 0, 0]);
}

#[test]
fn the_image_is_repeated() {
    for (fg, repeats, rays, plain) in [(Some(3), 2, 6, 0), (None, 4, 0, 4), (Some(0), 2, 0, 0)] {
        let config = Config { training_iters: 0, final_gather: fg, repeats, ..small() };
        let mut l = RenderLoop::new(&config, Session { display: false, save_intermediate: false });
        let (mut r, mut p, mut splats) = (0, 0, 0);
        assert_eq!(l.next(report(0, 1e-3, false)), Command::ClearFilm);
        loop {
            match l.next(report(0, 1e-3, false)) {
                Command::GatherPass => r += 1,
                Command::PlainPass => p += 1,
                Command::Splat => splats += 1,
                Command::Done => break,
                _ => {}
            }
        }
        assert_eq!((r, p), (rays, plain));
        assert_eq!(splats, if fg.is_some() { repeats } else { 0 });
    }
}

#[test]
fn a_path_adds_one_sample_over_all_rounds() {
    let t = tracer(small());
    let rounds = |probes: Vec<WalkProbe>| {
        let mut s = state(1, 2);
        t.kernel_mk_trace(&mut s, 0, 3, 2, 2, true, false, camera_ray(), &probes);
        let mut samples = vec![];
        for k in 0..3 {
            let ps = s.path_state_buf[0];
            let at = if ps.splitting_depth == NONE { ps.depth } else { ps.splitting_depth };
            let hit = s.vertex_buffer[(ps.vertex_idx + at) as usize].hit;
            let g = GatherProbe {
                si: SurfaceInteraction { inst_id: hit.inst_id, ..surface(0, true) },
                new_flags: flags(1),
                light_sample: light_sample(),
                eval: BsdfEval { f: v(0.5, 0.5, 0.5), pdf: f(0.25) },
                sample: sample(0.25),
                occluded: false,
                new_si: surface(6, k != 1),
                light: LightHit { valid: false, le: v(0.0, 0.0, 0.0), pdf: f(0.0) },
                look: look(0.5),
                next_flags: flags(2),
            };
            t.kernel_final_gather_trace(&mut s, 0, g);
            let ps = s.path_state_buf[0];
            let hit = s.vertex_buffer[(ps.vertex_idx + ps.depth) as usize].hit;
            let si = SurfaceInteraction { inst_id: hit.inst_id, ..surface(0, true) };
            s.counter = 0;
            if ps.valid {
                t.kernel_inference_stage_nrc_inference_inputs(&mut s, 0, si);
            }
            samples.extend(t.kernel_inference_stage_gathering(&mut s, 0, true));
        }
        let gathered = samples.len();
        samples.extend(t.kernel_inference_stage_propagate_and_splat(&s, 0));
        (gathered, samples)
    };
    // handed over at its first vertex, and at its second
    for probes in [
        vec![probe(1, 0.9), probe(3, 0.0), probe(4, 0.0)],
        vec![probe(1, 0.0), probe(3, 0.9), probe(4, 0.0)],
        vec![probe(1, 0.0), probe(3, 0.0), probe(4, 0.0)],
    ] {
        let (gathered, samples) = rounds(probes);
        assert_eq!((gathered, samples.len()), (0, 1));
        assert_eq!((samples[0].px, samples[0].weight), (Uint2 { x: 1, y: 1 }, f(1.0)));
    }
    // shows the answer for its first vertex
    let (gathered, samples) = rounds(vec![probe(1, 0.0), miss(), miss()]);
    assert_eq!((gathered, samples.len()), (1, 1));
    assert_eq!((samples[0].px, samples[0].weight), (Uint2 { x: 1, y: 1 }, f(1.0)));
    let (gathered, samples) = rounds(vec![miss(), miss(), miss()]);
    assert_eq!((gathered, samples.len()), (0, 0));
}
