use akari_integrator::branching_pt::advance::{BranchSample, SurfaceProbe};
use akari_integrator::branching_pt::capacity::AdvanceInput;
use akari_integrator::branching_pt::render::{Command, RenderLoop, Setup};
use akari_integrator::branching_pt::{
    BranchingPathTracer, Config, DebiasConfig, RenderState, Vertex,
};
use akari_integrator::expr::{Color, Scalar};
use akari_integrator::lighting::{
    shade_direct, BsdfEval, BsdfSample, LightHit, LightSample, SurfaceInteraction,
};
use akari_integrator::value::{
    Float2, Float3, Ray, Single, StylizationFlags, Uint2, NONE,
};

fn f(x: f32) -> Single {
    Single { bits: x.to_bits() }
}

fn v(x: f32, y: f32, z: f32) -> Float3 {
    Float3 { x: f(x), y: f(y), z: f(z) }
}

fn surface(inst_id: u32, valid: bool) -> SurfaceInteraction {
    SurfaceInteraction {
        inst_id,
        prim_id: 2,
        bary: Float2 { x: f(0.25), y: f(0.5) },
        p: v(1.0, 2.0, 3.0),
        ng: v(0.0, 1.0, 0.0),
        ns: v(0.0, 1.0, 0.0),
        valid,
    }
}

fn no_light() -> LightHit {
    LightHit { valid: false, le: v(0.0, 0.0, 0.0), pdf: f(0.0) }
}

fn probe(roughness: f32) -> SurfaceProbe {
    SurfaceProbe {
        si: surface(1, true),
        light: no_light(),
        new_flags: StylizationFlags { stylization_disabled: false, style_index: 1 },
        roughness: f(roughness),
    }
}

fn sample(inst_id: u32, pdf: f32, occluded: bool, hits: bool) -> BranchSample {
    BranchSample {
        light: LightSample {
            valid: true,
            li: v(1.0, 1.0, 1.0),
            wi: v(0.0, 1.0, 0.0),
            pdf: f(0.5),
            shadow_ray: Ray::zeroed(),
            si: surface(9, true),
        },
        eval: BsdfEval { f: v(0.5, 0.5, 0.5), pdf: f(0.25) },
        occluded,
        bs: BsdfSample {
            wi: v(0.0, 0.0, 1.0),
            pdf: f(pdf),
            color: v(0.25, 0.25, 0.25),
            origin: v(1.0, 2.0, 3.0),
        },
        next_hit: surface(inst_id, hits),
    }
}

fn tracer(max_depth: u32, inner: Vec<u32>, debias: Option<DebiasConfig>) -> BranchingPathTracer {
    BranchingPathTracer::new(Config {
        max_depth,
        vram: 1,
        use_nee: true,
        rr_depth: 5,
        repeats: 1,
        inner_samples: inner,
        debias,
    })
}

fn state(table: Vec<u32>) -> RenderState {
    RenderState {
        vertex_buffer: vec![],
        n_inner_samples: table,
        debiasing_direct_radiance: vec![],
    }
}

#[test]
fn branching_defaults() {
    let c = Config::default();
    assert_eq!(c.max_depth, 7);
    assert_eq!(c.rr_depth, 5);
    assert_eq!(c.vram, 1024 * 8);
    assert!(c.use_nee);
    assert_eq!(c.repeats, 1);
    assert_eq!(c.inner_samples, vec![256, 32, 8, 1]);
    assert!(c.debias.is_none());
    let d = DebiasConfig::default();
    assert_eq!(d.r, f(0.65));
    assert!(d.jackknife);
}

#[test]
fn first_vertices_are_stored_where_a_surface_is_met() {
    let t = tracer(3, vec![2], None);
    let mut s = state(vec![2, 1, 1, 1]);
    assert_eq!(t.kernel_init(&mut s, 5, 0, v(0.0, 0.0, -1.0), surface(1, true)), Some(0));
    assert_eq!(t.kernel_init(&mut s, 5, 1, v(0.0, 0.0, -1.0), surface(1, false)), None);
    assert_eq!(t.kernel_init(&mut s, 5, 2, v(0.0, 0.0, -1.0), surface(4, true)), Some(1));
    assert_eq!(s.vertex_buffer.len(), 2);
    let mut expected = Vertex::blank();
    expected.parent = 7;
    expected.hit = surface(4, true).hit();
    expected.wo = v(-0.0, -0.0, 1.0);
    assert_eq!(s.vertex_buffer[1], expected);
}

#[test]
fn a_rough_surface_branches_into_linked_vertices() {
    let t = tracer(3, vec![3], None);
    let mut s = state(vec![3, 1, 1, 1]);
    t.kernel_init(&mut s, 0, 0, v(0.0, 0.0, -1.0), surface(1, true));
    let samples = vec![sample(2, 0.5, false, true), sample(3, 0.0, true, true), sample(4, 0.5, false, true)];
    assert_eq!(t.inner_samples_of(&s, 0, f(0.5), 0), 3);
    t.kernel_advance(&mut s, 0, 0, probe(0.5), 0, &samples);
    assert_eq!(s.vertex_buffer.len(), 3);
    let (a, b) = (&s.vertex_buffer[1], &s.vertex_buffer[2]);
    assert_eq!((a.slibing, a.indirect_branch_idx, a.parent), (NONE, 0, 0));
    assert_eq!((b.slibing, b.indirect_branch_idx, b.parent), (1, 2, 0));
    assert_eq!(a.actual_branching_depths, 1);
    assert_eq!(
        a.throughput,
        Color::Rgb(v(0.25, 0.25, 0.25)).over(Scalar::Value(f(0.5)))
    );
    assert_eq!(a.wo, v(-0.0, -0.0, -1.0));
    let parent = &s.vertex_buffer[0];
    assert_eq!(parent.indirect_vertex, 2);
    assert_eq!(parent.n_inner_samples, 3);
    assert_eq!(parent.mis, Scalar::one());
    let dl = t.sample_light(surface(1, true), 1, probe(0.5).new_flags, samples[0].light);
    let direct = shade_direct(&dl, samples[0].eval)
        .scale(Scalar::one().over(Scalar::Count(3)));
    assert_eq!(
        parent.radiance,
        Color::zero().plus(Color::zero()).plus(direct.clone()).plus(direct)
    );
}

#[test]
fn a_smooth_surface_does_not_branch() {
    let t = tracer(3, vec![3], None);
    let mut s = state(vec![3, 1, 1, 1]);
    t.kernel_init(&mut s, 0, 0, v(0.0, 0.0, -1.0), surface(1, true));
    assert_eq!(t.inner_samples_of(&s, 0, f(0.01), 0), 1);
    t.kernel_advance(&mut s, 0, 0, probe(0.01), 0, &vec![sample(2, 0.5, true, true)]);
    assert_eq!(s.vertex_buffer.len(), 2);
    assert_eq!(s.vertex_buffer[1].actual_branching_depths, 0);
}

#[test]
fn the_last_level_makes_no_vertices() {
    let t = tracer(0, vec![2], None);
    let mut s = state(vec![2]);
    t.kernel_init(&mut s, 0, 0, v(0.0, 0.0, -1.0), surface(1, true));
    t.kernel_advance(&mut s, 0, 0, probe(0.5), 0, &vec![]);
    assert_eq!(s.vertex_buffer.len(), 1);
    assert_eq!(s.vertex_buffer[0].indirect_vertex, NONE);
}

#[test]
fn light_is_averaged_and_stylized_on_the_way_back() {
    let t = tracer(1, vec![2], None);
    let mut s = state(vec![2, 1]);
    t.kernel_init(&mut s, 3, 0, v(0.0, 0.0, -1.0), surface(1, true));
    let samples = vec![sample(2, 0.5, true, true), sample(3, 0.5, true, true)];
    t.kernel_advance(&mut s, 0, 0, probe(0.5), 0, &samples);
    let lit = SurfaceProbe {
        light: LightHit { valid: true, le: v(8.0, 8.0, 8.0), pdf: f(0.5) },
        ..probe(0.5)
    };
    t.kernel_advance(&mut s, 1, 1, lit, 0, &vec![]);
    t.kernel_advance(&mut s, 2, 1, probe(0.5), 0, &vec![]);
    let below = t.kernel_propagate(&mut s, 1, 1, 2);
    assert!(below.sample.is_none());
    t.kernel_propagate(&mut s, 2, 1, 2);
    let top = t.kernel_propagate(&mut s, 0, 0, 2);
    let px = top.sample.unwrap();
    assert_eq!(px.px, Uint2 { x: 1, y: 1 });
    assert!(matches!(px.color, Color::Stylize { path_depth: 0, .. }));
    assert_eq!(s.vertex_buffer[0].radiance, px.color);
}

#[test]
fn debiasing_keeps_every_direct_light() {
    let t = tracer(1, vec![2], Some(DebiasConfig { r: f(0.65), jackknife: true }));
    let mut s = state(vec![2, 1]);
    t.kernel_init(&mut s, 0, 0, v(0.0, 0.0, -1.0), surface(1, true));
    assert_eq!(t.inner_samples_of(&s, 0, f(0.5), 1), 3);
    let samples = vec![sample(2, 0.5, false, true), sample(3, 0.5, true, true), sample(4, 0.5, false, false)];
    t.kernel_advance(&mut s, 0, 0, probe(0.5), 1, &samples);
    assert_eq!(s.debiasing_direct_radiance.len(), 3);
    assert_eq!(s.debiasing_direct_radiance[1], Color::zero());
    assert_eq!(s.vertex_buffer[0].debias_radiance_idx, 0);
    assert_eq!(s.vertex_buffer[0].debiasing_samples, 1);
    assert_eq!(s.vertex_buffer.len(), 3);
    let r = t.kernel_propagate(&mut s, 0, 0, 1);
    assert!(r.sample.is_some());
}

#[test]
fn draws_are_counted_up_to_the_first_success() {
    assert_eq!(BranchingPathTracer::count_draws(&vec![false, false, true, true]), Some(3));
    assert_eq!(BranchingPathTracer::count_draws(&vec![true]), Some(1));
    assert_eq!(BranchingPathTracer::count_draws(&vec![false]), None);
}

#[test]
fn a_level_is_advanced_vertex_by_vertex() {
    let t = tracer(2, vec![2], None);
    let mut s = state(vec![2, 1, 1]);
    t.kernel_init(&mut s, 0, 0, v(0.0, 0.0, -1.0), surface(1, true));
    t.kernel_init(&mut s, 0, 1, v(0.0, 0.0, -1.0), surface(1, true));
    let input = |roughness: f32, n: usize| AdvanceInput {
        probe: probe(roughness),
        draw: 0,
        samples: vec![sample(5, 0.5, true, true); n],
    };
    t.advance_level(&mut s, 0, 0, &vec![input(0.5, 2), input(0.0, 1)]);
    assert_eq!(s.vertex_buffer.len(), 5);
    let depths: Vec<u32> = s.vertex_buffer.iter().map(|v| v.actual_branching_depths).collect();
    assert_eq!(depths, vec![0, 0, 1, 1, 0]);
    let parents: Vec<u32> = s.vertex_buffer[2..].iter().map(|v| v.parent).collect();
    assert_eq!(parents, vec![0, 0, 1]);
    assert_eq!((s.vertex_buffer[0].indirect_vertex, s.vertex_buffer[1].indirect_vertex), (3, 4));
    assert_eq!((s.vertex_buffer[0].n_inner_samples, s.vertex_buffer[1].n_inner_samples), (2, 1));
    t.advance_level(&mut s, 2, 1, &vec![input(0.5, 1), input(0.5, 1), input(0.5, 2)]);
    assert_eq!(s.vertex_buffer.len(), 9);
    let room = t.total_vertices_per_pixel(0).unwrap();
    assert!(s.vertex_buffer.len() <= 2 * room as usize);
}

#[test]
fn room_is_made_for_all_levels() {
    let t = tracer(2, vec![4, 2], None);
    assert_eq!(t.total_vertices_per_pixel(0), Some(1 + 4 + 8 + 8 + 1 + 2));
    let d = tracer(1, vec![4, 2], Some(DebiasConfig { r: f(0.65), jackknife: true }));
    assert_eq!(d.total_vertices_per_pixel(1), Some(1 + 5 + 15 + 1 + 1));
    assert_eq!(tracer(7, vec![u32::MAX, u32::MAX], None).total_vertices_per_pixel(0), None);
}

#[test]
fn a_pass_is_as_large_as_memory_allows() {
    let t = tracer(2, vec![4, 2], None);
    let size = Uint2 { x: 10, y: 20 };
    match t.plan(size, size, 24, 100) {
        Setup::Ready(plan) => {
            assert_eq!(plan.n_pixels, 200);
            assert_eq!(plan.pixels_per_pass, (1024 * 1024) / 2400);
            assert_eq!(plan.n_inner_samples, vec![4, 2, 1]);
            assert_eq!(plan.pass_size(), 436);
        }
        Setup::NotEnoughVram => panic!("there is room"),
    }
    assert!(matches!(t.plan(size, size, 1024, 2048), Setup::NotEnoughVram));
    match t.setup(size, size, 0, 100) {
        Some(Setup::Ready(plan)) => {
            assert_eq!(plan.total_vertices_per_pixel, 24);
            assert_eq!(plan.pixels_per_pass, 436);
            assert_eq!(plan.vertex_capacity, 24 * 436);
            assert_eq!(plan.debias_capacity, 1);
        }
        _ => panic!("there is room"),
    }
    assert!(matches!(t.setup(size, size, 0, 1024 * 1024), Some(Setup::NotEnoughVram)));
    assert!(tracer(7, vec![u32::MAX, u32::MAX], None).setup(size, size, 0, 1).is_none());
}

#[test]
fn every_pixel_is_rendered_in_adjacent_passes() {
    assert!(RenderLoop::start(true, 5, 0, 1, 2).is_none());
    let mut l = RenderLoop::start(false, 5, 2, 1, 2).unwrap();
    let mut started = vec![];
    let mut advanced = vec![];
    let mut shown = 0;
    loop {
        let counter = match l.phase {
            akari_integrator::branching_pt::render::Phase::Init => l.cur_pass,
            akari_integrator::branching_pt::render::Phase::Advance { .. } => {
                *l.starts.last().unwrap() + 3
            }
            _ => 0,
        };
        match l.next(counter) {
            Command::Init { start, count } => {
                started.push((start, count));
                advanced.clear();
            }
            Command::Advance { start, count, depth } => advanced.push((start, count, depth)),
            Command::Propagate { start, count, depth } => {
                assert_eq!(advanced.pop(), Some((start, count, depth)));
            }
            Command::Present { pixels } => {
                shown += pixels;
                assert_eq!(l.repeat_is_done(), shown % 5 == 0);
            }
            Command::Done => break,
        }
    }
    assert_eq!(started, vec![(0, 2), (2, 2), (4, 1), (0, 2), (2, 2), (4, 1)]);
    assert_eq!(shown, 10);
    assert_eq!(l.next(0), Command::Done);
}
