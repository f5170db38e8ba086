use akari_integrator::expr::{mis_weight, Color, Scalar};
use akari_integrator::hash_grid::{GridLayout, GridPoint, HashGrid};
use akari_integrator::lighting::{
    BsdfEval, BsdfSample, LightHit, LightSample, SurfaceInteraction,
};
use akari_integrator::lm_path_filtering::cluster::{
    attempt, claim_interleaved, claim_step, Attempt, Claim,
};
use akari_integrator::lm_path_filtering::filter::{reservoir, NeighborEval, Query};
use akari_integrator::lm_path_filtering::render::{Command, FilterLoop, Layout};
use akari_integrator::lm_path_filtering::trace::TraceProbe;
use akari_integrator::lm_path_filtering::{
    Config, DensitySum, IrradianceRecord, PathFiltering, PathState, RenderState, Vertex,
};
use akari_integrator::value::{
    Float2, Float3, Ray, Single, StylizationFlags, Uint2, Uint3, NONE,
};

fn f(x: f32) -> Single {
    Single { bits: x.to_bits() }
}

fn v(x: f32, y: f32, z: f32) -> Float3 {
    Float3 { x: f(x), y: f(y), z: f(z) }
}

fn rgb(x: f32) -> Color {
    Color::Rgb(v(x, x, x))
}

fn surface(inst_id: u32, x: f32, valid: bool) -> SurfaceInteraction {
    SurfaceInteraction {
        inst_id,
        prim_id: 2,
        bary: Float2 { x: f(0.25), y: f(0.5) },
        p: v(x, 0.0, 0.0),
        ng: v(0.0, 1.0, 0.0),
        ns: v(0.0, 1.0, 0.0),
        valid,
    }
}

fn flags(style_index: u32) -> StylizationFlags {
    StylizationFlags { stylization_disabled: false, style_index }
}

fn probe(x: f32, valid: bool) -> TraceProbe {
    TraceProbe {
        si: surface(1, x, valid),
        light: LightHit { valid: false, le: v(0.0, 0.0, 0.0), pdf: f(0.0) },
        new_flags: flags(1),
        light_sample: LightSample {
            valid: true,
            li: v(2.0, 2.0, 2.0),
            wi: v(0.0, 1.0, 0.0),
            pdf: f(0.5),
            shadow_ray: Ray::zeroed(),
            si: surface(9, 0.0, true),
        },
        occluded: false,
        sample: BsdfSample {
            wi: v(0.0, 0.0, 1.0),
            pdf: f(0.25),
            color: v(0.5, 0.5, 0.5),
            origin: v(x, 0.0, 0.0),
        },
    }
}

fn camera_ray() -> Ray {
    Ray { o: v(0.0, 0.0, 5.0), d: v(0.0, 0.0, -1.0), ..Ray::zeroed() }
}

fn tracer(config: Config) -> PathFiltering {
    PathFiltering::new(config)
}

fn plain() -> Config {
    Config { cluster: false, ..Config::default() }
}

fn state(n: usize, reuses: Vec<u32>) -> RenderState {
    RenderState {
        first_hit_radiance_buf: (0..n).map(|_| Color::zero()).collect(),
        path_state_buf: vec![PathState::zeroed(); n],
        reuses_per_depth: reuses,
        neighbor_counter: 0,
        vertex_buf: (0..n).map(|_| Vertex::blank()).collect(),
        ray_buf: vec![Ray::zeroed(); n],
        record_buf: (0..n).map(|_| IrradianceRecord::zeroed()).collect(),
        neighbor_buf: vec![0; 64],
    }
}

fn point(x: u32) -> GridPoint {
    GridPoint { p: v(x as f32, 0.0, 0.0), scaled: Uint3 { x, y: 0, z: 0 } }
}

/// Paths whose first vertices lie at the given places, and the grid of them.
fn scene(t: &PathFiltering, places: &[u32], reuses: Vec<u32>) -> (RenderState, HashGrid<u32>) {
    let n = places.len();
    let mut s = state(n, reuses);
    for (i, x) in places.iter().enumerate() {
        t.kernel_mk_trace(&mut s, i as u32, i as u32, 2, 0, 1, camera_ray(), probe(*x as f32, true));
    }
    let mut grid = HashGrid::new(
        (v(0.0, 0.0, 0.0), v(8.0, 8.0, 8.0)),
        Uint3 { x: 8, y: 1, z: 1 },
        f(1.0),
        1009,
        n,
        0,
    );
    let (_, indices) = t.gather_points(&s, 0);
    for i in indices {
        grid.build_kernel(point(places[i as usize]), i);
    }
    (s, grid)
}

fn near(grid: &HashGrid<u32>, p: GridPoint) -> Vec<bool> {
    let var = akari_integrator::hash_grid::HashGridVar { grid };
    var.neighbor_indices(p)
        .iter()
        .map(|i| {
            let d = f32::from_bits(grid.pos[*i as usize].p.x.bits) - f32::from_bits(p.p.x.bits);
            d.abs() <= 1.0
        })
        .collect()
}

fn eval(alternatives: Vec<f32>) -> NeighborEval {
    NeighborEval {
        direct: BsdfEval { f: v(0.5, 0.5, 0.5), pdf: f(0.125) },
        no_direction: false,
        indirect: BsdfEval { f: v(0.75, 0.75, 0.75), pdf: f(0.25) },
        alternative_pdfs: alternatives.into_iter().map(f).collect(),
    }
}

#[test]
fn filtering_defaults() {
    let c = Config::default();
    assert_eq!(c.max_depth, 7);
    assert_eq!(c.repeats, 1);
    assert_eq!(c.branch, 1);
    assert_eq!(c.radius_scale, vec![f(0.1), f(0.05)]);
    assert_eq!(c.reuse, vec![128, 64]);
    assert_eq!(c.vram, 2048);
    assert!(c.smis && c.cluster);
    assert!(!c.no_first_hit_stylization && !c.disable_flag_check);
    assert!(c.scene_bounds.is_none());
}

#[test]
fn a_path_is_traced_vertex_by_vertex() {
    let t = tracer(plain());
    let mut s = state(2, vec![4]);
    t.kernel_mk_trace(&mut s, 1, 3, 2, 0, 1, camera_ray(), probe(1.0, true));
    let ps = s.path_state_buf[1];
    assert!(ps.valid && !ps.terminated);
    assert_eq!(ps.px, Uint2 { x: 1, y: 1 });
    assert_eq!(ps.vertex_idx, 1);
    assert_eq!(ps.prev_bsdf_pdf, f(0.25));
    assert_eq!(ps.flags, flags(1));
    let vertex = &s.vertex_buf[1];
    assert_eq!(vertex.wo, v(-0.0, -0.0, 1.0));
    assert_eq!(vertex.flags, StylizationFlags::zeroed());
    assert_eq!(vertex.new_flags, flags(1));
    assert_eq!(vertex.mis, Scalar::one());
    assert_eq!(vertex.direct.pdf, f(0.5));
    assert_eq!(vertex.direct.mis, Scalar::one());
    assert_eq!(vertex.cluster_id, NONE);
    assert_eq!(s.ray_buf[1], Ray::leaving(v(1.0, 0.0, 0.0), v(0.0, 0.0, 1.0), 1, 2));
    // the next vertex lies on a light
    let mut next = probe(2.0, true);
    next.light = LightHit { valid: true, le: v(3.0, 3.0, 3.0), pdf: f(0.5) };
    let head = t.path_head(&s, 1, 3, 2, 1, camera_ray());
    assert_eq!(head.ray, s.ray_buf[1]);
    t.kernel_mk_trace(&mut s, 1, 3, 2, 1, 1, camera_ray(), next);
    let vertex = &s.vertex_buf[1];
    assert_eq!(vertex.le, rgb(3.0));
    assert_eq!(vertex.mis, mis_weight(Scalar::Value(f(0.25)), Scalar::Value(f(0.5)), 1));
    assert_eq!(vertex.direct, IrradianceRecord::zeroed());
    assert_eq!(s.path_state_buf[1].depth, 1);
}

#[test]
fn paths_end_where_nothing_is_met() {
    let t = tracer(plain());
    let mut s = state(1, vec![4]);
    t.kernel_mk_trace(&mut s, 0, 0, 2, 0, 3, camera_ray(), probe(1.0, false));
    assert!(s.path_state_buf[0].terminated && !s.path_state_buf[0].valid);
    t.kernel_mk_trace(&mut s, 0, 0, 2, 1, 3, camera_ray(), probe(1.0, true));
    assert!(!s.path_state_buf[0].valid);
    let mut s = state(1, vec![4]);
    let mut stuck = probe(1.0, true);
    stuck.sample.pdf = f(0.0);
    stuck.occluded = true;
    t.kernel_mk_trace(&mut s, 0, 0, 2, 0, 3, camera_ray(), stuck);
    assert!(s.path_state_buf[0].terminated && s.path_state_buf[0].valid);
    assert_eq!(s.vertex_buf[0].direct, IrradianceRecord::zeroed());
}

#[test]
fn each_path_is_gathered_once() {
    let t = tracer(plain());
    let mut s = state(4, vec![4]);
    for (i, depth, valid) in [(0usize, 2, true), (1, 0, true), (2, 2, false), (3, 1, true)] {
        s.path_state_buf[i].depth = depth;
        s.path_state_buf[i].valid = valid;
        s.path_state_buf[i].vertex_idx = i as u32;
        s.vertex_buf[i].p = v(i as f32, 0.0, 0.0);
    }
    let (pos, indices) = t.gather_points(&s, 1);
    assert_eq!(indices, vec![0, 3]);
    assert_eq!(pos, vec![v(0.0, 0.0, 0.0), v(3.0, 0.0, 0.0)]);
    assert_eq!(t.gather_points(&s, 0).1, vec![0, 1, 3]);
    assert_eq!(t.gather_points(&s, 3).1, Vec::<u32>::new());
}

#[test]
fn light_is_added_to_pixels_and_shown() {
    let t = tracer(plain());
    let (mut s, _) = scene(&t, &[1, 2], vec![4]);
    s.vertex_buf[1].radiance = rgb(4.0);
    t.kernel_splat(&mut s, 1, 2);
    assert_eq!(s.first_hit_radiance_buf[1], Color::zero().plus(rgb(4.0)));
    let scale = Scalar::Value(f(0.5));
    let sample = t.kernel_update_film(&s, 1, 2, &scale).unwrap();
    assert_eq!(sample.px, Uint2 { x: 1, y: 0 });
    let light = Color::zero().plus(rgb(4.0)).scale(scale.clone());
    let vertex = &s.vertex_buf[1];
    assert_eq!(
        sample.color,
        light.clone().stylize(0, vertex.hit, vertex.wo, vertex.flags)
    );
    let flat = tracer(Config { no_first_hit_stylization: true, ..plain() });
    assert_eq!(flat.kernel_update_film(&s, 1, 2, &scale).unwrap().color, light);
    s.path_state_buf[1].valid = false;
    assert!(t.kernel_update_film(&s, 1, 2, &scale).is_none());
    t.kernel_reset_radiance_buf(&mut s, 1);
    assert_eq!(s.first_hit_radiance_buf[1], Color::zero());
}

#[test]
fn attempts_to_join_a_cluster() {
    assert_eq!(attempt(1, 1, 3), Attempt::Joined);
    assert_eq!(attempt(1, 2, 3), Attempt::Retry);
    assert_eq!(attempt(2, 3, 3), Attempt::Full);
    assert_eq!(attempt(3, 3, 3), Attempt::Full);
    let mut size: u32 = 2;
    assert_eq!(claim_step(&mut size, Claim::Read, 3), Claim::Exchange { cur_cnt: 2 });
    assert_eq!(claim_step(&mut size, Claim::Exchange { cur_cnt: 2 }, 3), Claim::Joined);
    assert_eq!(size, 3);
    assert_eq!(claim_step(&mut size, Claim::Read, 3), Claim::Full);
    assert_eq!(claim_step(&mut size, Claim::Exchange { cur_cnt: 1 }, 9), Claim::Read);
}

#[test]
fn clusters_do_not_outgrow_their_limit_in_any_order() {
    for schedule in [
        vec![0usize, 1, 2, 0, 1, 2, 0, 1, 2, 0, 1, 2, 0, 1, 2],
        vec![2, 2, 1, 1, 0, 0, 0],
        vec![0, 1, 1, 0, 0, 0, 2, 2],
    ] {
        let mut size: u32 = 0;
        let mut claims = vec![Claim::Read; 3];
        claim_interleaved(&mut size, &mut claims, 2, &schedule);
        let joined = claims.iter().filter(|c| **c == Claim::Joined).count() as u32;
        assert_eq!(size, joined);
        assert!(size <= 2);
    }
}

#[test]
fn the_first_vertex_of_a_chain_becomes_a_centre() {
    let t = tracer(Config::default());
    let (mut s, grid) = scene(&t, &[1, 1, 2], vec![4]);
    let mut ids = vec![7; 1009];
    for tid in 0..1009 {
        t.kernel_reset_cluster_id_buf(&mut ids, tid);
    }
    assert!(ids.iter().all(|i| *i == NONE));
    for (tid, x) in [1, 1, 2].iter().enumerate() {
        t.kernel_init_cluster(&mut s, tid as u32, 0, &grid, point(*x), &mut ids);
    }
    let centres: Vec<u32> = s.vertex_buf.iter().map(|v| v.cluster_id).collect();
    assert_eq!(centres, vec![0, NONE, 2]);
    assert!(!t.kernel_cluster(&mut s, 1, 0, &grid, point(1), &near(&grid, point(1))));
    assert!(s.vertex_buf[1].cluster_id != NONE);
}

#[test]
fn rounds_of_clustering_come_to_an_end() {
    let t = tracer(Config::default());
    let places = [1, 1, 1, 1, 2, 7];
    let (mut s, grid) = scene(&t, &places, vec![1]);
    let points: Vec<GridPoint> = places.iter().map(|x| point(*x)).collect();
    let nears: Vec<Vec<bool>> = points.iter().map(|p| near(&grid, *p)).collect();
    let first = t.cluster_round(&mut s, 0, &grid, &points, &nears);
    assert!(first > 0 && first < 6);
    t.cluster_depth(&mut s, 0, &grid, &points, &nears);
    for v in &s.vertex_buf {
        let c = v.cluster_id as usize;
        assert_eq!(s.vertex_buf[c].cluster_id as usize, c);
        assert!(s.vertex_buf[c].cluster_size <= 1);
    }
    for c in 0..6u32 {
        let members = s.vertex_buf.iter().filter(|v| v.cluster_id == c).count() as u32;
        let size = s.vertex_buf[c as usize].cluster_size;
        assert_eq!(members, if s.vertex_buf[c as usize].cluster_id == c { size + 1 } else { 0 });
    }
}

#[test]
fn clusters_do_not_mind_what_other_depths_left_behind() {
    let t = tracer(Config::default());
    let places = [1, 1, 2, 2];
    let mut s = state(4, vec![4]);
    s.vertex_buf[3].cluster_id = 0;
    s.vertex_buf[3].cluster_size = 9;
    for (i, x) in places.iter().enumerate() {
        let p = probe(*x as f32, i < 3);
        t.kernel_mk_trace(&mut s, i as u32, i as u32, 2, 0, 1, camera_ray(), p);
    }
    s.vertex_buf[3].p = point(2).p;
    let mut grid = HashGrid::new(
        (v(0.0, 0.0, 0.0), v(8.0, 8.0, 8.0)),
        Uint3 { x: 8, y: 1, z: 1 },
        f(1.0),
        1009,
        4,
        0,
    );
    let (_, indices) = t.gather_points(&s, 0);
    assert_eq!(indices, vec![0, 1, 2]);
    for i in indices {
        grid.build_kernel(point(places[i as usize]), i);
    }
    let points: Vec<GridPoint> = places.iter().map(|x| point(*x)).collect();
    let nears: Vec<Vec<bool>> = points.iter().map(|p| near(&grid, *p)).collect();
    assert_eq!(t.cluster_round(&mut s, 0, &grid, &points, &nears), 0);
    let centres: Vec<u32> = s.vertex_buf.iter().map(|v| v.cluster_id).collect();
    assert_eq!(centres[0], 0);
    assert_eq!(centres[2], 2);
    assert!(centres[1] == 0 || centres[1] == 2);
    assert_eq!((centres[3], s.vertex_buf[3].cluster_size), (0, 9));
    let joined = points[centres[1] as usize].p.x;
    assert!((f32::from_bits(joined.bits) - 1.0).abs() <= 1.0);
    assert_eq!(s.vertex_buf[0].cluster_size + s.vertex_buf[2].cluster_size, 1);
}

#[test]
fn vertices_join_only_what_is_near() {
    let t = tracer(Config::default());
    let places = [1, 1, 2];
    let (mut s, grid) = scene(&t, &places, vec![4]);
    let points: Vec<GridPoint> = places.iter().map(|x| point(*x)).collect();
    let far: Vec<Vec<bool>> =
        points.iter().map(|p| vec![false; near(&grid, *p).len()]).collect();
    assert_eq!(t.cluster_round(&mut s, 0, &grid, &points, &far), 1);
    let centres: Vec<u32> = s.vertex_buf.iter().map(|v| v.cluster_id).collect();
    assert_eq!(centres, vec![0, NONE, 2]);
    t.cluster_depth(&mut s, 0, &grid, &points, &far);
    let centres: Vec<u32> = s.vertex_buf.iter().map(|v| v.cluster_id).collect();
    assert_eq!(centres, vec![0, 1, 2]);
}

#[test]
fn a_reservoir_keeps_candidates() {
    assert_eq!(reservoir(&vec![4, 5], &vec![], 3), vec![4, 5]);
    assert_eq!(reservoir(&vec![4, 5, 6, 7, 8], &vec![1, 4], 3), vec![4, 7, 6]);
    assert_eq!(reservoir(&vec![4, 5, 6, 7, 8], &vec![7, 2], 3), vec![4, 5, 8]);
    assert_eq!(reservoir(&vec![], &vec![], 3), Vec::<u32>::new());
}

#[test]
fn candidates_share_cluster_and_flags() {
    let t = tracer(plain());
    let (mut s, grid) = scene(&t, &[1, 1, 2, 7], vec![4]);
    let query = |g: &HashGrid<u32>| Query {
        point: point(1),
        near: near(g, point(1)),
        center_near: true,
        draws: vec![],
    };
    let found = |t: &PathFiltering, s: &RenderState| {
        let mut r = t.neighbor_candidates(s, 0, 0, flags(1), &grid, &query(&grid));
        r.sort();
        r
    };
    assert_eq!(found(&t, &s), vec![0, 1, 2]);
    s.vertex_buf[1].new_flags = flags(2);
    assert_eq!(found(&t, &s), vec![0, 2]);
    let lax = tracer(Config { disable_flag_check: true, ..plain() });
    assert_eq!(found(&lax, &s), vec![0, 1, 2]);
    let clustered = tracer(Config::default());
    s.vertex_buf[0].cluster_id = 0;
    s.vertex_buf[2].cluster_id = 0;
    assert_eq!(found(&clustered, &s), vec![0, 2]);
    s.path_state_buf[2].valid = false;
    assert_eq!(found(&clustered, &s), vec![0]);
}

#[test]
fn densities_are_positive_where_one_is() {
    let s = DensitySum::zero().plus(f(0.0));
    assert!(!s.positive);
    let s = s.plus(f(0.5)).plus(f(0.0));
    assert!(s.positive);
    assert_eq!(
        s.value,
        Scalar::zero()
            .plus(Scalar::Value(f(0.0)))
            .plus(Scalar::Value(f(0.5)))
            .plus(Scalar::Value(f(0.0)))
    );
}

fn direct_of(s: &RenderState, i: usize, cnt: u32) -> Color {
    let r = &s.vertex_buf[i].direct;
    Color::Rgb(v(0.5, 0.5, 0.5))
        .times(r.irradiance.clone())
        .scale(r.mis.clone())
        .scale(mis_weight(Scalar::Value(r.pdf), Scalar::Value(f(0.125)), 1))
        .over(Scalar::Value(r.pdf))
        .over(Scalar::Count(cnt))
}

#[test]
fn a_vertex_is_filtered_without_weights() {
    let t = tracer(Config { smis: false, ..plain() });
    let (mut s, grid) = scene(&t, &[1], vec![4]);
    s.vertex_buf[0].indirect.wi = v(0.0, 1.0, 0.0);
    s.vertex_buf[0].indirect.irradiance = rgb(6.0);
    s.vertex_buf[0].indirect.mis = Scalar::one();
    let query = Query { point: point(1), near: near(&grid, point(1)), center_near: true, draws: vec![] };
    let direct = Color::zero().plus(direct_of(&s, 0, 1));
    let indirect = Color::zero().plus(
        Color::Rgb(v(0.75, 0.75, 0.75))
            .times(rgb(6.0))
            .scale(Scalar::one())
            .over(Scalar::Value(f(0.25)))
            .over(Scalar::Count(1)),
    );
    let v0 = s.vertex_buf[0].clone();
    t.kernel_filter(&mut s, 0, 0, &vec![0], 0, surface(1, 1.0, true), &grid, &query, &vec![eval(vec![])]);
    let expected = Color::zero().plus(direct).plus(indirect).stylize(0, v0.hit, v0.wo, flags(1));
    assert_eq!(s.vertex_buf[0].radiance, expected);
    assert_eq!(s.record_buf[0], IrradianceRecord::zeroed());
    assert_eq!(s.neighbor_counter, 1);
    assert_eq!(s.neighbor_buf[0], 0);
}

#[test]
fn a_vertex_is_filtered_with_stored_sums() {
    let t = tracer(Config::default());
    let (mut s, grid) = scene(&t, &[1, 1], vec![4]);
    for i in 0..2 {
        s.vertex_buf[i].cluster_id = 0;
        s.vertex_buf[i].indirect.wi = v(0.0, 1.0, 0.0);
        s.vertex_buf[i].indirect.irradiance = rgb(6.0);
    }
    let query = Query { point: point(1), near: near(&grid, point(1)), center_near: true, draws: vec![] };
    let evals = vec![eval(vec![0.5, 0.25]), eval(vec![0.125, 0.25])];
    let kept = t.neighbor_candidates(&s, 0, 0, flags(1), &grid, &query);
    assert_eq!(kept.len(), 2);
    t.kernel_filter(&mut s, 1, 0, &vec![1, 0], 0, surface(1, 1.0, true), &grid, &query, &evals);
    // the vertex of path 0 was filtered last, so it keeps what it had
    assert!(!s.vertex_buf[0].sum_pdf.positive);
    assert!(s.vertex_buf[1].sum_pdf.positive);
    let at = kept.iter().position(|i| *i == 1).unwrap();
    let pdfs = &evals[at].alternative_pdfs;
    assert_eq!(
        s.vertex_buf[1].sum_pdf.value,
        Scalar::zero().plus(Scalar::Value(pdfs[0])).plus(Scalar::Value(pdfs[1]))
    );
    assert_eq!(&s.neighbor_buf[4..6], &kept[..]);
    // a sum that is stored is used again
    let stored = s.vertex_buf[1].sum_pdf.clone();
    t.kernel_filter(&mut s, 0, 0, &vec![0], 0, surface(1, 1.0, true), &grid, &query, &vec![
        eval(vec![0.5, 0.5]),
        eval(vec![0.5, 0.5]),
    ]);
    assert_eq!(s.vertex_buf[1].sum_pdf, stored);
}

#[test]
fn light_is_handed_up() {
    let t = tracer(Config { smis: false, ..plain() });
    let (mut s, grid) = scene(&t, &[1], vec![4, 4]);
    s.path_state_buf[0].depth = 1;
    let query = Query { point: point(1), near: near(&grid, point(1)), center_near: true, draws: vec![] };
    let mut e = eval(vec![]);
    e.no_direction = true;
    t.kernel_filter(&mut s, 0, 0, &vec![0], 1, surface(1, 1.0, true), &grid, &query, &vec![e]);
    let below = s.vertex_buf[0].clone();
    assert_eq!(s.record_buf[0].irradiance, below.radiance);
    assert_eq!(s.record_buf[0].wi, below.wo.neg());
    let mut above = Vertex::blank();
    above.bsdf_pdf = f(0.375);
    s.vertex_buf[0] = above;
    t.kernel_propagate(&mut s, 0, &vec![0], 1);
    let got = &s.vertex_buf[0].indirect;
    assert_eq!(got.irradiance, below.radiance);
    assert_eq!(got.pdf, f(0.375));
    assert_eq!(got.mis, below.mis);
    assert_eq!(got.wi.neg(), below.wo);
    // a path that does not reach the depth is left alone
    s.path_state_buf[0].depth = 0;
    s.vertex_buf[0] = Vertex::blank();
    t.kernel_propagate(&mut s, 0, &vec![0], 1);
    assert_eq!(s.vertex_buf[0], Vertex::blank());
}

#[test]
fn sums_of_densities_are_stored_with_vertices() {
    let t = tracer(Config::default());
    let (mut s, grid) = scene(&t, &[1, 1], vec![4]);
    for i in 0..2 {
        s.vertex_buf[i].cluster_id = 0;
    }
    let query = Query { point: point(1), near: near(&grid, point(1)), center_near: true, draws: vec![] };
    t.kernel_evaluate_smis_weight(&mut s, 0, 1, &vec![0, 1], 0, &grid, &query, true, &vec![]);
    assert!(!s.vertex_buf[1].sum_pdf.positive);
    t.kernel_evaluate_smis_weight(&mut s, 0, 1, &vec![0, 1], 0, &grid, &query, false, &vec![f(0.5), f(0.25)]);
    assert_eq!(
        s.vertex_buf[1].sum_pdf.value,
        Scalar::zero().plus(Scalar::Value(f(0.5))).plus(Scalar::Value(f(0.25)))
    );
    // what a vertex of another cluster gives is not looked at
    let t = tracer(Config { cluster: false, ..Config::default() });
    s.vertex_buf[1].cluster_id = 1;
    let ids = t.neighbor_candidates(&s, 0, 1, s.vertex_buf[1].new_flags, &grid, &query);
    assert_eq!(ids.len(), 2);
    let pdfs = ids.iter().map(|id| if *id == 1 { f(0.25) } else { f(-1.0) }).collect();
    t.kernel_evaluate_smis_weight(&mut s, 0, 1, &vec![0, 1], 0, &grid, &query, false, &pdfs);
    assert_eq!(s.vertex_buf[1].sum_pdf.value, Scalar::zero().plus(Scalar::Value(f(0.25))));
}

fn layout() -> Layout {
    Layout {
        float3: 16,
        path_state: 80,
        vertex: 200,
        ray: 64,
        grid: GridLayout { point: 16, data: 4, state: 80 },
    }
}

#[test]
fn a_rendering_is_planned() {
    let t = tracer(Config { branch: 2, max_depth: 3, vram: 1, ..Config::default() });
    let p = t.plan(Uint2 { x: 10, y: 20 }, Uint2 { x: 10, y: 20 }, layout()).unwrap();
    assert_eq!((p.n_pixels, p.n_paths), (200, 400));
    assert_eq!(p.neighbor_len, 1024 * 1024 / 4 + 1);
    assert_eq!(
        p.base_vram,
        2 * 4 + 200 * 16 + 400 * 80 + 400 * 200 + 4 * 4 + 8 + p.neighbor_len * 4
    );
    assert_eq!(p.ray_bytes, 400 * 64);
    assert_eq!(p.record_bytes, 400 * 64);
    assert_eq!(p.grid_bytes, 400 * 16 + 400 * 4 + 400 * 4 + 1024 * 1024 * 64 * 4 + 80 + 4);
    assert_eq!(p.ram, 400 * 200 * 4);
    for size in [Uint2 { x: 1 << 20, y: 1 << 20 }, Uint2 { x: 1 << 16, y: 1 << 15 }] {
        assert!(t.plan(size, size, layout()).is_none());
    }
    assert_eq!(t.film_scale(), Scalar::one().over(Scalar::Count(2)));
}

#[test]
fn lists_go_on_with_their_last_entry() {
    let t = tracer(Config { max_depth: 3, ..Config::default() });
    assert_eq!(t.reuses_per_depth(), vec![128, 64, 64, 64]);
    assert_eq!(t.radius_scale_at(0), f(0.1));
    assert_eq!(t.radius_scale_at(1), f(0.05));
    assert_eq!(t.radius_scale_at(9), f(0.05));
    let scene = (v(0.0, 0.0, 0.0), v(1.0, 1.0, 1.0));
    assert_eq!(t.scene_aabb(scene), scene);
    let bounds = vec![v(-1.0, -1.0, -1.0), v(2.0, 2.0, 2.0)];
    let b = tracer(Config { scene_bounds: Some(bounds.clone()), ..Config::default() });
    assert_eq!(b.scene_aabb(scene), (bounds[0], bounds[1]));
}

#[test]
fn batches_fill_the_lists_of_neighbours() {
    let t = tracer(Config { vram: 1, ..Config::default() });
    assert_eq!(t.batch_size(128), Some(1024 * 1024 / (128 * 4)));
    assert_eq!(t.batch_size(1024 * 1024 / 4 + 1), Some(1));
    assert_eq!(t.batch_size(1024 * 1024), None);
    assert_eq!(t.batch_size(0), None);
    assert_eq!(t.batch_sizes(&vec![128, 64]), Some(vec![2048, 4096]));
    assert_eq!(t.batch_sizes(&vec![128, 0]), None);
    let none = tracer(Config { vram: 0, ..Config::default() });
    assert_eq!(none.batch_size(1), Some(1));
    assert_eq!(none.batch_size(2), None);
    let huge = tracer(Config { vram: 16384, ..Config::default() });
    assert_eq!(huge.batch_size(4), None);
}

#[test]
fn every_vertex_is_filtered_once() {
    let t = tracer(Config { vram: 1, max_depth: 1, repeats: 2, ..Config::default() });
    let plan = t.plan(Uint2 { x: 5, y: 1 }, Uint2 { x: 5, y: 1 }, layout()).unwrap();
    assert!(FilterLoop::start(true, plan, 1, 2, true, vec![]).is_none());
    let mut l = FilterLoop::start(false, plan, 1, 2, true, vec![2, 3]).unwrap();
    let mut report: u32 = 0;
    let mut rounds: u32 = 0;
    let mut seen = vec![];
    let mut filtered: u32 = 0;
    loop {
        let command = l.next(report);
        report = 0;
        match command {
            Command::BuildGrid { depth } => {
                rounds = 0;
                report = 5 - depth;
            }
            Command::Cluster { .. } => {
                rounds += 1;
                report = if rounds < 3 { 4 - rounds } else { 0 };
            }
            Command::Filter { start, count, .. } => {
                assert!(count > 0);
                assert_eq!(l.vram, plan.base_vram + plan.record_bytes + plan.grid_bytes);
                filtered += count;
                seen.push((start, count));
            }
            Command::Done => break,
            _ => {}
        }
    }
    assert_eq!(filtered, 2 * (4 + 5));
    assert_eq!(seen[..5], [(0, 3), (3, 1), (0, 2), (2, 2), (4, 1)]);
    assert_eq!(l.vram, plan.base_vram);
    assert_eq!(l.peak_vram, plan.base_vram + plan.record_bytes + plan.grid_bytes);
}

#[test]
fn the_commands_of_a_repetition() {
    let t = tracer(Config { vram: 1, max_depth: 1, ..Config::default() });
    let plan = t.plan(Uint2 { x: 2, y: 1 }, Uint2 { x: 2, y: 1 }, layout()).unwrap();
    let mut l = FilterLoop::new(plan, 1, 1, false, vec![9, 9]);
    let reports: [u32; 11] = [0, 0, 0, 2, 0, 0, 1, 0, 0, 0, 0];
    let got: Vec<Command> = reports.iter().map(|r| l.next(*r)).collect();
    assert_eq!(
        got,
        vec![
            Command::Trace { depth: 0 },
            Command::Trace { depth: 1 },
            Command::BuildGrid { depth: 1 },
            Command::Filter { depth: 1, start: 0, count: 2 },
            Command::Propagate { depth: 1, count: 2 },
            Command::BuildGrid { depth: 0 },
            Command::Filter { depth: 0, start: 0, count: 1 },
            Command::Splat,
            Command::UpdateFilm,
            Command::Present,
            Command::Done,
        ]
    );
}

#[test]
fn a_search_is_made_around_the_centre_of_the_cluster() {
    let t = tracer(Config::default());
    let (s, _) = scene(&t, &[1, 2], vec![4]);
    assert_eq!(t.search_center(&s, 1, v(7.0, 0.0, 0.0)), s.vertex_buf[1].p);
    let t = tracer(Config { cluster: false, ..Config::default() });
    assert_eq!(t.search_center(&s, NONE, v(7.0, 0.0, 0.0)), v(7.0, 0.0, 0.0));
}
