use akari_integrator::hash_grid::{
    hash, BuildStep, BuildThread, GridLayout, GridPoint, HashGrid, HashGridVar,
};
use akari_integrator::value::{Float3, Single, Uint3, NONE};

fn f(x: f32) -> Single {
    Single { bits: x.to_bits() }
}

fn v(x: f32, y: f32, z: f32) -> Float3 {
    Float3 { x: f(x), y: f(y), z: f(z) }
}

fn cell(x: u32, y: u32, z: u32) -> Uint3 {
    Uint3 { x, y, z }
}

fn at(x: u32, y: u32, z: u32) -> GridPoint {
    GridPoint { p: v(x as f32, y as f32, z as f32), scaled: cell(x, y, z) }
}

fn grid(res: u32, hash_size: usize, points: usize) -> HashGrid<u32> {
    HashGrid::new(
        (v(0.0, 0.0, 0.0), v(1.0, 1.0, 1.0)),
        cell(res, res, res),
        f(0.5),
        hash_size,
        points,
        0,
    )
}

fn sorted(mut xs: Vec<u32>) -> Vec<u32> {
    xs.sort();
    xs
}

#[test]
fn hash_mixes_three_primes() {
    assert_eq!(hash(cell(0, 0, 0)), 0);
    assert_eq!(hash(cell(1, 0, 0)), 73856093);
    assert_eq!(hash(cell(0, 1, 0)), 19349663);
    assert_eq!(hash(cell(0, 0, 1)), 83492791);
    assert_eq!(
        hash(cell(1, 2, 3)),
        73856093u64 ^ (2 * 19349663u64) ^ (3 * 83492791u64)
    );
    assert_eq!(
        hash(cell(u32::MAX, 0, 0)),
        u32::MAX as u64 * 73856093u64
    );
}

#[test]
fn far_faces_belong_to_the_last_cells() {
    let g = grid(4, 16, 4);
    let var = HashGridVar { grid: &g };
    assert_eq!(var.get_cell(at(0, 1, 2)), cell(0, 1, 2));
    assert_eq!(var.get_cell(at(4, 4, 9)), cell(3, 3, 3));
    assert_eq!(
        var.cell_pos_to_index(cell(1, 2, 3)) as u64,
        hash(cell(1, 2, 3)) % 16
    );
}

#[test]
fn memory_is_the_sum_of_the_tables() {
    let mut g = grid(4, 16, 5);
    let layout = GridLayout { point: 16, data: 4, state: 64 };
    assert_eq!(g.mem_usage(layout), 5 * 16 + 5 * 4 + 5 * 4 + 16 * 4 + 64 + 4);
    // neither points nor another extent take more
    g.build_kernel(at(1, 1, 1), 1);
    g.reset((v(0.0, 0.0, 0.0), v(1.0, 1.0, 1.0)), cell(2, 2, 2), f(0.5));
    assert_eq!(g.mem_usage(layout), 5 * (16 + 4 + 4) + 4 * 16 + 64 + 4);
}

#[test]
fn queries_meet_the_points_around() {
    let mut g = grid(8, 1009, 6);
    for (i, p) in [at(1, 1, 1), at(2, 1, 1), at(3, 3, 3), at(1, 2, 0), at(7, 7, 7), at(1, 1, 1)]
        .iter()
        .enumerate()
    {
        assert_eq!(g.build_kernel(*p, 10 + i as u32), i as u32);
    }
    let var = HashGridVar { grid: &g };
    assert_eq!(sorted(var.neighbor_indices(at(1, 1, 1))), vec![0, 1, 3, 5]);
    assert_eq!(sorted(var.neighbor_indices(at(7, 7, 7))), vec![4]);
    assert_eq!(var.neighbor_indices(at(5, 1, 5)), Vec::<u32>::new());
    let visited = var.for_each_neighbor(at(1, 1, 1), |_q, _i| true);
    assert_eq!(visited, var.neighbor_indices(at(1, 1, 1)));
    let first = var.for_each_neighbor(at(1, 1, 1), |_q, _i| false);
    assert_eq!(first, visited[..1].to_vec());
    let until = var.for_each_neighbor(at(1, 1, 1), |_q, i| i != 13);
    let stop = visited.iter().position(|i| *i == 3).unwrap();
    assert_eq!(until, visited[..=stop].to_vec());
}

#[test]
fn points_of_one_chain_come_latest_first() {
    let mut g = grid(8, 1009, 3);
    for i in 0..3 {
        g.build_kernel(at(4, 4, 4), i);
    }
    let var = HashGridVar { grid: &g };
    assert_eq!(var.neighbor_indices(at(4, 4, 4)), vec![2, 1, 0]);
    assert_eq!(g.next, vec![NONE, 0, 1]);
}

#[test]
fn a_chain_can_be_met_more_than_once() {
    let mut g = grid(8, 1, 1);
    g.build_kernel(at(0, 0, 0), 5);
    let var = HashGridVar { grid: &g };
    assert_eq!(var.neighbor_indices(at(4, 4, 4)).len(), 27);
    assert_eq!(var.neighbor_indices(at(0, 0, 0)).len(), 8);
}

#[test]
fn threads_in_any_order_build_the_grid() {
    let points = [at(1, 1, 1), at(1, 1, 1), at(2, 2, 2)];
    for schedule in [
        vec![0usize, 1, 2, 0, 1, 2, 0, 1, 2, 0, 1, 2, 0, 1, 2, 0, 1, 2],
        vec![2, 2, 2, 1, 1, 1, 0, 0, 0],
        vec![0, 1, 0, 1, 1, 0, 0, 0, 2, 2, 2, 0],
    ] {
        let mut g = grid(4, 7, 3);
        let mut threads: Vec<BuildThread<u32>> = points
            .iter()
            .enumerate()
            .map(|(i, p)| BuildThread { point: *p, data: i as u32, step: BuildStep::Start })
            .collect();
        g.build_interleaved(&mut threads, &schedule);
        assert!(threads.iter().all(|t| matches!(t.step, BuildStep::Done { .. })));
        assert_eq!(g.cnt, 3);
        assert_eq!(sorted(g.data.clone()), vec![0, 1, 2]);
        let report = g.sanity_check(&g.pos.clone(), |a, b| a == b);
        assert_eq!(report.counted, 3);
        assert!(report.consistent);
        assert!(report.missing.is_empty());
        let var = HashGridVar { grid: &g };
        let near: Vec<u32> = var
            .neighbor_indices(at(1, 1, 1))
            .iter()
            .map(|i| g.data[*i as usize])
            .collect();
        for i in 0..3 {
            assert!(near.contains(&i));
        }
    }
}

#[test]
fn resetting_empties_the_grid() {
    let mut g = grid(4, 7, 3);
    g.build_kernel(at(1, 1, 1), 1);
    g.clear();
    assert_eq!(g.cnt, 0);
    assert_eq!(g.cell_head, vec![NONE; 7]);
    g.reset((v(0.0, 0.0, 0.0), v(2.0, 2.0, 2.0)), cell(2, 3, 4), f(0.25));
    assert_eq!(g.state.res, cell(2, 3, 4));
    assert_eq!(g.state.radius, f(0.25));
    assert_eq!(g.state.hash_table_size, 7);
    assert_eq!(g.state.point_count, 3);
    assert_eq!(g.build_kernel(at(1, 1, 1), 1), 0);
}

#[test]
fn points_that_coincide_with_none_are_missing() {
    let mut g = grid(4, 7, 2);
    g.build_kernel(at(1, 1, 1), 1);
    g.build_kernel(at(2, 1, 1), 2);
    let report = g.sanity_check(&g.pos.clone(), |_a, _b| false);
    assert_eq!(report.missing, vec![0, 1]);
    assert_eq!(report.counted, 2);
    assert!(report.consistent);
}

#[test]
fn a_grid_with_another_count_is_broken() {
    let mut g = grid(4, 7, 3);
    g.build_kernel(at(1, 1, 1), 1);
    g.build_kernel(at(2, 1, 1), 2);
    g.cnt = 1;
    let report = g.sanity_check(&g.pos[..1].to_vec(), |a, b| a == b);
    assert_eq!((report.counted, report.consistent), (2, false));
    g.cnt = 3;
    let report = g.sanity_check(&g.pos.clone(), |a, b| a == b);
    assert_eq!((report.counted, report.consistent), (2, false));
}

#[test]
fn a_grid_with_another_extent_can_be_built_on() {
    let mut g = grid(8, 1009, 2);
    g.build_kernel(at(6, 6, 6), 1);
    g.reset((v(0.0, 0.0, 0.0), v(1.0, 1.0, 1.0)), cell(2, 2, 2), f(0.5));
    assert_eq!(g.build_kernel(at(1, 1, 1), 2), 1);
    assert_eq!(g.next, vec![NONE, NONE]);
    // where the first point lies in the grid now, its chain is another one
    let now = vec![GridPoint { scaled: cell(1, 1, 1), ..g.pos[0] }, g.pos[1]];
    let report = g.sanity_check(&now, |a, b| a == b);
    assert_eq!(report.missing, vec![0]);
    assert!(report.consistent);
}

#[test]
fn no_neighbor_within_the_radius_is_missed() {
    let n = 8u32;
    let mut g = HashGrid::new(
        (v(0.0, 0.0, 0.0), v(4.0, 4.0, 4.0)),
        cell(n, n, n),
        f(0.5),
        1009,
        64,
        0,
    );
    let place = |x: f32, y: f32, z: f32| {
        let scaled = |c: f32| ((c / 4.0).clamp(0.0, 1.0) * n as f32) as u32;
        GridPoint { p: v(x, y, z), scaled: cell(scaled(x), scaled(y), scaled(z)) }
    };
    let mut points = vec![];
    for i in 0..64 {
        let (a, b, c) = (i % 4, i / 4 % 4, i / 16);
        let q = (a as f32 * 1.125, b as f32 * 1.25, c as f32 * 0.875);
        points.push(q);
        g.build_kernel(place(q.0, q.1, q.2), i);
    }
    let var = HashGridVar { grid: &g };
    for p in [(0.25f32, 0.25f32, 0.125f32), (2.25, 2.5, 1.75), (3.5, 3.75, 2.75), (5.0, 1.0, 1.0)] {
        let met = var.neighbor_indices(place(p.0, p.1, p.2));
        for (i, q) in points.iter().enumerate() {
            let d = ((p.0 - q.0).powi(2) + (p.1 - q.1).powi(2) + (p.2 - q.2).powi(2)).sqrt();
            assert!(d > 0.5 || met.contains(&(i as u32)));
        }
    }
}

#[test]
fn infinite_points_fall_into_the_border_cells() {
    let g = grid(8, 1009, 1);
    let var = HashGridVar { grid: &g };
    let scaled = |c: f32| ((c / 8.0).clamp(0.0, 1.0) * 8.0) as u32;
    let far = [f32::INFINITY, f32::NEG_INFINITY, f32::MAX];
    let p = GridPoint {
        p: v(far[0], far[1], far[2]),
        scaled: cell(scaled(far[0]), scaled(far[1]), scaled(far[2])),
    };
    assert_eq!(var.get_cell(p), cell(7, 0, 7));
}
