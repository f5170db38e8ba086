//! How the memory of a rendering is shared out.
use super::render::{
    base_of, batch_spec, grid_of, neighbor_len_of, paths_of, radius_at, ram_of, rays_of, reuse_at,
    Layout, HASH_SIZE,
};
use super::Config;
use crate::hash_grid::{law_memory_is_that_of_the_tables, HashGrid};
use crate::value::Uint2;
use vstd::arithmetic::div_mod::{lemma_fundamental_div_mod, lemma_mod_bound};
use vstd::prelude::*;

verus! {

/// The memory that is set aside for the grid is what a grid takes that has room for every path.
pub proof fn law_grid_has_its_memory<T: Copy>(
    config: Config,
    resolution: Uint2,
    layout: Layout,
    grid: &HashGrid<T>,
)
    requires
        grid.links_ok(),
        grid.state.point_count == paths_of(config, resolution),
        grid.state.hash_table_size == HASH_SIZE,
    ensures
        grid_of(config, resolution, layout) == grid.mem_usage_spec(layout.grid),
{
    law_memory_is_that_of_the_tables(grid, layout.grid);
    let (n, p, d) = (
        paths_of(config, resolution),
        layout.grid.point as int,
        layout.grid.data as int,
    );
    assert(n * p + n * d + n * 4 == n * (p + d + 4)) by (nonlinear_arith);
}

/// Every pixel has as many paths as the configuration says. One path more for each pixel takes one
/// path state, one vertex, one ray and an entry of the grid more for each pixel, and nothing else.
pub proof fn law_each_path_takes_its_memory(
    config: Config,
    more: Config,
    resolution: Uint2,
    layout: Layout,
)
    requires
        more.branch == config.branch + 1,
        more.vram == config.vram,
        more.max_depth == config.max_depth,
    ensures
        ({
            let n = resolution.x * resolution.y;
            &&& paths_of(config, resolution) == n * config.branch
            &&& paths_of(more, resolution) == paths_of(config, resolution) + n
            &&& base_of(more, resolution, layout) - base_of(config, resolution, layout) == n * (
            layout.path_state + layout.vertex)
            &&& rays_of(more, resolution, layout) - rays_of(config, resolution, layout) == n
                * layout.ray
            &&& grid_of(more, resolution, layout) - grid_of(config, resolution, layout) == n * (
            layout.grid.point + layout.grid.data + 4)
            &&& ram_of(more, resolution, layout) - ram_of(config, resolution, layout) == n * (
            layout.vertex * (config.max_depth + 1))
        }),
{
    let n = resolution.x * resolution.y;
    let b = config.branch as int;
    let (p, q) = (paths_of(config, resolution), paths_of(more, resolution));
    assert(n * (b + 1) == n * b + n) by (nonlinear_arith);
    assert(q == p + n);
    let (s, v, r) = (layout.path_state as int, layout.vertex as int, layout.ray as int);
    let (g, d, m) = (layout.grid.point as int, layout.grid.data as int, config.max_depth + 1);
    assert((p + n) * s + (p + n) * v - (p * s + p * v) == n * (s + v)) by (nonlinear_arith);
    assert((p + n) * r - p * r == n * r) by (nonlinear_arith);
    assert((p + n) * g + (p + n) * d + (p + n) * 4 - (p * g + p * d + p * 4) == n * (g + d + 4))
        by (nonlinear_arith);
    assert((p + n) * v * m - p * v * m == n * (v * m)) by (nonlinear_arith);
}

/// What is left without a single pixel are two counters of four bytes and one of eight, a number of
/// four bytes for each depth, and the lists of neighbours.
pub proof fn law_memory_without_pixels(config: Config, resolution: Uint2, layout: Layout)
    requires
        resolution.x * resolution.y == 0,
    ensures
        base_of(config, resolution, layout) - 4 * neighbor_len_of(config) == 16 + 4 * (
        config.max_depth + 1),
        rays_of(config, resolution, layout) == 0,
        ram_of(config, resolution, layout) == 0,
{
    let n = resolution.x * resolution.y;
    let b = config.branch as int;
    let (s, v) = (layout.path_state as int, layout.vertex as int);
    let (f, r, m) = (layout.float3 as int, layout.ray as int, config.max_depth + 1);
    assert(n * b == 0 && n * f == 0) by (nonlinear_arith)
        requires
            n == 0,
    ;
    let p = n * b;
    assert(p * s == 0 && p * v == 0 && p * r == 0 && p * v * m == 0) by (nonlinear_arith)
        requires
            p == 0,
    ;
}

/// The lists of neighbours have the memory that the configuration says, and one place more.
pub proof fn law_lists_have_their_memory(config: Config)
    ensures
        (neighbor_len_of(config) - 1) * 4 == config.vram * 1048576,
{
}

/// A batch is as large as the memory for lists allows: its lists fit, unless it has a single
/// vertex, and those of one vertex more would not.
pub proof fn law_batches_fill_the_memory(config: Config, max_reuse: u32, size: u32)
    requires
        batch_spec(config, max_reuse) == Some(size),
        neighbor_len_of(config) < 0x1_0000_0000,
    ensures
        size > 1 ==> size * max_reuse * 4 <= config.vram * 1048576,
        (size + 1) * max_reuse * 4 > config.vram * 1048576,
{
    let lists = config.vram * 1024 * 1024;
    let m = max_reuse * 4;
    let q = lists / m;
    let s = size as int;
    lemma_fundamental_div_mod(lists, m);
    lemma_mod_bound(lists, m);
    assert(q >= 0) by (nonlinear_arith)
        requires
            lists == m * q + lists % m,
            lists % m < m,
            lists >= 0,
            m >= 1,
    ;
    assert(q * 4 <= lists) by (nonlinear_arith)
        requires
            lists == m * q + lists % m,
            lists % m >= 0,
            m >= 4,
            q >= 0,
    ;
    let r = max_reuse as int;
    assert(s > 1 ==> s * r * 4 <= lists) by (nonlinear_arith)
        requires
            s > 1 ==> s == q,
            m == r * 4,
            lists == m * q + lists % m,
            lists % m >= 0,
    ;
    assert((s + 1) * r * 4 > lists) by (nonlinear_arith)
        requires
            s >= q,
            m == r * 4,
            m >= 1,
            lists == m * q + lists % m,
            lists % m < m,
    ;
}

/// Depths beyond the end of the list of the configuration have the last entry of it.
pub proof fn law_last_reuse_goes_on(config: Config, depth: int)
    requires
        0 <= depth,
        config.reuse.len() > 0,
    ensures
        depth < config.reuse.len() ==> reuse_at(config, depth) == config.reuse@[depth],
        depth >= config.reuse.len() - 1 ==> reuse_at(config, depth) == reuse_at(config, depth + 1),
{
}

/// So it is with the radii.
pub proof fn law_last_radius_goes_on(config: Config, depth: int)
    requires
        0 <= depth,
        config.radius_scale.len() > 0,
    ensures
        depth < config.radius_scale.len() ==> radius_at(config, depth)
            == config.radius_scale@[depth],
        depth >= config.radius_scale.len() - 1 ==> radius_at(config, depth) == radius_at(
            config,
            depth + 1,
        ),
{
}

} // verus!
