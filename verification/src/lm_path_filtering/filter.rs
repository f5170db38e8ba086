//! Estimating the light at a vertex from what was recorded at the vertices around it.
use super::cluster::{grid_of_paths, ids_of};
use super::{Config, DensitySum, IrradianceRecord, PathFiltering, PathState, RenderState, Vertex};
use crate::expr::{mis_weight, mis_weight_spec, Color, Scalar};
use crate::hash_grid::{
    cell_spec, has_cells, law_query_is_complete, lemma_visits_in_range, touching, GridPoint,
    HashGrid, HashGridVar,
};
use crate::lighting::{BsdfEval, SurfaceInteraction};
use crate::value::{Float3, Single, StylizationFlags};
use vstd::prelude::*;

verus! {

/// The search around a point, as far as it takes arithmetic or chance.
#[derive(Debug)]
pub struct Query {
    /// Where the search is made.
    pub point: GridPoint,
    /// Of every point that the search visits, whether its distance is within the radius.
    pub near: Vec<bool>,
    /// The vertex itself is within the radius of the centre of its cluster.
    pub center_near: bool,
    /// The random numbers that decide which neighbours stay where there are too many.
    pub draws: Vec<u32>,
}

/// What the scene says of a vertex and one of its neighbours.
#[derive(Debug)]
pub struct NeighborEval {
    /// The scattering function for the direction of the neighbour's sampled light.
    pub direct: BsdfEval,
    /// The direction of the neighbour's indirect light has no length.
    pub no_direction: bool,
    /// The scattering function for that direction.
    pub indirect: BsdfEval,
    /// The density of that direction at each of the neighbours.
    pub alternative_pdfs: Vec<Single>,
}

/// The vertex of path `id` may be used for a vertex of the given cluster and flags.
pub open spec fn qualifies(
    config: Config,
    states: Seq<PathState>,
    vs: Seq<Vertex>,
    path_depth: u32,
    cluster_id: u32,
    flags: StylizationFlags,
    id: u32,
) -> bool {
    let v = vs[states[id as int].vertex_idx as int];
    &&& states[id as int].reaches(path_depth)
    &&& config.cluster ==> v.cluster_id == cluster_id
    &&& !config.disable_flag_check ==> v.new_flags == flags
}

/// The paths that may be used, among the first `k` that the search visits.
pub open spec fn candidates(
    config: Config,
    states: Seq<PathState>,
    vs: Seq<Vertex>,
    path_depth: u32,
    cluster_id: u32,
    flags: StylizationFlags,
    ids: Seq<u32>,
    near: Seq<bool>,
    k: nat,
) -> Seq<u32>
    decreases k,
{
    if k == 0 {
        Seq::empty()
    } else {
        let before = candidates(
            config,
            states,
            vs,
            path_depth,
            cluster_id,
            flags,
            ids,
            near,
            (k - 1) as nat,
        );
        let id = ids[k - 1];
        if near[k - 1] && qualifies(config, states, vs, path_depth, cluster_id, flags, id) {
            before.push(id)
        } else {
            before
        }
    }
}

/// The paths that may be used, among all that the search visits.
pub open spec fn all_candidates(
    config: Config,
    state: RenderState,
    path_depth: u32,
    cluster_id: u32,
    flags: StylizationFlags,
    grid: HashGrid<u32>,
    query: Query,
) -> Seq<u32> {
    let ids = ids_of(grid, query.point);
    candidates(
        config,
        state.path_state_buf@,
        state.vertex_buf@,
        path_depth,
        cluster_id,
        flags,
        ids,
        query.near@,
        ids.len(),
    )
}

/// The first `n` candidates, thinned to `max_reuse`: once the places are taken, a later candidate
/// takes the place that its draw picks, if there is such a place.
pub open spec fn reservoir_spec(
    cands: Seq<u32>,
    draws: Seq<u32>,
    max_reuse: u32,
    n: nat,
) -> Seq<u32>
    decreases n,
{
    if n == 0 {
        Seq::empty()
    } else {
        let before = reservoir_spec(cands, draws, max_reuse, (n - 1) as nat);
        if n - 1 < max_reuse {
            before.push(cands[n - 1])
        } else {
            let j = (draws[n - 1 - max_reuse] as int) % (n as int);
            if j < max_reuse {
                before.update(j, cands[n - 1])
            } else {
                before
            }
        }
    }
}

/// Which candidates hold the places, by their numbers.
pub open spec fn places(draws: Seq<u32>, max_reuse: u32, n: nat) -> Seq<int>
    decreases n,
{
    if n == 0 {
        Seq::empty()
    } else {
        let before = places(draws, max_reuse, (n - 1) as nat);
        if n - 1 < max_reuse {
            before.push(n - 1)
        } else {
            let j = (draws[n - 1 - max_reuse] as int) % (n as int);
            if j < max_reuse {
                before.update(j, n - 1)
            } else {
                before
            }
        }
    }
}

/// `max_reuse` candidates are kept, or all of them where there are no more; each kept one is a
/// candidate, and none is kept twice.
pub proof fn law_reservoir_keeps_candidates(
    cands: Seq<u32>,
    draws: Seq<u32>,
    max_reuse: u32,
    n: nat,
)
    requires
        n <= cands.len(),
    ensures
        reservoir_spec(cands, draws, max_reuse, n).len() == (if n < max_reuse {
            n as int
        } else {
            max_reuse as int
        }),
        places(draws, max_reuse, n).len() == reservoir_spec(cands, draws, max_reuse, n).len(),
        places(draws, max_reuse, n).no_duplicates(),
        forall|j: int|
            0 <= j < places(draws, max_reuse, n).len() ==> {
                &&& 0 <= #[trigger] places(draws, max_reuse, n)[j] < n
                &&& reservoir_spec(cands, draws, max_reuse, n)[j] == cands[places(
                    draws,
                    max_reuse,
                    n,
                )[j]]
            },
        n <= max_reuse ==> reservoir_spec(cands, draws, max_reuse, n) == cands.take(n as int),
    decreases n,
{
    if n > 0 {
        law_reservoir_keeps_candidates(cands, draws, max_reuse, (n - 1) as nat);
        let before = places(draws, max_reuse, (n - 1) as nat);
        let after = places(draws, max_reuse, n);
        if n - 1 >= max_reuse {
            let j = (draws[n - 1 - max_reuse] as int) % (n as int);
            assert(0 <= j < n);
            assert forall|a: int, b: int|
                0 <= a < after.len() && 0 <= b < after.len() && a != b implies after[a] != after[b] by {
                if a < before.len() && b < before.len() {
                    assert(before[a] < n - 1 && before[b] < n - 1);
                    assert(before[a] != before[b]);
                }
            }
        } else {
            assert forall|a: int, b: int|
                0 <= a < after.len() && 0 <= b < after.len() && a != b implies after[a] != after[b] by {
                if a < before.len() {
                    assert(before[a] < n - 1);
                }
                if b < before.len() {
                    assert(before[b] < n - 1);
                }
            }
            assert(cands.take(n as int) =~= cands.take(n - 1).push(cands[n - 1]));
        }
    }
}

/// Thins the candidates to `max_reuse`.
pub fn reservoir(cands: &Vec<u32>, draws: &Vec<u32>, max_reuse: u32) -> (kept: Vec<u32>)
    requires
        cands.len() <= u32::MAX,
        cands.len() <= max_reuse + draws.len(),
    ensures
        kept@ == reservoir_spec(cands@, draws@, max_reuse, cands@.len()),
{
    let mut kept: Vec<u32> = Vec::new();
    let n: u32 = cands.len() as u32;
    let mut cnt: u32 = 0;
    while cnt < n
        invariant
            cnt <= n,
            n == cands.len(),
            cands.len() <= max_reuse + draws.len(),
            kept@ == reservoir_spec(cands@, draws@, max_reuse, cnt as nat),
        decreases n - cnt,
    {
        proof {
            law_reservoir_keeps_candidates(cands@, draws@, max_reuse, cnt as nat);
        }
        let id: u32 = cands[cnt as usize];
        if cnt < max_reuse {
            kept.push(id);
        } else {
            let j: u32 = draws[(cnt - max_reuse) as usize] % (cnt + 1);
            if j < max_reuse {
                kept.set(j as usize, id);
            }
        }
        cnt += 1;
    }
    kept
}

/// Where the search for the neighbours of a vertex at `p` is made: around the centre of its cluster
/// where there are clusters.
pub open spec fn center_spec(
    config: Config,
    vs: Seq<Vertex>,
    cluster_id: u32,
    p: Float3,
) -> Float3 {
    if config.cluster {
        vs[cluster_id as int].p
    } else {
        p
    }
}

impl PathFiltering {
    /// Where the search for the neighbours of a vertex at `p` is made.
    pub fn search_center(&self, state: &RenderState, cluster_id: u32, p: Float3) -> (r: Float3)
        requires
            self.config.cluster ==> cluster_id < state.vertex_buf.len(),
        ensures
            r == center_spec(self.config, state.vertex_buf@, cluster_id, p),
    {
        if self.config.cluster {
            state.vertex_buf[cluster_id as usize].p
        } else {
            p
        }
    }
}

/// The search is made where it should be, and a vertex with a cluster is near the centre of that
/// cluster.
pub open spec fn query_ok(
    config: Config,
    state: RenderState,
    cluster_id: u32,
    p: Float3,
    grid: HashGrid<u32>,
    query: Query,
) -> bool {
    &&& grid_of_paths(grid, state.vertex_buf@.len())
    &&& query.near.len() == grid.visits(query.point).len()
    &&& query.near.len() <= u32::MAX
    &&& config.cluster ==> cluster_id < state.vertex_buf.len() && query.center_near
    &&& query.point.p == center_spec(config, state.vertex_buf@, cluster_id, p)
}

proof fn lemma_candidates_bound(
    config: Config,
    states: Seq<PathState>,
    vs: Seq<Vertex>,
    path_depth: u32,
    cluster_id: u32,
    flags: StylizationFlags,
    ids: Seq<u32>,
    near: Seq<bool>,
    k: nat,
)
    requires
        k <= ids.len(),
        forall|i: int| 0 <= i < ids.len() ==> (#[trigger] ids[i]) < states.len(),
    ensures
        ({
            let all = candidates(
                config,
                states,
                vs,
                path_depth,
                cluster_id,
                flags,
                ids,
                near,
                k,
            );
            &&& all.len() <= k
            &&& forall|i: int|
                0 <= i < all.len() ==> {
                    &&& (#[trigger] all[i]) < states.len()
                    &&& qualifies(config, states, vs, path_depth, cluster_id, flags, all[i])
                }
        }),
    decreases k,
{
    if k > 0 {
        lemma_candidates_bound(
            config,
            states,
            vs,
            path_depth,
            cluster_id,
            flags,
            ids,
            near,
            (k - 1) as nat,
        );
        assert(ids[k - 1] < states.len());
    }
}

/// What a search finds may be used: every candidate has a vertex at the depth, of the same
/// cluster where there are clusters, and with the same flags where they are looked at.
pub proof fn law_candidates_qualify(
    config: Config,
    state: RenderState,
    path_depth: u32,
    cluster_id: u32,
    flags: StylizationFlags,
    grid: HashGrid<u32>,
    query: Query,
    i: int,
)
    requires
        state.wf(),
        grid_of_paths(grid, state.vertex_buf@.len()),
        0 <= i < all_candidates(config, state, path_depth, cluster_id, flags, grid, query).len(),
    ensures
        ({
            let id = all_candidates(config, state, path_depth, cluster_id, flags, grid, query)[i];
            &&& id < state.path_state_buf.len()
            &&& qualifies(
                config,
                state.path_state_buf@,
                state.vertex_buf@,
                path_depth,
                cluster_id,
                flags,
                id,
            )
        }),
{
    lemma_ids_in_range(grid, query.point, state.vertex_buf@.len());
    lemma_candidates_bound(
        config,
        state.path_state_buf@,
        state.vertex_buf@,
        path_depth,
        cluster_id,
        flags,
        ids_of(grid, query.point),
        query.near@,
        ids_of(grid, query.point).len(),
    );
}

proof fn lemma_candidates_contain(
    config: Config,
    states: Seq<PathState>,
    vs: Seq<Vertex>,
    path_depth: u32,
    cluster_id: u32,
    flags: StylizationFlags,
    ids: Seq<u32>,
    near: Seq<bool>,
    k: nat,
    at: int,
)
    requires
        0 <= at < k,
        near[at],
        qualifies(config, states, vs, path_depth, cluster_id, flags, ids[at]),
    ensures
        candidates(config, states, vs, path_depth, cluster_id, flags, ids, near, k).contains(
            ids[at],
        ),
    decreases k,
{
    let before = candidates(
        config,
        states,
        vs,
        path_depth,
        cluster_id,
        flags,
        ids,
        near,
        (k - 1) as nat,
    );
    let all = candidates(config, states, vs, path_depth, cluster_id, flags, ids, near, k);
    if at == k - 1 {
        assert(all[before.len() as int] == ids[at]);
    } else {
        lemma_candidates_contain(
            config,
            states,
            vs,
            path_depth,
            cluster_id,
            flags,
            ids,
            near,
            (k - 1) as nat,
            at,
        );
        let j = before.index_of(ids[at]);
        assert(all[j] == ids[at]);
    }
}

/// A search misses no vertex that may be used: every point of a complete grid whose cell touches
/// that of the search, and that is near wherever the search visits it, gives a candidate if its
/// vertex may be used. So a vertex is a candidate for itself wherever it is near its own search.
pub proof fn law_candidates_are_complete(
    config: Config,
    state: RenderState,
    path_depth: u32,
    cluster_id: u32,
    flags: StylizationFlags,
    grid: HashGrid<u32>,
    query: Query,
    i: u32,
)
    requires
        grid.built(),
        has_cells(grid.state),
        i < grid.cnt,
        touching(
            cell_spec(grid.state, grid.pos@[i as int]),
            cell_spec(grid.state, query.point),
        ),
        query.near.len() == grid.visits(query.point).len(),
        forall|k: int|
            0 <= k < query.near.len() && #[trigger] grid.visits(query.point)[k] == i
                ==> query.near@[k],
        qualifies(
            config,
            state.path_state_buf@,
            state.vertex_buf@,
            path_depth,
            cluster_id,
            flags,
            grid.data@[i as int],
        ),
    ensures
        all_candidates(config, state, path_depth, cluster_id, flags, grid, query).contains(
            grid.data@[i as int],
        ),
{
    law_query_is_complete(&grid, query.point, i);
    let visits = grid.visits(query.point);
    let at = visits.index_of(i);
    let ids = ids_of(grid, query.point);
    assert(ids[at] == grid.data@[i as int]);
    lemma_candidates_contain(
        config,
        state.path_state_buf@,
        state.vertex_buf@,
        path_depth,
        cluster_id,
        flags,
        ids,
        query.near@,
        ids.len(),
        at,
    );
}

proof fn lemma_ids_in_range(grid: HashGrid<u32>, p: GridPoint, n: nat)
    requires
        grid_of_paths(grid, n),
    ensures
        forall|i: int| 0 <= i < ids_of(grid, p).len() ==> (#[trigger] ids_of(grid, p)[i]) < n,
{
    lemma_visits_in_range(&grid, cell_spec(grid.state, p), 27);
    assert forall|i: int| 0 <= i < ids_of(grid, p).len() implies (#[trigger] ids_of(grid, p)[i])
        < n by {
        assert(grid.visits(p)[i] < grid.pos.len());
        assert(grid.data@[grid.visits(p)[i] as int] < n);
    }
}

impl PathFiltering {
    /// Whether the vertex of path `id` may be used.
    fn is_candidate(
        &self,
        state: &RenderState,
        path_depth: u32,
        cluster_id: u32,
        flags: StylizationFlags,
        id: u32,
    ) -> (r: bool)
        requires
            state.wf(),
            id < state.path_state_buf.len(),
        ensures
            r == qualifies(
                self.config,
                state.path_state_buf@,
                state.vertex_buf@,
                path_depth,
                cluster_id,
                flags,
                id,
            ),
    {
        let ps = state.path_state_buf[id as usize];
        if !ps.reaches(path_depth) {
            return false;
        }
        let v = &state.vertex_buf[ps.vertex_idx as usize];
        if self.config.cluster && v.cluster_id != cluster_id {
            return false;
        }
        if !self.config.disable_flag_check && !v.new_flags.is_equal(flags) {
            return false;
        }
        true
    }

    /// The paths around a vertex whose vertices may be used for it.
    pub fn neighbor_candidates(
        &self,
        state: &RenderState,
        path_depth: u32,
        cluster_id: u32,
        flags: StylizationFlags,
        grid: &HashGrid<u32>,
        query: &Query,
    ) -> (found: Vec<u32>)
        requires
            state.wf(),
            grid_of_paths(*grid, state.vertex_buf@.len()),
            query.near.len() == grid.visits(query.point).len(),
        ensures
            found@ == all_candidates(
                self.config,
                *state,
                path_depth,
                cluster_id,
                flags,
                *grid,
                *query,
            ),
            found.len() <= query.near.len(),
    {
        let var = HashGridVar { grid };
        let visited = var.neighbor_indices(query.point);
        let ghost ids = ids_of(*grid, query.point);
        proof {
            lemma_visits_in_range(grid, cell_spec(grid.state, query.point), 27);
            lemma_ids_in_range(*grid, query.point, state.vertex_buf@.len());
        }
        let mut found: Vec<u32> = Vec::new();
        let mut k: usize = 0;
        while k < visited.len()
            invariant
                k <= visited.len(),
                state.wf(),
                grid_of_paths(*grid, state.vertex_buf@.len()),
                visited@ == grid.visits(query.point),
                ids == ids_of(*grid, query.point),
                forall|j: int| 0 <= j < visited@.len() ==> (#[trigger] visited@[j]) < grid.pos.len(),
                query.near.len() == visited.len(),
                found.len() <= k,
                found@ == candidates(
                    self.config,
                    state.path_state_buf@,
                    state.vertex_buf@,
                    path_depth,
                    cluster_id,
                    flags,
                    ids,
                    query.near@,
                    k as nat,
                ),
            decreases visited.len() - k,
        {
            let idx: u32 = visited[k];
            let id: u32 = grid.data[idx as usize];
            assert(ids[k as int] == id);
            if query.near[k] && self.is_candidate(state, path_depth, cluster_id, flags, id) {
                found.push(id);
            }
            k += 1;
        }
        found
    }
}

/// What the neighbours bring so far, and the vertices with the sums that were stored on the way.
pub struct Gathered {
    pub direct: Color,
    pub indirect: Color,
    pub vertices: Seq<Vertex>,
}

/// The light of a neighbour's sampled light, as the vertex scatters it.
pub open spec fn direct_term(record: IrradianceRecord, eval: BsdfEval, cnt: u32) -> Color {
    Color::Rgb(eval.f).times(record.irradiance).scale(record.mis).scale(
        mis_weight_spec(Scalar::Value(record.pdf), Scalar::Value(eval.pdf), 1),
    ).over(Scalar::Value(record.pdf)).over(Scalar::Count(cnt))
}

/// The neighbour's indirect light, as the vertex scatters it, before it is weighted.
pub open spec fn reused_spec(record: IrradianceRecord, eval: BsdfEval) -> Color {
    Color::Rgb(eval.f).times(record.irradiance).scale(record.mis)
}

/// The densities of a direction at the first `k` neighbours, added up.
pub open spec fn density_at(
    states: Seq<PathState>,
    path_depth: u32,
    kept: Seq<u32>,
    pdfs: Seq<Single>,
    k: nat,
) -> DensitySum
    decreases k,
{
    if k == 0 {
        DensitySum::zero()
    } else {
        let before = density_at(states, path_depth, kept, pdfs, (k - 1) as nat);
        if states[kept[k - 1] as int].reaches(path_depth) {
            before.plus(pdfs[k - 1])
        } else {
            before
        }
    }
}

/// The sum of densities against which a neighbour's record is weighed: the one that is stored
/// with the neighbour, if clusters make that possible, or else the one over all neighbours.
pub open spec fn weight_for(
    config: Config,
    states: Seq<PathState>,
    path_depth: u32,
    kept: Seq<u32>,
    eval: NeighborEval,
    v: Vertex,
) -> DensitySum {
    if config.cluster && v.sum_pdf.positive {
        v.sum_pdf
    } else {
        density_at(states, path_depth, kept, eval.alternative_pdfs@, kept.len())
    }
}

/// A density is not negative, and not undefined.
pub open spec fn is_density(pdf: Single) -> bool {
    pdf.is_positive() || pdf.is_zero()
}

pub open spec fn densities_ok(pdfs: Seq<Single>) -> bool {
    forall|j: int| 0 <= j < pdfs.len() ==> is_density(#[trigger] pdfs[j])
}

/// Neighbour `i` can be weighed.
pub open spec fn step_ok(
    config: Config,
    states: Seq<PathState>,
    path_depth: u32,
    kept: Seq<u32>,
    eval: NeighborEval,
    g: Gathered,
    i: int,
) -> bool {
    let ps = states[kept[i] as int];
    let v = g.vertices[ps.vertex_idx as int];
    ps.reaches(path_depth) && !eval.no_direction && config.smis ==> {
        &&& !(config.cluster && v.sum_pdf.positive) ==> {
            &&& eval.alternative_pdfs.len() == kept.len()
            &&& densities_ok(eval.alternative_pdfs@)
        }
        &&& weight_for(config, states, path_depth, kept, eval, v).positive
    }
}

/// What neighbour `i` adds.
pub open spec fn gather_step(
    config: Config,
    states: Seq<PathState>,
    path_depth: u32,
    kept: Seq<u32>,
    eval: NeighborEval,
    g: Gathered,
    i: int,
) -> Gathered {
    let ps = states[kept[i] as int];
    let cnt = kept.len() as u32;
    if !ps.reaches(path_depth) {
        g
    } else {
        let v = g.vertices[ps.vertex_idx as int];
        let direct = if v.direct.pdf.is_positive() {
            g.direct.plus(direct_term(v.direct, eval.direct, cnt))
        } else {
            g.direct
        };
        if eval.no_direction {
            Gathered { direct, ..g }
        } else {
            let reused = reused_spec(v.indirect, eval.indirect);
            if config.smis {
                let sum = weight_for(config, states, path_depth, kept, eval, v);
                Gathered {
                    direct,
                    indirect: g.indirect.plus(reused.over(sum.value)),
                    vertices: if config.cluster && !v.sum_pdf.positive {
                        g.vertices.update(ps.vertex_idx as int, Vertex { sum_pdf: sum, ..v })
                    } else {
                        g.vertices
                    },
                }
            } else if eval.indirect.pdf.is_positive() {
                Gathered {
                    direct,
                    indirect: g.indirect.plus(
                        reused.over(Scalar::Value(eval.indirect.pdf)).over(Scalar::Count(cnt)),
                    ),
                    ..g
                }
            } else {
                Gathered { direct, ..g }
            }
        }
    }
}

/// What the first `k` neighbours bring.
pub open spec fn gather_upto(
    config: Config,
    states: Seq<PathState>,
    vs: Seq<Vertex>,
    path_depth: u32,
    kept: Seq<u32>,
    evals: Seq<NeighborEval>,
    k: nat,
) -> Gathered
    decreases k,
{
    if k == 0 {
        Gathered { direct: Color::zero(), indirect: Color::zero(), vertices: vs }
    } else {
        gather_step(
            config,
            states,
            path_depth,
            kept,
            evals[k - 1],
            gather_upto(config, states, vs, path_depth, kept, evals, (k - 1) as nat),
            k - 1,
        )
    }
}

/// Every neighbour can be weighed when its turn comes.
pub open spec fn evals_ok(
    config: Config,
    states: Seq<PathState>,
    vs: Seq<Vertex>,
    path_depth: u32,
    kept: Seq<u32>,
    evals: Seq<NeighborEval>,
) -> bool {
    &&& evals.len() == kept.len()
    &&& forall|i: int|
        0 <= i < kept.len() ==> step_ok(
            config,
            states,
            path_depth,
            kept,
            #[trigger] evals[i],
            gather_upto(config, states, vs, path_depth, kept, evals, i as nat),
            i,
        )
}

/// The light that leaves a vertex: what it gives off and what it scatters, in its style.
pub open spec fn leaving_spec(
    config: Config,
    le: Color,
    g: Gathered,
    path_depth: u32,
    si: SurfaceInteraction,
    wo: Float3,
    flags: StylizationFlags,
) -> Color {
    let radiance = le.plus(g.direct).plus(g.indirect);
    if path_depth > 0 || !config.no_first_hit_stylization {
        radiance.stylize(path_depth, si.hit(), wo, flags)
    } else {
        radiance
    }
}

/// `buf` with `list` written from `offset` on.
pub open spec fn written(buf: Seq<u32>, offset: int, list: Seq<u32>) -> Seq<u32> {
    Seq::new(
        buf.len(),
        |i: int|
            if offset <= i < offset + list.len() {
                list[i - offset]
            } else {
                buf[i]
            },
    )
}

fn write_list(buf: &mut Vec<u32>, offset: usize, list: &Vec<u32>)
    requires
        offset + list.len() <= old(buf).len(),
    ensures
        final(buf)@ == written(old(buf)@, offset as int, list@),
{
    let ghost before = buf@;
    let mut i: usize = 0;
    while i < list.len()
        invariant
            i <= list.len(),
            offset + list.len() <= buf.len(),
            buf.len() == before.len(),
            buf@ == written(before, offset as int, list@.take(i as int)),
        decreases list.len() - i,
    {
        buf.set(offset + i, list[i]);
        i += 1;
        assert(buf@ =~= written(before, offset as int, list@.take(i as int)));
    }
    assert(list@.take(i as int) =~= list@);
}

proof fn lemma_gather_keeps(
    config: Config,
    states: Seq<PathState>,
    vs: Seq<Vertex>,
    path_depth: u32,
    kept: Seq<u32>,
    evals: Seq<NeighborEval>,
    k: nat,
)
    requires
        forall|i: int|
            0 <= i < states.len() ==> (#[trigger] states[i]).vertex_idx < vs.len(),
        forall|i: int| 0 <= i < kept.len() ==> (#[trigger] kept[i]) < states.len(),
        k <= kept.len(),
    ensures
        ({
            let g = gather_upto(config, states, vs, path_depth, kept, evals, k);
            &&& g.vertices.len() == vs.len()
            &&& forall|i: int|
                0 <= i < vs.len() ==> {
                    &&& #[trigger] g.vertices[i] == (Vertex {
                        sum_pdf: g.vertices[i].sum_pdf,
                        ..vs[i]
                    })
                    &&& !config.smis || !config.cluster || vs[i].sum_pdf.positive
                        ==> g.vertices[i].sum_pdf == vs[i].sum_pdf
                }
        }),
    decreases k,
{
    if k > 0 {
        lemma_gather_keeps(config, states, vs, path_depth, kept, evals, (k - 1) as nat);
        let g = gather_upto(config, states, vs, path_depth, kept, evals, (k - 1) as nat);
        let h = gather_upto(config, states, vs, path_depth, kept, evals, k);
        assert(kept[k - 1] < states.len());
        let at = states[kept[k - 1] as int].vertex_idx as int;
        assert(at < vs.len());
        assert forall|i: int| 0 <= i < vs.len() implies {
            &&& #[trigger] h.vertices[i] == (Vertex { sum_pdf: h.vertices[i].sum_pdf, ..vs[i] })
            &&& !config.smis || !config.cluster || vs[i].sum_pdf.positive
                ==> h.vertices[i].sum_pdf == vs[i].sum_pdf
        } by {
            assert(g.vertices[i] == (Vertex { sum_pdf: g.vertices[i].sum_pdf, ..vs[i] }));
        }
    }
}

/// Filtering changes nothing of a vertex but the sum of densities that is stored with it, and a
/// sum that is stored stays as it is.
pub proof fn law_stored_sums_stay(
    config: Config,
    state: RenderState,
    path_depth: u32,
    kept: Seq<u32>,
    evals: Seq<NeighborEval>,
    i: int,
)
    requires
        state.wf(),
        forall|j: int| 0 <= j < kept.len() ==> (#[trigger] kept[j]) < state.path_state_buf.len(),
        0 <= i < state.vertex_buf.len(),
    ensures
        ({
            let before = state.vertex_buf@[i];
            let g = gather_upto(
                config,
                state.path_state_buf@,
                state.vertex_buf@,
                path_depth,
                kept,
                evals,
                kept.len(),
            );
            let after = g.vertices[i];
            &&& after == (Vertex { sum_pdf: after.sum_pdf, ..before })
            &&& !config.smis || !config.cluster || before.sum_pdf.positive ==> after == before
        }),
{
    lemma_gather_keeps(
        config,
        state.path_state_buf@,
        state.vertex_buf@,
        path_depth,
        kept,
        evals,
        kept.len(),
    );
}

impl PathFiltering {
    /// The densities of a direction at all neighbours, added up.
    fn sum_densities(
        &self,
        state: &RenderState,
        path_depth: u32,
        kept: &Vec<u32>,
        pdfs: &Vec<Single>,
    ) -> (r: DensitySum)
        requires
            state.wf(),
            pdfs.len() == kept.len(),
            forall|i: int| 0 <= i < kept.len() ==> (#[trigger] kept@[i]) < state.path_state_buf.len(),
        ensures
            r == density_at(state.path_state_buf@, path_depth, kept@, pdfs@, kept@.len()),
    {
        let mut sum = DensitySum::zero();
        let mut j: usize = 0;
        while j < kept.len()
            invariant
                j <= kept.len(),
                pdfs.len() == kept.len(),
                forall|i: int|
                    0 <= i < kept.len() ==> (#[trigger] kept@[i]) < state.path_state_buf.len(),
                sum == density_at(state.path_state_buf@, path_depth, kept@, pdfs@, j as nat),
            decreases kept.len() - j,
        {
            if state.path_state_buf[kept[j] as usize].reaches(path_depth) {
                sum = sum.plus(pdfs[j]);
            }
            j += 1;
        }
        sum
    }

    /// Adds what one neighbour brings.
    fn add_neighbor(
        &self,
        state: &mut RenderState,
        path_depth: u32,
        kept: &Vec<u32>,
        eval: &NeighborEval,
        i: usize,
        direct: &mut Color,
        indirect: &mut Color,
    )
        requires
            old(state).wf(),
            i < kept.len() <= u32::MAX,
            forall|j: int|
                0 <= j < kept.len() ==> (#[trigger] kept@[j]) < old(state).path_state_buf.len(),
            step_ok(
                self.config,
                old(state).path_state_buf@,
                path_depth,
                kept@,
                *eval,
                (Gathered {
                    direct: *old(direct),
                    indirect: *old(indirect),
                    vertices: old(state).vertex_buf@,
                }),
                i as int,
            ),
        ensures
            final(state).wf(),
            super::cluster::same_but_vertices(*old(state), *final(state)),
            (Gathered {
                direct: *final(direct),
                indirect: *final(indirect),
                vertices: final(state).vertex_buf@,
            }) == gather_step(
                self.config,
                old(state).path_state_buf@,
                path_depth,
                kept@,
                *eval,
                (Gathered {
                    direct: *old(direct),
                    indirect: *old(indirect),
                    vertices: old(state).vertex_buf@,
                }),
                i as int,
            ),
    {
        let cnt: u32 = kept.len() as u32;
        let ps = state.path_state_buf[kept[i] as usize];
        if !ps.reaches(path_depth) {
            return;
        }
        let mut v = state.vertex_buf[ps.vertex_idx as usize].clone();
        let record = &v.direct;
        if record.pdf.gt_zero() {
            let w = mis_weight(Scalar::Value(record.pdf), Scalar::Value(eval.direct.pdf), 1);
            let term = Color::Rgb(eval.direct.f).times(record.irradiance.clone()).scale(
                record.mis.clone(),
            ).scale(w).over(Scalar::Value(record.pdf)).over(Scalar::Count(cnt));
            *direct = direct.clone().plus(term);
        }
        if eval.no_direction {
            return;
        }
        let reused = Color::Rgb(eval.indirect.f).times(v.indirect.irradiance.clone()).scale(
            v.indirect.mis.clone(),
        );
        if self.config.smis {
            let sum = if self.config.cluster && v.sum_pdf.positive {
                v.sum_pdf.clone()
            } else {
                let sum = self.sum_densities(state, path_depth, kept, &eval.alternative_pdfs);
                if self.config.cluster {
                    v.sum_pdf = sum.clone();
                    state.vertex_buf.set(ps.vertex_idx as usize, v);
                }
                sum
            };
            *indirect = indirect.clone().plus(reused.over(sum.value));
        } else if eval.indirect.pdf.gt_zero() {
            *indirect = indirect.clone().plus(
                reused.over(Scalar::Value(eval.indirect.pdf)).over(Scalar::Count(cnt)),
            );
        }
    }
}

/// The neighbours that are kept for a vertex.
pub open spec fn kept_spec(
    config: Config,
    state: RenderState,
    path_depth: u32,
    cluster_id: u32,
    flags: StylizationFlags,
    grid: HashGrid<u32>,
    query: Query,
) -> Seq<u32> {
    let cands = all_candidates(config, state, path_depth, cluster_id, flags, grid, query);
    reservoir_spec(
        cands,
        query.draws@,
        state.reuses_per_depth@[path_depth as int],
        cands.len(),
    )
}

/// A vertex can be filtered: there is a neighbour, there is room for the list of those that are
/// kept, and there is a draw for each candidate that comes when the places are taken.
pub open spec fn filter_ok(
    config: Config,
    state: RenderState,
    tid: u32,
    cluster_id: u32,
    p: Float3,
    path_depth: u32,
    flags: StylizationFlags,
    grid: HashGrid<u32>,
    query: Query,
    evals: Seq<NeighborEval>,
) -> bool {
    let cands = all_candidates(config, state, path_depth, cluster_id, flags, grid, query);
    let max_reuse = state.reuses_per_depth@[path_depth as int];
    &&& path_depth < state.reuses_per_depth.len()
    &&& query_ok(config, state, cluster_id, p, grid, query)
    &&& cands.len() > 0
    &&& max_reuse > 0
    &&& cands.len() <= max_reuse + query.draws.len()
    &&& (tid + 1) * max_reuse <= state.neighbor_buf.len()
    &&& (tid + 1) * max_reuse <= u32::MAX
    &&& evals_ok(
        config,
        state.path_state_buf@,
        state.vertex_buf@,
        path_depth,
        kept_spec(config, state, path_depth, cluster_id, flags, grid, query),
        evals,
    )
}

/// What all neighbours that are kept bring.
pub open spec fn gathered_spec(
    config: Config,
    state: RenderState,
    path_depth: u32,
    cluster_id: u32,
    flags: StylizationFlags,
    grid: HashGrid<u32>,
    query: Query,
    evals: Seq<NeighborEval>,
) -> Gathered {
    let kept = kept_spec(config, state, path_depth, cluster_id, flags, grid, query);
    gather_upto(
        config,
        state.path_state_buf@,
        state.vertex_buf@,
        path_depth,
        kept,
        evals,
        kept.len(),
    )
}

impl PathFiltering {
    /// The light that leaves a vertex, estimated from its neighbours. `evals` has an entry for
    /// each neighbour that [`PathFiltering::neighbor_candidates`] and [`reservoir`] leave.
    pub fn evaluate_filtered_radiance(
        &self,
        state: &mut RenderState,
        tid: u32,
        cluster_id: u32,
        wo: Float3,
        si: SurfaceInteraction,
        le: &Color,
        path_depth: u32,
        flags: StylizationFlags,
        grid: &HashGrid<u32>,
        query: &Query,
        evals: &Vec<NeighborEval>,
    ) -> (radiance: Color)
        requires
            old(state).wf(),
            filter_ok(
                self.config,
                *old(state),
                tid,
                cluster_id,
                si.p,
                path_depth,
                flags,
                *grid,
                *query,
                evals@,
            ),
        ensures
            final(state).wf(),
            ({
                let g = gathered_spec(
                    self.config,
                    *old(state),
                    path_depth,
                    cluster_id,
                    flags,
                    *grid,
                    *query,
                    evals@,
                );
                let kept = kept_spec(
                    self.config,
                    *old(state),
                    path_depth,
                    cluster_id,
                    flags,
                    *grid,
                    *query,
                );
                let found = all_candidates(
                    self.config,
                    *old(state),
                    path_depth,
                    cluster_id,
                    flags,
                    *grid,
                    *query,
                ).len() as u64;
                let max_reuse = old(state).reuses_per_depth@[path_depth as int];
                &&& radiance == leaving_spec(self.config, *le, g, path_depth, si, wo, flags)
                &&& final(state).vertex_buf@ == g.vertices
                &&& final(state).neighbor_buf@ == written(
                    old(state).neighbor_buf@,
                    tid * max_reuse,
                    kept,
                )
                &&& final(state).neighbor_counter == old(state).neighbor_counter.wrapping_add(found)
            }),
            final(state).first_hit_radiance_buf == old(state).first_hit_radiance_buf,
            final(state).path_state_buf == old(state).path_state_buf,
            final(state).reuses_per_depth == old(state).reuses_per_depth,
            final(state).ray_buf == old(state).ray_buf,
            final(state).record_buf == old(state).record_buf,
    {
        let ghost states = state.path_state_buf@;
        let ghost vs = state.vertex_buf@;
        let max_reuse: u32 = state.reuses_per_depth[path_depth as usize];
        let found = self.neighbor_candidates(state, path_depth, cluster_id, flags, grid, query);
        let kept = reservoir(&found, &query.draws, max_reuse);
        proof {
            law_reservoir_keeps_candidates(found@, query.draws@, max_reuse, found@.len());
            assert forall|i: int| 0 <= i < kept.len() implies (#[trigger] kept@[i])
                < state.path_state_buf.len() by {
                let at = places(query.draws@, max_reuse, found@.len())[i];
                law_candidates_qualify(
                    self.config,
                    *state,
                    path_depth,
                    cluster_id,
                    flags,
                    *grid,
                    *query,
                    at,
                );
            }
            assert(tid * max_reuse >= 0) by (nonlinear_arith);
            assert((tid + 1) * max_reuse == tid * max_reuse + max_reuse) by (nonlinear_arith);
        }
        let offset: u32 = tid * max_reuse;
        write_list(&mut state.neighbor_buf, offset as usize, &kept);
        state.neighbor_counter = state.neighbor_counter.wrapping_add(found.len() as u64);
        let mut direct = Color::zero();
        let mut indirect = Color::zero();
        let ghost mid = *state;
        let mut i: usize = 0;
        while i < kept.len()
            invariant
                i <= kept.len() <= u32::MAX,
                state.wf(),
                states == state.path_state_buf@,
                super::cluster::same_but_vertices(mid, *state),
                forall|j: int|
                    0 <= j < kept.len() ==> (#[trigger] kept@[j]) < state.path_state_buf.len(),
                evals_ok(self.config, states, vs, path_depth, kept@, evals@),
                (Gathered { direct, indirect, vertices: state.vertex_buf@ }) == gather_upto(
                    self.config,
                    states,
                    vs,
                    path_depth,
                    kept@,
                    evals@,
                    i as nat,
                ),
            decreases kept.len() - i,
        {
            assert(step_ok(
                self.config,
                states,
                path_depth,
                kept@,
                evals@[i as int],
                gather_upto(self.config, states, vs, path_depth, kept@, evals@, i as nat),
                i as int,
            ));
            self.add_neighbor(
                state,
                path_depth,
                &kept,
                &evals[i],
                i,
                &mut direct,
                &mut indirect,
            );
            i += 1;
        }
        let radiance = le.clone().plus(direct).plus(indirect);
        let should_stylize = path_depth > 0 || !self.config.no_first_hit_stylization;
        if should_stylize {
            radiance.stylize(path_depth, si.hit(), wo, flags)
        } else {
            radiance
        }
    }

    /// Filters the vertex of the path that is number `ps_idx_offset + tid` in a list, and records
    /// what leaves it for the vertex above. `si` is the point of the vertex.
    pub fn kernel_filter(
        &self,
        state: &mut RenderState,
        tid: u32,
        ps_idx_offset: u32,
        ps_indices: &Vec<u32>,
        path_depth: u32,
        si: SurfaceInteraction,
        grid: &HashGrid<u32>,
        query: &Query,
        evals: &Vec<NeighborEval>,
    )
        requires
            old(state).wf(),
            ps_idx_offset + tid < ps_indices.len() <= u32::MAX,
            ps_indices@[ps_idx_offset + tid] < old(state).path_state_buf.len(),
            ({
                let ps = old(state).path_state_buf@[ps_indices@[ps_idx_offset + tid] as int];
                let v = old(state).vertex_buf@[ps.vertex_idx as int];
                ps.reaches(path_depth) ==> {
                    &&& si.hit() == v.hit
                    &&& filter_ok(
                        self.config,
                        *old(state),
                        tid,
                        v.cluster_id,
                        si.p,
                        path_depth,
                        v.new_flags,
                        *grid,
                        *query,
                        evals@,
                    )
                }
            }),
        ensures
            final(state).wf(),
            ({
                let ps_idx = ps_indices@[ps_idx_offset + tid] as int;
                let ps = old(state).path_state_buf@[ps_idx];
                let at = ps.vertex_idx as int;
                let v = old(state).vertex_buf@[at];
                let g = gathered_spec(
                    self.config,
                    *old(state),
                    path_depth,
                    v.cluster_id,
                    v.new_flags,
                    *grid,
                    *query,
                    evals@,
                );
                let kept = kept_spec(
                    self.config,
                    *old(state),
                    path_depth,
                    v.cluster_id,
                    v.new_flags,
                    *grid,
                    *query,
                );
                let found = all_candidates(
                    self.config,
                    *old(state),
                    path_depth,
                    v.cluster_id,
                    v.new_flags,
                    *grid,
                    *query,
                ).len() as u64;
                let light = leaving_spec(
                    self.config,
                    v.le,
                    g,
                    path_depth,
                    si,
                    v.wo,
                    v.new_flags,
                );
                if !ps.reaches(path_depth) {
                    *final(state) == *old(state)
                } else {
                    &&& final(state).vertex_buf@ == with_radiance(g.vertices, at, v, light)
                    &&& final(state).record_buf@ == recorded(
                        old(state).record_buf@,
                        ps_idx,
                        path_depth,
                        v,
                        light,
                    )
                    &&& final(state).neighbor_buf@ == written(
                        old(state).neighbor_buf@,
                        tid * old(state).reuses_per_depth@[path_depth as int],
                        kept,
                    )
                    &&& final(state).neighbor_counter == old(state).neighbor_counter.wrapping_add(
                        found,
                    )
                    &&& final(state).first_hit_radiance_buf == old(state).first_hit_radiance_buf
                    &&& final(state).path_state_buf == old(state).path_state_buf
                    &&& final(state).reuses_per_depth == old(state).reuses_per_depth
                    &&& final(state).ray_buf == old(state).ray_buf
                }
            }),
    {
        let ps_idx: u32 = ps_indices[(ps_idx_offset + tid) as usize];
        let ps = state.path_state_buf[ps_idx as usize];
        if !ps.reaches(path_depth) {
            return;
        }
        let mut v = state.vertex_buf[ps.vertex_idx as usize].clone();
        let light = self.evaluate_filtered_radiance(
            state,
            tid,
            v.cluster_id,
            v.wo,
            si,
            &v.le,
            path_depth,
            v.new_flags,
            grid,
            query,
            evals,
        );
        let mut new_record = IrradianceRecord::zeroed();
        new_record.irradiance = light.clone();
        new_record.wi = v.wo.neg();
        new_record.mis = v.mis.clone();
        v.radiance = light;
        if path_depth > 0 {
            state.record_buf.set(ps_idx as usize, new_record);
        }
        state.vertex_buf.set(ps.vertex_idx as usize, v);
    }

    /// Hands what the vertex below sent out to the vertex of a path, which by now is the one above.
    pub fn kernel_propagate(
        &self,
        state: &mut RenderState,
        tid: u32,
        ps_indices: &Vec<u32>,
        path_depth: u32,
    )
        requires
            old(state).wf(),
            tid < ps_indices.len(),
            ps_indices@[tid as int] < old(state).path_state_buf.len(),
        ensures
            final(state).wf(),
            super::cluster::same_but_vertices(*old(state), *final(state)),
            ({
                let ps_idx = ps_indices@[tid as int] as int;
                let ps = old(state).path_state_buf@[ps_idx];
                let at = ps.vertex_idx as int;
                final(state).vertex_buf@ == (if ps.reaches(path_depth) {
                    old(state).vertex_buf@.update(
                        at,
                        received_spec(old(state).vertex_buf@[at], old(state).record_buf@[ps_idx]),
                    )
                } else {
                    old(state).vertex_buf@
                })
            }),
    {
        let ps_idx: u32 = ps_indices[tid as usize];
        let ps = state.path_state_buf[ps_idx as usize];
        if !ps.reaches(path_depth) {
            return;
        }
        let mut record = state.record_buf[ps_idx as usize].clone();
        let mut v = state.vertex_buf[ps.vertex_idx as usize].clone();
        record.pdf = v.bsdf_pdf;
        v.indirect = record;
        state.vertex_buf.set(ps.vertex_idx as usize, v);
    }
}

/// The vertices, where vertex `v` has the light that leaves it.
pub open spec fn with_radiance(vs: Seq<Vertex>, at: int, v: Vertex, light: Color) -> Seq<Vertex> {
    vs.update(at, Vertex { radiance: light, ..v })
}

/// The records, with the one that a vertex leaves for the vertex above it.
pub open spec fn recorded(
    records: Seq<IrradianceRecord>,
    ps_idx: int,
    path_depth: u32,
    v: Vertex,
    light: Color,
) -> Seq<IrradianceRecord> {
    if path_depth > 0 {
        records.update(ps_idx, sent_spec(v, light))
    } else {
        records
    }
}

/// What is recorded of the light that leaves a vertex.
pub open spec fn sent_spec(v: Vertex, light: Color) -> IrradianceRecord {
    IrradianceRecord { irradiance: light, wi: v.wo.neg(), pdf: Single::zero(), mis: v.mis }
}

/// A vertex with the light that a record brings to it.
pub open spec fn received_spec(v: Vertex, record: IrradianceRecord) -> Vertex {
    Vertex { indirect: IrradianceRecord { pdf: v.bsdf_pdf, ..record }, ..v }
}

/// The light that leaves a vertex arrives at the vertex above it: along the direction that leads
/// down, with the density with which that direction was sampled and the weight that the vertex
/// below has for it. Nothing else of the vertex above changes.
pub proof fn law_light_is_handed_up(below: Vertex, above: Vertex, light: Color)
    ensures
        ({
            let after = received_spec(above, sent_spec(below, light));
            &&& after.indirect.irradiance == light
            &&& after.indirect.wi.neg() == below.wo
            &&& after.indirect.pdf == above.bsdf_pdf
            &&& after.indirect.mis == below.mis
            &&& after == (Vertex { indirect: after.indirect, ..above })
        }),
{
    crate::value::law_negation(below.wo.x);
    crate::value::law_negation(below.wo.y);
    crate::value::law_negation(below.wo.z);
}

/// A neighbour whose density counts towards the sum of a vertex of the given cluster and flags.
pub open spec fn counts_for(
    config: Config,
    states: Seq<PathState>,
    vs: Seq<Vertex>,
    path_depth: u32,
    v: Vertex,
    id: u32,
) -> bool {
    let other = vs[states[id as int].vertex_idx as int];
    &&& states[id as int].reaches(path_depth)
    &&& other.cluster_id == v.cluster_id
    &&& !config.disable_flag_check ==> other.new_flags == v.new_flags
}

/// The densities of the first `k` neighbours that count, added up.
pub open spec fn smis_sum(
    config: Config,
    states: Seq<PathState>,
    vs: Seq<Vertex>,
    path_depth: u32,
    v: Vertex,
    list: Seq<u32>,
    pdfs: Seq<Single>,
    k: nat,
) -> DensitySum
    decreases k,
{
    if k == 0 {
        DensitySum::zero()
    } else {
        let before = smis_sum(config, states, vs, path_depth, v, list, pdfs, (k - 1) as nat);
        if counts_for(config, states, vs, path_depth, v, list[k - 1]) {
            before.plus(pdfs[k - 1])
        } else {
            before
        }
    }
}

impl PathFiltering {
    /// Stores with the vertex of the path that is number `ps_idx_offset + tid` in a list the sum
    /// of the densities of its indirect direction at all vertices around the centre of its
    /// cluster. `no_direction` says that the direction has no length; `pdfs` has the density for
    /// each path that [`PathFiltering::neighbor_candidates`] gives.
    pub fn kernel_evaluate_smis_weight(
        &self,
        state: &mut RenderState,
        tid: u32,
        ps_idx_offset: u32,
        ps_indices: &Vec<u32>,
        path_depth: u32,
        grid: &HashGrid<u32>,
        query: &Query,
        no_direction: bool,
        pdfs: &Vec<Single>,
    )
        requires
            old(state).wf(),
            ps_idx_offset + tid < ps_indices.len() <= u32::MAX,
            ps_indices@[ps_idx_offset + tid] < old(state).path_state_buf.len(),
            ({
                let ps = old(state).path_state_buf@[ps_indices@[ps_idx_offset + tid] as int];
                let v = old(state).vertex_buf@[ps.vertex_idx as int];
                let list = all_candidates(
                    self.config,
                    *old(state),
                    path_depth,
                    v.cluster_id,
                    v.new_flags,
                    *grid,
                    *query,
                );
                ps.reaches(path_depth) ==> {
                    &&& path_depth < old(state).reuses_per_depth.len()
                    &&& grid_of_paths(*grid, old(state).vertex_buf@.len())
                    &&& query.near.len() == grid.visits(query.point).len()
                    &&& v.cluster_id < old(state).vertex_buf.len()
                    &&& query.point.p == old(state).vertex_buf@[v.cluster_id as int].p
                    &&& query.center_near
                    &&& !no_direction ==> {
                        &&& tid * old(state).reuses_per_depth@[path_depth as int] + list.len() <= old(
                            state).neighbor_buf.len()
                        &&& tid * old(state).reuses_per_depth@[path_depth as int] + list.len()
                            <= u32::MAX
                        &&& pdfs.len() == list.len()
                        &&& forall|i: int|
                            0 <= i < list.len() && counts_for(
                                self.config,
                                old(state).path_state_buf@,
                                old(state).vertex_buf@,
                                path_depth,
                                v,
                                list[i],
                            ) ==> is_density(#[trigger] pdfs@[i])
                    }
                }
            }),
        ensures
            final(state).wf(),
            ({
                let ps = old(state).path_state_buf@[ps_indices@[ps_idx_offset + tid] as int];
                let at = ps.vertex_idx as int;
                let v = old(state).vertex_buf@[at];
                let list = all_candidates(
                    self.config,
                    *old(state),
                    path_depth,
                    v.cluster_id,
                    v.new_flags,
                    *grid,
                    *query,
                );
                if !ps.reaches(path_depth) || no_direction {
                    *final(state) == *old(state)
                } else {
                    &&& final(state).vertex_buf@ == old(state).vertex_buf@.update(
                        at,
                        Vertex {
                            sum_pdf: smis_sum(
                                self.config,
                                old(state).path_state_buf@,
                                old(state).vertex_buf@,
                                path_depth,
                                v,
                                list,
                                pdfs@,
                                list.len(),
                            ),
                            ..v
                        },
                    )
                    &&& final(state).neighbor_buf@ == written(
                        old(state).neighbor_buf@,
                        tid * old(state).reuses_per_depth@[path_depth as int],
                        list,
                    )
                    &&& final(state).first_hit_radiance_buf == old(state).first_hit_radiance_buf
                    &&& final(state).path_state_buf == old(state).path_state_buf
                    &&& final(state).reuses_per_depth == old(state).reuses_per_depth
                    &&& final(state).neighbor_counter == old(state).neighbor_counter
                    &&& final(state).ray_buf == old(state).ray_buf
                    &&& final(state).record_buf == old(state).record_buf
                }
            }),
    {
        let ps_idx: u32 = ps_indices[(ps_idx_offset + tid) as usize];
        let ps = state.path_state_buf[ps_idx as usize];
        if !ps.reaches(path_depth) || no_direction {
            return;
        }
        let mut v = state.vertex_buf[ps.vertex_idx as usize].clone();
        let max_reuse: u32 = state.reuses_per_depth[path_depth as usize];
        let list = self.neighbor_candidates(
            state,
            path_depth,
            v.cluster_id,
            v.new_flags,
            grid,
            query,
        );
        proof {
            assert(tid * max_reuse >= 0) by (nonlinear_arith);
            assert forall|i: int| 0 <= i < list.len() implies (#[trigger] list@[i])
                < state.path_state_buf.len() by {
                law_candidates_qualify(
                    self.config,
                    *state,
                    path_depth,
                    v.cluster_id,
                    v.new_flags,
                    *grid,
                    *query,
                    i,
                );
            }
        }
        let offset: u32 = tid * max_reuse;
        write_list(&mut state.neighbor_buf, offset as usize, &list);
        let mut sum = DensitySum::zero();
        let mut i: usize = 0;
        while i < list.len()
            invariant
                i <= list.len(),
                state.wf(),
                pdfs.len() == list.len(),
                forall|j: int|
                    0 <= j < list.len() ==> (#[trigger] list@[j]) < state.path_state_buf.len(),
                sum == smis_sum(
                    self.config,
                    state.path_state_buf@,
                    state.vertex_buf@,
                    path_depth,
                    v,
                    list@,
                    pdfs@,
                    i as nat,
                ),
            decreases list.len() - i,
        {
            let other_ps = state.path_state_buf[list[i] as usize];
            let other = &state.vertex_buf[other_ps.vertex_idx as usize];
            if other_ps.reaches(path_depth) && other.cluster_id == v.cluster_id && (
            self.config.disable_flag_check || other.new_flags.is_equal(v.new_flags)) {
                sum = sum.plus(pdfs[i]);
            }
            i += 1;
        }
        v.sum_pdf = sum;
        state.vertex_buf.set(ps.vertex_idx as usize, v);
    }
}

} // verus!
