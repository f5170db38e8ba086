//! Gathering the vertices of a depth into clusters.
//!
//! In each round, every chain of the grid makes the first vertex that is in no cluster yet the
//! centre of a new one; then every vertex without a cluster joins the first centre around it that
//! has room. Rounds go on until no vertex is left over.
use super::{PathFiltering, PathState, RenderState, Vertex};
use crate::hash_grid::{
    cell_spec, home, law_query_is_sound, lemma_visits_in_range, GridPoint, HashGrid, HashGridVar,
};
use crate::value::NONE;
use vstd::prelude::*;

verus! {

/// How one attempt to join a cluster ends.
#[derive(Clone, Copy, Debug, PartialEq, Eq, Structural)]
pub enum Attempt {
    /// The cluster is full.
    Full,
    /// The vertex is in the cluster.
    Joined,
    /// Another vertex came first; try again.
    Retry,
}

pub open spec fn attempt_spec(cur_cnt: u32, actual: u32, max_reuse: u32) -> Attempt {
    if cur_cnt >= max_reuse || actual >= max_reuse {
        Attempt::Full
    } else if actual == cur_cnt {
        Attempt::Joined
    } else {
        Attempt::Retry
    }
}

/// What an exchange of the size of a cluster means, where `cur_cnt` was expected and `actual` was
/// found.
pub fn attempt(cur_cnt: u32, actual: u32, max_reuse: u32) -> (r: Attempt)
    ensures
        r == attempt_spec(cur_cnt, actual, max_reuse),
{
    if cur_cnt >= max_reuse {
        return Attempt::Full;
    }
    if actual >= max_reuse {
        return Attempt::Full;
    }
    if actual == cur_cnt {
        return Attempt::Joined;
    }
    Attempt::Retry
}

/// Where a thread is that tries to join a cluster.
#[derive(Clone, Copy, Debug, PartialEq, Eq, Structural)]
pub enum Claim {
    /// It reads the size next.
    Read,
    /// It read a size below the limit, and exchanges it for one more next.
    Exchange { cur_cnt: u32 },
    Joined,
    Full,
}

/// What one step of a thread does to it, and to the size of the cluster.
pub open spec fn claim_spec(size: u32, claim: Claim, max_reuse: u32) -> (u32, Claim) {
    match claim {
        Claim::Read => (
            size,
            if size >= max_reuse {
                Claim::Full
            } else {
                Claim::Exchange { cur_cnt: size }
            },
        ),
        Claim::Exchange { cur_cnt } => (
            if size == cur_cnt {
                (cur_cnt + 1) as u32
            } else {
                size
            },
            match attempt_spec(cur_cnt, size, max_reuse) {
                Attempt::Full => Claim::Full,
                Attempt::Joined => Claim::Joined,
                Attempt::Retry => Claim::Read,
            },
        ),
        Claim::Joined => (size, claim),
        Claim::Full => (size, claim),
    }
}

/// A thread only ever tries to take the last place or one before it.
pub open spec fn claim_ok(claim: Claim, max_reuse: u32) -> bool {
    claim matches Claim::Exchange { cur_cnt } ==> cur_cnt < max_reuse
}

/// One step of one thread: a read, or an atomic exchange.
pub fn claim_step(size: &mut u32, claim: Claim, max_reuse: u32) -> (r: Claim)
    requires
        claim_ok(claim, max_reuse),
    ensures
        (*final(size), r) == claim_spec(*old(size), claim, max_reuse),
        claim_ok(r, max_reuse),
{
    match claim {
        Claim::Read => {
            if *size >= max_reuse {
                Claim::Full
            } else {
                Claim::Exchange { cur_cnt: *size }
            }
        },
        Claim::Exchange { cur_cnt } => {
            let actual: u32 = *size;
            if actual == cur_cnt {
                *size = cur_cnt + 1;
            }
            match attempt(cur_cnt, actual, max_reuse) {
                Attempt::Full => Claim::Full,
                Attempt::Joined => Claim::Joined,
                Attempt::Retry => Claim::Read,
            }
        },
        Claim::Joined => claim,
        Claim::Full => claim,
    }
}

/// The number of threads that have joined.
pub open spec fn joined(claims: Seq<Claim>) -> int
    decreases claims.len(),
{
    if claims.len() == 0 {
        0
    } else {
        joined(claims.drop_last()) + if claims.last() is Joined {
            1int
        } else {
            0
        }
    }
}

proof fn lemma_joined_update(claims: Seq<Claim>, i: int, c: Claim)
    requires
        0 <= i < claims.len(),
    ensures
        joined(claims.update(i, c)) == joined(claims) - (if claims[i] is Joined {
            1int
        } else {
            0
        }) + (if c is Joined {
            1int
        } else {
            0
        }),
    decreases claims.len(),
{
    let after = claims.update(i, c);
    if i == claims.len() - 1 {
        assert(after.drop_last() =~= claims.drop_last());
    } else {
        assert(after.drop_last() =~= claims.drop_last().update(i, c));
        lemma_joined_update(claims.drop_last(), i, c);
    }
}

/// The size of the cluster and the threads after the first `n` steps of a schedule, which names
/// the thread that takes each step.
pub open spec fn claims_after(
    size: u32,
    claims: Seq<Claim>,
    max_reuse: u32,
    schedule: Seq<usize>,
    n: nat,
) -> (u32, Seq<Claim>)
    decreases n,
{
    if n == 0 {
        (size, claims)
    } else {
        let (now, before) = claims_after(size, claims, max_reuse, schedule, (n - 1) as nat);
        let i = schedule[n - 1] as int;
        let (next, moved) = claim_spec(now, before[i], max_reuse);
        (next, before.update(i, moved))
    }
}

/// Runs threads that try to join one cluster, a step of one of them at a time, as the schedule
/// says. In whatever order that happens, the cluster grows by the threads that join it, and it
/// never outgrows its limit.
pub fn claim_interleaved(
    size: &mut u32,
    claims: &mut Vec<Claim>,
    max_reuse: u32,
    schedule: &Vec<usize>,
)
    requires
        *old(size) <= max_reuse,
        forall|i: int| 0 <= i < old(claims).len() ==> claim_ok(#[trigger] old(claims)@[i], max_reuse),
        forall|i: int| 0 <= i < schedule.len() ==> (#[trigger] schedule@[i]) < old(claims).len(),
    ensures
        (*final(size), final(claims)@) == claims_after(
            *old(size),
            old(claims)@,
            max_reuse,
            schedule@,
            schedule@.len(),
        ),
        final(claims).len() == old(claims).len(),
        forall|i: int|
            0 <= i < final(claims).len() ==> claim_ok(#[trigger] final(claims)@[i], max_reuse),
        *final(size) <= max_reuse,
        *final(size) - *old(size) == joined(final(claims)@) - joined(old(claims)@),
        forall|i: int|
            0 <= i < old(claims).len() && (#[trigger] old(claims)@[i] is Joined || old(claims)@[i] is Full)
                ==> final(claims)@[i] == old(claims)@[i],
{
    let mut k: usize = 0;
    while k < schedule.len()
        invariant
            k <= schedule.len(),
            (*size, claims@) == claims_after(
                *old(size),
                old(claims)@,
                max_reuse,
                schedule@,
                k as nat,
            ),
            claims.len() == old(claims).len(),
            *size <= max_reuse,
            *size - *old(size) == joined(claims@) - joined(old(claims)@),
            forall|i: int| 0 <= i < claims.len() ==> claim_ok(#[trigger] claims@[i], max_reuse),
            forall|i: int| 0 <= i < schedule.len() ==> (#[trigger] schedule@[i]) < claims.len(),
            forall|i: int|
                0 <= i < claims.len() && (#[trigger] old(claims)@[i] is Joined || old(claims)@[i] is Full)
                    ==> claims@[i] == old(claims)@[i],
        decreases schedule.len() - k,
    {
        let i: usize = schedule[k];
        let claim = claims[i];
        let ghost before = claims@;
        let moved = claim_step(size, claim, max_reuse);
        claims.set(i, moved);
        proof {
            lemma_joined_update(before, i as int, moved);
        }
        k += 1;
    }
}

/// The vertex with index `c` is the centre of a cluster.
pub open spec fn is_center(vs: Seq<Vertex>, c: int) -> bool {
    0 <= c < vs.len() && vs[c].cluster_id == c
}

/// The `k`-th visited point is near enough, is a centre, and its cluster has room.
pub open spec fn is_open(
    vs: Seq<Vertex>,
    ids: Seq<u32>,
    near: Seq<bool>,
    max_reuse: u32,
    k: int,
) -> bool {
    near[k] && is_center(vs, ids[k] as int) && vs[ids[k] as int].cluster_size < max_reuse
}

/// The first open cluster among the visited points from the `k`-th on.
pub open spec fn first_open(
    vs: Seq<Vertex>,
    ids: Seq<u32>,
    near: Seq<bool>,
    max_reuse: u32,
    k: nat,
) -> Option<u32>
    decreases ids.len() - k,
{
    if k >= ids.len() {
        None
    } else if is_open(vs, ids, near, max_reuse, k as int) {
        Some(ids[k as int])
    } else {
        first_open(vs, ids, near, max_reuse, k + 1)
    }
}

/// The paths that the visited points belong to.
pub open spec fn ids_of(grid: HashGrid<u32>, p: GridPoint) -> Seq<u32> {
    Seq::new(grid.visits(p).len(), |k: int| grid.data@[grid.visits(p)[k] as int])
}

/// A vertex of the depth that is in no cluster.
pub open spec fn is_loose(states: Seq<PathState>, vs: Seq<Vertex>, path_depth: u32, tid: int) -> bool {
    states[tid].reaches(path_depth) && vs[states[tid].vertex_idx as int].cluster_id == NONE
}

/// What the search for a cluster does to the vertices.
pub open spec fn join_spec(vs: Seq<Vertex>, i: int, found: Option<u32>) -> Seq<Vertex> {
    match found {
        Some(c) => vs.update(
            c as int,
            Vertex { cluster_size: (vs[c as int].cluster_size + 1) as u32, ..vs[c as int] },
        ).update(i, Vertex { cluster_id: c, ..vs[i] }),
        None => vs,
    }
}

/// Only the vertices of the buffers changed.
pub open spec fn same_but_vertices(a: RenderState, b: RenderState) -> bool {
    &&& a.first_hit_radiance_buf == b.first_hit_radiance_buf
    &&& a.path_state_buf == b.path_state_buf
    &&& a.reuses_per_depth == b.reuses_per_depth
    &&& a.neighbor_counter == b.neighbor_counter
    &&& a.ray_buf == b.ray_buf
    &&& a.record_buf == b.record_buf
    &&& a.neighbor_buf == b.neighbor_buf
    &&& a.vertex_buf.len() == b.vertex_buf.len()
}

/// The data of the grid are indices of paths.
pub open spec fn grid_of_paths(grid: HashGrid<u32>, n: nat) -> bool {
    &&& grid.links_ok()
    &&& forall|i: int| 0 <= i < grid.data.len() ==> (#[trigger] grid.data@[i]) < n
}

impl PathFiltering {
    /// Marks a chain as without a centre.
    pub fn kernel_reset_cluster_id_buf(&self, cluster_id_buf: &mut Vec<u32>, tid: u32)
        requires
            tid < old(cluster_id_buf).len(),
        ensures
            final(cluster_id_buf)@ == old(cluster_id_buf)@.update(tid as int, NONE),
    {
        cluster_id_buf.set(tid as usize, NONE);
    }

    /// Makes a vertex the centre of a cluster, if it is in none and comes first in its chain.
    /// `point` is the point of the vertex.
    pub fn kernel_init_cluster(
        &self,
        state: &mut RenderState,
        tid: u32,
        path_depth: u32,
        grid: &HashGrid<u32>,
        point: GridPoint,
        cluster_id_buf: &mut Vec<u32>,
    )
        requires
            old(state).wf(),
            tid < old(state).path_state_buf.len(),
            grid.links_ok(),
            old(cluster_id_buf).len() == grid.cell_head.len(),
            point.p == old(state).vertex_buf@[old(state).path_state_buf@[tid as int].vertex_idx as int].p,
        ensures
            final(state).wf(),
            same_but_vertices(*old(state), *final(state)),
            ({
                let i = old(state).path_state_buf@[tid as int].vertex_idx as int;
                let cell = home(grid.state, point) as int;
                if is_loose(old(state).path_state_buf@, old(state).vertex_buf@, path_depth, tid as int)
                    && old(cluster_id_buf)@[cell] == NONE {
                    &&& final(cluster_id_buf)@ == old(cluster_id_buf)@.update(cell, tid)
                    &&& final(state).vertex_buf@ == old(state).vertex_buf@.update(
                        i,
                        Vertex { cluster_id: tid, ..old(state).vertex_buf@[i] },
                    )
                } else {
                    &&& final(cluster_id_buf)@ == old(cluster_id_buf)@
                    &&& final(state).vertex_buf@ == old(state).vertex_buf@
                }
            }),
    {
        let ps = state.path_state_buf[tid as usize];
        if !ps.reaches(path_depth) {
            return;
        }
        let mut v = state.vertex_buf[ps.vertex_idx as usize].clone();
        if v.cluster_id != NONE {
            return;
        }
        let var = HashGridVar { grid };
        let cell = var.get_cell(point);
        let cell_index: u32 = var.cell_pos_to_index(cell);
        if cluster_id_buf[cell_index as usize] == NONE {
            cluster_id_buf.set(cell_index as usize, tid);
            v.cluster_id = tid;
            state.vertex_buf.set(ps.vertex_idx as usize, v);
        }
    }

    /// Takes a place in the cluster around vertex `c`, if there is one.
    fn claim_place(&self, state: &mut RenderState, c: u32, max_reuse: u32) -> (r: bool)
        requires
            old(state).wf(),
            c < old(state).vertex_buf.len(),
        ensures
            final(state).wf(),
            same_but_vertices(*old(state), *final(state)),
            r == (old(state).vertex_buf@[c as int].cluster_size < max_reuse),
            !r ==> *final(state) == *old(state),
            final(state).vertex_buf@ == (if r {
                old(state).vertex_buf@.update(
                    c as int,
                    Vertex {
                        cluster_size: (old(state).vertex_buf@[c as int].cluster_size + 1) as u32,
                        ..old(state).vertex_buf@[c as int]
                    },
                )
            } else {
                old(state).vertex_buf@
            }),
    {
        let mut center = state.vertex_buf[c as usize].clone();
        let mut size: u32 = center.cluster_size;
        let read = claim_step(&mut size, Claim::Read, max_reuse);
        let end = claim_step(&mut size, read, max_reuse);
        match end {
            Claim::Joined => {
                center.cluster_size = size;
                state.vertex_buf.set(c as usize, center);
                true
            },
            _ => false,
        }
    }

    /// Joins a vertex to the first cluster around it that has room, and tells whether it is left
    /// over. `point` is the point of the vertex; `near` says of every point that a query there
    /// visits whether its distance is within the radius of the grid.
    pub fn kernel_cluster(
        &self,
        state: &mut RenderState,
        tid: u32,
        path_depth: u32,
        grid: &HashGrid<u32>,
        point: GridPoint,
        near: &Vec<bool>,
    ) -> (left_over: bool)
        requires
            old(state).wf(),
            tid < old(state).path_state_buf.len(),
            path_depth < old(state).reuses_per_depth.len(),
            grid_of_paths(*grid, old(state).vertex_buf@.len()),
            point.p == old(state).vertex_buf@[old(state).path_state_buf@[tid as int].vertex_idx as int].p,
            near.len() == grid.visits(point).len(),
        ensures
            final(state).wf(),
            same_but_vertices(*old(state), *final(state)),
            ({
                let i = old(state).path_state_buf@[tid as int].vertex_idx as int;
                let found = first_open(
                    old(state).vertex_buf@,
                    ids_of(*grid, point),
                    near@,
                    old(state).reuses_per_depth@[path_depth as int],
                    0,
                );
                if is_loose(old(state).path_state_buf@, old(state).vertex_buf@, path_depth, tid as int) {
                    &&& left_over == (found is None)
                    &&& final(state).vertex_buf@ == join_spec(old(state).vertex_buf@, i, found)
                } else {
                    &&& !left_over
                    &&& final(state).vertex_buf@ == old(state).vertex_buf@
                }
            }),
    {
        let ps = state.path_state_buf[tid as usize];
        if !ps.reaches(path_depth) {
            return false;
        }
        let mut v = state.vertex_buf[ps.vertex_idx as usize].clone();
        if v.cluster_id != NONE {
            return false;
        }
        let max_reuse: u32 = state.reuses_per_depth[path_depth as usize];
        let var = HashGridVar { grid };
        let visited = var.neighbor_indices(point);
        let ghost ids = ids_of(*grid, point);
        let ghost vs = state.vertex_buf@;
        proof {
            lemma_visits_in_range(grid, cell_spec(grid.state, point), 27);
        }
        let mut k: usize = 0;
        while k < visited.len()
            invariant
                k <= visited.len(),
                state.wf(),
                *state == *old(state),
                vs == state.vertex_buf@,
                ps == state.path_state_buf@[tid as int],
                tid < state.path_state_buf.len(),
                v == vs[ps.vertex_idx as int],
                v.cluster_id == NONE,
                is_loose(state.path_state_buf@, vs, path_depth, tid as int),
                grid_of_paths(*grid, vs.len()),
                visited@ == grid.visits(point),
                ids == ids_of(*grid, point),
                forall|j: int| 0 <= j < visited@.len() ==> (#[trigger] visited@[j]) < grid.pos.len(),
                near.len() == visited.len(),
                path_depth < state.reuses_per_depth.len(),
                max_reuse == state.reuses_per_depth@[path_depth as int],
                first_open(vs, ids, near@, max_reuse, 0) == first_open(
                    vs,
                    ids,
                    near@,
                    max_reuse,
                    k as nat,
                ),
            decreases visited.len() - k,
        {
            let idx: u32 = visited[k];
            let i: u32 = grid.data[idx as usize];
            assert(ids[k as int] == i);
            if near[k] && state.vertex_buf[i as usize].cluster_id == i {
                if self.claim_place(state, i, max_reuse) {
                    v.cluster_id = i;
                    state.vertex_buf.set(ps.vertex_idx as usize, v);
                    return false;
                }
            }
            k += 1;
        }
        true
    }
}

/// The number of vertices of a depth that are in the cluster around vertex `c`, among those of the
/// first `n` paths.
pub open spec fn members(
    states: Seq<PathState>,
    vs: Seq<Vertex>,
    path_depth: u32,
    c: int,
    n: nat,
) -> int
    decreases n,
{
    if n == 0 {
        0
    } else {
        members(states, vs, path_depth, c, (n - 1) as nat) + if states[n - 1].reaches(path_depth)
            && vs[n - 1].cluster_id == c {
            1int
        } else {
            0
        }
    }
}

/// Every cluster of a depth has a centre that is in it; besides it there are as many vertices of
/// the depth in it as its size says, and no more than the limit. Vertices that other depths left
/// behind may say anything.
pub open spec fn clusters_ok(
    states: Seq<PathState>,
    vs: Seq<Vertex>,
    path_depth: u32,
    max_reuse: u32,
) -> bool {
    &&& states.len() == vs.len()
    &&& forall|i: int|
        0 <= i < vs.len() && states[i].reaches(path_depth) && (#[trigger] vs[i]).cluster_id != NONE
            ==> is_center(vs, vs[i].cluster_id as int) && states[vs[i].cluster_id as int].reaches(
            path_depth,
        )
    &&& forall|c: int|
        0 <= c < vs.len() && states[c].reaches(path_depth) && #[trigger] is_center(vs, c) ==> {
            &&& members(states, vs, path_depth, c, vs.len()) == vs[c].cluster_size + 1
            &&& vs[c].cluster_size <= max_reuse
        }
    &&& forall|c: int|
        0 <= c < vs.len() && states[c].reaches(path_depth) && !(#[trigger] is_center(vs, c))
            ==> vs[c].cluster_size == 0
}

/// The points of the grid are those of paths that have a vertex at the depth.
pub open spec fn grid_of_depth(
    grid: HashGrid<u32>,
    states: Seq<PathState>,
    path_depth: u32,
) -> bool {
    &&& grid.built()
    &&& forall|i: int|
        0 <= i < grid.cnt ==> (#[trigger] grid.data@[i]) < states.len()
            && states[grid.data@[i] as int].reaches(path_depth)
}

/// Clusters that were in order stay so, in a grid of the depth.
pub open spec fn keeps_clusters(
    a: RenderState,
    b: Seq<Vertex>,
    path_depth: u32,
    grid: HashGrid<u32>,
) -> bool {
    let states = a.path_state_buf@;
    let max_reuse = a.reuses_per_depth@[path_depth as int];
    grid_of_depth(grid, states, path_depth) && clusters_ok(
        states,
        a.vertex_buf@,
        path_depth,
        max_reuse,
    ) ==> clusters_ok(states, b, path_depth, max_reuse)
}

/// The number of the first `n` paths whose vertex is in no cluster.
pub open spec fn loose_count(
    states: Seq<PathState>,
    vs: Seq<Vertex>,
    path_depth: u32,
    n: nat,
) -> int
    decreases n,
{
    if n == 0 {
        0
    } else {
        loose_count(states, vs, path_depth, (n - 1) as nat) + if is_loose(
            states,
            vs,
            path_depth,
            n - 1,
        ) {
            1int
        } else {
            0
        }
    }
}

/// The vertices changed at most in what they say of clusters, and no vertex left its cluster.
pub open spec fn clustered_from(a: Seq<Vertex>, b: Seq<Vertex>) -> bool {
    &&& a.len() == b.len()
    &&& forall|i: int|
        0 <= i < a.len() ==> {
            &&& #[trigger] b[i] == (Vertex {
                cluster_id: b[i].cluster_id,
                cluster_size: b[i].cluster_size,
                ..a[i]
            })
            &&& a[i].cluster_id != NONE ==> b[i].cluster_id == a[i].cluster_id
        }
}

proof fn lemma_members_update(
    states: Seq<PathState>,
    vs: Seq<Vertex>,
    path_depth: u32,
    i: int,
    v: Vertex,
    c: int,
    n: nat,
)
    requires
        0 <= i < vs.len(),
        n <= vs.len(),
    ensures
        members(states, vs.update(i, v), path_depth, c, n) == members(states, vs, path_depth, c, n)
            + (if i < n && states[i].reaches(path_depth) {
            (if v.cluster_id == c {
                1int
            } else {
                0
            }) - (if vs[i].cluster_id == c {
                1int
            } else {
                0
            })
        } else {
            0
        }),
    decreases n,
{
    if n > 0 {
        lemma_members_update(states, vs, path_depth, i, v, c, (n - 1) as nat);
    }
}

proof fn lemma_no_members(
    states: Seq<PathState>,
    vs: Seq<Vertex>,
    path_depth: u32,
    c: int,
    n: nat,
)
    requires
        n <= vs.len(),
        forall|i: int|
            0 <= i < vs.len() && states[i].reaches(path_depth) ==> (#[trigger] vs[i]).cluster_id
                != c,
    ensures
        members(states, vs, path_depth, c, n) == 0,
    decreases n,
{
    if n > 0 {
        lemma_no_members(states, vs, path_depth, c, (n - 1) as nat);
        assert(states[n - 1].reaches(path_depth) ==> vs[n - 1].cluster_id != c);
    }
}

/// A vertex in no cluster can become the centre of a new one.
proof fn lemma_new_center(
    states: Seq<PathState>,
    vs: Seq<Vertex>,
    path_depth: u32,
    i: int,
    max_reuse: u32,
)
    requires
        clusters_ok(states, vs, path_depth, max_reuse),
        0 <= i < vs.len() <= NONE,
        states[i].reaches(path_depth),
        vs[i].cluster_id == NONE,
    ensures
        clusters_ok(
            states,
            vs.update(i, Vertex { cluster_id: i as u32, ..vs[i] }),
            path_depth,
            max_reuse,
        ),
{
    let v = Vertex { cluster_id: i as u32, ..vs[i] };
    let after = vs.update(i, v);
    assert(!is_center(vs, i));
    assert forall|k: int|
        0 <= k < after.len() && states[k].reaches(path_depth) && (#[trigger] after[k]).cluster_id
            != NONE implies is_center(after, after[k].cluster_id as int)
        && states[after[k].cluster_id as int].reaches(path_depth) by {
        if k != i {
            assert(after[k] == vs[k]);
            assert(is_center(vs, vs[k].cluster_id as int));
        }
    }
    assert forall|c: int|
        0 <= c < after.len() && states[c].reaches(path_depth) && #[trigger] is_center(
            after,
            c,
        ) implies {
        &&& members(states, after, path_depth, c, after.len()) == after[c].cluster_size + 1
        &&& after[c].cluster_size <= max_reuse
    } by {
        lemma_members_update(states, vs, path_depth, i, v, c, vs.len());
        if c == i {
            assert forall|k: int|
                0 <= k < vs.len() && states[k].reaches(path_depth) implies (#[trigger] vs[k]).cluster_id
                != c by {
                if vs[k].cluster_id == c {
                    assert(is_center(vs, vs[k].cluster_id as int));
                }
            }
            lemma_no_members(states, vs, path_depth, c, vs.len());
        } else {
            assert(is_center(vs, c));
        }
    }
    assert forall|c: int|
        0 <= c < after.len() && states[c].reaches(path_depth) && !(#[trigger] is_center(
            after,
            c,
        )) implies after[c].cluster_size == 0 by {
        assert(!is_center(vs, c));
    }
}

/// A vertex in no cluster can join one that has room.
proof fn lemma_join(
    states: Seq<PathState>,
    vs: Seq<Vertex>,
    path_depth: u32,
    i: int,
    c: u32,
    max_reuse: u32,
)
    requires
        clusters_ok(states, vs, path_depth, max_reuse),
        0 <= i < vs.len() <= NONE,
        states[i].reaches(path_depth),
        vs[i].cluster_id == NONE,
        is_center(vs, c as int),
        states[c as int].reaches(path_depth),
        vs[c as int].cluster_size < max_reuse,
    ensures
        clusters_ok(states, join_spec(vs, i, Some(c)), path_depth, max_reuse),
{
    let center = Vertex {
        cluster_size: (vs[c as int].cluster_size + 1) as u32,
        ..vs[c as int]
    };
    let mid = vs.update(c as int, center);
    let v = Vertex { cluster_id: c, ..vs[i] };
    let after = mid.update(i, v);
    assert(c != i);
    assert(after == join_spec(vs, i, Some(c)));
    assert(!is_center(vs, i));
    assert forall|k: int|
        0 <= k < after.len() && states[k].reaches(path_depth) && (#[trigger] after[k]).cluster_id
            != NONE implies is_center(after, after[k].cluster_id as int)
        && states[after[k].cluster_id as int].reaches(path_depth) by {
        if k != i {
            assert(after[k].cluster_id == vs[k].cluster_id);
            assert(is_center(vs, vs[k].cluster_id as int));
            assert(vs[k].cluster_id != i);
        }
    }
    assert forall|d: int|
        0 <= d < after.len() && states[d].reaches(path_depth) && #[trigger] is_center(
            after,
            d,
        ) implies {
        &&& members(states, after, path_depth, d, after.len()) == after[d].cluster_size + 1
        &&& after[d].cluster_size <= max_reuse
    } by {
        lemma_members_update(states, vs, path_depth, c as int, center, d, vs.len());
        lemma_members_update(states, mid, path_depth, i, v, d, mid.len());
        assert(d != i);
        assert(is_center(vs, d));
    }
    assert forall|d: int|
        0 <= d < after.len() && states[d].reaches(path_depth) && !(#[trigger] is_center(
            after,
            d,
        )) implies after[d].cluster_size == 0 by {
        assert(!is_center(vs, d));
    }
}

/// What is found is open.
proof fn lemma_found_is_open(
    vs: Seq<Vertex>,
    ids: Seq<u32>,
    near: Seq<bool>,
    max_reuse: u32,
    k: nat,
)
    ensures
        first_open(vs, ids, near, max_reuse, k) matches Some(c) ==> {
            &&& is_center(vs, c as int)
            &&& vs[c as int].cluster_size < max_reuse
            &&& ids.contains(c)
        },
    decreases ids.len() - k,
{
    if k < ids.len() && !is_open(vs, ids, near, max_reuse, k as int) {
        lemma_found_is_open(vs, ids, near, max_reuse, k + 1);
    }
}

proof fn lemma_loose_bounds(states: Seq<PathState>, vs: Seq<Vertex>, path_depth: u32, n: nat)
    ensures
        0 <= loose_count(states, vs, path_depth, n) <= n,
        loose_count(states, vs, path_depth, n) == 0 <==> forall|i: int|
            0 <= i < n ==> !#[trigger] is_loose(states, vs, path_depth, i),
    decreases n,
{
    if n > 0 {
        lemma_loose_bounds(states, vs, path_depth, (n - 1) as nat);
    }
}

/// Where no vertex comes loose, there are no more loose ones; where one gets a cluster besides,
/// there are fewer.
proof fn lemma_loose_falls(
    states: Seq<PathState>,
    a: Seq<Vertex>,
    b: Seq<Vertex>,
    path_depth: u32,
    n: nat,
    i: int,
)
    requires
        forall|k: int|
            0 <= k < n ==> (#[trigger] is_loose(states, b, path_depth, k) ==> is_loose(
                states,
                a,
                path_depth,
                k,
            )),
    ensures
        loose_count(states, b, path_depth, n) <= loose_count(states, a, path_depth, n),
        0 <= i < n && is_loose(states, a, path_depth, i) && !is_loose(states, b, path_depth, i)
            ==> loose_count(states, b, path_depth, n) < loose_count(states, a, path_depth, n),
    decreases n,
{
    if n > 0 {
        lemma_loose_falls(states, a, b, path_depth, (n - 1) as nat, i);
        assert(is_loose(states, b, path_depth, n - 1) ==> is_loose(states, a, path_depth, n - 1));
    }
}

/// Vertices that are alike in their clusters are loose alike.
proof fn lemma_loose_same(
    states: Seq<PathState>,
    a: Seq<Vertex>,
    b: Seq<Vertex>,
    path_depth: u32,
    n: nat,
)
    requires
        forall|k: int|
            0 <= k < n ==> (#[trigger] is_loose(states, b, path_depth, k) == is_loose(
                states,
                a,
                path_depth,
                k,
            )),
    ensures
        loose_count(states, b, path_depth, n) == loose_count(states, a, path_depth, n),
    decreases n,
{
    if n > 0 {
        lemma_loose_same(states, a, b, path_depth, (n - 1) as nat);
        assert(is_loose(states, b, path_depth, n - 1) == is_loose(states, a, path_depth, n - 1));
    }
}

proof fn lemma_clustered_chain(a: Seq<Vertex>, b: Seq<Vertex>, c: Seq<Vertex>)
    requires
        clustered_from(a, b),
        clustered_from(b, c),
    ensures
        clustered_from(a, c),
{
    assert forall|i: int| 0 <= i < a.len() implies {
        &&& #[trigger] c[i] == (Vertex {
            cluster_id: c[i].cluster_id,
            cluster_size: c[i].cluster_size,
            ..a[i]
        })
        &&& a[i].cluster_id != NONE ==> c[i].cluster_id == a[i].cluster_id
    } by {
        assert(b[i] == (Vertex {
            cluster_id: b[i].cluster_id,
            cluster_size: b[i].cluster_size,
            ..a[i]
        }));
    }
}

/// What the rounds of a depth work with: the points of the vertices, and which of the points
/// around each are near.
pub open spec fn round_ok(
    state: RenderState,
    path_depth: u32,
    grid: HashGrid<u32>,
    points: Seq<GridPoint>,
    near: Seq<Vec<bool>>,
) -> bool {
    let n = state.path_state_buf.len();
    &&& state.wf()
    &&& state.traced()
    &&& path_depth < state.reuses_per_depth.len()
    &&& grid_of_paths(grid, state.vertex_buf@.len())
    &&& points.len() == n
    &&& near.len() == n
    &&& forall|i: int| 0 <= i < n ==> (#[trigger] points[i]).p == state.vertex_buf@[i].p
    &&& forall|i: int|
        0 <= i < n ==> (#[trigger] near[i]).len() == grid.visits(points[i]).len()
}

/// The vertices, and the centre of each chain, after the first `k` threads had the chance to make
/// their vertices centres. `centers` has none for a chain that has no centre yet.
pub open spec fn init_upto(
    states: Seq<PathState>,
    vs: Seq<Vertex>,
    centers: Seq<u32>,
    path_depth: u32,
    grid: HashGrid<u32>,
    points: Seq<GridPoint>,
    k: nat,
) -> (Seq<Vertex>, Seq<u32>)
    decreases k,
{
    if k == 0 {
        (vs, centers)
    } else {
        let (before, taken) = init_upto(
            states,
            vs,
            centers,
            path_depth,
            grid,
            points,
            (k - 1) as nat,
        );
        let tid = (k - 1) as u32;
        let i = states[tid as int].vertex_idx as int;
        let cell = home(grid.state, points[tid as int]) as int;
        if is_loose(states, before, path_depth, tid as int) && taken[cell] == NONE {
            (
                before.update(i, Vertex { cluster_id: tid, ..before[i] }),
                taken.update(cell, tid),
            )
        } else {
            (before, taken)
        }
    }
}

/// The vertices after the first `k` threads looked for a cluster, each taking the first open one
/// among the points that are near it.
pub open spec fn join_upto(
    states: Seq<PathState>,
    vs: Seq<Vertex>,
    path_depth: u32,
    max_reuse: u32,
    grid: HashGrid<u32>,
    points: Seq<GridPoint>,
    near: Seq<Vec<bool>>,
    k: nat,
) -> Seq<Vertex>
    decreases k,
{
    if k == 0 {
        vs
    } else {
        let before = join_upto(
            states,
            vs,
            path_depth,
            max_reuse,
            grid,
            points,
            near,
            (k - 1) as nat,
        );
        if is_loose(states, before, path_depth, k - 1) {
            join_spec(
                before,
                states[k - 1].vertex_idx as int,
                first_open(before, ids_of(grid, points[k - 1]), near[k - 1]@, max_reuse, 0),
            )
        } else {
            before
        }
    }
}

/// The vertices after one round of clustering.
pub open spec fn round_spec(
    states: Seq<PathState>,
    vs: Seq<Vertex>,
    path_depth: u32,
    max_reuse: u32,
    grid: HashGrid<u32>,
    points: Seq<GridPoint>,
    near: Seq<Vec<bool>>,
) -> Seq<Vertex> {
    let none = Seq::new(grid.cell_head@.len(), |k: int| NONE);
    let started = init_upto(states, vs, none, path_depth, grid, points, states.len()).0;
    join_upto(states, started, path_depth, max_reuse, grid, points, near, states.len())
}

/// The vertices after `m` rounds.
pub open spec fn rounds_spec(
    states: Seq<PathState>,
    vs: Seq<Vertex>,
    path_depth: u32,
    max_reuse: u32,
    grid: HashGrid<u32>,
    points: Seq<GridPoint>,
    near: Seq<Vec<bool>>,
    m: nat,
) -> Seq<Vertex>
    decreases m,
{
    if m == 0 {
        vs
    } else {
        round_spec(
            states,
            rounds_spec(states, vs, path_depth, max_reuse, grid, points, near, (m - 1) as nat),
            path_depth,
            max_reuse,
            grid,
            points,
            near,
        )
    }
}

/// After `m` rounds, and not after fewer, no vertex of the depth is left over.
pub open spec fn ends_after(
    states: Seq<PathState>,
    vs: Seq<Vertex>,
    path_depth: u32,
    max_reuse: u32,
    grid: HashGrid<u32>,
    points: Seq<GridPoint>,
    near: Seq<Vec<bool>>,
    m: nat,
) -> bool {
    &&& m >= 1
    &&& loose_count(
        states,
        rounds_spec(states, vs, path_depth, max_reuse, grid, points, near, m),
        path_depth,
        states.len(),
    ) == 0
    &&& forall|j: nat|
        1 <= j < m ==> loose_count(
            states,
            #[trigger] rounds_spec(states, vs, path_depth, max_reuse, grid, points, near, j),
            path_depth,
            states.len(),
        ) > 0
}

/// A vertex that was in no cluster and ends up in that of another vertex is near it, among the
/// points that a search around it visits.
pub open spec fn joined_near(
    a: Seq<Vertex>,
    b: Seq<Vertex>,
    grid: HashGrid<u32>,
    points: Seq<GridPoint>,
    near: Seq<Vec<bool>>,
    tid: int,
) -> bool {
    a[tid].cluster_id == NONE && b[tid].cluster_id != NONE && b[tid].cluster_id != tid
        ==> exists|k: int|
        0 <= k < ids_of(grid, points[tid]).len() && near[tid]@[k] && #[trigger] ids_of(
            grid,
            points[tid],
        )[k] == b[tid].cluster_id
}

proof fn lemma_first_open_is_near(
    vs: Seq<Vertex>,
    ids: Seq<u32>,
    near: Seq<bool>,
    max_reuse: u32,
    k: nat,
)
    ensures
        first_open(vs, ids, near, max_reuse, k) matches Some(c) ==> exists|j: int|
            0 <= j < ids.len() && near[j] && #[trigger] ids[j] == c,
    decreases ids.len() - k,
{
    if k < ids.len() {
        if is_open(vs, ids, near, max_reuse, k as int) {
            assert(ids[k as int] == ids[k as int]);
        } else {
            lemma_first_open_is_near(vs, ids, near, max_reuse, k + 1);
        }
    }
}

proof fn lemma_init_keeps(
    states: Seq<PathState>,
    vs: Seq<Vertex>,
    centers: Seq<u32>,
    path_depth: u32,
    grid: HashGrid<u32>,
    points: Seq<GridPoint>,
    k: nat,
)
    requires
        k <= states.len() == vs.len(),
        states.len() <= NONE,
        forall|i: int| 0 <= i < states.len() ==> (#[trigger] states[i]).vertex_idx == i,
    ensures
        ({
            let b = init_upto(states, vs, centers, path_depth, grid, points, k).0;
            &&& b.len() == vs.len()
            &&& forall|i: int|
                0 <= i < vs.len() ==> (#[trigger] b[i]).cluster_id == vs[i].cluster_id || (
                vs[i].cluster_id == NONE && b[i].cluster_id == i)
        }),
    decreases k,
{
    if k > 0 {
        lemma_init_keeps(states, vs, centers, path_depth, grid, points, (k - 1) as nat);
        assert(states[k - 1].vertex_idx == k - 1);
    }
}

proof fn lemma_join_keeps(
    states: Seq<PathState>,
    vs: Seq<Vertex>,
    path_depth: u32,
    max_reuse: u32,
    grid: HashGrid<u32>,
    points: Seq<GridPoint>,
    near: Seq<Vec<bool>>,
    k: nat,
)
    requires
        k <= states.len() == vs.len(),
        states.len() <= NONE,
        forall|i: int| 0 <= i < states.len() ==> (#[trigger] states[i]).vertex_idx == i,
    ensures
        ({
            let b = join_upto(states, vs, path_depth, max_reuse, grid, points, near, k);
            &&& b.len() == vs.len()
            &&& forall|i: int|
                0 <= i < vs.len() ==> (#[trigger] b[i]).cluster_id == vs[i].cluster_id || (
                vs[i].cluster_id == NONE && joined_near(vs, b, grid, points, near, i))
        }),
    decreases k,
{
    if k > 0 {
        lemma_join_keeps(
            states,
            vs,
            path_depth,
            max_reuse,
            grid,
            points,
            near,
            (k - 1) as nat,
        );
        let before = join_upto(
            states,
            vs,
            path_depth,
            max_reuse,
            grid,
            points,
            near,
            (k - 1) as nat,
        );
        let after = join_upto(states, vs, path_depth, max_reuse, grid, points, near, k);
        let ids = ids_of(grid, points[k - 1]);
        assert(states[k - 1].vertex_idx == k - 1);
        lemma_first_open_is_near(before, ids, near[k - 1]@, max_reuse, 0);
        lemma_found_is_open(before, ids, near[k - 1]@, max_reuse, 0);
        assert forall|i: int| 0 <= i < vs.len() implies (#[trigger] after[i]).cluster_id
            == vs[i].cluster_id || (vs[i].cluster_id == NONE && joined_near(
            vs,
            after,
            grid,
            points,
            near,
            i,
        )) by {
            assert(before[i].cluster_id == vs[i].cluster_id || (vs[i].cluster_id == NONE
                && joined_near(vs, before, grid, points, near, i)));
            if i != k - 1 {
                assert(after[i].cluster_id == before[i].cluster_id);
            }
        }
    }
}

/// After any number of rounds, a vertex keeps the cluster that it had; one that had none and is
/// now in that of another vertex is near that vertex.
pub proof fn law_rounds_join_near(
    states: Seq<PathState>,
    vs: Seq<Vertex>,
    path_depth: u32,
    max_reuse: u32,
    grid: HashGrid<u32>,
    points: Seq<GridPoint>,
    near: Seq<Vec<bool>>,
    m: nat,
)
    requires
        states.len() == vs.len(),
        states.len() <= NONE,
        forall|i: int| 0 <= i < states.len() ==> (#[trigger] states[i]).vertex_idx == i,
    ensures
        ({
            let b = rounds_spec(states, vs, path_depth, max_reuse, grid, points, near, m);
            &&& b.len() == vs.len()
            &&& forall|i: int|
                0 <= i < vs.len() ==> (#[trigger] b[i]).cluster_id == vs[i].cluster_id
                    || vs[i].cluster_id == NONE
            &&& forall|i: int| 0 <= i < vs.len() ==> #[trigger] joined_near(vs, b, grid, points, near, i)
        }),
    decreases m,
{
    if m > 0 {
        law_rounds_join_near(
            states,
            vs,
            path_depth,
            max_reuse,
            grid,
            points,
            near,
            (m - 1) as nat,
        );
        let a = rounds_spec(states, vs, path_depth, max_reuse, grid, points, near, (m - 1) as nat);
        let none = Seq::new(grid.cell_head@.len(), |k: int| NONE);
        let started = init_upto(states, a, none, path_depth, grid, points, states.len()).0;
        let b = rounds_spec(states, vs, path_depth, max_reuse, grid, points, near, m);
        lemma_init_keeps(states, a, none, path_depth, grid, points, states.len());
        lemma_join_keeps(
            states,
            started,
            path_depth,
            max_reuse,
            grid,
            points,
            near,
            states.len(),
        );
        assert forall|i: int| 0 <= i < vs.len() implies ((#[trigger] b[i]).cluster_id
            == vs[i].cluster_id || vs[i].cluster_id == NONE) && joined_near(
            vs,
            b,
            grid,
            points,
            near,
            i,
        ) by {
            assert(joined_near(vs, a, grid, points, near, i));
            assert(a[i].cluster_id == vs[i].cluster_id || vs[i].cluster_id == NONE);
            assert(started[i].cluster_id == a[i].cluster_id || (a[i].cluster_id == NONE
                && started[i].cluster_id == i));
            assert(b[i].cluster_id == started[i].cluster_id || (started[i].cluster_id == NONE
                && joined_near(started, b, grid, points, near, i)));
        }
        assert forall|i: int| 0 <= i < vs.len() implies #[trigger] joined_near(
            vs,
            b,
            grid,
            points,
            near,
            i,
        ) by {
            assert(b[i] == b[i]);
        }
    }
}

impl PathFiltering {
    /// Gives every chain the chance of a new centre.
    fn init_clusters(
        &self,
        state: &mut RenderState,
        path_depth: u32,
        grid: &HashGrid<u32>,
        points: &Vec<GridPoint>,
        near: &Vec<Vec<bool>>,
    )
        requires
            round_ok(*old(state), path_depth, *grid, points@, near@),
        ensures
            round_ok(*final(state), path_depth, *grid, points@, near@),
            same_but_vertices(*old(state), *final(state)),
            clustered_from(old(state).vertex_buf@, final(state).vertex_buf@),
            keeps_clusters(*old(state), final(state).vertex_buf@, path_depth, *grid),
            final(state).vertex_buf@ == init_upto(
                old(state).path_state_buf@,
                old(state).vertex_buf@,
                Seq::new(grid.cell_head@.len(), |k: int| NONE),
                path_depth,
                *grid,
                points@,
                old(state).path_state_buf@.len(),
            ).0,
            ({
                let n = old(state).path_state_buf@.len();
                let states = old(state).path_state_buf@;
                let before = loose_count(states, old(state).vertex_buf@, path_depth, n);
                let after = loose_count(states, final(state).vertex_buf@, path_depth, n);
                &&& after <= before
                &&& before > 0 ==> after < before
            }),
    {
        let ghost states = state.path_state_buf@;
        let ghost vs0 = state.vertex_buf@;
        let ghost max_reuse = state.reuses_per_depth@[path_depth as int];
        let mut cluster_id_buf: Vec<u32> = Vec::new();
        let chains: usize = grid.cell_head.len();
        let mut c: usize = 0;
        while c < chains
            invariant
                c <= chains,
                cluster_id_buf@ == Seq::new(c as nat, |k: int| NONE),
            decreases chains - c,
        {
            cluster_id_buf.push(NONE);
            c += 1;
        }
        let n: u32 = state.path_state_buf.len() as u32;
        let mut tid: u32 = 0;
        while tid < n
            invariant
                tid <= n,
                n == state.path_state_buf.len(),
                states == state.path_state_buf@,
                vs0 == old(state).vertex_buf@,
                path_depth < state.reuses_per_depth.len(),
                max_reuse == state.reuses_per_depth@[path_depth as int],
                round_ok(*state, path_depth, *grid, points@, near@),
                same_but_vertices(*old(state), *state),
                clustered_from(vs0, state.vertex_buf@),
                keeps_clusters(*old(state), state.vertex_buf@, path_depth, *grid),
                (state.vertex_buf@, cluster_id_buf@) == init_upto(
                    states,
                    vs0,
                    Seq::new(grid.cell_head@.len(), |k: int| NONE),
                    path_depth,
                    *grid,
                    points@,
                    tid as nat,
                ),
                cluster_id_buf.len() == grid.cell_head.len(),
                forall|j: int| tid <= j < n ==> #[trigger] state.vertex_buf@[j] == vs0[j],
                loose_count(states, state.vertex_buf@, path_depth, n as nat) <= loose_count(
                    states,
                    vs0,
                    path_depth,
                    n as nat,
                ),
                loose_count(states, state.vertex_buf@, path_depth, n as nat) >= loose_count(
                    states,
                    vs0,
                    path_depth,
                    n as nat,
                ) ==> {
                    &&& forall|k: int|
                        0 <= k < cluster_id_buf.len() ==> #[trigger] cluster_id_buf@[k] == NONE
                    &&& forall|j: int| 0 <= j < tid ==> !#[trigger] is_loose(states, vs0, path_depth, j)
                },
            decreases n - tid,
        {
            let ghost before = state.vertex_buf@;
            assert(points@[tid as int].p == before[tid as int].p);
            assert(states[tid as int].vertex_idx == tid);
            self.kernel_init_cluster(
                state,
                tid,
                path_depth,
                grid,
                points[tid as usize],
                &mut cluster_id_buf,
            );
            proof {
                let after = state.vertex_buf@;
                let home_cell = home(grid.state, points@[tid as int]) as int;
                let h = crate::hash_grid::hash_spec(cell_spec(grid.state, points@[tid as int]));
                assert(0 <= home_cell < cluster_id_buf.len()) by {
                    let m = grid.state.hash_table_size as u64;
                    assert(h % m < m);
                }
                if is_loose(states, before, path_depth, tid as int) && after != before {
                    if clusters_ok(states, before, path_depth, max_reuse) {
                        lemma_new_center(states, before, path_depth, tid as int, max_reuse);
                    }
                }
                assert(clustered_from(before, after));
                lemma_clustered_chain(vs0, before, after);
                assert forall|i: int| 0 <= i < n implies (#[trigger] points@[i]).p
                    == after[i].p by {
                    assert(after[i] == (Vertex {
                        cluster_id: after[i].cluster_id,
                        cluster_size: after[i].cluster_size,
                        ..before[i]
                    }));
                }
                assert forall|k: int|
                    0 <= k < n && #[trigger] is_loose(states, after, path_depth, k) implies is_loose(
                    states,
                    before,
                    path_depth,
                    k,
                ) by {
                    assert(states[k].vertex_idx == k);
                    assert(after[k] == after[k]);
                }
                lemma_loose_falls(states, before, after, path_depth, n as nat, tid as int);
                assert(is_loose(states, vs0, path_depth, tid as int) == is_loose(
                    states,
                    before,
                    path_depth,
                    tid as int,
                ));
            }
            tid += 1;
        }
        proof {
            lemma_loose_bounds(states, vs0, path_depth, n as nat);
        }
    }

    /// Lets every vertex without a cluster look for one, and counts those that find none.
    fn join_clusters(
        &self,
        state: &mut RenderState,
        path_depth: u32,
        grid: &HashGrid<u32>,
        points: &Vec<GridPoint>,
        near: &Vec<Vec<bool>>,
    ) -> (remaining: u32)
        requires
            round_ok(*old(state), path_depth, *grid, points@, near@),
        ensures
            round_ok(*final(state), path_depth, *grid, points@, near@),
            same_but_vertices(*old(state), *final(state)),
            clustered_from(old(state).vertex_buf@, final(state).vertex_buf@),
            keeps_clusters(*old(state), final(state).vertex_buf@, path_depth, *grid),
            final(state).vertex_buf@ == join_upto(
                old(state).path_state_buf@,
                old(state).vertex_buf@,
                path_depth,
                old(state).reuses_per_depth@[path_depth as int],
                *grid,
                points@,
                near@,
                old(state).path_state_buf@.len(),
            ),
            ({
                let n = old(state).path_state_buf@.len();
                let states = old(state).path_state_buf@;
                let after = loose_count(states, final(state).vertex_buf@, path_depth, n);
                &&& after <= loose_count(states, old(state).vertex_buf@, path_depth, n)
                &&& remaining == after
            }),
    {
        let ghost states = state.path_state_buf@;
        let ghost vs0 = state.vertex_buf@;
        let ghost max_reuse = state.reuses_per_depth@[path_depth as int];
        let n: u32 = state.path_state_buf.len() as u32;
        let mut remaining: u32 = 0;
        let mut tid: u32 = 0;
        while tid < n
            invariant
                tid <= n,
                n == state.path_state_buf.len(),
                states == state.path_state_buf@,
                vs0 == old(state).vertex_buf@,
                path_depth < state.reuses_per_depth.len(),
                max_reuse == state.reuses_per_depth@[path_depth as int],
                round_ok(*state, path_depth, *grid, points@, near@),
                same_but_vertices(*old(state), *state),
                clustered_from(vs0, state.vertex_buf@),
                keeps_clusters(*old(state), state.vertex_buf@, path_depth, *grid),
                state.vertex_buf@ == join_upto(
                    states,
                    vs0,
                    path_depth,
                    max_reuse,
                    *grid,
                    points@,
                    near@,
                    tid as nat,
                ),
                remaining <= tid,
                remaining == loose_count(states, state.vertex_buf@, path_depth, tid as nat),
                loose_count(states, state.vertex_buf@, path_depth, n as nat) <= loose_count(
                    states,
                    vs0,
                    path_depth,
                    n as nat,
                ),
            decreases n - tid,
        {
            let ghost before = state.vertex_buf@;
            assert(points@[tid as int].p == before[tid as int].p);
            assert(states[tid as int].vertex_idx == tid);
            assert(near@[tid as int].len() == grid.visits(points@[tid as int]).len());
            let left_over = self.kernel_cluster(
                state,
                tid,
                path_depth,
                grid,
                points[tid as usize],
                &near[tid as usize],
            );
            proof {
                let after = state.vertex_buf@;
                let ids = ids_of(*grid, points@[tid as int]);
                let found = first_open(before, ids, near@[tid as int]@, max_reuse, 0);
                lemma_found_is_open(before, ids, near@[tid as int]@, max_reuse, 0);
                if is_loose(states, before, path_depth, tid as int) && found is Some && grid_of_depth(
                    *grid,
                    states,
                    path_depth,
                ) && clusters_ok(states, before, path_depth, max_reuse) {
                    let k = ids.index_of(found->0);
                    law_query_is_sound(grid, points@[tid as int], k);
                    lemma_join(states, before, path_depth, tid as int, found->0, max_reuse);
                }
                assert(clustered_from(before, after));
                lemma_clustered_chain(vs0, before, after);
                assert forall|i: int| 0 <= i < n implies (#[trigger] points@[i]).p
                    == after[i].p by {
                    assert(after[i] == (Vertex {
                        cluster_id: after[i].cluster_id,
                        cluster_size: after[i].cluster_size,
                        ..before[i]
                    }));
                }
                assert forall|k: int| 0 <= k < n && k != tid implies #[trigger] is_loose(
                    states,
                    after,
                    path_depth,
                    k,
                ) == is_loose(states, before, path_depth, k) by {
                    assert(states[k].vertex_idx == k);
                    assert(after[k].cluster_id == before[k].cluster_id);
                }
                lemma_loose_same(states, before, after, path_depth, tid as nat);
                lemma_loose_falls(states, before, after, path_depth, n as nat, tid as int);
                assert(left_over == is_loose(states, after, path_depth, tid as int));
            }
            if left_over {
                remaining += 1;
            }
            tid += 1;
        }
        remaining
    }

    /// One round of clustering, which gives the number of vertices that are left over. As long as
    /// there are any, a round leaves fewer of them.
    pub fn cluster_round(
        &self,
        state: &mut RenderState,
        path_depth: u32,
        grid: &HashGrid<u32>,
        points: &Vec<GridPoint>,
        near: &Vec<Vec<bool>>,
    ) -> (remaining: u32)
        requires
            round_ok(*old(state), path_depth, *grid, points@, near@),
        ensures
            round_ok(*final(state), path_depth, *grid, points@, near@),
            same_but_vertices(*old(state), *final(state)),
            clustered_from(old(state).vertex_buf@, final(state).vertex_buf@),
            keeps_clusters(*old(state), final(state).vertex_buf@, path_depth, *grid),
            final(state).vertex_buf@ == round_spec(
                old(state).path_state_buf@,
                old(state).vertex_buf@,
                path_depth,
                old(state).reuses_per_depth@[path_depth as int],
                *grid,
                points@,
                near@,
            ),
            forall|tid: int|
                0 <= tid < points.len() ==> #[trigger] joined_near(
                    old(state).vertex_buf@,
                    final(state).vertex_buf@,
                    *grid,
                    points@,
                    near@,
                    tid,
                ),
            ({
                let n = old(state).path_state_buf@.len();
                let states = old(state).path_state_buf@;
                let before = loose_count(states, old(state).vertex_buf@, path_depth, n);
                let after = loose_count(states, final(state).vertex_buf@, path_depth, n);
                &&& remaining == after
                &&& before > 0 ==> after < before
                &&& before == 0 ==> after == 0
            }),
    {
        let ghost vs0 = state.vertex_buf@;
        self.init_clusters(state, path_depth, grid, points, near);
        let ghost vs1 = state.vertex_buf@;
        let remaining = self.join_clusters(state, path_depth, grid, points, near);
        proof {
            lemma_clustered_chain(vs0, vs1, state.vertex_buf@);
            let states = state.path_state_buf@;
            let max_reuse = state.reuses_per_depth@[path_depth as int];
            reveal_with_fuel(rounds_spec, 2);
            law_rounds_join_near(states, vs0, path_depth, max_reuse, *grid, points@, near@, 1);
            lemma_loose_bounds(
                state.path_state_buf@,
                state.vertex_buf@,
                path_depth,
                state.path_state_buf@.len(),
            );
        }
        remaining
    }

    /// Clusters the vertices of a depth: rounds go on until none is left over, and they come to
    /// an end.
    pub fn cluster_depth(
        &self,
        state: &mut RenderState,
        path_depth: u32,
        grid: &HashGrid<u32>,
        points: &Vec<GridPoint>,
        near: &Vec<Vec<bool>>,
    )
        requires
            round_ok(*old(state), path_depth, *grid, points@, near@),
        ensures
            round_ok(*final(state), path_depth, *grid, points@, near@),
            same_but_vertices(*old(state), *final(state)),
            clustered_from(old(state).vertex_buf@, final(state).vertex_buf@),
            keeps_clusters(*old(state), final(state).vertex_buf@, path_depth, *grid),
            exists|m: nat|
                #[trigger] rounds_spec(
                    old(state).path_state_buf@,
                    old(state).vertex_buf@,
                    path_depth,
                    old(state).reuses_per_depth@[path_depth as int],
                    *grid,
                    points@,
                    near@,
                    m,
                ) == final(state).vertex_buf@ && ends_after(
                    old(state).path_state_buf@,
                    old(state).vertex_buf@,
                    path_depth,
                    old(state).reuses_per_depth@[path_depth as int],
                    *grid,
                    points@,
                    near@,
                    m,
                ),
            forall|tid: int|
                0 <= tid < points.len() ==> #[trigger] joined_near(
                    old(state).vertex_buf@,
                    final(state).vertex_buf@,
                    *grid,
                    points@,
                    near@,
                    tid,
                ),
            forall|i: int|
                0 <= i < final(state).path_state_buf.len() ==> !#[trigger] is_loose(
                    final(state).path_state_buf@,
                    final(state).vertex_buf@,
                    path_depth,
                    i,
                ),
    {
        let ghost states = state.path_state_buf@;
        let ghost n = states.len();
        let ghost vs0 = state.vertex_buf@;
        let ghost max_reuse = state.reuses_per_depth@[path_depth as int];
        let ghost mut m: nat = 0;
        loop
            invariant_except_break
                forall|j: nat|
                    1 <= j <= m ==> loose_count(
                        states,
                        #[trigger] rounds_spec(
                            states,
                            vs0,
                            path_depth,
                            max_reuse,
                            *grid,
                            points@,
                            near@,
                            j,
                        ),
                        path_depth,
                        n,
                    ) > 0,
            invariant
                vs0 == old(state).vertex_buf@,
                max_reuse == state.reuses_per_depth@[path_depth as int],
                state.vertex_buf@ == rounds_spec(
                    states,
                    vs0,
                    path_depth,
                    max_reuse,
                    *grid,
                    points@,
                    near@,
                    m,
                ),
                states == state.path_state_buf@,
                n == states.len(),
                round_ok(*state, path_depth, *grid, points@, near@),
                same_but_vertices(*old(state), *state),
                clustered_from(old(state).vertex_buf@, state.vertex_buf@),
                keeps_clusters(*old(state), state.vertex_buf@, path_depth, *grid),
            ensures
                loose_count(states, state.vertex_buf@, path_depth, n) == 0,
                ends_after(states, vs0, path_depth, max_reuse, *grid, points@, near@, m),
            decreases loose_count(states, state.vertex_buf@, path_depth, n),
        {
            let ghost before = state.vertex_buf@;
            let remaining = self.cluster_round(state, path_depth, grid, points, near);
            proof {
                lemma_clustered_chain(old(state).vertex_buf@, before, state.vertex_buf@);
                lemma_loose_bounds(states, before, path_depth, n);
                lemma_loose_bounds(states, state.vertex_buf@, path_depth, n);
                m = m + 1;
            }
            if remaining == 0 {
                break;
            }
        }
        proof {
            lemma_loose_bounds(states, state.vertex_buf@, path_depth, n);
            law_rounds_join_near(states, vs0, path_depth, max_reuse, *grid, points@, near@, m);
        }
    }
}

/// The vertices of a depth as they are traced are in no cluster, and that is in order, whatever
/// other depths left behind.
pub proof fn law_fresh_vertices_are_clustered(
    states: Seq<PathState>,
    vs: Seq<Vertex>,
    path_depth: u32,
    max_reuse: u32,
)
    requires
        states.len() == vs.len() <= NONE,
        forall|i: int|
            0 <= i < vs.len() && states[i].reaches(path_depth) ==> (#[trigger] vs[i]).cluster_id
                == NONE && vs[i].cluster_size == 0,
    ensures
        clusters_ok(states, vs, path_depth, max_reuse),
{
    assert forall|c: int|
        0 <= c < vs.len() && states[c].reaches(path_depth) implies !#[trigger] is_center(vs, c)
        && vs[c].cluster_size == 0 by {
        assert(vs[c].cluster_id == NONE);
    }
}

/// No cluster of a depth has more vertices than its limit and its centre.
pub proof fn law_clusters_are_limited(
    states: Seq<PathState>,
    vs: Seq<Vertex>,
    path_depth: u32,
    max_reuse: u32,
    c: int,
)
    requires
        clusters_ok(states, vs, path_depth, max_reuse),
        vs.len() <= NONE,
        0 <= c < vs.len(),
        states[c].reaches(path_depth),
    ensures
        members(states, vs, path_depth, c, vs.len()) <= max_reuse + 1,
        members(states, vs, path_depth, c, vs.len()) > 0 <==> is_center(vs, c),
{
    if !is_center(vs, c) {
        assert forall|k: int|
            0 <= k < vs.len() && states[k].reaches(path_depth) implies (#[trigger] vs[k]).cluster_id
            != c by {
            if vs[k].cluster_id == c {
                assert(is_center(vs, vs[k].cluster_id as int));
            }
        }
        lemma_no_members(states, vs, path_depth, c, vs.len());
    }
}

} // verus!
