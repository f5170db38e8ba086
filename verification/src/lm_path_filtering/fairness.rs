//! Thinning is fair: every candidate has the same chance of being kept. And clustering leaves no
//! vertex over that could have joined.
use super::cluster::{
    first_open, ids_of, init_upto, is_center, is_loose, is_open, join_spec, join_upto, round_spec,
};
use super::filter::{
    all_candidates, candidates, center_spec, kept_spec, law_reservoir_keeps_candidates, places,
    Query,
};
use super::trace::head_spec;
use super::{Config, PathState, RenderState, Vertex};
use crate::hash_grid::{home, GridPoint, HashGrid};
use crate::lighting::law_pixel_numbering;
use crate::value::{Float3, Ray, StylizationFlags, NONE};
use vstd::prelude::*;

verus! {

/// The number of ways in which the draws for candidates `m + 1` to `n` can come out, where the draw
/// for the `t`-th candidate is one of `t` equally likely ones.
pub open spec fn outcomes(m: nat, n: nat) -> nat
    decreases n - m,
{
    if m >= n {
        1
    } else {
        (m + 1) * outcomes(m + 1, n)
    }
}

/// The number of those ways in which candidate number `i` is kept, where the first `m` candidates
/// were thinned by `draws`.
pub open spec fn keeping(
    draws: Seq<u32>,
    max_reuse: u32,
    m: nat,
    n: nat,
    i: int,
) -> nat
    decreases n - m, 1nat, 0nat,
{
    if m >= n {
        if places(draws, max_reuse, m).contains(i) {
            1
        } else {
            0
        }
    } else {
        keeping_below(draws, max_reuse, m, n, i, m + 1)
    }
}

/// Of those ways, the ones in which the next draw is below `j`.
pub open spec fn keeping_below(
    draws: Seq<u32>,
    max_reuse: u32,
    m: nat,
    n: nat,
    i: int,
    j: nat,
) -> nat
    decreases n - m, 0nat, j,
    when m < n
{
    if j == 0 {
        0
    } else {
        keeping_below(draws, max_reuse, m, n, i, (j - 1) as nat) + keeping(
            draws.push((j - 1) as u32),
            max_reuse,
            m + 1,
            n,
            i,
        )
    }
}

proof fn lemma_places_prefix(draws: Seq<u32>, x: u32, max_reuse: u32, m: nat)
    requires
        m <= max_reuse + draws.len(),
    ensures
        places(draws.push(x), max_reuse, m) == places(draws, max_reuse, m),
    decreases m,
{
    if m > 0 {
        lemma_places_prefix(draws, x, max_reuse, (m - 1) as nat);
        if m - 1 >= max_reuse {
            assert(draws.push(x)[m - 1 - max_reuse] == draws[m - 1 - max_reuse]);
        }
    }
}

/// Whom the next draw keeps.
proof fn lemma_next_draw(draws: Seq<u32>, max_reuse: u32, m: nat, i: int, t: u32)
    requires
        max_reuse <= m < u32::MAX,
        draws.len() == m - max_reuse,
        t <= m,
    ensures
        ({
            let before = places(draws, max_reuse, m);
            let after = places(draws.push(t), max_reuse, m + 1);
            &&& before.len() == max_reuse
            &&& before.no_duplicates()
            &&& forall|p: int| 0 <= p < before.len() ==> 0 <= #[trigger] before[p] < m
            &&& i == m ==> (after.contains(i) <==> t < max_reuse)
            &&& 0 <= i < m ==> (after.contains(i) <==> before.contains(i) && !(t < max_reuse
                && before[t as int] == i))
        }),
{
    let before = places(draws, max_reuse, m);
    let after = places(draws.push(t), max_reuse, m + 1);
    law_reservoir_keeps_candidates(Seq::new(m, |k: int| 0u32), draws, max_reuse, m);
    lemma_places_prefix(draws, t, max_reuse, m);
    assert(draws.push(t)[m - max_reuse] == t);
    assert((t as int) % ((m + 1) as int) == t) by (nonlinear_arith)
        requires
            0 <= t <= m,
    ;
    if t < max_reuse {
        assert(after == before.update(t as int, m as int));
        assert(after[t as int] == m);
        if before.contains(i) && before[t as int] != i {
            let p = before.index_of(i);
            assert(after[p] == i);
        }
        if after.contains(i) && i != m {
            let p = after.index_of(i);
            assert(before[p] == i);
        }
        if 0 <= i < m && before[t as int] == i && after.contains(i) {
            let p = after.index_of(i);
            assert(p != t);
            assert(before[p] == i);
        }
    } else {
        assert(after == before);
        if after.contains(i) {
            let p = before.index_of(i);
            assert(before[p] < m);
        }
    }
}

/// Whether a candidate is still to come, kept so far, or gone already, as a weight.
pub open spec fn standing(draws: Seq<u32>, max_reuse: u32, m: nat, i: int) -> nat {
    if i >= m {
        max_reuse as nat
    } else if places(draws, max_reuse, m).contains(i) {
        m
    } else {
        0
    }
}

/// The weights that the first `j` draws lead to, added up.
pub open spec fn standings(draws: Seq<u32>, max_reuse: u32, m: nat, i: int, j: nat) -> nat
    decreases j,
{
    if j == 0 {
        0
    } else {
        standings(draws, max_reuse, m, i, (j - 1) as nat) + standing(
            draws.push((j - 1) as u32),
            max_reuse,
            m + 1,
            i,
        )
    }
}

proof fn lemma_standings(draws: Seq<u32>, max_reuse: u32, m: nat, i: int, j: nat)
    requires
        max_reuse <= m < u32::MAX,
        draws.len() == m - max_reuse,
        0 <= i,
        j <= m + 1,
    ensures
        ({
            let before = places(draws, max_reuse, m);
            let all = standings(draws, max_reuse, m, i, j);
            &&& i > m ==> all == max_reuse * j
            &&& i == m ==> all == (m + 1) * (if j < max_reuse {
                j as int
            } else {
                max_reuse as int
            })
            &&& i < m && !before.contains(i) ==> all == 0
            &&& i < m && before.contains(i) ==> all == (m + 1) * (j - if before.index_of(i) < j {
                1int
            } else {
                0
            })
        }),
    decreases j,
{
    let before = places(draws, max_reuse, m);
    if j > 0 {
        let t = (j - 1) as u32;
        lemma_standings(draws, max_reuse, m, i, (j - 1) as nat);
        lemma_next_draw(draws, max_reuse, m, i, t);
        let k = (j - 1) as int;
        let q = (m + 1) as int;
        let r = max_reuse as int;
        assert(r * k + r == r * (k + 1)) by (nonlinear_arith);
        assert(q * k + q == q * (k + 1)) by (nonlinear_arith);
        assert(q * (k - 1) + q == q * k) by (nonlinear_arith);
        if i < m && before.contains(i) {
            let p = before.index_of(i);
            assert(before[p] == i);
            if t < max_reuse && before[t as int] == i {
                assert(p == t);
            }
        }
    } else {
        let q = (m + 1) as int;
        assert(q * 0 == 0) by (nonlinear_arith);
        assert(max_reuse * 0 == 0) by (nonlinear_arith);
        law_reservoir_keeps_candidates(Seq::new(m, |k: int| 0u32), draws, max_reuse, m);
    }
}

proof fn lemma_keeping(draws: Seq<u32>, max_reuse: u32, m: nat, n: nat, i: int)
    requires
        max_reuse <= m <= n <= u32::MAX,
        draws.len() == m - max_reuse,
        0 <= i < n,
    ensures
        keeping(draws, max_reuse, m, n, i) * n == standing(draws, max_reuse, m, i) * outcomes(m, n),
    decreases n - m, 1nat, 0nat,
{
    if m < n {
        lemma_keeping_below(draws, max_reuse, m, n, i, m + 1);
        lemma_standings(draws, max_reuse, m, i, m + 1);
        lemma_next_draw(draws, max_reuse, m, i, 0);
        let before = places(draws, max_reuse, m);
        let o = outcomes(m + 1, n) as int;
        let s = standing(draws, max_reuse, m, i) as int;
        let q = (m + 1) as int;
        if i < m && before.contains(i) {
            assert(before[before.index_of(i)] == i);
            assert(standings(draws, max_reuse, m, i, m + 1) == q * m);
        }
        assert(standings(draws, max_reuse, m, i, m + 1) == q * s) by (nonlinear_arith)
            requires
                q == m + 1,
                i > m ==> standings(draws, max_reuse, m, i, m + 1) == max_reuse * (m + 1) && s
                    == max_reuse,
                i == m ==> standings(draws, max_reuse, m, i, m + 1) == (m + 1) * max_reuse && s
                    == max_reuse,
                i < m ==> standings(draws, max_reuse, m, i, m + 1) == q * s,
        ;
        assert((q * s) * o == s * (q * o)) by (nonlinear_arith);
        assert(outcomes(m, n) == q * o);
        assert(keeping(draws, max_reuse, m, n, i) == keeping_below(
            draws,
            max_reuse,
            m,
            n,
            i,
            m + 1,
        ));
    } else {
        let w = n as int;
        assert(1 * w == w * 1 && 0 * w == 0 * 1) by (nonlinear_arith);
    }
}

proof fn lemma_keeping_below(draws: Seq<u32>, max_reuse: u32, m: nat, n: nat, i: int, j: nat)
    requires
        max_reuse <= m < n <= u32::MAX,
        draws.len() == m - max_reuse,
        0 <= i < n,
        j <= m + 1,
    ensures
        keeping_below(draws, max_reuse, m, n, i, j) * n == standings(draws, max_reuse, m, i, j)
            * outcomes(m + 1, n),
    decreases n - m, 0nat, j,
{
    let o = outcomes(m + 1, n) as int;
    if j > 0 {
        let k = (j - 1) as nat;
        lemma_keeping_below(draws, max_reuse, m, n, i, k);
        lemma_keeping(draws.push(k as u32), max_reuse, m + 1, n, i);
        let (a, b) = (
            keeping_below(draws, max_reuse, m, n, i, k) as int,
            keeping(draws.push(k as u32), max_reuse, m + 1, n, i) as int,
        );
        let (c, d) = (
            standings(draws, max_reuse, m, i, k) as int,
            standing(draws.push(k as u32), max_reuse, m + 1, i) as int,
        );
        let w = n as int;
        assert((a + b) * w == (c + d) * o) by (nonlinear_arith)
            requires
                a * w == c * o,
                b * w == d * o,
        ;
    } else {
        let w = n as int;
        assert(0 * w == 0 && 0 * o == 0) by (nonlinear_arith);
    }
}

/// Of all ways in which the draws can come out, every candidate is kept in the same share: in
/// `max_reuse` out of `n`.
pub proof fn law_every_candidate_has_the_same_chance(max_reuse: u32, n: nat, i: int)
    requires
        max_reuse <= n <= u32::MAX,
        0 <= i < n,
    ensures
        keeping(Seq::empty(), max_reuse, max_reuse as nat, n, i) * n == max_reuse * outcomes(
            max_reuse as nat,
            n,
        ),
{
    let none = Seq::<u32>::empty();
    let m = max_reuse as nat;
    lemma_keeping(none, max_reuse, m, n, i);
    lemma_first_places(none, max_reuse, m);
    if i < m {
        assert(places(none, max_reuse, m)[i] == i);
    }
}

/// Before the places are taken, every candidate takes one.
proof fn lemma_first_places(draws: Seq<u32>, max_reuse: u32, m: nat)
    requires
        m <= max_reuse,
    ensures
        places(draws, max_reuse, m) == Seq::new(m, |k: int| k),
    decreases m,
{
    if m > 0 {
        lemma_first_places(draws, max_reuse, (m - 1) as nat);
    }
    assert(places(draws, max_reuse, m) =~= Seq::new(m, |k: int| k));
}

proof fn lemma_none_open(
    vs: Seq<Vertex>,
    ids: Seq<u32>,
    near: Seq<bool>,
    max_reuse: u32,
    k: nat,
    j: int,
)
    requires
        k <= j < ids.len(),
        first_open(vs, ids, near, max_reuse, k) is None,
    ensures
        !is_open(vs, ids, near, max_reuse, j),
    decreases ids.len() - k,
{
    if k < j {
        lemma_none_open(vs, ids, near, max_reuse, k + 1, j);
    }
}

proof fn lemma_some_open(
    vs: Seq<Vertex>,
    ids: Seq<u32>,
    near: Seq<bool>,
    max_reuse: u32,
    k: nat,
)
    ensures
        first_open(vs, ids, near, max_reuse, k) matches Some(c) ==> is_center(vs, c as int)
            && vs[c as int].cluster_size < max_reuse,
    decreases ids.len() - k,
{
    if k < ids.len() && !is_open(vs, ids, near, max_reuse, k as int) {
        lemma_some_open(vs, ids, near, max_reuse, k + 1);
    }
}

/// Joining takes room away and makes no centres: what is open after it was open before.
proof fn lemma_join_opens_nothing(
    vs: Seq<Vertex>,
    i: int,
    found: Option<u32>,
    max_reuse: u32,
    ids: Seq<u32>,
    near: Seq<bool>,
    j: int,
)
    requires
        vs.len() <= NONE,
        0 <= i < vs.len(),
        vs[i].cluster_id == NONE,
        found matches Some(c) ==> is_center(vs, c as int) && vs[c as int].cluster_size < max_reuse,
        is_open(join_spec(vs, i, found), ids, near, max_reuse, j),
    ensures
        is_open(vs, ids, near, max_reuse, j),
{
}

proof fn lemma_left_over(
    states: Seq<PathState>,
    vs: Seq<Vertex>,
    path_depth: u32,
    max_reuse: u32,
    grid: HashGrid<u32>,
    points: Seq<GridPoint>,
    near: Seq<Vec<bool>>,
    k: nat,
    tid: int,
    j: int,
)
    requires
        vs.len() <= NONE,
        k <= states.len(),
        forall|t: int| 0 <= t < states.len() ==> (#[trigger] states[t]).vertex_idx < vs.len(),
        0 <= tid < k,
        0 <= j < ids_of(grid, points[tid]).len(),
    ensures
        ({
            let after = join_upto(states, vs, path_depth, max_reuse, grid, points, near, k);
            &&& after.len() == vs.len()
            &&& is_loose(states, after, path_depth, tid) ==> !is_open(
                after,
                ids_of(grid, points[tid]),
                near[tid]@,
                max_reuse,
                j,
            )
        }),
    decreases k,
{
    let m = (k - 1) as nat;
    let before = join_upto(states, vs, path_depth, max_reuse, grid, points, near, m);
    let after = join_upto(states, vs, path_depth, max_reuse, grid, points, near, k);
    lemma_join_len(states, vs, path_depth, max_reuse, grid, points, near, m);
    let i = states[k - 1].vertex_idx as int;
    let ids = ids_of(grid, points[k - 1]);
    let found = first_open(before, ids, near[k - 1]@, max_reuse, 0);
    lemma_some_open(before, ids, near[k - 1]@, max_reuse, 0);
    if tid < m {
        lemma_left_over(states, vs, path_depth, max_reuse, grid, points, near, m, tid, j);
        if is_loose(states, before, path_depth, k - 1) {
            let others = ids_of(grid, points[tid]);
            if is_open(after, others, near[tid]@, max_reuse, j) {
                lemma_join_opens_nothing(before, i, found, max_reuse, others, near[tid]@, j);
            }
            if is_loose(states, after, path_depth, tid) {
                assert(is_loose(states, before, path_depth, tid));
            }
        }
    } else {
        if is_loose(states, before, path_depth, k - 1) && found is None {
            lemma_none_open(before, ids, near[k - 1]@, max_reuse, 0, j);
        }
    }
}

proof fn lemma_join_len(
    states: Seq<PathState>,
    vs: Seq<Vertex>,
    path_depth: u32,
    max_reuse: u32,
    grid: HashGrid<u32>,
    points: Seq<GridPoint>,
    near: Seq<Vec<bool>>,
    k: nat,
)
    requires
        k <= states.len(),
        forall|t: int| 0 <= t < states.len() ==> (#[trigger] states[t]).vertex_idx < vs.len(),
    ensures
        join_upto(states, vs, path_depth, max_reuse, grid, points, near, k).len() == vs.len(),
    decreases k,
{
    if k > 0 {
        let m = (k - 1) as nat;
        lemma_join_len(states, vs, path_depth, max_reuse, grid, points, near, m);
        let before = join_upto(states, vs, path_depth, max_reuse, grid, points, near, m);
        assert(states[k - 1].vertex_idx < vs.len());
        lemma_some_open(before, ids_of(grid, points[k - 1]), near[k - 1]@, max_reuse, 0);
    }
}

proof fn lemma_init_len(
    states: Seq<PathState>,
    vs: Seq<Vertex>,
    centers: Seq<u32>,
    path_depth: u32,
    grid: HashGrid<u32>,
    points: Seq<GridPoint>,
    k: nat,
)
    requires
        k <= states.len(),
        forall|t: int| 0 <= t < states.len() ==> (#[trigger] states[t]).vertex_idx < vs.len(),
    ensures
        init_upto(states, vs, centers, path_depth, grid, points, k).0.len() == vs.len(),
    decreases k,
{
    if k > 0 {
        lemma_init_len(states, vs, centers, path_depth, grid, points, (k - 1) as nat);
        assert(states[k - 1].vertex_idx < vs.len());
    }
}

/// A vertex that a round leaves over could join no cluster: none of the centres near it has room.
pub proof fn law_left_over_vertices_have_nowhere_to_go(
    states: Seq<PathState>,
    vs: Seq<Vertex>,
    path_depth: u32,
    max_reuse: u32,
    grid: HashGrid<u32>,
    points: Seq<GridPoint>,
    near: Seq<Vec<bool>>,
    tid: int,
    j: int,
)
    requires
        vs.len() <= NONE,
        forall|t: int| 0 <= t < states.len() ==> (#[trigger] states[t]).vertex_idx < vs.len(),
        0 <= tid < states.len(),
        0 <= j < ids_of(grid, points[tid]).len(),
    ensures
        ({
            let after = round_spec(states, vs, path_depth, max_reuse, grid, points, near);
            let c = ids_of(grid, points[tid])[j];
            states[tid].reaches(path_depth) && after[states[tid].vertex_idx as int].cluster_id
                == NONE && near[tid]@[j] && c < after.len() && after[c as int].cluster_id == c
                ==> after[c as int].cluster_size >= max_reuse
        }),
{
    let none = Seq::new(grid.cell_head@.len(), |k: int| NONE);
    let started = init_upto(states, vs, none, path_depth, grid, points, states.len()).0;
    lemma_init_len(states, vs, none, path_depth, grid, points, states.len());
    lemma_left_over(
        states,
        started,
        path_depth,
        max_reuse,
        grid,
        points,
        near,
        states.len(),
        tid,
        j,
    );
}

/// Where a round stands after `k` threads had the chance to start a cluster: every chain that has a
/// vertex without a cluster among them has started one, with one of those vertices.
spec fn chains_started(
    states: Seq<PathState>,
    vs: Seq<Vertex>,
    path_depth: u32,
    grid: HashGrid<u32>,
    points: Seq<GridPoint>,
    now: (Seq<Vertex>, Seq<u32>),
    k: nat,
) -> bool {
    &&& now.0.len() == vs.len()
    &&& now.1.len() == grid.cell_head@.len()
    &&& forall|t: int|
        0 <= t < k && #[trigger] is_loose(states, vs, path_depth, t) ==> now.1[home(
            grid.state,
            points[t],
        ) as int] != NONE
    &&& forall|c: int|
        0 <= c < now.1.len() && #[trigger] now.1[c] != NONE ==> {
            let t = now.1[c] as int;
            &&& t < k
            &&& is_loose(states, vs, path_depth, t)
            &&& home(grid.state, points[t]) == c
            &&& now.0[t].cluster_id == t
        }
    &&& forall|t: int|
        0 <= t < vs.len() ==> #[trigger] now.0[t] == vs[t] || (t < k && is_loose(
            states,
            vs,
            path_depth,
            t,
        ) && now.1[home(grid.state, points[t]) as int] == t)
}

proof fn lemma_chains_started(
    states: Seq<PathState>,
    vs: Seq<Vertex>,
    path_depth: u32,
    grid: HashGrid<u32>,
    points: Seq<GridPoint>,
    k: nat,
)
    requires
        states.len() == vs.len() <= NONE,
        k <= states.len(),
        forall|t: int| 0 <= t < states.len() ==> (#[trigger] states[t]).vertex_idx == t,
        forall|t: int|
            0 <= t < states.len() ==> home(grid.state, #[trigger] points[t])
                < grid.cell_head@.len(),
    ensures
        chains_started(
            states,
            vs,
            path_depth,
            grid,
            points,
            init_upto(
                states,
                vs,
                Seq::new(grid.cell_head@.len(), |c: int| NONE),
                path_depth,
                grid,
                points,
                k,
            ),
            k,
        ),
    decreases k,
{
    let none = Seq::new(grid.cell_head@.len(), |c: int| NONE);
    if k > 0 {
        let m = (k - 1) as nat;
        lemma_chains_started(states, vs, path_depth, grid, points, m);
        let before = init_upto(states, vs, none, path_depth, grid, points, m);
        let now = init_upto(states, vs, none, path_depth, grid, points, k);
        assert(states[k - 1].vertex_idx == k - 1);
        assert(home(grid.state, points[k - 1]) < grid.cell_head@.len());
        assert(before.0[k - 1] == vs[k - 1]);
        assert(is_loose(states, before.0, path_depth, k - 1) == is_loose(
            states,
            vs,
            path_depth,
            k - 1,
        ));
        assert forall|t: int| 0 <= t < k && #[trigger] is_loose(states, vs, path_depth, t) implies
            now.1[home(grid.state, points[t]) as int] != NONE by {
            assert(home(grid.state, points[t]) < grid.cell_head@.len());
        }
        assert forall|c: int| 0 <= c < now.1.len() && #[trigger] now.1[c] != NONE implies {
            let t = now.1[c] as int;
            &&& t < k
            &&& is_loose(states, vs, path_depth, t)
            &&& home(grid.state, points[t]) == c
            &&& now.0[t].cluster_id == t
        } by {
            if now.1[c] != k - 1 {
                assert(before.1[c] == now.1[c]);
            }
        }
        assert forall|t: int| 0 <= t < vs.len() implies #[trigger] now.0[t] == vs[t] || (t < k
            && is_loose(states, vs, path_depth, t) && now.1[home(
            grid.state,
            points[t],
        ) as int] == t) by {
            assert(before.0[t] == vs[t] || (t < m && is_loose(states, vs, path_depth, t)
                && before.1[home(grid.state, points[t]) as int] == t));
            assert(home(grid.state, points[t]) < grid.cell_head@.len());
        }
    }
}

/// A round starts one cluster in every chain that has a vertex without a cluster, around such a
/// vertex, and no second one.
pub proof fn law_every_chain_starts_one_cluster(
    states: Seq<PathState>,
    vs: Seq<Vertex>,
    path_depth: u32,
    grid: HashGrid<u32>,
    points: Seq<GridPoint>,
)
    requires
        states.len() == vs.len() <= NONE,
        forall|t: int| 0 <= t < states.len() ==> (#[trigger] states[t]).vertex_idx == t,
        forall|t: int|
            0 <= t < states.len() ==> home(grid.state, #[trigger] points[t])
                < grid.cell_head@.len(),
    ensures
        ({
            let none = Seq::new(grid.cell_head@.len(), |c: int| NONE);
            let after = init_upto(states, vs, none, path_depth, grid, points, states.len()).0;
            let starts = |t: int|
                0 <= t < vs.len() && states[t].reaches(path_depth) && vs[t].cluster_id == NONE
                    && after[t].cluster_id == t;
            &&& forall|t: int|
                0 <= t < vs.len() && states[t].reaches(path_depth) && (
                #[trigger] vs[t]).cluster_id == NONE ==> exists|c: int|
                    #[trigger] starts(c) && home(grid.state, points[c]) == home(
                        grid.state,
                        points[t],
                    )
            &&& forall|a: int, b: int|
                #[trigger] starts(a) && #[trigger] starts(b) && home(grid.state, points[a]) == home(
                    grid.state,
                    points[b],
                ) ==> a == b
            &&& forall|t: int|
                0 <= t < vs.len() && !starts(t) ==> #[trigger] after[t] == vs[t]
        }),
{
    let none = Seq::new(grid.cell_head@.len(), |c: int| NONE);
    let now = init_upto(states, vs, none, path_depth, grid, points, states.len());
    let after = now.0;
    let starts = |t: int|
        0 <= t < vs.len() && states[t].reaches(path_depth) && vs[t].cluster_id == NONE
            && after[t].cluster_id == t;
    lemma_chains_started(states, vs, path_depth, grid, points, states.len());
    assert forall|t: int|
        0 <= t < vs.len() && states[t].reaches(path_depth) && (#[trigger] vs[t]).cluster_id
            == NONE implies exists|c: int|
        #[trigger] starts(c) && home(grid.state, points[c]) == home(grid.state, points[t]) by {
        assert(states[t].vertex_idx == t);
        assert(is_loose(states, vs, path_depth, t));
        let c = now.1[home(grid.state, points[t]) as int] as int;
        assert(home(grid.state, points[t]) < grid.cell_head@.len());
        assert(is_loose(states, vs, path_depth, c));
        assert(states[c].vertex_idx == c);
        assert(starts(c));
    }
    assert forall|a: int, b: int|
        #[trigger] starts(a) && #[trigger] starts(b) && home(grid.state, points[a]) == home(
            grid.state,
            points[b],
        ) implies a == b by {
        assert(after[a] != vs[a]);
        assert(after[b] != vs[b]);
        assert(now.1[home(grid.state, points[a]) as int] == a);
        assert(now.1[home(grid.state, points[b]) as int] == b);
    }
    assert forall|t: int| 0 <= t < vs.len() && !starts(t) implies #[trigger] after[t] == vs[t] by {
        if after[t] != vs[t] {
            assert(states[t].vertex_idx == t);
            assert(home(grid.state, points[t]) < grid.cell_head@.len());
            assert(now.1[home(grid.state, points[t]) as int] == t);
        }
    }
}

/// A neighbour that may be used has a vertex at the depth, lies within the radius, is in the same
/// cluster where there are clusters, and has met the same unless that is not looked at.
pub proof fn law_neighbors_are_alike(
    config: Config,
    state: RenderState,
    path_depth: u32,
    cluster_id: u32,
    flags: StylizationFlags,
    grid: HashGrid<u32>,
    query: Query,
    i: int,
)
    requires
        0 <= i < all_candidates(
            config,
            state,
            path_depth,
            cluster_id,
            flags,
            grid,
            query,
        ).len(),
    ensures
        ({
            let id = all_candidates(
                config,
                state,
                path_depth,
                cluster_id,
                flags,
                grid,
                query,
            )[i];
            let ps = state.path_state_buf@[id as int];
            let v = state.vertex_buf@[ps.vertex_idx as int];
            &&& ps.valid && path_depth <= ps.depth
            &&& config.cluster ==> v.cluster_id == cluster_id
            &&& config.disable_flag_check || v.new_flags == flags
            &&& exists|k: int|
                0 <= k < grid.visits(query.point).len() && query.near@[k] && #[trigger] grid.data@[grid.visits(
                    query.point,
                )[k] as int] == id
        }),
{
    let ids = ids_of(grid, query.point);
    lemma_alike(
        config,
        state.path_state_buf@,
        state.vertex_buf@,
        path_depth,
        cluster_id,
        flags,
        ids,
        query.near@,
        ids.len(),
        i,
    );
    let id = all_candidates(config, state, path_depth, cluster_id, flags, grid, query)[i];
    let k = choose|k: int| 0 <= k < ids.len() && query.near@[k] && #[trigger] ids[k] == id;
    assert(grid.data@[grid.visits(query.point)[k] as int] == id);
}

proof fn lemma_alike(
    config: Config,
    states: Seq<PathState>,
    vs: Seq<Vertex>,
    path_depth: u32,
    cluster_id: u32,
    flags: StylizationFlags,
    ids: Seq<u32>,
    near: Seq<bool>,
    n: nat,
    i: int,
)
    requires
        n <= ids.len(),
        0 <= i < candidates(
            config,
            states,
            vs,
            path_depth,
            cluster_id,
            flags,
            ids,
            near,
            n,
        ).len(),
    ensures
        ({
            let id = candidates(
                config,
                states,
                vs,
                path_depth,
                cluster_id,
                flags,
                ids,
                near,
                n,
            )[i];
            let ps = states[id as int];
            let v = vs[ps.vertex_idx as int];
            &&& ps.valid && path_depth <= ps.depth
            &&& config.cluster ==> v.cluster_id == cluster_id
            &&& config.disable_flag_check || v.new_flags == flags
            &&& exists|k: int| 0 <= k < n && near[k] && #[trigger] ids[k] == id
        }),
    decreases n,
{
    let m = (n - 1) as nat;
    let before = candidates(
        config,
        states,
        vs,
        path_depth,
        cluster_id,
        flags,
        ids,
        near,
        m,
    );
    if i < before.len() {
        lemma_alike(
            config,
            states,
            vs,
            path_depth,
            cluster_id,
            flags,
            ids,
            near,
            m,
            i,
        );
        let id = before[i];
        let k = choose|k: int| 0 <= k < m && near[k] && #[trigger] ids[k] == id;
        assert(ids[k] == id);
    } else {
        assert(ids[n - 1] == ids[n - 1]);
    }
}

/// A path that a search meets within the radius, that has a vertex at the depth, is in the same
/// cluster where there are clusters and has met the same, may be used.
pub proof fn law_alike_neighbors_are_found(
    config: Config,
    state: RenderState,
    path_depth: u32,
    cluster_id: u32,
    flags: StylizationFlags,
    grid: HashGrid<u32>,
    query: Query,
    k: int,
)
    requires
        0 <= k < grid.visits(query.point).len(),
        query.near@[k],
        ({
            let id = grid.data@[grid.visits(query.point)[k] as int];
            let ps = state.path_state_buf@[id as int];
            let v = state.vertex_buf@[ps.vertex_idx as int];
            &&& ps.valid && path_depth <= ps.depth
            &&& config.cluster ==> v.cluster_id == cluster_id
            &&& config.disable_flag_check || v.new_flags == flags
        }),
    ensures
        all_candidates(config, state, path_depth, cluster_id, flags, grid, query).contains(
            grid.data@[grid.visits(query.point)[k] as int],
        ),
{
    let ids = ids_of(grid, query.point);
    assert(ids[k] == grid.data@[grid.visits(query.point)[k] as int]);
    lemma_found(
        config,
        state.path_state_buf@,
        state.vertex_buf@,
        path_depth,
        cluster_id,
        flags,
        ids,
        query.near@,
        ids.len(),
        k,
    );
}

proof fn lemma_found(
    config: Config,
    states: Seq<PathState>,
    vs: Seq<Vertex>,
    path_depth: u32,
    cluster_id: u32,
    flags: StylizationFlags,
    ids: Seq<u32>,
    near: Seq<bool>,
    n: nat,
    k: int,
)
    requires
        0 <= k < n <= ids.len(),
        near[k],
        ({
            let ps = states[ids[k] as int];
            let v = vs[ps.vertex_idx as int];
            &&& ps.valid && path_depth <= ps.depth
            &&& config.cluster ==> v.cluster_id == cluster_id
            &&& config.disable_flag_check || v.new_flags == flags
        }),
    ensures
        candidates(
            config,
            states,
            vs,
            path_depth,
            cluster_id,
            flags,
            ids,
            near,
            n,
        ).contains(ids[k]),
    decreases n,
{
    let m = (n - 1) as nat;
    let before = candidates(
        config,
        states,
        vs,
        path_depth,
        cluster_id,
        flags,
        ids,
        near,
        m,
    );
    let after = candidates(
        config,
        states,
        vs,
        path_depth,
        cluster_id,
        flags,
        ids,
        near,
        n,
    );
    if k < m {
        lemma_found(
            config,
            states,
            vs,
            path_depth,
            cluster_id,
            flags,
            ids,
            near,
            m,
            k,
        );
        let j = before.index_of(ids[k]);
        assert(after[j] == ids[k]);
    } else {
        assert(after[before.len() as int] == ids[k]);
    }
}

/// With clusters, all vertices of a cluster search around the same point, where its centre lies;
/// elsewhere each searches around itself.
pub proof fn law_clusters_search_around_one_point(
    config: Config,
    vs: Seq<Vertex>,
    cluster_id: u32,
    p: Float3,
    q: Float3,
)
    ensures
        config.cluster ==> center_spec(config, vs, cluster_id, p) == center_spec(
            config,
            vs,
            cluster_id,
            q,
        ) && center_spec(config, vs, cluster_id, p) == vs[cluster_id as int].p,
        !config.cluster ==> center_spec(config, vs, cluster_id, p) == p,
{
}

/// Of the neighbours that may be used, as many are kept as the depth reuses, or all where there are
/// no more; and none is kept that may not be used.
pub proof fn law_kept_neighbors(
    config: Config,
    state: RenderState,
    path_depth: u32,
    cluster_id: u32,
    flags: StylizationFlags,
    grid: HashGrid<u32>,
    query: Query,
)
    ensures
        ({
            let found = all_candidates(
                config,
                state,
                path_depth,
                cluster_id,
                flags,
                grid,
                query,
            );
            let kept = kept_spec(config, state, path_depth, cluster_id, flags, grid, query);
            let max_reuse = state.reuses_per_depth@[path_depth as int];
            &&& kept.len() == (if found.len() < max_reuse {
                found.len() as int
            } else {
                max_reuse as int
            })
            &&& forall|j: int| 0 <= j < kept.len() ==> found.contains(#[trigger] kept[j])
            &&& found.len() <= max_reuse ==> kept == found
        }),
{
    let found = all_candidates(config, state, path_depth, cluster_id, flags, grid, query);
    let kept = kept_spec(config, state, path_depth, cluster_id, flags, grid, query);
    let max_reuse = state.reuses_per_depth@[path_depth as int];
    law_reservoir_keeps_candidates(found, query.draws@, max_reuse, found.len());
    assert(found.take(found.len() as int) =~= found);
    assert forall|j: int| 0 <= j < kept.len() implies found.contains(#[trigger] kept[j]) by {
        let i = places(query.draws@, max_reuse, found.len())[j];
        assert(kept[j] == found[i]);
    }
}

/// A path starts at the camera: at its pixel, with its own vertex, having met nothing. At later
/// depths it goes on as the depth before left it.
pub proof fn law_paths_start_at_the_camera(
    state: RenderState,
    tid: u32,
    px_idx: u32,
    width: u32,
    height: u32,
    depth: u32,
    camera_ray: Ray,
)
    requires
        width > 0,
        px_idx < width * height,
    ensures
        ({
            let head = head_spec(state, tid, px_idx, width, depth, camera_ray);
            &&& depth == 0 ==> {
                &&& head.ray == camera_ray
                &&& head.state.px.x < width && head.state.px.y < height
                &&& head.state.px.y * width + head.state.px.x == px_idx
                &&& head.state.vertex_idx == tid
                &&& !head.state.valid
                &&& !head.state.terminated
                &&& !head.state.flags.stylization_disabled
                &&& head.state.flags.style_index == 0
                &&& head.state.prev_p == camera_ray.o
                &&& head.state.prev_ng == camera_ray.d
            }
            &&& depth > 0 ==> {
                &&& head.state == state.path_state_buf@[tid as int]
                &&& head.ray == state.ray_buf@[tid as int]
            }
        }),
{
    law_pixel_numbering(px_idx, width, height);
}

} // verus!
