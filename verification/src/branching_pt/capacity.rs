//! Advancing a whole level, and why the buffer of vertices is large enough.
use super::advance::{
    advance_spec, branches, children, inner_count, is_fresh, lemma_child, lemma_children_len,
    BranchSample, SurfaceProbe,
};
use super::render::{inner_at, reach, reach_sum, total_spec};
use super::{BranchingPathTracer, Config, RenderState, Vertex};
use crate::expr::Color;
use crate::value::NONE;
use vstd::prelude::*;

verus! {

/// What the scene and the random numbers say of one vertex that is advanced.
#[derive(Debug)]
pub struct AdvanceInput {
    pub probe: SurfaceProbe,
    pub draw: u32,
    pub samples: Vec<BranchSample>,
}

/// The number of branches at a branching depth; one where the table ends.
pub open spec fn branch_at(table: Seq<u32>, b: int) -> int {
    if 0 <= b < table.len() {
        table[b] as int
    } else {
        1
    }
}

/// The number of vertices that a vertex with branching depth `b` can lead to, `k` levels below.
pub open spec fn prod(table: Seq<u32>, b: nat, k: nat) -> int
    decreases k,
{
    if k == 0 {
        1
    } else {
        prod(table, b, (k - 1) as nat) * branch_at(table, b + k - 1)
    }
}

/// Every vertex that branches has a branch.
pub open spec fn all_positive(table: Seq<u32>) -> bool {
    forall|b: int| 0 <= b < table.len() ==> #[trigger] table[b] >= 1
}

/// The number of vertices that the vertices of a level can lead to, `k` levels below, where the
/// sequence holds their branching depths.
pub open spec fn weight(level: Seq<u32>, table: Seq<u32>, k: nat) -> int
    decreases level.len(),
{
    if level.len() == 0 {
        0
    } else {
        weight(level.drop_last(), table, k) + prod(table, level.last() as nat, k)
    }
}

/// The branching depths of the vertices `lo .. hi`.
pub open spec fn depths(vs: Seq<Vertex>, lo: int, hi: int) -> Seq<u32> {
    Seq::new((hi - lo) as nat, |i: int| vs[lo + i].actual_branching_depths)
}

/// A level can have come from the one above it: whatever it leads to, the one above leads to.
pub open spec fn stems_from(below: Seq<u32>, above: Seq<u32>, table: Seq<u32>) -> bool {
    forall|k: nat| #[trigger] weight(below, table, k) <= weight(above, table, k + 1)
}

proof fn lemma_prod_front(table: Seq<u32>, b: nat, k: nat)
    ensures
        prod(table, b, k + 1) == branch_at(table, b as int) * prod(table, b + 1, k),
    decreases k,
{
    if k == 0 {
        assert(prod(table, b, 1) == prod(table, b, 0) * branch_at(table, b as int));
    } else {
        lemma_prod_front(table, b, (k - 1) as nat);
        let x = branch_at(table, b as int);
        let y = prod(table, b + 1, (k - 1) as nat);
        let z = branch_at(table, (b + k) as int);
        assert((x * y) * z == x * (y * z)) by (nonlinear_arith);
    }
}

proof fn lemma_prod_positive(table: Seq<u32>, b: nat, k: nat)
    requires
        all_positive(table),
    ensures
        prod(table, b, k) >= 1,
        prod(table, b, k) <= prod(table, b, k + 1),
    decreases k,
{
    if k > 0 {
        lemma_prod_positive(table, b, (k - 1) as nat);
    }
    let x = prod(table, b, k);
    let y = branch_at(table, (b + k) as int);
    assert(y >= 1);
    assert(x * y >= x) by (nonlinear_arith)
        requires
            x >= 1,
            y >= 1,
    ;
}

proof fn lemma_weight_push(level: Seq<u32>, d: u32, table: Seq<u32>, k: nat)
    ensures
        weight(level.push(d), table, k) == weight(level, table, k) + prod(table, d as nat, k),
{
    assert(level.push(d).drop_last() =~= level);
}

proof fn lemma_weight_append(a: Seq<u32>, b: Seq<u32>, table: Seq<u32>, k: nat)
    ensures
        weight(a + b, table, k) == weight(a, table, k) + weight(b, table, k),
    decreases b.len(),
{
    if b.len() == 0 {
        assert(a + b =~= a);
    } else {
        lemma_weight_append(a, b.drop_last(), table, k);
        assert((a + b).drop_last() =~= a + b.drop_last());
    }
}

/// Vertices of one branching depth weigh as much as one of them, times their number.
proof fn lemma_weight_same(level: Seq<u32>, d: u32, table: Seq<u32>, k: nat)
    requires
        forall|i: int| 0 <= i < level.len() ==> #[trigger] level[i] == d,
    ensures
        weight(level, table, k) == level.len() * prod(table, d as nat, k),
    decreases level.len(),
{
    if level.len() > 0 {
        lemma_weight_same(level.drop_last(), d, table, k);
        let n = level.len() as int;
        let p = prod(table, d as nat, k);
        assert((n - 1) * p + p == n * p) by (nonlinear_arith);
    }
}

/// Each vertex of a level weighs one at its own level.
proof fn lemma_weight_len(level: Seq<u32>, table: Seq<u32>)
    ensures
        weight(level, table, 0) == level.len(),
    decreases level.len(),
{
    if level.len() > 0 {
        lemma_weight_len(level.drop_last(), table);
    }
}

/// What a vertex branches into weighs no more than the vertex, one level further.
proof fn lemma_children_weight(
    config: Config,
    table: Seq<u32>,
    v: Vertex,
    vertex_id: u32,
    probe: SurfaceProbe,
    draw: u32,
    bd: u32,
    samples: Seq<BranchSample>,
    base: nat,
    n: u32,
    k: nat,
)
    requires
        config.debias is None,
        all_positive(table),
        v.actual_branching_depths < table.len(),
        n == inner_count(config, table, v, probe.roughness, draw),
        bd == v.actual_branching_depths + if branches(probe.roughness) {
            1int
        } else {
            0
        },
    ensures
        ({
            let made = children(probe, vertex_id, bd, samples, base, n as nat);
            weight(depths(made, 0, made.len() as int), table, k) <= prod(
                table,
                v.actual_branching_depths as nat,
                k + 1,
            )
        }),
{
    let made = children(probe, vertex_id, bd, samples, base, n as nat);
    let level = depths(made, 0, made.len() as int);
    lemma_children_len(probe, vertex_id, bd, samples, base, n as nat);
    assert forall|i: int| 0 <= i < level.len() implies #[trigger] level[i] == bd by {
        lemma_child(probe, vertex_id, bd, samples, base, n as nat, i);
    }
    lemma_weight_same(level, bd, table, k);
    let b = v.actual_branching_depths as nat;
    lemma_prod_positive(table, bd as nat, k);
    let p = prod(table, bd as nat, k);
    let len = made.len() as int;
    assert(len * p <= n * p) by (nonlinear_arith)
        requires
            len <= n,
            p >= 1,
    ;
    if branches(probe.roughness) {
        lemma_prod_front(table, b, k);
    } else {
        assert(n * p == p);
    }
}

/// The samples that the first `k` vertices of a level take.
pub open spec fn inner_sum(
    config: Config,
    table: Seq<u32>,
    level: Seq<Vertex>,
    inputs: Seq<AdvanceInput>,
    k: nat,
) -> int
    decreases k,
{
    if k == 0 {
        0
    } else {
        inner_sum(config, table, level, inputs, (k - 1) as nat) + inner_count(
            config,
            table,
            level[k - 1],
            inputs[k - 1].probe.roughness,
            inputs[k - 1].draw,
        )
    }
}

proof fn lemma_inner_sum_grows(
    config: Config,
    table: Seq<u32>,
    level: Seq<Vertex>,
    inputs: Seq<AdvanceInput>,
    j: nat,
    k: nat,
)
    requires
        j <= k,
    ensures
        0 <= inner_sum(config, table, level, inputs, j) <= inner_sum(config, table, level, inputs, k),
    decreases k,
{
    if k > 0 {
        if j < k {
            lemma_inner_sum_grows(config, table, level, inputs, j, (k - 1) as nat);
        } else {
            lemma_inner_sum_grows(config, table, level, inputs, (k - 1) as nat, (k - 1) as nat);
        }
    }
}

/// The vertices, and the table for debiasing, after the first `k` vertices of a level were
/// advanced, one after the other.
pub open spec fn level_upto(
    config: Config,
    table: Seq<u32>,
    vs: Seq<Vertex>,
    directs: Seq<Color>,
    start: u32,
    path_depth: u32,
    inputs: Seq<AdvanceInput>,
    k: nat,
) -> (Seq<Vertex>, Seq<Color>)
    decreases k,
{
    if k == 0 {
        (vs, directs)
    } else {
        let (before, ds) = level_upto(
            config,
            table,
            vs,
            directs,
            start,
            path_depth,
            inputs,
            (k - 1) as nat,
        );
        let id = (start + k - 1) as u32;
        let input = inputs[k - 1];
        let done = advance_spec(
            config,
            table,
            before.len(),
            ds.len(),
            before[id as int],
            id,
            path_depth,
            input.probe,
            input.draw,
            input.samples@,
        );
        (before.update(id as int, done.vertex) + done.children, ds + done.directs)
    }
}

impl BranchingPathTracer {
    /// Advances every vertex of the last level, `start .. `, one after the other.
    pub fn advance_level(
        &self,
        state: &mut RenderState,
        start: u32,
        path_depth: u32,
        inputs: &Vec<AdvanceInput>,
    )
        requires
            old(state).wf(),
            path_depth < u32::MAX,
            old(state).n_inner_samples.len() <= u32::MAX,
            start + inputs.len() == old(state).vertex_buffer.len(),
            forall|i: int|
                start <= i < old(state).vertex_buffer.len() ==> {
                    &&& is_fresh(#[trigger] old(state).vertex_buffer@[i])
                    &&& old(state).vertex_buffer@[i].actual_branching_depths < old(state).n_inner_samples.len()
                },
            forall|i: int|
                0 <= i < inputs.len() ==> {
                    let n = inner_count(
                        self.config,
                        old(state).n_inner_samples@,
                        old(state).vertex_buffer@[start + i],
                        (#[trigger] inputs@[i]).probe.roughness,
                        inputs@[i].draw,
                    );
                    &&& n <= u32::MAX
                    &&& path_depth + 1 <= self.config.max_depth ==> inputs@[i].samples.len() == n
                },
            path_depth + 1 <= self.config.max_depth ==> ({
                let n = inner_sum(
                    self.config,
                    old(state).n_inner_samples@,
                    old(state).vertex_buffer@.skip(start as int),
                    inputs@,
                    inputs@.len(),
                );
                &&& old(state).vertex_buffer.len() + n <= NONE
                &&& self.config.debias is Some ==> old(state).debiasing_direct_radiance.len() + n
                    <= NONE
            }),
        ensures
            (final(state).vertex_buffer@, final(state).debiasing_direct_radiance@) == level_upto(
                self.config,
                old(state).n_inner_samples@,
                old(state).vertex_buffer@,
                old(state).debiasing_direct_radiance@,
                start,
                path_depth,
                inputs@,
                inputs@.len(),
            ),
            final(state).wf(),
            final(state).n_inner_samples == old(state).n_inner_samples,
            final(state).vertex_buffer.len() >= old(state).vertex_buffer.len(),
            forall|i: int|
                0 <= i < start ==> #[trigger] final(state).vertex_buffer@[i] == old(state).vertex_buffer@[i],
            forall|i: int|
                old(state).vertex_buffer.len() <= i < final(state).vertex_buffer.len() ==> {
                    &&& is_fresh(#[trigger] final(state).vertex_buffer@[i])
                    &&& start <= final(state).vertex_buffer@[i].parent < old(state).vertex_buffer.len()
                    &&& final(state).vertex_buffer@[i].actual_branching_depths <= old(state).vertex_buffer@[final(state).vertex_buffer@[i].parent as int].actual_branching_depths + 1
                },
            path_depth + 1 > self.config.max_depth ==> final(state).vertex_buffer.len() == old(state).vertex_buffer.len(),
            self.config.debias is None && all_positive(old(state).n_inner_samples@) ==> stems_from(
                depths(
                    final(state).vertex_buffer@,
                    old(state).vertex_buffer.len() as int,
                    final(state).vertex_buffer.len() as int,
                ),
                depths(
                    old(state).vertex_buffer@,
                    start as int,
                    old(state).vertex_buffer.len() as int,
                ),
                old(state).n_inner_samples@,
            ),
    {
        let ghost config = self.config;
        let ghost table = state.n_inner_samples@;
        let ghost vs0 = state.vertex_buffer@;
        let ghost end = vs0.len() as int;
        let ghost level = vs0.skip(start as int);
        let ghost ds0 = state.debiasing_direct_radiance@.len();
        let mut i: usize = 0;
        proof {
            assert forall|k: nat| #[trigger] weight(depths(vs0, end, end), table, k) <= weight(
                depths(vs0, start as int, start as int),
                table,
                k + 1,
            ) by {
                assert(depths(vs0, end, end).len() == 0);
                assert(depths(vs0, start as int, start as int).len() == 0);
            }
        }
        while i < inputs.len()
            invariant
                i <= inputs.len(),
                config == self.config,
                vs0 == old(state).vertex_buffer@,
                (state.vertex_buffer@, state.debiasing_direct_radiance@) == level_upto(
                    config,
                    table,
                    vs0,
                    old(state).debiasing_direct_radiance@,
                    start,
                    path_depth,
                    inputs@,
                    i as nat,
                ),
                state.wf(),
                path_depth < u32::MAX,
                state.n_inner_samples@ == table,
                state.n_inner_samples == old(state).n_inner_samples,
                table.len() <= u32::MAX,
                end == vs0.len(),
                start + inputs.len() == end,
                level == vs0.skip(start as int),
                forall|j: int|
                    start <= j < end ==> {
                        &&& is_fresh(#[trigger] vs0[j])
                        &&& vs0[j].actual_branching_depths < table.len()
                    },
                forall|j: int|
                    0 <= j < inputs.len() ==> {
                        let n = inner_count(
                            config,
                            table,
                            vs0[start + j],
                            (#[trigger] inputs@[j]).probe.roughness,
                            inputs@[j].draw,
                        );
                        &&& n <= u32::MAX
                        &&& path_depth + 1 <= config.max_depth ==> inputs@[j].samples.len() == n
                    },
                path_depth + 1 <= config.max_depth ==> end + inner_sum(
                    config,
                    table,
                    level,
                    inputs@,
                    inputs@.len(),
                ) <= NONE,
                path_depth + 1 <= config.max_depth && config.debias is Some ==> ds0 + inner_sum(
                    config,
                    table,
                    level,
                    inputs@,
                    inputs@.len(),
                ) <= NONE,
                end <= state.vertex_buffer.len() <= end + inner_sum(
                    config,
                    table,
                    level,
                    inputs@,
                    i as nat,
                ),
                state.debiasing_direct_radiance.len() <= ds0 + inner_sum(
                    config,
                    table,
                    level,
                    inputs@,
                    i as nat,
                ),
                forall|j: int|
                    0 <= j < start || start + i <= j < end
                        ==> #[trigger] state.vertex_buffer@[j] == vs0[j],
                forall|j: int|
                    end <= j < state.vertex_buffer.len() ==> {
                        &&& is_fresh(#[trigger] state.vertex_buffer@[j])
                        &&& start <= state.vertex_buffer@[j].parent < end
                        &&& state.vertex_buffer@[j].actual_branching_depths
                            <= vs0[state.vertex_buffer@[j].parent as int].actual_branching_depths
                            + 1
                    },
                path_depth + 1 > config.max_depth ==> state.vertex_buffer.len() == end,
                config.debias is None && all_positive(table) ==> stems_from(
                    depths(state.vertex_buffer@, end, state.vertex_buffer.len() as int),
                    depths(vs0, start as int, start + i),
                    table,
                ),
            decreases inputs.len() - i,
        {
            let vertex_id: u32 = start + i as u32;
            let input = &inputs[i];
            let ghost before = state.vertex_buffer@;
            let ghost v = before[vertex_id as int];
            let ghost ds = state.debiasing_direct_radiance@.len();
            let ghost n = inner_count(config, table, v, input.probe.roughness, input.draw);
            proof {
                assert(v == vs0[vertex_id as int]);
                assert(level[i as int] == v);
                assert(inputs@[i as int].samples.len() == inputs@[i as int].samples.len());
                lemma_inner_sum_grows(
                    config,
                    table,
                    level,
                    inputs@,
                    (i + 1) as nat,
                    inputs@.len(),
                );
            }
            self.kernel_advance(
                state,
                vertex_id,
                path_depth,
                input.probe,
                input.draw,
                &input.samples,
            );
            proof {
                let done = advance_spec(
                    config,
                    table,
                    before.len(),
                    ds,
                    v,
                    vertex_id,
                    path_depth,
                    input.probe,
                    input.draw,
                    input.samples@,
                );
                let bd = (v.actual_branching_depths + if branches(input.probe.roughness) {
                    1int
                } else {
                    0
                }) as u32;
                let after = state.vertex_buffer@;
                lemma_children_len(
                    input.probe,
                    vertex_id,
                    bd,
                    input.samples@,
                    before.len(),
                    n as nat,
                );
                assert forall|j: int| end <= j < after.len() implies {
                    &&& is_fresh(#[trigger] after[j])
                    &&& start <= after[j].parent < end
                    &&& after[j].actual_branching_depths
                        <= vs0[after[j].parent as int].actual_branching_depths + 1
                } by {
                    if j < before.len() {
                        assert(after[j] == before[j]);
                    } else {
                        lemma_child(
                            input.probe,
                            vertex_id,
                            bd,
                            input.samples@,
                            before.len(),
                            n as nat,
                            j - before.len(),
                        );
                        assert(after[j] == done.children[j - before.len()]);
                    }
                }
                if config.debias is None && all_positive(table) {
                    let made = depths(done.children, 0, done.children.len() as int);
                    let was = depths(before, end, before.len() as int);
                    let now = depths(after, end, after.len() as int);
                    let above = depths(vs0, start as int, start + i);
                    let above_now = depths(vs0, start as int, start + i + 1);
                    assert(now =~= was + made);
                    assert(above_now =~= above.push(v.actual_branching_depths));
                    assert forall|k: nat| #[trigger] weight(now, table, k) <= weight(
                        above_now,
                        table,
                        k + 1,
                    ) by {
                        assert(weight(was, table, k) <= weight(above, table, k + 1));
                        lemma_weight_append(was, made, table, k);
                        lemma_weight_push(above, v.actual_branching_depths, table, k + 1);
                        if path_depth + 1 <= config.max_depth {
                            lemma_children_weight(
                                config,
                                table,
                                v,
                                vertex_id,
                                input.probe,
                                input.draw,
                                bd,
                                input.samples@,
                                before.len(),
                                n as u32,
                                k,
                            );
                        } else {
                            lemma_prod_positive(table, v.actual_branching_depths as nat, k + 1);
                        }
                    }
                }
            }
            i += 1;
        }
    }
}

/// The number of vertices of the first `k` levels.
pub open spec fn level_sum(levels: Seq<Seq<u32>>, k: nat) -> int
    decreases k,
{
    if k == 0 {
        0
    } else {
        level_sum(levels, (k - 1) as nat) + levels[k - 1].len()
    }
}

proof fn lemma_level_bound(levels: Seq<Seq<u32>>, table: Seq<u32>, pixels: int, d: nat, k: nat)
    requires
        d < levels.len(),
        levels[0].len() <= pixels,
        forall|i: int| 0 <= i < levels[0].len() ==> #[trigger] levels[0][i] == 0,
        forall|e: int|
            0 <= e < levels.len() - 1 ==> stems_from(levels[e + 1], #[trigger] levels[e], table),
        all_positive(table),
    ensures
        weight(levels[d as int], table, k) <= pixels * prod(table, 0, d + k),
    decreases d,
{
    if d == 0 {
        lemma_weight_same(levels[0], 0, table, k);
        lemma_prod_positive(table, 0, k);
        let p = prod(table, 0, k);
        let n = levels[0].len() as int;
        assert(n * p <= pixels * p) by (nonlinear_arith)
            requires
                n <= pixels,
                p >= 1,
        ;
    } else {
        lemma_level_bound(levels, table, pixels, (d - 1) as nat, k + 1);
        let e = d - 1;
        assert(stems_from(levels[e + 1], levels[e], table));
        assert(weight(levels[d as int], table, k) <= weight(levels[e], table, k + 1));
    }
}

proof fn lemma_reach_is_prod(config: Config, table: Seq<u32>, mean: u32, k: nat)
    requires
        config.debias is None,
        forall|d: int| 0 <= d < table.len() ==> #[trigger] table[d] == inner_at(config, d),
        k <= table.len(),
    ensures
        reach(config, mean, k) == prod(table, 0, k),
    decreases k,
{
    if k > 0 {
        lemma_reach_is_prod(config, table, mean, (k - 1) as nat);
        assert(table[k - 1] == inner_at(config, k - 1));
    }
}

proof fn lemma_level_sum(
    config: Config,
    levels: Seq<Seq<u32>>,
    table: Seq<u32>,
    mean: u32,
    pixels: int,
    k: nat,
)
    requires
        config.debias is None,
        1 <= k <= levels.len(),
        levels.len() <= table.len(),
        levels[0].len() <= pixels,
        forall|i: int| 0 <= i < levels[0].len() ==> #[trigger] levels[0][i] == 0,
        forall|e: int|
            0 <= e < levels.len() - 1 ==> stems_from(levels[e + 1], #[trigger] levels[e], table),
        all_positive(table),
        forall|d: int| 0 <= d < table.len() ==> #[trigger] table[d] == inner_at(config, d),
    ensures
        level_sum(levels, k) <= pixels * (1 + reach_sum(config, mean, (k - 1) as nat)),
    decreases k,
{
    lemma_level_bound(levels, table, pixels, (k - 1) as nat, 0);
    lemma_weight_len(levels[k - 1], table);
    if k == 1 {
        assert(level_sum(levels, 0) == 0);
        assert(prod(table, 0, 0) == 1);
    } else {
        lemma_level_sum(config, levels, table, mean, pixels, (k - 1) as nat);
        lemma_reach_is_prod(config, table, mean, (k - 1) as nat);
        let a = 1 + reach_sum(config, mean, (k - 2) as nat);
        let b = reach(config, mean, (k - 1) as nat);
        assert(pixels * (a + b) == pixels * a + pixels * b) by (nonlinear_arith);
    }
}

/// The buffer of vertices is large enough. Take the levels of a pass over some pixels, each by the
/// branching depths of its vertices: the first has one vertex for each pixel at most, none of
/// which has branched, and each level stems from the one above it. Then all levels together have
/// no more vertices than the plan makes room for. This holds where no bias is taken out (how many
/// samples that takes is a matter of chance) and no branching has zero branches.
pub proof fn law_buffer_suffices(
    config: Config,
    table: Seq<u32>,
    levels: Seq<Seq<u32>>,
    pixels: u32,
    mean: u32,
)
    requires
        config.debias is None,
        table == Seq::new((config.max_depth + 1) as nat, |d: int| inner_at(config, d)),
        all_positive(table),
        levels.len() == config.max_depth + 1,
        levels[0].len() <= pixels,
        forall|i: int| 0 <= i < levels[0].len() ==> #[trigger] levels[0][i] == 0,
        forall|d: int|
            0 <= d < levels.len() - 1 ==> stems_from(levels[d + 1], #[trigger] levels[d], table),
    ensures
        level_sum(levels, levels.len()) <= pixels * total_spec(config, mean),
{
    lemma_level_sum(config, levels, table, mean, pixels as int, levels.len());
    let k = config.max_depth as nat;
    lemma_reach_is_prod(config, table, mean, k + 1);
    lemma_prod_positive(table, 0, k + 1);
    let a = 1 + reach_sum(config, mean, k);
    let b = total_spec(config, mean);
    assert(pixels * a <= pixels * b) by (nonlinear_arith)
        requires
            a <= b,
            pixels >= 0,
    ;
}

} // verus!
