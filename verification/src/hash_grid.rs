//! A grid of points that is kept in a hash table of chains.
//!
//! A point belongs to the cell that it falls into, and a cell to the chain that its hash picks.
//! Several cells can share a chain. The chains are linked lists over the indices of the points:
//! `cell_head` holds where a chain starts and `next` where it goes on.
use crate::value::{Float3, Single, Uint3, NONE};
use vstd::prelude::*;

verus! {

pub open spec fn hash_spec(p: Uint3) -> u64 {
    ((p.x * 73856093) as u64) ^ ((p.y * 19349663) as u64) ^ ((p.z * 83492791) as u64)
}

/// The hash of a cell.
pub fn hash(p: Uint3) -> (r: u64)
    ensures
        r == hash_spec(p),
{
    proof {
        let (x, y, z) = (p.x, p.y, p.z);
        assert(x * 73856093 <= 0xffff_ffff * 73856093);
        assert(y * 19349663 <= 0xffff_ffff * 19349663);
        assert(z * 83492791 <= 0xffff_ffff * 83492791);
    }
    (p.x as u64 * 73856093) ^ (p.y as u64 * 19349663) ^ (p.z as u64 * 83492791)
}

/// Along each axis the hash is a multiple of the coordinate, with a factor of its own, and the axes
/// are mixed bit by bit.
pub proof fn law_hash_mixes_the_axes(p: Uint3)
    ensures
        ({
            let along_x = hash_spec(Uint3 { x: p.x, y: 0, z: 0 });
            let along_y = hash_spec(Uint3 { x: 0, y: p.y, z: 0 });
            let along_z = hash_spec(Uint3 { x: 0, y: 0, z: p.z });
            &&& along_x == p.x * 73856093
            &&& along_y == p.y * 19349663
            &&& along_z == p.z * 83492791
            &&& hash_spec(p) == along_x ^ along_y ^ along_z
        }),
{
    let (a, b, c) = (
        (p.x * 73856093) as u64,
        (p.y * 19349663) as u64,
        (p.z * 83492791) as u64,
    );
    assert(p.x * 73856093 <= 0xffff_ffff * 73856093);
    assert(p.y * 19349663 <= 0xffff_ffff * 19349663);
    assert(p.z * 83492791 <= 0xffff_ffff * 83492791);
    assert(a ^ 0u64 ^ 0u64 == a) by (bit_vector);
    assert(0u64 ^ b ^ 0u64 == b) by (bit_vector);
    assert(0u64 ^ 0u64 ^ c == c) by (bit_vector);
}

/// The extent of a grid and of its tables.
#[derive(Clone, Copy, Debug, PartialEq, Eq, Structural)]
pub struct GridState {
    pub p_min: Float3,
    pub p_max: Float3,
    pub hash_table_size: u32,
    pub point_count: u32,
    pub res: Uint3,
    pub radius: Single,
}

/// A point of space, and where it lies in the grid.
#[derive(Clone, Copy, Debug, PartialEq, Eq, Structural)]
pub struct GridPoint {
    pub p: Float3,
    /// `(p - p_min) / (p_max - p_min)`, limited to the unit cube, times the resolution of the
    /// grid and cut to whole numbers.
    pub scaled: Uint3,
}

pub open spec fn cell_axis(scaled: u32, res: u32) -> u32 {
    if res == 0 || scaled < res - 1 {
        scaled
    } else {
        (res - 1) as u32
    }
}

/// The cell that a point falls into. The far faces of the grid belong to its last cells.
pub open spec fn cell_spec(state: GridState, p: GridPoint) -> Uint3 {
    Uint3 {
        x: cell_axis(p.scaled.x, state.res.x),
        y: cell_axis(p.scaled.y, state.res.y),
        z: cell_axis(p.scaled.z, state.res.z),
    }
}

/// The chain of a cell.
pub open spec fn index_spec(state: GridState, cell: Uint3) -> u32 {
    (hash_spec(cell) % (state.hash_table_size as u64)) as u32
}

/// The chain of the cell that a point falls into.
pub open spec fn home(state: GridState, p: GridPoint) -> u32 {
    index_spec(state, cell_spec(state, p))
}

/// The cell `d` steps from coordinate `c` lies in a grid of `res` cells. A resolution that no
/// signed number holds leaves no cell in reach.
pub open spec fn axis_in(c: u32, d: int, res: u32) -> bool {
    res <= i32::MAX && 0 <= c + d < res
}

/// The steps to the neighbour with number `k`, counted along `x`, then `y`, then `z`.
pub open spec fn step_x(k: int) -> int {
    k % 3 - 1
}

pub open spec fn step_y(k: int) -> int {
    (k / 3) % 3 - 1
}

pub open spec fn step_z(k: int) -> int {
    k / 9 - 1
}

pub open spec fn neighbor_in(state: GridState, cell: Uint3, k: int) -> bool {
    axis_in(cell.x, step_x(k), state.res.x) && axis_in(cell.y, step_y(k), state.res.y) && axis_in(
        cell.z,
        step_z(k),
        state.res.z,
    )
}

pub open spec fn neighbor_cell(cell: Uint3, k: int) -> Uint3 {
    Uint3 {
        x: (cell.x + step_x(k)) as u32,
        y: (cell.y + step_y(k)) as u32,
        z: (cell.z + step_z(k)) as u32,
    }
}

/// The points that neighbour number `k` of `cell` brings: its whole chain, or nothing where it
/// lies outside the grid.
pub open spec fn visits_of(
    state: GridState,
    chains: Seq<Seq<u32>>,
    cell: Uint3,
    k: int,
) -> Seq<u32> {
    if neighbor_in(state, cell, k) {
        chains[index_spec(state, neighbor_cell(cell, k)) as int]
    } else {
        Seq::empty()
    }
}

/// The points that the first `n` neighbours of `cell` bring, in order.
pub open spec fn visits_upto(
    state: GridState,
    chains: Seq<Seq<u32>>,
    cell: Uint3,
    n: nat,
) -> Seq<u32>
    decreases n,
{
    if n == 0 {
        Seq::empty()
    } else {
        visits_upto(state, chains, cell, (n - 1) as nat) + visits_of(state, chains, cell, n - 1)
    }
}

/// The number of entries of all chains.
pub open spec fn total_len(chains: Seq<Seq<u32>>) -> nat
    decreases chains.len(),
{
    if chains.len() == 0 {
        0
    } else {
        total_len(chains.drop_last()) + chains.last().len()
    }
}

/// `chain` is what the links give from `head` on.
pub open spec fn linked(next: Seq<u32>, head: u32, chain: Seq<u32>) -> bool {
    &&& head == (if chain.len() == 0 {
        NONE
    } else {
        chain[0]
    })
    &&& forall|j: int| 0 <= j < chain.len() ==> (#[trigger] chain[j]) < next.len()
    &&& forall|j: int|
        0 <= j < chain.len() ==> #[trigger] next[chain[j] as int] == (if j + 1 < chain.len() {
            chain[j + 1]
        } else {
            NONE
        })
}

/// No index is in two places.
#[verifier::opaque]
pub open spec fn distinct(chains: Seq<Seq<u32>>) -> bool {
    forall|c1: int, j1: int, c2: int, j2: int|
        0 <= c1 < chains.len() && 0 <= j1 < chains[c1].len() && 0 <= c2 < chains.len() && 0 <= j2
            < chains[c2].len() && #[trigger] chains[c1][j1] == #[trigger] chains[c2][j2] ==> c1
            == c2 && j1 == j2
}

proof fn lemma_distinct_cut(chains: Seq<Seq<u32>>, c: int)
    requires
        distinct(chains),
        0 <= c < chains.len(),
    ensures
        distinct(chains.update(c, Seq::<u32>::empty())),
{
    reveal(distinct);
}

proof fn lemma_distinct_drop(chains: Seq<Seq<u32>>)
    requires
        distinct(chains),
        chains.len() > 0,
    ensures
        distinct(chains.drop_last()),
{
    reveal(distinct);
    let less = chains.drop_last();
    assert forall|c1: int, j1: int, c2: int, j2: int|
        0 <= c1 < less.len() && 0 <= j1 < less[c1].len() && 0 <= c2 < less.len() && 0 <= j2
            < less[c2].len() && #[trigger] less[c1][j1] == #[trigger] less[c2][j2] implies c1 == c2
        && j1 == j2 by {
        assert(chains[c1][j1] == chains[c2][j2]);
    }
}

/// All entries of all chains.
pub open spec fn flat(chains: Seq<Seq<u32>>) -> Seq<u32>
    decreases chains.len(),
{
    if chains.len() == 0 {
        Seq::empty()
    } else {
        flat(chains.drop_last()) + chains.last()
    }
}

proof fn lemma_flat(chains: Seq<Seq<u32>>)
    requires
        distinct(chains),
    ensures
        flat(chains).len() == total_len(chains),
        flat(chains).no_duplicates(),
        forall|x: u32|
            flat(chains).contains(x) <==> exists|c: int|
                0 <= c < chains.len() && (#[trigger] chains[c]).contains(x),
    decreases chains.len(),
{
    if chains.len() > 0 {
        let less = chains.drop_last();
        let n = less.len() as int;
        lemma_distinct_drop(chains);
        lemma_flat(less);
        let a = flat(less);
        let b = chains.last();
        let all = flat(chains);
        assert forall|x: u32| all.contains(x) implies exists|c: int|
            0 <= c < chains.len() && (#[trigger] chains[c]).contains(x) by {
            let k = all.index_of(x);
            if k < a.len() {
                assert(a[k] == x);
                assert(a.contains(x));
                let c = choose|c: int| 0 <= c < less.len() && (#[trigger] less[c]).contains(x);
                assert(chains[c].contains(x));
            } else {
                assert(b[k - a.len()] == x);
                assert(chains[n].contains(x));
            }
        }
        assert forall|x: u32|
            (exists|c: int| 0 <= c < chains.len() && (#[trigger] chains[c]).contains(x)) implies all.contains(
        x) by {
            let c = choose|c: int| 0 <= c < chains.len() && (#[trigger] chains[c]).contains(x);
            if c < n {
                assert(less[c].contains(x));
                assert(a.contains(x));
                let k = a.index_of(x);
                assert(all[k] == x);
            } else {
                let j = b.index_of(x);
                assert(all[a.len() + j] == x);
            }
        }
        assert forall|k1: int, k2: int|
            0 <= k1 < all.len() && 0 <= k2 < all.len() && k1 != k2 implies all[k1] != all[k2] by {
            reveal(distinct);
            if k1 < a.len() && k2 < a.len() {
                assert(a[k1] != a[k2]);
            } else if k1 >= a.len() && k2 >= a.len() {
                assert(chains[n][k1 - a.len()] != chains[n][k2 - a.len()]);
            } else {
                let (low, high) = if k1 < a.len() {
                    (k1, k2)
                } else {
                    (k2, k1)
                };
                let x = a[low];
                assert(a.contains(x));
                let c = choose|c: int| 0 <= c < less.len() && (#[trigger] less[c]).contains(x);
                let j = less[c].index_of(x);
                assert(chains[c][j] == x);
                assert(chains[n][high - a.len()] == all[high]);
            }
        }
    }
}

/// Distinct numbers below `n` are at most `n`, and exactly `n` where none is missing.
proof fn lemma_pigeonhole(s: Seq<u32>, n: u32)
    requires
        s.no_duplicates(),
        forall|k: int| 0 <= k < s.len() ==> (#[trigger] s[k]) < n,
    ensures
        s.len() <= n,
        (forall|x: u32| x < n ==> #[trigger] s.contains(x)) ==> s.len() == n,
{
    let ints = s.map_values(|x: u32| x as int);
    assert(ints.no_duplicates());
    ints.unique_seq_to_set();
    let range = vstd::set_lib::set_int_range(0, n as int);
    vstd::set_lib::lemma_int_range(0, n as int);
    assert(ints.to_set().subset_of(range)) by {
        assert forall|v: int| ints.to_set().contains(v) implies range.contains(v) by {
            let k = ints.index_of(v);
            assert(s[k] as int == v);
        }
    }
    vstd::set_lib::lemma_len_subset(ints.to_set(), range);
    if forall|x: u32| x < n ==> #[trigger] s.contains(x) {
        assert(range.subset_of(ints.to_set())) by {
            assert forall|v: int| range.contains(v) implies ints.to_set().contains(v) by {
                let x = v as u32;
                assert(s.contains(x));
                let k = s.index_of(x);
                assert(ints[k] == v);
                assert(ints.contains(v));
            }
        }
        assert(range =~= ints.to_set());
    }
}

/// A hash grid: the points, what is stored with each, and the chains.
pub struct HashGrid<T> {
    pub pos: Vec<GridPoint>,
    pub data: Vec<T>,
    pub next: Vec<u32>,
    pub cell_head: Vec<u32>,
    pub state: GridState,
    pub cnt: u32,
    pub chains: Ghost<Seq<Seq<u32>>>,
}

impl<T> HashGrid<T> {
    /// The chains are what the links say, and no index is in two places.
    pub open spec fn links_ok(&self) -> bool {
        &&& self.data.len() == self.pos.len()
        &&& self.next.len() == self.pos.len()
        &&& self.pos.len() == self.state.point_count
        &&& self.pos.len() <= NONE
        &&& self.cell_head.len() == self.state.hash_table_size
        &&& self.state.hash_table_size > 0
        &&& self.chains@.len() == self.cell_head.len()
        &&& forall|c: int|
            0 <= c < self.chains@.len() ==> linked(
                self.next@,
                self.cell_head@[c],
                #[trigger] self.chains@[c],
            )
        &&& distinct(self.chains@)
    }

    /// Index `i` is in some chain.
    pub open spec fn is_linked(&self, i: u32) -> bool {
        exists|c: int| 0 <= c < self.chains@.len() && (#[trigger] self.chains@[c]).contains(i)
    }

    /// Besides, only points that were counted are linked, each in the chain of its cell.
    pub open spec fn wf(&self) -> bool {
        &&& self.links_ok()
        &&& self.cnt <= self.pos.len()
        &&& forall|c: int, j: int|
            0 <= c < self.chains@.len() && 0 <= j < self.chains@[c].len() ==> (
            #[trigger] self.chains@[c][j]) < self.cnt
        &&& forall|c: int, j: int|
            0 <= c < self.chains@.len() && 0 <= j < self.chains@[c].len() ==> home(
                self.state,
                self.pos@[(#[trigger] self.chains@[c][j]) as int],
            ) == c
    }

    /// Point `i` is in the chain of its cell.
    pub open spec fn is_placed(&self, i: u32) -> bool {
        self.chains@[home(self.state, self.pos@[i as int]) as int].contains(i)
    }

    /// Besides, every point that was counted is in the chain of its cell.
    pub open spec fn built(&self) -> bool {
        &&& self.wf()
        &&& forall|i: u32| i < self.cnt ==> #[trigger] self.is_placed(i)
    }

    /// The grid holds no point.
    pub open spec fn is_empty(&self) -> bool {
        &&& self.cnt == 0
        &&& forall|c: int| 0 <= c < self.chains@.len() ==> (#[trigger] self.chains@[c]).len() == 0
    }

    /// The points that a query at `p` meets, in order.
    pub open spec fn visits(&self, p: GridPoint) -> Seq<u32> {
        visits_upto(self.state, self.chains@, cell_spec(self.state, p), 27)
    }
}

/// An empty grid is complete.
pub proof fn lemma_empty_is_built<T>(grid: &HashGrid<T>)
    requires
        grid.links_ok(),
        grid.is_empty(),
    ensures
        grid.built(),
{
}

/// The bytes that one element of each table takes on the device.
#[derive(Clone, Copy, Debug, PartialEq, Eq, Structural)]
pub struct GridLayout {
    pub point: usize,
    pub data: usize,
    pub state: usize,
}

impl<T: Copy> HashGrid<T> {
    /// An empty grid with room for `point_count` points and `hash_size` chains. `blank` fills
    /// the table of data until points are stored.
    pub fn new(
        aabb: (Float3, Float3),
        res: Uint3,
        radius: Single,
        hash_size: usize,
        point_count: usize,
        blank: T,
    ) -> (grid: Self)
        requires
            0 < hash_size <= u32::MAX,
            point_count <= NONE,
        ensures
            grid.built(),
            grid.is_empty(),
            grid.pos.len() == point_count,
            grid.cell_head.len() == hash_size,
            grid.next@ == Seq::new(point_count as nat, |i: int| NONE),
            grid.cell_head@ == Seq::new(hash_size as nat, |i: int| NONE),
            grid.state == (GridState {
                p_min: aabb.0,
                p_max: aabb.1,
                hash_table_size: hash_size as u32,
                point_count: point_count as u32,
                res,
                radius,
            }),
    {
        let state = GridState {
            p_min: aabb.0,
            p_max: aabb.1,
            hash_table_size: hash_size as u32,
            point_count: point_count as u32,
            res,
            radius,
        };
        let origin = GridPoint { p: Float3::zero(), scaled: Uint3 { x: 0, y: 0, z: 0 } };
        let mut pos: Vec<GridPoint> = Vec::new();
        let mut data: Vec<T> = Vec::new();
        let mut next: Vec<u32> = Vec::new();
        let mut i: usize = 0;
        while i < point_count
            invariant
                i <= point_count,
                pos.len() == i,
                data.len() == i,
                next@ == Seq::new(i as nat, |j: int| NONE),
            decreases point_count - i,
        {
            pos.push(origin);
            data.push(blank);
            next.push(NONE);
            i += 1;
        }
        let mut cell_head: Vec<u32> = Vec::new();
        let mut c: usize = 0;
        while c < hash_size
            invariant
                c <= hash_size,
                cell_head@ == Seq::new(c as nat, |j: int| NONE),
            decreases hash_size - c,
        {
            cell_head.push(NONE);
            c += 1;
        }
        let grid = HashGrid {
            pos,
            data,
            next,
            cell_head,
            state,
            cnt: 0,
            chains: Ghost(Seq::new(hash_size as nat, |j: int| Seq::<u32>::empty())),
        };
        proof {
            reveal(distinct);
            lemma_empty_is_built(&grid);
        }
        grid
    }

    pub open spec fn mem_usage_spec(&self, layout: GridLayout) -> int {
        self.pos.len() * layout.point + self.data.len() * layout.data + self.next.len() * 4
            + self.cell_head.len() * 4 + layout.state + 4
    }

    /// The bytes that the tables of the grid take on the device, where they can be counted.
    pub fn mem_usage(&self, layout: GridLayout) -> (bytes: usize)
        requires
            self.mem_usage_spec(layout) <= usize::MAX,
        ensures
            bytes == self.mem_usage_spec(layout),
    {
        proof {
            assert(self.pos.len() * layout.point >= 0) by (nonlinear_arith);
            assert(self.data.len() * layout.data >= 0) by (nonlinear_arith);
        }
        self.pos.len() * layout.point + self.data.len() * layout.data + self.next.len() * 4
            + self.cell_head.len() * 4 + layout.state + 4
    }

    /// Gives the grid another extent. The tables and what they hold stay.
    pub fn reset(&mut self, aabb: (Float3, Float3), res: Uint3, radius: Single)
        requires
            old(self).links_ok(),
        ensures
            final(self).state == (GridState {
                p_min: aabb.0,
                p_max: aabb.1,
                hash_table_size: old(self).cell_head.len() as u32,
                point_count: old(self).pos.len() as u32,
                res,
                radius,
            }),
            final(self).pos == old(self).pos,
            final(self).data == old(self).data,
            final(self).next == old(self).next,
            final(self).cell_head == old(self).cell_head,
            final(self).cnt == old(self).cnt,
            final(self).chains == old(self).chains,
            final(self).links_ok(),
            old(self).is_empty() ==> final(self).built() && final(self).is_empty(),
    {
        self.state = GridState {
            p_min: aabb.0,
            p_max: aabb.1,
            hash_table_size: self.cell_head.len() as u32,
            point_count: self.pos.len() as u32,
            res,
            radius,
        };
        proof {
            if old(self).is_empty() {
                lemma_empty_is_built(self);
            }
        }
    }

    /// What thread `tid` does to empty the grid: it cuts its chain off, and the first thread
    /// also sets the count back.
    pub fn reset_kernel(&mut self, tid: u32)
        requires
            old(self).links_ok(),
            tid < old(self).cell_head.len(),
        ensures
            final(self).links_ok(),
            final(self).state == old(self).state,
            final(self).pos == old(self).pos,
            final(self).data == old(self).data,
            final(self).next == old(self).next,
            final(self).cell_head@ == old(self).cell_head@.update(tid as int, NONE),
            final(self).chains@ == old(self).chains@.update(tid as int, Seq::<u32>::empty()),
            final(self).cnt == (if tid == 0 {
                0
            } else {
                old(self).cnt
            }),
    {
        if tid == 0 {
            self.cnt = 0;
        }
        self.cell_head.set(tid as usize, NONE);
        proof {
            lemma_distinct_cut(self.chains@, tid as int);
        }
        self.chains = Ghost(self.chains@.update(tid as int, Seq::<u32>::empty()));
    }

    /// Empties the grid: every thread of [`HashGrid::reset_kernel`], one after the other.
    pub fn clear(&mut self)
        requires
            old(self).links_ok(),
        ensures
            final(self).built(),
            final(self).is_empty(),
            final(self).state == old(self).state,
            final(self).pos == old(self).pos,
            final(self).data == old(self).data,
            final(self).next == old(self).next,
            final(self).cell_head@ == Seq::new(old(self).cell_head@.len(), |c: int| NONE),
    {
        let n: u32 = self.cell_head.len() as u32;
        let mut tid: u32 = 0;
        while tid < n
            invariant
                tid <= n,
                n > 0,
                n == self.cell_head.len(),
                n == old(self).cell_head.len(),
                self.links_ok(),
                self.state == old(self).state,
                self.pos == old(self).pos,
                self.data == old(self).data,
                self.next == old(self).next,
                forall|c: int| 0 <= c < tid ==> (#[trigger] self.chains@[c]).len() == 0,
                forall|c: int| 0 <= c < tid ==> #[trigger] self.cell_head@[c] == NONE,
                tid > 0 ==> self.cnt == 0,
            decreases n - tid,
        {
            self.reset_kernel(tid);
            tid += 1;
        }
        proof {
            lemma_empty_is_built(self);
        }
    }
}

/// The grid, as a kernel reads it.
pub struct HashGridVar<'a, T> {
    pub grid: &'a HashGrid<T>,
}

impl<'a, T: Copy> HashGridVar<'a, T> {
    /// The cell that a point falls into.
    pub fn get_cell(&self, p: GridPoint) -> (cell: Uint3)
        ensures
            cell == cell_spec(self.grid.state, p),
    {
        let res = self.grid.state.res;
        let last_x: u32 = res.x.wrapping_sub(1);
        let last_y: u32 = res.y.wrapping_sub(1);
        let last_z: u32 = res.z.wrapping_sub(1);
        Uint3 {
            x: if p.scaled.x < last_x {
                p.scaled.x
            } else {
                last_x
            },
            y: if p.scaled.y < last_y {
                p.scaled.y
            } else {
                last_y
            },
            z: if p.scaled.z < last_z {
                p.scaled.z
            } else {
                last_z
            },
        }
    }

    /// The chain of a cell.
    pub fn cell_pos_to_index(&self, cell: Uint3) -> (index: u32)
        requires
            self.grid.state.hash_table_size > 0,
        ensures
            index == index_spec(self.grid.state, cell),
            index < self.grid.state.hash_table_size,
    {
        let h: u64 = hash(cell);
        let n: u64 = self.grid.state.hash_table_size as u64;
        assert(h % n < n);
        (h % n) as u32
    }

    /// Appends the chain of a cell to `out`.
    fn push_chain(&self, cell_idx: u32, out: &mut Vec<u32>)
        requires
            self.grid.links_ok(),
            cell_idx < self.grid.cell_head.len(),
        ensures
            final(out)@ == old(out)@ + self.grid.chains@[cell_idx as int],
    {
        let ghost chain = self.grid.chains@[cell_idx as int];
        let ghost mut j: int = 0;
        let mut idx: u32 = self.grid.cell_head[cell_idx as usize];
        while idx != NONE
            invariant
                self.grid.links_ok(),
                linked(self.grid.next@, self.grid.cell_head@[cell_idx as int], chain),
                0 <= j <= chain.len(),
                idx == (if j < chain.len() {
                    chain[j]
                } else {
                    NONE
                }),
                out@ == old(out)@ + chain.take(j),
            decreases chain.len() - j,
        {
            out.push(idx);
            idx = self.grid.next[idx as usize];
            proof {
                assert(chain.take(j + 1) =~= chain.take(j).push(chain[j]));
                j = j + 1;
            }
        }
        proof {
            if j < chain.len() {
                assert(chain[j] < self.grid.next.len());
            }
            assert(chain.take(j) =~= chain);
        }
    }

    fn axis(c: u32, d: i32, res: u32) -> (r: Option<u32>)
        requires
            -1 <= d <= 1,
        ensures
            r is Some <==> axis_in(c, d as int, res),
            r is Some ==> r->0 == c + d,
    {
        let t: i64 = c as i64 + d as i64;
        if res <= 0x7fff_ffff && 0 <= t && t < res as i64 {
            Some(t as u32)
        } else {
            None
        }
    }

    /// The points that a query at `p` meets, in order: the chains of the 27 cells around that of
    /// `p`. A point is met as often as cells share its chain.
    pub fn neighbor_indices(&self, p: GridPoint) -> (indices: Vec<u32>)
        requires
            self.grid.links_ok(),
        ensures
            indices@ == self.grid.visits(p),
    {
        let state = self.grid.state;
        let cell = self.get_cell(p);
        let mut out: Vec<u32> = Vec::new();
        let mut k: i32 = 0;
        while k < 27
            invariant
                0 <= k <= 27,
                self.grid.links_ok(),
                state == self.grid.state,
                cell == cell_spec(state, p),
                out@ == visits_upto(state, self.grid.chains@, cell, k as nat),
            decreases 27 - k,
        {
            let dx: i32 = k % 3 - 1;
            let dy: i32 = (k / 3) % 3 - 1;
            let dz: i32 = k / 9 - 1;
            match (
                Self::axis(cell.x, dx, state.res.x),
                Self::axis(cell.y, dy, state.res.y),
                Self::axis(cell.z, dz, state.res.z),
            ) {
                (Some(x), Some(y), Some(z)) => {
                    let idx: u32 = self.cell_pos_to_index(Uint3 { x, y, z });
                    self.push_chain(idx, &mut out);
                },
                _ => {
                    assert(visits_of(state, self.grid.chains@, cell, k as int) =~= Seq::<
                        u32,
                    >::empty());
                    assert(out@ + Seq::<u32>::empty() =~= out@);
                },
            }
            k += 1;
        }
        out
    }

    /// Calls `f` on the points around `p` until it answers `false`, and gives the indices of the
    /// points that it was called on.
    pub fn for_each_neighbor<F: Fn(GridPoint, T) -> bool>(&self, p: GridPoint, f: F) -> (visited: Vec<
        u32,
    >)
        requires
            self.grid.links_ok(),
            forall|q: GridPoint, t: T| call_requires(f, (q, t)),
        ensures
            visited@.len() <= self.grid.visits(p).len(),
            visited@ == self.grid.visits(p).take(visited@.len() as int),
            forall|i: int|
                0 <= i < visited@.len() - 1 ==> call_ensures(
                    f,
                    (
                        self.grid.pos@[(#[trigger] visited@[i]) as int],
                        self.grid.data@[visited@[i] as int],
                    ),
                    true,
                ),
            visited@.len() < self.grid.visits(p).len() ==> visited@.len() > 0 && call_ensures(
                f,
                (
                    self.grid.pos@[visited@.last() as int],
                    self.grid.data@[visited@.last() as int],
                ),
                false,
            ),
    {
        let all = self.neighbor_indices(p);
        proof {
            lemma_visits_in_range(self.grid, cell_spec(self.grid.state, p), 27);
        }
        let mut visited: Vec<u32> = Vec::new();
        let mut i: usize = 0;
        while i < all.len()
            invariant
                i <= all.len(),
                all@ == self.grid.visits(p),
                self.grid.links_ok(),
                forall|j: int| 0 <= j < all@.len() ==> (#[trigger] all@[j]) < self.grid.pos.len(),
                forall|q: GridPoint, t: T| call_requires(f, (q, t)),
                visited@ == all@.take(i as int),
                forall|j: int|
                    0 <= j < i ==> call_ensures(
                        f,
                        (
                            self.grid.pos@[(#[trigger] visited@[j]) as int],
                            self.grid.data@[visited@[j] as int],
                        ),
                        true,
                    ),
            decreases all.len() - i,
        {
            let idx: u32 = all[i];
            let go_on = f(self.grid.pos[idx as usize], self.grid.data[idx as usize]);
            visited.push(idx);
            proof {
                assert(all@.take(i + 1) =~= all@.take(i as int).push(idx));
            }
            if !go_on {
                return visited;
            }
            i += 1;
        }
        visited
    }
}

/// Every index that a query meets is that of a point of the table.
pub proof fn lemma_visits_in_range<T>(grid: &HashGrid<T>, cell: Uint3, n: nat)
    requires
        grid.links_ok(),
    ensures
        forall|j: int|
            0 <= j < visits_upto(grid.state, grid.chains@, cell, n).len() ==> (
            #[trigger] visits_upto(grid.state, grid.chains@, cell, n)[j]) < grid.pos.len(),
    decreases n,
{
    if n > 0 {
        lemma_visits_in_range(grid, cell, (n - 1) as nat);
        let c = index_spec(grid.state, neighbor_cell(cell, n - 1)) as int;
        let h = hash_spec(neighbor_cell(cell, n - 1));
        let m = grid.state.hash_table_size as u64;
        assert(h % m < m);
        assert(linked(grid.next@, grid.cell_head@[c], grid.chains@[c]));
        let before = visits_upto(grid.state, grid.chains@, cell, (n - 1) as nat);
        let last = visits_of(grid.state, grid.chains@, cell, n - 1);
        let all = visits_upto(grid.state, grid.chains@, cell, n);
        assert forall|j: int| 0 <= j < all.len() implies (#[trigger] all[j]) < grid.pos.len() by {
            if j < before.len() {
                assert(all[j] == before[j]);
            } else {
                assert(all[j] == last[j - before.len()]);
            }
        }
    }
}

/// How far a thread has come in storing its point.
#[derive(Clone, Copy, Debug, PartialEq, Eq, Structural)]
pub enum BuildStep {
    /// It has done nothing yet.
    Start,
    /// It has been given the index of its point.
    Counted { data_idx: u32 },
    /// It has read the head of its chain.
    Observed { data_idx: u32, head: u32 },
    /// Its point is in the chain.
    Done { data_idx: u32 },
}

/// A thread that stores one point.
#[derive(Debug)]
pub struct BuildThread<T> {
    pub point: GridPoint,
    pub data: T,
    pub step: BuildStep,
}

impl<T> BuildThread<T> {
    /// The index that the thread was given and has not linked yet.
    pub open spec fn pending(self) -> Option<u32> {
        match self.step {
            BuildStep::Counted { data_idx } => Some(data_idx),
            BuildStep::Observed { data_idx, .. } => Some(data_idx),
            _ => None,
        }
    }

    /// The index that the thread was given.
    pub open spec fn index(self) -> Option<u32> {
        match self.step {
            BuildStep::Start => None,
            BuildStep::Counted { data_idx } => Some(data_idx),
            BuildStep::Observed { data_idx, .. } => Some(data_idx),
            BuildStep::Done { data_idx } => Some(data_idx),
        }
    }
}

impl<T> HashGrid<T> {
    /// There is room for one more point, and its index is in no chain.
    pub open spec fn has_room(&self) -> bool {
        self.cnt < self.pos.len() && !self.is_linked(self.cnt)
    }

    /// The index that the thread holds was counted and is in no chain.
    pub open spec fn admits(&self, thread: BuildThread<T>) -> bool {
        thread.pending() matches Some(i) ==> i < self.cnt && !self.is_linked(i)
    }

    /// Point `i` is in the chain of its cell, and the tables hold what the thread brought.
    pub open spec fn holds(&self, thread: BuildThread<T>, i: u32) -> bool {
        &&& i < self.cnt
        &&& self.pos@[i as int] == thread.point
        &&& self.data@[i as int] == thread.data
        &&& self.is_placed(i)
    }
}

/// What a grid holds.
pub struct GridTables<T> {
    pub state: GridState,
    pub pos: Seq<GridPoint>,
    pub data: Seq<T>,
    pub next: Seq<u32>,
    pub cell_head: Seq<u32>,
    pub cnt: u32,
    pub chains: Seq<Seq<u32>>,
}

impl<T> HashGrid<T> {
    pub open spec fn tables(&self) -> GridTables<T> {
        GridTables {
            state: self.state,
            pos: self.pos@,
            data: self.data@,
            next: self.next@,
            cell_head: self.cell_head@,
            cnt: self.cnt,
            chains: self.chains@,
        }
    }
}

/// What one step of a thread does to the tables, and to the thread.
pub open spec fn step_spec<T>(tables: GridTables<T>, thread: BuildThread<T>) -> (
    GridTables<T>,
    BuildThread<T>,
) {
    let c = home(tables.state, thread.point) as int;
    match thread.step {
        BuildStep::Start => (
            GridTables { cnt: (tables.cnt + 1) as u32, ..tables },
            BuildThread { step: BuildStep::Counted { data_idx: tables.cnt }, ..thread },
        ),
        BuildStep::Counted { data_idx } => (
            tables,
            BuildThread {
                step: BuildStep::Observed { data_idx, head: tables.cell_head[c] },
                ..thread
            },
        ),
        BuildStep::Observed { data_idx, head } => if tables.cell_head[c] == head {
            (
                GridTables {
                    state: tables.state,
                    pos: tables.pos.update(data_idx as int, thread.point),
                    data: tables.data.update(data_idx as int, thread.data),
                    next: tables.next.update(data_idx as int, head),
                    cell_head: tables.cell_head.update(c, data_idx),
                    cnt: tables.cnt,
                    chains: tables.chains.update(c, seq![data_idx] + tables.chains[c]),
                },
                BuildThread { step: BuildStep::Done { data_idx }, ..thread },
            )
        } else {
            (tables, BuildThread { step: BuildStep::Counted { data_idx }, ..thread })
        },
        BuildStep::Done { .. } => (tables, thread),
    }
}

/// The tables and the threads after the first `n` steps of a schedule, which names the thread
/// that takes each step.
pub open spec fn tables_after<T>(
    tables: GridTables<T>,
    threads: Seq<BuildThread<T>>,
    schedule: Seq<usize>,
    n: nat,
) -> (GridTables<T>, Seq<BuildThread<T>>)
    decreases n,
{
    if n == 0 {
        (tables, threads)
    } else {
        let (now, before) = tables_after(tables, threads, schedule, (n - 1) as nat);
        let k = schedule[n - 1] as int;
        let (next, moved) = step_spec(now, before[k]);
        (next, before.update(k, moved))
    }
}

impl<T: Copy> HashGrid<T> {
    /// One atomic step of a thread. Threads take their steps in any order; a thread whose chain
    /// got another head since it read it reads it again.
    pub fn build_step(&mut self, thread: &mut BuildThread<T>)
        requires
            old(self).links_ok(),
            old(self).cnt <= old(self).pos.len(),
            old(self).admits(*old(thread)),
            old(thread).step is Start ==> old(self).has_room(),
        ensures
            (final(self).tables(), *final(thread)) == step_spec(
                old(self).tables(),
                *old(thread),
            ),
            final(self).links_ok(),
            final(self).cnt <= final(self).pos.len(),
            old(self).wf() ==> final(self).wf(),
            final(self).admits(*final(thread)),
            final(self).state == old(self).state,
            final(self).pos.len() == old(self).pos.len(),
            final(self).cnt == old(self).cnt + (if old(thread).step is Start {
                1int
            } else {
                0
            }),
            final(thread).point == old(thread).point,
            final(thread).data == old(thread).data,
            match old(thread).step {
                BuildStep::Start => {
                    &&& final(thread).step == (BuildStep::Counted { data_idx: old(self).cnt })
                    &&& final(self).chains@ == old(self).chains@
                    &&& final(self).pos == old(self).pos
                    &&& final(self).data == old(self).data
                },
                BuildStep::Counted { data_idx } => {
                    let c = home(old(self).state, old(thread).point);
                    &&& final(thread).step == (BuildStep::Observed {
                        data_idx,
                        head: old(self).cell_head@[c as int],
                    })
                    &&& *final(self) == *old(self)
                },
                BuildStep::Observed { data_idx, head } => {
                    let c = home(old(self).state, old(thread).point);
                    if old(self).cell_head@[c as int] == head {
                        &&& final(thread).step == (BuildStep::Done { data_idx })
                        &&& final(self).chains@ == old(self).chains@.update(
                            c as int,
                            seq![data_idx] + old(self).chains@[c as int],
                        )
                        &&& final(self).pos@ == old(self).pos@.update(
                            data_idx as int,
                            old(thread).point,
                        )
                        &&& final(self).data@ == old(self).data@.update(
                            data_idx as int,
                            old(thread).data,
                        )
                    } else {
                        &&& final(thread).step == (BuildStep::Counted { data_idx })
                        &&& *final(self) == *old(self)
                    }
                },
                BuildStep::Done { .. } => {
                    &&& *final(thread) == *old(thread)
                    &&& *final(self) == *old(self)
                },
            },
    {
        match thread.step {
            BuildStep::Start => {
                thread.step = BuildStep::Counted { data_idx: self.cnt };
                self.cnt = self.cnt + 1;
            },
            BuildStep::Counted { data_idx } => {
                let cell_idx: u32 = self.home_of(thread.point);
                thread.step = BuildStep::Observed {
                    data_idx,
                    head: self.cell_head[cell_idx as usize],
                };
            },
            BuildStep::Observed { data_idx, head } => {
                let cell_idx: u32 = self.home_of(thread.point);
                if self.cell_head[cell_idx as usize] == head {
                    self.cell_head.set(cell_idx as usize, data_idx);
                    self.pos.set(data_idx as usize, thread.point);
                    self.data.set(data_idx as usize, thread.data);
                    self.next.set(data_idx as usize, head);
                    self.chains = Ghost(
                        self.chains@.update(
                            cell_idx as int,
                            seq![data_idx] + self.chains@[cell_idx as int],
                        ),
                    );
                    thread.step = BuildStep::Done { data_idx };
                    proof {
                        lemma_link(old(self), self, data_idx, cell_idx);
                    }
                } else {
                    thread.step = BuildStep::Counted { data_idx };
                }
            },
            BuildStep::Done { .. } => {},
        }
    }

    fn home_of(&self, p: GridPoint) -> (cell_idx: u32)
        requires
            self.links_ok(),
        ensures
            cell_idx == home(self.state, p),
            cell_idx < self.cell_head.len(),
    {
        let grid = HashGridVar { grid: self };
        let cell = grid.get_cell(p);
        grid.cell_pos_to_index(cell)
    }
}

/// The next index of a grid whose chains hold counted points only is in no chain.
pub proof fn lemma_next_index_is_free<T>(grid: &HashGrid<T>)
    requires
        grid.wf(),
        grid.cnt < grid.pos.len(),
    ensures
        grid.has_room(),
{
    if grid.is_linked(grid.cnt) {
        let c = choose|c: int|
            0 <= c < grid.chains@.len() && (#[trigger] grid.chains@[c]).contains(grid.cnt);
        let j = grid.chains@[c].index_of(grid.cnt);
        assert(grid.chains@[c][j] == grid.cnt);
    }
}

/// Putting a counted point in front of the chain of its cell keeps the grid in order.
proof fn lemma_link<T>(before: &HashGrid<T>, after: &HashGrid<T>, i: u32, c: u32)
    requires
        before.links_ok(),
        i < before.cnt <= before.pos.len(),
        !before.is_linked(i),
        c < before.cell_head.len(),
        after.state == before.state,
        after.cnt == before.cnt,
        after.pos@ == before.pos@.update(i as int, after.pos@[i as int]),
        after.data.len() == before.data.len(),
        c == home(before.state, after.pos@[i as int]),
        after.next@ == before.next@.update(i as int, before.cell_head@[c as int]),
        after.cell_head@ == before.cell_head@.update(c as int, i),
        after.chains@ == before.chains@.update(c as int, seq![i] + before.chains@[c as int]),
    ensures
        after.links_ok(),
        before.wf() ==> after.wf(),
{
    let old_chain = before.chains@[c as int];
    let new_chain = seq![i] + old_chain;
    assert forall|k: int| 0 <= k < old_chain.len() implies (#[trigger] old_chain[k]) != i by {
        assert(before.chains@[c as int].contains(old_chain[k]));
    }
    assert(distinct(after.chains@)) by {
        reveal(distinct);
        assert forall|c1: int, j1: int, c2: int, j2: int|
            0 <= c1 < after.chains@.len() && 0 <= j1 < after.chains@[c1].len() && 0 <= c2
                < after.chains@.len() && 0 <= j2 < after.chains@[c2].len()
                && #[trigger] after.chains@[c1][j1] == #[trigger] after.chains@[c2][j2] implies c1
            == c2 && j1 == j2 by {
            let k1 = if c1 == c {
                j1 - 1
            } else {
                j1
            };
            let k2 = if c2 == c {
                j2 - 1
            } else {
                j2
            };
            if k1 >= 0 {
                assert(before.chains@[c1][k1] == after.chains@[c1][j1]);
                assert(before.chains@[c1].contains(after.chains@[c1][j1]));
            }
            if k2 >= 0 {
                assert(before.chains@[c2][k2] == after.chains@[c2][j2]);
                assert(before.chains@[c2].contains(after.chains@[c2][j2]));
            }
        }
    }
}

/// The number of threads that have not been given an index.
pub open spec fn starting<T>(threads: Seq<BuildThread<T>>) -> nat
    decreases threads.len(),
{
    if threads.len() == 0 {
        0
    } else {
        starting(threads.drop_last()) + (if threads.last().step is Start {
            1nat
        } else {
            0
        })
    }
}

proof fn lemma_starting_update<T>(threads: Seq<BuildThread<T>>, k: int, thread: BuildThread<T>)
    requires
        0 <= k < threads.len(),
    ensures
        starting(threads.update(k, thread)) == starting(threads) - (if threads[k].step is Start {
            1int
        } else {
            0
        }) + (if thread.step is Start {
            1int
        } else {
            0
        }),
    decreases threads.len(),
{
    let updated = threads.update(k, thread);
    if k == threads.len() - 1 {
        assert(updated.drop_last() =~= threads.drop_last());
    } else {
        lemma_starting_update(threads.drop_last(), k, thread);
        assert(updated.drop_last() =~= threads.drop_last().update(k, thread));
    }
}

proof fn lemma_starting_positive<T>(threads: Seq<BuildThread<T>>, k: int)
    requires
        0 <= k < threads.len(),
        threads[k].step is Start,
    ensures
        starting(threads) >= 1,
    decreases threads.len(),
{
    if k < threads.len() - 1 {
        lemma_starting_positive(threads.drop_last(), k);
    }
}

/// What holds of a grid and of the threads that are storing points in it, whatever steps were
/// taken: no two threads have the same index, a thread that is done has its point in place, and
/// every counted point is in place or still in a thread's hands. There is room for all.
pub open spec fn in_flight<T>(grid: &HashGrid<T>, threads: Seq<BuildThread<T>>) -> bool {
    &&& grid.wf()
    &&& grid.cnt + starting(threads) <= grid.pos.len()
    &&& forall|t: int| 0 <= t < threads.len() ==> grid.admits(#[trigger] threads[t])
    &&& forall|t: int|
        0 <= t < threads.len() ==> ((#[trigger] threads[t]).step matches BuildStep::Done { data_idx }
            ==> grid.holds(threads[t], data_idx))
    &&& forall|t1: int, t2: int|
        0 <= t1 < threads.len() && 0 <= t2 < threads.len() && t1 != t2 ==> (
        #[trigger] threads[t1]).index() is None || threads[t1].index() != (
        #[trigger] threads[t2]).index()
    &&& forall|i: u32|
        i < grid.cnt ==> #[trigger] grid.is_placed(i) || exists|t: int|
            0 <= t < threads.len() && (#[trigger] threads[t]).pending() == Some(i)
}

/// A thread's step keeps all that, so every order of steps does.
proof fn lemma_step_keeps<T>(
    before: &HashGrid<T>,
    after: &HashGrid<T>,
    threads: Seq<BuildThread<T>>,
    k: int,
    thread: BuildThread<T>,
)
    requires
        in_flight(before, threads),
        0 <= k < threads.len(),
        after.wf(),
        after.admits(thread),
        after.state == before.state,
        after.pos.len() == before.pos.len(),
        after.cnt == before.cnt + (if threads[k].step is Start {
            1int
        } else {
            0
        }),
        thread.point == threads[k].point,
        thread.data == threads[k].data,
        match threads[k].step {
            BuildStep::Start => {
                &&& thread.step == (BuildStep::Counted { data_idx: before.cnt })
                &&& after.chains@ == before.chains@
                &&& after.pos@ == before.pos@
                &&& after.data@ == before.data@
            },
            BuildStep::Counted { data_idx } => {
                &&& thread.step is Observed
                &&& thread.index() == Some(data_idx)
                &&& *after == *before
            },
            BuildStep::Observed { data_idx, .. } => {
                let c = home(before.state, thread.point);
                ||| {
                    &&& thread.step == (BuildStep::Done { data_idx })
                    &&& after.chains@ == before.chains@.update(
                        c as int,
                        seq![data_idx] + before.chains@[c as int],
                    )
                    &&& after.pos@ == before.pos@.update(data_idx as int, thread.point)
                    &&& after.data@ == before.data@.update(data_idx as int, thread.data)
                }
                ||| {
                    &&& thread.step == (BuildStep::Counted { data_idx })
                    &&& *after == *before
                }
            },
            BuildStep::Done { .. } => thread == threads[k] && *after == *before,
        },
    ensures
        in_flight(after, threads.update(k, thread)),
{
    let now = threads.update(k, thread);
    lemma_starting_update(threads, k, thread);
    lemma_home_in_range(before, thread.point);
    assert forall|i: u32| i < before.cnt && before.is_placed(i) && threads[k].pending() != Some(
        i,
    ) implies after.is_placed(i) by {
        lemma_home_in_range(before, before.pos@[i as int]);
        let c = home(before.state, before.pos@[i as int]) as int;
        let j = before.chains@[c].index_of(i);
        assert(before.chains@[c][j] == i);
        if after.chains@[c] != before.chains@[c] {
            assert(after.chains@[c][j + 1] == i);
        }
    }
    if threads[k].step is Observed && thread.step is Done {
        let i = thread.index()->0;
        let c = home(before.state, thread.point) as int;
        assert(after.chains@[c][0] == i);
        assert(after.is_placed(i));
        assert(before.is_linked(i) || !before.is_linked(i));
    }
    assert forall|t: int| 0 <= t < now.len() implies after.admits(#[trigger] now[t]) by {
        if t != k {
            assert(before.admits(threads[t]));
            if threads[t].pending() is Some {
                let i = threads[t].pending()->0;
                assert(threads[t].index() == Some(i));
                if after.is_linked(i) {
                    let c = choose|c: int|
                        0 <= c < after.chains@.len() && (#[trigger] after.chains@[c]).contains(i);
                    let j = after.chains@[c].index_of(i);
                    if after.chains@[c] != before.chains@[c] {
                        assert(after.chains@[c][j] == i);
                        assert(threads[k].index() != threads[t].index());
                        assert(j > 0);
                        assert(before.chains@[c][j - 1] == i);
                    }
                    assert(before.chains@[c].contains(i));
                    assert(before.is_linked(i));
                }
            }
        }
    }
    assert forall|t: int| 0 <= t < now.len() implies ((#[trigger] now[t]).step matches BuildStep::Done {
        data_idx,
    } ==> after.holds(now[t], data_idx)) by {
        if t != k {
            if threads[t].step is Done {
                let i = threads[t].index()->0;
                assert(before.holds(threads[t], i));
                assert(threads[k].pending() != Some(i)) by {
                    if threads[k].pending() is Some {
                        assert(threads[k].index() == threads[k].pending());
                    }
                }
            }
        } else {
            assert(threads[k].step is Done ==> before.holds(threads[k], threads[k].index()->0));
        }
    }
    assert forall|t1: int, t2: int|
        0 <= t1 < now.len() && 0 <= t2 < now.len() && t1 != t2 implies (
    #[trigger] now[t1]).index() is None || now[t1].index() != (#[trigger] now[t2]).index() by {
        assert(threads[t1].index() is None || threads[t1].index() != threads[t2].index());
        assert(threads[t2].index() is None || threads[t2].index() != threads[t1].index());
        if t1 == k && threads[k].step is Start {
            lemma_index_counted(before, threads, t2);
        }
        if t2 == k && threads[k].step is Start {
            lemma_index_counted(before, threads, t1);
        }
    }
    assert forall|i: u32| i < after.cnt implies #[trigger] after.is_placed(i) || exists|t: int|
        0 <= t < now.len() && (#[trigger] now[t]).pending() == Some(i) by {
        if i == before.cnt {
            assert(now[k].pending() == Some(i));
        } else if threads[k].pending() == Some(i) {
            if thread.pending() is Some {
                assert(now[k].pending() == Some(i));
            }
        } else if !before.is_placed(i) {
            let t = choose|t: int|
                0 <= t < threads.len() && (#[trigger] threads[t]).pending() == Some(i);
            assert(now[t].pending() == Some(i));
        }
    }
}

proof fn lemma_index_counted<T>(grid: &HashGrid<T>, threads: Seq<BuildThread<T>>, t: int)
    requires
        in_flight(grid, threads),
        0 <= t < threads.len(),
    ensures
        threads[t].index() matches Some(i) ==> i < grid.cnt,
{
    assert(grid.admits(threads[t]));
    assert(threads[t].step matches BuildStep::Done { data_idx } ==> grid.holds(
        threads[t],
        data_idx,
    ));
}

proof fn lemma_home_in_range<T>(grid: &HashGrid<T>, p: GridPoint)
    requires
        grid.links_ok(),
    ensures
        home(grid.state, p) < grid.chains@.len(),
{
    let h = hash_spec(cell_spec(grid.state, p));
    let m = grid.state.hash_table_size as u64;
    assert(h % m < m);
}

impl<T: Copy> HashGrid<T> {
    /// Stores one point, as a thread that no other disturbs does, and gives its index.
    pub fn build_kernel(&mut self, point: GridPoint, data: T) -> (data_idx: u32)
        requires
            old(self).links_ok(),
            old(self).has_room(),
        ensures
            data_idx == old(self).cnt,
            final(self).links_ok(),
            old(self).wf() ==> final(self).wf(),
            final(self).state == old(self).state,
            final(self).cnt == old(self).cnt + 1,
            final(self).pos@ == old(self).pos@.update(data_idx as int, point),
            final(self).data@ == old(self).data@.update(data_idx as int, data),
            final(self).chains@ == old(self).chains@.update(
                home(old(self).state, point) as int,
                seq![data_idx] + old(self).chains@[home(old(self).state, point) as int],
            ),
            final(self).next@ == old(self).next@.update(
                data_idx as int,
                old(self).cell_head@[home(old(self).state, point) as int],
            ),
            final(self).cell_head@ == old(self).cell_head@.update(
                home(old(self).state, point) as int,
                data_idx,
            ),
            old(self).built() ==> final(self).built(),
    {
        let data_idx: u32 = self.cnt;
        let mut thread = BuildThread { point, data, step: BuildStep::Start };
        let ghost g0 = *self;
        let ghost t0 = thread;
        self.build_step(&mut thread);
        let ghost g1 = *self;
        let ghost t1 = thread;
        self.build_step(&mut thread);
        let ghost g2 = *self;
        let ghost t2 = thread;
        self.build_step(&mut thread);
        proof {
            if g0.built() {
                assert(starting(seq![t0].drop_last()) == 0);
                assert(in_flight(&g0, seq![t0]));
                lemma_step_keeps(&g0, &g1, seq![t0], 0, t1);
                assert(seq![t0].update(0, t1) =~= seq![t1]);
                lemma_step_keeps(&g1, &g2, seq![t1], 0, t2);
                assert(seq![t1].update(0, t2) =~= seq![t2]);
                lemma_step_keeps(&g2, self, seq![t2], 0, thread);
                assert(seq![t2].update(0, thread) =~= seq![thread]);
            }
        }
        data_idx
    }

    /// Lets the threads take their steps in the order of the schedule. Whatever that order is,
    /// the grid and the threads stay in order.
    pub fn build_interleaved(&mut self, threads: &mut Vec<BuildThread<T>>, schedule: &Vec<usize>)
        requires
            in_flight(&*old(self), old(threads)@),
            forall|n: int| 0 <= n < schedule@.len() ==> (#[trigger] schedule@[n]) < old(threads).len(),
        ensures
            (final(self).tables(), final(threads)@) == tables_after(
                old(self).tables(),
                old(threads)@,
                schedule@,
                schedule@.len(),
            ),
            in_flight(&*final(self), final(threads)@),
            final(self).cnt + starting(final(threads)@) == old(self).cnt + starting(old(threads)@),
            final(threads).len() == old(threads).len(),
            final(self).state == old(self).state,
            final(self).pos.len() == old(self).pos.len(),
            forall|t: int|
                0 <= t < final(threads)@.len() ==> (#[trigger] final(threads)@[t]).point == old(
                    threads,
                )@[t].point && final(threads)@[t].data == old(threads)@[t].data,
    {
        let mut n: usize = 0;
        while n < schedule.len()
            invariant
                n <= schedule.len(),
                (self.tables(), threads@) == tables_after(
                    old(self).tables(),
                    old(threads)@,
                    schedule@,
                    n as nat,
                ),
                in_flight(&*self, threads@),
                self.cnt + starting(threads@) == old(self).cnt + starting(old(threads)@),
                threads.len() == old(threads).len(),
                self.state == old(self).state,
                self.pos.len() == old(self).pos.len(),
                forall|m: int| 0 <= m < schedule@.len() ==> (#[trigger] schedule@[m]) < threads.len(),
                forall|t: int|
                    0 <= t < threads@.len() ==> (#[trigger] threads@[t]).point == old(
                        threads,
                    )@[t].point && threads@[t].data == old(threads)@[t].data,
            decreases schedule.len() - n,
        {
            let k: usize = schedule[n];
            let mut thread = BuildThread {
                point: threads[k].point,
                data: threads[k].data,
                step: threads[k].step,
            };
            let ghost g = *self;
            let ghost ts = threads@;
            proof {
                assert(self.admits(threads@[k as int]));
                assert(thread == threads@[k as int]);
                if thread.step is Start {
                    lemma_starting_positive(threads@, k as int);
                    lemma_next_index_is_free(&*self);
                }
            }
            self.build_step(&mut thread);
            proof {
                lemma_step_keeps(&g, self, ts, k as int, thread);
                lemma_starting_update(ts, k as int, thread);
            }
            threads.set(k, thread);
            n += 1;
        }
    }
}

/// What [`HashGrid::sanity_check`] found.
pub struct SanityReport {
    /// The points that were not met in the chain of their cell, in order.
    pub missing: Vec<u32>,
    /// The number of entries of all chains.
    pub counted: u32,
    /// There are as many entries as points were counted. A grid of which this does not hold is
    /// broken.
    pub consistent: bool,
}

impl<T: Copy> HashGrid<T> {
    /// Walks the chain of the cell that `point` falls into until it meets a point that `coincide`
    /// takes for it.
    fn is_found<F: Fn(Float3, Float3) -> bool>(&self, point: GridPoint, coincide: &F) -> (found:
        bool)
        requires
            self.links_ok(),
            forall|a: Float3, b: Float3| call_requires(*coincide, (a, b)),
        ensures
            found ==> exists|j: int|
                0 <= j < self.chains@[home(self.state, point) as int].len()
                    && call_ensures(
                    *coincide,
                    (
                        point.p,
                        self.pos@[(
                        #[trigger] self.chains@[home(self.state, point) as int][j]) as int].p,
                    ),
                    true,
                ),
            !found ==> forall|j: int|
                0 <= j < self.chains@[home(self.state, point) as int].len()
                    ==> call_ensures(
                    *coincide,
                    (
                        point.p,
                        self.pos@[(
                        #[trigger] self.chains@[home(self.state, point) as int][j]) as int].p,
                    ),
                    false,
                ),
    {
        let cell_idx: u32 = self.home_of(point);
        let ghost chain = self.chains@[cell_idx as int];
        let ghost mut j: int = 0;
        let mut idx: u32 = self.cell_head[cell_idx as usize];
        while idx != NONE
            invariant
                self.next.len() == self.pos.len(),
                self.next.len() <= NONE,
                forall|a: Float3, b: Float3| call_requires(*coincide, (a, b)),
                chain == self.chains@[home(self.state, point) as int],
                linked(self.next@, self.cell_head@[cell_idx as int], chain),
                0 <= j <= chain.len(),
                idx == (if j < chain.len() {
                    chain[j]
                } else {
                    NONE
                }),
                forall|m: int|
                    0 <= m < j ==> call_ensures(
                        *coincide,
                        (point.p, self.pos@[(#[trigger] chain[m]) as int].p),
                        false,
                    ),
            decreases chain.len() - j,
        {
            if coincide(point.p, self.pos[idx as usize].p) {
                assert(chain[j] == idx);
                return true;
            }
            idx = self.next[idx as usize];
            proof {
                j = j + 1;
            }
        }
        proof {
            if j < chain.len() {
                assert(chain[j] < self.next.len());
            }
        }
        false
    }

    fn chain_len(&self, cell_idx: u32) -> (n: u32)
        requires
            self.links_ok(),
            cell_idx < self.cell_head.len(),
            self.chains@[cell_idx as int].len() <= u32::MAX,
        ensures
            n == self.chains@[cell_idx as int].len(),
    {
        let ghost chain = self.chains@[cell_idx as int];
        let mut n: u32 = 0;
        let mut idx: u32 = self.cell_head[cell_idx as usize];
        while idx != NONE
            invariant
                self.next.len() <= NONE,
                chain.len() <= u32::MAX,
                linked(self.next@, self.cell_head@[cell_idx as int], chain),
                0 <= n <= chain.len(),
                idx == (if n < chain.len() {
                    chain[n as int]
                } else {
                    NONE
                }),
            decreases chain.len() - n,
        {
            n = n + 1;
            idx = self.next[idx as usize];
        }
        proof {
            if n < chain.len() {
                assert(chain[n as int] < self.next.len());
            }
        }
        n
    }

    /// Looks for every counted point in the chain of its cell, and counts the entries of all
    /// chains. `points` has the counted points, each with the place where it lies in the grid as
    /// the grid extends now; `coincide` says whether two points of space lie at no distance.
    pub fn sanity_check<F: Fn(Float3, Float3) -> bool>(
        &self,
        points: &Vec<GridPoint>,
        coincide: F,
    ) -> (report: SanityReport)
        requires
            self.links_ok(),
            self.cnt <= self.pos.len(),
            points.len() == self.cnt,
            forall|i: int|
                0 <= i < points.len() ==> (#[trigger] points@[i]).p == self.pos@[i].p,
            forall|a: Float3, b: Float3| call_requires(coincide, (a, b)),
        ensures
            report.counted == total_len(self.chains@),
            report.consistent == (total_len(self.chains@) == self.cnt),
            forall|i: int, j: int|
                0 <= i < j < report.missing@.len() ==> (#[trigger] report.missing@[i]) < (
                #[trigger] report.missing@[j]),
            forall|tid: u32| #[trigger]
                report.missing@.contains(tid) ==> tid < self.cnt && forall|j: int|
                    0 <= j < self.chains@[home(self.state, points@[tid as int]) as int].len()
                        ==> call_ensures(
                        coincide,
                        (
                            points@[tid as int].p,
                            self.pos@[(#[trigger] self.chains@[home(self.state, points@[tid as int]) as int][j]) as int].p,
                        ),
                        false,
                    ),
            forall|tid: u32|
                tid < self.cnt && !(#[trigger] report.missing@.contains(tid)) ==> exists|j: int|
                    0 <= j < self.chains@[home(self.state, points@[tid as int]) as int].len()
                        && call_ensures(
                        coincide,
                        (
                            points@[tid as int].p,
                            self.pos@[(#[trigger] self.chains@[home(self.state, points@[tid as int]) as int][j]) as int].p,
                        ),
                        true,
                    ),
            self.built() ==> report.consistent,
    {
        let mut missing: Vec<u32> = Vec::new();
        let mut tid: u32 = 0;
        while tid < self.cnt
            invariant
                tid <= self.cnt,
                points.len() == self.cnt,
                self.links_ok(),
                self.cnt <= self.pos.len(),
                forall|a: Float3, b: Float3| call_requires(coincide, (a, b)),
                forall|i: int, j: int|
                    0 <= i < j < missing@.len() ==> (#[trigger] missing@[i]) < (
                    #[trigger] missing@[j]),
                forall|i: int| 0 <= i < missing@.len() ==> (#[trigger] missing@[i]) < tid,
                forall|t: u32| #[trigger]
                    missing@.contains(t) ==> t < self.cnt && forall|j: int|
                        0 <= j < self.chains@[home(self.state, points@[t as int]) as int].len()
                            ==> call_ensures(
                            coincide,
                            (
                                points@[t as int].p,
                                self.pos@[(#[trigger] self.chains@[home(self.state, points@[t as int]) as int][j]) as int].p,
                            ),
                            false,
                        ),
                forall|t: u32|
                    t < tid && !(#[trigger] missing@.contains(t)) ==> exists|j: int|
                        0 <= j < self.chains@[home(self.state, points@[t as int]) as int].len()
                            && call_ensures(
                            coincide,
                            (
                                points@[t as int].p,
                                self.pos@[(#[trigger] self.chains@[home(self.state, points@[t as int]) as int][j]) as int].p,
                            ),
                            true,
                        ),
            decreases self.cnt - tid,
        {
            let ghost before = missing@;
            if !self.is_found(points[tid as usize], &coincide) {
                missing.push(tid);
            }
            proof {
                assert forall|t: u32| #[trigger] missing@.contains(t) implies before.contains(t) || (t
                    == tid && missing@ == before.push(tid)) by {
                    let k = missing@.index_of(t);
                    if k < before.len() {
                        assert(before[k] == t);
                    }
                }
                assert forall|t: u32| before.contains(t) implies #[trigger] missing@.contains(t) by {
                    let k = before.index_of(t);
                    assert(missing@[k] == t);
                }
                if missing@ != before {
                    assert(missing@[before.len() as int] == tid);
                }
            }
            tid += 1;
        }
        proof {
            lemma_flat(self.chains@);
            assert forall|k: int| 0 <= k < flat(self.chains@).len() implies (#[trigger] flat(
                self.chains@,
            )[k]) < self.pos.len() by {
                let x = flat(self.chains@)[k];
                assert(flat(self.chains@).contains(x));
                let c = choose|c: int|
                    0 <= c < self.chains@.len() && (#[trigger] self.chains@[c]).contains(x);
                assert(linked(self.next@, self.cell_head@[c], self.chains@[c]));
            }
            lemma_pigeonhole(flat(self.chains@), self.pos.len() as u32);
            if self.built() {
                law_entries_are_points(self);
            }
        }
        let n: u32 = self.cell_head.len() as u32;
        let mut counted: u32 = 0;
        let mut c: u32 = 0;
        assert(self.chains@.take(0) =~= Seq::<Seq<u32>>::empty());
        while c < n
            invariant
                c <= n,
                n == self.cell_head.len(),
                self.links_ok(),
                total_len(self.chains@) <= u32::MAX,
                counted == total_len(self.chains@.take(c as int)),
            decreases n - c,
        {
            proof {
                assert(self.chains@.take(c + 1).drop_last() =~= self.chains@.take(c as int));
                lemma_total_prefix(self.chains@, c + 1);
            }
            counted = counted + self.chain_len(c);
            c += 1;
        }
        assert(self.chains@.take(n as int) =~= self.chains@);
        SanityReport { missing, counted, consistent: counted == self.cnt }
    }
}

proof fn lemma_total_prefix(chains: Seq<Seq<u32>>, n: int)
    requires
        0 <= n <= chains.len(),
    ensures
        total_len(chains.take(n)) <= total_len(chains),
    decreases chains.len() - n,
{
    if n < chains.len() {
        lemma_total_prefix(chains, n + 1);
        assert(chains.take(n + 1).drop_last() =~= chains.take(n));
    } else {
        assert(chains.take(n) =~= chains);
    }
}

/// Every step keeps the number of points that were counted and of threads that have yet to be
/// given an index.
proof fn lemma_count_is_kept<T>(
    tables: GridTables<T>,
    threads: Seq<BuildThread<T>>,
    schedule: Seq<usize>,
    n: nat,
)
    requires
        n <= schedule.len(),
        tables.cnt + starting(threads) <= u32::MAX,
        forall|m: int| 0 <= m < schedule.len() ==> (#[trigger] schedule[m]) < threads.len(),
    ensures
        ({
            let (after, now) = tables_after(tables, threads, schedule, n);
            &&& now.len() == threads.len()
            &&& after.cnt + starting(now) == tables.cnt + starting(threads)
        }),
    decreases n,
{
    if n > 0 {
        lemma_count_is_kept(tables, threads, schedule, (n - 1) as nat);
        let (after, now) = tables_after(tables, threads, schedule, (n - 1) as nat);
        let k = schedule[n - 1] as int;
        lemma_starting_update(now, k, step_spec(after, now[k]).1);
        if now[k].step is Start {
            lemma_starting_positive(now, k);
        }
    }
}

proof fn lemma_all_starting<T>(threads: Seq<BuildThread<T>>)
    ensures
        (forall|t: int| 0 <= t < threads.len() ==> (#[trigger] threads[t]).step is Start)
            ==> starting(threads) == threads.len(),
        (forall|t: int| 0 <= t < threads.len() ==> (#[trigger] threads[t]).step !is Start)
            ==> starting(threads) == 0,
    decreases threads.len(),
{
    if threads.len() > 0 {
        let less = threads.drop_last();
        lemma_all_starting(less);
        assert(forall|t: int| 0 <= t < less.len() ==> #[trigger] less[t] == threads[t]);
        assert(threads.last() == threads[threads.len() - 1]);
    }
}

/// When every thread is done, in whatever order they went, the grid is complete, each thread's
/// point is in the chain of its cell under an index of its own, and the grid has grown by as many
/// points as there are threads.
pub proof fn law_any_order_builds<T>(
    before: &HashGrid<T>,
    begun: Seq<BuildThread<T>>,
    schedule: Seq<usize>,
    grid: &HashGrid<T>,
    threads: Seq<BuildThread<T>>,
)
    requires
        in_flight(before, begun),
        forall|t: int| 0 <= t < begun.len() ==> (#[trigger] begun[t]).step is Start,
        forall|m: int| 0 <= m < schedule.len() ==> (#[trigger] schedule[m]) < begun.len(),
        (grid.tables(), threads) == tables_after(before.tables(), begun, schedule, schedule.len()),
        in_flight(grid, threads),
        forall|t: int| 0 <= t < threads.len() ==> (#[trigger] threads[t]).step is Done,
    ensures
        grid.built(),
        threads.len() == begun.len(),
        grid.cnt == before.cnt + begun.len(),
        forall|t: int|
            0 <= t < threads.len() ==> grid.holds(
                #[trigger] threads[t],
                threads[t].index()->0,
            ),
        forall|t1: int, t2: int|
            0 <= t1 < threads.len() && 0 <= t2 < threads.len() && t1 != t2 ==> (
            #[trigger] threads[t1]).index() != (#[trigger] threads[t2]).index(),
{
    lemma_all_starting(begun);
    lemma_all_starting(threads);
    lemma_count_is_kept(before.tables(), begun, schedule, schedule.len());
    assert forall|i: u32| i < grid.cnt implies #[trigger] grid.is_placed(i) by {
        if !grid.is_placed(i) {
            let t = choose|t: int|
                0 <= t < threads.len() && (#[trigger] threads[t]).pending() == Some(i);
            assert(threads[t].step is Done);
        }
    }
}

/// The memory that a grid takes depends on how many points and chains it has room for, and on
/// nothing else.
pub proof fn law_memory_is_that_of_the_tables<T: Copy>(grid: &HashGrid<T>, layout: GridLayout)
    requires
        grid.links_ok(),
    ensures
        grid.mem_usage_spec(layout) == grid.state.point_count * (layout.point + layout.data + 4) + 4
            * grid.state.hash_table_size + layout.state + 4,
{
    let (n, p, d) = (grid.state.point_count as int, layout.point as int, layout.data as int);
    assert(n * p + n * d + n * 4 == n * (p + d + 4)) by (nonlinear_arith);
}

/// A chain of a complete grid holds exactly the points whose cell it serves, each once.
pub proof fn law_chain_contents<T>(grid: &HashGrid<T>, c: u32)
    requires
        grid.built(),
        c < grid.chains@.len(),
    ensures
        grid.chains@[c as int].no_duplicates(),
        forall|i: u32| #[trigger]
            grid.chains@[c as int].contains(i) <==> i < grid.cnt && home(
                grid.state,
                grid.pos@[i as int],
            ) == c,
{
    let chain = grid.chains@[c as int];
    assert(chain.no_duplicates()) by {
        reveal(distinct);
    }
    assert forall|i: u32| #[trigger] chain.contains(i) <==> i < grid.cnt && home(
        grid.state,
        grid.pos@[i as int],
    ) == c by {
        if chain.contains(i) {
            let j = chain.index_of(i);
            assert(grid.chains@[c as int][j] == i);
        }
        if i < grid.cnt && home(grid.state, grid.pos@[i as int]) == c {
            assert(grid.is_placed(i));
        }
    }
}

/// A complete grid has as many chain entries as points.
pub proof fn law_entries_are_points<T>(grid: &HashGrid<T>)
    requires
        grid.built(),
    ensures
        total_len(grid.chains@) == grid.cnt,
{
    lemma_flat(grid.chains@);
    let all = flat(grid.chains@);
    assert forall|k: int| 0 <= k < all.len() implies (#[trigger] all[k]) < grid.cnt by {
        assert(all.contains(all[k]));
        let c = choose|c: int|
            0 <= c < grid.chains@.len() && (#[trigger] grid.chains@[c]).contains(all[k]);
        let j = grid.chains@[c].index_of(all[k]);
        assert(grid.chains@[c][j] == all[k]);
    }
    assert forall|x: u32| x < grid.cnt implies #[trigger] all.contains(x) by {
        assert(grid.is_placed(x));
        lemma_home_in_range(grid, grid.pos@[x as int]);
    }
    lemma_pigeonhole(all, grid.cnt);
}

/// The two cells touch: no coordinate differs by more than one.
pub open spec fn touching(a: Uint3, b: Uint3) -> bool {
    &&& -1 <= a.x - b.x <= 1
    &&& -1 <= a.y - b.y <= 1
    &&& -1 <= a.z - b.z <= 1
}

/// The grid has cells along every axis, as many as a signed number can hold.
pub open spec fn has_cells(state: GridState) -> bool {
    &&& 1 <= state.res.x <= i32::MAX
    &&& 1 <= state.res.y <= i32::MAX
    &&& 1 <= state.res.z <= i32::MAX
}

proof fn lemma_visits_contain(
    state: GridState,
    chains: Seq<Seq<u32>>,
    cell: Uint3,
    n: nat,
    k: int,
    x: u32,
)
    requires
        0 <= k < n,
        visits_of(state, chains, cell, k).contains(x),
    ensures
        visits_upto(state, chains, cell, n).contains(x),
    decreases n,
{
    let before = visits_upto(state, chains, cell, (n - 1) as nat);
    let last = visits_of(state, chains, cell, n - 1);
    let all = visits_upto(state, chains, cell, n);
    if k == n - 1 {
        let j = last.index_of(x);
        assert(all[before.len() + j] == x);
    } else {
        lemma_visits_contain(state, chains, cell, (n - 1) as nat, k, x);
        let j = before.index_of(x);
        assert(all[j] == x);
    }
}

/// A query of a complete grid misses no point near it: every point whose cell touches the cell
/// of the query is met.
pub proof fn law_query_is_complete<T>(grid: &HashGrid<T>, p: GridPoint, i: u32)
    requires
        grid.built(),
        has_cells(grid.state),
        i < grid.cnt,
        touching(cell_spec(grid.state, grid.pos@[i as int]), cell_spec(grid.state, p)),
    ensures
        grid.visits(p).contains(i),
{
    let here = cell_spec(grid.state, p);
    let there = cell_spec(grid.state, grid.pos@[i as int]);
    let dx = there.x - here.x;
    let dy = there.y - here.y;
    let dz = there.z - here.z;
    let k = (dz + 1) * 9 + (dy + 1) * 3 + (dx + 1);
    assert(step_x(k) == dx && step_y(k) == dy && step_z(k) == dz && 0 <= k < 27) by {
        assert(k / 9 == dz + 1);
        assert(k / 3 == (dz + 1) * 3 + (dy + 1));
    }
    assert(neighbor_cell(here, k) == there);
    assert(neighbor_in(grid.state, here, k));
    assert(grid.is_placed(i));
    lemma_visits_contain(grid.state, grid.chains@, here, 27, k, i);
}

/// A query meets stored points only, and each of them shares its chain with a cell around the
/// query.
pub proof fn law_query_is_sound<T>(grid: &HashGrid<T>, p: GridPoint, j: int)
    requires
        grid.built(),
        0 <= j < grid.visits(p).len(),
    ensures
        grid.visits(p)[j] < grid.cnt,
        exists|k: int|
            0 <= k < 27 && #[trigger] neighbor_in(grid.state, cell_spec(grid.state, p), k) && home(
                grid.state,
                grid.pos@[grid.visits(p)[j] as int],
            ) == index_spec(grid.state, neighbor_cell(cell_spec(grid.state, p), k)),
{
    let here = cell_spec(grid.state, p);
    lemma_visit_origin(grid.state, grid.chains@, here, 27, j);
    let x = grid.visits(p)[j];
    let k = choose|k: int|
        0 <= k < 27 && (#[trigger] visits_of(grid.state, grid.chains@, here, k)).contains(x);
    let c = index_spec(grid.state, neighbor_cell(here, k)) as int;
    let h = hash_spec(neighbor_cell(here, k));
    let m = grid.state.hash_table_size as u64;
    assert(h % m < m);
    let at = grid.chains@[c].index_of(x);
    assert(grid.chains@[c][at] == x);
    assert(neighbor_in(grid.state, here, k));
}

proof fn lemma_visit_origin(
    state: GridState,
    chains: Seq<Seq<u32>>,
    cell: Uint3,
    n: nat,
    j: int,
)
    requires
        0 <= j < visits_upto(state, chains, cell, n).len(),
    ensures
        exists|k: int|
            0 <= k < n && (#[trigger] visits_of(state, chains, cell, k)).contains(
                visits_upto(state, chains, cell, n)[j],
            ),
    decreases n,
{
    let before = visits_upto(state, chains, cell, (n - 1) as nat);
    let last = visits_of(state, chains, cell, n - 1);
    let all = visits_upto(state, chains, cell, n);
    if j < before.len() {
        lemma_visit_origin(state, chains, cell, (n - 1) as nat, j);
        let k = choose|k: int|
            0 <= k < n - 1 && (#[trigger] visits_of(state, chains, cell, k)).contains(before[j]);
        assert(visits_of(state, chains, cell, k).contains(all[j]));
    } else {
        assert(last[j - before.len()] == all[j]);
        assert(visits_of(state, chains, cell, n - 1).contains(all[j]));
    }
}

} // verus!
