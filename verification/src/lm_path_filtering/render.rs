//! Planning a rendering, and running it depth by depth.
//!
//! In each repetition all paths are traced first. Then the depths are taken from the last to the
//! first: the vertices are entered into the grid, clustered and filtered in batches, and what they
//! send out is handed to the depth above. The device runs the kernels and reports counts;
//! [`FilterLoop`] decides what runs next.
use super::{Config, PathFiltering};
use crate::expr::Scalar;
use crate::hash_grid::GridLayout;
use crate::value::{Float3, Single, Uint2};
use vstd::prelude::*;

verus! {

/// The number of chains of the grid.
pub const HASH_SIZE: usize = 67_108_864;

/// The number of neighbours for a depth: that of the list, and its last one where it ends.
pub open spec fn reuse_at(config: Config, depth: int) -> u32 {
    if 0 <= depth < config.reuse.len() {
        config.reuse@[depth]
    } else {
        config.reuse@.last()
    }
}

/// The radius for a depth: that of the list, and its last one where it ends.
pub open spec fn radius_at(config: Config, depth: int) -> Single {
    if 0 <= depth < config.radius_scale.len() {
        config.radius_scale@[depth]
    } else {
        config.radius_scale@.last()
    }
}

/// The bytes that one element of each buffer takes on the device.
#[derive(Clone, Copy, Debug, PartialEq, Eq, Structural)]
pub struct Layout {
    pub float3: usize,
    pub path_state: usize,
    pub vertex: usize,
    pub ray: usize,
    pub grid: GridLayout,
}

/// What a rendering takes.
#[derive(Clone, Copy, Debug, PartialEq, Eq, Structural)]
pub struct FilterPlan {
    pub n_pixels: u32,
    pub n_paths: u32,
    /// The length of the buffer for lists of neighbours.
    pub neighbor_len: usize,
    /// The memory of the device that is taken all the time, in bytes.
    pub base_vram: usize,
    /// What the rays take besides, while paths are traced.
    pub ray_bytes: usize,
    /// What the records take besides, while vertices are filtered.
    pub record_bytes: usize,
    /// What the grid takes besides, while vertices are filtered.
    pub grid_bytes: usize,
    /// The memory of the host that the vertices of all depths take.
    pub ram: usize,
}

pub open spec fn paths_of(config: Config, resolution: Uint2) -> int {
    resolution.x * resolution.y * config.branch
}

pub open spec fn neighbor_len_of(config: Config) -> int {
    config.vram * 1024 * 1024 / 4 + 1
}

pub open spec fn base_of(config: Config, resolution: Uint2, layout: Layout) -> int {
    8 + resolution.x * resolution.y * layout.float3 + paths_of(config, resolution)
        * layout.path_state + paths_of(config, resolution) * layout.vertex + (config.max_depth + 1)
        * 4 + 8 + neighbor_len_of(config) * 4
}

pub open spec fn rays_of(config: Config, resolution: Uint2, layout: Layout) -> int {
    paths_of(config, resolution) * layout.ray
}

pub open spec fn grid_of(config: Config, resolution: Uint2, layout: Layout) -> int {
    paths_of(config, resolution) * layout.grid.point + paths_of(config, resolution)
        * layout.grid.data + paths_of(config, resolution) * 4 + HASH_SIZE * 4 + layout.grid.state
        + 4
}

pub open spec fn ram_of(config: Config, resolution: Uint2, layout: Layout) -> int {
    paths_of(config, resolution) * layout.vertex * (config.max_depth + 1)
}

/// Every size of the plan can be held, and so can what is in use at once.
pub open spec fn plan_fits(config: Config, resolution: Uint2, layout: Layout) -> bool {
    &&& resolution.x * resolution.y <= u32::MAX
    &&& paths_of(config, resolution) <= u32::MAX
    &&& config.vram * 1024 * 1024 <= usize::MAX
    &&& base_of(config, resolution, layout) + rays_of(config, resolution, layout) <= usize::MAX
    &&& base_of(config, resolution, layout) + rays_of(config, resolution, layout) + grid_of(
        config,
        resolution,
        layout,
    ) <= usize::MAX
    &&& ram_of(config, resolution, layout) <= usize::MAX
}

/// The bytes of `n` elements.
fn bytes(n: u32, size: usize) -> (r: u128)
    ensures
        r == n * size,
        r <= 0x1_0000_0000_0000_0000_0000_0000,
{
    proof {
        assert(n * size <= 0x1_0000_0000 * 0x1_0000_0000_0000_0000) by (nonlinear_arith)
            requires
                n <= 0xffff_ffff,
                size <= 0xffff_ffff_ffff_ffff,
        ;
        assert(n * size >= 0) by (nonlinear_arith);
    }
    n as u128 * size as u128
}

/// One over the number of paths of a pixel.
pub open spec fn film_scale_spec(config: Config) -> Scalar {
    Scalar::one().over(Scalar::Count(config.branch))
}

impl PathFiltering {
    /// The number of neighbours for each depth.
    pub fn reuses_per_depth(&self) -> (r: Vec<u32>)
        requires
            self.config.reuse.len() > 0,
            self.config.max_depth < u32::MAX,
        ensures
            r@ == Seq::new((self.config.max_depth + 1) as nat, |d: int| reuse_at(self.config, d)),
    {
        let mut r: Vec<u32> = Vec::new();
        let n: u32 = self.config.max_depth + 1;
        let len: usize = self.config.reuse.len();
        let mut d: u32 = 0;
        while d < n
            invariant
                d <= n,
                n == self.config.max_depth + 1,
                len == self.config.reuse.len(),
                len > 0,
                r@ == Seq::new(d as nat, |k: int| reuse_at(self.config, k)),
            decreases n - d,
        {
            let reuse: u32 = if (d as usize) < len {
                self.config.reuse[d as usize]
            } else {
                self.config.reuse[len - 1]
            };
            r.push(reuse);
            d += 1;
            assert(r@ =~= Seq::new(d as nat, |k: int| reuse_at(self.config, k)));
        }
        r
    }

    /// What the light of a pixel is multiplied with: all paths through it add to it.
    pub fn film_scale(&self) -> (r: Scalar)
        ensures
            r == film_scale_spec(self.config),
    {
        Scalar::one().over(Scalar::Count(self.config.branch))
    }

    /// The radius for a depth, relative to the scene: that of the list, and its last one where it
    /// ends.
    pub fn radius_scale_at(&self, depth: u32) -> (r: Single)
        requires
            self.config.radius_scale.len() > 0,
        ensures
            r == radius_at(self.config, depth as int),
    {
        let len: usize = self.config.radius_scale.len();
        if (depth as usize) < len {
            self.config.radius_scale[depth as usize]
        } else {
            self.config.radius_scale[len - 1]
        }
    }

    /// The box that the grid covers: that of the configuration, or else that of the scene.
    pub fn scene_aabb(&self, scene: (Float3, Float3)) -> (r: (Float3, Float3))
        requires
            self.config.scene_bounds matches Some(bounds) ==> bounds.len() >= 2,
        ensures
            r == (match self.config.scene_bounds {
                Some(bounds) => (bounds@[0], bounds@[1]),
                None => scene,
            }),
    {
        match &self.config.scene_bounds {
            Some(bounds) => (bounds[0], bounds[1]),
            None => scene,
        }
    }

    /// The sizes of all buffers, and of what is in use at once, for a film of the given
    /// resolution; nothing where a size cannot be held.
    pub fn plan(&self, resolution: Uint2, film_resolution: Uint2, layout: Layout) -> (r: Option<
        FilterPlan,
    >)
        requires
            resolution == film_resolution,
        ensures
            r is Some <==> plan_fits(self.config, resolution, layout),
            r matches Some(plan) ==> {
                &&& plan.n_pixels == resolution.x * resolution.y
                &&& plan.n_paths == paths_of(self.config, resolution)
                &&& plan.neighbor_len == neighbor_len_of(self.config)
                &&& plan.base_vram == base_of(self.config, resolution, layout)
                &&& plan.ray_bytes == rays_of(self.config, resolution, layout)
                &&& plan.record_bytes == rays_of(self.config, resolution, layout)
                &&& plan.grid_bytes == grid_of(self.config, resolution, layout)
                &&& plan.ram == ram_of(self.config, resolution, layout)
            },
    {
        let limit: u128 = usize::MAX as u128;
        let n_pixels: u32 = match resolution.x.checked_mul(resolution.y) {
            Some(n) => n,
            None => {
                return None;
            },
        };
        let n_paths: u32 = match n_pixels.checked_mul(self.config.branch) {
            Some(n) => n,
            None => {
                return None;
            },
        };
        let lists: u128 = self.config.vram as u128 * 1024 * 1024;
        if lists > limit {
            return None;
        }
        let neighbor_len: u128 = lists / 4 + 1;
        let vertices: u128 = bytes(n_paths, layout.vertex);
        let base: u128 = 8 + bytes(n_pixels, layout.float3) + bytes(n_paths, layout.path_state)
            + vertices + (self.config.max_depth as u128 + 1) * 4 + 8 + neighbor_len * 4;
        let rays: u128 = bytes(n_paths, layout.ray);
        let grid: u128 = bytes(n_paths, layout.grid.point) + bytes(n_paths, layout.grid.data)
            + n_paths as u128 * 4 + HASH_SIZE as u128 * 4 + layout.grid.state as u128 + 4;
        if base + rays > limit || base + rays + grid > limit {
            return None;
        }
        proof {
            let m = self.config.max_depth + 1;
            assert(0 <= vertices * m <= 0x1_0000_0000_0000_0000 * 0x1_0000_0000) by (
            nonlinear_arith)
                requires
                    0 <= vertices <= 0x1_0000_0000_0000_0000,
                    0 <= m <= 0x1_0000_0000,
            ;
        }
        let ram: u128 = vertices * (self.config.max_depth as u128 + 1);
        if ram > limit {
            return None;
        }
        Some(
            FilterPlan {
                n_pixels,
                n_paths,
                neighbor_len: neighbor_len as usize,
                base_vram: base as usize,
                ray_bytes: rays as usize,
                record_bytes: rays as usize,
                grid_bytes: grid as usize,
                ram: ram as usize,
            },
        )
    }
}

/// The number of vertices that can be filtered at once, before it is cut to 32 bits.
pub open spec fn batch_quotient(config: Config, max_reuse: u32) -> int {
    let q = config.vram * 1024 * 1024 / (max_reuse * 4);
    if q < 1 {
        1
    } else {
        q
    }
}

/// The number of vertices of a batch: as many as the buffer has lists of neighbours for.
pub open spec fn batch_spec(config: Config, max_reuse: u32) -> Option<u32> {
    let size = batch_quotient(config, max_reuse) % 0x1_0000_0000;
    if max_reuse == 0 || size == 0 || size * max_reuse > u32::MAX || size * max_reuse
        > neighbor_len_of(config) % 0x1_0000_0000 {
        None
    } else {
        Some(size as u32)
    }
}

impl PathFiltering {
    /// The number of vertices of a batch, where there is one for which the lists of neighbours
    /// have room.
    pub fn batch_size(&self, max_reuse: u32) -> (r: Option<u32>)
        requires
            self.config.vram * 1024 * 1024 <= usize::MAX,
            max_reuse * 4 <= usize::MAX,
        ensures
            r == batch_spec(self.config, max_reuse),
    {
        if max_reuse == 0 {
            return None;
        }
        let lists: usize = self.config.vram * 1024 * 1024;
        let q: usize = lists / (max_reuse as usize * 4);
        let q: u64 = if q < 1 {
            1
        } else {
            q as u64
        };
        let size: u32 = (q % 0x1_0000_0000) as u32;
        let len: u64 = (lists / 4) as u64 + 1;
        let room: u32 = (len % 0x1_0000_0000) as u32;
        proof {
            assert(size * max_reuse >= 0) by (nonlinear_arith);
        }
        if size == 0 {
            return None;
        }
        match size.checked_mul(max_reuse) {
            Some(all) => {
                if all <= room {
                    Some(size)
                } else {
                    None
                }
            },
            None => None,
        }
    }

    /// The number of vertices of a batch for each depth.
    pub fn batch_sizes(&self, reuses: &Vec<u32>) -> (r: Option<Vec<u32>>)
        requires
            self.config.vram * 1024 * 1024 <= usize::MAX,
            forall|d: int| 0 <= d < reuses.len() ==> #[trigger] reuses@[d] * 4 <= usize::MAX,
        ensures
            r is Some <==> forall|d: int|
                0 <= d < reuses.len() ==> batch_spec(self.config, #[trigger] reuses@[d]) is Some,
            r matches Some(sizes) ==> {
                &&& sizes.len() == reuses.len()
                &&& forall|d: int|
                    0 <= d < reuses.len() ==> batch_spec(self.config, #[trigger] reuses@[d]) == Some(
                        sizes@[d],
                    )
            },
    {
        let mut sizes: Vec<u32> = Vec::new();
        let mut d: usize = 0;
        while d < reuses.len()
            invariant
                d <= reuses.len(),
                self.config.vram * 1024 * 1024 <= usize::MAX,
                forall|k: int| 0 <= k < reuses.len() ==> #[trigger] reuses@[k] * 4 <= usize::MAX,
                sizes.len() == d,
                forall|k: int|
                    0 <= k < d ==> batch_spec(self.config, #[trigger] reuses@[k]) == Some(sizes@[k]),
            decreases reuses.len() - d,
        {
            match self.batch_size(reuses[d]) {
                Some(size) => {
                    sizes.push(size);
                },
                None => {
                    return None;
                },
            }
            d += 1;
        }
        Some(sizes)
    }
}

/// The threads of a batch keep their lists of neighbours apart, and within the buffer.
pub proof fn law_lists_fit(config: Config, max_reuse: u32, size: u32, tid: u32, other: u32)
    requires
        batch_spec(config, max_reuse) == Some(size),
        tid < other < size,
    ensures
        0 <= tid * max_reuse,
        (tid + 1) * max_reuse <= other * max_reuse,
        (other + 1) * max_reuse <= neighbor_len_of(config),
        (other + 1) * max_reuse <= u32::MAX,
{
    assert(0 <= tid * max_reuse) by (nonlinear_arith);
    assert((tid + 1) * max_reuse <= other * max_reuse) by (nonlinear_arith)
        requires
            tid + 1 <= other,
            max_reuse >= 0,
    ;
    assert((other + 1) * max_reuse <= size * max_reuse) by (nonlinear_arith)
        requires
            other + 1 <= size,
            max_reuse >= 0,
    ;
    let n = neighbor_len_of(config);
    assert(n % 0x1_0000_0000 <= n);
}

/// There is a size for the batches wherever one list of neighbours has room, and the buffer has
/// fewer places than 32 bits count.
pub proof fn law_batches_exist(config: Config, max_reuse: u32)
    requires
        0 < max_reuse < neighbor_len_of(config) < 0x1_0000_0000,
    ensures
        batch_spec(config, max_reuse) is Some,
{
    let lists = config.vram * 1024 * 1024;
    let m = max_reuse * 4;
    let q = lists / m;
    vstd::arithmetic::div_mod::lemma_fundamental_div_mod(lists, m);
    assert(q >= 1) by (nonlinear_arith)
        requires
            q == lists / m,
            lists >= m,
            m > 0,
    ;
    assert(m * q == (max_reuse * q) * 4) by (nonlinear_arith)
        requires
            m == max_reuse * 4,
    ;
    assert(max_reuse * q >= q) by (nonlinear_arith)
        requires
            max_reuse >= 1,
            q >= 1,
    ;
    assert(max_reuse * q == q * max_reuse) by (nonlinear_arith);
}

/// What the device is told to do next.
#[derive(Clone, Copy, Debug, PartialEq, Eq, Structural)]
pub enum Command {
    /// Trace all paths to their vertices at `depth`, and keep those on the host.
    Trace { depth: u32 },
    /// Enter the vertices of a depth into the grid, and report their number.
    BuildGrid { depth: u32 },
    /// Make a round of clustering, and report how many vertices are left over.
    Cluster { depth: u32 },
    /// Filter `count` vertices from number `start` on.
    Filter { depth: u32, start: u32, count: u32 },
    /// Take the vertices of the depth above from the host, and hand `count` records to them.
    Propagate { depth: u32, count: u32 },
    /// Add the light of all paths to their pixels.
    Splat,
    /// Add all pixels to the film.
    UpdateFilm,
    /// Take the light of the pixels back to none, and show the film.
    Present,
    /// The rendering is finished.
    Done,
}

/// What the device was told last.
#[derive(Clone, Copy, Debug, PartialEq, Eq, Structural)]
pub enum Phase {
    /// Nothing, or that the film be shown.
    Idle,
    Trace { depth: u32 },
    BuildGrid { depth: u32 },
    Cluster { depth: u32 },
    /// The vertices before number `next` are filtered.
    Filter { depth: u32, next: u32 },
    Propagate { depth: u32 },
    Splat,
    UpdateFilm,
}

/// The state of a rendering.
#[derive(Debug)]
pub struct FilterLoop {
    pub plan: FilterPlan,
    pub max_depth: u32,
    pub repeats: u32,
    pub cluster: bool,
    /// The number of vertices of a batch, for each depth.
    pub batch_sizes: Vec<u32>,
    /// The number of repetitions that were begun.
    pub repeat: u32,
    /// The number of vertices of the depth.
    pub pt_count: u32,
    /// A bound on the number of vertices that are in no cluster.
    pub loose: u32,
    /// The memory of the device that is in use.
    pub vram: usize,
    pub peak_vram: usize,
    pub phase: Phase,
}

/// The memory that is in use besides what is always in use.
pub open spec fn extra_vram(plan: FilterPlan, phase: Phase) -> int {
    match phase {
        Phase::Trace { .. } => plan.ray_bytes as int,
        Phase::BuildGrid { .. } => plan.record_bytes + plan.grid_bytes,
        Phase::Cluster { .. } => plan.record_bytes + plan.grid_bytes,
        Phase::Filter { .. } => plan.record_bytes + plan.grid_bytes,
        Phase::Propagate { .. } => plan.record_bytes + plan.grid_bytes,
        _ => 0,
    }
}

/// The most memory that was in use.
pub open spec fn peak_of(plan: FilterPlan, repeat: u32, phase: Phase) -> int {
    if repeat == 0 {
        plan.base_vram as int
    } else if repeat == 1 && phase is Trace || plan.ray_bytes > plan.record_bytes
        + plan.grid_bytes {
        plan.base_vram + plan.ray_bytes
    } else {
        plan.base_vram + plan.record_bytes + plan.grid_bytes
    }
}

/// The command and the phase that come next where the vertices before number `start` are filtered.
pub open spec fn batch_step(l: FilterLoop, depth: u32, start: u32) -> (Command, Phase) {
    let size = l.batch_sizes@[depth as int];
    let rest = l.pt_count - start;
    let count = if rest < size {
        rest
    } else {
        size as int
    };
    if start < l.pt_count {
        (
            Command::Filter { depth, start, count: count as u32 },
            Phase::Filter { depth, next: (start + count) as u32 },
        )
    } else if depth > 0 {
        (Command::Propagate { depth, count: l.pt_count }, Phase::Propagate { depth })
    } else {
        (Command::Splat, Phase::Splat)
    }
}

/// What one decision does: the command that it gives, and the state after it.
pub open spec fn follows(before: FilterLoop, report: u32, r: Command, after: FilterLoop) -> bool {
    &&& after.wf()
    &&& after.plan == before.plan
    &&& after.max_depth == before.max_depth
    &&& after.repeats == before.repeats
    &&& after.cluster == before.cluster
    &&& after.batch_sizes@ == before.batch_sizes@
    &&& after.repeat == before.repeat + (if before.phase is Idle && r !is Done {
        1int
    } else {
        0
    })
    &&& after.pt_count == (if before.phase is BuildGrid {
        report
    } else {
        before.pt_count
    })
    &&& match before.phase {
        Phase::Idle => if before.repeat < before.repeats {
            r == (Command::Trace { depth: 0 }) && after.phase == (Phase::Trace { depth: 0 })
        } else {
            r is Done && after.phase is Idle
        },
        Phase::Trace { depth } => if depth < before.max_depth {
            &&& r == (Command::Trace { depth: (depth + 1) as u32 })
            &&& after.phase == (Phase::Trace { depth: (depth + 1) as u32 })
        } else {
            &&& r == (Command::BuildGrid { depth: before.max_depth })
            &&& after.phase == (Phase::BuildGrid { depth: before.max_depth })
        },
        Phase::BuildGrid { depth } => if before.cluster {
            r == (Command::Cluster { depth }) && after.phase == (Phase::Cluster { depth })
        } else {
            (r, after.phase) == batch_step(after, depth, 0)
        },
        Phase::Cluster { depth } => if report > 0 {
            r == (Command::Cluster { depth }) && after.phase == before.phase
        } else {
            (r, after.phase) == batch_step(after, depth, 0)
        },
        Phase::Filter { depth, next } => (r, after.phase) == batch_step(after, depth, next),
        Phase::Propagate { depth } => {
            &&& r == (Command::BuildGrid { depth: (depth - 1) as u32 })
            &&& after.phase == (Phase::BuildGrid { depth: (depth - 1) as u32 })
        },
        Phase::Splat => r is UpdateFilm && after.phase is UpdateFilm,
        Phase::UpdateFilm => r is Present && after.phase is Idle,
    }
}

/// A rendering at its start.
pub open spec fn is_begun(
    l: FilterLoop,
    plan: FilterPlan,
    max_depth: u32,
    repeats: u32,
    cluster: bool,
    batch_sizes: Seq<u32>,
) -> bool {
    &&& l.wf()
    &&& l.plan == plan
    &&& l.max_depth == max_depth
    &&& l.repeats == repeats
    &&& l.cluster == cluster
    &&& l.batch_sizes@ == batch_sizes
    &&& l.repeat == 0
    &&& l.phase is Idle
}

/// What a rendering needs to begin.
pub open spec fn can_begin(plan: FilterPlan, max_depth: u32, batch_sizes: Seq<u32>) -> bool {
    &&& batch_sizes.len() == max_depth + 1
    &&& forall|d: int| 0 <= d < batch_sizes.len() ==> #[trigger] batch_sizes[d] > 0
    &&& plan.base_vram + plan.ray_bytes <= usize::MAX
    &&& plan.base_vram + plan.record_bytes + plan.grid_bytes <= usize::MAX
}

impl FilterLoop {
    pub open spec fn wf(&self) -> bool {
        let plan = self.plan;
        &&& self.batch_sizes.len() == self.max_depth + 1
        &&& forall|d: int|
            0 <= d < self.batch_sizes.len() ==> #[trigger] self.batch_sizes@[d] > 0
        &&& plan.base_vram + plan.ray_bytes <= usize::MAX
        &&& plan.base_vram + plan.record_bytes + plan.grid_bytes <= usize::MAX
        &&& self.repeat <= self.repeats
        &&& self.vram == plan.base_vram + extra_vram(plan, self.phase)
        &&& self.peak_vram == peak_of(plan, self.repeat, self.phase)
        &&& self.repeat == 0 ==> self.phase is Idle
        &&& self.loose <= plan.n_paths
        &&& match self.phase {
            Phase::Trace { depth } => depth <= self.max_depth,
            Phase::BuildGrid { depth } => depth <= self.max_depth,
            Phase::Cluster { depth } => depth <= self.max_depth && self.cluster && self.pt_count
                <= plan.n_paths,
            Phase::Filter { depth, next } => depth <= self.max_depth && 0 < next <= self.pt_count
                <= plan.n_paths,
            Phase::Propagate { depth } => 0 < depth <= self.max_depth,
            _ => true,
        }
    }

    /// A report of the device that fits: no path has two vertices at a depth, and a round of
    /// clustering leaves fewer vertices over than there were.
    pub open spec fn accepts(&self, report: u32) -> bool {
        match self.phase {
            Phase::BuildGrid { .. } => report <= self.plan.n_paths,
            Phase::Cluster { .. } => report == 0 || report < self.loose,
            _ => true,
        }
    }

    /// A bound on the number of commands for one depth.
    pub open spec fn per_depth(&self) -> int {
        2 * self.plan.n_paths + 4
    }

    /// A bound on the number of commands of the repetition that are left.
    pub open spec fn left_in_repeat(&self) -> int {
        let n = self.plan.n_paths as int;
        let k = self.per_depth();
        match self.phase {
            Phase::Idle => 0,
            Phase::Trace { depth } => self.max_depth - depth + 1 + (self.max_depth + 1) * k + 3,
            Phase::BuildGrid { depth } => depth * k + 2 * n + 3 + 3,
            Phase::Cluster { depth } => depth * k + self.loose + n + 2 + 3,
            Phase::Filter { depth, next } => depth * k + (self.pt_count - next) + 1 + 3,
            Phase::Propagate { depth } => depth * k + 3,
            Phase::Splat => 2,
            Phase::UpdateFilm => 1,
        }
    }

    /// A bound on the number of commands that are left.
    pub open spec fn left(&self) -> int {
        (self.repeats - self.repeat) * (self.max_depth + 6 + (self.max_depth + 1)
            * self.per_depth()) + self.left_in_repeat()
    }

    pub fn new(
        plan: FilterPlan,
        max_depth: u32,
        repeats: u32,
        cluster: bool,
        batch_sizes: Vec<u32>,
    ) -> (r: Self)
        requires
            can_begin(plan, max_depth, batch_sizes@),
        ensures
            is_begun(r, plan, max_depth, repeats, cluster, batch_sizes@),
    {
        FilterLoop {
            plan,
            max_depth,
            repeats,
            cluster,
            batch_sizes,
            repeat: 0,
            pt_count: 0,
            loose: 0,
            vram: plan.base_vram,
            peak_vram: plan.base_vram,
            phase: Phase::Idle,
        }
    }

    /// The rendering, unless this is a dry run: then nothing is to be done, and the film stays as
    /// it is.
    pub fn start(
        dry_run: bool,
        plan: FilterPlan,
        max_depth: u32,
        repeats: u32,
        cluster: bool,
        batch_sizes: Vec<u32>,
    ) -> (r: Option<Self>)
        requires
            !dry_run ==> can_begin(plan, max_depth, batch_sizes@),
        ensures
            r is None <==> dry_run,
            r matches Some(l) ==> is_begun(l, plan, max_depth, repeats, cluster, batch_sizes@),
    {
        if dry_run {
            return None;
        }
        Some(FilterLoop::new(plan, max_depth, repeats, cluster, batch_sizes))
    }

    /// Takes more memory of the device into use.
    fn allocate(&mut self, bytes: usize)
        requires
            old(self).vram + bytes <= usize::MAX,
        ensures
            *final(self) == (FilterLoop {
                vram: (old(self).vram + bytes) as usize,
                peak_vram: if old(self).peak_vram < old(self).vram + bytes {
                    (old(self).vram + bytes) as usize
                } else {
                    old(self).peak_vram
                },
                ..*old(self)
            }),
    {
        self.vram = self.vram + bytes;
        if self.peak_vram < self.vram {
            self.peak_vram = self.vram;
        }
    }

    /// Goes on with the next batch of a depth, or with what comes after the last one.
    fn next_batch(&mut self, depth: u32, start: u32) -> (r: Command)
        requires
            old(self).wf(),
            old(self).phase is BuildGrid || old(self).phase is Cluster || old(self).phase is Filter,
            depth <= old(self).max_depth,
            start <= old(self).pt_count <= old(self).plan.n_paths,
        ensures
            (r, final(self).phase) == batch_step(*old(self), depth, start),
            final(self).wf(),
            *final(self) == (FilterLoop {
                phase: final(self).phase,
                vram: final(self).vram,
                ..*old(self)
            }),
    {
        if start < self.pt_count {
            let rest: u32 = self.pt_count - start;
            let size: u32 = self.batch_sizes[depth as usize];
            let count: u32 = if rest < size {
                rest
            } else {
                size
            };
            self.phase = Phase::Filter { depth, next: start + count };
            Command::Filter { depth, start, count }
        } else if depth > 0 {
            self.phase = Phase::Propagate { depth };
            Command::Propagate { depth, count: self.pt_count }
        } else {
            self.vram = self.vram - self.plan.record_bytes;
            self.vram = self.vram - self.plan.grid_bytes;
            self.phase = Phase::Splat;
            Command::Splat
        }
    }

    /// What the device does next, where `report` is the count that it reported after the last
    /// command.
    pub fn next(&mut self, report: u32) -> (r: Command)
        requires
            old(self).wf(),
            old(self).accepts(report),
        ensures
            follows(*old(self), report, r, *final(self)),
            r !is Done ==> final(self).left() < old(self).left(),
            final(self).left() >= 0,
    {
        let ghost before = *self;
        let r = match self.phase {
            Phase::Idle => {
                if self.repeat < self.repeats {
                    self.repeat = self.repeat + 1;
                    self.allocate(self.plan.ray_bytes);
                    self.phase = Phase::Trace { depth: 0 };
                    Command::Trace { depth: 0 }
                } else {
                    Command::Done
                }
            },
            Phase::Trace { depth } => {
                if depth < self.max_depth {
                    self.phase = Phase::Trace { depth: depth + 1 };
                    Command::Trace { depth: depth + 1 }
                } else {
                    self.vram = self.vram - self.plan.ray_bytes;
                    self.vram = self.vram + self.plan.record_bytes;
                    self.allocate(self.plan.grid_bytes);
                    self.phase = Phase::BuildGrid { depth };
                    Command::BuildGrid { depth }
                }
            },
            Phase::BuildGrid { depth } => {
                self.pt_count = report;
                self.loose = report;
                if self.cluster {
                    self.phase = Phase::Cluster { depth };
                    Command::Cluster { depth }
                } else {
                    self.next_batch(depth, 0)
                }
            },
            Phase::Cluster { depth } => {
                if report > 0 {
                    self.loose = report;
                    Command::Cluster { depth }
                } else {
                    self.next_batch(depth, 0)
                }
            },
            Phase::Filter { depth, next } => self.next_batch(depth, next),
            Phase::Propagate { depth } => {
                self.phase = Phase::BuildGrid { depth: depth - 1 };
                Command::BuildGrid { depth: depth - 1 }
            },
            Phase::Splat => {
                self.phase = Phase::UpdateFilm;
                Command::UpdateFilm
            },
            Phase::UpdateFilm => {
                self.phase = Phase::Idle;
                Command::Present
            },
        };
        proof {
            lemma_left(before, report, r, *self);
        }
        r
    }
}

/// Every command brings the end nearer.
proof fn lemma_left(before: FilterLoop, report: u32, r: Command, after: FilterLoop)
    requires
        before.wf(),
        before.accepts(report),
        follows(before, report, r, after),
        before.phase is BuildGrid ==> after.loose == report,
        before.phase is Cluster ==> after.loose == (if report > 0 {
            report
        } else {
            before.loose
        }),
    ensures
        r !is Done ==> after.left() < before.left(),
        after.left() >= 0,
{
    let k = before.per_depth();
    let m = before.max_depth as int;
    let all = m + 6 + (m + 1) * k;
    assert((m + 1) * k == m * k + k) by (nonlinear_arith);
    assert(m * k >= 0) by (nonlinear_arith)
        requires
            m >= 0,
            k >= 0,
    ;
    let rest = before.repeats - before.repeat;
    let rest_after = after.repeats - after.repeat;
    assert(rest_after * all >= 0) by (nonlinear_arith)
        requires
            rest_after >= 0,
            all >= 0,
    ;
    if before.phase is Idle && r !is Done {
        assert(rest * all == rest_after * all + all) by (nonlinear_arith)
            requires
                rest == rest_after + 1,
        ;
    }
    match before.phase {
        Phase::Propagate { depth } => {
            let d = depth as int;
            assert(d * k == (d - 1) * k + k) by (nonlinear_arith);
        },
        _ => {},
    }
    let d = match after.phase {
        Phase::BuildGrid { depth } => depth as int,
        Phase::Cluster { depth } => depth as int,
        Phase::Filter { depth, .. } => depth as int,
        Phase::Propagate { depth } => depth as int,
        _ => 0,
    };
    assert(d * k >= 0) by (nonlinear_arith)
        requires
            d >= 0,
            k >= 0,
    ;
}

/// A run of a rendering: each state follows from the one before it, whatever the device answers.
pub open spec fn is_run(states: Seq<FilterLoop>, reports: Seq<u32>, commands: Seq<Command>) -> bool {
    &&& states.len() == commands.len() + 1
    &&& reports.len() == commands.len()
    &&& states[0].wf()
    &&& states[0].phase is Idle
    &&& forall|i: int|
        0 <= i < commands.len() ==> #[trigger] follows(
            states[i],
            reports[i],
            commands[i],
            states[i + 1],
        )
}

/// The vertices that a command filters.
pub open spec fn filtered_of(r: Command) -> int {
    match r {
        Command::Filter { count, .. } => count as int,
        _ => 0,
    }
}

/// The vertices that a run of commands filters.
pub open spec fn filtered_of_all(commands: Seq<Command>) -> int
    decreases commands.len(),
{
    if commands.len() == 0 {
        0
    } else {
        filtered_of_all(commands.drop_last()) + filtered_of(commands.last())
    }
}

/// The vertices that the device reported to have entered into the grid, in `n` steps.
pub open spec fn entered(states: Seq<FilterLoop>, reports: Seq<u32>, n: nat) -> int
    decreases n,
{
    if n == 0 {
        0
    } else {
        entered(states, reports, (n - 1) as nat) + if states[n - 1].phase is BuildGrid {
            reports[n - 1] as int
        } else {
            0
        }
    }
}

/// The vertices in the grid that are still to be filtered.
pub open spec fn unfiltered(l: FilterLoop) -> int {
    match l.phase {
        Phase::Cluster { .. } => l.pt_count as int,
        Phase::Filter { next, .. } => l.pt_count - next,
        _ => 0,
    }
}

/// However the device answers, every vertex that is entered into the grid is filtered once: at
/// any time those that were filtered and those that still wait are all that were entered, and none
/// waits when the rendering is done.
pub proof fn law_every_vertex_is_filtered(
    states: Seq<FilterLoop>,
    reports: Seq<u32>,
    commands: Seq<Command>,
)
    requires
        is_run(states, reports, commands),
    ensures
        states.last().wf(),
        filtered_of_all(commands) + unfiltered(states.last()) == entered(
            states,
            reports,
            commands.len(),
        ),
        commands.len() > 0 && commands.last() is Done ==> filtered_of_all(commands) == entered(
            states,
            reports,
            commands.len(),
        ),
    decreases commands.len(),
{
    if commands.len() > 0 {
        let n = commands.len() - 1;
        let fewer = states.drop_last();
        let shorter = commands.drop_last();
        assert(is_run(fewer, reports.drop_last(), shorter)) by {
            assert forall|i: int| 0 <= i < shorter.len() implies #[trigger] follows(
                fewer[i],
                reports.drop_last()[i],
                shorter[i],
                fewer[i + 1],
            ) by {
                assert(follows(states[i], reports[i], commands[i], states[i + 1]));
            }
        }
        law_every_vertex_is_filtered(fewer, reports.drop_last(), shorter);
        lemma_entered_prefix(states, reports, n as nat);
        assert(follows(states[n], reports[n], commands[n], states[n + 1]));
    }
}

proof fn lemma_entered_prefix(states: Seq<FilterLoop>, reports: Seq<u32>, n: nat)
    requires
        n < states.len(),
        n < reports.len(),
        reports.len() + 1 == states.len(),
    ensures
        entered(states, reports, n) == entered(states.drop_last(), reports.drop_last(), n),
    decreases n,
{
    if n > 0 {
        lemma_entered_prefix(states, reports, (n - 1) as nat);
    }
}

/// The batches of a depth follow each other: the first starts at the first vertex, each one starts
/// where the one before it ended, and what comes after the last one comes when all are filtered.
pub proof fn law_batches_are_adjacent(
    before: FilterLoop,
    report: u32,
    r: Command,
    after: FilterLoop,
)
    requires
        before.wf(),
        follows(before, report, r, after),
    ensures
        r matches Command::Filter { depth, start, count } ==> {
            &&& start == (match before.phase {
                Phase::Filter { next, .. } => next,
                _ => 0,
            })
            &&& after.phase == (Phase::Filter { depth, next: (start + count) as u32 })
            &&& start + count <= after.pt_count
            &&& 0 < count <= after.batch_sizes@[depth as int]
        },
        r !is Filter ==> (before.phase matches Phase::Filter { depth, next } ==> next
            == before.pt_count),
{
}

/// The memory that a repetition takes is given back: between repetitions only what is always in
/// use is in use, and no more was ever in use than the rays, or the records and the grid, take
/// besides.
pub proof fn law_memory_is_given_back(l: FilterLoop)
    requires
        l.wf(),
    ensures
        l.phase is Idle ==> l.vram == l.plan.base_vram,
        l.vram <= l.peak_vram,
        l.peak_vram <= l.plan.base_vram + (if l.plan.ray_bytes > l.plan.record_bytes
            + l.plan.grid_bytes {
            l.plan.ray_bytes as int
        } else {
            l.plan.record_bytes + l.plan.grid_bytes
        }),
{
}

} // verus!
