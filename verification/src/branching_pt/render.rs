//! Planning a rendering, and running it pass by pass.
//!
//! A pass covers as many pixels as the memory of the device allows. Its vertices are made level by
//! level; then the light is brought back, deepest level first. The device runs the kernels and
//! reports how many vertices there are; [`RenderLoop`] decides what runs next.
use super::{BranchingPathTracer, Config};
use crate::value::Uint2;
use vstd::prelude::*;

verus! {

/// The number of branches at a branching depth: that of the list, and one where it ends.
pub open spec fn inner_at(config: Config, depth: int) -> u32 {
    if 0 <= depth < config.inner_samples.len() {
        config.inner_samples@[depth]
    } else {
        1
    }
}

/// The number of branches to reckon with, where taking out bias adds `mean` samples.
pub open spec fn factor(config: Config, mean: u32, depth: int) -> int {
    inner_at(config, depth) + (if config.debias is Some {
        mean as int
    } else {
        0
    })
}

/// The number of vertices that one vertex can lead to, `k` levels below it.
pub open spec fn reach(config: Config, mean: u32, k: nat) -> int
    decreases k,
{
    if k == 0 {
        1
    } else {
        reach(config, mean, (k - 1) as nat) * factor(config, mean, k - 1)
    }
}

/// The number of vertices of the first `k` levels below one vertex.
pub open spec fn reach_sum(config: Config, mean: u32, k: nat) -> int
    decreases k,
{
    if k == 0 {
        0
    } else {
        reach_sum(config, mean, (k - 1) as nat) + reach(config, mean, k)
    }
}

/// The vertices to make room for, for each pixel.
pub open spec fn total_spec(config: Config, mean: u32) -> int {
    1 + reach_sum(config, mean, (config.max_depth + 1) as nat) + 1 + config.max_depth
}

/// Every number of branches can be held.
pub open spec fn factors_fit(config: Config, mean: u32) -> bool {
    forall|d: int|
        0 <= d <= config.max_depth ==> #[trigger] factor(config, mean, d) <= u32::MAX
}

proof fn lemma_reach_nonneg(config: Config, mean: u32, k: nat)
    ensures
        reach(config, mean, k) >= 0,
    decreases k,
{
    if k > 0 {
        lemma_reach_nonneg(config, mean, (k - 1) as nat);
        let a = reach(config, mean, (k - 1) as nat);
        let b = factor(config, mean, k - 1);
        assert(a * b >= 0) by (nonlinear_arith)
            requires
                a >= 0,
                b >= 0,
        ;
    }
}

proof fn lemma_reach_sum_grows(config: Config, mean: u32, j: nat, k: nat)
    requires
        j <= k,
    ensures
        reach_sum(config, mean, j) <= reach_sum(config, mean, k),
        reach_sum(config, mean, j) >= 0,
    decreases k,
{
    if k > 0 {
        lemma_reach_nonneg(config, mean, k);
        if j < k {
            lemma_reach_sum_grows(config, mean, j, (k - 1) as nat);
        } else {
            lemma_reach_sum_grows(config, mean, (k - 1) as nat, (k - 1) as nat);
        }
    }
}

/// What a rendering needs.
#[derive(Debug)]
pub struct RenderPlan {
    pub n_pixels: u32,
    pub total_vertices_per_pixel: u32,
    pub pixels_per_pass: u64,
    /// The number of branches at each branching depth.
    pub n_inner_samples: Vec<u32>,
    /// The length of the buffer of vertices and of that of random numbers.
    pub vertex_capacity: u64,
    /// The length of the tables for taking out bias.
    pub debias_capacity: u64,
}

#[derive(Debug)]
pub enum Setup {
    /// The memory does not hold the vertices of one pixel.
    NotEnoughVram,
    Ready(RenderPlan),
}

/// The number of pixels whose vertices the memory holds.
pub open spec fn per_pass(config: Config, total: int, vertex_bytes: u32) -> int {
    (config.vram * 1024 * 1024) / (total * vertex_bytes)
}

impl RenderPlan {
    /// The plan is that of a rendering with room for `total` vertices for each pixel, where a
    /// vertex and its random numbers take `vertex_bytes` bytes.
    pub open spec fn serves(
        &self,
        config: Config,
        resolution: Uint2,
        total: int,
        vertex_bytes: u32,
    ) -> bool {
        let pixels = per_pass(config, total, vertex_bytes);
        &&& self.n_pixels == resolution.x * resolution.y
        &&& self.total_vertices_per_pixel == total
        &&& self.pixels_per_pass == pixels
        &&& self.n_inner_samples@ == Seq::new(
            (config.max_depth + 1) as nat,
            |d: int| inner_at(config, d),
        )
        &&& self.vertex_capacity == total * pixels
        &&& self.debias_capacity == (if config.debias is Some {
            total * pixels
        } else {
            1
        })
    }

    /// The number of pixels of a pass, as the kernels count them.
    pub fn pass_size(&self) -> (r: u32)
        ensures
            r == self.pixels_per_pass % 0x1_0000_0000,
    {
        let n: u64 = self.pixels_per_pass;
        assert(n as u32 == n % 0x1_0000_0000) by (bit_vector);
        n as u32
    }
}

impl BranchingPathTracer {
    fn inner_samples_at(&self, depth: u32) -> (n: u32)
        ensures
            n == inner_at(self.config, depth as int),
    {
        if (depth as usize) < self.config.inner_samples.len() {
            self.config.inner_samples[depth as usize]
        } else {
            1
        }
    }

    /// The vertices to make room for, for each pixel, where a vertex takes `mean` samples more
    /// for taking out bias; nothing where that is too many to count.
    pub fn total_vertices_per_pixel(&self, mean: u32) -> (r: Option<u32>)
        requires
            self.config.max_depth < u32::MAX,
        ensures
            r is Some <==> total_spec(self.config, mean) <= u32::MAX && factors_fit(
                self.config,
                mean,
            ),
            r matches Some(total) ==> total == total_spec(self.config, mean),
    {
        let ghost config = self.config;
        let mut total: u32 = 1;
        let mut last: u32 = 1;
        let mut depth: u32 = 0;
        while depth <= self.config.max_depth
            invariant
                config == self.config,
                config.max_depth < u32::MAX,
                depth <= config.max_depth + 1,
                total == 1 + reach_sum(config, mean, depth as nat),
                last == reach(config, mean, depth as nat),
                forall|d: int| 0 <= d < depth ==> #[trigger] factor(config, mean, d) <= u32::MAX,
            decreases config.max_depth + 1 - depth,
        {
            proof {
                lemma_reach_sum_grows(
                    config,
                    mean,
                    (depth + 1) as nat,
                    (config.max_depth + 1) as nat,
                );
            }
            let n: u32 = self.inner_samples_at(depth);
            let extra: u32 = if self.config.debias.is_some() {
                mean
            } else {
                0
            };
            let f: u32 = match n.checked_add(extra) {
                Some(f) => f,
                None => {
                    assert(factor(config, mean, depth as int) > u32::MAX);
                    return None;
                },
            };
            assert(f == factor(config, mean, depth as int));
            let next: u32 = match last.checked_mul(f) {
                Some(next) => next,
                None => {
                    proof {
                        lemma_reach_sum_grows(config, mean, depth as nat, depth as nat);
                    }
                    return None;
                },
            };
            total = match total.checked_add(next) {
                Some(total) => total,
                None => {
                    return None;
                },
            };
            last = next;
            depth += 1;
        }
        match total.checked_add(1) {
            Some(t) => t.checked_add(self.config.max_depth),
            None => None,
        }
    }

    /// Plans a rendering of a film of the given resolution, where a vertex and its random numbers
    /// take `vertex_bytes` bytes.
    pub fn plan(&self, resolution: Uint2, film_resolution: Uint2, total: u32, vertex_bytes: u32) -> (r:
        Setup)
        requires
            self.config.max_depth < u32::MAX,
            resolution == film_resolution,
            resolution.x * resolution.y <= u32::MAX,
            total > 0,
            vertex_bytes > 0,
        ensures
            r is NotEnoughVram <==> per_pass(self.config, total as int, vertex_bytes) == 0,
            r matches Setup::Ready(plan) ==> plan.serves(
                self.config,
                resolution,
                total as int,
                vertex_bytes,
            ),
    {
        proof {
            let (t, b, v) = (total as int, vertex_bytes as int, self.config.vram as int);
            assert(0 < t * b <= 0xffff_ffff * 0xffff_ffff) by (nonlinear_arith)
                requires
                    0 < t <= 0xffff_ffff,
                    0 < b <= 0xffff_ffff,
            ;
            let q = (v * 1024 * 1024) / (t * b);
            assert(0 <= t * q <= v * 1024 * 1024) by {
                vstd::arithmetic::div_mod::lemma_fundamental_div_mod(v * 1024 * 1024, t * b);
                assert(q >= 0) by {
                    vstd::arithmetic::div_mod::lemma_div_pos_is_pos(v * 1024 * 1024, t * b);
                }
                assert(t * q <= (t * b) * q) by (nonlinear_arith)
                    requires
                        t > 0,
                        b > 0,
                        q >= 0,
                ;
                assert(t * q >= 0) by (nonlinear_arith)
                    requires
                        t > 0,
                        q >= 0,
                ;
                let m = (v * 1024 * 1024) % (t * b);
                assert(m >= 0) by {
                    vstd::arithmetic::div_mod::lemma_mod_bound(v * 1024 * 1024, t * b);
                }
            }
        }
        let n_pixels: u32 = resolution.x * resolution.y;
        let memory: u64 = self.config.vram as u64 * 1024 * 1024;
        let per_pixel: u64 = total as u64 * vertex_bytes as u64;
        let pixels_per_pass: u64 = memory / per_pixel;
        if pixels_per_pass == 0 {
            return Setup::NotEnoughVram;
        }
        let mut n_inner_samples: Vec<u32> = Vec::new();
        let mut depth: u32 = 0;
        while depth <= self.config.max_depth
            invariant
                self.config.max_depth < u32::MAX,
                depth <= self.config.max_depth + 1,
                n_inner_samples@ == Seq::new(depth as nat, |d: int| inner_at(self.config, d)),
            decreases self.config.max_depth + 1 - depth,
        {
            n_inner_samples.push(self.inner_samples_at(depth));
            depth += 1;
        }
        let vertex_capacity: u64 = total as u64 * pixels_per_pass;
        let debias_capacity: u64 = if self.config.debias.is_some() {
            vertex_capacity
        } else {
            1
        };
        Setup::Ready(
            RenderPlan {
                n_pixels,
                total_vertices_per_pixel: total,
                pixels_per_pass,
                n_inner_samples,
                vertex_capacity,
                debias_capacity,
            },
        )
    }

    /// Counts the vertices to make room for, and plans a rendering with them; nothing where they
    /// are too many to count. `mean` is the number of samples that a vertex takes more for taking
    /// out bias.
    pub fn setup(
        &self,
        resolution: Uint2,
        film_resolution: Uint2,
        mean: u32,
        vertex_bytes: u32,
    ) -> (r: Option<Setup>)
        requires
            self.config.max_depth < u32::MAX,
            resolution == film_resolution,
            resolution.x * resolution.y <= u32::MAX,
            vertex_bytes > 0,
        ensures
            r is Some <==> total_spec(self.config, mean) <= u32::MAX && factors_fit(
                self.config,
                mean,
            ),
            r matches Some(setup) ==> {
                let total = total_spec(self.config, mean);
                let pixels = (self.config.vram * 1048576) / (total * vertex_bytes);
                &&& setup is NotEnoughVram <==> pixels == 0
                &&& setup matches Setup::Ready(plan) ==> {
                    &&& plan.pixels_per_pass == pixels
                    &&& plan.serves(self.config, resolution, total, vertex_bytes)
                }
            },
    {
        let total: u32 = match self.total_vertices_per_pixel(mean) {
            Some(total) => total,
            None => {
                return None;
            },
        };
        proof {
            let levels = (self.config.max_depth + 1) as nat;
            lemma_reach_sum_grows(self.config, mean, levels, levels);
        }
        Some(self.plan(resolution, film_resolution, total, vertex_bytes))
    }
}

/// What the device is told to do next.
#[derive(Clone, Copy, Debug, PartialEq, Eq, Structural)]
pub enum Command {
    /// Set the counters back, make the first vertices of the paths through `count` pixels from
    /// pixel `start` on, and report the number of vertices.
    Init { start: u32, count: u32 },
    /// Advance the vertices of a level, and report the number of vertices.
    Advance { start: u32, count: u32, depth: u32 },
    /// Bring the light back to the vertices of a level.
    Propagate { start: u32, count: u32, depth: u32 },
    /// Show the film: so many pixels more are done.
    Present { pixels: u32 },
    /// The rendering is finished.
    Done,
}

/// What the device was told last.
#[derive(Clone, Copy, Debug, PartialEq, Eq, Structural)]
pub enum Phase {
    /// Nothing, or that the film be shown.
    Idle,
    Init,
    Advance { depth: u32 },
    Propagate { depth: u32 },
}

/// The state of a rendering.
#[derive(Debug)]
pub struct RenderLoop {
    pub n_pixels: u32,
    pub pass_size: u32,
    pub max_depth: u32,
    pub repeats: u32,
    /// The number of times that the whole film was covered.
    pub repeat: u32,
    /// The number of pixels that are done.
    pub cur_px_idx: u32,
    /// The number of pixels of the pass that is under way, or was last.
    pub cur_pass: u32,
    /// Where the levels of the pass start in the buffer of vertices.
    pub starts: Vec<u32>,
    pub phase: Phase,
}

/// What one decision does: the command that it gives, and the state after it.
pub open spec fn follows(before: RenderLoop, counter: u32, r: Command, after: RenderLoop) -> bool {
    &&& after.wf()
    &&& after.n_pixels == before.n_pixels
    &&& after.pass_size == before.pass_size
    &&& after.max_depth == before.max_depth
    &&& after.repeats == before.repeats
    &&& after.started() == before.started() + (match r {
        Command::Init { count, .. } => count as int,
        _ => 0,
    })
    &&& match before.phase {
        Phase::Idle => {
            &&& r is Init || r is Done
            &&& r is Done ==> {
                &&& after.phase is Idle
                &&& after.started() == after.repeats * after.n_pixels
            }
            &&& r matches Command::Init { start, count } ==> {
                &&& after.phase is Init
                &&& after.starts@ == seq![0u32]
                &&& start == after.cur_px_idx
                &&& count == after.cur_pass
                &&& count > 0
                &&& if before.cur_px_idx < before.n_pixels {
                    after.repeat == before.repeat && start == before.cur_px_idx
                } else {
                    after.repeat == before.repeat + 1 && start == 0
                }
            }
        },
        Phase::Init => {
            &&& after.starts@ == before.starts@.push(counter)
            &&& after.phase == (Phase::Advance { depth: 0 })
            &&& r == (Command::Advance { start: 0, count: counter, depth: 0 })
        },
        Phase::Advance { depth } => {
            let starts = before.starts@.push(counter);
            &&& after.starts@ == starts
            &&& if depth < before.max_depth {
                &&& after.phase == (Phase::Advance { depth: (depth + 1) as u32 })
                &&& r == (Command::Advance {
                    start: starts[depth + 1],
                    count: (starts[depth + 2] - starts[depth + 1]) as u32,
                    depth: (depth + 1) as u32,
                })
            } else {
                &&& after.phase == (Phase::Propagate { depth })
                &&& r == (Command::Propagate {
                    start: starts[depth as int],
                    count: (starts[depth + 1] - starts[depth as int]) as u32,
                    depth,
                })
            }
        },
        Phase::Propagate { depth } => {
            let starts = before.starts@;
            &&& after.starts@ == starts
            &&& if depth > 0 {
                &&& after.phase == (Phase::Propagate { depth: (depth - 1) as u32 })
                &&& r == (Command::Propagate {
                    start: starts[depth - 1],
                    count: (starts[depth as int] - starts[depth - 1]) as u32,
                    depth: (depth - 1) as u32,
                })
            } else {
                &&& after.phase is Idle
                &&& after.repeat == before.repeat
                &&& after.cur_px_idx == before.cur_px_idx + before.cur_pass
                &&& r == (Command::Present { pixels: before.cur_pass })
            }
        },
    }
    &&& before.phase !is Idle && r !is Present ==> {
        &&& after.repeat == before.repeat
        &&& after.cur_px_idx == before.cur_px_idx
        &&& after.cur_pass == before.cur_pass
    }
}

/// A rendering at its start.
pub open spec fn is_begun(
    l: RenderLoop,
    n_pixels: u32,
    pass_size: u32,
    max_depth: u32,
    repeats: u32,
) -> bool {
    &&& l.wf()
    &&& l.n_pixels == n_pixels
    &&& l.pass_size == pass_size
    &&& l.max_depth == max_depth
    &&& l.repeats == repeats
    &&& l.repeat == 0
    &&& l.cur_px_idx == 0
    &&& l.phase is Idle
    &&& l.started() == 0
}

impl RenderLoop {
    /// The levels follow each other in the buffer.
    pub open spec fn starts_ok(&self, len: int) -> bool {
        &&& self.starts@.len() == len
        &&& self.starts@[0] == 0
        &&& forall|i: int, j: int|
            0 <= i <= j < self.starts@.len() ==> #[trigger] self.starts@[i]
                <= #[trigger] self.starts@[j]
    }

    /// A pass is under way.
    pub open spec fn in_pass(&self) -> bool {
        &&& self.repeat < self.repeats
        &&& self.cur_px_idx < self.n_pixels
        &&& self.cur_pass == (if self.n_pixels - self.cur_px_idx < self.pass_size {
            self.n_pixels - self.cur_px_idx
        } else {
            self.pass_size as int
        })
    }

    pub open spec fn wf(&self) -> bool {
        &&& self.pass_size > 0
        &&& self.max_depth < u32::MAX - 2
        &&& self.repeat <= self.repeats
        &&& self.cur_px_idx <= self.n_pixels
        &&& self.repeat == self.repeats ==> self.cur_px_idx == 0
        &&& match self.phase {
            Phase::Idle => true,
            Phase::Init => self.in_pass() && self.starts_ok(1),
            Phase::Advance { depth } => self.in_pass() && depth <= self.max_depth
                && self.starts_ok(depth + 2),
            Phase::Propagate { depth } => self.in_pass() && depth <= self.max_depth
                && self.starts_ok(self.max_depth + 3),
        }
    }

    /// A report of the device that fits: a pixel leads to one first vertex at most, and no vertex
    /// goes away.
    pub open spec fn accepts(&self, counter: u32) -> bool {
        match self.phase {
            Phase::Init => counter <= self.cur_pass,
            Phase::Advance { .. } => counter >= self.starts@.last(),
            _ => true,
        }
    }

    /// The number of pixels whose paths were started, over all repetitions.
    pub open spec fn started(&self) -> int {
        self.repeat * self.n_pixels + self.cur_px_idx + (if self.phase is Idle {
            0
        } else {
            self.cur_pass as int
        })
    }

    /// The number of commands until the film is shown again, counted from the start of a pass.
    pub open spec fn left_in_pass(&self) -> int {
        match self.phase {
            Phase::Idle => 0,
            Phase::Init => 2 * self.max_depth + 3,
            Phase::Advance { depth } => 2 * self.max_depth + 2 - depth,
            Phase::Propagate { depth } => depth + 1,
        }
    }

    /// A bound on the number of commands that are left.
    pub open spec fn left(&self) -> int {
        (self.repeats * self.n_pixels - self.started()) * (2 * self.max_depth + 4)
            + self.left_in_pass()
    }

    pub fn new(n_pixels: u32, pass_size: u32, max_depth: u32, repeats: u32) -> (r: Self)
        requires
            pass_size > 0,
            max_depth < u32::MAX - 2,
        ensures
            is_begun(r, n_pixels, pass_size, max_depth, repeats),
    {
        proof {
            assert(0 * n_pixels == 0);
        }
        RenderLoop {
            n_pixels,
            pass_size,
            max_depth,
            repeats,
            repeat: 0,
            cur_px_idx: 0,
            cur_pass: 0,
            starts: Vec::new(),
            phase: Phase::Idle,
        }
    }

    /// The rendering, unless this is a dry run: then nothing is to be done, and the film stays as
    /// it is.
    pub fn start(
        dry_run: bool,
        n_pixels: u32,
        pass_size: u32,
        max_depth: u32,
        repeats: u32,
    ) -> (r: Option<Self>)
        requires
            !dry_run ==> pass_size > 0 && max_depth < u32::MAX - 2,
        ensures
            r is None <==> dry_run,
            r matches Some(l) ==> is_begun(l, n_pixels, pass_size, max_depth, repeats),
    {
        if dry_run {
            return None;
        }
        Some(RenderLoop::new(n_pixels, pass_size, max_depth, repeats))
    }

    /// The range of a level.
    fn level(&self, depth: u32) -> (r: (u32, u32))
        requires
            depth + 1 < self.starts.len(),
            self.starts_ok(self.starts@.len() as int),
        ensures
            r.0 == self.starts@[depth as int],
            r.1 == self.starts@[depth + 1] - self.starts@[depth as int],
    {
        let start: u32 = self.starts[depth as usize];
        let end: u32 = self.starts[depth as usize + 1];
        (start, end - start)
    }

    /// Starts the next pass, or the next repetition with its first pass.
    fn begin_pass(&mut self) -> (r: Command)
        requires
            old(self).wf(),
            old(self).phase is Idle,
        ensures
            final(self).wf(),
            final(self).n_pixels == old(self).n_pixels,
            final(self).pass_size == old(self).pass_size,
            final(self).max_depth == old(self).max_depth,
            final(self).repeats == old(self).repeats,
            r is Init || r is Done,
            r matches Command::Init { start, count } ==> {
                &&& final(self).phase is Init
                &&& start == final(self).cur_px_idx
                &&& count == final(self).cur_pass
                &&& count > 0
                &&& final(self).starts@ == seq![0u32]
                &&& if old(self).cur_px_idx < old(self).n_pixels {
                    final(self).repeat == old(self).repeat && start == old(self).cur_px_idx
                } else {
                    final(self).repeat == old(self).repeat + 1 && start == 0
                }
                &&& final(self).started() == old(self).started() + count
            },
            r is Done ==> {
                &&& final(self).phase is Idle
                &&& final(self).started() == old(self).started()
                &&& final(self).started() == final(self).repeats * final(self).n_pixels
            },
    {
        if self.n_pixels == 0 || self.repeat >= self.repeats {
            proof {
                let (a, b) = (self.repeat as int, self.repeats as int);
                assert(self.n_pixels == 0 ==> a * 0 == b * 0);
            }
            return Command::Done;
        }
        if self.cur_px_idx >= self.n_pixels {
            proof {
                let (a, n) = (self.repeat as int, self.n_pixels as int);
                assert((a + 1) * n == a * n + n) by (nonlinear_arith);
            }
            self.repeat = self.repeat + 1;
            self.cur_px_idx = 0;
            if self.repeat >= self.repeats {
                return Command::Done;
            }
        }
        let rest: u32 = self.n_pixels - self.cur_px_idx;
        self.cur_pass = if rest < self.pass_size {
            rest
        } else {
            self.pass_size
        };
        let mut starts: Vec<u32> = Vec::new();
        starts.push(0);
        self.starts = starts;
        self.phase = Phase::Init;
        Command::Init { start: self.cur_px_idx, count: self.cur_pass }
    }

    /// All pixels are done in the current repetition.
    pub fn repeat_is_done(&self) -> (r: bool)
        ensures
            r == (self.cur_px_idx == self.n_pixels),
    {
        self.cur_px_idx == self.n_pixels
    }

    /// What the device does next, where `counter` is the number of vertices that it reported
    /// after the last command.
    pub fn next(&mut self, counter: u32) -> (r: Command)
        requires
            old(self).wf(),
            old(self).accepts(counter),
        ensures
            follows(*old(self), counter, r, *final(self)),
            r !is Done ==> final(self).left() < old(self).left(),
            final(self).left() >= 0,
    {
        let ghost before = *self;
        let r = match self.phase {
            Phase::Idle => self.begin_pass(),
            Phase::Init => {
                self.starts.push(counter);
                self.phase = Phase::Advance { depth: 0 };
                let (start, count) = self.level(0);
                Command::Advance { start, count, depth: 0 }
            },
            Phase::Advance { depth } => {
                self.starts.push(counter);
                if depth < self.max_depth {
                    self.phase = Phase::Advance { depth: depth + 1 };
                    let (start, count) = self.level(depth + 1);
                    Command::Advance { start, count, depth: depth + 1 }
                } else {
                    self.phase = Phase::Propagate { depth };
                    let (start, count) = self.level(depth);
                    Command::Propagate { start, count, depth }
                }
            },
            Phase::Propagate { depth } => {
                if depth > 0 {
                    self.phase = Phase::Propagate { depth: depth - 1 };
                    let (start, count) = self.level(depth - 1);
                    Command::Propagate { start, count, depth: depth - 1 }
                } else {
                    let pixels: u32 = self.cur_pass;
                    self.cur_px_idx = self.cur_px_idx + pixels;
                    self.phase = Phase::Idle;
                    Command::Present { pixels }
                }
            },
        };
        proof {
            let k = 2 * self.max_depth + 4;
            let all = self.repeats * self.n_pixels;
            assert(self.started() <= all) by {
                let (a, b, n) = (self.repeat as int, self.repeats as int, self.n_pixels as int);
                if a < b {
                    assert(a * n + n <= b * n) by (nonlinear_arith)
                        requires
                            a + 1 <= b,
                            n >= 0,
                    ;
                }
            }
            let rest = all - self.started();
            assert(rest * k >= 0) by (nonlinear_arith)
                requires
                    rest >= 0,
                    k >= 0,
            ;
            if r is Init {
                let count = r->Init_count as int;
                assert((rest + count) * k >= rest * k + k) by (nonlinear_arith)
                    requires
                        count >= 1,
                        k >= 0,
                ;
            }
        }
        r
    }
}

/// The pixels whose paths a command starts.
pub open spec fn pixels_of(r: Command) -> int {
    match r {
        Command::Init { count, .. } => count as int,
        _ => 0,
    }
}

/// The pixels whose paths a run of commands starts.
pub open spec fn pixels_of_all(commands: Seq<Command>) -> int
    decreases commands.len(),
{
    if commands.len() == 0 {
        0
    } else {
        pixels_of_all(commands.drop_last()) + pixels_of(commands.last())
    }
}

/// A run of a rendering: each state follows from the one before it, whatever the device answers.
pub open spec fn is_run(
    states: Seq<RenderLoop>,
    counters: Seq<u32>,
    commands: Seq<Command>,
) -> bool {
    &&& states.len() == commands.len() + 1
    &&& counters.len() == commands.len()
    &&& states[0].wf()
    &&& states[0].started() == 0
    &&& forall|i: int|
        0 <= i < commands.len() ==> #[trigger] follows(
            states[i],
            counters[i],
            commands[i],
            states[i + 1],
        )
}

/// However the device answers, a rendering starts the path of every pixel once in each
/// repetition: the pixels that were started are those that it has counted, and when it is done
/// they are all pixels, `repeats` times.
pub proof fn law_every_pixel_is_rendered(
    states: Seq<RenderLoop>,
    counters: Seq<u32>,
    commands: Seq<Command>,
)
    requires
        is_run(states, counters, commands),
    ensures
        states.last().wf(),
        states.last().repeats == states[0].repeats,
        states.last().n_pixels == states[0].n_pixels,
        pixels_of_all(commands) == states.last().started(),
        commands.len() > 0 && commands.last() is Done ==> pixels_of_all(commands)
            == states[0].repeats * states[0].n_pixels,
    decreases commands.len(),
{
    if commands.len() > 0 {
        let n = commands.len() - 1;
        let shorter = commands.drop_last();
        assert(is_run(states.drop_last(), counters.drop_last(), shorter)) by {
            assert forall|i: int| 0 <= i < shorter.len() implies #[trigger] follows(
                states.drop_last()[i],
                counters.drop_last()[i],
                shorter[i],
                states.drop_last()[i + 1],
            ) by {
                assert(follows(states[i], counters[i], commands[i], states[i + 1]));
            }
        }
        law_every_pixel_is_rendered(states.drop_last(), counters.drop_last(), shorter);
        assert(follows(states[n], counters[n], commands[n], states[n + 1]));
    }
}

/// A pass takes up where the one before it ended.
pub proof fn law_passes_are_adjacent(
    shown: RenderLoop,
    idle: RenderLoop,
    after: RenderLoop,
    counter: u32,
    next_counter: u32,
    first: Command,
    second: Command,
)
    requires
        shown.wf(),
        follows(shown, counter, first, idle),
        first is Present,
        follows(idle, next_counter, second, after),
    ensures
        second matches Command::Init { start, .. } ==> start == (if shown.cur_px_idx + shown.cur_pass
            < shown.n_pixels {
            shown.cur_px_idx + shown.cur_pass
        } else {
            0
        }),
{
}

/// The command that advances the level of a given depth.
pub open spec fn advance_of(starts: Seq<u32>, depth: int) -> Command {
    Command::Advance {
        start: starts[depth],
        count: (starts[depth + 1] - starts[depth]) as u32,
        depth: depth as u32,
    }
}

/// The number of levels of the pass that is under way whose advance was commanded.
pub open spec fn levels_advanced(l: RenderLoop) -> int {
    match l.phase {
        Phase::Advance { depth } => depth + 1,
        Phase::Propagate { .. } => l.max_depth + 1,
        _ => 0,
    }
}

/// The levels of a pass are advanced before the light is brought back to them: when the command
/// comes to bring it back to some vertices, those vertices were advanced before, at that depth.
pub proof fn law_levels_are_revisited(
    states: Seq<RenderLoop>,
    counters: Seq<u32>,
    commands: Seq<Command>,
)
    requires
        is_run(states, counters, commands),
    ensures
        forall|d: int|
            0 <= d < levels_advanced(states.last()) ==> commands.contains(
                #[trigger] advance_of(states.last().starts@, d),
            ),
        commands.len() > 0 ==> (commands.last() matches Command::Propagate { start, count, depth }
            ==> commands.contains(Command::Advance { start, count, depth })),
    decreases commands.len(),
{
    if commands.len() > 0 {
        let n = commands.len() - 1;
        let shorter = commands.drop_last();
        assert(is_run(states.drop_last(), counters.drop_last(), shorter)) by {
            assert forall|i: int| 0 <= i < shorter.len() implies #[trigger] follows(
                states.drop_last()[i],
                counters.drop_last()[i],
                shorter[i],
                states.drop_last()[i + 1],
            ) by {
                assert(follows(states[i], counters[i], commands[i], states[i + 1]));
            }
        }
        law_every_pixel_is_rendered(states.drop_last(), counters.drop_last(), shorter);
        law_levels_are_revisited(states.drop_last(), counters.drop_last(), shorter);
        let before = states[n];
        let after = states[n + 1];
        assert(follows(before, counters[n], commands[n], after));
        assert forall|d: int| 0 <= d < levels_advanced(after) implies commands.contains(
            #[trigger] advance_of(after.starts@, d),
        ) by {
            if d < levels_advanced(before) {
                assert(shorter.contains(advance_of(before.starts@, d)));
                let k = shorter.index_of(advance_of(before.starts@, d));
                assert(commands[k] == shorter[k]);
                assert(advance_of(after.starts@, d) == advance_of(before.starts@, d));
            } else {
                assert(commands[n] == advance_of(after.starts@, d));
            }
        }
        if commands[n] is Propagate {
            let d = commands[n]->Propagate_depth as int;
            assert(commands.contains(advance_of(after.starts@, d)));
        }
    }
}

} // verus!
