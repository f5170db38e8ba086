//! Planning a rendering, and running it: first the training of the network, then the image.
//!
//! The device runs the kernels and the network and reports counts; [`RenderLoop`] decides what
//! runs next.
use super::inputs::features_of;
use super::{Config, NRCPathTracer, Vertex, FEATURES, OUTPUTS};
use crate::lighting::SurfaceInteraction;
use crate::value::{Float3, Single, Uint2};
use vstd::prelude::*;

verus! {

/// The bit pattern of `1e-5`, the learning rate below which training stops.
pub const STOPPING_RATE_BITS: u32 = 0x3727_c5ac;

/// What a rendering takes: counts of pixels and lengths of buffers.
#[derive(Clone, Copy, Debug, PartialEq, Eq, Structural)]
pub struct NRCPlan {
    pub n_pixels: u32,
    /// The number of paths that are traced for one iteration of training.
    pub training_pixels: u32,
    pub n_input_dims: u32,
    pub n_output_dims: u32,
    pub vertices: usize,
    pub training_inputs: usize,
    pub training_targets: usize,
    pub inference_inputs: usize,
    pub inference_outputs: usize,
}

pub open spec fn input_dims(config: Config) -> int {
    config.max_depth + 1 + FEATURES
}

/// As many paths as fill the batches of an iteration if all of them go to the last depth, but one
/// at least and one for each pixel at most.
pub open spec fn training_pixels_of(config: Config, n_pixels: int) -> int {
    let n = (config.baches_per_iter * config.batch_size) / (config.max_depth + 1);
    if n < 1 {
        1
    } else if n > n_pixels {
        n_pixels
    } else {
        n
    }
}

/// The length of a buffer with a row of `dims` numbers for each vertex of `paths` paths.
pub open spec fn rows_of(config: Config, paths: int, dims: int) -> int {
    paths * dims * (1 + config.max_depth)
}

/// There is a pixel, and every size can be held.
pub open spec fn plan_fits(config: Config, resolution: Uint2) -> bool {
    let n = resolution.x * resolution.y;
    &&& 0 < n <= u32::MAX
    &&& config.baches_per_iter * config.batch_size <= u32::MAX
    &&& input_dims(config) <= u32::MAX
    &&& rows_of(config, n, input_dims(config)) <= usize::MAX
}

/// `paths * dims * depths`, where it can be held.
fn row_bytes(paths: u32, dims: u32, depths: u32) -> (r: Option<usize>)
    ensures
        r == (if paths * dims * depths <= usize::MAX {
            Some((paths * dims * depths) as usize)
        } else {
            None
        }),
{
    proof {
        let (a, b, c) = (paths as int, dims as int, depths as int);
        assert(0 <= a * b <= 0xffff_ffff * 0xffff_ffff) by (nonlinear_arith)
            requires
                0 <= a <= 0xffff_ffff,
                0 <= b <= 0xffff_ffff,
        ;
        let p = a * b;
        assert(0 <= p * c <= 0xffff_ffff * 0xffff_ffff * 0xffff_ffff) by (nonlinear_arith)
            requires
                0 <= p <= 0xffff_ffff * 0xffff_ffff,
                0 <= c <= 0xffff_ffff,
        ;
    }
    let n: u128 = paths as u128 * dims as u128 * depths as u128;
    if n <= usize::MAX as u128 {
        Some(n as usize)
    } else {
        None
    }
}

proof fn lemma_rows_monotone(a: int, b: int, d: int, e: int, m: int)
    requires
        0 <= a <= b,
        0 <= d <= e,
        0 <= m,
    ensures
        0 <= a * d * m <= b * e * m,
{
    assert(0 <= a * d <= b * e) by (nonlinear_arith)
        requires
            0 <= a <= b,
            0 <= d <= e,
    ;
    let (p, q) = (a * d, b * e);
    assert(0 <= p * m <= q * m) by (nonlinear_arith)
        requires
            0 <= p <= q,
            0 <= m,
    ;
}

impl NRCPathTracer {
    /// The box that positions are relative to: that of the configuration, or else that of the
    /// scene.
    pub fn scene_aabb(&self, scene: (Float3, Float3)) -> (r: (Float3, Float3))
        requires
            self.config.scene_bounds matches Some(bounds) ==> bounds.len() >= 2,
        ensures
            r == (match self.config.scene_bounds {
                Some(bounds) => (bounds@[0], bounds@[1]),
                None => scene,
            }),
    {
        match &self.config.scene_bounds {
            Some(bounds) => (bounds[0], bounds[1]),
            None => scene,
        }
    }

    /// The sizes of a rendering of a film of the given resolution; nothing where there is no pixel
    /// or a size cannot be held.
    pub fn plan(&self, resolution: Uint2, film_resolution: Uint2) -> (r: Option<NRCPlan>)
        requires
            resolution == film_resolution,
        ensures
            r is Some <==> plan_fits(self.config, resolution),
            r matches Some(plan) ==> {
                let n = resolution.x * resolution.y;
                let t = training_pixels_of(self.config, n);
                &&& plan.n_pixels == n
                &&& plan.training_pixels == t
                &&& plan.n_input_dims == input_dims(self.config)
                &&& plan.n_output_dims == OUTPUTS
                &&& plan.vertices == rows_of(self.config, n, 1)
                &&& plan.training_inputs == rows_of(self.config, t, input_dims(self.config))
                &&& plan.training_targets == rows_of(self.config, t, OUTPUTS as int)
                &&& plan.inference_inputs == rows_of(self.config, n, input_dims(self.config))
                &&& plan.inference_outputs == rows_of(self.config, n, OUTPUTS as int)
            },
    {
        let n_pixels: u32 = match resolution.x.checked_mul(resolution.y) {
            Some(n) => n,
            None => {
                return None;
            },
        };
        if n_pixels == 0 {
            return None;
        }
        let examples: u32 = match self.config.baches_per_iter.checked_mul(self.config.batch_size) {
            Some(n) => n,
            None => {
                return None;
            },
        };
        if self.config.max_depth > u32::MAX - 1 - FEATURES {
            return None;
        }
        let depths: u32 = self.config.max_depth + 1;
        let n_input_dims: u32 = depths + FEATURES;
        let per_pixel: u32 = examples / depths;
        let training_pixels: u32 = if per_pixel < 1 {
            1
        } else if per_pixel > n_pixels {
            n_pixels
        } else {
            per_pixel
        };
        let inference_inputs: usize = match row_bytes(n_pixels, n_input_dims, depths) {
            Some(n) => n,
            None => {
                return None;
            },
        };
        proof {
            let (n, t, d, m) = (
                n_pixels as int,
                training_pixels as int,
                n_input_dims as int,
                depths as int,
            );
            lemma_rows_monotone(n, n, 1, d, m);
            lemma_rows_monotone(t, n, d, d, m);
            lemma_rows_monotone(t, n, 3, d, m);
            lemma_rows_monotone(n, n, 3, d, m);
        }
        match (
            row_bytes(n_pixels, 1, depths),
            row_bytes(training_pixels, n_input_dims, depths),
            row_bytes(training_pixels, OUTPUTS, depths),
            row_bytes(n_pixels, OUTPUTS, depths),
        ) {
            (Some(vertices), Some(training_inputs), Some(training_targets), Some(inference_outputs)) => Some(
                NRCPlan {
                    n_pixels,
                    training_pixels,
                    n_input_dims,
                    n_output_dims: OUTPUTS,
                    vertices,
                    training_inputs,
                    training_targets,
                    inference_inputs,
                    inference_outputs,
                },
            ),
            _ => None,
        }
    }
}

/// The network has an input for every feature of a vertex.
pub proof fn law_dims_match_features(
    config: Config,
    aabb: (Float3, Float3),
    v: Vertex,
    si: SurfaceInteraction,
    depth: u32,
)
    ensures
        features_of(aabb, config.max_depth, v, si, depth).len() == input_dims(config),
{
}

/// The buffers have a row for every vertex of every path: `rows` vertices of `paths` paths, each
/// of which has one for each depth at most, take no more numbers than the buffer for so many paths
/// has.
pub proof fn law_buffers_suffice(config: Config, rows: int, paths: int, dims: int)
    requires
        0 <= rows <= paths * (config.max_depth + 1),
        0 <= dims,
    ensures
        rows * dims <= rows_of(config, paths, dims),
{
    let m = config.max_depth + 1;
    assert(rows * dims <= (paths * m) * dims) by (nonlinear_arith)
        requires
            0 <= rows <= paths * m,
            0 <= dims,
    ;
    assert((paths * m) * dims == paths * dims * m) by (nonlinear_arith);
}

/// Training takes no more paths than there are pixels.
pub proof fn law_training_is_part_of_the_image(config: Config, n_pixels: int)
    requires
        n_pixels >= 1,
    ensures
        1 <= training_pixels_of(config, n_pixels) <= n_pixels,
{
}

/// What is shown and saved on the way.
#[derive(Clone, Copy, Debug, PartialEq, Eq, Structural)]
pub struct Session {
    pub display: bool,
    pub save_intermediate: bool,
}

/// What the device reports after a command.
#[derive(Clone, Copy, Debug, PartialEq, Eq, Structural)]
pub struct Report {
    /// The number of rows that were entered.
    pub count: u32,
    /// The learning rate of the network.
    pub learning_rate: Single,
    /// More than a second has gone by since an image was saved.
    pub save_due: bool,
}

/// What the device is told to do next.
#[derive(Clone, Copy, Debug, PartialEq, Eq, Structural)]
pub enum Command {
    /// Trace the paths of an iteration, enter what the network is asked about their vertices from
    /// depth `level` on, and report the count.
    CollectInputs { level: u32 },
    /// Ask the network about `count` rows, enter the examples from depth `level` on, and report
    /// the count.
    Estimate { count: u32, level: u32 },
    /// Train the network with `count` rows, and report.
    Train { count: u32, iters: u32 },
    /// Trace the first vertices of all paths, enter what the network is asked about them, and
    /// report the count.
    Preview,
    /// Ask the network about `count` rows, and make an image of the answers.
    PreviewAnswer { count: u32 },
    /// Save the image under a number.
    Save { index: u32 },
    /// Show the film.
    Show,
    /// Make the film black.
    ClearFilm,
    /// Trace all paths to where they are handed over.
    GatherTrace,
    /// Follow a ray from there for each path, enter what the network is asked, and report the
    /// count.
    GatherPass,
    /// Ask the network about `count` rows, and take the answers to the paths.
    GatherAnswer { count: u32 },
    /// Bring the light of all paths to the film.
    Splat,
    /// Trace the first vertices of all paths, enter what the network is asked about them, and
    /// report the count.
    PlainPass,
    /// Ask the network about `count` rows, and add the answers to the film.
    PlainAnswer { count: u32 },
    /// The rendering is finished.
    Done,
}

/// What the device was told last.
#[derive(Clone, Copy, Debug, PartialEq, Eq, Structural)]
pub enum Phase {
    Start,
    CollectInputs,
    Estimate,
    Train,
    Preview,
    PreviewAnswer,
    Save,
    ShowTraining,
    ClearFilm,
    GatherTrace,
    GatherPass,
    GatherAnswer,
    Splat,
    PlainPass,
    PlainAnswer,
    ShowFinal,
    Finished,
}

/// The state of a rendering.
#[derive(Clone, Copy, Debug, PartialEq, Eq, Structural)]
pub struct RenderLoop {
    pub max_depth: u32,
    pub training_iters: u32,
    pub baches_per_iter: u32,
    pub per_level_training: Option<u32>,
    pub final_gather: Option<u32>,
    pub repeats: u32,
    pub session: Session,
    /// The number of iterations that are over.
    pub it: u32,
    /// The depth from which on vertices are trained.
    pub training_level: u32,
    /// The learning rate has become too low.
    pub stopping: bool,
    pub save_due: bool,
    /// The number of images that were saved.
    pub save_cnt: u32,
    /// The number of repetitions of the image that are over.
    pub pass: u32,
    /// The number of rays that were followed in this repetition.
    pub rays: u32,
    pub phase: Phase,
}

/// The depth from which on vertices are trained in an iteration: one less after each so many
/// iterations, from the deepest on.
pub open spec fn level_at(max_depth: u32, per_level: Option<u32>, it: int) -> int {
    match per_level {
        None => 0,
        Some(k) => if it == 0 {
            max_depth as int
        } else if it / (k as int) >= max_depth {
            0
        } else {
            max_depth - it / (k as int)
        },
    }
}

/// What comes when an iteration is over, where `it` iterations are.
pub open spec fn after_iteration(l: RenderLoop, it: int) -> (Command, Phase) {
    if l.stopping || it >= l.training_iters {
        (Command::ClearFilm, Phase::ClearFilm)
    } else {
        (
            Command::CollectInputs { level: level_at(l.max_depth, l.per_level_training, it) as u32 },
            Phase::CollectInputs,
        )
    }
}

/// What comes when `pass` repetitions of the image are over.
pub open spec fn after_pass(l: RenderLoop, pass: int) -> (Command, Phase) {
    if pass >= l.repeats {
        (Command::Done, Phase::Finished)
    } else if l.final_gather is Some {
        (Command::GatherTrace, Phase::GatherTrace)
    } else {
        (Command::PlainPass, Phase::PlainPass)
    }
}

/// An image is made of the network's answers after this iteration.
pub open spec fn previews(l: RenderLoop, report: Report) -> bool {
    ||| l.session.display
    ||| l.it + 1 == l.training_iters
    ||| l.session.save_intermediate && report.save_due
    ||| report.learning_rate.falls_below(Single { bits: STOPPING_RATE_BITS })
}

/// The number of rays for each repetition.
pub open spec fn rays_of(l: RenderLoop) -> int {
    match l.final_gather {
        Some(fg) => fg as int,
        None => 0,
    }
}

/// The command and the phase that come next, after what the report changed.
pub open spec fn decision(l: RenderLoop, report: Report) -> (Command, Phase) {
    match l.phase {
        Phase::Start => after_iteration(l, 0),
        Phase::CollectInputs => (
            Command::Estimate { count: report.count, level: l.training_level },
            Phase::Estimate,
        ),
        Phase::Estimate => (
            Command::Train { count: report.count, iters: l.baches_per_iter },
            Phase::Train,
        ),
        Phase::Train => {
            let told = RenderLoop {
                stopping: report.learning_rate.falls_below(Single { bits: STOPPING_RATE_BITS }),
                ..l
            };
            if previews(l, report) {
                (Command::Preview, Phase::Preview)
            } else {
                after_iteration(told, l.it + 1)
            }
        },
        Phase::Preview => (Command::PreviewAnswer { count: report.count }, Phase::PreviewAnswer),
        Phase::PreviewAnswer => if l.session.save_intermediate && l.save_due {
            (Command::Save { index: l.save_cnt }, Phase::Save)
        } else if l.session.display {
            (Command::Show, Phase::ShowTraining)
        } else {
            after_iteration(l, l.it + 1)
        },
        Phase::Save => if l.session.display {
            (Command::Show, Phase::ShowTraining)
        } else {
            after_iteration(l, l.it + 1)
        },
        Phase::ShowTraining => after_iteration(l, l.it + 1),
        Phase::ClearFilm => after_pass(l, 0),
        Phase::GatherTrace => if rays_of(l) > 0 {
            (Command::GatherPass, Phase::GatherPass)
        } else {
            (Command::Splat, Phase::Splat)
        },
        Phase::GatherPass => (Command::GatherAnswer { count: report.count }, Phase::GatherAnswer),
        Phase::GatherAnswer => if l.rays < rays_of(l) {
            (Command::GatherPass, Phase::GatherPass)
        } else {
            (Command::Splat, Phase::Splat)
        },
        Phase::Splat => if l.session.display {
            (Command::Show, Phase::ShowFinal)
        } else {
            after_pass(l, l.pass + 1)
        },
        Phase::PlainPass => (Command::PlainAnswer { count: report.count }, Phase::PlainAnswer),
        Phase::PlainAnswer => if l.session.display {
            (Command::Show, Phase::ShowFinal)
        } else {
            after_pass(l, l.pass + 1)
        },
        Phase::ShowFinal => after_pass(l, l.pass + 1),
        Phase::Finished => (Command::Done, Phase::Finished),
    }
}

/// An iteration is under way after which another one can come.
pub open spec fn ends_iteration(before: Phase, after: Phase) -> bool {
    &&& before is Train || before is PreviewAnswer || before is Save || before is ShowTraining
    &&& after is CollectInputs || after is ClearFilm
}

/// A repetition of the image is under way after which another one can come.
pub open spec fn ends_pass(before: Phase, after: Phase) -> bool {
    &&& before is Splat || before is PlainAnswer || before is ShowFinal
    &&& after is GatherTrace || after is PlainPass || after is Finished
}

/// What one decision does: the command that it gives, and the state after it.
pub open spec fn follows(before: RenderLoop, report: Report, r: Command, after: RenderLoop) -> bool {
    &&& after.wf()
    &&& (r, after.phase) == decision(before, report)
    &&& after == (RenderLoop {
        it: (before.it + if ends_iteration(before.phase, after.phase) {
            1int
        } else {
            0
        }) as u32,
        training_level: after.training_level,
        stopping: if before.phase is Train {
            report.learning_rate.falls_below(Single { bits: STOPPING_RATE_BITS })
        } else {
            before.stopping
        },
        save_due: if before.phase is Train {
            report.save_due
        } else {
            before.save_due
        },
        save_cnt: (before.save_cnt + if r is Save {
            1int
        } else {
            0
        }) as u32,
        pass: (before.pass + if ends_pass(before.phase, after.phase) {
            1int
        } else {
            0
        }) as u32,
        rays: if r is GatherPass {
            (before.rays + 1) as u32
        } else if r is GatherTrace {
            0
        } else {
            before.rays
        },
        phase: after.phase,
        ..before
    })
}

/// Training is over.
pub open spec fn is_trained(phase: Phase) -> bool {
    ||| phase is ClearFilm
    ||| is_final(phase)
    ||| phase is Finished
}

/// The image is being made.
pub open spec fn is_final(phase: Phase) -> bool {
    ||| phase is GatherTrace
    ||| phase is GatherPass
    ||| phase is GatherAnswer
    ||| phase is Splat
    ||| phase is PlainPass
    ||| phase is PlainAnswer
    ||| phase is ShowFinal
}

/// A rendering at its start.
pub open spec fn is_begun(l: RenderLoop, config: Config, session: Session) -> bool {
    &&& l.wf()
    &&& l.max_depth == config.max_depth
    &&& l.training_iters == config.training_iters
    &&& l.baches_per_iter == config.baches_per_iter
    &&& l.per_level_training == config.per_level_training
    &&& l.final_gather == config.final_gather
    &&& l.repeats == config.repeats
    &&& l.session == session
    &&& l.phase is Start
    &&& l.save_cnt == 0
    &&& l.training_level == level_at(config.max_depth, config.per_level_training, 0)
}

impl RenderLoop {
    pub open spec fn wf(&self) -> bool {
        &&& self.per_level_training == Some(0u32) ==> self.training_iters <= 1
        &&& self.it <= self.training_iters
        &&& self.save_cnt <= self.it + (if self.phase is Save || self.phase is ShowTraining {
            1int
        } else {
            0
        })
        &&& self.phase is Start ==> self.it == 0 && !self.stopping && self.pass == 0
            && self.training_level == level_at(self.max_depth, self.per_level_training, 0)
        &&& !is_trained(self.phase) && self.phase !is Start ==> {
            &&& self.it < self.training_iters
            &&& self.training_level == level_at(
                self.max_depth,
                self.per_level_training,
                self.it as int,
            )
            &&& self.pass == 0
        }
        &&& self.phase is CollectInputs || self.phase is Estimate || self.phase is Train
            ==> !self.stopping
        &&& self.phase is ClearFilm ==> self.pass == 0 && (self.stopping || self.it
            == self.training_iters)
        &&& self.pass <= self.repeats
        &&& is_final(self.phase) ==> self.pass < self.repeats
        &&& self.phase is GatherTrace || self.phase is GatherPass || self.phase is GatherAnswer
            || self.phase is Splat ==> {
            &&& self.final_gather is Some
            &&& self.rays <= rays_of(*self)
        }
        &&& self.phase is PlainPass || self.phase is PlainAnswer ==> self.final_gather is None
        &&& self.phase is GatherTrace ==> self.rays == 0
        &&& self.phase is Splat || self.phase is ShowFinal && self.final_gather is Some
            ==> self.rays == rays_of(*self)
        &&& self.phase is Finished ==> self.pass == self.repeats
    }

    /// The commands that are left of what is under way, at most.
    pub open spec fn left_of_phase(&self) -> int {
        match self.phase {
            Phase::CollectInputs => 7,
            Phase::Estimate => 6,
            Phase::Train => 5,
            Phase::Preview => 4,
            Phase::PreviewAnswer => 3,
            Phase::Save => 2,
            Phase::ShowTraining => 1,
            Phase::GatherTrace => 2 * rays_of(*self) + 3,
            Phase::GatherPass => 2 * (rays_of(*self) - self.rays) + 3,
            Phase::GatherAnswer => 2 * (rays_of(*self) - self.rays) + 2,
            Phase::Splat => 1,
            Phase::PlainPass => 2,
            Phase::PlainAnswer => 1,
            _ => 0,
        }
    }

    /// A bound on the number of commands that are left.
    pub open spec fn left(&self) -> int {
        let k = 2 * rays_of(*self) + 4;
        if self.phase is Finished {
            0
        } else if is_final(self.phase) {
            (self.repeats - self.pass - 1) * k + self.left_of_phase() + 1
        } else if self.phase is ClearFilm {
            self.repeats * k + 1
        } else if self.phase is Start {
            self.training_iters * 8 + 1 + self.repeats * k + 1
        } else {
            (self.training_iters - self.it - 1) * 8 + self.left_of_phase() + 1 + self.repeats * k
                + 1
        }
    }

    pub fn new(config: &Config, session: Session) -> (r: Self)
        requires
            config.per_level_training == Some(0u32) ==> config.training_iters <= 1,
        ensures
            is_begun(r, *config, session),
    {
        RenderLoop {
            max_depth: config.max_depth,
            training_iters: config.training_iters,
            baches_per_iter: config.baches_per_iter,
            per_level_training: config.per_level_training,
            final_gather: config.final_gather,
            repeats: config.repeats,
            session,
            it: 0,
            training_level: match config.per_level_training {
                Some(_) => config.max_depth,
                None => 0,
            },
            stopping: false,
            save_due: false,
            save_cnt: 0,
            pass: 0,
            rays: 0,
            phase: Phase::Start,
        }
    }
}

impl RenderLoop {
    /// The rendering, unless this is a dry run: then nothing is to be done, and the film stays as
    /// it is.
    pub fn start(dry_run: bool, config: &Config, session: Session) -> (r: Option<Self>)
        requires
            !dry_run && config.per_level_training == Some(0u32) ==> config.training_iters <= 1,
        ensures
            r is None <==> dry_run,
            r matches Some(l) ==> is_begun(l, *config, session),
    {
        if dry_run {
            return None;
        }
        Some(RenderLoop::new(config, session))
    }
}

/// The level goes down by one where the number of the iteration is a multiple.
proof fn lemma_level(max_depth: u32, k: u32, it: int)
    requires
        k > 0,
        it >= 0,
    ensures
        level_at(max_depth, Some(k), it + 1) == (if (it + 1) % (k as int) == 0 && level_at(
            max_depth,
            Some(k),
            it,
        ) > 0 {
            level_at(max_depth, Some(k), it) - 1
        } else {
            level_at(max_depth, Some(k), it)
        }),
{
    let d = k as int;
    let (q, r) = (it / d, it % d);
    vstd::arithmetic::div_mod::lemma_fundamental_div_mod(it, d);
    assert(0 <= r < d) by {
        vstd::arithmetic::div_mod::lemma_mod_bound(it, d);
    }
    if it == 0 {
        vstd::arithmetic::div_mod::lemma_small_mod(0, k as nat);
        vstd::arithmetic::div_mod::lemma_basic_div(0, d);
    }
    assert(q >= 0) by (nonlinear_arith)
        requires
            it == d * q + r,
            0 <= r < d,
            it >= 0,
    ;
    if r + 1 < d {
        vstd::arithmetic::div_mod::lemma_fundamental_div_mod_converse(it + 1, d, q, r + 1);
    } else {
        assert(d * (q + 1) == d * q + d) by (nonlinear_arith);
        vstd::arithmetic::div_mod::lemma_fundamental_div_mod_converse(it + 1, d, q + 1, 0);
    }
}

impl RenderLoop {
    /// Goes on with the next iteration, or with what comes after the last one.
    fn begin_iteration(&mut self) -> (r: Command)
        requires
            old(self).it < old(self).training_iters && !old(self).stopping ==> old(self).training_level == level_at(
                old(self).max_depth,
                old(self).per_level_training,
                old(self).it as int,
            ),
        ensures
            (r, final(self).phase) == after_iteration(*old(self), old(self).it as int),
            *final(self) == (RenderLoop { phase: final(self).phase, ..*old(self) }),
    {
        if self.stopping || self.it >= self.training_iters {
            self.phase = Phase::ClearFilm;
            Command::ClearFilm
        } else {
            self.phase = Phase::CollectInputs;
            Command::CollectInputs { level: self.training_level }
        }
    }

    /// Ends an iteration.
    fn end_iteration(&mut self) -> (r: Command)
        requires
            old(self).it < old(self).training_iters,
            old(self).per_level_training == Some(0u32) ==> old(self).training_iters <= 1,
            old(self).training_level == level_at(
                old(self).max_depth,
                old(self).per_level_training,
                old(self).it as int,
            ),
        ensures
            (r, final(self).phase) == after_iteration(*old(self), old(self).it + 1),
            *final(self) == (RenderLoop {
                it: (old(self).it + 1) as u32,
                training_level: final(self).training_level,
                phase: final(self).phase,
                ..*old(self)
            }),
            final(self).phase is CollectInputs ==> final(self).training_level == level_at(
                old(self).max_depth,
                old(self).per_level_training,
                old(self).it + 1,
            ),
    {
        let ghost before = self.it as int;
        self.it = self.it + 1;
        if self.it < self.training_iters {
            if let Some(level_iters) = self.per_level_training {
                proof {
                    lemma_level(self.max_depth, level_iters, before);
                }
                if self.it % level_iters == 0 && self.training_level > 0 {
                    self.training_level = self.training_level - 1;
                }
            }
        }
        self.begin_iteration()
    }

    /// Goes on with the next repetition of the image, or ends.
    fn begin_pass(&mut self) -> (r: Command)
        requires
            old(self).pass <= old(self).repeats,
        ensures
            (r, final(self).phase) == after_pass(*old(self), old(self).pass as int),
            *final(self) == (RenderLoop {
                phase: final(self).phase,
                rays: if r is GatherTrace {
                    0
                } else {
                    old(self).rays
                },
                ..*old(self)
            }),
    {
        if self.pass >= self.repeats {
            self.phase = Phase::Finished;
            Command::Done
        } else if self.final_gather.is_some() {
            self.rays = 0;
            self.phase = Phase::GatherTrace;
            Command::GatherTrace
        } else {
            self.phase = Phase::PlainPass;
            Command::PlainPass
        }
    }

    /// Ends a repetition of the image.
    fn end_pass(&mut self) -> (r: Command)
        requires
            old(self).pass < old(self).repeats,
        ensures
            (r, final(self).phase) == after_pass(*old(self), old(self).pass + 1),
            *final(self) == (RenderLoop {
                pass: (old(self).pass + 1) as u32,
                phase: final(self).phase,
                rays: if r is GatherTrace {
                    0
                } else {
                    old(self).rays
                },
                ..*old(self)
            }),
    {
        self.pass = self.pass + 1;
        self.begin_pass()
    }

    /// Follows one more ray for each path, or brings the light to the film.
    fn next_ray(&mut self) -> (r: Command)
        requires
            old(self).rays <= rays_of(*old(self)),
        ensures
            (r, final(self).phase) == (if old(self).rays < rays_of(*old(self)) {
                (Command::GatherPass, Phase::GatherPass)
            } else {
                (Command::Splat, Phase::Splat)
            }),
            *final(self) == (RenderLoop {
                phase: final(self).phase,
                rays: (old(self).rays + if r is GatherPass {
                    1int
                } else {
                    0
                }) as u32,
                ..*old(self)
            }),
    {
        let rays: u32 = match self.final_gather {
            Some(fg) => fg,
            None => 0,
        };
        if self.rays < rays {
            self.rays = self.rays + 1;
            self.phase = Phase::GatherPass;
            Command::GatherPass
        } else {
            self.phase = Phase::Splat;
            Command::Splat
        }
    }

    /// What the device does next, where `report` is what it reported after the last command.
    pub fn next(&mut self, report: Report) -> (r: Command)
        requires
            old(self).wf(),
        ensures
            follows(*old(self), report, r, *final(self)),
            old(self).phase !is Finished ==> final(self).left() < old(self).left(),
            final(self).left() >= 0,
    {
        let ghost before = *self;
        let r = match self.phase {
            Phase::Start => self.begin_iteration(),
            Phase::CollectInputs => {
                self.phase = Phase::Estimate;
                Command::Estimate { count: report.count, level: self.training_level }
            },
            Phase::Estimate => {
                self.phase = Phase::Train;
                Command::Train { count: report.count, iters: self.baches_per_iter }
            },
            Phase::Train => {
                self.stopping = report.learning_rate.lt(Single { bits: STOPPING_RATE_BITS });
                self.save_due = report.save_due;
                if self.session.display || self.it + 1 == self.training_iters || (
                self.session.save_intermediate && self.save_due) || self.stopping {
                    self.phase = Phase::Preview;
                    Command::Preview
                } else {
                    self.end_iteration()
                }
            },
            Phase::Preview => {
                self.phase = Phase::PreviewAnswer;
                Command::PreviewAnswer { count: report.count }
            },
            Phase::PreviewAnswer => {
                if self.session.save_intermediate && self.save_due {
                    let index: u32 = self.save_cnt;
                    self.save_cnt = self.save_cnt + 1;
                    self.phase = Phase::Save;
                    Command::Save { index }
                } else if self.session.display {
                    self.phase = Phase::ShowTraining;
                    Command::Show
                } else {
                    self.end_iteration()
                }
            },
            Phase::Save => {
                if self.session.display {
                    self.phase = Phase::ShowTraining;
                    Command::Show
                } else {
                    self.end_iteration()
                }
            },
            Phase::ShowTraining => self.end_iteration(),
            Phase::ClearFilm => self.begin_pass(),
            Phase::GatherTrace => self.next_ray(),
            Phase::GatherPass => {
                self.phase = Phase::GatherAnswer;
                Command::GatherAnswer { count: report.count }
            },
            Phase::GatherAnswer => self.next_ray(),
            Phase::Splat => {
                if self.session.display {
                    self.phase = Phase::ShowFinal;
                    Command::Show
                } else {
                    self.end_pass()
                }
            },
            Phase::PlainPass => {
                self.phase = Phase::PlainAnswer;
                Command::PlainAnswer { count: report.count }
            },
            Phase::PlainAnswer => {
                if self.session.display {
                    self.phase = Phase::ShowFinal;
                    Command::Show
                } else {
                    self.end_pass()
                }
            },
            Phase::ShowFinal => self.end_pass(),
            Phase::Finished => Command::Done,
        };
        proof {
            lemma_left(before, report, r, *self);
        }
        r
    }
}

/// Every command brings the end nearer.
proof fn lemma_left(before: RenderLoop, report: Report, r: Command, after: RenderLoop)
    requires
        before.wf(),
        follows(before, report, r, after),
    ensures
        before.phase !is Finished ==> after.left() < before.left(),
        after.left() >= 0,
{
    let k = 2 * rays_of(before) + 4;
    let n = before.repeats as int;
    let p = before.pass as int;
    assert(n * k >= 0) by (nonlinear_arith)
        requires
            n >= 0,
            k >= 0,
    ;
    assert(n * k == (n - 1) * k + k) by (nonlinear_arith);
    assert((n - p - 1) * k == (n - (p + 1) - 1) * k + k) by (nonlinear_arith);
    let q = after.repeats - after.pass - 1;
    if q >= 0 {
        assert(q * k >= 0) by (nonlinear_arith)
            requires
                q >= 0,
                k >= 0,
        ;
    }
    let o = n - p - 1;
    if o >= 0 {
        assert(o * k >= 0) by (nonlinear_arith)
            requires
                o >= 0,
                k >= 0,
        ;
    }
}

/// A run of a rendering: each state follows from the one before it, whatever the device answers.
pub open spec fn is_run(states: Seq<RenderLoop>, reports: Seq<Report>, commands: Seq<Command>) -> bool {
    &&& states.len() == commands.len() + 1
    &&& reports.len() == commands.len()
    &&& states[0].wf()
    &&& states[0].phase is Start
    &&& states[0].save_cnt == 0
    &&& forall|i: int|
        0 <= i < commands.len() ==> #[trigger] follows(
            states[i],
            reports[i],
            commands[i],
            states[i + 1],
        )
}

proof fn lemma_run_prefix(states: Seq<RenderLoop>, reports: Seq<Report>, commands: Seq<Command>)
    requires
        is_run(states, reports, commands),
        commands.len() > 0,
    ensures
        is_run(states.drop_last(), reports.drop_last(), commands.drop_last()),
{
    let fewer = states.drop_last();
    let shorter = commands.drop_last();
    assert forall|i: int| 0 <= i < shorter.len() implies #[trigger] follows(
        fewer[i],
        reports.drop_last()[i],
        shorter[i],
        fewer[i + 1],
    ) by {
        assert(follows(states[i], reports[i], commands[i], states[i + 1]));
    }
}

/// The number of iterations that a run of commands trains.
pub open spec fn trainings(commands: Seq<Command>) -> int
    decreases commands.len(),
{
    if commands.len() == 0 {
        0
    } else {
        trainings(commands.drop_last()) + if commands.last() is Train {
            1int
        } else {
            0
        }
    }
}

/// The number of iterations that were trained.
pub open spec fn trained(l: RenderLoop) -> int {
    l.it + if l.phase is Train || l.phase is Preview || l.phase is PreviewAnswer || l.phase is Save
        || l.phase is ShowTraining {
        1int
    } else {
        0
    }
}

/// The network is trained for as many iterations as the configuration says, or for fewer where
/// the learning rate falls too low.
pub proof fn law_training_ends(
    states: Seq<RenderLoop>,
    reports: Seq<Report>,
    commands: Seq<Command>,
)
    requires
        is_run(states, reports, commands),
    ensures
        states.last().wf(),
        states.last().training_iters == states[0].training_iters,
        trainings(commands) == trained(states.last()),
        trainings(commands) <= states[0].training_iters,
        is_trained(states.last().phase) && !states.last().stopping ==> trainings(commands)
            == states[0].training_iters,
    decreases commands.len(),
{
    if commands.len() > 0 {
        let n = commands.len() - 1;
        lemma_run_prefix(states, reports, commands);
        law_training_ends(states.drop_last(), reports.drop_last(), commands.drop_last());
        assert(follows(states[n], reports[n], commands[n], states[n + 1]));
    }
}

/// The number of rays that a run of commands follows for each path.
pub open spec fn gathers(commands: Seq<Command>) -> int
    decreases commands.len(),
{
    if commands.len() == 0 {
        0
    } else {
        gathers(commands.drop_last()) + if commands.last() is GatherPass {
            1int
        } else {
            0
        }
    }
}

/// The number of plain images that a run of commands makes.
pub open spec fn plain_passes(commands: Seq<Command>) -> int
    decreases commands.len(),
{
    if commands.len() == 0 {
        0
    } else {
        plain_passes(commands.drop_last()) + if commands.last() is PlainPass {
            1int
        } else {
            0
        }
    }
}

/// The number of rays that were followed for each path.
pub open spec fn gathered(l: RenderLoop) -> int {
    l.pass * rays_of(l) + if is_final(l.phase) && l.final_gather is Some {
        l.rays as int
    } else {
        0
    }
}

/// The number of plain images that were begun.
pub open spec fn begun(l: RenderLoop) -> int {
    if l.final_gather is Some {
        0
    } else {
        l.pass + if is_final(l.phase) {
            1int
        } else {
            0
        }
    }
}

/// The image is repeated as often as the configuration says: with so many rays for each path in
/// each repetition where it says so, and with one plain image in each elsewhere.
pub proof fn law_image_is_repeated(
    states: Seq<RenderLoop>,
    reports: Seq<Report>,
    commands: Seq<Command>,
)
    requires
        is_run(states, reports, commands),
    ensures
        states.last().wf(),
        states.last().final_gather == states[0].final_gather,
        states.last().repeats == states[0].repeats,
        gathers(commands) == gathered(states.last()),
        plain_passes(commands) == begun(states.last()),
        states.last().phase is Finished ==> {
            &&& gathers(commands) == states[0].repeats * rays_of(states[0])
            &&& plain_passes(commands) == (if states[0].final_gather is Some {
                0
            } else {
                states[0].repeats as int
            })
        },
    decreases commands.len(),
{
    if commands.len() > 0 {
        let n = commands.len() - 1;
        lemma_run_prefix(states, reports, commands);
        law_image_is_repeated(states.drop_last(), reports.drop_last(), commands.drop_last());
        let before = states[n];
        let after = states[n + 1];
        assert(follows(before, reports[n], commands[n], after));
        let (p, k) = (before.pass as int, rays_of(before));
        assert((p + 1) * k == p * k + k) by (nonlinear_arith);
    } else {
        let k = rays_of(states[0]);
        assert(0 * k == 0);
    }
}

/// The number of images that a run of commands saves.
pub open spec fn saves(commands: Seq<Command>) -> int
    decreases commands.len(),
{
    if commands.len() == 0 {
        0
    } else {
        saves(commands.drop_last()) + if commands.last() is Save {
            1int
        } else {
            0
        }
    }
}

/// The images are numbered in the order in which they are saved, from zero on.
pub proof fn law_saves_are_numbered(
    states: Seq<RenderLoop>,
    reports: Seq<Report>,
    commands: Seq<Command>,
)
    requires
        is_run(states, reports, commands),
    ensures
        saves(commands) == states.last().save_cnt,
        commands.len() > 0 ==> (commands.last() matches Command::Save { index } ==> index == saves(
            commands.drop_last(),
        )),
    decreases commands.len(),
{
    if commands.len() > 0 {
        let n = commands.len() - 1;
        lemma_run_prefix(states, reports, commands);
        law_saves_are_numbered(states.drop_last(), reports.drop_last(), commands.drop_last());
        law_training_ends(states.drop_last(), reports.drop_last(), commands.drop_last());
        assert(follows(states[n], reports[n], commands[n], states[n + 1]));
    }
}

/// The last iteration of training is always followed by an image of the network's answers.
pub proof fn law_last_iteration_is_previewed(
    before: RenderLoop,
    report: Report,
    r: Command,
    after: RenderLoop,
)
    requires
        before.wf(),
        before.phase is Train,
        follows(before, report, r, after),
    ensures
        before.it + 1 == before.training_iters || after.stopping ==> r is Preview,
        r !is ClearFilm,
{
}

} // verus!
