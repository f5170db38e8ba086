//! What the network is asked and taught.
use super::{
    lemma_slab, path_ok, NRCPathTracer, PathState, RenderState, Vertex, FEATURES, OUTPUTS,
};
use crate::expr::{Axis, Color, Scalar};
use crate::lighting::SurfaceInteraction;
use crate::value::{Float3, Single, StylizationFlags, NONE};
use vstd::prelude::*;

verus! {

/// A position, relative to the box.
pub open spec fn normalized(p: Single, low: Single, high: Single) -> Scalar {
    Scalar::Value(p).minus(Scalar::Value(low)).over(
        Scalar::Value(high).minus(Scalar::Value(low)),
    )
}

/// A component of a direction, taken from `-1 .. 1` to `0 .. 1`.
pub open spec fn halved(x: Single) -> Scalar {
    Scalar::Value(x).times(Scalar::Value(Single::half())).plus(Scalar::Value(Single::half()))
}

/// One where it holds, and zero elsewhere.
pub open spec fn hot(holds: bool) -> Scalar {
    if holds {
        Scalar::one()
    } else {
        Scalar::zero()
    }
}

/// The inputs for a vertex: its position, normal and direction, its roughness and albedo, whether
/// it is stylized, its style and its depth.
pub open spec fn features(
    aabb: (Float3, Float3),
    max_depth: u32,
    p: Float3,
    ns: Float3,
    wo: Float3,
    albedo: Color,
    roughness: Single,
    depth: u32,
    flags: StylizationFlags,
) -> Seq<Scalar> {
    seq![
        normalized(p.x, aabb.0.x, aabb.1.x),
        normalized(p.y, aabb.0.y, aabb.1.y),
        normalized(p.z, aabb.0.z, aabb.1.z),
        halved(ns.x),
        halved(ns.y),
        halved(ns.z),
        halved(wo.x),
        halved(wo.y),
        halved(wo.z),
        Scalar::Value(roughness),
        albedo.channel(Axis::X),
        albedo.channel(Axis::Y),
        albedo.channel(Axis::Z),
        hot(flags.stylization_disabled),
        hot(!flags.stylization_disabled),
    ] + Seq::new(4, |i: int| hot(i == flags.style_index)) + Seq::new(
        (max_depth + 1) as nat,
        |i: int| hot(i == depth),
    )
}

/// The inputs for a vertex that lies at `si`.
pub open spec fn features_of(
    aabb: (Float3, Float3),
    max_depth: u32,
    v: Vertex,
    si: SurfaceInteraction,
    depth: u32,
) -> Seq<Scalar> {
    features(aabb, max_depth, si.p, si.ns, v.wo, v.albedo, v.roughness, depth, v.new_flags)
}

/// The network has as many inputs as a vertex has features.
pub proof fn law_inputs_have_a_row(
    aabb: (Float3, Float3),
    max_depth: u32,
    v: Vertex,
    si: SurfaceInteraction,
    depth: u32,
)
    ensures
        features_of(aabb, max_depth, v, si, depth).len() == max_depth + 1 + FEATURES,
{
}

/// `buf` with `row` written from `at` on.
pub open spec fn with_row<T>(buf: Seq<T>, at: int, row: Seq<T>) -> Seq<T> {
    Seq::new(
        buf.len(),
        |i: int|
            if at <= i < at + row.len() {
                row[i - at]
            } else {
                buf[i]
            },
    )
}

fn is_hot(holds: bool) -> (r: Scalar)
    ensures
        r == hot(holds),
{
    if holds {
        Scalar::one()
    } else {
        Scalar::zero()
    }
}

fn normalize(p: Single, low: Single, high: Single) -> (r: Scalar)
    ensures
        r == normalized(p, low, high),
{
    Scalar::Value(p).minus(Scalar::Value(low)).over(Scalar::Value(high).minus(Scalar::Value(low)))
}

fn halve(x: Single) -> (r: Scalar)
    ensures
        r == halved(x),
{
    Scalar::Value(x).times(Scalar::Value(Single::half())).plus(Scalar::Value(Single::half()))
}

/// Writes a row into a buffer.
fn put_row(buf: &mut Vec<Scalar>, at: usize, row: Vec<Scalar>)
    requires
        at + row.len() <= old(buf).len(),
    ensures
        final(buf)@ == with_row(old(buf)@, at as int, row@),
{
    let ghost before = buf@;
    let mut i: usize = 0;
    while i < row.len()
        invariant
            i <= row.len(),
            at + row.len() <= buf.len(),
            buf.len() == before.len(),
            buf@ == with_row(before, at as int, row@.take(i as int)),
        decreases row.len() - i,
    {
        buf.set(at + i, row[i].clone());
        i += 1;
        assert(buf@ =~= with_row(before, at as int, row@.take(i as int)));
    }
    assert(row@.take(i as int) =~= row@);
}

impl NRCPathTracer {
    /// The inputs for a vertex.
    pub fn nrc_features(
        &self,
        aabb: (Float3, Float3),
        p: Float3,
        ns: Float3,
        wo: Float3,
        albedo: &Color,
        roughness: Single,
        depth: u32,
        flags: StylizationFlags,
    ) -> (row: Vec<Scalar>)
        requires
            self.config.max_depth < u32::MAX,
        ensures
            row@ == features(
                aabb,
                self.config.max_depth,
                p,
                ns,
                wo,
                *albedo,
                roughness,
                depth,
                flags,
            ),
    {
        let mut row: Vec<Scalar> = Vec::new();
        row.push(normalize(p.x, aabb.0.x, aabb.1.x));
        row.push(normalize(p.y, aabb.0.y, aabb.1.y));
        row.push(normalize(p.z, aabb.0.z, aabb.1.z));
        row.push(halve(ns.x));
        row.push(halve(ns.y));
        row.push(halve(ns.z));
        row.push(halve(wo.x));
        row.push(halve(wo.y));
        row.push(halve(wo.z));
        row.push(Scalar::Value(roughness));
        row.push(albedo.clone().channel(Axis::X));
        row.push(albedo.clone().channel(Axis::Y));
        row.push(albedo.clone().channel(Axis::Z));
        row.push(is_hot(flags.stylization_disabled));
        row.push(is_hot(!flags.stylization_disabled));
        let ghost head = row@;
        let mut i: u32 = 0;
        while i < 4
            invariant
                i <= 4,
                row@ == head + Seq::new(i as nat, |k: int| hot(k == flags.style_index)),
            decreases 4 - i,
        {
            row.push(is_hot(i == flags.style_index));
            i += 1;
            assert(row@ =~= head + Seq::new(i as nat, |k: int| hot(k == flags.style_index)));
        }
        let ghost styled = row@;
        let n: u32 = self.config.max_depth + 1;
        let mut d: u32 = 0;
        while d < n
            invariant
                d <= n,
                row@ == styled + Seq::new(d as nat, |k: int| hot(k == depth)),
            decreases n - d,
        {
            row.push(is_hot(d == depth));
            d += 1;
            assert(row@ =~= styled + Seq::new(d as nat, |k: int| hot(k == depth)));
        }
        assert(row@ =~= features(
            aabb,
            self.config.max_depth,
            p,
            ns,
            wo,
            *albedo,
            roughness,
            depth,
            flags,
        ));
        row
    }

    /// Writes the inputs for a vertex into a buffer, from `idx` on.
    pub fn write_nrc_inputs(
        &self,
        aabb: (Float3, Float3),
        p: Float3,
        ns: Float3,
        wo: Float3,
        albedo: &Color,
        roughness: Single,
        depth: u32,
        flags: StylizationFlags,
        input_buf: &mut Vec<Scalar>,
        idx: u32,
    )
        requires
            self.config.max_depth < u32::MAX,
            idx + self.config.max_depth + 1 + FEATURES <= old(input_buf).len(),
        ensures
            final(input_buf)@ == with_row(
                old(input_buf)@,
                idx as int,
                features(
                    aabb,
                    self.config.max_depth,
                    p,
                    ns,
                    wo,
                    *albedo,
                    roughness,
                    depth,
                    flags,
                ),
            ),
    {
        let row = self.nrc_features(aabb, p, ns, wo, albedo, roughness, depth, flags);
        put_row(input_buf, idx as usize, row);
    }
}

/// The depths of a path from `start` to `end` that it has reached.
pub open spec fn reached(ps: PathState, start: u32, end: u32) -> int {
    let last = if end < ps.depth {
        end
    } else {
        ps.depth
    };
    if !ps.valid || start > last {
        0
    } else {
        last - start + 1
    }
}

/// There are rows for `n` more vertices.
pub open spec fn rows_fit(state: RenderState, buf: Seq<Scalar>, n: int) -> bool {
    &&& (state.counter + n) * state.input_dim <= buf.len()
    &&& (state.counter + n) * state.input_dim <= u32::MAX
}

/// The vertices of a path after the first `n` from depth `start` on were numbered.
pub open spec fn numbered(
    vs: Seq<Vertex>,
    ps: PathState,
    start: u32,
    counter: u32,
    n: int,
) -> Seq<Vertex> {
    Seq::new(
        vs.len(),
        |i: int|
            if ps.vertex_idx + start <= i < ps.vertex_idx + start + n {
                Vertex { nrc_idx: (counter + (i - ps.vertex_idx - start)) as u32, ..vs[i] }
            } else {
                vs[i]
            },
    )
}

/// The inputs after the first `n` vertices of a path from depth `start` on were entered.
pub open spec fn entered(
    aabb: (Float3, Float3),
    max_depth: u32,
    buf: Seq<Scalar>,
    vs: Seq<Vertex>,
    ps: PathState,
    start: u32,
    counter: u32,
    sis: Seq<SurfaceInteraction>,
    n: nat,
) -> Seq<Scalar>
    decreases n,
{
    if n == 0 {
        buf
    } else {
        let d = start + n - 1;
        with_row(
            entered(aabb, max_depth, buf, vs, ps, start, counter, sis, (n - 1) as nat),
            (counter + n - 1) * (max_depth + 1 + FEATURES),
            features_of(aabb, max_depth, vs[ps.vertex_idx + d], sis[d], d as u32),
        )
    }
}

impl NRCPathTracer {
    /// Numbers the vertices of a path from `start_depth` to `end_depth`, and enters what the
    /// network is asked about them. `sis` are the points of the path's vertices.
    pub fn kernel_training_stage_nrc_inference_inputs(
        &self,
        state: &mut RenderState,
        tid: u32,
        start_depth: u32,
        end_depth: u32,
        sis: &Vec<SurfaceInteraction>,
    )
        requires
            old(state).wf(self.config.max_depth),
            tid < old(state).path_state_buf.len(),
            ({
                let ps = old(state).path_state_buf@[tid as int];
                &&& ps.valid ==> sis.len() > ps.depth
                &&& ps.valid ==> forall|d: int|
                    0 <= d <= ps.depth ==> (#[trigger] sis@[d]).hit()
                        == old(state).vertex_buffer@[ps.vertex_idx + d].hit
                &&& rows_fit(
                    *old(state),
                    old(state).inference_inputs@,
                    reached(ps, start_depth, end_depth),
                )
            }),
        ensures
            final(state).wf(self.config.max_depth),
            ({
                let ps = old(state).path_state_buf@[tid as int];
                let n = reached(ps, start_depth, end_depth);
                &&& final(state).counter == old(state).counter + n
                &&& final(state).vertex_buffer@ == numbered(
                    old(state).vertex_buffer@,
                    ps,
                    start_depth,
                    old(state).counter,
                    n,
                )
                &&& final(state).inference_inputs@ == entered(
                    old(state).aabb,
                    self.config.max_depth,
                    old(state).inference_inputs@,
                    old(state).vertex_buffer@,
                    ps,
                    start_depth,
                    old(state).counter,
                    sis@,
                    n as nat,
                )
            }),
            final(state).aabb == old(state).aabb,
            final(state).path_state_buf == old(state).path_state_buf,
            final(state).input_dim == old(state).input_dim,
            final(state).output_dim == old(state).output_dim,
            final(state).training_inputs == old(state).training_inputs,
            final(state).training_targets == old(state).training_targets,
            final(state).inference_outputs == old(state).inference_outputs,
    {
        let ghost vs = state.vertex_buffer@;
        let ghost counter = state.counter;
        let ghost buf = state.inference_inputs@;
        let ps = state.path_state_buf[tid as usize];
        let ghost n = reached(ps, start_depth, end_depth);
        assert(numbered(vs, ps, start_depth, counter, 0) =~= vs);
        if !ps.valid {
            return;
        }
        proof {
            lemma_slab(*state, self.config.max_depth, tid as int);
            assert(path_ok(ps, tid as int, self.config.max_depth));
        }
        let last: u32 = if end_depth < ps.depth {
            end_depth
        } else {
            ps.depth
        };
        if start_depth > last {
            return;
        }
        let mut i: u32 = start_depth;
        let ghost mut k: nat = 0;
        while i <= last
            invariant
                state.wf(self.config.max_depth),
                tid < state.path_state_buf.len(),
                state.path_state_buf == old(state).path_state_buf,
                ps == state.path_state_buf@[tid as int],
                ps.valid,
                last <= ps.depth <= self.config.max_depth,
                start_depth <= i <= last + 1,
                k == i - start_depth,
                n == last - start_depth + 1,
                vs == old(state).vertex_buffer@,
                counter == old(state).counter,
                buf == old(state).inference_inputs@,
                state.counter == counter + k,
                state.vertex_buffer.len() == vs.len(),
                state.vertex_buffer@ == numbered(vs, ps, start_depth, counter, k as int),
                state.inference_inputs@ == entered(
                    state.aabb,
                    self.config.max_depth,
                    buf,
                    vs,
                    ps,
                    start_depth,
                    counter,
                    sis@,
                    k,
                ),
                state.inference_inputs.len() == buf.len(),
                (counter + n) * state.input_dim <= buf.len(),
                (counter + n) * state.input_dim <= u32::MAX,
                sis.len() > ps.depth,
                ps.vertex_idx + self.config.max_depth < vs.len() <= u32::MAX,
                state.aabb == old(state).aabb,
                state.input_dim == old(state).input_dim,
                state.output_dim == old(state).output_dim,
                state.training_inputs == old(state).training_inputs,
                state.training_targets == old(state).training_targets,
                state.inference_outputs == old(state).inference_outputs,
            decreases last + 1 - i,
        {
            let at: u32 = ps.vertex_idx + i;
            let mut v = state.vertex_buffer[at as usize].clone();
            let si = sis[i as usize];
            v.nrc_idx = state.counter;
            proof {
                let c = state.counter as int;
                let dim = state.input_dim as int;
                assert((c + 1) * dim <= (counter + n) * dim) by (nonlinear_arith)
                    requires
                        c + 1 <= counter + n,
                        dim >= 0,
                ;
                assert((c + 1) * dim == c * dim + dim) by (nonlinear_arith);
                assert(c * dim >= 0) by (nonlinear_arith)
                    requires
                        c >= 0,
                        dim >= 0,
                ;
                assert(c < (c + 1) * dim) by (nonlinear_arith)
                    requires
                        dim >= 1,
                        c >= 0,
                ;
            }
            state.counter = state.counter + 1;
            let data_idx: u32 = v.nrc_idx * state.input_dim;
            let aabb = state.aabb;
            self.write_nrc_inputs(
                aabb,
                si.p,
                si.ns,
                v.wo,
                &v.albedo,
                v.roughness,
                i,
                v.new_flags,
                &mut state.inference_inputs,
                data_idx,
            );
            state.vertex_buffer.set(at as usize, v);
            proof {
                k = k + 1;
                assert(state.vertex_buffer@ =~= numbered(vs, ps, start_depth, counter, k as int));
            }
            i += 1;
        }
    }
}

/// The answer of the network for the vertex with a given number.
pub open spec fn answer(outputs: Seq<Single>, nrc_idx: u32) -> Float3 {
    let at = nrc_idx * OUTPUTS;
    Float3 { x: outputs[at], y: outputs[at + 1], z: outputs[at + 2] }
}

/// The answer for a vertex can be read.
pub open spec fn answered(outputs: Seq<Single>, v: Vertex) -> bool {
    &&& v.nrc_idx != NONE
    &&& (v.nrc_idx + 1) * OUTPUTS <= outputs.len()
    &&& (v.nrc_idx + 1) * OUTPUTS <= u32::MAX
}

/// The light that leaves vertex `i` of a path, where the network says what leaves the next one.
pub open spec fn exitant_spec(
    learn_stylized: bool,
    vs: Seq<Vertex>,
    outputs: Seq<Single>,
    ps: PathState,
    i: u32,
) -> Color {
    let v = vs[ps.vertex_idx + i];
    let own = v.le.plus(v.direct);
    if i < ps.depth {
        let next = vs[ps.vertex_idx + i + 1];
        let said = Color::Rgb(answer(outputs, next.nrc_idx));
        let arriving = if learn_stylized {
            said
        } else {
            said.stylize((i + 1) as u32, next.hit, next.wo, next.flags)
        };
        let all = own.plus(arriving.scale(next.mis).times(next.throughput));
        if learn_stylized {
            all.stylize(i, v.hit, v.wo, next.flags)
        } else {
            all
        }
    } else {
        own
    }
}

/// What the network is taught: the three components of a colour.
pub open spec fn target(c: Color) -> Seq<Scalar> {
    seq![c.channel(Axis::X), c.channel(Axis::Y), c.channel(Axis::Z)]
}

/// The inputs and targets after the first `n` vertices of a path from depth `start` on were
/// entered. A vertex whose light is not finite leaves its row as it was.
pub open spec fn taught(
    learn_stylized: bool,
    aabb: (Float3, Float3),
    max_depth: u32,
    inputs: Seq<Scalar>,
    targets: Seq<Scalar>,
    vs: Seq<Vertex>,
    outputs: Seq<Single>,
    ps: PathState,
    start: u32,
    counter: u32,
    sis: Seq<SurfaceInteraction>,
    finite: Seq<bool>,
    n: nat,
) -> (Seq<Scalar>, Seq<Scalar>)
    decreases n,
{
    if n == 0 {
        (inputs, targets)
    } else {
        let before = taught(
            learn_stylized,
            aabb,
            max_depth,
            inputs,
            targets,
            vs,
            outputs,
            ps,
            start,
            counter,
            sis,
            finite,
            (n - 1) as nat,
        );
        let d = start + n - 1;
        let row = counter + n - 1;
        if finite[d] {
            (
                with_row(
                    before.0,
                    row * (max_depth + 1 + FEATURES),
                    features_of(aabb, max_depth, vs[ps.vertex_idx + d], sis[d], d as u32),
                ),
                with_row(
                    before.1,
                    row * OUTPUTS,
                    target(exitant_spec(learn_stylized, vs, outputs, ps, d as u32)),
                ),
            )
        } else {
            before
        }
    }
}

/// What is asked of the data of a path before it is entered as an example.
pub open spec fn example_ok(
    state: RenderState,
    tid: u32,
    start: u32,
    end: u32,
    sis: Seq<SurfaceInteraction>,
    finite: Seq<bool>,
) -> bool {
    let ps = state.path_state_buf@[tid as int];
    let n = reached(ps, start, end);
    &&& ps.valid ==> {
        &&& sis.len() > ps.depth
        &&& finite.len() > ps.depth
        &&& forall|d: int|
            0 <= d <= ps.depth ==> (#[trigger] sis[d]).hit() == state.vertex_buffer@[ps.vertex_idx
                + d].hit
    }
    &&& forall|i: int|
        ps.vertex_idx + start < i < ps.vertex_idx + start + n + 1 && i <= ps.vertex_idx + ps.depth
            ==> answered(state.inference_outputs@, #[trigger] state.vertex_buffer@[i])
    &&& rows_fit(state, state.training_inputs@, n)
    &&& (state.counter + n) * OUTPUTS <= state.training_targets.len()
    &&& (state.counter + n) * OUTPUTS <= u32::MAX
}

impl NRCPathTracer {
    /// The light that leaves vertex `i` of a path, where the network says what leaves the next
    /// one.
    pub fn exitant_radiance(&self, state: &RenderState, tid: u32, i: u32) -> (r: Color)
        requires
            state.wf(self.config.max_depth),
            tid < state.path_state_buf.len(),
            state.path_state_buf@[tid as int].valid,
            i <= state.path_state_buf@[tid as int].depth,
            i < state.path_state_buf@[tid as int].depth ==> answered(
                state.inference_outputs@,
                state.vertex_buffer@[state.path_state_buf@[tid as int].vertex_idx + i + 1],
            ),
        ensures
            r == exitant_spec(
                self.config.learn_stylized_radiance,
                state.vertex_buffer@,
                state.inference_outputs@,
                state.path_state_buf@[tid as int],
                i,
            ),
    {
        let ps = state.path_state_buf[tid as usize];
        proof {
            lemma_slab(*state, self.config.max_depth, tid as int);
            assert(path_ok(ps, tid as int, self.config.max_depth));
        }
        let v = &state.vertex_buffer[(ps.vertex_idx + i) as usize];
        let own = v.le.clone().plus(v.direct.clone());
        if i < ps.depth {
            let next = &state.vertex_buffer[(ps.vertex_idx + i + 1) as usize];
            let said = Color::Rgb(self.read_answer(state, next));
            let arriving = if self.config.learn_stylized_radiance {
                said
            } else {
                said.stylize(i + 1, next.hit, next.wo, next.flags)
            };
            let all = own.plus(arriving.scale(next.mis.clone()).times(next.throughput.clone()));
            if self.config.learn_stylized_radiance {
                all.stylize(i, v.hit, v.wo, next.flags)
            } else {
                all
            }
        } else {
            own
        }
    }

    /// The answer of the network for a vertex.
    pub fn read_answer(&self, state: &RenderState, v: &Vertex) -> (r: Float3)
        requires
            answered(state.inference_outputs@, *v),
        ensures
            r == answer(state.inference_outputs@, v.nrc_idx),
    {
        let data_idx: u32 = v.nrc_idx * OUTPUTS;
        Float3 {
            x: state.inference_outputs[data_idx as usize],
            y: state.inference_outputs[data_idx as usize + 1],
            z: state.inference_outputs[data_idx as usize + 2],
        }
    }

    /// Enters the vertices of a path from `start_depth` to `end_depth` as examples for the
    /// network. `sis` are the points of the path's vertices; `finite` says of each whether what
    /// [`NRCPathTracer::exitant_radiance`] gives for it is finite.
    pub fn kernel_training_stage_nrc_training_data(
        &self,
        state: &mut RenderState,
        tid: u32,
        start_depth: u32,
        end_depth: u32,
        sis: &Vec<SurfaceInteraction>,
        finite: &Vec<bool>,
    )
        requires
            old(state).wf(self.config.max_depth),
            tid < old(state).path_state_buf.len(),
            example_ok(*old(state), tid, start_depth, end_depth, sis@, finite@),
        ensures
            final(state).wf(self.config.max_depth),
            ({
                let ps = old(state).path_state_buf@[tid as int];
                let n = reached(ps, start_depth, end_depth);
                &&& final(state).counter == old(state).counter + n
                &&& (final(state).training_inputs@, final(state).training_targets@) == taught(
                    self.config.learn_stylized_radiance,
                    old(state).aabb,
                    self.config.max_depth,
                    old(state).training_inputs@,
                    old(state).training_targets@,
                    old(state).vertex_buffer@,
                    old(state).inference_outputs@,
                    ps,
                    start_depth,
                    old(state).counter,
                    sis@,
                    finite@,
                    n as nat,
                )
            }),
            final(state).aabb == old(state).aabb,
            final(state).path_state_buf == old(state).path_state_buf,
            final(state).vertex_buffer == old(state).vertex_buffer,
            final(state).input_dim == old(state).input_dim,
            final(state).output_dim == old(state).output_dim,
            final(state).inference_inputs == old(state).inference_inputs,
            final(state).inference_outputs == old(state).inference_outputs,
    {
        let ghost counter = state.counter;
        let ps = state.path_state_buf[tid as usize];
        let ghost n = reached(ps, start_depth, end_depth);
        if !ps.valid {
            return;
        }
        proof {
            lemma_slab(*state, self.config.max_depth, tid as int);
            assert(path_ok(ps, tid as int, self.config.max_depth));
        }
        let last: u32 = if end_depth < ps.depth {
            end_depth
        } else {
            ps.depth
        };
        if start_depth > last {
            return;
        }
        let mut i: u32 = start_depth;
        let ghost mut k: nat = 0;
        while i <= last
            invariant
                state.wf(self.config.max_depth),
                tid < state.path_state_buf.len(),
                state.path_state_buf == old(state).path_state_buf,
                state.vertex_buffer == old(state).vertex_buffer,
                ps == state.path_state_buf@[tid as int],
                ps.valid,
                last <= ps.depth <= self.config.max_depth,
                start_depth <= i <= last + 1,
                k == i - start_depth,
                n == last - start_depth + 1,
                n == reached(ps, start_depth, end_depth),
                counter == old(state).counter,
                example_ok(*old(state), tid, start_depth, end_depth, sis@, finite@),
                state.counter == counter + k,
                (state.training_inputs@, state.training_targets@) == taught(
                    self.config.learn_stylized_radiance,
                    state.aabb,
                    self.config.max_depth,
                    old(state).training_inputs@,
                    old(state).training_targets@,
                    state.vertex_buffer@,
                    state.inference_outputs@,
                    ps,
                    start_depth,
                    counter,
                    sis@,
                    finite@,
                    k,
                ),
                state.training_inputs.len() == old(state).training_inputs.len(),
                state.training_targets.len() == old(state).training_targets.len(),
                ps.vertex_idx + self.config.max_depth < state.vertex_buffer.len() <= u32::MAX,
                state.aabb == old(state).aabb,
                state.input_dim == old(state).input_dim,
                state.output_dim == old(state).output_dim,
                state.inference_inputs == old(state).inference_inputs,
                state.inference_outputs == old(state).inference_outputs,
            decreases last + 1 - i,
        {
            let training_idx: u32 = state.counter;
            proof {
                let c = state.counter as int;
                let dim = state.input_dim as int;
                assert((c + 1) * dim <= (counter + n) * dim) by (nonlinear_arith)
                    requires
                        c + 1 <= counter + n,
                        dim >= 0,
                ;
                assert((c + 1) * dim == c * dim + dim) by (nonlinear_arith);
                assert(c * dim >= 0) by (nonlinear_arith)
                    requires
                        c >= 0,
                        dim >= 0,
                ;
                assert(c < (c + 1) * dim) by (nonlinear_arith)
                    requires
                        dim >= 1,
                        c >= 0,
                ;
                if i < ps.depth {
                    assert(answered(
                        state.inference_outputs@,
                        old(state).vertex_buffer@[ps.vertex_idx + i + 1],
                    ));
                }
            }
            let exitant = self.exitant_radiance(state, tid, i);
            state.counter = state.counter + 1;
            proof {
                k = k + 1;
            }
            if finite[i as usize] {
                let at: u32 = ps.vertex_idx + i;
                let v = state.vertex_buffer[at as usize].clone();
                let si = sis[i as usize];
                let data_idx: u32 = training_idx * state.input_dim;
                let aabb = state.aabb;
                self.write_nrc_inputs(
                    aabb,
                    si.p,
                    si.ns,
                    v.wo,
                    &v.albedo,
                    v.roughness,
                    i,
                    v.new_flags,
                    &mut state.training_inputs,
                    data_idx,
                );
                let data_idx: u32 = training_idx * OUTPUTS;
                let mut row: Vec<Scalar> = Vec::new();
                row.push(exitant.clone().channel(Axis::X));
                row.push(exitant.clone().channel(Axis::Y));
                row.push(exitant.clone().channel(Axis::Z));
                assert(row@ =~= target(exitant));
                put_row(&mut state.training_targets, data_idx as usize, row);
            }
            i += 1;
        }
    }
}

/// Each path adds at most one row for each depth, so that the rows of all paths fit: after `k`
/// paths, no more than `k * (max_depth + 1)` rows were handed out.
pub proof fn law_rows_suffice(counters: Seq<int>, max_depth: u32, k: int)
    requires
        0 <= k < counters.len(),
        counters[0] == 0,
        forall|i: int|
            0 <= i < counters.len() - 1 ==> counters[i + 1] <= #[trigger] counters[i] + max_depth
                + 1,
    ensures
        counters[k] <= k * (max_depth + 1),
    decreases k,
{
    if k > 0 {
        law_rows_suffice(counters, max_depth, k - 1);
        let i = k - 1;
        assert(counters[i + 1] <= counters[i] + max_depth + 1);
        let m = max_depth + 1;
        assert((k - 1) * m + m == k * m) by (nonlinear_arith);
    }
}

/// A path has no more depths to enter than its slab has vertices.
pub proof fn law_a_path_adds_few_rows(ps: PathState, i: int, max_depth: u32, start: u32, end: u32)
    requires
        path_ok(ps, i, max_depth),
    ensures
        0 <= reached(ps, start, end) <= max_depth + 1,
{
}

/// Of the depths that are asked for, those are entered at which the path has a vertex, one after
/// the other from the first.
pub proof fn law_depths_are_entered(ps: PathState, start: u32, end: u32, d: int)
    ensures
        start <= d < start + reached(ps, start, end) <==> ps.valid && start <= d <= end && d
            <= ps.depth,
{
}

/// Rows do not run into each other.
pub proof fn law_rows_are_disjoint(a: u32, b: u32, dim: u32, i: int, j: int)
    requires
        a < b,
        0 <= i < dim,
        0 <= j < dim,
    ensures
        a * dim + i < b * dim + j,
{
    assert((a + 1) * dim == a * dim + dim) by (nonlinear_arith);
    assert((a + 1) * dim <= b * dim) by (nonlinear_arith)
        requires
            a + 1 <= b,
            dim >= 0,
    ;
}

/// Where a row was written, the row can be read back, and all else is as it was.
pub proof fn law_rows_are_read_back<T>(buf: Seq<T>, at: int, row: Seq<T>, i: int)
    requires
        0 <= at,
        at + row.len() <= buf.len(),
        0 <= i < buf.len(),
    ensures
        with_row(buf, at, row).subrange(at, at + row.len()) == row,
        !(at <= i < at + row.len()) ==> with_row(buf, at, row)[i] == buf[i],
{
    assert(with_row(buf, at, row).subrange(at, at + row.len()) =~= row);
}

} // verus!
