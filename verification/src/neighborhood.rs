//! Which points a query of the grid meets, by where the points lie in space.
//!
//! Where a point lies in the grid takes arithmetic that the device rounds. The laws are stated for
//! exact arithmetic, over coordinates that are counted in the smallest positive number.
use crate::exact::{is_finite, is_number, law_infinities_are_beyond, units};
use crate::hash_grid::{
    cell_axis, cell_spec, has_cells, law_query_is_complete, law_query_is_sound, touching,
    GridPoint, GridState, HashGrid,
};
use crate::value::{Float3, Single, INFINITY_BITS, NEG_INFINITY_BITS};
use vstd::arithmetic::div_mod::{
    lemma_div_is_ordered, lemma_div_multiples_vanish, lemma_div_plus_one, lemma_div_pos_is_pos,
};
use vstd::prelude::*;

verus! {

/// `p`, limited to `low ..= high`.
pub open spec fn limited(p: int, low: int, high: int) -> int {
    if p < low {
        low
    } else if p > high {
        high
    } else {
        p
    }
}

/// `(p - low) / (high - low)`, limited to `0 ..= 1`, times `res` and cut to a whole number.
pub open spec fn scaled_axis(p: int, low: int, high: int, res: int) -> int {
    ((limited(p, low, high) - low) * res) / (high - low)
}

pub open spec fn all_finite(p: Float3) -> bool {
    is_finite(p.x) && is_finite(p.y) && is_finite(p.z)
}

pub open spec fn all_numbers(p: Float3) -> bool {
    is_number(p.x) && is_number(p.y) && is_number(p.z)
}

/// The grid has an extent along every axis.
pub open spec fn has_extent(state: GridState) -> bool {
    &&& all_finite(state.p_min)
    &&& all_finite(state.p_max)
    &&& units(state.p_min.x) < units(state.p_max.x)
    &&& units(state.p_min.y) < units(state.p_max.y)
    &&& units(state.p_min.z) < units(state.p_max.z)
}

/// The point lies in the grid where exact arithmetic puts it. A coordinate may be infinite: it is
/// limited to the extent of the grid as others beyond it are.
pub open spec fn lies_exactly(state: GridState, p: GridPoint) -> bool {
    &&& all_numbers(p.p)
    &&& p.scaled.x == scaled_axis(
        units(p.p.x),
        units(state.p_min.x),
        units(state.p_max.x),
        state.res.x as int,
    )
    &&& p.scaled.y == scaled_axis(
        units(p.p.y),
        units(state.p_min.y),
        units(state.p_max.y),
        state.res.y as int,
    )
    &&& p.scaled.z == scaled_axis(
        units(p.p.z),
        units(state.p_min.z),
        units(state.p_max.z),
        state.res.z as int,
    )
}

/// `a` and `b` are at most `d` apart.
pub open spec fn apart(a: int, b: int, d: int) -> bool {
    -d <= a - b <= d
}

/// The points are finite, and at most `r` apart.
pub open spec fn within(a: Float3, b: Float3, r: int) -> bool {
    let dx = units(a.x) - units(b.x);
    let dy = units(a.y) - units(b.y);
    let dz = units(a.z) - units(b.z);
    all_finite(a) && all_finite(b) && dx * dx + dy * dy + dz * dz <= r * r
}

/// A cell is at least `r` wide along every axis.
pub open spec fn cells_span(state: GridState, r: int) -> bool {
    &&& r * state.res.x <= units(state.p_max.x) - units(state.p_min.x)
    &&& r * state.res.y <= units(state.p_max.y) - units(state.p_min.y)
    &&& r * state.res.z <= units(state.p_max.z) - units(state.p_min.z)
}

/// The scaled coordinate is in range, and does not fall where the coordinate rises.
proof fn lemma_scaled_axis(p: int, q: int, low: int, high: int, res: int)
    requires
        low < high,
        res >= 1,
    ensures
        0 <= scaled_axis(p, low, high, res) <= res,
        p <= q ==> scaled_axis(p, low, high, res) <= scaled_axis(q, low, high, res),
{
    let w = high - low;
    let a = limited(p, low, high) - low;
    let b = limited(q, low, high) - low;
    assert(0 <= a * res <= w * res) by (nonlinear_arith)
        requires
            0 <= a <= w,
            res >= 1,
    ;
    lemma_div_pos_is_pos(a * res, w);
    lemma_div_is_ordered(a * res, w * res, w);
    lemma_div_multiples_vanish(res, w);
    assert(w * res == res * w) by (nonlinear_arith);
    if p <= q {
        assert(a * res <= b * res) by (nonlinear_arith)
            requires
                a <= b,
                res >= 1,
        ;
        lemma_div_is_ordered(a * res, b * res, w);
    }
}

/// Coordinates that are no more than the width of a cell apart scale to numbers that differ by one
/// at most.
proof fn lemma_scaled_step(p: int, q: int, low: int, high: int, res: int)
    requires
        low < high,
        res >= 1,
        p <= q,
        (q - p) * res <= high - low,
    ensures
        scaled_axis(q, low, high, res) <= scaled_axis(p, low, high, res) + 1,
{
    let w = high - low;
    let a = limited(p, low, high) - low;
    let b = limited(q, low, high) - low;
    assert(b * res <= a * res + w) by (nonlinear_arith)
        requires
            b - a <= q - p,
            (q - p) * res <= w,
            res >= 1,
    ;
    lemma_div_is_ordered(b * res, a * res + w, w);
    lemma_div_plus_one(a * res, w);
    assert(w + a * res == a * res + w);
}

/// Along an axis, an infinite coordinate falls into the first or the last cell.
pub open spec fn at_border(c: Single, cell: u32, res: u32) -> bool {
    &&& c.bits == NEG_INFINITY_BITS ==> cell == 0
    &&& c.bits == INFINITY_BITS ==> cell == res - 1
}

proof fn lemma_border(c: Single, low: Single, high: Single, res: u32, scaled: u32)
    requires
        is_finite(low),
        is_finite(high),
        units(low) < units(high),
        res >= 1,
        scaled == scaled_axis(units(c), units(low), units(high), res as int),
    ensures
        at_border(c, cell_axis(scaled, res), res),
{
    law_infinities_are_beyond(low);
    law_infinities_are_beyond(high);
    let w = units(high) - units(low);
    if c.bits == NEG_INFINITY_BITS {
        assert(c == Single { bits: NEG_INFINITY_BITS });
        assert(0 * res == 0);
        assert(0int / w == 0) by (nonlinear_arith)
            requires
                w > 0,
        ;
    }
    if c.bits == INFINITY_BITS {
        assert(c == Single { bits: INFINITY_BITS });
        lemma_div_multiples_vanish(res as int, w);
        assert(w * res == res * w) by (nonlinear_arith);
    }
}

/// What the cells of two points have to do with each other along one axis.
proof fn lemma_axis(p: int, q: int, low: int, high: int, res: u32, sp: u32, sq: u32)
    requires
        low < high,
        res >= 1,
        sp == scaled_axis(p, low, high, res as int),
        sq == scaled_axis(q, low, high, res as int),
    ensures
        cell_axis(sp, res) < res,
        p <= q ==> cell_axis(sp, res) <= cell_axis(sq, res),
        p == q ==> cell_axis(sp, res) == cell_axis(sq, res),
        (q - p) * res <= high - low && (p - q) * res <= high - low ==> apart(
            cell_axis(sp, res) as int,
            cell_axis(sq, res) as int,
            1,
        ),
{
    lemma_scaled_axis(p, q, low, high, res as int);
    lemma_scaled_axis(q, p, low, high, res as int);
    if (q - p) * res <= high - low && (p - q) * res <= high - low {
        if p <= q {
            lemma_scaled_step(p, q, low, high, res as int);
        } else {
            lemma_scaled_step(q, p, low, high, res as int);
        }
    }
}

/// Along every axis, the cell of a point depends on that coordinate alone: it does not fall where
/// the coordinate rises, it is the same where the coordinate is, and where the coordinate is
/// infinite it is the first or the last. Where two points are no more than the width of a cell
/// apart along an axis, their cells differ by one at most.
pub proof fn law_cells_follow_points(state: GridState, a: GridPoint, b: GridPoint)
    requires
        has_extent(state),
        state.res.x >= 1,
        state.res.y >= 1,
        state.res.z >= 1,
        lies_exactly(state, a),
        lies_exactly(state, b),
    ensures
        ({
            let (p, q) = (cell_spec(state, a), cell_spec(state, b));
            &&& p.x < state.res.x && p.y < state.res.y && p.z < state.res.z
            &&& units(a.p.x) <= units(b.p.x) ==> p.x <= q.x
            &&& units(a.p.y) <= units(b.p.y) ==> p.y <= q.y
            &&& units(a.p.z) <= units(b.p.z) ==> p.z <= q.z
            &&& units(a.p.x) == units(b.p.x) ==> p.x == q.x
            &&& units(a.p.y) == units(b.p.y) ==> p.y == q.y
            &&& units(a.p.z) == units(b.p.z) ==> p.z == q.z
            &&& at_border(a.p.x, p.x, state.res.x)
            &&& at_border(a.p.y, p.y, state.res.y)
            &&& at_border(a.p.z, p.z, state.res.z)
            &&& apart(
                units(a.p.x) * state.res.x,
                units(b.p.x) * state.res.x,
                units(state.p_max.x) - units(state.p_min.x),
            ) ==> apart(p.x as int, q.x as int, 1)
            &&& apart(
                units(a.p.y) * state.res.y,
                units(b.p.y) * state.res.y,
                units(state.p_max.y) - units(state.p_min.y),
            ) ==> apart(p.y as int, q.y as int, 1)
            &&& apart(
                units(a.p.z) * state.res.z,
                units(b.p.z) * state.res.z,
                units(state.p_max.z) - units(state.p_min.z),
            ) ==> apart(p.z as int, q.z as int, 1)
        }),
{
    lemma_axis(
        units(a.p.x),
        units(b.p.x),
        units(state.p_min.x),
        units(state.p_max.x),
        state.res.x,
        a.scaled.x,
        b.scaled.x,
    );
    lemma_axis(
        units(a.p.y),
        units(b.p.y),
        units(state.p_min.y),
        units(state.p_max.y),
        state.res.y,
        a.scaled.y,
        b.scaled.y,
    );
    lemma_axis(
        units(a.p.z),
        units(b.p.z),
        units(state.p_min.z),
        units(state.p_max.z),
        state.res.z,
        a.scaled.z,
        b.scaled.z,
    );
    lemma_spread(units(a.p.x), units(b.p.x), state.res.x as int);
    lemma_spread(units(a.p.y), units(b.p.y), state.res.y as int);
    lemma_spread(units(a.p.z), units(b.p.z), state.res.z as int);
    lemma_border(a.p.x, state.p_min.x, state.p_max.x, state.res.x, a.scaled.x);
    lemma_border(a.p.y, state.p_min.y, state.p_max.y, state.res.y, a.scaled.y);
    lemma_border(a.p.z, state.p_min.z, state.p_max.z, state.res.z, a.scaled.z);
}

proof fn lemma_spread(p: int, q: int, res: int)
    ensures
        (q - p) * res == q * res - p * res,
        (p - q) * res == p * res - q * res,
{
    assert((q - p) * res == q * res - p * res) by (nonlinear_arith);
    assert((p - q) * res == p * res - q * res) by (nonlinear_arith);
}

/// A coordinate differs by no more than the distance.
proof fn lemma_axis_within(dx: int, dy: int, dz: int, r: int, res: int, w: int)
    requires
        r >= 0,
        res >= 0,
        dx * dx + dy * dy + dz * dz <= r * r,
        r * res <= w,
    ensures
        -w <= dx * res <= w,
        -w <= dy * res <= w,
        -w <= dz * res <= w,
{
    assert(dx * dx >= 0 && dy * dy >= 0 && dz * dz >= 0) by (nonlinear_arith);
    lemma_root(dx, r);
    lemma_root(dy, r);
    lemma_root(dz, r);
    lemma_stretch(dx, r, res);
    lemma_stretch(dy, r, res);
    lemma_stretch(dz, r, res);
}

proof fn lemma_root(d: int, r: int)
    requires
        r >= 0,
        d * d <= r * r,
    ensures
        -r <= d <= r,
{
    if d > r {
        assert(d * d > r * r) by (nonlinear_arith)
            requires
                d > r,
                r >= 0,
        ;
    }
    if d < -r {
        assert(d * d > r * r) by (nonlinear_arith)
            requires
                d < -r,
                r >= 0,
        ;
    }
}

proof fn lemma_stretch(d: int, r: int, res: int)
    requires
        -r <= d <= r,
        res >= 0,
    ensures
        -(r * res) <= d * res <= r * res,
{
    assert(-(r * res) <= d * res <= r * res) by (nonlinear_arith)
        requires
            -r <= d <= r,
            res >= 0,
    ;
}

/// Points no further apart than the width of a cell lie in cells that touch.
pub proof fn law_near_points_touch(state: GridState, a: GridPoint, b: GridPoint, r: int)
    requires
        has_extent(state),
        has_cells(state),
        lies_exactly(state, a),
        lies_exactly(state, b),
        r >= 0,
        cells_span(state, r),
        within(a.p, b.p, r),
    ensures
        touching(cell_spec(state, a), cell_spec(state, b)),
{
    let dx = units(a.p.x) - units(b.p.x);
    let dy = units(a.p.y) - units(b.p.y);
    let dz = units(a.p.z) - units(b.p.z);
    let wx = units(state.p_max.x) - units(state.p_min.x);
    let wy = units(state.p_max.y) - units(state.p_min.y);
    let wz = units(state.p_max.z) - units(state.p_min.z);
    lemma_axis_within(dx, dy, dz, r, state.res.x as int, wx);
    lemma_axis_within(dx, dy, dz, r, state.res.y as int, wy);
    lemma_axis_within(dx, dy, dz, r, state.res.z as int, wz);
    lemma_spread(units(a.p.x), units(b.p.x), state.res.x as int);
    lemma_spread(units(a.p.y), units(b.p.y), state.res.y as int);
    lemma_spread(units(a.p.z), units(b.p.z), state.res.z as int);
    law_cells_follow_points(state, a, b);
}

/// A query of a complete grid whose cells are no smaller than the radius misses no point within
/// the radius, and invents none: what it meets are stored points.
pub proof fn law_no_neighbor_is_missed<T>(grid: &HashGrid<T>, p: GridPoint)
    requires
        grid.built(),
        has_cells(grid.state),
        has_extent(grid.state),
        is_finite(grid.state.radius),
        units(grid.state.radius) > 0,
        cells_span(grid.state, units(grid.state.radius)),
        lies_exactly(grid.state, p),
        forall|i: int|
            0 <= i < grid.cnt ==> lies_exactly(grid.state, #[trigger] grid.pos@[i]),
    ensures
        forall|i: u32|
            i < grid.cnt && within(
                (#[trigger] grid.pos@[i as int]).p,
                p.p,
                units(grid.state.radius),
            ) ==> grid.visits(p).contains(i),
        forall|j: int|
            0 <= j < grid.visits(p).len() ==> (#[trigger] grid.visits(p)[j]) < grid.cnt,
{
    let r = units(grid.state.radius);
    assert forall|i: u32|
        i < grid.cnt && within((#[trigger] grid.pos@[i as int]).p, p.p, r) implies grid.visits(
        p,
    ).contains(i) by {
        law_near_points_touch(grid.state, grid.pos@[i as int], p, r);
        law_query_is_complete(grid, p, i);
    }
    assert forall|j: int| 0 <= j < grid.visits(p).len() implies (#[trigger] grid.visits(p)[j])
        < grid.cnt by {
        law_query_is_sound(grid, p, j);
    }
}

} // verus!
