//! Properties of whole generations: still lifes, oscillators, the
//! board's edge, and determinism.

use crate::world::{is_successor, life_rule, World};
use vstd::prelude::*;

verus! {

/// `1` for a live cell, `0` for a dead one.
pub open spec fn live(alive: bool) -> nat {
    if alive {
        1
    } else {
        0
    }
}

/// The living neighbours of `(x, y)`, written out one by one.
pub open spec fn neighbour_sum(w: World, x: int, y: int) -> nat {
    live(w.alive(x + 1, y + 1)) + live(w.alive(x + 1, y - 1)) + live(w.alive(x - 1, y + 1))
        + live(w.alive(x - 1, y - 1)) + live(w.alive(x + 1, y)) + live(w.alive(x, y + 1))
        + live(w.alive(x - 1, y)) + live(w.alive(x, y - 1))
}

/// The neighbour count is the sum over the eight neighbours.
pub proof fn living_neighbours_sum(w: World, x: int, y: int)
    ensures
        w.living_neighbours(x, y) == neighbour_sum(w, x, y),
{
    reveal_with_fuel(World::living_among, 9);
}

/// Two boards hold the same cells: same dimensions, same cells alive.
pub open spec fn same_cells(a: World, b: World) -> bool {
    &&& a.width() == b.width()
    &&& a.height() == b.height()
    &&& forall|x: int, y: int| #[trigger] a.alive(x, y) == b.alive(x, y)
}

/// The live cells of `w` are exactly the 2x2 block whose lowest corner is
/// `(a, b)`.
pub open spec fn is_block(w: World, a: int, b: int) -> bool {
    forall|x: int, y: int| #[trigger] w.alive(x, y) == (a <= x <= a + 1 && b <= y <= b + 1)
}

/// The live cells of `w` are exactly the three cells of row `a` centred
/// on column `b`.
pub open spec fn is_row(w: World, a: int, b: int) -> bool {
    forall|x: int, y: int| #[trigger] w.alive(x, y) == (x == a && b - 1 <= y <= b + 1)
}

/// The live cells of `w` are exactly the three cells of column `b` centred
/// on row `a`.
pub open spec fn is_column(w: World, a: int, b: int) -> bool {
    forall|x: int, y: int| #[trigger] w.alive(x, y) == (y == b && a - 1 <= x <= a + 1)
}

/// A 2x2 block is a still life: the next generation is the same block.
pub proof fn block_is_still(before: World, after: World, a: int, b: int)
    requires
        is_block(before, a, b),
        is_successor(before, after),
    ensures
        is_block(after, a, b),
{
    assert forall|x: int, y: int| #[trigger]
        after.alive(x, y) == (a <= x <= a + 1 && b <= y <= b + 1) by {
        if before.in_bounds(x, y) {
            living_neighbours_sum(before, x, y);
        } else {
            assert(!before.alive(x, y));
        }
    }
}

/// A row of three becomes a column of three about the same centre, when
/// the column fits on the board.
proof fn row_turns_to_column(before: World, after: World, a: int, b: int)
    requires
        is_row(before, a, b),
        before.in_bounds(a - 1, b),
        before.in_bounds(a + 1, b),
        is_successor(before, after),
    ensures
        is_column(after, a, b),
{
    assert forall|x: int, y: int| #[trigger]
        after.alive(x, y) == (y == b && a - 1 <= x <= a + 1) by {
        if before.in_bounds(x, y) {
            living_neighbours_sum(before, x, y);
        } else {
            assert(!before.alive(x, y));
        }
    }
}

/// A column of three becomes a row of three about the same centre, when
/// the row fits on the board.
proof fn column_turns_to_row(before: World, after: World, a: int, b: int)
    requires
        is_column(before, a, b),
        before.in_bounds(a, b - 1),
        before.in_bounds(a, b + 1),
        is_successor(before, after),
    ensures
        is_row(after, a, b),
{
    assert forall|x: int, y: int| #[trigger]
        after.alive(x, y) == (x == a && b - 1 <= y <= b + 1) by {
        if before.in_bounds(x, y) {
            living_neighbours_sum(before, x, y);
        } else {
            assert(!before.alive(x, y));
        }
    }
}

/// The blinker oscillates: a row of three whose surrounding 3x3 square
/// lies on the board becomes a column of three after one generation, and
/// the same row again after two.
pub proof fn blinker_oscillates(first: World, second: World, third: World, a: int, b: int)
    requires
        is_row(first, a, b),
        first.in_bounds(a - 1, b - 1),
        first.in_bounds(a + 1, b + 1),
        is_successor(first, second),
        is_successor(second, third),
    ensures
        is_column(second, a, b),
        is_row(third, a, b),
{
    row_turns_to_column(first, second, a, b);
    column_turns_to_row(second, third, a, b);
}

/// At the corner `(0, 0)` only `(0, 1)`, `(1, 0)` and `(1, 1)` can be
/// living neighbours, and the next generation of the corner is decided by
/// them alone.
pub proof fn corner_neighbours(before: World, after: World)
    requires
        is_successor(before, after),
    ensures
        before.living_neighbours(0, 0) == live(before.alive(0, 1)) + live(before.alive(1, 0))
            + live(before.alive(1, 1)),
        after.alive(0, 0) == life_rule(
            before.alive(0, 0),
            (live(before.alive(0, 1)) + live(before.alive(1, 0)) + live(before.alive(1, 1))) as int,
        ),
{
    living_neighbours_sum(before, 0, 0);
    assert(before.in_bounds(0, 0));
}

/// One generation is determined by the cells alone: boards with the same
/// cells have successors with the same cells.
pub proof fn tick_is_deterministic(a: World, b: World, next_a: World, next_b: World)
    requires
        same_cells(a, b),
        is_successor(a, next_a),
        is_successor(b, next_b),
    ensures
        same_cells(next_a, next_b),
{
    assert forall|x: int, y: int| #[trigger] next_a.alive(x, y) == next_b.alive(x, y) by {
        if a.in_bounds(x, y) {
            living_neighbours_sum(a, x, y);
            living_neighbours_sum(b, x, y);
        }
    }
}

/// Runs are deterministic: two runs of the same number of generations from
/// boards with the same cells end on boards with the same cells.
pub proof fn runs_are_deterministic(run_a: Seq<World>, run_b: Seq<World>)
    requires
        run_a.len() == run_b.len(),
        run_a.len() > 0,
        same_cells(run_a[0], run_b[0]),
        forall|i: int| 0 <= i < run_a.len() - 1 ==> is_successor(#[trigger] run_a[i], run_a[i + 1]),
        forall|i: int| 0 <= i < run_b.len() - 1 ==> is_successor(#[trigger] run_b[i], run_b[i + 1]),
    ensures
        same_cells(run_a.last(), run_b.last()),
    decreases run_a.len(),
{
    if run_a.len() > 1 {
        let n = run_a.len() - 1;
        runs_are_deterministic(run_a.take(n), run_b.take(n));
        tick_is_deterministic(run_a[n - 1], run_b[n - 1], run_a[n], run_b[n]);
    }
}

} // verus!
