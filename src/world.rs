//! The world board and the generation step.

use crate::pos::{has_neighbours, neighbour_at, Pos};
use rand::Rng;
use std::time::{Duration, Instant};
use vstd::arithmetic::div_mod::lemma_fundamental_div_mod_converse;
use vstd::prelude::*;

verus! {

/// `std::time::Instant`, carried through `tick` to time the sweep.
#[verifier::external_type_specification]
#[verifier::external_body]
pub struct ExInstant(Instant);

/// Relies on `Instant::now`, which reads the monotonic clock: nothing is
/// known of the instant it returns.
pub assume_specification[ Instant::now ]() -> Instant;

/// Relies on `Instant::elapsed`, which reads the clock again: nothing is
/// known of the duration it returns.
pub assume_specification[ Instant::elapsed ](instant: &Instant) -> Duration;

/// Relies on rand's `thread_rng` and `Rng::gen_range`: a draw from the
/// inclusive range `0..=5`, which is not empty, so the call does not panic.
#[verifier::external_body]
fn roll_die() -> (r: u8)
    ensures
        r <= 5,
{
    rand::thread_rng().gen_range(0..=5)
}

/// Relies on `String`'s `FromIterator<char>`: the string holds the given
/// characters, in order.
#[verifier::external_body]
fn string_of(chars: &Vec<char>) -> (r: String)
    ensures
        r@ == chars@,
{
    chars.iter().collect()
}

/// The glyph that shows a cell.
pub open spec fn glyph(alive: bool) -> char {
    if alive {
        '\u{25A0}'
    } else {
        ' '
    }
}

/// `after` is the generation that follows `before`: same dimensions, and
/// every cell on the board follows the Game of Life rule.
pub open spec fn is_successor(before: World, after: World) -> bool {
    &&& after.width() == before.width()
    &&& after.height() == before.height()
    &&& forall|x: int, y: int|
        before.in_bounds(x, y) ==> #[trigger] after.alive(x, y) == before.next_alive(x, y)
}

/// The Game of Life rule: whether a cell is alive in the next generation,
/// given whether it is alive now and how many of its neighbours are.
pub open spec fn life_rule(alive: bool, living_neighbours: int) -> bool {
    if alive {
        living_neighbours == 2 || living_neighbours == 3
    } else {
        living_neighbours == 3
    }
}

/// Dimensions for which a board can be held: every coordinate fits in
/// `isize` along with its neighbours, and the cell count fits in `usize`.
pub open spec fn fits(dimensions: (usize, usize)) -> bool {
    &&& dimensions.0 < isize::MAX
    &&& dimensions.1 < isize::MAX
    &&& (dimensions.0 + 1) * (dimensions.1 + 1) <= usize::MAX
}

/// The number of cells of a board of the given dimensions: the rectangle
/// `[0, width] x [0, height]`, bounds included.
pub open spec fn cell_count(dimensions: (usize, usize)) -> int {
    (dimensions.0 + 1) * (dimensions.1 + 1)
}

/// Where the cell `(x, y)` is stored: row by row, one row per `x`.
pub open spec fn cell_index(dimensions: (usize, usize), x: int, y: int) -> int {
    x * (dimensions.1 + 1) + y
}

/// The world board: its dimensions, the grid that holds the current
/// generation, and a buffer of the same size that the next generation is
/// written to.
pub struct World {
    dimensions: (usize, usize),
    grid: Vec<bool>,
    buffer: Vec<bool>,
}

/// Lays out the cells of a board of the given dimensions one after another.
proof fn lemma_cell_index(dimensions: (usize, usize), x: int, y: int)
    requires
        0 <= x <= dimensions.0,
        0 <= y <= dimensions.1,
    ensures
        0 <= cell_index(dimensions, x, y) < cell_count(dimensions),
        cell_index(dimensions, x, y) / (dimensions.1 + 1) == x,
        cell_index(dimensions, x, y) % (dimensions.1 + 1) == y,
{
    let w = dimensions.0 as int;
    let h = dimensions.1 as int;
    assert(0 <= x * (h + 1) <= w * (h + 1)) by (nonlinear_arith)
        requires
            0 <= x <= w,
            0 <= h,
    ;
    assert((w + 1) * (h + 1) == w * (h + 1) + h + 1) by (nonlinear_arith);
    lemma_fundamental_div_mod_converse(cell_index(dimensions, x, y), h + 1, x, y);
}

/// The cell stored at index `i` lies in the rectangle, at `cell_index`.
proof fn lemma_index_cell(dimensions: (usize, usize), i: int)
    requires
        0 <= i < cell_count(dimensions),
    ensures
        0 <= i / (dimensions.1 + 1) <= dimensions.0,
        0 <= i % (dimensions.1 + 1) <= dimensions.1,
        cell_index(dimensions, i / (dimensions.1 + 1), i % (dimensions.1 + 1)) == i,
{
    let w = dimensions.0 as int;
    let h = dimensions.1 as int;
    let q = i / (h + 1);
    let r = i % (h + 1);
    assert(i == q * (h + 1) + r && 0 <= r < h + 1) by (nonlinear_arith)
        requires
            h + 1 > 0,
            q == i / (h + 1),
            r == i % (h + 1),
    ;
    assert(0 <= q <= w) by (nonlinear_arith)
        requires
            i == q * (h + 1) + r,
            0 <= r < h + 1,
            0 <= i < (w + 1) * (h + 1),
    ;
}

/// Two boards with the same dimensions and cells have the same cells alive
/// and the same counts of living neighbours.
proof fn lemma_same_cells(a: World, b: World)
    requires
        a.dimensions == b.dimensions,
        a.grid@ == b.grid@,
    ensures
        forall|x: int, y: int| #[trigger] a.alive(x, y) == b.alive(x, y),
        forall|x: int, y: int| #[trigger] a.living_neighbours(x, y) == b.living_neighbours(x, y),
{
    assert forall|x: int, y: int| #[trigger] a.living_neighbours(x, y) == b.living_neighbours(x, y) by {
        lemma_same_count(a, b, x, y, 8);
    }
}

proof fn lemma_same_count(a: World, b: World, x: int, y: int, k: nat)
    requires
        a.dimensions == b.dimensions,
        a.grid@ == b.grid@,
    ensures
        a.living_among(x, y, k) == b.living_among(x, y, k),
    decreases k,
{
    if k > 0 {
        lemma_same_count(a, b, x, y, (k - 1) as nat);
    }
}

impl World {
    /// The largest row coordinate `x`.
    pub closed spec fn width(&self) -> nat {
        self.dimensions.0 as nat
    }

    /// The largest column coordinate `y`.
    pub closed spec fn height(&self) -> nat {
        self.dimensions.1 as nat
    }

    /// The flag stored for an in-bounds cell.
    pub closed spec fn stored(&self, x: int, y: int) -> bool {
        self.grid@[cell_index(self.dimensions, x, y)]
    }

    /// Whether `(x, y)` lies on the board.
    pub open spec fn in_bounds(&self, x: int, y: int) -> bool {
        0 <= x <= self.width() && 0 <= y <= self.height()
    }

    /// Whether the cell at `(x, y)` is alive: cells off the board are dead.
    pub open spec fn alive(&self, x: int, y: int) -> bool {
        self.in_bounds(x, y) && self.stored(x, y)
    }

    /// How many of the first `k` neighbours of `(x, y)` are alive.
    pub open spec fn living_among(&self, x: int, y: int, k: nat) -> nat
        decreases k,
    {
        if k == 0 {
            0
        } else {
            let n = neighbour_at((x, y), k - 1);
            self.living_among(x, y, (k - 1) as nat) + if self.alive(n.0, n.1) {
                1nat
            } else {
                0nat
            }
        }
    }

    /// How many of the eight neighbours of `(x, y)` are alive.
    pub open spec fn living_neighbours(&self, x: int, y: int) -> nat {
        self.living_among(x, y, 8)
    }

    /// Whether the cell at `(x, y)` is alive in the generation after this one.
    pub open spec fn next_alive(&self, x: int, y: int) -> bool {
        life_rule(self.alive(x, y), self.living_neighbours(x, y) as int)
    }

    /// The board is well formed: both grids hold one flag per cell.
    pub closed spec fn wf(&self) -> bool {
        &&& fits(self.dimensions)
        &&& self.grid@.len() == cell_count(self.dimensions)
        &&& self.buffer@.len() == cell_count(self.dimensions)
    }

    /// A board with the given dimensions on which every cell is dead.
    pub fn dead(dimensions: (usize, usize)) -> (r: World)
        requires
            fits(dimensions),
        ensures
            r.wf(),
            r.width() == dimensions.0,
            r.height() == dimensions.1,
            forall|x: int, y: int| !r.alive(x, y),
    {
        let n = (dimensions.0 + 1) * (dimensions.1 + 1);
        let grid = vec![false; n];
        let buffer = vec![false; n];
        let r = World { dimensions, grid, buffer };
        assert forall|x: int, y: int| !r.alive(x, y) by {
            if r.in_bounds(x, y) {
                lemma_cell_index(dimensions, x, y);
            }
        }
        r
    }

    /// The text that shows row `x`: one glyph per column.
    pub open spec fn row_text(&self, x: int) -> Seq<char> {
        Seq::new(self.height() + 1, |y: int| glyph(self.alive(x, y)))
    }

    /// The text that shows the first `k` rows, each after a line break.
    pub open spec fn rows_text(&self, k: nat) -> Seq<char>
        decreases k,
    {
        if k == 0 {
            Seq::empty()
        } else {
            self.rows_text((k - 1) as nat) + seq!['\n'] + self.row_text(k - 1)
        }
    }

    /// The text that shows the whole board.
    pub open spec fn rendering(&self) -> Seq<char> {
        self.rows_text(self.width() + 1)
    }

    /// Construct a new game board with each cell alive with probability 1/6.
    pub fn new(dimensions: (usize, usize)) -> (r: World)
        requires
            fits(dimensions),
        ensures
            r.wf(),
            r.width() == dimensions.0,
            r.height() == dimensions.1,
    {
        let n = (dimensions.0 + 1) * (dimensions.1 + 1);
        let mut draws: Vec<u8> = Vec::new();
        let mut i: usize = 0;
        while i < n
            invariant
                i <= n,
                draws@.len() == i,
            decreases n - i,
        {
            draws.push(roll_die());
            i = i + 1;
        }
        World::from_draws(dimensions, &draws)
    }

    /// A board whose cells are decided by draws from `0..=5`, one per cell
    /// in storage order: a cell is alive when its draw is 5.
    pub fn from_draws(dimensions: (usize, usize), draws: &Vec<u8>) -> (r: World)
        requires
            fits(dimensions),
            draws@.len() == cell_count(dimensions),
        ensures
            r.wf(),
            r.width() == dimensions.0,
            r.height() == dimensions.1,
            forall|x: int, y: int|
                r.in_bounds(x, y) ==> #[trigger] r.alive(x, y) == (draws@[cell_index(
                    dimensions,
                    x,
                    y,
                )] == 5),
    {
        let n = draws.len();
        let mut grid: Vec<bool> = Vec::new();
        let mut i: usize = 0;
        while i < n
            invariant
                i <= n,
                n == draws@.len(),
                grid@.len() == i,
                forall|j: int| 0 <= j < i ==> #[trigger] grid@[j] == (draws@[j] == 5),
            decreases n - i,
        {
            grid.push(draws[i] == 5);
            i = i + 1;
        }
        let buffer = vec![false; n];
        let r = World { dimensions, grid, buffer };
        assert forall|x: int, y: int|
            r.in_bounds(x, y) implies #[trigger] r.alive(x, y) == (draws@[cell_index(
                dimensions,
                x,
                y,
            )] == 5) by {
            lemma_cell_index(dimensions, x, y);
        }
        r
    }

    /// The stored index of an in-bounds cell.
    fn index(&self, x: usize, y: usize) -> (r: usize)
        requires
            self.wf(),
            x <= self.width(),
            y <= self.height(),
        ensures
            r == cell_index(self.dimensions, x as int, y as int),
            r < self.grid@.len(),
    {
        proof {
            lemma_cell_index(self.dimensions, x as int, y as int);
        }
        x * (self.dimensions.1 + 1) + y
    }

    /// Determine whether the cell at a given position is alive.
    pub fn is_alive(&self, pos: &Pos) -> (r: bool)
        requires
            self.wf(),
        ensures
            r == self.alive(pos.x as int, pos.y as int),
    {
        if pos.x < 0 || pos.y < 0 {
            return false;
        }
        let x = pos.x as usize;
        let y = pos.y as usize;
        if x > self.dimensions.0 || y > self.dimensions.1 {
            return false;
        }
        self.grid[self.index(x, y)]
    }

    /// Overwrite the flag of an in-bounds cell.
    pub fn set_alive(&mut self, pos: &Pos, value: bool)
        requires
            old(self).wf(),
            old(self).in_bounds(pos.x as int, pos.y as int),
        ensures
            final(self).wf(),
            final(self).width() == old(self).width(),
            final(self).height() == old(self).height(),
            final(self).alive(pos.x as int, pos.y as int) == value,
            forall|x: int, y: int|
                (x, y) != (pos.x as int, pos.y as int) ==> #[trigger] final(self).alive(x, y)
                    == old(self).alive(x, y),
    {
        let i = self.index(pos.x as usize, pos.y as usize);
        self.grid.set(i, value);
        proof {
            assert forall|x: int, y: int|
                (x, y) != (pos.x as int, pos.y as int) implies #[trigger] self.alive(x, y)
                    == old(self).alive(x, y) by {
                if self.in_bounds(x, y) {
                    lemma_cell_index(self.dimensions, x, y);
                    lemma_cell_index(self.dimensions, pos.x as int, pos.y as int);
                }
            }
        }
    }

    /// Find the number of neighbours of this position that are alive.
    pub fn num_living_neighbours(&self, pos: &Pos) -> (r: usize)
        requires
            self.wf(),
            has_neighbours(pos@),
        ensures
            r == self.living_neighbours(pos.x as int, pos.y as int),
    {
        let neighbours = pos.neighbours();
        let mut count: usize = 0;
        let mut k: usize = 0;
        while k < 8
            invariant
                self.wf(),
                k <= 8,
                count == self.living_among(pos.x as int, pos.y as int, k as nat),
                count <= k,
                forall|j: int| 0 <= j < 8 ==> #[trigger] neighbours@[j]@ == neighbour_at(pos@, j),
            decreases 8 - k,
        {
            assert(neighbours@[k as int]@ == neighbour_at(pos@, k as int));
            if self.is_alive(&neighbours[k]) {
                count = count + 1;
            }
            k = k + 1;
        }
        count
    }

    /// Find the next state of the cell at a given position, by the Game of
    /// Life rules.
    pub fn next_cell_state(&self, pos: &Pos) -> (r: bool)
        requires
            self.wf(),
            has_neighbours(pos@),
        ensures
            r == self.next_alive(pos.x as int, pos.y as int),
    {
        let cell_state = self.is_alive(pos);
        let living_neighbours = self.num_living_neighbours(pos);
        if cell_state {
            if living_neighbours < 2 {
                false
            } else if living_neighbours == 2 || living_neighbours == 3 {
                true
            } else {
                false
            }
        } else {
            living_neighbours == 3
        }
    }

    /// Advance the board to the next generation, and return how long that
    /// took.
    pub fn tick(&mut self) -> (elapsed: Duration)
        requires
            old(self).wf(),
        ensures
            final(self).wf(),
            is_successor(*old(self), *final(self)),
    {
        let start = Instant::now();
        let n = self.grid.len();
        let rows = self.dimensions.1 + 1;
        let mut i: usize = 0;
        while i < n
            invariant
                self.wf(),
                i <= n,
                n == self.grid@.len(),
                rows == self.dimensions.1 + 1,
                self.dimensions == old(self).dimensions,
                self.grid@ == old(self).grid@,
                forall|j: int|
                    0 <= j < i ==> #[trigger] self.buffer@[j] == old(self).next_alive(
                        j / rows as int,
                        j % rows as int,
                    ),
            decreases n - i,
        {
            proof {
                lemma_index_cell(self.dimensions, i as int);
                lemma_same_cells(*self, *old(self));
            }
            let pos = Pos::new((i / rows) as isize, (i % rows) as isize);
            let next = self.next_cell_state(&pos);
            self.buffer.set(i, next);
            i = i + 1;
        }
        std::mem::swap(&mut self.grid, &mut self.buffer);
        proof {
            assert forall|x: int, y: int| old(self).in_bounds(x, y) implies #[trigger] self.alive(
                x,
                y,
            ) == old(self).next_alive(x, y) by {
                lemma_cell_index(self.dimensions, x, y);
            }
        }
        start.elapsed()
    }

    /// The board as text: each row `x` on a line of its own, after a line
    /// break, with one glyph for each column `y`.
    pub fn render(&self) -> (r: String)
        requires
            self.wf(),
        ensures
            r@ == self.rendering(),
    {
        let mut out: Vec<char> = Vec::new();
        let mut x: usize = 0;
        while x <= self.dimensions.0
            invariant
                self.wf(),
                x <= self.width() + 1,
                out@ == self.rows_text(x as nat),
            decreases self.width() + 1 - x,
        {
            out.push('\n');
            let mut y: usize = 0;
            while y <= self.dimensions.1
                invariant
                    self.wf(),
                    x <= self.width(),
                    y <= self.height() + 1,
                    out@ == self.rows_text(x as nat) + seq!['\n'] + self.row_text(x as int).take(
                        y as int,
                    ),
                decreases self.height() + 1 - y,
            {
                let alive = self.is_alive(&Pos::new(x as isize, y as isize));
                out.push(
                    if alive {
                        '\u{25A0}'
                    } else {
                        ' '
                    },
                );
                assert(self.row_text(x as int).take(y + 1) =~= self.row_text(x as int).take(
                    y as int,
                ).push(glyph(alive)));
                y = y + 1;
            }
            assert(self.row_text(x as int).take(y as int) =~= self.row_text(x as int));
            x = x + 1;
        }
        string_of(&out)
    }
}

} // verus!
