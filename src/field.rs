use crate::cell::Cell;
use crate::coordinate::Coordinate;
use crate::random::random_below;
use vstd::arithmetic::div_mod::lemma_fundamental_div_mod_converse;
use vstd::prelude::*;

verus! {

/// Food units that `place_food_by_pos` puts down: enough for a lasting source.
pub const FOOD_SOURCE_AMOUNT: i32 = 10000;

/// Chance, in percent, that a cell becomes an obstacle when a field is made.
pub const OBSTACLE_PERCENT: i64 = 20;

/// The number of neighbours a cell has on an unbounded grid.
pub const DIRECTIONS: usize = 8;

/// A `width` by `height` grid of cells, stored column by column: the cell at
/// `(x, y)` is number `x * height + y`.
pub struct Field {
    pub width: i32,
    pub height: i32,
    cells: Vec<Cell>,
}

/// The position of cell number `i` in a grid of the given height.
pub open spec fn grid_position(i: int, height: int) -> Coordinate {
    Coordinate { x: (i / height) as i32, y: (i % height) as i32 }
}

/// The offset to neighbour number `k`, clockwise from the upper left:
/// NW, N, NE, E, SE, S, SW, W.
pub open spec fn offset(k: int) -> (int, int) {
    if k == 0 {
        (-1, -1)
    } else if k == 1 {
        (0, -1)
    } else if k == 2 {
        (1, -1)
    } else if k == 3 {
        (1, 0)
    } else if k == 4 {
        (1, 1)
    } else if k == 5 {
        (0, 1)
    } else if k == 6 {
        (-1, 1)
    } else {
        (-1, 0)
    }
}

/// The cells that a sequence of references points to.
pub open spec fn deref_cells(s: Seq<&Cell>) -> Seq<Cell> {
    s.map_values(|p: &Cell| *p)
}

fn direction(k: usize) -> (r: (i32, i32))
    requires
        k < DIRECTIONS,
    ensures
        r.0 as int == offset(k as int).0,
        r.1 as int == offset(k as int).1,
{
    if k == 0 {
        (-1, -1)
    } else if k == 1 {
        (0, -1)
    } else if k == 2 {
        (1, -1)
    } else if k == 3 {
        (1, 0)
    } else if k == 4 {
        (1, 1)
    } else if k == 5 {
        (0, 1)
    } else if k == 6 {
        (-1, 1)
    } else {
        (-1, 0)
    }
}

proof fn lemma_index_bounds(x: int, y: int, width: int, height: int)
    requires
        0 <= x < width,
        0 <= y < height,
    ensures
        0 <= x * height + y < width * height,
{
    assert(0 <= x * height + y < width * height) by (nonlinear_arith)
        requires
            0 <= x < width,
            0 <= y < height,
    ;
}

/// What a field holds: its dimensions and its cells, in storage order.
pub struct FieldView {
    pub width: int,
    pub height: int,
    pub cells: Seq<Cell>,
}

impl View for Field {
    type V = FieldView;

    closed spec fn view(&self) -> FieldView {
        FieldView { width: self.width as int, height: self.height as int, cells: self.cells@ }
    }
}

impl FieldView {
    pub open spec fn in_bounds_xy(&self, x: int, y: int) -> bool {
        0 <= x < self.width && 0 <= y < self.height
    }

    pub open spec fn in_bounds(&self, c: Coordinate) -> bool {
        self.in_bounds_xy(c.x as int, c.y as int)
    }

    pub open spec fn index_of(&self, c: Coordinate) -> int {
        c.x * self.height + c.y
    }

    /// The cell at position `c`.
    pub open spec fn cell(&self, c: Coordinate) -> Cell {
        self.cells[self.index_of(c)]
    }

    /// Each position inside the bounds has exactly one cell, which knows its
    /// position and holds no negative count.
    pub open spec fn wf(&self) -> bool {
        &&& 0 < self.width <= i32::MAX
        &&& 0 < self.height <= i32::MAX
        &&& self.cells.len() == self.width * self.height
        &&& forall|i: int|
            0 <= i < self.cells.len() ==> {
                &&& (#[trigger] self.cells[i]).position == grid_position(i, self.height)
                &&& self.cells[i].wf()
            }
    }

    /// The field after one step of evaporation on every cell.
    pub open spec fn decayed(&self) -> FieldView {
        FieldView { cells: self.cells.map_values(|c: Cell| c.decayed()), ..*self }
    }

    /// Neighbour number `k` of `c`, which may lie outside the grid.
    pub open spec fn neighbor(c: Coordinate, k: int) -> Coordinate {
        Coordinate { x: (c.x + offset(k).0) as i32, y: (c.y + offset(k).1) as i32 }
    }

    /// Whether neighbour number `k` of `c` is a cell that one can step on.
    pub open spec fn is_open_neighbor(&self, c: Coordinate, k: int) -> bool {
        &&& self.in_bounds_xy(c.x + offset(k).0, c.y + offset(k).1)
        &&& !self.cell(Self::neighbor(c, k)).is_obstacle
    }

    /// One step of evaporation keeps a field well formed: no trail count
    /// goes below zero.
    pub proof fn lemma_decay_keeps_wf(&self)
        requires
            self.wf(),
        ensures
            self.decayed().wf(),
            forall|i: int|
                0 <= i < self.cells.len() ==> (#[trigger] self.decayed().cells[i]).pheromones
                    >= 0,
    {
        assert forall|i: int| 0 <= i < self.cells.len() implies {
            &&& (#[trigger] self.decayed().cells[i]).position == grid_position(i, self.height)
            &&& self.decayed().cells[i].wf()
        } by {
            assert(self.cells[i].wf());
        }
    }

    /// The open cells among the first `k` neighbours of `c`, in order.
    pub open spec fn steps_upto(&self, c: Coordinate, k: nat) -> Seq<Cell>
        decreases k,
    {
        if k == 0 {
            seq![]
        } else {
            let prev = self.steps_upto(c, (k - 1) as nat);
            if self.is_open_neighbor(c, k - 1) {
                prev.push(self.cell(Self::neighbor(c, k - 1)))
            } else {
                prev
            }
        }
    }

    /// The cells next to `c`, diagonals included, that lie inside the grid
    /// and are not obstacles, clockwise from the upper left.
    pub open spec fn steps(&self, c: Coordinate) -> Seq<Cell> {
        self.steps_upto(c, DIRECTIONS as nat)
    }

    /// A cell inside the bounds of a well-formed field knows its position.
    pub proof fn lemma_cell(&self, c: Coordinate)
        requires
            self.wf(),
            self.in_bounds(c),
        ensures
            0 <= self.index_of(c) < self.cells.len(),
            self.cell(c).position == c,
            self.cell(c).wf(),
    {
        let i = self.index_of(c);
        lemma_index_bounds(c.x as int, c.y as int, self.width, self.height);
        lemma_fundamental_div_mod_converse(i, self.height, c.x as int, c.y as int);
        assert(self.cells[i].position == grid_position(i, self.height));
    }

    /// Replacing one cell by a cell with the same position and no negative
    /// count keeps a field well formed.
    pub proof fn lemma_update_keeps_wf(&self, other: FieldView, c: Coordinate, new_cell: Cell)
        requires
            self.wf(),
            self.in_bounds(c),
            other.width == self.width,
            other.height == self.height,
            other.cells == self.cells.update(self.index_of(c), new_cell),
            new_cell.position == c,
            new_cell.wf(),
        ensures
            other.wf(),
    {
        self.lemma_cell(c);
        assert forall|i: int| 0 <= i < other.cells.len() implies {
            &&& (#[trigger] other.cells[i]).position == grid_position(i, other.height)
            &&& other.cells[i].wf()
        } by {
            if i != self.index_of(c) {
                assert(other.cells[i] == self.cells[i]);
            }
        }
    }

    /// The open neighbours lie inside the grid, are not obstacles, and are
    /// at most as many as the neighbours looked at.
    pub proof fn lemma_steps_upto(&self, c: Coordinate, k: nat)
        requires
            self.wf(),
            self.in_bounds(c),
            k <= DIRECTIONS,
        ensures
            self.steps_upto(c, k).len() <= k,
            forall|j: int|
                0 <= j < self.steps_upto(c, k).len() ==> {
                    &&& self.in_bounds((#[trigger] self.steps_upto(c, k)[j]).position)
                    &&& !self.steps_upto(c, k)[j].is_obstacle
                    &&& self.steps_upto(c, k)[j] == self.cell(
                        self.steps_upto(c, k)[j].position,
                    )
                    &&& self.steps_upto(c, k)[j].wf()
                },
        decreases k,
    {
        if k > 0 {
            self.lemma_steps_upto(c, (k - 1) as nat);
            let n = Self::neighbor(c, k - 1);
            if self.is_open_neighbor(c, k - 1) {
                self.lemma_cell(n);
            }
        }
    }

}

impl Field {
    /// Builds a field whose cell number `i` is an obstacle exactly when
    /// `obstacles[i]` is set; no cell holds food or trail.
    pub fn with_obstacles(width: i32, height: i32, obstacles: &Vec<bool>) -> (r: Field)
        requires
            width > 0,
            height > 0,
            obstacles@.len() == width * height,
        ensures
            r@.wf(),
            r@.width == width,
            r@.height == height,
            forall|i: int|
                0 <= i < r@.cells.len() ==> #[trigger] r@.cells[i] == (Cell {
                    position: grid_position(i, height as int),
                    pheromones: 0,
                    food: 0,
                    is_obstacle: obstacles@[i],
                }),
    {
        let total: usize = obstacles.len();
        let mut cells: Vec<Cell> = Vec::new();
        let mut x: i32 = 0;
        while x < width
            invariant
                0 <= x <= width,
                width > 0,
                height > 0,
                obstacles@.len() == width * height,
                total == obstacles@.len(),
                cells@.len() == x * height,
                forall|i: int|
                    0 <= i < cells@.len() ==> #[trigger] cells@[i] == (Cell {
                        position: grid_position(i, height as int),
                        pheromones: 0,
                        food: 0,
                        is_obstacle: obstacles@[i],
                    }),
            decreases width - x,
        {
            let mut y: i32 = 0;
            while y < height
                invariant
                    0 <= x < width,
                    0 <= y <= height,
                    width > 0,
                    height > 0,
                    obstacles@.len() == width * height,
                    total == obstacles@.len(),
                    cells@.len() == x * height + y,
                    forall|i: int|
                        0 <= i < cells@.len() ==> #[trigger] cells@[i] == (Cell {
                            position: grid_position(i, height as int),
                            pheromones: 0,
                            food: 0,
                            is_obstacle: obstacles@[i],
                        }),
                decreases height - y,
            {
                proof {
                    lemma_index_bounds(x as int, y as int, width as int, height as int);
                    lemma_fundamental_div_mod_converse(
                        x * height + y,
                        height as int,
                        x as int,
                        y as int,
                    );
                    assert(0 <= x * height <= x * height + y) by (nonlinear_arith)
                        requires
                            0 <= x,
                            0 <= y,
                            0 < height,
                    ;
                }
                let i: usize = (x as usize) * (height as usize) + (y as usize);
                cells.push(Cell::new_ex(Coordinate::new(x, y), obstacles[i]));
                y = y + 1;
            }
            proof {
                assert((x + 1) * height == x * height + height) by (nonlinear_arith);
            }
            x = x + 1;
        }
        Field { width, height, cells }
    }

    /// Builds a field in which each cell independently becomes an obstacle
    /// with a chance of `OBSTACLE_PERCENT` percent.
    pub fn new(width: i32, height: i32) -> (r: Field)
        requires
            width > 0,
            height > 0,
        ensures
            r@.wf(),
            r@.width == width,
            r@.height == height,
            forall|i: int|
                0 <= i < r@.cells.len() ==> {
                    &&& (#[trigger] r@.cells[i]).position == grid_position(i, height as int)
                    &&& r@.cells[i].pheromones == 0
                    &&& r@.cells[i].food == 0
                },
    {
        let mut obstacles: Vec<bool> = Vec::new();
        let mut x: i32 = 0;
        while x < width
            invariant
                0 <= x <= width,
                height > 0,
                obstacles@.len() == x * height,
            decreases width - x,
        {
            let mut y: i32 = 0;
            while y < height
                invariant
                    0 <= x < width,
                    0 <= y <= height,
                    obstacles@.len() == x * height + y,
                decreases height - y,
            {
                obstacles.push(random_below(100) < OBSTACLE_PERCENT);
                y = y + 1;
            }
            proof {
                assert((x + 1) * height == x * height + height) by (nonlinear_arith);
            }
            x = x + 1;
        }
        Field::with_obstacles(width, height, &obstacles)
    }

    /// All cells, in storage order.
    pub fn get_cells(&self) -> (r: &Vec<Cell>)
        ensures
            r@ == self@.cells,
    {
        &self.cells
    }

    fn get_index_in_vec(&self, x: i32, y: i32) -> (r: usize)
        requires
            self@.wf(),
            self@.in_bounds_xy(x as int, y as int),
        ensures
            r as int == self@.index_of(Coordinate { x, y }),
            r < self@.cells.len(),
    {
        proof {
            self@.lemma_cell(Coordinate { x, y });
            assert(self.cells.len() == self.cells@.len());
            assert(0 <= x * self.height <= x * self.height + y) by (nonlinear_arith)
                requires
                    0 <= x,
                    0 <= y,
                    0 < self.height,
            ;
        }
        (x as usize) * (self.height as usize) + (y as usize)
    }

    /// The cell at `(x, y)`, which must lie inside the grid.
    pub fn get(&self, x: i32, y: i32) -> (r: &Cell)
        requires
            self@.wf(),
            self@.in_bounds_xy(x as int, y as int),
        ensures
            *r == self@.cell(Coordinate { x, y }),
    {
        &self.cells[self.get_index_in_vec(x, y)]
    }

    /// The cell at `(x, y)`, which must lie inside the grid, for writing.
    pub fn get_mut(&mut self, x: i32, y: i32) -> (r: &mut Cell)
        requires
            old(self)@.wf(),
            old(self)@.in_bounds_xy(x as int, y as int),
        ensures
            *r == old(self)@.cell(Coordinate { x, y }),
            final(self)@ == (FieldView {
                cells: old(self)@.cells.update(
                    old(self)@.index_of(Coordinate { x, y }),
                    *final(r),
                ),
                ..old(self)@
            }),
    {
        let i = self.get_index_in_vec(x, y);
        &mut self.cells[i]
    }

    /// The stored cell at the position of `cell`, for writing.
    pub fn get_as_mut(&mut self, cell: &Cell) -> (r: &mut Cell)
        requires
            old(self)@.wf(),
            old(self)@.in_bounds(cell.position),
        ensures
            *r == old(self)@.cell(cell.position),
            final(self)@ == (FieldView {
                cells: old(self)@.cells.update(old(self)@.index_of(cell.position), *final(r)),
                ..old(self)@
            }),
    {
        self.get_mut(cell.position.x, cell.position.y)
    }

    /// The cell at `pos`, which must lie inside the grid.
    pub fn get_by_pos(&self, pos: Coordinate) -> (r: &Cell)
        requires
            self@.wf(),
            self@.in_bounds(pos),
        ensures
            *r == self@.cell(pos),
    {
        self.get(pos.x, pos.y)
    }

    /// The cell at `pos`, which must lie inside the grid, for writing.
    pub fn get_mut_by_pos(&mut self, pos: Coordinate) -> (r: &mut Cell)
        requires
            old(self)@.wf(),
            old(self)@.in_bounds(pos),
        ensures
            *r == old(self)@.cell(pos),
            final(self)@ == (FieldView {
                cells: old(self)@.cells.update(old(self)@.index_of(pos), *final(r)),
                ..old(self)@
            }),
    {
        self.get_mut(pos.x, pos.y)
    }

    /// One step of evaporation on every cell.
    pub fn tick(&mut self)
        requires
            old(self)@.wf(),
        ensures
            final(self)@.wf(),
            final(self)@ == old(self)@.decayed(),
    {
        proof {
            old(self)@.lemma_decay_keeps_wf();
        }
        let n: usize = self.cells.len();
        let mut i: usize = 0;
        while i < n
            invariant
                old(self)@.wf(),
                n == self.cells@.len(),
                n == old(self)@.cells.len(),
                0 <= i <= n,
                self.width == old(self).width,
                self.height == old(self).height,
                forall|j: int| 0 <= j < i ==> #[trigger] self.cells@[j] == old(self)@.cells[j].decayed(),
                forall|j: int| i <= j < n ==> #[trigger] self.cells@[j] == old(self)@.cells[j],
            decreases n - i,
        {
            let mut c: Cell = self.cells[i];
            c.tick();
            self.cells.set(i, c);
            i = i + 1;
        }
        assert(self@.cells =~= old(self)@.decayed().cells);
    }

    /// The cells next to `pos` that an ant could step on: inside the grid
    /// and not obstacles, diagonals included, clockwise from the upper left.
    pub fn steps_from_pos<'a>(&'a self, pos: Coordinate) -> (r: Vec<&'a Cell>)
        requires
            self@.wf(),
            self@.in_bounds(pos),
        ensures
            deref_cells(r@) == self@.steps(pos),
    {
        proof {
            self@.lemma_cell(pos);
        }
        self.steps_from(self.get_by_pos(pos))
    }

    /// The cells next to `cell` that an ant could step on: inside the grid
    /// and not obstacles, diagonals included, clockwise from the upper left.
    pub fn steps_from<'a>(&'a self, cell: &Cell) -> (r: Vec<&'a Cell>)
        requires
            self@.wf(),
            self@.in_bounds(cell.position),
        ensures
            deref_cells(r@) == self@.steps(cell.position),
    {
        let c = cell.position;
        let mut steps: Vec<&'a Cell> = Vec::new();
        let mut k: usize = 0;
        while k < DIRECTIONS
            invariant
                self@.wf(),
                self@.in_bounds(c),
                0 <= k <= DIRECTIONS,
                deref_cells(steps@) == self@.steps_upto(c, k as nat),
            decreases DIRECTIONS - k,
        {
            let d = direction(k);
            let nx: i32 = c.x + d.0;
            let ny: i32 = c.y + d.1;
            if 0 <= nx && nx < self.width && 0 <= ny && ny < self.height {
                let n = self.get(nx, ny);
                if !n.is_obstacle {
                    let ghost before = steps@;
                    steps.push(n);
                    assert(deref_cells(steps@) =~= deref_cells(before).push(*n));
                }
            }
            k = k + 1;
        }
        steps
    }

    /// Adds `amount` units of food to the cell at `pos`, held at `i32::MAX`.
    pub fn place_food(&mut self, pos: Coordinate, amount: i32)
        requires
            old(self)@.wf(),
            old(self)@.in_bounds(pos),
            amount >= 0,
        ensures
            final(self)@.wf(),
            final(self)@ == (FieldView {
                cells: old(self)@.cells.update(
                    old(self)@.index_of(pos),
                    old(self)@.cell(pos).with_food_added(amount as int),
                ),
                ..old(self)@
            }),
    {
        proof {
            old(self)@.lemma_cell(pos);
        }
        let cell = self.get_mut_by_pos(pos);
        cell.add_food(amount);
        proof {
            old(self)@.lemma_update_keeps_wf(self@, pos, old(self)@.cell(pos).with_food_added(amount as int));
        }
    }

    /// Puts a lasting food source of `FOOD_SOURCE_AMOUNT` units at `pos`.
    pub fn place_food_by_pos(&mut self, pos: Coordinate)
        requires
            old(self)@.wf(),
            old(self)@.in_bounds(pos),
        ensures
            final(self)@.wf(),
            final(self)@ == (FieldView {
                cells: old(self)@.cells.update(
                    old(self)@.index_of(pos),
                    old(self)@.cell(pos).with_food_added(FOOD_SOURCE_AMOUNT as int),
                ),
                ..old(self)@
            }),
    {
        self.place_food(pos, FOOD_SOURCE_AMOUNT);
    }
}

} // verus!
