use crate::coordinate::{is_floor_distance, Coordinate};
use vstd::prelude::*;

verus! {

/// The base weight of every cell, so that a cell without trail or food can
/// still be chosen.
pub const BASE_ATTRACTION: i64 = 10;

/// One square of the grid.
#[derive(PartialEq, Eq, Structural, Debug, Clone, Copy)]
pub struct Cell {
    pub position: Coordinate,
    pub pheromones: i32,
    pub food: i32,
    pub is_obstacle: bool,
}

/// `a + b`, held at `i32::MAX`.
pub open spec fn saturating_add_i32(a: int, b: int) -> int {
    if a + b > i32::MAX {
        i32::MAX as int
    } else {
        a + b
    }
}

impl Cell {
    /// Counts of trail and food are never negative.
    pub open spec fn wf(&self) -> bool {
        self.pheromones >= 0 && self.food >= 0
    }

    /// The weight of this cell when an ant picks its next step.
    pub open spec fn attraction(&self) -> int {
        BASE_ATTRACTION + self.pheromones + self.food
    }

    /// The cell after one step of evaporation.
    pub open spec fn decayed(&self) -> Cell {
        Cell {
            pheromones: if self.pheromones > 0 {
                (self.pheromones - 1) as i32
            } else {
                self.pheromones
            },
            ..*self
        }
    }

    /// The cell after `n` steps of evaporation.
    pub open spec fn decayed_times(&self, n: nat) -> Cell
        decreases n,
    {
        if n == 0 {
            *self
        } else {
            self.decayed_times((n - 1) as nat).decayed()
        }
    }

    /// The cell with `amount` more units of food, held at `i32::MAX`.
    pub open spec fn with_food_added(&self, amount: int) -> Cell {
        Cell { food: saturating_add_i32(self.food as int, amount) as i32, ..*self }
    }

    /// The cell with `amount` more units of trail, held at `i32::MAX`.
    pub open spec fn with_pheromones_added(&self, amount: int) -> Cell {
        Cell { pheromones: saturating_add_i32(self.pheromones as int, amount) as i32, ..*self }
    }

    pub fn new(position: Coordinate) -> (r: Cell)
        ensures
            r == (Cell { position, pheromones: 0, food: 0, is_obstacle: false }),
    {
        Cell { position, pheromones: 0, food: 0, is_obstacle: false }
    }

    pub fn new_ex(position: Coordinate, is_obstacle: bool) -> (r: Cell)
        ensures
            r == (Cell { position, pheromones: 0, food: 0, is_obstacle }),
    {
        Cell { position, pheromones: 0, food: 0, is_obstacle }
    }

    pub fn get_attraction(&self) -> (r: i64)
        ensures
            r == self.attraction(),
    {
        BASE_ATTRACTION + self.pheromones as i64 + self.food as i64
    }

    /// The Euclidean distance between the two cells' positions, rounded down.
    pub fn distance_to(&self, other: &Cell) -> (r: i64)
        ensures
            is_floor_distance(self.position, other.position, r as int),
    {
        self.position.distance_to(other.position)
    }

    /// One step of evaporation: one unit of trail goes, if there is any.
    pub fn tick(&mut self)
        ensures
            *final(self) == old(self).decayed(),
    {
        if self.pheromones > 0 {
            self.pheromones = self.pheromones - 1;
        }
    }

    /// Adds `amount` units of trail, held at `i32::MAX`.
    pub fn add_pheromones(&mut self, amount: i64)
        requires
            amount >= 0,
        ensures
            *final(self) == old(self).with_pheromones_added(amount as int),
    {
        if amount >= i32::MAX as i64 - self.pheromones as i64 {
            self.pheromones = i32::MAX;
        } else {
            self.pheromones = (self.pheromones as i64 + amount) as i32;
        }
    }

    /// Adds `amount` units of food, held at `i32::MAX`.
    pub fn add_food(&mut self, amount: i32)
        requires
            amount >= 0,
        ensures
            *final(self) == old(self).with_food_added(amount as int),
    {
        if amount as i64 >= i32::MAX as i64 - self.food as i64 {
            self.food = i32::MAX;
        } else {
            self.food = self.food + amount;
        }
    }

    /// Attraction grows strictly with trail and with food, and is exactly
    /// the base weight on a cell with neither.
    pub proof fn lemma_attraction_monotonic(&self, other: &Cell)
        ensures
            self.food == other.food && self.pheromones < other.pheromones ==> self.attraction()
                < other.attraction(),
            self.pheromones == other.pheromones && self.food < other.food ==> self.attraction()
                < other.attraction(),
            self.pheromones == 0 && self.food == 0 ==> self.attraction() == 10,
    {
    }

    /// Evaporation never takes trail below zero: after `n` steps a cell
    /// holds its trail less `n`, or none.
    pub proof fn lemma_decay_floor(&self, n: nat)
        requires
            self.wf(),
        ensures
            self.decayed_times(n).wf(),
            self.decayed_times(n).pheromones == if self.pheromones >= n {
                self.pheromones - n
            } else {
                0
            },
            self.decayed_times(n).food == self.food,
            self.decayed_times(n).position == self.position,
            self.decayed_times(n).is_obstacle == self.is_obstacle,
        decreases n,
    {
        if n > 0 {
            self.lemma_decay_floor((n - 1) as nat);
        }
    }
}

} // verus!
