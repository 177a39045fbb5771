use crate::cell::Cell;
use crate::coordinate::{is_floor_distance, Coordinate, DISTANCE_BOUND};
use crate::field::{deref_cells, Field, FieldView, DIRECTIONS};
use crate::random::random_below;
use vstd::prelude::*;

verus! {

/// Trail units that an ant carrying food leaves per unit of distance between
/// the food it found and its home.
pub const PHEROMONES_PER_DISTANCE: i64 = 10;

/// An ant walking the grid. It explores from `home`, laying a trail that
/// never visits a cell twice; when it finds food, or gets stuck, it walks that
/// trail back home.
pub struct Ant {
    home: Coordinate,
    pub current_cell: Coordinate,
    is_returning: bool,
    is_good_returning: bool,
    distance_to_food: i64,
    current_path: Vec<Coordinate>,
}

/// The outcome of one move.
#[derive(PartialEq, Eq, Structural, Debug, Clone, Copy)]
pub enum AntMoveResult {
    Moved,
    Died,
}

/// What an ant is: its home and position, its state, and its trail from
/// home, home first.
pub struct AntView {
    pub home: Coordinate,
    pub current: Coordinate,
    pub is_returning: bool,
    pub is_good_returning: bool,
    pub distance_to_food: int,
    pub path: Seq<Coordinate>,
}

/// The sum of the first `k` weights.
pub open spec fn prefix_sum(w: Seq<i64>, k: int) -> int
    decreases k,
{
    if k <= 0 {
        0
    } else {
        prefix_sum(w, k - 1) + w[k - 1]
    }
}

/// The cell with the food count it has after one unit is taken, if it had any.
pub open spec fn food_taken(c: Cell) -> Cell {
    if c.food > 0 {
        Cell { food: (c.food - 1) as i32, ..c }
    } else {
        c
    }
}

/// The cell as an ant in state `a` leaves it after looking at it: trail is
/// added when the ant carries food.
pub open spec fn deposited(c: Cell, a: AntView) -> Cell {
    if a.is_good_returning {
        c.with_pheromones_added(PHEROMONES_PER_DISTANCE * a.distance_to_food)
    } else {
        c
    }
}

impl AntView {
    /// A new ant at `home`, exploring.
    pub open spec fn fresh(home: Coordinate) -> AntView {
        AntView {
            home,
            current: home,
            is_returning: false,
            is_good_returning: false,
            distance_to_food: 0,
            path: seq![home],
        }
    }

    /// The trail is never empty, starts at home, ends where the ant stands
    /// and never visits a cell twice; an ant carrying food is returning.
    pub open spec fn wf(&self) -> bool {
        &&& self.path.len() >= 1
        &&& self.path[0] == self.home
        &&& self.path.last() == self.current
        &&& self.path.no_duplicates()
        &&& self.is_good_returning ==> self.is_returning
        &&& 0 <= self.distance_to_food < DISTANCE_BOUND
    }

    /// Every position the ant knows lies inside the field.
    pub open spec fn within(&self, f: FieldView) -> bool {
        &&& f.in_bounds(self.current)
        &&& forall|i: int| 0 <= i < self.path.len() ==> f.in_bounds(#[trigger] self.path[i])
    }

    /// Whether the ant may step onto `c`: not an obstacle nor where it
    /// stands; off its trail while exploring, the end of its trail while
    /// returning.
    pub open spec fn can_move_to(&self, c: Cell) -> bool {
        &&& !c.is_obstacle
        &&& c.position != self.current
        &&& (self.is_returning || !self.path.contains(c.position))
        &&& (!self.is_returning || (self.path.len() > 0 && self.path.last() == c.position))
    }

    /// The cells of `cells` that the ant may step onto, in order.
    pub open spec fn legal(&self, cells: Seq<Cell>) -> Seq<Cell>
        decreases cells.len(),
    {
        if cells.len() == 0 {
            seq![]
        } else {
            let prev = self.legal(cells.drop_last());
            if self.can_move_to(cells.last()) {
                prev.push(cells.last())
            } else {
                prev
            }
        }
    }

    /// The ant before it picks a step: at home it starts exploring afresh;
    /// returning, it drops the end of its trail when it stands there.
    pub open spec fn settled(&self) -> AntView {
        let a = if self.current == self.home {
            AntView { is_returning: false, is_good_returning: false, ..*self }
        } else {
            *self
        };
        if a.is_returning && a.path.len() > 0 && a.path.last() == a.current {
            AntView { path: a.path.drop_last(), ..a }
        } else {
            a
        }
    }

    /// The ant after stepping onto `pos`: exploring, it extends its trail.
    pub open spec fn stepped(&self, pos: Coordinate) -> AntView {
        AntView {
            current: pos,
            path: if self.is_returning {
                self.path
            } else {
                self.path.push(pos)
            },
            ..*self
        }
    }

    /// The cells the ant may step onto next, once settled.
    pub open spec fn candidates(&self, f: FieldView) -> Seq<Cell> {
        let s = self.settled();
        s.legal(f.steps(s.current))
    }

    /// Whether a move dies: the ant is returning and nothing is left to step on.
    pub open spec fn dies(&self, f: FieldView) -> bool {
        self.settled().is_returning && self.candidates(f).len() == 0
    }

    /// Whether `next` is an outcome of a move that does not die: an ant
    /// with nowhere to go turns back where it stands; otherwise it takes one
    /// of its candidate steps.
    pub open spec fn moves_to(&self, f: FieldView, next: AntView) -> bool {
        let s = self.settled();
        let c = self.candidates(f);
        if c.len() == 0 {
            next == AntView { is_returning: true, ..s }
        } else {
            exists|i: int| 0 <= i < c.len() && next == s.stepped(#[trigger] c[i].position)
        }
    }

    /// Whether `(next, cell)` is the outcome of the ant looking at `c`,
    /// the cell it stands on: it takes one unit of food if there is any,
    /// turning back with it and noting the distance home; then it leaves
    /// trail if it carries food.
    pub open spec fn checks_to(&self, c: Cell, next: AntView, cell: Cell) -> bool {
        &&& if c.food > 0 {
            &&& next == AntView {
                is_returning: true,
                is_good_returning: true,
                distance_to_food: next.distance_to_food,
                ..*self
            }
            &&& is_floor_distance(self.current, self.home, next.distance_to_food)
        } else {
            next == *self
        }
        &&& cell == deposited(food_taken(c), next)
    }

    /// An ant carrying food leaves trail in proportion to the distance it
    /// noted, on each cell it stands on, and walks its trail back one cell
    /// at a time without forgetting that distance. Here: one look at a cell
    /// without food, then one move that does not die, away from home.
    pub proof fn lemma_return_trip(
        &self,
        c: Cell,
        after_check: AntView,
        cell: Cell,
        f: FieldView,
        after_move: AntView,
    )
        requires
            self.wf(),
            self.is_good_returning,
            self.current != self.home,
            c.food == 0,
            self.checks_to(c, after_check, cell),
            !after_check.dies(f),
            after_check.moves_to(f, after_move),
        ensures
            cell == c.with_pheromones_added(PHEROMONES_PER_DISTANCE * self.distance_to_food),
            after_move.is_good_returning,
            after_move.distance_to_food == self.distance_to_food,
            after_move.path == self.path.drop_last(),
            after_move.current == self.path[self.path.len() - 2],
    {
        lemma_settled_keeps(*self);
        let s = self.settled();
        assert(self.path.len() >= 2) by {
            if self.path.len() == 1 {
                assert(self.path[0] == self.path.last());
            }
        }
        let cands = self.candidates(f);
        s.lemma_legal(f.steps(s.current));
        let i = choose|i: int| 0 <= i < cands.len() && after_move == s.stepped(#[trigger] cands[i].position);
        assert(s.can_move_to(cands[i]));
    }

    /// A returning ant away from home with nowhere to step dies, and its
    /// colony's slot then holds a new exploring ant at home.
    pub proof fn lemma_death_respawn(&self, f: FieldView)
        requires
            self.wf(),
            self.is_returning,
            self.current != self.home,
            self.candidates(f).len() == 0,
        ensures
            self.dies(f),
            !AntView::fresh(self.home).is_returning,
            AntView::fresh(self.home).current == self.home,
            AntView::fresh(self.home).path == seq![self.home],
            AntView::fresh(self.home).wf(),
    {
        assert(AntView::fresh(self.home).path.no_duplicates());
    }

    pub proof fn lemma_legal(&self, cells: Seq<Cell>)
        ensures
            self.legal(cells).len() <= cells.len(),
            forall|j: int|
                0 <= j < self.legal(cells).len() ==> {
                    &&& self.can_move_to(#[trigger] self.legal(cells)[j])
                    &&& cells.contains(self.legal(cells)[j])
                },
        decreases cells.len(),
    {
        if cells.len() > 0 {
            let prev = cells.drop_last();
            self.lemma_legal(prev);
            assert forall|j: int|
                0 <= j < self.legal(cells).len() implies {
                    &&& self.can_move_to(#[trigger] self.legal(cells)[j])
                    &&& cells.contains(self.legal(cells)[j])
                } by {
                if j < self.legal(prev).len() {
                    let k = choose|k: int| 0 <= k < prev.len() && prev[k] == self.legal(prev)[j];
                    assert(cells[k] == prev[k]);
                } else {
                    assert(cells[cells.len() - 1] == cells.last());
                }
            }
        }
    }
}

impl View for Ant {
    type V = AntView;

    closed spec fn view(&self) -> AntView {
        AntView {
            home: self.home,
            current: self.current_cell,
            is_returning: self.is_returning,
            is_good_returning: self.is_good_returning,
            distance_to_food: self.distance_to_food as int,
            path: self.current_path@,
        }
    }
}

/// The index `r` whose weight covers `draw` when the weights are laid end to
/// end: the first `r` weights sum to at most `draw`, the first `r + 1` to
/// more. Drawing `draw` uniformly below the total picks each index with a
/// chance proportional to its weight.
pub fn pick_weighted(weights: &Vec<i64>, draw: i64) -> (r: usize)
    requires
        forall|i: int| 0 <= i < weights@.len() ==> weights@[i] > 0,
        0 <= draw < prefix_sum(weights@, weights@.len() as int),
    ensures
        r < weights@.len(),
        prefix_sum(weights@, r as int) <= draw < prefix_sum(weights@, r + 1),
{
    let n = weights.len();
    let mut i: usize = 0;
    let mut acc: i64 = 0;
    while i < n
        invariant
            n == weights@.len(),
            0 <= i <= n,
            forall|j: int| 0 <= j < weights@.len() ==> weights@[j] > 0,
            acc == prefix_sum(weights@, i as int),
            0 <= acc <= draw,
            draw < prefix_sum(weights@, n as int),
        decreases n - i,
    {
        if draw - acc < weights[i] {
            return i;
        }
        acc = acc + weights[i];
        i = i + 1;
    }
    i
}

impl Ant {
    /// A new ant at `home`, exploring, whose trail is just its home.
    pub fn new(home: Coordinate) -> (r: Ant)
        ensures
            r@ == AntView::fresh(home),
            r@.wf(),
    {
        let mut current_path: Vec<Coordinate> = Vec::new();
        current_path.push(home);
        let r = Ant {
            home,
            current_cell: home,
            is_returning: false,
            is_good_returning: false,
            distance_to_food: 0,
            current_path,
        };
        assert(r@.path =~= seq![home]);
        r
    }

    pub fn home(&self) -> (r: Coordinate)
        ensures
            r == self@.home,
    {
        self.home
    }

    pub fn current(&self) -> (r: Coordinate)
        ensures
            r == self@.current,
    {
        self.current_cell
    }

    pub fn is_returning(&self) -> (r: bool)
        ensures
            r == self@.is_returning,
    {
        self.is_returning
    }

    /// Whether the ant is returning because it found food.
    pub fn is_good_returning(&self) -> (r: bool)
        ensures
            r == self@.is_good_returning,
    {
        self.is_good_returning
    }

    pub fn distance_to_food(&self) -> (r: i64)
        ensures
            r == self@.distance_to_food,
    {
        self.distance_to_food
    }

    /// The trail from home, home first.
    pub fn path(&self) -> (r: &Vec<Coordinate>)
        ensures
            r@ == self@.path,
    {
        &self.current_path
    }

    /// Moves onto `cell`; exploring, the trail grows by it.
    pub fn step_to(&mut self, cell: &Cell)
        ensures
            final(self)@ == old(self)@.stepped(cell.position),
    {
        let pos = cell.position;
        if !self.is_returning {
            self.current_path.push(pos);
        }
        self.current_cell = pos;
    }

    /// Whether the ant may step onto `cell`.
    pub fn can_move_to(&self, cell: &Cell) -> (r: bool)
        ensures
            r == self@.can_move_to(*cell),
    {
        let pos = cell.position;
        let n = self.current_path.len();
        !cell.is_obstacle && pos != self.current_cell && (self.is_returning
            || !vec_contains(&self.current_path, pos)) && (!self.is_returning || (n > 0
            && self.current_path[n - 1] == pos))
    }

    /// Steps 1 and 2 of a move: at home the ant starts exploring afresh;
    /// returning, it drops the end of its trail when it stands there.
    fn settle(&mut self)
        ensures
            final(self)@ == old(self)@.settled(),
    {
        if self.current_cell == self.home {
            self.is_returning = false;
            self.is_good_returning = false;
        }
        if self.is_returning {
            let n = self.current_path.len();
            if n > 0 && self.current_path[n - 1] == self.current_cell {
                self.current_path.pop();
            }
        }
    }

    /// The cells next to the ant that it may step onto, in the order of
    /// `Field::steps_from_pos`.
    pub fn candidate_steps(&self, field: &Field) -> (r: Vec<Cell>)
        requires
            field@.wf(),
            field@.in_bounds(self@.current),
        ensures
            r@ == self@.legal(field@.steps(self@.current)),
    {
        let steps = field.steps_from_pos(self.current_cell);
        let ghost cells = deref_cells(steps@);
        let mut out: Vec<Cell> = Vec::new();
        let mut i: usize = 0;
        while i < steps.len()
            invariant
                cells == deref_cells(steps@),
                0 <= i <= steps@.len(),
                out@ == self@.legal(cells.take(i as int)),
            decreases steps@.len() - i,
        {
            let c: Cell = *steps[i];
            assert(cells.take(i + 1).drop_last() =~= cells.take(i as int));
            assert(cells.take(i + 1).last() == c);
            if self.can_move_to(&c) {
                out.push(c);
            }
            i = i + 1;
        }
        assert(cells.take(steps@.len() as int) =~= cells);
        out
    }

    /// One move. At home the ant starts exploring afresh; returning, it
    /// first drops the end of its trail when it stands there. Then it picks
    /// one of the cells it may step onto, each with a chance proportional to
    /// its attraction, and steps there. With nowhere to go, an exploring
    /// ant turns back where it stands, and a returning ant dies.
    pub fn make_move(&mut self, field: &Field) -> (r: AntMoveResult)
        requires
            old(self)@.wf(),
            field@.wf(),
            old(self)@.within(field@),
        ensures
            (r == AntMoveResult::Died) == old(self)@.dies(field@),
            r == AntMoveResult::Moved ==> old(self)@.moves_to(field@, final(self)@),
            r == AntMoveResult::Moved ==> final(self)@.wf(),
            r == AntMoveResult::Died ==> final(self)@ == old(self)@.settled(),
            final(self)@.within(field@),
            final(self)@.path.len() >= 1,
            final(self)@.path[0] == final(self)@.home,
            final(self)@.home == old(self)@.home,
            final(self)@.distance_to_food == old(self)@.distance_to_food,
    {
        proof {
            lemma_settled_keeps(old(self)@);
        }
        self.settle();
        let cands = self.candidate_steps(field);
        proof {
            field@.lemma_steps_upto(self@.current, DIRECTIONS as nat);
            self@.lemma_legal(field@.steps(self@.current));
        }
        if cands.len() == 0 {
            if !self.is_returning {
                self.is_returning = true;
                return AntMoveResult::Moved;
            } else {
                self.die();
                return AntMoveResult::Died;
            }
        }
        let n = cands.len();
        let mut weights: Vec<i64> = Vec::new();
        let mut total: i64 = 0;
        let mut i: usize = 0;
        while i < n
            invariant
                n == cands@.len(),
                n <= DIRECTIONS,
                0 <= i <= n,
                weights@.len() == i,
                forall|j: int| 0 <= j < n ==> (#[trigger] cands@[j]).wf(),
                forall|j: int| 0 <= j < i ==> #[trigger] weights@[j] > 0,
                total == prefix_sum(weights@, i as int),
                0 <= total <= i * 0x2_0000_0000,
                i > 0 ==> total > 0,
            decreases n - i,
        {
            let w = cands[i].get_attraction();
            proof {
                lemma_prefix_push(weights@, w, i as int);
            }
            weights.push(w);
            total = total + w;
            i = i + 1;
        }
        let draw = random_below(total);
        let k = pick_weighted(&weights, draw);
        let c = cands[k];
        proof {
            let s = self@;
            assert(field@.steps(s.current).contains(c));
            let j = choose|j: int| 0 <= j < field@.steps(s.current).len()
                && field@.steps(s.current)[j] == c;
            assert(field@.in_bounds(c.position));
            lemma_step_keeps(s, c.position, field@);
        }
        self.step_to(&c);
        AntMoveResult::Moved
    }

    /// A dead ant stays where it is; its colony puts a new ant in its place.
    fn die(&mut self)
        ensures
            *final(self) == *old(self),
    {
    }

    /// The trail left on a cell each time an ant carrying food stands on it.
    fn pheromone_count_to_put(&self) -> (r: i64)
        requires
            0 <= self@.distance_to_food < DISTANCE_BOUND,
        ensures
            r == PHEROMONES_PER_DISTANCE * self@.distance_to_food,
            r >= 0,
    {
        self.distance_to_food * PHEROMONES_PER_DISTANCE
    }

    /// Looks at the cell the ant stands on: if it holds food, the ant takes
    /// one unit, notes its distance from home and turns back with it. An ant
    /// carrying food then leaves `PHEROMONES_PER_DISTANCE` units of trail
    /// per unit of that distance on the cell.
    pub fn check_current_cell(&mut self, field: &mut Field)
        requires
            old(self)@.wf(),
            old(field)@.wf(),
            old(self)@.within(old(field)@),
        ensures
            old(self)@.checks_to(
                old(field)@.cell(old(self)@.current),
                final(self)@,
                final(field)@.cell(old(self)@.current),
            ),
            final(field)@ == (FieldView {
                cells: old(field)@.cells.update(
                    old(field)@.index_of(old(self)@.current),
                    final(field)@.cell(old(self)@.current),
                ),
                ..old(field)@
            }),
            final(self)@.wf(),
            final(field)@.wf(),
            final(self)@.within(final(field)@),
    {
        let home = self.home;
        let cur = self.current_cell;
        proof {
            old(field)@.lemma_cell(cur);
        }
        let cell = field.get_mut_by_pos(cur);
        if cell.food > 0 {
            cell.food = cell.food - 1;
            self.distance_to_food = cur.distance_to(home);
            self.is_returning = true;
            self.is_good_returning = true;
        }
        if self.is_good_returning {
            let amount = self.pheromone_count_to_put();
            cell.add_pheromones(amount);
        }
        proof {
            let c = old(field)@.cell(cur);
            let nc = deposited(food_taken(c), self@);
            old(field)@.lemma_update_keeps_wf(field@, cur, nc);
            field@.lemma_cell(cur);
        }
    }
}


/// Adding a weight leaves the earlier prefix sums as they were.
proof fn lemma_prefix_push(w: Seq<i64>, x: i64, k: int)
    requires
        0 <= k <= w.len(),
    ensures
        prefix_sum(w.push(x), k) == prefix_sum(w, k),
    decreases k,
{
    if k > 0 {
        lemma_prefix_push(w, x, k - 1);
    }
}

/// Settling keeps the trail's start and its lack of repeats, and keeps the
/// ant inside the field.
proof fn lemma_settled_keeps(a: AntView)
    requires
        a.wf(),
    ensures
        a.settled().path.len() >= 1,
        a.settled().path[0] == a.home,
        a.settled().home == a.home,
        a.settled().current == a.current,
        a.settled().path.no_duplicates(),
        a.settled().is_good_returning ==> a.settled().is_returning,
        a.settled().distance_to_food == a.distance_to_food,
        !a.settled().is_returning ==> a.settled().path.last() == a.current,
        a.settled().is_returning ==> a.current != a.home,
        forall|f: FieldView| a.within(f) ==> #[trigger] a.settled().within(f),
{
    if a.current == a.home {
        assert(a.path.len() == 1) by {
            if a.path.len() > 1 {
                assert(a.path[0] == a.path[a.path.len() - 1]);
            }
        }
    }
    let s = a.settled();
    if a.current != a.home && a.is_returning {
        assert(a.path.len() >= 2) by {
            if a.path.len() == 1 {
                assert(a.path[0] == a.path.last());
            }
        }
        assert(s.path =~= a.path.drop_last());
        assert forall|f: FieldView| a.within(f) implies #[trigger] s.within(f) by {
            assert forall|i: int| 0 <= i < s.path.len() implies f.in_bounds(#[trigger] s.path[i]) by {
                assert(s.path[i] == a.path[i]);
            }
        }
    }
}

/// A step chosen from the candidates keeps a settled ant well formed and
/// inside the field.
proof fn lemma_step_keeps(s: AntView, pos: Coordinate, f: FieldView)
    requires
        s.path.len() >= 1,
        s.path[0] == s.home,
        s.path.no_duplicates(),
        s.is_good_returning ==> s.is_returning,
        0 <= s.distance_to_food < DISTANCE_BOUND,
        s.within(f),
        f.in_bounds(pos),
        s.is_returning ==> s.path.last() == pos,
        !s.is_returning ==> !s.path.contains(pos),
    ensures
        s.stepped(pos).wf(),
        s.stepped(pos).within(f),
{
    let t = s.stepped(pos);
    if !s.is_returning {
        assert(t.path[0] == s.path[0]);
        assert forall|i: int, j: int|
            0 <= i < t.path.len() && 0 <= j < t.path.len() && i != j implies t.path[i]
            != t.path[j] by {
            if i == s.path.len() as int {
                assert(s.path.contains(s.path[j]));
            } else if j == s.path.len() as int {
                assert(s.path.contains(s.path[i]));
            }
        }
        assert forall|i: int| 0 <= i < t.path.len() implies f.in_bounds(#[trigger] t.path[i]) by {
            if i < s.path.len() {
                assert(t.path[i] == s.path[i]);
            }
        }
    }
}

/// Whether `v` holds `x`.
fn vec_contains(v: &Vec<Coordinate>, x: Coordinate) -> (r: bool)
    ensures
        r == v@.contains(x),
{
    let mut i: usize = 0;
    while i < v.len()
        invariant
            0 <= i <= v@.len(),
            forall|j: int| 0 <= j < i ==> v@[j] != x,
        decreases v@.len() - i,
    {
        if v[i] == x {
            return true;
        }
        i = i + 1;
    }
    false
}

} // verus!
