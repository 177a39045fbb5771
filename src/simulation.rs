use crate::ant::AntView;
use crate::colony::{checks_all, moves_all, Colony, ColonyView};
use crate::coordinate::Coordinate;
use crate::field::{Field, FieldView};
use crate::food::Food;
use crate::random::random_below;
use vstd::prelude::*;

verus! {

pub const FIELD_WIDTH: i32 = 800;

pub const FIELD_HEIGHT: i32 = 400;

pub const COLONY_COUNT: usize = 5;

pub const FOOD_COUNT: usize = 20;

pub const ANTS_PER_COLONY: usize = 1000;

/// A field shared by several colonies.
pub struct Simulation {
    field: Field,
    colonies: Vec<Colony>,
}

/// What a simulation is: its field and its colonies, in order.
pub struct SimulationView {
    pub field: FieldView,
    pub colonies: Seq<ColonyView>,
}

/// The views of the colonies.
pub open spec fn colony_views(cs: Seq<Colony>) -> Seq<ColonyView> {
    cs.map_values(|c: Colony| c@)
}

/// Whether `next` is `c` with other ants but the same home and room.
pub open spec fn same_nest(c: ColonyView, next: ColonyView) -> bool {
    next.home == c.home && next.max_ants == c.max_ants
}

/// Whether `(next, g)` is the outcome of the check phase of each colony in
/// turn, starting on field `f`.
pub open spec fn colonies_check(
    cs: Seq<ColonyView>,
    f: FieldView,
    next: Seq<ColonyView>,
    g: FieldView,
) -> bool
    decreases cs.len(),
{
    if cs.len() == 0 {
        next.len() == 0 && g == f
    } else {
        &&& next.len() == cs.len()
        &&& same_nest(cs.last(), next.last())
        &&& exists|m: FieldView|
            colonies_check(cs.drop_last(), f, next.drop_last(), m) && #[trigger] checks_all(
                cs.last().ants,
                m,
                next.last().ants,
                g,
            )
    }
}

/// Whether `next` is the outcome of the move phase of each colony on `f`.
pub open spec fn colonies_move(cs: Seq<ColonyView>, f: FieldView, next: Seq<ColonyView>) -> bool {
    &&& next.len() == cs.len()
    &&& forall|i: int|
        0 <= i < cs.len() ==> {
            &&& same_nest(#[trigger] cs[i], next[i])
            &&& moves_all(cs[i].ants, f, cs[i].home, next[i].ants)
        }
}

/// A colony inside one field is inside any field of the same size.
proof fn lemma_within_same_dims(c: ColonyView, f: FieldView, g: FieldView)
    requires
        c.within(f),
        g.width == f.width,
        g.height == f.height,
    ensures
        c.within(g),
{
    assert forall|i: int| 0 <= i < c.ants.len() implies (#[trigger] c.ants[i]).within(g) by {
        let a = c.ants[i];
        assert(a.within(f));
        assert forall|k: int| 0 <= k < a.path.len() implies g.in_bounds(#[trigger] a.path[k]) by {
            assert(f.in_bounds(a.path[k]));
        }
    }
}

impl SimulationView {
    /// The field is well formed, and so is each colony, inside it.
    pub open spec fn wf(&self) -> bool {
        &&& self.field.wf()
        &&& forall|i: int|
            0 <= i < self.colonies.len() ==> {
                &&& (#[trigger] self.colonies[i]).wf()
                &&& self.colonies[i].within(self.field)
            }
    }
}

impl View for Simulation {
    type V = SimulationView;

    closed spec fn view(&self) -> SimulationView {
        SimulationView { field: self.field@, colonies: colony_views(self.colonies@) }
    }
}

/// A position drawn uniformly inside the field.
fn random_position() -> (r: Coordinate)
    ensures
        0 <= r.x < FIELD_WIDTH,
        0 <= r.y < FIELD_HEIGHT,
{
    let x = random_below(FIELD_WIDTH as i64);
    let y = random_below(FIELD_HEIGHT as i64);
    Coordinate::new(x as i32, y as i32)
}

impl Simulation {
    /// A simulation of the given field and colonies.
    pub fn from_parts(field: Field, colonies: Vec<Colony>) -> (r: Simulation)
        requires
            (SimulationView { field: field@, colonies: colony_views(colonies@) }).wf(),
        ensures
            r@ == (SimulationView { field: field@, colonies: colony_views(colonies@) }),
    {
        Simulation { field, colonies }
    }

    /// A `FIELD_WIDTH` by `FIELD_HEIGHT` field with random obstacles,
    /// `COLONY_COUNT` colonies of `ANTS_PER_COLONY` ants each at random
    /// homes, and `FOOD_COUNT` food sources at random places, which are
    /// also returned.
    pub fn new() -> (r: (Simulation, Vec<Food>))
        ensures
            r.0@.wf(),
            r.0@.field.width == FIELD_WIDTH,
            r.0@.field.height == FIELD_HEIGHT,
            r.0@.colonies.len() == COLONY_COUNT,
            forall|i: int|
                0 <= i < COLONY_COUNT ==> {
                    &&& (#[trigger] r.0@.colonies[i]).max_ants == ANTS_PER_COLONY
                    &&& r.0@.colonies[i].ants == Seq::new(
                        ANTS_PER_COLONY as nat,
                        |j: int| AntView::fresh(r.0@.colonies[i].home),
                    )
                },
            r.1@.len() == FOOD_COUNT,
            forall|i: int|
                0 <= i < FOOD_COUNT ==> #[trigger] r.0@.field.cell(r.1@[i].pos).food > 0,
    {
        let mut field = Field::new(FIELD_WIDTH, FIELD_HEIGHT);
        let mut colonies: Vec<Colony> = Vec::new();
        let mut i: usize = 0;
        while i < COLONY_COUNT
            invariant
                0 <= i <= COLONY_COUNT,
                field@.wf(),
                field@.width == FIELD_WIDTH,
                field@.height == FIELD_HEIGHT,
                colonies@.len() == i,
                forall|j: int|
                    0 <= j < i ==> {
                        &&& (#[trigger] colonies@[j])@.wf()
                        &&& colonies@[j]@.within(field@)
                        &&& colonies@[j]@.max_ants == ANTS_PER_COLONY
                        &&& colonies@[j]@.ants == Seq::new(
                            ANTS_PER_COLONY as nat,
                            |k: int| AntView::fresh(colonies@[j]@.home),
                        )
                    },
            decreases COLONY_COUNT - i,
        {
            let home = random_position();
            let c = Colony::new(home, ANTS_PER_COLONY);
            proof {
                assert forall|k: int| 0 <= k < c@.ants.len() implies (#[trigger] c@.ants[k]).within(field@) by {
                    assert(c@.ants[k] == AntView::fresh(home));
                    assert forall|m: int| 0 <= m < c@.ants[k].path.len() implies field@.in_bounds(#[trigger] c@.ants[k].path[m]) by {
                        assert(c@.ants[k].path[m] == home);
                    }
                }
            }
            colonies.push(c);
            i = i + 1;
        }
        let mut foods: Vec<Food> = Vec::new();
        let mut i: usize = 0;
        while i < FOOD_COUNT
            invariant
                0 <= i <= FOOD_COUNT,
                field@.wf(),
                field@.width == FIELD_WIDTH,
                field@.height == FIELD_HEIGHT,
                foods@.len() == i,
                forall|j: int| 0 <= j < i ==> #[trigger] field@.cell(foods@[j].pos).food > 0,
                forall|j: int| 0 <= j < i ==> field@.in_bounds(#[trigger] foods@[j].pos),
                forall|j: int|
                    0 <= j < COLONY_COUNT ==> (#[trigger] colonies@[j])@.within(field@),
            decreases FOOD_COUNT - i,
        {
            let pos = random_position();
            let ghost f0 = field@;
            proof {
                f0.lemma_cell(pos);
            }
            field.place_food_by_pos(pos);
            proof {
                assert forall|j: int| 0 <= j < i implies #[trigger] field@.cell(foods@[j].pos).food > 0 by {
                    f0.lemma_cell(foods@[j].pos);
                    if foods@[j].pos != pos {
                        assert(f0.index_of(foods@[j].pos) != f0.index_of(pos)) by {
                            f0.lemma_cell(pos);
                        }
                    }
                }
                assert forall|j: int| 0 <= j < COLONY_COUNT implies (#[trigger] colonies@[j])@.within(field@) by {
                    lemma_within_same_dims(colonies@[j]@, f0, field@);
                }
            }
            foods.push(Food::new(pos));
            i = i + 1;
        }
        let sim = Simulation { field, colonies };
        assert(sim@.colonies.len() == COLONY_COUNT);
        (sim, foods)
    }

    pub fn field(&self) -> (r: &Field)
        ensures
            r@ == self@.field,
    {
        &self.field
    }

    pub fn colonies(&self) -> (r: &Vec<Colony>)
        ensures
            colony_views(r@) == self@.colonies,
    {
        &self.colonies
    }

    /// The check phase of every colony, one colony after the other.
    fn check_cells(&mut self)
        requires
            old(self)@.wf(),
        ensures
            final(self)@.wf(),
            colonies_check(old(self)@.colonies, old(self)@.field, final(self)@.colonies, final(self)@.field),
    {
        let n = self.colonies.len();
        let mut i: usize = 0;
        assert(old(self)@.colonies.take(0) =~= seq![]);
        assert(self@.colonies.take(0) =~= seq![]);
        while i < n
            invariant
                n == self.colonies@.len(),
                n == old(self)@.colonies.len(),
                0 <= i <= n,
                self@.wf(),
                forall|j: int| i <= j < n ==> #[trigger] self@.colonies[j] == old(self)@.colonies[j],
                colonies_check(
                    old(self)@.colonies.take(i as int),
                    old(self)@.field,
                    self@.colonies.take(i as int),
                    self@.field,
                ),
            decreases n - i,
        {
            let ghost f0 = self@.field;
            let ghost v0 = self@.colonies;
            proof {
                assert(v0[i as int] == self.colonies@[i as int]@);
            }
            self.colonies[i].check_cells(&mut self.field);
            proof {
                let c2 = self@.colonies[i as int];
                assert(self@.colonies =~= v0.update(i as int, c2));
                assert forall|j: int| 0 <= j < n implies {
                    &&& (#[trigger] self@.colonies[j]).wf()
                    &&& self@.colonies[j].within(self@.field)
                } by {
                    if j != i {
                        assert(self@.colonies[j] == v0[j]);
                        lemma_within_same_dims(v0[j], f0, self@.field);
                    }
                }
                let olds = old(self)@.colonies.take(i + 1);
                let news = self@.colonies.take(i + 1);
                assert(olds.drop_last() =~= old(self)@.colonies.take(i as int));
                assert(news.drop_last() =~= v0.take(i as int));
                assert(olds.last() == v0[i as int]);
                assert(news.last() == c2);
                assert(colonies_check(olds.drop_last(), old(self)@.field, news.drop_last(), f0));
                assert(checks_all(olds.last().ants, f0, news.last().ants, self@.field));
                assert(same_nest(olds.last(), news.last()));
                assert(olds.len() == news.len());

            }
            i = i + 1;
        }
        assert(old(self)@.colonies.take(n as int) =~= old(self)@.colonies);
        assert(self@.colonies.take(n as int) =~= self@.colonies);
    }

    /// The move phase of every colony.
    fn move_ants(&mut self)
        requires
            old(self)@.wf(),
        ensures
            final(self)@.wf(),
            final(self)@.field == old(self)@.field,
            colonies_move(old(self)@.colonies, old(self)@.field, final(self)@.colonies),
    {
        let n = self.colonies.len();
        let mut i: usize = 0;
        while i < n
            invariant
                n == self.colonies@.len(),
                n == old(self)@.colonies.len(),
                0 <= i <= n,
                self@.wf(),
                self@.field == old(self)@.field,
                forall|j: int| i <= j < n ==> #[trigger] self@.colonies[j] == old(self)@.colonies[j],
                forall|j: int|
                    0 <= j < i ==> {
                        &&& same_nest(#[trigger] old(self)@.colonies[j], self@.colonies[j])
                        &&& moves_all(
                            old(self)@.colonies[j].ants,
                            self@.field,
                            old(self)@.colonies[j].home,
                            self@.colonies[j].ants,
                        )
                    },
            decreases n - i,
        {
            let ghost v0 = self@.colonies;
            proof {
                assert(v0[i as int] == self.colonies@[i as int]@);
            }
            self.colonies[i].move_ants(&mut self.field);
            proof {
                let c2 = self@.colonies[i as int];
                assert(self@.colonies =~= v0.update(i as int, c2));
                assert(forall|j: int| 0 <= j < n && j != i ==> #[trigger] self@.colonies[j] == v0[j]);
            }
            i = i + 1;
        }
    }

    /// One tick: every ant of every colony looks at its cell, then every
    /// ant moves, then trail evaporates by one unit on every cell.
    pub fn update(&mut self)
        requires
            old(self)@.wf(),
        ensures
            final(self)@.wf(),
            exists|mid: Seq<ColonyView>, g: FieldView|
                colonies_check(old(self)@.colonies, old(self)@.field, mid, g) && colonies_move(
                    mid,
                    g,
                    final(self)@.colonies,
                ) && final(self)@.field == g.decayed(),
    {
        self.check_cells();
        let ghost mid = self@.colonies;
        let ghost g = self@.field;
        self.move_ants();
        let ghost f1 = self@.field;
        self.field.tick();
        proof {
            let n = self@.colonies.len();
            assert forall|j: int| 0 <= j < n implies {
                &&& (#[trigger] self@.colonies[j]).wf()
                &&& self@.colonies[j].within(self@.field)
            } by {
                lemma_within_same_dims(self@.colonies[j], f1, self@.field);
            }
        }
    }
}

} // verus!
