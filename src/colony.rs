use crate::ant::{Ant, AntMoveResult, AntView};
use crate::coordinate::Coordinate;
use crate::field::{Field, FieldView};
use vstd::prelude::*;

verus! {

/// A nest at `home` with room for `max_ants` ants.
pub struct Colony {
    pub home: Coordinate,
    pub max_ants: usize,
    ants: Vec<Ant>,
}

/// What a colony is: its home, its room and its ants, in order.
pub struct ColonyView {
    pub home: Coordinate,
    pub max_ants: nat,
    pub ants: Seq<AntView>,
}

/// Whether `(a2, f2)` is the outcome of ant `a` looking at its cell in `f`.
pub open spec fn check_step(a: AntView, f: FieldView, a2: AntView, f2: FieldView) -> bool {
    &&& a.checks_to(f.cell(a.current), a2, f2.cell(a.current))
    &&& f2 == FieldView { cells: f.cells.update(f.index_of(a.current), f2.cell(a.current)), ..f }
}

/// Whether `(next, g)` is the outcome of the ants, one after the other in
/// order, looking at their cells, starting on field `f`.
pub open spec fn checks_all(
    ants: Seq<AntView>,
    f: FieldView,
    next: Seq<AntView>,
    g: FieldView,
) -> bool
    decreases ants.len(),
{
    if ants.len() == 0 {
        next.len() == 0 && g == f
    } else {
        &&& next.len() == ants.len()
        &&& exists|m: FieldView|
            checks_all(ants.drop_last(), f, next.drop_last(), m) && check_step(
                ants.last(),
                m,
                next.last(),
                g,
            )
    }
}

/// Whether `next` is what becomes of ant `a` of a colony at `home` in one
/// move on `f`: a fresh ant at home in its place if it dies.
pub open spec fn move_step(a: AntView, f: FieldView, home: Coordinate, next: AntView) -> bool {
    if a.dies(f) {
        next == AntView::fresh(home)
    } else {
        a.moves_to(f, next)
    }
}

/// Whether `next` is what becomes of each of `ants` in one move on `f`.
pub open spec fn moves_all(
    ants: Seq<AntView>,
    f: FieldView,
    home: Coordinate,
    next: Seq<AntView>,
) -> bool {
    &&& next.len() == ants.len()
    &&& forall|i: int| 0 <= i < ants.len() ==> move_step(#[trigger] ants[i], f, home, next[i])
}

impl ColonyView {
    /// No more ants than there is room for, each well formed and at home
    /// in this colony.
    pub open spec fn wf(&self) -> bool {
        &&& self.ants.len() <= self.max_ants
        &&& forall|i: int|
            0 <= i < self.ants.len() ==> {
                &&& (#[trigger] self.ants[i]).wf()
                &&& self.ants[i].home == self.home
            }
    }

    /// The colony's home and all its ants lie inside the field.
    pub open spec fn within(&self, f: FieldView) -> bool {
        &&& f.in_bounds(self.home)
        &&& forall|i: int| 0 <= i < self.ants.len() ==> (#[trigger] self.ants[i]).within(f)
    }
}

/// In a well-formed colony every ant's trail is non-empty, starts at the
/// colony's home, ends where the ant stands and never visits a cell twice,
/// and there are no more ants than the colony has room for. Every operation
/// of `Colony` keeps its colony well formed.
pub proof fn lemma_colony_invariants(c: ColonyView)
    requires
        c.wf(),
    ensures
        c.ants.len() <= c.max_ants,
        forall|i: int|
            0 <= i < c.ants.len() ==> {
                &&& (#[trigger] c.ants[i]).path.len() >= 1
                &&& c.ants[i].path[0] == c.home
                &&& c.ants[i].path.last() == c.ants[i].current
                &&& c.ants[i].path.no_duplicates()
            },
{
    assert forall|i: int| 0 <= i < c.ants.len() implies {
        &&& (#[trigger] c.ants[i]).path.len() >= 1
        &&& c.ants[i].path[0] == c.home
        &&& c.ants[i].path.last() == c.ants[i].current
        &&& c.ants[i].path.no_duplicates()
    } by {
        assert(c.ants[i].wf());
    }
}

/// A tick keeps the number of ants: the check phase changes no ant's
/// count, and a dead ant's slot is filled at once.
pub proof fn lemma_tick_keeps_population(
    ants: Seq<AntView>,
    f: FieldView,
    mid: Seq<AntView>,
    g: FieldView,
    home: Coordinate,
    next: Seq<AntView>,
)
    requires
        checks_all(ants, f, mid, g),
        moves_all(mid, g, home, next),
    ensures
        next.len() == ants.len(),
{
    if ants.len() > 0 {
        assert(mid.len() == ants.len());
    } else {
        assert(mid.len() == 0);
    }
}

/// The views of the ants.
pub open spec fn ant_views(ants: Seq<Ant>) -> Seq<AntView> {
    ants.map_values(|a: Ant| a@)
}

impl View for Colony {
    type V = ColonyView;

    closed spec fn view(&self) -> ColonyView {
        ColonyView { home: self.home, max_ants: self.max_ants as nat, ants: ant_views(self.ants@) }
    }
}

impl Colony {
    /// A colony at `home` filled to its room of `max_ants` new ants.
    pub fn new(home: Coordinate, max_ants: usize) -> (r: Colony)
        ensures
            r@.wf(),
            r@.home == home,
            r@.max_ants == max_ants,
            r@.ants == Seq::new(max_ants as nat, |i: int| AntView::fresh(home)),
    {
        Colony { home, max_ants, ants: Vec::new() }.inhabit()
    }

    /// A colony at `home` with room for `max_ants` ants and none yet, to be
    /// filled by `spawn_if_capacity`.
    pub fn empty(home: Coordinate, max_ants: usize) -> (r: Colony)
        ensures
            r@.wf(),
            r@.home == home,
            r@.max_ants == max_ants,
            r@.ants == Seq::<AntView>::empty(),
    {
        let r = Colony { home, max_ants, ants: Vec::new() };
        assert(r@.ants =~= Seq::<AntView>::empty());
        r
    }

    fn inhabit(self) -> (r: Self)
        requires
            self.ants@.len() == 0,
        ensures
            r@.home == self.home,
            r@.max_ants == self.max_ants,
            r@.ants == Seq::new(self.max_ants as nat, |i: int| AntView::fresh(self.home)),
            r@.wf(),
    {
        let mut c = self;
        let mut i: usize = 0;
        while i < c.max_ants
            invariant
                c.home == self.home,
                c.max_ants == self.max_ants,
                0 <= i <= c.max_ants,
                c.ants@.len() == i,
                forall|j: int| 0 <= j < i ==> (#[trigger] c.ants@[j])@ == AntView::fresh(c.home),
            decreases c.max_ants - i,
        {
            let a = Ant::new(c.home);
            c.ants.push(a);
            i = i + 1;
        }
        assert(c@.ants =~= Seq::new(c.max_ants as nat, |i: int| AntView::fresh(c.home)));
        c
    }

    /// The ants, in order.
    pub fn population(&self) -> (r: &Vec<Ant>)
        ensures
            ant_views(r@) == self@.ants,
    {
        &self.ants
    }

    /// Adds a new ant at home if there is room; otherwise does nothing.
    pub fn spawn_if_capacity(&mut self)
        requires
            old(self)@.wf(),
        ensures
            final(self)@.wf(),
            final(self)@.home == old(self)@.home,
            final(self)@.max_ants == old(self)@.max_ants,
            old(self)@.ants.len() < old(self)@.max_ants ==> final(self)@.ants == old(
                self,
            )@.ants.push(AntView::fresh(old(self)@.home)),
            old(self)@.ants.len() >= old(self)@.max_ants ==> final(self)@.ants == old(self)@.ants,
    {
        if self.ants.len() < self.max_ants {
            let a = Ant::new(self.home);
            self.ants.push(a);
            assert(self@.ants =~= old(self)@.ants.push(AntView::fresh(old(self)@.home)));
        }
    }

    /// The check phase: each ant in order looks at the cell it stands on.
    pub fn check_cells(&mut self, field: &mut Field)
        requires
            old(self)@.wf(),
            old(field)@.wf(),
            old(self)@.within(old(field)@),
        ensures
            final(self)@.wf(),
            final(field)@.wf(),
            final(self)@.within(final(field)@),
            final(self)@.home == old(self)@.home,
            final(self)@.max_ants == old(self)@.max_ants,
            final(field)@.width == old(field)@.width,
            final(field)@.height == old(field)@.height,
            checks_all(old(self)@.ants, old(field)@, final(self)@.ants, final(field)@),
    {
        let n = self.ants.len();
        let mut i: usize = 0;
        assert(old(self)@.ants.take(0) =~= seq![]);
        assert(self@.ants.take(0) =~= seq![]);
        while i < n
            invariant
                n == self.ants@.len(),
                n == old(self)@.ants.len(),
                0 <= i <= n,
                self.home == old(self).home,
                self.max_ants == old(self).max_ants,
                self@.wf(),
                field@.wf(),
                field@.width == old(field)@.width,
                field@.height == old(field)@.height,
                self@.within(field@),
                forall|j: int| i <= j < n ==> #[trigger] self@.ants[j] == old(self)@.ants[j],
                checks_all(old(self)@.ants.take(i as int), old(field)@, self@.ants.take(i as int), field@),
            decreases n - i,
        {
            let ghost f0 = field@;
            let ghost v0 = self@.ants;
            proof {
                assert(v0[i as int] == self.ants@[i as int]@);
            }
            self.ants[i].check_current_cell(field);
            proof {
                let a = v0[i as int];
                let a2 = self@.ants[i as int];
                assert(self@.ants =~= v0.update(i as int, a2));
                assert(forall|j: int| 0 <= j < n && j != i ==> #[trigger] self@.ants[j] == v0[j]);
                assert(self@.ants[i as int].home == self.home);
                assert forall|j: int| 0 <= j < n implies (#[trigger] self@.ants[j]).within(field@) by {
                    if j != i {
                        assert(v0[j].within(f0));
                        assert forall|k: int| 0 <= k < v0[j].path.len() implies field@.in_bounds(#[trigger] v0[j].path[k]) by {
                            assert(f0.in_bounds(v0[j].path[k]));
                        }
                    }
                }
                let olds = old(self)@.ants.take(i + 1);
                let news = self@.ants.take(i + 1);
                assert(olds.drop_last() =~= old(self)@.ants.take(i as int));
                assert(news.drop_last() =~= v0.take(i as int));
                assert(olds.last() == a);
                assert(news.last() == a2);
                assert(check_step(a, f0, a2, field@));
            }
            i = i + 1;
        }
        assert(old(self)@.ants.take(n as int) =~= old(self)@.ants);
        assert(self@.ants.take(n as int) =~= self@.ants);
    }

    /// The move phase: each ant in order makes one move; an ant that dies
    /// is replaced at once by a new ant at home.
    pub fn move_ants(&mut self, field: &mut Field)
        requires
            old(self)@.wf(),
            old(field)@.wf(),
            old(self)@.within(old(field)@),
        ensures
            final(self)@.wf(),
            final(self)@.within(final(field)@),
            final(field)@ == old(field)@,
            final(self)@.home == old(self)@.home,
            final(self)@.max_ants == old(self)@.max_ants,
            moves_all(old(self)@.ants, old(field)@, old(self)@.home, final(self)@.ants),
    {
        let n = self.ants.len();
        let mut i: usize = 0;
        while i < n
            invariant
                n == self.ants@.len(),
                n == old(self)@.ants.len(),
                0 <= i <= n,
                self.home == old(self).home,
                self.max_ants == old(self).max_ants,
                field@ == old(field)@,
                field@.wf(),
                self@.wf(),
                self@.within(field@),
                forall|j: int| i <= j < n ==> #[trigger] self@.ants[j] == old(self)@.ants[j],
                forall|j: int|
                    0 <= j < i ==> move_step(
                        #[trigger] old(self)@.ants[j],
                        field@,
                        self.home,
                        self@.ants[j],
                    ),
            decreases n - i,
        {
            let ghost v0 = self@.ants;
            proof {
                assert(v0[i as int] == self.ants@[i as int]@);
            }
            let res = self.ants[i].make_move(field);
            if res == AntMoveResult::Died {
                let a = Ant::new(self.home);
                self.ants.set(i, a);
            }
            proof {
                let a2 = self@.ants[i as int];
                assert(self@.ants =~= v0.update(i as int, a2));
                assert(forall|j: int| 0 <= j < n && j != i ==> #[trigger] self@.ants[j] == v0[j]);
            }
            i = i + 1;
        }
    }

    /// One step of the colony on its own: the check phase, then the move
    /// phase.
    pub fn tick(&mut self, field: &mut Field)
        requires
            old(self)@.wf(),
            old(field)@.wf(),
            old(self)@.within(old(field)@),
        ensures
            final(self)@.wf(),
            final(field)@.wf(),
            final(self)@.within(final(field)@),
            final(self)@.home == old(self)@.home,
            final(self)@.max_ants == old(self)@.max_ants,
            exists|mid: Seq<AntView>|
                checks_all(old(self)@.ants, old(field)@, mid, final(field)@) && moves_all(
                    mid,
                    final(field)@,
                    old(self)@.home,
                    final(self)@.ants,
                ),
    {
        self.check_cells(field);
        let ghost mid = self@.ants;
        self.move_ants(field);
        assert(checks_all(old(self)@.ants, old(field)@, mid, field@));
    }
}

} // verus!
