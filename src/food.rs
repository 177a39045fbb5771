use crate::coordinate::Coordinate;
use vstd::prelude::*;

verus! {

/// A food source at `pos`.
pub struct Food {
    pub pos: Coordinate,
}

impl Food {
    pub fn new(pos: Coordinate) -> (r: Food)
        ensures
            r.pos == pos,
    {
        Food { pos }
    }
}

} // verus!
