use vstd::prelude::*;

verus! {

/// A position on the grid.
#[derive(PartialEq, Eq, Structural, Debug, Clone, Copy)]
pub struct Coordinate {
    pub x: i32,
    pub y: i32,
}

/// Every distance between two positions lies below this bound.
pub const DISTANCE_BOUND: i64 = 0x2_0000_0000;

/// The squared Euclidean distance between two positions.
pub open spec fn dist_sq(a: Coordinate, b: Coordinate) -> int {
    (a.x - b.x) * (a.x - b.x) + (a.y - b.y) * (a.y - b.y)
}

/// `r` is the Euclidean distance between `a` and `b`, rounded down.
pub open spec fn is_floor_distance(a: Coordinate, b: Coordinate, r: int) -> bool {
    0 <= r && r * r <= dist_sq(a, b) < (r + 1) * (r + 1)
}

/// The largest integer whose square is at most `n`.
fn floor_sqrt(n: u128) -> (r: u64)
    requires
        n < 0x4_0000_0000_0000_0000u128,
    ensures
        (r as int) * (r as int) <= n < (r as int + 1) * (r as int + 1),
        r < 0x2_0000_0000u64,
{
    let mut lo: u128 = 0;
    let mut hi: u128 = 0x2_0000_0000u128;
    assert(hi * hi == 0x4_0000_0000_0000_0000u128) by (nonlinear_arith)
        requires hi == 0x2_0000_0000u128;
    while hi - lo > 1
        invariant
            lo < hi <= 0x2_0000_0000u128,
            lo * lo <= n < hi * hi,
        decreases hi - lo,
    {
        let mid: u128 = lo + (hi - lo) / 2;
        assert(mid * mid <= 0x4_0000_0000_0000_0000u128) by (nonlinear_arith)
            requires mid <= 0x2_0000_0000u128;
        if mid * mid <= n {
            lo = mid;
        } else {
            hi = mid;
        }
    }
    lo as u64
}

impl Coordinate {
    pub fn new(x: i32, y: i32) -> (r: Coordinate)
        ensures
            r.x == x,
            r.y == y,
    {
        Coordinate { x, y }
    }

    /// The Euclidean distance to `other`, rounded down to an integer.
    pub fn distance_to(self, other: Coordinate) -> (r: i64)
        ensures
            is_floor_distance(self, other, r as int),
            r < DISTANCE_BOUND,
    {
        let xdif: i64 = self.x as i64 - other.x as i64;
        let ydif: i64 = self.y as i64 - other.y as i64;
        let ax: u128 = if xdif < 0 { (-xdif) as u128 } else { xdif as u128 };
        let ay: u128 = if ydif < 0 { (-ydif) as u128 } else { ydif as u128 };
        assert(ax * ax <= 0xffff_fffe_0000_0001u128 && ay * ay <= 0xffff_fffe_0000_0001u128)
            by (nonlinear_arith)
            requires ax <= 0xffff_ffffu128, ay <= 0xffff_ffffu128;
        assert(ax * ax == xdif * xdif) by (nonlinear_arith)
            requires ax == xdif || ax == -xdif;
        assert(ay * ay == ydif * ydif) by (nonlinear_arith)
            requires ay == ydif || ay == -ydif;
        let n: u128 = ax * ax + ay * ay;
        assert(n == dist_sq(self, other)) by (nonlinear_arith)
            requires
                n == ax * ax + ay * ay,
                ax * ax == xdif * xdif,
                ay * ay == ydif * ydif,
                xdif == self.x - other.x,
                ydif == self.y - other.y;
        let r = floor_sqrt(n);
        r as i64
    }
}

} // verus!
