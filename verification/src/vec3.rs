//! The fixed-point world vector and the squared distance the steering reads.

use crate::math::iabs;
use vstd::prelude::*;

verus! {

/// Half-width of the modeled world, in micro-units (eight hundred world
/// units).  Keeping every position inside this box keeps every square and
/// product of coordinate differences inside the machine word.
pub const MAX_COORD: i64 = 800_000_000;

/// A world-space vector in micro-units.
#[derive(Clone, Copy, Debug, PartialEq, Eq, Structural)]
pub struct Vec3Fp {
    pub x: i64,
    pub y: i64,
    pub z: i64,
}

impl Vec3Fp {
    /// The origin.
    pub open spec fn spec_zero() -> Vec3Fp {
        Vec3Fp { x: 0, y: 0, z: 0 }
    }

    /// The vector lies inside the modeled world box.
    pub open spec fn in_world(self) -> bool {
        &&& -MAX_COORD <= self.x <= MAX_COORD
        &&& -MAX_COORD <= self.y <= MAX_COORD
        &&& -MAX_COORD <= self.z <= MAX_COORD
    }
}

/// The squared distance between `a` and `b`.
pub open spec fn spec_dist_sq(a: Vec3Fp, b: Vec3Fp) -> int {
    (b.x - a.x) * (b.x - a.x) + (b.y - a.y) * (b.y - a.y) + (b.z - a.z) * (b.z - a.z)
}

/// The square of a difference of two in-world coordinates fits comfortably
/// in a third of the machine word.
pub proof fn lemma_coord_diff_sq_bound(a: int, b: int)
    by (nonlinear_arith)
    requires
        -MAX_COORD <= a <= MAX_COORD,
        -MAX_COORD <= b <= MAX_COORD,
    ensures
        0 <= (b - a) * (b - a) <= 2_560_000_000_000_000_000,
        iabs(b - a) <= 1_600_000_000,
{
}

/// Compute the squared distance between two in-world points.
pub fn dist_sq(a: Vec3Fp, b: Vec3Fp) -> (r: i64)
    requires
        a.in_world(),
        b.in_world(),
    ensures
        r == spec_dist_sq(a, b),
        0 <= r <= 7_680_000_000_000_000_000,
{
    proof {
        lemma_coord_diff_sq_bound(a.x as int, b.x as int);
        lemma_coord_diff_sq_bound(a.y as int, b.y as int);
        lemma_coord_diff_sq_bound(a.z as int, b.z as int);
    }
    let dx: i64 = b.x - a.x;
    let dy: i64 = b.y - a.y;
    let dz: i64 = b.z - a.z;
    proof {
        assert((dx as int) * (dx as int) == (b.x - a.x) * (b.x - a.x)) by (nonlinear_arith)
            requires
                dx == b.x - a.x,
        ;
        assert((dy as int) * (dy as int) == (b.y - a.y) * (b.y - a.y)) by (nonlinear_arith)
            requires
                dy == b.y - a.y,
        ;
        assert((dz as int) * (dz as int) == (b.z - a.z) * (b.z - a.z)) by (nonlinear_arith)
            requires
                dz == b.z - a.z,
        ;
    }
    dx * dx + dy * dy + dz * dz
}

} // verus!
