//! Cursor projection onto the ground plane, and the marker that follows it
//! while the mouse button is held.
//!
//! The host supplies the pick ray (origin and normalized direction) that the
//! camera casts through the cursor pixel; this module intersects it with the
//! ground plane `y == 0`.  A ray that misses the plane, points away from it,
//! or hits it outside the modeled world leaves the cursor untouched — no
//! update this frame, never an error.

use crate::math::{iabs, mul_div, mul_div_trunc, FP};
use crate::vec3::{Vec3Fp, MAX_COORD};
use vstd::prelude::*;

verus! {

/// Where the ray from `origin` along `dir` meets the ground plane `y == 0`:
/// the hit point with its `y` cleared, or nothing when the ray runs parallel
/// to the plane, starts on it, points away from it, or hits it outside the
/// world box.
///
/// A hit demands `origin.y` and `dir.y` of opposite signs; the hit point's
/// planar components are the origin's plus the direction's, scaled by the
/// ray parameter `|origin.y| / |dir.y|` with truncation.
pub open spec fn spec_ground_hit(origin: Vec3Fp, dir: Vec3Fp) -> Option<Vec3Fp> {
    if (origin.y > 0 && dir.y < 0) || (origin.y < 0 && dir.y > 0) {
        let px = origin.x + mul_div(dir.x as int, iabs(origin.y as int), iabs(dir.y as int));
        let pz = origin.z + mul_div(dir.z as int, iabs(origin.y as int), iabs(dir.y as int));
        if -MAX_COORD <= px <= MAX_COORD && -MAX_COORD <= pz <= MAX_COORD {
            Some(Vec3Fp { x: px as i64, y: 0, z: pz as i64 })
        } else {
            None
        }
    } else {
        None
    }
}

/// Compute the ground-plane hit of the pick ray, if any.
pub fn ground_hit(origin: Vec3Fp, dir: Vec3Fp) -> (r: Option<Vec3Fp>)
    requires
        origin.in_world(),
        -FP <= dir.x <= FP,
        -FP <= dir.y <= FP,
        -FP <= dir.z <= FP,
    ensures
        r == spec_ground_hit(origin, dir),
        r matches Some(p) ==> p.in_world() && p.y == 0,
{
    let oy: i64 = origin.y;
    let dy: i64 = dir.y;
    if !((oy > 0 && dy < 0) || (oy < 0 && dy > 0)) {
        return None;
    }
    let rise: i64 = if oy >= 0 {
        oy
    } else {
        -oy
    };
    let fall: i64 = if dy >= 0 {
        dy
    } else {
        -dy
    };
    proof {
        assert(dir.x * rise <= 800_000_000_000_000 && -800_000_000_000_000 <= dir.x * rise)
            by (nonlinear_arith)
            requires
                -1_000_000 <= dir.x <= 1_000_000,
                0 <= rise <= 800_000_000,
        ;
        assert(dir.z * rise <= 800_000_000_000_000 && -800_000_000_000_000 <= dir.z * rise)
            by (nonlinear_arith)
            requires
                -1_000_000 <= dir.z <= 1_000_000,
                0 <= rise <= 800_000_000,
        ;
    }
    let qx: i64 = mul_div_trunc(dir.x, rise, fall);
    let qz: i64 = mul_div_trunc(dir.z, rise, fall);
    let px: i64 = origin.x + qx;
    let pz: i64 = origin.z + qz;
    if -MAX_COORD <= px && px <= MAX_COORD && -MAX_COORD <= pz && pz <= MAX_COORD {
        Some(Vec3Fp { x: px, y: 0, z: pz })
    } else {
        None
    }
}

/// Project the pick ray onto the ground plane and move the cursor to the
/// hit point; a miss leaves the cursor where it was.
pub fn update_cursor_position(cursor: &mut Vec3Fp, origin: Vec3Fp, dir: Vec3Fp)
    requires
        origin.in_world(),
        -FP <= dir.x <= FP,
        -FP <= dir.y <= FP,
        -FP <= dir.z <= FP,
    ensures
        spec_ground_hit(origin, dir) matches Some(p) ==> *final(cursor) == p,
        spec_ground_hit(origin, dir) is None ==> *final(cursor) == *old(cursor),
{
    let hit: Option<Vec3Fp> = ground_hit(origin, dir);
    match hit {
        Some(point) => {
            *cursor = point;
        },
        None => {},
    }
}

/// While the mouse button is held, the marker takes the cursor's position;
/// otherwise it stays where it was.
pub fn update_marker_position(marker: &mut Vec3Fp, pressed: bool, cursor: Vec3Fp)
    ensures
        pressed ==> *final(marker) == cursor,
        !pressed ==> *final(marker) == *old(marker),
{
    if pressed {
        *marker = cursor;
    }
}

} // verus!
