//! The rigid camera follow: every frame the camera sits at the ship's
//! position plus a fixed offset, with no smoothing or lag.

use crate::vec3::{Vec3Fp, MAX_COORD};
use vstd::prelude::*;

verus! {

/// The camera's fixed offset from the ship, in micro-units: seventy units up
/// and seventy units back.
pub const CAMERA_OFFSET_X: i64 = 0;

/// See `CAMERA_OFFSET_X`.
pub const CAMERA_OFFSET_Y: i64 = 70_000_000;

/// See `CAMERA_OFFSET_X`.
pub const CAMERA_OFFSET_Z: i64 = -70_000_000;

/// Where the camera stands for a ship at `ship_position`.
pub open spec fn spec_camera_position(ship_position: Vec3Fp) -> Vec3Fp {
    Vec3Fp {
        x: (ship_position.x + CAMERA_OFFSET_X) as i64,
        y: (ship_position.y + CAMERA_OFFSET_Y) as i64,
        z: (ship_position.z + CAMERA_OFFSET_Z) as i64,
    }
}

/// Recompute the camera position from the ship's position: the ship's
/// position plus the fixed offset, independent of the ship's orientation.
pub fn lock_camera_to_ship(ship_position: Vec3Fp, camera_position: &mut Vec3Fp)
    requires
        ship_position.in_world(),
    ensures
        *final(camera_position) == spec_camera_position(ship_position),
{
    *camera_position = Vec3Fp {
        x: ship_position.x + CAMERA_OFFSET_X,
        y: ship_position.y + CAMERA_OFFSET_Y,
        z: ship_position.z + CAMERA_OFFSET_Z,
    };
}

} // verus!
