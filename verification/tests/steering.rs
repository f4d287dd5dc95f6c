//! Scenario tests for the steering, banking and camera logic.

use shipsim::angle::{angle_to_positive_domain, atan2_fp, shortest_delta, wrap_angle};
use shipsim::camera::lock_camera_to_ship;
use shipsim::cursor::{ground_hit, update_cursor_position, update_marker_position};
use shipsim::math::{clamp_i64, mul_div_trunc, sqrt_ceil_u64};
use shipsim::ship::{
    bank_angle, bank_angle_discrete, move_ship, step_toward, Ship, SHIP_MAX_TILT_ANGLE,
};
use shipsim::vec3::{dist_sq, Vec3Fp};

const FRAME_DT: i64 = 16_667;

fn ship_at_origin() -> Ship {
    Ship {
        position: Vec3Fp { x: 0, y: 0, z: 0 },
        yaw: 0,
        roll: 0,
        previous_rotation_angle: 0,
    }
}

#[test]
fn ship_at_marker_does_not_move() {
    let mut ship = ship_at_origin();
    move_ship(&mut ship, Vec3Fp { x: 0, y: 0, z: 0 }, FRAME_DT);
    assert_eq!(ship, ship_at_origin());
}

#[test]
fn ship_below_jitter_threshold_does_not_move() {
    // 0.5 * 0.4 world units away: squared distance 0.41 < 0.5 units^2.
    let mut ship = ship_at_origin();
    move_ship(&mut ship, Vec3Fp { x: 500_000, y: 0, z: 400_000 }, FRAME_DT);
    assert_eq!(ship, ship_at_origin());
}

#[test]
fn straight_run_covers_velocity_times_dt() {
    // Marker 100 units ahead: one 60 fps frame covers exactly
    // 48 * 0.016667 = 0.800016 units, and nothing else changes.
    let mut ship = ship_at_origin();
    move_ship(&mut ship, Vec3Fp { x: 0, y: 0, z: 100_000_000 }, FRAME_DT);
    assert_eq!(ship.position, Vec3Fp { x: 0, y: 0, z: 800_016 });
    assert_eq!(ship.yaw, 0);
    assert_eq!(ship.roll, 0);
    assert_eq!(ship.previous_rotation_angle, 0);
}

#[test]
fn short_remaining_distance_snaps_onto_marker() {
    // 0.75 units remaining, one frame travels 0.800016: exact arrival.
    let mut ship = ship_at_origin();
    let marker = Vec3Fp { x: 0, y: 0, z: 750_000 };
    move_ship(&mut ship, marker, FRAME_DT);
    assert_eq!(ship.position, marker);
}

#[test]
fn displacement_never_exceeds_step_or_remaining_distance() {
    let step_sq: i64 = 800_016 * 800_016;
    let marker = Vec3Fp { x: 30_000_000, y: 0, z: 40_000_000 };
    let mut ship = ship_at_origin();
    for _ in 0..200 {
        let before = ship.position;
        let remaining = dist_sq(before, marker);
        move_ship(&mut ship, marker, FRAME_DT);
        let moved = dist_sq(before, ship.position);
        assert!(moved <= step_sq);
        assert!(moved <= remaining);
    }
}

#[test]
fn ship_arrives_exactly_after_enough_frames() {
    let marker = Vec3Fp { x: 0, y: 0, z: 100_000_000 };
    let mut ship = ship_at_origin();
    for _ in 0..200 {
        move_ship(&mut ship, marker, FRAME_DT);
    }
    assert_eq!(ship.position, marker);
}

#[test]
fn ship_at_the_jitter_threshold_moves() {
    // Squared distance 500_000_309_449 just crosses the threshold, and one
    // frame's travel covers it: the ship snaps onto the marker.
    let mut ship = ship_at_origin();
    let marker = Vec3Fp { x: 0, y: 0, z: 707_107 };
    move_ship(&mut ship, marker, FRAME_DT);
    assert_eq!(ship.position, marker);
}

#[test]
fn extreme_corner_to_corner_move_stays_bounded() {
    // The worst case the world box allows: corner to corner at the longest
    // accepted frame time of ten seconds (step 480 units).
    let mut ship = Ship {
        position: Vec3Fp { x: -800_000_000, y: -800_000_000, z: -800_000_000 },
        yaw: 0,
        roll: 0,
        previous_rotation_angle: 0,
    };
    let before = ship.position;
    let marker = Vec3Fp { x: 800_000_000, y: 800_000_000, z: 800_000_000 };
    move_ship(&mut ship, marker, 10_000_000);
    let step: i64 = 480_000_000;
    assert!(dist_sq(before, ship.position) <= step * step);
    assert!(ship.position.x.abs() <= 800_000_000);
    assert!(ship.position.y.abs() <= 800_000_000);
    assert!(ship.position.z.abs() <= 800_000_000);
    assert!(ship.roll.abs() <= SHIP_MAX_TILT_ANGLE);
}

#[test]
fn turning_frame_updates_heading_roll_and_position() {
    // Marker 100 units along +x: the target heading is a quarter turn, the
    // banking clamps to full tilt, and one frame closes a tenth of each gap.
    let mut ship = ship_at_origin();
    move_ship(&mut ship, Vec3Fp { x: 100_000_000, y: 0, z: 0 }, FRAME_DT);
    assert_eq!(ship.previous_rotation_angle, 1_570_796);
    assert_eq!(ship.yaw, 157_082);
    assert_eq!(ship.roll, -50_266);
    assert!(ship.roll.abs() <= SHIP_MAX_TILT_ANGLE);
    assert_eq!(ship.position, Vec3Fp { x: 800_016, y: 0, z: 0 });
}

#[test]
fn turn_across_the_heading_seam_goes_the_short_way() {
    // The ship faces almost straight back (yaw near +pi) and the marker
    // lies just past the seam on the other side: the short way is onward
    // through pi, so the yaw grows toward it instead of swinging through
    // zero.
    let mut ship = Ship {
        position: Vec3Fp { x: 0, y: 0, z: 0 },
        yaw: 3_100_000,
        roll: 0,
        previous_rotation_angle: 3_100_000,
    };
    move_ship(
        &mut ship,
        Vec3Fp { x: -1_000_000, y: 0, z: -100_000_000 },
        FRAME_DT,
    );
    assert_eq!(ship.previous_rotation_angle, -3_131_036);
    assert_eq!(ship.yaw, 3_105_214);
    assert_eq!(ship.roll, -31_289);
    assert!(ship.yaw > 3_100_000 && ship.yaw <= 3_141_592);
    assert_eq!(ship.position, Vec3Fp { x: -7_999, y: 0, z: -799_976 });
}

#[test]
fn step_toward_scales_each_component() {
    // 3-4-5 triangle, distance 50 units, step 1 unit: a fifth of a unit in
    // x and about a quarter in z.
    let from = Vec3Fp { x: 0, y: 0, z: 0 };
    let to = Vec3Fp { x: 30_000_000, y: 0, z: 40_000_000 };
    let stepped = step_toward(from, to, 1_000_000);
    assert_eq!(stepped, Vec3Fp { x: 600_000, y: 0, z: 800_000 });
}

#[test]
fn atan2_hits_the_axes_exactly() {
    assert_eq!(atan2_fp(0, 5), 0);
    assert_eq!(atan2_fp(5, 0), 1_570_796);
    assert_eq!(atan2_fp(0, -5), 3_141_592);
    assert_eq!(atan2_fp(-5, 0), -1_570_796);
    assert_eq!(atan2_fp(0, 0), 0);
}

#[test]
fn atan2_quadrants_match_the_float_convention() {
    assert_eq!(atan2_fp(1_000_000, 1_000_000), 785_398);
    assert_eq!(atan2_fp(1_000_000, -1_000_000), 2_356_194);
    assert_eq!(atan2_fp(-1_000_000, -1_000_000), -2_356_194);
    assert_eq!(atan2_fp(-1_000_000, 1_000_000), -785_398);
}

#[test]
fn atan2_interior_value_follows_the_approximation() {
    // atan(1/2) is 463_648 micro-radians; the fixed-point approximation
    // lands within three thousandths of a radian of it.
    let r = atan2_fp(1_000_000, 2_000_000);
    assert_eq!(r, 460_949);
    assert!((r - 463_648).abs() < 3_800);
    // The mirrored direction gives the negated heading.
    assert_eq!(atan2_fp(-1_000_000, 2_000_000), -460_949);
}

#[test]
fn positive_domain_folds_negative_headings() {
    assert_eq!(angle_to_positive_domain(1_000_000), 1_000_000);
    assert_eq!(angle_to_positive_domain(0), 0);
    assert_eq!(angle_to_positive_domain(-1_570_796), 4_712_388);
    assert_eq!(angle_to_positive_domain(3_141_592), 3_141_592);
}

#[test]
fn wrap_and_shortest_delta_stay_on_the_circle() {
    assert_eq!(wrap_angle(7_000_000), 716_816);
    assert_eq!(wrap_angle(-4_000_000), 2_283_184);
    assert_eq!(wrap_angle(500), 500);
    assert_eq!(shortest_delta(3_000_000, -3_000_000), -283_184);
    assert_eq!(shortest_delta(-3_000_000, 3_000_000), 283_184);
    assert_eq!(shortest_delta(500_000, 100_000), 400_000);
}

#[test]
fn continuous_bank_angle_clamps_into_the_tilt_envelope() {
    assert_eq!(bank_angle(0), 0);
    assert_eq!(bank_angle(10_000), -60_000);
    assert_eq!(bank_angle(-10_000), 60_000);
    assert_eq!(bank_angle(500_000), -SHIP_MAX_TILT_ANGLE);
    assert_eq!(bank_angle(-500_000), SHIP_MAX_TILT_ANGLE);
    for td in [-6_283_184, -84_000, -1, 0, 1, 84_000, 6_283_184] {
        let r = bank_angle(td);
        assert!(-SHIP_MAX_TILT_ANGLE <= r && r <= SHIP_MAX_TILT_ANGLE);
    }
}

#[test]
fn discrete_bank_angle_takes_exactly_three_values() {
    assert_eq!(bank_angle_discrete(60_000), -SHIP_MAX_TILT_ANGLE);
    assert_eq!(bank_angle_discrete(-60_000), SHIP_MAX_TILT_ANGLE);
    assert_eq!(bank_angle_discrete(50_000), 0);
    assert_eq!(bank_angle_discrete(-50_000), 0);
    assert_eq!(bank_angle_discrete(0), 0);
    for td in [-6_283_184, -50_001, -50_000, 0, 50_000, 50_001, 6_283_184] {
        let r = bank_angle_discrete(td);
        assert!(r == -SHIP_MAX_TILT_ANGLE || r == 0 || r == SHIP_MAX_TILT_ANGLE);
    }
}

#[test]
fn camera_follows_at_the_fixed_offset() {
    let mut camera = Vec3Fp { x: 0, y: 0, z: 0 };
    lock_camera_to_ship(Vec3Fp { x: 1_000_000, y: 0, z: 2_000_000 }, &mut camera);
    assert_eq!(camera, Vec3Fp { x: 1_000_000, y: 70_000_000, z: -68_000_000 });
}

#[test]
fn pick_ray_hits_the_ground_plane() {
    // From the camera position, looking down-forward at 45 degrees: the hit
    // is the origin.
    let origin = Vec3Fp { x: 0, y: 70_000_000, z: -70_000_000 };
    let dir = Vec3Fp { x: 0, y: -707_107, z: 707_107 };
    assert_eq!(ground_hit(origin, dir), Some(Vec3Fp { x: 0, y: 0, z: 0 }));
}

#[test]
fn pick_ray_misses_leave_the_cursor_alone() {
    let before = Vec3Fp { x: 7, y: 8, z: 9 };
    let origin = Vec3Fp { x: 0, y: 70_000_000, z: -70_000_000 };
    // Pointing up: away from the plane.
    let mut cursor = before;
    update_cursor_position(&mut cursor, origin, Vec3Fp { x: 0, y: 707_107, z: 707_107 });
    assert_eq!(cursor, before);
    // Parallel to the plane.
    let mut cursor = before;
    update_cursor_position(&mut cursor, origin, Vec3Fp { x: 0, y: 0, z: 1_000_000 });
    assert_eq!(cursor, before);
    // Starting on the plane.
    let mut cursor = before;
    update_cursor_position(
        &mut cursor,
        Vec3Fp { x: 0, y: 0, z: 0 },
        Vec3Fp { x: 0, y: -707_107, z: 707_107 },
    );
    assert_eq!(cursor, before);
    // Grazing hit far outside the world box.
    let mut cursor = before;
    update_cursor_position(
        &mut cursor,
        Vec3Fp { x: 0, y: 1_000_000, z: 0 },
        Vec3Fp { x: 1_000_000, y: -1, z: 0 },
    );
    assert_eq!(cursor, before);
}

#[test]
fn marker_follows_cursor_only_while_pressed() {
    let cursor = Vec3Fp { x: 1, y: 2, z: 3 };
    let mut marker = Vec3Fp { x: 0, y: 0, z: 0 };
    update_marker_position(&mut marker, false, cursor);
    assert_eq!(marker, Vec3Fp { x: 0, y: 0, z: 0 });
    update_marker_position(&mut marker, true, cursor);
    assert_eq!(marker, cursor);
}

#[test]
fn default_ship_rests_level_at_the_origin() {
    let ship = Ship::default();
    assert_eq!(ship, ship_at_origin());
}

#[test]
fn integer_square_root_rounds_up() {
    assert_eq!(sqrt_ceil_u64(0), 0);
    assert_eq!(sqrt_ceil_u64(1), 1);
    assert_eq!(sqrt_ceil_u64(2), 2);
    assert_eq!(sqrt_ceil_u64(4), 2);
    assert_eq!(sqrt_ceil_u64(10_000_000_000_000_000), 100_000_000);
    let n: u64 = 7_680_000_000_000_000_000;
    let r = sqrt_ceil_u64(n);
    assert!((r as u128) * (r as u128) >= n as u128);
    assert!(((r - 1) as u128) * ((r - 1) as u128) < n as u128);
}

#[test]
fn scaled_division_truncates_toward_zero() {
    assert_eq!(mul_div_trunc(7, 3, 2), 10);
    assert_eq!(mul_div_trunc(-7, 3, 2), -10);
    assert_eq!(mul_div_trunc(0, 3, 2), 0);
    assert_eq!(mul_div_trunc(-1, 1, 2), 0);
    assert_eq!(clamp_i64(5, -3, 3), 3);
    assert_eq!(clamp_i64(-5, -3, 3), -3);
    assert_eq!(clamp_i64(2, -3, 3), 2);
}

#[test]
fn squared_distance_matches_the_triangle() {
    let a = Vec3Fp { x: 0, y: 0, z: 0 };
    let b = Vec3Fp { x: 3_000_000, y: 0, z: 4_000_000 };
    assert_eq!(dist_sq(a, b), 25_000_000_000_000);
}
