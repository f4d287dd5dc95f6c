//! The ship and its per-frame steering step: arrive at the marker without
//! overshooting, turn the heading toward it, and bank into the turn.

use crate::angle::{
    angle_to_positive_domain, atan2_fp, shortest_delta, spec_angle_to_positive_domain,
    spec_atan2, spec_shortest_delta, spec_wrap_angle, wrap_angle,
};
use crate::math::{
    clamp_i64, iabs, is_sqrt_ceil, lemma_mul_div_bounds, lemma_sqrt_ceil_exists,
    lemma_sqrt_ceil_unique, lemma_square_facts, mul_div, mul_div_trunc, spec_clamp,
    sqrt_ceil, sqrt_ceil_u64, FP, PI_FP, TWO_PI,
};
use crate::vec3::{dist_sq, lemma_coord_diff_sq_bound, spec_dist_sq, Vec3Fp};
use vstd::arithmetic::div_mod::{
    lemma_div_is_ordered, lemma_div_multiples_vanish, lemma_div_of0, lemma_div_pos_is_pos,
};
use vstd::prelude::*;

verus! {

/// The ship's linear speed, in micro-units per second (forty-eight world
/// units per second).
pub const SHIP_VELOCITY: i64 = 48_000_000;

/// The rate at which the orientation closes on its target, per second.
pub const SHIP_ROTATION_VELOCITY: i64 = 6;

/// The gain that turns a heading change into a banking angle.
pub const SHIP_TILT_GAIN: i64 = 6;

/// The largest banking angle, in micro-radians (sixteen hundredths of pi).
pub const SHIP_MAX_TILT_ANGLE: i64 = 502_655;

/// Dead zone of the three-way banking rule, in micro-radians: heading
/// changes smaller than this keep the ship level.
pub const TILT_DEAD_ZONE: i64 = 50_000;

/// Squared distance below which the ship stands still, in squared
/// micro-units (half a squared world unit): prevents jitter at rest.
pub const MOVE_THRESHOLD_SQ: i64 = 500_000_000_000;

/// The longest frame time the stepper accepts, in microseconds (ten
/// seconds): keeps every scaled product inside the machine word.
pub const MAX_DT: i64 = 10_000_000;

/// The longest translation step a frame can take, in micro-units: the
/// velocity constant over the longest frame time.
pub const MAX_STEP: i64 = 480_000_000;

/// The player's ship: a position, an orientation split into its heading
/// (yaw) and its banking roll, and the heading remembered from the previous
/// frame, which the banking rule compares against.
#[derive(Clone, Copy, Debug, PartialEq, Eq, Structural)]
pub struct Ship {
    /// World position, in micro-units.
    pub position: Vec3Fp,
    /// Heading around the vertical axis, in micro-radians, in
    /// `(-PI_FP, PI_FP]`.
    pub yaw: i64,
    /// Banking roll, in micro-radians, within the tilt envelope.
    pub roll: i64,
    /// The heading the marker demanded on the previous moving frame.
    pub previous_rotation_angle: i64,
}

impl Ship {
    /// The ship's fields lie in their domains.
    pub open spec fn wf(self) -> bool {
        &&& self.position.in_world()
        &&& -PI_FP < self.yaw <= PI_FP
        &&& -SHIP_MAX_TILT_ANGLE <= self.roll <= SHIP_MAX_TILT_ANGLE
        &&& -PI_FP <= self.previous_rotation_angle <= PI_FP
    }
}

impl Default for Ship {
    /// A ship at rest at the origin, level and facing along the `+z` axis.
    fn default() -> (s: Ship)
        ensures
            s.position == Vec3Fp::spec_zero(),
            s.yaw == 0,
            s.roll == 0,
            s.previous_rotation_angle == 0,
            s.wf(),
    {
        Ship { position: Vec3Fp { x: 0, y: 0, z: 0 }, yaw: 0, roll: 0, previous_rotation_angle: 0 }
    }
}

/// The banking angle of the continuous-clamp rule: the heading change,
/// scaled by the tilt gain against the turn direction, clamped into the
/// tilt envelope.
pub open spec fn spec_bank_angle(tilt_difference: int) -> int {
    spec_clamp(
        tilt_difference * -SHIP_TILT_GAIN,
        -SHIP_MAX_TILT_ANGLE as int,
        SHIP_MAX_TILT_ANGLE as int,
    )
}

/// Compute the continuous-clamp banking angle; it always lies within
/// `[-SHIP_MAX_TILT_ANGLE, SHIP_MAX_TILT_ANGLE]`.
pub fn bank_angle(tilt_difference: i64) -> (r: i64)
    requires
        -TWO_PI <= tilt_difference <= TWO_PI,
    ensures
        r == spec_bank_angle(tilt_difference as int),
        -SHIP_MAX_TILT_ANGLE <= r <= SHIP_MAX_TILT_ANGLE,
{
    proof {
        assert(-(TWO_PI as int) * 6 <= tilt_difference * (-SHIP_TILT_GAIN as int) <= (TWO_PI as int)
            * 6) by (nonlinear_arith)
            requires
                -TWO_PI <= tilt_difference <= TWO_PI,
                TWO_PI == 6_283_184i64,
                SHIP_TILT_GAIN == 6i64,
        ;
    }
    clamp_i64(tilt_difference * -SHIP_TILT_GAIN, -SHIP_MAX_TILT_ANGLE, SHIP_MAX_TILT_ANGLE)
}

/// The banking angle of the three-way dead-zone rule: full tilt against the
/// turn direction, or level inside the dead zone.
pub open spec fn spec_bank_angle_discrete(tilt_difference: int) -> int {
    if tilt_difference > TILT_DEAD_ZONE {
        -SHIP_MAX_TILT_ANGLE as int
    } else if tilt_difference < -TILT_DEAD_ZONE {
        SHIP_MAX_TILT_ANGLE as int
    } else {
        0
    }
}

/// Compute the three-way banking angle; it takes exactly one of the three
/// values level, full left tilt, or full right tilt.
///
/// The banking rule exists in two forms, and `move_ship` applies the
/// continuous clamp of `bank_angle`; this discrete form is offered beside
/// it for a harder, arcade-like lean.
pub fn bank_angle_discrete(tilt_difference: i64) -> (r: i64)
    requires
        -TWO_PI <= tilt_difference <= TWO_PI,
    ensures
        r == spec_bank_angle_discrete(tilt_difference as int),
        r == -SHIP_MAX_TILT_ANGLE || r == 0 || r == SHIP_MAX_TILT_ANGLE,
{
    if tilt_difference > TILT_DEAD_ZONE {
        -SHIP_MAX_TILT_ANGLE
    } else if tilt_difference < -TILT_DEAD_ZONE {
        SHIP_MAX_TILT_ANGLE
    } else {
        0
    }
}

/// The translation a frame of `dt` microseconds grants, in micro-units.
pub open spec fn spec_step_magnitude(dt: int) -> int {
    (SHIP_VELOCITY * dt) / (FP as int)
}

/// The step magnitude of an accepted frame time is non-negative and at most
/// `MAX_STEP`.
pub proof fn lemma_step_magnitude_range(dt: int)
    requires
        0 <= dt <= MAX_DT,
    ensures
        0 <= spec_step_magnitude(dt) <= MAX_STEP,
{
    lemma_div_pos_is_pos(SHIP_VELOCITY * dt, FP as int);
    lemma_div_is_ordered(SHIP_VELOCITY * dt, 480_000_000_000_000, FP as int);
}

/// The position after one translation step toward the marker: onto the
/// marker itself when the step would overshoot the remaining distance, and
/// otherwise along the direction to the marker, each component scaled by
/// the step over the rounded-up distance.
pub open spec fn spec_step_toward(position: Vec3Fp, marker: Vec3Fp, step: int) -> Vec3Fp {
    let dsq = spec_dist_sq(position, marker);
    if step * step > dsq {
        marker
    } else {
        let d = sqrt_ceil(dsq);
        Vec3Fp {
            x: (position.x + mul_div(marker.x - position.x, step, d)) as i64,
            y: (position.y + mul_div(marker.y - position.y, step, d)) as i64,
            z: (position.z + mul_div(marker.z - position.z, step, d)) as i64,
        }
    }
}

/// Scaling three components by `step / d` with `step <= d` shrinks each
/// component and keeps the scaled magnitude within `step`.
proof fn lemma_scaled_magnitude(
    ax: int,
    ay: int,
    az: int,
    step: int,
    d: int,
    qx: int,
    qy: int,
    qz: int,
)
    requires
        0 <= ax,
        0 <= ay,
        0 <= az,
        0 <= step <= d,
        0 < d,
        ax * ax + ay * ay + az * az <= d * d,
        0 <= qx,
        qx * d <= ax * step,
        0 <= qy,
        qy * d <= ay * step,
        0 <= qz,
        qz * d <= az * step,
    ensures
        qx <= ax,
        qy <= ay,
        qz <= az,
        qx * qx + qy * qy + qz * qz <= step * step,
{
    assert(qx <= ax && qy <= ay && qz <= az) by (nonlinear_arith)
        requires
            0 <= ax,
            0 <= ay,
            0 <= az,
            0 <= step <= d,
            0 < d,
            0 <= qx,
            qx * d <= ax * step,
            0 <= qy,
            qy * d <= ay * step,
            0 <= qz,
            qz * d <= az * step,
    ;
    assert((qx * qx) * (d * d) <= (ax * ax) * (step * step)) by (nonlinear_arith)
        requires
            0 <= qx,
            0 <= ax,
            0 <= step,
            0 < d,
            qx * d <= ax * step,
    ;
    assert((qy * qy) * (d * d) <= (ay * ay) * (step * step)) by (nonlinear_arith)
        requires
            0 <= qy,
            0 <= ay,
            0 <= step,
            0 < d,
            qy * d <= ay * step,
    ;
    assert((qz * qz) * (d * d) <= (az * az) * (step * step)) by (nonlinear_arith)
        requires
            0 <= qz,
            0 <= az,
            0 <= step,
            0 < d,
            qz * d <= az * step,
    ;
    assert((qx * qx + qy * qy + qz * qz) * (d * d) <= (ax * ax + ay * ay + az * az) * (step
        * step)) by (nonlinear_arith)
        requires
            (qx * qx) * (d * d) <= (ax * ax) * (step * step),
            (qy * qy) * (d * d) <= (ay * ay) * (step * step),
            (qz * qz) * (d * d) <= (az * az) * (step * step),
    ;
    assert((ax * ax + ay * ay + az * az) * (step * step) <= (d * d) * (step * step))
        by (nonlinear_arith)
        requires
            ax * ax + ay * ay + az * az <= d * d,
            0 <= step,
    ;
    assert(qx * qx + qy * qy + qz * qz <= step * step) by (nonlinear_arith)
        requires
            (qx * qx + qy * qy + qz * qz) * (d * d) <= (d * d) * (step * step),
            0 < d,
            0 <= qx * qx + qy * qy + qz * qz,
    ;
    assert(0 <= qx * qx + qy * qy + qz * qz) by (nonlinear_arith)
        requires
            0 <= qx,
            0 <= qy,
            0 <= qz,
    ;
}

/// One translation step never overshoots: when the step would pass the
/// marker the new position is the marker itself, and otherwise the step's
/// displacement stays within the step magnitude, within the remaining
/// distance, and inside the world.
pub proof fn lemma_step_toward_bounds(position: Vec3Fp, marker: Vec3Fp, step: int)
    requires
        position.in_world(),
        marker.in_world(),
        0 <= step <= MAX_STEP,
        spec_dist_sq(position, marker) >= 1,
    ensures
        spec_step_toward(position, marker, step).in_world(),
        spec_dist_sq(position, spec_step_toward(position, marker, step)) <= step * step,
        spec_dist_sq(position, spec_step_toward(position, marker, step)) <= spec_dist_sq(
            position,
            marker,
        ),
        step * step > spec_dist_sq(position, marker) ==> spec_step_toward(
            position,
            marker,
            step,
        ) == marker,
{
    let dsq = spec_dist_sq(position, marker);
    lemma_coord_diff_sq_bound(position.x as int, marker.x as int);
    lemma_coord_diff_sq_bound(position.y as int, marker.y as int);
    lemma_coord_diff_sq_bound(position.z as int, marker.z as int);
    if step * step > dsq {
    } else {
        lemma_sqrt_ceil_exists(dsq);
        let d = sqrt_ceil(dsq);
        assert(d >= 1) by (nonlinear_arith)
            requires
                dsq >= 1,
                dsq <= d * d,
                d >= 0,
        ;
        assert(step <= d) by {
            lemma_square_facts(step, d);
            lemma_square_facts(d, d);
        }
        let dx = marker.x - position.x;
        let dy = marker.y - position.y;
        let dz = marker.z - position.z;
        let qx = mul_div(dx, step, d);
        let qy = mul_div(dy, step, d);
        let qz = mul_div(dz, step, d);
        lemma_mul_div_bounds(dx, step, d);
        lemma_mul_div_bounds(dy, step, d);
        lemma_mul_div_bounds(dz, step, d);
        lemma_square_facts(dx, dx);
        lemma_square_facts(dy, dy);
        lemma_square_facts(dz, dz);
        lemma_scaled_magnitude(
            iabs(dx),
            iabs(dy),
            iabs(dz),
            step,
            d,
            iabs(qx),
            iabs(qy),
            iabs(qz),
        );
        let r = spec_step_toward(position, marker, step);
        assert(r.x == position.x + qx);
        assert(r.y == position.y + qy);
        assert(r.z == position.z + qz);
        lemma_square_facts(qx, qx);
        lemma_square_facts(qy, qy);
        lemma_square_facts(qz, qz);
        assert(spec_dist_sq(position, r) == qx * qx + qy * qy + qz * qz);
        assert(iabs(qx) * iabs(qx) + iabs(qy) * iabs(qy) + iabs(qz) * iabs(qz) <= step * step);
        assert(step * step <= dsq);
    }
}

/// Compute one translation step toward the marker.
pub fn step_toward(position: Vec3Fp, marker: Vec3Fp, step: i64) -> (r: Vec3Fp)
    requires
        position.in_world(),
        marker.in_world(),
        0 <= step <= MAX_STEP,
        spec_dist_sq(position, marker) >= 1,
    ensures
        r == spec_step_toward(position, marker, step as int),
        r.in_world(),
        spec_dist_sq(position, r) <= step * step,
        spec_dist_sq(position, r) <= spec_dist_sq(position, marker),
        step * step > spec_dist_sq(position, marker) ==> r == marker,
{
    proof {
        lemma_step_toward_bounds(position, marker, step as int);
        assert((step as int) * (step as int) <= 230_400_000_000_000_000) by (nonlinear_arith)
            requires
                0 <= step <= 480_000_000i64,
        ;
    }
    let dsq: i64 = dist_sq(position, marker);
    if step * step > dsq {
        return marker;
    }
    let d: i64 = sqrt_ceil_u64(dsq as u64) as i64;
    proof {
        assert(d >= 1) by (nonlinear_arith)
            requires
                dsq >= 1,
                dsq <= (d as int) * (d as int),
                d >= 0,
        ;
    }
    let dx: i64 = marker.x - position.x;
    let dy: i64 = marker.y - position.y;
    let dz: i64 = marker.z - position.z;
    proof {
        lemma_coord_diff_sq_bound(position.x as int, marker.x as int);
        lemma_coord_diff_sq_bound(position.y as int, marker.y as int);
        lemma_coord_diff_sq_bound(position.z as int, marker.z as int);
        assert(iabs(dx as int) * step <= i64::MAX && iabs(dy as int) * step <= i64::MAX && iabs(
            dz as int,
        ) * step <= i64::MAX) by (nonlinear_arith)
            requires
                iabs(dx as int) <= 1_600_000_000,
                iabs(dy as int) <= 1_600_000_000,
                iabs(dz as int) <= 1_600_000_000,
                0 <= step <= 480_000_000i64,
        ;
        assert(dx * step <= iabs(dx as int) * step && -(iabs(dx as int) * step) <= dx * step)
            by (nonlinear_arith)
            requires
                0 <= step,
        ;
        assert(dy * step <= iabs(dy as int) * step && -(iabs(dy as int) * step) <= dy * step)
            by (nonlinear_arith)
            requires
                0 <= step,
        ;
        assert(dz * step <= iabs(dz as int) * step && -(iabs(dz as int) * step) <= dz * step)
            by (nonlinear_arith)
            requires
                0 <= step,
        ;
    }
    let qx: i64 = mul_div_trunc(dx, step, d);
    let qy: i64 = mul_div_trunc(dy, step, d);
    let qz: i64 = mul_div_trunc(dz, step, d);
    proof {
        lemma_square_facts(dx as int, dx as int);
        lemma_square_facts(dy as int, dy as int);
        lemma_square_facts(dz as int, dz as int);
        lemma_square_facts(step as int, d as int);
        lemma_scaled_magnitude(
            iabs(dx as int),
            iabs(dy as int),
            iabs(dz as int),
            step as int,
            d as int,
            iabs(qx as int),
            iabs(qy as int),
            iabs(qz as int),
        );
    }
    Vec3Fp { x: position.x + qx, y: position.y + qy, z: position.z + qz }
}

/// The ship after one frame of `dt` microseconds chasing `marker`: standing
/// still below the jitter threshold, and otherwise turning toward the
/// marker's heading, banking by the heading change, and stepping toward the
/// marker without overshooting it.
pub open spec fn spec_move_ship(ship: Ship, marker: Vec3Fp, dt: int) -> Ship {
    let dsq = spec_dist_sq(ship.position, marker);
    if dsq < MOVE_THRESHOLD_SQ {
        ship
    } else {
        let target = spec_atan2(marker.x - ship.position.x, marker.z - ship.position.z);
        let tilt_difference = spec_angle_to_positive_domain(target)
            - spec_angle_to_positive_domain(ship.previous_rotation_angle as int);
        let bank = spec_bank_angle(tilt_difference);
        let t = dt * SHIP_ROTATION_VELOCITY;
        let yaw = spec_wrap_angle(
            ship.yaw + mul_div(spec_shortest_delta(target, ship.yaw as int), t, FP as int),
        );
        let roll = spec_clamp(
            ship.roll + mul_div(bank - ship.roll, t, FP as int),
            -SHIP_MAX_TILT_ANGLE as int,
            SHIP_MAX_TILT_ANGLE as int,
        );
        Ship {
            position: spec_step_toward(ship.position, marker, spec_step_magnitude(dt)),
            yaw: yaw as i64,
            roll: roll as i64,
            previous_rotation_angle: target as i64,
        }
    }
}

/// Advance the ship by one frame of `dt` microseconds toward `marker`.
///
/// Below the jitter threshold nothing changes; otherwise the heading closes
/// on the marker's direction at the rotation rate, the roll closes on the
/// banking angle of the heading change and stays inside the tilt envelope,
/// and the position steps toward the marker by the velocity constant times
/// the frame time, landing exactly on the marker rather than overshooting
/// it.
pub fn move_ship(ship: &mut Ship, marker: Vec3Fp, dt: i64)
    requires
        old(ship).wf(),
        marker.in_world(),
        0 <= dt <= MAX_DT,
    ensures
        *final(ship) == spec_move_ship(*old(ship), marker, dt as int),
        final(ship).wf(),
        spec_dist_sq(old(ship).position, marker) < MOVE_THRESHOLD_SQ ==> *final(ship) == *old(
            ship,
        ),
        spec_dist_sq(old(ship).position, final(ship).position) <= spec_step_magnitude(dt as int)
            * spec_step_magnitude(dt as int),
        spec_dist_sq(old(ship).position, final(ship).position) <= spec_dist_sq(
            old(ship).position,
            marker,
        ),
{
    let dsq: i64 = dist_sq(ship.position, marker);
    if dsq < MOVE_THRESHOLD_SQ {
        proof {
            assert(spec_dist_sq(ship.position, ship.position) == 0) by {
                lemma_square_facts(0, 0);
            }
            lemma_step_magnitude_range(dt as int);
            lemma_square_facts(spec_step_magnitude(dt as int), spec_step_magnitude(dt as int));
        }
        return ;
    }
    let dx: i64 = marker.x - ship.position.x;
    let dz: i64 = marker.z - ship.position.z;
    let target: i64 = atan2_fp(dx, dz);
    let positive_new_tilt_angle: i64 = angle_to_positive_domain(target);
    let positive_previous_tilt_angle: i64 = angle_to_positive_domain(
        ship.previous_rotation_angle,
    );
    let tilt_difference: i64 = positive_new_tilt_angle - positive_previous_tilt_angle;
    let bank: i64 = bank_angle(tilt_difference);
    let t: i64 = dt * SHIP_ROTATION_VELOCITY;
    let yaw_delta: i64 = shortest_delta(target, ship.yaw);
    proof {
        assert(iabs(yaw_delta as int) * t <= 188_603_160_000_000) by (nonlinear_arith)
            requires
                iabs(yaw_delta as int) <= 3_141_593,
                0 <= t <= 60_000_000,
        ;
        assert(yaw_delta * t <= iabs(yaw_delta as int) * t && -(iabs(yaw_delta as int) * t)
            <= yaw_delta * t) by (nonlinear_arith)
            requires
                0 <= t,
        ;
    }
    let yaw_step: i64 = mul_div_trunc(yaw_delta, t, FP);
    proof {
        assert(iabs(yaw_step as int) <= 188_603_160) by {
            assert(iabs(yaw_step as int) * (FP as int) <= 188_603_160_000_000);
        }
    }
    let new_yaw: i64 = wrap_angle(ship.yaw + yaw_step);
    let roll_gap: i64 = bank - ship.roll;
    proof {
        assert(iabs(roll_gap as int) * t <= 60_318_600_000_000) by (nonlinear_arith)
            requires
                iabs(roll_gap as int) <= 1_005_310,
                0 <= t <= 60_000_000,
        ;
        assert(roll_gap * t <= iabs(roll_gap as int) * t && -(iabs(roll_gap as int) * t)
            <= roll_gap * t) by (nonlinear_arith)
            requires
                0 <= t,
        ;
    }
    let roll_step: i64 = mul_div_trunc(roll_gap, t, FP);
    proof {
        assert(iabs(roll_step as int) <= 60_318_600) by {
            assert(iabs(roll_step as int) * (FP as int) <= 60_318_600_000_000);
        }
    }
    let new_roll: i64 = clamp_i64(
        ship.roll + roll_step,
        -SHIP_MAX_TILT_ANGLE,
        SHIP_MAX_TILT_ANGLE,
    );
    let step: i64 = (SHIP_VELOCITY * dt) / FP;
    proof {
        lemma_step_magnitude_range(dt as int);
    }
    let new_position: Vec3Fp = step_toward(ship.position, marker, step);
    ship.position = new_position;
    ship.yaw = new_yaw;
    ship.roll = new_roll;
    ship.previous_rotation_angle = target;
}

/// The truncating scaled division lands within one grain of the exact
/// product: `mul_div(a, b, d) * d` differs from `a * b` by less than `d`.
proof fn lemma_mul_div_rounding(a: int, b: int, d: int)
    requires
        b >= 0,
        d > 0,
    ensures
        iabs(mul_div(a, b, d) * d - a * b) < d,
{
    lemma_mul_div_bounds(a, b, d);
    let q = mul_div(a, b, d);
    assert(a >= 0 ==> a * b >= 0) by (nonlinear_arith)
        requires
            b >= 0,
    ;
    assert(a <= 0 ==> a * b <= 0) by (nonlinear_arith)
        requires
            b >= 0,
    ;
    assert(iabs(q * d - a * b) < d) by (nonlinear_arith)
        requires
            b >= 0,
            d > 0,
            a >= 0 ==> 0 <= q,
            a <= 0 ==> q <= 0,
            a >= 0 ==> a * b >= 0,
            a <= 0 ==> a * b <= 0,
            iabs(q) * d <= iabs(a) * b,
            iabs(a) * b < (iabs(q) + 1) * d,
    ;
}

/// Scaled by the rounded-up remaining distance, each component of one
/// step's displacement equals the exact travel — the direction component
/// times the step magnitude — to within one grain of that distance: the
/// displacement is the real arrive-steering displacement, rounded toward
/// zero per axis.
pub proof fn lemma_step_component_rounding(position: Vec3Fp, marker: Vec3Fp, step: int)
    requires
        position.in_world(),
        marker.in_world(),
        0 <= step <= MAX_STEP,
        1 <= spec_dist_sq(position, marker),
        step * step <= spec_dist_sq(position, marker),
    ensures
        ({
            let r = spec_step_toward(position, marker, step);
            let d = sqrt_ceil(spec_dist_sq(position, marker));
            &&& iabs((r.x - position.x) * d - (marker.x - position.x) * step) < d
            &&& iabs((r.y - position.y) * d - (marker.y - position.y) * step) < d
            &&& iabs((r.z - position.z) * d - (marker.z - position.z) * step) < d
        }),
{
    lemma_step_toward_bounds(position, marker, step);
    let dsq = spec_dist_sq(position, marker);
    lemma_sqrt_ceil_exists(dsq);
    let d = sqrt_ceil(dsq);
    assert(d >= 1) by (nonlinear_arith)
        requires
            dsq >= 1,
            dsq <= d * d,
            d >= 0,
    ;
    let dx = marker.x - position.x;
    let dy = marker.y - position.y;
    let dz = marker.z - position.z;
    lemma_mul_div_rounding(dx, step, d);
    lemma_mul_div_rounding(dy, step, d);
    lemma_mul_div_rounding(dz, step, d);
    lemma_coord_diff_sq_bound(position.x as int, marker.x as int);
    lemma_coord_diff_sq_bound(position.y as int, marker.y as int);
    lemma_coord_diff_sq_bound(position.z as int, marker.z as int);
    lemma_mul_div_bounds(dx, step, d);
    lemma_mul_div_bounds(dy, step, d);
    lemma_mul_div_bounds(dz, step, d);
    lemma_square_facts(dx, dx);
    lemma_square_facts(dy, dy);
    lemma_square_facts(dz, dz);
    assert(step <= d) by {
        lemma_square_facts(step, d);
        lemma_square_facts(d, d);
    }
    lemma_scaled_magnitude(
        iabs(dx),
        iabs(dy),
        iabs(dz),
        step,
        d,
        iabs(mul_div(dx, step, d)),
        iabs(mul_div(dy, step, d)),
        iabs(mul_div(dz, step, d)),
    );
    let r = spec_step_toward(position, marker, step);
    assert(r.x - position.x == mul_div(dx, step, d));
    assert(r.y - position.y == mul_div(dy, step, d));
    assert(r.z - position.z == mul_div(dz, step, d));
}

/// On a straight run — the marker dead ahead along one axis, farther than
/// one step — the frame's displacement is exactly the step magnitude: the
/// scaled division leaves no remainder, so the travel equals the velocity
/// constant times the elapsed time.
pub proof fn lemma_straight_run_exact(position: Vec3Fp, marker: Vec3Fp, step: int)
    requires
        position.in_world(),
        marker.in_world(),
        0 <= step <= MAX_STEP,
        marker.x == position.x,
        marker.y == position.y,
        marker.z != position.z,
        step * step <= spec_dist_sq(position, marker),
    ensures
        spec_step_toward(position, marker, step).x == position.x,
        spec_step_toward(position, marker, step).y == position.y,
        iabs(spec_step_toward(position, marker, step).z - position.z) == step,
{
    let dz = marker.z - position.z;
    let d = iabs(dz);
    let dsq = spec_dist_sq(position, marker);
    lemma_square_facts(0, 0);
    lemma_square_facts(dz, dz);
    assert(dsq == d * d);
    assert(d >= 1);
    assert(is_sqrt_ceil(dsq, d)) by (nonlinear_arith)
        requires
            d >= 1,
            dsq == d * d,
    ;
    lemma_sqrt_ceil_exists(dsq);
    lemma_sqrt_ceil_unique(dsq, d, sqrt_ceil(dsq));
    assert(step <= d) by {
        lemma_square_facts(step, d);
    }
    lemma_div_of0(d);
    assert(mul_div(0, step, d) == 0) by {
        assert(0 * step == 0);
    }
    lemma_div_multiples_vanish(step, d);
    assert(mul_div(dz, step, d) == if dz > 0 {
        step
    } else {
        -step
    }) by {
        assert(dz * step == if dz > 0 {
            d * step
        } else {
            -(d * step)
        }) by (nonlinear_arith)
            requires
                d == iabs(dz),
                dz != 0,
        ;
    }
}

/// A ship standing at its marker has the zero direction to it; the frame
/// leaves position and orientation exactly as they were.
pub proof fn lemma_at_marker_no_motion(ship: Ship, dt: int)
    requires
        ship.wf(),
        0 <= dt <= MAX_DT,
    ensures
        spec_move_ship(ship, ship.position, dt) == ship,
{
    assert(spec_dist_sq(ship.position, ship.position) == 0) by {
        lemma_square_facts(0, 0);
    }
}

/// One frame's displacement never exceeds the travel the velocity constant
/// grants for the elapsed time, and never exceeds the remaining distance to
/// the marker.
pub proof fn lemma_frame_displacement_bounded(ship: Ship, marker: Vec3Fp, dt: int)
    requires
        ship.wf(),
        marker.in_world(),
        0 <= dt <= MAX_DT,
    ensures
        spec_dist_sq(ship.position, spec_move_ship(ship, marker, dt).position)
            <= spec_step_magnitude(dt) * spec_step_magnitude(dt),
        spec_dist_sq(ship.position, spec_move_ship(ship, marker, dt).position) <= spec_dist_sq(
            ship.position,
            marker,
        ),
{
    let dsq = spec_dist_sq(ship.position, marker);
    lemma_step_magnitude_range(dt);
    let step = spec_step_magnitude(dt);
    if dsq < MOVE_THRESHOLD_SQ {
        assert(spec_dist_sq(ship.position, ship.position) == 0) by {
            lemma_square_facts(0, 0);
        }
        lemma_square_facts(step, step);
        assert(dsq >= 0) by {
            lemma_coord_diff_sq_bound(ship.position.x as int, marker.x as int);
            lemma_coord_diff_sq_bound(ship.position.y as int, marker.y as int);
            lemma_coord_diff_sq_bound(ship.position.z as int, marker.z as int);
        }
    } else {
        lemma_step_toward_bounds(ship.position, marker, step);
    }
}

/// When the remaining distance is smaller than one frame's travel, the new
/// position is exactly the marker's: the ship never overshoots.
pub proof fn lemma_snap_onto_marker(ship: Ship, marker: Vec3Fp, dt: int)
    requires
        ship.wf(),
        marker.in_world(),
        0 <= dt <= MAX_DT,
        spec_dist_sq(ship.position, marker) >= MOVE_THRESHOLD_SQ,
        spec_step_magnitude(dt) * spec_step_magnitude(dt) > spec_dist_sq(ship.position, marker),
    ensures
        spec_move_ship(ship, marker, dt).position == marker,
{
    lemma_step_magnitude_range(dt);
    lemma_step_toward_bounds(ship.position, marker, spec_step_magnitude(dt));
}

} // verus!
