//! Looking around: a first-person camera that pitches on its own and turns
//! the avatar it rides on.
//!
//! Angles are in thousandths of a radian.

use vstd::prelude::*;
use crate::math::{clamp_i32, trunc_div};

verus! {

/// How far the camera pitches up or down: about eighty-eight degrees.
pub const MAX_PITCH: i32 = 1540;

/// A camera that follows the pointer.
#[derive(Clone, Copy, Debug, PartialEq, Eq, Structural)]
pub struct FpsCamera {
    sensitivity: i32,
}

/// How far one axis of the pointer's movement turns the view: the movement
/// scaled by the sensitivity and by the `dt` thousandths of a second that
/// went by.
pub open spec fn look_angle(delta: int, sensitivity: int, dt: int) -> int {
    clamp_i32(trunc_div(delta * sensitivity * dt, 1000000))
}

/// The pitch after the pointer moved: lowered by the turn, and kept between
/// the limits.
pub open spec fn pitched(pitch: int, turn: int) -> int {
    if pitch - turn < -MAX_PITCH {
        -MAX_PITCH
    } else if pitch - turn > MAX_PITCH {
        MAX_PITCH as int
    } else {
        pitch - turn
    }
}

/// The yaw after the pointer moved: lowered by the turn.
pub open spec fn yawed(yaw: int, turn: int) -> int {
    clamp_i32(yaw - turn)
}

impl FpsCamera {
    /// How strongly the view follows the pointer, in thousandths.
    pub closed spec fn spec_sensitivity(&self) -> i32 {
        self.sensitivity
    }

    pub fn new(sensitivity: i32) -> (r: FpsCamera)
        ensures
            r.sensitivity() == sensitivity,
    {
        FpsCamera { sensitivity }
    }

    /// How strongly the view follows the pointer, in thousandths.
    #[verifier::when_used_as_spec(spec_sensitivity)]
    pub fn sensitivity(&self) -> (r: i32)
        ensures
            r == self.sensitivity(),
    {
        self.sensitivity
    }

    /// Computes `look_angle`.
    fn turn(&self, delta: i32, dt: u32) -> (r: i32)
        ensures
            r == look_angle(delta as int, self.sensitivity() as int, dt as int),
    {
        proof {
            assert(-0x4000_0000_0000_0000 <= delta * self.sensitivity <= 0x4000_0000_0000_0000)
                by (nonlinear_arith)
                requires
                    -0x8000_0000 <= delta <= 0x7fff_ffff,
                    -0x8000_0000 <= self.sensitivity <= 0x7fff_ffff,
            ;
            let p = delta * self.sensitivity;
            assert(-0x4000_0000_0000_0000_0000_0000 <= p * dt <= 0x4000_0000_0000_0000_0000_0000)
                by (nonlinear_arith)
                requires
                    -0x4000_0000_0000_0000 <= p <= 0x4000_0000_0000_0000,
                    0 <= dt <= 0xffff_ffff,
            ;
        }
        let product: i128 = delta as i128 * self.sensitivity as i128 * dt as i128;
        let scaled: i128 = if product >= 0 {
            product / 1000000
        } else {
            -((-product) / 1000000)
        };
        if scaled < i32::MIN as i128 {
            i32::MIN
        } else if scaled > i32::MAX as i128 {
            i32::MAX
        } else {
            scaled as i32
        }
    }

    /// The view after the pointer moved by `(dx, dy)` in `dt` thousandths of
    /// a second: the new yaw, which turns the avatar, and the new pitch,
    /// which tilts the camera alone.
    pub fn look(&self, yaw: i32, pitch: i32, dx: i32, dy: i32, dt: u32) -> (r: (i32, i32))
        ensures
            r.0 == yawed(yaw as int, look_angle(dx as int, self.sensitivity() as int, dt as int)),
            r.1 == pitched(
                pitch as int,
                look_angle(dy as int, self.sensitivity() as int, dt as int),
            ),
            -MAX_PITCH <= r.1 <= MAX_PITCH,
    {
        let turn_x = self.turn(dx, dt);
        let turn_y = self.turn(dy, dt);
        let new_yaw: i64 = yaw as i64 - turn_x as i64;
        let new_pitch: i64 = pitch as i64 - turn_y as i64;
        (
            if new_yaw < i32::MIN as i64 {
                i32::MIN
            } else if new_yaw > i32::MAX as i64 {
                i32::MAX
            } else {
                new_yaw as i32
            },
            if new_pitch < -(MAX_PITCH as i64) {
                -MAX_PITCH
            } else if new_pitch > MAX_PITCH as i64 {
                MAX_PITCH
            } else {
                new_pitch as i32
            },
        )
    }
}

} // verus!
