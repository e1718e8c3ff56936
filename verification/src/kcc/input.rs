//! What the player's keys do to a character: braking, walking and jumping.

use vstd::prelude::*;
use crate::kcc::{KCCGravity, KinematicCharacterController};
use crate::math::{trunc_div, Vector3};

verus! {

/// Marks a character under which something was found.
#[derive(Clone, Copy, Debug, PartialEq, Eq, Structural)]
pub struct Grounded;

impl Default for Grounded {
    fn default() -> (r: Self)
        ensures
            r == Grounded,
    {
        Grounded
    }
}

/// The keys that move a character, each held or not.
#[derive(Clone, Copy, Debug, PartialEq, Eq, Structural)]
pub struct MovementKeys {
    pub a: bool,
    pub d: bool,
    pub w: bool,
    pub s: bool,
    pub space: bool,
}

/// The speed of walking.
pub const MOVE_SPEED: i32 = 10000;

/// The upward speed that a jump starts with.
pub const JUMP_SPEED: i32 = 5000;

/// Sideways intent: minus one for left, one for right, which wins where
/// both keys are held.
pub open spec fn intent_x(keys: MovementKeys) -> int {
    if keys.d {
        1
    } else if keys.a {
        -1
    } else {
        0
    }
}

/// Forward intent: one for forwards, minus one for backwards, which wins
/// where both keys are held.
pub open spec fn intent_y(keys: MovementKeys) -> int {
    if keys.s {
        -1
    } else if keys.w {
        1
    } else {
        0
    }
}

/// Whether any of the four walking keys is held.
pub open spec fn walks(keys: MovementKeys) -> bool {
    intent_x(keys) != 0 || intent_y(keys) != 0
}

/// What the walking keys ask for, as sideways and forward intent.
pub fn movement_intent(keys: &MovementKeys) -> (r: (i32, i32))
    ensures
        r.0 == intent_x(*keys),
        r.1 == intent_y(*keys),
{
    let mut x: i32 = 0;
    let mut y: i32 = 0;
    if keys.a {
        x = -1;
    }
    if keys.d {
        x = 1;
    }
    if keys.w {
        y = 1;
    }
    if keys.s {
        y = -1;
    }
    (x, y)
}

/// A character after the keys were read: walking replaces the horizontal
/// velocity by that of the walking direction and leaves the vertical one.
pub open spec fn walked(
    kcc: KinematicCharacterController,
    keys: MovementKeys,
    direction: Vector3,
) -> KinematicCharacterController {
    if walks(keys) {
        KinematicCharacterController {
            velocity: Vector3 { x: direction.x, y: kcc.velocity.y, z: direction.z },
            ..kcc
        }
    } else {
        kcc
    }
}

/// Whether the character jumps: the jump key is held while it is grounded.
pub open spec fn jumps(keys: MovementKeys, grounded: bool) -> bool {
    keys.space && grounded
}

/// Gravity after the keys were read: a jump replaces the velocity that
/// gravity has built up by the upward speed of a jump.
pub open spec fn jumped(gravity: KCCGravity, keys: MovementKeys, grounded: bool) -> KCCGravity {
    if jumps(keys, grounded) {
        KCCGravity { current_velocity: Vector3 { x: 0, y: JUMP_SPEED, z: 0 }, ..gravity }
    } else {
        gravity
    }
}

/// Applies the keys to a character. `direction` is the walking intent
/// turned by the character's heading and scaled to the speed of walking.
pub fn update_player_movement(
    keys: &MovementKeys,
    kcc: &mut KinematicCharacterController,
    grounded: bool,
    direction: Vector3,
    gravity: &mut Option<KCCGravity>,
)
    ensures
        *final(kcc) == walked(*old(kcc), *keys, direction),
        *final(gravity) == match *old(gravity) {
            Some(g) => Some(jumped(g, *keys, grounded)),
            None => None,
        },
{
    let movement = movement_intent(keys);
    if movement.0 != 0 || movement.1 != 0 {
        kcc.velocity.x = direction.x;
        kcc.velocity.z = direction.z;
    }
    if keys.space && grounded {
        if let Some(g) = *gravity {
            *gravity = Some(
                KCCGravity { current_velocity: Vector3 { x: 0, y: JUMP_SPEED, z: 0 }, ..g },
            );
        }
    }
}

/// A speed after one tick of braking: nine tenths of it, rounded towards
/// zero.
pub open spec fn dampened(speed: int) -> int {
    trunc_div(speed * 9, 10)
}

/// Nine tenths of a speed, rounded towards zero.
fn dampen(speed: i32) -> (r: i32)
    ensures
        r == dampened(speed as int),
{
    let wide: i64 = speed as i64 * 9;
    if wide >= 0 {
        (wide / 10) as i32
    } else {
        (-((-wide) / 10)) as i32
    }
}

/// Brakes a character: its horizontal velocity shrinks to nine tenths.
pub fn velocity_dampening(kcc: &mut KinematicCharacterController)
    ensures
        *final(kcc) == (KinematicCharacterController {
            velocity: Vector3 {
                x: dampened(old(kcc).velocity.x as int) as i32,
                y: old(kcc).velocity.y,
                z: dampened(old(kcc).velocity.z as int) as i32,
            },
            ..*old(kcc)
        }),
{
    kcc.velocity.x = dampen(kcc.velocity.x);
    kcc.velocity.z = dampen(kcc.velocity.z);
}

/// Whether something other than the character itself was found under it.
/// `hits` names what the downward cast met.
pub fn update_grounded(hits: &Vec<u64>, entity: u64) -> (r: bool)
    ensures
        r == exists|i: int| 0 <= i < hits@.len() && hits@[i] != entity,
{
    let mut i: usize = 0;
    while i < hits.len()
        invariant
            i <= hits@.len(),
            forall|j: int| 0 <= j < i ==> hits@[j] == entity,
        decreases hits@.len() - i,
    {
        if hits[i] != entity {
            return true;
        }
        i += 1;
    }
    false
}

} // verus!
