//! A kinematic character controller: the state of a capsule-shaped avatar
//! that is moved by casting its shape through the world, and the
//! bookkeeping that follows every tick of movement.
//!
//! Speeds are in thousandths of a world unit per second, angles in
//! thousandths of a radian.

use vstd::prelude::*;
use crate::grid::WorldPos;
use crate::math::{clamp_i32, Normal, Vector3};

pub mod input;
pub mod movement;

verus! {

/// A capsule: a cylinder with a half sphere on either end.
#[derive(Clone, Copy, Debug, PartialEq, Eq, Structural)]
pub struct Capsule {
    pub radius: i32,
    pub length: i32,
}

/// What a shape cast found: how far the shape could travel, and the normal
/// of the surface it met.
#[derive(Clone, Copy, Debug, PartialEq, Eq, Structural)]
pub struct ShapeHit {
    pub distance: i32,
    pub normal: Normal,
}

/// The core state of a character.
#[derive(Clone, Copy, Debug, PartialEq, Eq, Structural)]
pub struct KinematicCharacterController {
    /// The velocity of the previous tick.
    pub prev_velocity: Vector3,
    /// The velocity of this tick.
    pub velocity: Vector3,
    /// The character's up direction.
    pub up: Vector3,
    /// How many times the character may bounce off surfaces in one move.
    pub bounces: u32,
    /// The shape of the character.
    pub collider: Capsule,
}

impl Default for KinematicCharacterController {
    fn default() -> (r: Self)
        ensures
            r == (KinematicCharacterController {
                prev_velocity: Vector3 { x: 0, y: 0, z: 0 },
                velocity: Vector3 { x: 0, y: 0, z: 0 },
                up: Vector3 { x: 0, y: 1000, z: 0 },
                bounces: 4,
                collider: Capsule { radius: 400, length: 800 },
            }),
    {
        KinematicCharacterController {
            prev_velocity: Vector3::zero(),
            velocity: Vector3::zero(),
            up: Vector3 { x: 0, y: 1000, z: 0 },
            bounces: 4,
            collider: Capsule { radius: 400, length: 800 },
        }
    }
}

/// Whether the character stands on a floor, now and one tick ago.
#[derive(Clone, Copy, Debug, PartialEq, Eq, Structural)]
pub struct KCCGrounded {
    pub grounded: bool,
    pub prev_grounded: bool,
}

impl Default for KCCGrounded {
    fn default() -> (r: Self)
        ensures
            r == (KCCGrounded { grounded: false, prev_grounded: false }),
    {
        KCCGrounded { grounded: false, prev_grounded: false }
    }
}

/// What the floor probe of a character found.
#[derive(Clone, Copy, Debug, PartialEq, Eq, Structural)]
pub struct KCCFloorDetection {
    /// Normal of the floor one tick ago, zero while none was found.
    pub prev_floor_normal: Normal,
    /// Normal of the floor now, zero while none was found.
    pub floor_normal: Normal,
    /// The direction in which the floor is looked for.
    pub ground_direction: Vector3,
    /// The shape that is cast to find the floor.
    pub floor_collider: Capsule,
    /// How far below the character the floor was found.
    pub floor_distance: i32,
    /// How far below the character a floor still counts.
    pub max_floor_distance: i32,
}

impl Default for KCCFloorDetection {
    fn default() -> (r: Self)
        ensures
            r == (KCCFloorDetection {
                prev_floor_normal: Normal { x: 0, y: 0, z: 0 },
                floor_normal: Normal { x: 0, y: 0, z: 0 },
                ground_direction: Vector3 { x: 0, y: -1000i32, z: 0 },
                floor_collider: Capsule { radius: 400, length: 800 },
                floor_distance: 0,
                max_floor_distance: 50,
            }),
    {
        KCCFloorDetection {
            prev_floor_normal: Normal { x: 0, y: 0, z: 0 },
            floor_normal: Normal { x: 0, y: 0, z: 0 },
            ground_direction: Vector3 { x: 0, y: -1000, z: 0 },
            floor_collider: Capsule { radius: 400, length: 800 },
            floor_distance: 0,
            max_floor_distance: 50,
        }
    }
}

/// Marks a character that is pulled onto the floor it stands on.
#[derive(Clone, Copy, Debug, PartialEq, Eq, Structural)]
pub struct KCCFloorSnap;

impl Default for KCCFloorSnap {
    fn default() -> (r: Self)
        ensures
            r == KCCFloorSnap,
    {
        KCCFloorSnap
    }
}

/// How gravity acts on a character.
#[derive(Clone, Copy, Debug, PartialEq, Eq, Structural)]
pub struct KCCGravity {
    /// The speed that falling settles at.
    pub terminal_velocity: i32,
    /// The acceleration of falling, in thousandths of a world unit per
    /// second squared.
    pub acceleration_factor: i32,
    /// The velocity that gravity has built up.
    pub current_velocity: Vector3,
    /// The direction of falling.
    pub direction: Vector3,
}

impl Default for KCCGravity {
    fn default() -> (r: Self)
        ensures
            r == (KCCGravity {
                terminal_velocity: 53000,
                acceleration_factor: 19620,
                current_velocity: Vector3 { x: 0, y: 0, z: 0 },
                direction: Vector3 { x: 0, y: -1000i32, z: 0 },
            }),
    {
        KCCGravity {
            terminal_velocity: 53000,
            acceleration_factor: 19620,
            current_velocity: Vector3::zero(),
            direction: Vector3 { x: 0, y: -1000, z: 0 },
        }
    }
}

/// How a character takes slopes.
#[derive(Clone, Copy, Debug, PartialEq, Eq, Structural)]
pub struct KCCSlope {
    /// The steepest slope that the character can walk up: eighty degrees
    /// unless set otherwise.
    pub max_slope_angle: i32,
    /// Friction on slopes.
    pub friction: i32,
}

impl Default for KCCSlope {
    fn default() -> (r: Self)
        ensures
            r == (KCCSlope { max_slope_angle: 1396, friction: 800 }),
    {
        KCCSlope { max_slope_angle: 1396, friction: 800 }
    }
}

/// Below this distance to the floor a grounded character is pulled onto it.
pub const SNAP_BAND: i32 = 10;

/// The gap that is left between a snapped character and the floor.
pub const SNAP_GAP: i32 = 1;

/// Ends a tick of movement: the velocity of this tick becomes that of the
/// previous tick.
pub fn update_kinematic_character_controller(controller: &mut KinematicCharacterController)
    ensures
        *final(controller) == (KinematicCharacterController {
            prev_velocity: old(controller).velocity,
            ..*old(controller)
        }),
{
    controller.prev_velocity = controller.velocity;
}

/// The floor probe after a cast: the normal it held becomes the normal of
/// one tick ago. A hit sets the floor's normal and distance. A miss, which
/// leaves the character without a floor, sets the normal to zero and keeps
/// the distance that was measured last.
pub open spec fn floor_after(floor: KCCFloorDetection, cast: Option<ShapeHit>) -> KCCFloorDetection {
    match cast {
        Some(hit) => KCCFloorDetection {
            prev_floor_normal: floor.floor_normal,
            floor_normal: hit.normal,
            floor_distance: hit.distance,
            ..floor
        },
        None => KCCFloorDetection {
            prev_floor_normal: floor.floor_normal,
            floor_normal: Normal { x: 0, y: 0, z: 0 },
            ..floor
        },
    }
}

/// Whether a character stands on a floor after a cast: what held becomes
/// what held one tick ago, and the character is grounded exactly if the
/// cast met a floor.
pub open spec fn grounded_after(grounded: KCCGrounded, cast: Option<ShapeHit>) -> KCCGrounded {
    KCCGrounded { grounded: cast is Some, prev_grounded: grounded.grounded }
}

/// Takes note of what the floor probe's cast found.
pub fn update_kinematic_floor(
    floor_detection: &mut KCCFloorDetection,
    grounded: &mut Option<KCCGrounded>,
    cast: Option<ShapeHit>,
)
    ensures
        *final(floor_detection) == floor_after(*old(floor_detection), cast),
        *final(grounded) == match *old(grounded) {
            Some(g) => Some(grounded_after(g, cast)),
            None => None,
        },
{
    floor_detection.prev_floor_normal = floor_detection.floor_normal;
    match cast {
        Some(hit) => {
            floor_detection.floor_normal = hit.normal;
            floor_detection.floor_distance = hit.distance;
        },
        None => {
            floor_detection.floor_normal = Normal { x: 0, y: 0, z: 0 };
        },
    }
    if let Some(g) = *grounded {
        *grounded = Some(KCCGrounded { grounded: cast.is_some(), prev_grounded: g.grounded });
    }
}

/// Whether a character is pulled onto the floor: it carries the mark that
/// asks for it, is or was grounded, does not move upwards, and the floor is
/// nearer than the snap band.
pub open spec fn snaps(
    snap: Option<&KCCFloorSnap>,
    floor_distance: int,
    grounded: KCCGrounded,
    controller: KinematicCharacterController,
) -> bool {
    snap is Some && (grounded.grounded || grounded.prev_grounded) && controller.velocity.y <= 0
        && floor_distance < SNAP_BAND
}

/// The height of a character after it was pulled onto the floor: lower by
/// the distance to the floor less the gap that is left.
pub open spec fn snapped_height(y: int, floor_distance: int) -> int {
    clamp_i32(y - (floor_distance - SNAP_GAP))
}

/// Pulls a grounded character onto the floor, if it carries the mark that
/// asks for it. A character without the mark stays where it is.
pub fn floor_snap(
    translation: &mut WorldPos,
    floor_detection: &KCCFloorDetection,
    grounded: &KCCGrounded,
    snap: Option<&KCCFloorSnap>,
    controller: &KinematicCharacterController,
)
    ensures
        snap is None ==> *final(translation) == *old(translation),
        final(translation).x == old(translation).x,
        final(translation).z == old(translation).z,
        final(translation).y == (if snaps(
            snap,
            floor_detection.floor_distance as int,
            *grounded,
            *controller,
        ) {
            snapped_height(old(translation).y as int, floor_detection.floor_distance as int)
        } else {
            old(translation).y as int
        }),
{
    if snap.is_some() && (grounded.grounded || grounded.prev_grounded) && controller.velocity.y
        <= 0 && floor_detection.floor_distance < SNAP_BAND {
        let lowered: i64 = translation.y as i64 - (floor_detection.floor_distance as i64
            - SNAP_GAP as i64);
        translation.y = if lowered < i32::MIN as i64 {
            i32::MIN
        } else if lowered > i32::MAX as i64 {
            i32::MAX
        } else {
            lowered as i32
        };
    }
}

/// Snapping is idempotent: once a character was pulled onto the floor, so
/// that the floor lies nearer by as much as the character was lowered,
/// pulling it again without any movement in between leaves its height as it
/// is.
pub proof fn lemma_floor_snap_idempotent(y: int, floor_distance: int)
    requires
        i32::MIN <= y <= i32::MAX,
        floor_distance < SNAP_BAND,
    ensures
        ({
            let snapped = snapped_height(y, floor_distance);
            let remaining = floor_distance - (y - snapped);
            remaining < SNAP_BAND && snapped_height(snapped, remaining) == snapped
        }),
{
}

} // verus!
