//! The player's hand on the terrain: a pointer, a brush of adjustable size,
//! and the edits they cause.

use vstd::prelude::*;
use crate::chunks_manager::{after_actions, touched_by, ChunksManager, DigAction};
use crate::grid::{Point3, ScenePos, WorldPos};
use crate::math::{clamp_i32, trunc_div, Normal, Vector3};

verus! {

/// The radius of the brush.
#[derive(Clone, Copy, Debug, PartialEq, Eq, Structural)]
pub struct VoxelPointerSize(pub i32);

/// The point of the terrain under the pointer.
#[derive(Clone, Copy, Debug, PartialEq, Eq, Structural)]
pub struct PointerPosition(pub WorldPos);

/// The radius that the brush starts with.
pub const DEFAULT_POINTER_SIZE: i32 = 5000;

/// By how much a key changes the radius of the brush in one tick.
pub const POINTER_SIZE_STEP: i32 = 200;

/// The smallest radius of the brush: two voxels.
pub const MIN_POINTER_SIZE: i32 = 500;

/// How far above the pointer a test sphere is dropped.
pub const SPHERE_DROP_HEIGHT: i64 = 10000;

impl Default for VoxelPointerSize {
    fn default() -> (r: Self)
        ensures
            r.0 == DEFAULT_POINTER_SIZE,
    {
        VoxelPointerSize(DEFAULT_POINTER_SIZE)
    }
}

/// The pointer after it moved over the terrain: gone while the cursor is
/// hidden, at the point that was met where one is known, and as it was
/// otherwise.
pub fn on_pointer_move(
    pointer: &mut Option<PointerPosition>,
    cursor_visible: bool,
    hit: Option<WorldPos>,
)
    ensures
        *final(pointer) == (if !cursor_visible {
            None
        } else {
            match hit {
                Some(position) => Some(PointerPosition(position)),
                None => *old(pointer),
            }
        }),
{
    if !cursor_visible {
        *pointer = None;
        return ;
    }
    if let Some(position) = hit {
        *pointer = Some(PointerPosition(position));
    }
}

/// The pointer after it left the terrain: gone.
pub fn on_pointer_out(pointer: &mut Option<PointerPosition>)
    ensures
        *final(pointer) is None,
{
    *pointer = None;
}

/// The radius of the brush after a tick with the shrink key held: smaller
/// by a step, but not below the smallest radius.
pub open spec fn shrunk(size: int) -> int {
    if size - POINTER_SIZE_STEP > MIN_POINTER_SIZE {
        size - POINTER_SIZE_STEP
    } else {
        MIN_POINTER_SIZE as int
    }
}

/// The radius of the brush after a tick with the grow key held: larger by
/// a step, as far as a radius can go.
pub open spec fn grown(size: int) -> int {
    clamp_i32(size + POINTER_SIZE_STEP)
}

/// The radius of the brush after a tick: first shrunk, then grown, each if
/// its key is held.
pub open spec fn resized(size: int, shrink: bool, grow: bool) -> int {
    let smaller = if shrink {
        shrunk(size)
    } else {
        size
    };
    if grow {
        grown(smaller)
    } else {
        smaller
    }
}

/// Changes the radius of the brush while the shrink or grow key is held.
pub fn modify_pointer_size(voxel_size: &mut VoxelPointerSize, shrink: bool, grow: bool)
    ensures
        final(voxel_size).0 == resized(old(voxel_size).0 as int, shrink, grow),
{
    if shrink {
        let smaller: i64 = voxel_size.0 as i64 - POINTER_SIZE_STEP as i64;
        voxel_size.0 = if smaller > MIN_POINTER_SIZE as i64 {
            smaller as i32
        } else {
            MIN_POINTER_SIZE
        };
    }
    if grow {
        let larger: i64 = voxel_size.0 as i64 + POINTER_SIZE_STEP as i64;
        voxel_size.0 = if larger > i32::MAX as i64 {
            i32::MAX
        } else {
            larger as i32
        };
    }
}

/// The edits that the player asks for in one tick: with the pointer on the
/// terrain, a dig at the pointer if the dig button was pressed, and then a
/// build at the pointer if the build key was pressed, each with the radius
/// of the brush. Without a pointer, none.
pub open spec fn edit_commands(
    pointer: Option<PointerPosition>,
    size: VoxelPointerSize,
    dig: bool,
    build: bool,
) -> Seq<DigAction> {
    match pointer {
        Some(position) => {
            let dug = if dig {
                seq![DigAction { pos: position.0, radius: size.0, state: false }]
            } else {
                Seq::empty()
            };
            if build {
                dug.push(DigAction { pos: position.0, radius: size.0, state: true })
            } else {
                dug
            }
        },
        None => Seq::empty(),
    }
}

/// Applies the edits that the player asks for in one tick.
pub fn modify_voxels(
    chunks_manager: &mut ChunksManager,
    pointer: Option<PointerPosition>,
    voxel_size: &VoxelPointerSize,
    dig: bool,
    build: bool,
)
    requires
        old(chunks_manager).wf(),
    ensures
        final(chunks_manager).wf(),
        final(chunks_manager).has_info() == old(chunks_manager).has_info(),
        final(chunks_manager).amount() == old(chunks_manager).amount(),
        final(chunks_manager)@ == after_actions(
            old(chunks_manager)@,
            old(chunks_manager).amount(),
            edit_commands(pointer, *voxel_size, dig, build),
        ),
        final(chunks_manager).history() == old(chunks_manager).history() + edit_commands(
            pointer,
            *voxel_size,
            dig,
            build,
        ),
        forall|k: int|
            0 <= k < old(chunks_manager)@.len() ==> (#[trigger] final(chunks_manager).changed()[k]) == (old(
                chunks_manager,
            ).changed()[k] || touched_by(
                old(chunks_manager)@,
                old(chunks_manager).amount(),
                edit_commands(pointer, *voxel_size, dig, build),
                k,
            )),
{
    let mut actions: Vec<DigAction> = Vec::new();
    if let Some(position) = pointer {
        if dig {
            actions.push(DigAction { pos: position.0, radius: voxel_size.0, state: false });
        }
        if build {
            actions.push(DigAction { pos: position.0, radius: voxel_size.0, state: true });
        }
    }
    proof {
        assert(actions@ =~= edit_commands(pointer, *voxel_size, dig, build));
    }
    chunks_manager.replay(&actions)
}

/// Where a test sphere is dropped: above the pointer, if the pointer is on
/// the terrain and the key was pressed.
pub fn spawn_sphere(pointer: Option<PointerPosition>, key: bool) -> (r: Option<ScenePos>)
    ensures
        r == (match pointer {
            Some(position) if key => Some(
                ScenePos {
                    x: position.0.x as i64,
                    y: (position.0.y + SPHERE_DROP_HEIGHT) as i64,
                    z: position.0.z as i64,
                },
            ),
            _ => None,
        }),
{
    match pointer {
        Some(position) if key => Some(
            ScenePos {
                x: position.0.x as i64,
                y: position.0.y as i64 + SPHERE_DROP_HEIGHT,
                z: position.0.z as i64,
            },
        ),
        _ => None,
    }
}

/// The point that a ray from the camera meets: the camera's place, plus the
/// ray's origin, plus `distance` along the camera's forward direction.
pub open spec fn ray_end(
    translation: Point3,
    origin: Point3,
    forward: Point3,
    distance: int,
) -> Point3 {
    Point3 {
        x: clamp_i32(translation.x + origin.x + trunc_div(forward.x * distance, 1000)),
        y: clamp_i32(translation.y + origin.y + trunc_div(forward.y * distance, 1000)),
        z: clamp_i32(translation.z + origin.z + trunc_div(forward.z * distance, 1000)),
    }
}

/// One coordinate of `ray_end`.
fn ray_coordinate(translation: i32, origin: i32, forward: i16, distance: i32) -> (r: i32)
    ensures
        r == clamp_i32(translation + origin + trunc_div(forward * distance, 1000)),
{
    proof {
        assert(-0x4000_0000_0000 <= forward * distance <= 0x4000_0000_0000) by (nonlinear_arith)
            requires
                -0x8000 <= forward <= 0x7fff,
                -0x8000_0000 <= distance <= 0x7fff_ffff,
        ;
    }
    let product: i64 = forward as i64 * distance as i64;
    let along: i64 = if product >= 0 {
        product / 1000
    } else {
        -((-product) / 1000)
    };
    let sum: i64 = translation as i64 + origin as i64 + along;
    if sum < i32::MIN as i64 {
        i32::MIN
    } else if sum > i32::MAX as i64 {
        i32::MAX
    } else {
        sum as i32
    }
}

/// The pointer after the camera's ray was cast: at the point that the ray
/// met, or gone where it met nothing.
pub fn handle_fps_pointer(
    translation: WorldPos,
    origin: Vector3,
    forward: Normal,
    hit_distance: Option<i32>,
) -> (r: Option<PointerPosition>)
    ensures
        match (r, hit_distance) {
            (Some(position), Some(distance)) => position.0@ == ray_end(
                translation@,
                origin@,
                forward@,
                distance as int,
            ),
            (None, None) => true,
            _ => false,
        },
{
    match hit_distance {
        Some(distance) => Some(
            PointerPosition(
                WorldPos {
                    x: ray_coordinate(translation.x, origin.x, forward.x, distance),
                    y: ray_coordinate(translation.y, origin.y, forward.y, distance),
                    z: ray_coordinate(translation.z, origin.z, forward.z, distance),
                },
            ),
        ),
        None => None,
    }
}

} // verus!
