//! One chunk of the voxel world: a cube of occupancy bits and the edits that
//! act on it in its own coordinate frame.

use vstd::prelude::*;
use crate::grid::{GridIndex, Point3, VoxelPos, CHUNK_DATA, CHUNK_WIDTH};

verus! {

/// Flat offset of the voxel at local coordinate `(x, y, z)`.
pub open spec fn cell_offset(x: int, y: int, z: int) -> int {
    x + y * 32 + z * 1024
}

/// Local x coordinate of the voxel at flat offset `i`.
pub open spec fn offset_x(i: int) -> int {
    i % 32
}

/// Local y coordinate of the voxel at flat offset `i`.
pub open spec fn offset_y(i: int) -> int {
    (i / 32) % 32
}

/// Local z coordinate of the voxel at flat offset `i`.
pub open spec fn offset_z(i: int) -> int {
    i / 1024
}

/// Whether `(x, y, z)` names a voxel of a chunk.
pub open spec fn in_chunk(x: int, y: int, z: int) -> bool {
    0 <= x < 32 && 0 <= y < 32 && 0 <= z < 32
}

/// Whether the centre of the voxel at `(x, y, z)` lies strictly inside the
/// sphere around `center`: its squared distance is less than the squared
/// radius. Only the square of `radius` counts, so its sign does not.
pub open spec fn in_sphere(x: int, y: int, z: int, center: Point3, radius: int) -> bool {
    let dx = x * 1000 - center.x;
    let dy = y * 1000 - center.y;
    let dz = z * 1000 - center.z;
    dx * dx + dy * dy + dz * dz < radius * radius
}

/// The occupancy of a chunk after every voxel inside the sphere has been set
/// to `state`; the others keep what they held.
pub open spec fn sphere_edit(before: Seq<bool>, center: Point3, radius: int, state: bool) -> Seq<
    bool,
> {
    Seq::new(
        before.len(),
        |i: int|
            if in_sphere(offset_x(i), offset_y(i), offset_z(i), center, radius) {
                state
            } else {
                before[i]
            },
    )
}

/// Splitting a flat offset into coordinates and joining them again gives the
/// offset back, and the coordinates name a voxel of the chunk.
pub proof fn lemma_offset_round_trip(i: int)
    requires
        0 <= i < CHUNK_DATA,
    ensures
        cell_offset(offset_x(i), offset_y(i), offset_z(i)) == i,
        in_chunk(offset_x(i), offset_y(i), offset_z(i)),
{
}

/// Joining coordinates into a flat offset and splitting it again gives the
/// coordinates back, and the offset lies in the chunk.
pub proof fn lemma_coordinate_round_trip(x: int, y: int, z: int)
    requires
        in_chunk(x, y, z),
    ensures
        0 <= cell_offset(x, y, z) < CHUNK_DATA,
        offset_x(cell_offset(x, y, z)) == x,
        offset_y(cell_offset(x, y, z)) == y,
        offset_z(cell_offset(x, y, z)) == z,
{
}

/// What contracts see of a chunk: its place in the lattice and its occupancy
/// bits in flat order.
pub struct ChunkModel {
    pub index: GridIndex,
    pub voxels: Seq<bool>,
}

/// The chunk at `index` with every voxel solid.
pub open spec fn full_chunk(index: GridIndex) -> ChunkModel {
    ChunkModel { index, voxels: Seq::new(CHUNK_DATA as nat, |i: int| true) }
}

/// A sphere edit sets exactly the voxels whose centres lie strictly inside
/// the sphere and leaves every other voxel as it was. Building into an empty
/// chunk therefore leaves solid exactly the voxels inside the sphere.
pub proof fn lemma_sphere_edit_containment(
    before: Seq<bool>,
    center: Point3,
    radius: int,
    state: bool,
    i: int,
)
    requires
        0 <= i < before.len(),
    ensures
        sphere_edit(before, center, radius, state).len() == before.len(),
        in_sphere(offset_x(i), offset_y(i), offset_z(i), center, radius) ==> sphere_edit(
            before,
            center,
            radius,
            state,
        )[i] == state,
        !in_sphere(offset_x(i), offset_y(i), offset_z(i), center, radius) ==> sphere_edit(
            before,
            center,
            radius,
            state,
        )[i] == before[i],
        (state && !before[i]) ==> (sphere_edit(before, center, radius, state)[i] <==> in_sphere(
            offset_x(i),
            offset_y(i),
            offset_z(i),
            center,
            radius,
        )),
{
}

/// A cubic grid of occupancy bits, `true` for solid, with its place in the
/// chunk lattice.
#[derive(Debug)]
pub struct VoxelChunk {
    index: GridIndex,
    voxels: Vec<bool>,
}

impl View for VoxelChunk {
    type V = Seq<bool>;

    closed spec fn view(&self) -> Seq<bool> {
        self.voxels@
    }
}

impl VoxelChunk {
    /// A chunk holds exactly `CHUNK_DATA` voxels.
    pub open spec fn wf(&self) -> bool {
        self@.len() == CHUNK_DATA
    }

    /// The chunk's place in the lattice.
    pub closed spec fn spec_index(&self) -> GridIndex {
        self.index
    }

    /// The chunk's place in the lattice.
    #[verifier::when_used_as_spec(spec_index)]
    pub fn index(&self) -> (r: GridIndex)
        ensures
            r == self.index(),
    {
        self.index
    }

    /// The chunk as contracts see it.
    pub open spec fn model(&self) -> ChunkModel {
        ChunkModel { index: self.index(), voxels: self@ }
    }

    /// Whether the voxel at `(x, y, z)` is solid.
    pub open spec fn solid(&self, x: int, y: int, z: int) -> bool {
        self@[cell_offset(x, y, z)]
    }

    pub fn new(index: GridIndex, voxels: Vec<bool>) -> (r: VoxelChunk)
        requires
            voxels.len() == CHUNK_DATA,
        ensures
            r.wf(),
            r.index() == index,
            r@ == voxels@,
    {
        VoxelChunk { index, voxels }
    }

    /// The chunk at `index` with every voxel solid.
    pub fn full(index: GridIndex) -> (r: VoxelChunk)
        ensures
            r.wf(),
            r.model() == full_chunk(index),
    {
        let r = VoxelChunk::new(index, vec![true; CHUNK_DATA]);
        assert(r@ =~= full_chunk(index).voxels);
        r
    }

    /// The occupancy bits in flat order.
    pub fn raw(&self) -> (r: &Vec<bool>)
        ensures
            r@ == self@,
    {
        &self.voxels
    }

    pub fn get_chunk_width(&self) -> (r: usize)
        ensures
            r == CHUNK_WIDTH,
    {
        CHUNK_WIDTH
    }

    /// Flat offset of the voxel at `pos`.
    pub fn get_index(&self, pos: GridIndex) -> (r: usize)
        requires
            cell_offset(pos.x as int, pos.y as int, pos.z as int) <= u32::MAX,
        ensures
            r == cell_offset(pos.x as int, pos.y as int, pos.z as int),
    {
        let width: u32 = self.get_chunk_width() as u32;
        (pos.x + pos.y * width + pos.z * width * width) as usize
    }

    /// Local coordinate of the voxel at flat offset `index`.
    pub fn get_pos(&self, index: usize) -> (r: GridIndex)
        ensures
            r.x == offset_x(index as int),
            r.y == offset_y(index as int),
            r.z == (offset_z(index as int) as u32),
            index < CHUNK_DATA ==> r.z == offset_z(index as int) && in_chunk(
                r.x as int,
                r.y as int,
                r.z as int,
            ) && cell_offset(r.x as int, r.y as int, r.z as int) == index,
    {
        let width: usize = self.get_chunk_width();
        GridIndex::new(
            (index % width) as u32,
            ((index / width) % width) as u32,
            #[verifier::truncate]
            ((index / (width * width)) as u32),
        )
    }

    /// Writes one voxel.
    pub fn set_voxel(&mut self, pos: GridIndex, value: bool)
        requires
            old(self).wf(),
            cell_offset(pos.x as int, pos.y as int, pos.z as int) < CHUNK_DATA,
        ensures
            final(self).wf(),
            final(self).index() == old(self).index(),
            final(self)@ == old(self)@.update(
                cell_offset(pos.x as int, pos.y as int, pos.z as int),
                value,
            ),
    {
        let i = self.get_index(pos);
        self.voxels.set(i, value);
    }

    /// Whether the voxel at `voxel` lies inside the sphere.
    fn sphere_covers(voxel: GridIndex, center: VoxelPos, radius: i64) -> (r: bool)
        requires
            in_chunk(voxel.x as int, voxel.y as int, voxel.z as int),
        ensures
            r == in_sphere(voxel.x as int, voxel.y as int, voxel.z as int, center@, radius as int),
    {
        let reach: i128 = if radius < 0 {
            -(radius as i128)
        } else {
            radius as i128
        };
        let dx: i128 = voxel.x as i128 * 1000 - center.x as i128;
        let dy: i128 = voxel.y as i128 * 1000 - center.y as i128;
        let dz: i128 = voxel.z as i128 * 1000 - center.z as i128;
        proof {
            assert(reach * reach == radius * radius) by (nonlinear_arith)
                requires
                    reach == radius || reach == -radius,
            ;
        }
        if dx > reach || -dx > reach || dy > reach || -dy > reach || dz > reach || -dz > reach {
            proof {
                lemma_square_beyond(dx as int, reach as int);
                lemma_square_beyond(dy as int, reach as int);
                lemma_square_beyond(dz as int, reach as int);
            }
            return false;
        }
        proof {
            lemma_square_within(dx as int, reach as int);
            lemma_square_within(dy as int, reach as int);
            lemma_square_within(dz as int, reach as int);
            lemma_square_within(reach as int, 0x8000_0000_0000_0000);
        }
        let budget: i128 = reach * reach;
        let along_x: i128 = dx * dx;
        if along_x >= budget {
            return false;
        }
        let along_y: i128 = dy * dy;
        if along_y >= budget - along_x {
            return false;
        }
        dz * dz < budget - along_x - along_y
    }

    /// Sets every voxel whose centre lies strictly inside the sphere around
    /// `pos` to `state`. `pos` is in this chunk's own frame.
    pub fn set_sphere(&mut self, pos: VoxelPos, size: i64, state: bool)
        requires
            old(self).wf(),
        ensures
            final(self).wf(),
            final(self).index() == old(self).index(),
            final(self)@ == sphere_edit(old(self)@, pos@, size as int, state),
    {
        let mut i: usize = 0;
        while i < CHUNK_DATA
            invariant
                old(self).wf(),
                self.wf(),
                self.index() == old(self).index(),
                i <= CHUNK_DATA,
                forall|j: int|
                    0 <= j < i ==> self@[j] == sphere_edit(old(self)@, pos@, size as int, state)[j],
                forall|j: int| i <= j < CHUNK_DATA ==> self@[j] == old(self)@[j],
            decreases CHUNK_DATA - i,
        {
            let voxel_pos = self.get_pos(i);
            if Self::sphere_covers(voxel_pos, pos, size) {
                self.set_voxel(voxel_pos, state);
            }
            i += 1;
        }
    }
}

/// A square is non-negative, and a number beyond `bound` in size has a
/// square beyond that of `bound`.
pub(crate) proof fn lemma_square_beyond(d: int, bound: int)
    requires
        0 <= bound,
    ensures
        0 <= d * d,
        (d > bound || -d > bound) ==> d * d > bound * bound,
{
    assert(0 <= d * d) by (nonlinear_arith);
    if d > bound {
        assert(d * d > bound * bound) by (nonlinear_arith)
            requires
                d > bound,
                0 <= bound,
        ;
    }
    if -d > bound {
        assert(d * d > bound * bound) by (nonlinear_arith)
            requires
                -d > bound,
                0 <= bound,
        ;
    }
}

/// A number within `bound` in size has a square within that of `bound`.
proof fn lemma_square_within(d: int, bound: int)
    requires
        -bound <= d <= bound,
    ensures
        0 <= d * d <= bound * bound,
{
    assert(0 <= d * d <= bound * bound) by (nonlinear_arith)
        requires
            -bound <= d <= bound,
    ;
}

} // verus!
