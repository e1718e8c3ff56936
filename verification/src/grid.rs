//! Dimensions of a chunk and of the buffers derived from it, and the integer
//! vectors the terrain is addressed with.

use vstd::prelude::*;

verus! {

/// Side length of a chunk, in voxels.
pub const CHUNK_WIDTH: usize = 32;

/// Number of voxels in a chunk: `CHUNK_WIDTH` cubed.
pub const CHUNK_DATA: usize = 32768;

/// Side length of a chunk padded by one voxel on every face.
pub const INPUT_CHUNK_WIDTH: usize = 34;

/// Number of cells in a padded chunk: `INPUT_CHUNK_WIDTH` cubed.
pub const BUFFER_LEN: usize = 39304;

/// Side length of the block made of a chunk and its 26 neighbours.
pub const BLOCK_WIDTH: usize = 96;

/// Number of cells in that block: 27 chunks.
pub const BLOCK_DATA: usize = 884736;

/// Most vertices the surface extraction emits for one cell.
pub const MAX_VERTICES_PER_CUBE: usize = 12;

/// Number of vertex records in the triangle buffer of one padded chunk.
pub const TRI_BUFFER_LEN: usize = 471648;

/// Thousandths in one whole unit of length.
pub const UNIT: i64 = 1000;

/// Edge of one voxel in thousandths of a world unit.
pub const VOXEL_SCALE: i32 = 250;

/// Voxels along one world unit.
pub const VOXELS_PER_UNIT: i64 = 4;

/// The derived dimensions are what their names say.
pub proof fn lemma_dimensions()
    ensures
        CHUNK_DATA == CHUNK_WIDTH * CHUNK_WIDTH * CHUNK_WIDTH,
        INPUT_CHUNK_WIDTH == CHUNK_WIDTH + 2,
        BUFFER_LEN == INPUT_CHUNK_WIDTH * INPUT_CHUNK_WIDTH * INPUT_CHUNK_WIDTH,
        BLOCK_WIDTH == 3 * CHUNK_WIDTH,
        BLOCK_DATA == 27 * CHUNK_DATA,
        TRI_BUFFER_LEN == BUFFER_LEN * MAX_VERTICES_PER_CUBE,
        VOXEL_SCALE * VOXELS_PER_UNIT == UNIT,
{
}

/// Three unsigned lattice coordinates: a chunk's place in the lattice, a
/// voxel's place in its chunk, or the extent of the lattice.
#[derive(Clone, Copy, Debug, PartialEq, Eq, Structural)]
pub struct GridIndex {
    pub x: u32,
    pub y: u32,
    pub z: u32,
}

impl GridIndex {
    pub fn new(x: u32, y: u32, z: u32) -> (r: GridIndex)
        ensures
            r == (GridIndex { x, y, z }),
    {
        GridIndex { x, y, z }
    }

    /// The vector with all three coordinates equal to `v`.
    pub fn splat(v: u32) -> (r: GridIndex)
        ensures
            r == (GridIndex { x: v, y: v, z: v }),
    {
        GridIndex { x: v, y: v, z: v }
    }
}

/// A point with unbounded integer coordinates: what the fixed-width points
/// below stand for in contracts.
pub struct Point3 {
    pub x: int,
    pub y: int,
    pub z: int,
}

/// A point in voxel space, each coordinate in thousandths of a voxel. The
/// centre of the voxel at lattice coordinate `n` lies at `n * UNIT`.
#[derive(Clone, Copy, Debug, PartialEq, Eq, Structural)]
pub struct VoxelPos {
    pub x: i64,
    pub y: i64,
    pub z: i64,
}

impl View for VoxelPos {
    type V = Point3;

    open spec fn view(&self) -> Point3 {
        Point3 { x: self.x as int, y: self.y as int, z: self.z as int }
    }
}

/// A place in the scene, each coordinate in thousandths of a world unit,
/// wide enough for any lattice.
#[derive(Clone, Copy, Debug, PartialEq, Eq, Structural)]
pub struct ScenePos {
    pub x: i64,
    pub y: i64,
    pub z: i64,
}

impl View for ScenePos {
    type V = Point3;

    open spec fn view(&self) -> Point3 {
        Point3 { x: self.x as int, y: self.y as int, z: self.z as int }
    }
}

/// A point in world space, each coordinate in thousandths of a world unit.
#[derive(Clone, Copy, Debug, PartialEq, Eq, Structural)]
pub struct WorldPos {
    pub x: i32,
    pub y: i32,
    pub z: i32,
}

impl View for WorldPos {
    type V = Point3;

    open spec fn view(&self) -> Point3 {
        Point3 { x: self.x as int, y: self.y as int, z: self.z as int }
    }
}

} // verus!
