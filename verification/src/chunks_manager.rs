//! The voxel world as a whole: every chunk of the lattice, the edits that
//! reach across chunk boundaries, and the neighbour-padded samples that
//! meshing reads.

use vstd::prelude::*;
use vstd::arithmetic::div_mod::{lemma_fundamental_div_mod, lemma_mod_bound};
use crate::grid::{
    GridIndex, Point3, ScenePos, VoxelPos, WorldPos, BLOCK_DATA, BUFFER_LEN, CHUNK_DATA,
};
use crate::voxel::{
    cell_offset, full_chunk, in_sphere, lemma_coordinate_round_trip, lemma_offset_round_trip,
    lemma_square_beyond, offset_x, offset_y, offset_z, sphere_edit, ChunkModel, VoxelChunk,
};

verus! {

/// The extent of the chunk lattice, recorded when the chunks are created.
#[derive(Clone, Copy, Debug)]
pub struct ChunksInfo {
    amount: GridIndex,
}

/// One terrain edit: every voxel strictly inside the sphere becomes solid
/// (`state` true, a build) or empty (`state` false, a dig).
#[derive(Clone, Copy, Debug, PartialEq, Eq, Structural)]
pub struct DigAction {
    pub pos: WorldPos,
    pub radius: i32,
    pub state: bool,
}

/// Every chunk of the world in the order it was created, which of them
/// changed since the marks were last taken, the lattice extent once known,
/// and every edit applied so far.
#[derive(Debug)]
pub struct ChunksManager {
    chunks: Vec<VoxelChunk>,
    changed: Vec<bool>,
    chunks_info: Option<ChunksInfo>,
    dig_history: Vec<DigAction>,
}

/// Place in creation order of the chunk at `(x, y, z)` of a lattice of the
/// given extent: x outermost, z innermost.
pub open spec fn spawn_order(amount: GridIndex, x: int, y: int, z: int) -> int {
    (x * amount.y + y) * amount.z + z
}

/// Whether `(x, y, z)` names a chunk of a lattice of the given extent.
pub open spec fn in_lattice(amount: GridIndex, x: int, y: int, z: int) -> bool {
    0 <= x < amount.x && 0 <= y < amount.y && 0 <= z < amount.z
}

/// Where in the scene the chunk at `index` is placed when neighbouring chunks
/// lie `scale` apart.
pub open spec fn translation_of(index: GridIndex, scale: int) -> Point3 {
    Point3 { x: index.x * scale, y: index.y * scale, z: index.z * scale }
}

/// Computes `translation_of`.
pub fn chunk_translation(index: GridIndex, scale: i32) -> (r: ScenePos)
    ensures
        r@ == translation_of(index, scale as int),
{
    proof {
        lemma_scaled_fits(index.x as int, scale as int);
        lemma_scaled_fits(index.y as int, scale as int);
        lemma_scaled_fits(index.z as int, scale as int);
    }
    ScenePos {
        x: index.x as i64 * scale as i64,
        y: index.y as i64 * scale as i64,
        z: index.z as i64 * scale as i64,
    }
}

proof fn lemma_scaled_fits(n: int, scale: int)
    requires
        0 <= n <= u32::MAX,
        i32::MIN <= scale <= i32::MAX,
    ensures
        i64::MIN <= n * scale <= i64::MAX,
{
    assert(n * scale <= 0xffff_ffff * 0x7fff_ffff) by (nonlinear_arith)
        requires
            0 <= n <= 0xffff_ffff,
            scale <= 0x7fff_ffff,
    ;
    assert(n * scale >= 0xffff_ffff * (-0x8000_0000)) by (nonlinear_arith)
        requires
            0 <= n <= 0xffff_ffff,
            scale >= -0x8000_0000,
    ;
}

/// Creation order is below the number of chunks for every chunk of the
/// lattice.
pub proof fn lemma_spawn_order_bound(amount: GridIndex, x: int, y: int, z: int)
    requires
        in_lattice(amount, x, y, z),
    ensures
        0 <= spawn_order(amount, x, y, z) < amount.x * amount.y * amount.z,
{
    let ay = amount.y as int;
    let az = amount.z as int;
    let ax = amount.x as int;
    assert(0 <= x * ay + y <= (ax - 1) * ay + ay - 1) by (nonlinear_arith)
        requires
            0 <= x <= ax - 1,
            0 <= y <= ay - 1,
    ;
    assert(0 <= (x * ay + y) * az + z <= ((ax - 1) * ay + ay - 1) * az + az - 1)
        by (nonlinear_arith)
        requires
            0 <= x * ay + y <= (ax - 1) * ay + ay - 1,
            0 <= z <= az - 1,
    ;
    assert(((ax - 1) * ay + ay - 1) * az + az - 1 == ax * ay * az - 1) by (nonlinear_arith);
}

/// Two chunks of the lattice with the same creation order are the same
/// chunk.
pub proof fn lemma_spawn_order_injective(
    amount: GridIndex,
    x1: int,
    y1: int,
    z1: int,
    x2: int,
    y2: int,
    z2: int,
)
    requires
        in_lattice(amount, x1, y1, z1),
        in_lattice(amount, x2, y2, z2),
        spawn_order(amount, x1, y1, z1) == spawn_order(amount, x2, y2, z2),
    ensures
        x1 == x2 && y1 == y2 && z1 == z2,
{
    let ay = amount.y as int;
    let az = amount.z as int;
    let r1 = x1 * ay + y1;
    let r2 = x2 * ay + y2;
    assert(r1 == r2 && z1 == z2) by (nonlinear_arith)
        requires
            r1 * az + z1 == r2 * az + z2,
            0 <= z1 < az,
            0 <= z2 < az,
    ;
    assert(x1 == x2 && y1 == y2) by (nonlinear_arith)
        requires
            x1 * ay + y1 == x2 * ay + y2,
            0 <= y1 < ay,
            0 <= y2 < ay,
    ;
}

/// Whether the chunk at place `k` is the first one in creation order that
/// sits at `index`.
pub open spec fn is_first_at(chunks: Seq<ChunkModel>, index: GridIndex, k: int) -> bool {
    &&& 0 <= k < chunks.len()
    &&& chunks[k].index == index
    &&& forall|j: int| 0 <= j < k ==> (#[trigger] chunks[j]).index != index
}

/// Place of the first chunk in creation order that sits at `index`, if any
/// chunk does.
pub open spec fn find_chunk(chunks: Seq<ChunkModel>, index: GridIndex) -> Option<int> {
    if exists|k: int| is_first_at(chunks, index, k) {
        Some(choose|k: int| is_first_at(chunks, index, k))
    } else {
        None
    }
}

/// The first chunk at an index is the only first chunk there.
pub proof fn lemma_find_chunk_first(chunks: Seq<ChunkModel>, index: GridIndex, k: int)
    requires
        is_first_at(chunks, index, k),
    ensures
        find_chunk(chunks, index) == Some(k),
{
    let m = choose|m: int| is_first_at(chunks, index, m);
    assert(is_first_at(chunks, index, m));
    if m < k {
        assert(chunks[m].index != index);
    }
    if k < m {
        assert(chunks[k].index != index);
    }
}

/// No chunk at an index means nothing is found there.
pub proof fn lemma_find_chunk_none(chunks: Seq<ChunkModel>, index: GridIndex)
    requires
        forall|j: int| 0 <= j < chunks.len() ==> (#[trigger] chunks[j]).index != index,
    ensures
        find_chunk(chunks, index) is None,
{
    if exists|k: int| is_first_at(chunks, index, k) {
        let m = choose|m: int| is_first_at(chunks, index, m);
        assert(chunks[m].index != index);
    }
}

/// The voxel-space point of a world-space point, for a lattice of extent
/// `amount`. One world unit spans four voxels. The world origin lies at the
/// middle of the lattice along x and z, half the lattice's width in voxels
/// from its first voxel, and at its top along y, twice as far.
pub open spec fn world_to_voxel(amount: GridIndex, p: Point3) -> Point3 {
    Point3 {
        x: amount.x * 16000 + p.x * 4,
        y: amount.y * 32000 + p.y * 4,
        z: amount.z * 16000 + p.z * 4,
    }
}

/// The voxel-space point of the first voxel of the chunk at `index`.
pub open spec fn chunk_origin(index: GridIndex) -> Point3 {
    Point3 { x: index.x * 32000, y: index.y * 32000, z: index.z * 32000 }
}

/// Whether the box around the sphere meets the box around the centres of the
/// chunk's voxels, touching included.
pub open spec fn edit_reaches(index: GridIndex, center: Point3, radius: int) -> bool {
    let origin = chunk_origin(index);
    &&& center.x - radius <= origin.x + 31000
    &&& center.y - radius <= origin.y + 31000
    &&& center.z - radius <= origin.z + 31000
    &&& center.x + radius >= origin.x
    &&& center.y + radius >= origin.y
    &&& center.z + radius >= origin.z
}

/// A voxel-space point in the frame of the chunk at `index`.
pub open spec fn local_center(index: GridIndex, center: Point3) -> Point3 {
    let origin = chunk_origin(index);
    Point3 { x: center.x - origin.x, y: center.y - origin.y, z: center.z - origin.z }
}

/// One chunk after a sphere edit given in voxel space: edited in its own
/// frame if the edit's box reaches it, untouched otherwise.
pub open spec fn chunk_after_edit(
    chunk: ChunkModel,
    center: Point3,
    radius: int,
    state: bool,
) -> ChunkModel {
    if edit_reaches(chunk.index, center, radius) {
        ChunkModel {
            index: chunk.index,
            voxels: sphere_edit(chunk.voxels, local_center(chunk.index, center), radius, state),
        }
    } else {
        chunk
    }
}

/// Every chunk after a sphere edit given in voxel space.
pub open spec fn lattice_after_edit(
    chunks: Seq<ChunkModel>,
    center: Point3,
    radius: int,
    state: bool,
) -> Seq<ChunkModel> {
    Seq::new(chunks.len(), |k: int| chunk_after_edit(chunks[k], center, radius, state))
}

/// Which chunks count as changed after a sphere edit given in voxel space:
/// those that did before, and those that the edit's box reaches.
pub open spec fn marks_after_edit(
    chunks: Seq<ChunkModel>,
    changed: Seq<bool>,
    center: Point3,
    radius: int,
) -> Seq<bool> {
    Seq::new(changed.len(), |k: int| changed[k] || edit_reaches(chunks[k].index, center, radius))
}

/// Places of the chunks among the first `n` that are marked as changed, in
/// creation order.
pub open spec fn marked_places(changed: Seq<bool>, n: nat) -> Seq<usize>
    decreases n,
{
    if n == 0 {
        Seq::empty()
    } else {
        let rest = marked_places(changed, (n - 1) as nat);
        if changed[n - 1] {
            rest.push((n - 1) as usize)
        } else {
            rest
        }
    }
}

/// Every chunk after one edit given in world space.
pub open spec fn after_action(chunks: Seq<ChunkModel>, amount: GridIndex, action: DigAction) -> Seq<
    ChunkModel,
> {
    lattice_after_edit(
        chunks,
        world_to_voxel(amount, action.pos@),
        action.radius * 4,
        action.state,
    )
}

/// Every chunk after a list of edits applied oldest first.
pub open spec fn after_actions(
    chunks: Seq<ChunkModel>,
    amount: GridIndex,
    actions: Seq<DigAction>,
) -> Seq<ChunkModel>
    decreases actions.len(),
{
    if actions.len() == 0 {
        chunks
    } else {
        after_action(after_actions(chunks, amount, actions.drop_last()), amount, actions.last())
    }
}

/// An edit changes neither the number of chunks nor where any chunk sits
/// nor how many voxels it holds.
pub proof fn lemma_edit_keeps_shape(
    chunks: Seq<ChunkModel>,
    center: Point3,
    radius: int,
    state: bool,
    k: int,
)
    requires
        0 <= k < chunks.len(),
    ensures
        lattice_after_edit(chunks, center, radius, state).len() == chunks.len(),
        lattice_after_edit(chunks, center, radius, state)[k].index == chunks[k].index,
        lattice_after_edit(chunks, center, radius, state)[k].voxels.len()
            == chunks[k].voxels.len(),
{
}

/// An edit that straddles chunk boundaries leaves no seam: with a radius
/// that is not negative, a voxel of any chunk is set exactly if its centre,
/// taken in the frame shared by the whole lattice, lies strictly inside the
/// sphere, as if the lattice were one contiguous grid. Every other voxel
/// keeps what it held.
pub proof fn lemma_edit_is_seamless(
    chunks: Seq<ChunkModel>,
    center: Point3,
    radius: int,
    state: bool,
    k: int,
    i: int,
)
    requires
        0 <= k < chunks.len(),
        0 <= i < chunks[k].voxels.len() == 32768,
        0 <= radius,
    ensures
        lattice_after_edit(chunks, center, radius, state)[k].voxels[i] == (if in_sphere(
            chunks[k].index.x * 32 + offset_x(i),
            chunks[k].index.y * 32 + offset_y(i),
            chunks[k].index.z * 32 + offset_z(i),
            center,
            radius,
        ) {
            state
        } else {
            chunks[k].voxels[i]
        }),
{
    let index = chunks[k].index;
    let local = local_center(index, center);
    let gx = index.x * 32 + offset_x(i);
    let gy = index.y * 32 + offset_y(i);
    let gz = index.z * 32 + offset_z(i);
    let dx = gx * 1000 - center.x;
    let dy = gy * 1000 - center.y;
    let dz = gz * 1000 - center.z;
    assert(offset_x(i) * 1000 - local.x == dx);
    assert(offset_y(i) * 1000 - local.y == dy);
    assert(offset_z(i) * 1000 - local.z == dz);
    assert(in_sphere(offset_x(i), offset_y(i), offset_z(i), local, radius) == in_sphere(
        gx,
        gy,
        gz,
        center,
        radius,
    ));
    if in_sphere(gx, gy, gz, center, radius) {
        lemma_square_beyond(dx, radius);
        lemma_square_beyond(dy, radius);
        lemma_square_beyond(dz, radius);
        lemma_square_beyond(radius, radius);
        assert(edit_reaches(index, center, radius));
    }
}

/// Building into a world of empty chunks leaves solid exactly the voxels
/// whose centres lie strictly inside the sphere, whichever chunks they
/// belong to, given a radius that is not negative.
pub proof fn lemma_build_on_empty(
    chunks: Seq<ChunkModel>,
    center: Point3,
    radius: int,
    k: int,
    i: int,
)
    requires
        0 <= k < chunks.len(),
        0 <= i < chunks[k].voxels.len() == 32768,
        0 <= radius,
        !chunks[k].voxels[i],
    ensures
        lattice_after_edit(chunks, center, radius, true)[k].voxels[i] <==> in_sphere(
            chunks[k].index.x * 32 + offset_x(i),
            chunks[k].index.y * 32 + offset_y(i),
            chunks[k].index.z * 32 + offset_z(i),
            center,
            radius,
        ),
{
    lemma_edit_is_seamless(chunks, center, radius, true, k, i);
}

/// A list of edits changes neither the number of chunks nor where any chunk
/// sits nor how many voxels it holds.
pub proof fn lemma_edits_keep_shape(
    chunks: Seq<ChunkModel>,
    amount: GridIndex,
    actions: Seq<DigAction>,
)
    ensures
        after_actions(chunks, amount, actions).len() == chunks.len(),
        forall|k: int|
            0 <= k < chunks.len() ==> {
                &&& (#[trigger] after_actions(chunks, amount, actions)[k]).index
                    == chunks[k].index
                &&& after_actions(chunks, amount, actions)[k].voxels.len()
                    == chunks[k].voxels.len()
            },
    decreases actions.len(),
{
    if actions.len() > 0 {
        lemma_edits_keep_shape(chunks, amount, actions.drop_last());
    }
}

/// Applying one list of edits and then another is applying the two lists
/// joined.
pub proof fn lemma_replay_concat(
    chunks: Seq<ChunkModel>,
    amount: GridIndex,
    first: Seq<DigAction>,
    second: Seq<DigAction>,
)
    ensures
        after_actions(chunks, amount, first + second) == after_actions(
            after_actions(chunks, amount, first),
            amount,
            second,
        ),
    decreases second.len(),
{
    if second.len() == 0 {
        assert(first + second =~= first);
    } else {
        lemma_replay_concat(chunks, amount, first, second.drop_last());
        assert((first + second).drop_last() =~= first + second.drop_last());
        assert((first + second).last() == second.last());
    }
}

/// Replaying a history brings a world to the state of the world that made
/// it: a world that went through the first `n` edits of a history as they
/// happened and then through the rest, and a world that started from the
/// same chunks and replays the whole history at once, hold the same chunks
/// voxel for voxel.
pub proof fn lemma_replay_converges(
    origin: Seq<ChunkModel>,
    amount: GridIndex,
    history: Seq<DigAction>,
    n: int,
)
    requires
        0 <= n <= history.len(),
    ensures
        after_actions(origin, amount, history) == after_actions(
            after_actions(origin, amount, history.take(n)),
            amount,
            history.skip(n),
        ),
        after_actions(origin, amount, history).len() == origin.len(),
{
    lemma_replay_concat(origin, amount, history.take(n), history.skip(n));
    assert(history.take(n) + history.skip(n) =~= history);
    lemma_edits_keep_shape(origin, amount, history);
}

/// The marked places are exactly the places of the marked chunks, each once
/// and in creation order.
pub proof fn lemma_marked_places(changed: Seq<bool>, n: nat)
    requires
        n <= changed.len() <= usize::MAX,
    ensures
        forall|t: int|
            0 <= t < marked_places(changed, n).len() ==> {
                let k = #[trigger] marked_places(changed, n)[t];
                k < n && changed[k as int]
            },
        forall|k: int|
            0 <= k < n && changed[k] ==> marked_places(changed, n).contains(k as usize),
        forall|s: int, t: int|
            0 <= s < t < marked_places(changed, n).len() ==> marked_places(changed, n)[s]
                < marked_places(changed, n)[t],
    decreases n,
{
    if n > 0 {
        let rest = marked_places(changed, (n - 1) as nat);
        lemma_marked_places(changed, (n - 1) as nat);
        let all = marked_places(changed, n);
        if changed[n - 1] {
            assert(all == rest.push((n - 1) as usize));
            assert(all[all.len() - 1] == (n - 1) as usize);
            assert forall|k: int| 0 <= k < n && changed[k] implies all.contains(k as usize) by {
                if k < n - 1 {
                    assert(rest.contains(k as usize));
                    let t = choose|t: int| 0 <= t < rest.len() && rest[t] == k as usize;
                    assert(all[t] == k as usize);
                }
            }
        } else {
            assert(all == rest);
        }
    }
}

/// Whether the voxel at `(gx, gy, gz)`, counted in voxels across the whole
/// lattice, is solid. Where no chunk covers the place, it is empty; where
/// several chunks sit at one index, the first in creation order counts.
pub open spec fn lattice_solid(chunks: Seq<ChunkModel>, gx: int, gy: int, gz: int) -> bool {
    let cx = gx / 32;
    let cy = gy / 32;
    let cz = gz / 32;
    if 0 <= cx <= u32::MAX && 0 <= cy <= u32::MAX && 0 <= cz <= u32::MAX {
        match find_chunk(chunks, GridIndex { x: cx as u32, y: cy as u32, z: cz as u32 }) {
            Some(k) => chunks[k].voxels[cell_offset(gx % 32, gy % 32, gz % 32)],
            None => false,
        }
    } else {
        false
    }
}

/// First coordinate of the cell at flat offset `p` of the block.
pub open spec fn block_x(p: int) -> int {
    p % 96
}

/// Second coordinate of the cell at flat offset `p` of the block.
pub open spec fn block_y(p: int) -> int {
    (p / 96) % 96
}

/// Third coordinate of the cell at flat offset `p` of the block.
pub open spec fn block_z(p: int) -> int {
    p / 9216
}

/// Flat offset of the cell at `(x, y, z)` of the block.
pub open spec fn block_offset(x: int, y: int, z: int) -> int {
    x + y * 96 + z * 9216
}

/// First coordinate of the cell at flat offset `p` of a padded chunk.
pub open spec fn padded_x(p: int) -> int {
    p % 34
}

/// Second coordinate of the cell at flat offset `p` of a padded chunk.
pub open spec fn padded_y(p: int) -> int {
    (p / 34) % 34
}

/// Third coordinate of the cell at flat offset `p` of a padded chunk.
pub open spec fn padded_z(p: int) -> int {
    p / 1156
}

/// Flat offset of the cell at `(x, y, z)` of a padded chunk.
pub open spec fn padded_offset(x: int, y: int, z: int) -> int {
    x + y * 34 + z * 1156
}

/// The block of three by three by three chunks around the chunk at `index`,
/// as one cube of side 96 in flat order, x fastest: each cell holds the
/// voxel of the lattice that lies there, the chunk's own first voxel at
/// `(32, 32, 32)`.
pub open spec fn surrounding_block(chunks: Seq<ChunkModel>, index: GridIndex) -> Seq<bool> {
    Seq::new(
        BLOCK_DATA as nat,
        |p: int|
            lattice_solid(
                chunks,
                index.x * 32 - 32 + block_x(p),
                index.y * 32 - 32 + block_y(p),
                index.z * 32 - 32 + block_z(p),
            ),
    )
}

/// The chunk at `index` with a halo of one voxel on every side, as one cube
/// of side 34 in flat order, x fastest: each cell holds the voxel of the
/// lattice that lies there, the chunk's own first voxel at `(1, 1, 1)`.
pub open spec fn surrounded(chunks: Seq<ChunkModel>, index: GridIndex) -> Seq<bool> {
    Seq::new(
        BUFFER_LEN as nat,
        |p: int|
            lattice_solid(
                chunks,
                index.x * 32 - 1 + padded_x(p),
                index.y * 32 - 1 + padded_y(p),
                index.z * 32 - 1 + padded_z(p),
            ),
    )
}

/// Whether the cell at flat offset `p` of the block belongs to the chunk at
/// `(bx, by, bz)` of the block.
pub open spec fn in_sub_block(p: int, bx: int, by: int, bz: int) -> bool {
    block_x(p) / 32 == bx && block_y(p) / 32 == by && block_z(p) / 32 == bz
}

/// Flat offset, within its own chunk, of the cell at flat offset `p` of the
/// block.
pub open spec fn sub_block_offset(p: int) -> int {
    cell_offset(block_x(p) % 32, block_y(p) % 32, block_z(p) % 32)
}

/// Copies one chunk, or emptiness where there is none, into its place in
/// the block.
fn fill_sub_block(block: &mut Vec<bool>, chunk: Option<&VoxelChunk>, bx: usize, by: usize, bz: usize)
    requires
        old(block)@.len() == BLOCK_DATA,
        bx < 3,
        by < 3,
        bz < 3,
        chunk matches Some(c) ==> c.wf(),
    ensures
        final(block)@.len() == BLOCK_DATA,
        forall|p: int|
            0 <= p < BLOCK_DATA ==> #[trigger] final(block)@[p] == (if in_sub_block(
                p,
                bx as int,
                by as int,
                bz as int,
            ) {
                match chunk {
                    Some(c) => c@[sub_block_offset(p)],
                    None => false,
                }
            } else {
                old(block)@[p]
            }),
{
    let mut i: usize = 0;
    while i < CHUNK_DATA
        invariant
            i <= CHUNK_DATA,
            block@.len() == BLOCK_DATA,
            bx < 3,
            by < 3,
            bz < 3,
            chunk matches Some(c) ==> c.wf(),
            forall|p: int|
                0 <= p < BLOCK_DATA ==> #[trigger] block@[p] == (if in_sub_block(
                    p,
                    bx as int,
                    by as int,
                    bz as int,
                ) && sub_block_offset(p) < i {
                    match chunk {
                        Some(c) => c@[sub_block_offset(p)],
                        None => false,
                    }
                } else {
                    old(block)@[p]
                }),
        decreases CHUNK_DATA - i,
    {
        let x2: usize = i % 32;
        let y2: usize = (i / 32) % 32;
        let z2: usize = i / 1024;
        let write_pos: usize = (x2 + bx * 32) + (y2 + by * 32) * 96 + (z2 + bz * 32) * 9216;
        let value = match chunk {
            Some(c) => c.raw()[i],
            None => false,
        };
        let ghost earlier = block@;
        proof {
            lemma_sub_block_place(i as int, bx as int, by as int, bz as int);
        }
        block.set(write_pos, value);
        proof {
            assert forall|p: int| 0 <= p < BLOCK_DATA implies #[trigger] block@[p]
                == (if in_sub_block(p, bx as int, by as int, bz as int) && sub_block_offset(p) < i
                + 1 {
                match chunk {
                    Some(c) => c@[sub_block_offset(p)],
                    None => false,
                }
            } else {
                old(block)@[p]
            }) by {
                if p != write_pos {
                    assert(block@[p] == earlier[p]);
                    if in_sub_block(p, bx as int, by as int, bz as int) {
                        lemma_sub_block_unique(p, bx as int, by as int, bz as int);
                    }
                }
            }
        }
        i += 1;
    }
}

/// The `i`-th voxel of the chunk at `(bx, by, bz)` of the block lies in that
/// chunk's part of the block, at that offset of the chunk.
proof fn lemma_sub_block_place(i: int, bx: int, by: int, bz: int)
    requires
        0 <= i < CHUNK_DATA,
        0 <= bx < 3,
        0 <= by < 3,
        0 <= bz < 3,
    ensures
        ({
            let p = (i % 32 + bx * 32) + ((i / 32) % 32 + by * 32) * 96 + (i / 1024 + bz * 32)
                * 9216;
            &&& 0 <= p < BLOCK_DATA
            &&& in_sub_block(p, bx, by, bz)
            &&& sub_block_offset(p) == i
        }),
{
    let x = i % 32 + bx * 32;
    let y = (i / 32) % 32 + by * 32;
    let z = i / 1024 + bz * 32;
    lemma_block_coordinates(x, y, z);
    assert(x / 32 == bx && x % 32 == i % 32);
    assert(y / 32 == by && y % 32 == (i / 32) % 32);
    assert(z / 32 == bz && z % 32 == i / 1024);
    lemma_offset_round_trip(i);
}

/// A cell of the block is determined by the chunk it belongs to and its
/// offset there.
proof fn lemma_sub_block_unique(p: int, bx: int, by: int, bz: int)
    requires
        0 <= p < BLOCK_DATA,
        in_sub_block(p, bx, by, bz),
    ensures
        0 <= sub_block_offset(p) < CHUNK_DATA,
        ({
            let i = sub_block_offset(p);
            p == (i % 32 + bx * 32) + ((i / 32) % 32 + by * 32) * 96 + (i / 1024 + bz * 32) * 9216
        }),
{
    lemma_block_offset(p);
    let x = block_x(p);
    let y = block_y(p);
    let z = block_z(p);
    assert(x == bx * 32 + x % 32);
    assert(y == by * 32 + y % 32);
    assert(z == bz * 32 + z % 32);
    lemma_coordinate_round_trip(x % 32, y % 32, z % 32);
}

/// Joining coordinates into a flat offset of the block and splitting it
/// again gives the coordinates back.
pub proof fn lemma_block_coordinates(x: int, y: int, z: int)
    requires
        0 <= x < 96,
        0 <= y < 96,
        0 <= z < 96,
    ensures
        0 <= block_offset(x, y, z) < BLOCK_DATA,
        block_x(block_offset(x, y, z)) == x,
        block_y(block_offset(x, y, z)) == y,
        block_z(block_offset(x, y, z)) == z,
{
}

/// Splitting a flat offset of the block into coordinates and joining them
/// again gives the offset back.
pub proof fn lemma_block_offset(p: int)
    requires
        0 <= p < BLOCK_DATA,
    ensures
        0 <= block_x(p) < 96,
        0 <= block_y(p) < 96,
        0 <= block_z(p) < 96,
        p == block_offset(block_x(p), block_y(p), block_z(p)),
{
}

/// Joining coordinates into a flat offset of a padded chunk and splitting it
/// again gives the coordinates back.
pub proof fn lemma_padded_coordinates(x: int, y: int, z: int)
    requires
        0 <= x < 34,
        0 <= y < 34,
        0 <= z < 34,
    ensures
        0 <= padded_offset(x, y, z) < BUFFER_LEN,
        padded_x(padded_offset(x, y, z)) == x,
        padded_y(padded_offset(x, y, z)) == y,
        padded_z(padded_offset(x, y, z)) == z,
{
}

/// Splitting a flat offset of a padded chunk into coordinates and joining
/// them again gives the offset back.
pub proof fn lemma_padded_offset(p: int)
    requires
        0 <= p < BUFFER_LEN,
    ensures
        0 <= padded_x(p) < 34,
        0 <= padded_y(p) < 34,
        0 <= padded_z(p) < 34,
        p == padded_offset(padded_x(p), padded_y(p), padded_z(p)),
{
}

/// Place of a cell's chunk among the 27 chunks of the block, x fastest.
pub open spec fn sub_block_number(p: int) -> int {
    block_x(p) / 32 + 3 * (block_y(p) / 32) + 9 * (block_z(p) / 32)
}

/// What the block holds in the part that belongs to the chunk at
/// `(bx, by, bz)` of the block: that neighbour's own voxels, or emptiness
/// where the lattice has no such neighbour.
proof fn lemma_sub_block_sample(
    chunks: Seq<ChunkModel>,
    index: GridIndex,
    p: int,
    bx: int,
    by: int,
    bz: int,
)
    requires
        0 <= p < BLOCK_DATA,
        in_sub_block(p, bx, by, bz),
    ensures
        0 <= bx < 3 && 0 <= by < 3 && 0 <= bz < 3,
        sub_block_number(p) == bx + 3 * by + 9 * bz,
        ({
            let nx = index.x + bx - 1;
            let ny = index.y + by - 1;
            let nz = index.z + bz - 1;
            surrounding_block(chunks, index)[p] == (if 0 <= nx <= u32::MAX && 0 <= ny <= u32::MAX
                && 0 <= nz <= u32::MAX {
                match find_chunk(chunks, GridIndex { x: nx as u32, y: ny as u32, z: nz as u32 }) {
                    Some(k) => chunks[k].voxels[sub_block_offset(p)],
                    None => false,
                }
            } else {
                false
            })
        }),
{
    lemma_block_offset(p);
    let x = block_x(p);
    let y = block_y(p);
    let z = block_z(p);
    let gx = index.x * 32 - 32 + x;
    let gy = index.y * 32 - 32 + y;
    let gz = index.z * 32 - 32 + z;
    assert(x == bx * 32 + x % 32);
    assert(y == by * 32 + y % 32);
    assert(z == bz * 32 + z % 32);
    assert(gx == (index.x + bx - 1) * 32 + x % 32);
    assert(gy == (index.y + by - 1) * 32 + y % 32);
    assert(gz == (index.z + bz - 1) * 32 + z % 32);
    assert(gx / 32 == index.x + bx - 1 && gx % 32 == x % 32);
    assert(gy / 32 == index.y + by - 1 && gy % 32 == y % 32);
    assert(gz / 32 == index.z + bz - 1 && gz % 32 == z % 32);
}

/// Whether a chunk of the lattice holds the voxel at `(gx, gy, gz)`.
pub open spec fn covered(chunks: Seq<ChunkModel>, gx: int, gy: int, gz: int) -> bool {
    let cx = gx / 32;
    let cy = gy / 32;
    let cz = gz / 32;
    &&& 0 <= cx <= u32::MAX
    &&& 0 <= cy <= u32::MAX
    &&& 0 <= cz <= u32::MAX
    &&& find_chunk(chunks, GridIndex { x: cx as u32, y: cy as u32, z: cz as u32 }) is Some
}

/// An edit leaves every chunk where it sits, so that the same chunk is
/// found at every index as before.
pub proof fn lemma_edit_keeps_places(
    chunks: Seq<ChunkModel>,
    center: Point3,
    radius: int,
    state: bool,
    index: GridIndex,
)
    ensures
        find_chunk(lattice_after_edit(chunks, center, radius, state), index) == find_chunk(
            chunks,
            index,
        ),
{
    let after = lattice_after_edit(chunks, center, radius, state);
    assert forall|k: int| is_first_at(after, index, k) == is_first_at(chunks, index, k) by {
        if 0 <= k < chunks.len() {
            assert(after[k].index == chunks[k].index);
            if is_first_at(chunks, index, k) {
                assert forall|j: int| 0 <= j < k implies (#[trigger] after[j]).index != index by {
                    assert(chunks[j].index != index);
                }
            }
            if is_first_at(after, index, k) {
                assert forall|j: int| 0 <= j < k implies (#[trigger] chunks[j]).index != index by {
                    assert(after[j].index != index);
                }
            }
        }
    }
    match find_chunk(chunks, index) {
        Some(k) => {
            assert(is_first_at(chunks, index, k));
            assert(is_first_at(after, index, k));
            lemma_find_chunk_first(after, index, k);
        },
        None => {
            if find_chunk(after, index) is Some {
                let k = find_chunk(after, index).unwrap();
                assert(is_first_at(after, index, k));
                assert(is_first_at(chunks, index, k));
            }
        },
    }
}

/// An edit acts on the lattice as on one contiguous grid: with a radius that
/// is not negative, the voxel at any place of the lattice is set exactly if
/// a chunk holds it and its centre lies strictly inside the sphere, and
/// keeps what it held otherwise, wherever chunk boundaries run.
pub proof fn lemma_edit_on_lattice(
    chunks: Seq<ChunkModel>,
    center: Point3,
    radius: int,
    state: bool,
    gx: int,
    gy: int,
    gz: int,
)
    requires
        0 <= radius,
        forall|k: int| 0 <= k < chunks.len() ==> (#[trigger] chunks[k]).voxels.len() == 32768,
    ensures
        lattice_solid(lattice_after_edit(chunks, center, radius, state), gx, gy, gz) == (
        if covered(chunks, gx, gy, gz) && in_sphere(gx, gy, gz, center, radius) {
            state
        } else {
            lattice_solid(chunks, gx, gy, gz)
        }),
{
    let cx = gx / 32;
    let cy = gy / 32;
    let cz = gz / 32;
    if 0 <= cx <= u32::MAX && 0 <= cy <= u32::MAX && 0 <= cz <= u32::MAX {
        let index = GridIndex { x: cx as u32, y: cy as u32, z: cz as u32 };
        lemma_edit_keeps_places(chunks, center, radius, state, index);
        match find_chunk(chunks, index) {
            Some(k) => {
                assert(is_first_at(chunks, index, k));
                let i = cell_offset(gx % 32, gy % 32, gz % 32);
                lemma_coordinate_round_trip(gx % 32, gy % 32, gz % 32);
                lemma_edit_is_seamless(chunks, center, radius, state, k, i);
                assert(chunks[k].index.x * 32 + offset_x(i) == gx);
                assert(chunks[k].index.y * 32 + offset_y(i) == gy);
                assert(chunks[k].index.z * 32 + offset_z(i) == gz);
            },
            None => {},
        }
    }
}

/// Every cell of a padded chunk holds the voxel of the lattice that lies one
/// voxel before the chunk's own first voxel plus the cell's coordinates.
pub proof fn lemma_padded_sample(chunks: Seq<ChunkModel>, index: GridIndex, x: int, y: int, z: int)
    requires
        0 <= x < 34,
        0 <= y < 34,
        0 <= z < 34,
    ensures
        0 <= padded_offset(x, y, z) < BUFFER_LEN,
        surrounded(chunks, index)[padded_offset(x, y, z)] == lattice_solid(
            chunks,
            index.x * 32 + x - 1,
            index.y * 32 + y - 1,
            index.z * 32 + z - 1,
        ),
{
    lemma_padded_coordinates(x, y, z);
}

/// Inside its halo a padded chunk holds the chunk's own voxels: the cell at
/// `(x, y, z)`, each coordinate from 1 to 32, is the chunk's voxel at
/// `(x - 1, y - 1, z - 1)`.
pub proof fn lemma_padded_interior(
    chunks: Seq<ChunkModel>,
    index: GridIndex,
    x: int,
    y: int,
    z: int,
)
    requires
        1 <= x <= 32,
        1 <= y <= 32,
        1 <= z <= 32,
        find_chunk(chunks, index) is Some,
    ensures
        surrounded(chunks, index)[padded_offset(x, y, z)] == chunks[find_chunk(
            chunks,
            index,
        ).unwrap()].voxels[cell_offset(x - 1, y - 1, z - 1)],
{
    lemma_padded_sample(chunks, index, x, y, z);
    let gx = index.x * 32 + x - 1;
    let gy = index.y * 32 + y - 1;
    let gz = index.z * 32 + z - 1;
    assert(gx / 32 == index.x && gx % 32 == x - 1);
    assert(gy / 32 == index.y && gy % 32 == y - 1);
    assert(gz / 32 == index.z && gz % 32 == z - 1);
}

/// The halo of a padded chunk holds the boundary voxels of the neighbours:
/// a cell with a coordinate of 0 comes from the last layer of the neighbour
/// before the chunk on that axis, one with a coordinate of 33 from the first
/// layer of the neighbour after it, and the other coordinates are taken as
/// inside the halo. Where the lattice has no such neighbour the cell is
/// empty.
pub proof fn lemma_padded_halo(chunks: Seq<ChunkModel>, index: GridIndex, x: int, y: int, z: int)
    requires
        0 <= x < 34,
        0 <= y < 34,
        0 <= z < 34,
    ensures
        ({
            let nx = index.x + (x + 31) / 32 - 1;
            let ny = index.y + (y + 31) / 32 - 1;
            let nz = index.z + (z + 31) / 32 - 1;
            surrounded(chunks, index)[padded_offset(x, y, z)] == (if 0 <= nx <= u32::MAX && 0
                <= ny <= u32::MAX && 0 <= nz <= u32::MAX {
                match find_chunk(chunks, GridIndex { x: nx as u32, y: ny as u32, z: nz as u32 }) {
                    Some(k) => chunks[k].voxels[cell_offset(
                        (x + 31) % 32,
                        (y + 31) % 32,
                        (z + 31) % 32,
                    )],
                    None => false,
                }
            } else {
                false
            })
        }),
{
    lemma_padded_sample(chunks, index, x, y, z);
    let gx = index.x * 32 + x - 1;
    let gy = index.y * 32 + y - 1;
    let gz = index.z * 32 + z - 1;
    assert(gx == (index.x + (x + 31) / 32 - 1) * 32 + (x + 31) % 32);
    assert(gy == (index.y + (y + 31) / 32 - 1) * 32 + (y + 31) % 32);
    assert(gz == (index.z + (z + 31) / 32 - 1) * 32 + (z + 31) % 32);
    assert(gx / 32 == index.x + (x + 31) / 32 - 1 && gx % 32 == (x + 31) % 32);
    assert(gy / 32 == index.y + (y + 31) / 32 - 1 && gy % 32 == (y + 31) % 32);
    assert(gz / 32 == index.z + (z + 31) / 32 - 1 && gz % 32 == (z + 31) % 32);
}

/// Whether the box of any of the edits reaches the chunk at place `k`.
pub open spec fn touched_by(
    chunks: Seq<ChunkModel>,
    amount: GridIndex,
    actions: Seq<DigAction>,
    k: int,
) -> bool {
    exists|i: int|
        0 <= i < actions.len() && edit_reaches(
            chunks[k].index,
            world_to_voxel(amount, (#[trigger] actions[i]).pos@),
            actions[i].radius * 4,
        )
}

/// Every place below the number of chunks is the creation order of one
/// chunk of the lattice.
pub proof fn lemma_spawn_order_covers(amount: GridIndex, j: int)
    requires
        0 <= j < amount.x * amount.y * amount.z,
    ensures
        ({
            let z = j % (amount.z as int);
            let y = (j / (amount.z as int)) % (amount.y as int);
            let x = (j / (amount.z as int)) / (amount.y as int);
            in_lattice(amount, x, y, z) && spawn_order(amount, x, y, z) == j
        }),
{
    let ax = amount.x as int;
    let ay = amount.y as int;
    let az = amount.z as int;
    assert(ax > 0 && ay > 0 && az > 0) by (nonlinear_arith)
        requires
            0 <= j < ax * ay * az,
            0 <= ax,
            0 <= ay,
            0 <= az,
    ;
    let r = j / az;
    let z = j % az;
    lemma_fundamental_div_mod(j, az);
    lemma_mod_bound(j, az);
    assert(az * r == r * az) by (nonlinear_arith);
    assert(0 <= r < ax * ay) by (nonlinear_arith)
        requires
            j == r * az + z,
            0 <= z < az,
            0 <= j < ax * ay * az,
    ;
    let x = r / ay;
    let y = r % ay;
    lemma_fundamental_div_mod(r, ay);
    lemma_mod_bound(r, ay);
    assert(ay * x == x * ay) by (nonlinear_arith);
    assert(0 <= x < ax) by (nonlinear_arith)
        requires
            r == x * ay + y,
            0 <= y < ay,
            0 <= r < ax * ay,
    ;
}

/// In a lattice whose chunks lie in creation order, the chunk at
/// `(x, y, z)` is found at its place in that order, and nowhere before.
pub proof fn lemma_lattice_lookup(
    chunks: Seq<ChunkModel>,
    amount: GridIndex,
    x: int,
    y: int,
    z: int,
)
    requires
        chunks.len() == amount.x * amount.y * amount.z,
        forall|x1: int, y1: int, z1: int|
            in_lattice(amount, x1, y1, z1) ==> chunks[#[trigger] spawn_order(
                amount,
                x1,
                y1,
                z1,
            )].index == (GridIndex { x: x1 as u32, y: y1 as u32, z: z1 as u32 }),
        in_lattice(amount, x, y, z),
    ensures
        find_chunk(chunks, GridIndex { x: x as u32, y: y as u32, z: z as u32 }) == Some(
            spawn_order(amount, x, y, z),
        ),
{
    let index = GridIndex { x: x as u32, y: y as u32, z: z as u32 };
    let k = spawn_order(amount, x, y, z);
    lemma_spawn_order_bound(amount, x, y, z);
    assert forall|j: int| 0 <= j < k implies (#[trigger] chunks[j]).index != index by {
        lemma_spawn_order_covers(amount, j);
        let zj = j % (amount.z as int);
        let yj = (j / (amount.z as int)) % (amount.y as int);
        let xj = (j / (amount.z as int)) / (amount.y as int);
        assert(spawn_order(amount, xj, yj, zj) == j);
        if chunks[j].index == index {
            assert(xj == x && yj == y && zj == z);
        }
    }
    assert(is_first_at(chunks, index, k));
    lemma_find_chunk_first(chunks, index, k);
}

impl View for ChunksManager {
    type V = Seq<ChunkModel>;

    closed spec fn view(&self) -> Seq<ChunkModel> {
        self.chunks@.map_values(|c: VoxelChunk| c.model())
    }
}

impl ChunksManager {
    /// Every chunk holds a full grid of voxels, and has a mark that tells
    /// whether it changed.
    pub open spec fn wf(&self) -> bool {
        &&& self.changed().len() == self@.len()
        &&& forall|k: int| 0 <= k < self@.len() ==> (#[trigger] self@[k]).voxels.len() == 32768
    }

    /// For every chunk, whether it changed since the marks were last taken.
    pub closed spec fn changed(&self) -> Seq<bool> {
        self.changed@
    }

    /// Whether the lattice extent has been recorded.
    pub closed spec fn has_info(&self) -> bool {
        self.chunks_info.is_some()
    }

    /// The recorded lattice extent, zero on every axis before any chunks
    /// were created.
    pub closed spec fn amount(&self) -> GridIndex {
        match self.chunks_info {
            Some(info) => info.amount,
            None => GridIndex { x: 0, y: 0, z: 0 },
        }
    }

    /// Every edit applied so far, oldest first.
    pub closed spec fn history(&self) -> Seq<DigAction> {
        self.dig_history@
    }

    /// A world without chunks.
    pub fn new() -> (r: ChunksManager)
        ensures
            r.wf(),
            r@.len() == 0,
            !r.has_info(),
            r.amount() == (GridIndex { x: 0, y: 0, z: 0 }),
            r.history().len() == 0,
    {
        ChunksManager {
            chunks: Vec::new(),
            changed: Vec::new(),
            chunks_info: None,
            dig_history: Vec::new(),
        }
    }

    /// Adds one full chunk for every place of a lattice of extent `amount`,
    /// x outermost and z innermost, marks each as changed, and records the
    /// extent. Returns where each new chunk is placed in the scene, in the
    /// same order.
    pub fn create_chunks(&mut self, amount: GridIndex, scale: i32) -> (placed: Vec<ScenePos>)
        requires
            old(self).wf(),
            amount.x > 0,
            amount.y > 0,
            amount.z > 0,
            old(self)@.len() + amount.x * amount.y * amount.z <= usize::MAX,
        ensures
            final(self).wf(),
            final(self).has_info(),
            final(self).amount() == amount,
            final(self).history() == old(self).history(),
            final(self)@.len() == old(self)@.len() + amount.x * amount.y * amount.z,
            placed@.len() == amount.x * amount.y * amount.z,
            forall|k: int| 0 <= k < old(self)@.len() ==> final(self)@[k] == old(self)@[k],
            forall|k: int|
                0 <= k < final(self)@.len() ==> (#[trigger] final(self).changed()[k]) == (k
                    >= old(self)@.len() || old(self).changed()[k]),
            forall|x: int, y: int, z: int|
                in_lattice(amount, x, y, z) ==> {
                    let k = #[trigger] spawn_order(amount, x, y, z);
                    let index = GridIndex { x: x as u32, y: y as u32, z: z as u32 };
                    &&& final(self)@[old(self)@.len() + k] == full_chunk(index)
                    &&& placed@[k]@ == translation_of(index, scale as int)
                },
    {
        self.chunks_info = Some(ChunksInfo { amount });
        let mut placed: Vec<ScenePos> = Vec::new();
        let ghost base = self@.len() as int;
        let ghost before = self@;
        let ghost marks = self.changed();
        assert(spawn_order(amount, 0, 0, 0) == 0) by (nonlinear_arith);
        let mut x: u32 = 0;
        while x < amount.x
            invariant
                amount.x > 0,
                amount.y > 0,
                amount.z > 0,
                x <= amount.x,
                base + amount.x * amount.y * amount.z <= usize::MAX,
                self.wf(),
                self.has_info(),
                self.amount() == amount,
                self.history() == old(self).history(),
                before == old(self)@,
                base == before.len(),
                self@.len() == base + spawn_order(amount, x as int, 0, 0),
                placed@.len() == spawn_order(amount, x as int, 0, 0),
                forall|k: int| 0 <= k < base ==> self@[k] == before[k],
                forall|k: int|
                    0 <= k < self@.len() ==> (#[trigger] self.changed()[k]) == (k >= base || marks[k]),
                marks == old(self).changed(),
                marks.len() == old(self)@.len(),
                forall|x1: int, y1: int, z1: int|
                    in_lattice(amount, x1, y1, z1) && (#[trigger] spawn_order(amount, x1, y1, z1))
                        < placed@.len() ==> {
                        let k = spawn_order(amount, x1, y1, z1);
                        let index = GridIndex { x: x1 as u32, y: y1 as u32, z: z1 as u32 };
                        &&& self@[base + k] == full_chunk(index)
                        &&& placed@[k]@ == translation_of(index, scale as int)
                    },
            decreases amount.x - x,
        {
            let mut y: u32 = 0;
            while y < amount.y
                invariant
                    amount.x > 0,
                    amount.y > 0,
                    amount.z > 0,
                    x < amount.x,
                    y <= amount.y,
                    base + amount.x * amount.y * amount.z <= usize::MAX,
                    self.wf(),
                    self.has_info(),
                    self.amount() == amount,
                    self.history() == old(self).history(),
                    before == old(self)@,
                    base == before.len(),
                    self@.len() == base + spawn_order(amount, x as int, y as int, 0),
                    placed@.len() == spawn_order(amount, x as int, y as int, 0),
                    forall|k: int| 0 <= k < base ==> self@[k] == before[k],
                    forall|k: int|
                        0 <= k < self@.len() ==> (#[trigger] self.changed()[k]) == (k >= base || marks[k]),
                    marks == old(self).changed(),
                    marks.len() == old(self)@.len(),
                    forall|x1: int, y1: int, z1: int|
                        in_lattice(amount, x1, y1, z1) && (#[trigger] spawn_order(
                            amount,
                            x1,
                            y1,
                            z1,
                        )) < placed@.len() ==> {
                            let k = spawn_order(amount, x1, y1, z1);
                            let index = GridIndex { x: x1 as u32, y: y1 as u32, z: z1 as u32 };
                            &&& self@[base + k] == full_chunk(index)
                            &&& placed@[k]@ == translation_of(index, scale as int)
                        },
                decreases amount.y - y,
            {
                let mut z: u32 = 0;
                while z < amount.z
                    invariant
                        amount.x > 0,
                        amount.y > 0,
                        amount.z > 0,
                        x < amount.x,
                        y < amount.y,
                        z <= amount.z,
                        base + amount.x * amount.y * amount.z <= usize::MAX,
                        self.wf(),
                        self.has_info(),
                        self.amount() == amount,
                        self.history() == old(self).history(),
                        before == old(self)@,
                        base == before.len(),
                        self@.len() == base + spawn_order(amount, x as int, y as int, z as int),
                        placed@.len() == spawn_order(amount, x as int, y as int, z as int),
                        forall|k: int| 0 <= k < base ==> self@[k] == before[k],
                        forall|k: int|
                            0 <= k < self@.len() ==> (#[trigger] self.changed()[k]) == (k >= base || marks[k]),
                        marks == old(self).changed(),
                        marks.len() == old(self)@.len(),
                        forall|x1: int, y1: int, z1: int|
                            in_lattice(amount, x1, y1, z1) && (#[trigger] spawn_order(
                                amount,
                                x1,
                                y1,
                                z1,
                            )) < placed@.len() ==> {
                                let k = spawn_order(amount, x1, y1, z1);
                                let index = GridIndex { x: x1 as u32, y: y1 as u32, z: z1 as u32 };
                                &&& self@[base + k] == full_chunk(index)
                                &&& placed@[k]@ == translation_of(index, scale as int)
                            },
                    decreases amount.z - z,
                {
                    let index = GridIndex::new(x, y, z);
                    let ghost earlier = self@;
                    let ghost earlier_placed = placed@;
                    proof {
                        lemma_spawn_order_bound(amount, x as int, y as int, z as int);
                    }
                    placed.push(chunk_translation(index, scale));
                    self.chunks.push(VoxelChunk::full(index));
                    self.changed.push(true);
                    proof {
                        assert(self@ =~= earlier.push(full_chunk(index)));
                        assert forall|x1: int, y1: int, z1: int|
                            in_lattice(amount, x1, y1, z1) && (#[trigger] spawn_order(
                                amount,
                                x1,
                                y1,
                                z1,
                            )) < placed@.len() implies {
                            let k = spawn_order(amount, x1, y1, z1);
                            let index1 = GridIndex { x: x1 as u32, y: y1 as u32, z: z1 as u32 };
                            &&& self@[base + k] == full_chunk(index1)
                            &&& placed@[k]@ == translation_of(index1, scale as int)
                        } by {
                            let k = spawn_order(amount, x1, y1, z1);
                            if k == earlier_placed.len() {
                                lemma_spawn_order_injective(
                                    amount,
                                    x1,
                                    y1,
                                    z1,
                                    x as int,
                                    y as int,
                                    z as int,
                                );
                            }
                        }
                    }
                    z += 1;
                }
                assert(spawn_order(amount, x as int, y as int, amount.z as int) == spawn_order(
                    amount,
                    x as int,
                    y as int + 1,
                    0,
                )) by (nonlinear_arith);
                y += 1;
            }
            assert(spawn_order(amount, x as int, amount.y as int, 0) == spawn_order(
                amount,
                x as int + 1,
                0,
                0,
            )) by (nonlinear_arith);
            x += 1;
        }
        proof {
            assert(spawn_order(amount, amount.x as int, 0, 0) == amount.x * amount.y * amount.z)
                by (nonlinear_arith);
            assert forall|x1: int, y1: int, z1: int| in_lattice(amount, x1, y1, z1) implies (
            #[trigger] spawn_order(amount, x1, y1, z1)) < placed@.len() by {
                lemma_spawn_order_bound(amount, x1, y1, z1);
            }
        }
        placed
    }

    /// The recorded lattice extent, zero on every axis before any chunks
    /// were created.
    pub fn get_amount(&self) -> (r: GridIndex)
        ensures
            r == self.amount(),
    {
        match &self.chunks_info {
            Some(info) => info.amount,
            None => GridIndex::splat(0),
        }
    }

    /// Whether the lattice extent has been recorded.
    pub fn has_chunks_info(&self) -> (r: bool)
        ensures
            r == self.has_info(),
    {
        self.chunks_info.is_some()
    }

    /// Every edit applied so far, oldest first.
    pub fn dig_history(&self) -> (r: Vec<DigAction>)
        ensures
            r@ == self.history(),
    {
        let mut copy: Vec<DigAction> = Vec::new();
        let mut i: usize = 0;
        while i < self.dig_history.len()
            invariant
                i <= self.dig_history@.len(),
                copy@ == self.dig_history@.take(i as int),
            decreases self.dig_history@.len() - i,
        {
            copy.push(self.dig_history[i]);
            proof {
                assert(self.dig_history@.take(i as int + 1) =~= self.dig_history@.take(
                    i as int,
                ).push(self.dig_history@[i as int]));
            }
            i += 1;
        }
        proof {
            assert(self.dig_history@.take(self.dig_history@.len() as int) =~= self.dig_history@);
        }
        copy
    }

    /// The number of chunks.
    pub fn chunk_count(&self) -> (r: usize)
        ensures
            r == self@.len(),
    {
        self.chunks.len()
    }

    /// The voxel-space point of a world-space point.
    pub fn world_pos_to_voxel_pos(&self, world_pos: WorldPos) -> (r: VoxelPos)
        ensures
            r@ == world_to_voxel(self.amount(), world_pos@),
    {
        let amount = self.get_amount();
        VoxelPos {
            x: amount.x as i64 * 16000 + world_pos.x as i64 * 4,
            y: amount.y as i64 * 32000 + world_pos.y as i64 * 4,
            z: amount.z as i64 * 16000 + world_pos.z as i64 * 4,
        }
    }

    /// A world-space length in voxel space: four voxels to the world unit.
    pub fn world_length_to_voxel_length(world_length: i32) -> (r: i64)
        ensures
            r == world_length * 4,
    {
        world_length as i64 * 4
    }

    /// Whether the edit's box reaches the chunk at `index`.
    fn reaches(index: GridIndex, center: VoxelPos, radius: i64) -> (r: bool)
        requires
            -0x1_0000_0000_0000 <= center.x <= 0x1_0000_0000_0000,
            -0x1_0000_0000_0000 <= center.y <= 0x1_0000_0000_0000,
            -0x1_0000_0000_0000 <= center.z <= 0x1_0000_0000_0000,
            -0x1_0000_0000_0000 <= radius <= 0x1_0000_0000_0000,
        ensures
            r == edit_reaches(index, center@, radius as int),
    {
        let ox: i64 = index.x as i64 * 32000;
        let oy: i64 = index.y as i64 * 32000;
        let oz: i64 = index.z as i64 * 32000;
        center.x - radius <= ox + 31000 && center.y - radius <= oy + 31000 && center.z - radius
            <= oz + 31000 && center.x + radius >= ox && center.y + radius >= oy && center.z
            + radius >= oz
    }

    /// Sets every voxel of the world whose centre lies strictly inside the
    /// sphere to `state`, chunk by chunk: a chunk is edited, in its own frame,
    /// and marked as changed if the box around the sphere meets the box
    /// around its voxel centres. The edit is added to the history.
    pub fn set_sphere(&mut self, world_pos: WorldPos, radius: i32, state: bool)
        requires
            old(self).wf(),
        ensures
            final(self).wf(),
            final(self).has_info() == old(self).has_info(),
            final(self).amount() == old(self).amount(),
            final(self)@ == after_action(
                old(self)@,
                old(self).amount(),
                DigAction { pos: world_pos, radius, state },
            ),
            final(self).history() == old(self).history().push(
                DigAction { pos: world_pos, radius, state },
            ),
            final(self).changed() == marks_after_edit(
                old(self)@,
                old(self).changed(),
                world_to_voxel(old(self).amount(), world_pos@),
                radius * 4,
            ),
    {
        let voxel_pos = self.world_pos_to_voxel_pos(world_pos);
        let voxel_radius = Self::world_length_to_voxel_length(radius);
        let ghost center = voxel_pos@;
        let ghost before = self@;
        let ghost marks = self.changed();
        let n = self.chunks.len();
        let mut k: usize = 0;
        while k < n
            invariant
                k <= n,
                n == self@.len(),
                before == old(self)@,
                marks == old(self).changed(),
                marks.len() == old(self)@.len(),
                before.len() == n,
                old(self).wf(),
                self.has_info() == old(self).has_info(),
                self.amount() == old(self).amount(),
                self.history() == old(self).history(),
                center == voxel_pos@,
                center == world_to_voxel(old(self).amount(), world_pos@),
                voxel_radius == radius * 4,
                self.changed().len() == n,
                forall|j: int|
                    0 <= j < k ==> self@[j] == chunk_after_edit(
                        before[j],
                        center,
                        voxel_radius as int,
                        state,
                    ),
                forall|j: int|
                    0 <= j < k ==> (#[trigger] self.changed()[j]) == (marks[j] || edit_reaches(
                        before[j].index,
                        center,
                        voxel_radius as int,
                    )),
                forall|j: int| k <= j < n ==> self@[j] == before[j],
                forall|j: int| k <= j < n ==> (#[trigger] self.changed()[j]) == marks[j],
            decreases n - k,
        {
            let index = self.chunks[k].index();
            if Self::reaches(index, voxel_pos, voxel_radius) {
                let localized_pos = VoxelPos {
                    x: voxel_pos.x - index.x as i64 * 32000,
                    y: voxel_pos.y - index.y as i64 * 32000,
                    z: voxel_pos.z - index.z as i64 * 32000,
                };
                let ghost earlier = self@;
                assert(self@[k as int] == before[k as int]);
                self.chunks[k].set_sphere(localized_pos, voxel_radius, state);
                self.changed.set(k, true);
                proof {
                    assert(localized_pos@ == local_center(index, center));
                    assert(self@ =~= earlier.update(
                        k as int,
                        chunk_after_edit(before[k as int], center, voxel_radius as int, state),
                    ));
                }
            }
            k += 1;
        }
        self.dig_history.push(DigAction { pos: world_pos, radius, state });
        proof {
            assert(self@ =~= lattice_after_edit(before, center, voxel_radius as int, state));
            assert(self.changed() =~= marks_after_edit(before, marks, center, voxel_radius as int));
        }
    }

    /// Empties every voxel strictly inside the sphere.
    pub fn dig_sphere(&mut self, world_pos: WorldPos, radius: i32)
        requires
            old(self).wf(),
        ensures
            final(self).wf(),
            final(self).has_info() == old(self).has_info(),
            final(self).amount() == old(self).amount(),
            final(self)@ == after_action(
                old(self)@,
                old(self).amount(),
                DigAction { pos: world_pos, radius, state: false },
            ),
            final(self).history() == old(self).history().push(
                DigAction { pos: world_pos, radius, state: false },
            ),
            final(self).changed() == marks_after_edit(
                old(self)@,
                old(self).changed(),
                world_to_voxel(old(self).amount(), world_pos@),
                radius * 4,
            ),
    {
        self.set_sphere(world_pos, radius, false)
    }

    /// Fills every voxel strictly inside the sphere.
    pub fn build_sphere(&mut self, world_pos: WorldPos, radius: i32)
        requires
            old(self).wf(),
        ensures
            final(self).wf(),
            final(self).has_info() == old(self).has_info(),
            final(self).amount() == old(self).amount(),
            final(self)@ == after_action(
                old(self)@,
                old(self).amount(),
                DigAction { pos: world_pos, radius, state: true },
            ),
            final(self).history() == old(self).history().push(
                DigAction { pos: world_pos, radius, state: true },
            ),
            final(self).changed() == marks_after_edit(
                old(self)@,
                old(self).changed(),
                world_to_voxel(old(self).amount(), world_pos@),
                radius * 4,
            ),
    {
        self.set_sphere(world_pos, radius, true)
    }

    /// Applies one edit of a history.
    pub fn apply(&mut self, action: DigAction)
        requires
            old(self).wf(),
        ensures
            final(self).wf(),
            final(self).has_info() == old(self).has_info(),
            final(self).amount() == old(self).amount(),
            final(self)@ == after_action(old(self)@, old(self).amount(), action),
            final(self).history() == old(self).history().push(action),
            final(self).changed() == marks_after_edit(
                old(self)@,
                old(self).changed(),
                world_to_voxel(old(self).amount(), action.pos@),
                action.radius * 4,
            ),
    {
        self.set_sphere(action.pos, action.radius, action.state)
    }

    /// Applies the edits of a history, oldest first, and adds them to this
    /// world's own history. Every chunk that the box of any of the edits
    /// reaches is marked as changed.
    pub fn replay(&mut self, history: &Vec<DigAction>)
        requires
            old(self).wf(),
        ensures
            final(self).wf(),
            final(self).has_info() == old(self).has_info(),
            final(self).amount() == old(self).amount(),
            final(self)@ == after_actions(old(self)@, old(self).amount(), history@),
            final(self).history() == old(self).history() + history@,
            final(self).changed().len() == old(self).changed().len(),
            forall|k: int|
                0 <= k < old(self)@.len() ==> (#[trigger] final(self).changed()[k]) == (old(
                    self,
                ).changed()[k] || touched_by(old(self)@, old(self).amount(), history@, k)),
    {
        let ghost origin = self@;
        let ghost amount = self.amount();
        let ghost marks = self.changed();
        let mut i: usize = 0;
        while i < history.len()
            invariant
                i <= history@.len(),
                origin == old(self)@,
                amount == old(self).amount(),
                marks == old(self).changed(),
                marks.len() == old(self)@.len(),
                old(self).wf(),
                self.wf(),
                self.has_info() == old(self).has_info(),
                self.amount() == amount,
                self@ == after_actions(origin, amount, history@.take(i as int)),
                self.history() == old(self).history() + history@.take(i as int),
                self.changed().len() == origin.len(),
                forall|k: int|
                    0 <= k < origin.len() ==> (#[trigger] self.changed()[k]) == (marks[k]
                        || touched_by(origin, amount, history@.take(i as int), k)),
            decreases history@.len() - i,
        {
            let action = history[i];
            let ghost earlier = self@;
            let ghost flags = self.changed();
            let ghost done = history@.take(i as int);
            let ghost center = world_to_voxel(amount, action.pos@);
            self.apply(action);
            proof {
                let next = history@.take(i as int + 1);
                assert(next.drop_last() =~= done);
                assert(next.last() == action);
                assert(self.history() =~= old(self).history() + next);
                lemma_edits_keep_shape(origin, amount, done);
                lemma_edits_keep_shape(origin, amount, next);
                assert forall|k: int| 0 <= k < origin.len() implies (
                #[trigger] self.changed()[k]) == (marks[k] || touched_by(origin, amount, next, k)) by {
                    let hit = edit_reaches(origin[k].index, center, action.radius * 4);
                    assert(earlier[k].index == origin[k].index);
                    assert(self.changed()[k] == (flags[k] || hit));
                    if hit {
                        assert(next[i as int] == action);
                        assert(touched_by(origin, amount, next, k));
                    }
                    if touched_by(origin, amount, done, k) {
                        let j = choose|j: int|
                            0 <= j < done.len() && edit_reaches(
                                origin[k].index,
                                world_to_voxel(amount, (#[trigger] done[j]).pos@),
                                done[j].radius * 4,
                            );
                        assert(next[j] == done[j]);
                        assert(touched_by(origin, amount, next, k));
                    }
                    if touched_by(origin, amount, next, k) && !hit {
                        let j = choose|j: int|
                            0 <= j < next.len() && edit_reaches(
                                origin[k].index,
                                world_to_voxel(amount, (#[trigger] next[j]).pos@),
                                next[j].radius * 4,
                            );
                        assert(j < i);
                        assert(done[j] == next[j]);
                        assert(touched_by(origin, amount, done, k));
                    }
                }
            }
            i += 1;
        }
        proof {
            assert(history@.take(history@.len() as int) =~= history@);
        }
    }

    /// For every chunk, whether it changed since the marks were last taken.
    pub fn changed_marks(&self) -> (r: &Vec<bool>)
        ensures
            r@ == self.changed(),
    {
        &self.changed
    }

    /// The places of the chunks that changed, in creation order. Takes the
    /// marks away: from now on no chunk counts as changed until it changes
    /// again.
    pub fn take_changed(&mut self) -> (r: Vec<usize>)
        requires
            old(self).wf(),
        ensures
            final(self).wf(),
            final(self).has_info() == old(self).has_info(),
            final(self).amount() == old(self).amount(),
            final(self)@ == old(self)@,
            final(self).history() == old(self).history(),
            final(self).changed() == Seq::new(old(self).changed().len(), |k: int| false),
            r@ == marked_places(old(self).changed(), old(self).changed().len()),
    {
        let mut places: Vec<usize> = Vec::new();
        let n = self.changed.len();
        let mut k: usize = 0;
        while k < n
            invariant
                k <= n,
                n == self.changed().len(),
                n == old(self).changed().len(),
                self@ == old(self)@,
                self.has_info() == old(self).has_info(),
                self.amount() == old(self).amount(),
                self.history() == old(self).history(),
                places@ == marked_places(old(self).changed(), k as nat),
                forall|j: int| 0 <= j < k ==> !self.changed()[j],
                forall|j: int| k <= j < n ==> self.changed()[j] == old(self).changed()[j],
            decreases n - k,
        {
            if self.changed[k] {
                places.push(k);
                self.changed.set(k, false);
            }
            k += 1;
        }
        proof {
            assert(self.changed() =~= Seq::new(old(self).changed().len(), |k: int| false));
        }
        places
    }

    /// The first chunk in creation order that sits at `index`, if any does.
    pub fn get_chunk_by_index(&self, index: GridIndex) -> (r: Option<&VoxelChunk>)
        ensures
            match r {
                Some(chunk) => find_chunk(self@, index) is Some && chunk.model() == self@[find_chunk(
                    self@,
                    index,
                ).unwrap()],
                None => find_chunk(self@, index) is None,
            },
    {
        let n = self.chunks.len();
        let mut k: usize = 0;
        while k < n
            invariant
                k <= n,
                n == self@.len(),
                forall|j: int| 0 <= j < k ==> (#[trigger] self@[j]).index != index,
            decreases n - k,
        {
            if self.chunks[k].index() == index {
                proof {
                    lemma_find_chunk_first(self@, index, k as int);
                }
                return Some(&self.chunks[k]);
            }
            k += 1;
        }
        proof {
            lemma_find_chunk_none(self@, index);
        }
        None
    }

    /// The neighbour of the chunk at `index` that lies `(bx, by, bz)` minus
    /// one chunk away on each axis, if the lattice has one there.
    fn neighbour(&self, index: GridIndex, bx: usize, by: usize, bz: usize) -> (r: Option<
        &VoxelChunk,
    >)
        requires
            self.wf(),
            bx < 3,
            by < 3,
            bz < 3,
        ensures
            r matches Some(c) ==> c.wf(),
            ({
                let nx = index.x + bx - 1;
                let ny = index.y + by - 1;
                let nz = index.z + bz - 1;
                if 0 <= nx <= u32::MAX && 0 <= ny <= u32::MAX && 0 <= nz <= u32::MAX {
                    let found = find_chunk(
                        self@,
                        GridIndex { x: nx as u32, y: ny as u32, z: nz as u32 },
                    );
                    match r {
                        Some(c) => found is Some && c@ == self@[found.unwrap()].voxels,
                        None => found is None,
                    }
                } else {
                    r is None
                }
            }),
    {
        let nx: i64 = index.x as i64 + bx as i64 - 1;
        let ny: i64 = index.y as i64 + by as i64 - 1;
        let nz: i64 = index.z as i64 + bz as i64 - 1;
        if nx < 0 || ny < 0 || nz < 0 || nx > u32::MAX as i64 || ny > u32::MAX as i64 || nz
            > u32::MAX as i64 {
            return None;
        }
        self.get_chunk_by_index(GridIndex::new(nx as u32, ny as u32, nz as u32))
    }

    /// The chunk at `index` together with its 26 neighbours as one cube of
    /// side 96, missing neighbours empty.
    pub fn get_chunk_and_surrounding_data(&self, index: GridIndex) -> (r: Vec<bool>)
        requires
            self.wf(),
        ensures
            r@ == surrounding_block(self@, index),
    {
        let mut result: Vec<bool> = vec![false; BLOCK_DATA];
        let mut z: usize = 0;
        while z < 3
            invariant
                z <= 3,
                self.wf(),
                result@.len() == BLOCK_DATA,
                forall|p: int|
                    0 <= p < BLOCK_DATA && sub_block_number(p) < 9 * z ==> #[trigger] result@[p]
                        == surrounding_block(self@, index)[p],
            decreases 3 - z,
        {
            let mut y: usize = 0;
            while y < 3
                invariant
                    z < 3,
                    y <= 3,
                    self.wf(),
                    result@.len() == BLOCK_DATA,
                    forall|p: int|
                        0 <= p < BLOCK_DATA && sub_block_number(p) < 3 * y + 9 * z
                            ==> #[trigger] result@[p] == surrounding_block(self@, index)[p],
                decreases 3 - y,
            {
                let mut x: usize = 0;
                while x < 3
                    invariant
                        z < 3,
                        y < 3,
                        x <= 3,
                        self.wf(),
                        result@.len() == BLOCK_DATA,
                        forall|p: int|
                            0 <= p < BLOCK_DATA && sub_block_number(p) < x + 3 * y + 9 * z
                                ==> #[trigger] result@[p] == surrounding_block(self@, index)[p],
                    decreases 3 - x,
                {
                    let chunk = self.neighbour(index, x, y, z);
                    let ghost earlier = result@;
                    fill_sub_block(&mut result, chunk, x, y, z);
                    proof {
                        assert forall|p: int|
                            0 <= p < BLOCK_DATA && sub_block_number(p) < x + 1 + 3 * y + 9
                                * z implies #[trigger] result@[p] == surrounding_block(
                            self@,
                            index,
                        )[p] by {
                            lemma_block_offset(p);
                            if in_sub_block(p, x as int, y as int, z as int) {
                                lemma_sub_block_sample(
                                    self@,
                                    index,
                                    p,
                                    x as int,
                                    y as int,
                                    z as int,
                                );
                            } else {
                                lemma_sub_block_sample(
                                    self@,
                                    index,
                                    p,
                                    block_x(p) / 32,
                                    block_y(p) / 32,
                                    block_z(p) / 32,
                                );
                                assert(result@[p] == earlier[p]);
                            }
                        }
                    }
                    x += 1;
                }
                y += 1;
            }
            z += 1;
        }
        proof {
            assert forall|p: int| 0 <= p < BLOCK_DATA implies result@[p] == surrounding_block(
                self@,
                index,
            )[p] by {
                lemma_block_offset(p);
                lemma_sub_block_sample(
                    self@,
                    index,
                    p,
                    block_x(p) / 32,
                    block_y(p) / 32,
                    block_z(p) / 32,
                );
            }
            assert(result@ =~= surrounding_block(self@, index));
        }
        result
    }

    /// The chunk at `index` padded by one voxel on every side from its
    /// neighbours, as one cube of side 34, missing neighbours empty.
    pub fn get_chunk_surrounded(&self, index: GridIndex) -> (r: Vec<bool>)
        requires
            self.wf(),
        ensures
            r@ == surrounded(self@, index),
    {
        let data = self.get_chunk_and_surrounding_data(index);
        let mut result: Vec<bool> = Vec::new();
        let mut p: usize = 0;
        while p < BUFFER_LEN
            invariant
                p <= BUFFER_LEN,
                data@ == surrounding_block(self@, index),
                result@.len() == p,
                forall|q: int| 0 <= q < p ==> result@[q] == surrounded(self@, index)[q],
            decreases BUFFER_LEN - p,
        {
            let x: usize = p % 34;
            let y: usize = (p / 34) % 34;
            let z: usize = p / 1156;
            let read_pos: usize = (31 + x) + (31 + y) * 96 + (31 + z) * 9216;
            proof {
                lemma_block_coordinates(31 + x, 31 + y, 31 + z);
            }
            result.push(data[read_pos]);
            p += 1;
        }
        proof {
            assert(result@ =~= surrounded(self@, index));
        }
        result
    }

    /// The chunk created `id`-th, counting from zero.
    pub fn get_chunk(&self, id: usize) -> (r: &VoxelChunk)
        requires
            id < self@.len(),
        ensures
            r.model() == self@[id as int],
    {
        &self.chunks[id]
    }
}

} // verus!
