use dig::chunks_manager::{ChunksManager, DigAction};
use dig::grid::{GridIndex, ScenePos, VoxelPos, WorldPos, BLOCK_DATA, BUFFER_LEN, CHUNK_DATA};

fn world(x: u32, y: u32, z: u32) -> ChunksManager {
    let mut manager = ChunksManager::new();
    manager.create_chunks(GridIndex::new(x, y, z), 8000);
    // New chunks count as changed; start the tests from a clean slate.
    manager.take_changed();
    manager
}

/// Digs and tells which chunks the edit marked.
fn dig(manager: &mut ChunksManager, pos: WorldPos, radius: i32) -> Vec<usize> {
    manager.dig_sphere(pos, radius);
    manager.take_changed()
}

fn solid_count(cells: &Vec<bool>) -> usize {
    cells.iter().filter(|v| **v).count()
}

#[test]
fn new_world_is_empty() {
    let manager = ChunksManager::new();
    assert_eq!(manager.chunk_count(), 0);
    assert_eq!(manager.get_amount(), GridIndex::new(0, 0, 0));
    assert!(!manager.has_chunks_info());
    assert!(manager.dig_history().is_empty());
    assert!(manager.changed_marks().is_empty());
    assert!(manager.get_chunk_by_index(GridIndex::new(0, 0, 0)).is_none());
}

#[test]
fn create_chunks_spawns_the_lattice_in_order() {
    let mut manager = ChunksManager::new();
    let placed = manager.create_chunks(GridIndex::new(2, 3, 4), 8000);
    assert_eq!(manager.chunk_count(), 24);
    assert_eq!(placed.len(), 24);
    assert_eq!(manager.get_amount(), GridIndex::new(2, 3, 4));
    assert!(manager.has_chunks_info());
    // x outermost, z innermost.
    assert_eq!(manager.get_chunk(0).index(), GridIndex::new(0, 0, 0));
    assert_eq!(manager.get_chunk(1).index(), GridIndex::new(0, 0, 1));
    assert_eq!(manager.get_chunk(4).index(), GridIndex::new(0, 1, 0));
    assert_eq!(manager.get_chunk(12).index(), GridIndex::new(1, 0, 0));
    assert_eq!(manager.get_chunk(23).index(), GridIndex::new(1, 2, 3));
    assert_eq!(placed[23], ScenePos { x: 8000, y: 16000, z: 24000 });
    assert_eq!(placed[0], ScenePos { x: 0, y: 0, z: 0 });
    for id in 0..24 {
        assert_eq!(solid_count(manager.get_chunk(id).raw()), CHUNK_DATA);
    }
    // Every new chunk counts as changed, once.
    assert_eq!(manager.changed_marks(), &vec![true; 24]);
    assert_eq!(manager.take_changed(), (0..24).collect::<Vec<usize>>());
    assert_eq!(manager.changed_marks(), &vec![false; 24]);
    assert!(manager.take_changed().is_empty());
}

#[test]
fn marks_add_up_until_they_are_taken() {
    let mut manager = world(2, 1, 2);
    manager.dig_sphere(WorldPos { x: 4000, y: -4000, z: 4000 }, 500);
    assert_eq!(manager.changed_marks(), &vec![false, false, false, true]);
    manager.build_sphere(WorldPos { x: -4000, y: -4000, z: -4000 }, 500);
    manager.build_sphere(WorldPos { x: -4000, y: -4000, z: -4000 }, 500);
    assert_eq!(manager.changed_marks(), &vec![true, false, false, true]);
    assert_eq!(manager.take_changed(), vec![0, 3]);
    assert_eq!(manager.changed_marks(), &vec![false; 4]);
    // A second lattice keeps the marks of the first.
    manager.dig_sphere(WorldPos { x: -4000, y: -4000, z: 4000 }, 500);
    manager.create_chunks(GridIndex::new(1, 1, 1), 8000);
    assert_eq!(manager.changed_marks(), &vec![false, true, false, false, true]);
}

#[test]
fn chunk_translation_scales_the_index() {
    let at = dig::chunks_manager::chunk_translation(GridIndex::new(1, 2, 3), -250);
    assert_eq!(at, ScenePos { x: -250, y: -500, z: -750 });
    let far = dig::chunks_manager::chunk_translation(GridIndex::new(u32::MAX, 0, 1), i32::MAX);
    assert_eq!(far.x, u32::MAX as i64 * i32::MAX as i64);
    assert_eq!(far.z, i32::MAX as i64);
}

#[test]
fn lookup_by_index_finds_the_first_chunk_there() {
    let mut manager = world(2, 1, 1);
    assert_eq!(
        manager.get_chunk_by_index(GridIndex::new(1, 0, 0)).unwrap().index(),
        GridIndex::new(1, 0, 0)
    );
    assert!(manager.get_chunk_by_index(GridIndex::new(2, 0, 0)).is_none());
    assert!(manager.get_chunk_by_index(GridIndex::new(0, 1, 0)).is_none());
    // A second lattice adds chunks at the same indices; the older ones win.
    manager.dig_sphere(WorldPos { x: 0, y: 0, z: 0 }, 1000);
    manager.create_chunks(GridIndex::new(2, 1, 1), 8000);
    assert_eq!(manager.chunk_count(), 4);
    let first = manager.get_chunk_by_index(GridIndex::new(0, 0, 0)).unwrap();
    assert!(solid_count(first.raw()) < CHUNK_DATA);
    assert_eq!(solid_count(manager.get_chunk(2).raw()), CHUNK_DATA);
}

#[test]
fn world_positions_map_to_voxel_space() {
    // Four voxels to the unit; the origin lies half the lattice's width from
    // its first voxel in x and z, and the lattice's whole height in y.
    let narrow = world(2, 1, 1);
    assert_eq!(
        narrow.world_pos_to_voxel_pos(WorldPos { x: 0, y: 0, z: 0 }),
        VoxelPos { x: 32_000, y: 32_000, z: 16_000 }
    );
    let manager = world(2, 1, 3);
    assert_eq!(
        manager.world_pos_to_voxel_pos(WorldPos { x: 0, y: 0, z: 0 }),
        VoxelPos { x: 32_000, y: 32_000, z: 48_000 }
    );
    assert_eq!(
        manager.world_pos_to_voxel_pos(WorldPos { x: 125, y: -250, z: 1000 }),
        VoxelPos { x: 32_500, y: 31_000, z: 52_000 }
    );
    let tall = world(1, 3, 1);
    assert_eq!(
        tall.world_pos_to_voxel_pos(WorldPos { x: -4000, y: -24_000, z: 4000 }),
        VoxelPos { x: 0, y: 0, z: 32_000 }
    );
    assert_eq!(ChunksManager::world_length_to_voxel_length(500), 2000);
    assert_eq!(ChunksManager::world_length_to_voxel_length(-250), -1000);
    let empty = ChunksManager::new();
    assert_eq!(
        empty.world_pos_to_voxel_pos(WorldPos { x: 0, y: 0, z: 0 }),
        VoxelPos { x: 0, y: 0, z: 0 }
    );
    assert_eq!(
        empty.world_pos_to_voxel_pos(WorldPos { x: -1, y: 2, z: 3 }),
        VoxelPos { x: -4, y: 8, z: 12 }
    );
    assert_eq!(
        manager.world_pos_to_voxel_pos(WorldPos { x: i32::MAX, y: i32::MIN, z: 0 }),
        VoxelPos {
            x: 32_000 + 4 * i32::MAX as i64,
            y: 32_000 + 4 * i32::MIN as i64,
            z: 48_000
        }
    );
}

fn cell(manager: &ChunksManager, id: usize, x: usize, y: usize, z: usize) -> bool {
    manager.get_chunk(id).raw()[x + y * 32 + z * 1024]
}

#[test]
fn sphere_across_a_chunk_boundary_leaves_no_seam() {
    let mut manager = world(2, 1, 1);
    // Centre at voxel (31.5, 31, 15), radius two voxels: the sphere lies
    // half in the chunk at x = 0 and half in the chunk at x = 1.
    let touched = dig(&mut manager, WorldPos { x: -125, y: -250, z: -250 }, 500);
    assert_eq!(touched, vec![0, 1]);
    assert_eq!(solid_count(manager.get_chunk(0).raw()), CHUNK_DATA - 10);
    assert_eq!(solid_count(manager.get_chunk(1).raw()), CHUNK_DATA - 10);
    // Every voxel of either chunk is empty exactly if its centre, in the
    // frame of the whole lattice, lies inside the sphere.
    for id in 0..2usize {
        for z in 0..32usize {
            for y in 0..32usize {
                for x in 0..32usize {
                    let gx = (id * 32 + x) as i64 * 1000 - 31_500;
                    let gy = y as i64 * 1000 - 31_000;
                    let gz = z as i64 * 1000 - 15_000;
                    let inside = gx * gx + gy * gy + gz * gz < 2000 * 2000;
                    assert_eq!(cell(&manager, id, x, y, z), !inside);
                }
            }
        }
    }
    // The two halves mirror each other across the boundary.
    assert!(!cell(&manager, 0, 31, 31, 15));
    assert!(!cell(&manager, 1, 0, 31, 15));
    assert!(!cell(&manager, 0, 30, 31, 15));
    assert!(!cell(&manager, 1, 1, 31, 15));
    assert!(cell(&manager, 0, 29, 31, 15));
    assert!(cell(&manager, 1, 2, 31, 15));
}

#[test]
fn build_fills_an_emptied_world_inside_the_sphere_only() {
    let mut manager = world(1, 1, 1);
    // Empty the whole chunk, then build a small sphere into it.
    manager.dig_sphere(WorldPos { x: 0, y: 0, z: 0 }, 100_000);
    assert_eq!(solid_count(manager.get_chunk(0).raw()), 0);
    // Centre at voxel (16, 32, 16) + (4, -8, 0) = (20, 24, 16), radius 1.5.
    manager.take_changed();
    manager.build_sphere(WorldPos { x: 1000, y: -2000, z: 0 }, 375);
    assert_eq!(manager.take_changed(), vec![0]);
    // Offsets with squared length below 2.25: the centre, 6 at distance 1,
    // 12 at distance sqrt 2.
    assert_eq!(solid_count(manager.get_chunk(0).raw()), 19);
    assert!(cell(&manager, 0, 20, 24, 16));
    assert!(cell(&manager, 0, 21, 25, 16));
    assert!(!cell(&manager, 0, 21, 25, 17));
    assert!(!cell(&manager, 0, 22, 24, 16));
}

#[test]
fn edits_out_of_reach_touch_nothing() {
    let mut manager = world(2, 1, 1);
    let touched = dig(&mut manager, WorldPos { x: 100_000, y: 0, z: 0 }, 500);
    assert!(touched.is_empty());
    assert_eq!(solid_count(manager.get_chunk(0).raw()), CHUNK_DATA);
    assert_eq!(solid_count(manager.get_chunk(1).raw()), CHUNK_DATA);
    // Only the second chunk is within reach here.
    let touched = dig(&mut manager, WorldPos { x: 4000, y: -4000, z: 0 }, 500);
    assert_eq!(touched, vec![1]);
    assert_eq!(solid_count(manager.get_chunk(0).raw()), CHUNK_DATA);
    assert!(solid_count(manager.get_chunk(1).raw()) < CHUNK_DATA);
}

#[test]
fn a_box_that_touches_a_chunk_reaches_it() {
    let mut manager = world(2, 1, 1);
    // Centre at voxel x = 34, radius 3: the box ends at x = 31, the last
    // voxel centre of the first chunk, but the sphere holds none of it.
    let touched = dig(&mut manager, WorldPos { x: 500, y: 0, z: 0 }, 750);
    assert_eq!(touched, vec![0, 1]);
    assert_eq!(solid_count(manager.get_chunk(0).raw()), CHUNK_DATA);
    assert!(solid_count(manager.get_chunk(1).raw()) < CHUNK_DATA);
    let touched = dig(&mut manager, WorldPos { x: 501, y: 0, z: 0 }, 750);
    assert_eq!(touched, vec![1]);
}

#[test]
fn a_negative_radius_edits_by_its_square_where_its_box_reaches() {
    let mut manager = world(2, 1, 1);
    // The box of a negative radius is turned inside out: it reaches a chunk
    // only if the chunk holds the whole box.
    let touched = dig(&mut manager, WorldPos { x: 125, y: 0, z: 0 }, -500);
    assert!(touched.is_empty());
    assert_eq!(solid_count(manager.get_chunk(0).raw()), CHUNK_DATA);
    let touched = dig(&mut manager, WorldPos { x: -2000, y: -2000, z: 0 }, -500);
    assert_eq!(touched, vec![0]);
    // Centre at voxel (24, 24, 16), squared radius 4: 27 voxels inside.
    assert_eq!(solid_count(manager.get_chunk(0).raw()), CHUNK_DATA - 27);
}

#[test]
fn history_records_every_edit_in_order() {
    let mut manager = world(1, 1, 1);
    manager.dig_sphere(WorldPos { x: 0, y: 0, z: 0 }, 500);
    manager.build_sphere(WorldPos { x: 10, y: 20, z: 30 }, 250);
    manager.set_sphere(WorldPos { x: -1, y: -2, z: -3 }, 4, false);
    manager.apply(DigAction { pos: WorldPos { x: 7, y: 8, z: 9 }, radius: 10, state: true });
    assert_eq!(
        manager.dig_history(),
        vec![
            DigAction { pos: WorldPos { x: 0, y: 0, z: 0 }, radius: 500, state: false },
            DigAction { pos: WorldPos { x: 10, y: 20, z: 30 }, radius: 250, state: true },
            DigAction { pos: WorldPos { x: -1, y: -2, z: -3 }, radius: 4, state: false },
            DigAction { pos: WorldPos { x: 7, y: 8, z: 9 }, radius: 10, state: true },
        ]
    );
}

#[test]
fn replaying_the_history_rebuilds_the_world() {
    let mut host = world(2, 1, 2);
    host.dig_sphere(WorldPos { x: 125, y: 0, z: 0 }, 500);
    host.dig_sphere(WorldPos { x: -3000, y: -1000, z: 2000 }, 1250);
    host.build_sphere(WorldPos { x: -3000, y: -1000, z: 2000 }, 500);
    host.dig_sphere(WorldPos { x: 0, y: -7000, z: -7000 }, 2000);
    let history = host.dig_history();
    assert_eq!(history.len(), 4);

    let mut joiner = world(2, 1, 2);
    joiner.replay(&history);
    let dirty = joiner.changed_marks().clone();
    assert_eq!(joiner.chunk_count(), host.chunk_count());
    for id in 0..host.chunk_count() {
        assert_eq!(joiner.get_chunk(id).index(), host.get_chunk(id).index());
        assert_eq!(joiner.get_chunk(id).raw(), host.get_chunk(id).raw());
    }
    assert_eq!(joiner.dig_history(), history);
    // A chunk is dirty exactly if some edit reached it.
    assert_eq!(dirty.len(), 4);
    for id in 0..4 {
        let changed = solid_count(host.get_chunk(id).raw()) < CHUNK_DATA;
        assert!(dirty[id] || !changed);
    }
    assert!(dirty[0] && dirty[2]);
}

#[test]
fn replaying_nothing_changes_nothing() {
    let mut manager = world(1, 1, 1);
    manager.replay(&Vec::new());
    assert_eq!(manager.changed_marks(), &vec![false]);
    assert_eq!(solid_count(manager.get_chunk(0).raw()), CHUNK_DATA);
    assert!(manager.dig_history().is_empty());
}

#[test]
fn replay_in_two_parts_equals_replay_at_once() {
    let actions = vec![
        DigAction { pos: WorldPos { x: 0, y: -1000, z: 0 }, radius: 700, state: false },
        DigAction { pos: WorldPos { x: 300, y: -1200, z: 100 }, radius: 400, state: true },
        DigAction { pos: WorldPos { x: -500, y: -3000, z: 900 }, radius: 1100, state: false },
    ];
    let mut at_once = world(1, 1, 1);
    at_once.replay(&actions);
    let mut in_parts = world(1, 1, 1);
    in_parts.replay(&actions[..1].to_vec());
    in_parts.replay(&actions[1..].to_vec());
    assert_eq!(at_once.get_chunk(0).raw(), in_parts.get_chunk(0).raw());
    assert_eq!(at_once.dig_history(), in_parts.dig_history());
}

#[test]
fn surrounding_block_of_a_lone_chunk() {
    let manager = world(1, 1, 1);
    let block = manager.get_chunk_and_surrounding_data(GridIndex::new(0, 0, 0));
    assert_eq!(block.len(), BLOCK_DATA);
    assert_eq!(solid_count(&block), CHUNK_DATA);
    let at = |x: usize, y: usize, z: usize| block[x + y * 96 + z * 9216];
    assert!(at(32, 32, 32));
    assert!(at(63, 63, 63));
    assert!(!at(31, 32, 32));
    assert!(!at(64, 63, 63));
    assert!(!at(32, 31, 32));
    assert!(!at(32, 32, 64));
    assert_eq!(32 + 32 * 96 + 32 * 9216, 298_016);
    assert!(block[298_016]);
}

#[test]
fn surrounding_block_places_each_neighbour() {
    let mut manager = world(3, 3, 3);
    // Mark one voxel in the neighbour at (2, 1, 0): local (3, 4, 5).
    // Its world position: voxel (67, 36, 5) -> world ((67 - 48) / 4, (36 - 96) / 4, (5 - 48) / 4).
    manager.dig_sphere(WorldPos { x: 4750, y: -15_000, z: -10_750 }, 100);
    let marked = manager.get_chunk_by_index(GridIndex::new(2, 1, 0)).unwrap();
    assert_eq!(solid_count(marked.raw()), CHUNK_DATA - 1);
    assert!(!marked.raw()[3 + 4 * 32 + 5 * 1024]);
    let block = manager.get_chunk_and_surrounding_data(GridIndex::new(1, 1, 1));
    assert_eq!(solid_count(&block), BLOCK_DATA - 1);
    // The neighbour sits at (2, 1, 0) of the block.
    assert!(!block[(64 + 3) + (32 + 4) * 96 + 5 * 9216]);
}

#[test]
fn padded_chunk_of_a_lone_chunk_has_an_empty_halo() {
    let manager = world(1, 1, 1);
    let padded = manager.get_chunk_surrounded(GridIndex::new(0, 0, 0));
    assert_eq!(padded.len(), BUFFER_LEN);
    assert_eq!(solid_count(&padded), CHUNK_DATA);
    let at = |x: usize, y: usize, z: usize| padded[x + y * 34 + z * 1156];
    assert!(!at(0, 0, 0));
    assert!(at(1, 1, 1));
    assert!(at(32, 32, 32));
    assert!(!at(33, 32, 32));
    assert!(!at(16, 0, 16));
    assert!(!at(16, 16, 33));
    assert!(padded[1191]);
}

#[test]
fn padded_chunk_inside_a_full_lattice_is_all_solid() {
    let manager = world(3, 3, 3);
    let padded = manager.get_chunk_surrounded(GridIndex::new(1, 1, 1));
    assert_eq!(padded.len(), BUFFER_LEN);
    assert!(padded.iter().all(|v| *v));
}

#[test]
fn padded_chunk_takes_its_halo_from_the_neighbours() {
    let mut manager = world(2, 1, 1);
    let padded = manager.get_chunk_surrounded(GridIndex::new(0, 0, 0));
    // The chunk itself and one face of 32 by 32 from the neighbour at x = 1.
    assert_eq!(solid_count(&padded), CHUNK_DATA + 1024);
    let padded = manager.get_chunk_surrounded(GridIndex::new(1, 0, 0));
    assert_eq!(solid_count(&padded), CHUNK_DATA + 1024);
    assert!(padded[0 + 1 * 34 + 1 * 1156]);
    assert!(!padded[33 + 1 * 34 + 1 * 1156]);

    // Centre at voxel (31.5, 31, 15), radius two voxels.
    manager.dig_sphere(WorldPos { x: -125, y: -250, z: -250 }, 500);
    let left = manager.get_chunk_surrounded(GridIndex::new(0, 0, 0));
    let right = manager.get_chunk_surrounded(GridIndex::new(1, 0, 0));
    let at = |cells: &Vec<bool>, x: usize, y: usize, z: usize| cells[x + y * 34 + z * 1156];
    // Global voxel (32, 31, 15) was dug: it is the halo of the left chunk
    // and the first layer of the right one.
    assert!(!at(&left, 33, 32, 16));
    assert!(!at(&right, 1, 32, 16));
    // Global voxel (31, 31, 15) was dug: last layer left, halo right.
    assert!(!at(&left, 32, 32, 16));
    assert!(!at(&right, 0, 32, 16));
    // Global voxel (29, 31, 15) was not.
    assert!(at(&left, 30, 32, 16));
    // Own cells dug: 10, halo cells dug: the 6 of the neighbour's first layer.
    assert_eq!(solid_count(&left), CHUNK_DATA + 1024 - 10 - 6);
    assert_eq!(solid_count(&right), CHUNK_DATA + 1024 - 10 - 6);
}

#[test]
fn padded_chunk_of_a_missing_chunk_holds_only_neighbours() {
    let manager = world(1, 1, 1);
    let padded = manager.get_chunk_surrounded(GridIndex::new(1, 0, 0));
    // Only the face that borders the chunk at x = 0.
    assert_eq!(solid_count(&padded), 1024);
    assert!(padded[0 + 1 * 34 + 1 * 1156]);
    let far = manager.get_chunk_surrounded(GridIndex::new(5, 5, 5));
    assert_eq!(solid_count(&far), 0);
    let corner = manager.get_chunk_surrounded(GridIndex::new(u32::MAX, u32::MAX, u32::MAX));
    assert_eq!(solid_count(&corner), 0);
}
