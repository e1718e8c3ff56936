use dig::chunks_manager::ChunksManager;
use dig::grid::{GridIndex, ScenePos, WorldPos, BUFFER_LEN, CHUNK_DATA};
use dig::generation::{make_empty_triangles_buffer, Vertex, VertexRecord};
use dig::terrain::{
    handle_voxel_changes, next_terrain_data, on_readback, ChunkMesh, ChunksToGenerateQueue,
    ChunksToGenerateQueueElement, MeshPlacement, MeshUpdate, TerrainMeshes,
};

fn request(x: u32, fill: bool) -> ChunksToGenerateQueueElement {
    ChunksToGenerateQueueElement { index: GridIndex::new(x, 0, 0), input_data: vec![fill; 8] }
}

#[test]
fn queue_starts_idle_and_empty() {
    let mut queue = ChunksToGenerateQueue::new();
    assert_eq!(queue.len(), 0);
    assert_eq!(queue.in_flight(), None);
    assert!(queue.next_request().is_none());
    assert_eq!(queue.readback(12), None);
    assert_eq!(queue.in_flight(), None);
}

#[test]
fn queue_serves_oldest_first() {
    let mut queue = ChunksToGenerateQueue::new();
    queue.push_back(request(1, true));
    queue.push_back(request(2, false));
    queue.push_back(request(1, false));
    assert_eq!(queue.len(), 3);
    let first = queue.next_request().unwrap();
    assert_eq!(first.index, GridIndex::new(1, 0, 0));
    assert_eq!(first.input_data, vec![true; 8]);
    assert_eq!(queue.readback(3), Some(GridIndex::new(1, 0, 0)));
    let second = queue.next_request().unwrap();
    assert_eq!(second.index, GridIndex::new(2, 0, 0));
    assert_eq!(queue.readback(3), Some(GridIndex::new(2, 0, 0)));
    // The same chunk asked twice: it is served twice, the requests are
    // not merged.
    let third = queue.next_request().unwrap();
    assert_eq!(third.index, GridIndex::new(1, 0, 0));
    assert_eq!(third.input_data, vec![false; 8]);
    assert_eq!(queue.len(), 0);
}

#[test]
fn only_one_mesh_is_in_flight() {
    let mut queue = ChunksToGenerateQueue::new();
    queue.push_back(request(7, true));
    queue.push_back(request(8, true));
    assert!(queue.next_request().is_some());
    assert_eq!(queue.in_flight(), Some(GridIndex::new(7, 0, 0)));
    // While the mesh of chunk 7 is being made, chunk 8 waits.
    assert!(queue.next_request().is_none());
    assert!(queue.next_request().is_none());
    assert_eq!(queue.len(), 1);
    queue.push_back(request(9, true));
    assert!(queue.next_request().is_none());
    assert_eq!(queue.len(), 2);
    // A readback without triangles does not finish the mesh.
    assert_eq!(queue.readback(0), None);
    assert_eq!(queue.in_flight(), Some(GridIndex::new(7, 0, 0)));
    assert!(queue.next_request().is_none());
    // One with triangles does.
    assert_eq!(queue.readback(36), Some(GridIndex::new(7, 0, 0)));
    assert_eq!(queue.in_flight(), None);
    assert_eq!(queue.next_request().unwrap().index, GridIndex::new(8, 0, 0));
    assert_eq!(queue.in_flight(), Some(GridIndex::new(8, 0, 0)));
    assert_eq!(queue.len(), 1);
}

#[test]
fn terrain_data_is_the_packed_head_of_the_queue() {
    let mut queue = ChunksToGenerateQueue::new();
    queue.push_back(ChunksToGenerateQueueElement {
        index: GridIndex::new(4, 5, 6),
        input_data: vec![true, false, true],
    });
    queue.push_back(request(1, true));
    let data = next_terrain_data(&mut queue).unwrap();
    assert_eq!(data.0, vec![1u32, 0, 1]);
    assert_eq!(data.1, GridIndex::new(4, 5, 6));
    assert!(next_terrain_data(&mut queue).is_none());
    assert_eq!(queue.len(), 1);
}

#[test]
fn changed_chunks_are_queued_with_their_padded_data() {
    let mut manager = ChunksManager::new();
    manager.create_chunks(GridIndex::new(2, 1, 1), 8000);
    // Centre at voxel (31.5, 31, 15), radius two voxels.
    manager.dig_sphere(WorldPos { x: -125, y: -250, z: -250 }, 500);
    let mut queue = ChunksToGenerateQueue::new();
    handle_voxel_changes(&mut manager, &mut queue);
    assert_eq!(queue.len(), 2);
    assert_eq!(manager.changed_marks(), &vec![false, false]);
    let first = queue.next_request().unwrap();
    assert_eq!(first.index, GridIndex::new(0, 0, 0));
    assert_eq!(first.input_data.len(), BUFFER_LEN);
    assert_eq!(first.input_data, manager.get_chunk_surrounded(GridIndex::new(0, 0, 0)));
    assert_eq!(first.input_data.iter().filter(|c| **c).count(), CHUNK_DATA + 1024 - 16);
    queue.readback(3);
    let second = queue.next_request().unwrap();
    assert_eq!(second.index, GridIndex::new(1, 0, 0));
    assert_eq!(second.input_data, manager.get_chunk_surrounded(GridIndex::new(1, 0, 0)));
    // Nothing changed, nothing queued.
    handle_voxel_changes(&mut manager, &mut queue);
    assert_eq!(queue.len(), 0);
    // Only what changed is queued, with the world as it is by then.
    manager.dig_sphere(WorldPos { x: 4000, y: -4000, z: 0 }, 500);
    manager.build_sphere(WorldPos { x: 4000, y: -4000, z: 0 }, 500);
    handle_voxel_changes(&mut manager, &mut queue);
    assert_eq!(queue.len(), 1);
    queue.readback(3);
    let third = queue.next_request().unwrap();
    assert_eq!(third.index, GridIndex::new(1, 0, 0));
    assert_eq!(third.input_data, second.input_data);
}

#[test]
fn mesh_anchor_centres_the_lattice() {
    assert_eq!(
        TerrainMeshes::anchor(GridIndex::new(1, 0, 2), GridIndex::new(2, 1, 3)),
        ScenePos { x: 0, y: -8000, z: 4000 }
    );
    assert_eq!(
        TerrainMeshes::anchor(GridIndex::new(0, 0, 0), GridIndex::new(1, 1, 1)),
        ScenePos { x: -4000, y: -8000, z: -4000 }
    );
    assert_eq!(
        TerrainMeshes::anchor(GridIndex::new(0, 0, 0), GridIndex::new(0, 0, 0)),
        ScenePos { x: 0, y: 0, z: 0 }
    );
}

#[test]
fn first_mesh_spawns_and_later_meshes_replace() {
    let amount = GridIndex::new(2, 1, 1);
    let mut meshes = TerrainMeshes::new();
    assert_eq!(
        meshes.update_mesh(GridIndex::new(1, 0, 0), amount),
        MeshUpdate {
            placement: MeshPlacement::Spawn { slot: 0, anchor: ScenePos { x: 0, y: -8000, z: -4000 } },
            finished_generating: true,
        }
    );
    assert_eq!(
        meshes.update_mesh(GridIndex::new(0, 0, 0), amount),
        MeshUpdate {
            placement: MeshPlacement::Spawn { slot: 1, anchor: ScenePos { x: -8000, y: -8000, z: -4000 } },
            finished_generating: false,
        }
    );
    assert_eq!(
        meshes.update_mesh(GridIndex::new(1, 0, 0), amount),
        MeshUpdate { placement: MeshPlacement::Replace { slot: 0 }, finished_generating: false }
    );
    assert_eq!(
        meshes.update_mesh(GridIndex::new(0, 0, 0), amount),
        MeshUpdate { placement: MeshPlacement::Replace { slot: 1 }, finished_generating: false }
    );
    assert_eq!(ChunkMesh { index: amount }.index, amount);
}

#[test]
fn a_readback_with_vertices_finishes_the_mesh_in_flight() {
    let mut queue = ChunksToGenerateQueue::new();
    let mut buffer = make_empty_triangles_buffer();
    // No mesh is being made: a readback is of no one's concern.
    buffer[5] = VertexRecord { pos: Vertex { x: 500, y: 0, z: 0 }, w: 0 };
    assert!(on_readback(&mut queue, &buffer).is_none());
    queue.push_back(request(3, true));
    queue.push_back(request(4, true));
    assert!(queue.next_request().is_some());
    // An empty buffer: the mesh stays in flight.
    assert!(on_readback(&mut queue, &make_empty_triangles_buffer()).is_none());
    assert_eq!(queue.in_flight(), Some(GridIndex::new(3, 0, 0)));
    buffer[9] = VertexRecord { pos: Vertex { x: 0, y: 500, z: 0 }, w: 0 };
    buffer[7] = VertexRecord { pos: Vertex { x: 520, y: 10, z: 0 }, w: 0 };
    let generated = on_readback(&mut queue, &buffer).unwrap();
    assert_eq!(generated.index, GridIndex::new(3, 0, 0));
    assert_eq!(generated.mesh.indices, vec![0u32, 0, 1]);
    assert_eq!(
        generated.mesh.positions,
        vec![Vertex { x: 500, y: 0, z: 0 }, Vertex { x: 0, y: 500, z: 0 }]
    );
    assert_eq!(queue.in_flight(), None);
    assert_eq!(queue.next_request().unwrap().index, GridIndex::new(4, 0, 0));
}
