use dig::generation::{
    create_terrain_mesh, deduplicate_vertices, dispatch_size, filter_readback,
    make_empty_triangles_buffer, pack_density, readback_complete, update_resource,
    ChunkMeshGenerated, TerrainMesh, Vertex, VertexRecord, SENTINEL_W, WELD_EPSILON,
    WORKGROUPS_PER_AXIS,
};
use dig::grid::{GridIndex, BUFFER_LEN, MAX_VERTICES_PER_CUBE, TRI_BUFFER_LEN};

fn v(x: i32, y: i32, z: i32) -> Vertex {
    Vertex { x, y, z }
}

#[test]
fn spatial_hash_rounds_to_the_nearest_cell() {
    assert_eq!(v(0, 0, 0).spatial_hash(100), (0, 0, 0));
    assert_eq!(v(49, 50, 51).spatial_hash(100), (0, 1, 1));
    assert_eq!(v(149, 150, 250).spatial_hash(100), (1, 2, 3));
    // Halves round away from zero.
    assert_eq!(v(-49, -50, -51).spatial_hash(100), (0, -1, -1));
    assert_eq!(v(-149, -150, -151).spatial_hash(100), (-1, -2, -2));
    assert_eq!(v(1000, -1000, 34_000).spatial_hash(100), (10, -10, 340));
    assert_eq!(v(7, -7, 1).spatial_hash(3), (2, -2, 0));
    assert_eq!(v(i32::MAX, i32::MIN, 0).spatial_hash(1), (i32::MAX, i32::MIN, 0));
    assert_eq!(v(i32::MAX, i32::MIN, 5).spatial_hash(i32::MAX), (1, -1, 0));
}

#[test]
fn approx_eq_is_strict_in_every_coordinate() {
    assert!(v(0, 0, 0).approx_eq(&v(99, -99, 99), 100));
    assert!(!v(0, 0, 0).approx_eq(&v(100, 0, 0), 100));
    assert!(!v(0, 0, 0).approx_eq(&v(0, -100, 0), 100));
    assert!(!v(0, 0, 0).approx_eq(&v(0, 0, 100), 100));
    assert!(v(5, 5, 5).approx_eq(&v(5, 5, 5), 1));
    assert!(!v(5, 5, 5).approx_eq(&v(5, 5, 5), 0));
    assert!(!v(i32::MIN, 0, 0).approx_eq(&v(i32::MAX, 0, 0), i32::MAX));
}

#[test]
fn welding_merges_vertices_within_the_tolerance() {
    let input = vec![v(0, 0, 0), v(40, 0, 0), v(60, 0, 0), v(1000, 0, 0), v(0, 0, 0)];
    let (indices, uniques) = deduplicate_vertices(&input, 100);
    assert_eq!(indices, vec![0, 0, 0, 1, 0]);
    assert_eq!(uniques, vec![v(0, 0, 0), v(1000, 0, 0)]);
}

#[test]
fn welding_reaches_across_the_edges_of_the_hash_grid() {
    // 0.04 and 0.06 round to different cells and are 0.02 apart.
    let (indices, uniques) = deduplicate_vertices(&vec![v(40, 0, 0), v(60, 0, 0)], 100);
    assert_eq!(indices, vec![0, 0]);
    assert_eq!(uniques, vec![v(40, 0, 0)]);
    // The same across an edge and a corner, in every direction.
    let input = vec![
        v(49, 49, 49),
        v(51, 51, 51),
        v(-449, 51, 49),
        v(-451, 49, 51),
        v(149, -51, -149),
        v(151, -49, -151),
        v(100, -100, -100),
    ];
    let (indices, uniques) = deduplicate_vertices(&input, 100);
    assert_eq!(indices, vec![0, 0, 1, 1, 2, 2, 2]);
    assert_eq!(uniques, vec![v(49, 49, 49), v(-449, 51, 49), v(149, -51, -149)]);
    // A vertex two cells away is never within the tolerance.
    let (indices, _) = deduplicate_vertices(&vec![v(49, 0, 0), v(151, 0, 0)], 100);
    assert_eq!(indices, vec![0, 1]);
}

#[test]
fn welding_takes_the_first_unique_vertex_within_the_tolerance() {
    // 0.15 is within the tolerance of both 0.1 and 0.2: the older one wins.
    let input = vec![v(200, 0, 0), v(100, 0, 0), v(150, 0, 0), v(-20, 0, 0), v(60, 0, 0)];
    let (indices, uniques) = deduplicate_vertices(&input, 100);
    assert_eq!(indices, vec![0, 1, 0, 2, 1]);
    assert_eq!(uniques, vec![v(200, 0, 0), v(100, 0, 0), v(-20, 0, 0)]);
}

#[test]
fn welding_is_not_transitive() {
    // 0.09 and 0.15 are 0.06 apart, but only 0.09 is within 0.1 of 0.
    let (indices, uniques) = deduplicate_vertices(&vec![v(0, 0, 0), v(90, 0, 0), v(150, 0, 0)], 100);
    assert_eq!(indices, vec![0, 0, 1]);
    assert_eq!(uniques, vec![v(0, 0, 0), v(150, 0, 0)]);
    // -0.09 and 0.09 are 0.18 apart, but both are within 0.1 of 0.
    let (indices, uniques) = deduplicate_vertices(&vec![v(0, 0, 0), v(-90, 0, 0), v(90, 0, 0)], 100);
    assert_eq!(indices, vec![0, 0, 0]);
    assert_eq!(uniques, vec![v(0, 0, 0)]);
}

#[test]
fn no_two_welded_vertices_lie_within_the_tolerance() {
    let mut input = Vec::new();
    let mut seed: i64 = 12345;
    for _ in 0..400 {
        let mut coordinate = || {
            seed = (seed * 1103515245 + 12345) % 2147483648;
            ((seed / 65536) % 600) as i32 - 300
        };
        input.push(v(coordinate(), coordinate(), coordinate()));
    }
    let (indices, uniques) = deduplicate_vertices(&input, 100);
    assert_eq!(indices.len(), input.len());
    for (i, a) in uniques.iter().enumerate() {
        for b in &uniques[i + 1..] {
            assert!(!a.approx_eq(b, 100));
        }
    }
    for (i, vertex) in input.iter().enumerate() {
        // Every vertex goes to the first unique vertex within the tolerance.
        let first = uniques.iter().position(|u| u.approx_eq(vertex, 100)).unwrap();
        assert_eq!(indices[i], first);
    }
    assert!(uniques.len() < input.len());
}

#[test]
fn welding_works_at_the_ends_of_the_range() {
    let input = vec![
        v(i32::MAX, i32::MIN, 0),
        v(i32::MAX, i32::MIN, 0),
        v(i32::MIN, i32::MAX, 0),
        v(i32::MAX - 1, i32::MIN + 1, 1),
    ];
    let (indices, uniques) = deduplicate_vertices(&input, 1);
    assert_eq!(indices, vec![0, 0, 1, 2]);
    assert_eq!(uniques.len(), 3);
    let (indices, uniques) = deduplicate_vertices(&input, 2);
    assert_eq!(indices, vec![0, 0, 1, 0]);
    assert_eq!(uniques.len(), 2);
    let (indices, _) = deduplicate_vertices(&input, i32::MAX);
    assert_eq!(indices, vec![0, 0, 1, 0]);
}

#[test]
fn welding_keeps_the_first_vertex_of_each_cluster() {
    let input = vec![v(520, 480, 0), v(500, 500, 0), v(480, 520, 40), v(500, 500, 0)];
    let (indices, uniques) = deduplicate_vertices(&input, WELD_EPSILON);
    assert_eq!(indices, vec![0, 0, 0, 0]);
    assert_eq!(uniques, vec![v(520, 480, 0)]);
}

#[test]
fn welding_nothing_gives_nothing() {
    let (indices, uniques) = deduplicate_vertices(&Vec::new(), 100);
    assert!(indices.is_empty());
    assert!(uniques.is_empty());
}

#[test]
fn welding_a_triangle_soup_shares_corners() {
    // Two triangles that share an edge.
    let input = vec![
        v(0, 0, 0),
        v(1000, 0, 0),
        v(0, 1000, 0),
        v(1000, 0, 0),
        v(1000, 1000, 0),
        v(0, 1000, 0),
    ];
    let (indices, uniques) = deduplicate_vertices(&input, WELD_EPSILON);
    assert_eq!(indices, vec![0, 1, 2, 1, 3, 2]);
    assert_eq!(uniques, vec![v(0, 0, 0), v(1000, 0, 0), v(0, 1000, 0), v(1000, 1000, 0)]);
}

#[test]
fn welding_is_idempotent() {
    let input = vec![
        v(0, 0, 0),
        v(30, -20, 10),
        v(500, 500, 500),
        v(-500, 500, 540),
        v(510, 490, 520),
        v(-1000, 0, 0),
        v(-1040, 0, 0),
        v(-960, 30, -30),
    ];
    let (indices, uniques) = deduplicate_vertices(&input, 100);
    assert_eq!(indices, vec![0, 0, 1, 2, 1, 3, 3, 3]);
    let (again, same) = deduplicate_vertices(&uniques, 100);
    assert_eq!(same, uniques);
    assert_eq!(again, (0..uniques.len()).collect::<Vec<usize>>());
}

#[test]
fn welding_tolerance_is_strict() {
    // Less than epsilon apart: one vertex.
    let (indices, _) = deduplicate_vertices(&vec![v(-40, 0, 0), v(40, 0, 0)], 100);
    assert_eq!(indices, vec![0, 0]);
    // Epsilon apart or more: always two.
    let (indices, _) = deduplicate_vertices(&vec![v(-50, 0, 0), v(50, 0, 0)], 100);
    assert_eq!(indices, vec![0, 1]);
    let (indices, _) = deduplicate_vertices(&vec![v(0, 0, 0), v(0, 100, 0)], 100);
    assert_eq!(indices, vec![0, 1]);
    let (indices, _) = deduplicate_vertices(&vec![v(0, 0, 0), v(0, 0, -250)], 100);
    assert_eq!(indices, vec![0, 1]);
    // Less than epsilon apart on either side of a cell's edge: one as well.
    let (indices, uniques) = deduplicate_vertices(&vec![v(49, 0, 0), v(51, 0, 0)], 100);
    assert_eq!(indices, vec![0, 0]);
    assert_eq!(uniques, vec![v(49, 0, 0)]);
    // One short of epsilon apart in every coordinate: one; epsilon apart in
    // one of them: two.
    let (indices, _) = deduplicate_vertices(&vec![v(0, 0, 0), v(99, -99, 99)], 100);
    assert_eq!(indices, vec![0, 0]);
    let (indices, _) = deduplicate_vertices(&vec![v(0, 0, 0), v(99, -100, 99)], 100);
    assert_eq!(indices, vec![0, 1]);
}

#[test]
fn empty_triangle_buffer_holds_no_vertex() {
    let buffer = make_empty_triangles_buffer();
    assert_eq!(buffer.len(), TRI_BUFFER_LEN);
    assert_eq!(TRI_BUFFER_LEN, BUFFER_LEN * MAX_VERTICES_PER_CUBE);
    assert!(buffer.iter().all(|r| *r == VertexRecord { pos: v(0, 0, 0), w: -1000 }));
    assert_eq!(SENTINEL_W, -1000);
    assert!(filter_readback(&buffer).is_empty());
}

#[test]
fn readback_filter_drops_the_sentinel_only() {
    let records = vec![
        VertexRecord { pos: v(1, 2, 3), w: 0 },
        VertexRecord { pos: v(0, 0, 0), w: -1000 },
        VertexRecord { pos: v(0, 0, 0), w: 0 },
        VertexRecord { pos: v(4, 5, 6), w: 1000 },
        VertexRecord { pos: v(7, 8, 9), w: -1000 },
        VertexRecord { pos: v(7, 8, 9), w: -999 },
    ];
    assert_eq!(filter_readback(&records), vec![v(1, 2, 3), v(0, 0, 0), v(4, 5, 6), v(7, 8, 9)]);
}

#[test]
fn density_is_packed_one_word_per_cell() {
    assert_eq!(pack_density(&vec![true, false, false, true, true]), vec![1, 0, 0, 1, 1]);
    assert!(pack_density(&Vec::new()).is_empty());
    let full = pack_density(&vec![true; BUFFER_LEN]);
    assert_eq!(full.len(), BUFFER_LEN);
    assert!(full.iter().all(|w| *w == 1));
}

#[test]
fn terrain_mesh_keeps_positions_and_narrows_indices() {
    let mesh = create_terrain_mesh(&vec![0, 1, 2, 2, 1, 0], &vec![v(0, 0, 0), v(1, 0, 0), v(0, 1, 0)]);
    assert_eq!(mesh.indices, vec![0u32, 1, 2, 2, 1, 0]);
    assert_eq!(mesh.positions, vec![v(0, 0, 0), v(1, 0, 0), v(0, 1, 0)]);
    let event = ChunkMeshGenerated::new(GridIndex::new(3, 2, 1), mesh);
    assert_eq!(event.index, GridIndex::new(3, 2, 1));
    assert_eq!(event.mesh.indices.len(), 6);
    let empty: TerrainMesh = create_terrain_mesh(&Vec::new(), &Vec::new());
    assert!(empty.indices.is_empty() && empty.positions.is_empty());
}

#[test]
fn readback_without_vertices_yields_no_mesh() {
    assert!(readback_complete(GridIndex::new(0, 0, 0), &make_empty_triangles_buffer()).is_none());
    assert!(readback_complete(GridIndex::new(0, 0, 0), &Vec::new()).is_none());
}

#[test]
fn readback_with_vertices_yields_a_welded_mesh() {
    let mut buffer = vec![VertexRecord { pos: v(0, 0, 0), w: -1000 }; 24];
    let corners = [v(500, 0, 0), v(0, 500, 0), v(0, 0, 500), v(500, 0, 0), v(0, 0, 500), v(500, 500, 500)];
    for (i, corner) in corners.iter().enumerate() {
        buffer[3 + 2 * i] = VertexRecord { pos: *corner, w: 0 };
    }
    let generated = readback_complete(GridIndex::new(1, 0, 2), &buffer).unwrap();
    assert_eq!(generated.index, GridIndex::new(1, 0, 2));
    assert_eq!(generated.mesh.indices, vec![0u32, 1, 2, 0, 2, 3]);
    assert_eq!(
        generated.mesh.positions,
        vec![v(500, 0, 0), v(0, 500, 0), v(0, 0, 500), v(500, 500, 500)]
    );
}

#[test]
fn compute_pass_runs_only_on_fresh_data() {
    assert!(update_resource(Some(true), true));
    assert!(!update_resource(Some(true), false));
    assert!(!update_resource(Some(false), true));
    assert!(!update_resource(None, true));
    assert_eq!(dispatch_size(true, true), Some((33, 33, 33)));
    assert_eq!(dispatch_size(true, false), None);
    assert_eq!(dispatch_size(false, true), None);
    assert_eq!(WORKGROUPS_PER_AXIS, 33);
}
