//! From the vertex records that surface extraction leaves behind to an
//! indexed triangle list: dropping the empty records and welding vertices
//! that lie within a tolerance of one another, found through a spatial hash
//! grid.

use vstd::prelude::*;
use vstd::arithmetic::div_mod::{lemma_fundamental_div_mod, lemma_mod_bound};
use crate::grid::{GridIndex, TRI_BUFFER_LEN};

verus! {

/// A mesh vertex, each coordinate in thousandths of a voxel.
#[derive(Clone, Copy, Debug, PartialEq, Eq, Structural)]
pub struct Vertex {
    pub x: i32,
    pub y: i32,
    pub z: i32,
}

/// Cell size of the hash grid that welds mesh vertices: a tenth of a voxel.
pub const WELD_EPSILON: i32 = 100;

/// Fourth component of a vertex record that holds no vertex: minus one.
pub const SENTINEL_W: i32 = -1000;

/// One slot of the triangle buffer: a position and a fourth component that
/// tells whether the slot holds a vertex.
#[derive(Clone, Copy, Debug, PartialEq, Eq, Structural)]
pub struct VertexRecord {
    pub pos: Vertex,
    pub w: i32,
}

/// The record that marks a slot without a vertex.
pub open spec fn empty_record() -> VertexRecord {
    VertexRecord { pos: Vertex { x: 0, y: 0, z: 0 }, w: SENTINEL_W }
}

/// The positions of the records that hold a vertex, in order.
pub open spec fn surviving(records: Seq<VertexRecord>) -> Seq<Vertex>
    decreases records.len(),
{
    if records.len() == 0 {
        Seq::empty()
    } else {
        let rest = surviving(records.drop_last());
        if records.last().w != SENTINEL_W {
            rest.push(records.last().pos)
        } else {
            rest
        }
    }
}

/// A triangle buffer in which no slot holds a vertex.
pub fn make_empty_triangles_buffer() -> (r: Vec<VertexRecord>)
    ensures
        r@ == Seq::new(TRI_BUFFER_LEN as nat, |i: int| empty_record()),
{
    let record = VertexRecord { pos: Vertex { x: 0, y: 0, z: 0 }, w: SENTINEL_W };
    let r = vec![record; TRI_BUFFER_LEN];
    assert(r@ =~= Seq::new(TRI_BUFFER_LEN as nat, |i: int| empty_record()));
    r
}

/// Drops the records that hold no vertex and keeps the positions of the
/// others, in order.
pub fn filter_readback(records: &Vec<VertexRecord>) -> (r: Vec<Vertex>)
    ensures
        r@ == surviving(records@),
{
    let mut kept: Vec<Vertex> = Vec::new();
    let mut i: usize = 0;
    while i < records.len()
        invariant
            i <= records@.len(),
            kept@ == surviving(records@.take(i as int)),
        decreases records@.len() - i,
    {
        proof {
            assert(records@.take(i as int + 1).drop_last() =~= records@.take(i as int));
        }
        if records[i].w != SENTINEL_W {
            kept.push(records[i].pos);
        }
        i += 1;
    }
    proof {
        assert(records@.take(records@.len() as int) =~= records@);
    }
    kept
}

/// The density word of a voxel: one for solid, zero for empty.
pub open spec fn density_word(solid: bool) -> u32 {
    if solid {
        1
    } else {
        0
    }
}

/// The density buffer that surface extraction reads: one word for every
/// cell of the padded chunk, in the same order.
pub fn pack_density(input: &Vec<bool>) -> (r: Vec<u32>)
    ensures
        r@ == input@.map_values(|solid: bool| density_word(solid)),
{
    let mut words: Vec<u32> = Vec::new();
    let mut i: usize = 0;
    while i < input.len()
        invariant
            i <= input@.len(),
            words@.len() == i,
            forall|j: int| 0 <= j < i ==> words@[j] == density_word(input@[j]),
        decreases input@.len() - i,
    {
        words.push(if input[i] { 1 } else { 0 });
        i += 1;
    }
    proof {
        assert(words@ =~= input@.map_values(|solid: bool| density_word(solid)));
    }
    words
}

/// The density buffer of a chunk that is handed to surface extraction, and
/// the chunk it belongs to.
#[derive(Debug)]
pub struct TerrainData(pub Vec<u32>, pub GridIndex);

/// Work groups of surface extraction along each axis: one for every cell of
/// a chunk and one more.
pub const WORKGROUPS_PER_AXIS: u32 = 33;

/// Whether surface extraction is asked to run this frame: a density buffer
/// is there, it changed since the last frame, and the buffers to run on
/// exist. `terrain_data` tells whether a density buffer is there and, if so,
/// whether it changed.
pub fn update_resource(terrain_data: Option<bool>, has_buffer: bool) -> (build: bool)
    ensures
        build == (terrain_data == Some(true) && has_buffer),
{
    match terrain_data {
        Some(changed) => changed && has_buffer,
        None => false,
    }
}

/// The work groups to dispatch in a frame, along each axis: none unless
/// surface extraction was asked to run and its pipeline is ready.
pub fn dispatch_size(build_requested: bool, pipeline_ready: bool) -> (r: Option<(u32, u32, u32)>)
    ensures
        r == (if build_requested && pipeline_ready {
            Some((WORKGROUPS_PER_AXIS, WORKGROUPS_PER_AXIS, WORKGROUPS_PER_AXIS))
        } else {
            None::<(u32, u32, u32)>
        }),
{
    if build_requested && pipeline_ready {
        Some((WORKGROUPS_PER_AXIS, WORKGROUPS_PER_AXIS, WORKGROUPS_PER_AXIS))
    } else {
        None
    }
}

/// A triangle list: three indices into `positions` for every triangle.
#[derive(Debug)]
pub struct TerrainMesh {
    pub indices: Vec<u32>,
    pub positions: Vec<Vertex>,
}

/// The triangle list of a welded vertex list: the unique vertices as
/// positions, and the indices narrowed to 32 bits.
pub fn create_terrain_mesh(indices: &Vec<usize>, uniques: &Vec<Vertex>) -> (r: TerrainMesh)
    ensures
        r.positions@ == uniques@,
        r.indices@ == indices@.map_values(|i: usize| i as u32),
{
    let mut indices_u32: Vec<u32> = Vec::new();
    let mut k: usize = 0;
    while k < indices.len()
        invariant
            k <= indices@.len(),
            indices_u32@.len() == k,
            forall|j: int| 0 <= j < k ==> indices_u32@[j] == indices@[j] as u32,
        decreases indices@.len() - k,
    {
        indices_u32.push(
            #[verifier::truncate]
            (indices[k] as u32),
        );
        k += 1;
    }
    let mut positions: Vec<Vertex> = Vec::new();
    let mut j: usize = 0;
    while j < uniques.len()
        invariant
            j <= uniques@.len(),
            positions@ == uniques@.take(j as int),
        decreases uniques@.len() - j,
    {
        positions.push(uniques[j]);
        proof {
            assert(uniques@.take(j as int + 1) =~= uniques@.take(j as int).push(uniques@[j as int]));
        }
        j += 1;
    }
    proof {
        assert(uniques@.take(uniques@.len() as int) =~= uniques@);
        assert(indices_u32@ =~= indices@.map_values(|i: usize| i as u32));
    }
    TerrainMesh { indices: indices_u32, positions }
}

/// A finished mesh and the chunk it belongs to.
#[derive(Debug)]
pub struct ChunkMeshGenerated {
    pub index: GridIndex,
    pub mesh: TerrainMesh,
}

impl ChunkMeshGenerated {
    pub fn new(index: GridIndex, mesh: TerrainMesh) -> (r: ChunkMeshGenerated)
        ensures
            r.index == index,
            r.mesh == mesh,
    {
        ChunkMeshGenerated { index, mesh }
    }
}

/// `a / d` rounded to the nearest integer, halves away from zero.
pub open spec fn round_div(a: int, d: int) -> int {
    if a >= 0 {
        (2 * a + d) / (2 * d)
    } else {
        -((-2 * a + d) / (2 * d))
    }
}

/// The cell of the hash grid of cell size `epsilon` that a vertex falls in.
pub open spec fn bucket_of(v: Vertex, epsilon: int) -> (int, int, int) {
    (round_div(v.x as int, epsilon), round_div(v.y as int, epsilon), round_div(v.z as int, epsilon))
}

/// Whether two vertices differ by less than `epsilon` in every coordinate.
pub open spec fn close(a: Vertex, b: Vertex, epsilon: int) -> bool {
    &&& -epsilon < a.x - b.x < epsilon
    &&& -epsilon < a.y - b.y < epsilon
    &&& -epsilon < a.z - b.z < epsilon
}

/// Whether welding takes two vertices for one: they differ by less than
/// `epsilon` in every coordinate.
pub open spec fn same_vertex(a: Vertex, b: Vertex, epsilon: int) -> bool {
    close(a, b, epsilon)
}

/// Whether the cell `cell` of the hash grid is the cell `home` or one of the
/// 26 cells around it.
pub open spec fn neighbouring(cell: (int, int, int), home: (int, int, int)) -> bool {
    &&& -1 <= cell.0 - home.0 <= 1
    &&& -1 <= cell.1 - home.1 <= 1
    &&& -1 <= cell.2 - home.2 <= 1
}

/// The numbers that round to `k` lie in a window of width `d` around
/// `k * d`, and the rounded quotient is no larger in size than the number.
pub proof fn lemma_round_window(a: int, d: int)
    requires
        0 < d,
    ensures
        a >= 0 ==> 0 <= round_div(a, d) <= a && 2 * (round_div(a, d) * d) - d <= 2 * a < 2 * (
        round_div(a, d) * d) + d,
        a < 0 ==> a <= round_div(a, d) <= 0 && 2 * (round_div(a, d) * d) - d < 2 * a <= 2 * (
        round_div(a, d) * d) + d,
{
    let n = if a >= 0 {
        2 * a + d
    } else {
        -2 * a + d
    };
    let m = if a >= 0 {
        a
    } else {
        -a
    };
    let k = n / (2 * d);
    let r = n % (2 * d);
    lemma_fundamental_div_mod(n, 2 * d);
    lemma_mod_bound(n, 2 * d);
    assert(n == 2 * d * k + r);
    assert(2 * d * k == 2 * (k * d)) by (nonlinear_arith);
    assert(0 <= k <= m) by (nonlinear_arith)
        requires
            2 * m + d == 2 * d * k + r,
            0 <= r < 2 * d,
            0 < d,
            0 <= m,
    ;
    if a < 0 {
        assert((-k) * d == -(k * d)) by (nonlinear_arith);
    }
}

/// Two numbers that differ by less than the cell size round to the same
/// cell or to cells next to each other.
pub proof fn lemma_close_rounds_near(a: int, b: int, d: int)
    requires
        0 < d,
        -d < a - b < d,
    ensures
        -1 <= round_div(a, d) - round_div(b, d) <= 1,
{
    lemma_round_window(a, d);
    lemma_round_window(b, d);
    let ka = round_div(a, d);
    let kb = round_div(b, d);
    if ka - kb >= 2 {
        assert(ka * d - kb * d >= 2 * d) by (nonlinear_arith)
            requires
                ka - kb >= 2,
                0 < d,
        ;
    }
    if kb - ka >= 2 {
        assert(kb * d - ka * d >= 2 * d) by (nonlinear_arith)
            requires
                kb - ka >= 2,
                0 < d,
        ;
    }
}

/// Two vertices that differ by less than the cell size in every coordinate
/// fall in the same cell of the hash grid or in cells next to each other: a
/// vertex to weld with lies in one of the 27 cells around a vertex's own.
pub proof fn lemma_close_cells_neighbour(a: Vertex, b: Vertex, epsilon: int)
    requires
        0 < epsilon,
        close(a, b, epsilon),
    ensures
        neighbouring(bucket_of(a, epsilon), bucket_of(b, epsilon)),
{
    lemma_close_rounds_near(a.x as int, b.x as int, epsilon);
    lemma_close_rounds_near(a.y as int, b.y as int, epsilon);
    lemma_close_rounds_near(a.z as int, b.z as int, epsilon);
}

/// Computes `round_div`.
fn rounded_quotient(a: i32, d: i32) -> (r: i32)
    requires
        0 < d,
    ensures
        r == round_div(a as int, d as int),
{
    proof {
        lemma_round_window(a as int, d as int);
    }
    if a >= 0 {
        ((2 * (a as i64) + d as i64) / (2 * (d as i64))) as i32
    } else {
        (-((-2 * (a as i64) + d as i64) / (2 * (d as i64)))) as i32
    }
}

impl Vertex {
    /// The cell of the hash grid of cell size `epsilon` that the vertex
    /// falls in: each coordinate divided by `epsilon` and rounded to the
    /// nearest integer, halves away from zero.
    pub fn spatial_hash(&self, epsilon: i32) -> (r: (i32, i32, i32))
        requires
            0 < epsilon,
        ensures
            (r.0 as int, r.1 as int, r.2 as int) == bucket_of(*self, epsilon as int),
    {
        (
            rounded_quotient(self.x, epsilon),
            rounded_quotient(self.y, epsilon),
            rounded_quotient(self.z, epsilon),
        )
    }

    /// Whether the two vertices differ by less than `epsilon` in every
    /// coordinate.
    pub fn approx_eq(&self, other: &Vertex, epsilon: i32) -> (r: bool)
        ensures
            r == close(*self, *other, epsilon as int),
    {
        let dx: i64 = self.x as i64 - other.x as i64;
        let dy: i64 = self.y as i64 - other.y as i64;
        let dz: i64 = self.z as i64 - other.z as i64;
        let e: i64 = epsilon as i64;
        -e < dx && dx < e && -e < dy && dy < e && -e < dz && dz < e
    }
}

/// Whether `j` is the first place in `uniques` whose vertex welding takes
/// for `v`.
pub open spec fn is_first_match(uniques: Seq<Vertex>, v: Vertex, epsilon: int, j: int) -> bool {
    &&& 0 <= j < uniques.len()
    &&& same_vertex(uniques[j], v, epsilon)
    &&& forall|t: int| 0 <= t < j ==> !same_vertex(#[trigger] uniques[t], v, epsilon)
}

/// The first place in `uniques` whose vertex welding takes for `v`, if there
/// is one.
pub open spec fn first_match(uniques: Seq<Vertex>, v: Vertex, epsilon: int) -> Option<int> {
    if exists|j: int| is_first_match(uniques, v, epsilon, j) {
        Some(choose|j: int| is_first_match(uniques, v, epsilon, j))
    } else {
        None
    }
}

/// The welded form of a vertex list: for every input vertex, in order, the
/// place of its unique vertex, and the unique vertices in the order in which
/// they first occur. A vertex is welded to the first unique vertex that it
/// is taken for, and becomes a new unique vertex if there is none.
pub open spec fn weld(input: Seq<Vertex>, epsilon: int) -> (Seq<usize>, Seq<Vertex>)
    decreases input.len(),
{
    if input.len() == 0 {
        (Seq::empty(), Seq::empty())
    } else {
        let (indices, uniques) = weld(input.drop_last(), epsilon);
        match first_match(uniques, input.last(), epsilon) {
            Some(j) => (indices.push(j as usize), uniques),
            None => (indices.push(uniques.len() as usize), uniques.push(input.last())),
        }
    }
}

/// The first match is the only first match.
proof fn lemma_first_match_found(uniques: Seq<Vertex>, v: Vertex, epsilon: int, j: int)
    requires
        is_first_match(uniques, v, epsilon, j),
    ensures
        first_match(uniques, v, epsilon) == Some(j),
{
    let m = choose|m: int| is_first_match(uniques, v, epsilon, m);
    if m < j {
        assert(!same_vertex(uniques[m], v, epsilon));
    }
    if j < m {
        assert(!same_vertex(uniques[j], v, epsilon));
    }
}

/// No match anywhere means no first match.
proof fn lemma_first_match_absent(uniques: Seq<Vertex>, v: Vertex, epsilon: int)
    requires
        forall|t: int| 0 <= t < uniques.len() ==> !same_vertex(#[trigger] uniques[t], v, epsilon),
    ensures
        first_match(uniques, v, epsilon) is None,
{
    if exists|j: int| is_first_match(uniques, v, epsilon, j) {
        let m = choose|m: int| is_first_match(uniques, v, epsilon, m);
        assert(!same_vertex(uniques[m], v, epsilon));
    }
}

/// Whether the input vertex at `i` is the one at which the unique vertex at
/// place `j` first occurred: it is that vertex, it is welded to that place,
/// and no input vertex before it is.
pub open spec fn is_first_occurrence(
    input: Seq<Vertex>,
    indices: Seq<usize>,
    uniques: Seq<Vertex>,
    j: int,
    i: int,
) -> bool {
    &&& 0 <= i < input.len()
    &&& input[i] == uniques[j]
    &&& indices[i] == j
    &&& forall|earlier: int| 0 <= earlier < i ==> (#[trigger] indices[earlier]) != j
}

/// Whether the unique vertex at place `j` first occurred at some input
/// vertex.
pub open spec fn has_first_occurrence(
    input: Seq<Vertex>,
    indices: Seq<usize>,
    uniques: Seq<Vertex>,
    j: int,
) -> bool {
    exists|i: int| is_first_occurrence(input, indices, uniques, j, i)
}

/// What holds of every welded list: every input vertex has a place among
/// the unique vertices and is taken for the vertex at that place, no two
/// unique vertices are taken for one another, and every unique vertex is the
/// input vertex at which it first occurred.
pub proof fn lemma_weld_facts(input: Seq<Vertex>, epsilon: int)
    requires
        0 < epsilon,
        input.len() <= usize::MAX,
    ensures
        weld(input, epsilon).0.len() == input.len(),
        weld(input, epsilon).1.len() <= input.len(),
        forall|i: int|
            0 <= i < input.len() ==> (#[trigger] weld(input, epsilon).0[i]) < weld(
                input,
                epsilon,
            ).1.len() && same_vertex(
                weld(input, epsilon).1[weld(input, epsilon).0[i] as int],
                input[i],
                epsilon,
            ),
        forall|j: int, k: int|
            0 <= j < k < weld(input, epsilon).1.len() ==> !same_vertex(
                #[trigger] weld(input, epsilon).1[j],
                #[trigger] weld(input, epsilon).1[k],
                epsilon,
            ),
        forall|j: int|
            0 <= j < weld(input, epsilon).1.len() ==> #[trigger] has_first_occurrence(
                input,
                weld(input, epsilon).0,
                weld(input, epsilon).1,
                j,
            ),
    decreases input.len(),
{
    if input.len() > 0 {
        let shorter = input.drop_last();
        let v = input.last();
        lemma_weld_facts(shorter, epsilon);
        let (indices, uniques) = weld(shorter, epsilon);
        let (all_indices, all_uniques) = weld(input, epsilon);
        match first_match(uniques, v, epsilon) {
            Some(m) => {
                assert(is_first_match(uniques, v, epsilon, m));
                assert(all_indices == indices.push(m as usize));
                assert(all_uniques == uniques);
                assert forall|i: int| 0 <= i < input.len() implies (#[trigger] all_indices[i])
                    < all_uniques.len() && same_vertex(
                    all_uniques[all_indices[i] as int],
                    input[i],
                    epsilon,
                ) by {
                    if i < shorter.len() {
                        assert(all_indices[i] == indices[i]);
                        assert(input[i] == shorter[i]);
                    }
                }
                assert forall|j: int| 0 <= j < all_uniques.len() implies #[trigger] has_first_occurrence(
                    input,
                    all_indices,
                    all_uniques,
                    j,
                ) by {
                    assert(has_first_occurrence(shorter, indices, uniques, j));
                    let i = choose|i: int| is_first_occurrence(shorter, indices, uniques, j, i);
                    assert forall|earlier: int| 0 <= earlier < i implies (
                    #[trigger] all_indices[earlier]) != j by {
                        assert(indices[earlier] != j);
                    }
                    assert(is_first_occurrence(input, all_indices, all_uniques, j, i));
                }
            },
            None => {
                assert(all_indices == indices.push(uniques.len() as usize));
                assert(all_uniques == uniques.push(v));
                assert forall|i: int| 0 <= i < input.len() implies (#[trigger] all_indices[i])
                    < all_uniques.len() && same_vertex(
                    all_uniques[all_indices[i] as int],
                    input[i],
                    epsilon,
                ) by {
                    if i < shorter.len() {
                        assert(all_indices[i] == indices[i]);
                        assert(input[i] == shorter[i]);
                        assert(all_uniques[indices[i] as int] == uniques[indices[i] as int]);
                    } else {
                        assert(all_uniques[all_indices[i] as int] == v);
                    }
                }
                assert forall|j: int, k: int| 0 <= j < k < all_uniques.len() implies !same_vertex(
                    #[trigger] all_uniques[j],
                    #[trigger] all_uniques[k],
                    epsilon,
                ) by {
                    if k == uniques.len() {
                        if same_vertex(uniques[j], v, epsilon) {
                            lemma_some_match_first(uniques, v, epsilon, j);
                        }
                    }
                }
                assert forall|j: int| 0 <= j < all_uniques.len() implies #[trigger] has_first_occurrence(
                    input,
                    all_indices,
                    all_uniques,
                    j,
                ) by {
                    if j < uniques.len() {
                        assert(has_first_occurrence(shorter, indices, uniques, j));
                        let i = choose|i: int|
                            is_first_occurrence(shorter, indices, uniques, j, i);
                        assert forall|earlier: int| 0 <= earlier < i implies (
                        #[trigger] all_indices[earlier]) != j by {
                            assert(indices[earlier] != j);
                        }
                        assert(is_first_occurrence(input, all_indices, all_uniques, j, i));
                    } else {
                        let i = input.len() - 1;
                        assert forall|earlier: int| 0 <= earlier < i implies (
                        #[trigger] all_indices[earlier]) != j by {
                            assert(indices[earlier] < uniques.len());
                        }
                        assert(is_first_occurrence(input, all_indices, all_uniques, j, i));
                    }
                }
            },
        }
    }
}

/// Where some unique vertex is taken for `v`, there is a first such.
proof fn lemma_some_match_first(uniques: Seq<Vertex>, v: Vertex, epsilon: int, j: int)
    requires
        0 <= j < uniques.len(),
        same_vertex(uniques[j], v, epsilon),
    ensures
        first_match(uniques, v, epsilon) is Some,
    decreases j,
{
    if exists|t: int| 0 <= t < j && same_vertex(uniques[t], v, epsilon) {
        let t = choose|t: int| 0 <= t < j && same_vertex(uniques[t], v, epsilon);
        lemma_some_match_first(uniques, v, epsilon, t);
    } else {
        assert(is_first_match(uniques, v, epsilon, j));
    }
}

/// Welding a list in which no vertex is taken for another changes nothing:
/// every vertex stays, in its place.
pub proof fn lemma_weld_distinct(list: Seq<Vertex>, epsilon: int)
    requires
        0 < epsilon,
        list.len() <= usize::MAX,
        forall|j: int, k: int|
            0 <= j < k < list.len() ==> !same_vertex(
                #[trigger] list[j],
                #[trigger] list[k],
                epsilon,
            ),
    ensures
        weld(list, epsilon).1 == list,
        weld(list, epsilon).0 == Seq::new(list.len(), |j: int| j as usize),
    decreases list.len(),
{
    if list.len() > 0 {
        let shorter = list.drop_last();
        lemma_weld_distinct(shorter, epsilon);
        assert forall|t: int| 0 <= t < shorter.len() implies !same_vertex(
            #[trigger] shorter[t],
            list.last(),
            epsilon,
        ) by {
            assert(!same_vertex(list[t], list[list.len() - 1], epsilon));
        }
        lemma_first_match_absent(shorter, list.last(), epsilon);
        assert(weld(list, epsilon).1 =~= list);
        assert(weld(list, epsilon).0 =~= Seq::new(list.len(), |j: int| j as usize));
    } else {
        assert(weld(list, epsilon).1 =~= list);
        assert(weld(list, epsilon).0 =~= Seq::new(list.len(), |j: int| j as usize));
    }
}

/// Welding is idempotent: welding the unique vertices of a welded list
/// again keeps every one of them, in its place, so that neither the number of
/// vertices nor any index changes.
pub proof fn lemma_weld_idempotent(input: Seq<Vertex>, epsilon: int)
    requires
        0 < epsilon,
        input.len() <= usize::MAX,
    ensures
        weld(weld(input, epsilon).1, epsilon).1 == weld(input, epsilon).1,
        weld(weld(input, epsilon).1, epsilon).0 == Seq::new(
            weld(input, epsilon).1.len(),
            |j: int| j as usize,
        ),
{
    lemma_weld_facts(input, epsilon);
    lemma_weld_distinct(weld(input, epsilon).1, epsilon);
}

/// Welding only ever adds to what it has: the welded form of a list begins
/// with the welded form of the list without its last vertex.
proof fn lemma_weld_grows(input: Seq<Vertex>, epsilon: int)
    requires
        0 < input.len(),
    ensures
        weld(input.drop_last(), epsilon).0 == weld(input, epsilon).0.drop_last(),
        weld(input.drop_last(), epsilon).1.len() <= weld(input, epsilon).1.len(),
        forall|j: int|
            0 <= j < weld(input.drop_last(), epsilon).1.len() ==> weld(input, epsilon).1[j]
                == #[trigger] weld(input.drop_last(), epsilon).1[j],
{
    let (indices, uniques) = weld(input.drop_last(), epsilon);
    match first_match(uniques, input.last(), epsilon) {
        Some(j) => {
            assert(indices.push(j as usize).drop_last() =~= indices);
        },
        None => {
            assert(indices.push(uniques.len() as usize).drop_last() =~= indices);
        },
    }
}

/// Every input vertex is welded to the first of the unique vertices that
/// lies less than `epsilon` away from it in every coordinate.
pub proof fn lemma_weld_to_first_close(input: Seq<Vertex>, epsilon: int, i: int)
    requires
        0 < epsilon,
        input.len() <= usize::MAX,
        0 <= i < input.len(),
    ensures
        is_first_match(weld(input, epsilon).1, input[i], epsilon, weld(input, epsilon).0[i] as int),
    decreases input.len(),
{
    let shorter = input.drop_last();
    let (indices, uniques) = weld(shorter, epsilon);
    let (all_indices, all_uniques) = weld(input, epsilon);
    lemma_weld_grows(input, epsilon);
    lemma_weld_facts(shorter, epsilon);
    if i < input.len() - 1 {
        lemma_weld_to_first_close(shorter, epsilon, i);
        let place = indices[i] as int;
        assert(all_indices[i] == all_indices.drop_last()[i]);
        assert(is_first_match(uniques, shorter[i], epsilon, place));
        assert(all_uniques[place] == uniques[place]);
        assert forall|t: int| 0 <= t < place implies !same_vertex(
            #[trigger] all_uniques[t],
            input[i],
            epsilon,
        ) by {
            assert(all_uniques[t] == uniques[t]);
        }
    } else {
        match first_match(uniques, input.last(), epsilon) {
            Some(m) => {
                assert(is_first_match(uniques, input.last(), epsilon, m));
                assert(all_uniques == uniques);
                assert(all_indices == indices.push(m as usize));
            },
            None => {
                assert(all_uniques == uniques.push(input.last()));
                assert(all_indices == indices.push(uniques.len() as usize));
                assert forall|t: int| 0 <= t < uniques.len() implies !same_vertex(
                    #[trigger] all_uniques[t],
                    input[i],
                    epsilon,
                ) by {
                    assert(all_uniques[t] == uniques[t]);
                    if same_vertex(uniques[t], input.last(), epsilon) {
                        lemma_some_match_first(uniques, input.last(), epsilon, t);
                    }
                }
            },
        }
    }
}

/// No two unique vertices lie less than `epsilon` apart in every
/// coordinate: of two vertices that close, at most one survives.
pub proof fn lemma_weld_survivors_apart(input: Seq<Vertex>, epsilon: int, j: int, k: int)
    requires
        0 < epsilon,
        input.len() <= usize::MAX,
        0 <= j < weld(input, epsilon).1.len(),
        0 <= k < weld(input, epsilon).1.len(),
        j != k,
    ensures
        !close(weld(input, epsilon).1[j], weld(input, epsilon).1[k], epsilon),
{
    lemma_weld_facts(input, epsilon);
    let uniques = weld(input, epsilon).1;
    if j < k {
        assert(!same_vertex(uniques[j], uniques[k], epsilon));
    } else {
        assert(!same_vertex(uniques[k], uniques[j], epsilon));
    }
}

/// Two input vertices that differ by less than `epsilon` in every
/// coordinate collapse to one unique vertex, where the same unique vertices
/// lie within `epsilon` of the one as of the other.
pub proof fn lemma_weld_collapses(input: Seq<Vertex>, epsilon: int, i: int, k: int)
    requires
        0 < epsilon,
        input.len() <= usize::MAX,
        0 <= i < input.len(),
        0 <= k < input.len(),
        close(input[i], input[k], epsilon),
        forall|j: int|
            0 <= j < weld(input, epsilon).1.len() ==> close(
                #[trigger] weld(input, epsilon).1[j],
                input[i],
                epsilon,
            ) == close(weld(input, epsilon).1[j], input[k], epsilon),
    ensures
        weld(input, epsilon).0[i] == weld(input, epsilon).0[k],
{
    lemma_weld_to_first_close(input, epsilon, i);
    lemma_weld_to_first_close(input, epsilon, k);
    let (indices, uniques) = weld(input, epsilon);
    let a = indices[i] as int;
    let b = indices[k] as int;
    if a < b {
        assert(same_vertex(uniques[a], input[k], epsilon));
    }
    if b < a {
        assert(same_vertex(uniques[b], input[i], epsilon));
    }
}

/// A vertex is never welded to a unique vertex that lies `epsilon` or more
/// away from it in some coordinate: two input vertices that far apart stay
/// distinct, where one of them is itself the unique vertex it is welded to.
pub proof fn lemma_weld_separates(input: Seq<Vertex>, epsilon: int, i: int, k: int)
    requires
        0 < epsilon,
        input.len() <= usize::MAX,
        0 <= i < input.len(),
        0 <= k < input.len(),
        !close(input[i], input[k], epsilon),
        weld(input, epsilon).1[weld(input, epsilon).0[i] as int] == input[i],
    ensures
        weld(input, epsilon).0[i] != weld(input, epsilon).0[k],
{
    lemma_weld_facts(input, epsilon);
}

/// The hash grid of a welding pass: for every cell that holds a unique
/// vertex, the places of the unique vertices in it. It is kept in a
/// `HashMap` of the `hashbrown` crate, as `bevy::utils` hands it on; the
/// verifier does not look inside it. What it holds goes by the name
/// `bucket_contents`, and the three methods below state, without proof, what
/// the map's own methods do.
#[verifier::external_body]
pub struct BucketMap {
    map: bevy::utils::hashbrown::HashMap<(i32, i32, i32), Vec<usize>>,
}

/// What a hash grid holds: the cells that have a list, and the list of each.
pub uninterp spec fn bucket_contents(map: BucketMap) -> Map<(i32, i32, i32), Seq<usize>>;

impl BucketMap {
    /// `HashMap::new` of `hashbrown`: a map without entries.
    #[verifier::external_body]
    fn new() -> (r: BucketMap)
        ensures
            bucket_contents(r) == (Map::<(i32, i32, i32), Seq<usize>>::empty()),
    {
        BucketMap { map: bevy::utils::hashbrown::HashMap::new() }
    }

    /// `HashMap::get` of `hashbrown`: the list stored under `key`, or
    /// nothing where the map has no entry for it.
    #[verifier::external_body]
    fn get(&self, key: (i32, i32, i32)) -> (r: Option<&Vec<usize>>)
        ensures
            match r {
                Some(bucket) => bucket_contents(*self).contains_key(key) && bucket@
                    == bucket_contents(*self)[key],
                None => !bucket_contents(*self).contains_key(key),
            },
    {
        self.map.get(&key)
    }

    /// `HashMap::entry` of `hashbrown` followed by `Entry::or_insert_with`
    /// with `Vec::new`: the list stored under `key`, open to change, which
    /// starts out empty where the map had no entry for `key`. The map ends
    /// up holding under `key` whatever the caller leaves in the list, and no
    /// other entry changes.
    #[verifier::external_body]
    fn entry_or_default(&mut self, key: (i32, i32, i32)) -> (bucket: &mut Vec<usize>)
        ensures
            bucket@ == (if bucket_contents(*old(self)).contains_key(key) {
                bucket_contents(*old(self))[key]
            } else {
                Seq::empty()
            }),
            bucket_contents(*final(self)) == bucket_contents(*old(self)).insert(
                key,
                final(bucket)@,
            ),
    {
        self.map.entry(key).or_insert_with(Vec::new)
    }
}

/// The key under which the hash grid files a vertex.
pub open spec fn bucket_key(v: Vertex, epsilon: int) -> (i32, i32, i32) {
    (
        round_div(v.x as int, epsilon) as i32,
        round_div(v.y as int, epsilon) as i32,
        round_div(v.z as int, epsilon) as i32,
    )
}

/// The cell of a vertex fits its key.
proof fn lemma_bucket_fits(v: Vertex, epsilon: int)
    requires
        0 < epsilon,
    ensures
        i32::MIN <= bucket_of(v, epsilon).0 <= i32::MAX,
        i32::MIN <= bucket_of(v, epsilon).1 <= i32::MAX,
        i32::MIN <= bucket_of(v, epsilon).2 <= i32::MAX,
        bucket_key(v, epsilon).0 == bucket_of(v, epsilon).0,
        bucket_key(v, epsilon).1 == bucket_of(v, epsilon).1,
        bucket_key(v, epsilon).2 == bucket_of(v, epsilon).2,
{
    lemma_round_window(v.x as int, epsilon);
    lemma_round_window(v.y as int, epsilon);
    lemma_round_window(v.z as int, epsilon);
}

/// The hash grid files every unique vertex under the key of its cell, and
/// holds no place beyond the unique vertices.
spec fn grid_indexes(grid: Map<(i32, i32, i32), Seq<usize>>, uniques: Seq<Vertex>, epsilon: int) -> bool {
    &&& forall|key: (i32, i32, i32), t: int|
        grid.contains_key(key) && 0 <= t < grid[key].len() ==> (#[trigger] grid[key][t])
            < uniques.len()
    &&& forall|j: int|
        0 <= j < uniques.len() ==> grid.contains_key(
            #[trigger] bucket_key(uniques[j], epsilon),
        ) && grid[bucket_key(uniques[j], epsilon)].contains(j as usize)
}

/// Place of a cell among the 27 cells around `home`, x fastest.
spec fn neighbour_number(cell: (int, int, int), home: (int, int, int)) -> int {
    (cell.0 - home.0 + 1) + 3 * (cell.1 - home.1 + 1) + 9 * (cell.2 - home.2 + 1)
}

/// Looks through one list of the hash grid for unique vertices less than
/// `epsilon` away from `pos`, and keeps the lowest place found so far.
fn scan_bucket(
    bucket: &Vec<usize>,
    unique_pos: &Vec<Vertex>,
    pos: Vertex,
    epsilon: i32,
    best: Option<usize>,
) -> (r: Option<usize>)
    requires
        forall|s: int| 0 <= s < bucket@.len() ==> bucket@[s] < unique_pos@.len(),
        best matches Some(b) ==> b < unique_pos@.len() && close(
            unique_pos@[b as int],
            pos,
            epsilon as int,
        ),
    ensures
        r matches Some(b) ==> b < unique_pos@.len() && close(
            unique_pos@[b as int],
            pos,
            epsilon as int,
        ),
        best matches Some(b) ==> r is Some && r.unwrap() <= b,
        forall|s: int|
            0 <= s < bucket@.len() && close(unique_pos@[bucket@[s] as int], pos, epsilon as int)
                ==> r is Some && r.unwrap() <= bucket@[s],
{
    let mut lowest = best;
    let mut t: usize = 0;
    while t < bucket.len()
        invariant
            t <= bucket@.len(),
            forall|s: int| 0 <= s < bucket@.len() ==> bucket@[s] < unique_pos@.len(),
            lowest matches Some(b) ==> b < unique_pos@.len() && close(
                unique_pos@[b as int],
                pos,
                epsilon as int,
            ),
            best matches Some(b) ==> lowest is Some && lowest.unwrap() <= b,
            forall|s: int|
                0 <= s < t && close(unique_pos@[bucket@[s] as int], pos, epsilon as int)
                    ==> lowest is Some && lowest.unwrap() <= bucket@[s],
        decreases bucket@.len() - t,
    {
        let index = bucket[t];
        if unique_pos[index].approx_eq(&pos, epsilon) {
            lowest = match lowest {
                Some(b) => if index < b {
                    Some(index)
                } else {
                    Some(b)
                },
                None => Some(index),
            };
        }
        t += 1;
    }
    lowest
}

/// Finds the first unique vertex less than `epsilon` away from `pos` in
/// every coordinate, if there is one: the lowest place among those filed in
/// the 27 cells of the hash grid around the cell of `pos`.
fn find_close(
    hash_map: &BucketMap,
    unique_pos: &Vec<Vertex>,
    pos: Vertex,
    epsilon: i32,
) -> (r: Option<usize>)
    requires
        0 < epsilon,
        grid_indexes(bucket_contents(*hash_map), unique_pos@, epsilon as int),
    ensures
        match r {
            Some(index) => first_match(unique_pos@, pos, epsilon as int) == Some(index as int),
            None => first_match(unique_pos@, pos, epsilon as int) is None,
        },
{
    let hash = pos.spatial_hash(epsilon);
    let count = unique_pos.len();
    let ghost eps = epsilon as int;
    let ghost uniques = unique_pos@;
    let ghost grid = bucket_contents(*hash_map);
    let ghost home = bucket_of(pos, eps);
    let mut found_index: Option<usize> = None;
    let mut n: usize = 0;
    while n < 27
        invariant
            n <= 27,
            0 < epsilon,
            eps == epsilon as int,
            uniques == unique_pos@,
            uniques.len() == count,
            grid == bucket_contents(*hash_map),
            grid_indexes(grid, uniques, eps),
            home == bucket_of(pos, eps),
            (hash.0 as int, hash.1 as int, hash.2 as int) == home,
            found_index matches Some(b) ==> b < uniques.len() && close(uniques[b as int], pos, eps),
            forall|j: int|
                0 <= j < uniques.len() && close(#[trigger] uniques[j], pos, eps) && neighbouring(
                    bucket_of(uniques[j], eps),
                    home,
                ) && neighbour_number(bucket_of(uniques[j], eps), home) < n ==> found_index is Some
                    && found_index.unwrap() <= j,
        decreases 27 - n,
    {
        let kx: i64 = hash.0 as i64 + (n % 3) as i64 - 1;
        let ky: i64 = hash.1 as i64 + ((n / 3) % 3) as i64 - 1;
        let kz: i64 = hash.2 as i64 + (n / 9) as i64 - 1;
        let ghost before = found_index;
        let ghost cell = (kx as int, ky as int, kz as int);
        if kx >= i32::MIN as i64 && kx <= i32::MAX as i64 && ky >= i32::MIN as i64 && ky
            <= i32::MAX as i64 && kz >= i32::MIN as i64 && kz <= i32::MAX as i64 {
            let key = (kx as i32, ky as i32, kz as i32);
            match hash_map.get(key) {
                Some(bucket) => {
                    assert forall|s: int| 0 <= s < bucket@.len() implies bucket@[s]
                        < unique_pos@.len() by {
                        assert(grid[key][s] < uniques.len());
                    }
                    found_index = scan_bucket(bucket, unique_pos, pos, epsilon, found_index);
                    proof {
                        assert forall|j: int|
                            0 <= j < uniques.len() && close(#[trigger] uniques[j], pos, eps)
                                && bucket_of(uniques[j], eps) == cell implies found_index is Some
                            && found_index.unwrap() <= j by {
                            lemma_bucket_fits(uniques[j], eps);
                            assert(bucket_key(uniques[j], eps) == key);
                            assert(grid[key].contains(j as usize));
                            let s = choose|s: int|
                                0 <= s < bucket@.len() && bucket@[s] == j as usize;
                            assert(bucket@[s] == j);
                        }
                    }
                },
                None => {
                    proof {
                        assert forall|j: int|
                            0 <= j < uniques.len() && close(#[trigger] uniques[j], pos, eps)
                                && bucket_of(uniques[j], eps) == cell implies found_index is Some
                            && found_index.unwrap() <= j by {
                            lemma_bucket_fits(uniques[j], eps);
                            assert(bucket_key(uniques[j], eps) == key);
                        }
                    }
                },
            }
        } else {
            proof {
                assert forall|j: int|
                    0 <= j < uniques.len() && close(#[trigger] uniques[j], pos, eps) && bucket_of(
                        uniques[j],
                        eps,
                    ) == cell implies found_index is Some && found_index.unwrap() <= j by {
                    lemma_bucket_fits(uniques[j], eps);
                }
            }
        }
        proof {
            assert forall|j: int|
                0 <= j < uniques.len() && close(#[trigger] uniques[j], pos, eps) && neighbouring(
                    bucket_of(uniques[j], eps),
                    home,
                ) && neighbour_number(bucket_of(uniques[j], eps), home) < n
                    + 1 implies found_index is Some && found_index.unwrap() <= j by {
                let at = bucket_of(uniques[j], eps);
                if neighbour_number(at, home) == n {
                    assert(at.0 == kx && at.1 == ky && at.2 == kz);
                    assert(at == cell);
                } else {
                    assert(before is Some && before.unwrap() <= j);
                }
            }
        }
        n += 1;
    }
    proof {
        match found_index {
            Some(b) => {
                assert forall|t: int| 0 <= t < b implies !same_vertex(
                    #[trigger] uniques[t],
                    pos,
                    eps,
                ) by {
                    if close(uniques[t], pos, eps) {
                        lemma_close_cells_neighbour(uniques[t], pos, eps);
                    }
                }
                lemma_first_match_found(uniques, pos, eps, b as int);
            },
            None => {
                assert forall|t: int| 0 <= t < uniques.len() implies !same_vertex(
                    #[trigger] uniques[t],
                    pos,
                    eps,
                ) by {
                    if close(uniques[t], pos, eps) {
                        lemma_close_cells_neighbour(uniques[t], pos, eps);
                    }
                }
                lemma_first_match_absent(uniques, pos, eps);
            },
        }
    }
    found_index
}

/// Welds vertices that differ by less than `epsilon` in every coordinate:
/// each vertex is welded to the first unique vertex that close to it, and
/// becomes a new unique vertex if there is none. Returns the place of every
/// input vertex's unique vertex, and the unique vertices in the order in
/// which they first occur. The unique vertices are filed in a hash grid of
/// cell size `epsilon`, so that only the cells around a vertex are looked
/// through.
pub fn deduplicate_vertices(vec: &Vec<Vertex>, epsilon: i32) -> (r: (Vec<usize>, Vec<Vertex>))
    requires
        0 < epsilon,
    ensures
        (r.0@, r.1@) == weld(vec@, epsilon as int),
{
    let mut unique_pos: Vec<Vertex> = Vec::new();
    let mut indices: Vec<usize> = Vec::new();
    let mut hash_map = BucketMap::new();
    let mut i: usize = 0;
    while i < vec.len()
        invariant
            0 < epsilon,
            i <= vec@.len(),
            (indices@, unique_pos@) == weld(vec@.take(i as int), epsilon as int),
            unique_pos@.len() <= i,
            grid_indexes(bucket_contents(hash_map), unique_pos@, epsilon as int),
        decreases vec@.len() - i,
    {
        let pos = vec[i];
        let ghost eps = epsilon as int;
        let ghost grid = bucket_contents(hash_map);
        let ghost uniques = unique_pos@;
        proof {
            assert(vec@.take(i as int + 1).drop_last() =~= vec@.take(i as int));
            assert(vec@.take(i as int + 1).last() == pos);
        }
        match find_close(&hash_map, &unique_pos, pos, epsilon) {
            Some(index) => {
                indices.push(index);
            },
            None => {
                let hash = pos.spatial_hash(epsilon);
                let new_index = unique_pos.len();
                unique_pos.push(pos);
                indices.push(new_index);
                hash_map.entry_or_default(hash).push(new_index);
                proof {
                    lemma_bucket_fits(pos, eps);
                    assert(hash == bucket_key(pos, eps));
                    lemma_grid_grows(grid, uniques, eps, pos);
                }
            },
        }
        i += 1;
    }
    proof {
        assert(vec@.take(vec@.len() as int) =~= vec@);
    }
    (indices, unique_pos)
}

/// What a finished readback of the triangle buffer yields for the chunk at
/// `index`: the mesh of the welded vertices that the buffer holds, or
/// nothing where it holds none.
pub fn readback_complete(index: GridIndex, readback: &Vec<VertexRecord>) -> (r: Option<
    ChunkMeshGenerated,
>)
    ensures
        match r {
            Some(generated) => {
                &&& surviving(readback@).len() > 0
                &&& generated.mesh.indices@.len() == surviving(readback@).len()
                &&& generated.index == index
                &&& generated.mesh.positions@ == weld(surviving(readback@), WELD_EPSILON as int).1
                &&& generated.mesh.indices@ == weld(
                    surviving(readback@),
                    WELD_EPSILON as int,
                ).0.map_values(|i: usize| i as u32)
            },
            None => surviving(readback@).len() == 0,
        },
{
    let filtered = filter_readback(readback);
    let survivors = filtered.len();
    let (indices, unique) = deduplicate_vertices(&filtered, WELD_EPSILON);
    proof {
        assert(filtered@.len() == survivors);
        lemma_weld_facts(filtered@, WELD_EPSILON as int);
    }
    if indices.len() > 0 {
        let mesh = create_terrain_mesh(&indices, &unique);
        Some(ChunkMeshGenerated::new(index, mesh))
    } else {
        None
    }
}

/// Filing a new unique vertex under its key keeps the hash grid in step
/// with the unique vertices.
proof fn lemma_grid_grows(
    grid: Map<(i32, i32, i32), Seq<usize>>,
    uniques: Seq<Vertex>,
    epsilon: int,
    v: Vertex,
)
    requires
        grid_indexes(grid, uniques, epsilon),
        uniques.len() < usize::MAX,
    ensures
        grid_indexes(
            grid.insert(
                bucket_key(v, epsilon),
                (if grid.contains_key(bucket_key(v, epsilon)) {
                    grid[bucket_key(v, epsilon)]
                } else {
                    Seq::empty()
                }).push(uniques.len() as usize),
            ),
            uniques.push(v),
            epsilon,
        ),
{
    let key = bucket_key(v, epsilon);
    let before = if grid.contains_key(key) {
        grid[key]
    } else {
        Seq::empty()
    };
    let list = before.push(uniques.len() as usize);
    let after = grid.insert(key, list);
    let longer = uniques.push(v);
    assert forall|k: (i32, i32, i32), t: int|
        after.contains_key(k) && 0 <= t < after[k].len() implies (#[trigger] after[k][t])
        < longer.len() by {
        if k == key {
            if t < before.len() {
                assert(grid[k][t] < uniques.len());
            }
        } else {
            assert(grid[k][t] < uniques.len());
        }
    }
    assert forall|j: int| 0 <= j < longer.len() implies after.contains_key(
        #[trigger] bucket_key(longer[j], epsilon),
    ) && after[bucket_key(longer[j], epsilon)].contains(j as usize) by {
        let k = bucket_key(longer[j], epsilon);
        if j < uniques.len() {
            assert(grid.contains_key(bucket_key(uniques[j], epsilon)));
            let t = choose|t: int| 0 <= t < grid[k].len() && grid[k][t] == j as usize;
            if k == key {
                assert(list[t] == j as usize);
            } else {
                assert(after[k][t] == j as usize);
            }
        } else {
            assert(list[before.len() as int] == j as usize);
        }
    }
}

} // verus!
