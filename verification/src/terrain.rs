//! Between edits and meshes: the queue of chunks that wait for a new mesh,
//! the rule that only one of them is meshed at a time, and where a finished
//! mesh goes in the scene.

use std::collections::VecDeque;
use vstd::prelude::*;
use crate::chunks_manager::{lemma_marked_places, marked_places, surrounded, ChunksManager};
use crate::generation::{
    density_word, pack_density, readback_complete, surviving, weld, ChunkMeshGenerated,
    TerrainData, VertexRecord, WELD_EPSILON,
};
use crate::grid::{GridIndex, Point3, ScenePos};
use crate::voxel::ChunkModel;

verus! {

/// A chunk that waits for a new mesh, with the padded occupancy it had when
/// it changed.
#[derive(Debug)]
pub struct ChunksToGenerateQueueElement {
    pub index: GridIndex,
    pub input_data: Vec<bool>,
}

/// What contracts see of a waiting chunk.
pub struct RequestModel {
    pub index: GridIndex,
    pub input_data: Seq<bool>,
}

impl View for ChunksToGenerateQueueElement {
    type V = RequestModel;

    open spec fn view(&self) -> RequestModel {
        RequestModel { index: self.index, input_data: self.input_data@ }
    }
}

/// What contracts see of the queue: the chunks that wait, oldest first, and
/// the chunk whose mesh is being made, if any.
pub struct QueueModel {
    pub pending: Seq<RequestModel>,
    pub in_flight: Option<GridIndex>,
}

/// The queue with one more chunk waiting at its end.
pub open spec fn after_request(queue: QueueModel, request: RequestModel) -> QueueModel {
    QueueModel { pending: queue.pending.push(request), in_flight: queue.in_flight }
}

/// Whether the oldest waiting chunk may be handed out: one waits, and no
/// mesh is being made.
pub open spec fn can_dispatch(queue: QueueModel) -> bool {
    queue.in_flight is None && queue.pending.len() > 0
}

/// The queue after an attempt to hand out the oldest waiting chunk.
pub open spec fn after_dispatch(queue: QueueModel) -> QueueModel {
    if can_dispatch(queue) {
        QueueModel {
            pending: queue.pending.drop_first(),
            in_flight: Some(queue.pending[0].index),
        }
    } else {
        queue
    }
}

/// Whether a readback that found `count` triangle indices finishes the mesh
/// that is being made.
pub open spec fn completes(queue: QueueModel, count: int) -> bool {
    queue.in_flight is Some && count > 0
}

/// The queue after a readback that found `count` triangle indices.
pub open spec fn after_readback(queue: QueueModel, count: int) -> QueueModel {
    if completes(queue, count) {
        QueueModel { pending: queue.pending, in_flight: None }
    } else {
        queue
    }
}

/// What can happen to the queue.
pub enum QueueEvent {
    /// A chunk changed and asks for a new mesh.
    Request(RequestModel),
    /// The oldest waiting chunk is asked for.
    Dispatch,
    /// A readback came back with this many triangle indices.
    Readback(int),
}

/// The queue after one event.
pub open spec fn after_event(queue: QueueModel, event: QueueEvent) -> QueueModel {
    match event {
        QueueEvent::Request(request) => after_request(queue, request),
        QueueEvent::Dispatch => after_dispatch(queue),
        QueueEvent::Readback(count) => after_readback(queue, count),
    }
}

/// The queue after a run of events.
pub open spec fn after_events(queue: QueueModel, events: Seq<QueueEvent>) -> QueueModel
    decreases events.len(),
{
    if events.len() == 0 {
        queue
    } else {
        after_event(after_events(queue, events.drop_last()), events.last())
    }
}

/// The chunks that asked for a mesh during a run of events, in order.
pub open spec fn requested(events: Seq<QueueEvent>) -> Seq<RequestModel>
    decreases events.len(),
{
    if events.len() == 0 {
        Seq::empty()
    } else {
        match events.last() {
            QueueEvent::Request(request) => requested(events.drop_last()).push(request),
            _ => requested(events.drop_last()),
        }
    }
}

/// The chunks that were handed out during a run of events, in order.
pub open spec fn served(queue: QueueModel, events: Seq<QueueEvent>) -> Seq<RequestModel>
    decreases events.len(),
{
    if events.len() == 0 {
        Seq::empty()
    } else {
        let earlier = after_events(queue, events.drop_last());
        if events.last() is Dispatch && can_dispatch(earlier) {
            served(queue, events.drop_last()).push(earlier.pending[0])
        } else {
            served(queue, events.drop_last())
        }
    }
}

/// The number of meshes that were finished during a run of events.
pub open spec fn finished(queue: QueueModel, events: Seq<QueueEvent>) -> nat
    decreases events.len(),
{
    if events.len() == 0 {
        0
    } else {
        let earlier = after_events(queue, events.drop_last());
        let before = finished(queue, events.drop_last());
        match events.last() {
            QueueEvent::Readback(count) => if completes(earlier, count) {
                before + 1
            } else {
                before
            },
            _ => before,
        }
    }
}

/// One if a mesh is being made, zero if not.
pub open spec fn outstanding(queue: QueueModel) -> nat {
    if queue.in_flight is Some {
        1
    } else {
        0
    }
}

/// While a mesh is being made, asking for the next chunk hands out nothing
/// and changes nothing, however many chunks wait.
pub proof fn lemma_single_flight(queue: QueueModel)
    requires
        queue.in_flight is Some,
    ensures
        !can_dispatch(queue),
        after_dispatch(queue) == queue,
{
}

/// The queue shrinks only at its head: an event leaves the waiting chunks as
/// they were, adds one at the end, or takes the oldest away.
pub proof fn lemma_queue_changes_at_ends(queue: QueueModel, event: QueueEvent)
    ensures
        ({
            let after = after_event(queue, event);
            ||| after.pending == queue.pending
            ||| (event matches QueueEvent::Request(request) && after.pending
                == queue.pending.push(request))
            ||| (event is Dispatch && can_dispatch(queue) && after.pending
                == queue.pending.drop_first())
        }),
{
}

/// Chunks are handed out in the order in which they asked, none twice, none
/// skipped and none merged with another: what was handed out during a run,
/// followed by what still waits, is what waited at the start followed by
/// what asked during the run.
pub proof fn lemma_queue_is_fifo(queue: QueueModel, events: Seq<QueueEvent>)
    ensures
        served(queue, events) + after_events(queue, events).pending == queue.pending + requested(
            events,
        ),
    decreases events.len(),
{
    if events.len() == 0 {
        assert(served(queue, events) + after_events(queue, events).pending =~= queue.pending
            + requested(events));
    } else {
        let shorter = events.drop_last();
        lemma_queue_is_fifo(queue, shorter);
        let earlier = after_events(queue, shorter);
        let done = served(queue, shorter);
        let asked = requested(shorter);
        assert(done + earlier.pending == queue.pending + asked);
        match events.last() {
            QueueEvent::Request(request) => {
                assert(done + earlier.pending.push(request) =~= (done + earlier.pending).push(
                    request,
                ));
                assert(queue.pending + asked.push(request) =~= (queue.pending + asked).push(
                    request,
                ));
            },
            QueueEvent::Dispatch => {
                if can_dispatch(earlier) {
                    assert(done.push(earlier.pending[0]) + earlier.pending.drop_first() =~= done
                        + earlier.pending);
                }
            },
            QueueEvent::Readback(count) => {},
        }
    }
}

/// At most one mesh is being made at any time: every chunk handed out during
/// a run has had its mesh finished, but for the one that is still being
/// made.
pub proof fn lemma_one_in_flight(queue: QueueModel, events: Seq<QueueEvent>)
    ensures
        outstanding(queue) + served(queue, events).len() == finished(queue, events) + outstanding(
            after_events(queue, events),
        ),
    decreases events.len(),
{
    if events.len() > 0 {
        lemma_one_in_flight(queue, events.drop_last());
    }
}

/// The chunks that wait for a new mesh, and the one whose mesh is being made.
#[derive(Debug)]
pub struct ChunksToGenerateQueue {
    queue: VecDeque<ChunksToGenerateQueueElement>,
    in_flight: Option<GridIndex>,
}

impl View for ChunksToGenerateQueue {
    type V = QueueModel;

    closed spec fn view(&self) -> QueueModel {
        QueueModel {
            pending: self.queue@.map_values(|e: ChunksToGenerateQueueElement| e@),
            in_flight: self.in_flight,
        }
    }
}

impl ChunksToGenerateQueue {
    /// A queue in which nothing waits and nothing is being made.
    pub fn new() -> (r: ChunksToGenerateQueue)
        ensures
            r@.pending.len() == 0,
            r@.in_flight is None,
    {
        ChunksToGenerateQueue { queue: VecDeque::new(), in_flight: None }
    }

    /// The number of chunks that wait.
    pub fn len(&self) -> (r: usize)
        ensures
            r == self@.pending.len(),
    {
        self.queue.len()
    }

    /// The chunk whose mesh is being made, if any.
    pub fn in_flight(&self) -> (r: Option<GridIndex>)
        ensures
            r == self@.in_flight,
    {
        self.in_flight
    }

    /// Adds a chunk at the end of the queue.
    pub fn push_back(&mut self, element: ChunksToGenerateQueueElement)
        ensures
            final(self)@ == after_request(old(self)@, element@),
    {
        self.queue.push_back(element);
        proof {
            assert(self@.pending =~= old(self)@.pending.push(element@));
        }
    }

    /// Hands out the oldest waiting chunk if no mesh is being made, and
    /// notes that its mesh is being made from then on. Hands out nothing,
    /// and changes nothing, while a mesh is being made or when no chunk
    /// waits.
    pub fn next_request(&mut self) -> (r: Option<ChunksToGenerateQueueElement>)
        ensures
            final(self)@ == after_dispatch(old(self)@),
            match r {
                Some(element) => can_dispatch(old(self)@) && element@ == old(self)@.pending[0],
                None => !can_dispatch(old(self)@),
            },
    {
        if self.in_flight.is_some() {
            return None;
        }
        let r = self.queue.pop_front();
        match r {
            Some(element) => {
                self.in_flight = Some(element.index);
                proof {
                    assert(self@.pending =~= old(self)@.pending.drop_first());
                }
                Some(element)
            },
            None => {
                proof {
                    assert(self@.pending =~= old(self)@.pending);
                }
                None
            },
        }
    }

    /// Takes note of a readback that found `count` triangle indices. If a
    /// mesh is being made and the readback found any, the mesh is finished:
    /// its chunk is returned and the next chunk may be handed out. Otherwise
    /// nothing changes.
    pub fn readback(&mut self, count: usize) -> (r: Option<GridIndex>)
        ensures
            final(self)@ == after_readback(old(self)@, count as int),
            r == (if completes(old(self)@, count as int) {
                old(self)@.in_flight
            } else {
                None
            }),
    {
        if count > 0 {
            match self.in_flight {
                Some(index) => {
                    self.in_flight = None;
                    Some(index)
                },
                None => None,
            }
        } else {
            None
        }
    }
}

/// Hands the oldest waiting chunk to surface extraction, if no mesh is
/// being made: its padded occupancy packed into density words, with its
/// place in the lattice.
pub fn next_terrain_data(queue: &mut ChunksToGenerateQueue) -> (r: Option<TerrainData>)
    ensures
        final(queue)@ == after_dispatch(old(queue)@),
        match r {
            Some(data) => {
                &&& can_dispatch(old(queue)@)
                &&& data.1 == old(queue)@.pending[0].index
                &&& data.0@ == old(queue)@.pending[0].input_data.map_values(
                    |solid: bool| density_word(solid),
                )
            },
            None => !can_dispatch(old(queue)@),
        },
{
    match queue.next_request() {
        Some(element) => Some(TerrainData(pack_density(&element.input_data), element.index)),
        None => None,
    }
}

/// Takes a readback of the triangle buffer. If a mesh is being made and the
/// buffer holds any vertex, the mesh is finished: the welded mesh is
/// returned for the chunk it was made for, and the next chunk may be handed
/// out. Otherwise nothing is returned and nothing changes.
pub fn on_readback(queue: &mut ChunksToGenerateQueue, readback: &Vec<VertexRecord>) -> (r: Option<
    ChunkMeshGenerated,
>)
    ensures
        final(queue)@ == after_readback(old(queue)@, surviving(readback@).len() as int),
        match r {
            Some(generated) => {
                &&& completes(old(queue)@, surviving(readback@).len() as int)
                &&& old(queue)@.in_flight == Some(generated.index)
                &&& generated.mesh.positions@ == weld(surviving(readback@), WELD_EPSILON as int).1
                &&& generated.mesh.indices@ == weld(
                    surviving(readback@),
                    WELD_EPSILON as int,
                ).0.map_values(|i: usize| i as u32)
            },
            None => !completes(old(queue)@, surviving(readback@).len() as int),
        },
{
    let index = match queue.in_flight() {
        Some(index) => index,
        None => {
            return None;
        },
    };
    match readback_complete(index, readback) {
        Some(generated) => {
            let count = generated.mesh.indices.len();
            queue.readback(count);
            Some(generated)
        },
        None => None,
    }
}

/// The requests of the chunks at the listed places, each with the padded
/// occupancy that the world gives it.
pub open spec fn requests_for(chunks: Seq<ChunkModel>, changed: Seq<usize>) -> Seq<RequestModel>
    decreases changed.len(),
{
    if changed.len() == 0 {
        Seq::empty()
    } else {
        let index = chunks[changed.last() as int].index;
        requests_for(chunks, changed.drop_last()).push(
            RequestModel { index, input_data: surrounded(chunks, index) },
        )
    }
}

/// Queues every chunk that is marked as changed for a new mesh, in creation
/// order, each with its padded occupancy as the world holds it now, and
/// takes the marks away.
pub fn handle_voxel_changes(manager: &mut ChunksManager, queue: &mut ChunksToGenerateQueue)
    requires
        old(manager).wf(),
    ensures
        final(manager).wf(),
        final(manager).has_info() == old(manager).has_info(),
        final(manager).amount() == old(manager).amount(),
        final(manager)@ == old(manager)@,
        final(manager).history() == old(manager).history(),
        final(manager).changed() == Seq::new(old(manager).changed().len(), |k: int| false),
        final(queue)@.in_flight == old(queue)@.in_flight,
        final(queue)@.pending == old(queue)@.pending + requests_for(
            old(manager)@,
            marked_places(old(manager).changed(), old(manager).changed().len()),
        ),
{
    let count = manager.chunk_count();
    proof {
        lemma_marked_places(manager.changed(), manager.changed().len());
    }
    let changed = manager.take_changed();
    let mut t: usize = 0;
    while t < changed.len()
        invariant
            t <= changed@.len(),
            manager.wf(),
            manager@ == old(manager)@,
            forall|s: int| 0 <= s < changed@.len() ==> changed@[s] < manager@.len(),
            queue@.in_flight == old(queue)@.in_flight,
            queue@.pending == old(queue)@.pending + requests_for(
                manager@,
                changed@.take(t as int),
            ),
        decreases changed@.len() - t,
    {
        let chunk = manager.get_chunk(changed[t]);
        let index = chunk.index();
        let data = manager.get_chunk_surrounded(index);
        let ghost earlier = queue@.pending;
        queue.push_back(ChunksToGenerateQueueElement { index, input_data: data });
        proof {
            let next = changed@.take(t as int + 1);
            assert(next.drop_last() =~= changed@.take(t as int));
            assert(next.last() == changed@[t as int]);
            assert(queue@.pending =~= old(queue)@.pending + requests_for(manager@, next));
        }
        t += 1;
    }
    proof {
        assert(changed@.take(changed@.len() as int) =~= changed@);
    }
}

/// Marks the scene entity that shows the mesh of the chunk at `index`.
#[derive(Clone, Copy, Debug, PartialEq, Eq, Structural)]
pub struct ChunkMesh {
    pub index: GridIndex,
}

/// Where in the scene the mesh of the chunk at `index` is anchored, for a
/// lattice of extent `amount`: a chunk spans eight world units, and the
/// lattice is centred on the world origin along x and z and hangs below it
/// along y.
pub open spec fn mesh_anchor(index: GridIndex, amount: GridIndex) -> Point3 {
    Point3 {
        x: index.x * 8000 - amount.x * 4000,
        y: index.y * 8000 - amount.y * 8000,
        z: index.z * 8000 - amount.z * 4000,
    }
}

/// Whether the mesh entity at place `k` is the first one that shows the
/// chunk at `index`.
pub open spec fn is_first_mesh(meshes: Seq<ChunkMesh>, index: GridIndex, k: int) -> bool {
    &&& 0 <= k < meshes.len()
    &&& meshes[k].index == index
    &&& forall|j: int| 0 <= j < k ==> (#[trigger] meshes[j]).index != index
}

/// Place of the first mesh entity that shows the chunk at `index`, if any
/// does.
pub open spec fn find_mesh(meshes: Seq<ChunkMesh>, index: GridIndex) -> Option<int> {
    if exists|k: int| is_first_mesh(meshes, index, k) {
        Some(choose|k: int| is_first_mesh(meshes, index, k))
    } else {
        None
    }
}

/// Whether no two mesh entities show the same chunk.
pub open spec fn distinct_meshes(meshes: Seq<ChunkMesh>) -> bool {
    forall|j: int, k: int|
        0 <= j < k < meshes.len() ==> (#[trigger] meshes[j]).index != (#[trigger] meshes[k]).index
}

/// What to do with a finished mesh.
#[derive(Clone, Copy, Debug, PartialEq, Eq, Structural)]
pub enum MeshPlacement {
    /// The entity at `slot` shows the chunk already: it gets the new mesh
    /// and a new collider.
    Replace { slot: usize },
    /// No entity shows the chunk yet: a new one is made at `anchor` and
    /// takes `slot`.
    Spawn { slot: usize, anchor: ScenePos },
}

/// What to do with a finished mesh, and whether it is the first mesh ever.
#[derive(Clone, Copy, Debug, PartialEq, Eq, Structural)]
pub struct MeshUpdate {
    pub placement: MeshPlacement,
    pub finished_generating: bool,
}

/// The mesh entities of the scene, in the order in which they were made,
/// and whether any mesh was ever finished.
#[derive(Debug)]
pub struct TerrainMeshes {
    meshes: Vec<ChunkMesh>,
    generated: bool,
}

impl View for TerrainMeshes {
    type V = Seq<ChunkMesh>;

    closed spec fn view(&self) -> Seq<ChunkMesh> {
        self.meshes@
    }
}

impl TerrainMeshes {
    /// Whether any mesh was ever finished.
    pub closed spec fn generated(&self) -> bool {
        self.generated
    }

    /// A scene without mesh entities.
    pub fn new() -> (r: TerrainMeshes)
        ensures
            r@.len() == 0,
            distinct_meshes(r@),
            !r.generated(),
    {
        TerrainMeshes { meshes: Vec::new(), generated: false }
    }

    /// Computes `mesh_anchor`.
    pub fn anchor(index: GridIndex, amount: GridIndex) -> (r: ScenePos)
        ensures
            r@ == mesh_anchor(index, amount),
    {
        ScenePos {
            x: index.x as i64 * 8000 - amount.x as i64 * 4000,
            y: index.y as i64 * 8000 - amount.y as i64 * 8000,
            z: index.z as i64 * 8000 - amount.z as i64 * 4000,
        }
    }

    /// Finds the place of a finished mesh of the chunk at `index`: the first
    /// entity that shows the chunk, or else a new entity at the chunk's
    /// anchor, so that no chunk is ever shown by two entities. Tells whether
    /// this is the first mesh ever finished.
    pub fn update_mesh(&mut self, index: GridIndex, amount: GridIndex) -> (r: MeshUpdate)
        ensures
            final(self).generated(),
            distinct_meshes(old(self)@) ==> distinct_meshes(final(self)@),
            r.finished_generating == !old(self).generated(),
            match find_mesh(old(self)@, index) {
                Some(k) => r.placement == (MeshPlacement::Replace { slot: k as usize })
                    && final(self)@ == old(self)@,
                None => r.placement == (MeshPlacement::Spawn {
                    slot: old(self)@.len() as usize,
                    anchor: r.placement->anchor,
                }) && r.placement->anchor@ == mesh_anchor(index, amount) && final(self)@ == old(
                    self,
                )@.push(ChunkMesh { index }),
            },
    {
        let first = !self.generated;
        self.generated = true;
        let n = self.meshes.len();
        let mut k: usize = 0;
        while k < n
            invariant
                k <= n,
                n == self@.len(),
                self@ == old(self)@,
                self.generated(),
                first == !old(self).generated(),
                forall|j: int| 0 <= j < k ==> (#[trigger] self@[j]).index != index,
            decreases n - k,
        {
            if self.meshes[k].index == index {
                proof {
                    lemma_find_mesh_first(self@, index, k as int);
                }
                return MeshUpdate {
                    placement: MeshPlacement::Replace { slot: k },
                    finished_generating: first,
                };
            }
            k += 1;
        }
        proof {
            lemma_find_mesh_none(self@, index);
        }
        self.meshes.push(ChunkMesh { index });
        MeshUpdate {
            placement: MeshPlacement::Spawn { slot: n, anchor: Self::anchor(index, amount) },
            finished_generating: first,
        }
    }
}

/// The first mesh entity of a chunk is the only first one.
proof fn lemma_find_mesh_first(meshes: Seq<ChunkMesh>, index: GridIndex, k: int)
    requires
        is_first_mesh(meshes, index, k),
    ensures
        find_mesh(meshes, index) == Some(k),
{
    let m = choose|m: int| is_first_mesh(meshes, index, m);
    if m < k {
        assert(meshes[m].index != index);
    }
    if k < m {
        assert(meshes[k].index != index);
    }
}

/// No mesh entity of a chunk means none is found.
proof fn lemma_find_mesh_none(meshes: Seq<ChunkMesh>, index: GridIndex)
    requires
        forall|j: int| 0 <= j < meshes.len() ==> (#[trigger] meshes[j]).index != index,
    ensures
        find_mesh(meshes, index) is None,
{
    if exists|k: int| is_first_mesh(meshes, index, k) {
        let m = choose|m: int| is_first_mesh(meshes, index, m);
        assert(meshes[m].index != index);
    }
}

} // verus!
