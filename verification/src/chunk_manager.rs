use vstd::prelude::*;
use std::sync::Arc;
use crate::chunk_table::{
    ChunkTable, ChunkSet, stored_chunks, marked_chunks, new_chunk_table, new_chunk_set,
    chunk_table_contains, chunk_table_get, chunk_table_insert, chunk_set_contains,
    chunk_set_insert, chunk_set_remove,
};
use crate::chunk_mesh::{
    neighbourhood_keys, same_entry, mesh_vertices, owner_key,
    lemma_mesh_depends_on_neighbourhood,
};
use crate::mesh_data::{MeshData, CHUNK_AREA, CHUNK_SIZE, is_terrain};

verus! {

/// Decides which chunks get their voxels generated and which get meshed, and keeps the
/// generated voxels. Generation and meshing themselves run elsewhere: a call that
/// answers `true` asks the caller to start that work, and the caller reports back with
/// `complete_chunk` and `complete_mesh` when it is done.
pub struct ChunkManager {
    voxel_data: ChunkTable,
    pending_voxels: ChunkSet,
    pending_mesh: ChunkSet,
}

/// A chunk coordinate whose neighbours' neighbours are still representable.
pub open spec fn coordinate_has_room(c: int) -> bool {
    i32::MIN + 2 <= c <= i32::MAX - 2
}

/// Every chunk in the list has coordinates whose neighbours' neighbours are representable.
pub open spec fn coordinates_have_room(chunks: Seq<(i32, i32)>) -> bool {
    forall|i: int|
        0 <= i < chunks.len() ==> coordinate_has_room(#[trigger] chunks[i].0 as int)
            && coordinate_has_room(chunks[i].1 as int)
}

/// A chunk coordinate whose direct neighbours are representable.
pub open spec fn coordinate_has_neighbours(c: int) -> bool {
    i32::MIN + 1 <= c <= i32::MAX - 1
}

/// Every chunk of the neighbourhood of `(chunk_x, chunk_z)` is stored.
pub open spec fn neighbourhood_stored(
    stored: Map<(i32, i32), Seq<u8>>,
    chunk_x: int,
    chunk_z: int,
) -> bool {
    forall|i: int|
        0 <= i < 5 ==> stored.dom().contains(#[trigger] neighbourhood_keys(chunk_x, chunk_z)[i])
}

/// Whether a request for chunk `key` starts its generation: only when the chunk is
/// neither stored nor already being generated.
pub open spec fn request_starts_generation(
    stored: Map<(i32, i32), Seq<u8>>,
    pending: Set<(i32, i32)>,
    key: (i32, i32),
) -> bool {
    !stored.dom().contains(key) && !pending.contains(key)
}

/// Whether chunk `key` may be meshed now: it is not being meshed already and it and its
/// four neighbours are all stored.
pub open spec fn mesh_can_start(
    stored: Map<(i32, i32), Seq<u8>>,
    meshing: Set<(i32, i32)>,
    key: (i32, i32),
) -> bool {
    !meshing.contains(key) && neighbourhood_stored(stored, key.0 as int, key.1 as int)
}

/// Offering the candidates `cands` for meshing one after another, starting from the set
/// `meshing` of chunks being meshed: the set afterwards and the candidates that started,
/// in order.
pub open spec fn dispatch_all(
    stored: Map<(i32, i32), Seq<u8>>,
    meshing: Set<(i32, i32)>,
    cands: Seq<(i32, i32)>,
) -> (Set<(i32, i32)>, Seq<(i32, i32)>)
    decreases cands.len(),
{
    if cands.len() == 0 {
        (meshing, seq![])
    } else {
        let (m, started) = dispatch_all(stored, meshing, cands.drop_last());
        let c = cands.last();
        if mesh_can_start(stored, m, c) {
            (m.insert(c), started.push(c))
        } else {
            (m, started)
        }
    }
}

/// The meshing candidates for a list of freshly generated chunks: each chunk followed by
/// its four neighbours, in the order of `neighbourhood_keys`.
pub open spec fn completion_candidates(completed: Seq<(i32, i32)>) -> Seq<(i32, i32)>
    decreases completed.len(),
{
    if completed.len() == 0 {
        seq![]
    } else {
        let c = completed.last();
        completion_candidates(completed.drop_last()) + neighbourhood_keys(c.0 as int, c.1 as int)
    }
}

/// The stored chunks of the neighbourhood of `(chunk_x, chunk_z)` and nothing else.
pub open spec fn neighbourhood_part(
    stored: Map<(i32, i32), Seq<u8>>,
    chunk_x: int,
    chunk_z: int,
) -> Map<(i32, i32), Seq<u8>> {
    stored.restrict(neighbourhood_keys(chunk_x, chunk_z).to_set())
}

/// A chunk is generated at most once while its generation runs, and never once it is
/// stored: after a request has started the generation of `key`, a second request for
/// `key` does not start it again; and a stored chunk's request starts nothing.
pub proof fn lemma_request_starts_generation_once(
    stored: Map<(i32, i32), Seq<u8>>,
    pending: Set<(i32, i32)>,
    key: (i32, i32),
)
    ensures
        request_starts_generation(stored, pending, key) ==> !request_starts_generation(
            stored,
            pending.insert(key),
            key,
        ),
        stored.dom().contains(key) ==> !request_starts_generation(stored, pending, key),
{
}

/// A request answers for its own chunk alone: it starts the generation of `key` exactly
/// when `key` is neither stored nor being generated, whatever other chunks are stored or
/// being generated; so two states that agree on `key` answer a request for it alike.
pub proof fn lemma_request_decided_by_its_own_chunk(
    stored: Map<(i32, i32), Seq<u8>>,
    pending: Set<(i32, i32)>,
    other_stored: Map<(i32, i32), Seq<u8>>,
    other_pending: Set<(i32, i32)>,
    key: (i32, i32),
)
    ensures
        request_starts_generation(stored, pending, key) <==> (!stored.dom().contains(key)
            && !pending.contains(key)),
        stored.dom().contains(key) == other_stored.dom().contains(key) && pending.contains(key)
            == other_pending.contains(key) ==> request_starts_generation(stored, pending, key)
            == request_starts_generation(other_stored, other_pending, key),
{
}

/// A chunk may start meshing exactly when it is not being meshed already and the chunk
/// itself and its four horizontal neighbours `(x + 1, z)`, `(x - 1, z)`, `(x, z + 1)` and
/// `(x, z - 1)` are all stored; nothing else about the state matters.
pub proof fn lemma_mesh_starts_with_stored_neighbours(
    stored: Map<(i32, i32), Seq<u8>>,
    meshing: Set<(i32, i32)>,
    key: (i32, i32),
)
    requires
        coordinate_has_neighbours(key.0 as int),
        coordinate_has_neighbours(key.1 as int),
    ensures
        mesh_can_start(stored, meshing, key) <==> {
            &&& !meshing.contains(key)
            &&& stored.dom().contains(key)
            &&& stored.dom().contains(((key.0 + 1) as i32, key.1))
            &&& stored.dom().contains(((key.0 - 1) as i32, key.1))
            &&& stored.dom().contains((key.0, (key.1 + 1) as i32))
            &&& stored.dom().contains((key.0, (key.1 - 1) as i32))
        },
{
    let keys = neighbourhood_keys(key.0 as int, key.1 as int);
    assert(keys[0] == key);
    assert(keys[1] == ((key.0 + 1) as i32, key.1));
    assert(keys[2] == ((key.0 - 1) as i32, key.1));
    assert(keys[3] == (key.0, (key.1 + 1) as i32));
    assert(keys[4] == (key.0, (key.1 - 1) as i32));
}

/// Offering candidates for meshing starts each chunk at most once and only when it may
/// start: every started chunk has its whole neighbourhood stored and was not being
/// meshed before, no chunk starts twice, and the chunks being meshed afterwards are
/// those before plus those started.
pub proof fn lemma_dispatch_all_starts_each_once(
    stored: Map<(i32, i32), Seq<u8>>,
    meshing: Set<(i32, i32)>,
    cands: Seq<(i32, i32)>,
)
    ensures
        ({
            let (after, started) = dispatch_all(stored, meshing, cands);
            &&& after =~= meshing + started.to_set()
            &&& started.no_duplicates()
            &&& forall|i: int|
                0 <= i < started.len() ==> !meshing.contains(#[trigger] started[i])
                    && neighbourhood_stored(stored, started[i].0 as int, started[i].1 as int)
        }),
    decreases cands.len(),
{
    if cands.len() > 0 {
        lemma_dispatch_all_starts_each_once(stored, meshing, cands.drop_last());
        let (m, started) = dispatch_all(stored, meshing, cands.drop_last());
        let c = cands.last();
        if mesh_can_start(stored, m, c) {
            started.lemma_push_to_set_commute(c);
            assert(!started.contains(c)) by {
                if started.contains(c) {
                    assert(started.to_set().contains(c));
                }
            }
            let s2 = started.push(c);
            assert forall|i: int, j: int|
                0 <= i < s2.len() && 0 <= j < s2.len() && i != j implies s2[i] != s2[j] by {
                if i < started.len() && j < started.len() {
                } else if i == started.len() {
                    assert(started[j] == s2[j]);
                } else {
                    assert(started[i] == s2[i]);
                }
            }
        }
    }
}

/// Offering candidates never takes a chunk out of the set being meshed, and every
/// offered candidate whose whole neighbourhood is stored ends up being meshed: started
/// now, or already being meshed.
pub proof fn lemma_dispatch_all_covers(
    stored: Map<(i32, i32), Seq<u8>>,
    meshing: Set<(i32, i32)>,
    cands: Seq<(i32, i32)>,
)
    ensures
        meshing.subset_of(dispatch_all(stored, meshing, cands).0),
        forall|i: int|
            0 <= i < cands.len() && neighbourhood_stored(stored, cands[i].0 as int, cands[i].1 as int)
                ==> dispatch_all(stored, meshing, cands).0.contains(#[trigger] cands[i]),
    decreases cands.len(),
{
    if cands.len() > 0 {
        let prefix = cands.drop_last();
        lemma_dispatch_all_covers(stored, meshing, prefix);
        let after = dispatch_all(stored, meshing, cands).0;
        assert forall|i: int|
            0 <= i < cands.len() && neighbourhood_stored(stored, cands[i].0 as int, cands[i].1 as int)
                implies after.contains(#[trigger] cands[i]) by {
            if i < cands.len() - 1 {
                assert(prefix[i] == cands[i]);
            }
        }
    }
}

proof fn lemma_completion_candidates_contain(completed: Seq<(i32, i32)>)
    ensures
        forall|i: int, j: int|
            0 <= i < completed.len() && 0 <= j < 5 ==> completion_candidates(completed).contains(
                #[trigger] neighbourhood_keys(completed[i].0 as int, completed[i].1 as int)[j],
            ),
    decreases completed.len(),
{
    if completed.len() > 0 {
        let prefix = completed.drop_last();
        lemma_completion_candidates_contain(prefix);
        let c = completed.last();
        let before = completion_candidates(prefix);
        let all = completion_candidates(completed);
        let nk = neighbourhood_keys(c.0 as int, c.1 as int);
        assert forall|i: int, j: int|
            0 <= i < completed.len() && 0 <= j < 5 implies all.contains(
                #[trigger] neighbourhood_keys(completed[i].0 as int, completed[i].1 as int)[j],
            ) by {
            let k = neighbourhood_keys(completed[i].0 as int, completed[i].1 as int)[j];
            if i < completed.len() - 1 {
                assert(prefix[i] == completed[i]);
                let w = choose|w: int| 0 <= w < before.len() && before[w] == k;
                assert(all[w] == k);
            } else {
                assert(all[before.len() + j] == nk[j]);
            }
        }
    }
}

/// Handling finished chunks meshes every chunk they may have completed: for each
/// finished chunk, the chunk itself and each of its four neighbours, when its whole
/// neighbourhood is stored, is being meshed afterwards.
pub proof fn lemma_completions_mesh_every_completed_neighbourhood(
    stored: Map<(i32, i32), Seq<u8>>,
    meshing: Set<(i32, i32)>,
    completed: Seq<(i32, i32)>,
)
    ensures
        forall|i: int, j: int|
            0 <= i < completed.len() && 0 <= j < 5 && {
                let k = neighbourhood_keys(completed[i].0 as int, completed[i].1 as int)[j];
                neighbourhood_stored(stored, k.0 as int, k.1 as int)
            } ==> dispatch_all(stored, meshing, completion_candidates(completed)).0.contains(
                #[trigger] neighbourhood_keys(completed[i].0 as int, completed[i].1 as int)[j],
            ),
{
    let cands = completion_candidates(completed);
    lemma_completion_candidates_contain(completed);
    lemma_dispatch_all_covers(stored, meshing, cands);
    assert forall|i: int, j: int|
        0 <= i < completed.len() && 0 <= j < 5 && {
            let k = neighbourhood_keys(completed[i].0 as int, completed[i].1 as int)[j];
            neighbourhood_stored(stored, k.0 as int, k.1 as int)
        } implies dispatch_all(stored, meshing, cands).0.contains(
            #[trigger] neighbourhood_keys(completed[i].0 as int, completed[i].1 as int)[j],
        ) by {
        let k = neighbourhood_keys(completed[i].0 as int, completed[i].1 as int)[j];
        assert(cands.contains(k));
        let w = choose|w: int| 0 <= w < cands.len() && cands[w] == k;
        assert(cands[w] == k);
    }
}

/// Stored chunks are never removed, so a neighbourhood that is stored stays stored: once
/// a chunk's meshing has started with its whole neighbourhood stored, that holds for
/// every later state too.
pub proof fn lemma_neighbourhood_stays_stored(
    before: Map<(i32, i32), Seq<u8>>,
    after: Map<(i32, i32), Seq<u8>>,
    chunk_x: int,
    chunk_z: int,
)
    requires
        before.dom().subset_of(after.dom()),
        neighbourhood_stored(before, chunk_x, chunk_z),
    ensures
        neighbourhood_stored(after, chunk_x, chunk_z),
{
    assert forall|i: int| 0 <= i < 5 implies after.dom().contains(
        #[trigger] neighbourhood_keys(chunk_x, chunk_z)[i],
    ) by {
        assert(before.dom().contains(neighbourhood_keys(chunk_x, chunk_z)[i]));
    }
}

/// With its whole neighbourhood stored, a chunk's mesh never falls back on the rule that a
/// missing chunk reads as solid: every voxel it looks at, in the chunk or one step off it
/// along x or z, is found in a stored chunk.
pub proof fn lemma_stored_neighbourhood_has_no_fallback(
    chunks: Map<(i32, i32), Seq<u8>>,
    chunk_x: int,
    chunk_z: int,
)
    requires
        neighbourhood_stored(chunks, chunk_x, chunk_z),
    ensures
        forall|x: int, z: int|
            -1 <= x <= CHUNK_SIZE && -1 <= z <= CHUNK_SIZE && (0 <= x < CHUNK_SIZE || 0 <= z
                < CHUNK_SIZE) ==> chunks.dom().contains(#[trigger] owner_key(x, z, chunk_x, chunk_z)),
{
    let keys = neighbourhood_keys(chunk_x, chunk_z);
    assert(chunks.dom().contains(keys[0]));
    assert(chunks.dom().contains(keys[1]));
    assert(chunks.dom().contains(keys[2]));
    assert(chunks.dom().contains(keys[3]));
    assert(chunks.dom().contains(keys[4]));
}

impl ChunkManager {
    /// A stored chunk is never also waiting for its generation.
    pub open spec fn wf(&self) -> bool {
        self.stored().dom().disjoint(self.generating())
    }

    /// The generated chunks held, by chunk coordinates.
    pub closed spec fn stored(&self) -> Map<(i32, i32), Seq<u8>> {
        stored_chunks(self.voxel_data)
    }

    /// The chunks whose generation has started and not yet been reported complete.
    pub closed spec fn generating(&self) -> Set<(i32, i32)> {
        marked_chunks(self.pending_voxels)
    }

    /// The chunks whose meshing has started and not yet been reported complete.
    pub closed spec fn meshing(&self) -> Set<(i32, i32)> {
        marked_chunks(self.pending_mesh)
    }

    /// A manager with no chunks stored, generating or meshing.
    pub fn new() -> (manager: Self)
        ensures
            manager.stored() =~= Map::<(i32, i32), Seq<u8>>::empty(),
            manager.generating() =~= Set::<(i32, i32)>::empty(),
            manager.meshing() =~= Set::<(i32, i32)>::empty(),
            manager.wf(),
    {
        let voxel_data = new_chunk_table();
        let pending_voxels = new_chunk_set();
        let pending_mesh = new_chunk_set();
        ChunkManager { voxel_data, pending_voxels, pending_mesh }
    }

    /// Whether the generation of chunk `(cx, cz)` has started and not yet been reported.
    pub fn is_generating(&self, cx: i32, cz: i32) -> (generating: bool)
        ensures
            generating == self.generating().contains((cx, cz)),
    {
        chunk_set_contains(&self.pending_voxels, (cx, cz))
    }

    /// Whether the meshing of chunk `(cx, cz)` has started and not yet been reported.
    pub fn is_meshing(&self, cx: i32, cz: i32) -> (meshing: bool)
        ensures
            meshing == self.meshing().contains((cx, cz)),
    {
        chunk_set_contains(&self.pending_mesh, (cx, cz))
    }

    /// Asks for chunk `(cx, cz)`. When it is neither stored nor being generated it is
    /// marked as being generated and the answer is `true`: the caller is to generate it
    /// (see `generate_chunk_data`) and report it with `complete_chunk`. Otherwise nothing
    /// changes and the answer is `false`.
    pub fn request_chunk(&mut self, cx: i32, cz: i32) -> (generate: bool)
        requires
            old(self).wf(),
        ensures
            generate == request_starts_generation(old(self).stored(), old(self).generating(), (cx, cz)),
            generate <==> (!old(self).stored().dom().contains((cx, cz)) && !old(
                self,
            ).generating().contains((cx, cz))),
            final(self).stored() == old(self).stored(),
            final(self).generating() == (if generate {
                old(self).generating().insert((cx, cz))
            } else {
                old(self).generating()
            }),
            final(self).meshing() == old(self).meshing(),
            final(self).wf(),
    {
        if chunk_table_contains(&self.voxel_data, (cx, cz)) {
            return false;
        }
        if chunk_set_contains(&self.pending_voxels, (cx, cz)) {
            return false;
        }
        chunk_set_insert(&mut self.pending_voxels, (cx, cz));
        true
    }

    /// Reports that chunk `(cx, cz)`, whose generation was started, has been generated: its
    /// voxels are stored and it is no longer being generated. A chunk being generated is
    /// never stored yet, so stored voxels are never replaced.
    pub fn complete_chunk(&mut self, cx: i32, cz: i32, data: MeshData)
        requires
            old(self).wf(),
            old(self).generating().contains((cx, cz)),
        ensures
            !old(self).stored().dom().contains((cx, cz)),
            final(self).stored() == old(self).stored().insert((cx, cz), data.voxels@),
            final(self).generating() == old(self).generating().remove((cx, cz)),
            final(self).meshing() == old(self).meshing(),
            final(self).wf(),
    {
        chunk_set_remove(&mut self.pending_voxels, (cx, cz));
        chunk_table_insert(&mut self.voxel_data, (cx, cz), Arc::new(data));
    }

    /// Starts meshing chunk `(cx, cz)` when it is not being meshed already and it and its
    /// four horizontal neighbours are all stored; the answer says whether it started, in
    /// which case the caller is to build the mesh (see `mesh_snapshot`) and report it with
    /// `complete_mesh`.
    pub fn try_dispatch_mesh(&mut self, cx: i32, cz: i32) -> (dispatch: bool)
        requires
            old(self).wf(),
            !old(self).meshing().contains((cx, cz)) ==> coordinate_has_neighbours(cx as int)
                && coordinate_has_neighbours(cz as int),
        ensures
            dispatch == mesh_can_start(old(self).stored(), old(self).meshing(), (cx, cz)),
            final(self).stored() == old(self).stored(),
            final(self).generating() == old(self).generating(),
            final(self).meshing() == (if dispatch {
                old(self).meshing().insert((cx, cz))
            } else {
                old(self).meshing()
            }),
            final(self).wf(),
    {
        if chunk_set_contains(&self.pending_mesh, (cx, cz)) {
            return false;
        }
        let neighbors: [(i32, i32); 5] = [
            (cx, cz),
            (cx + 1, cz),
            (cx - 1, cz),
            (cx, cz + 1),
            (cx, cz - 1),
        ];
        assert(neighbors@ =~= neighbourhood_keys(cx as int, cz as int));
        let mut i: usize = 0;
        while i < 5
            invariant
                0 <= i <= 5,
                old(self).wf(),
                !old(self).meshing().contains((cx, cz)),
                self.stored() == old(self).stored(),
                self.generating() == old(self).generating(),
                self.meshing() == old(self).meshing(),
                neighbors@ == neighbourhood_keys(cx as int, cz as int),
                forall|j: int|
                    0 <= j < i ==> self.stored().dom().contains(
                        #[trigger] neighbourhood_keys(cx as int, cz as int)[j],
                    ),
            decreases 5 - i,
        {
            if !chunk_table_contains(&self.voxel_data, neighbors[i]) {
                return false;
            }
            i = i + 1;
        }
        chunk_set_insert(&mut self.pending_mesh, (cx, cz));
        true
    }

    /// Reports that the mesh of chunk `(cx, cz)`, whose meshing was started, has been built:
    /// it is no longer being meshed.
    pub fn complete_mesh(&mut self, cx: i32, cz: i32)
        requires
            old(self).wf(),
            old(self).meshing().contains((cx, cz)),
        ensures
            final(self).stored() == old(self).stored(),
            final(self).generating() == old(self).generating(),
            final(self).meshing() == old(self).meshing().remove((cx, cz)),
            final(self).wf(),
    {
        chunk_set_remove(&mut self.pending_mesh, (cx, cz));
    }

    /// Handles chunks that have just finished generating: each finished chunk may complete
    /// the neighbourhood of itself or of one of its four neighbours, so each of those is
    /// offered for meshing in turn. Answers the chunks whose meshing started, in order.
    pub fn poll_voxel_completions(&mut self, completed: &Vec<(i32, i32)>) -> (dispatched: Vec<(i32, i32)>)
        requires
            old(self).wf(),
            coordinates_have_room(completed@),
        ensures
            (final(self).meshing(), dispatched@) == dispatch_all(
                old(self).stored(),
                old(self).meshing(),
                completion_candidates(completed@),
            ),
            final(self).stored() == old(self).stored(),
            final(self).generating() == old(self).generating(),
            final(self).wf(),
    {
        let ghost stored0 = self.stored();
        let ghost generating0 = self.generating();
        let ghost meshing0 = self.meshing();
        let mut dispatched: Vec<(i32, i32)> = Vec::new();
        let mut i: usize = 0;
        while i < completed.len()
            invariant
                0 <= i <= completed@.len(),
                coordinates_have_room(completed@),
                self.stored() == stored0,
                self.generating() == generating0,
                self.wf(),
                (self.meshing(), dispatched@) == dispatch_all(
                    stored0,
                    meshing0,
                    completion_candidates(completed@.take(i as int)),
                ),
            decreases completed@.len() - i,
        {
            let (cx, cz) = completed[i];
            let candidates: [(i32, i32); 5] = [
                (cx, cz),
                (cx + 1, cz),
                (cx - 1, cz),
                (cx, cz + 1),
                (cx, cz - 1),
            ];
            let ghost done = completion_candidates(completed@.take(i as int));
            assert(candidates@ =~= neighbourhood_keys(cx as int, cz as int));
            let mut j: usize = 0;
            while j < 5
                invariant
                    0 <= j <= 5,
                    coordinate_has_room(cx as int),
                    coordinate_has_room(cz as int),
                    candidates@ == neighbourhood_keys(cx as int, cz as int),
                    self.stored() == stored0,
                    self.generating() == generating0,
                    self.wf(),
                    (self.meshing(), dispatched@) == dispatch_all(
                        stored0,
                        meshing0,
                        done + candidates@.take(j as int),
                    ),
                decreases 5 - j,
            {
                let (ncx, ncz) = candidates[j];
                let ghost before = done + candidates@.take(j as int);
                let ghost after = done + candidates@.take(j + 1);
                assert(after.drop_last() =~= before);
                assert(after.last() == candidates@[j as int]);
                if self.try_dispatch_mesh(ncx, ncz) {
                    dispatched.push((ncx, ncz));
                }
                j = j + 1;
            }
            proof {
                let next = completed@.take(i + 1);
                assert(next.drop_last() =~= completed@.take(i as int));
                assert(candidates@.take(5) =~= candidates@);
            }
            i = i + 1;
        }
        proof {
            assert(completed@.take(completed@.len() as int) =~= completed@);
        }
        dispatched
    }

    /// The stored chunks that the mesh of chunk `(cx, cz)` is built from: the chunk and its
    /// four horizontal neighbours, as far as they are stored, in a table of their own. The
    /// mesh built from it is the mesh built from everything stored.
    pub fn mesh_snapshot(&self, cx: i32, cz: i32) -> (snapshot: ChunkTable)
        requires
            coordinate_has_neighbours(cx as int),
            coordinate_has_neighbours(cz as int),
        ensures
            stored_chunks(snapshot) == neighbourhood_part(self.stored(), cx as int, cz as int),
            neighbourhood_stored(self.stored(), cx as int, cz as int) ==> neighbourhood_stored(
                stored_chunks(snapshot),
                cx as int,
                cz as int,
            ),
            mesh_vertices(stored_chunks(snapshot), cx as int, cz as int) == mesh_vertices(
                self.stored(),
                cx as int,
                cz as int,
            ),
    {
        let keys: [(i32, i32); 5] = [
            (cx, cz),
            (cx + 1, cz),
            (cx - 1, cz),
            (cx, cz + 1),
            (cx, cz - 1),
        ];
        let ghost all_keys = neighbourhood_keys(cx as int, cz as int);
        assert(keys@ =~= all_keys);
        let mut snapshot = new_chunk_table();
        let mut i: usize = 0;
        while i < 5
            invariant
                0 <= i <= 5,
                keys@ == all_keys,
                stored_chunks(snapshot) == self.stored().restrict(all_keys.take(i as int).to_set()),
            decreases 5 - i,
        {
            let ghost before = all_keys.take(i as int).to_set();
            assert(all_keys.take(i + 1) =~= all_keys.take(i as int).push(all_keys[i as int]));
            proof {
                all_keys.take(i as int).lemma_push_to_set_commute(all_keys[i as int]);
            }
            match chunk_table_get(&self.voxel_data, keys[i]) {
                Some(data) => {
                    chunk_table_insert(&mut snapshot, keys[i], data);
                    assert(stored_chunks(snapshot) =~= self.stored().restrict(
                        all_keys.take(i + 1).to_set(),
                    ));
                },
                None => {
                    assert(stored_chunks(snapshot) =~= self.stored().restrict(
                        all_keys.take(i + 1).to_set(),
                    ));
                },
            }
            i = i + 1;
        }
        proof {
            assert(all_keys.take(5) =~= all_keys);
            let part = neighbourhood_part(self.stored(), cx as int, cz as int);
            assert forall|k: int| 0 <= k < 5 implies #[trigger] same_entry(
                part,
                self.stored(),
                neighbourhood_keys(cx as int, cz as int)[k],
            ) by {
                assert(all_keys.to_set().contains(all_keys[k]));
            }
            lemma_mesh_depends_on_neighbourhood(part, self.stored(), cx as int, cz as int);
            if neighbourhood_stored(self.stored(), cx as int, cz as int) {
                assert forall|k: int| 0 <= k < 5 implies part.dom().contains(
                    #[trigger] neighbourhood_keys(cx as int, cz as int)[k],
                ) by {
                    assert(all_keys.to_set().contains(all_keys[k]));
                }
            }
        }
        snapshot
    }

    /// The voxels of chunk `(cx, cz)` for the given column heights
    /// (`column_heights[x + z * CHUNK_SIZE]` is the height of column `(x, z)`).
    pub fn generate_chunk_data(column_heights: &Vec<i32>) -> (mesh_data: MeshData)
        requires
            column_heights.len() == CHUNK_AREA,
        ensures
            is_terrain(mesh_data.voxels@, column_heights@),
    {
        let mesh_data = MeshData::generate_mesh_data(column_heights);
        mesh_data
    }
}

} // verus!
