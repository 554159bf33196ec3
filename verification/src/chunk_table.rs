//! The concurrent map from chunk coordinates to chunk data that chunks are
//! stored in, and the set of chunk coordinates kept beside it, with what each
//! of its operations does to the coordinates and data it holds.
//!
//! The contracts below speak of the contents of a map as a function of the
//! map's value. A `DashMap` can also be changed through a shared reference;
//! what is stated holds when no other thread changes the map during the call.
//! Within this crate every change goes through a `&mut` wrapper below.
use vstd::prelude::*;
use std::sync::Arc;
use dashmap::DashMap;
use crate::mesh_data::MeshData;

verus! {

/// `dashmap::DashMap`, declared so that it can stand in signatures and fields; its
/// contents are seen only through `stored_chunks` and `marked_chunks`.
#[verifier::external_type_specification]
#[verifier::external_body]
#[verifier::reject_recursive_types(K)]
#[verifier::reject_recursive_types(V)]
#[verifier::reject_recursive_types(S)]
pub struct ExDashMap<K, V, S>(DashMap<K, V, S>);

/// Chunk data keyed by chunk coordinates `(chunk_x, chunk_z)`.
pub type ChunkTable = DashMap<(i32, i32), Arc<MeshData>>;

/// A set of chunk coordinates, kept as a map to `()`.
pub type ChunkSet = DashMap<(i32, i32), ()>;

/// What a chunk table holds: for each stored key, the voxels of its chunk.
pub uninterp spec fn stored_chunks(table: DashMap<(i32, i32), Arc<MeshData>>) -> Map<
    (i32, i32),
    Seq<u8>,
>;

/// What a chunk set holds: the keys present in it.
pub uninterp spec fn marked_chunks(set: DashMap<(i32, i32), ()>) -> Set<(i32, i32)>;

/// `DashMap::new`: a map with no entries.
#[verifier::external_body]
pub(crate) fn new_chunk_table() -> (table: DashMap<(i32, i32), Arc<MeshData>>)
    ensures
        stored_chunks(table) =~= Map::empty(),
{
    DashMap::new()
}

/// `DashMap::contains_key`: whether the key has an entry.
#[verifier::external_body]
pub(crate) fn chunk_table_contains(table: &ChunkTable, key: (i32, i32)) -> (found: bool)
    ensures
        found == stored_chunks(*table).dom().contains(key),
{
    table.contains_key(&key)
}

/// `DashMap::get`: the entry of the key, if any (a new handle to the same shared chunk).
/// The result is stated for a map that no other thread changes during the call.
#[verifier::external_body]
pub(crate) fn chunk_table_get(table: &ChunkTable, key: (i32, i32)) -> (data: Option<Arc<MeshData>>)
    ensures
        data is Some <==> stored_chunks(*table).dom().contains(key),
        data matches Some(d) ==> d.voxels@ == stored_chunks(*table)[key],
{
    match table.get(&key) {
        Some(entry) => Some(Arc::clone(entry.value())),
        None => None,
    }
}

/// `DashMap::insert`: the key now maps to the given chunk, replacing any earlier entry;
/// every other entry is unchanged.
#[verifier::external_body]
pub(crate) fn chunk_table_insert(table: &mut ChunkTable, key: (i32, i32), data: Arc<MeshData>)
    ensures
        stored_chunks(*final(table)) == stored_chunks(*old(table)).insert(key, data.voxels@),
{
    table.insert(key, data);
}

/// `DashMap::new`: a set with no keys.
#[verifier::external_body]
pub(crate) fn new_chunk_set() -> (set: ChunkSet)
    ensures
        marked_chunks(set) =~= Set::empty(),
{
    DashMap::new()
}

/// `DashMap::contains_key`: whether the key is in the set.
#[verifier::external_body]
pub(crate) fn chunk_set_contains(set: &ChunkSet, key: (i32, i32)) -> (found: bool)
    ensures
        found == marked_chunks(*set).contains(key),
{
    set.contains_key(&key)
}

/// `DashMap::insert`: the key is added to the set.
#[verifier::external_body]
pub(crate) fn chunk_set_insert(set: &mut ChunkSet, key: (i32, i32))
    ensures
        marked_chunks(*final(set)) == marked_chunks(*old(set)).insert(key),
{
    set.insert(key, ());
}

/// `DashMap::remove`: the key is taken out of the set.
#[verifier::external_body]
pub(crate) fn chunk_set_remove(set: &mut ChunkSet, key: (i32, i32))
    ensures
        marked_chunks(*final(set)) == marked_chunks(*old(set)).remove(key),
{
    set.remove(&key);
}

} // verus!
