//! The chunk-index registry and the chunk store it refers into.
//!
//! A [`VoxelWorld`] maps integer chunk coordinates to the [`Entity`] handle
//! that currently owns the chunk there. It is a back-reference only: it never
//! owns chunk data, and it is pruned and fully repopulated once per tick by
//! the [`Bookkeeper`] pass, before any meshing runs.

use vstd::pervasive::VecAdditionalExecFns;
use vstd::prelude::*;

use crate::data::{flat_index, ChunkData, Voxel};
use crate::mesh::ChunkQuads;

verus! {

/// A stable handle identifying one chunk entity: its slot in the
/// [`ChunkStore`].
pub type Entity = usize;

/// An integer 3-tuple identifying a chunk's position in chunk-space (one
/// chunk-space unit is 16 voxel-space units).
#[derive(Clone, Copy, Debug, PartialEq, Eq, Structural)]
pub struct ChunkIndex {
    pub x: i32,
    pub y: i32,
    pub z: i32,
}

impl From<(i32, i32, i32)> for ChunkIndex {
    fn from(value: (i32, i32, i32)) -> (r: ChunkIndex) {
        ChunkIndex { x: value.0, y: value.1, z: value.2 }
    }
}

impl vstd::std_specs::convert::FromSpecImpl<(i32, i32, i32)> for ChunkIndex {
    open spec fn obeys_from_spec() -> bool {
        true
    }

    open spec fn from_spec(value: (i32, i32, i32)) -> ChunkIndex {
        ChunkIndex { x: value.0, y: value.1, z: value.2 }
    }
}

/// The coordinates of a chunk index as a plain tuple.
pub open spec fn index_tuple(index: ChunkIndex) -> (i32, i32, i32) {
    (index.x, index.y, index.z)
}

impl ChunkIndex {
    /// The coordinates of this chunk index as a plain tuple.
    pub fn as_tuple(&self) -> (r: (i32, i32, i32))
        ensures
            r == index_tuple(*self),
    {
        (self.x, self.y, self.z)
    }
}

impl Default for ChunkIndex {
    /// The chunk index at the origin of chunk-space.
    fn default() -> (r: Self)
        ensures
            r == (ChunkIndex { x: 0, y: 0, z: 0 }),
    {
        ChunkIndex { x: 0, y: 0, z: 0 }
    }
}

/// Everything one chunk entity carries: its position in chunk-space, its
/// voxels, its derived quads, and whether the voxels changed since the
/// chunk was last meshed.
#[derive(Debug)]
pub struct ChunkSlot {
    /// Where in chunk-space the chunk sits.
    pub index: ChunkIndex,
    /// The chunk's voxels.
    pub data: ChunkData,
    /// Set when the voxels were inserted or modified since the last remesh.
    pub dirty: bool,
    /// The chunk's current mesh, replaced wholesale on every remesh.
    pub quads: ChunkQuads,
}

/// `true` when `h` is the handle of a live chunk entity in slots `s`.
pub open spec fn spec_live(s: Seq<Option<ChunkSlot>>, h: int) -> bool {
    0 <= h < s.len() && s[h] is Some
}

/// Storage of all chunk entities, addressed by [`Entity`] handle. A handle
/// stays stable for the entity's lifetime; removing an entity leaves its
/// slot vacant.
pub struct ChunkStore {
    slots: Vec<Option<ChunkSlot>>,
}

impl View for ChunkStore {
    type V = Seq<Option<ChunkSlot>>;

    closed spec fn view(&self) -> Seq<Option<ChunkSlot>> {
        self.slots@
    }
}

impl ChunkStore {
    /// An empty store.
    pub fn new() -> (s: Self)
        ensures
            s@ == Seq::<Option<ChunkSlot>>::empty(),
    {
        ChunkStore { slots: Vec::new() }
    }

    /// Number of slots ever allocated (live or vacant).
    pub fn len(&self) -> (n: usize)
        ensures
            n == self@.len(),
    {
        self.slots.len()
    }

    /// Create a chunk entity at `index` holding `data`, marked dirty so the
    /// next meshing pass picks it up; returns its handle.
    pub fn insert_chunk(&mut self, index: ChunkIndex, data: ChunkData) -> (h: Entity)
        ensures
            h == old(self)@.len(),
            final(self)@.len() == old(self)@.len() + 1,
            forall|j: int| 0 <= j < old(self)@.len() ==> final(self)@[j] == old(self)@[j],
            final(self)@[h as int] matches Some(slot) && {
                &&& slot.index == index
                &&& slot.data == data
                &&& slot.dirty == true
                &&& slot.quads@ == Seq::<crate::mesh::Quad>::empty()
            },
    {
        let h = self.slots.len();
        self.slots.push(Some(ChunkSlot { index, data, dirty: true, quads: ChunkQuads { quads: Vec::new() } }));
        h
    }

    /// Destroy the entity at `h`, leaving its slot vacant; a handle that is
    /// out of range or already vacant is left as it is.
    pub fn remove_chunk(&mut self, h: Entity)
        ensures
            h < old(self)@.len() ==> final(self)@ == old(self)@.update(h as int, None),
            h >= old(self)@.len() ==> final(self)@ == old(self)@,
    {
        if h < self.slots.len() {
            self.slots.set(h, None);
        }
    }

    /// `true` when `h` refers to a live chunk entity.
    pub fn is_alive(&self, h: Entity) -> (r: bool)
        ensures
            r == spec_live(self@, h as int),
    {
        h < self.slots.len() && self.slots[h].is_some()
    }

    /// Borrow the slot at `h`, or `None` when the handle is out of range or
    /// vacant.
    pub fn get_slot(&self, h: Entity) -> (r: Option<&ChunkSlot>)
        ensures
            spec_live(self@, h as int) ==> (r matches Some(slot) && *slot == self@[h as int].unwrap()),
            !spec_live(self@, h as int) ==> r is None,
    {
        if h < self.slots.len() {
            self.slots[h].as_ref()
        } else {
            None
        }
    }

    /// Borrow the chunk data of the entity at `h`, or `None` when the handle
    /// is dead.
    pub fn get_data(&self, h: Entity) -> (r: Option<&ChunkData>)
        ensures
            spec_live(self@, h as int) ==> (r matches Some(data) && *data == self@[h as int].unwrap().data),
            !spec_live(self@, h as int) ==> r is None,
    {
        match self.get_slot(h) {
            Some(slot) => Some(&slot.data),
            None => None,
        }
    }

    /// Overwrite one voxel of the chunk at `h` and mark the chunk dirty.
    /// This is the edit path: the mesher later re-derives the chunk's quads.
    pub fn set_voxel(&mut self, h: Entity, pos: (usize, usize, usize), value: Voxel)
        requires
            spec_live(old(self)@, h as int),
            pos.0 < 16,
            pos.1 < 16,
            pos.2 < 16,
        ensures
            final(self)@.len() == old(self)@.len(),
            final(self)@[h as int] matches Some(slot) && {
                let prev = old(self)@[h as int].unwrap();
                &&& slot.index == prev.index
                &&& slot.quads == prev.quads
                &&& slot.dirty == true
                &&& slot.data@ == prev.data@.update(
                    flat_index(pos.0 as int, pos.1 as int, pos.2 as int),
                    value,
                )
            },
            forall|j: int| 0 <= j < old(self)@.len() && j != h ==> final(self)@[j] == old(self)@[j],
    {
        let mut taken: Option<ChunkSlot> = None;
        self.slots.set_and_swap(h, &mut taken);
        let mut slot = taken.unwrap();
        slot.data.set_voxel(pos, value);
        slot.dirty = true;
        self.slots.set(h, Some(slot));
    }

    /// Replace the quads of the chunk at `h` wholesale and clear its dirty
    /// mark: the chunk's mesh now reflects its voxels.
    pub fn publish_quads(&mut self, h: Entity, quads: ChunkQuads)
        requires
            spec_live(old(self)@, h as int),
        ensures
            final(self)@.len() == old(self)@.len(),
            final(self)@[h as int] matches Some(slot) && {
                let prev = old(self)@[h as int].unwrap();
                &&& slot.index == prev.index
                &&& slot.data == prev.data
                &&& slot.dirty == false
                &&& slot.quads == quads
            },
            forall|j: int| 0 <= j < old(self)@.len() && j != h ==> final(self)@[j] == old(self)@[j],
    {
        let mut taken: Option<ChunkSlot> = None;
        self.slots.set_and_swap(h, &mut taken);
        let mut slot = taken.unwrap();
        slot.quads = quads;
        slot.dirty = false;
        self.slots.set(h, Some(slot));
    }
}

/// The fnv-backed map under the [`VoxelWorld`]: chunk coordinates to entity
/// handle. The map itself is `fnv`'s `FnvHashMap`, held opaquely; the
/// wrappers below say what its operations do in terms of
/// [`index_map_of`].
#[verifier::external_body]
pub struct IndexMap {
    map: fnv::FnvHashMap<(i32, i32, i32), usize>,
}

/// The pairs an [`IndexMap`] currently holds.
pub uninterp spec fn index_map_of(m: IndexMap) -> Map<(i32, i32, i32), usize>;

/// A world index mapping with nothing in it.
pub open spec fn empty_index_map() -> Map<(i32, i32, i32), usize> {
    Map::<(i32, i32, i32), usize>::empty()
}

/// Relies on `HashMap::default` (through fnv's `FnvHashMap` alias): a fresh
/// map holds nothing.
#[verifier::external_body]
fn imap_new() -> (m: IndexMap)
    ensures
        index_map_of(m) == empty_index_map(),
{
    IndexMap { map: fnv::FnvHashMap::default() }
}

/// Relies on `HashMap::insert`: afterwards the map holds `v` at `k` and is
/// otherwise unchanged.
#[verifier::external_body]
fn imap_insert(m: &mut IndexMap, k: (i32, i32, i32), v: usize)
    ensures
        index_map_of(*final(m)) == index_map_of(*old(m)).insert(k, v),
{
    m.map.insert(k, v);
}

/// Relies on `HashMap::get`: `Some` exactly at the keys the map holds, with
/// the value stored there.
#[verifier::external_body]
fn imap_get(m: &IndexMap, k: (i32, i32, i32)) -> (r: Option<usize>)
    ensures
        r == if index_map_of(*m).dom().contains(k) {
            Some(index_map_of(*m)[k])
        } else {
            None::<usize>
        },
{
    m.map.get(&k).copied()
}

/// The map `m` restricted to the pairs whose entity handle is live in
/// `slots`.
pub open spec fn spec_cleared(
    m: Map<(i32, i32, i32), usize>,
    slots: Seq<Option<ChunkSlot>>,
) -> Map<(i32, i32, i32), usize> {
    Map::<(i32, i32, i32), usize>::new(
        |k: (i32, i32, i32)| m.dom().contains(k) && spec_live(slots, m[k] as int),
        |k: (i32, i32, i32)| m[k],
    )
}

/// Relies on `HashMap::retain`: keeps exactly the pairs on which the
/// predicate returns true; the predicate here is the verified
/// [`ChunkStore::is_alive`].
#[verifier::external_body]
fn imap_retain_live(m: &mut IndexMap, store: &ChunkStore)
    ensures
        index_map_of(*final(m)) == spec_cleared(index_map_of(*old(m)), store@),
{
    m.map.retain(|_, e| store.is_alive(*e));
}

/// A resource that keeps track of the entities representing chunks: a
/// process-wide mapping from chunk coordinates to the owning entity handle.
pub struct VoxelWorld {
    map: IndexMap,
}

impl View for VoxelWorld {
    type V = Map<(i32, i32, i32), usize>;

    closed spec fn view(&self) -> Map<(i32, i32, i32), usize> {
        index_map_of(self.map)
    }
}

impl VoxelWorld {
    /// A world index that maps nothing yet.
    pub fn new() -> (w: Self)
        ensures
            w@ == Map::<(i32, i32, i32), usize>::empty(),
    {
        VoxelWorld { map: imap_new() }
    }

    /// Register (or overwrite: last writer wins) the mapping for a chunk
    /// index. Callers must guarantee at most one live chunk per index.
    pub fn insert(&mut self, index: (i32, i32, i32), entity: Entity)
        ensures
            final(self)@ == old(self)@.insert(index, entity),
    {
        imap_insert(&mut self.map, index, entity);
    }

    /// The entity handle registered for `index`, or `None` when absent. An
    /// unknown coordinate is not an error: the mesher treats it as "no
    /// data".
    pub fn get_entity(&self, index: (i32, i32, i32)) -> (r: Option<Entity>)
        ensures
            r == if self@.dom().contains(index) {
                Some(self@[index])
            } else {
                None::<Entity>
            },
    {
        imap_get(&self.map, index)
    }

    /// Drop every mapping whose referenced entity no longer exists in
    /// `store`.
    pub fn clear_dead(&mut self, store: &ChunkStore)
        ensures
            final(self)@ == spec_cleared(old(self)@, store@),
    {
        imap_retain_live(&mut self.map, store);
    }
}

/// The world index after re-inserting, in handle order, the mapping of
/// every live chunk among the first `n` slots.
pub open spec fn spec_rebuild(
    m: Map<(i32, i32, i32), usize>,
    slots: Seq<Option<ChunkSlot>>,
    n: int,
) -> Map<(i32, i32, i32), usize>
    decreases n,
{
    if n <= 0 {
        m
    } else {
        let prev = spec_rebuild(m, slots, n - 1);
        match slots[n - 1] {
            Some(slot) => prev.insert(index_tuple(slot.index), (n - 1) as usize),
            None => prev,
        }
    }
}

/// `true` when no two live slots among the first `n` share a chunk index.
pub open spec fn unique_indices(slots: Seq<Option<ChunkSlot>>, n: int) -> bool {
    forall|h1: int, h2: int|
        0 <= h1 < h2 < n && spec_live(slots, h1) && spec_live(slots, h2)
            ==> index_tuple(slots[h1].unwrap().index) != index_tuple(slots[h2].unwrap().index)
}

/// Rebuilding resolves every live handle, provided live chunk indices are
/// unique (the invariant the surrounding application maintains).
proof fn lemma_rebuild_resolves(
    m: Map<(i32, i32, i32), usize>,
    slots: Seq<Option<ChunkSlot>>,
    n: int,
)
    requires
        n <= slots.len(),
        unique_indices(slots, n),
    ensures
        forall|h: int|
            0 <= h < n && spec_live(slots, h) ==> #[trigger] spec_rebuild(m, slots, n).contains_pair(
                index_tuple(slots[h].unwrap().index),
                h as usize,
            ),
    decreases n,
{
    if n > 0 {
        lemma_rebuild_resolves(m, slots, n - 1);
        assert forall|h: int| 0 <= h < n && spec_live(slots, h) implies spec_rebuild(
            m,
            slots,
            n,
        ).contains_pair(index_tuple(slots[h].unwrap().index), h as usize) by {
            if h < n - 1 {
                assert(spec_rebuild(m, slots, n - 1).contains_pair(
                    index_tuple(slots[h].unwrap().index),
                    h as usize,
                ));
                if spec_live(slots, n - 1) {
                    assert(index_tuple(slots[h].unwrap().index) != index_tuple(
                        slots[n - 1].unwrap().index,
                    ));
                }
            }
        }
    }
}

/// Updates the [`VoxelWorld`] to represent the current scene: once per
/// tick, before meshing, it prunes dead entities and re-registers every
/// live chunk.
pub struct Bookkeeper;

impl Bookkeeper {
    /// Prune the index of dead entities, then re-insert the `(index,
    /// entity)` pair of every live chunk. When live chunk indices are unique
    /// the rebuilt index resolves every live chunk's coordinates to its
    /// handle.
    pub fn run(world: &mut VoxelWorld, store: &ChunkStore)
        ensures
            final(world)@ == spec_rebuild(
                spec_cleared(old(world)@, store@),
                store@,
                store@.len() as int,
            ),
            unique_indices(store@, store@.len() as int) ==> forall|h: int|
                spec_live(store@, h) ==> #[trigger] final(world)@.contains_pair(
                    index_tuple(store@[h].unwrap().index),
                    h as usize,
                ),
    {
        world.clear_dead(store);
        let ghost cleared = world@;
        let n = store.len();
        let mut h: usize = 0;
        while h < n
            invariant
                n == store@.len(),
                h <= n,
                world@ == spec_rebuild(cleared, store@, h as int),
            decreases n - h,
        {
            match store.get_slot(h) {
                Some(slot) => {
                    world.insert(slot.index.as_tuple(), h);
                },
                None => {},
            }
            h = h + 1;
        }
        proof {
            if unique_indices(store@, store@.len() as int) {
                lemma_rebuild_resolves(cleared, store@, store@.len() as int);
            }
        }
    }
}

/// Positions chunks in world space: a chunk's translation is its index
/// scaled by the chunk size. The surrounding application applies the
/// resulting translation to its scene transform.
pub struct ChunkIndexPositionSystem;

impl ChunkIndexPositionSystem {
    /// The world-space translation of the chunk at `index`: 16 voxels per
    /// chunk-space unit along each axis.
    pub fn translation(index: ChunkIndex) -> (t: (i32, i32, i32))
        requires
            -0x8000_0000 <= 16 * index.x < 0x8000_0000,
            -0x8000_0000 <= 16 * index.y < 0x8000_0000,
            -0x8000_0000 <= 16 * index.z < 0x8000_0000,
        ensures
            t.0 == 16 * index.x,
            t.1 == 16 * index.y,
            t.2 == 16 * index.z,
    {
        (16 * index.x, 16 * index.y, 16 * index.z)
    }
}

} // verus!
