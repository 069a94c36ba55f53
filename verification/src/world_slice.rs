//! Cross-chunk voxel resolution.
//!
//! A [`WorldSlice`] is a per-meshing-pass read view that resolves a voxel
//! query at any integer coordinate — including coordinates outside the
//! origin chunk's local bounds, possibly negative — to a voxel value, by
//! consulting the world index and the chunk store. The chunk offset of a
//! coordinate is its floor division by the chunk size and the local
//! coordinate its floor modulo, so that recombining the two reproduces the
//! coordinate exactly, negative coordinates included.

use vstd::arithmetic::div_mod::{lemma_fundamental_div_mod, lemma_fundamental_div_mod_converse};
use vstd::prelude::*;

use crate::data::{ChunkData, Voxel};
use crate::world::{spec_live, ChunkSlot, ChunkStore, VoxelWorld};

verus! {

/// The chunk offset of coordinate `n`: floor division by 16, so that `-1`
/// maps to chunk offset `-1`, as mathematical floor behavior requires.
pub open spec fn spec_chunk_offset(n: int) -> int {
    n / 16
}

/// The local coordinate of `n` within its chunk: floor modulo by 16, always
/// in `[0, 16)`.
pub open spec fn spec_local_coord(n: int) -> int {
    n % 16
}

/// Law: splitting any integer coordinate into its chunk offset and its
/// local coordinate and recombining them reproduces the coordinate exactly,
/// negative coordinates included (`-1` splits into chunk offset `-1` and
/// local coordinate `15`).
pub proof fn lemma_coordinate_roundtrip(n: int)
    ensures
        16 * spec_chunk_offset(n) + spec_local_coord(n) == n,
        0 <= spec_local_coord(n) < 16,
{
    lemma_fundamental_div_mod(n, 16);
}

/// The chunk offset of coordinate `v`: `v` divided by the chunk size,
/// rounding toward negative infinity.
pub fn adjust_origin_offset(v: i32) -> (r: i32)
    ensures
        r as int == spec_chunk_offset(v as int),
{
    if v >= 0 {
        let q = (v as u32) / 16;
        proof {
            lemma_fundamental_div_mod(v as int, 16);
        }
        q as i32
    } else {
        let m = (-(v as i64)) as u32;
        let q = (m + 15) / 16;
        proof {
            // m == -v; with m == 16 * a + b (0 <= b < 16) the Euclidean
            // quotient of -m is -a when b == 0 and -(a + 1) otherwise,
            // which is exactly -((m + 15) / 16).
            let a = (m as int) / 16;
            let b = (m as int) % 16;
            lemma_fundamental_div_mod(m as int, 16);
            if b == 0 {
                lemma_fundamental_div_mod_converse((m + 15) as int, 16, a, 15);
                lemma_fundamental_div_mod_converse(v as int, 16, -a, 0);
            } else {
                lemma_fundamental_div_mod_converse((m + 15) as int, 16, a + 1, b - 1);
                lemma_fundamental_div_mod_converse(v as int, 16, -a - 1, 16 - b);
            }
        }
        -(q as i32)
    }
}

/// The local coordinate of `v` within its chunk: always non-negative, also
/// for negative `v`.
pub fn adjust(v: i32) -> (r: usize)
    ensures
        r as int == spec_local_coord(v as int),
        r < 16,
{
    if v >= 0 {
        let r = ((v as u32) % 16) as usize;
        proof {
            lemma_fundamental_div_mod(v as int, 16);
        }
        r
    } else {
        let m = (-(v as i64)) as u32;
        let b = m % 16;
        proof {
            let a = (m as int) / 16;
            lemma_fundamental_div_mod(m as int, 16);
            if b == 0 {
                lemma_fundamental_div_mod_converse(v as int, 16, -(a as int), 0);
            } else {
                lemma_fundamental_div_mod_converse(v as int, 16, -(a as int) - 1, 16 - b);
            }
        }
        if b == 0 {
            0
        } else {
            (16 - b) as usize
        }
    }
}

/// `true` when `n` fits the range of the 32-bit chunk coordinates the world
/// index is keyed by.
pub open spec fn in_i32_range(n: int) -> bool {
    -0x8000_0000 <= n < 0x8000_0000
}

/// The chunk data registered at chunk coordinates `c`: the world index must
/// hold an entity there and the store must hold a live chunk for that
/// entity; any other coordinate resolves to "no data".
pub open spec fn spec_chunk_at(
    world: Map<(i32, i32, i32), usize>,
    slots: Seq<Option<ChunkSlot>>,
    c: (int, int, int),
) -> Option<ChunkData> {
    if in_i32_range(c.0) && in_i32_range(c.1) && in_i32_range(c.2) {
        let key = (c.0 as i32, c.1 as i32, c.2 as i32);
        if world.dom().contains(key) && spec_live(slots, world[key] as int) {
            Some(slots[world[key] as int].unwrap().data)
        } else {
            None
        }
    } else {
        None
    }
}

/// What a slice with origin `origin` resolves at local coordinates `p`
/// (components may be any integer): the voxel of the chunk `p` falls in, at
/// `p`'s local coordinate within that chunk, or "unknown" when no chunk is
/// loaded there.
pub open spec fn spec_slice_voxel(
    world: Map<(i32, i32, i32), usize>,
    slots: Seq<Option<ChunkSlot>>,
    origin: (i32, i32, i32),
    p: (int, int, int),
) -> Option<Voxel> {
    let c = (
        origin.0 + spec_chunk_offset(p.0),
        origin.1 + spec_chunk_offset(p.1),
        origin.2 + spec_chunk_offset(p.2),
    );
    match spec_chunk_at(world, slots, c) {
        Some(data) => Some(
            data.spec_voxel(
                spec_local_coord(p.0),
                spec_local_coord(p.1),
                spec_local_coord(p.2),
            ),
        ),
        None => None,
    }
}

/// `Some` borrowed chunk data seen as `Some` owned chunk data.
pub open spec fn deref_opt(o: Option<&ChunkData>) -> Option<ChunkData> {
    match o {
        Some(c) => Some(*c),
        None => None,
    }
}

/// A read view over the chunk store and the world index for one meshing
/// pass, centered on an origin chunk. The Moore neighborhood of the origin
/// (its 27 surrounding chunks, itself included) is pre-resolved for O(1)
/// access; farther coordinates fall back to a full index lookup.
pub struct WorldSlice<'a> {
    chunk_datas: &'a ChunkStore,
    voxel_world: &'a VoxelWorld,
    /// chunk index representing the origin for this slice
    origin: (i32, i32, i32),
    /// the Moore neighborhood of chunk datas for immediate access
    moore_neighborhood: Vec<Option<&'a ChunkData>>,
}

/// The cached Moore entry for chunk offset (`ox`, `oy`, `oz`), each in
/// `[-1, 1]`.
pub open spec fn moore_at<'a>(
    moore: Seq<Option<&'a ChunkData>>,
    ox: int,
    oy: int,
    oz: int,
) -> Option<&'a ChunkData> {
    moore[(ox + 1) * 9 + (oy + 1) * 3 + (oz + 1)]
}

impl<'a> WorldSlice<'a> {
    /// The chunk coordinates this slice is centered on.
    pub closed spec fn origin(&self) -> (i32, i32, i32) {
        self.origin
    }

    /// The world index this slice reads.
    pub closed spec fn world_view(&self) -> Map<(i32, i32, i32), usize> {
        self.voxel_world@
    }

    /// The chunk store this slice reads.
    pub closed spec fn slots_view(&self) -> Seq<Option<ChunkSlot>> {
        self.chunk_datas@
    }

    #[verifier::type_invariant]
    spec fn wf(self) -> bool {
        &&& self.moore_neighborhood@.len() == 27
        &&& forall|ox: int, oy: int, oz: int|
            -1 <= ox <= 1 && -1 <= oy <= 1 && -1 <= oz <= 1 ==> deref_opt(
                #[trigger] moore_at(self.moore_neighborhood@, ox, oy, oz),
            ) == spec_chunk_at(
                self.voxel_world@,
                self.chunk_datas@,
                (self.origin.0 + ox, self.origin.1 + oy, self.origin.2 + oz),
            )
    }

    /// Resolve the chunk at coordinates `origin + (ox, oy, oz)` (computed
    /// without overflow) through the world index and the chunk store.
    fn lookup_chunk(
        chunk_datas: &'a ChunkStore,
        voxel_world: &'a VoxelWorld,
        origin: (i32, i32, i32),
        ox: i32,
        oy: i32,
        oz: i32,
    ) -> (r: Option<&'a ChunkData>)
        requires
            -0x0800_0000 <= ox <= 0x0800_0000,
            -0x0800_0000 <= oy <= 0x0800_0000,
            -0x0800_0000 <= oz <= 0x0800_0000,
        ensures
            deref_opt(r) == spec_chunk_at(
                voxel_world@,
                chunk_datas@,
                (origin.0 + ox as int, origin.1 + oy as int, origin.2 + oz as int),
            ),
    {
        let cx = origin.0 as i64 + ox as i64;
        let cy = origin.1 as i64 + oy as i64;
        let cz = origin.2 as i64 + oz as i64;
        if cx < -0x8000_0000 || cx > 0x7fff_ffff || cy < -0x8000_0000 || cy > 0x7fff_ffff || cz
            < -0x8000_0000 || cz > 0x7fff_ffff {
            return None;
        }
        match voxel_world.get_entity((cx as i32, cy as i32, cz as i32)) {
            Some(entity) => chunk_datas.get_data(entity),
            None => None,
        }
    }

    /// Build a slice around `origin`, pre-resolving the Moore neighborhood
    /// of the origin chunk.
    pub fn new(
        chunk_datas: &'a ChunkStore,
        voxel_world: &'a VoxelWorld,
        origin: (i32, i32, i32),
    ) -> (slice: WorldSlice<'a>)
        ensures
            slice.origin() == origin,
            slice.world_view() == voxel_world@,
            slice.slots_view() == chunk_datas@,
    {
        let mut moore_neighborhood: Vec<Option<&'a ChunkData>> = Vec::new();
        let mut x: usize = 0;
        while x < 3
            invariant
                x <= 3,
                moore_neighborhood@.len() == 9 * x,
                forall|ox: int, oy: int, oz: int|
                    -1 <= ox <= 1 && -1 <= oy <= 1 && -1 <= oz <= 1 && (ox + 1) * 9 + (oy + 1) * 3
                        + (oz + 1) < 9 * x ==> deref_opt(
                        #[trigger] moore_at(moore_neighborhood@, ox, oy, oz),
                    ) == spec_chunk_at(
                        voxel_world@,
                        chunk_datas@,
                        (origin.0 + ox, origin.1 + oy, origin.2 + oz),
                    ),
            decreases 3 - x,
        {
            let mut y: usize = 0;
            while y < 3
                invariant
                    x < 3,
                    y <= 3,
                    moore_neighborhood@.len() == 9 * x + 3 * y,
                    forall|ox: int, oy: int, oz: int|
                        -1 <= ox <= 1 && -1 <= oy <= 1 && -1 <= oz <= 1 && (ox + 1) * 9 + (oy + 1)
                            * 3 + (oz + 1) < 9 * x + 3 * y ==> deref_opt(
                            #[trigger] moore_at(moore_neighborhood@, ox, oy, oz),
                        ) == spec_chunk_at(
                            voxel_world@,
                            chunk_datas@,
                            (origin.0 + ox, origin.1 + oy, origin.2 + oz),
                        ),
                decreases 3 - y,
            {
                let mut z: usize = 0;
                while z < 3
                    invariant
                        x < 3,
                        y < 3,
                        z <= 3,
                        moore_neighborhood@.len() == 9 * x + 3 * y + z,
                        forall|ox: int, oy: int, oz: int|
                            -1 <= ox <= 1 && -1 <= oy <= 1 && -1 <= oz <= 1 && (ox + 1) * 9 + (oy
                                + 1) * 3 + (oz + 1) < 9 * x + 3 * y + z ==> deref_opt(
                                #[trigger] moore_at(moore_neighborhood@, ox, oy, oz),
                            ) == spec_chunk_at(
                                voxel_world@,
                                chunk_datas@,
                                (origin.0 + ox, origin.1 + oy, origin.2 + oz),
                            ),
                    decreases 3 - z,
                {
                    let entry = Self::lookup_chunk(
                        chunk_datas,
                        voxel_world,
                        origin,
                        x as i32 - 1,
                        y as i32 - 1,
                        z as i32 - 1,
                    );
                    let ghost prev = moore_neighborhood@;
                    moore_neighborhood.push(entry);
                    proof {
                        let m = moore_neighborhood@;
                        assert forall|ox: int, oy: int, oz: int|
                            -1 <= ox <= 1 && -1 <= oy <= 1 && -1 <= oz <= 1 && (ox + 1) * 9 + (oy
                                + 1) * 3 + (oz + 1) < 9 * x + 3 * y + z + 1 implies deref_opt(
                            #[trigger] moore_at(m, ox, oy, oz),
                        ) == spec_chunk_at(
                            voxel_world@,
                            chunk_datas@,
                            (origin.0 + ox, origin.1 + oy, origin.2 + oz),
                        ) by {
                            let idx = (ox + 1) * 9 + (oy + 1) * 3 + (oz + 1);
                            if idx < 9 * x + 3 * y + z {
                                assert(moore_at(m, ox, oy, oz) == moore_at(prev, ox, oy, oz));
                            } else {
                                assert(ox == x - 1 && oy == y - 1 && oz == z - 1);
                                assert(moore_at(m, ox, oy, oz) == entry);
                            }
                        }
                    }
                    z = z + 1;
                }
                y = y + 1;
            }
            x = x + 1;
        }
        WorldSlice { chunk_datas, voxel_world, origin, moore_neighborhood }
    }

    /// `true` when a chunk offset lies within the cached Moore neighborhood.
    fn chunk_is_in_moore(&self, index: (i32, i32, i32)) -> (r: bool)
        ensures
            r == (-1 <= index.0 <= 1 && -1 <= index.1 <= 1 && -1 <= index.2 <= 1),
    {
        let (x, y, z) = index;
        (x >= -1 && x <= 1) && (y >= -1 && y <= 1) && (z >= -1 && z <= 1)
    }

    /// Resolve the voxel at `index`, whose components may be any integer:
    /// coordinates outside `[0, 16)` land in neighboring chunks. `None`
    /// means no chunk is loaded there — the mesher treats that as
    /// transparent, never as an error.
    pub fn get_voxel(&self, index: (i32, i32, i32)) -> (r: Option<Voxel>)
        ensures
            r == spec_slice_voxel(
                self.world_view(),
                self.slots_view(),
                self.origin(),
                (index.0 as int, index.1 as int, index.2 as int),
            ),
    {
        proof {
            use_type_invariant(self);
        }
        let origin_offset = (
            adjust_origin_offset(index.0),
            adjust_origin_offset(index.1),
            adjust_origin_offset(index.2),
        );
        let chunk_index = (adjust(index.0), adjust(index.1), adjust(index.2));

        let chunk_data: Option<&ChunkData> = if self.chunk_is_in_moore(origin_offset) {
            let (o_x, o_y, o_z) = origin_offset;
            let slot = ((o_x + 1) * 9 + (o_y + 1) * 3 + (o_z + 1)) as usize;
            proof {
                assert(moore_at(self.moore_neighborhood@, o_x as int, o_y as int, o_z as int)
                    == self.moore_neighborhood@[slot as int]);
            }
            self.moore_neighborhood[slot]
        } else {
            Self::lookup_chunk(
                self.chunk_datas,
                self.voxel_world,
                self.origin,
                origin_offset.0,
                origin_offset.1,
                origin_offset.2,
            )
        };
        match chunk_data {
            Some(cd) => Some(cd.get_voxel(chunk_index)),
            None => None,
        }
    }

    /// Resolve the voxel at `index` as seen from `_side`; every side of a
    /// voxel currently shows the same material.
    pub fn get_voxel_face(&self, index: (i32, i32, i32), _side: crate::side::Side) -> (r: Option<
        Voxel,
    >)
        ensures
            r == spec_slice_voxel(
                self.world_view(),
                self.slots_view(),
                self.origin(),
                (index.0 as int, index.1 as int, index.2 as int),
            ),
    {
        self.get_voxel(index)
    }
}

} // verus!
