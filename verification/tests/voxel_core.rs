use voxld::data::{ChunkData, CHUNK_SIZE};
use voxld::mesh::{ChunkQuads, Corner, MeshFaceSystem, Quad};
use voxld::side::{axis_face_of, side_of, Axis, Face, Side};
use voxld::world::{Bookkeeper, ChunkIndex, ChunkIndexPositionSystem, ChunkStore, VoxelWorld};
use voxld::world_slice::{adjust, adjust_origin_offset, WorldSlice};

fn count_side(quads: &[Quad], side: Side) -> usize {
    quads.iter().filter(|q| q.side == side).count()
}

fn meshed_quads(store: &ChunkStore, h: usize) -> Vec<Quad> {
    store.get_slot(h).unwrap().quads.quads.clone()
}

fn mesh_single_chunk(data: ChunkData) -> Vec<Quad> {
    let mut store = ChunkStore::new();
    let h = store.insert_chunk(ChunkIndex { x: 0, y: 0, z: 0 }, data);
    let mut world = VoxelWorld::new();
    Bookkeeper::run(&mut world, &store);
    let mut system = MeshFaceSystem::default();
    system.run(&mut store, &world);
    meshed_quads(&store, h)
}

#[test]
fn voxel_set_then_get_returns_value() {
    let mut chunk = ChunkData::default();
    chunk.set_voxel((3, 7, 11), 42);
    assert_eq!(chunk.get_voxel((3, 7, 11)), 42);
    // all other coordinates are unaffected
    for x in 0..CHUNK_SIZE {
        for y in 0..CHUNK_SIZE {
            for z in 0..CHUNK_SIZE {
                if (x, y, z) != (3, 7, 11) {
                    assert_eq!(chunk.get_voxel((x, y, z)), 0);
                }
            }
        }
    }
}

#[test]
fn voxel_overwrite_keeps_last_value() {
    let mut chunk = ChunkData::default();
    chunk.set_voxel((0, 0, 0), 1);
    chunk.set_voxel((0, 0, 0), 9);
    assert_eq!(chunk.get_voxel((0, 0, 0)), 9);
}

#[test]
fn in_range_bounds() {
    assert!(voxld::data::in_range(0, 16, 0));
    assert!(voxld::data::in_range(0, 16, 15));
    assert!(!voxld::data::in_range(0, 16, 16));
}

#[test]
fn coordinate_split_recombines_exactly() {
    for n in [-33i32, -17, -16, -15, -1, 0, 1, 15, 16, 17, 31, 32, 1000, -1000] {
        let offset = adjust_origin_offset(n);
        let local = adjust(n);
        assert!(local < 16);
        assert_eq!(16i64 * offset as i64 + local as i64, n as i64);
    }
    // the example the design fixes: -1 lands in chunk -1 at local 15
    assert_eq!(adjust_origin_offset(-1), -1);
    assert_eq!(adjust(-1), 15);
    assert_eq!(adjust_origin_offset(16), 1);
    assert_eq!(adjust(16), 0);
}

#[test]
fn side_mappings_invert() {
    let sides = [Side::North, Side::South, Side::East, Side::West, Side::Top, Side::Bottom];
    for side in sides {
        let (axis, face) = axis_face_of(side);
        assert_eq!(side_of(axis, face), side);
    }
    assert_eq!(side_of(Axis::X, Face::Front), Side::East);
    assert_eq!(side_of(Axis::Y, Face::Back), Side::Bottom);
    assert_eq!(side_of(Axis::Z, Face::Front), Side::North);
}

#[test]
fn cross_section_walks_a_plane() {
    let mut chunk = ChunkData::default();
    chunk.set_voxel((5, 2, 9), 7);
    // axis X fixes z = depth; rows sweep y, columns sweep x
    let mut iter = chunk.cross_section(Axis::X, 9);
    let mut seen = 0usize;
    let mut hits = 0usize;
    while let Some(mut row) = iter.next() {
        while let Some(v) = row.next() {
            seen += 1;
            if v == 7 {
                hits += 1;
            }
        }
    }
    assert_eq!(seen, 256);
    assert_eq!(hits, 1);
}

#[test]
fn world_index_registers_and_clears_dead() {
    let mut store = ChunkStore::new();
    let h0 = store.insert_chunk(ChunkIndex { x: 0, y: 0, z: 0 }, ChunkData::default());
    let h1 = store.insert_chunk(ChunkIndex { x: 1, y: 0, z: 0 }, ChunkData::default());
    let mut world = VoxelWorld::new();
    Bookkeeper::run(&mut world, &store);
    assert_eq!(world.get_entity((0, 0, 0)), Some(h0));
    assert_eq!(world.get_entity((1, 0, 0)), Some(h1));
    assert_eq!(world.get_entity((5, 5, 5)), None);

    store.remove_chunk(h1);
    assert!(!store.is_alive(h1));
    world.clear_dead(&store);
    assert_eq!(world.get_entity((0, 0, 0)), Some(h0));
    assert_eq!(world.get_entity((1, 0, 0)), None);
}

#[test]
fn world_index_last_writer_wins() {
    let mut world = VoxelWorld::new();
    world.insert((2, 3, 4), 10);
    world.insert((2, 3, 4), 11);
    assert_eq!(world.get_entity((2, 3, 4)), Some(11));
}

#[test]
fn chunk_translation_scales_by_chunk_size() {
    let t = ChunkIndexPositionSystem::translation(ChunkIndex { x: -2, y: 0, z: 3 });
    assert_eq!(t, (-32, 0, 48));
}

#[test]
fn world_slice_resolves_across_chunks() {
    let mut left = ChunkData::default();
    left.set_voxel((15, 0, 0), 5);
    let mut store = ChunkStore::new();
    let _h0 = store.insert_chunk(ChunkIndex { x: 0, y: 0, z: 0 }, ChunkData::default());
    let _h1 = store.insert_chunk(ChunkIndex { x: -1, y: 0, z: 0 }, left);
    let mut world = VoxelWorld::new();
    Bookkeeper::run(&mut world, &store);
    let slice = WorldSlice::new(&store, &world, (0, 0, 0));
    // coordinate -1 lands in the chunk at index -1, local coordinate 15
    assert_eq!(slice.get_voxel((-1, 0, 0)), Some(5));
    assert_eq!(slice.get_voxel((0, 0, 0)), Some(0));
    // no chunk is loaded at index 1: unknown, not an error
    assert_eq!(slice.get_voxel((16, 0, 0)), None);
}

#[test]
fn empty_chunk_emits_no_quads() {
    let quads = mesh_single_chunk(ChunkData::default());
    assert_eq!(quads.len(), 0);
}

#[test]
fn full_chunk_emits_one_quad_per_face() {
    let mut data = ChunkData::default();
    for x in 0..16 {
        for y in 0..16 {
            for z in 0..16 {
                data.set_voxel((x, y, z), 1);
            }
        }
    }
    let quads = mesh_single_chunk(data);
    assert_eq!(quads.len(), 6);
    for side in [Side::North, Side::South, Side::East, Side::West, Side::Top, Side::Bottom] {
        assert_eq!(count_side(&quads, side), 1);
    }
    // the east face spans the whole 16x16 plane at x = 16
    let east = quads.iter().find(|q| q.side == Side::East).unwrap();
    assert_eq!(east.c0, Corner { x: 16, y: 16, z: 0 });
    assert_eq!(east.c1, Corner { x: 16, y: 16, z: 16 });
    assert_eq!(east.c2, Corner { x: 16, y: 0, z: 16 });
    assert_eq!(east.c3, Corner { x: 16, y: 0, z: 0 });
}

#[test]
fn single_voxel_emits_six_unit_quads() {
    let mut data = ChunkData::default();
    data.set_voxel((8, 8, 8), 1);
    let quads = mesh_single_chunk(data);
    assert_eq!(quads.len(), 6);
    for side in [Side::North, Side::South, Side::East, Side::West, Side::Top, Side::Bottom] {
        assert_eq!(count_side(&quads, side), 1);
    }
    // every corner of every quad touches the cell at (8, 8, 8)
    for q in &quads {
        for corner in [q.c0, q.c1, q.c2, q.c3] {
            assert!(8 <= corner.x && corner.x <= 9);
            assert!(8 <= corner.y && corner.y <= 9);
            assert!(8 <= corner.z && corner.z <= 9);
        }
    }
    let east = quads.iter().find(|q| q.side == Side::East).unwrap();
    assert_eq!(east.c0, Corner { x: 9, y: 9, z: 8 });
    assert_eq!(east.c1, Corner { x: 9, y: 9, z: 9 });
    assert_eq!(east.c2, Corner { x: 9, y: 8, z: 9 });
    assert_eq!(east.c3, Corner { x: 9, y: 8, z: 8 });
}

#[test]
fn adjacent_equal_voxels_cull_their_shared_face() {
    // a 2x1x1 bar of one material: the face between the two voxels is
    // culled, so the bar meshes like a box: exactly six quads
    let mut data = ChunkData::default();
    data.set_voxel((0, 0, 0), 1);
    data.set_voxel((1, 0, 0), 1);
    let quads = mesh_single_chunk(data);
    assert_eq!(quads.len(), 6);
    for side in [Side::North, Side::South, Side::East, Side::West, Side::Top, Side::Bottom] {
        assert_eq!(count_side(&quads, side), 1);
    }
    // no east-facing quad sits on the internal plane x = 1
    for q in &quads {
        if q.side == Side::East {
            assert_eq!(q.c0.x, 2);
        }
    }
}

#[test]
fn uniform_region_merges_into_one_quad() {
    // a rectangular slab at y = 0, x in [4, 12), z in [4, 8), surrounded by
    // air: its top face is exactly one quad, not a patchwork
    let mut data = ChunkData::default();
    for x in 4..12 {
        for z in 4..8 {
            data.set_voxel((x, 0, z), 3);
        }
    }
    let quads = mesh_single_chunk(data);
    assert_eq!(count_side(&quads, Side::Top), 1);
    let top = quads.iter().find(|q| q.side == Side::Top).unwrap();
    // the quad spans the whole region (corners cover x 4..12, z 4..8 at y = 1)
    for corner in [top.c0, top.c1, top.c2, top.c3] {
        assert_eq!(corner.y, 1);
        assert!(corner.x == 4 || corner.x == 12);
        assert!(corner.z == 4 || corner.z == 8);
    }
    assert_eq!(count_side(&quads, Side::Bottom), 1);
}

#[test]
fn remesh_of_unchanged_chunk_is_identical() {
    let mut data = ChunkData::default();
    data.set_voxel((8, 8, 8), 1);
    data.set_voxel((9, 8, 8), 2);
    let mut store = ChunkStore::new();
    let h = store.insert_chunk(ChunkIndex { x: 0, y: 0, z: 0 }, data);
    let mut world = VoxelWorld::new();
    Bookkeeper::run(&mut world, &store);
    let mut system = MeshFaceSystem::default();
    system.run(&mut store, &world);
    let first = meshed_quads(&store, h);
    assert!(!first.is_empty());
    // touch the chunk without changing its voxels: it is dirty again
    store.set_voxel(h, (8, 8, 8), 1);
    system.run(&mut store, &world);
    let second = meshed_quads(&store, h);
    assert_eq!(first, second);
}

#[test]
fn clean_chunks_keep_their_quads() {
    let mut data = ChunkData::default();
    data.set_voxel((0, 0, 0), 1);
    let mut store = ChunkStore::new();
    let h = store.insert_chunk(ChunkIndex { x: 0, y: 0, z: 0 }, data);
    let mut world = VoxelWorld::new();
    Bookkeeper::run(&mut world, &store);
    let mut system = MeshFaceSystem::default();
    system.run(&mut store, &world);
    let first = meshed_quads(&store, h);
    // nothing changed: a second pass remeshes nothing and keeps the quads
    system.run(&mut store, &world);
    assert_eq!(meshed_quads(&store, h), first);
}

#[test]
fn neighbor_aware_culling_across_chunks() {
    // left chunk solid at its rightmost column, right chunk solid at its
    // leftmost column, same material: the shared boundary is culled
    let mut left = ChunkData::default();
    let mut right = ChunkData::default();
    for y in 0..16 {
        for z in 0..16 {
            left.set_voxel((15, y, z), 1);
            right.set_voxel((0, y, z), 1);
        }
    }
    let mut store = ChunkStore::new();
    let h_left = store.insert_chunk(ChunkIndex { x: 0, y: 0, z: 0 }, left);
    let h_right = store.insert_chunk(ChunkIndex { x: 1, y: 0, z: 0 }, right);
    let mut world = VoxelWorld::new();
    Bookkeeper::run(&mut world, &store);
    let mut system = MeshFaceSystem::default();
    system.run(&mut store, &world);

    let left_quads = meshed_quads(&store, h_left);
    let right_quads = meshed_quads(&store, h_right);
    // no quad on the shared internal boundary
    assert_eq!(count_side(&left_quads, Side::East), 0);
    assert_eq!(count_side(&right_quads, Side::West), 0);
    // the outward faces are still there
    assert_eq!(count_side(&left_quads, Side::West), 1);
    assert_eq!(count_side(&right_quads, Side::East), 1);
    assert_eq!(left_quads.len(), 5);
    assert_eq!(right_quads.len(), 5);
}

#[test]
fn unloaded_neighbors_draw_frontier_faces() {
    // without the right-hand neighbor registered, the same solid column
    // meshes a full east face at the frontier
    let mut left = ChunkData::default();
    for y in 0..16 {
        for z in 0..16 {
            left.set_voxel((15, y, z), 1);
        }
    }
    let quads = mesh_single_chunk(left);
    assert_eq!(count_side(&quads, Side::East), 1);
    assert_eq!(quads.len(), 6);
}

#[test]
fn chunk_quads_default_is_empty() {
    let quads = ChunkQuads::default();
    assert!(quads.quads.is_empty());
}

#[test]
fn world_slice_resolves_beyond_the_moore_neighborhood() {
    // a chunk two chunk-units away is outside the pre-resolved Moore
    // neighborhood and is found through the full index lookup instead
    let mut far = ChunkData::default();
    far.set_voxel((0, 0, 0), 9);
    let mut store = ChunkStore::new();
    let _h0 = store.insert_chunk(ChunkIndex { x: 0, y: 0, z: 0 }, ChunkData::default());
    let _h1 = store.insert_chunk(ChunkIndex { x: 2, y: 0, z: 0 }, far);
    let mut world = VoxelWorld::new();
    Bookkeeper::run(&mut world, &store);
    let slice = WorldSlice::new(&store, &world, (0, 0, 0));
    assert_eq!(slice.get_voxel((32, 0, 0)), Some(9));
    assert_eq!(slice.get_voxel((33, 0, 0)), Some(0));
    assert_eq!(slice.get_voxel((48, 0, 0)), None);
}

#[test]
fn differing_materials_keep_both_faces() {
    // two adjacent voxels of different nonzero materials are both drawn:
    // the face between them is not culled, one quad per side of the plane
    let mut data = ChunkData::default();
    data.set_voxel((0, 0, 0), 1);
    data.set_voxel((1, 0, 0), 2);
    let quads = mesh_single_chunk(data);
    // each cube contributes its own east or west face on the shared plane
    let east_on_plane = quads
        .iter()
        .filter(|q| q.side == Side::East && [q.c0, q.c1, q.c2, q.c3].iter().all(|c| c.x == 1))
        .count();
    let west_on_plane = quads
        .iter()
        .filter(|q| q.side == Side::West && [q.c0, q.c1, q.c2, q.c3].iter().all(|c| c.x == 1))
        .count();
    assert_eq!(east_on_plane, 1);
    assert_eq!(west_on_plane, 1);
}

#[test]
fn chunk_clone_holds_the_same_voxels() {
    let mut chunk = ChunkData::default();
    chunk.set_voxel((1, 2, 3), 7);
    let copy = chunk.clone();
    assert_eq!(copy.get_voxel((1, 2, 3)), 7);
    assert_eq!(copy.get_voxel((0, 0, 0)), 0);
}
