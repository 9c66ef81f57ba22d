use minecraft2::bits::{rank, test_bit};
use minecraft2::brick::palette::Wide;
use minecraft2::brick::{brick_bytes, subblock_bit, voxel_index, Brick, VoxelState};
use minecraft2::coords::{
    chunk_local, in_world_voxel, BlockPos, ChunkPos, CHUNK_BLOCKS, CHUNK_BRICKS, WORLD_BLOCKS_XZ,
    WORLD_BLOCKS_Y,
};
use minecraft2::footprint::sum;
use minecraft2::ivec::{floor_div, floor_mod, IVec3};
use minecraft2::material::{count, ids, MaterialId};
use minecraft2::tree::node::{Cell, L1, L2};
use minecraft2::tree::sparse::Sparse64;
use minecraft2::tree::{tree_bytes, ChunkTree};
use minecraft2::window::VoxelWindow;
use minecraft2::world::VoxelWorld;

fn m(id: u16) -> MaterialId {
    MaterialId(id)
}

fn v(x: i32, y: i32, z: i32) -> IVec3 {
    IVec3::new(x, y, z)
}

fn each_voxel() -> Vec<IVec3> {
    (0..512).map(|i| v(i & 7, (i >> 6) & 7, (i >> 3) & 7)).collect()
}

#[test]
fn set_get_roundtrip_and_occupancy() {
    let mut b = Brick::empty();
    assert!(b.is_empty());
    let p = v(5, 6, 1);
    assert_eq!(b.set(p, m(ids::GRANITE)), m(ids::AIR));
    assert_eq!(b.get(p), m(ids::GRANITE));
    assert!(b.is_occupied(p));
    assert_eq!(b.solid_count(), 1);
    assert_eq!(b.set(p, m(ids::AIR)), m(ids::GRANITE));
    assert!(b.is_empty());
}

#[test]
fn filled_brick_is_uniform_until_touched() {
    let mut b = Brick::filled(m(ids::BASALT));
    assert_eq!(b.uniform(), Some(m(ids::BASALT)));
    assert_eq!(b.solid_count(), 512);
    b.set(v(0, 0, 0), m(ids::IRON_ORE));
    assert_eq!(b.uniform(), None);
    assert_eq!(b.dominant(), Some((m(ids::BASALT), 511)));
    b.set(v(0, 0, 0), m(ids::BASALT));
    assert_eq!(b.uniform(), Some(m(ids::BASALT)));
}

#[test]
fn widens_past_sixteen_materials_and_keeps_contents() {
    let mut b = Brick::empty();
    let voxels = each_voxel();
    for (i, p) in voxels.iter().enumerate() {
        b.set(*p, m(1 + (i % 40) as u16));
    }
    assert!(b.is_wide());
    for (i, p) in voxels.iter().enumerate() {
        assert_eq!(b.get(*p), m(1 + (i % 40) as u16));
    }
    assert_eq!(b.solid_count(), 512);
}

#[test]
fn narrow_palette_recycles_unused_slots() {
    let mut b = Brick::empty();
    let p = v(1, 2, 3);
    for id in 1..200u16 {
        b.set(p, m(id));
    }
    assert!(!b.is_wide(), "one voxel cycling materials must not widen");
    assert_eq!(b.get(p), m(199));
}

#[test]
fn voxel_state_packs_four_fields() {
    let s = VoxelState::default().with_damage(3).with_wetness(1).with_temperature(2).with_burn(3);
    assert_eq!((s.damage(), s.wetness(), s.temperature(), s.burn()), (3, 1, 2, 3));
    let mut b = Brick::filled(m(ids::OAK_LOG));
    b.set_state(v(1, 1, 1), s);
    assert_eq!(b.uniform(), None);
    b.set_state(v(1, 1, 1), VoxelState::default());
    b.compact_state();
    assert_eq!(b.uniform(), Some(m(ids::OAK_LOG)));
}

#[test]
fn subblock_layout_matches_voxel_layout() {
    let mut seen = [0u64; 8];
    for p in each_voxel() {
        let (s, bit) = subblock_bit(p);
        assert_eq!(seen[s] >> bit & 1, 0);
        seen[s] |= 1 << bit;
    }
    assert!(seen.iter().all(|&mask| mask == u64::MAX));
}

#[test]
fn voxel_indices_are_the_layout() {
    assert_eq!(voxel_index(v(5, 0, 0)), 5);
    assert_eq!(voxel_index(v(0, 0, 5)), 40);
    assert_eq!(voxel_index(v(0, 5, 0)), 320);
    assert_eq!(voxel_index(v(7, 7, 7)), 511);
}

#[test]
fn ranks_count_the_bits_below() {
    assert_eq!(rank(0b1011_0110, 7), 4);
    assert_eq!(rank(u64::MAX, 63), 63);
    assert_eq!(rank(0, 63), 0);
    assert!(test_bit(0b100, 2) && !test_bit(0b100, 3));
}

#[test]
fn quotients_round_down() {
    assert_eq!((floor_div(-1, 8), floor_mod(-1, 8)), (-1, 7));
    assert_eq!((floor_div(-16, 8), floor_mod(-16, 8)), (-2, 0));
    assert_eq!((floor_div(15, 8), floor_mod(15, 8)), (1, 7));
}

#[test]
fn negative_coordinates_floor_correctly() {
    assert_eq!(ChunkPos::of_voxel(v(-1, 0, 511)).0, v(-1, 0, 0));
    assert_eq!(chunk_local(v(-1, 512, 3)), v(511, 0, 3));
    assert_eq!(BlockPos::of_voxel(v(-17, 15, 16)).0, v(-2, 0, 1));
}

#[test]
fn world_extents_match_brief() {
    assert_eq!(WORLD_BLOCKS_XZ, 16384);
    assert_eq!(WORLD_BLOCKS_Y, 512);
    assert_eq!(CHUNK_BLOCKS, 32);
    assert_eq!(CHUNK_BRICKS, 64);
    assert!(ChunkPos(v(511, 15, 0)).in_world());
    assert!(!ChunkPos(v(512, 0, 0)).in_world());
}

#[test]
fn voxels_of_the_world_end_where_it_does() {
    assert!(in_world_voxel(v(0, 0, 0)) && in_world_voxel(v(262143, 8191, 262143)));
    assert!(!in_world_voxel(v(262144, 0, 0)) && !in_world_voxel(v(0, -1, 0)));
    assert!(!in_world_voxel(v(0, 8192, 0)));
}

#[test]
fn ids_index_their_entries() {
    assert_eq!(m(ids::AIR).get().name, "air");
    assert_eq!(m(ids::GRANITE).get().name, "granite");
    assert_eq!(m(ids::GLOWING_ROCK).get().name, "cooling rock");
    assert_eq!(count(), ids::GLOWING_ROCK as usize + 1);
    assert!(m(ids::LAVA).is_emissive());
    assert!(!m(ids::AIR).is_solid());
}

#[test]
fn sparse64_keeps_items_in_index_order() {
    let mut s: Sparse64<u32> = Sparse64::default();
    for i in [40, 3, 63, 0, 17] {
        *s.get_or_insert_with(i, || 0) = i * 10;
    }
    let order: Vec<u32> = s
        .iter()
        .into_iter()
        .map(|(i, x)| {
            assert_eq!(*x, i * 10);
            i
        })
        .collect();
    assert_eq!(order, vec![0, 3, 17, 40, 63]);
    assert_eq!(s.remove(17), Some(170));
    assert_eq!(s.get(40), Some(&400));
    assert_eq!(s.get(17), None);
}

#[test]
fn voxel_edits_materialise_and_collapse_bricks() {
    let mut t = ChunkTree::new(1);
    let p = v(300, 20, 511);
    t.set_voxel(p, m(ids::GRANITE));
    assert_eq!(t.voxel(p), m(ids::GRANITE));
    assert_eq!(t.brick_count(), 1);
    t.set_voxel(p, m(ids::AIR));
    assert!(t.is_empty(), "clearing the only voxel prunes every level");
    assert_eq!(t.brick_count(), 0);

    let b = v(10, 2, 60);
    t.set_cell(b, Cell::Uniform(m(ids::BASALT)));
    let inside = v(10 * 8 + 1, 2 * 8 + 2, 60 * 8 + 3);
    assert_eq!(t.voxel(inside), m(ids::BASALT));
    t.set_voxel(inside, m(ids::AIR));
    assert!(matches!(t.cell(b), Cell::Brick(_)));
    t.set_voxel(inside, m(ids::BASALT));
    assert_eq!(t.cell(b), Cell::Uniform(m(ids::BASALT)));
    assert_eq!(t.brick_count(), 0);
}

#[test]
fn cells_iterates_coordinates_back() {
    let mut t = ChunkTree::new(1);
    let coords = [v(0, 0, 0), v(63, 63, 63), v(5, 40, 22)];
    for c in coords {
        t.set_cell(c, Cell::Uniform(m(ids::DIRT)));
    }
    let mut seen: Vec<IVec3> = t.cells().into_iter().map(|(c, _)| c).collect();
    seen.sort_by_key(|c| (c.x, c.y, c.z));
    let mut want = coords.to_vec();
    want.sort_by_key(|c| (c.x, c.y, c.z));
    assert_eq!(seen, want);
}

#[test]
fn dirty_tracking_reports_edits_once() {
    let mut t = ChunkTree::new(1);
    t.set_voxel(v(1, 1, 1), m(ids::SAND));
    t.set_voxel(v(2, 1, 1), m(ids::SAND));
    let (structure, bricks) = t.take_dirty();
    assert!(structure);
    assert_eq!(bricks.len(), 1);
    let (structure, bricks) = t.take_dirty();
    assert!(!structure && bricks.is_empty());
}

#[test]
fn filling_a_node_cell_by_cell_collapses_it() {
    let mut t = ChunkTree::new(1);
    for z in 0..4 {
        for y in 0..4 {
            for x in 0..4 {
                t.set_cell(v(x + 8, y, z + 4), Cell::Uniform(m(ids::GRANITE)));
            }
        }
    }
    let nodes = t.uniform_nodes();
    assert_eq!(nodes.len(), 1);
    assert_eq!(nodes[0].cells, 4);
    assert_eq!(nodes[0].min_cell, v(8, 0, 4));
    assert_eq!(t.cells().len(), 0);
    assert_eq!(t.voxel(v(70, 3, 40)), m(ids::GRANITE));
}

#[test]
fn uniform_nodes_split_on_edit_and_recollapse() {
    let mut t = ChunkTree::new(1);
    for z in 0..4 {
        for y in 0..4 {
            for x in 0..4 {
                t.set_node(2, v(x, y, z), m(ids::BASALT));
            }
        }
    }
    assert_eq!(t.root.items.len(), 64);
    assert!(t.memory_bytes() < 4096, "solid chunk costs {} bytes", t.memory_bytes());
    let p = v(200, 100, 300);
    assert_eq!(t.set_voxel(p, m(ids::AIR)), m(ids::BASALT));
    assert_eq!(t.voxel(p), m(ids::AIR));
    assert_eq!(t.voxel(v(201, 100, 300)), m(ids::BASALT));
    assert_eq!(t.brick_count(), 1);
    t.set_voxel(p, m(ids::BASALT));
    assert_eq!(t.brick_count(), 0);
    assert_eq!(t.uniform_nodes().iter().filter(|n| n.cells == 16).count(), 64);
}

#[test]
fn set_node_level_one_inside_uniform_parent() {
    let mut t = ChunkTree::new(1);
    t.set_node(2, v(0, 0, 0), m(ids::GRANITE));
    t.set_node(1, v(1, 2, 3), m(ids::SAND));
    assert_eq!(t.voxel(v(32, 64, 96)), m(ids::SAND));
    assert_eq!(t.voxel(v(0, 0, 0)), m(ids::GRANITE));
    t.set_node(1, v(1, 2, 3), m(ids::GRANITE));
    assert_eq!(t.uniform_nodes().len(), 1, "parent collapses back");
    t.set_node(1, v(0, 0, 0), m(ids::AIR));
    assert_eq!(t.voxel(v(5, 5, 5)), m(ids::AIR));
    assert_eq!(t.voxel(v(40, 5, 5)), m(ids::GRANITE));
}

#[test]
fn editing_a_brick_in_place_keeps_the_rest() {
    let mut t = ChunkTree::new(4);
    assert_eq!(t.id(), 4);
    t.set_cell(v(1, 1, 1), Cell::Uniform(m(ids::CLAY)));
    let was = t.edit_brick(v(1, 1, 1), |b| b.set(v(3, 3, 3), m(ids::ICE)));
    assert_eq!(was, m(ids::CLAY));
    assert_eq!(t.voxel(v(11, 11, 11)), m(ids::ICE));
    assert_eq!(t.voxel(v(12, 11, 11)), m(ids::CLAY));
    t.set_brick(v(1, 1, 1), Brick::filled(m(ids::MARBLE)));
    assert_eq!(t.cell(v(1, 1, 1)), Cell::Uniform(m(ids::MARBLE)));
}

#[test]
fn footprints_count_what_is_allocated() {
    let narrow = Brick::filled(m(ids::CLAY));
    assert_eq!(narrow.memory_bytes(), std::mem::size_of::<Brick>());
    let mut state = narrow.clone();
    state.set_state(v(0, 0, 0), VoxelState::default().with_damage(1));
    assert_eq!(state.memory_bytes(), std::mem::size_of::<Brick>() + 512);
    let mut wide = Brick::empty();
    for (i, p) in each_voxel().iter().enumerate() {
        wide.set(*p, m(1 + (i % 20) as u16));
    }
    // A wide palette takes four bytes for every entry there is room for.
    assert!(wide.memory_bytes() >= std::mem::size_of::<Brick>() + 512 + 4 * 20);
    let mut w = VoxelWorld::new();
    assert_eq!(w.memory_bytes(), 0);
    w.set_voxel(v(1, 1, 1), m(ids::SAND));
    assert!(w.memory_bytes() >= std::mem::size_of::<ChunkTree>() + std::mem::size_of::<Brick>());
}

#[test]
fn window_agrees_with_the_world_inside_and_out() {
    let mut w = VoxelWorld::new();
    w.fill_box(v(500, 0, 500), v(530, 20, 530), m(ids::GRANITE));
    w.set_voxel(v(510, 21, 511), m(ids::PLANKS));
    w.set_voxel(v(513, 22, 509), m(ids::DIRT));
    let win = VoxelWindow::new(&w, v(505, 15, 505), v(520, 30, 516));
    assert!(win.any_matter());
    for z in 495..540 {
        for y in 10..35 {
            for x in 495..540 {
                let p = v(x, y, z);
                assert_eq!(win.voxel(p), w.voxel(p), "{p:?}");
            }
        }
    }
    let sky = VoxelWindow::new(&w, v(505, 40, 505), v(520, 60, 520));
    assert!(!sky.any_matter());
}

#[test]
fn a_window_too_large_to_keep_still_answers() {
    let mut w = VoxelWorld::new();
    w.set_voxel(v(9000, 60, 9000), m(ids::SAND));
    let win = VoxelWindow::new(&w, v(-2000000000, 0, 0), v(2000000000, 8000, 200000));
    assert_eq!(win.voxel(v(9000, 60, 9000)), m(ids::SAND));
    assert_eq!(win.voxel(v(9001, 60, 9000)), m(ids::AIR));
}

#[test]
fn voxels_cross_chunk_boundaries() {
    let mut w = VoxelWorld::new();
    let a = v(511, 100, 511);
    let b = v(512, 100, 512);
    w.set_voxel(a, m(ids::GRANITE));
    w.set_voxel(b, m(ids::SAND));
    assert_eq!(w.voxel(a), m(ids::GRANITE));
    assert_eq!(w.voxel(b), m(ids::SAND));
    assert_eq!(w.chunk_count(), 2);
    assert_eq!(w.set_voxel(v(-1, 0, 0), m(ids::SAND)), m(ids::AIR));
}

#[test]
fn fill_box_uses_uniform_cells_inside() {
    let mut w = VoxelWorld::new();
    w.fill_box(v(3, 0, 0), v(100, 50, 60), m(ids::BASALT));
    assert_eq!(w.voxel(v(3, 0, 0)), m(ids::BASALT));
    assert_eq!(w.voxel(v(100, 50, 60)), m(ids::BASALT));
    assert_eq!(w.voxel(v(2, 0, 0)), m(ids::AIR));
    assert_eq!(w.voxel(v(101, 50, 60)), m(ids::AIR));
    let tree = w.chunk(ChunkPos(v(0, 0, 0))).unwrap();
    // Only boundary bricks need palette storage.
    let cells = tree.cells().len();
    assert!(tree.brick_count() < cells / 2, "{} bricks of {cells}", tree.brick_count());
    w.fill_box(v(0, 0, 0), IVec3::splat(200), m(ids::AIR));
    assert_eq!(w.chunk_count(), 0);
}

/// The voxels whose middles lie within `r` voxels of `c`.
fn sphere(c: f64, r: f64) -> Vec<IVec3> {
    let mut list = Vec::new();
    let (lo, hi) = ((c - r).floor() as i32, (c + r).ceil() as i32);
    for z in lo..=hi {
        for y in lo..=hi {
            for x in lo..=hi {
                let d = |a: i32| (f64::from(a) + 0.5 - c).powi(2);
                if d(x) + d(y) + d(z) <= r * r {
                    list.push(v(x, y, z));
                }
            }
        }
    }
    list
}

#[test]
fn sphere_reports_changes() {
    let mut w = VoxelWorld::new();
    w.fill_box(v(0, 0, 0), IVec3::splat(63), m(ids::GRANITE));
    let changed = w.set_voxels(&sphere(32.0, 8.0), m(ids::AIR));
    assert!(changed.len() > 2000 && changed.len() < 2300, "{}", changed.len());
    assert!(changed.iter().all(|(_, x)| *x == m(ids::GRANITE)));
    assert_eq!(w.voxel(IVec3::splat(32)), m(ids::AIR));
}

#[test]
fn edits_mark_their_chunks_once() {
    let mut w = VoxelWorld::new();
    w.set_voxel(v(5, 5, 5), m(ids::SAND));
    assert_eq!(w.take_dirty(), vec![ChunkPos(v(0, 0, 0))]);
    assert!(w.take_dirty().is_empty());
    // A write of what is there already is no edit.
    w.set_voxel(v(5, 5, 5), m(ids::SAND));
    assert!(w.take_dirty().is_empty());
    let mut t = ChunkTree::new(3);
    t.set_cell(v(0, 0, 0), Cell::Uniform(m(ids::CLAY)));
    w.insert_chunk(ChunkPos(v(2, 0, 0)), t);
    assert_eq!(w.voxel(v(1024, 0, 0)), m(ids::CLAY));
    assert_eq!(w.chunks().len(), 2);
    w.remove_chunk(ChunkPos(v(2, 0, 0)));
    assert_eq!(w.voxel(v(1024, 0, 0)), m(ids::AIR));
}

#[test]
fn masks_and_states_show_what_a_brick_holds() {
    let mut b = Brick::filled(m(ids::AIR));
    assert!(!b.has_state() && b.raw_state().is_none());
    b.set(v(1, 0, 0), m(ids::GRANITE));
    assert_eq!(b.occupancy().iter().map(|w| w.count_ones()).sum::<u32>(), 1);
    let i = voxel_index(v(1, 0, 0));
    assert_eq!(b.occupancy()[i / 64] >> (i % 64) & 1, 1);
    b.set_state(v(1, 0, 0), VoxelState(9));
    assert!(b.has_state());
    assert_eq!(b.raw_state().unwrap()[i], VoxelState(9));
}

#[test]
fn full_nodes_hold_every_child() {
    let mut s: Sparse64<u32> = Sparse64::default();
    for i in 0..64 {
        assert!(!s.is_full());
        *s.get_or_insert_with(i, || 0) = i * 2;
    }
    assert!(s.is_full());
    *s.get_mut(5).unwrap() = 99;
    assert_eq!((s.get(4), s.get(5), s.get(6)), (Some(&8), Some(&99), Some(&12)));
}

#[test]
fn chunks_reached_for_writing_count_as_edited() {
    let mut w = VoxelWorld::new();
    w.set_voxel(v(0, 0, 0), m(ids::GRANITE));
    w.take_dirty();
    let pos = ChunkPos(v(0, 0, 0));
    w.chunk_mut(pos).unwrap().set_cell(v(3, 0, 0), Cell::Uniform(m(ids::BASALT)));
    assert_eq!(w.voxel(v(25, 0, 0)), m(ids::BASALT));
    assert_eq!(w.take_dirty(), vec![pos]);
}

#[test]
fn writes_outside_the_world_are_not_reported() {
    let mut w = VoxelWorld::new();
    let list = sphere(0.0, 1.0);
    assert_eq!(list.len(), 8);
    let changed = w.set_voxels(&list, m(ids::SAND));
    assert_eq!(changed, vec![(v(0, 0, 0), m(ids::AIR))]);
    assert_eq!(w.voxel(v(0, 0, 0)), m(ids::SAND));
    assert_eq!(w.voxel(v(-1, 0, 0)), m(ids::AIR));
    // Twice in one list counts once.
    let twice = w.set_voxels(&vec![v(1, 0, 0), v(1, 0, 0), v(0, 0, 0)], m(ids::SAND));
    assert_eq!(twice, vec![(v(1, 0, 0), m(ids::AIR))]);
}

#[test]
fn edits_leave_the_kind_of_cell_their_contents_ask_for() {
    let mut t = ChunkTree::new(1);
    let c = v(5, 6, 7);
    let at = v(41, 50, 60);
    t.set_cell(c, Cell::Uniform(m(ids::GRANITE)));
    // A state keeps a brick alive, the default one lets it collapse.
    t.edit_brick(c, |b: &mut Brick| b.set_state(v(0, 0, 0), VoxelState(3)));
    assert!(matches!(t.cell(c), Cell::Brick(_)));
    t.edit_brick(c, |b: &mut Brick| b.set_state(v(0, 0, 0), VoxelState(0)));
    assert_eq!(t.cell(c), Cell::Uniform(m(ids::GRANITE)));
    t.set_voxel(at, m(ids::SAND));
    assert!(matches!(t.cell(c), Cell::Brick(_)));
    t.set_voxel(at, m(ids::GRANITE));
    assert_eq!(t.cell(c), Cell::Uniform(m(ids::GRANITE)));
    t.edit_brick(c, |b: &mut Brick| *b = Brick::empty());
    assert_eq!(t.cell(c), Cell::Empty);
    assert!(t.is_empty() && t.brick_count() == 0);
}

#[test]
fn rewriting_what_is_there_records_nothing() {
    let mut t = ChunkTree::new(1);
    t.set_voxel(v(1, 2, 3), m(ids::SAND));
    t.take_dirty();
    assert_eq!(t.set_voxel(v(1, 2, 3), m(ids::SAND)), m(ids::SAND));
    assert_eq!(t.set_voxel(v(100, 2, 3), m(ids::AIR)), m(ids::AIR));
    assert_eq!(t.take_dirty(), (false, vec![]));
    // One edit in place reports its brick alone.
    t.set_voxel(v(200, 2, 3), m(ids::SAND));
    t.take_dirty();
    t.set_voxel(v(2, 2, 3), m(ids::CLAY));
    let Cell::Brick(i) = t.cell(v(0, 0, 0)) else { panic!("a brick") };
    assert_eq!(t.take_dirty(), (false, vec![i]));
}

#[test]
fn clearing_everything_leaves_no_chunk() {
    let mut w = VoxelWorld::new();
    w.set_voxel(v(5, 5, 5), m(ids::SAND));
    w.set_voxel(v(600, 700, 5), m(ids::CLAY));
    w.fill_box(v(0, 0, 0), v(1023, 1023, 511), m(ids::AIR));
    assert_eq!(w.chunk_count(), 0);
}

#[test]
fn state_setters_commute() {
    let s = VoxelState(0b1101_1001);
    for (a, b) in [(7u8, 2u8), (1, 0), (3, 255)] {
        assert_eq!(s.with_damage(a).with_burn(b), s.with_burn(b).with_damage(a));
        assert_eq!(s.with_wetness(a).with_temperature(b), s.with_temperature(b).with_wetness(a));
        assert_eq!(s.with_damage(a).with_damage(a), s.with_damage(a));
        assert_eq!(s.with_wetness(a).with_wetness(b), s.with_wetness(b));
        assert_eq!(s.with_temperature(a).temperature(), a & 3);
    }
}

#[test]
fn palettes_list_air_and_then_first_use() {
    let mut b = Brick::empty();
    b.set(v(0, 0, 0), m(ids::SAND));
    b.set(v(1, 0, 0), m(ids::CLAY));
    let used: Vec<u16> = b.materials().iter().map(|e| e.0 .0).collect();
    assert_eq!(used, vec![ids::AIR, ids::SAND, ids::CLAY]);
    // Sand's entry falls free and goes to the next material.
    b.set(v(0, 0, 0), m(ids::AIR));
    b.set(v(2, 0, 0), m(ids::GRANITE));
    let used: Vec<u16> = b.materials().iter().map(|e| e.0 .0).collect();
    assert_eq!(used, vec![ids::AIR, ids::GRANITE, ids::CLAY]);
}

#[test]
fn listings_share_no_cell() {
    let mut t = ChunkTree::new(1);
    t.set_node(2, v(1, 0, 0), m(ids::GRANITE));
    t.set_node(1, v(0, 0, 0), m(ids::BASALT));
    t.set_voxel(v(140, 3, 3), m(ids::SAND));
    t.set_voxel(v(40, 3, 3), m(ids::SAND));
    let cells = t.cells();
    let boxes = t.uniform_nodes();
    assert_eq!(cells.iter().filter(|e| matches!(e.1, Cell::Brick(_))).count(), t.brick_count());
    for x in 0..64 {
        for z in 0..8 {
            for y in 0..8 {
                let c = v(x, y, z);
                let by_itself = cells.iter().filter(|e| e.0 == c).count();
                let inside = |a: i32, lo: i32, n: i32| a >= lo && a < lo + n;
                let covered = boxes
                    .iter()
                    .filter(|u| {
                        inside(x, u.min_cell.x, u.cells)
                            && inside(y, u.min_cell.y, u.cells)
                            && inside(z, u.min_cell.z, u.cells)
                    })
                    .count();
                assert_eq!(by_itself + covered, usize::from(t.cell(c) != Cell::Empty), "{c:?}");
            }
        }
    }
}

#[test]
fn bytes_follow_from_the_room_arrays_have() {
    let of = std::mem::size_of::<Brick>();
    assert_eq!(brick_bytes(None, false), of);
    assert_eq!(brick_bytes(None, true), of + 512);
    let wide = std::mem::size_of::<Wide>();
    assert_eq!(brick_bytes(Some(32), true), of + wide + 512 + 32 * 4 + 512);
    let (l2, l1) = (std::mem::size_of::<L2>(), std::mem::size_of::<L1>());
    let (cell, tree) = (std::mem::size_of::<Cell>(), std::mem::size_of::<ChunkTree>());
    assert_eq!(tree_bytes(0, &vec![], &vec![], &vec![]), tree);
    assert_eq!(
        tree_bytes(4, &vec![8, 16], &vec![64, 4, 1], &vec![100, 200]),
        tree + 4 * l2 + 24 * l1 + 69 * cell + 300
    );
    assert_eq!(tree_bytes(usize::MAX, &vec![], &vec![], &vec![]), usize::MAX);
    assert_eq!((sum(&vec![]), sum(&vec![3, 4])), (0, 7));
    assert_eq!(sum(&vec![usize::MAX, 4]), usize::MAX);
    // A tree's own count holds its arrays at least by their lengths.
    let mut t = ChunkTree::new(1);
    t.set_voxel(v(1, 1, 1), m(ids::SAND));
    assert!(t.memory_bytes() >= tree + l2 + l1 + cell + of);
    let mut w = VoxelWorld::new();
    w.insert_chunk(ChunkPos(v(0, 0, 0)), t.clone());
    w.insert_chunk(ChunkPos(v(1, 0, 0)), t);
    assert!(w.memory_bytes() >= 2 * (tree + l2 + l1 + cell + of));
}
