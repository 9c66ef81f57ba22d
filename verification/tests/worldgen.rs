use minecraft2::amplify::{
    grassy, loose_material, material_at, Shore, SurfaceSample, SNOWLINE_M, TREELINE_M,
};
use minecraft2::cache::{fingerprint, fnv1a, load, save, CacheError, CoarseBits};
use minecraft2::chunkgen::ground::{from_dense, index, plan_chunk, Content, Ground};
use minecraft2::chunkgen::ore::{ore_cells, ore_centre, ore_in, stamp_blob, Body, Ore};
use minecraft2::chunkgen::{
    brick_at, clears, coarse_column, column_range, group_columns, material_of, recipe, Probe, Voxel,
};
use minecraft2::coords::ChunkPos;
use minecraft2::erosion::{
    clamp_xy, corners, neighbour, overdrawn, slide, turn, wears, Pipe, Slide,
};
use minecraft2::flora::grow::{boulder, broadleaf, bush, cactus, draw_salt, fallen_log, pine};
use minecraft2::flora::{
    combine, ground_cover, plan_growth, plant_in_cell, relate, relate_part, replaceable, sample,
    sample_coarse, spot_in_cell, stamp_coarse, stamp_full, Biome, Coarse, Gap, Greens, Growth, Part,
    Relation, Species, Spot, Touch,
};
use minecraft2::grid::Grid2;
use minecraft2::ivec::IVec3;
use minecraft2::karst::{
    carve_cell, carve_step, carves, dissolve, may_open, reach, sinkhole, sinkhole_shaft, soluble, Sink,
};
use minecraft2::lod::Lod;
use minecraft2::material::{ids, MaterialId};
use minecraft2::noise::{
    grad2, grad3, hash3, hash_unit24, splitmix, two_least, worley2, worley3, Perlin,
};
use minecraft2::rand::Rand;
use minecraft2::samples::{rolling_voxel, Rng};
use minecraft2::sort::sort_falling;
use minecraft2::key::parts::split;
use minecraft2::strata::{
    cycle_jitter, depth, kept_tops, layer, Depth, LayerRef, Measure, Rock,
};
use minecraft2::stream::{choose_lod, lod_for, ChunkStreamer, ColumnView, Radii};
use minecraft2::tectonics::{landform, nearest_two, plates_near, Landform};
use minecraft2::tree::node::Cell;
use minecraft2::tree::ChunkTree;
use minecraft2::world::VoxelWorld;

fn m(id: u16) -> MaterialId {
    MaterialId(id)
}

fn v(x: i32, y: i32, z: i32) -> IVec3 {
    IVec3::new(x, y, z)
}

/// An f32 as an integer in the same order.
fn key(x: f32) -> i32 {
    let b = x.to_bits();
    if b >> 31 == 0 {
        b as i32
    } else {
        -((b & 0x7fff_ffff) as i32)
    }
}

fn shore(sea: f32) -> Shore {
    Shore {
        sea: key(sea),
        floor: key(sea - 0.3),
        grass: key(sea + 0.3),
        root: key(sea + 0.4),
        beach: key(sea + 1.5),
    }
}

fn place(height: f32, slope: f32, river: f32, soil: f32, temp: f32, wet: f32) -> SurfaceSample {
    SurfaceSample {
        height: key(height),
        slope: key(slope),
        river: key(river),
        soil_depth: key(soil),
        temp: key(temp),
        wet: key(wet),
    }
}

fn greens() -> Greens {
    Greens {
        birch_log: m(100),
        birch_leaves: m(101),
        cactus: m(102),
        moss: m(103),
        tall_grass: m(104),
        flower_red: m(105),
        flower_blue: m(106),
        flower_white: m(107),
        flower_yellow: m(108),
    }
}

fn coarse(seed: u64, rain: f32) -> CoarseBits {
    let n = 32 * 32;
    CoarseBits {
        seed,
        size: 32,
        cell_m: 512.0f32.to_bits(),
        sea_level: 96.0f32.to_bits(),
        fingerprint: fingerprint(format!("10 {rain}").as_bytes()),
        height: (0..n).map(|i| (i as f32 * 0.5).to_bits()).collect(),
        flow: (0..n).map(|i| (i as f32 * 0.25).to_bits()).collect(),
        sediment: (0..n).map(|i| (i as f32 * 0.125).to_bits()).collect(),
    }
}

#[test]
fn roundtrip_and_staleness() {
    let t = coarse(9, 0.012);
    let bytes = save(&t);
    let back = load(&bytes, 9, 32, t.fingerprint).unwrap().expect("cache hit");
    assert_eq!(back.height, t.height);
    assert_eq!(back.flow, t.flow);
    assert_eq!(back.sediment, t.sediment);
    assert!(load(&bytes, 10, 32, t.fingerprint).unwrap().is_none(), "other seed is stale");
    let changed = coarse(9, 0.024).fingerprint;
    assert!(load(&bytes, 9, 32, changed).unwrap().is_none(), "other params are stale");
    assert!(load(&bytes, 9, 64, t.fingerprint).unwrap().is_none(), "another size is stale");
}

#[test]
fn corruption_is_detected() {
    let t = coarse(3, 0.012);
    let mut bytes = save(&t);
    bytes[100] ^= 0xff;
    assert!(matches!(load(&bytes, 3, 32, t.fingerprint), Err(CacheError::Checksum)));
}

#[test]
fn fnv_has_its_published_values() {
    assert_eq!(fnv1a(b"", 0), 0xcbf2_9ce4_8422_2325);
    assert_eq!(fnv1a(b"a", 1), 0xaf63_dc4c_8601_ec8c);
    assert_eq!(fnv1a(b"foobar", 6), 0x8594_4171_f739_67e8);
}

#[test]
fn only_carbonates_dissolve() {
    for (joint, shaft, flooded) in [(true, true, true), (true, false, false), (false, true, true)] {
        assert!(dissolve(m(ids::GRANITE), joint, shaft, flooded).is_none());
    }
    assert!(soluble(m(ids::LIMESTONE)) && soluble(m(ids::CHALK)) && soluble(m(ids::MARBLE)));
    assert!(!soluble(m(ids::SANDSTONE)));
}

#[test]
fn joints_open_to_air_or_water() {
    assert_eq!(dissolve(m(ids::CHALK), true, false, false), Some(m(ids::AIR)));
    assert_eq!(dissolve(m(ids::CHALK), false, true, true), Some(m(ids::WATER)));
    assert_eq!(dissolve(m(ids::CHALK), false, false, true), None);
    assert_eq!(carve_step(Lod::Node8), None);
    let mut t = ChunkTree::new(1);
    t.set_cell(v(2, 2, 2), Cell::Uniform(m(ids::LIMESTONE)));
    t.set_cell(v(3, 2, 2), Cell::Uniform(m(ids::GRANITE)));
    carve_cell(&mut t, v(2, 2, 2), true, false, false);
    carve_cell(&mut t, v(3, 2, 2), true, false, false);
    assert_eq!(t.cell(v(2, 2, 2)), Cell::Empty);
    assert_eq!(t.cell(v(3, 2, 2)), Cell::Uniform(m(ids::GRANITE)));
    assert_eq!(reach(v(512, 0, 0), v(500, 8, 8), v(20, 4, 4)), Some((v(0, 0, 0), v(1, 1, 1))));
    assert_eq!(reach(v(512, 0, 0), v(400, 8, 8), v(20, 4, 4)), None);
}

#[test]
fn layers_follow_their_tops() {
    let tops = [10, 20, 30, 40, 50, 60, 70, 80];
    let plain = Rock { pluton: false, volcanic: false };
    let mut prev = layer(&Depth::Bedrock, &tops, plain).index;
    let deep = layer(&Depth::Basement, &tops, plain);
    assert!(deep.index >= prev);
    prev = deep.index;
    for cycle in 0..3 {
        for t in 0..80 {
            let l = layer(&Depth::Cycle { cycle, t }, &tops, plain);
            assert!(l.index >= prev, "index fell at {cycle} {t}");
            prev = l.index;
        }
    }
    assert_eq!(layer(&Depth::Bedrock, &tops, plain).material, m(ids::BEDROCK));
    assert_eq!(deep.material, m(ids::GNEISS));
    let pluton = Rock { pluton: true, volcanic: false };
    assert_eq!(layer(&Depth::Basement, &tops, pluton).material, m(ids::GRANITE));
    assert_eq!(cycle_jitter(5, 2), cycle_jitter(5, 2));
    assert_ne!(cycle_jitter(5, 2), cycle_jitter(6, 2));
}

#[test]
fn hashes_are_seeded_and_draws_have_24_bits() {
    let mut s = 0u64;
    // The published first values of the generator from state 0.
    assert_eq!(splitmix(&mut s), 0xe220_a839_7b1d_cdaf);
    assert_eq!(splitmix(&mut s), 0x6e78_9e6a_a1b9_65f4);
    assert_ne!(hash3(1, 2, 3, 4), hash3(1, 2, 3, 5));
    assert_ne!(hash3(1, 2, 3, 4), hash3(3, 2, 1, 4));
    assert_eq!(hash_unit24(u64::MAX), 0xff_ffff);
    assert_eq!(hash_unit24(1 << 40), 1);
}

#[test]
fn lattices_are_permutations_and_gradients_unit_steps() {
    let (a, b) = (Perlin::new(1), Perlin::new(2));
    assert_eq!(a.corners3(3, -7, 12), Perlin::new(1).corners3(3, -7, 12));
    assert_ne!(
        (0..8).map(|i| a.corners2(i, 0)).collect::<Vec<_>>(),
        (0..8).map(|i| b.corners2(i, 0)).collect::<Vec<_>>()
    );
    // The lattice repeats every 256.
    assert_eq!(a.corners3(-1, 0, 5), a.corners3(255, 256, 5));
    for h in 0..=255u8 {
        let (x, y, z) = grad3(h);
        assert_eq!(x * x + y * y + z * z, 2);
        let (x, y) = grad2(h);
        assert!(x.abs() <= 1 && y.abs() <= 1 && (x, y) != (0, 0));
    }
}

#[test]
fn features_stay_in_their_cells() {
    assert_eq!(worley3(5, -3, 2, 9).len(), 27);
    assert_eq!(worley2(5, -3, 9).len(), 9);
    assert_eq!(two_least(&vec![5, 3, 9, 3], 100), (3, 3));
    assert_eq!(two_least(&vec![], 100), (100, 100));
}

#[test]
fn detail_falls_off_with_distance() {
    let r = Radii { full: 20, cell: 60, node2: 120, node8: 200 };
    let lods: Vec<Option<Lod>> = [0, 20, 21, 60, 61, 120, 121, 200, 201]
        .iter()
        .map(|&d| lod_for(d, &r))
        .collect();
    assert_eq!(lods[0], Some(Lod::Full));
    assert_eq!(lods[8], None);
    assert!(lods.contains(&Some(Lod::Cell)) && lods.contains(&Some(Lod::Node2)));
    assert!(lods.contains(&Some(Lod::Node8)));
    assert_eq!(choose_lod(Some(Lod::Full), Lod::Full, Some(Lod::Cell)), Some(Lod::Full));
    // Within the slack a loaded chunk keeps its detail.
    assert_eq!(choose_lod(Some(Lod::Cell), Lod::Full, Some(Lod::Full)), Some(Lod::Full));
    // Beyond it, it coarsens.
    assert_eq!(choose_lod(Some(Lod::Node2), Lod::Cell, Some(Lod::Full)), Some(Lod::Node2));
}

fn column(cx: i32, ideal: Option<Lod>, relaxed: Lod, distance: u32) -> ColumnView {
    ColumnView { cx, cz: 0, ideal, relaxed, distance, layers: 1, buried: 0, deep: 0 }
}

fn settle(s: &mut ChunkStreamer, world: &mut VoxelWorld) {
    let mut id = 1;
    while let Some((pos, lod)) = s.next_job(16) {
        let mut t = ChunkTree::new(id);
        t.set_cell(v(0, 0, 0), Cell::Uniform(m(ids::GRANITE)));
        s.finish(world, pos, lod, t);
        s.unload_chunks(world);
        id += 1;
    }
    s.unload_chunks(world);
    assert!(s.settled());
}

#[test]
fn detail_falls_off_with_distance_and_follows_the_camera() {
    let mut s = ChunkStreamer::new();
    let mut world = VoxelWorld::new();
    s.rebuild_targets(&vec![
        column(0, Some(Lod::Full), Lod::Full, 0),
        column(6, Some(Lod::Node8), Lod::Node8, 190),
    ]);
    settle(&mut s, &mut world);
    assert_eq!(s.lod_of(ChunkPos(v(0, 0, 0))), Some(Lod::Full));
    assert_eq!(s.lod_of(ChunkPos(v(6, 0, 0))), Some(Lod::Node8));
    assert_eq!(world.chunk_count(), 2);

    // Move away: the old neighbourhood unloads, the new one loads.
    s.rebuild_targets(&vec![column(12, Some(Lod::Full), Lod::Full, 0)]);
    settle(&mut s, &mut world);
    assert_eq!(s.lod_of(ChunkPos(v(0, 0, 0))), None);
    assert_eq!(s.lod_of(ChunkPos(v(12, 0, 0))), Some(Lod::Full));
    assert!(world.chunks().iter().all(|(p, _)| s.lod_of(*p).is_some()));
    assert_eq!((s.loaded_count(), s.queued_count(), s.inflight_count()), (1, 0, 0));
    assert_eq!(s.generated(), 3);
    let stats = s.stats(7);
    assert_eq!((stats.loaded, stats.inflight, stats.queued, stats.full), (1, 0, 0, 1));
    assert_eq!((stats.inserted_last_frame, stats.generated_total), (7, 3));
}

#[test]
fn pinned_chunks_stay_full() {
    let mut s = ChunkStreamer::new();
    let mut world = VoxelWorld::new();
    s.rebuild_targets(&vec![column(0, Some(Lod::Full), Lod::Full, 0)]);
    settle(&mut s, &mut world);
    let pos = ChunkPos(v(0, 0, 0));
    s.pin(pos);
    s.rebuild_targets(&vec![
        column(0, Some(Lod::Node8), Lod::Node2, 150),
        column(5, Some(Lod::Full), Lod::Full, 0),
    ]);
    settle(&mut s, &mut world);
    assert_eq!(s.lod_of(pos), Some(Lod::Full));
    assert_eq!(s.lod_of(ChunkPos(v(5, 0, 0))), Some(Lod::Full));
}

#[test]
fn sorting_puts_the_largest_first() {
    let list = vec![(3, 'a'), (9, 'b'), (1, 'c'), (9, 'd')];
    let sorted = sort_falling(&list);
    assert_eq!(sorted.iter().map(|e| e.0).collect::<Vec<u64>>(), vec![9, 9, 3, 1]);
    assert_eq!(sorted[2].1, 'a');
}

#[test]
fn biomes_go_by_sea_height_and_climate() {
    let sea = shore(96.0);
    let b = |h, s, t, w| place(h, s, 0.0, 1.0, t, w).biome(&sea);
    assert_eq!(b(90.0, 0.1, 0.5, 0.5), Biome::Ocean);
    assert_eq!(b(96.5, 0.1, 0.5, 0.5), Biome::Beach);
    assert_eq!(b(96.5, 0.5, 0.5, 0.5), Biome::Plains);
    assert_eq!(b(400.0, 0.5, 0.5, 0.5), Biome::Snow);
    assert_eq!(b(350.0, 0.5, 0.5, 0.5), Biome::Alpine);
    assert_eq!(b(120.0, 0.1, 0.2, 0.5), Biome::SnowyTaiga);
    assert_eq!(b(120.0, 0.1, 0.4, 0.5), Biome::Taiga);
    assert_eq!(b(120.0, 0.1, 0.7, 0.3), Biome::Desert);
    assert_eq!(b(120.0, 0.1, 0.5, 0.6), Biome::BirchForest);
    assert_eq!(b(120.0, 0.1, 0.6, 0.6), Biome::Forest);
    assert_eq!((SNOWLINE_M, TREELINE_M), (key(390.0), key(330.0)));
}

#[test]
fn columns_have_sea_soil_and_rock() {
    let sea = shore(96.0);
    let s = place(120.0, 0.1, 0.0, 1.5, 0.5, 0.5);
    let at = |y: f32| material_at(&s, &sea, key(120.0 - y), key(y), m(ids::SHALE));
    assert_eq!(at(121.0), m(ids::AIR));
    assert_eq!(at(119.9), m(ids::GRASS));
    assert_eq!(at(119.0), m(ids::DIRT));
    assert_eq!(at(118.0), m(ids::SHALE));
    let bed = place(80.0, 0.1, 0.0, 1.5, 0.5, 0.5);
    let under = |y: f32| material_at(&bed, &sea, key(80.0 - y), key(y), m(ids::SHALE));
    assert_eq!(under(95.0), m(ids::WATER));
    assert_eq!(under(97.0), m(ids::AIR));
    assert_eq!(under(79.5), m(ids::SAND));
    assert!(grassy(&s, &sea) && !grassy(&bed, &sea));
    let river = place(120.0, 0.1, 0.9, 1.5, 0.5, 0.5);
    assert_eq!(loose_material(&river, &sea, key(0.1), key(119.9)), m(ids::GRAVEL));
    let cold = place(120.0, 0.1, 0.0, 1.5, 0.1, 0.5);
    assert_eq!(loose_material(&cold, &sea, key(0.1), key(119.9)), m(ids::SNOW));
}

#[test]
fn ground_cover_is_grass_with_a_flower_on_top() {
    let sea = shore(96.0);
    let g = greens();
    let plains = place(120.0, 0.1, 0.0, 1.5, 0.5, 0.5);
    let desert = place(120.0, 0.1, 0.0, 1.5, 0.7, 0.3);
    let (mut grass, mut flowers, mut bare) = (0, 0, 0);
    for x in 0..200 {
        for z in 0..200 {
            assert_eq!(ground_cover(&desert, &sea, x, z, 0, 7, &g), m(ids::AIR));
            if ground_cover(&plains, &sea, x, z, 0, 7, &g) == m(ids::AIR) {
                bare += 1;
                continue;
            }
            grass += 1;
            let mut prev = g.tall_grass;
            for level in 0..12 {
                let here = ground_cover(&plains, &sea, x, z, level, 7, &g);
                if here != m(ids::AIR) && here != g.tall_grass {
                    flowers += 1;
                    assert_eq!(prev, g.tall_grass);
                }
                assert!(prev != m(ids::AIR) || here == m(ids::AIR));
                prev = here;
            }
        }
    }
    assert!(grass > 12000 && bare > 20000 && flowers > 200, "{grass} {bare} {flowers}");
}

#[test]
fn plants_suit_their_biome() {
    let sea = shore(96.0);
    let g = greens();
    let spot = |roll, pick| Spot { x: 0, z: 0, roll, pick, stream: 0 };
    let forest = place(120.0, 0.1, 0.0, 1.5, 0.6, 0.6);
    let oak = Species::Broadleaf { log: m(ids::OAK_LOG), leaf: m(ids::LEAVES), tall: false };
    assert_eq!(plant_in_cell(&forest, &sea, &spot(0, 0x80_0000), false, &g), Some(oak));
    assert_eq!(plant_in_cell(&forest, &sea, &spot(0, 0), true, &g), None);
    assert_eq!(
        plant_in_cell(&forest, &sea, &spot(0, 0xff_ffff), false, &g),
        Some(Species::FallenLog)
    );
    let bare = place(120.0, 0.1, 0.0, 0.1, 0.6, 0.6);
    assert_eq!(
        plant_in_cell(&bare, &sea, &spot(0, 0), false, &g),
        Some(Species::Bush { leaf: m(ids::LEAVES) })
    );
    let steep = place(120.0, 0.9, 0.0, 1.5, 0.6, 0.6);
    assert_eq!(plant_in_cell(&steep, &sea, &spot(0, 0), false, &g), None);
    let desert = place(120.0, 0.1, 0.0, 1.5, 0.7, 0.3);
    assert_eq!(plant_in_cell(&desert, &sea, &spot(0, 0), false, &g), Some(Species::Cactus));
    let s = spot_in_cell(3, 4, 9);
    assert_eq!(s, spot_in_cell(3, 4, 9));
    assert_ne!(s, spot_in_cell(4, 3, 9));
}

#[test]
fn trees_have_a_trunk_limbs_and_a_crown() {
    let (mut fewest, mut most) = (usize::MAX, 0);
    for seed in 0..200 {
        let t = broadleaf(&mut Rand(seed), false);
        assert!(t.limbs.len() >= 4 && t.limbs.len() <= 6 && t.extras.len() >= 4);
        fewest = fewest.min(t.limbs.len());
        most = most.max(t.limbs.len());
        let parts = t.parts(m(ids::OAK_LOG), m(ids::LEAVES));
        assert_eq!(parts.len(), 5 + 3 * t.limbs.len() + t.extras.len());
        assert_eq!(parts[0], Part::Wood { m: m(ids::OAK_LOG) });
        assert!(matches!(parts[6], Part::Blob { cap: None, .. }));
    }
    assert_eq!((fewest, most), (4, 6));
    let tall = broadleaf(&mut Rand(3), true);
    assert_eq!((tall.limbs.len(), tall.extras.len()), (3, 2));
    // Draws are those of the stream, in order.
    let mut rng = Rand(3);
    assert_eq!(tall.height, rng.next());
    assert_eq!(tall.girth, rng.next());
}

#[test]
fn other_plants_have_their_parts() {
    let g = greens();
    for seed in 0..100 {
        let (blobs, parts) = bush(&mut Rand(seed), m(ids::LEAVES));
        assert!((1..=3).contains(&blobs.len()) && parts.len() == blobs.len());
        let (c, parts) = cactus(&mut Rand(seed), &g);
        assert!(c.arms.len() <= 2 && parts.len() == 1 + 2 * c.arms.len());
        assert!(parts.iter().all(|p| *p == Part::Wood { m: g.cactus }));
        let (stones, parts) = boulder(&mut Rand(seed), true, &g);
        assert!((1..=3).contains(&stones.len()) && parts.len() == stones.len());
        assert!(matches!(parts[0], Part::Blob { cap: Some(c), .. } if c == g.moss));
        let (draws, parts) = fallen_log(&mut Rand(seed), &g);
        assert_eq!(draws[0], Rand(seed).next());
        assert_eq!(parts.len(), 2);
        assert!(draw_salt(&mut Rand(seed)) < 1_000_000);
    }
    let p = pine(500, 4, true);
    assert_eq!(p.len(), 7);
    assert!(matches!(p[2], Part::Blob { cap: Some(c), salt: 500, .. } if c == m(ids::SNOW)));
    assert!(matches!(p[6], Part::Blob { salt: 599, cap: None, .. }));
}

#[test]
fn parts_give_wood_before_leaves() {
    let wood = Part::Wood { m: m(ids::OAK_LOG) };
    let leaf = Part::Blob { m: m(ids::LEAVES), fill: 0, cap: None, salt: 1 };
    let stone = Part::Blob { m: m(ids::GNEISS), fill: 0x100_0000, cap: Some(m(103)), salt: 1 };
    let at = v(4, 5, 6);
    assert_eq!(sample(&wood, &Touch::Rod { inside: true }, at), Some(m(ids::OAK_LOG)));
    assert_eq!(sample(&wood, &Touch::Rod { inside: false }, at), None);
    let deep = Touch::Blob { depth: key(0.5), above: key(0.6) };
    let skin = Touch::Blob { depth: key(0.9), above: key(1.1) };
    let out = Touch::Blob { depth: key(1.01), above: key(1.1) };
    assert_eq!(sample(&leaf, &deep, at), Some(m(ids::LEAVES)));
    assert_eq!(sample(&leaf, &skin, at), None);
    assert_eq!(sample(&stone, &skin, at), Some(m(103)));
    assert_eq!(sample(&stone, &deep, at), Some(m(ids::GNEISS)));
    assert_eq!(sample(&stone, &out, at), None);
    assert_eq!(sample_coarse(&stone, Coarse { inside: true, top: true }), Some(m(103)));
    let parts = vec![leaf, wood];
    assert_eq!(combine(&parts, &vec![Some(m(1)), Some(m(2))]), Some(m(2)));
    assert_eq!(combine(&parts, &vec![Some(m(1)), None]), Some(m(1)));
    assert_eq!(combine(&parts, &vec![None, None]), None);
}

#[test]
fn cubes_relate_to_plants() {
    let wood = Part::Wood { m: m(ids::OAK_LOG) };
    let leaf = Part::Blob { m: m(ids::LEAVES), fill: 0, cap: None, salt: 1 };
    let far = Gap::Rod { d: key(3.0), outer: key(1.0), inner: key(-0.2) };
    assert_eq!(relate_part(&wood, &far), Relation::Outside);
    let near = Gap::Blob { near: key(0.1), far: key(0.5) };
    assert_eq!(relate_part(&leaf, &near), Relation::Inside(m(ids::LEAVES)));
    let parts = vec![leaf, wood];
    let inside = Relation::Inside(m(ids::LEAVES));
    assert_eq!(relate(&parts, &vec![inside, Relation::Outside]), inside);
    assert_eq!(relate(&parts, &vec![inside, Relation::Edge]), Relation::Edge);
    assert_eq!(
        relate(&parts, &vec![inside, Relation::Inside(m(ids::OAK_LOG))]),
        Relation::Inside(m(ids::OAK_LOG))
    );
    let mut t = ChunkTree::new(1);
    assert_eq!(plan_growth(&t, v(0, 0, 0), inside), Growth::Whole(m(ids::LEAVES)));
    t.set_cell(v(0, 0, 0), Cell::Uniform(m(ids::GRANITE)));
    assert_eq!(plan_growth(&t, v(0, 0, 0), inside), Growth::Voxels);
    assert_eq!(plan_growth(&t, v(0, 0, 0), Relation::Outside), Growth::Skip);
}

#[test]
fn plants_grow_only_where_something_gives_way() {
    assert!(replaceable(m(ids::AIR)) && replaceable(m(ids::WHEAT)));
    assert!(!replaceable(m(ids::LEAVES)) && !replaceable(m(ids::GRANITE)));
    let mut t = ChunkTree::new(1);
    t.set_voxel(v(0, 0, 0), m(ids::GRANITE));
    t.set_voxel(v(1, 0, 0), m(ids::WHEAT));
    let mut paint = [None; 512];
    paint[0] = Some(m(ids::OAK_LOG));
    paint[1] = Some(m(ids::OAK_LOG));
    paint[2] = Some(m(ids::OAK_LOG));
    stamp_full(&mut t, v(0, 0, 0), &paint);
    assert_eq!(t.voxel(v(0, 0, 0)), m(ids::GRANITE));
    assert_eq!(t.voxel(v(1, 0, 0)), m(ids::OAK_LOG));
    assert_eq!(t.voxel(v(2, 0, 0)), m(ids::OAK_LOG));
    assert_eq!(t.voxel(v(3, 0, 0)), m(ids::AIR));
    stamp_coarse(&mut t, v(9, 9, 9), 1, m(ids::LEAVES));
    assert_eq!(t.cell(v(9, 9, 9)), Cell::Uniform(m(ids::LEAVES)));
    stamp_coarse(&mut t, v(3, 3, 3), 4, m(ids::OAK_LOG));
    assert_eq!(t.cell(v(13, 13, 13)), Cell::Empty);
    stamp_coarse(&mut t, v(3, 3, 3), 4, m(ids::LEAVES));
    assert_eq!(t.voxel(v(100, 100, 100)), m(ids::LEAVES));
}

fn flat_ground(rock: i32, over: i32, sea: i32) -> Ground {
    let layer = LayerRef { index: 3, material: m(ids::SHALE) };
    Ground {
        over: vec![over; 4096],
        rock: vec![rock; 4096],
        buried: vec![rock - 4; 4096],
        planes: (0..65).collect(),
        bottoms: vec![layer; 262144],
        tops: vec![layer; 262144],
        sea,
    }
}

#[test]
fn chunks_are_planned_top_down() {
    let mut g = flat_ground(20, 22, 40);
    let plan = plan_chunk(&g);
    let at = |plan: &Vec<Content>, y: i32| plan[index(v(5, y, 9))];
    assert_eq!(at(&plan, 0), Content::Rock(m(ids::SHALE)));
    assert_eq!(at(&plan, 19), Content::Rock(m(ids::SHALE)));
    assert_eq!(at(&plan, 20), Content::Voxels);
    assert_eq!(at(&plan, 22), Content::Water);
    assert_eq!(at(&plan, 39), Content::Water);
    assert_eq!(at(&plan, 40), Content::Air);
    assert_eq!(at(&plan, 63), Content::Air);
    // A layer boundary through a buried cell is kept at cell resolution.
    g.bottoms[0].index = 2;
    g.bottoms[index(v(0, 16, 0))].index = 2;
    let plan = plan_chunk(&g);
    assert_eq!(plan[0], Content::Buried);
    assert_eq!(plan[index(v(1, 0, 0))], Content::Rock(m(ids::SHALE)));
    assert_eq!(plan[index(v(0, 16, 0))], Content::Voxels);
    assert_eq!(g.region(0, 0, 16), (22, 20));
}

#[test]
fn sky_chunks_are_empty() {
    let g = flat_ground(-30, -20, -10);
    assert!(plan_chunk(&g).iter().all(|c| *c == Content::Air));
    assert!(clears(key(90.0), key(96.0), key(100.0)) && !clears(key(90.0), key(96.0), key(95.0)));
}

#[test]
fn dense_chunks_become_trees() {
    let mut cells = vec![0u16; 262144];
    cells[index(v(1, 2, 3))] = ids::SAND;
    let mut voxels = [m(ids::AIR); 512];
    voxels[9] = m(ids::CLAY);
    let b = brick_at(&voxels);
    let t = from_dense(8, &cells, vec![(v(4, 4, 4), b)]);
    assert_eq!(t.id(), 8);
    assert_eq!(t.cell(v(1, 2, 3)), Cell::Uniform(m(ids::SAND)));
    assert_eq!(t.voxel(v(33, 32, 33)), m(ids::CLAY));
    assert_eq!(t.voxel(v(34, 32, 33)), m(ids::AIR));
    assert_eq!(t.cells().len(), 2);
}

#[test]
fn coarse_columns_show_the_surface_on_top() {
    let centres: Vec<i32> = (0..9).map(|i| i * 10 + 5).collect();
    assert_eq!(
        coarse_column(&centres, 22, 40),
        vec![Probe::Centre, Probe::Surface, Probe::Water, Probe::Water]
    );
    assert_eq!(coarse_column(&centres, 0, 0), vec![]);
    assert_eq!(coarse_column(&centres, 1000, 0).len(), 8);
    let r = recipe(Lod::Node2);
    assert_eq!((r.cells, r.level, r.ores, r.stamps), (4, 1, false, true));
    assert!(recipe(Lod::Full).ores && !recipe(Lod::Node8).stamps);
}

#[test]
fn column_ranges_are_exact_and_clamped() {
    let t = Grid2 { w: 3, h: 2, data: vec![5, 1, 9, 4, 8, 2] };
    assert_eq!(column_range(&t, 0, 0, 0, 0), (5, 5));
    assert_eq!(column_range(&t, 0, 1, 0, 1), (1, 8));
    assert_eq!(column_range(&t, -5, 90, -5, 90), (1, 9));
}

#[test]
fn voxels_take_cover_and_dissolve() {
    let sea = shore(96.0);
    let s = place(120.0, 0.1, 0.0, 1.5, 0.5, 0.5);
    let air = Voxel {
        depth: key(-0.1),
        y: key(120.1),
        rock: m(ids::CHALK),
        level: Some(0),
        joint: false,
        shaft: false,
        flooded: false,
    };
    let g = greens();
    let mut covered = 0;
    for x in 0..100 {
        let here = material_of(&s, &sea, &air, x, 0, 7, true, &g);
        assert_eq!(material_of(&s, &sea, &air, x, 0, 7, false, &g), m(ids::AIR));
        if here == g.tall_grass {
            covered += 1;
        }
    }
    assert!(covered > 20 && covered < 60, "{covered}");
    let rock = Voxel { depth: key(5.0), y: key(115.0), level: None, ..air };
    assert_eq!(material_of(&s, &sea, &rock, 0, 0, 7, true, &g), m(ids::CHALK));
    let open = Voxel { joint: true, flooded: true, ..rock };
    assert_eq!(material_of(&s, &sea, &open, 0, 0, 7, true, &g), m(ids::WATER));
}

#[test]
fn cells_are_grouped_by_column() {
    let cells = vec![v(1, 0, 2), v(3, 9, 2), v(1, 5, 2), v(3, 1, 2), v(1, 6, 3)];
    let groups = group_columns(&cells);
    assert_eq!(groups.len(), 3);
    let of = |x, z| groups.iter().find(|g| g.x == x && g.z == z).unwrap().cells.clone();
    assert_eq!(of(1, 2), vec![0, 2]);
    assert_eq!(of(3, 2), vec![1, 3]);
    assert_eq!(of(1, 3), vec![4]);
}

#[test]
fn ores_replace_their_host_in_a_flat_body() {
    let mut t = ChunkTree::new(1);
    for x in 0..4 {
        t.set_node(2, v(x, 0, 0), m(ids::SHALE));
    }
    t.set_voxel(v(200, 60, 60), m(ids::SAND));
    let ore = Ore { material: m(ids::COAL_ORE), fifths: 200 };
    let body = Body { origin: v(0, 0, 0), centre: v(200, 60, 60), host: m(ids::SHALE), ore };
    stamp_blob(&mut t, &body);
    assert_eq!(t.voxel(v(200, 60, 60)), m(ids::SAND));
    assert_eq!(t.voxel(v(240, 60, 60)), m(ids::COAL_ORE));
    assert_eq!(t.voxel(v(241, 60, 60)), m(ids::SHALE));
    assert_eq!(t.voxel(v(200, 73, 60)), m(ids::COAL_ORE));
    assert_eq!(t.voxel(v(200, 74, 60)), m(ids::SHALE));
    let (lo, hi) = ore_cells(v(512, 0, -512));
    assert_eq!((lo, hi), (v(1, 0, -3), v(4, 2, 0)));
    let c = ore_centre(v(2, 1, -1), 9);
    assert!(c.x >= 512 && c.x < 768 && c.y >= 256 && c.y < 512 && c.z >= -256 && c.z < 0);
    let share = |host: u16| {
        (0..4000).filter(|&i| ore_in(v(i, 0, 0), 5, m(host)).is_some()).count()
    };
    assert!((1600..2000).contains(&share(ids::SHALE)), "{}", share(ids::SHALE));
    assert!((60..200).contains(&share(ids::GNEISS)), "{}", share(ids::GNEISS));
    assert_eq!(share(ids::LIMESTONE), 0);
}

#[test]
fn pipes_join_neighbours_and_stay_in_the_grid() {
    assert_eq!(neighbour(4, 3, 0, 1, Pipe::Left), None);
    assert_eq!(neighbour(4, 3, 0, 1, Pipe::Right), Some(5));
    assert_eq!(neighbour(4, 3, 2, 0, Pipe::Down), None);
    assert_eq!(neighbour(4, 3, 2, 0, Pipe::Up), Some(6));
    assert_eq!(neighbour(4, 3, 3, 2, Pipe::Up), None);
    assert_eq!(Pipe::Left.opposite(), Pipe::Right);
    assert_eq!(clamp_xy(4, 3, -9, 99), 8);
    assert_eq!(corners(4, 3, 2, 1), [6, 7, 10, 11]);
    assert_eq!(corners(4, 3, 3, 2), [11, 11, 11, 11]);
    let t = turn(100);
    assert!(t.harden && t.collapse && !turn(50).collapse && !turn(8).harden);
    assert!(overdrawn(key(2.0), key(1.0)) && !overdrawn(key(0.0), key(-1.0)));
    assert!(wears(key(2.0), key(1.0), key(5.0), key(5.0)));
    assert!(!wears(key(2.0), key(1.0), key(4.0), key(5.0)));
    assert_eq!(slide(key(2.0), key(1.0)), Slide::Leaves);
    assert_eq!(slide(key(-2.0), key(1.0)), Slide::Arrives);
    assert_eq!(slide(key(0.5), key(1.0)), Slide::Stays);
}

#[test]
fn thermal_erosion_conserves_mass() {
    // Slopes of whole metres slide through the pipes a metre at a time.
    let (w, h) = (48usize, 48usize);
    let mut b: Vec<i32> = (0..w * h)
        .map(|i| {
            let (x, y) = ((i % w) as i32 - 24, (i / w) as i32 - 24);
            (300 - 6 * ((x * x + y * y) as f32).sqrt() as i32).max(30) + (i as i32 * 7) % 5
        })
        .collect();
    let before: i64 = b.iter().map(|&x| i64::from(x)).sum();
    for _ in 0..20 {
        let mut delta = vec![0; w * h];
        for y in 0..h {
            for x in 0..w {
                let i = y * w + x;
                for p in [Pipe::Left, Pipe::Right, Pipe::Down, Pipe::Up] {
                    if let Some(j) = neighbour(w, h, x, y, p) {
                        match slide(b[i] - b[j], 2) {
                            Slide::Leaves => delta[i] -= 1,
                            Slide::Arrives => delta[i] += 1,
                            Slide::Stays => {}
                        }
                    }
                }
            }
        }
        assert!(delta.iter().any(|d| *d != 0));
        for i in 0..w * h {
            b[i] += delta[i];
        }
    }
    let after: i64 = b.iter().map(|&x| i64::from(x)).sum();
    assert_eq!(before, after);
}

#[test]
fn plates_are_nearest_first() {
    assert_eq!(nearest_two(&vec![5, 3, 9, 4]), (1, 3));
    assert_eq!(nearest_two(&vec![5, 5, 3, 3]), (2, 3));
    assert_eq!(nearest_two(&vec![4, 4, 3]), (2, 0));
    let p = plates_near(10, -2, 4);
    assert_eq!(p.len(), 9);
    assert_eq!((p[0].gx, p[0].gz, p[8].gx, p[8].gz), (9, -3, 11, -1));
    assert_eq!(p, plates_near(10, -2, 4));
    assert_eq!(landform(key(0.5)), Landform::Range);
    assert_eq!(landform(key(-0.5)), Landform::Rift);
    assert_eq!(landform(key(0.18)), Landform::Scarp);
}

#[test]
fn sample_streams_are_xorshift() {
    let mut rng = Rng(1);
    assert_eq!(rng.next53(), 0x4082_2041 >> 11);
    assert_eq!(rng.0, 0x4082_2041);
    assert_eq!(rolling_voxel(16, 200, 0, 200), Some(m(ids::GRASS)));
    assert_eq!(rolling_voxel(16, 198, 0, 200), Some(m(ids::GRANITE)));
    assert_eq!(rolling_voxel(0, 198, 0, 200), Some(m(ids::SANDSTONE)));
    assert_eq!(rolling_voxel(0, 193, 0, 200), None);
    assert_eq!(rolling_voxel(0, 149, 0, 151), None);
}

#[test]
fn passages_keep_a_roof_and_a_floor() {
    assert!(may_open(key(3.0), key(8.0)) && may_open(key(88.0), key(100.0)));
    assert!(!may_open(key(2.99), key(50.0)) && !may_open(key(88.1), key(50.0)));
    assert!(!may_open(key(20.0), key(7.9)));
    let lime = m(ids::LIMESTONE);
    assert!(carves(key(0.46), lime, Lod::Full, key(0.5)));
    assert!(!carves(key(0.45), lime, Lod::Full, key(0.5)));
    assert!(!carves(key(0.9), m(ids::GRANITE), Lod::Full, key(5.0)));
    assert!(carves(key(0.9), lime, Lod::Node2, key(3.2)));
    assert!(!carves(key(0.9), lime, Lod::Node2, key(3.1)));
    assert!(!carves(key(0.9), lime, Lod::Node8, key(5.0)));
}

#[test]
fn sinkholes_open_under_strong_rivers() {
    let s = Sink {
        river: key(0.62),
        surface: key(120.0),
        dry: key(100.0),
        bottom: key(98.0),
        jx: key(0.11),
        jz: key(-0.2),
    };
    assert!(sinkhole(&s));
    assert!(sinkhole_shaft(&s, key(98.0)) && sinkhole_shaft(&s, key(120.0)));
    assert!(!sinkhole_shaft(&s, key(97.9)) && !sinkhole_shaft(&s, key(120.1)));
    assert!(!sinkhole(&Sink { river: key(0.61), ..s }));
    assert!(!sinkhole(&Sink { surface: key(100.0), ..s }));
    assert!(!sinkhole_shaft(&Sink { jx: key(0.12), ..s }, key(110.0)));
}

#[test]
fn numbers_split_as_floats_do() {
    let mut bits = 1u32;
    while bits < 0x4d80_0000 {
        let x = f32::from_bits(bits);
        let (whole, rest) = split(bits);
        assert_eq!(whole, x.floor() as u32, "{x}");
        assert_eq!(f32::from_bits(rest), x - x.floor(), "{x}");
        bits += 7919;
    }
    assert_eq!(split(0), (0, 0));
    assert_eq!(split(2.75f32.to_bits()), (2, 0.75f32.to_bits()));
    assert_eq!(split(1.0f32.to_bits()), (1, 0));
}

/// Gradient noise over the library's lattice.
fn noise2(p: &Perlin, x: f32, y: f32) -> f32 {
    let fade = |t: f32| t * t * t * (t * (t * 6.0 - 15.0) + 10.0);
    let lerp = |a: f32, b: f32, t: f32| a + (b - a) * t;
    let slope = |h: u8, x: f32, y: f32| {
        let (a, b) = grad2(h);
        a as f32 * x + b as f32 * y
    };
    let (xf, yf) = (x.floor(), y.floor());
    let h = p.corners2(xf as i32, yf as i32);
    let (x, y) = (x - xf, y - yf);
    lerp(
        lerp(slope(h[0], x, y), slope(h[1], x - 1.0, y), fade(x)),
        lerp(slope(h[2], x, y - 1.0), slope(h[3], x - 1.0, y - 1.0), fade(x)),
        fade(y),
    )
}

fn fbm2(p: &Perlin, x: f32, y: f32) -> f32 {
    let (mut sum, mut amp, mut freq, mut norm) = (0.0, 1.0, 1.0, 0.0);
    for o in 0..3 {
        let off = o as f32 * 17.13;
        sum += amp * noise2(p, x * freq + off, y * freq - off);
        norm += amp;
        amp *= 0.5;
        freq *= 2.0;
    }
    sum / norm
}

/// The float parts of a rock column; its layers are the library's.
struct Strata {
    fold: Perlin,
    region: Perlin,
    seed: u64,
    cycles: Vec<[u32; 8]>,
}

struct Column<'a> {
    strata: &'a Strata,
    warp: f32,
    basement: f32,
    rock: Rock,
}

fn cycle_tops(seed: u64, cycle: u32) -> [u32; 8] {
    let fractions = [0.06f32, 0.18, 0.10, 0.22, 0.12, 0.08, 0.08, 0.16];
    let jitter = cycle_jitter(seed, cycle as i32);
    let mut weights = [0.0f32; 8];
    let mut total = 0.0;
    for j in 0..8 {
        weights[j] = fractions[j] * (0.6 + 0.8 * (jitter[j] as f32 / 16777216.0));
        total += weights[j];
    }
    let mut acc = 0.0f32;
    let mut tops = [0; 8];
    for j in 0..8 {
        acc += weights[j] / total;
        tops[j] = acc.to_bits();
    }
    tops[7] = f32::INFINITY.to_bits();
    tops
}

impl Strata {
    fn new(seed: u64) -> Self {
        Self {
            fold: Perlin::new(seed ^ 0x5717_a7a0),
            region: Perlin::new(seed ^ 0x09e6_1011),
            seed,
            cycles: (0..16).map(|c| cycle_tops(seed, c)).collect(),
        }
    }

    fn column(&self, x: f32, z: f32) -> Column<'_> {
        let volcanism =
            (fbm2(&self.region, x / 5000.0 + 7.3, z / 5000.0 - 2.1) * 1.6 + 0.3).clamp(0.0, 1.0);
        Column {
            strata: self,
            warp: noise2(&self.fold, x / 6000.0, z / 6000.0) * 60.0
                + fbm2(&self.fold, x / 900.0, z / 900.0) * 14.0,
            basement: 28.0 + noise2(&self.region, x / 3000.0, z / 3000.0) * 20.0,
            rock: Rock {
                pluton: noise2(&self.region, x / 400.0 + 91.0, z / 400.0 - 17.0) > 0.25,
                volcanic: volcanism > 0.55,
            },
        }
    }

    /// A point by itself: nothing kept.
    fn layer(&self, x: f32, y: f32, z: f32) -> LayerRef {
        self.column(x, z).look(y, &vec![])
    }
}

impl Column<'_> {
    fn look(&self, y: f32, kept: &Vec<[u32; 8]>) -> LayerRef {
        let yw = y + self.warp;
        let periods = ((yw - self.basement) / 72.0).max(0.0);
        let d = depth(&Measure { elevation: key(yw), periods: key(periods) }, key(self.basement));
        let tops = match d {
            Depth::Cycle { cycle, .. } => match kept_tops(kept, cycle) {
                Some(t) => t,
                None => cycle_tops(self.strata.seed, cycle),
            },
            _ => [0; 8],
        };
        layer(&d, &tops, self.rock)
    }

    fn layer(&self, y: f32) -> LayerRef {
        self.look(y, &self.strata.cycles)
    }
}

#[test]
fn layer_index_is_monotonic_in_elevation() {
    let s = Strata::new(11);
    for (x, z) in [(100.0, 200.0), (5000.0, 9000.0), (12000.0, 300.0)] {
        let col = s.column(x, z);
        let mut prev = 0;
        for i in 0..5120 {
            let l = col.layer(i as f32 * 0.1);
            assert!(l.index >= prev, "index fell at y={}", i as f32 * 0.1);
            prev = l.index;
        }
        assert!(prev > 20, "a 512 m column crosses many layers");
    }
}

#[test]
fn column_matches_point_lookup() {
    let s = Strata::new(5);
    let col = s.column(777.0, 4242.0);
    for y in [1.0, 20.0, 64.5, 200.0, 480.0] {
        assert_eq!(col.layer(y), s.layer(777.0, y, 4242.0));
    }
}

#[test]
fn sequence_contains_several_rock_types() {
    let s = Strata::new(3);
    let col = s.column(1000.0, 1000.0);
    let mut seen = Vec::new();
    for i in 0..512 {
        let m = col.layer(i as f32).material;
        if !seen.contains(&m) {
            seen.push(m);
        }
    }
    assert!(seen.len() >= 5, "only {seen:?}");
}

#[test]
fn boxes_reach_the_cells_they_touch_and_no_more() {
    let o = v(0, 0, 0);
    assert_eq!(reach(o, v(100, 100, 100), v(0, 7, 8)), Some((v(12, 11, 11), v(12, 13, 13))));
    assert_eq!(reach(o, v(0, 511, 0), v(4, 4, 4)), Some((v(0, 63, 0), v(0, 63, 0))));
    assert_eq!(reach(o, v(-5, 0, 0), v(4, 4, 4)), None);
    assert_eq!(reach(o, v(0, 516, 0), v(4, 4, 4)), None);
    assert_eq!(reach(o, v(0, 0, 0), v(1000, 1000, 1000)), Some((o, v(63, 63, 63))));
}

#[test]
fn chunks_wait_once_each() {
    let mut s = ChunkStreamer::new();
    let views: Vec<ColumnView> =
        (0..9).map(|i| column(i, Some(Lod::Full), Lod::Full, i as u32)).collect();
    s.rebuild_targets(&views);
    s.rebuild_targets(&views);
    let mut seen = Vec::new();
    while let Some((p, _)) = s.next_job(1000) {
        assert!(!seen.contains(&p), "{p:?}");
        seen.push(p);
    }
    assert_eq!(seen.len(), 9);
}
