use minecraft2::brick::{Brick, VoxelState};
use minecraft2::gpu_layout::encode::{brick_words, encode_brick, encode_state};
use minecraft2::gpu_layout::facing::gradient;
use minecraft2::gpu_layout::flat::{flatten_chunk, pack_lod, BrickTable, Lod, Site};
use minecraft2::gpu_layout::hist::Histogram;
use minecraft2::gpu_layout::{
    BRICK_PTR_MASK, LEAF_PARENT, NARROW_BRICK_WORDS, NODE_WORDS, NOT_RESIDENT, PTR_MASK,
    STATE_WORDS, UNIFORM, UNIFORM_NODE, WIDE, WIDE_BRICK_WORDS,
};
use minecraft2::ivec::IVec3;
use minecraft2::material::{ids, MaterialId};
use minecraft2::samples::Rng;
use minecraft2::tree::node::Cell;
use minecraft2::tree::path::child_coord;
use minecraft2::tree::ChunkTree;

fn v(x: i32, y: i32, z: i32) -> IVec3 {
    IVec3::new(x, y, z)
}

fn next(rng: &mut Rng) -> f64 {
    rng.next53() as f64 / (1u64 << 53) as f64
}

/// Reads a voxel back out of flattened words the way the shader does.
fn gpu_voxel(tree: &[u32], voxels: &[u32], root: usize, p: IVec3) -> u16 {
    let mut node = root;
    let mut shift: i32 = 7; // chunk root children are 128 voxels
    loop {
        let c = |a: i32| (a >> shift) & 3;
        let idx = (c(p.x) + (c(p.z) << 2) + (c(p.y) << 4)) as u32;
        let mask = u64::from(tree[node + 1]) | u64::from(tree[node + 2]) << 32;
        if mask >> idx & 1 == 0 {
            return 0;
        }
        let slot = (mask & ((1u64 << idx) - 1)).count_ones() as usize;
        if tree[node] & UNIFORM_NODE != 0 {
            return tree[node] as u16;
        }
        let ptr = (tree[node] & PTR_MASK) as usize;
        if tree[node] & LEAF_PARENT != 0 {
            let leaf = tree[ptr + slot];
            if leaf & UNIFORM != 0 || leaf & NOT_RESIDENT != 0 {
                return leaf as u16;
            }
            let base = (leaf & BRICK_PTR_MASK) as usize;
            let i = ((p.x & 7) + (p.z & 7) * 8 + (p.y & 7) * 64) as usize;
            if leaf & WIDE != 0 {
                let e = (voxels[base + 145 + i / 4] >> (8 * (i % 4))) & 0xff;
                return (voxels[base + 17 + e as usize / 2] >> (16 * (e & 1))) as u16;
            }
            let e = (voxels[base + 25 + i / 8] >> (4 * (i % 8))) & 0xf;
            return (voxels[base + 17 + e as usize / 2] >> (16 * (e & 1))) as u16;
        }
        node = ptr + slot * NODE_WORDS;
        if tree[node] & UNIFORM_NODE != 0 {
            return tree[node] as u16;
        }
        shift -= 2;
    }
}

#[test]
fn flattened_words_decode_to_the_same_voxels() {
    let mut t = ChunkTree::new(1);
    let mut rng = Rng(7);
    for _ in 0..4000 {
        let p = v(
            (next(&mut rng) * 512.0) as i32,
            (next(&mut rng) * 64.0) as i32,
            (next(&mut rng) * 512.0) as i32,
        );
        t.set_voxel(p, MaterialId(1 + (next(&mut rng) * 40.0) as u16));
    }
    t.set_cell(v(3, 3, 3), Cell::Uniform(MaterialId(ids::BASALT)));
    t.set_node(2, v(3, 3, 3), MaterialId(ids::GRANITE));
    t.set_node(1, v(0, 12, 0), MaterialId(ids::SAND));
    // A wide brick.
    for i in 0..512 {
        let p = v(80 + (i & 7), 8 + ((i >> 6) & 7), 8 + ((i >> 3) & 7));
        t.set_voxel(p, MaterialId(1 + (i % 30) as u16));
    }

    let mut voxels = Vec::new();
    let mut offsets = Vec::new();
    for (_, cell) in t.cells() {
        if let Cell::Brick(slot) = cell {
            let slot = slot as usize;
            if offsets.len() <= slot {
                offsets.resize(slot + 1, None);
            }
            offsets[slot] = Some((voxels.len() as u32, t.brick(slot as u32).is_wide()));
            encode_brick(t.brick(slot as u32), 0, &mut voxels);
        }
    }
    let mut flat = flatten_chunk(&t, &BrickTable(offsets));
    let base = 1000;
    flat.relocate(base);
    let mut tree = vec![0u32; base as usize];
    tree.extend_from_slice(&flat.words);

    let mut probes: Vec<IVec3> = t.cells().into_iter().map(|(b, _)| b).collect();
    for n in t.uniform_nodes() {
        let e = n.cells - 1;
        probes.push(v(n.min_cell.x + e, n.min_cell.y + e, n.min_cell.z + e));
    }
    for b in probes {
        for probe in [v(0, 0, 0), v(7, 7, 7), v(3, 1, 6)] {
            let p = v(b.x * 8 + probe.x, b.y * 8 + probe.y, b.z * 8 + probe.z);
            assert_eq!(gpu_voxel(&tree, &voxels, base as usize, p), t.voxel(p).0, "voxel {p:?}");
        }
    }
    let p = v(85, 10, 15);
    assert_eq!(gpu_voxel(&tree, &voxels, base as usize, p), t.voxel(p).0);
}

/// Normal and spread of a node whose children are covered as `site` says.
fn facing(site: &Site) -> ([f32; 3], f32) {
    let (x, y, z) = gradient(&site.children);
    let g = [x, y, z].map(|n| n as f32 * 0.5 / site.child_voxels as f32);
    let mut most = 0.0f32;
    for &(i, _) in &site.children {
        let c = child_coord(i);
        let o = [c.x as f32 - 1.5, c.y as f32 - 1.5, c.z as f32 - 1.5];
        most += (o[0] * o[0] + o[1] * o[1] + o[2] * o[2]).sqrt();
    }
    let len = (g[0] * g[0] + g[1] * g[1] + g[2] * g[2]).sqrt();
    if len > 1e-4 {
        ([g[0] / len, g[1] / len, g[2] / len], 1.0 - (len / most.max(1e-4)).clamp(0.0, 1.0))
    } else {
        ([0.0, 1.0, 0.0], 1.0)
    }
}

#[test]
fn lod_prefers_coverage_and_points_away_from_mass() {
    let mut t = ChunkTree::new(1);
    // Solid floor of granite with a thin sand crust on top.
    for x in 0..64 {
        for z in 0..64 {
            for y in 0..30 {
                t.set_cell(v(x, y, z), Cell::Uniform(MaterialId(ids::GRANITE)));
            }
            t.set_cell(v(x, 30, z), Cell::Uniform(MaterialId(ids::SAND)));
        }
    }
    let mut flat = flatten_chunk(&t, &BrickTable(Vec::new()));
    assert_eq!(flat.material, MaterialId(ids::GRANITE));
    let root = flat.sites.iter().position(|s| s.node == 0).expect("a site for the root");
    let (normal, spread) = facing(&flat.sites[root]);
    assert!(normal[1] > 0.95, "normal {}", normal[1]);
    assert!(spread < 0.5);
    let lod = Lod { material: flat.material, u: 31, v: 32, spread: (spread * 15.0) as u8 };
    let word = pack_lod(&lod);
    assert_eq!(word & 0xffff, u32::from(ids::GRANITE));
    flat.set_lod(root, lod.u, lod.v, lod.spread);
    assert_eq!(flat.words[3], word);
}

#[test]
fn unresident_bricks_carry_dominant_material() {
    let mut t = ChunkTree::new(1);
    for i in 0..40 {
        t.set_voxel(v(i % 8, 0, 0), MaterialId(ids::IRON_ORE));
    }
    t.set_voxel(v(0, 1, 0), MaterialId(ids::SAND));
    let flat = flatten_chunk(&t, &BrickTable(Vec::new()));
    let (idx, _) = flat.brick_leaves[0];
    let leaf = flat.words[idx as usize];
    assert!(leaf & NOT_RESIDENT != 0);
    assert_eq!(leaf & 0xffff, u32::from(ids::IRON_ORE));
}

#[test]
fn lods_pack_into_one_word() {
    let lod = Lod { material: MaterialId(0x1234), u: 5, v: 63, spread: 15 };
    assert_eq!(pack_lod(&lod), 0x1234 | 5 << 16 | 63 << 22 | 15 << 28);
}

#[test]
fn histograms_prefer_the_lower_id_in_a_tie() {
    let mut h = Histogram::new();
    assert_eq!(h.dominant(), MaterialId(0));
    h.add(MaterialId(9), 4);
    h.add(MaterialId(3), 4);
    h.add(MaterialId(0), 100);
    assert_eq!(h.dominant(), MaterialId(3));
    let mut more = Histogram::new();
    more.add(MaterialId(9), 1);
    h.merge(&more);
    assert_eq!(h.dominant(), MaterialId(9));
}

#[test]
fn bricks_take_as_many_words_as_they_say() {
    let b = Brick::filled(MaterialId(ids::SAND));
    let mut out = Vec::new();
    encode_brick(&b, 7, &mut out);
    assert_eq!((out.len(), brick_words(&b)), (NARROW_BRICK_WORDS, NARROW_BRICK_WORDS));
    let mut wide = Brick::empty();
    for i in 0..512 {
        wide.set(v(i & 7, (i >> 6) & 7, (i >> 3) & 7), MaterialId(1 + (i % 30) as u16));
    }
    out.clear();
    encode_brick(&wide, 0, &mut out);
    assert_eq!((out.len(), brick_words(&wide)), (WIDE_BRICK_WORDS, WIDE_BRICK_WORDS));
    let mut states = Vec::new();
    assert!(!encode_state(&wide, &mut states) && states.is_empty());
    wide.set_state(v(1, 0, 0), VoxelState::default().with_damage(3));
    assert!(encode_state(&wide, &mut states));
    assert_eq!(states.len(), STATE_WORDS);
    assert_eq!(states[0], 3 << 8);
}

#[test]
fn nodes_face_away_from_their_mass() {
    assert_eq!(gradient(&vec![]), (0, 0, 0));
    // Child 0 is the low corner: the surface faces the high one.
    assert_eq!(gradient(&vec![(0, 10)]), (30, 30, 30));
    assert_eq!(gradient(&vec![(0, 10), (63, 10)]), (0, 0, 0));
    // A floor of sixteen children faces up.
    assert_eq!(gradient(&(0..16).map(|i| (i, 8)).collect()), (0, 384, 0));
}

#[test]
fn encoded_words_are_exact() {
    let mut b = Brick::empty();
    b.set(v(5, 6, 1), MaterialId(ids::GRANITE));
    let mut out = vec![];
    encode_brick(&b, 0, &mut out);
    let mut expected = vec![0u32; 89];
    expected[12] = 0x20;
    expected[17] = 0x0001_0000;
    expected[74] = 0x0010_0000;
    assert_eq!(out, expected);
}

#[test]
fn leaves_are_listed_once_and_in_order() {
    let mut t = ChunkTree::new(1);
    for p in [v(500, 3, 9), v(0, 0, 0), v(8, 0, 0), v(300, 300, 20)] {
        t.set_voxel(p, MaterialId(ids::SAND));
    }
    let flat = flatten_chunk(&t, &BrickTable(Vec::new()));
    assert_eq!(flat.brick_leaves.len(), t.brick_count());
    assert!(flat.brick_leaves.windows(2).all(|w| w[0].0 < w[1].0));
    let listed: Vec<u32> = t
        .cells()
        .into_iter()
        .filter_map(|(_, c)| if let Cell::Brick(i) = c { Some(i) } else { None })
        .collect();
    assert_eq!(flat.brick_leaves.iter().map(|l| l.1).collect::<Vec<_>>(), listed);
}
