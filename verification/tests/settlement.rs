use minecraft2::ivec::IVec3;
use minecraft2::key::Key3;
use minecraft2::material::{ids, MaterialId};
use minecraft2::rand::Rand;
use minecraft2::settlement::blueprint::{
    building, draw_floors, draw_storeys, draw_style, facing_street, house, house_material_of,
    Building, Facing, House, Kind, Palette, Role, Style,
};
use minecraft2::settlement::plan::{
    accepts, accepts_field,
    choose_spot, claims, draw_block, draw_lots, free, spot_of, town_size, wish_of, BlockUse, Ground,
    Plot, Wish,
};
use minecraft2::settlement::tiles::{TileIndex, TileRange};
use minecraft2::settlement::town::{park, plan, street_light, Feature};
use minecraft2::settlement::village::{draw_plot, lamp_post, lantern, plaza, runs, Walk};
use minecraft2::settlement::{
    at, floor_lit, last_of, plan_cell, relate, stamp_mixed, stamp_whole, CellPlan, Extent, Reading,
};
use minecraft2::tree::ChunkTree;

fn m(id: u16) -> MaterialId {
    MaterialId(id)
}

fn key(x: f32) -> i32 {
    let b = x.to_bits();
    if b >> 31 == 0 {
        b as i32
    } else {
        -((b & 0x7fff_ffff) as i32)
    }
}

fn k3(x: f32, y: f32, z: f32) -> Key3 {
    Key3 { x: key(x), y: key(y), z: key(z) }
}

#[test]
fn the_last_operation_wins() {
    assert_eq!(last_of(&vec![Some(m(1)), None, Some(m(3)), None]), Some(m(3)));
    assert_eq!(last_of(&vec![None, None]), None);
    assert!(matches!(plan_cell(&vec![None, None]), CellPlan::Mixed(l) if l == vec![0, 1]));
    assert!(matches!(plan_cell(&vec![Some(false)]), CellPlan::Untouched));
    assert!(matches!(plan_cell(&vec![None, Some(true)]), CellPlan::Whole(1)));
    assert!(matches!(plan_cell(&vec![Some(true), None]), CellPlan::Mixed(l) if l == vec![0, 1]));
}

#[test]
fn boxes_hold_their_lower_corner_only() {
    let (lo, hi) = (k3(0.0, 0.0, 0.0), k3(1.0, 1.0, 1.0));
    let give = |p| at(&Reading::Box { p, lo, hi }, m(7), m(8));
    assert_eq!(give(k3(0.0, 0.0, 0.0)), Some(m(7)));
    assert_eq!(give(k3(1.0, 0.5, 0.5)), None);
    assert_eq!(give(k3(0.5, -0.1, 0.5)), None);
    let cube = |a: f32| relate(k3(a, a, a), k3(a + 0.5, a + 0.5, a + 0.5), lo, hi, &Extent::Box);
    assert_eq!(cube(0.25), Some(true));
    assert_eq!(cube(5.0), Some(false));
    assert_eq!(cube(0.75), None);
}

#[test]
fn stamping_paints_cells() {
    let mut t = ChunkTree::new(1);
    stamp_whole(&mut t, IVec3::new(1, 1, 1), m(ids::PLANKS));
    assert_eq!(t.voxel(IVec3::new(8, 8, 8)), m(ids::PLANKS));
    let mut paint = [None; 512];
    paint[0] = Some(m(ids::AIR));
    paint[1] = Some(m(ids::GLASS));
    stamp_mixed(&mut t, IVec3::new(1, 1, 1), &paint);
    assert_eq!(t.voxel(IVec3::new(8, 8, 8)), m(ids::AIR));
    assert_eq!(t.voxel(IVec3::new(9, 8, 8)), m(ids::GLASS));
    assert_eq!(t.voxel(IVec3::new(10, 8, 8)), m(ids::PLANKS));
    stamp_whole(&mut t, IVec3::new(1, 1, 1), m(ids::AIR));
    assert!(t.is_empty());
}

#[test]
fn tiles_list_what_reaches_them() {
    let ops = vec![
        TileRange { x0: 0, x1: 2, z0: 0, z1: 0 },
        TileRange { x0: -3, x1: 0, z0: -1, z1: 5 },
    ];
    let t = TileIndex::new(&ops);
    assert_eq!(t.ops_at(0, 0), vec![0, 1]);
    assert_eq!(t.ops_at(2, 0), vec![0]);
    assert_eq!(t.ops_at(-3, 5), vec![1]);
    assert!(t.ops_at(3, 0).is_empty());
}

#[test]
fn houses_have_walls_and_a_door_cut_last() {
    for style in [Style::Timber, Style::Stone, Style::Brick, Style::Thatch] {
        let h = House {
            w: 700,
            d: 600,
            facing: Facing::NegZ,
            style,
            storeys: 2,
            chimney: true,
        };
        let parts = house(&h);
        assert!(parts.len() > 20, "{}", parts.len());
        let fewer = house(&House { storeys: 1, chimney: false, ..h });
        assert!(fewer.len() < parts.len());
    }
    let p = Palette { dark_planks: m(60), red_brick: m(61), thatch: m(62), concrete: m(63) };
    assert_eq!(house_material_of(Style::Brick, Role::Wall, &p), m(61));
    assert_eq!(house_material_of(Style::Stone, Role::Wall, &p), m(ids::COBBLESTONE));
    assert_eq!(house_material_of(Style::Thatch, Role::Roof, &p), m(62));
}

#[test]
fn draws_stay_in_range() {
    for seed in 0..300 {
        let mut rng = Rand(seed);
        let n = rng.whole(2, 5);
        assert!((2..=5).contains(&n));
        let s = draw_style(&mut rng);
        assert!((1..=3).contains(&draw_storeys(s, &mut rng)));
    }
    assert_eq!(Rand(9).whole(4, 4), 4);
    let mut rng = Rand(0);
    rng.next();
    assert_eq!(rng.0, 1442695040888963407);
}

#[test]
fn towns_have_no_park_in_the_middle() {
    for seed in 0..400 {
        let mut rng = Rand(seed);
        assert_ne!(draw_block(2, 2, 5, &mut rng), BlockUse::Park);
        let lots = draw_lots(4000, &mut rng);
        assert!(lots.len() == 2 || lots.len() == 4);
        for (i, a) in lots.iter().enumerate() {
            assert!(a.x0 < a.x1 && a.z0 < a.z1);
            for b in &lots[i + 1..] {
                assert!(a.x1 <= b.x0 || b.x1 <= a.x0 || a.z1 <= b.z0 || b.z1 <= a.z0);
            }
        }
        let (n, _) = town_size(seed);
        assert!(n > 0);
    }
}

#[test]
fn spots_are_tried_in_order() {
    let no = Ground { plaza: false, grid: false };
    let yes = Ground { plaza: true, grid: true };
    assert_eq!(choose_spot(&vec![no, yes, yes], Wish::Village), Some(1));
    assert_eq!(choose_spot(&vec![no, no], Wish::Village), None);
    assert_eq!(choose_spot(&vec![yes], Wish::Nothing), None);
    assert_eq!(wish_of(3, 4, 5), wish_of(3, 4, 5));
    assert_ne!(spot_of(1, 2, 0, 7), spot_of(1, 2, 1, 7));
    let p = Plot { x0: 0, z0: 0, x1: 10, z1: 10 };
    assert!(!free(&vec![p], Plot { x0: 5, z0: 5, x1: 15, z1: 15 }));
    assert!(free(&vec![p], Plot { x0: 20, z0: 0, x1: 30, z1: 10 }));
    assert!(claims(&vec![p], 5, 5) && !claims(&vec![p], 50, 5));
}

#[test]
fn buildings_rise_floor_by_floor() {
    let b = Building {
        w: 2000,
        d: 2000,
        kind: Kind::Offices,
        floors: 5,
        street: facing_street(true, true),
        lit: 7,
        inset: 0,
    };
    assert!(!building(&b).is_empty());
    let taller = building(&Building { floors: 6, ..b });
    assert!(taller.len() >= building(&b).len());
    let lit = (0..1000).filter(|&n| floor_lit(n, 7)).count();
    assert!((500..600).contains(&lit), "{lit}");
    for seed in 0..100 {
        assert!((3..=6).contains(&draw_floors(Kind::Offices, &mut Rand(seed))));
        assert!((10..=20).contains(&draw_floors(Kind::Tower, &mut Rand(seed))));
    }
}

#[test]
fn towns_are_planned_street_by_street() {
    for seed in 0..40u64 {
        let n = 3;
        let f = plan(seed, n);
        let streets = f.iter().filter(|x| matches!(x, Feature::Street { .. })).count();
        assert_eq!(streets, 8);
        assert_eq!(f.iter().filter(|x| matches!(x, Feature::Light { .. })).count(), 9 * 4);
        assert_eq!(f.iter().filter(|x| matches!(x, Feature::Pavement { .. })).count(), 9 * 4);
        assert_eq!(f[1], Feature::Street { x0: 0, z0: 600, x1: 15600, z1: 600 });
        let mut lit = (seed % 0x1_0000) as u32;
        let mut built = 0;
        for x in &f {
            if let Feature::Building { lot, kind, lit: l, floors, inset, .. } = x {
                assert_eq!(*l, lit);
                lit += if *kind == Kind::Tower { 2 } else { 1 };
                assert!(lot.x0 < lot.x1 && lot.z0 < lot.z1 && *floors >= 3);
                assert_eq!(*inset >= 300, *kind == Kind::Tower);
                built += 1;
            }
        }
        assert!(built >= 3, "{built}");
        assert_eq!(f, plan(seed, n));
    }
    assert_eq!(park().len(), 5);
    assert_eq!(street_light(true).len(), 4);
    assert_eq!(street_light(false)[1].lo, IVec3::new(-6, 630, -146));
}

/// The same stream in f32.
struct F(u64);

impl F {
    fn next(&mut self) -> f32 {
        self.0 = self.0.wrapping_mul(6364136223846793005).wrapping_add(1442695040888963407);
        ((self.0 ^ (self.0 >> 29)) >> 40) as f32 / 16777216.0
    }

    fn range(&mut self, a: f32, b: f32) -> f32 {
        a + (b - a) * self.next()
    }
}

#[test]
fn village_streets_are_walked_in_single_precision() {
    for seed in 0..500u64 {
        let (mut rng, mut f) = (Rand(seed), F(seed));
        let mut w = Walk::start(&mut rng);
        let length = f.range(45.0, 75.0);
        assert_eq!(w.length as f64 / 16777216.0, f64::from(length));
        let mut d = 11.0f32;
        loop {
            let goes = d < 7.0 + length - 4.0;
            assert_eq!(w.goes_on(), goes);
            if !goes {
                break;
            }
            w.advance(&mut rng);
            d += f.range(10.0, 13.0);
            assert_eq!(w.d as f64 / 16777216.0, f64::from(d));
        }
        assert!((2..8).contains(&w.pairs));
        let (along, back) = draw_plot(&mut rng);
        assert!((6..=9).contains(&along) && (5..=8).contains(&back));
    }
    assert_eq!(plaza(m(60)).len(), 11);
    assert_eq!(lantern().len(), 3);
    assert_eq!(lamp_post(m(60)).len(), 6);
    let r = runs(3);
    assert_eq!(r.len(), 6);
    assert!(r[4].run == 2 && !r[4].clear && r[5].clear);
}

#[test]
fn cylinders_answer_exactly() {
    let (r, h) = (10.0f32, 10.0f32);
    let (lo, hi) = (k3(-r, 0.0, -r), k3(r, h, r));
    let ask = |x: f32, y: f32, z: f32, half: f32| {
        let span = |a: f32| ((a - half).max(-(a + half)).max(0.0), (a - half).abs().max((a + half).abs()));
        let ((nx, fx), (nz, fz)) = (span(x), span(z));
        let e = Extent::Cylinder {
            near2: key(nx * nx + nz * nz),
            far2: key(fx * fx + fz * fz),
            r2: key(r * r),
        };
        relate(k3(x - half, y - half, z - half), k3(x + half, y + half, z + half), lo, hi, &e)
    };
    assert_eq!(ask(0.0, 5.0, 0.0, 0.25), Some(true));
    assert_eq!(ask(7.0, 5.0, 7.0, 0.25), None);
    // In the corner of its bounds, outside the cylinder.
    assert_eq!(ask(9.0, 5.0, 9.0, 0.25), Some(false));
    assert_eq!(ask(0.0, 10.0, 0.0, 0.25), None);
    assert_eq!(ask(0.0, 11.0, 0.0, 0.25), Some(false));
    assert_eq!(ask(-20.0, 5.0, 0.0, 0.25), Some(false));
}

#[test]
fn houses_and_fields_refuse_bad_ground() {
    let dry = key(96.5);
    assert!(accepts(true, key(3.0), key(96.5), dry));
    assert!(!accepts(false, key(1.0), key(100.0), dry));
    assert!(!accepts(true, key(3.1), key(100.0), dry));
    assert!(!accepts(true, key(1.0), key(96.4), dry));
    assert!(accepts_field(true, key(1.5)));
    assert!(!accepts_field(true, key(1.6)) && !accepts_field(false, key(0.0)));
}

#[test]
fn pavements_run_a_metre_outside_their_block() {
    let f = plan(0, 1);
    let (a, b) = (1100, 4900);
    assert_eq!(f[4], Feature::Pavement { x0: a, z0: a, x1: b, z1: a });
    assert_eq!(f[5], Feature::Pavement { x0: b, z0: a, x1: b, z1: b });
    assert_eq!(f[6], Feature::Pavement { x0: b, z0: b, x1: a, z1: b });
    assert_eq!(f[7], Feature::Pavement { x0: a, z0: b, x1: a, z1: a });
    assert_eq!(f[8], Feature::Light { x: 1600, z: a, toward: false });
    assert_eq!(f[9], Feature::Light { x: 1600, z: b, toward: true });
    assert_eq!(f[10], Feature::Light { x: 3200, z: a, toward: false });
    assert_eq!(f[11], Feature::Light { x: 3200, z: b, toward: true });
}
