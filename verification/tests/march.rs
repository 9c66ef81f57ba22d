use minecraft2::brick::Brick;
use minecraft2::coords::ChunkPos;
use minecraft2::ivec::IVec3;
use minecraft2::march::{
    entry_normal, look_cell, look_chunk, look_l1, look_l2, look_subblock, look_voxel, Look,
};
use minecraft2::material::{ids, MaterialId};
use minecraft2::samples::{rolling_voxel, Rng};
use minecraft2::tree::node::Cell;
use minecraft2::tree::ChunkTree;
use minecraft2::world::VoxelWorld;

type D3 = [f64; 3];
type I3 = [i32; 3];

#[derive(Clone, Copy, Debug, PartialEq)]
struct RayHit {
    t: f64,
    voxel: I3,
    normal: I3,
    material: MaterialId,
}

fn iv(a: I3) -> IVec3 {
    IVec3::new(a[0], a[1], a[2])
}

struct Ray<F> {
    o: D3,
    d: D3,
    inv: D3,
    step: I3,
    accept: F,
}

fn along(min: I3, c: I3, size: i32) -> I3 {
    [min[0] + c[0] * size, min[1] + c[1] * size, min[2] + c[2] * size]
}

impl<F: Fn(MaterialId) -> bool> Ray<F> {
    fn dda(
        &self,
        min: I3,
        size: i32,
        dims: I3,
        span: (f64, f64),
        entry_axis: usize,
        visit: &mut dyn FnMut(I3, f64, f64, usize) -> Option<RayHit>,
    ) -> Option<RayHit> {
        let (t0, t1) = span;
        let mut cell = [0; 3];
        let mut tmax = [f64::INFINITY; 3];
        let mut tdelta = [f64::INFINITY; 3];
        for a in 0..3 {
            let p = self.o[a] + self.d[a] * t0;
            let c = ((p - f64::from(min[a])) / f64::from(size)).floor() as i32;
            cell[a] = c.clamp(0, dims[a] - 1);
            if self.step[a] != 0 {
                let edge = f64::from(min[a])
                    + f64::from(cell[a] + i32::from(self.step[a] > 0)) * f64::from(size);
                tmax[a] = (edge - self.o[a]) * self.inv[a];
                tdelta[a] = f64::from(size) * self.inv[a].abs();
            }
        }
        let mut t = t0;
        let mut axis = entry_axis;
        loop {
            let next = tmax[0].min(tmax[1]).min(tmax[2]);
            if let Some(r) = visit(cell, t, next.min(t1), axis) {
                return Some(r);
            }
            if next >= t1 {
                return None;
            }
            axis = if tmax[0] <= tmax[1] && tmax[0] <= tmax[2] {
                0
            } else if tmax[1] <= tmax[2] {
                1
            } else {
                2
            };
            cell[axis] += self.step[axis];
            if cell[axis] < 0 || cell[axis] >= dims[axis] {
                return None;
            }
            t = tmax[axis];
            tmax[axis] += tdelta[axis];
        }
    }

    fn hit(&self, voxel: I3, t: f64, axis: usize, material: MaterialId) -> RayHit {
        let n = entry_normal(axis, iv(self.step));
        RayHit { t: t / 16.0, voxel, normal: [n.x, n.y, n.z], material }
    }

    /// A node of one material from `min`, `size` voxels across.
    fn filled(
        &self,
        min: I3,
        size: i32,
        m: MaterialId,
        t0: f64,
        axis: usize,
    ) -> Option<RayHit> {
        if !(self.accept)(m) {
            return None;
        }
        let mut at = [0; 3];
        for a in 0..3 {
            let p = (self.o[a] + self.d[a] * t0).floor() as i32;
            at[a] = p.clamp(min[a], min[a] + size - 1);
        }
        Some(self.hit(at, t0, axis, m))
    }

    fn brick(&self, b: &Brick, min: I3, span: (f64, f64), axis: usize) -> Option<RayHit> {
        self.dda(min, 4, [2; 3], span, axis, &mut |s, s0, s1, sx| {
            if look_subblock(b, iv(s)) == Look::Clear {
                return None;
            }
            let sub_min = along(min, s, 4);
            self.dda(sub_min, 1, [4; 3], (s0, s1), sx, &mut |c, v0, _, vx| {
                let l = [s[0] * 4 + c[0], s[1] * 4 + c[1], s[2] * 4 + c[2]];
                match look_voxel(b, iv(l)) {
                    Look::Filled(m) if (self.accept)(m) => {
                        Some(self.hit(along(min, l, 1), v0, vx, m))
                    }
                    _ => None,
                }
            })
        })
    }

    fn chunk(&self, tree: &ChunkTree, origin: I3, span: (f64, f64), axis: usize) -> Option<RayHit> {
        self.dda(origin, 128, [4; 3], span, axis, &mut |c2, a0, a1, ax| {
            let min2 = along(origin, c2, 128);
            match look_l2(tree, iv(c2)) {
                Look::Clear => return None,
                Look::Filled(m) => return self.filled(min2, 128, m, a0, ax),
                Look::Open => {}
            }
            self.dda(min2, 32, [4; 3], (a0, a1), ax, &mut |c1, b0, b1, bx| {
                let at1 = [c2[0] * 4 + c1[0], c2[1] * 4 + c1[1], c2[2] * 4 + c1[2]];
                let min1 = along(min2, c1, 32);
                match look_l1(tree, iv(at1)) {
                    Look::Clear => return None,
                    Look::Filled(m) => return self.filled(min1, 32, m, b0, bx),
                    Look::Open => {}
                }
                self.dda(min1, 8, [4; 3], (b0, b1), bx, &mut |c0, d0, d1, dx| {
                    let at0 = [at1[0] * 4 + c0[0], at1[1] * 4 + c0[1], at1[2] * 4 + c0[2]];
                    let min0 = along(min1, c0, 8);
                    match look_cell(tree, iv(at0)) {
                        Look::Clear => None,
                        Look::Filled(m) => self.filled(min0, 8, m, d0, dx),
                        Look::Open => match tree.cell(iv(at0)) {
                            Cell::Brick(i) => self.brick(tree.brick(i), min0, (d0, d1), dx),
                            _ => None,
                        },
                    }
                })
            })
        })
    }
}

fn raycast_filtered(
    world: &VoxelWorld,
    origin: D3,
    dir: D3,
    max_t: f64,
    accept: impl Fn(MaterialId) -> bool,
) -> Option<RayHit> {
    let len = (dir[0] * dir[0] + dir[1] * dir[1] + dir[2] * dir[2]).sqrt();
    if len == 0.0 || !len.is_finite() {
        return None;
    }
    let mut r = Ray { o: [0.0; 3], d: [0.0; 3], inv: [0.0; 3], step: [0; 3], accept };
    for a in 0..3 {
        r.d[a] = dir[a] / len;
        r.o[a] = origin[a] * 16.0;
        r.inv[a] = 1.0 / r.d[a];
        r.step[a] = if r.d[a] > 0.0 {
            1
        } else if r.d[a] < 0.0 {
            -1
        } else {
            0
        };
    }
    let world_max = [262144.0, 8192.0, 262144.0];
    let (mut t0, mut t1) = (0.0f64, max_t * 16.0);
    let mut axis = 0;
    for a in 1..3 {
        if r.d[a].abs() > r.d[axis].abs() {
            axis = a;
        }
    }
    for a in 0..3 {
        if r.d[a] == 0.0 {
            if r.o[a] < 0.0 || r.o[a] >= world_max[a] {
                return None;
            }
            continue;
        }
        let (x, y) = ((0.0 - r.o[a]) * r.inv[a], (world_max[a] - r.o[a]) * r.inv[a]);
        let (near, far) = if x > y { (y, x) } else { (x, y) };
        if near > t0 {
            t0 = near;
            axis = a;
        }
        t1 = t1.min(far);
    }
    if t0 > t1 {
        return None;
    }
    r.dda([0; 3], 512, [512, 16, 512], (t0, t1), axis, &mut |c, c0, c1, ax| {
        let pos = ChunkPos(iv(c));
        if look_chunk(world, pos) == Look::Clear {
            return None;
        }
        r.chunk(world.chunk(pos)?, along([0; 3], c, 512), (c0, c1), ax)
    })
}

fn raycast(world: &VoxelWorld, origin: D3, dir: D3, max_t: f64) -> Option<RayHit> {
    raycast_filtered(world, origin, dir, max_t, |m| !m.is_air())
}

fn raycast_brute(world: &VoxelWorld, origin: D3, dir: D3, max_t: f64) -> Option<RayHit> {
    let len = (dir[0] * dir[0] + dir[1] * dir[1] + dir[2] * dir[2]).sqrt();
    let (mut v, mut step) = ([0; 3], [0; 3]);
    let (mut tmax, mut tdelta) = ([f64::INFINITY; 3], [f64::INFINITY; 3]);
    let mut axis = 0;
    for a in 0..3 {
        let (d, o) = (dir[a] / len, origin[a] * 16.0);
        v[a] = o.floor() as i32;
        if d != 0.0 {
            step[a] = if d > 0.0 { 1 } else { -1 };
            tmax[a] = (f64::from(v[a] + i32::from(d > 0.0)) - o) * (1.0 / d);
            tdelta[a] = (1.0 / d).abs();
        }
        if dir[a].abs() > dir[axis].abs() {
            axis = a;
        }
    }
    let mut t = 0.0;
    while t <= max_t * 16.0 {
        let m = world.voxel(iv(v));
        if !m.is_air() {
            let n = entry_normal(axis, iv(step));
            return Some(RayHit { t: t / 16.0, voxel: v, normal: [n.x, n.y, n.z], material: m });
        }
        axis = 0;
        for a in 1..3 {
            if tmax[a] < tmax[axis] {
                axis = a;
            }
        }
        v[axis] += step[axis];
        t = tmax[axis];
        tmax[axis] += tdelta[axis];
    }
    None
}

fn next(rng: &mut Rng) -> f64 {
    rng.next53() as f64 / (1u64 << 53) as f64
}

fn test_world(rng: &mut Rng) -> VoxelWorld {
    let mut w = VoxelWorld::new();
    // Rolling terrain across four chunks with a strata boundary.
    for x in 0..1024 {
        for z in 0..600 {
            let h = 200.0 + 40.0 * (f64::from(x) * 0.013).sin() + 25.0 * (f64::from(z) * 0.021).cos();
            let top = h as i32;
            for y in top - 6..=top {
                if let Some(m) = rolling_voxel(x, y, z, top) {
                    w.set_voxel(IVec3::new(x, y, z), m);
                }
            }
        }
    }
    w.fill_box(IVec3::new(0, 100, 0), IVec3::new(1023, 149, 599), MaterialId(ids::BASALT));
    // Carved caves and floating debris.
    for _ in 0..40 {
        let c = [next(rng) * 1024.0, 120.0 + next(rng) * 120.0, next(rng) * 600.0];
        let r = 4.0 + next(rng) * 20.0;
        let mut list = Vec::new();
        let lo = |a: usize| (c[a] - r).floor() as i32;
        let hi = |a: usize| (c[a] + r).ceil() as i32;
        for z in lo(2)..=hi(2) {
            for y in lo(1)..=hi(1) {
                for x in lo(0)..=hi(0) {
                    let d = (f64::from(x) + 0.5 - c[0]).powi(2)
                        + (f64::from(y) + 0.5 - c[1]).powi(2)
                        + (f64::from(z) + 0.5 - c[2]).powi(2);
                    if d <= r * r {
                        list.push(IVec3::new(x, y, z));
                    }
                }
            }
        }
        w.set_voxels(&list, MaterialId(ids::AIR));
    }
    for _ in 0..200 {
        let v = IVec3::new(
            (next(rng) * 1024.0) as i32,
            240 + (next(rng) * 60.0) as i32,
            (next(rng) * 600.0) as i32,
        );
        w.set_voxel(v, MaterialId(ids::IRON_ORE));
    }
    w
}

#[test]
fn hierarchical_matches_brute_force() {
    let mut rng = Rng(0x9e37_79b9_7f4a_7c15);
    let w = test_world(&mut rng);
    let mut hits = 0;
    for i in 0..3000 {
        let o = [next(&mut rng) * 64.0, 6.0 + next(&mut rng) * 16.0, next(&mut rng) * 37.5];
        let mut d = [next(&mut rng) - 0.5, next(&mut rng) - 0.5, next(&mut rng) - 0.5];
        // A share of axis-aligned and planar rays, the classic failure cases.
        match i % 7 {
            0 => d = [0.0, -1.0, 0.0],
            1 => d[1] = 0.0,
            2 => d[0] = 0.0,
            _ => {}
        }
        if (d[0] * d[0] + d[1] * d[1] + d[2] * d[2]).sqrt() < 1e-3 {
            continue;
        }
        let a = raycast(&w, o, d, 40.0);
        let b = raycast_brute(&w, o, d, 40.0);
        match (a, b) {
            (None, None) => {}
            (Some(a), Some(b)) => {
                hits += 1;
                assert_eq!(a.voxel, b.voxel, "ray {i} o={o:?} d={d:?}");
                assert!((a.t - b.t).abs() < 1e-9, "ray {i}: t {} vs {}", a.t, b.t);
                assert_eq!(a.material, b.material);
            }
            (a, b) => {
                // The brute force walks past max_t by at most one voxel.
                let edge = a.or(b).is_some_and(|h| h.t > 39.9);
                assert!(edge, "ray {i} o={o:?} d={d:?}: {a:?} vs {b:?}");
            }
        }
    }
    assert!(hits > 1500, "only {hits} hits, test world too sparse");
}

#[test]
fn normals_face_the_ray() {
    let mut w = VoxelWorld::new();
    w.fill_box(IVec3::splat(160), IVec3::splat(175), MaterialId(ids::GRANITE));
    for (d, n) in [
        ([1.0, 0.0, 0.0], [-1, 0, 0]),
        ([-1.0, 0.0, 0.0], [1, 0, 0]),
        ([0.0, 1.0, 0.0], [0, -1, 0]),
        ([0.0, -1.0, 0.0], [0, 1, 0]),
        ([0.0, 0.0, 1.0], [0, 0, -1]),
        ([0.0, 0.0, -1.0], [0, 0, 1]),
    ] {
        let o = [10.5 - d[0] * 5.0, 10.5 - d[1] * 5.0, 10.5 - d[2] * 5.0];
        let h = raycast(&w, o, d, 20.0).expect("hit");
        assert_eq!(h.normal, n, "dir {d:?}");
        assert!((h.t - 4.5).abs() < 1e-9, "dir {d:?} t {}", h.t);
    }
}

#[test]
fn filter_passes_through_rejected_materials() {
    let mut w = VoxelWorld::new();
    w.fill_box(IVec3::new(0, 0, 16), IVec3::new(63, 63, 31), MaterialId(ids::GLASS));
    w.fill_box(IVec3::new(0, 0, 48), IVec3::new(63, 63, 63), MaterialId(ids::GRANITE));
    let o = [2.0, 2.0, 0.1];
    let z = [0.0, 0.0, 1.0];
    let first = raycast(&w, o, z, 10.0).unwrap();
    assert_eq!(first.material, MaterialId(ids::GLASS));
    let opaque =
        raycast_filtered(&w, o, z, 10.0, |m| m == MaterialId(ids::GRANITE)).unwrap();
    assert_eq!(opaque.material, MaterialId(ids::GRANITE));
    assert!((opaque.t - 2.9).abs() < 1e-9, "t {}", opaque.t);
}
