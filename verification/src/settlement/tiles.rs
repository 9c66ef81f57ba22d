//! Operations bucketed by the squares of ground they reach.

use std::collections::hash_map::Entry;
use std::collections::HashMap;
use vstd::prelude::*;

verus! {

broadcast use vstd::std_specs::hash::group_hash_axioms;

/// The squares an operation reaches, both ends included.
#[derive(Clone, Copy, Debug)]
pub struct TileRange {
    pub x0: i32,
    pub x1: i32,
    pub z0: i32,
    pub z1: i32,
}

pub open spec fn reaches(r: TileRange, x: int, z: int) -> bool {
    r.x0 <= x <= r.x1 && r.z0 <= z <= r.z1
}

/// The first `n` operations that reach square `(x, z)`, in order.
pub open spec fn reaching(ops: Seq<TileRange>, n: int, x: int, z: int) -> Seq<u32>
    decreases n,
{
    if n <= 0 {
        Seq::empty()
    } else if reaches(ops[n - 1], x, z) {
        reaching(ops, n - 1, x, z).push((n - 1) as u32)
    } else {
        reaching(ops, n - 1, x, z)
    }
}

/// A square as one number.
#[verifier::opaque]
pub open spec fn tile_key(x: int, z: int) -> u64 {
    ((x + 0x8000_0000) * 0x1_0000_0000 + (z + 0x8000_0000)) as u64
}

fn key_of(x: i32, z: i32) -> (k: u64)
    ensures
        k == tile_key(x as int, z as int),
{
    proof {
        reveal(tile_key);
    }
    (x as i64 + 0x8000_0000) as u64 * 0x1_0000_0000 + (z as i64 + 0x8000_0000) as u64
}

pub open spec fn is_i32(n: int) -> bool {
    i32::MIN <= n <= i32::MAX
}

/// Each square has a key of its own.
pub proof fn lemma_tile_key(x: int, z: int, x2: int, z2: int)
    requires
        is_i32(x),
        is_i32(z),
        is_i32(x2),
        is_i32(z2),
        tile_key(x, z) == tile_key(x2, z2),
    ensures
        x == x2,
        z == z2,
{
    reveal(tile_key);
}

pub struct TileIndex {
    tiles: HashMap<u64, Vec<u32>>,
}

impl TileIndex {
    /// The operations listed for a square.
    pub closed spec fn listed(&self, x: int, z: int) -> Seq<u32> {
        if self.tiles@.contains_key(tile_key(x, z)) {
            self.tiles@[tile_key(x, z)]@
        } else {
            Seq::empty()
        }
    }

    /// Every square lists the operations that reach it, in their order.
    pub open spec fn indexes(&self, ops: Seq<TileRange>) -> bool {
        forall|x: int, z: int|
            is_i32(x) && is_i32(z) ==> #[trigger] self.listed(x, z) == reaching(
                ops,
                ops.len() as int,
                x,
                z,
            )
    }

    fn add_to(&mut self, x: i32, z: i32, n: u32)
        ensures
            forall|a: int, b: int|
                is_i32(a) && is_i32(b) ==> #[trigger] final(self).listed(a, b) == if a == x && b
                    == z {
                    old(self).listed(a, b).push(n)
                } else {
                    old(self).listed(a, b)
                },
    {
        let k: u64 = key_of(x, z);
        let list = match self.tiles.entry(k) {
            Entry::Occupied(slot) => slot.into_mut(),
            Entry::Vacant(slot) => slot.insert(Vec::new()),
        };
        list.push(n);
        proof {
            assert forall|a: int, b: int| is_i32(a) && is_i32(b) implies #[trigger] self.listed(a, b)
                == if a == x && b == z {
                old(self).listed(a, b).push(n)
            } else {
                old(self).listed(a, b)
            } by {
                if tile_key(a, b) == k {
                    lemma_tile_key(a, b, x as int, z as int);
                }
            }
        }
    }

    fn add_row(&mut self, r: TileRange, z: i32, n: u32)
        ensures
            forall|a: int, b: int|
                is_i32(a) && is_i32(b) ==> #[trigger] final(self).listed(a, b) == if r.x0 <= a
                    <= r.x1 && b == z {
                    old(self).listed(a, b).push(n)
                } else {
                    old(self).listed(a, b)
                },
    {
        let mut x: i64 = r.x0 as i64;
        while x <= r.x1 as i64
            invariant
                r.x0 <= x,
                x <= r.x1 + 1 || x == r.x0,
                forall|a: int, b: int|
                    is_i32(a) && is_i32(b) ==> #[trigger] self.listed(a, b) == if r.x0 <= a < x && b
                        == z {
                        old(self).listed(a, b).push(n)
                    } else {
                        old(self).listed(a, b)
                    },
            decreases r.x1 + 1 - x,
        {
            self.add_to(x as i32, z, n);
            x += 1;
        }
    }

    fn add_op(&mut self, r: TileRange, n: u32)
        ensures
            forall|a: int, b: int|
                is_i32(a) && is_i32(b) ==> #[trigger] final(self).listed(a, b) == if reaches(r, a, b) {
                    old(self).listed(a, b).push(n)
                } else {
                    old(self).listed(a, b)
                },
    {
        let mut z: i64 = r.z0 as i64;
        while z <= r.z1 as i64
            invariant
                r.z0 <= z,
                z <= r.z1 + 1 || z == r.z0,
                forall|a: int, b: int|
                    is_i32(a) && is_i32(b) ==> #[trigger] self.listed(a, b) == if r.x0 <= a <= r.x1
                        && r.z0 <= b < z {
                        old(self).listed(a, b).push(n)
                    } else {
                        old(self).listed(a, b)
                    },
            decreases r.z1 + 1 - z,
        {
            self.add_row(r, z as i32, n);
            z += 1;
        }
    }

    /// Buckets operations by the squares they reach.
    pub fn new(ops: &Vec<TileRange>) -> (t: TileIndex)
        requires
            ops@.len() <= u32::MAX,
        ensures
            t.indexes(ops@),
    {
        let mut t = TileIndex { tiles: HashMap::new() };
        let mut n: usize = 0;
        while n < ops.len()
            invariant
                n <= ops@.len() <= u32::MAX,
                forall|x: int, z: int|
                    is_i32(x) && is_i32(z) ==> #[trigger] t.listed(x, z) == reaching(
                        ops@,
                        n as int,
                        x,
                        z,
                    ),
            decreases ops@.len() - n,
        {
            t.add_op(ops[n], n as u32);
            n += 1;
        }
        t
    }

    /// The operations that reach a square, in order.
    pub fn ops_at(&self, x: i32, z: i32) -> (r: Vec<u32>)
        ensures
            r@ == self.listed(x as int, z as int),
    {
        let k: u64 = key_of(x, z);
        match self.tiles.get(&k) {
            Some(list) => {
                let mut r: Vec<u32> = Vec::new();
                let mut i: usize = 0;
                while i < list.len()
                    invariant
                        i <= list@.len(),
                        r@ == list@.take(i as int),
                    decreases list@.len() - i,
                {
                    r.push(list[i]);
                    i += 1;
                    assert(r@ =~= list@.take(i as int));
                }
                assert(list@.take(i as int) =~= list@);
                r
            },
            None => Vec::new(),
        }
    }
}

/// An operation is listed in every square it reaches, and in no other.
pub proof fn operations_are_found_where_they_reach(ops: Seq<TileRange>, n: int, i: int, x: int, z: int)
    requires
        0 <= i < n <= ops.len() <= u32::MAX,
    ensures
        reaching(ops, n, x, z).contains(i as u32) == reaches(ops[i], x, z),
    decreases n,
{
    let rest = reaching(ops, n - 1, x, z);
    let all = reaching(ops, n, x, z);
    lemma_reaching_below(ops, n - 1, x, z);
    if i < n - 1 {
        operations_are_found_where_they_reach(ops, n - 1, i, x, z);
        if rest.contains(i as u32) {
            let k = choose|k: int| 0 <= k < rest.len() && rest[k] == i as u32;
            assert(all[k] == i as u32);
        }
        if all.contains(i as u32) {
            let k = choose|k: int| 0 <= k < all.len() && all[k] == i as u32;
            if k < rest.len() {
                assert(rest[k] == i as u32);
            }
        }
    } else if reaches(ops[i], x, z) {
        assert(all[rest.len() as int] == i as u32);
    }
}

proof fn lemma_reaching_below(ops: Seq<TileRange>, n: int, x: int, z: int)
    requires
        n <= ops.len() <= u32::MAX,
    ensures
        forall|k: int|
            0 <= k < reaching(ops, n, x, z).len() ==> #[trigger] reaching(ops, n, x, z)[k] < n,
    decreases n,
{
    if n > 0 {
        lemma_reaching_below(ops, n - 1, x, z);
        let rest = reaching(ops, n - 1, x, z);
        assert forall|k: int| 0 <= k < reaching(ops, n, x, z).len() implies #[trigger] reaching(
            ops,
            n,
            x,
            z,
        )[k] < n by {
            if k < rest.len() {
                assert(reaching(ops, n, x, z)[k] == rest[k]);
            }
        }
    }
}

/// A range holds its own edges: a square is out of reach only before its
/// first or past its last, along either axis.
pub proof fn ranges_hold_their_edges(r: TileRange, x: int, z: int)
    ensures
        reaches(r, x, z) <==> !(x < r.x0 || r.x1 < x || z < r.z0 || r.z1 < z),
        r.x0 <= r.x1 && r.z0 <= r.z1 ==> reaches(r, r.x0 as int, r.z0 as int) && reaches(
            r,
            r.x1 as int,
            r.z1 as int,
        ),
{
}

} // verus!
