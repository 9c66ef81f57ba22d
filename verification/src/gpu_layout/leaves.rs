//! The order in which a flattened chunk lists its brick leaves.

use crate::bits::ones_below;
use crate::tree::list::{
    brick_slots, lemma_slots_add, lemma_slots_push, listed, listed_l1, listed_l2,
};
use crate::tree::node::{Cell, L1, L2};
use crate::tree::path::cell_coord;
use crate::tree::sparse::Sparse64;
use vstd::prelude::*;

verus! {

/// The slab indices of a list of `(word, slab index)`.
pub open spec fn slots_of(l: Seq<(u32, u32)>) -> Seq<u32> {
    Seq::new(l.len(), |k: int| l[k].1)
}

/// Leaf words one behind the other, all of them before word `to`.
#[verifier::opaque]
pub open spec fn in_order(l: Seq<(u32, u32)>, to: int) -> bool {
    &&& forall|k: int| #![trigger l[k]] 0 <= k < l.len() ==> l[k].0 < to
    &&& forall|j: int, k: int|
        #![trigger l[j], l[k]]
        0 <= j < k < l.len() ==> l[j].0 < l[k].0
}

pub proof fn lemma_in_order_later(l: Seq<(u32, u32)>, from: int, to: int)
    requires
        in_order(l, from),
        from <= to,
    ensures
        in_order(l, to),
{
    reveal(in_order);
}

pub proof fn lemma_in_order_push(l: Seq<(u32, u32)>, at: u32, slot: u32)
    requires
        in_order(l, at as int),
    ensures
        in_order(l.push((at, slot)), at + 1),
{
    reveal(in_order);
}

pub proof fn lemma_in_order(l: Seq<(u32, u32)>, to: int)
    requires
        in_order(l, to),
    ensures
        l.no_duplicates(),
{
    reveal(in_order);
}

pub proof fn lemma_none_in_order(to: int)
    ensures
        in_order(Seq::empty(), to),
{
    reveal(in_order);
}

/// Slab indices among the first `n` cells, in order.
pub open spec fn cell_slots(items: Seq<Cell>, n: int) -> Seq<u32>
    decreases n,
{
    if n <= 0 {
        Seq::empty()
    } else {
        match items[n - 1] {
            Cell::Brick(i) => cell_slots(items, n - 1).push(i),
            _ => cell_slots(items, n - 1),
        }
    }
}

pub open spec fn l1_slots(n1: L1) -> Seq<u32> {
    match n1 {
        L1::Cells(s) => cell_slots(s.items@, s.items@.len() as int),
        L1::Uniform(_) => Seq::empty(),
    }
}

/// Slab indices in the first `n` 2 m nodes, in order.
pub open spec fn node_slots(items: Seq<L1>, n: int) -> Seq<u32>
    decreases n,
{
    if n <= 0 {
        Seq::empty()
    } else {
        node_slots(items, n - 1) + l1_slots(items[n - 1])
    }
}

pub open spec fn l2_slots(n2: L2) -> Seq<u32> {
    match n2 {
        L2::Nodes(s) => node_slots(s.items@, s.items@.len() as int),
        L2::Uniform(_) => Seq::empty(),
    }
}

/// Slab indices in the first `n` 8 m nodes, in order.
pub open spec fn root_slots(items: Seq<L2>, n: int) -> Seq<u32>
    decreases n,
{
    if n <= 0 {
        Seq::empty()
    } else {
        root_slots(items, n - 1) + l2_slots(items[n - 1])
    }
}

proof fn lemma_l1(a: int, m: int, s: Sparse64<Cell>, n: int)
    requires
        0 <= n <= 64,
    ensures
        brick_slots(listed_l1(a, m, s, n)) == cell_slots(s.items@, ones_below(s.mask, n) as int),
    decreases n,
{
    if n > 0 {
        lemma_l1(a, m, s, n - 1);
        if let Some(cell) = s.at(n - 1) {
            lemma_slots_push(listed_l1(a, m, s, n - 1), (cell_coord(a, m, n - 1), cell));
        }
    }
}

proof fn lemma_l2(a: int, s: Sparse64<L1>, n: int)
    requires
        0 <= n <= 64,
        s.wf(),
        forall|i: int| 0 <= i < 64 ==> (#[trigger] s.at(i) matches Some(x) ==> x.wf()),
    ensures
        brick_slots(listed_l2(a, s, n)) == node_slots(s.items@, ones_below(s.mask, n) as int),
    decreases n,
{
    if n > 0 {
        lemma_l2(a, s, n - 1);
        if let Some(x) = s.at(n - 1) {
            let before = brick_slots(listed_l2(a, s, n - 1));
            if let L1::Cells(cells) = x {
                lemma_l1(a, n - 1, cells, 64);
                lemma_slots_add(listed_l2(a, s, n - 1), listed_l1(a, n - 1, cells, 64));
            } else {
                assert(before + l1_slots(x) =~= before);
            }
        }
    }
}

/// The bricks of a tree's nodes, node by node, are those of its listing.
pub proof fn lemma_root_slots(s: Sparse64<L2>, n: int)
    requires
        0 <= n <= 64,
        s.wf(),
        forall|i: int| 0 <= i < 64 ==> (#[trigger] s.at(i) matches Some(x) ==> x.wf()),
    ensures
        brick_slots(listed(s, n)) == root_slots(s.items@, ones_below(s.mask, n) as int),
    decreases n,
{
    if n > 0 {
        lemma_root_slots(s, n - 1);
        if let Some(x) = s.at(n - 1) {
            let before = brick_slots(listed(s, n - 1));
            if let L2::Nodes(nodes) = x {
                lemma_l2(n - 1, nodes, 64);
                lemma_slots_add(listed(s, n - 1), listed_l2(n - 1, nodes, 64));
            } else {
                assert(before + l2_slots(x) =~= before);
            }
        }
    }
}

} // verus!
