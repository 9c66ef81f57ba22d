//! Nodes above the bricks and the one place where their cells change.

use crate::bits::{lemma_full_rank, lemma_no_bits, ones_below};
use crate::material::MaterialId;
use crate::tree::sparse::Sparse64;
use vstd::prelude::*;

verus! {

#[derive(Clone, Copy, Debug, PartialEq, Eq, Structural)]
pub enum Cell {
    Empty,
    Uniform(MaterialId),
    /// Index into the chunk's brick slab.
    Brick(u32),
}

/// 2 m node: brick cells, or one material throughout.
#[derive(Clone, Debug)]
pub enum L1 {
    Uniform(MaterialId),
    Cells(Sparse64<Cell>),
}

/// 8 m node: 2 m nodes, or one material throughout.
#[derive(Clone, Debug)]
pub enum L2 {
    Uniform(MaterialId),
    Nodes(Sparse64<L1>),
}

/// Cell `c` of a child array.
pub open spec fn array_cell(s: Sparse64<Cell>, c: int) -> Cell {
    match s.at(c) {
        Some(cell) => cell,
        None => Cell::Empty,
    }
}

/// Cell `c` of node `m` of an array of nodes.
pub open spec fn array_node_cell(s: Sparse64<L1>, m: int, c: int) -> Cell {
    match s.at(m) {
        Some(n) => n.cell(c),
        None => Cell::Empty,
    }
}

/// Every child of the array is the uniform cell of `u`.
pub open spec fn all_cells(s: Sparse64<Cell>, u: MaterialId) -> bool {
    forall|i: int| 0 <= i < 64 ==> #[trigger] s.at(i) == Some(Cell::Uniform(u))
}

/// Every child of the array is a uniform node of `u`.
pub open spec fn all_nodes(s: Sparse64<L1>, u: MaterialId) -> bool {
    forall|i: int| 0 <= i < 64 ==> #[trigger] s.at(i) == Some(L1::Uniform(u))
}

/// Child array in order, with no empty cell stored.
pub open spec fn array_ok(s: Sparse64<Cell>) -> bool {
    &&& s.wf()
    &&& forall|i: int| 0 <= i < 64 ==> #[trigger] s.at(i) != Some(Cell::Empty)
}

/// Child array in order, every node in order.
pub open spec fn nodes_ok(s: Sparse64<L1>) -> bool {
    &&& s.wf()
    &&& forall|i: int| 0 <= i < 64 ==> (#[trigger] s.at(i) matches Some(n) ==> n.wf())
}

impl L1 {
    pub open spec fn cell(&self, c: int) -> Cell {
        match self {
            L1::Uniform(u) => Cell::Uniform(*u),
            L1::Cells(s) => array_cell(*s, c),
        }
    }

    /// Something is stored, and nothing that could be stored shorter.
    pub open spec fn wf(&self) -> bool {
        match self {
            L1::Uniform(_) => true,
            L1::Cells(s) => array_ok(*s) && s.mask != 0 && forall|u: MaterialId| !all_cells(*s, u),
        }
    }

    /// A node that has just been made and holds nothing yet.
    pub open spec fn blank(&self) -> bool {
        self matches L1::Cells(s) && s.wf() && s.mask == 0
    }

    pub fn uniform(&self) -> (r: Option<MaterialId>)
        ensures
            match r {
                Some(u) => *self == L1::Uniform(u),
                None => self is Cells,
            },
    {
        match self {
            L1::Uniform(m) => Some(*m),
            L1::Cells(_) => None,
        }
    }

    /// Replaces cell `c`; reports whether nothing is left.
    pub(crate) fn put(&mut self, c: u32, cell: Cell) -> (gone: bool)
        requires
            old(self).wf() || old(self).blank(),
            c < 64,
        ensures
            forall|j: int|
                0 <= j < 64 ==> #[trigger] final(self).cell(j) == if j == c {
                    cell
                } else {
                    old(self).cell(j)
                },
            gone ==> final(self).blank(),
            !gone ==> final(self).wf(),
    {
        if let L1::Uniform(u) = *self {
            *self = L1::Cells(Sparse64::full(Cell::Uniform(u)));
        }
        proof {
            lemma_no_bits(0);
            assert forall|j: int| 0 <= j < 64 implies #[trigger] self.cell(j) == old(self).cell(
                j,
            ) by {
                if let L1::Cells(s) = *self {
                    assert(s.at(j) == s.at(j));
                }
            }
        }
        let ghost whole = *self;
        match self {
            L1::Cells(cells) => {
                put_cell(cells, c, cell);
                assert forall|j: int| 0 <= j < 64 implies #[trigger] array_cell(*cells, j) == if j
                    == c {
                    cell
                } else {
                    old(self).cell(j)
                } by {
                    assert(whole.cell(j) == old(self).cell(j));
                }
                if cells.is_empty() {
                    return true;
                }
                if let Some(u) = cells_uniform(cells) {
                    let ghost full = *cells;
                    assert forall|j: int| 0 <= j < 64 implies #[trigger] array_cell(full, j)
                        == Cell::Uniform(u) by {
                        assert(full.at(j) == Some(Cell::Uniform(u)));
                    }
                    *self = L1::Uniform(u);
                    assert forall|j: int| 0 <= j < 64 implies #[trigger] self.cell(j) == if j == c {
                        cell
                    } else {
                        old(self).cell(j)
                    } by {
                        assert(array_cell(full, j) == Cell::Uniform(u));
                    }
                }
                false
            },
            L1::Uniform(_) => false,
        }
    }
}

/// Stores a cell in an array; an empty one is stored by its absence.
fn put_cell(cells: &mut Sparse64<Cell>, c: u32, cell: Cell)
    requires
        array_ok(*old(cells)),
        c < 64,
    ensures
        array_ok(*final(cells)),
        forall|j: int|
            0 <= j < 64 ==> #[trigger] array_cell(*final(cells), j) == if j == c {
                cell
            } else {
                array_cell(*old(cells), j)
            },
{
    match cell {
        Cell::Empty => {
            cells.remove(c);
        },
        _ => {
            let slot = cells.get_or_insert_with(c, no_cell);
            *slot = cell;
        },
    }
    assert forall|j: int| 0 <= j < 64 implies #[trigger] array_cell(*cells, j) == if j == c {
        cell
    } else {
        array_cell(*old(cells), j)
    } by {
        assert(cells.at(j) == cells.at(j));
    }
    assert forall|j: int| 0 <= j < 64 implies #[trigger] cells.at(j) != Some(Cell::Empty) by {
        assert(old(cells).at(j) != Some(Cell::Empty));
    }
}

fn no_cell() -> (r: Cell)
    ensures
        r == Cell::Empty,
{
    Cell::Empty
}

fn blank_l1() -> (r: L1)
    ensures
        r.blank(),
        forall|j: int| 0 <= j < 64 ==> #[trigger] r.cell(j) == Cell::Empty,
{
    L1::Cells(Sparse64::default())
}

pub(crate) fn blank_l2() -> (r: L2)
    ensures
        r.blank(),
        forall|m: int, c: int|
            0 <= m < 64 && 0 <= c < 64 ==> #[trigger] r.cell(m, c) == Cell::Empty,
{
    L2::Nodes(Sparse64::default())
}

/// Material shared by every cell of a full array, if any.
fn cells_uniform(s: &Sparse64<Cell>) -> (r: Option<MaterialId>)
    requires
        s.wf(),
    ensures
        match r {
            Some(u) => all_cells(*s, u),
            None => forall|u: MaterialId| !all_cells(*s, u),
        },
{
    if !s.is_full() {
        proof {
            let i = choose|i: int| 0 <= i < 64 && #[trigger] s.at(i) is None;
            assert forall|u: MaterialId| !all_cells(*s, u) by {
                assert(s.at(i) != Some(Cell::Uniform(u)));
            }
        }
        return None;
    }
    proof {
        lemma_full_rank();
    }
    let first: MaterialId = match s.items[0] {
        Cell::Uniform(u) => u,
        _ => {
            assert(s.at(0) is Some);
            return None;
        },
    };
    assert(s.at(0) == Some(Cell::Uniform(first)));
    let mut i: usize = 0;
    while i < 64
        invariant
            s.wf(),
            s.mask == u64::MAX,
            i <= 64,
            s.items@.len() == 64,
            s.at(0) == Some(Cell::Uniform(first)),
            forall|j: int| 0 <= j < 64 ==> #[trigger] s.at(j) == Some(s.items@[j]),
            forall|j: int| 0 <= j < i ==> #[trigger] s.at(j) == Some(Cell::Uniform(first)),
        decreases 64 - i,
    {
        let same: bool = match s.items[i] {
            Cell::Uniform(u) => u == first,
            _ => false,
        };
        if !same {
            assert(s.at(i as int) != Some(Cell::Uniform(first)));
            return None;
        }
        assert(s.at(i as int) == Some(Cell::Uniform(first)));
        i += 1;
    }
    Some(first)
}

/// Material shared by every node of a full array, if any.
fn nodes_uniform(s: &Sparse64<L1>) -> (r: Option<MaterialId>)
    requires
        s.wf(),
    ensures
        match r {
            Some(u) => all_nodes(*s, u),
            None => forall|u: MaterialId| !all_nodes(*s, u),
        },
{
    if !s.is_full() {
        proof {
            let i = choose|i: int| 0 <= i < 64 && #[trigger] s.at(i) is None;
            assert forall|u: MaterialId| !all_nodes(*s, u) by {
                assert(s.at(i) != Some(L1::Uniform(u)));
            }
        }
        return None;
    }
    proof {
        lemma_full_rank();
    }
    assert(s.at(0) == Some(s.items@[0]));
    let first: MaterialId = match s.items[0].uniform() {
        Some(u) => u,
        None => {
            return None;
        },
    };
    let mut i: usize = 0;
    while i < 64
        invariant
            s.wf(),
            s.mask == u64::MAX,
            i <= 64,
            s.items@.len() == 64,
            s.at(0) == Some(L1::Uniform(first)),
            forall|j: int| 0 <= j < 64 ==> #[trigger] s.at(j) == Some(s.items@[j]),
            forall|j: int| 0 <= j < i ==> #[trigger] s.at(j) == Some(L1::Uniform(first)),
        decreases 64 - i,
    {
        assert(s.at(i as int) == Some(s.items@[i as int]));
        if s.items[i].uniform() != Some(first) {
            return None;
        }
        i += 1;
    }
    Some(first)
}

/// All 64 nodes uniform of `u`.
fn full_nodes(u: MaterialId) -> (s: Sparse64<L1>)
    ensures
        s.wf(),
        all_nodes(s, u),
{
    let mut items: Vec<L1> = Vec::new();
    let mut i: usize = 0;
    while i < 64
        invariant
            i <= 64,
            items@.len() == i,
            forall|j: int| 0 <= j < i ==> items@[j] == L1::Uniform(u),
        decreases 64 - i,
    {
        items.push(L1::Uniform(u));
        i += 1;
    }
    let s = Sparse64 { mask: u64::MAX, items };
    proof {
        lemma_full_rank();
        assert forall|j: int| 0 <= j < 64 implies #[trigger] s.at(j) == Some(L1::Uniform(u)) by {
            assert(ones_below(u64::MAX, j) == j);
        }
    }
    s
}

impl L2 {
    pub open spec fn cell(&self, m: int, c: int) -> Cell {
        match self {
            L2::Uniform(u) => Cell::Uniform(*u),
            L2::Nodes(s) => array_node_cell(*s, m, c),
        }
    }

    pub open spec fn wf(&self) -> bool {
        match self {
            L2::Uniform(_) => true,
            L2::Nodes(s) => nodes_ok(*s) && s.mask != 0 && forall|u: MaterialId| !all_nodes(*s, u),
        }
    }

    pub open spec fn blank(&self) -> bool {
        self matches L2::Nodes(s) && s.wf() && s.mask == 0
    }

    /// Splits a uniform node into its 64 children.
    fn split(&mut self)
        requires
            old(self).wf() || old(self).blank(),
        ensures
            *final(self) matches L2::Nodes(s) && nodes_ok(s),
            forall|m: int, c: int|
                0 <= m < 64 && 0 <= c < 64 ==> #[trigger] final(self).cell(m, c) == old(self).cell(
                    m,
                    c,
                ),
            *old(self) is Nodes ==> *final(self) == *old(self),
    {
        proof {
            lemma_no_bits(0);
        }
        if let L2::Uniform(u) = *self {
            *self = L2::Nodes(full_nodes(u));
        }
    }

    /// Stores a node that turned out uniform as one material; reports whether
    /// nothing is left.
    fn settle(&mut self) -> (gone: bool)
        requires
            *old(self) matches L2::Nodes(s) && nodes_ok(s),
        ensures
            forall|m: int, c: int|
                0 <= m < 64 && 0 <= c < 64 ==> #[trigger] final(self).cell(m, c) == old(self).cell(
                    m,
                    c,
                ),
            gone ==> final(self).blank(),
            !gone ==> final(self).wf(),
    {
        match self {
            L2::Nodes(nodes) => {
                if nodes.is_empty() {
                    return true;
                }
                if let Some(u) = nodes_uniform(nodes) {
                    *self = L2::Uniform(u);
                }
                false
            },
            L2::Uniform(_) => false,
        }
    }

    /// Replaces cell `c` of node `m`; reports whether nothing is left.
    pub(crate) fn put(&mut self, m: u32, c: u32, cell: Cell) -> (gone: bool)
        requires
            old(self).wf() || old(self).blank(),
            m < 64,
            c < 64,
        ensures
            forall|k: int, j: int|
                0 <= k < 64 && 0 <= j < 64 ==> #[trigger] final(self).cell(k, j) == if k == m && j
                    == c {
                    cell
                } else {
                    old(self).cell(k, j)
                },
            gone ==> final(self).blank(),
            !gone ==> final(self).wf(),
    {
        self.split();
        let ghost whole = *self;
        match self {
            L2::Nodes(nodes) => {
                let l1 = nodes.get_or_insert_with(m, blank_l1);
                let ghost first = *l1;
                let gone = l1.put(c, cell);
                let ghost after = *l1;
                if gone {
                    nodes.remove(m);
                }
                assert forall|k: int, j: int| 0 <= k < 64 && 0 <= j < 64 implies
                    #[trigger] array_node_cell(*nodes, k, j) == if k == m && j == c {
                    cell
                } else {
                    old(self).cell(k, j)
                } by {
                    assert(whole.cell(k, j) == old(self).cell(k, j));
                    assert(nodes.at(k) == nodes.at(k));
                    if k == m {
                        assert(first.cell(j) == old(self).cell(k, j));
                        assert(after.cell(j) == if j == c {
                            cell
                        } else {
                            first.cell(j)
                        });
                        lemma_no_bits(0);
                    }
                }
            },
            L2::Uniform(_) => {},
        }
        self.settle()
    }

    /// Replaces node `m` by one material, or clears it for air; hands the old
    /// node out and reports whether nothing is left.
    pub(crate) fn put_node(&mut self, m: u32, u: MaterialId) -> (r: (bool, Option<L1>))
        requires
            old(self).wf() || old(self).blank(),
            m < 64,
        ensures
            forall|k: int, j: int|
                0 <= k < 64 && 0 <= j < 64 ==> #[trigger] final(self).cell(k, j) == if k == m {
                    node_cell(u)
                } else {
                    old(self).cell(k, j)
                },
            match r.1 {
                Some(n) => n.wf() && forall|j: int|
                    0 <= j < 64 ==> #[trigger] n.cell(j) == old(self).cell(m as int, j),
                None => forall|j: int|
                    0 <= j < 64 ==> #[trigger] old(self).cell(m as int, j) == Cell::Empty,
            },
            r.0 ==> final(self).blank(),
            !r.0 ==> final(self).wf(),
    {
        self.split();
        let ghost whole = *self;
        let mut removed: Option<L1> = None;
        match self {
            L2::Nodes(nodes) => {
                let ghost before = *nodes;
                assert forall|j: int| 0 <= j < 64 implies #[trigger] old(self).cell(m as int, j)
                    == array_node_cell(before, m as int, j) by {
                    assert(whole.cell(m as int, j) == old(self).cell(m as int, j));
                }
                removed = nodes.remove(m);
                if !u.is_air() {
                    let slot = nodes.get_or_insert_with(m, blank_l1);
                    *slot = L1::Uniform(u);
                }
                assert forall|k: int, j: int| 0 <= k < 64 && 0 <= j < 64 implies
                    #[trigger] array_node_cell(*nodes, k, j) == if k == m {
                    node_cell(u)
                } else {
                    old(self).cell(k, j)
                } by {
                    assert(whole.cell(k, j) == old(self).cell(k, j));
                    assert(nodes.at(k) == nodes.at(k));
                }
                proof {
                    if let Some(ref n) = removed {
                        assert forall|j: int| 0 <= j < 64 implies #[trigger] n.cell(j) == old(
                            self,
                        ).cell(m as int, j) by {
                            assert(whole.cell(m as int, j) == old(self).cell(m as int, j));
                        }
                    }
                }
            },
            L2::Uniform(_) => {},
        }
        let gone: bool = self.settle();
        (gone, removed)
    }
}

/// What a cell of a region filled with `u` is.
pub open spec fn node_cell(u: MaterialId) -> Cell {
    if u == crate::material::air() {
        Cell::Empty
    } else {
        Cell::Uniform(u)
    }
}

} // verus!
