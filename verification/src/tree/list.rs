//! Listings of what a tree stores: explicit brick cells and uniform nodes.

use crate::ivec::IVec3;
use crate::material::MaterialId;
use crate::tree::node::{Cell, L1, L2};
use crate::tree::path::{
    cell_coord, child_coord, children, coord, lemma_coord, lemma_path, lemma_unpath, low, mid, top,
};
use crate::tree::sparse::Sparse64;
use crate::tree::ChunkTree;
use vstd::prelude::*;

verus! {

/// A region of one material stored as a single node.
#[derive(Clone, Copy, Debug, PartialEq, Eq, Structural)]
pub struct UniformNode {
    /// Minimum corner in brick cells.
    pub min_cell: IVec3,
    /// Edge length in brick cells: 4 for a 2 m node, 16 for an 8 m node.
    pub cells: i32,
    pub material: MaterialId,
}

/// The stored cells among the first `n` of 2 m node `(a, m)`.
pub open spec fn listed_l1(a: int, m: int, s: Sparse64<Cell>, n: int) -> Seq<(IVec3, Cell)>
    decreases n,
{
    if n <= 0 {
        Seq::empty()
    } else {
        match s.at(n - 1) {
            Some(cell) => listed_l1(a, m, s, n - 1).push((cell_coord(a, m, n - 1), cell)),
            None => listed_l1(a, m, s, n - 1),
        }
    }
}

/// The stored cells of the first `n` nodes of 8 m node `a`.
pub open spec fn listed_l2(a: int, s: Sparse64<L1>, n: int) -> Seq<(IVec3, Cell)>
    decreases n,
{
    if n <= 0 {
        Seq::empty()
    } else {
        match s.at(n - 1) {
            Some(L1::Cells(cells)) => listed_l2(a, s, n - 1) + listed_l1(a, n - 1, cells, 64),
            _ => listed_l2(a, s, n - 1),
        }
    }
}

/// The stored cells of the first `n` 8 m nodes.
pub open spec fn listed(s: Sparse64<L2>, n: int) -> Seq<(IVec3, Cell)>
    decreases n,
{
    if n <= 0 {
        Seq::empty()
    } else {
        match s.at(n - 1) {
            Some(L2::Nodes(nodes)) => listed(s, n - 1) + listed_l2(n - 1, nodes, 64),
            _ => listed(s, n - 1),
        }
    }
}

/// The uniform nodes among the first `n` of 8 m node `a`.
pub open spec fn uniform_l2(a: int, s: Sparse64<L1>, n: int) -> Seq<UniformNode>
    decreases n,
{
    if n <= 0 {
        Seq::empty()
    } else {
        match s.at(n - 1) {
            Some(L1::Uniform(u)) => uniform_l2(a, s, n - 1).push(
                UniformNode { min_cell: cell_coord(a, n - 1, 0), cells: 4, material: u },
            ),
            _ => uniform_l2(a, s, n - 1),
        }
    }
}

/// The uniform nodes of the first `n` 8 m nodes.
pub open spec fn uniform_list(s: Sparse64<L2>, n: int) -> Seq<UniformNode>
    decreases n,
{
    if n <= 0 {
        Seq::empty()
    } else {
        match s.at(n - 1) {
            Some(L2::Uniform(u)) => uniform_list(s, n - 1).push(
                UniformNode { min_cell: cell_coord(n - 1, 0, 0), cells: 16, material: u },
            ),
            Some(L2::Nodes(nodes)) => uniform_list(s, n - 1) + uniform_l2(n - 1, nodes, 64),
            None => uniform_list(s, n - 1),
        }
    }
}

fn join(a: u32, m: u32, c: u32) -> (b: IVec3)
    requires
        a < 64,
        m < 64,
        c < 64,
    ensures
        b == cell_coord(a as int, m as int, c as int),
{
    child_coord(a).scale(16).plus(child_coord(m).scale(4)).plus(child_coord(c))
}

fn list_l1(a: u32, m: u32, s: &Sparse64<Cell>, out: &mut Vec<(IVec3, Cell)>)
    requires
        a < 64,
        m < 64,
        s.wf(),
    ensures
        final(out)@ == old(out)@ + listed_l1(a as int, m as int, *s, 64),
{
    let mut c: u32 = 0;
    while c < 64
        invariant
            c <= 64,
            a < 64,
            m < 64,
            s.wf(),
            out@ == old(out)@ + listed_l1(a as int, m as int, *s, c as int),
        decreases 64 - c,
    {
        if let Some(cell) = s.get(c) {
            out.push((join(a, m, c), *cell));
        }
        c += 1;
        assert(out@ =~= old(out)@ + listed_l1(a as int, m as int, *s, c as int));
    }
}

fn list_l2(a: u32, s: &Sparse64<L1>, out: &mut Vec<(IVec3, Cell)>)
    requires
        a < 64,
        s.wf(),
        forall|i: int| 0 <= i < 64 ==> (#[trigger] s.at(i) matches Some(n) ==> n.wf()),
    ensures
        final(out)@ == old(out)@ + listed_l2(a as int, *s, 64),
{
    let mut m: u32 = 0;
    while m < 64
        invariant
            m <= 64,
            a < 64,
            s.wf(),
            forall|i: int| 0 <= i < 64 ==> (#[trigger] s.at(i) matches Some(n) ==> n.wf()),
            out@ == old(out)@ + listed_l2(a as int, *s, m as int),
        decreases 64 - m,
    {
        if let Some(L1::Cells(cells)) = s.get(m) {
            list_l1(a, m, cells, out);
        }
        m += 1;
        assert(out@ =~= old(out)@ + listed_l2(a as int, *s, m as int));
    }
}

fn list_uniform_l2(a: u32, s: &Sparse64<L1>, out: &mut Vec<UniformNode>)
    requires
        a < 64,
        s.wf(),
    ensures
        final(out)@ == old(out)@ + uniform_l2(a as int, *s, 64),
{
    let mut m: u32 = 0;
    while m < 64
        invariant
            m <= 64,
            a < 64,
            s.wf(),
            out@ == old(out)@ + uniform_l2(a as int, *s, m as int),
        decreases 64 - m,
    {
        if let Some(L1::Uniform(u)) = s.get(m) {
            out.push(UniformNode { min_cell: join(a, m, 0), cells: 4, material: *u });
        }
        m += 1;
        assert(out@ =~= old(out)@ + uniform_l2(a as int, *s, m as int));
    }
}

impl ChunkTree {
    /// Explicit brick cells as `(brick coordinate, cell)`. Regions stored as
    /// uniform nodes are reported by `uniform_nodes` instead.
    pub fn cells(&self) -> (r: Vec<(IVec3, Cell)>)
        requires
            self.wf(),
        ensures
            r@ == listed(self.nodes(), 64),
    {
        proof {
            self.lemma_cells();
        }
        let root: &Sparse64<L2> = self.root();
        let mut out: Vec<(IVec3, Cell)> = Vec::new();
        let mut a: u32 = 0;
        while a < 64
            invariant
                a <= 64,
                root.wf(),
                forall|i: int| 0 <= i < 64 ==> (#[trigger] root.at(i) matches Some(n) ==> n.wf()),
                out@ == listed(*root, a as int),
            decreases 64 - a,
        {
            if let Some(L2::Nodes(nodes)) = root.get(a) {
                list_l2(a, nodes, &mut out);
            }
            a += 1;
            assert(out@ =~= listed(*root, a as int));
        }
        out
    }

    /// Every uniform 2 m and 8 m node.
    pub fn uniform_nodes(&self) -> (r: Vec<UniformNode>)
        requires
            self.wf(),
        ensures
            r@ == uniform_list(self.nodes(), 64),
    {
        proof {
            self.lemma_cells();
        }
        let root: &Sparse64<L2> = self.root();
        let mut out: Vec<UniformNode> = Vec::new();
        let mut a: u32 = 0;
        while a < 64
            invariant
                a <= 64,
                root.wf(),
                forall|i: int| 0 <= i < 64 ==> (#[trigger] root.at(i) matches Some(n) ==> n.wf()),
                out@ == uniform_list(*root, a as int),
            decreases 64 - a,
        {
            match root.get(a) {
                Some(L2::Uniform(u)) => {
                    out.push(UniformNode { min_cell: join(a, 0, 0), cells: 16, material: *u });
                },
                Some(L2::Nodes(nodes)) => {
                    list_uniform_l2(a, nodes, &mut out);
                },
                None => {},
            }
            a += 1;
            assert(out@ =~= uniform_list(*root, a as int));
        }
        out
    }
}

/// Brick cell `b` is stored one by one, not as part of a uniform node.
pub open spec fn explicit(s: Sparse64<L2>, b: IVec3) -> bool {
    s.at(top(b)) matches Some(L2::Nodes(n)) && n.at(mid(b)) matches Some(L1::Cells(cells))
        && cells.at(low(b)) is Some
}

/// `b` lies in uniform node `u`.
pub open spec fn covers(u: UniformNode, b: IVec3) -> bool {
    &&& u.min_cell.x <= b.x < u.min_cell.x + u.cells
    &&& u.min_cell.y <= b.y < u.min_cell.y + u.cells
    &&& u.min_cell.z <= b.z < u.min_cell.z + u.cells
}

proof fn lemma_listed_l1(a: int, m: int, s: Sparse64<Cell>, n: int, b: IVec3, cell: Cell)
    requires
        0 <= a < 64,
        0 <= m < 64,
        0 <= n <= 64,
        b.within(64),
    ensures
        listed_l1(a, m, s, n).contains((b, cell)) <==> top(b) == a && mid(b) == m && low(b) < n
            && s.at(low(b)) == Some(cell),
    decreases n,
{
    lemma_path(b);
    if n > 0 {
        lemma_listed_l1(a, m, s, n - 1, b, cell);
        lemma_unpath(a, m, n - 1);
        let rest = listed_l1(a, m, s, n - 1);
        if let Some(x) = s.at(n - 1) {
            let it = (cell_coord(a, m, n - 1), x);
            assert(rest.push(it).contains((b, cell)) <==> rest.contains((b, cell)) || it == (
                b,
                cell,
            )) by {
                lemma_push_contains(rest, it, (b, cell));
            }
        }
    }
}

proof fn lemma_push_contains<T>(s: Seq<T>, it: T, x: T)
    ensures
        s.push(it).contains(x) <==> s.contains(x) || it == x,
{
    if s.contains(x) {
        let k = choose|k: int| 0 <= k < s.len() && s[k] == x;
        assert(s.push(it)[k] == x);
    }
    assert(s.push(it)[s.len() as int] == it);
}

proof fn lemma_add_contains<T>(s: Seq<T>, t: Seq<T>, x: T)
    ensures
        (s + t).contains(x) <==> s.contains(x) || t.contains(x),
{
    if s.contains(x) {
        let k = choose|k: int| 0 <= k < s.len() && s[k] == x;
        assert((s + t)[k] == x);
    }
    if t.contains(x) {
        let k = choose|k: int| 0 <= k < t.len() && t[k] == x;
        assert((s + t)[s.len() + k] == x);
    }
}

proof fn lemma_listed_l2(a: int, s: Sparse64<L1>, n: int, b: IVec3, cell: Cell)
    requires
        0 <= a < 64,
        0 <= n <= 64,
        b.within(64),
    ensures
        listed_l2(a, s, n).contains((b, cell)) <==> top(b) == a && mid(b) < n && (s.at(mid(b))
            matches Some(L1::Cells(cells)) && cells.at(low(b)) == Some(cell)),
    decreases n,
{
    lemma_path(b);
    if n > 0 {
        lemma_listed_l2(a, s, n - 1, b, cell);
        if let Some(L1::Cells(cells)) = s.at(n - 1) {
            lemma_listed_l1(a, n - 1, cells, 64, b, cell);
            lemma_add_contains(listed_l2(a, s, n - 1), listed_l1(a, n - 1, cells, 64), (b, cell));
        }
    }
}

proof fn lemma_listed(s: Sparse64<L2>, n: int, b: IVec3, cell: Cell)
    requires
        0 <= n <= 64,
        b.within(64),
    ensures
        listed(s, n).contains((b, cell)) <==> top(b) < n && (s.at(top(b)) matches Some(
            L2::Nodes(nodes),
        ) && nodes.at(mid(b)) matches Some(L1::Cells(cells)) && cells.at(low(b)) == Some(cell)),
    decreases n,
{
    lemma_path(b);
    if n > 0 {
        lemma_listed(s, n - 1, b, cell);
        if let Some(L2::Nodes(nodes)) = s.at(n - 1) {
            lemma_listed_l2(n - 1, nodes, 64, b, cell);
            lemma_add_contains(listed(s, n - 1), listed_l2(n - 1, nodes, 64), (b, cell));
        }
    }
}

proof fn lemma_uniform_l2(a: int, s: Sparse64<L1>, n: int, u: UniformNode)
    requires
        0 <= a < 64,
        0 <= n <= 64,
    ensures
        uniform_l2(a, s, n).contains(u) <==> exists|m: int|
            0 <= m < n && u.cells == 4 && u.min_cell == cell_coord(a, m, 0) && #[trigger] s.at(m)
                == Some(L1::Uniform(u.material)),
    decreases n,
{
    if n > 0 {
        lemma_uniform_l2(a, s, n - 1, u);
        let rest = uniform_l2(a, s, n - 1);
        if let Some(L1::Uniform(x)) = s.at(n - 1) {
            lemma_push_contains(
                rest,
                UniformNode { min_cell: cell_coord(a, n - 1, 0), cells: 4, material: x },
                u,
            );
        }
        let all = uniform_l2(a, s, n);
        if all.contains(u) {
            if rest.contains(u) {
                let m = choose|m: int|
                    0 <= m < n - 1 && u.cells == 4 && u.min_cell == cell_coord(a, m, 0)
                        && #[trigger] s.at(m) == Some(L1::Uniform(u.material));
                assert(s.at(m) == Some(L1::Uniform(u.material)));
            } else {
                assert(s.at(n - 1) == Some(L1::Uniform(u.material)));
            }
        }
        if exists|m: int|
            0 <= m < n && u.cells == 4 && u.min_cell == cell_coord(a, m, 0) && #[trigger] s.at(m)
                == Some(L1::Uniform(u.material)) {
            let m = choose|m: int|
                0 <= m < n && u.cells == 4 && u.min_cell == cell_coord(a, m, 0) && #[trigger] s.at(
                    m,
                )
                    == Some(L1::Uniform(u.material));
            if m < n - 1 {
                assert(s.at(m) == Some(L1::Uniform(u.material)));
                assert(rest.contains(u));
            }
        }
    }
}

/// What a uniform node of the list stands for.
pub open spec fn is_uniform_node(s: Sparse64<L2>, u: UniformNode, a: int, m: int) -> bool {
    ||| u.cells == 16 && m == 0 && u.min_cell == cell_coord(a, 0, 0) && s.at(a) == Some(
        L2::Uniform(u.material),
    )
    ||| u.cells == 4 && u.min_cell == cell_coord(a, m, 0) && (s.at(a) matches Some(L2::Nodes(n))
        && n.at(m) == Some(L1::Uniform(u.material)))
}

proof fn lemma_uniform_list(s: Sparse64<L2>, n: int, u: UniformNode)
    requires
        0 <= n <= 64,
    ensures
        uniform_list(s, n).contains(u) <==> exists|a: int, m: int|
            0 <= a < n && 0 <= m < 64 && #[trigger] is_uniform_node(s, u, a, m),
    decreases n,
{
    if n > 0 {
        lemma_uniform_list(s, n - 1, u);
        let rest = uniform_list(s, n - 1);
        match s.at(n - 1) {
            Some(L2::Uniform(x)) => {
                let it = UniformNode { min_cell: cell_coord(n - 1, 0, 0), cells: 16, material: x };
                lemma_push_contains(rest, it, u);
                if it == u {
                    assert(is_uniform_node(s, u, n - 1, 0));
                }
            },
            Some(L2::Nodes(nodes)) => {
                lemma_uniform_l2(n - 1, nodes, 64, u);
                lemma_add_contains(rest, uniform_l2(n - 1, nodes, 64), u);
                if uniform_l2(n - 1, nodes, 64).contains(u) {
                    let m = choose|m: int|
                        0 <= m < 64 && u.cells == 4 && u.min_cell == cell_coord(n - 1, m, 0)
                            && #[trigger] nodes.at(m) == Some(L1::Uniform(u.material));
                    assert(is_uniform_node(s, u, n - 1, m));
                }
            },
            None => {},
        }
        if rest.contains(u) {
            let (a, m) = choose|a: int, m: int|
                0 <= a < n - 1 && 0 <= m < 64 && #[trigger] is_uniform_node(s, u, a, m);
            assert(is_uniform_node(s, u, a, m));
        }
        if exists|a: int, m: int|
            0 <= a < n && 0 <= m < 64 && #[trigger] is_uniform_node(s, u, a, m) {
            let (a, m) = choose|a: int, m: int|
                0 <= a < n && 0 <= m < 64 && #[trigger] is_uniform_node(s, u, a, m);
            if a < n - 1 {
                assert(rest.contains(u));
            } else if let Some(L2::Nodes(nodes)) = s.at(n - 1) {
                assert(nodes.at(m) == Some(L1::Uniform(u.material)));
            }
        }
    }
}

/// Cells that share the upper part of a path lie together.
proof fn lemma_cover(a: int, m: int, b: IVec3)
    requires
        0 <= a < 64,
        0 <= m < 64,
        b.within(64),
    ensures
        top(b) == a <==> {
            let p = cell_coord(a, 0, 0);
            p.x <= b.x < p.x + 16 && p.y <= b.y < p.y + 16 && p.z <= b.z < p.z + 16
        },
        top(b) == a && mid(b) == m <==> {
            let p = cell_coord(a, m, 0);
            p.x <= b.x < p.x + 4 && p.y <= b.y < p.y + 4 && p.z <= b.z < p.z + 4
        },
{
    lemma_coord(a);
    lemma_coord(m);
    lemma_coord(0);
    lemma_path(b);
    let (a2, m2, c2) = (top(b), mid(b), low(b));
    lemma_coord(a2);
    lemma_coord(m2);
    lemma_coord(c2);
    let (p, q, r) = (coord(a2), coord(m2), coord(c2));
    let (u, v) = (coord(a), coord(m));
    assert(coord(0).x == 0 && coord(0).y == 0 && coord(0).z == 0);
    assert(b.x == p.x * 16 + q.x * 4 + r.x);
    assert(b.y == p.y * 16 + q.y * 4 + r.y);
    assert(b.z == p.z * 16 + q.z * 4 + r.z);
    assert(a2 == a <==> p.x == u.x && p.y == u.y && p.z == u.z);
    assert(m2 == m <==> q.x == v.x && q.y == v.y && q.z == v.z);
}

/// The two listings between them hold the chunk: a cell that is not empty is
/// listed by itself with what it holds, or lies in one listed uniform node of
/// its material; an empty cell is in neither.
pub proof fn listings_hold_every_cell(t: ChunkTree, b: IVec3)
    requires
        t.wf(),
        b.within(64),
    ensures
        forall|cell: Cell|
            #[trigger] listed(t.nodes(), 64).contains((b, cell)) <==> cell == t.cell_of(b) && cell
                != Cell::Empty && explicit(t.nodes(), b),
        forall|u: UniformNode|
            #[trigger] uniform_list(t.nodes(), 64).contains(u) && covers(u, b) ==> t.cell_of(b)
                == Cell::Uniform(u.material) && !explicit(t.nodes(), b),
        t.cell_of(b) != Cell::Empty && !explicit(t.nodes(), b) ==> exists|u: UniformNode|
            #[trigger] uniform_list(t.nodes(), 64).contains(u) && covers(u, b),
{
    let s = t.nodes();
    t.lemma_cells();
    lemma_path(b);
    let (a, m, c) = (top(b), mid(b), low(b));
    assert forall|cell: Cell| #[trigger] listed(s, 64).contains((b, cell)) <==> cell == t.cell_of(b)
        && cell != Cell::Empty && explicit(s, b) by {
        lemma_listed(s, 64, b, cell);
        if let Some(L2::Nodes(nodes)) = s.at(a) {
            assert(s.at(a)->0.wf());
            if let Some(L1::Cells(cells)) = nodes.at(m) {
                assert(nodes.at(m)->0.wf());
                assert(cells.at(c) != Some(Cell::Empty));
            }
        }
    }
    assert forall|u: UniformNode| #[trigger] uniform_list(s, 64).contains(u) && covers(
        u,
        b,
    ) implies t.cell_of(b) == Cell::Uniform(u.material) && !explicit(s, b) by {
        lemma_uniform_list(s, 64, u);
        let (x, y) = choose|x: int, y: int|
            0 <= x < 64 && 0 <= y < 64 && #[trigger] is_uniform_node(s, u, x, y);
        lemma_cover(x, y, b);
    }
    if t.cell_of(b) != Cell::Empty && !explicit(s, b) {
        lemma_cover(a, m, b);
        let u = match s.at(a)->0 {
            L2::Uniform(u) => UniformNode { min_cell: cell_coord(a, 0, 0), cells: 16, material: u },
            L2::Nodes(nodes) => UniformNode {
                min_cell: cell_coord(a, m, 0),
                cells: 4,
                material: nodes.at(m)->0->Uniform_0,
            },
        };
        let y = if u.cells == 16 {
            0
        } else {
            m
        };
        assert(is_uniform_node(s, u, a, y));
        lemma_uniform_list(s, 64, u);
        assert(uniform_list(s, 64).contains(u) && covers(u, b));
    }
}

/// A cell's place in the order of the listings.
pub open spec fn rank_of(b: IVec3) -> int {
    top(b) * 4096 + mid(b) * 64 + low(b)
}

/// Cells one behind the other, between two ranks.
spec fn rising(l: Seq<(IVec3, Cell)>, from: int, to: int) -> bool {
    &&& forall|k: int|
        0 <= k < l.len() ==> (#[trigger] l[k]).0.within(64) && from <= rank_of(l[k].0) < to
    &&& forall|j: int, k: int|
        0 <= j < k < l.len() ==> rank_of((#[trigger] l[j]).0) < rank_of((#[trigger] l[k]).0)
}

proof fn lemma_rising_add(l: Seq<(IVec3, Cell)>, r: Seq<(IVec3, Cell)>, from: int, at: int, to: int)
    requires
        rising(l, from, at),
        rising(r, at, to),
        from <= at <= to,
    ensures
        rising(l + r, from, to),
{
    let n = l.len() as int;
    assert forall|k: int| 0 <= k < (l + r).len() implies (#[trigger] (l + r)[k]).0.within(64)
        && from <= rank_of((l + r)[k].0) < to by {
        if k < n {
            assert((l + r)[k] == l[k]);
        } else {
            assert((l + r)[k] == r[k - n]);
        }
    }
    assert forall|j: int, k: int| 0 <= j < k < (l + r).len() implies rank_of(
        (#[trigger] (l + r)[j]).0,
    ) < rank_of((#[trigger] (l + r)[k]).0) by {
        if j < n {
            assert((l + r)[j] == l[j]);
        } else {
            assert((l + r)[j] == r[j - n]);
        }
        if k < n {
            assert((l + r)[k] == l[k]);
        } else {
            assert((l + r)[k] == r[k - n]);
        }
    }
}

proof fn lemma_rising_l1(a: int, m: int, s: Sparse64<Cell>, n: int)
    requires
        0 <= a < 64,
        0 <= m < 64,
        0 <= n <= 64,
    ensures
        rising(listed_l1(a, m, s, n), a * 4096 + m * 64, a * 4096 + m * 64 + n),
    decreases n,
{
    if n > 0 {
        lemma_rising_l1(a, m, s, n - 1);
        lemma_unpath(a, m, n - 1);
        if let Some(cell) = s.at(n - 1) {
            let base = a * 4096 + m * 64;
            let l = listed_l1(a, m, s, n - 1);
            let one = seq![(cell_coord(a, m, n - 1), cell)];
            assert(rising(one, base + n - 1, base + n));
            lemma_rising_add(l, one, base, base + n - 1, base + n);
            assert(l + one =~= listed_l1(a, m, s, n));
        }
    }
}

proof fn lemma_rising_l2(a: int, s: Sparse64<L1>, n: int)
    requires
        0 <= a < 64,
        0 <= n <= 64,
    ensures
        rising(listed_l2(a, s, n), a * 4096, a * 4096 + n * 64),
    decreases n,
{
    if n > 0 {
        lemma_rising_l2(a, s, n - 1);
        let base = a * 4096;
        if let Some(L1::Cells(cells)) = s.at(n - 1) {
            lemma_rising_l1(a, n - 1, cells, 64);
            lemma_rising_add(
                listed_l2(a, s, n - 1),
                listed_l1(a, n - 1, cells, 64),
                base,
                base + (n - 1) * 64,
                base + n * 64,
            );
        }
    }
}

proof fn lemma_rising(s: Sparse64<L2>, n: int)
    requires
        0 <= n <= 64,
    ensures
        rising(listed(s, n), 0, n * 4096),
    decreases n,
{
    if n > 0 {
        lemma_rising(s, n - 1);
        if let Some(L2::Nodes(nodes)) = s.at(n - 1) {
            lemma_rising_l2(n - 1, nodes, 64);
            lemma_rising_add(
                listed(s, n - 1),
                listed_l2(n - 1, nodes, 64),
                0,
                (n - 1) * 4096,
                n * 4096,
            );
        }
    }
}

/// Nodes one behind the other, between two ranks.
spec fn mounting(l: Seq<UniformNode>, from: int, to: int) -> bool {
    &&& forall|k: int| 0 <= k < l.len() ==> from <= rank_of((#[trigger] l[k]).min_cell) < to
    &&& forall|j: int, k: int|
        0 <= j < k < l.len() ==> rank_of((#[trigger] l[j]).min_cell) < rank_of(
            (#[trigger] l[k]).min_cell,
        )
}

proof fn lemma_mounting_add(l: Seq<UniformNode>, r: Seq<UniformNode>, from: int, at: int, to: int)
    requires
        mounting(l, from, at),
        mounting(r, at, to),
        from <= at <= to,
    ensures
        mounting(l + r, from, to),
{
    let n = l.len() as int;
    assert forall|k: int| 0 <= k < (l + r).len() implies from <= rank_of(
        (#[trigger] (l + r)[k]).min_cell,
    ) < to by {
        if k < n {
            assert((l + r)[k] == l[k]);
        } else {
            assert((l + r)[k] == r[k - n]);
        }
    }
    assert forall|j: int, k: int| 0 <= j < k < (l + r).len() implies rank_of(
        (#[trigger] (l + r)[j]).min_cell,
    ) < rank_of((#[trigger] (l + r)[k]).min_cell) by {
        if j < n {
            assert((l + r)[j] == l[j]);
        } else {
            assert((l + r)[j] == r[j - n]);
        }
        if k < n {
            assert((l + r)[k] == l[k]);
        } else {
            assert((l + r)[k] == r[k - n]);
        }
    }
}

proof fn lemma_mounting_l2(a: int, s: Sparse64<L1>, n: int)
    requires
        0 <= a < 64,
        0 <= n <= 64,
    ensures
        mounting(uniform_l2(a, s, n), a * 4096, a * 4096 + n * 64),
    decreases n,
{
    if n > 0 {
        lemma_mounting_l2(a, s, n - 1);
        lemma_unpath(a, n - 1, 0);
        if let Some(L1::Uniform(u)) = s.at(n - 1) {
            let base = a * 4096;
            let l = uniform_l2(a, s, n - 1);
            let one = seq![
                UniformNode { min_cell: cell_coord(a, n - 1, 0), cells: 4, material: u },
            ];
            assert(mounting(one, base + (n - 1) * 64, base + n * 64));
            lemma_mounting_add(l, one, base, base + (n - 1) * 64, base + n * 64);
            assert(l + one =~= uniform_l2(a, s, n));
        }
    }
}

proof fn lemma_mounting(s: Sparse64<L2>, n: int)
    requires
        0 <= n <= 64,
    ensures
        mounting(uniform_list(s, n), 0, n * 4096),
    decreases n,
{
    if n > 0 {
        lemma_mounting(s, n - 1);
        lemma_unpath(n - 1, 0, 0);
        let l = uniform_list(s, n - 1);
        match s.at(n - 1) {
            Some(L2::Uniform(u)) => {
                let one = seq![
                    UniformNode { min_cell: cell_coord(n - 1, 0, 0), cells: 16, material: u },
                ];
                assert(mounting(one, (n - 1) * 4096, n * 4096));
                lemma_mounting_add(l, one, 0, (n - 1) * 4096, n * 4096);
                assert(l + one =~= uniform_list(s, n));
            },
            Some(L2::Nodes(nodes)) => {
                lemma_mounting_l2(n - 1, nodes, 64);
                lemma_mounting_add(l, uniform_l2(n - 1, nodes, 64), 0, (n - 1) * 4096, n * 4096);
            },
            None => {},
        }
    }
}

/// Nothing is listed twice: no cell comes again, no two uniform nodes share a
/// cell, and none covers a cell that is listed by itself.
pub proof fn listings_do_not_overlap(t: ChunkTree)
    requires
        t.wf(),
    ensures
        forall|j: int, k: int|
            #![trigger listed(t.nodes(), 64)[j], listed(t.nodes(), 64)[k]]
            0 <= j < k < listed(t.nodes(), 64).len() ==> listed(t.nodes(), 64)[j].0 != listed(
                t.nodes(),
                64,
            )[k].0,
        forall|k: int|
            #![trigger listed(t.nodes(), 64)[k]]
            0 <= k < listed(t.nodes(), 64).len() ==> listed(t.nodes(), 64)[k].0.within(64),
        forall|j: int, k: int, b: IVec3|
            0 <= j < k < uniform_list(t.nodes(), 64).len() && b.within(64) ==> !(#[trigger] covers(
                uniform_list(t.nodes(), 64)[j],
                b,
            ) && #[trigger] covers(uniform_list(t.nodes(), 64)[k], b)),
        forall|j: int, k: int|
            0 <= j < listed(t.nodes(), 64).len() && 0 <= k < uniform_list(t.nodes(), 64).len()
                ==> !#[trigger] covers(
                uniform_list(t.nodes(), 64)[k],
                listed(t.nodes(), 64)[j].0,
            ),
{
    let s = t.nodes();
    let (l, v) = (listed(s, 64), uniform_list(s, 64));
    lemma_rising(s, 64);
    lemma_mounting(s, 64);
    assert forall|j: int, k: int, b: IVec3| 0 <= j < k < v.len() && b.within(64) implies !(
    #[trigger] covers(v[j], b) && #[trigger] covers(v[k], b)) by {
        if covers(v[j], b) && covers(v[k], b) {
            assert(v.contains(v[j]) && v.contains(v[k]));
            lemma_uniform_list(s, 64, v[j]);
            lemma_uniform_list(s, 64, v[k]);
            let (x, y) = choose|x: int, y: int|
                0 <= x < 64 && 0 <= y < 64 && #[trigger] is_uniform_node(s, v[j], x, y);
            let (z, w) = choose|z: int, w: int|
                0 <= z < 64 && 0 <= w < 64 && #[trigger] is_uniform_node(s, v[k], z, w);
            lemma_cover(x, y, b);
            lemma_cover(z, w, b);
            assert(v[j].min_cell == v[k].min_cell);
        }
    }
    assert forall|j: int, k: int| 0 <= j < l.len() && 0 <= k < v.len() implies !#[trigger] covers(
        v[k],
        l[j].0,
    ) by {
        assert(l[j].0.within(64));
        listings_hold_every_cell(t, l[j].0);
        assert(l.contains((l[j].0, l[j].1)));
        assert(v.contains(v[k]));
    }
}

/// The slab indices of the brick cells of a listing, in its order.
pub open spec fn brick_slots(l: Seq<(IVec3, Cell)>) -> Seq<u32>
    decreases l.len(),
{
    if l.len() == 0 {
        Seq::empty()
    } else {
        match l.last().1 {
            Cell::Brick(i) => brick_slots(l.drop_last()).push(i),
            _ => brick_slots(l.drop_last()),
        }
    }
}

pub(crate) proof fn lemma_slots_push(l: Seq<(IVec3, Cell)>, e: (IVec3, Cell))
    ensures
        brick_slots(l.push(e)) == match e.1 {
            Cell::Brick(i) => brick_slots(l).push(i),
            _ => brick_slots(l),
        },
{
    assert(l.push(e).drop_last() =~= l);
    assert(l.push(e).last() == e);
}

pub(crate) proof fn lemma_slots_add(l: Seq<(IVec3, Cell)>, r: Seq<(IVec3, Cell)>)
    ensures
        brick_slots(l + r) == brick_slots(l) + brick_slots(r),
    decreases r.len(),
{
    if r.len() == 0 {
        assert(l + r =~= l);
        assert(brick_slots(l) + brick_slots(r) =~= brick_slots(l));
    } else {
        let x = r.drop_last();
        lemma_slots_add(l, x);
        assert(l + r =~= (l + x).push(r.last()));
        lemma_slots_push(l + x, r.last());
        if let Cell::Brick(i) = r.last().1 {
            assert((brick_slots(l) + brick_slots(x)).push(i) =~= brick_slots(l) + brick_slots(
                x,
            ).push(i));
        }
    }
}

proof fn lemma_slots(l: Seq<(IVec3, Cell)>)
    requires
        forall|j: int, k: int|
            #![trigger l[j], l[k]]
            0 <= j < k < l.len() && l[j].1 is Brick ==> l[j].1 != l[k].1,
    ensures
        brick_slots(l).no_duplicates(),
        forall|i: u32|
            #[trigger] brick_slots(l).contains(i) <==> exists|k: int|
                #![trigger l[k]]
                0 <= k < l.len() && l[k].1 == Cell::Brick(i),
    decreases l.len(),
{
    if l.len() > 0 {
        let x = l.drop_last();
        let n = l.len() - 1;
        assert forall|j: int, k: int|
            #![trigger x[j], x[k]]
            0 <= j < k < x.len() && x[j].1 is Brick implies x[j].1 != x[k].1 by {
            assert(l[j] == x[j] && l[k] == x[k]);
        }
        lemma_slots(x);
        let before = brick_slots(x);
        if let Cell::Brick(i) = l[n].1 {
            if before.contains(i) {
                let k = choose|k: int|
                    #![trigger x[k]]
                    0 <= k < x.len() && x[k].1 == Cell::Brick(i);
                assert(l[k] == x[k]);
                assert(false);
            }
        }
        assert forall|i: u32| #[trigger] brick_slots(l).contains(i) <==> exists|k: int|
            #![trigger l[k]]
            0 <= k < l.len() && l[k].1 == Cell::Brick(i) by {
            if let Cell::Brick(y) = l[n].1 {
                lemma_push_contains(before, y, i);
            }
            if before.contains(i) {
                let k = choose|k: int|
                    #![trigger x[k]]
                    0 <= k < x.len() && x[k].1 == Cell::Brick(i);
                assert(l[k].1 == Cell::Brick(i));
            }
            if exists|k: int|
                #![trigger l[k]]
                0 <= k < l.len() && l[k].1 == Cell::Brick(i) {
                let k = choose|k: int|
                    #![trigger l[k]]
                    0 <= k < l.len() && l[k].1 == Cell::Brick(i);
                if k < n {
                    assert(x[k].1 == Cell::Brick(i));
                }
            }
        }
    }
}

/// The slab slots in use are those of the brick cells that are listed, one
/// each: none leaks and none is shared.
pub proof fn bricks_in_use_are_listed(t: ChunkTree)
    requires
        t.wf(),
    ensures
        brick_slots(listed(t.nodes(), 64)).no_duplicates(),
        brick_slots(listed(t.nodes(), 64)).to_set() == t.live(),
        t.live().finite(),
        t.live().len() == brick_slots(listed(t.nodes(), 64)).len(),
{
    let l = listed(t.nodes(), 64);
    listings_do_not_overlap(t);
    t.lemma_cells();
    assert forall|k: int| #![trigger l[k]] 0 <= k < l.len() implies l[k].1 == t.cell_of(l[k].0) by {
        listings_hold_every_cell(t, l[k].0);
        assert(l.contains((l[k].0, l[k].1)));
    }
    assert forall|j: int, k: int|
        #![trigger l[j], l[k]]
        0 <= j < k < l.len() && l[j].1 is Brick implies l[j].1 != l[k].1 by {
        if l[j].1 == l[k].1 {
            t.bricks_are_not_shared(l[j].0, l[k].0);
        }
    }
    lemma_slots(l);
    let slots = brick_slots(l);
    assert forall|i: u32| #[trigger] t.live().contains(i) == slots.to_set().contains(i) by {
        if t.live().contains(i) {
            let (a, m, c) = choose|a: int, m: int, c: int|
                children(a, m, c) && #[trigger] t.cell_at(a, m, c) == Cell::Brick(i);
            let b = cell_coord(a, m, c);
            lemma_unpath(a, m, c);
            assert(t.cell_of(b) == Cell::Brick(i));
            listings_hold_every_cell(t, b);
            if !explicit(t.nodes(), b) {
                let u = choose|u: UniformNode|
                    #[trigger] uniform_list(t.nodes(), 64).contains(u) && covers(u, b);
                assert(uniform_list(t.nodes(), 64).contains(u));
            }
            assert(l.contains((b, Cell::Brick(i))));
            let k = choose|k: int| 0 <= k < l.len() && l[k] == (b, Cell::Brick(i));
            assert(l[k].1 == Cell::Brick(i));
        }
        if slots.contains(i) {
            let k = choose|k: int|
                #![trigger l[k]]
                0 <= k < l.len() && l[k].1 == Cell::Brick(i);
            lemma_path(l[k].0);
            assert(t.cell_at(top(l[k].0), mid(l[k].0), low(l[k].0)) == Cell::Brick(i));
        }
    }
    assert(t.live() =~= slots.to_set());
    slots.unique_seq_to_set();
}

} // verus!
