//! The grid that erosion runs on: which cells a pipe joins, which cells feed
//! one another, and what decides whether a cell wears away.
//!
//! A virtual-pipe shallow water model moves rain across the terrain; flowing
//! water dissolves rock up to a transport capacity, carries it along and
//! deposits it where it slows. Slopes steeper than a talus angle collapse.
//! Every pass reads the previous state and writes a new one, so rows run in
//! any order with the same result.

use crate::grid::{cell_index, clamped, lemma_cell_index};
use crate::key::Key;
use vstd::prelude::*;

verus! {

/// The ways out of a cell.
#[derive(Clone, Copy, Debug, PartialEq, Eq, Structural)]
pub enum Pipe {
    Left,
    Right,
    /// Towards smaller y.
    Down,
    /// Towards larger y.
    Up,
}

impl Pipe {
    pub open spec fn dx(self) -> int {
        match self {
            Pipe::Left => -1,
            Pipe::Right => 1,
            _ => 0,
        }
    }

    pub open spec fn dy(self) -> int {
        match self {
            Pipe::Down => -1,
            Pipe::Up => 1,
            _ => 0,
        }
    }

    /// The same pipe from its other end.
    pub open spec fn back(self) -> Pipe {
        match self {
            Pipe::Left => Pipe::Right,
            Pipe::Right => Pipe::Left,
            Pipe::Down => Pipe::Up,
            Pipe::Up => Pipe::Down,
        }
    }

    pub fn opposite(self) -> (p: Pipe)
        ensures
            p == self.back(),
    {
        match self {
            Pipe::Left => Pipe::Right,
            Pipe::Right => Pipe::Left,
            Pipe::Down => Pipe::Up,
            Pipe::Up => Pipe::Down,
        }
    }
}

pub open spec fn inside(w: int, h: int, x: int, y: int) -> bool {
    0 <= x < w && 0 <= y < h
}

/// The cell at the other end of a pipe; none where it would leave the grid,
/// so no water does.
pub fn neighbour(w: usize, h: usize, x: usize, y: usize, p: Pipe) -> (r: Option<usize>)
    requires
        inside(w as int, h as int, x as int, y as int),
        w * h <= usize::MAX,
    ensures
        r is Some == inside(w as int, h as int, x + p.dx(), y + p.dy()),
        r matches Some(j) ==> j == cell_index(w as int, x + p.dx(), y + p.dy()) && j < w * h,
{
    let (nx, ny): (usize, usize) = match p {
        Pipe::Left => {
            if x == 0 {
                return None;
            }
            (x - 1, y)
        },
        Pipe::Right => {
            if x + 1 >= w {
                return None;
            }
            (x + 1, y)
        },
        Pipe::Down => {
            if y == 0 {
                return None;
            }
            (x, y - 1)
        },
        Pipe::Up => {
            if y + 1 >= h {
                return None;
            }
            (x, y + 1)
        },
    };
    proof {
        lemma_cell_index(w as int, h as int, nx as int, ny as int);
        assert(0 <= ny * w <= ny * w + nx);
    }
    Some(ny * w + nx)
}

/// Index of the cell at integer coordinates clamped to the grid.
pub fn clamp_xy(w: usize, h: usize, x: i64, y: i64) -> (i: usize)
    requires
        0 < w <= i64::MAX,
        0 < h <= i64::MAX,
        w * h <= usize::MAX,
    ensures
        i == cell_index(w as int, clamped(x as int, w as int), clamped(y as int, h as int)),
        i < w * h,
{
    let xc: usize = if x < 0 {
        0
    } else if x > w as i64 - 1 {
        w - 1
    } else {
        x as usize
    };
    let yc: usize = if y < 0 {
        0
    } else if y > h as i64 - 1 {
        h - 1
    } else {
        y as usize
    };
    proof {
        lemma_cell_index(w as int, h as int, xc as int, yc as int);
        assert(0 <= yc * w <= yc * w + xc);
    }
    yc * w + xc
}

/// The four cells around a point whose whole part is `(xi, yi)`, clamped to
/// the grid: this one, the next along x, the next along y, and both.
pub fn corners(w: usize, h: usize, xi: i64, yi: i64) -> (c: [usize; 4])
    requires
        0 < w <= i64::MAX,
        0 < h <= i64::MAX,
        w * h <= usize::MAX,
        xi < i64::MAX,
        yi < i64::MAX,
    ensures
        forall|k: int|
            0 <= k < 4 ==> #[trigger] c@[k] == cell_index(
                w as int,
                clamped(xi + k % 2, w as int),
                clamped(yi + k / 2, h as int),
            ) && c@[k] < w * h,
{
    [
        clamp_xy(w, h, xi, yi),
        clamp_xy(w, h, xi + 1, yi),
        clamp_xy(w, h, xi, yi + 1),
        clamp_xy(w, h, xi + 1, yi + 1),
    ]
}

/// What an iteration does besides moving water.
#[derive(Clone, Copy, Debug, PartialEq, Eq, Structural)]
pub struct Turn {
    /// Surface rock hardness is read again: it changes as layers are stripped.
    pub harden: bool,
    /// Steep slopes collapse.
    pub collapse: bool,
}

pub fn turn(iteration: u32) -> (t: Turn)
    ensures
        t.harden == (iteration % 25 == 0),
        t.collapse == (iteration % 4 == 0),
{
    Turn { harden: iteration % 25 == 0, collapse: iteration % 4 == 0 }
}

/// Outflow is scaled down where a cell would send more water than it holds.
pub fn overdrawn(total: Key, water: Key) -> (b: bool)
    ensures
        b == (total > water && total > 0),
{
    total > water && total > 0
}

/// Whether a cell wears away, or gains: the sea bed only receives sediment, so
/// rivers end in deltas.
pub fn wears(capacity: Key, sediment: Key, bed: Key, sea: Key) -> (b: bool)
    ensures
        b == (capacity > sediment && bed >= sea),
{
    capacity > sediment && bed >= sea
}

/// Which way rock slides between a cell and a neighbour.
#[derive(Clone, Copy, Debug, PartialEq, Eq, Structural)]
pub enum Slide {
    Stays,
    /// Out of the cell.
    Leaves,
    /// Into it.
    Arrives,
}

pub open spec fn slid(diff: Key, talus: Key) -> Slide {
    if diff > talus {
        Slide::Leaves
    } else if -diff > talus {
        Slide::Arrives
    } else {
        Slide::Stays
    }
}

/// How rock slides where a cell is `diff` higher than a neighbour.
pub fn slide(diff: Key, talus: Key) -> (s: Slide)
    requires
        diff > Key::MIN,
    ensures
        s == slid(diff, talus),
{
    if diff > talus {
        Slide::Leaves
    } else if -diff > talus {
        Slide::Arrives
    } else {
        Slide::Stays
    }
}

/// What one cell sends, its neighbour receives: seen from the other side the
/// same slope slides the other way.
pub proof fn slides_have_two_ends(diff: Key, talus: Key)
    requires
        diff > Key::MIN,
        talus >= 0,
    ensures
        slid(diff, talus) is Leaves <==> slid((-diff) as Key, talus) is Arrives,
        slid(diff, talus) is Stays <==> slid((-diff) as Key, talus) is Stays,
{
}

/// Every pipe has two ends: it leads back from the cell it leads to.
pub proof fn pipes_lead_back(w: int, h: int, x: int, y: int, p: Pipe)
    requires
        inside(w, h, x, y),
        inside(w, h, x + p.dx(), y + p.dy()),
    ensures
        p.back().back() == p,
        x + p.dx() + p.back().dx() == x,
        y + p.dy() + p.back().dy() == y,
{
}

/// What flows from one cell to another.
pub type Transfer = spec_fn(int, int, int, int) -> int;

/// What one end gives the other takes.
pub open spec fn balanced(t: Transfer) -> bool {
    forall|x: int, y: int, u: int, v: int| #[trigger] t(x, y, u, v) == -t(u, v, x, y)
}

/// What a cell sends to its neighbour along `p`, if it has one.
pub open spec fn sent(t: Transfer, w: int, h: int, x: int, y: int, p: Pipe) -> int {
    if inside(w, h, x + p.dx(), y + p.dy()) {
        t(x, y, x + p.dx(), y + p.dy())
    } else {
        0
    }
}

/// What a cell sends in all.
pub open spec fn sends(t: Transfer, w: int, h: int, x: int, y: int) -> int {
    sent(t, w, h, x, y, Pipe::Left) + sent(t, w, h, x, y, Pipe::Right) + sent(
        t,
        w,
        h,
        x,
        y,
        Pipe::Down,
    ) + sent(t, w, h, x, y, Pipe::Up)
}

/// What the first `n` cells of row `y` send.
pub open spec fn row_sends(t: Transfer, w: int, h: int, y: int, n: int) -> int
    decreases n,
{
    if n <= 0 {
        0
    } else {
        row_sends(t, w, h, y, n - 1) + sends(t, w, h, n - 1, y)
    }
}

/// What the first `n` rows send.
pub open spec fn grid_sends(t: Transfer, w: int, h: int, n: int) -> int
    decreases n,
{
    if n <= 0 {
        0
    } else {
        grid_sends(t, w, h, n - 1) + row_sends(t, w, h, n - 1, w)
    }
}

/// What the first `n` cells of row `y` send to the row `d` further.
spec fn across(t: Transfer, y: int, d: int, n: int) -> int
    decreases n,
{
    if n <= 0 {
        0
    } else {
        across(t, y, d, n - 1) + t(n - 1, y, n - 1, y + d)
    }
}

proof fn lemma_across(t: Transfer, y: int, n: int)
    requires
        balanced(t),
        n >= 0,
    ensures
        across(t, y, 1, n) == -across(t, y + 1, -1, n),
    decreases n,
{
    if n > 0 {
        lemma_across(t, y, n - 1);
        assert(t(n - 1, y, n - 1, y + 1) == -t(n - 1, y + 1, n - 1, y + 1 - 1));
    }
}

proof fn lemma_row(t: Transfer, w: int, h: int, y: int, n: int)
    requires
        balanced(t),
        0 <= n <= w,
        0 <= y < h,
    ensures
        row_sends(t, w, h, y, n) == (if 0 < n < w {
            t(n - 1, y, n, y)
        } else {
            0
        }) + (if y > 0 {
            across(t, y, -1, n)
        } else {
            0
        }) + (if y + 1 < h {
            across(t, y, 1, n)
        } else {
            0
        }),
    decreases n,
{
    if n > 0 {
        lemma_row(t, w, h, y, n - 1);
        let x = n - 1;
        assert(sent(t, w, h, x, y, Pipe::Left) == if x > 0 {
            t(x, y, x - 1, y)
        } else {
            0
        });
        assert(sent(t, w, h, x, y, Pipe::Right) == if n < w {
            t(x, y, n, y)
        } else {
            0
        });
        assert(sent(t, w, h, x, y, Pipe::Down) == if y > 0 {
            t(x, y, x, y - 1)
        } else {
            0
        });
        assert(sent(t, w, h, x, y, Pipe::Up) == if y + 1 < h {
            t(x, y, x, y + 1)
        } else {
            0
        });
        if x > 0 {
            assert(t(x - 1, y, x, y) == -t(x, y, x - 1, y));
        }
        assert(across(t, y, -1, n) == across(t, y, -1, x) + t(x, y, x, y - 1));
        assert(across(t, y, 1, n) == across(t, y, 1, x) + t(x, y, x, y + 1));
    }
}

proof fn lemma_rows(t: Transfer, w: int, h: int, n: int)
    requires
        balanced(t),
        0 <= n <= h,
        0 <= w,
    ensures
        grid_sends(t, w, h, n) == if 0 < n < h {
            across(t, n - 1, 1, w)
        } else {
            0
        },
    decreases n,
{
    if n > 0 {
        lemma_rows(t, w, h, n - 1);
        lemma_row(t, w, h, n - 1, w);
        if n > 1 {
            lemma_across(t, n - 2, w);
        }
    }
}

/// Mass is conserved: whatever slides or flows through the pipes, as long as
/// what one end gives the other takes, the cells of the grid send nothing in
/// all.
pub proof fn mass_is_conserved(t: Transfer, w: int, h: int)
    requires
        balanced(t),
        0 <= w,
        0 <= h,
    ensures
        grid_sends(t, w, h, h) == 0,
{
    lemma_rows(t, w, h, h);
}

} // verus!
