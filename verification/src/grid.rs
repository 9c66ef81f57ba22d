//! Dense 2D grids with clamped access.

use vstd::prelude::*;

verus! {

#[derive(Clone, Debug)]
pub struct Grid2<T> {
    pub w: usize,
    pub h: usize,
    pub data: Vec<T>,
}

/// Index of `(x, y)` in rows of `w`.
pub open spec fn cell_index(w: int, x: int, y: int) -> int {
    y * w + x
}

/// `x` moved to the nearest of `0..n`.
pub open spec fn clamped(x: int, n: int) -> int {
    if x < 0 {
        0
    } else if x > n - 1 {
        n - 1
    } else {
        x
    }
}

/// A place in the grid has an index in its data.
pub proof fn lemma_cell_index(w: int, h: int, x: int, y: int)
    requires
        0 <= x < w,
        0 <= y < h,
    ensures
        0 <= cell_index(w, x, y) < w * h,
{
    assert(0 <= y * w + x < w * h) by (nonlinear_arith)
        requires
            0 <= x < w,
            0 <= y < h,
    ;
}

/// Places of one grid have indices of their own.
pub proof fn indices_are_apart(w: int, x: int, y: int, x2: int, y2: int)
    requires
        0 <= x < w,
        0 <= x2 < w,
        cell_index(w, x, y) == cell_index(w, x2, y2),
    ensures
        x == x2,
        y == y2,
{
    vstd::arithmetic::div_mod::lemma_fundamental_div_mod_converse(y * w + x, w, y, x);
    vstd::arithmetic::div_mod::lemma_fundamental_div_mod_converse(y2 * w + x2, w, y2, x2);
}

impl<T: Copy> Grid2<T> {
    pub open spec fn wf(&self) -> bool {
        self.data@.len() == self.w * self.h
    }

    /// The value at `(x, y)`.
    pub open spec fn value(&self, x: int, y: int) -> T {
        self.data@[cell_index(self.w as int, x, y)]
    }

    pub fn new(w: usize, h: usize, value: T) -> (g: Self)
        requires
            w * h <= usize::MAX,
        ensures
            g.wf(),
            g.w == w,
            g.h == h,
            forall|k: int| 0 <= k < w * h ==> #[trigger] g.data@[k] == value,
    {
        let mut data: Vec<T> = Vec::new();
        let n: usize = w * h;
        let mut k: usize = 0;
        while k < n
            invariant
                k <= n,
                data@.len() == k,
                forall|j: int| 0 <= j < k ==> #[trigger] data@[j] == value,
            decreases n - k,
        {
            data.push(value);
            k += 1;
        }
        Grid2 { w, h, data }
    }

    #[inline]
    pub fn idx(&self, x: usize, y: usize) -> (i: usize)
        requires
            self.wf(),
            x < self.w,
            y < self.h,
        ensures
            i == cell_index(self.w as int, x as int, y as int),
            i < self.data@.len(),
    {
        let n: usize = self.data.len();
        proof {
            lemma_cell_index(self.w as int, self.h as int, x as int, y as int);
            let (gy, gw) = (y as int, self.w as int);
            assert(0 <= gy * gw) by (nonlinear_arith)
                requires
                    gy >= 0,
                    gw >= 0,
            ;
            assert(y * self.w + x < n);
        }
        y * self.w + x
    }

    #[inline]
    pub fn get(&self, x: usize, y: usize) -> (v: T)
        requires
            self.wf(),
            x < self.w,
            y < self.h,
        ensures
            v == self.value(x as int, y as int),
    {
        self.data[self.idx(x, y)]
    }

    #[inline]
    pub fn set(&mut self, x: usize, y: usize, v: T)
        requires
            old(self).wf(),
            x < old(self).w,
            y < old(self).h,
        ensures
            final(self).wf(),
            final(self).w == old(self).w,
            final(self).h == old(self).h,
            final(self).data@ == old(self).data@.update(
                cell_index(old(self).w as int, x as int, y as int),
                v,
            ),
    {
        let i: usize = self.idx(x, y);
        self.data[i] = v;
    }

    /// Value at integer coordinates clamped to the grid.
    #[inline]
    pub fn at(&self, x: i64, y: i64) -> (v: T)
        requires
            self.wf(),
            0 < self.w <= i64::MAX,
            0 < self.h <= i64::MAX,
        ensures
            v == self.value(clamped(x as int, self.w as int), clamped(y as int, self.h as int)),
    {
        let xc: usize = if x < 0 {
            0
        } else if x > self.w as i64 - 1 {
            self.w - 1
        } else {
            x as usize
        };
        let yc: usize = if y < 0 {
            0
        } else if y > self.h as i64 - 1 {
            self.h - 1
        } else {
            y as usize
        };
        self.get(xc, yc)
    }
}

/// Clamping keeps what is within and moves what is not to the nearer edge.
pub proof fn clamping_goes_to_the_nearer_edge(x: int, n: int)
    requires
        n > 0,
    ensures
        0 <= clamped(x, n) < n,
        0 <= x < n ==> clamped(x, n) == x,
        x < 0 ==> clamped(x, n) == 0,
        x >= n ==> clamped(x, n) == n - 1,
{
}

/// Rows follow one another: a step along x is one place, along y a row.
pub proof fn rows_follow_one_another(w: int, x: int, y: int)
    ensures
        cell_index(w, x + 1, y) == cell_index(w, x, y) + 1,
        cell_index(w, x, y + 1) == cell_index(w, x, y) + w,
        cell_index(w, 0, 0) == 0,
{
    assert((y + 1) * w == y * w + w) by (nonlinear_arith);
    assert(0 * w == 0);
}

} // verus!
