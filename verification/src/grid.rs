//! A dense rectangular container addressed by `(x, y)`.

use vstd::prelude::*;
use crate::position::Coord;

verus! {

/// A two dimensional rectangular grid, stored row by row: the cell `(x, y)`
/// lives at index `y * width + x`.
#[derive(Debug, Clone)]
pub struct Grid<T> {
    pub storage: Vec<T>,
    pub width: usize,
    pub height: usize,
}

/// The cells, row by row. The view holds the content alone: the shape is
/// read from the fields `width` and `height`, and `wf` ties the two together.
impl<T> View for Grid<T> {
    type V = Seq<T>;

    open spec fn view(&self) -> Seq<T> {
        self.storage@
    }
}

impl<T> Grid<T> {
    /// One cell for every coordinate pair.
    pub open spec fn wf(&self) -> bool {
        self@.len() == self.width * self.height
    }

    /// The cell `(x, y)` lies inside the grid.
    pub open spec fn in_bounds(&self, x: int, y: int) -> bool {
        0 <= x < self.width && 0 <= y < self.height
    }

    /// Where the cell `(x, y)` is stored.
    pub open spec fn spec_idx(&self, x: int, y: int) -> int {
        y * self.width + x
    }

    /// The content of cell `(x, y)`.
    pub open spec fn cell(&self, x: int, y: int) -> T {
        self@[self.spec_idx(x, y)]
    }

    /// Same dimensions, possibly different content.
    pub open spec fn same_shape(&self, other: &Self) -> bool {
        self.width == other.width && self.height == other.height && self@.len() == other@.len()
    }

    /// An in-bounds coordinate pair maps to a valid index, and distinct
    /// pairs to distinct indices.
    pub proof fn lemma_idx_bounds(&self, x: int, y: int)
        requires
            self.wf(),
            self.in_bounds(x, y),
        ensures
            0 <= self.spec_idx(x, y) < self@.len(),
            self.spec_idx(x, y) % (self.width as int) == x,
            self.spec_idx(x, y) / (self.width as int) == y,
    {
        let w = self.width as int;
        let h = self.height as int;
        assert(y * w + x < h * w) by (nonlinear_arith)
            requires
                0 <= x < w,
                0 <= y < h,
        ;
        assert(0 <= y * w) by (nonlinear_arith)
            requires
                0 <= y,
                0 <= w,
        ;
        vstd::arithmetic::div_mod::lemma_fundamental_div_mod_converse(y * w + x, w, y, x);
    }

    /// Every valid index is the image of exactly one in-bounds pair.
    pub proof fn lemma_idx_onto(&self, idx: int)
        requires
            self.wf(),
            0 <= idx < self@.len(),
        ensures
            self.width > 0,
            self.in_bounds(idx % (self.width as int), idx / (self.width as int)),
            self.spec_idx(idx % (self.width as int), idx / (self.width as int)) == idx,
    {
        let w = self.width as int;
        let h = self.height as int;
        assert(w > 0) by (nonlinear_arith)
            requires
                0 <= idx < w * h,
                w >= 0,
        ;
        vstd::arithmetic::div_mod::lemma_fundamental_div_mod(idx, w);
        let q = idx / w;
        let r = idx % w;
        assert(0 <= q < h) by (nonlinear_arith)
            requires
                idx == w * q + r,
                0 <= r < w,
                0 <= idx < w * h,
        ;
    }

    /// Replacing the content stored for `(x, y)` changes that cell and no
    /// other.
    pub proof fn lemma_update_cells(&self, after: &Self, x: int, y: int, value: T)
        requires
            self.wf(),
            self.in_bounds(x, y),
            after.width == self.width,
            after.height == self.height,
            after@ == self@.update(self.spec_idx(x, y), value),
        ensures
            after.wf(),
            forall|cx: int, cy: int|
                self.in_bounds(cx, cy) ==> #[trigger] after.cell(cx, cy) == (if cx == x && cy == y {
                    value
                } else {
                    self.cell(cx, cy)
                }),
    {
        self.lemma_idx_bounds(x, y);
        assert forall|cx: int, cy: int| self.in_bounds(cx, cy) implies #[trigger] after.cell(cx, cy) == (if cx
            == x && cy == y {
            value
        } else {
            self.cell(cx, cy)
        }) by {
            self.lemma_idx_bounds(cx, cy);
        }
    }

    /// The index of an in-bounds cell.
    pub fn to_idx(&self, x: i32, y: i32) -> (idx: usize)
        requires
            self.wf(),
            self.in_bounds(x as int, y as int),
        ensures
            idx == self.spec_idx(x as int, y as int),
            idx < self@.len(),
    {
        let n: usize = self.storage.len();
        proof {
            self.lemma_idx_bounds(x as int, y as int);
            assert(0 <= y * self.width) by (nonlinear_arith)
                requires
                    y >= 0,
                    self.width >= 0,
            ;
            assert(y * self.width + x < n);
        }
        y as usize * self.width + x as usize
    }

    /// The index of a cell, or `None` for coordinates outside the grid.
    pub fn try_to_idx(&self, x: i32, y: i32) -> (r: Option<usize>)
        requires
            self.wf(),
        ensures
            r.is_some() <==> self.in_bounds(x as int, y as int),
            r.is_some() ==> r.unwrap() == self.spec_idx(x as int, y as int),
            r.is_some() ==> r.unwrap() < self@.len(),
    {
        if x < 0 || y < 0 {
            return None;
        }
        let ux: usize = x as usize;
        let uy: usize = y as usize;
        if ux >= self.width || uy >= self.height {
            return None;
        }
        Some(self.to_idx(x, y))
    }

    /// The coordinates of the cell stored at `idx`.
    pub fn to_pos(&self, idx: usize) -> (p: Coord)
        requires
            0 < self.width <= i32::MAX,
            idx <= i32::MAX,
        ensures
            p.x == idx % self.width,
            p.y == idx / self.width,
    {
        Coord { x: (idx % self.width) as i32, y: (idx / self.width) as i32 }
    }

    /// The cell at `(x, y)`, or `None` outside the grid.
    pub fn get(&self, x: i32, y: i32) -> (r: Option<&T>)
        requires
            self.wf(),
        ensures
            r == (if self.in_bounds(x as int, y as int) {
                Some(&self.cell(x as int, y as int))
            } else {
                None
            }),
    {
        match self.try_to_idx(x, y) {
            Some(idx) => Some(&self.storage[idx]),
            None => None,
        }
    }

    /// Mutable access to the cell at `(x, y)`, or `None` outside the grid.
    /// Whatever the caller writes through the reference is the only change.
    pub fn get_mut(&mut self, x: i32, y: i32) -> (r: Option<&mut T>)
        requires
            old(self).wf(),
        ensures
            final(self).width == old(self).width,
            final(self).height == old(self).height,
            old(self).in_bounds(x as int, y as int) <==> r.is_some(),
            match r {
                Some(c) => *c == old(self).cell(x as int, y as int) && final(self)@ == old(self)@.update(
                    old(self).spec_idx(x as int, y as int),
                    *final(c),
                ),
                None => final(self)@ == old(self)@,
            },
    {
        match self.try_to_idx(x, y) {
            Some(idx) => Some(&mut self.storage[idx]),
            None => None,
        }
    }

    /// Overwrites the cell at `(x, y)`; does nothing outside the grid.
    pub fn set(&mut self, x: i32, y: i32, value: T)
        requires
            old(self).wf(),
        ensures
            final(self).wf(),
            final(self).width == old(self).width,
            final(self).height == old(self).height,
            final(self)@ == (if old(self).in_bounds(x as int, y as int) {
                old(self)@.update(old(self).spec_idx(x as int, y as int), value)
            } else {
                old(self)@
            }),
            forall|cx: int, cy: int|
                old(self).in_bounds(cx, cy) ==> #[trigger] final(self).cell(cx, cy) == (if cx == x && cy
                    == y {
                    value
                } else {
                    old(self).cell(cx, cy)
                }),
    {
        match self.try_to_idx(x, y) {
            Some(idx) => {
                self.storage.set(idx, value);
                proof {
                    old(self).lemma_idx_bounds(x as int, y as int);
                    assert forall|cx: int, cy: int| old(self).in_bounds(cx, cy) implies #[trigger] self.cell(
                        cx,
                        cy,
                    ) == (if cx == x && cy == y {
                        value
                    } else {
                        old(self).cell(cx, cy)
                    }) by {
                        old(self).lemma_idx_bounds(cx, cy);
                    }
                }
            },
            None => {},
        }
    }

    /// The cell at point `p`, which must lie inside the grid.
    pub fn index(&self, p: Coord) -> (r: &T)
        requires
            self.wf(),
            self.in_bounds(p.x as int, p.y as int),
        ensures
            *r == self.cell(p.x as int, p.y as int),
    {
        let idx = self.to_idx(p.x, p.y);
        &self.storage[idx]
    }

    /// Mutable access to the cell at point `p`, which must lie inside the
    /// grid.
    pub fn index_mut(&mut self, p: Coord) -> (r: &mut T)
        requires
            old(self).wf(),
            old(self).in_bounds(p.x as int, p.y as int),
        ensures
            final(self).width == old(self).width,
            final(self).height == old(self).height,
            *r == old(self).cell(p.x as int, p.y as int),
            final(self)@ == old(self)@.update(old(self).spec_idx(p.x as int, p.y as int), *final(r)),
    {
        let idx = self.to_idx(p.x, p.y);
        &mut self.storage[idx]
    }
}

impl<T: Clone> Grid<T> {
    /// A grid of `width` by `height` cells, each a clone of `elem`.
    pub fn new(elem: T, width: usize, height: usize) -> (g: Self)
        requires
            width * height <= usize::MAX,
        ensures
            g.wf(),
            g.width == width,
            g.height == height,
            forall|i: int| 0 <= i < g@.len() ==> cloned(elem, #[trigger] g@[i]),
    {
        let n: usize = width * height;
        let mut storage: Vec<T> = Vec::with_capacity(n);
        let mut i: usize = 0;
        while i < n
            invariant
                i <= n,
                storage@.len() == i,
                forall|k: int| 0 <= k < i ==> cloned(elem, #[trigger] storage@[k]),
            decreases n - i,
        {
            storage.push(elem.clone());
            i += 1;
        }
        Grid { storage, width, height }
    }

    /// Overwrites every cell with a clone of `value`.
    pub fn fill(&mut self, value: T)
        ensures
            final(self).same_shape(old(self)),
            forall|i: int| 0 <= i < final(self)@.len() ==> cloned(value, #[trigger] final(self)@[i]),
    {
        let n: usize = self.storage.len();
        let mut i: usize = 0;
        while i < n
            invariant
                i <= n,
                n == self.storage@.len(),
                self.same_shape(old(self)),
                forall|k: int| 0 <= k < i ==> cloned(value, #[trigger] self.storage@[k]),
            decreases n - i,
        {
            self.storage.set(i, value.clone());
            i += 1;
        }
    }
}

impl<T: Default> Grid<T> {
    /// A grid of `width` by `height` cells, each the default value of `T`.
    pub fn default(width: usize, height: usize) -> (g: Self)
        requires
            width * height <= usize::MAX,
        ensures
            g.wf(),
            g.width == width,
            g.height == height,
            forall|i: int| 0 <= i < g@.len() ==> call_ensures(T::default, (), #[trigger] g@[i]),
    {
        let n: usize = width * height;
        let mut storage: Vec<T> = Vec::with_capacity(n);
        let mut i: usize = 0;
        while i < n
            invariant
                i <= n,
                storage@.len() == i,
                forall|k: int| 0 <= k < i ==> call_ensures(T::default, (), #[trigger] storage@[k]),
            decreases n - i,
        {
            storage.push(T::default());
            i += 1;
        }
        Grid { storage, width, height }
    }

    /// Overwrites every cell with the default value of `T`.
    pub fn reset(&mut self)
        ensures
            final(self).same_shape(old(self)),
            forall|i: int|
                0 <= i < final(self)@.len() ==> call_ensures(T::default, (), #[trigger] final(self)@[i]),
    {
        let n: usize = self.storage.len();
        let mut i: usize = 0;
        while i < n
            invariant
                i <= n,
                n == self.storage@.len(),
                self.same_shape(old(self)),
                forall|k: int| 0 <= k < i ==> call_ensures(T::default, (), #[trigger] self.storage@[k]),
            decreases n - i,
        {
            self.storage.set(i, T::default());
            i += 1;
        }
    }
}

} // verus!
