//! The grid occupancy oracle.
//!
//! A dedicated logical grid of free/occupied cells, independent of any
//! pixel buffer: the movement resolver queries and marks it, and the
//! occupied cells are projected to pixels only at render time, outside
//! this crate's core.  Queries outside the grid report "occupied" (fail
//! safe), so out-of-range cells can never be committed to.

use crate::common::lemma_area_fits;
use vstd::prelude::*;

verus! {

/// Is `(x, y)` inside a `w`-by-`h` grid?
pub open spec fn in_bounds(w: int, h: int, x: int, y: int) -> bool {
    0 <= x < w && 0 <= y < h
}

/// A cell the oracle reports free: inside the grid and not yet occupied.
pub open spec fn cell_free(occ: Set<(int, int)>, w: int, h: int, c: (int, int)) -> bool {
    in_bounds(w, h, c.0, c.1) && !occ.contains(c)
}

/// A cell's offset in the row-major backing vector.
pub open spec fn flat_index(w: int, x: int, y: int) -> int {
    y * w + x
}

/// A row-major offset stays inside the backing vector.
proof fn lemma_flat_index_bounds(w: int, h: int, x: int, y: int)
    requires
        in_bounds(w, h, x, y),
    ensures
        0 <= flat_index(w, x, y) < w * h,
{
    assert(0 <= y * w + x < w * h) by (nonlinear_arith)
        requires
            0 <= x < w,
            0 <= y < h,
    ;
}

/// Two distinct in-bounds cells never share a row-major offset.
proof fn lemma_flat_index_injective(w: int, h: int, x1: int, y1: int, x2: int, y2: int)
    requires
        in_bounds(w, h, x1, y1),
        in_bounds(w, h, x2, y2),
        flat_index(w, x1, y1) == flat_index(w, x2, y2),
    ensures
        x1 == x2 && y1 == y2,
{
    assert(y1 == y2) by (nonlinear_arith)
        requires
            0 <= x1 < w,
            0 <= x2 < w,
            y1 * w + x1 == y2 * w + x2,
    ;
}

/// The occupancy oracle: one bit per cell of a fixed-size grid,
/// row-major.
pub struct OccupancyGrid {
    width: u16,
    height: u16,
    cells: Vec<bool>,
}

impl OccupancyGrid {
    /// The backing vector covers the whole grid.
    pub closed spec fn wf(self) -> bool {
        self.cells@.len() == self.width * self.height
    }

    pub closed spec fn spec_width(self) -> int {
        self.width as int
    }

    pub closed spec fn spec_height(self) -> int {
        self.height as int
    }

    /// The set of occupied cells.
    pub closed spec fn occ(self) -> Set<(int, int)> {
        Set::new(
            |c: (int, int)|
                in_bounds(self.width as int, self.height as int, c.0, c.1) && self.cells@[
                    flat_index(self.width as int, c.0, c.1)
                ],
        )
    }

    /// A fresh grid with every cell free.
    pub fn new(width: u16, height: u16) -> (r: Self)
        ensures
            r.wf(),
            r.spec_width() == width,
            r.spec_height() == height,
            r.occ() == Set::<(int, int)>::empty(),
    {
        proof {
            lemma_area_fits(width as int, height as int);
        }
        let area: usize = (width as usize) * (height as usize);
        let mut cells: Vec<bool> = Vec::new();
        let mut i: usize = 0;
        while i < area
            invariant
                i <= area,
                cells@.len() == i,
                forall|j: int| 0 <= j < i ==> !(#[trigger] cells@[j]),
            decreases area - i,
        {
            cells.push(false);
            i = i + 1;
        }
        let r = OccupancyGrid { width, height, cells };
        proof {
            assert forall|c: (int, int)| !r.occ().contains(c) by {
                if in_bounds(width as int, height as int, c.0, c.1) {
                    lemma_flat_index_bounds(width as int, height as int, c.0, c.1);
                }
            }
            assert(r.occ() =~= Set::<(int, int)>::empty());
        }
        r
    }

    pub fn width(&self) -> (r: u16)
        ensures
            r == self.spec_width(),
    {
        self.width
    }

    pub fn height(&self) -> (r: u16)
        ensures
            r == self.spec_height(),
    {
        self.height
    }

    /// Does the oracle report `(x, y)` free?  Cells outside the grid are
    /// never free.
    pub fn is_free(&self, x: i64, y: i64) -> (r: bool)
        requires
            self.wf(),
        ensures
            r == cell_free(
                self.occ(),
                self.spec_width(),
                self.spec_height(),
                (x as int, y as int),
            ),
    {
        if x < 0 || y < 0 || x >= self.width as i64 || y >= self.height as i64 {
            return false;
        }
        proof {
            lemma_area_fits(self.width as int, self.height as int);
            lemma_flat_index_bounds(self.width as int, self.height as int, x as int, y as int);
        }
        let idx: usize = (y as usize) * (self.width as usize) + (x as usize);
        !self.cells[idx]
    }

    /// Mark `(x, y)` occupied.
    pub fn occupy(&mut self, x: i64, y: i64)
        requires
            old(self).wf(),
            in_bounds(old(self).spec_width(), old(self).spec_height(), x as int, y as int),
        ensures
            final(self).wf(),
            final(self).spec_width() == old(self).spec_width(),
            final(self).spec_height() == old(self).spec_height(),
            final(self).occ() == old(self).occ().insert((x as int, y as int)),
    {
        proof {
            lemma_area_fits(self.width as int, self.height as int);
            lemma_flat_index_bounds(self.width as int, self.height as int, x as int, y as int);
        }
        let idx: usize = (y as usize) * (self.width as usize) + (x as usize);
        self.cells.set(idx, true);
        proof {
            let w = self.width as int;
            let h = self.height as int;
            assert forall|c: (int, int)|
                self.occ().contains(c) == old(self).occ().insert(
                    (x as int, y as int),
                ).contains(c) by {
                if c != (x as int, y as int) && in_bounds(w, h, c.0, c.1) {
                    lemma_flat_index_bounds(w, h, c.0, c.1);
                    if flat_index(w, c.0, c.1) == flat_index(w, x as int, y as int) {
                        lemma_flat_index_injective(w, h, c.0, c.1, x as int, y as int);
                    }
                }
            }
            assert(self.occ() =~= old(self).occ().insert((x as int, y as int)));
        }
    }
}

} // verus!
