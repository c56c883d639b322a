//! Funge-Space: a rectangular store of cells addressed by `i32` coordinates
//! that may be negative.  Reading outside the current box yields the blank
//! cell without allocating; writing outside grows the box to include the
//! written point; writing a blank on a boundary shrinks the box back past
//! any all-blank boundary rows and columns.

use vstd::prelude::*;

use crate::bounds::Bounds;
use crate::cell::BLANK;

verus! {

pub struct Grid {
    rows: Vec<Vec<i32>>,
    bounds: Bounds,
}

/// The mathematical content of a grid: the stored rectangle and where its
/// north-west corner sits.
pub ghost struct GridView {
    pub cells: Seq<Seq<i32>>,
    pub lx: int,
    pub ly: int,
}

impl GridView {
    pub open spec fn height(self) -> int {
        self.cells.len() as int
    }

    pub open spec fn width(self) -> int {
        if self.cells.len() == 0 {
            0
        } else {
            self.cells[0].len() as int
        }
    }

    pub open spec fn ux(self) -> int {
        self.lx + self.width()
    }

    pub open spec fn uy(self) -> int {
        self.ly + self.height()
    }

    /// A well-formed grid is a non-empty rectangle of equal-width rows whose
    /// box stays inside the `i32` coordinate window.
    pub open spec fn wf(self) -> bool {
        &&& self.height() >= 1
        &&& self.width() >= 1
        &&& forall|r: int|
            0 <= r < self.cells.len() ==> (#[trigger] self.cells[r]).len() == self.width()
        &&& -0x8000_0000 <= self.lx
        &&& self.ux() <= 0x8000_0000
        &&& -0x8000_0000 <= self.ly
        &&& self.uy() <= 0x8000_0000
    }

    pub open spec fn in_bounds(self, x: int, y: int) -> bool {
        self.lx <= x < self.ux() && self.ly <= y < self.uy()
    }

    /// The cell at `(x, y)`: the stored value inside the box, blank outside.
    pub open spec fn at(self, x: int, y: int) -> i32 {
        if self.in_bounds(x, y) {
            self.cells[y - self.ly][x - self.lx]
        } else {
            BLANK
        }
    }
}

/// The cell a source text puts at `(x, y)`: the byte of line `y` at column
/// `x`, zero-extended, or blank where the text has no byte.
pub open spec fn source_cell(lines: Seq<Vec<u8>>, x: int, y: int) -> i32 {
    if 0 <= y < lines.len() && 0 <= x < lines[y]@.len() {
        lines[y]@[x] as i32
    } else {
        BLANK
    }
}

/// Every cell of column `x`, over all of space, is blank.
pub open spec fn col_all_blank(g: GridView, x: int) -> bool {
    forall|y: int| #[trigger] g.at(x, y) == BLANK
}

/// Every cell of row `y`, over all of space, is blank.
pub open spec fn row_all_blank(g: GridView, y: int) -> bool {
    forall|x: int| #[trigger] g.at(x, y) == BLANK
}

/// The 0-based index of the first column at or after `i` holding a
/// non-blank cell — the least point's column when scanned from 0 — or 0
/// when every remaining column is blank.
pub open spec fn first_nonblank_col(g: GridView, i: int) -> int
    decreases g.width() - i,
{
    if i < 0 || i >= g.width() {
        0
    } else if !col_all_blank(g, g.lx + i) {
        i
    } else {
        first_nonblank_col(g, i + 1)
    }
}

/// The 0-based index of the first row at or after `i` holding a non-blank
/// cell, or 0 when every remaining row is blank.
pub open spec fn first_nonblank_row(g: GridView, i: int) -> int
    decreases g.height() - i,
{
    if i < 0 || i >= g.height() {
        0
    } else if !row_all_blank(g, g.ly + i) {
        i
    } else {
        first_nonblank_row(g, i + 1)
    }
}

/// The 0-based index of the last column at or before `i` holding a
/// non-blank cell — the greatest point's column when scanned from the east
/// edge — or 0 when every earlier column is blank.
pub open spec fn last_nonblank_col(g: GridView, i: int) -> int
    decreases i + 1,
{
    if i < 0 || i >= g.width() {
        0
    } else if !col_all_blank(g, g.lx + i) {
        i
    } else {
        last_nonblank_col(g, i - 1)
    }
}

/// The 0-based index of the last row at or before `i` holding a non-blank
/// cell, or 0 when every earlier row is blank.
pub open spec fn last_nonblank_row(g: GridView, i: int) -> int
    decreases i + 1,
{
    if i < 0 || i >= g.height() {
        0
    } else if !row_all_blank(g, g.ly + i) {
        i
    } else {
        last_nonblank_row(g, i - 1)
    }
}

/// Both grids hold the same cell at every coordinate of space.
pub open spec fn same_cells(a: GridView, b: GridView) -> bool {
    forall|x: int, y: int| #[trigger] a.at(x, y) == #[trigger] b.at(x, y)
}

impl View for Grid {
    type V = GridView;

    closed spec fn view(&self) -> GridView {
        GridView {
            cells: self.rows@.map_values(|r: Vec<i32>| r@),
            lx: self.bounds.lx as int,
            ly: self.bounds.ly as int,
        }
    }
}

impl Grid {
    /// The stored rectangle matches the bounds box.
    pub closed spec fn inv(self) -> bool {
        &&& self@.wf()
        &&& self.bounds.lx == self@.lx
        &&& self.bounds.ly == self@.ly
        &&& self.bounds.ux == self@.ux()
        &&& self.bounds.uy == self@.uy()
    }

    /// The box enclosing the stored rectangle.
    pub fn get_bounds(&self) -> (r: Bounds)
        requires
            self.inv(),
        ensures
            r == (Bounds { lx: self@.lx as i64, ly: self@.ly as i64, ux: self@.ux() as i64, uy: self@.uy() as i64 }),
            r.wf(),
    {
        self.bounds
    }

    /// True when the coordinates fall outside the box.
    pub fn out_of_bounds(&self, pos: (i32, i32)) -> (r: bool)
        requires
            self.inv(),
        ensures
            r <==> !self@.in_bounds(pos.0 as int, pos.1 as int),
    {
        self.bounds.out_of_bounds((pos.0 as i64, pos.1 as i64))
    }

    /// The number of rows of the stored rectangle.
    pub fn len(&self) -> (r: usize)
        requires
            self.inv(),
        ensures
            r == self@.height(),
    {
        self.rows.len()
    }

    /// Reads the cell at `pos`; outside the box this is blank and the grid
    /// is left untouched.
    pub fn get_cell(&self, pos: (i32, i32)) -> (r: i32)
        requires
            self.inv(),
        ensures
            r == self@.at(pos.0 as int, pos.1 as int),
    {
        if self.bounds.out_of_bounds((pos.0 as i64, pos.1 as i64)) {
            BLANK
        } else {
            proof {
                assert(self@.cells.len() == self.rows@.len());
                assert(0 <= pos.1 - self@.ly < self.rows@.len());
                assert(self@.cells[pos.1 - self@.ly] == self.rows@[pos.1 - self@.ly]@);
            }
            let yi = (pos.1 as i64 - self.bounds.ly) as usize;
            let xi = (pos.0 as i64 - self.bounds.lx) as usize;
            self.rows[yi][xi]
        }
    }

    /// Writes `v` at `pos`, growing the box when the point lies outside it
    /// and shrinking all-blank boundary lines away after a blank write on a
    /// boundary.  Every other coordinate of space keeps its cell.
    pub fn put_cell(&mut self, pos: (i32, i32), v: i32)
        requires
            old(self).inv(),
        ensures
            final(self).inv(),
            final(self)@.at(pos.0 as int, pos.1 as int) == v,
            forall|i: int, j: int|
                !(i == pos.0 as int && j == pos.1 as int) ==> final(self)@.at(i, j) == old(self)@.at(i, j),
            v != BLANK ==> final(self)@.in_bounds(pos.0 as int, pos.1 as int),
            v != BLANK ==> final(self)@.lx == spec_min(old(self)@.lx, pos.0 as int) && final(self)@.ux() == spec_max(old(self)@.ux(), pos.0 + 1) && final(self)@.ly == spec_min(
                old(self)@.ly,
                pos.1 as int,
            ) && final(self)@.uy() == spec_max(old(self)@.uy(), pos.1 + 1),
            v == BLANK && pos.0 > old(self)@.lx ==> final(self)@.lx == spec_min(
                old(self)@.lx,
                pos.0 as int,
            ),
            v == BLANK && pos.0 + 1 < old(self)@.ux() ==> final(self)@.ux() == spec_max(
                old(self)@.ux(),
                pos.0 + 1,
            ),
            v == BLANK && pos.1 > old(self)@.ly ==> final(self)@.ly == spec_min(
                old(self)@.ly,
                pos.1 as int,
            ),
            v == BLANK && pos.1 + 1 < old(self)@.uy() ==> final(self)@.uy() == spec_max(
                old(self)@.uy(),
                pos.1 + 1,
            ),
            v == BLANK && pos.0 <= old(self)@.lx && final(self)@.width() > 1 ==> !col_all_blank(
                final(self)@,
                final(self)@.lx,
            ),
            v == BLANK && pos.0 + 1 >= old(self)@.ux() && final(self)@.width() > 1
                ==> !col_all_blank(final(self)@, final(self)@.ux() - 1),
            v == BLANK && pos.1 <= old(self)@.ly && final(self)@.height() > 1 ==> !row_all_blank(
                final(self)@,
                final(self)@.ly,
            ),
            v == BLANK && pos.1 + 1 >= old(self)@.uy() && final(self)@.height() > 1
                ==> !row_all_blank(final(self)@, final(self)@.uy() - 1),
    {
        let ghost g0 = old(self)@;
        let (x, y) = pos;
        if (y as i64) < self.bounds.ly {
            let k: u64 = (self.bounds.ly - y as i64) as u64;
            self.grow_north(k);
        } else if (y as i64) >= self.bounds.uy {
            let k: u64 = (y as i64 - self.bounds.uy + 1) as u64;
            self.grow_south(k);
        }
        let ghost ga = self@;
        proof {
            assert(same_cells(ga, g0));
        }
        if (x as i64) < self.bounds.lx {
            let k: u64 = (self.bounds.lx - x as i64) as u64;
            self.grow_west(k);
        } else if (x as i64) >= self.bounds.ux {
            let k: u64 = (x as i64 - self.bounds.ux + 1) as u64;
            self.grow_east(k);
        }
        let ghost gb = self@;
        proof {
            assert(same_cells(gb, ga));
            lemma_same_cells_trans(gb, ga, g0);
        }
        self.set_stored(x, y, v);
        let ghost gc = self@;
        if v == BLANK {
            self.shrink(pos);
        }
        proof {
            let gf = self@;
            assert forall|i: int, j: int|
                !(i == x as int && j == y as int) implies gf.at(i, j) == g0.at(i, j) by {
                assert(gf.at(i, j) == gc.at(i, j));
                assert(gc.at(i, j) == gb.at(i, j));
                assert(gb.at(i, j) == g0.at(i, j));
            }
            assert(gf.at(x as int, y as int) == gc.at(x as int, y as int));
        }
    }

    /// Overwrites a cell that already lies inside the box.
    fn set_stored(&mut self, x: i32, y: i32, v: i32)
        requires
            old(self).inv(),
            old(self)@.in_bounds(x as int, y as int),
        ensures
            final(self).inv(),
            final(self)@.lx == old(self)@.lx,
            final(self)@.ly == old(self)@.ly,
            final(self)@.width() == old(self)@.width(),
            final(self)@.height() == old(self)@.height(),
            final(self)@.at(x as int, y as int) == v,
            forall|i: int, j: int|
                !(i == x as int && j == y as int) ==> final(self)@.at(i, j) == old(self)@.at(i, j),
    {
        proof {
            assert(self@.cells.len() == self.rows@.len());
            assert(0 <= y - self@.ly < self.rows@.len());
            assert(self@.cells[y - self@.ly] == self.rows@[y - self@.ly]@);
        }
        let yi = (y as i64 - self.bounds.ly) as usize;
        let xi = (x as i64 - self.bounds.lx) as usize;
        let ghost rows0 = self.rows@;
        let mut row = self.rows.remove(yi);
        let ghost row0 = row@;
        row.remove(xi);
        row.insert(xi, v);
        self.rows.insert(yi, row);
        proof {
            let g0 = old(self)@;
            let g1 = self@;
            assert(row@ =~= row0.update(x - g0.lx, v));
            assert(self.rows@ =~= rows0.update(y - g0.ly, row));
            assert(g1.cells =~= g0.cells.update(
                y - g0.ly,
                g0.cells[y - g0.ly].update(x - g0.lx, v),
            ));
            assert forall|i: int, j: int|
                !(i == x as int && j == y as int) implies g1.at(i, j) == g0.at(i, j) by {
                if g0.in_bounds(i, j) {
                    assert(g1.cells[j - g1.ly] =~= if j == y as int {
                        g0.cells[j - g0.ly].update(x - g0.lx, v)
                    } else {
                        g0.cells[j - g0.ly]
                    });
                }
            }
        }
    }

    /// Adds `k` blank rows above the rectangle.
    fn grow_north(&mut self, k: u64)
        requires
            old(self).inv(),
            old(self)@.ly - k >= -0x8000_0000,
        ensures
            final(self).inv(),
            same_cells(final(self)@, old(self)@),
            final(self)@.lx == old(self)@.lx,
            final(self)@.ly == old(self)@.ly - k,
            final(self)@.width() == old(self)@.width(),
            final(self)@.uy() == old(self)@.uy(),
    {
        let w = self.rows[0].len();
        let mut fresh: Vec<Vec<i32>> = Vec::new();
        let mut j: u64 = 0;
        while j < k
            invariant
                j <= k,
                fresh@.len() == j,
                forall|r: int|
                    0 <= r < fresh@.len() ==> (#[trigger] fresh@[r])@ =~= blank_seq(w as nat),
                w == old(self)@.width(),
            decreases k - j,
        {
            fresh.push(blank_row(w));
            j = j + 1;
        }
        let ghost fresh_rows = fresh@;
        let ghost old_rows = self.rows@;
        fresh.append(&mut self.rows);
        let ghost new_rows = fresh@;
        self.rows = fresh;
        let ly = self.bounds.ly - k as i64;
        self.bounds.set_lower_y(ly);
        proof {
            let g0 = old(self)@;
            let g1 = self@;
            assert(self.rows@ == new_rows);
            assert(new_rows == fresh_rows + old_rows);
            assert(g1.cells.len() == k + g0.cells.len());
            assert forall|r: int|
                0 <= r < g1.cells.len() implies (#[trigger] g1.cells[r]).len() == g0.width() by {
                assert(g1.cells[r] == new_rows[r]@);
                if r < k {
                    assert(new_rows[r] == fresh_rows[r]);
                    assert(fresh_rows[r]@ =~= blank_seq(w as nat));
                } else {
                    assert(new_rows[r] == old_rows[r - k]);
                    assert(g0.cells[r - k] == old_rows[r - k]@);
                }
            }
            assert forall|x: int, y: int| #[trigger] g1.at(x, y) == #[trigger] g0.at(x, y) by {
                if g0.in_bounds(x, y) {
                    assert(g1.cells[y - g1.ly] == new_rows[y - g1.ly]@);
                    assert(new_rows[y - g1.ly] == old_rows[y - g0.ly]);
                    assert(g0.cells[y - g0.ly] == old_rows[y - g0.ly]@);
                } else if g1.in_bounds(x, y) {
                    assert(y < g0.ly);
                    assert(g1.cells[y - g1.ly] == new_rows[y - g1.ly]@);
                    assert(new_rows[y - g1.ly] == fresh_rows[y - g1.ly]);
                    assert(fresh_rows[y - g1.ly]@ =~= blank_seq(w as nat));
                    assert(g1.cells[y - g1.ly][x - g1.lx] == BLANK);
                }
            }
        }
    }

    /// Adds `k` blank rows below the rectangle.
    fn grow_south(&mut self, k: u64)
        requires
            old(self).inv(),
            old(self)@.uy() + k <= 0x8000_0000,
        ensures
            final(self).inv(),
            same_cells(final(self)@, old(self)@),
            final(self)@.lx == old(self)@.lx,
            final(self)@.ly == old(self)@.ly,
            final(self)@.width() == old(self)@.width(),
            final(self)@.uy() == old(self)@.uy() + k,
    {
        let w = self.rows[0].len();
        let ghost g0 = self@;
        let mut j: u64 = 0;
        while j < k
            invariant
                j <= k,
                self@.cells.len() == g0.cells.len() + j,
                self@.lx == g0.lx,
                self@.ly == g0.ly,
                self.bounds == old(self).bounds,
                w == g0.width(),
                forall|r: int|
                    0 <= r < g0.cells.len() ==> #[trigger] self@.cells[r] == g0.cells[r],
                forall|r: int|
                    g0.cells.len() <= r < self@.cells.len() ==> (#[trigger] self@.cells[r])
                        =~= blank_seq(w as nat),
            decreases k - j,
        {
            let ghost prev = self@.cells;
            let fresh = blank_row(w);
            let ghost fresh0 = fresh@;
            self.rows.push(fresh);
            proof {
                assert(self@.cells =~= prev.push(fresh0));
            }
            j = j + 1;
        }
        let uy = self.bounds.uy + k as i64;
        self.bounds.set_upper_y(uy);
        proof {
            let g1 = self@;
            assert forall|x: int, y: int| #[trigger] g1.at(x, y) == #[trigger] old(self)@.at(
                x,
                y,
            ) by {
                if old(self)@.in_bounds(x, y) {
                } else if g1.in_bounds(x, y) {
                    assert(y - g1.ly >= g0.cells.len());
                }
            }
        }
    }

    /// Adds `k` blank columns on the west side.
    fn grow_west(&mut self, k: u64)
        requires
            old(self).inv(),
            old(self)@.lx - k >= -0x8000_0000,
        ensures
            final(self).inv(),
            same_cells(final(self)@, old(self)@),
            final(self)@.ly == old(self)@.ly,
            final(self)@.lx == old(self)@.lx - k,
            final(self)@.height() == old(self)@.height(),
            final(self)@.ux() == old(self)@.ux(),
    {
        let h = self.rows.len();
        let ghost g0 = self@;
        let mut i: usize = 0;
        while i < h
            invariant
                i <= h,
                h == g0.cells.len(),
                self@.cells.len() == g0.cells.len(),
                self@.lx == g0.lx,
                self@.ly == g0.ly,
                self.bounds == old(self).bounds,
                g0.wf(),
                forall|r: int| i <= r < h ==> #[trigger] self@.cells[r] == g0.cells[r],
                forall|r: int|
                    0 <= r < i ==> (#[trigger] self@.cells[r]) =~= blank_seq(k as nat)
                        + g0.cells[r],
            decreases h - i,
        {
            let ghost prev = self@.cells;
            let mut row = self.rows.remove(i);
            let ghost row0 = row@;
            let mut fresh = blank_row_u64(k);
            let ghost fresh0 = fresh@;
            fresh.append(&mut row);
            let ghost rowv = fresh@;
            self.rows.insert(i, fresh);
            proof {
                assert(prev[i as int] == g0.cells[i as int]);
                assert(rowv == fresh0 + row0);
                assert(rowv =~= blank_seq(k as nat) + g0.cells[i as int]);
                assert(self@.cells =~= prev.update(i as int, rowv));
            }
            i = i + 1;
        }
        let lx = self.bounds.lx - k as i64;
        self.bounds.set_lower_x(lx);
        proof {
            let g1 = self@;
            assert(g1.width() == g0.width() + k);
            assert forall|x: int, y: int| #[trigger] g1.at(x, y) == #[trigger] old(self)@.at(
                x,
                y,
            ) by {
                if 0 <= y - g1.ly < g1.cells.len() {
                    assert(g1.cells[y - g1.ly] =~= blank_seq(k as nat) + g0.cells[y - g1.ly]);
                }
            }
        }
    }

    /// Adds `k` blank columns on the east side.
    fn grow_east(&mut self, k: u64)
        requires
            old(self).inv(),
            old(self)@.ux() + k <= 0x8000_0000,
        ensures
            final(self).inv(),
            same_cells(final(self)@, old(self)@),
            final(self)@.ly == old(self)@.ly,
            final(self)@.lx == old(self)@.lx,
            final(self)@.height() == old(self)@.height(),
            final(self)@.ux() == old(self)@.ux() + k,
    {
        let h = self.rows.len();
        let ghost g0 = self@;
        let mut i: usize = 0;
        while i < h
            invariant
                i <= h,
                h == g0.cells.len(),
                self@.cells.len() == g0.cells.len(),
                self@.lx == g0.lx,
                self@.ly == g0.ly,
                self.bounds == old(self).bounds,
                g0.wf(),
                forall|r: int| i <= r < h ==> #[trigger] self@.cells[r] == g0.cells[r],
                forall|r: int|
                    0 <= r < i ==> (#[trigger] self@.cells[r]) =~= g0.cells[r] + blank_seq(
                        k as nat,
                    ),
            decreases h - i,
        {
            let ghost prev = self@.cells;
            let mut row = self.rows.remove(i);
            let ghost row0 = row@;
            let mut fresh = blank_row_u64(k);
            let ghost fresh0 = fresh@;
            row.append(&mut fresh);
            let ghost rowv = row@;
            self.rows.insert(i, row);
            proof {
                assert(prev[i as int] == g0.cells[i as int]);
                assert(row0 == prev[i as int]);
                assert(fresh0 =~= blank_seq(k as nat));
                assert(rowv == row0 + fresh0);
                assert(rowv =~= g0.cells[i as int] + blank_seq(k as nat));
                assert(self@.cells =~= prev.update(i as int, rowv));
            }
            i = i + 1;
        }
        let ux = self.bounds.ux + k as i64;
        self.bounds.set_upper_x(ux);
        proof {
            let g1 = self@;
            assert(g1.width() == g0.width() + k);
            assert forall|x: int, y: int| #[trigger] g1.at(x, y) == #[trigger] old(self)@.at(
                x,
                y,
            ) by {
                if 0 <= y - g1.ly < g1.cells.len() {
                    assert(g1.cells[y - g1.ly] =~= g0.cells[y - g1.ly] + blank_seq(k as nat));
                }
            }
        }
    }
    /// Builds the grid from source lines: each byte becomes a cell by
    /// zero-extension, short lines are padded with blanks to the widest
    /// line, and an empty source becomes a single blank cell.
    pub fn from_source(lines: &Vec<Vec<u8>>) -> (r: Grid)
        requires
            lines@.len() <= 0x8000_0000,
            forall|i: int|
                0 <= i < lines@.len() ==> (#[trigger] lines@[i])@.len() <= 0x8000_0000,
        ensures
            r.inv(),
            r@.lx == 0,
            r@.ly == 0,
            forall|x: int, y: int| #[trigger] r@.at(x, y) == source_cell(lines@, x, y),
            r@.height() == spec_max(1, lines@.len() as int),
            forall|i: int| 0 <= i < lines@.len() ==> (#[trigger] lines@[i])@.len() <= r@.width(),
            r@.width() == 1 || exists|i: int|
                0 <= i < lines@.len() && (#[trigger] lines@[i])@.len() == r@.width(),
    {
        let n = lines.len();
        let mut width: usize = 1;
        let ghost has_full = false;
        let mut i: usize = 0;
        while i < n
            invariant
                i <= n,
                n == lines@.len(),
                width >= 1,
                forall|r: int| 0 <= r < i ==> (#[trigger] lines@[r])@.len() <= width,
                width == 1 || exists|r: int|
                    0 <= r < n && (#[trigger] lines@[r])@.len() == width,
            decreases n - i,
        {
            if lines[i].len() > width {
                width = lines[i].len();
            }
            i = i + 1;
        }
        let mut rows: Vec<Vec<i32>> = Vec::new();
        let mut y: usize = 0;
        while y < n
            invariant
                y <= n,
                n == lines@.len(),
                width >= 1,
                rows@.len() == y,
                forall|r: int| 0 <= r < n ==> (#[trigger] lines@[r])@.len() <= width,
                forall|r: int| 0 <= r < y ==> (#[trigger] rows@[r])@.len() == width,
                forall|r: int, c: int|
                    0 <= r < y && 0 <= c < width ==> #[trigger] rows@[r]@[c] == source_cell(
                        lines@,
                        c,
                        r,
                    ),
            decreases n - y,
        {
            let line = &lines[y];
            let mut row: Vec<i32> = Vec::new();
            let mut x: usize = 0;
            while x < width
                invariant
                    x <= width,
                    n == lines@.len(),
                    y < n,
                    line == lines@[y as int],
                    row@.len() == x,
                    forall|c: int|
                        0 <= c < x ==> #[trigger] row@[c] == source_cell(lines@, c, y as int),
                decreases width - x,
            {
                if x < line.len() {
                    let b = line[x];
                    row.push(b as i32);
                } else {
                    row.push(BLANK);
                }
                x = x + 1;
            }
            rows.push(row);
            y = y + 1;
        }
        if rows.len() == 0 {
            let mut row: Vec<i32> = Vec::new();
            row.push(BLANK);
            rows.push(row);
        }
        let height = rows.len();
        let r = Grid {
            rows,
            bounds: Bounds::new(0, 0, width as i64, height as i64),
        };
        proof {
            assert forall|xx: int, yy: int| #[trigger] r@.at(xx, yy) == source_cell(
                lines@,
                xx,
                yy,
            ) by {
                if r@.in_bounds(xx, yy) {
                    assert(r@.cells[yy] == r.rows@[yy]@);
                }
            }
        }
        r
    }

    /// The smallest column and row holding a non-blank cell, as absolute
    /// coordinates; a side with no non-blank cell reports the lower bound.
    pub fn get_least_point(&self) -> (r: Vec<i32>)
        requires
            self.inv(),
        ensures
            r@.len() == 2,
            r@[0] as int == self@.lx + first_nonblank_col(self@, 0),
            r@[1] as int == self@.ly + first_nonblank_row(self@, 0),
    {
        let xi = self.least_nonblank_col();
        let yi = self.least_nonblank_row();
        let x_abs = (self.bounds.lx + xi as i64) as i32;
        let y_abs = (self.bounds.ly + yi as i64) as i32;
        let mut r: Vec<i32> = Vec::new();
        r.push(x_abs);
        r.push(y_abs);
        r
    }

    /// The span from the least to the greatest non-blank cell, per axis —
    /// the greatest point of the `y` report, relative to the least point; 0
    /// on a side with no non-blank cell (or a span no cell can count).
    pub fn get_greatest_point(&self) -> (r: Vec<i32>)
        requires
            self.inv(),
        ensures
            r@.len() == 2,
            r@[0] == crate::cell::count_cell(
                last_nonblank_col(self@, self@.width() - 1) - first_nonblank_col(self@, 0),
            ),
            r@[1] == crate::cell::count_cell(
                last_nonblank_row(self@, self@.height() - 1) - first_nonblank_row(self@, 0),
            ),
    {
        let gx = self.greatest_nonblank_col();
        let lx2 = self.least_nonblank_col();
        let gy = self.greatest_nonblank_row();
        let ly2 = self.least_nonblank_row();
        let dx: i64 = gx as i64 - lx2 as i64;
        let dy: i64 = gy as i64 - ly2 as i64;
        let xr: i32 = if 0 <= dx && dx <= 0x7FFF_FFFF {
            dx as i32
        } else {
            0
        };
        let yr: i32 = if 0 <= dy && dy <= 0x7FFF_FFFF {
            dy as i32
        } else {
            0
        };
        let mut r: Vec<i32> = Vec::new();
        r.push(xr);
        r.push(yr);
        r
    }

    /// The 0-based index of the first column with a non-blank cell, or 0.
    fn least_nonblank_col(&self) -> (xi: usize)
        requires
            self.inv(),
        ensures
            xi == first_nonblank_col(self@, 0),
            xi < self@.width(),
    {
        let w = self.rows[0].len();
        let mut i: usize = 0;
        while i < w
            invariant
                i <= w,
                self.inv(),
                w == self@.width(),
                first_nonblank_col(self@, 0) == first_nonblank_col(self@, i as int),
            decreases w - i,
        {
            if !self.col_blank_at(i) {
                return i;
            }
            i = i + 1;
        }
        0
    }

    /// The 0-based index of the first row with a non-blank cell, or 0.
    fn least_nonblank_row(&self) -> (yi: usize)
        requires
            self.inv(),
        ensures
            yi == first_nonblank_row(self@, 0),
            yi < self@.height(),
    {
        let h = self.rows.len();
        let mut i: usize = 0;
        while i < h
            invariant
                i <= h,
                self.inv(),
                h == self@.height(),
                first_nonblank_row(self@, 0) == first_nonblank_row(self@, i as int),
            decreases h - i,
        {
            if !self.row_blank_at(i) {
                return i;
            }
            i = i + 1;
        }
        0
    }

    /// The 0-based index of the last column with a non-blank cell, or 0.
    fn greatest_nonblank_col(&self) -> (xi: usize)
        requires
            self.inv(),
        ensures
            xi == last_nonblank_col(self@, self@.width() - 1),
            xi < self@.width(),
    {
        let w = self.rows[0].len();
        let mut i: usize = w;
        while i > 0
            invariant
                i <= w,
                self.inv(),
                w == self@.width(),
                last_nonblank_col(self@, self@.width() - 1) == last_nonblank_col(
                    self@,
                    i - 1,
                ),
            decreases i,
        {
            if !self.col_blank_at(i - 1) {
                return i - 1;
            }
            i = i - 1;
        }
        0
    }

    /// The 0-based index of the last row with a non-blank cell, or 0.
    fn greatest_nonblank_row(&self) -> (yi: usize)
        requires
            self.inv(),
        ensures
            yi == last_nonblank_row(self@, self@.height() - 1),
            yi < self@.height(),
    {
        let h = self.rows.len();
        let mut i: usize = h;
        while i > 0
            invariant
                i <= h,
                self.inv(),
                h == self@.height(),
                last_nonblank_row(self@, self@.height() - 1) == last_nonblank_row(
                    self@,
                    i - 1,
                ),
            decreases i,
        {
            if !self.row_blank_at(i - 1) {
                return i - 1;
            }
            i = i - 1;
        }
        0
    }

    /// True when stored column `xi` (0-based) is entirely blank.
    fn col_blank_at(&self, xi: usize) -> (r: bool)
        requires
            self.inv(),
            xi < self@.width(),
        ensures
            r <==> col_all_blank(self@, self@.lx + xi),
    {
        let ghost g = self@;
        let h = self.rows.len();
        let mut i: usize = 0;
        while i < h
            invariant
                i <= h,
                self.inv(),
                g == self@,
                xi < g.width(),
                h == g.cells.len(),
                forall|r: int| 0 <= r < i ==> #[trigger] g.cells[r][xi as int] == BLANK,
            decreases h - i,
        {
            proof {
                assert(g.cells[i as int] == self.rows@[i as int]@);
            }
            if self.rows[i][xi] != BLANK {
                proof {
                    assert(g.at(g.lx + xi, g.ly + i) != BLANK);
                }
                return false;
            }
            i = i + 1;
        }
        proof {
            assert forall|y: int| #[trigger] g.at(g.lx + xi, y) == BLANK by {
                if g.in_bounds(g.lx + xi, y) {
                    assert(g.cells[y - g.ly][xi as int] == BLANK);
                }
            }
        }
        true
    }

    /// True when stored row `yi` (0-based) is entirely blank.
    fn row_blank_at(&self, yi: usize) -> (r: bool)
        requires
            self.inv(),
            yi < self@.height(),
        ensures
            r <==> row_all_blank(self@, self@.ly + yi),
    {
        let ghost g = self@;
        let w = self.rows[0].len();
        let mut j: usize = 0;
        while j < w
            invariant
                j <= w,
                self.inv(),
                g == self@,
                yi < g.height(),
                w == g.width(),
                forall|c: int| 0 <= c < j ==> #[trigger] g.cells[yi as int][c] == BLANK,
            decreases w - j,
        {
            proof {
                assert(g.cells[yi as int] == self.rows@[yi as int]@);
            }
            if self.rows[yi][j] != BLANK {
                proof {
                    assert(g.at(g.lx + j, g.ly + yi) != BLANK);
                }
                return false;
            }
            j = j + 1;
        }
        proof {
            assert forall|x: int| #[trigger] g.at(x, g.ly + yi) == BLANK by {
                if g.in_bounds(x, g.ly + yi) {
                    assert(g.cells[yi as int][x - g.lx] == BLANK);
                }
            }
        }
        true
    }

    /// After a blank write at `pos`: for every side of the box that `pos`
    /// touches, pops all-blank boundary lines until a non-blank one (or a
    /// one-line grid) remains.
    fn shrink(&mut self, pos: (i32, i32))
        requires
            old(self).inv(),
        ensures
            final(self).inv(),
            same_cells(final(self)@, old(self)@),
            pos.0 as int != old(self)@.lx ==> final(self)@.lx == old(self)@.lx,
            pos.0 + 1 != old(self)@.ux() ==> final(self)@.ux() == old(self)@.ux(),
            pos.1 as int != old(self)@.ly ==> final(self)@.ly == old(self)@.ly,
            pos.1 + 1 != old(self)@.uy() ==> final(self)@.uy() == old(self)@.uy(),
            final(self)@.lx >= old(self)@.lx,
            final(self)@.ux() <= old(self)@.ux(),
            final(self)@.ly >= old(self)@.ly,
            final(self)@.uy() <= old(self)@.uy(),
            pos.0 as int == old(self)@.lx && final(self)@.width() > 1 ==> !col_all_blank(
                final(self)@,
                final(self)@.lx,
            ),
            pos.0 + 1 == old(self)@.ux() && final(self)@.width() > 1 ==> !col_all_blank(
                final(self)@,
                final(self)@.ux() - 1,
            ),
            pos.1 as int == old(self)@.ly && final(self)@.height() > 1 ==> !row_all_blank(
                final(self)@,
                final(self)@.ly,
            ),
            pos.1 + 1 == old(self)@.uy() && final(self)@.height() > 1 ==> !row_all_blank(
                final(self)@,
                final(self)@.uy() - 1,
            ),
    {
        let ghost g0 = self@;
        if pos.0 as i64 == self.bounds.lx {
            loop
                invariant
                    self.inv(),
                    same_cells(self@, g0),
                    self@.lx >= g0.lx,
                    self@.ux() == g0.ux(),
                    self@.ly == g0.ly,
                    self@.uy() == g0.uy(),
                ensures
                    self.inv(),
                    same_cells(self@, g0),
                    self@.lx >= g0.lx,
                    self@.ux() == g0.ux(),
                    self@.ly == g0.ly,
                    self@.uy() == g0.uy(),
                    self@.width() > 1 ==> !col_all_blank(self@, self@.lx),
                decreases g0.ux() - self@.lx,
            {
                if self.rows[0].len() <= 1 || !self.west_col_blank() {
                    break ;
                }
                let ghost before = self@;
                self.pop_west();
                proof {
                    lemma_same_cells_trans(self@, before, g0);
                }
            }
        }
        let ghost gw = self@;
        if pos.0 as i64 == self.bounds.ux - 1 {
            loop
                invariant
                    self.inv(),
                    same_cells(self@, g0),
                    self@.lx == gw.lx,
                    self@.ux() <= gw.ux(),
                    self@.ly == gw.ly,
                    self@.uy() == gw.uy(),
                ensures
                    self.inv(),
                    same_cells(self@, g0),
                    self@.lx == gw.lx,
                    self@.ux() <= gw.ux(),
                    self@.ly == gw.ly,
                    self@.uy() == gw.uy(),
                    self@.width() > 1 ==> !col_all_blank(self@, self@.ux() - 1),
                decreases self@.ux() - gw.lx,
            {
                if self.rows[0].len() <= 1 || !self.east_col_blank() {
                    break ;
                }
                let ghost before = self@;
                self.pop_east();
                proof {
                    lemma_same_cells_trans(self@, before, g0);
                }
            }
        }
        let ghost ge = self@;
        if pos.1 as i64 == self.bounds.ly {
            loop
                invariant
                    self.inv(),
                    same_cells(self@, g0),
                    self@.lx == ge.lx,
                    self@.ux() == ge.ux(),
                    self@.ly >= ge.ly,
                    self@.uy() == ge.uy(),
                ensures
                    self.inv(),
                    same_cells(self@, g0),
                    self@.lx == ge.lx,
                    self@.ux() == ge.ux(),
                    self@.ly >= ge.ly,
                    self@.uy() == ge.uy(),
                    self@.height() > 1 ==> !row_all_blank(self@, self@.ly),
                decreases ge.uy() - self@.ly,
            {
                if self.rows.len() <= 1 || !self.north_row_blank() {
                    break ;
                }
                let ghost before = self@;
                self.pop_north();
                proof {
                    lemma_same_cells_trans(self@, before, g0);
                }
            }
        }
        let ghost gn = self@;
        if pos.1 as i64 == self.bounds.uy - 1 {
            loop
                invariant
                    self.inv(),
                    same_cells(self@, g0),
                    self@.lx == gn.lx,
                    self@.ux() == gn.ux(),
                    self@.ly == gn.ly,
                    self@.uy() <= gn.uy(),
                ensures
                    self.inv(),
                    same_cells(self@, g0),
                    self@.lx == gn.lx,
                    self@.ux() == gn.ux(),
                    self@.ly == gn.ly,
                    self@.uy() <= gn.uy(),
                    self@.height() > 1 ==> !row_all_blank(self@, self@.uy() - 1),
                decreases self@.uy() - gn.ly,
            {
                if self.rows.len() <= 1 || !self.south_row_blank() {
                    break ;
                }
                let ghost before = self@;
                self.pop_south();
                proof {
                    lemma_same_cells_trans(self@, before, g0);
                }
            }
        }
        proof {
            let gf = self@;
            lemma_same_cells_symm(gw, g0);
            lemma_same_cells_symm(ge, g0);
            lemma_same_cells_symm(gn, g0);
            lemma_same_cells_trans(gf, g0, gw);
            lemma_same_cells_trans(gf, g0, ge);
            lemma_same_cells_trans(gf, g0, gn);
            lemma_same_cells_keeps_blank_lines(gf, gw);
            lemma_same_cells_keeps_blank_lines(gf, ge);
            lemma_same_cells_keeps_blank_lines(gf, gn);
        }
    }

    /// True when the westmost stored column is entirely blank.
    fn west_col_blank(&self) -> (r: bool)
        requires
            self.inv(),
        ensures
            r <==> col_all_blank(self@, self@.lx),
    {
        let ghost g = self@;
        let h = self.rows.len();
        let mut i: usize = 0;
        while i < h
            invariant
                i <= h,
                self.inv(),
                g == self@,
                h == g.cells.len(),
                forall|r: int| 0 <= r < i ==> #[trigger] g.cells[r][0] == BLANK,
            decreases h - i,
        {
            proof {
                assert(g.cells[i as int] == self.rows@[i as int]@);
            }
            if self.rows[i][0] != BLANK {
                proof {
                    assert(g.at(g.lx, g.ly + i) != BLANK);
                }
                return false;
            }
            i = i + 1;
        }
        proof {
            assert forall|y: int| #[trigger] g.at(g.lx, y) == BLANK by {
                if g.in_bounds(g.lx, y) {
                    assert(g.cells[y - g.ly][0] == BLANK);
                }
            }
        }
        true
    }

    /// True when the eastmost stored column is entirely blank.
    fn east_col_blank(&self) -> (r: bool)
        requires
            self.inv(),
        ensures
            r <==> col_all_blank(self@, self@.ux() - 1),
    {
        let ghost g = self@;
        let h = self.rows.len();
        let w = self.rows[0].len();
        let mut i: usize = 0;
        while i < h
            invariant
                i <= h,
                self.inv(),
                g == self@,
                h == g.cells.len(),
                w == g.width(),
                forall|r: int| 0 <= r < i ==> #[trigger] g.cells[r][w - 1] == BLANK,
            decreases h - i,
        {
            proof {
                assert(g.cells[i as int] == self.rows@[i as int]@);
            }
            if self.rows[i][w - 1] != BLANK {
                proof {
                    assert(g.at(g.ux() - 1, g.ly + i) != BLANK);
                }
                return false;
            }
            i = i + 1;
        }
        proof {
            assert forall|y: int| #[trigger] g.at(g.ux() - 1, y) == BLANK by {
                if g.in_bounds(g.ux() - 1, y) {
                    assert(g.cells[y - g.ly][w - 1] == BLANK);
                }
            }
        }
        true
    }

    /// True when the topmost stored row is entirely blank.
    fn north_row_blank(&self) -> (r: bool)
        requires
            self.inv(),
        ensures
            r <==> row_all_blank(self@, self@.ly),
    {
        let ghost g = self@;
        let w = self.rows[0].len();
        let mut j: usize = 0;
        while j < w
            invariant
                j <= w,
                self.inv(),
                g == self@,
                w == g.width(),
                forall|c: int| 0 <= c < j ==> #[trigger] g.cells[0][c] == BLANK,
            decreases w - j,
        {
            proof {
                assert(g.cells[0] == self.rows@[0]@);
            }
            if self.rows[0][j] != BLANK {
                proof {
                    assert(g.at(g.lx + j, g.ly) != BLANK);
                }
                return false;
            }
            j = j + 1;
        }
        proof {
            assert forall|x: int| #[trigger] g.at(x, g.ly) == BLANK by {
                if g.in_bounds(x, g.ly) {
                    assert(g.cells[0][x - g.lx] == BLANK);
                }
            }
        }
        true
    }

    /// True when the bottommost stored row is entirely blank.
    fn south_row_blank(&self) -> (r: bool)
        requires
            self.inv(),
        ensures
            r <==> row_all_blank(self@, self@.uy() - 1),
    {
        let ghost g = self@;
        let h = self.rows.len();
        let w = self.rows[0].len();
        let mut j: usize = 0;
        while j < w
            invariant
                j <= w,
                self.inv(),
                g == self@,
                h == g.cells.len(),
                w == g.width(),
                forall|c: int| 0 <= c < j ==> #[trigger] g.cells[h - 1][c] == BLANK,
            decreases w - j,
        {
            proof {
                assert(g.cells[h - 1] == self.rows@[h - 1]@);
            }
            if self.rows[h - 1][j] != BLANK {
                proof {
                    assert(g.at(g.lx + j, g.uy() - 1) != BLANK);
                }
                return false;
            }
            j = j + 1;
        }
        proof {
            assert forall|x: int| #[trigger] g.at(x, g.uy() - 1) == BLANK by {
                if g.in_bounds(x, g.uy() - 1) {
                    assert(g.cells[h - 1][x - g.lx] == BLANK);
                }
            }
        }
        true
    }

    /// Removes the all-blank westmost column.
    fn pop_west(&mut self)
        requires
            old(self).inv(),
            old(self)@.width() >= 2,
            col_all_blank(old(self)@, old(self)@.lx),
        ensures
            final(self).inv(),
            same_cells(final(self)@, old(self)@),
            final(self)@.lx == old(self)@.lx + 1,
            final(self)@.ux() == old(self)@.ux(),
            final(self)@.ly == old(self)@.ly,
            final(self)@.uy() == old(self)@.uy(),
    {
        let h = self.rows.len();
        let ghost g0 = self@;
        let mut i: usize = 0;
        while i < h
            invariant
                i <= h,
                h == g0.cells.len(),
                self@.cells.len() == g0.cells.len(),
                self@.lx == g0.lx,
                self@.ly == g0.ly,
                self.bounds == old(self).bounds,
                g0.wf(),
                g0.width() >= 2,
                forall|r: int| i <= r < h ==> #[trigger] self@.cells[r] == g0.cells[r],
                forall|r: int|
                    0 <= r < i ==> (#[trigger] self@.cells[r]) =~= g0.cells[r].subrange(
                        1,
                        g0.width(),
                    ),
            decreases h - i,
        {
            let ghost prev = self@.cells;
            let mut row = self.rows.remove(i);
            let ghost row0 = row@;
            proof {
                assert(prev[i as int] == g0.cells[i as int]);
                assert(row0.len() == g0.width());
            }
            row.remove(0);
            let ghost rowv = row@;
            self.rows.insert(i, row);
            proof {
                assert(prev[i as int] == g0.cells[i as int]);
                assert(rowv == row0.remove(0));
                assert(rowv =~= g0.cells[i as int].subrange(1, g0.width()));
                assert(self@.cells =~= prev.update(i as int, rowv));
            }
            i = i + 1;
        }
        let lx = self.bounds.lx + 1;
        self.bounds.set_lower_x(lx);
        proof {
            let g1 = self@;
            assert(g1.width() == g0.width() - 1);
            assert forall|x: int, y: int| #[trigger] g1.at(x, y) == #[trigger] g0.at(x, y) by {
                if 0 <= y - g1.ly < g1.cells.len() {
                    assert(g1.cells[y - g1.ly] =~= g0.cells[y - g1.ly].subrange(1, g0.width()));
                }
                if x == g0.lx {
                    assert(g0.at(x, y) == BLANK);
                }
            }
        }
    }

    /// Removes the all-blank eastmost column.
    fn pop_east(&mut self)
        requires
            old(self).inv(),
            old(self)@.width() >= 2,
            col_all_blank(old(self)@, old(self)@.ux() - 1),
        ensures
            final(self).inv(),
            same_cells(final(self)@, old(self)@),
            final(self)@.lx == old(self)@.lx,
            final(self)@.ux() == old(self)@.ux() - 1,
            final(self)@.ly == old(self)@.ly,
            final(self)@.uy() == old(self)@.uy(),
    {
        let h = self.rows.len();
        let ghost g0 = self@;
        let mut i: usize = 0;
        while i < h
            invariant
                i <= h,
                h == g0.cells.len(),
                self@.cells.len() == g0.cells.len(),
                self@.lx == g0.lx,
                self@.ly == g0.ly,
                self.bounds == old(self).bounds,
                g0.wf(),
                g0.width() >= 2,
                forall|r: int| i <= r < h ==> #[trigger] self@.cells[r] == g0.cells[r],
                forall|r: int|
                    0 <= r < i ==> (#[trigger] self@.cells[r]) =~= g0.cells[r].take(
                        g0.width() - 1,
                    ),
            decreases h - i,
        {
            let ghost prev = self@.cells;
            let mut row = self.rows.remove(i);
            let ghost row0 = row@;
            row.pop();
            let ghost rowv = row@;
            self.rows.insert(i, row);
            proof {
                assert(prev[i as int] == g0.cells[i as int]);
                assert(rowv =~= g0.cells[i as int].take(g0.width() - 1));
                assert(self@.cells =~= prev.update(i as int, rowv));
            }
            i = i + 1;
        }
        let ux = self.bounds.ux - 1;
        self.bounds.set_upper_x(ux);
        proof {
            let g1 = self@;
            assert(g1.width() == g0.width() - 1);
            assert forall|x: int, y: int| #[trigger] g1.at(x, y) == #[trigger] g0.at(x, y) by {
                if 0 <= y - g1.ly < g1.cells.len() {
                    assert(g1.cells[y - g1.ly] =~= g0.cells[y - g1.ly].take(g0.width() - 1));
                }
                if x == g0.ux() - 1 {
                    assert(g0.at(x, y) == BLANK);
                }
            }
        }
    }

    /// Removes the all-blank topmost row.
    fn pop_north(&mut self)
        requires
            old(self).inv(),
            old(self)@.height() >= 2,
            row_all_blank(old(self)@, old(self)@.ly),
        ensures
            final(self).inv(),
            same_cells(final(self)@, old(self)@),
            final(self)@.lx == old(self)@.lx,
            final(self)@.ux() == old(self)@.ux(),
            final(self)@.ly == old(self)@.ly + 1,
            final(self)@.uy() == old(self)@.uy(),
    {
        let ghost g0 = self@;
        self.rows.remove(0);
        let ly = self.bounds.ly + 1;
        self.bounds.set_lower_y(ly);
        proof {
            let g1 = self@;
            assert(g1.cells =~= g0.cells.remove(0));
            assert(g1.cells[0] == g0.cells[1]);
            assert forall|x: int, y: int| #[trigger] g1.at(x, y) == #[trigger] g0.at(x, y) by {
                if g1.in_bounds(x, y) {
                    assert(g1.cells[y - g1.ly] == g0.cells[y - g0.ly]);
                }
                if y == g0.ly {
                    assert(g0.at(x, y) == BLANK);
                }
            }
        }
    }

    /// Removes the all-blank bottommost row.
    fn pop_south(&mut self)
        requires
            old(self).inv(),
            old(self)@.height() >= 2,
            row_all_blank(old(self)@, old(self)@.uy() - 1),
        ensures
            final(self).inv(),
            same_cells(final(self)@, old(self)@),
            final(self)@.lx == old(self)@.lx,
            final(self)@.ux() == old(self)@.ux(),
            final(self)@.ly == old(self)@.ly,
            final(self)@.uy() == old(self)@.uy() - 1,
    {
        let ghost g0 = self@;
        self.rows.pop();
        let uy = self.bounds.uy - 1;
        self.bounds.set_upper_y(uy);
        proof {
            let g1 = self@;
            assert(g1.cells =~= g0.cells.drop_last());
            assert forall|x: int, y: int| #[trigger] g1.at(x, y) == #[trigger] g0.at(x, y) by {
                if g1.in_bounds(x, y) {
                    assert(g1.cells[y - g1.ly] == g0.cells[y - g0.ly]);
                }
                if y == g0.uy() - 1 {
                    assert(g0.at(x, y) == BLANK);
                }
            }
        }
    }
}

/// Holding the same cell at every coordinate is symmetric.
pub proof fn lemma_same_cells_symm(a: GridView, b: GridView)
    requires
        same_cells(a, b),
    ensures
        same_cells(b, a),
{
    assert forall|x: int, y: int| #[trigger] b.at(x, y) == #[trigger] a.at(x, y) by {
        assert(a.at(x, y) == b.at(x, y));
    }
}

/// Holding the same cell at every coordinate is transitive.
pub proof fn lemma_same_cells_trans(a: GridView, b: GridView, c: GridView)
    requires
        same_cells(a, b),
        same_cells(b, c),
    ensures
        same_cells(a, c),
{
    assert forall|x: int, y: int| #[trigger] a.at(x, y) == #[trigger] c.at(x, y) by {
        assert(a.at(x, y) == b.at(x, y));
        assert(b.at(x, y) == c.at(x, y));
    }
}

/// Grids with the same cells everywhere agree on which lines are all blank.
pub proof fn lemma_same_cells_keeps_blank_lines(a: GridView, b: GridView)
    requires
        same_cells(a, b),
    ensures
        forall|x: int| #[trigger] col_all_blank(a, x) <==> col_all_blank(b, x),
        forall|y: int| #[trigger] row_all_blank(a, y) <==> row_all_blank(b, y),
{
    assert forall|x: int| #[trigger] col_all_blank(a, x) <==> col_all_blank(b, x) by {
        if col_all_blank(a, x) {
            assert forall|y: int| #[trigger] b.at(x, y) == BLANK by {
                assert(a.at(x, y) == BLANK);
            }
        }
        if col_all_blank(b, x) {
            assert forall|y: int| #[trigger] a.at(x, y) == BLANK by {
                assert(b.at(x, y) == BLANK);
            }
        }
    }
    assert forall|y: int| #[trigger] row_all_blank(a, y) <==> row_all_blank(b, y) by {
        if row_all_blank(a, y) {
            assert forall|x: int| #[trigger] b.at(x, y) == BLANK by {
                assert(a.at(x, y) == BLANK);
            }
        }
        if row_all_blank(b, y) {
            assert forall|x: int| #[trigger] a.at(x, y) == BLANK by {
                assert(b.at(x, y) == BLANK);
            }
        }
    }
}

/// The smaller of two integers.
pub open spec fn spec_min(a: int, b: int) -> int {
    if a <= b {
        a
    } else {
        b
    }
}

/// The larger of two integers.
pub open spec fn spec_max(a: int, b: int) -> int {
    if a >= b {
        a
    } else {
        b
    }
}

/// A row of `k` blanks.
pub open spec fn blank_seq(k: nat) -> Seq<i32> {
    Seq::new(k, |i: int| BLANK)
}

fn blank_row(w: usize) -> (r: Vec<i32>)
    ensures
        r@ =~= blank_seq(w as nat),
{
    let mut r: Vec<i32> = Vec::new();
    let mut j: usize = 0;
    while j < w
        invariant
            j <= w,
            r@ =~= blank_seq(j as nat),
        decreases w - j,
    {
        r.push(BLANK);
        proof {
            vstd::assert_seqs_equal!(r@, blank_seq((j + 1) as nat));
        }
        j = j + 1;
    }
    r
}

fn blank_row_u64(w: u64) -> (r: Vec<i32>)
    ensures
        r@ =~= blank_seq(w as nat),
{
    let mut r: Vec<i32> = Vec::new();
    let mut j: u64 = 0;
    while j < w
        invariant
            j <= w,
            r@ =~= blank_seq(j as nat),
        decreases w - j,
    {
        r.push(BLANK);
        proof {
            vstd::assert_seqs_equal!(r@, blank_seq((j + 1) as nat));
        }
        j = j + 1;
    }
    r
}

} // verus!
