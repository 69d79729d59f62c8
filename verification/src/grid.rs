//! Dense two-dimensional integer rasters.
//!
//! Elevations are stored in millimetres and shadow values in sixty-fourths, so
//! that every raster of the analysis shares one cell type.  The storage is an
//! `ndarray::Array2<i64>`; its contents are modelled row by row.

use vstd::prelude::*;

verus! {

/// A raster with `rows()` rows of `cols()` cells each.
#[verifier::external_body]
pub struct Grid {
    cells: ndarray::Array2<i64>,
}

/// The rows of the underlying array, top to bottom, each listing its cells left to right.
pub uninterp spec fn grid_cells(g: Grid) -> Seq<Seq<i64>>;

/// The second axis length of the underlying array (defined even when there are no rows).
pub uninterp spec fn grid_width(g: Grid) -> nat;

/// Largest number of cells for which a buffer of `i64` can be requested.
pub open spec fn max_cells() -> int {
    isize::MAX / 8
}

/// A shape that an array can have: neither axis is longer than
/// `isize::MAX`, also where the other axis is empty, and the cells fit one
/// buffer.
pub open spec fn shape_fits(rows: int, cols: int) -> bool {
    rows <= isize::MAX && cols <= isize::MAX && rows * cols <= max_cells()
}

/// Wraps `ndarray::Array2::from_elem`: the new array has the requested shape and
/// every cell holds `value`.  The constructor panics where the product of
/// the axis lengths that are not zero exceeds `isize::MAX`, and the buffer
/// cannot be requested where the cells take more than `isize::MAX` bytes:
/// both are excluded.
#[verifier::external_body]
pub(crate) fn grid_filled(rows: usize, cols: usize, value: i64) -> (g: Grid)
    requires
        shape_fits(rows as int, cols as int),
    ensures
        grid_cells(g).len() == rows,
        grid_width(g) == cols,
        forall|r: int, c: int|
            0 <= r < rows && 0 <= c < cols ==> (#[trigger] grid_cells(g)[r][c]) == value,
{
    Grid { cells: ndarray::Array2::from_elem((rows, cols), value) }
}

/// Wraps `ndarray::ArrayBase::dim`: the pair (rows, columns).  Their product
/// is the number of `i64` cells that the array owns in one `Vec`, which never
/// holds more than `isize::MAX` bytes; and no array is made whose axis
/// lengths, the zero ones left out, multiply to more than `isize::MAX`.
#[verifier::external_body]
pub(crate) fn grid_dim(g: &Grid) -> (d: (usize, usize))
    ensures
        d.0 == grid_cells(*g).len(),
        d.1 == grid_width(*g),
        shape_fits(d.0 as int, d.1 as int),
{
    g.cells.dim()
}

/// Wraps indexing an `ndarray::Array2` by `[row, col]`, which panics outside the shape.
#[verifier::external_body]
pub(crate) fn grid_get(g: &Grid, row: usize, col: usize) -> (v: i64)
    requires
        row < grid_cells(*g).len(),
        col < grid_width(*g),
    ensures
        v == grid_cells(*g)[row as int][col as int],
{
    g.cells[[row, col]]
}

/// Wraps assignment through `[row, col]` on an `ndarray::Array2`: that one cell
/// changes, the shape and every other cell stay.
#[verifier::external_body]
pub(crate) fn grid_set(g: &mut Grid, row: usize, col: usize, value: i64)
    requires
        row < grid_cells(*old(g)).len(),
        col < grid_width(*old(g)),
    ensures
        grid_cells(*final(g)).len() == grid_cells(*old(g)).len(),
        grid_width(*final(g)) == grid_width(*old(g)),
        grid_cells(*final(g))[row as int][col as int] == value,
        forall|r: int, c: int|
            0 <= r < grid_cells(*old(g)).len() && 0 <= c < grid_width(*old(g)) && (r != row || c
                != col) ==> (#[trigger] grid_cells(*final(g))[r][c]) == grid_cells(*old(g))[r][c],
{
    g.cells[[row, col]] = value;
}

impl Grid {
    pub open spec fn rows(&self) -> nat {
        grid_cells(*self).len()
    }

    pub open spec fn cols(&self) -> nat {
        grid_width(*self)
    }

    /// The cell in row `r`, column `c`.
    pub open spec fn at(&self, r: int, c: int) -> i64 {
        grid_cells(*self)[r][c]
    }

    pub open spec fn contains_cell(&self, r: int, c: int) -> bool {
        0 <= r < self.rows() && 0 <= c < self.cols()
    }

    /// Every cell equals `value`.
    pub open spec fn is_constant(&self, value: i64) -> bool {
        forall|r: int, c: int| self.contains_cell(r, c) ==> #[trigger] self.at(r, c) == value
    }

    /// Every cell lies between `low` and `high`, both included.
    pub open spec fn cells_within(&self, low: int, high: int) -> bool {
        forall|r: int, c: int|
            self.contains_cell(r, c) ==> low <= #[trigger] self.at(r, c) <= high
    }

    /// A raster of the given shape with `value` in every cell, or `None` when
    /// an axis is longer than `isize::MAX` or the shape has more cells than
    /// can be allocated.
    pub fn filled(rows: usize, cols: usize, value: i64) -> (out: Option<Grid>)
        ensures
            out.is_some() <==> shape_fits(rows as int, cols as int),
            out matches Some(g) ==> g.rows() == rows && g.cols() == cols && g.is_constant(value),
    {
        let limit: usize = (isize::MAX / 8) as usize;
        let longest: usize = isize::MAX as usize;
        if rows > longest || cols > longest {
            return None;
        }
        if rows == 0 || cols == 0 {
            assert(rows * cols == 0) by (nonlinear_arith)
                requires
                    rows == 0 || cols == 0,
            ;
            return Some(grid_filled(rows, cols, value));
        }
        if rows > limit / cols {
            assert(rows * cols > max_cells()) by (nonlinear_arith)
                requires
                    rows > limit / cols,
                    cols > 0,
                    limit == max_cells(),
            ;
            return None;
        }
        assert(rows * cols <= max_cells()) by (nonlinear_arith)
            requires
                rows <= limit / cols,
                cols > 0,
                limit == max_cells(),
        ;
        Some(grid_filled(rows, cols, value))
    }

    /// A raster of the shape of `self` with `value` in every cell.
    pub fn filled_like(&self, value: i64) -> (g: Grid)
        ensures
            g.rows() == self.rows(),
            g.cols() == self.cols(),
            g.is_constant(value),
    {
        let d = grid_dim(self);
        grid_filled(d.0, d.1, value)
    }

    pub fn nrows(&self) -> (n: usize)
        ensures
            n == self.rows(),
    {
        grid_dim(self).0
    }

    pub fn ncols(&self) -> (n: usize)
        ensures
            n == self.cols(),
    {
        grid_dim(self).1
    }

    /// The cell at (`row`, `col`), or `None` outside the raster.
    pub fn get(&self, row: usize, col: usize) -> (v: Option<i64>)
        ensures
            v == if self.contains_cell(row as int, col as int) {
                Some(self.at(row as int, col as int))
            } else {
                None
            },
    {
        let d = grid_dim(self);
        if row < d.0 && col < d.1 {
            Some(grid_get(self, row, col))
        } else {
            None
        }
    }

    /// Whether every cell lies between `low` and `high`.
    pub fn all_within(&self, low: i64, high: i64) -> (ok: bool)
        ensures
            ok == self.cells_within(low as int, high as int),
    {
        let d = grid_dim(self);
        let mut r: usize = 0;
        while r < d.0
            invariant
                d.0 == self.rows(),
                d.1 == self.cols(),
                r <= d.0,
                forall|i: int, j: int|
                    0 <= i < r && 0 <= j < d.1 ==> low <= #[trigger] self.at(i, j) <= high,
            decreases d.0 - r,
        {
            let mut c: usize = 0;
            while c < d.1
                invariant
                    d.0 == self.rows(),
                    d.1 == self.cols(),
                    r < d.0,
                    c <= d.1,
                    forall|i: int, j: int|
                        0 <= i < r && 0 <= j < d.1 ==> low <= #[trigger] self.at(i, j) <= high,
                    forall|j: int| 0 <= j < c ==> low <= #[trigger] self.at(r as int, j) <= high,
                decreases d.1 - c,
            {
                let v = grid_get(self, r, c);
                if v < low || v > high {
                    assert(self.contains_cell(r as int, c as int) && self.at(r as int, c as int)
                        == v);
                    return false;
                }
                c += 1;
            }
            r += 1;
        }
        true
    }

    /// Stores `value` at a cell of the raster.
    pub(crate) fn store(&mut self, row: usize, col: usize, value: i64)
        requires
            old(self).contains_cell(row as int, col as int),
        ensures
            final(self).rows() == old(self).rows(),
            final(self).cols() == old(self).cols(),
            forall|r: int, c: int|
                old(self).contains_cell(r, c) ==> #[trigger] final(self).at(r, c) == if r == row
                    && c == col {
                    value
                } else {
                    old(self).at(r, c)
                },
    {
        grid_set(self, row, col, value);
    }

    /// The value at a cell of the raster.
    pub(crate) fn fetch(&self, row: usize, col: usize) -> (v: i64)
        requires
            self.contains_cell(row as int, col as int),
        ensures
            v == self.at(row as int, col as int),
    {
        grid_get(self, row, col)
    }

    /// Stores `value` at (`row`, `col`); outside the raster nothing changes and
    /// `false` is returned.
    pub fn put(&mut self, row: usize, col: usize, value: i64) -> (done: bool)
        ensures
            done == old(self).contains_cell(row as int, col as int),
            final(self).rows() == old(self).rows(),
            final(self).cols() == old(self).cols(),
            forall|r: int, c: int|
                old(self).contains_cell(r, c) ==> #[trigger] final(self).at(r, c) == if done && r
                    == row && c == col {
                    value
                } else {
                    old(self).at(r, c)
                },
    {
        let d = grid_dim(self);
        if row < d.0 && col < d.1 {
            grid_set(self, row, col, value);
            true
        } else {
            false
        }
    }
}

} // verus!
