//! Selection of the cells that are worth a ray.
//!
//! Every cell within the pixel bounds of the area of interest is kept.  A cell
//! outside is kept only when it stands at least half a metre above the ground,
//! lies within the shadow buffer of the bounds, on the side from which shadows
//! fall towards the area, and is tall enough for its shadow to get there.

use crate::grid::{grid_dim, grid_get, Grid};
use crate::kernel::SunRay;
use vstd::prelude::*;

verus! {

/// Obstacles lower than this, in millimetres, cast no shadow worth a ray.
pub const MIN_OBSTACLE_MM: i64 = 500;

/// A rectangle of cells: rows `min_row` to `max_row` and columns `min_col`
/// to `max_col`, all four included.
#[derive(Debug, Clone, Copy, PartialEq, Eq, Structural)]
pub struct PixelBounds {
    pub min_row: usize,
    pub max_row: usize,
    pub min_col: usize,
    pub max_col: usize,
}

impl PixelBounds {
    pub open spec fn holds(self, r: int, c: int) -> bool {
        self.min_row <= r <= self.max_row && self.min_col <= c <= self.max_col
    }

    /// The rectangle is not empty and lies on a grid of the given shape.
    pub open spec fn fits(self, rows: int, cols: int) -> bool {
        self.min_row <= self.max_row < rows && self.min_col <= self.max_col < cols
    }

    pub open spec fn center_row(self) -> int {
        (self.min_row + self.max_row) / 2
    }

    pub open spec fn center_col(self) -> int {
        (self.min_col + self.max_col) / 2
    }

    pub fn contains(&self, row: usize, col: usize) -> (b: bool)
        ensures
            b == self.holds(row as int, col as int),
    {
        self.min_row <= row && row <= self.max_row && self.min_col <= col && col <= self.max_col
    }
}

/// `d` is the square root of `q`, rounded down.
pub open spec fn is_floor_sqrt(q: int, d: int) -> bool {
    0 <= d && d * d <= q < (d + 1) * (d + 1)
}

/// The square root of `q`, rounded down.
pub open spec fn floor_sqrt(q: int) -> int {
    choose|d: int| is_floor_sqrt(q, d)
}

/// At most one number is the square root of `q`, rounded down.
pub proof fn lemma_floor_sqrt_unique(q: int, d: int, e: int)
    requires
        is_floor_sqrt(q, d),
        is_floor_sqrt(q, e),
    ensures
        d == e,
{
    if d < e {
        assert((d + 1) * (d + 1) <= e * e) by (nonlinear_arith)
            requires
                0 <= d,
                d + 1 <= e,
        ;
    }
    if e < d {
        assert((e + 1) * (e + 1) <= d * d) by (nonlinear_arith)
            requires
                0 <= e,
                e + 1 <= d,
        ;
    }
}

/// Every number that is not negative has a square root, rounded down.
pub proof fn lemma_floor_sqrt_exists(q: int)
    requires
        q >= 0,
    ensures
        is_floor_sqrt(q, floor_sqrt(q)),
    decreases q,
{
    if q == 0 {
        assert(is_floor_sqrt(0, 0));
    } else {
        lemma_floor_sqrt_exists(q - 1);
        let d = floor_sqrt(q - 1);
        if (d + 1) * (d + 1) <= q {
            assert((d + 2) * (d + 2) > q) by (nonlinear_arith)
                requires
                    (d + 1) * (d + 1) > q - 1,
                    d >= 0,
            ;
            assert(is_floor_sqrt(q, d + 1));
        } else {
            assert(is_floor_sqrt(q, d));
        }
    }
}

/// A number whose square does not exceed `q` does not exceed the root of `q`.
pub proof fn lemma_floor_sqrt_lower(q: int, d: int)
    requires
        0 <= d,
        d * d <= q,
    ensures
        d <= floor_sqrt(q),
{
    lemma_floor_sqrt_exists(q);
    let e = floor_sqrt(q);
    if e < d {
        assert((e + 1) * (e + 1) <= d * d) by (nonlinear_arith)
            requires
                0 <= e,
                e + 1 <= d,
        ;
    }
}

/// The square root of `q`, rounded down.
pub fn isqrt(q: u128) -> (d: u128)
    ensures
        is_floor_sqrt(q as int, d as int),
        d == floor_sqrt(q as int),
        d < 0x1_0000_0000_0000_0000,
{
    let mut low: u128 = 0;
    let mut high: u128 = 0x1_0000_0000_0000_0000;
    assert(high * high > q) by (nonlinear_arith)
        requires
            high == 0x1_0000_0000_0000_0000,
            q <= u128::MAX,
    ;
    while high - low > 1
        invariant
            low < high <= 0x1_0000_0000_0000_0000,
            low * low <= q < high * high,
        decreases high - low,
    {
        let mid: u128 = low + (high - low) / 2;
        assert(mid * mid < 0x1_0000_0000_0000_0000 * 0x1_0000_0000_0000_0000) by (nonlinear_arith)
            requires
                0 <= mid < 0x1_0000_0000_0000_0000,
        ;
        if mid * mid <= q {
            low = mid;
        } else {
            high = mid;
        }
    }
    proof {
        lemma_floor_sqrt_unique(q as int, low as int, floor_sqrt(q as int));
    }
    low
}

/// Distance of `v` from the interval `low` to `high`.
pub open spec fn axis_gap(v: int, low: int, high: int) -> int {
    if v < low {
        low - v
    } else if v > high {
        v - high
    } else {
        0
    }
}

/// Distance in whole cells, rounded down, from cell (`r`, `c`) to the rectangle.
pub open spec fn distance_to_bounds(bounds: PixelBounds, r: int, c: int) -> int {
    let rows = axis_gap(r, bounds.min_row as int, bounds.max_row as int);
    let cols = axis_gap(c, bounds.min_col as int, bounds.max_col as int);
    floor_sqrt(rows * rows + cols * cols)
}

fn gap(v: usize, low: usize, high: usize) -> (g: usize)
    requires
        low <= high,
    ensures
        g == axis_gap(v as int, low as int, high as int),
{
    if v < low {
        low - v
    } else if v > high {
        v - high
    } else {
        0
    }
}

/// A cell outside the rectangle can send its shadow into it: it lies within
/// `buffer_mm` of the rectangle, on the side from which shadows fall towards
/// its centre, and its height above ground is at least half of what a shadow
/// of that length takes.
pub open spec fn can_reach_area(
    heights: &Grid,
    bounds: PixelBounds,
    sun: SunRay,
    resolution_mm: int,
    buffer_mm: int,
    r: int,
    c: int,
) -> bool {
    let dist = distance_to_bounds(bounds, r, c);
    let to_x = bounds.center_col() - c;
    let to_y = bounds.center_row() - r;
    &&& dist <= buffer_mm / resolution_mm
    &&& sun.shadow_x * to_x + sun.shadow_y * to_y > 0
    &&& 2_000_000 * heights.at(r, c) >= dist * resolution_mm * sun.tan_elevation
}

/// The cell is worth a ray.
pub open spec fn is_candidate(
    heights: &Grid,
    bounds: PixelBounds,
    sun: SunRay,
    resolution_mm: int,
    buffer_mm: int,
    r: int,
    c: int,
) -> bool {
    bounds.holds(r, c) || (heights.at(r, c) >= 500 && can_reach_area(
        heights,
        bounds,
        sun,
        resolution_mm,
        buffer_mm,
        r,
        c,
    ))
}

/// Whether a cell outside the rectangle can send its shadow into it.
pub fn can_cast_shadow_into_aoi(
    heights: &Grid,
    bounds: &PixelBounds,
    sun: &SunRay,
    resolution_mm: u32,
    buffer_mm: u32,
    row: usize,
    col: usize,
) -> (b: bool)
    requires
        heights.contains_cell(row as int, col as int),
        bounds.min_row <= bounds.max_row,
        bounds.min_col <= bounds.max_col,
        resolution_mm > 0,
    ensures
        b == can_reach_area(
            heights,
            *bounds,
            *sun,
            resolution_mm as int,
            buffer_mm as int,
            row as int,
            col as int,
        ),
{
    let reach: u128 = (buffer_mm / resolution_mm) as u128;
    let rows: u128 = gap(row, bounds.min_row, bounds.max_row) as u128;
    let cols: u128 = gap(col, bounds.min_col, bounds.max_col) as u128;
    if rows > reach || cols > reach {
        proof {
            let far: int = if rows > reach {
                rows as int
            } else {
                cols as int
            };
            assert(far * far <= rows * rows + cols * cols) by (nonlinear_arith)
                requires
                    far == rows || far == cols,
                    rows >= 0,
                    cols >= 0,
            ;
            lemma_floor_sqrt_lower(rows * rows + cols * cols, far);
        }
        return false;
    }
    assert(rows * rows <= 0x1_0000_0000 * 0x1_0000_0000 && cols * cols <= 0x1_0000_0000
        * 0x1_0000_0000) by (nonlinear_arith)
        requires
            0 <= rows <= 0x1_0000_0000,
            0 <= cols <= 0x1_0000_0000,
    ;
    let dist: u128 = isqrt(rows * rows + cols * cols);
    if dist > reach {
        return false;
    }
    let center_row: i128 = (((bounds.min_row as u128) + (bounds.max_row as u128)) / 2) as i128;
    let center_col: i128 = (((bounds.min_col as u128) + (bounds.max_col as u128)) / 2) as i128;
    let to_x: i128 = center_col - (col as i128);
    let to_y: i128 = center_row - (row as i128);
    proof {
        crate::kernel::lemma_signed_product_bounds(
            sun.shadow_x as int,
            to_x as int,
            0x8000_0000,
            0x1_0000_0000_0000_0000,
        );
        crate::kernel::lemma_signed_product_bounds(
            sun.shadow_y as int,
            to_y as int,
            0x8000_0000,
            0x1_0000_0000_0000_0000,
        );
    }
    let alignment: i128 = (sun.shadow_x as i128) * to_x + (sun.shadow_y as i128) * to_y;
    if alignment <= 0 {
        return false;
    }
    let height: i128 = grid_get(heights, row, col) as i128;
    assert(0 <= dist * resolution_mm <= 0xFFFF_FFFF) by (nonlinear_arith)
        requires
            0 <= dist <= buffer_mm / resolution_mm,
            resolution_mm > 0,
            buffer_mm <= 0xFFFF_FFFF,
    ;
    let span: i128 = (dist as i128) * (resolution_mm as i128);
    proof {
        crate::kernel::lemma_signed_product_bounds(
            span as int,
            sun.tan_elevation as int,
            0xFFFF_FFFF,
            0x8000_0000_0000_0000,
        );
    }
    2_000_000 * height >= span * (sun.tan_elevation as i128)
}

/// `a` comes before `b` when the grid is read row by row.
pub open spec fn row_major_before(a: (usize, usize), b: (usize, usize)) -> bool {
    a.0 < b.0 || (a.0 == b.0 && a.1 < b.1)
}

/// `cells` lists, row by row and each once, exactly the cells of the grid
/// that are worth a ray.
pub open spec fn selects(
    cells: Seq<(usize, usize)>,
    heights: &Grid,
    bounds: PixelBounds,
    sun: SunRay,
    resolution_mm: int,
    buffer_mm: int,
) -> bool {
    &&& forall|p: int|
        0 <= p < cells.len() ==> heights.contains_cell(
            (#[trigger] cells[p]).0 as int,
            cells[p].1 as int,
        ) && is_candidate(
            heights,
            bounds,
            sun,
            resolution_mm,
            buffer_mm,
            cells[p].0 as int,
            cells[p].1 as int,
        )
    &&& forall|r: usize, c: usize|
        heights.contains_cell(r as int, c as int) && #[trigger] is_candidate(
            heights,
            bounds,
            sun,
            resolution_mm,
            buffer_mm,
            r as int,
            c as int,
        ) ==> cells.contains((r, c))
    &&& forall|p: int, q: int|
        0 <= p < q < cells.len() ==> row_major_before(#[trigger] cells[p], #[trigger] cells[q])
}

/// Whether the cell is worth a ray.
pub fn is_relevant_cell(
    heights: &Grid,
    bounds: &PixelBounds,
    sun: &SunRay,
    resolution_mm: u32,
    buffer_mm: u32,
    row: usize,
    col: usize,
) -> (b: bool)
    requires
        heights.contains_cell(row as int, col as int),
        bounds.min_row <= bounds.max_row,
        bounds.min_col <= bounds.max_col,
        resolution_mm > 0,
    ensures
        b == is_candidate(
            heights,
            *bounds,
            *sun,
            resolution_mm as int,
            buffer_mm as int,
            row as int,
            col as int,
        ),
{
    if bounds.contains(row, col) {
        true
    } else if grid_get(heights, row, col) < MIN_OBSTACLE_MM {
        false
    } else {
        can_cast_shadow_into_aoi(heights, bounds, sun, resolution_mm, buffer_mm, row, col)
    }
}

/// The cells that are worth a ray at this position of the sun, row by row.
pub fn get_shadow_relevant_cells(
    heights: &Grid,
    bounds: &PixelBounds,
    sun: &SunRay,
    resolution_mm: u32,
    buffer_mm: u32,
) -> (out: Vec<(usize, usize)>)
    requires
        bounds.min_row <= bounds.max_row,
        bounds.min_col <= bounds.max_col,
        resolution_mm > 0,
    ensures
        selects(out@, heights, *bounds, *sun, resolution_mm as int, buffer_mm as int),
{
    let d = grid_dim(heights);
    let mut out: Vec<(usize, usize)> = Vec::new();
    let mut r: usize = 0;
    while r < d.0
        invariant
            d.0 == heights.rows(),
            d.1 == heights.cols(),
            bounds.min_row <= bounds.max_row,
            bounds.min_col <= bounds.max_col,
            resolution_mm > 0,
            r <= d.0,
            forall|p: int|
                0 <= p < out.len() ==> heights.contains_cell(
                    (#[trigger] out[p]).0 as int,
                    out[p].1 as int,
                ) && is_candidate(
                    heights,
                    *bounds,
                    *sun,
                    resolution_mm as int,
                    buffer_mm as int,
                    out[p].0 as int,
                    out[p].1 as int,
                ) && out[p].0 < r,
            forall|i: usize, j: usize|
                i < r && j < d.1 && #[trigger] is_candidate(
                    heights,
                    *bounds,
                    *sun,
                    resolution_mm as int,
                    buffer_mm as int,
                    i as int,
                    j as int,
                ) ==> out@.contains((i, j)),
            forall|p: int, q: int|
                0 <= p < q < out.len() ==> row_major_before(#[trigger] out[p], #[trigger] out[q]),
        decreases d.0 - r,
    {
        let mut c: usize = 0;
        while c < d.1
            invariant
                d.0 == heights.rows(),
                d.1 == heights.cols(),
                bounds.min_row <= bounds.max_row,
                bounds.min_col <= bounds.max_col,
                resolution_mm > 0,
                r < d.0,
                c <= d.1,
                forall|p: int|
                    0 <= p < out.len() ==> heights.contains_cell(
                        (#[trigger] out[p]).0 as int,
                        out[p].1 as int,
                    ) && is_candidate(
                        heights,
                        *bounds,
                        *sun,
                        resolution_mm as int,
                        buffer_mm as int,
                        out[p].0 as int,
                        out[p].1 as int,
                    ) && (out[p].0 < r || (out[p].0 == r && out[p].1 < c)),
                forall|i: usize, j: usize|
                    (i < r && j < d.1 || i == r && j < c) && #[trigger] is_candidate(
                        heights,
                        *bounds,
                        *sun,
                        resolution_mm as int,
                        buffer_mm as int,
                        i as int,
                        j as int,
                    ) ==> out@.contains((i, j)),
                forall|p: int, q: int|
                    0 <= p < q < out.len() ==> row_major_before(
                        #[trigger] out[p],
                        #[trigger] out[q],
                    ),
            decreases d.1 - c,
        {
            let keep: bool = is_relevant_cell(heights, bounds, sun, resolution_mm, buffer_mm, r, c);
            if keep {
                let ghost before = out@;
                out.push((r, c));
                proof {
                    assert(out@[before.len() as int] == (r, c));
                    assert forall|i: usize, j: usize|
                        (i < r && j < d.1 || i == r && j < c + 1) && #[trigger] is_candidate(
                            heights,
                            *bounds,
                            *sun,
                            resolution_mm as int,
                            buffer_mm as int,
                            i as int,
                            j as int,
                        ) implies out@.contains((i, j)) by {
                        if i == r && j == c {
                        } else {
                            assert(before.contains((i, j)));
                            let w = choose|w: int| 0 <= w < before.len() && before[w] == (i, j);
                            assert(out@[w] == (i, j));
                        }
                    }
                }
            }
            c += 1;
        }
        r += 1;
    }
    out
}

} // verus!
