//! Refinement of shadow boundaries.
//!
//! A cell away from the rim of the grid is a boundary cell when one of its
//! eight neighbours differs from it by more than half a shadow.  Such a cell
//! gets the mean of a regular grid of rays cast from within it.

use crate::grid::{grid_dim, grid_filled, grid_get, Grid};
use crate::kernel::{calculate_subpixel_shadow, point_occluded, SunRay, UNIT};
use vstd::prelude::*;

verus! {

/// The two shadow values differ by more than half a shadow.
pub open spec fn differs(a: int, b: int) -> bool {
    a - b > 32 || b - a > 32
}

/// The cell has all eight neighbours.
pub open spec fn is_interior(map: &Grid, r: int, c: int) -> bool {
    1 <= r && r + 1 < map.rows() && 1 <= c && c + 1 < map.cols()
}

/// One of the eight neighbours of the cell differs from it by more than half
/// a shadow.
pub open spec fn is_edge(map: &Grid, r: int, c: int) -> bool {
    let v = map.at(r, c) as int;
    ||| differs(map.at(r - 1, c - 1) as int, v)
    ||| differs(map.at(r - 1, c) as int, v)
    ||| differs(map.at(r - 1, c + 1) as int, v)
    ||| differs(map.at(r, c - 1) as int, v)
    ||| differs(map.at(r, c + 1) as int, v)
    ||| differs(map.at(r + 1, c - 1) as int, v)
    ||| differs(map.at(r + 1, c) as int, v)
    ||| differs(map.at(r + 1, c + 1) as int, v)
}

fn differ(a: i64, b: i64) -> (d: bool)
    ensures
        d == differs(a as int, b as int),
{
    let gap: i128 = (a as i128) - (b as i128);
    gap > 32 || gap < -32
}

/// Whether the cell lies on a shadow boundary.
pub fn is_shadow_edge(map: &Grid, row: usize, col: usize) -> (e: bool)
    requires
        is_interior(map, row as int, col as int),
    ensures
        e == is_edge(map, row as int, col as int),
{
    let d = grid_dim(map);
    assert(row + 1 < d.0 && col + 1 < d.1);
    let v: i64 = grid_get(map, row, col);
    differ(grid_get(map, row - 1, col - 1), v) || differ(grid_get(map, row - 1, col), v) || differ(
        grid_get(map, row - 1, col + 1),
        v,
    ) || differ(grid_get(map, row, col - 1), v) || differ(grid_get(map, row, col + 1), v)
        || differ(grid_get(map, row + 1, col - 1), v) || differ(grid_get(map, row + 1, col), v)
        || differ(grid_get(map, row + 1, col + 1), v)
}

/// Rays per side that a refinement can use.
pub open spec fn valid_samples(k: int) -> bool {
    k == 1 || k == 2 || k == 4 || k == 8
}

/// Offset, within its cell, of the centre of part `i` of `k` equal parts.
pub open spec fn sub_offset(i: int, k: int) -> int {
    (2 * i + 1) * (2_000_000int / k)
}

/// The surface hides the sun from the centre of part `index` of the
/// `k` by `k` parts of cell (`row`, `col`), counted row by row.
pub open spec fn part_occluded(
    g: &Grid,
    row: int,
    col: int,
    sun: SunRay,
    resolution_mm: int,
    buffer_mm: int,
    k: int,
    index: int,
) -> bool {
    point_occluded(
        g,
        row * UNIT + sub_offset(index / k, k),
        col * UNIT + sub_offset(index % k, k),
        sun,
        resolution_mm,
        buffer_mm,
    )
}

/// Number of the first `upto` parts of the cell from whose centre the sun is hidden.
pub open spec fn parts_occluded(
    g: &Grid,
    row: int,
    col: int,
    sun: SunRay,
    resolution_mm: int,
    buffer_mm: int,
    k: int,
    upto: int,
) -> int
    decreases upto,
{
    if upto <= 0 {
        0
    } else {
        parts_occluded(g, row, col, sun, resolution_mm, buffer_mm, k, upto - 1) + if part_occluded(
            g,
            row,
            col,
            sun,
            resolution_mm,
            buffer_mm,
            k,
            upto - 1,
        ) {
            1int
        } else {
            0int
        }
    }
}

/// Shadow value of the cell as the share of its `k` by `k` parts from whose
/// centre the sun is hidden.
pub open spec fn subsample_value(
    g: &Grid,
    row: int,
    col: int,
    sun: SunRay,
    resolution_mm: int,
    buffer_mm: int,
    k: int,
) -> int {
    parts_occluded(g, row, col, sun, resolution_mm, buffer_mm, k, k * k) * (64int / (k * k))
}

proof fn lemma_parts_bounds(
    g: &Grid,
    row: int,
    col: int,
    sun: SunRay,
    resolution_mm: int,
    buffer_mm: int,
    k: int,
    upto: int,
)
    requires
        0 <= upto,
    ensures
        0 <= parts_occluded(g, row, col, sun, resolution_mm, buffer_mm, k, upto) <= upto,
    decreases upto,
{
    if upto > 0 {
        lemma_parts_bounds(g, row, col, sun, resolution_mm, buffer_mm, k, upto - 1);
    }
}

/// The refined shadow value lies between fully lit and fully shadowed.
pub proof fn lemma_subsample_bounds(
    g: &Grid,
    row: int,
    col: int,
    sun: SunRay,
    resolution_mm: int,
    buffer_mm: int,
    k: int,
)
    requires
        valid_samples(k),
    ensures
        0 <= subsample_value(g, row, col, sun, resolution_mm, buffer_mm, k) <= 64,
{
    assert(k * k == 1 || k * k == 4 || k * k == 16 || k * k == 64) by (nonlinear_arith)
        requires
            valid_samples(k),
    ;
    lemma_parts_bounds(g, row, col, sun, resolution_mm, buffer_mm, k, k * k);
    let hits = parts_occluded(g, row, col, sun, resolution_mm, buffer_mm, k, k * k);
    let weight = 64int / (k * k);
    assert(0 <= hits * weight <= 64) by (nonlinear_arith)
        requires
            0 <= hits <= k * k,
            (k * k == 1 && weight == 64) || (k * k == 4 && weight == 16) || (k * k == 16 && weight
                == 4) || (k * k == 64 && weight == 1),
    ;
}

/// Shadow value of a cell from `samples` by `samples` rays cast from the
/// centres of its equal parts.
pub fn subsample_cell(
    g: &Grid,
    row: usize,
    col: usize,
    sun: &SunRay,
    resolution_mm: u32,
    buffer_mm: u32,
    samples: usize,
) -> (v: i64)
    requires
        valid_samples(samples as int),
        row + 1 < g.rows(),
        col + 1 < g.cols(),
        resolution_mm > 0,
    ensures
        v == subsample_value(
            g,
            row as int,
            col as int,
            *sun,
            resolution_mm as int,
            buffer_mm as int,
            samples as int,
        ),
        0 <= v <= 64,
{
    let half: i128 = 2_000_000 / (samples as i128);
    let total: usize = if samples == 1 {
        1
    } else if samples == 2 {
        4
    } else if samples == 4 {
        16
    } else {
        64
    };
    let weight: i64 = if samples == 1 {
        64
    } else if samples == 2 {
        16
    } else if samples == 4 {
        4
    } else {
        1
    };
    assert(total == samples * samples && weight == 64int / (samples * samples)) by (nonlinear_arith)
        requires
            (samples == 1 && total == 1 && weight == 64) || (samples == 2 && total == 4 && weight
                == 16) || (samples == 4 && total == 16 && weight == 4) || (samples == 8 && total
                == 64 && weight == 1),
    ;
    let mut hits: i64 = 0;
    let mut index: usize = 0;
    while index < total
        invariant
            valid_samples(samples as int),
            row + 1 < g.rows(),
            col + 1 < g.cols(),
            resolution_mm > 0,
            half == 2_000_000int / (samples as int),
            total == samples * samples,
            total <= 64,
            index <= total,
            0 <= hits <= index,
            hits == parts_occluded(
                g,
                row as int,
                col as int,
                *sun,
                resolution_mm as int,
                buffer_mm as int,
                samples as int,
                index as int,
            ),
        decreases total - index,
    {
        let i: i128 = (index / samples) as i128;
        let j: i128 = (index % samples) as i128;
        assert(i < samples) by (nonlinear_arith)
            requires
                i == index / samples,
                index < samples * samples,
                samples > 0,
        ;
        assert(0 < (2 * i + 1) * half < 4_000_000 && 0 < (2 * j + 1) * half < 4_000_000)
            by (nonlinear_arith)
            requires
                0 <= i < samples,
                0 <= j < samples,
                (samples == 1 && half == 2_000_000) || (samples == 2 && half == 1_000_000) || (
                samples == 4 && half == 500_000) || (samples == 8 && half == 250_000),
        ;
        let y: i128 = (row as i128) * 4_000_000 + (2 * i + 1) * half;
        let x: i128 = (col as i128) * 4_000_000 + (2 * j + 1) * half;
        let s: i64 = calculate_subpixel_shadow(g, y, x, sun, resolution_mm, buffer_mm);
        if s > 0 {
            hits = hits + 1;
        }
        index += 1;
    }
    proof {
        lemma_subsample_bounds(
            g,
            row as int,
            col as int,
            *sun,
            resolution_mm as int,
            buffer_mm as int,
            samples as int,
        );
    }
    hits * weight
}

/// The value of a cell after refinement: resampled on a boundary, kept elsewhere.
pub open spec fn refined_value(
    map: &Grid,
    surface: &Grid,
    sun: SunRay,
    resolution_mm: int,
    buffer_mm: int,
    k: int,
    r: int,
    c: int,
) -> int {
    if is_interior(map, r, c) && is_edge(map, r, c) {
        subsample_value(surface, r, c, sun, resolution_mm, buffer_mm, k)
    } else {
        map.at(r, c) as int
    }
}

/// `refined` is `map` with every boundary cell resampled.
pub open spec fn is_refinement_of(
    refined: &Grid,
    map: &Grid,
    surface: &Grid,
    sun: SunRay,
    resolution_mm: int,
    buffer_mm: int,
    k: int,
) -> bool {
    &&& refined.rows() == map.rows()
    &&& refined.cols() == map.cols()
    &&& forall|r: int, c: int|
        map.contains_cell(r, c) ==> #[trigger] refined.at(r, c) == refined_value(
            map,
            surface,
            sun,
            resolution_mm,
            buffer_mm,
            k,
            r,
            c,
        )
}

/// The value of one cell after refinement.
fn refine_cell(
    map: &Grid,
    surface: &Grid,
    sun: &SunRay,
    resolution_mm: u32,
    buffer_mm: u32,
    samples: usize,
    row: usize,
    col: usize,
) -> (v: i64)
    requires
        map.rows() == surface.rows(),
        map.cols() == surface.cols(),
        map.contains_cell(row as int, col as int),
        valid_samples(samples as int),
        resolution_mm > 0,
    ensures
        v == refined_value(
            map,
            surface,
            *sun,
            resolution_mm as int,
            buffer_mm as int,
            samples as int,
            row as int,
            col as int,
        ),
{
    let d = grid_dim(map);
    if row >= 1 && col >= 1 && row < d.0 - 1 && col < d.1 - 1 && is_shadow_edge(map, row, col) {
        subsample_cell(surface, row, col, sun, resolution_mm, buffer_mm, samples)
    } else {
        grid_get(map, row, col)
    }
}

/// Replaces every boundary cell of `map` by the mean of `samples` by
/// `samples` rays over `surface`; boundaries are those of `map` as given.
pub fn refine_shadow_edges(
    map: &Grid,
    surface: &Grid,
    sun: &SunRay,
    resolution_mm: u32,
    buffer_mm: u32,
    samples: usize,
) -> (refined: Grid)
    requires
        map.rows() == surface.rows(),
        map.cols() == surface.cols(),
        valid_samples(samples as int),
        resolution_mm > 0,
    ensures
        is_refinement_of(
            &refined,
            map,
            surface,
            *sun,
            resolution_mm as int,
            buffer_mm as int,
            samples as int,
        ),
{
    let d = grid_dim(map);
    let mut refined: Grid = grid_filled(d.0, d.1, 0);
    let mut r: usize = 0;
    while r < d.0
        invariant
            map.rows() == surface.rows(),
            map.cols() == surface.cols(),
            valid_samples(samples as int),
            resolution_mm > 0,
            d.0 == map.rows(),
            d.1 == map.cols(),
            refined.rows() == d.0,
            refined.cols() == d.1,
            r <= d.0,
            forall|i: int, j: int|
                0 <= i < r && 0 <= j < d.1 ==> #[trigger] refined.at(i, j) == refined_value(
                    map,
                    surface,
                    *sun,
                    resolution_mm as int,
                    buffer_mm as int,
                    samples as int,
                    i,
                    j,
                ),
        decreases d.0 - r,
    {
        let mut c: usize = 0;
        while c < d.1
            invariant
                map.rows() == surface.rows(),
                map.cols() == surface.cols(),
                valid_samples(samples as int),
                resolution_mm > 0,
                d.0 == map.rows(),
                d.1 == map.cols(),
                refined.rows() == d.0,
                refined.cols() == d.1,
                r < d.0,
                c <= d.1,
                forall|i: int, j: int|
                    (0 <= i < r && 0 <= j < d.1) || (i == r && 0 <= j < c)
                        ==> #[trigger] refined.at(i, j) == refined_value(
                        map,
                        surface,
                        *sun,
                        resolution_mm as int,
                        buffer_mm as int,
                        samples as int,
                        i,
                        j,
                    ),
            decreases d.1 - c,
        {
            let v: i64 = refine_cell(map, surface, sun, resolution_mm, buffer_mm, samples, r, c);
            refined.store(r, c, v);
            c += 1;
        }
        r += 1;
    }
    refined
}

} // verus!
