//! The shadow map of one instant.
//!
//! Rays are cast from the cells that the selector keeps, every other cell
//! counts as lit; boundaries are then refined as the quality asks.

use crate::grid::{grid_dim, grid_filled, Grid};
use crate::kernel::{
    calculate_cell_shadow, cell_occluded, law_flat_surface_lights_cell,
    law_raised_surface_keeps_cell_shadow, raised, SunRay,
};
use crate::refinement::{
    is_edge, is_interior, is_refinement_of, lemma_subsample_bounds, refine_shadow_edges,
    refined_value,
};
use crate::selector::{get_shadow_relevant_cells, is_candidate, selects, PixelBounds};
use crate::types::ShadowQuality;
use vstd::prelude::*;

verus! {

/// The shadow value found for one cell.
#[derive(Debug, Clone, Copy, PartialEq, Eq, Structural)]
pub struct CellShadow {
    pub row: usize,
    pub col: usize,
    pub shadow: i64,
}

/// The value that the first `upto` entries leave at cell (`r`, `c`): that of
/// the last entry for the cell, zero when there is none.
pub open spec fn assigned(values: Seq<CellShadow>, r: int, c: int, upto: int) -> i64
    decreases upto,
{
    if upto <= 0 {
        0
    } else if values[upto - 1].row == r && values[upto - 1].col == c {
        values[upto - 1].shadow
    } else {
        assigned(values, r, c, upto - 1)
    }
}

/// A map of the shape of `like` that holds the listed values and zero
/// elsewhere; entries outside the shape are passed over.
pub fn assemble_shadow_map(like: &Grid, values: &Vec<CellShadow>) -> (map: Grid)
    ensures
        map.rows() == like.rows(),
        map.cols() == like.cols(),
        forall|r: int, c: int|
            like.contains_cell(r, c) ==> #[trigger] map.at(r, c) == assigned(
                values@,
                r,
                c,
                values.len() as int,
            ),
{
    let d = grid_dim(like);
    let mut map: Grid = grid_filled(d.0, d.1, 0);
    let mut p: usize = 0;
    while p < values.len()
        invariant
            d.0 == like.rows(),
            d.1 == like.cols(),
            map.rows() == d.0,
            map.cols() == d.1,
            p <= values.len(),
            forall|r: int, c: int|
                like.contains_cell(r, c) ==> #[trigger] map.at(r, c) == assigned(
                    values@,
                    r,
                    c,
                    p as int,
                ),
        decreases values.len() - p,
    {
        let entry: CellShadow = values[p];
        if entry.row < d.0 && entry.col < d.1 {
            map.store(entry.row, entry.col, entry.shadow);
        }
        p += 1;
    }
    map
}

/// Shadow value of a cell from a ray cast from its top.
pub open spec fn kernel_value(
    surface: &Grid,
    sun: SunRay,
    resolution_mm: int,
    buffer_mm: int,
    r: int,
    c: int,
) -> i64 {
    if cell_occluded(surface, r, c, sun, resolution_mm, buffer_mm) {
        64
    } else {
        0
    }
}

/// Casts a ray from each listed cell, in order.
pub fn cast_cell_shadows(
    surface: &Grid,
    cells: &Vec<(usize, usize)>,
    sun: &SunRay,
    resolution_mm: u32,
    buffer_mm: u32,
) -> (out: Vec<CellShadow>)
    requires
        forall|p: int|
            0 <= p < cells.len() ==> surface.contains_cell(
                (#[trigger] cells[p]).0 as int,
                cells[p].1 as int,
            ),
        resolution_mm > 0,
    ensures
        out.len() == cells.len(),
        forall|p: int|
            0 <= p < out.len() ==> (#[trigger] out[p]).row == cells[p].0 && out[p].col
                == cells[p].1 && out[p].shadow == kernel_value(
                surface,
                *sun,
                resolution_mm as int,
                buffer_mm as int,
                cells[p].0 as int,
                cells[p].1 as int,
            ),
{
    let mut out: Vec<CellShadow> = Vec::new();
    let mut p: usize = 0;
    while p < cells.len()
        invariant
            forall|q: int|
                0 <= q < cells.len() ==> surface.contains_cell(
                    (#[trigger] cells[q]).0 as int,
                    cells[q].1 as int,
                ),
            resolution_mm > 0,
            p <= cells.len(),
            out.len() == p,
            forall|q: int|
                0 <= q < p ==> (#[trigger] out[q]).row == cells[q].0 && out[q].col == cells[q].1
                    && out[q].shadow == kernel_value(
                    surface,
                    *sun,
                    resolution_mm as int,
                    buffer_mm as int,
                    cells[q].0 as int,
                    cells[q].1 as int,
                ),
        decreases cells.len() - p,
    {
        let cell = cells[p];
        let shadow: i64 = calculate_cell_shadow(
            surface,
            cell.0,
            cell.1,
            sun,
            resolution_mm,
            buffer_mm,
        );
        out.push(CellShadow { row: cell.0, col: cell.1, shadow });
        p += 1;
    }
    out
}

/// Shadow value of a cell before refinement: that of its ray when the
/// selector keeps the cell, lit when it does not.
pub open spec fn whole_cell_value(
    surface: &Grid,
    heights: &Grid,
    bounds: PixelBounds,
    sun: SunRay,
    resolution_mm: int,
    buffer_mm: int,
    r: int,
    c: int,
) -> i64 {
    if is_candidate(heights, bounds, sun, resolution_mm, buffer_mm, r, c) {
        kernel_value(surface, sun, resolution_mm, buffer_mm, r, c)
    } else {
        0
    }
}

/// `map` holds the unrefined shadow value of every cell.
pub open spec fn is_whole_cell_map(
    map: &Grid,
    surface: &Grid,
    heights: &Grid,
    bounds: PixelBounds,
    sun: SunRay,
    resolution_mm: int,
    buffer_mm: int,
) -> bool {
    &&& map.rows() == surface.rows()
    &&& map.cols() == surface.cols()
    &&& forall|r: int, c: int|
        surface.contains_cell(r, c) ==> #[trigger] map.at(r, c) == whole_cell_value(
            surface,
            heights,
            bounds,
            sun,
            resolution_mm,
            buffer_mm,
            r,
            c,
        )
}

proof fn lemma_assigned_from_list(
    values: Seq<CellShadow>,
    cells: Seq<(usize, usize)>,
    surface: &Grid,
    sun: SunRay,
    resolution_mm: int,
    buffer_mm: int,
    r: usize,
    c: usize,
    upto: int,
)
    requires
        values.len() == cells.len(),
        0 <= upto <= cells.len(),
        forall|p: int|
            0 <= p < values.len() ==> (#[trigger] values[p]).row == cells[p].0 && values[p].col
                == cells[p].1 && values[p].shadow == kernel_value(
                surface,
                sun,
                resolution_mm,
                buffer_mm,
                cells[p].0 as int,
                cells[p].1 as int,
            ),
    ensures
        assigned(values, r as int, c as int, upto) == if exists|p: int|
            0 <= p < upto && cells[p] == (r, c) {
            kernel_value(surface, sun, resolution_mm, buffer_mm, r as int, c as int)
        } else {
            0
        },
    decreases upto,
{
    if upto > 0 {
        lemma_assigned_from_list(
            values,
            cells,
            surface,
            sun,
            resolution_mm,
            buffer_mm,
            r,
            c,
            upto - 1,
        );
        let last = values[upto - 1];
        if last.row == r && last.col == c {
            assert(cells[upto - 1] == (r, c));
        } else {
            if exists|p: int| 0 <= p < upto && cells[p] == (r, c) {
                let p = choose|p: int| 0 <= p < upto && cells[p] == (r, c);
                assert(values[p].row == cells[p].0);
                assert(p < upto - 1);
            }
        }
    }
}

/// A map that holds the shadow values of exactly the cells that the
/// selector keeps, and zero elsewhere, is the unrefined shadow map.
pub proof fn lemma_cast_of_selection_is_whole_cell_map(
    map: &Grid,
    values: Seq<CellShadow>,
    cells: Seq<(usize, usize)>,
    surface: &Grid,
    heights: &Grid,
    bounds: PixelBounds,
    sun: SunRay,
    resolution_mm: int,
    buffer_mm: int,
)
    requires
        surface.rows() == heights.rows(),
        surface.cols() == heights.cols(),
        surface.rows() <= usize::MAX,
        surface.cols() <= usize::MAX,
        map.rows() == surface.rows(),
        map.cols() == surface.cols(),
        forall|r: int, c: int|
            map.contains_cell(r, c) ==> #[trigger] map.at(r, c) == assigned(
                values,
                r,
                c,
                values.len() as int,
            ),
        selects(cells, heights, bounds, sun, resolution_mm, buffer_mm),
        values.len() == cells.len(),
        forall|p: int|
            0 <= p < values.len() ==> (#[trigger] values[p]).row == cells[p].0 && values[p].col
                == cells[p].1 && values[p].shadow == kernel_value(
                surface,
                sun,
                resolution_mm,
                buffer_mm,
                cells[p].0 as int,
                cells[p].1 as int,
            ),
    ensures
        is_whole_cell_map(map, surface, heights, bounds, sun, resolution_mm, buffer_mm),
{
    assert forall|r: int, c: int| surface.contains_cell(r, c) implies #[trigger] map.at(r, c)
        == whole_cell_value(surface, heights, bounds, sun, resolution_mm, buffer_mm, r, c) by {
        lemma_assigned_from_list(
            values,
            cells,
            surface,
            sun,
            resolution_mm,
            buffer_mm,
            r as usize,
            c as usize,
            cells.len() as int,
        );
        if is_candidate(heights, bounds, sun, resolution_mm, buffer_mm, r, c) {
            assert(cells.contains((r as usize, c as usize)));
        } else {
            if exists|p: int| 0 <= p < cells.len() && cells[p] == (r as usize, c as usize) {
                let p = choose|p: int| 0 <= p < cells.len() && cells[p] == (r as usize, c as usize);
                assert(cells[p].0 == r && cells[p].1 == c);
            }
        }
    }
}

/// The shadow map before refinement.
pub fn whole_cell_map(
    surface: &Grid,
    heights: &Grid,
    bounds: &PixelBounds,
    sun: &SunRay,
    resolution_mm: u32,
    buffer_mm: u32,
) -> (map: Grid)
    requires
        surface.rows() == heights.rows(),
        surface.cols() == heights.cols(),
        bounds.min_row <= bounds.max_row,
        bounds.min_col <= bounds.max_col,
        resolution_mm > 0,
    ensures
        is_whole_cell_map(
            &map,
            surface,
            heights,
            *bounds,
            *sun,
            resolution_mm as int,
            buffer_mm as int,
        ),
{
    let cells: Vec<(usize, usize)> = get_shadow_relevant_cells(
        heights,
        bounds,
        sun,
        resolution_mm,
        buffer_mm,
    );
    let values: Vec<CellShadow> = cast_cell_shadows(surface, &cells, sun, resolution_mm, buffer_mm);
    let map: Grid = assemble_shadow_map(surface, &values);
    let d = grid_dim(surface);
    proof {
        lemma_cast_of_selection_is_whole_cell_map(
            &map,
            values@,
            cells@,
            surface,
            heights,
            *bounds,
            *sun,
            resolution_mm as int,
            buffer_mm as int,
        );
    }
    map
}

/// `out` is the shadow map of the instant by day: the unrefined map for
/// quality `Fast`, its refinement for the other qualities.
pub open spec fn is_shadow_map(
    out: &Grid,
    surface: &Grid,
    heights: &Grid,
    bounds: PixelBounds,
    sun: SunRay,
    resolution_mm: int,
    buffer_mm: int,
    quality: ShadowQuality,
) -> bool {
    if quality.spec_subsamples() == 0 {
        is_whole_cell_map(out, surface, heights, bounds, sun, resolution_mm, buffer_mm)
    } else {
        exists|base: Grid|
            #[trigger] is_whole_cell_map(
                &base,
                surface,
                heights,
                bounds,
                sun,
                resolution_mm,
                buffer_mm,
            ) && is_refinement_of(
                out,
                &base,
                surface,
                sun,
                resolution_mm,
                buffer_mm,
                quality.spec_subsamples() as int,
            )
    }
}

/// `out` is the shadow map of the instant: all shadow while the sun is not
/// above the horizon, the map by day otherwise.
pub open spec fn is_instant_shadow(
    out: &Grid,
    surface: &Grid,
    heights: &Grid,
    bounds: PixelBounds,
    sun: SunRay,
    resolution_mm: int,
    buffer_mm: int,
    quality: ShadowQuality,
) -> bool {
    if sun.elevation <= 0 {
        out.rows() == surface.rows() && out.cols() == surface.cols() && out.is_constant(64)
    } else {
        is_shadow_map(out, surface, heights, bounds, sun, resolution_mm, buffer_mm, quality)
    }
}

/// The shadow map of an instant at which the sun is up.
pub fn calculate_shadow_map(
    surface: &Grid,
    heights: &Grid,
    bounds: &PixelBounds,
    sun: &SunRay,
    resolution_mm: u32,
    buffer_mm: u32,
    quality: ShadowQuality,
) -> (out: Grid)
    requires
        surface.rows() == heights.rows(),
        surface.cols() == heights.cols(),
        bounds.min_row <= bounds.max_row,
        bounds.min_col <= bounds.max_col,
        resolution_mm > 0,
    ensures
        is_shadow_map(
            &out,
            surface,
            heights,
            *bounds,
            *sun,
            resolution_mm as int,
            buffer_mm as int,
            quality,
        ),
{
    let base: Grid = whole_cell_map(surface, heights, bounds, sun, resolution_mm, buffer_mm);
    let samples: usize = quality.subsamples();
    if samples == 0 {
        base
    } else {
        refine_shadow_edges(&base, surface, sun, resolution_mm, buffer_mm, samples)
    }
}

/// The shadow map of an instant: without ray work while the sun is not above
/// the horizon.
pub fn calculate_instant_shadow(
    surface: &Grid,
    heights: &Grid,
    bounds: &PixelBounds,
    sun: &SunRay,
    resolution_mm: u32,
    buffer_mm: u32,
    quality: ShadowQuality,
) -> (out: Grid)
    requires
        surface.rows() == heights.rows(),
        surface.cols() == heights.cols(),
        bounds.min_row <= bounds.max_row,
        bounds.min_col <= bounds.max_col,
        resolution_mm > 0,
    ensures
        is_instant_shadow(
            &out,
            surface,
            heights,
            *bounds,
            *sun,
            resolution_mm as int,
            buffer_mm as int,
            quality,
        ),
{
    if sun.elevation <= 0 {
        surface.filled_like(64)
    } else {
        calculate_shadow_map(surface, heights, bounds, sun, resolution_mm, buffer_mm, quality)
    }
}

/// Every value of a shadow map lies between fully lit and fully shadowed,
/// and is one of the two when boundaries are not refined.
pub proof fn law_shadow_values_bounded(
    out: &Grid,
    surface: &Grid,
    heights: &Grid,
    bounds: PixelBounds,
    sun: SunRay,
    resolution_mm: int,
    buffer_mm: int,
    quality: ShadowQuality,
)
    requires
        is_instant_shadow(out, surface, heights, bounds, sun, resolution_mm, buffer_mm, quality),
    ensures
        out.cells_within(0, 64),
        quality == ShadowQuality::Fast ==> forall|r: int, c: int|
            out.contains_cell(r, c) ==> #[trigger] out.at(r, c) == 0 || out.at(r, c) == 64,
{
    if sun.elevation <= 0 {
    } else if quality.spec_subsamples() == 0 {
    } else {
        let base = choose|base: Grid|
            #[trigger] is_whole_cell_map(
                &base,
                surface,
                heights,
                bounds,
                sun,
                resolution_mm,
                buffer_mm,
            ) && is_refinement_of(
                out,
                &base,
                surface,
                sun,
                resolution_mm,
                buffer_mm,
                quality.spec_subsamples() as int,
            );
        assert forall|r: int, c: int| out.contains_cell(r, c) implies 0 <= #[trigger] out.at(r, c)
            <= 64 by {
            assert(base.at(r, c) == 0 || base.at(r, c) == 64);
            lemma_subsample_bounds(
                surface,
                r,
                c,
                sun,
                resolution_mm,
                buffer_mm,
                quality.spec_subsamples() as int,
            );
        }
    }
}

/// While the sun is not above the horizon every cell is fully shadowed.
pub proof fn law_night_is_all_shadow(
    out: &Grid,
    surface: &Grid,
    heights: &Grid,
    bounds: PixelBounds,
    sun: SunRay,
    resolution_mm: int,
    buffer_mm: int,
    quality: ShadowQuality,
)
    requires
        is_instant_shadow(out, surface, heights, bounds, sun, resolution_mm, buffer_mm, quality),
        sun.elevation <= 0,
    ensures
        out.is_constant(64),
{
}

/// Over a level surface, with the sun above the horizon and not pointing
/// downwards, every cell is fully lit.
pub proof fn law_flat_terrain_is_lit(
    out: &Grid,
    surface: &Grid,
    heights: &Grid,
    bounds: PixelBounds,
    sun: SunRay,
    resolution_mm: int,
    buffer_mm: int,
    quality: ShadowQuality,
    level: i64,
)
    requires
        is_instant_shadow(out, surface, heights, bounds, sun, resolution_mm, buffer_mm, quality),
        surface.is_constant(level),
        sun.elevation > 0,
        sun.dz >= 0,
        resolution_mm >= 0,
    ensures
        out.is_constant(0),
{
    if quality.spec_subsamples() == 0 {
        assert forall|r: int, c: int| out.contains_cell(r, c) implies #[trigger] out.at(r, c)
            == 0 by {
            law_flat_surface_lights_cell(surface, level, r, c, sun, resolution_mm, buffer_mm);
        }
    } else {
        let base = choose|base: Grid|
            #[trigger] is_whole_cell_map(
                &base,
                surface,
                heights,
                bounds,
                sun,
                resolution_mm,
                buffer_mm,
            ) && is_refinement_of(
                out,
                &base,
                surface,
                sun,
                resolution_mm,
                buffer_mm,
                quality.spec_subsamples() as int,
            );
        assert forall|r: int, c: int| base.contains_cell(r, c) implies #[trigger] base.at(r, c)
            == 0 by {
            law_flat_surface_lights_cell(surface, level, r, c, sun, resolution_mm, buffer_mm);
        }
        assert forall|r: int, c: int| out.contains_cell(r, c) implies #[trigger] out.at(r, c)
            == 0 by {
            assert(base.at(r, c) == 0);
            if is_interior(&base, r, c) {
                assert(base.at(r - 1, c - 1) == 0 && base.at(r - 1, c) == 0 && base.at(
                    r - 1,
                    c + 1,
                ) == 0 && base.at(r, c - 1) == 0 && base.at(r, c + 1) == 0 && base.at(
                    r + 1,
                    c - 1,
                ) == 0 && base.at(r + 1, c) == 0 && base.at(r + 1, c + 1) == 0);
                assert(!is_edge(&base, r, c));
            }
        }
    }
}

/// The selector never costs a cell of the area its ray: within the bounds of
/// the area the unrefined map holds what a ray from the cell finds, as it
/// would if rays were cast from every cell of the grid.
pub proof fn law_selector_keeps_area(
    map: &Grid,
    surface: &Grid,
    heights: &Grid,
    bounds: PixelBounds,
    sun: SunRay,
    resolution_mm: int,
    buffer_mm: int,
    r: int,
    c: int,
)
    requires
        is_whole_cell_map(map, surface, heights, bounds, sun, resolution_mm, buffer_mm),
        surface.contains_cell(r, c),
        bounds.holds(r, c),
    ensures
        map.at(r, c) == kernel_value(surface, sun, resolution_mm, buffer_mm, r, c),
{
}

/// Raising the surface anywhere but under a cell of the area never lowers
/// the unrefined shadow value of that cell.
pub proof fn law_raised_surface_keeps_area_shadow(
    before: &Grid,
    after: &Grid,
    lower: &Grid,
    higher: &Grid,
    lower_heights: &Grid,
    higher_heights: &Grid,
    bounds: PixelBounds,
    sun: SunRay,
    resolution_mm: int,
    buffer_mm: int,
    r: int,
    c: int,
)
    requires
        is_whole_cell_map(before, lower, lower_heights, bounds, sun, resolution_mm, buffer_mm),
        is_whole_cell_map(after, higher, higher_heights, bounds, sun, resolution_mm, buffer_mm),
        raised(lower, higher),
        lower.contains_cell(r, c),
        bounds.holds(r, c),
        lower.at(r, c) == higher.at(r, c),
    ensures
        before.at(r, c) <= after.at(r, c),
{
    if cell_occluded(lower, r, c, sun, resolution_mm, buffer_mm) {
        law_raised_surface_keeps_cell_shadow(
            lower,
            higher,
            r,
            c,
            sun,
            resolution_mm,
            buffer_mm,
        );
    }
}

/// `map` holds, for every cell of the grid, what a ray from the cell finds.
pub open spec fn is_full_dispatch_map(
    map: &Grid,
    surface: &Grid,
    sun: SunRay,
    resolution_mm: int,
    buffer_mm: int,
) -> bool {
    &&& map.rows() == surface.rows()
    &&& map.cols() == surface.cols()
    &&& forall|r: int, c: int|
        surface.contains_cell(r, c) ==> #[trigger] map.at(r, c) == kernel_value(
            surface,
            sun,
            resolution_mm,
            buffer_mm,
            r,
            c,
        )
}

/// The cell and those of its eight neighbours that exist lie within the bounds.
pub open spec fn surrounded_by_area(surface: &Grid, bounds: PixelBounds, r: int, c: int) -> bool {
    forall|i: int, j: int|
        r - 1 <= i <= r + 1 && c - 1 <= j <= c + 1 && surface.contains_cell(i, j)
            ==> #[trigger] bounds.holds(i, j)
}

/// Refinement does not undo what the selector keeps: a cell of the area
/// whose neighbours lie within the bounds of the area gets the refined
/// shadow that it would get if rays were cast from every cell of the grid.
pub proof fn law_selector_keeps_refined_area(
    refined: &Grid,
    base: &Grid,
    full_refined: &Grid,
    full_base: &Grid,
    surface: &Grid,
    heights: &Grid,
    bounds: PixelBounds,
    sun: SunRay,
    resolution_mm: int,
    buffer_mm: int,
    k: int,
    r: int,
    c: int,
)
    requires
        is_whole_cell_map(base, surface, heights, bounds, sun, resolution_mm, buffer_mm),
        is_refinement_of(refined, base, surface, sun, resolution_mm, buffer_mm, k),
        is_full_dispatch_map(full_base, surface, sun, resolution_mm, buffer_mm),
        is_refinement_of(full_refined, full_base, surface, sun, resolution_mm, buffer_mm, k),
        surface.contains_cell(r, c),
        surrounded_by_area(surface, bounds, r, c),
    ensures
        refined.at(r, c) == full_refined.at(r, c),
{
    assert forall|i: int, j: int|
        r - 1 <= i <= r + 1 && c - 1 <= j <= c + 1 && surface.contains_cell(i, j)
        implies #[trigger] base.at(i, j) == full_base.at(i, j) by {
        assert(bounds.holds(i, j));
    }
    assert(base.at(r, c) == full_base.at(r, c));
    if is_interior(base, r, c) {
        assert(base.at(r - 1, c - 1) == full_base.at(r - 1, c - 1));
        assert(base.at(r - 1, c) == full_base.at(r - 1, c));
        assert(base.at(r - 1, c + 1) == full_base.at(r - 1, c + 1));
        assert(base.at(r, c - 1) == full_base.at(r, c - 1));
        assert(base.at(r, c + 1) == full_base.at(r, c + 1));
        assert(base.at(r + 1, c - 1) == full_base.at(r + 1, c - 1));
        assert(base.at(r + 1, c) == full_base.at(r + 1, c));
        assert(base.at(r + 1, c + 1) == full_base.at(r + 1, c + 1));
    }
    assert(refined.at(r, c) == refined_value(
        base,
        surface,
        sun,
        resolution_mm,
        buffer_mm,
        k,
        r,
        c,
    ));
    assert(full_refined.at(r, c) == refined_value(
        full_base,
        surface,
        sun,
        resolution_mm,
        buffer_mm,
        k,
        r,
        c,
    ));
}

} // verus!
