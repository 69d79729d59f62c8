//! The shadow engine: rasters, area of interest and settings of one run,
//! and the shadow of the area at each sampled instant.

use crate::grid::{grid_dim, grid_filled, shape_fits, Grid};
use crate::seasonal::{
    all_in_calendar, calculate_seasonal_analysis, is_analysis_period, months_describe,
    seasons_describe, SeasonalAnalysis,
};
use crate::statistics::{calculate_summary_stats, is_shadow_grid, SummaryStats};
use crate::timestamps::{
    generate_timestamps, spec_timestamps, step_micros, windows_in_calendar, SolarWindow,
};
use crate::types::{Fraction, SolarDay};
use crate::kernel::{calculate_cell_shadow, cell_occluded, SunRay};
use crate::raster_io::PixelCorners;
use crate::selector::{get_shadow_relevant_cells, row_major_before, selects, PixelBounds};
use crate::refinement::{is_refinement_of, refine_shadow_edges};
use crate::shadow_map::{
    assemble_shadow_map, assigned, calculate_instant_shadow, is_instant_shadow,
    is_whole_cell_map, kernel_value, law_flat_terrain_is_lit, law_selector_keeps_area, law_shadow_values_bounded, CellShadow,
};
use crate::types::{Config, ShadowError, ShadowQuality};
use vstd::prelude::*;

verus! {

/// Height of the surface above the terrain, never negative: a surface below
/// the terrain counts as level with it.
pub open spec fn spec_obstacle_height(surface: int, terrain: int) -> int {
    if surface - terrain < 0 {
        0
    } else if surface - terrain > i64::MAX {
        i64::MAX as int
    } else {
        surface - terrain
    }
}

/// `heights` holds the height of `dsm` above `dtm`, cell by cell.
pub open spec fn is_heights_of(heights: &Grid, dtm: &Grid, dsm: &Grid) -> bool {
    &&& heights.rows() == dsm.rows()
    &&& heights.cols() == dsm.cols()
    &&& forall|r: int, c: int|
        dsm.contains_cell(r, c) ==> #[trigger] heights.at(r, c) == spec_obstacle_height(
            dsm.at(r, c) as int,
            dtm.at(r, c) as int,
        )
}

/// The heights of the surface above the terrain.
pub fn obstacle_heights(dtm: &Grid, dsm: &Grid) -> (heights: Grid)
    requires
        dtm.rows() == dsm.rows(),
        dtm.cols() == dsm.cols(),
    ensures
        is_heights_of(&heights, dtm, dsm),
{
    let d = grid_dim(dsm);
    let mut heights: Grid = grid_filled(d.0, d.1, 0);
    let mut r: usize = 0;
    while r < d.0
        invariant
            dtm.rows() == dsm.rows(),
            dtm.cols() == dsm.cols(),
            d.0 == dsm.rows(),
            d.1 == dsm.cols(),
            heights.rows() == d.0,
            heights.cols() == d.1,
            r <= d.0,
            forall|i: int, j: int|
                0 <= i < r && 0 <= j < d.1 ==> #[trigger] heights.at(i, j)
                    == spec_obstacle_height(dsm.at(i, j) as int, dtm.at(i, j) as int),
        decreases d.0 - r,
    {
        let mut c: usize = 0;
        while c < d.1
            invariant
                dtm.rows() == dsm.rows(),
                dtm.cols() == dsm.cols(),
                d.0 == dsm.rows(),
                d.1 == dsm.cols(),
                heights.rows() == d.0,
                heights.cols() == d.1,
                r < d.0,
                c <= d.1,
                forall|i: int, j: int|
                    (0 <= i < r && 0 <= j < d.1) || (i == r && 0 <= j < c)
                        ==> #[trigger] heights.at(i, j) == spec_obstacle_height(
                        dsm.at(i, j) as int,
                        dtm.at(i, j) as int,
                    ),
            decreases d.1 - c,
        {
            let gap: i128 = (dsm.fetch(r, c) as i128) - (dtm.fetch(r, c) as i128);
            let h: i64 = if gap < 0 {
                0
            } else if gap > (i64::MAX as i128) {
                i64::MAX
            } else {
                gap as i64
            };
            heights.store(r, c, h);
            c += 1;
        }
        r += 1;
    }
    heights
}

/// The rectangle of cells that the corners cover on a grid of the given shape.
pub open spec fn spec_clamped_bounds(corners: PixelCorners, rows: int, cols: int) -> PixelBounds {
    PixelBounds {
        min_row: (if corners.min_row < 0 {
            0
        } else {
            corners.min_row as int
        }) as usize,
        max_row: (if corners.max_row > rows - 1 {
            rows - 1
        } else {
            corners.max_row as int
        }) as usize,
        min_col: (if corners.min_col < 0 {
            0
        } else {
            corners.min_col as int
        }) as usize,
        max_col: (if corners.max_col > cols - 1 {
            cols - 1
        } else {
            corners.max_col as int
        }) as usize,
    }
}

/// The corners cover at least one cell of a grid of the given shape.
pub open spec fn corners_meet_grid(corners: PixelCorners, rows: int, cols: int) -> bool {
    &&& rows > 0
    &&& cols > 0
    &&& corners.max_row >= 0
    &&& corners.max_col >= 0
    &&& corners.min_row <= corners.max_row
    &&& corners.min_col <= corners.max_col
    &&& corners.min_row < rows
    &&& corners.min_col < cols
}

/// The pixel bounds of the area on a grid of the given shape; `None` where
/// the area misses the grid.
pub fn get_aoi_pixel_bounds(corners: &PixelCorners, rows: usize, cols: usize) -> (out: Option<
    PixelBounds,
>)
    ensures
        out.is_some() <==> corners_meet_grid(*corners, rows as int, cols as int),
        out matches Some(b) ==> b == spec_clamped_bounds(*corners, rows as int, cols as int)
            && b.fits(rows as int, cols as int),
{
    let h: i128 = rows as i128;
    let w: i128 = cols as i128;
    let min_row: i128 = corners.min_row as i128;
    let max_row: i128 = corners.max_row as i128;
    let min_col: i128 = corners.min_col as i128;
    let max_col: i128 = corners.max_col as i128;
    if h == 0 || w == 0 || max_row < 0 || max_col < 0 || min_row > max_row || min_col > max_col
        || min_row >= h || min_col >= w {
        return None;
    }
    let low_row: i128 = if min_row < 0 {
        0
    } else {
        min_row
    };
    let high_row: i128 = if max_row > h - 1 {
        h - 1
    } else {
        max_row
    };
    let low_col: i128 = if min_col < 0 {
        0
    } else {
        min_col
    };
    let high_col: i128 = if max_col > w - 1 {
        w - 1
    } else {
        max_col
    };
    Some(
        PixelBounds {
            min_row: low_row as usize,
            max_row: high_row as usize,
            min_col: low_col as usize,
            max_col: high_col as usize,
        },
    )
}

/// Every listed cell lies within the bounds.
pub open spec fn cells_within(cells: Seq<(usize, usize)>, bounds: PixelBounds) -> bool {
    forall|k: int|
        0 <= k < cells.len() ==> bounds.holds((#[trigger] cells[k]).0 as int, cells[k].1 as int)
}

fn all_cells_within(cells: &Vec<(usize, usize)>, bounds: &PixelBounds) -> (ok: bool)
    ensures
        ok == cells_within(cells@, *bounds),
{
    let mut k: usize = 0;
    while k < cells.len()
        invariant
            k <= cells.len(),
            forall|j: int|
                0 <= j < k ==> bounds.holds((#[trigger] cells[j]).0 as int, cells[j].1 as int),
        decreases cells.len() - k,
    {
        if !bounds.contains(cells[k].0, cells[k].1) {
            return false;
        }
        k += 1;
    }
    true
}

/// The cells are listed as the grid is read, row by row, each once.
pub open spec fn cells_in_scan_order(cells: Seq<(usize, usize)>) -> bool {
    forall|p: int, q: int|
        0 <= p < q < cells.len() ==> row_major_before(#[trigger] cells[p], #[trigger] cells[q])
}

fn all_in_scan_order(cells: &Vec<(usize, usize)>) -> (ok: bool)
    ensures
        ok == cells_in_scan_order(cells@),
{
    if cells.len() < 2 {
        return true;
    }
    let mut k: usize = 1;
    while k < cells.len()
        invariant
            1 <= k <= cells.len(),
            forall|p: int, q: int|
                0 <= p < q < k ==> row_major_before(#[trigger] cells[p], #[trigger] cells[q]),
        decreases cells.len() - k,
    {
        let a = cells[k - 1];
        let b = cells[k];
        if !(a.0 < b.0 || (a.0 == b.0 && a.1 < b.1)) {
            return false;
        }
        assert forall|p: int, q: int| 0 <= p < q < k + 1 implies row_major_before(
            #[trigger] cells[p],
            #[trigger] cells[q],
        ) by {
            if q == k && p < k - 1 {
                assert(row_major_before(cells[p], cells[k - 1]));
            }
        }
        k += 1;
    }
    true
}

/// The values of `map` at the listed cells, in order.
pub open spec fn is_area_row(row: Seq<i64>, map: &Grid, cells: Seq<(usize, usize)>) -> bool {
    &&& row.len() == cells.len()
    &&& forall|k: int|
        0 <= k < cells.len() ==> #[trigger] row[k] == map.at(cells[k].0 as int, cells[k].1 as int)
}

/// The values of `map` at the listed cells, in order.
pub fn extract_area_row(map: &Grid, cells: &Vec<(usize, usize)>) -> (row: Vec<i64>)
    requires
        forall|k: int|
            0 <= k < cells.len() ==> map.contains_cell(
                (#[trigger] cells[k]).0 as int,
                cells[k].1 as int,
            ),
    ensures
        is_area_row(row@, map, cells@),
{
    let mut row: Vec<i64> = Vec::new();
    let mut k: usize = 0;
    while k < cells.len()
        invariant
            forall|j: int|
                0 <= j < cells.len() ==> map.contains_cell(
                    (#[trigger] cells[j]).0 as int,
                    cells[j].1 as int,
                ),
            k <= cells.len(),
            row.len() == k,
            forall|j: int|
                0 <= j < k ==> #[trigger] row[j] == map.at(cells[j].0 as int, cells[j].1 as int),
        decreases cells.len() - k,
    {
        row.push(map.fetch(cells[k].0, cells[k].1));
        k += 1;
    }
    row
}

/// The rasters, the area of interest and the settings of one run.
pub struct ShadowEngine {
    dsm: Grid,
    heights: Grid,
    resolution_mm: u32,
    buffer_mm: u32,
    bounds: PixelBounds,
    aoi_cells: Vec<(usize, usize)>,
    quality: ShadowQuality,
    interval_minutes: u32,
}

impl ShadowEngine {
    /// The surface over which rays are marched, millimetres.
    pub closed spec fn surface(&self) -> &Grid {
        &self.dsm
    }

    /// The height of the surface above the terrain, millimetres.
    pub closed spec fn heights(&self) -> &Grid {
        &self.heights
    }

    /// Millimetres per cell.
    pub closed spec fn resolution(&self) -> u32 {
        self.resolution_mm
    }

    /// Distance, in millimetres, beyond which no shadow is looked for.
    pub closed spec fn buffer(&self) -> u32 {
        self.buffer_mm
    }

    /// The pixel bounds of the area of interest.
    pub closed spec fn bounds(&self) -> PixelBounds {
        self.bounds
    }

    /// The cells of the area of interest, in the order of the shadow stack.
    pub closed spec fn area(&self) -> Seq<(usize, usize)> {
        self.aoi_cells@
    }

    pub closed spec fn quality(&self) -> ShadowQuality {
        self.quality
    }

    /// Sampling step, whole minutes.
    pub closed spec fn interval(&self) -> u32 {
        self.interval_minutes
    }

    pub open spec fn wf(&self) -> bool {
        &&& self.surface().rows() == self.heights().rows()
        &&& self.surface().cols() == self.heights().cols()
        &&& self.resolution() > 0
        &&& self.interval() > 0
        &&& self.bounds().fits(self.surface().rows() as int, self.surface().cols() as int)
        &&& cells_within(self.area(), self.bounds())
        &&& cells_in_scan_order(self.area())
    }

    /// `map` is the shadow map of the instant at which the sun stands at `sun`.
    pub open spec fn is_map_at(&self, sun: SunRay, map: &Grid) -> bool {
        is_instant_shadow(
            map,
            self.surface(),
            self.heights(),
            self.bounds(),
            sun,
            self.resolution() as int,
            self.buffer() as int,
            self.quality(),
        )
    }

    /// `row` holds the shadow of each cell of the area at the instant at
    /// which the sun stands at `sun`.
    pub open spec fn is_row_at(&self, sun: SunRay, row: Seq<i64>) -> bool {
        exists|map: Grid| #[trigger] self.is_map_at(sun, &map) && is_area_row(row, &map, self.area())
    }

    /// An engine for the given terrain and surface, of `resolution_mm`
    /// millimetres per cell, and the area of interest given by the pixel
    /// corners of its bounding box and by its cells.  Fails where the two
    /// rasters differ in shape, the resolution or the sampling step is
    /// zero, the area misses the rasters, a cell of the area lies outside
    /// its bounds, or the cells are not listed row by row, each once.
    pub fn new(
        dtm: Grid,
        dsm: Grid,
        resolution_mm: u32,
        corners: PixelCorners,
        aoi_cells: Vec<(usize, usize)>,
        config: &Config,
    ) -> (out: Result<ShadowEngine, ShadowError>)
        ensures
            out.is_ok() <==> {
                &&& dtm.rows() == dsm.rows()
                &&& dtm.cols() == dsm.cols()
                &&& resolution_mm > 0
                &&& config.interval_minutes > 0
                &&& corners_meet_grid(corners, dsm.rows() as int, dsm.cols() as int)
                &&& cells_within(
                    aoi_cells@,
                    spec_clamped_bounds(corners, dsm.rows() as int, dsm.cols() as int),
                )
                &&& cells_in_scan_order(aoi_cells@)
            },
            out matches Ok(engine) ==> {
                &&& engine.wf()
                &&& engine.surface() == &dsm
                &&& is_heights_of(engine.heights(), &dtm, &dsm)
                &&& engine.resolution() == resolution_mm
                &&& engine.buffer() == match config.buffer_mm {
                    Some(b) => b,
                    None => 1_000_000u32,
                }
                &&& engine.bounds() == spec_clamped_bounds(
                    corners,
                    dsm.rows() as int,
                    dsm.cols() as int,
                )
                &&& engine.area() == aoi_cells@
                &&& engine.quality() == config.shadow_quality
                &&& engine.interval() == config.interval_minutes
            },
            out matches Err(e) ==> e is Config,
    {
        let shape = grid_dim(&dsm);
        let terrain_shape = grid_dim(&dtm);
        if shape.0 != terrain_shape.0 || shape.1 != terrain_shape.1 {
            return Err(
                ShadowError::Config("DTM and DSM must have the same dimensions".to_owned()),
            );
        }
        if resolution_mm == 0 {
            return Err(ShadowError::Config("Resolution must be positive".to_owned()));
        }
        if config.interval_minutes == 0 {
            return Err(ShadowError::Config("Sampling interval must be positive".to_owned()));
        }
        let bounds: PixelBounds = match get_aoi_pixel_bounds(&corners, shape.0, shape.1) {
            Some(b) => b,
            None => {
                return Err(ShadowError::Config("AOI is outside raster bounds".to_owned()));
            },
        };
        if !all_cells_within(&aoi_cells, &bounds) {
            return Err(ShadowError::Config("AOI cell outside AOI bounds".to_owned()));
        }
        if !all_in_scan_order(&aoi_cells) {
            return Err(
                ShadowError::Config("AOI cells must be listed row by row, each once".to_owned()),
            );
        }
        let heights: Grid = obstacle_heights(&dtm, &dsm);
        Ok(
            ShadowEngine {
                dsm,
                heights,
                resolution_mm,
                buffer_mm: config.buffer_or_default(),
                bounds,
                aoi_cells,
                quality: config.shadow_quality,
                interval_minutes: config.interval_minutes,
            },
        )
    }

    /// The cells of the area of interest, in the order of the shadow stack.
    pub fn aoi_cells(&self) -> (cells: &Vec<(usize, usize)>)
        ensures
            cells@ == self.area(),
    {
        &self.aoi_cells
    }

    /// The cells from which rays are cast while the sun stands at `sun`.
    pub fn get_shadow_relevant_cells(&self, sun: &SunRay) -> (cells: Vec<(usize, usize)>)
        requires
            self.wf(),
        ensures
            selects(
                cells@,
                self.heights(),
                self.bounds(),
                *sun,
                self.resolution() as int,
                self.buffer() as int,
            ),
    {
        get_shadow_relevant_cells(
            &self.heights,
            &self.bounds,
            sun,
            self.resolution_mm,
            self.buffer_mm,
        )
    }

    /// The shadow of one cell, from a ray cast from its top; `None` for a
    /// cell off the grid.
    pub fn calculate_cell_shadow(&self, row: usize, col: usize, sun: &SunRay) -> (shadow: Option<
        i64,
    >)
        requires
            self.wf(),
        ensures
            shadow == if self.surface().contains_cell(row as int, col as int) {
                Some(
                    kernel_value(
                        self.surface(),
                        *sun,
                        self.resolution() as int,
                        self.buffer() as int,
                        row as int,
                        col as int,
                    ),
                )
            } else {
                None
            },
    {
        let d = grid_dim(&self.dsm);
        if row < d.0 && col < d.1 {
            Some(
                calculate_cell_shadow(
                    &self.dsm,
                    row,
                    col,
                    sun,
                    self.resolution_mm,
                    self.buffer_mm,
                ),
            )
        } else {
            None
        }
    }

    /// The shadow map of the instant at which the sun stands at `sun`.
    pub fn calculate_shadow_map(&self, sun: &SunRay) -> (map: Grid)
        requires
            self.wf(),
        ensures
            self.is_map_at(*sun, &map),
    {
        calculate_instant_shadow(
            &self.dsm,
            &self.heights,
            &self.bounds,
            sun,
            self.resolution_mm,
            self.buffer_mm,
            self.quality,
        )
    }

    /// The shadow of each cell of the area at the instant at which the sun
    /// stands at `sun`.
    pub fn calculate_area_shadow(&self, sun: &SunRay) -> (row: Vec<i64>)
        requires
            self.wf(),
        ensures
            self.is_row_at(*sun, row@),
            row.len() == self.area().len(),
    {
        let map: Grid = self.calculate_shadow_map(sun);
        proof {
            self.lemma_map_shape(*sun, &map);
        }
        extract_area_row(&map, &self.aoi_cells)
    }

    /// A shadow map has the shape of the surface.
    pub proof fn lemma_map_shape(&self, sun: SunRay, map: &Grid)
        requires
            self.wf(),
            self.is_map_at(sun, map),
        ensures
            map.rows() == self.surface().rows(),
            map.cols() == self.surface().cols(),
            forall|k: int|
                0 <= k < self.area().len() ==> map.contains_cell(
                    (#[trigger] self.area()[k]).0 as int,
                    self.area()[k].1 as int,
                ),
    {
        if sun.elevation > 0 && self.quality().spec_subsamples() != 0 {
            let base = choose|base: Grid|
                #[trigger] is_whole_cell_map(
                    &base,
                    self.surface(),
                    self.heights(),
                    self.bounds(),
                    sun,
                    self.resolution() as int,
                    self.buffer() as int,
                ) && crate::refinement::is_refinement_of(
                    map,
                    &base,
                    self.surface(),
                    sun,
                    self.resolution() as int,
                    self.buffer() as int,
                    self.quality().spec_subsamples() as int,
                );
        }
        assert forall|k: int| 0 <= k < self.area().len() implies map.contains_cell(
            (#[trigger] self.area()[k]).0 as int,
            self.area()[k].1 as int,
        ) by {
            assert(self.bounds().holds(self.area()[k].0 as int, self.area()[k].1 as int));
        }
    }
}

/// Row `t` of a raster, as a sequence.
pub open spec fn grid_row(g: &Grid, t: int) -> Seq<i64> {
    Seq::new(g.cols(), |k: int| g.at(t, k))
}

/// `g` holds the given rows, each of `n_cells` values.
pub open spec fn is_stack_of(g: &Grid, rows: Seq<Vec<i64>>, n_cells: int) -> bool {
    &&& g.rows() == rows.len()
    &&& g.cols() == n_cells
    &&& forall|t: int, k: int|
        0 <= t < rows.len() && 0 <= k < n_cells ==> #[trigger] g.at(t, k) == rows[t][k]
}

/// Every row holds `n_cells` values.
pub open spec fn rows_have(rows: Seq<Vec<i64>>, n_cells: int) -> bool {
    forall|t: int| 0 <= t < rows.len() ==> (#[trigger] rows[t]).len() == n_cells
}

/// The raster whose rows are the given ones; `None` where it would hold
/// more cells than can be allocated.
pub fn stack_from_rows(rows: &Vec<Vec<i64>>, n_cells: usize) -> (out: Option<Grid>)
    requires
        rows_have(rows@, n_cells as int),
    ensures
        out.is_some() <==> shape_fits(rows.len() as int, n_cells as int),
        out matches Some(g) ==> is_stack_of(&g, rows@, n_cells as int),
{
    let mut stack: Grid = match Grid::filled(rows.len(), n_cells, 0) {
        Some(g) => g,
        None => {
            return None;
        },
    };
    let mut t: usize = 0;
    while t < rows.len()
        invariant
            rows_have(rows@, n_cells as int),
            stack.rows() == rows.len(),
            stack.cols() == n_cells,
            t <= rows.len(),
            forall|i: int, k: int|
                0 <= i < t && 0 <= k < n_cells ==> #[trigger] stack.at(i, k) == rows[i][k],
        decreases rows.len() - t,
    {
        let row: &Vec<i64> = &rows[t];
        let mut k: usize = 0;
        while k < n_cells
            invariant
                rows_have(rows@, n_cells as int),
                stack.rows() == rows.len(),
                stack.cols() == n_cells,
                t < rows.len(),
                row == &rows[t as int],
                row.len() == n_cells,
                k <= n_cells,
                forall|i: int, j: int|
                    (0 <= i < t && 0 <= j < n_cells) || (i == t && 0 <= j < k)
                        ==> #[trigger] stack.at(i, j) == rows[i][j],
            decreases n_cells - k,
        {
            stack.store(t, k, row[k]);
            k += 1;
        }
        t += 1;
    }
    Some(stack)
}

/// What is reported of a run between two instants.
#[derive(Debug, Clone, PartialEq, Eq)]
pub struct ProgressUpdate {
    /// Share of the instants already done, in percent.
    pub progress: Fraction,
    pub current_step: String,
    pub total_steps: Option<usize>,
    pub current_step_number: Option<usize>,
}

/// The report that precedes the first instant of a run of `total` instants.
pub open spec fn is_initial_progress(p: &ProgressUpdate, total: usize) -> bool {
    &&& p.progress == Fraction { num: 0, den: 1 }
    &&& p.current_step@ == "Initializing shadow calculation..."@
    &&& p.total_steps == Some(total)
    &&& p.current_step_number == Some(0usize)
}

/// The report for instant number `index`, counted from zero, of `total`.
pub open spec fn is_step_progress(p: &ProgressUpdate, index: usize, total: usize) -> bool {
    &&& p.progress == if total > 0 {
        Fraction { num: (100 * index) as u128, den: total as u128 }
    } else {
        Fraction { num: 0, den: 1 }
    }
    &&& p.current_step@ == "Calculating shadows..."@
    &&& p.total_steps == Some(total)
    &&& p.current_step_number == Some((index + 1) as usize)
}

/// The report that follows the last instant of a run of `total` instants.
pub open spec fn is_final_progress(p: &ProgressUpdate, total: usize) -> bool {
    &&& p.progress == Fraction { num: 100, den: 1 }
    &&& p.current_step@ == "Shadow calculation complete"@
    &&& p.total_steps == Some(total)
    &&& p.current_step_number == Some(total)
}

impl ProgressUpdate {
    pub fn initial(total: usize) -> (p: ProgressUpdate)
        ensures
            is_initial_progress(&p, total),
    {
        ProgressUpdate {
            progress: Fraction { num: 0, den: 1 },
            current_step: "Initializing shadow calculation...".to_owned(),
            total_steps: Some(total),
            current_step_number: Some(0),
        }
    }

    pub fn step(index: usize, total: usize) -> (p: ProgressUpdate)
        requires
            index < total,
        ensures
            is_step_progress(&p, index, total),
    {
        ProgressUpdate {
            progress: Fraction { num: 100 * (index as u128), den: total as u128 },
            current_step: "Calculating shadows...".to_owned(),
            total_steps: Some(total),
            current_step_number: Some(index + 1),
        }
    }

    pub fn complete(total: usize) -> (p: ProgressUpdate)
        ensures
            is_final_progress(&p, total),
    {
        ProgressUpdate {
            progress: Fraction { num: 100, den: 1 },
            current_step: "Shadow calculation complete".to_owned(),
            total_steps: Some(total),
            current_step_number: Some(total),
        }
    }
}

/// The shadow of the area at every sampled instant, with its summaries.
pub struct ShadowResult {
    /// One row per instant, one column per cell of the area.
    pub shadow_fraction: Grid,
    pub timestamps: Vec<i64>,
    pub summary_stats: SummaryStats,
    /// The cell of the rasters behind each column of the stack.
    pub aoi_cells: Vec<(usize, usize)>,
}

/// A run in progress: the rows of the shadow stack computed so far.
pub struct ShadowRun {
    rows: Vec<Vec<i64>>,
    total: usize,
}

impl ShadowRun {
    /// The rows computed so far, one per instant.
    pub closed spec fn rows(&self) -> Seq<Vec<i64>> {
        self.rows@
    }

    /// Number of instants of the run.
    pub closed spec fn total(&self) -> usize {
        self.total
    }

    /// Every row holds one shadow value for each of `n_cells` cells.
    pub open spec fn wf(&self, n_cells: int) -> bool {
        &&& rows_have(self.rows(), n_cells)
        &&& forall|t: int, k: int|
            0 <= t < self.rows().len() && 0 <= k < n_cells ==> 0 <= #[trigger] self.rows()[t][k]
                <= 64
    }

    pub fn done(&self) -> (n: usize)
        ensures
            n == self.rows().len(),
    {
        self.rows.len()
    }

    pub fn steps(&self) -> (n: usize)
        ensures
            n == self.total(),
    {
        self.total
    }
}

/// Every sun direction fits its elevation.
pub open spec fn all_suns_valid(suns: Seq<SunRay>) -> bool {
    forall|t: int| 0 <= t < suns.len() ==> (#[trigger] suns[t]).wf()
}

impl ShadowEngine {
    /// `result` is what a run over the given instants and sun positions yields.
    pub open spec fn is_result(
        &self,
        result: &ShadowResult,
        timestamps: Seq<i64>,
        suns: Seq<SunRay>,
        days: Seq<SolarDay>,
    ) -> bool {
        &&& result.timestamps@ == timestamps
        &&& result.aoi_cells@ == self.area()
        &&& suns.len() == timestamps.len()
        &&& all_suns_valid(suns)
        &&& result.shadow_fraction.rows() == timestamps.len()
        &&& result.shadow_fraction.cols() == self.area().len()
        &&& forall|t: int|
            0 <= t < suns.len() ==> self.is_row_at(
                suns[t],
                #[trigger] grid_row(&result.shadow_fraction, t),
            )
        &&& is_shadow_grid(&result.shadow_fraction)
        &&& result.summary_stats.summarizes(
            &result.shadow_fraction,
            timestamps,
            self.interval(),
            days,
        )
    }

    /// Starts a run of `total` instants.
    pub fn begin(&self, total: usize) -> (out: (ShadowRun, ProgressUpdate))
        ensures
            out.0.rows().len() == 0,
            out.0.total() == total,
            out.0.wf(self.area().len() as int),
            is_initial_progress(&out.1, total),
    {
        (ShadowRun { rows: Vec::new(), total }, ProgressUpdate::initial(total))
    }

    /// Takes the run one instant further, unless it is cancelled or already
    /// complete, or the sun direction does not fit its elevation: computes
    /// the shadow of the area for the sun position of the next instant and
    /// reports the progress.
    pub fn step(&self, run: &mut ShadowRun, sun: &SunRay, cancelled: bool) -> (out: Result<
        ProgressUpdate,
        ShadowError,
    >)
        requires
            self.wf(),
            old(run).wf(self.area().len() as int),
        ensures
            final(run).wf(self.area().len() as int),
            final(run).total() == old(run).total(),
            out.is_ok() <==> !cancelled && old(run).rows().len() < old(run).total() && sun.wf(),
            out matches Ok(p) ==> {
                &&& final(run).rows().len() == old(run).rows().len() + 1
                &&& final(run).rows().subrange(0, old(run).rows().len() as int) == old(run).rows()
                &&& self.is_row_at(*sun, final(run).rows()[old(run).rows().len() as int]@)
                &&& final(run).rows()[old(run).rows().len() as int].len() == self.area().len()
                &&& is_step_progress(&p, old(run).rows().len() as usize, old(run).total())
            },
            out matches Err(e) ==> final(run).rows() == old(run).rows() && (if cancelled {
                e is Cancelled
            } else {
                e is Config
            }),
    {
        if cancelled {
            return Err(ShadowError::Cancelled);
        }
        let index: usize = run.rows.len();
        if index >= run.total {
            return Err(ShadowError::Config("Run is already complete".to_owned()));
        }
        if !sun.is_valid() {
            return Err(
                ShadowError::Config("Sun direction does not fit its elevation".to_owned()),
            );
        }
        let row: Vec<i64> = self.calculate_area_shadow(sun);
        proof {
            self.law_area_shadow_bounded(*sun, row@);
        }
        let ghost before = run.rows@;
        run.rows.push(row);
        assert(run.rows@.subrange(0, index as int) =~= before);
        assert forall|t: int, k: int|
            0 <= t < run.rows@.len() && 0 <= k < self.area().len() implies 0
            <= #[trigger] run.rows@[t][k] <= 64 by {
            if t < index {
                assert(run.rows@[t] == before[t]);
            }
        }
        assert forall|t: int| 0 <= t < run.rows@.len() implies (#[trigger] run.rows@[t]).len()
            == self.area().len() by {
            if t < index {
                assert(run.rows@[t] == before[t]);
            }
        }
        Ok(ProgressUpdate::step(index, run.total))
    }

    /// Every shadow value of the area lies between fully lit and fully
    /// shadowed, and is one of the two when boundaries are not refined.
    pub proof fn law_area_shadow_bounded(&self, sun: SunRay, row: Seq<i64>)
        requires
            self.wf(),
            self.is_row_at(sun, row),
        ensures
            forall|k: int| 0 <= k < row.len() ==> 0 <= #[trigger] row[k] <= 64,
            self.quality() == ShadowQuality::Fast ==> forall|k: int|
                0 <= k < row.len() ==> #[trigger] row[k] == 0 || row[k] == 64,
    {
        let map = choose|map: Grid|
            #[trigger] self.is_map_at(sun, &map) && is_area_row(row, &map, self.area());
        self.lemma_map_shape(sun, &map);
        law_shadow_values_bounded(
            &map,
            self.surface(),
            self.heights(),
            self.bounds(),
            sun,
            self.resolution() as int,
            self.buffer() as int,
            self.quality(),
        );
        assert forall|k: int| 0 <= k < row.len() implies 0 <= #[trigger] row[k] <= 64 by {
            assert(map.contains_cell(self.area()[k].0 as int, self.area()[k].1 as int));
        }
        if self.quality() == ShadowQuality::Fast {
            assert forall|k: int| 0 <= k < row.len() implies #[trigger] row[k] == 0 || row[k]
                == 64 by {
                assert(map.contains_cell(self.area()[k].0 as int, self.area()[k].1 as int));
            }
        }
    }

    /// While the sun is not above the horizon every cell of the area is
    /// fully shadowed.
    pub proof fn law_area_night(&self, sun: SunRay, row: Seq<i64>)
        requires
            self.wf(),
            self.is_row_at(sun, row),
            sun.elevation <= 0,
        ensures
            forall|k: int| 0 <= k < row.len() ==> #[trigger] row[k] == 64,
    {
        let map = choose|map: Grid|
            #[trigger] self.is_map_at(sun, &map) && is_area_row(row, &map, self.area());
        self.lemma_map_shape(sun, &map);
        assert forall|k: int| 0 <= k < row.len() implies #[trigger] row[k] == 64 by {
            assert(map.contains_cell(self.area()[k].0 as int, self.area()[k].1 as int));
        }
    }

    /// Over a level surface, with the sun above the horizon, every cell of
    /// the area is fully lit.
    pub proof fn law_area_flat_terrain(&self, sun: SunRay, row: Seq<i64>, level: i64)
        requires
            self.wf(),
            self.is_row_at(sun, row),
            self.surface().is_constant(level),
            sun.elevation > 0,
            sun.wf(),
        ensures
            forall|k: int| 0 <= k < row.len() ==> #[trigger] row[k] == 0,
    {
        let map = choose|map: Grid|
            #[trigger] self.is_map_at(sun, &map) && is_area_row(row, &map, self.area());
        self.lemma_map_shape(sun, &map);
        law_flat_terrain_is_lit(
            &map,
            self.surface(),
            self.heights(),
            self.bounds(),
            sun,
            self.resolution() as int,
            self.buffer() as int,
            self.quality(),
            level,
        );
        assert forall|k: int| 0 <= k < row.len() implies #[trigger] row[k] == 0 by {
            assert(map.contains_cell(self.area()[k].0 as int, self.area()[k].1 as int));
        }
    }

    /// Casting rays only from the cells that the selector keeps gives every
    /// cell of the area the shadow that casting rays from all cells of the
    /// grid would give it: what a ray from the cell itself finds.
    pub proof fn law_area_matches_full_dispatch(&self, sun: SunRay, row: Seq<i64>)
        requires
            self.wf(),
            self.is_row_at(sun, row),
            self.quality() == ShadowQuality::Fast,
            sun.elevation > 0,
        ensures
            forall|k: int|
                0 <= k < row.len() ==> #[trigger] row[k] == kernel_value(
                    self.surface(),
                    sun,
                    self.resolution() as int,
                    self.buffer() as int,
                    self.area()[k].0 as int,
                    self.area()[k].1 as int,
                ),
    {
        let map = choose|map: Grid|
            #[trigger] self.is_map_at(sun, &map) && is_area_row(row, &map, self.area());
        self.lemma_map_shape(sun, &map);
        assert forall|k: int| 0 <= k < row.len() implies #[trigger] row[k] == kernel_value(
            self.surface(),
            sun,
            self.resolution() as int,
            self.buffer() as int,
            self.area()[k].0 as int,
            self.area()[k].1 as int,
        ) by {
            let r = self.area()[k].0 as int;
            let c = self.area()[k].1 as int;
            assert(self.bounds().holds(r, c));
            assert(map.contains_cell(r, c));
            law_selector_keeps_area(
                &map,
                self.surface(),
                self.heights(),
                self.bounds(),
                sun,
                self.resolution() as int,
                self.buffer() as int,
                r,
                c,
            );
        }
    }

    /// With unrefined boundaries, raising the surface anywhere but under a
    /// cell of the area never lowers the shadow of that cell.
    pub proof fn law_area_monotone_in_obstacles(
        &self,
        raised_engine: &ShadowEngine,
        sun: SunRay,
        row: Seq<i64>,
        raised_row: Seq<i64>,
        k: int,
    )
        requires
            self.wf(),
            raised_engine.wf(),
            crate::kernel::raised(self.surface(), raised_engine.surface()),
            raised_engine.area() == self.area(),
            raised_engine.bounds() == self.bounds(),
            raised_engine.resolution() == self.resolution(),
            raised_engine.buffer() == self.buffer(),
            self.quality() == ShadowQuality::Fast,
            raised_engine.quality() == ShadowQuality::Fast,
            self.is_row_at(sun, row),
            raised_engine.is_row_at(sun, raised_row),
            0 <= k < self.area().len(),
            self.surface().at(self.area()[k].0 as int, self.area()[k].1 as int)
                == raised_engine.surface().at(self.area()[k].0 as int, self.area()[k].1 as int),
        ensures
            row[k] <= raised_row[k],
    {
        if sun.elevation <= 0 {
            self.law_area_night(sun, row);
            raised_engine.law_area_night(sun, raised_row);
        } else {
            self.law_area_matches_full_dispatch(sun, row);
            raised_engine.law_area_matches_full_dispatch(sun, raised_row);
            let r = self.area()[k].0 as int;
            let c = self.area()[k].1 as int;
            if cell_occluded(
                self.surface(),
                r,
                c,
                sun,
                self.resolution() as int,
                self.buffer() as int,
            ) {
                crate::kernel::law_raised_surface_keeps_cell_shadow(
                    self.surface(),
                    raised_engine.surface(),
                    r,
                    c,
                    sun,
                    self.resolution() as int,
                    self.buffer() as int,
                );
            }
        }
    }
}

impl ShadowEngine {
    /// Closes a run: stacks its rows and folds them into the summaries.
    /// Fails where the run is not complete, does not have one row per
    /// instant, or its stack would hold more cells than can be allocated.
    pub fn finish(&self, run: ShadowRun, timestamps: Vec<i64>, days: &Vec<SolarDay>) -> (out: Result<
        (ShadowResult, ProgressUpdate),
        ShadowError,
    >)
        requires
            self.wf(),
            run.wf(self.area().len() as int),
        ensures
            out.is_ok() <==> run.rows().len() == run.total() && run.rows().len()
                == timestamps.len() && shape_fits(
                timestamps.len() as int,
                self.area().len() as int,
            ),
            out matches Ok(p) ==> {
                &&& p.0.timestamps@ == timestamps@
                &&& p.0.aoi_cells@ == self.area()
                &&& is_stack_of(&p.0.shadow_fraction, run.rows(), self.area().len() as int)
                &&& is_shadow_grid(&p.0.shadow_fraction)
                &&& p.0.summary_stats.summarizes(
                    &p.0.shadow_fraction,
                    timestamps@,
                    self.interval(),
                    days@,
                )
                &&& is_final_progress(&p.1, run.total())
            },
            out matches Err(e) ==> e is Config,
    {
        if run.rows.len() != run.total || run.rows.len() != timestamps.len() {
            return Err(ShadowError::Config("Run is not complete".to_owned()));
        }
        let stack: Grid = match stack_from_rows(&run.rows, self.aoi_cells.len()) {
            Some(g) => g,
            None => {
                return Err(ShadowError::Config("Shadow stack is too large".to_owned()));
            },
        };
        let summary_stats: SummaryStats = calculate_summary_stats(
            &stack,
            &timestamps,
            self.interval_minutes,
            days,
        );
        let progress: ProgressUpdate = ProgressUpdate::complete(run.total);
        Ok(
            (
                ShadowResult {
                    shadow_fraction: stack,
                    timestamps,
                    summary_stats,
                    aoi_cells: copy_cells(&self.aoi_cells),
                },
                progress,
            ),
        )
    }

    /// The shadow of the area at every instant, with its summaries.
    /// `suns` holds the sun position of each instant, `days` the solar
    /// table of the days of the analysis.  Fails where instants and sun
    /// positions differ in number, a sun direction does not fit its
    /// elevation, or the stack would hold more cells than can be allocated.
    pub fn calculate_shadows(&self, timestamps: &Vec<i64>, suns: &Vec<SunRay>, days: &Vec<SolarDay>) -> (out:
        Result<ShadowResult, ShadowError>)
        requires
            self.wf(),
        ensures
            out.is_ok() <==> timestamps.len() == suns.len() && all_suns_valid(suns@) && shape_fits(
                timestamps.len() as int,
                self.area().len() as int,
            ),
            out matches Ok(result) ==> self.is_result(&result, timestamps@, suns@, days@),
            out matches Err(e) ==> e is Config,
    {
        if timestamps.len() != suns.len() {
            return Err(
                ShadowError::Config("One sun position is needed for each instant".to_owned()),
            );
        }
        let total: usize = timestamps.len();
        let started = self.begin(total);
        let mut run: ShadowRun = started.0;
        let mut t: usize = 0;
        while t < total
            invariant
                self.wf(),
                total == timestamps.len(),
                total == suns.len(),
                t <= total,
                run.total() == total,
                run.rows().len() == t,
                run.wf(self.area().len() as int),
                forall|i: int| 0 <= i < t ==> self.is_row_at(suns[i], (#[trigger] run.rows()[i])@),
                forall|i: int| 0 <= i < t ==> (#[trigger] suns[i]).wf(),
            decreases total - t,
        {
            let ghost before = run.rows();
            match self.step(&mut run, &suns[t], false) {
                Ok(_) => {},
                Err(e) => {
                    assert(!suns[t as int].wf());
                    return Err(e);
                },
            }
            proof {
                assert forall|i: int| 0 <= i < t + 1 implies self.is_row_at(
                    suns[i],
                    (#[trigger] run.rows()[i])@,
                ) by {
                    if i < t {
                        assert(run.rows().subrange(0, t as int)[i] == run.rows()[i]);
                    }
                }
            }
            t += 1;
        }
        let ghost rows = run.rows();
        let copied: Vec<i64> = copy_instants(timestamps);
        match self.finish(run, copied, days) {
            Ok(p) => {
                let result: ShadowResult = p.0;
                proof {
                    assert forall|i: int| 0 <= i < suns.len() implies self.is_row_at(
                        suns[i],
                        #[trigger] grid_row(&result.shadow_fraction, i),
                    ) by {
                        assert(self.is_row_at(suns[i], rows[i]@));
                        assert(grid_row(&result.shadow_fraction, i) =~= rows[i]@);
                    }
                }
                Ok(result)
            },
            Err(e) => Err(e),
        }
    }
}

impl ShadowEngine {
    /// Over a level surface the area is fully lit at every instant of a run
    /// at which the sun stands above the horizon.
    pub proof fn law_flat_run_is_lit(
        &self,
        result: &ShadowResult,
        timestamps: Seq<i64>,
        suns: Seq<SunRay>,
        days: Seq<SolarDay>,
        level: i64,
    )
        requires
            self.wf(),
            self.is_result(result, timestamps, suns, days),
            self.surface().is_constant(level),
        ensures
            forall|t: int, k: int|
                0 <= t < timestamps.len() && suns[t].elevation > 0 && 0 <= k < self.area().len()
                    ==> #[trigger] result.shadow_fraction.at(t, k) == 0,
    {
        assert forall|t: int, k: int|
            0 <= t < timestamps.len() && suns[t].elevation > 0 && 0 <= k < self.area().len()
            implies #[trigger] result.shadow_fraction.at(t, k) == 0 by {
            let row = grid_row(&result.shadow_fraction, t);
            assert(self.is_row_at(suns[t], row));
            assert(suns[t].wf());
            self.law_area_flat_terrain(suns[t], row, level);
            assert(row[k] == result.shadow_fraction.at(t, k));
        }
    }

    /// While the sun is not above the horizon the area is fully shadowed at
    /// every such instant of a run.
    pub proof fn law_night_run_is_shadowed(
        &self,
        result: &ShadowResult,
        timestamps: Seq<i64>,
        suns: Seq<SunRay>,
        days: Seq<SolarDay>,
    )
        requires
            self.wf(),
            self.is_result(result, timestamps, suns, days),
        ensures
            forall|t: int, k: int|
                0 <= t < timestamps.len() && suns[t].elevation <= 0 && 0 <= k < self.area().len()
                    ==> #[trigger] result.shadow_fraction.at(t, k) == 64,
    {
        assert forall|t: int, k: int|
            0 <= t < timestamps.len() && suns[t].elevation <= 0 && 0 <= k < self.area().len()
            implies #[trigger] result.shadow_fraction.at(t, k) == 64 by {
            let row = grid_row(&result.shadow_fraction, t);
            assert(self.is_row_at(suns[t], row));
            self.law_area_night(suns[t], row);
            assert(row[k] == result.shadow_fraction.at(t, k));
        }
    }
}

/// A copy of the cells.
fn copy_cells(cells: &Vec<(usize, usize)>) -> (out: Vec<(usize, usize)>)
    ensures
        out@ == cells@,
{
    let mut out: Vec<(usize, usize)> = Vec::new();
    let mut i: usize = 0;
    while i < cells.len()
        invariant
            i <= cells.len(),
            out@ == cells@.subrange(0, i as int),
        decreases cells.len() - i,
    {
        out.push(cells[i]);
        assert(out@ =~= cells@.subrange(0, i + 1));
        i += 1;
    }
    assert(out@ =~= cells@);
    out
}

/// A copy of the instants.
fn copy_instants(timestamps: &Vec<i64>) -> (out: Vec<i64>)
    ensures
        out@ == timestamps@,
{
    let mut out: Vec<i64> = Vec::new();
    let mut i: usize = 0;
    while i < timestamps.len()
        invariant
            i <= timestamps.len(),
            out@ == timestamps@.subrange(0, i as int),
        decreases timestamps.len() - i,
    {
        out.push(timestamps[i]);
        assert(out@ =~= timestamps@.subrange(0, i + 1));
        i += 1;
    }
    assert(out@ =~= timestamps@);
    out
}

impl ShadowResult {
    /// The shadow of each cell of the area at instant number `time_index`.
    pub fn get_shadow_at_time(&self, time_index: usize) -> (out: Result<Vec<i64>, ShadowError>)
        ensures
            out.is_ok() <==> time_index < self.shadow_fraction.rows(),
            out matches Ok(row) ==> row@ == grid_row(&self.shadow_fraction, time_index as int),
            out matches Err(e) ==> e is Config && e.text() == "Time index out of range"@,
    {
        let d = grid_dim(&self.shadow_fraction);
        if time_index >= d.0 {
            return Err(ShadowError::Config("Time index out of range".to_owned()));
        }
        let mut row: Vec<i64> = Vec::new();
        let mut k: usize = 0;
        while k < d.1
            invariant
                d.0 == self.shadow_fraction.rows(),
                d.1 == self.shadow_fraction.cols(),
                time_index < d.0,
                k <= d.1,
                row.len() == k,
                forall|j: int|
                    0 <= j < k ==> #[trigger] row[j] == self.shadow_fraction.at(
                        time_index as int,
                        j,
                    ),
            decreases d.1 - k,
        {
            row.push(self.shadow_fraction.fetch(time_index, k));
            k += 1;
        }
        assert(row@ =~= grid_row(&self.shadow_fraction, time_index as int));
        Ok(row)
    }

    /// The instants of the stack as RFC 3339 texts; an instant that the
    /// calendar does not reach has none.
    pub fn get_timestamps(&self) -> (out: Vec<Option<String>>)
        ensures
            out.len() == self.timestamps.len(),
            forall|i: int|
                0 <= i < out.len() ==> match #[trigger] out[i] {
                    Some(text) => crate::labels::rfc3339_text(self.timestamps[i] as int) == Some(
                        text@,
                    ),
                    None => crate::labels::rfc3339_text(self.timestamps[i] as int) is None,
                },
    {
        let mut out: Vec<Option<String>> = Vec::new();
        let mut i: usize = 0;
        while i < self.timestamps.len()
            invariant
                i <= self.timestamps.len(),
                out.len() == i,
                forall|j: int|
                    0 <= j < i ==> match #[trigger] out[j] {
                        Some(text) => crate::labels::rfc3339_text(self.timestamps[j] as int)
                            == Some(text@),
                        None => crate::labels::rfc3339_text(self.timestamps[j] as int) is None,
                    },
            decreases self.timestamps.len() - i,
        {
            out.push(crate::labels::instant_text(self.timestamps[i]));
            i += 1;
        }
        out
    }
}

impl ShadowEngine {
    /// The sampling instants of an analysis from `start` to `end`, at the
    /// sampling step of the engine, for the given days and their daylight.
    pub fn generate_timestamps(&self, start: i64, end: i64, windows: &Vec<SolarWindow>) -> (out: Vec<
        i64,
    >)
        requires
            self.wf(),
            windows_in_calendar(windows@),
        ensures
            out@ == spec_timestamps(
                windows@,
                start as int,
                end as int,
                step_micros(self.interval()),
                windows.len() as int,
            ),
    {
        generate_timestamps(start, end, self.interval_minutes, windows)
    }

    /// Folds a shadow stack into its per-cell summaries, each sample
    /// standing for the sampling step of the engine.
    pub fn calculate_summary_stats(
        &self,
        shadow_fraction: &Grid,
        timestamps: &Vec<i64>,
        days: &Vec<SolarDay>,
    ) -> (out: SummaryStats)
        requires
            is_shadow_grid(shadow_fraction),
            shadow_fraction.rows() == timestamps.len(),
        ensures
            out.summarizes(shadow_fraction, timestamps@, self.interval(), days@),
    {
        calculate_summary_stats(shadow_fraction, timestamps, self.interval_minutes, days)
    }

    /// Monthly statistics of a shadow stack and their seasonal roll-up.
    pub fn calculate_seasonal_analysis(&self, shadow_fraction: &Grid, timestamps: &Vec<i64>) -> (out:
        Result<SeasonalAnalysis, ShadowError>)
        requires
            shadow_fraction.rows() == timestamps.len(),
        ensures
            out.is_ok() <==> all_in_calendar(timestamps@),
            out matches Ok(a) ==> {
                &&& months_describe(a.monthly_stats@, shadow_fraction, timestamps@)
                &&& seasons_describe(
                    a.seasonal_summaries@,
                    a.monthly_stats@,
                    shadow_fraction.cols() as int,
                )
                &&& is_analysis_period(timestamps@, a.analysis_period)
            },
            out matches Err(e) ==> e is Config,
    {
        calculate_seasonal_analysis(shadow_fraction, timestamps)
    }
}

/// Every value is a shadow value, 0 to 64.
pub open spec fn is_shadow_row(row: Seq<i64>) -> bool {
    forall|k: int| 0 <= k < row.len() ==> 0 <= #[trigger] row[k] <= 64
}

fn check_shadow_row(row: &Vec<i64>) -> (ok: bool)
    ensures
        ok == is_shadow_row(row@),
{
    let mut k: usize = 0;
    while k < row.len()
        invariant
            k <= row.len(),
            forall|j: int| 0 <= j < k ==> 0 <= #[trigger] row[j] <= 64,
        decreases row.len() - k,
    {
        if row[k] < 0 || row[k] > 64 {
            return false;
        }
        k += 1;
    }
    true
}

/// The values are those that rays from the listed cells find, in order.
pub open spec fn is_cast_of(
    values: Seq<CellShadow>,
    cells: Seq<(usize, usize)>,
    surface: &Grid,
    sun: SunRay,
    resolution_mm: int,
    buffer_mm: int,
) -> bool {
    &&& values.len() == cells.len()
    &&& forall|p: int|
        0 <= p < values.len() ==> (#[trigger] values[p]).row == cells[p].0 && values[p].col
            == cells[p].1 && values[p].shadow == kernel_value(
            surface,
            sun,
            resolution_mm,
            buffer_mm,
            cells[p].0 as int,
            cells[p].1 as int,
        )
}

impl ShadowEngine {
    pub fn surface_grid(&self) -> (g: &Grid)
        ensures
            g == self.surface(),
    {
        &self.dsm
    }

    pub fn heights_grid(&self) -> (g: &Grid)
        ensures
            g == self.heights(),
    {
        &self.heights
    }

    pub fn resolution_mm(&self) -> (r: u32)
        ensures
            r == self.resolution(),
    {
        self.resolution_mm
    }

    pub fn buffer_mm(&self) -> (b: u32)
        ensures
            b == self.buffer(),
    {
        self.buffer_mm
    }

    pub fn pixel_bounds(&self) -> (b: PixelBounds)
        ensures
            b == self.bounds(),
    {
        self.bounds
    }

    pub fn shadow_quality(&self) -> (q: ShadowQuality)
        ensures
            q == self.quality(),
    {
        self.quality
    }

    pub fn interval_minutes(&self) -> (m: u32)
        ensures
            m == self.interval(),
    {
        self.interval_minutes
    }

    /// `base` holds the listed shadow values and zero elsewhere, and `map`
    /// is `base` refined as the quality asks.
    pub open spec fn is_map_from(
        &self,
        sun: SunRay,
        values: Seq<CellShadow>,
        base: &Grid,
        map: &Grid,
    ) -> bool {
        &&& base.rows() == self.surface().rows()
        &&& base.cols() == self.surface().cols()
        &&& forall|r: int, c: int|
            base.contains_cell(r, c) ==> #[trigger] base.at(r, c) == assigned(
                values,
                r,
                c,
                values.len() as int,
            )
        &&& if self.quality().spec_subsamples() == 0 {
            map == base
        } else {
            is_refinement_of(
                map,
                base,
                self.surface(),
                sun,
                self.resolution() as int,
                self.buffer() as int,
                self.quality().spec_subsamples() as int,
            )
        }
    }

    /// `row` is what the listed shadow values leave on the area: all
    /// shadow while the sun is not above the horizon; else the values
    /// assembled into a map, refined as the quality asks, and read at the
    /// cells of the area.
    pub open spec fn is_row_from(&self, sun: SunRay, values: Seq<CellShadow>, row: Seq<i64>) -> bool {
        if sun.elevation <= 0 {
            row.len() == self.area().len() && forall|k: int|
                0 <= k < row.len() ==> #[trigger] row[k] == 64
        } else {
            exists|base: Grid, map: Grid| #[trigger]
                self.is_map_from(sun, values, &base, &map) && is_area_row(row, &map, self.area())
        }
    }

    /// The shadow of the area from shadow values found elsewhere, for
    /// instance by rays cast in parallel.  Where the values are those of
    /// the cells that the selector keeps, the row is the shadow of the area
    /// at the instant.
    pub fn area_shadow_from(&self, sun: &SunRay, values: &Vec<CellShadow>) -> (row: Vec<i64>)
        requires
            self.wf(),
        ensures
            self.is_row_from(*sun, values@, row@),
            row.len() == self.area().len(),
            (exists|cells: Seq<(usize, usize)>|
                #[trigger] selects(
                    cells,
                    self.heights(),
                    self.bounds(),
                    *sun,
                    self.resolution() as int,
                    self.buffer() as int,
                ) && is_cast_of(
                    values@,
                    cells,
                    self.surface(),
                    *sun,
                    self.resolution() as int,
                    self.buffer() as int,
                )) ==> self.is_row_at(*sun, row@),
    {
        let d = grid_dim(&self.dsm);
        if sun.elevation <= 0 {
            let night: Grid = self.dsm.filled_like(64);
            assert forall|k: int| 0 <= k < self.area().len() implies night.contains_cell(
                (#[trigger] self.area()[k]).0 as int,
                self.area()[k].1 as int,
            ) by {
                assert(self.bounds().holds(self.area()[k].0 as int, self.area()[k].1 as int));
            }
            let row: Vec<i64> = extract_area_row(&night, &self.aoi_cells);
            assert(self.is_map_at(*sun, &night));
            return row;
        }
        let assembled: Grid = assemble_shadow_map(&self.dsm, values);
        let ghost base = assembled;
        let samples: usize = self.quality.subsamples();
        let map: Grid = if samples == 0 {
            assembled
        } else {
            refine_shadow_edges(
                &assembled,
                &self.dsm,
                sun,
                self.resolution_mm,
                self.buffer_mm,
                samples,
            )
        };
        assert forall|k: int| 0 <= k < self.area().len() implies map.contains_cell(
            (#[trigger] self.area()[k]).0 as int,
            self.area()[k].1 as int,
        ) by {
            assert(self.bounds().holds(self.area()[k].0 as int, self.area()[k].1 as int));
        }
        let row: Vec<i64> = extract_area_row(&map, &self.aoi_cells);
        proof {
            assert(self.is_map_from(*sun, values@, &base, &map));
            self.lemma_cast_values_give_the_map(*sun, values@, &base, &map);
        }
        row
    }

    proof fn lemma_cast_values_give_the_map(
        &self,
        sun: SunRay,
        values: Seq<CellShadow>,
        base: &Grid,
        map: &Grid,
    )
        requires
            self.wf(),
            sun.elevation > 0,
            self.surface().rows() <= usize::MAX,
            self.surface().cols() <= usize::MAX,
            self.is_map_from(sun, values, base, map),
        ensures
            (exists|cells: Seq<(usize, usize)>|
                #[trigger] selects(
                    cells,
                    self.heights(),
                    self.bounds(),
                    sun,
                    self.resolution() as int,
                    self.buffer() as int,
                ) && is_cast_of(
                    values,
                    cells,
                    self.surface(),
                    sun,
                    self.resolution() as int,
                    self.buffer() as int,
                )) ==> self.is_map_at(sun, map),
    {
        if exists|cells: Seq<(usize, usize)>|
            #[trigger] selects(
                cells,
                self.heights(),
                self.bounds(),
                sun,
                self.resolution() as int,
                self.buffer() as int,
            ) && is_cast_of(
                values,
                cells,
                self.surface(),
                sun,
                self.resolution() as int,
                self.buffer() as int,
            ) {
            let cells = choose|cells: Seq<(usize, usize)>|
                #[trigger] selects(
                    cells,
                    self.heights(),
                    self.bounds(),
                    sun,
                    self.resolution() as int,
                    self.buffer() as int,
                ) && is_cast_of(
                    values,
                    cells,
                    self.surface(),
                    sun,
                    self.resolution() as int,
                    self.buffer() as int,
                );
            crate::shadow_map::lemma_cast_of_selection_is_whole_cell_map(
                base,
                values,
                cells,
                self.surface(),
                self.heights(),
                self.bounds(),
                sun,
                self.resolution() as int,
                self.buffer() as int,
            );
        }
    }

    /// Takes the run one instant further with a row of shadow values found
    /// elsewhere, unless the run is cancelled or already complete, or the
    /// row does not hold one shadow value for each cell of the area.
    pub fn accept_row(&self, run: &mut ShadowRun, row: Vec<i64>, cancelled: bool) -> (out: Result<
        ProgressUpdate,
        ShadowError,
    >)
        requires
            old(run).wf(self.area().len() as int),
        ensures
            final(run).wf(self.area().len() as int),
            final(run).total() == old(run).total(),
            out.is_ok() <==> !cancelled && old(run).rows().len() < old(run).total() && row.len()
                == self.area().len() && is_shadow_row(row@),
            out matches Ok(p) ==> final(run).rows() == old(run).rows().push(row)
                && is_step_progress(&p, old(run).rows().len() as usize, old(run).total()),
            out matches Err(e) ==> final(run).rows() == old(run).rows() && (if cancelled {
                e is Cancelled
            } else {
                e is Config
            }),
    {
        if cancelled {
            return Err(ShadowError::Cancelled);
        }
        let index: usize = run.rows.len();
        if index >= run.total {
            return Err(ShadowError::Config("Run is already complete".to_owned()));
        }
        if row.len() != self.aoi_cells.len() || !check_shadow_row(&row) {
            return Err(ShadowError::Config("Row does not fit the area".to_owned()));
        }
        let ghost before = run.rows@;
        run.rows.push(row);
        assert forall|t: int, k: int|
            0 <= t < run.rows@.len() && 0 <= k < self.area().len() implies 0
            <= #[trigger] run.rows@[t][k] <= 64 by {
            if t < index {
                assert(run.rows@[t] == before[t]);
            }
        }
        assert forall|t: int| 0 <= t < run.rows@.len() implies (#[trigger] run.rows@[t]).len()
            == self.area().len() by {
            if t < index {
                assert(run.rows@[t] == before[t]);
            }
        }
        Ok(ProgressUpdate::step(index, run.total))
    }
}

} // verus!
