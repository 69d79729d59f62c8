//! Planning on rasters: the clip window around the area of interest, the
//! shadow buffer, and the masking of results to the area.
//!
//! Reading and writing raster files is left to the caller; what is decided
//! on pixel indices and on heights is decided here.

use crate::calendar::{
    civil_date_of, civil_year, day_in_calendar, day_of, day_start, days_from_civil,
    epoch_day_of, instant_in_calendar, spec_day_of, spec_day_start, MICROS_PER_HOUR,
};
use crate::grid::{grid_dim, grid_filled, Grid};
use crate::types::ShadowError;
use vstd::prelude::*;

verus! {

/// Pixel coordinates of the corners of a rectangle in world coordinates, as
/// the inverse transform of the raster gives them; they may lie off the raster.
#[derive(Debug, Clone, Copy, PartialEq, Eq, Structural)]
pub struct PixelCorners {
    pub min_col: i64,
    pub min_row: i64,
    pub max_col: i64,
    pub max_row: i64,
}

/// A window of a raster: rows `min_row` up to but not including `max_row`,
/// columns `min_col` up to but not including `max_col`.
#[derive(Debug, Clone, Copy, PartialEq, Eq, Structural)]
pub struct ClipWindow {
    pub min_row: usize,
    pub max_row: usize,
    pub min_col: usize,
    pub max_col: usize,
}

/// The rectangle misses a raster of `height` rows and `width` columns.
pub open spec fn is_outside(corners: PixelCorners, height: int, width: int) -> bool {
    corners.min_col > width || corners.min_row > height || corners.max_col < 0 || corners.max_row
        < 0
}

pub open spec fn clamp_low(v: int) -> int {
    if v < 0 {
        0
    } else {
        v
    }
}

/// One past the last index of the window along an axis of length `len`.
pub open spec fn clamp_high(v: int, len: int) -> int {
    if v < len - 1 {
        v + 1
    } else {
        len
    }
}

/// The rectangle, clamped to the raster, holds no cell.
pub open spec fn is_degenerate(corners: PixelCorners, height: int, width: int) -> bool {
    clamp_high(corners.max_row as int, height) <= clamp_low(corners.min_row as int) || clamp_high(
        corners.max_col as int,
        width,
    ) <= clamp_low(corners.min_col as int)
}

/// The rectangle clamped to the raster.
pub open spec fn spec_clip_window(corners: PixelCorners, height: int, width: int) -> ClipWindow {
    ClipWindow {
        min_row: clamp_low(corners.min_row as int) as usize,
        max_row: clamp_high(corners.max_row as int, height) as usize,
        min_col: clamp_low(corners.min_col as int) as usize,
        max_col: clamp_high(corners.max_col as int, width) as usize,
    }
}

impl ClipWindow {
    pub open spec fn fits(self, height: int, width: int) -> bool {
        self.min_row < self.max_row <= height && self.min_col < self.max_col <= width
    }

    pub open spec fn rows(self) -> int {
        self.max_row - self.min_row
    }

    pub open spec fn cols(self) -> int {
        self.max_col - self.min_col
    }
}

/// `out` is `raster` cut down to `window`.
pub open spec fn is_clip_of(out: &Grid, raster: &Grid, window: ClipWindow) -> bool {
    &&& out.rows() == window.rows()
    &&& out.cols() == window.cols()
    &&& forall|r: int, c: int|
        out.contains_cell(r, c) ==> #[trigger] out.at(r, c) == raster.at(
            window.min_row + r,
            window.min_col + c,
        )
}

/// A raster unit that gathers the planning functions.
pub struct RasterIO;

impl RasterIO {
    /// The window of a raster of `height` rows and `width` columns that the
    /// rectangle covers.
    pub fn clip_window(corners: &PixelCorners, height: usize, width: usize) -> (out: Result<
        ClipWindow,
        ShadowError,
    >)
        ensures
            out.is_ok() <==> !is_outside(*corners, height as int, width as int) && !is_degenerate(
                *corners,
                height as int,
                width as int,
            ),
            out matches Ok(w) ==> w == spec_clip_window(*corners, height as int, width as int)
                && w.fits(height as int, width as int),
            out matches Err(e) ==> e is Config && e.text() == (if is_outside(
                *corners,
                height as int,
                width as int,
            ) {
                "AOI is outside raster bounds"@
            } else {
                "Invalid clip region"@
            }),
    {
        let h: i128 = height as i128;
        let w: i128 = width as i128;
        let min_col: i128 = corners.min_col as i128;
        let min_row: i128 = corners.min_row as i128;
        let max_col: i128 = corners.max_col as i128;
        let max_row: i128 = corners.max_row as i128;
        if min_col > w || min_row > h || max_col < 0 || max_row < 0 {
            return Err(ShadowError::Config("AOI is outside raster bounds".to_owned()));
        }
        let low_row: i128 = if min_row < 0 {
            0
        } else {
            min_row
        };
        let low_col: i128 = if min_col < 0 {
            0
        } else {
            min_col
        };
        let high_row: i128 = if max_row < h - 1 {
            max_row + 1
        } else {
            h
        };
        let high_col: i128 = if max_col < w - 1 {
            max_col + 1
        } else {
            w
        };
        if high_row <= low_row || high_col <= low_col {
            return Err(ShadowError::Config("Invalid clip region".to_owned()));
        }
        Ok(
            ClipWindow {
                min_row: low_row as usize,
                max_row: high_row as usize,
                min_col: low_col as usize,
                max_col: high_col as usize,
            },
        )
    }

    /// The cells of `raster` within `window`, as a raster of their own.
    pub fn extract_window(raster: &Grid, window: &ClipWindow) -> (out: Grid)
        requires
            window.fits(raster.rows() as int, raster.cols() as int),
        ensures
            is_clip_of(&out, raster, *window),
    {
        let d = grid_dim(raster);
        let rows: usize = window.max_row - window.min_row;
        let cols: usize = window.max_col - window.min_col;
        assert(rows * cols <= d.0 * d.1) by (nonlinear_arith)
            requires
                0 <= rows <= d.0,
                0 <= cols <= d.1,
        ;
        let mut out: Grid = grid_filled(rows, cols, 0);
        let mut r: usize = 0;
        while r < rows
            invariant
                window.fits(raster.rows() as int, raster.cols() as int),
                rows == window.rows(),
                cols == window.cols(),
                out.rows() == rows,
                out.cols() == cols,
                r <= rows,
                forall|i: int, j: int|
                    0 <= i < r && 0 <= j < cols ==> #[trigger] out.at(i, j) == raster.at(
                        window.min_row + i,
                        window.min_col + j,
                    ),
            decreases rows - r,
        {
            let mut c: usize = 0;
            while c < cols
                invariant
                    window.fits(raster.rows() as int, raster.cols() as int),
                    rows == window.rows(),
                    cols == window.cols(),
                    out.rows() == rows,
                    out.cols() == cols,
                    r < rows,
                    c <= cols,
                    forall|i: int, j: int|
                        (0 <= i < r && 0 <= j < cols) || (i == r && 0 <= j < c)
                            ==> #[trigger] out.at(i, j) == raster.at(
                            window.min_row + i,
                            window.min_col + j,
                        ),
                decreases cols - c,
            {
                let v: i64 = raster.fetch(window.min_row + r, window.min_col + c);
                out.store(r, c, v);
                c += 1;
            }
            r += 1;
        }
        out
    }

    /// Cuts `raster` down to the window that the rectangle covers.
    pub fn clip_to_aoi(raster: &Grid, corners: &PixelCorners) -> (out: Result<
        (Grid, ClipWindow),
        ShadowError,
    >)
        ensures
            out.is_ok() <==> !is_outside(*corners, raster.rows() as int, raster.cols() as int)
                && !is_degenerate(*corners, raster.rows() as int, raster.cols() as int),
            out matches Ok(p) ==> p.1 == spec_clip_window(
                *corners,
                raster.rows() as int,
                raster.cols() as int,
            ) && is_clip_of(&p.0, raster, p.1),
            out matches Err(e) ==> e is Config && e.text() == (if is_outside(
                *corners,
                raster.rows() as int,
                raster.cols() as int,
            ) {
                "AOI is outside raster bounds"@
            } else {
                "Invalid clip region"@
            }),
    {
        let d = grid_dim(raster);
        match RasterIO::clip_window(corners, d.0, d.1) {
            Ok(window) => {
                let data: Grid = RasterIO::extract_window(raster, &window);
                Ok((data, window))
            },
            Err(e) => Err(e),
        }
    }
}

/// `after` is `before` with every cell outside the area replaced by `no_data`.
pub open spec fn is_masked(after: &Grid, before: &Grid, inside: &Grid, no_data: i64) -> bool {
    &&& after.rows() == before.rows()
    &&& after.cols() == before.cols()
    &&& forall|r: int, c: int|
        before.contains_cell(r, c) ==> #[trigger] after.at(r, c) == if inside.at(r, c) != 0 {
            before.at(r, c)
        } else {
            no_data
        }
}

/// The lowest terrain within the area and the highest surface around it.
#[derive(Debug, Clone, Copy, PartialEq, Eq, Structural)]
pub struct HeightRange {
    /// Highest surface cell of the search zone, if the zone has a cell.
    pub highest_surface: Option<i64>,
    /// Lowest terrain cell within the area, if the area has a cell.
    pub lowest_terrain: Option<i64>,
}

/// Zone value of a cell that belongs to the search zone around the area.
pub const ZONE_SEARCH: i64 = 1;

/// Zone value of a cell of the search zone that lies within the area itself.
pub const ZONE_AREA: i64 = 2;

/// `m` is the largest value of `g` over the cells whose zone is at least `zone`.
pub open spec fn is_highest(g: &Grid, zones: &Grid, zone: i64, m: i64) -> bool {
    &&& exists|r: int, c: int|
        g.contains_cell(r, c) && zones.at(r, c) >= zone && #[trigger] g.at(r, c) == m
    &&& forall|r: int, c: int|
        g.contains_cell(r, c) && zones.at(r, c) >= zone ==> #[trigger] g.at(r, c) <= m
}

/// `m` is the smallest value of `g` over the cells whose zone is at least `zone`.
pub open spec fn is_lowest(g: &Grid, zones: &Grid, zone: i64, m: i64) -> bool {
    &&& exists|r: int, c: int|
        g.contains_cell(r, c) && zones.at(r, c) >= zone && #[trigger] g.at(r, c) == m
    &&& forall|r: int, c: int|
        g.contains_cell(r, c) && zones.at(r, c) >= zone ==> #[trigger] g.at(r, c) >= m
}

/// No cell has a zone of at least `zone`.
pub open spec fn zone_is_empty(g: &Grid, zones: &Grid, zone: i64) -> bool {
    forall|r: int, c: int| g.contains_cell(r, c) ==> #[trigger] zones.at(r, c) < zone
}

/// Largest height difference, in millimetres, that a shadow over the area
/// can come from: highest surface around the area minus lowest terrain
/// within it, 100 m where either is unknown, and never less than 10 m.
pub open spec fn spec_height_difference(range: HeightRange) -> int {
    let raw = match (range.highest_surface, range.lowest_terrain) {
        (Some(high), Some(low)) => high - low,
        _ => 100_000,
    };
    if raw < 10_000 {
        10_000
    } else {
        raw
    }
}

/// Length in millimetres of the longest shadow: the height difference over
/// the tangent of the lowest elevation, given in millionths; 2000 m where
/// that elevation is at most a tenth of a degree or its tangent not positive.
pub open spec fn spec_shadow_length(
    height_difference_mm: int,
    min_elevation: int,
    tan_min_elevation: int,
) -> int {
    if min_elevation > 100_000 && tan_min_elevation > 0 {
        height_difference_mm * 1_000_000 / tan_min_elevation
    } else {
        2_000_000
    }
}

/// The shadow buffer in millimetres: the longest shadow and a fifth more,
/// but at least 50 m and at most 5000 m.
pub open spec fn spec_buffer(shadow_length_mm: int) -> int {
    let padded = shadow_length_mm * 12 / 10;
    if padded < 50_000 {
        50_000
    } else if padded > 5_000_000 {
        5_000_000
    } else {
        padded
    }
}

/// Lowest elevation, in microdegrees, among the samples that lie strictly
/// between the horizon and the zenith, starting from 90 degrees.
pub open spec fn lowest_elevation(samples: Seq<i64>, upto: int) -> int
    decreases upto,
{
    if upto <= 0 {
        90_000_000
    } else if 0 < samples[upto - 1] < 90_000_000 && samples[upto - 1] < lowest_elevation(
        samples,
        upto - 1,
    ) {
        samples[upto - 1] as int
    } else {
        lowest_elevation(samples, upto - 1)
    }
}

/// The lowest sampled elevation, capped at 89 degrees.
pub open spec fn spec_min_solar_elevation(samples: Seq<i64>) -> int {
    if lowest_elevation(samples, samples.len() as int) > 89_000_000 {
        89_000_000
    } else {
        lowest_elevation(samples, samples.len() as int)
    }
}

impl RasterIO {
    /// Replaces every cell of `data` that lies outside the area by
    /// `no_data_value`; the area is where `inside` is not zero.
    pub fn mask_results_to_aoi(data: &mut Grid, inside: &Grid, no_data_value: i64)
        requires
            old(data).rows() == inside.rows(),
            old(data).cols() == inside.cols(),
        ensures
            is_masked(final(data), old(data), inside, no_data_value),
    {
        let d = grid_dim(data);
        let ghost before = *data;
        let mut r: usize = 0;
        while r < d.0
            invariant
                d.0 == inside.rows(),
                d.1 == inside.cols(),
                data.rows() == d.0,
                data.cols() == d.1,
                before.rows() == d.0,
                before.cols() == d.1,
                r <= d.0,
                forall|i: int, j: int|
                    0 <= i < d.0 && 0 <= j < d.1 ==> #[trigger] data.at(i, j) == if i < r
                        && inside.at(i, j) == 0 {
                        no_data_value
                    } else {
                        before.at(i, j)
                    },
            decreases d.0 - r,
        {
            let mut c: usize = 0;
            while c < d.1
                invariant
                    d.0 == inside.rows(),
                    d.1 == inside.cols(),
                    data.rows() == d.0,
                    data.cols() == d.1,
                    before.rows() == d.0,
                    before.cols() == d.1,
                    r < d.0,
                    c <= d.1,
                    forall|i: int, j: int|
                        0 <= i < d.0 && 0 <= j < d.1 ==> #[trigger] data.at(i, j) == if (i < r || (
                        i == r && j < c)) && inside.at(i, j) == 0 {
                            no_data_value
                        } else {
                            before.at(i, j)
                        },
                decreases d.1 - c,
            {
                if inside.fetch(r, c) == 0 {
                    data.store(r, c, no_data_value);
                }
                c += 1;
            }
            r += 1;
        }
    }

    /// The cells of the area, row by row: those at which `inside` is not zero.
    pub fn collect_aoi_cells(inside: &Grid) -> (cells: Vec<(usize, usize)>)
        ensures
            forall|p: int|
                0 <= p < cells.len() ==> inside.contains_cell(
                    (#[trigger] cells[p]).0 as int,
                    cells[p].1 as int,
                ) && inside.at(cells[p].0 as int, cells[p].1 as int) != 0,
            forall|r: usize, c: usize|
                inside.contains_cell(r as int, c as int) && #[trigger] inside.at(r as int, c as int)
                    != 0 ==> cells@.contains((r, c)),
            forall|p: int, q: int|
                0 <= p < q < cells.len() ==> crate::selector::row_major_before(
                    #[trigger] cells[p],
                    #[trigger] cells[q],
                ),
    {
        let d = grid_dim(inside);
        let mut cells: Vec<(usize, usize)> = Vec::new();
        let mut r: usize = 0;
        while r < d.0
            invariant
                d.0 == inside.rows(),
                d.1 == inside.cols(),
                r <= d.0,
                forall|p: int|
                    0 <= p < cells.len() ==> inside.contains_cell(
                        (#[trigger] cells[p]).0 as int,
                        cells[p].1 as int,
                    ) && inside.at(cells[p].0 as int, cells[p].1 as int) != 0 && cells[p].0 < r,
                forall|i: usize, j: usize|
                    i < r && j < d.1 && #[trigger] inside.at(i as int, j as int) != 0
                        ==> cells@.contains((i, j)),
                forall|p: int, q: int|
                    0 <= p < q < cells.len() ==> crate::selector::row_major_before(
                        #[trigger] cells[p],
                        #[trigger] cells[q],
                    ),
            decreases d.0 - r,
        {
            let mut c: usize = 0;
            while c < d.1
                invariant
                    d.0 == inside.rows(),
                    d.1 == inside.cols(),
                    r < d.0,
                    c <= d.1,
                    forall|p: int|
                        0 <= p < cells.len() ==> inside.contains_cell(
                            (#[trigger] cells[p]).0 as int,
                            cells[p].1 as int,
                        ) && inside.at(cells[p].0 as int, cells[p].1 as int) != 0 && (cells[p].0
                            < r || (cells[p].0 == r && cells[p].1 < c)),
                    forall|i: usize, j: usize|
                        (i < r && j < d.1 || i == r && j < c) && #[trigger] inside.at(
                            i as int,
                            j as int,
                        ) != 0 ==> cells@.contains((i, j)),
                    forall|p: int, q: int|
                        0 <= p < q < cells.len() ==> crate::selector::row_major_before(
                            #[trigger] cells[p],
                            #[trigger] cells[q],
                        ),
                decreases d.1 - c,
            {
                if inside.fetch(r, c) != 0 {
                    let ghost before = cells@;
                    cells.push((r, c));
                    proof {
                        assert(cells@[before.len() as int] == (r, c));
                        assert forall|i: usize, j: usize|
                            (i < r && j < d.1 || i == r && j < c + 1) && #[trigger] inside.at(
                                i as int,
                                j as int,
                            ) != 0 implies cells@.contains((i, j)) by {
                            if i == r && j == c {
                            } else {
                                assert(before.contains((i, j)));
                                let w = choose|w: int| 0 <= w < before.len() && before[w] == (i, j);
                                assert(cells@[w] == (i, j));
                            }
                        }
                    }
                }
                c += 1;
            }
            r += 1;
        }
        cells
    }

    /// The shadow buffer, in millimetres, for a height difference in
    /// millimetres and the lowest solar elevation of the analysis, given in
    /// microdegrees together with its tangent in millionths.
    pub fn calculate_automatic_buffer(
        height_difference_mm: u64,
        min_elevation: i64,
        tan_min_elevation: i64,
    ) -> (buffer_mm: u32)
        ensures
            buffer_mm == spec_buffer(
                spec_shadow_length(
                    height_difference_mm as int,
                    min_elevation as int,
                    tan_min_elevation as int,
                ),
            ),
            50_000 <= buffer_mm <= 5_000_000,
    {
        let length: i128 = if min_elevation > 100_000 && tan_min_elevation > 0 {
            let scaled: i128 = (height_difference_mm as i128) * 1_000_000;
            let q: i128 = scaled / (tan_min_elevation as i128);
            assert(0 <= q <= scaled) by (nonlinear_arith)
                requires
                    q == (scaled as int) / (tan_min_elevation as int),
                    scaled >= 0,
                    tan_min_elevation > 0,
            ;
            q
        } else {
            2_000_000
        };
        let padded: i128 = length * 12 / 10;
        if padded < 50_000 {
            50_000
        } else if padded > 5_000_000 {
            5_000_000
        } else {
            padded as u32
        }
    }

    /// The lowest solar elevation worth planning for, from the elevations
    /// sampled over the analysis period.
    pub fn calculate_min_solar_elevation(samples: &Vec<i64>) -> (lowest: i64)
        ensures
            lowest == spec_min_solar_elevation(samples@),
            0 < lowest <= 89_000_000,
    {
        let mut lowest: i64 = 90_000_000;
        let mut i: usize = 0;
        while i < samples.len()
            invariant
                i <= samples.len(),
                lowest == lowest_elevation(samples@, i as int),
                0 < lowest <= 90_000_000,
            decreases samples.len() - i,
        {
            let e: i64 = samples[i];
            if e > 0 && e < 90_000_000 && e < lowest {
                lowest = e;
            }
            i += 1;
        }
        if lowest > 89_000_000 {
            89_000_000
        } else {
            lowest
        }
    }
}

/// The cell comes before (`r`, `c`) when the grid is read row by row.
pub open spec fn read_before(i: int, j: int, r: int, c: int) -> bool {
    i < r || (i == r && j < c)
}

/// `best` is the extreme of `g` over the cells of the zone read before
/// (`r`, `c`): the highest when `highest` is set, the lowest otherwise.
pub open spec fn is_extreme_so_far(
    g: &Grid,
    zones: &Grid,
    zone: i64,
    highest: bool,
    best: Option<i64>,
    r: int,
    c: int,
) -> bool {
    match best {
        Some(m) => {
            &&& exists|i: int, j: int|
                g.contains_cell(i, j) && read_before(i, j, r, c) && zones.at(i, j) >= zone
                    && #[trigger] g.at(i, j) == m
            &&& forall|i: int, j: int|
                g.contains_cell(i, j) && read_before(i, j, r, c) && zones.at(i, j) >= zone ==> if highest {
                    #[trigger] g.at(i, j) <= m
                } else {
                    g.at(i, j) >= m
                }
        },
        None => forall|i: int, j: int|
            g.contains_cell(i, j) && read_before(i, j, r, c) ==> #[trigger] zones.at(i, j) < zone,
    }
}

/// The highest (or lowest) value of `g` over the cells whose zone is at
/// least `zone`; `None` when there is no such cell.
fn extreme_over_zone(g: &Grid, zones: &Grid, zone: i64, highest: bool) -> (best: Option<i64>)
    requires
        g.rows() == zones.rows(),
        g.cols() == zones.cols(),
    ensures
        match best {
            Some(m) => if highest {
                is_highest(g, zones, zone, m)
            } else {
                is_lowest(g, zones, zone, m)
            },
            None => zone_is_empty(g, zones, zone),
        },
{
    let d = grid_dim(g);
    let mut best: Option<i64> = None;
    let mut r: usize = 0;
    while r < d.0
        invariant
            g.rows() == zones.rows(),
            g.cols() == zones.cols(),
            d.0 == g.rows(),
            d.1 == g.cols(),
            r <= d.0,
            is_extreme_so_far(g, zones, zone, highest, best, r as int, 0),
        decreases d.0 - r,
    {
        let mut c: usize = 0;
        while c < d.1
            invariant
                g.rows() == zones.rows(),
                g.cols() == zones.cols(),
                d.0 == g.rows(),
                d.1 == g.cols(),
                r < d.0,
                c <= d.1,
                is_extreme_so_far(g, zones, zone, highest, best, r as int, c as int),
            decreases d.1 - c,
        {
            if zones.fetch(r, c) >= zone {
                let v: i64 = g.fetch(r, c);
                let better: bool = match best {
                    Some(m) => if highest {
                        v > m
                    } else {
                        v < m
                    },
                    None => true,
                };
                if better {
                    best = Some(v);
                    assert(g.contains_cell(r as int, c as int) && read_before(
                        r as int,
                        c as int,
                        r as int,
                        c + 1,
                    ) && g.at(r as int, c as int) == v);
                } else {
                    proof {
                        let m = best->0;
                        let (i, j) = choose|i: int, j: int|
                            g.contains_cell(i, j) && read_before(i, j, r as int, c as int)
                                && zones.at(i, j) >= zone && #[trigger] g.at(i, j) == m;
                        assert(read_before(i, j, r as int, c + 1) && g.at(i, j) == m);
                    }
                }
            } else {
                proof {
                    if best is Some {
                        let m = best->0;
                        let (i, j) = choose|i: int, j: int|
                            g.contains_cell(i, j) && read_before(i, j, r as int, c as int)
                                && zones.at(i, j) >= zone && #[trigger] g.at(i, j) == m;
                        assert(read_before(i, j, r as int, c + 1) && g.at(i, j) == m);
                    }
                }
            }
            c += 1;
        }
        proof {
            if best is Some {
                let m = best->0;
                let (i, j) = choose|i: int, j: int|
                    g.contains_cell(i, j) && read_before(i, j, r as int, d.1 as int) && zones.at(
                        i,
                        j,
                    ) >= zone && #[trigger] g.at(i, j) == m;
                assert(read_before(i, j, r + 1, 0) && g.at(i, j) == m);
            }
        }
        r += 1;
    }
    proof {
        if best is Some {
            let m = best->0;
            let (i, j) = choose|i: int, j: int|
                g.contains_cell(i, j) && read_before(i, j, d.0 as int, 0) && zones.at(i, j) >= zone
                    && #[trigger] g.at(i, j) == m;
            assert(g.contains_cell(i, j) && zones.at(i, j) >= zone && g.at(i, j) == m);
        }
    }
    best
}

impl RasterIO {
    /// Scans the terrain and the surface for the heights that bound the
    /// longest shadow over the area.  `zones` marks the cells that count:
    /// `ZONE_SEARCH` around the area, `ZONE_AREA` within it.
    pub fn scan_height_range(dtm: &Grid, dsm: &Grid, zones: &Grid) -> (range: HeightRange)
        requires
            dtm.rows() == zones.rows(),
            dtm.cols() == zones.cols(),
            dsm.rows() == zones.rows(),
            dsm.cols() == zones.cols(),
        ensures
            match range.highest_surface {
                Some(m) => is_highest(dsm, zones, 1, m),
                None => zone_is_empty(dsm, zones, 1),
            },
            match range.lowest_terrain {
                Some(m) => is_lowest(dtm, zones, 2, m),
                None => zone_is_empty(dtm, zones, 2),
            },
    {
        HeightRange {
            highest_surface: extreme_over_zone(dsm, zones, ZONE_SEARCH, true),
            lowest_terrain: extreme_over_zone(dtm, zones, ZONE_AREA, false),
        }
    }

    /// The height difference, in millimetres, for which the shadow buffer is planned.
    pub fn calculate_max_height_difference_around_aoi(range: &HeightRange) -> (difference: u64)
        ensures
            difference == spec_height_difference(*range),
            difference >= 10_000,
    {
        let raw: i128 = match (range.highest_surface, range.lowest_terrain) {
            (Some(high), Some(low)) => (high as i128) - (low as i128),
            _ => 100_000,
        };
        if raw < 10_000 {
            10_000
        } else {
            raw as u64
        }
    }
}

/// Microseconds in a week.
pub const WEEK: i64 = 604_800_000_000;

/// The day of the lowest noon sun in the year of `current`: the 21st of
/// December north of the equator, the 21st of June elsewhere; `None` where
/// the calendar does not have that date.
pub open spec fn spec_solstice_day(latitude: int, current: int) -> Option<int> {
    epoch_day_of(
        civil_year(spec_day_of(current)),
        if latitude > 0 {
            12
        } else {
            6
        },
        21,
    )
}

/// Sample number `index` of a day: 08:00, 10:00, 12:00, 14:00 or 16:00 UTC.
pub open spec fn spec_check_time(day: int, index: int) -> int {
    spec_day_start(day) + (8 + 2 * index) * 3_600_000_000
}

/// The first `upto` samples of a day; with `filtered` set, only those from
/// `start` to `end`.
pub open spec fn times_on(day: int, start: int, end: int, filtered: bool, upto: int) -> Seq<i64>
    decreases upto,
{
    if upto <= 0 {
        Seq::empty()
    } else if !filtered || start <= spec_check_time(day, upto - 1) <= end {
        times_on(day, start, end, filtered, upto - 1).push(spec_check_time(day, upto - 1) as i64)
    } else {
        times_on(day, start, end, filtered, upto - 1)
    }
}

/// Number of weekly steps from `start` that do not pass `end`.
pub open spec fn week_count(start: int, end: int) -> int {
    if start > end {
        0
    } else {
        (end - start) / 604_800_000_000 + 1
    }
}

/// The instant of weekly step `k`.
pub open spec fn week_instant(start: int, k: int) -> int {
    start + k * 604_800_000_000
}

/// The calendar knows the day of `current` and the solstice of its year.
pub open spec fn check_day_defined(latitude: int, current: int) -> bool {
    &&& instant_in_calendar(current)
    &&& spec_solstice_day(latitude, current) is Some
    &&& day_in_calendar(spec_solstice_day(latitude, current)->0)
}

/// The samples of one weekly step: the five of its own day, then those of
/// the five of the solstice of its year that fall from `start` to `end`.
pub open spec fn step_times(latitude: int, start: int, end: int, current: int) -> Seq<i64> {
    times_on(spec_day_of(current), start, end, false, 5) + times_on(
        spec_solstice_day(latitude, current)->0,
        start,
        end,
        true,
        5,
    )
}

/// The samples of the first `upto` weekly steps.
pub open spec fn weekly_times(latitude: int, start: int, end: int, upto: int) -> Seq<i64>
    decreases upto,
{
    if upto <= 0 {
        Seq::empty()
    } else {
        weekly_times(latitude, start, end, upto - 1) + step_times(
            latitude,
            start,
            end,
            week_instant(start, upto - 1),
        )
    }
}

/// Every day that is to be sampled is known to the calendar.
pub open spec fn sample_times_defined(latitude: int, start: int, end: int) -> bool {
    &&& instant_in_calendar(start)
    &&& instant_in_calendar(end)
    &&& forall|k: int|
        0 <= k < week_count(start, end) ==> check_day_defined(
            latitude,
            #[trigger] week_instant(start, k),
        )
}

/// The instants at which the elevation is sampled to find the lowest sun of
/// an analysis, each day at 08:00, 10:00, 12:00, 14:00 and 16:00 UTC: for
/// every week from `start` the day of the weekly step and, where it falls
/// from `start` to `end`, the solstice of its year; then the day of `end`.
pub open spec fn spec_sample_times(latitude: int, start: int, end: int) -> Seq<i64> {
    weekly_times(latitude, start, end, week_count(start, end)) + times_on(
        spec_day_of(end),
        start,
        end,
        false,
        5,
    )
}

/// Appends the samples of a day.
fn push_times(out: &mut Vec<i64>, day: i64, start: i64, end: i64, filtered: bool)
    requires
        day_in_calendar(day as int),
    ensures
        final(out)@ == old(out)@ + times_on(day as int, start as int, end as int, filtered, 5),
{
    let ghost before = out@;
    let midnight: i64 = day * 86_400_000_000;
    let mut index: i64 = 0;
    assert(out@ =~= before + times_on(day as int, start as int, end as int, filtered, 0));
    while index < 5
        invariant
            day_in_calendar(day as int),
            midnight == spec_day_start(day as int),
            0 <= index <= 5,
            out@ == before + times_on(
                day as int,
                start as int,
                end as int,
                filtered,
                index as int,
            ),
        decreases 5 - index,
    {
        let t: i64 = midnight + (8 + 2 * index) * MICROS_PER_HOUR;
        if !filtered || (start <= t && t <= end) {
            out.push(t);
        }
        assert(out@ =~= before + times_on(
            day as int,
            start as int,
            end as int,
            filtered,
            index + 1,
        ));
        index += 1;
    }
}

/// The solstice of the year of `current` on which the low sun is sampled.
fn solstice_day_of(latitude: i64, current: i64) -> (out: Option<i64>)
    ensures
        out.is_some() == check_day_defined(latitude as int, current as int),
        out matches Some(d) ==> spec_solstice_day(latitude as int, current as int) == Some(
            d as int,
        ),
{
    match civil_date_of(current) {
        Some(date) => {
            let month: u32 = if latitude > 0 {
                12
            } else {
                6
            };
            match days_from_civil(date.year, month, 21) {
                Some(d) => {
                    if -95_000_000 <= d && d <= 95_000_000 {
                        Some(d as i64)
                    } else {
                        None
                    }
                },
                None => None,
            }
        },
        None => None,
    }
}

impl RasterIO {
    /// The instants at which the sun is to be sampled for the lowest
    /// elevation of an analysis from `start` to `end` at a latitude given in
    /// microdegrees; fails where the calendar does not reach.
    pub fn elevation_sample_times(latitude: i64, start: i64, end: i64) -> (out: Result<
        Vec<i64>,
        ShadowError,
    >)
        ensures
            out.is_ok() <==> sample_times_defined(latitude as int, start as int, end as int),
            out matches Ok(times) ==> times@ == spec_sample_times(
                latitude as int,
                start as int,
                end as int,
            ),
            out matches Err(e) ==> e is Config,
    {
        let end_day: i64 = day_of(end);
        if day_start(day_of(start)).is_none() || day_start(end_day).is_none() {
            return Err(ShadowError::Config("analysis period outside the calendar".to_owned()));
        }
        let mut times: Vec<i64> = Vec::new();
        let ghost weeks = week_count(start as int, end as int);
        let ghost mut k: int = 0;
        let mut current: i64 = start;
        let mut more: bool = start <= end;
        proof {
            if start <= end {
                assert(weeks >= 1) by (nonlinear_arith)
                    requires
                        weeks == (end - start) / 604_800_000_000 + 1,
                        end - start >= 0,
                ;
            }
        }
        while more
            invariant
                instant_in_calendar(start as int),
                instant_in_calendar(end as int),
                weeks == week_count(start as int, end as int),
                0 <= k <= weeks,
                more <==> k < weeks,
                more ==> current == week_instant(start as int, k) && current <= end,
                forall|j: int|
                    0 <= j < k ==> check_day_defined(
                        latitude as int,
                        #[trigger] week_instant(start as int, j),
                    ),
                times@ == weekly_times(latitude as int, start as int, end as int, k),
            decreases weeks - k,
        {
            match solstice_day_of(latitude, current) {
                Some(solstice) => {
                    let ghost before = times@;
                    push_times(&mut times, day_of(current), start, end, false);
                    push_times(&mut times, solstice, start, end, true);
                    assert(times@ =~= before + step_times(
                        latitude as int,
                        start as int,
                        end as int,
                        current as int,
                    ));
                },
                None => {
                    return Err(
                        ShadowError::Config("analysis period outside the calendar".to_owned()),
                    );
                },
            }
            proof {
                let n = (end - start) / 604_800_000_000;
                assert(n * 604_800_000_000 <= end - start < (n + 1) * 604_800_000_000);
            }
            if (end as i128) - (current as i128) < (WEEK as i128) {
                more = false;
            } else {
                current = current + WEEK;
            }
            proof {
                k = k + 1;
            }
        }
        push_times(&mut times, end_day, start, end, false);
        Ok(times)
    }
}

/// A raster as it is read: its cells in millimetres, the name of its
/// reference system, and the value that marks missing cells.
pub struct RasterData {
    pub data: Grid,
    pub projection: String,
    pub no_data_value: Option<i64>,
}

impl RasterIO {
    /// Checks that terrain and surface have the same shape.
    pub fn validate_dimensions(dtm: &Grid, dsm: &Grid) -> (out: Result<(), ShadowError>)
        ensures
            out.is_ok() <==> dtm.rows() == dsm.rows() && dtm.cols() == dsm.cols(),
            out matches Err(e) ==> e is Config && e.text()
                == "DTM and DSM must have the same dimensions"@,
    {
        let a = grid_dim(dtm);
        let b = grid_dim(dsm);
        if a.0 == b.0 && a.1 == b.1 {
            Ok(())
        } else {
            Err(ShadowError::Config("DTM and DSM must have the same dimensions".to_owned()))
        }
    }
}

} // verus!
