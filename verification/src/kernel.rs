//! The ray-march shadow kernel.
//!
//! A ray leaves a point of the surface towards the sun and is sampled at
//! equal steps.  Positions are counted in units of 1/4 000 000 of a cell, sun
//! direction components in millionths, heights in millimetres; interpolated
//! heights and ray heights are compared scaled by the square of the position
//! unit, so that no step rounds.

use crate::grid::{grid_dim, grid_get, Grid};
use vstd::prelude::*;

verus! {

/// Position units per cell.
pub const UNIT: i64 = 4_000_000;

/// The sun direction and the quantities derived from it, for one instant.
#[derive(Debug, Clone, Copy, PartialEq, Eq, Structural)]
pub struct SunRay {
    /// Elevation above the horizon, microdegrees.
    pub elevation: i64,
    /// East component of the unit vector towards the sun, millionths.
    pub dx: i32,
    /// North component of the unit vector towards the sun, millionths.
    pub dy: i32,
    /// Upward component of the unit vector towards the sun, millionths.
    pub dz: i32,
    /// Column component of the direction in which shadows fall, millionths.
    pub shadow_x: i32,
    /// Row component of the direction in which shadows fall, millionths.
    pub shadow_y: i32,
    /// Tangent of the elevation, millionths.
    pub tan_elevation: i64,
}

impl SunRay {
    /// The direction fits the elevation: no component exceeds one in
    /// magnitude, and while the sun stands above the horizon its direction
    /// does not point downwards and its tangent is not negative.
    pub open spec fn wf(&self) -> bool {
        &&& -1_000_000 <= self.dx <= 1_000_000
        &&& -1_000_000 <= self.dy <= 1_000_000
        &&& -1_000_000 <= self.dz <= 1_000_000
        &&& -1_000_000 <= self.shadow_x <= 1_000_000
        &&& -1_000_000 <= self.shadow_y <= 1_000_000
        &&& self.elevation > 0 ==> self.dz >= 0 && self.tan_elevation >= 0
    }

    /// Whether the direction fits the elevation.
    pub fn is_valid(&self) -> (ok: bool)
        ensures
            ok == self.wf(),
    {
        -1_000_000 <= self.dx && self.dx <= 1_000_000 && -1_000_000 <= self.dy && self.dy
            <= 1_000_000 && -1_000_000 <= self.dz && self.dz <= 1_000_000 && -1_000_000
            <= self.shadow_x && self.shadow_x <= 1_000_000 && -1_000_000 <= self.shadow_y
            && self.shadow_y <= 1_000_000 && (self.elevation <= 0 || (self.dz >= 0
            && self.tan_elevation >= 0))
    }
}

/// A ray in grid coordinates: start, and the change per step.
pub struct Ray {
    pub y0: int,
    pub x0: int,
    /// Start height, millimetres times `UNIT` squared.
    pub z0: int,
    /// Rows by which the ray moves up the grid per step.
    pub step_y: int,
    /// Columns by which the ray moves right per step.
    pub step_x: int,
    /// Height gained per step, millimetres times `UNIT` squared.
    pub step_z: int,
}

/// `a` and `b` mixed with weights `UNIT - f` and `f`.
pub open spec fn blend(a: int, b: int, f: int) -> int {
    a * (UNIT - f) + b * f
}

/// Row below `r`, or the last row.
pub open spec fn next_index(i: int, len: int) -> int {
    if i + 1 < len {
        i + 1
    } else {
        len - 1
    }
}

/// The surface height at position (`y`, `x`), bilinearly interpolated
/// between the four surrounding cells: millimetres times `UNIT` squared.
pub open spec fn surface_at(g: &Grid, y: int, x: int) -> int {
    let r0 = y / (UNIT as int);
    let c0 = x / (UNIT as int);
    let r1 = next_index(r0, g.rows() as int);
    let c1 = next_index(c0, g.cols() as int);
    let fy = y % (UNIT as int);
    let fx = x % (UNIT as int);
    blend(
        blend(g.at(r0, c0) as int, g.at(r0, c1) as int, fx),
        blend(g.at(r1, c0) as int, g.at(r1, c1) as int, fx),
        fy,
    )
}

/// Positions at which the ray can still be sampled: left of the last column
/// and above the last row.
pub open spec fn in_window(g: &Grid, y: int, x: int) -> bool {
    0 <= x < (g.cols() - 1) * UNIT && 0 <= y < (g.rows() - 1) * UNIT
}

impl Ray {
    pub open spec fn y(self, n: int) -> int {
        self.y0 - n * self.step_y
    }

    pub open spec fn x(self, n: int) -> int {
        self.x0 + n * self.step_x
    }

    pub open spec fn z(self, n: int) -> int {
        self.z0 + n * self.step_z
    }

    /// The surface stands above the ray at step `n`.
    pub open spec fn blocked_at(self, g: &Grid, n: int) -> bool {
        surface_at(g, self.y(n), self.x(n)) > self.z(n)
    }

    /// Walking steps `n` to `limit`, the ray meets the surface before it
    /// leaves the window.
    pub open spec fn hits(self, g: &Grid, n: int, limit: int) -> bool
        decreases limit - n + 1,
    {
        if n > limit {
            false
        } else if !in_window(g, self.y(n), self.x(n)) {
            false
        } else if self.blocked_at(g, n) {
            true
        } else {
            self.hits(g, n + 1, limit)
        }
    }
}

/// Number of steps of `quarters` quarter cells that start within
/// `buffer_mm` of the origin, on a grid of `resolution_mm` per cell.
pub open spec fn step_limit(buffer_mm: int, resolution_mm: int, quarters: int) -> int {
    if buffer_mm <= 0 {
        0
    } else {
        (4 * buffer_mm - 1) / (quarters * resolution_mm) + 1
    }
}

proof fn lemma_blend_bounds(a: int, b: int, f: int, low: int, high: int)
    requires
        0 <= f <= UNIT,
        low <= a <= high,
        low <= b <= high,
    ensures
        low * UNIT <= blend(a, b, f) <= high * UNIT,
{
    let w = UNIT - f;
    assert(low * w <= a * w <= high * w) by (nonlinear_arith)
        requires
            low <= a <= high,
            0 <= w,
    ;
    assert(low * f <= b * f <= high * f) by (nonlinear_arith)
        requires
            low <= b <= high,
            0 <= f,
    ;
    assert(low * w + low * f == low * UNIT) by (nonlinear_arith)
        requires
            w + f == UNIT,
    ;
    assert(high * w + high * f == high * UNIT) by (nonlinear_arith)
        requires
            w + f == UNIT,
    ;
}

proof fn lemma_blend_monotone(a: int, b: int, a2: int, b2: int, f: int)
    requires
        0 <= f <= UNIT,
        a <= a2,
        b <= b2,
    ensures
        blend(a, b, f) <= blend(a2, b2, f),
{
    let w = UNIT - f;
    assert(a * w <= a2 * w) by (nonlinear_arith)
        requires
            a <= a2,
            0 <= w,
    ;
    assert(b * f <= b2 * f) by (nonlinear_arith)
        requires
            b <= b2,
            0 <= f,
    ;
}

proof fn lemma_blend_constant(a: int, f: int)
    ensures
        blend(a, a, f) == a * UNIT,
{
    assert(a * (UNIT - f) + a * f == a * UNIT) by (nonlinear_arith);
}

proof fn lemma_product_bounds(a: int, w: int, bound: int, width: int)
    requires
        -bound <= a <= bound,
        0 <= w <= width,
    ensures
        -(bound * width) <= a * w <= bound * width,
{
    assert(-(bound * width) <= a * w <= bound * width) by (nonlinear_arith)
        requires
            -bound <= a <= bound,
            0 <= w <= width,
    ;
}

pub(crate) proof fn lemma_signed_product_bounds(a: int, b: int, bound: int, width: int)
    requires
        -bound <= a <= bound,
        -width <= b <= width,
    ensures
        -(bound * width) <= a * b <= bound * width,
{
    assert(-(bound * width) <= a * b <= bound * width) by (nonlinear_arith)
        requires
            -bound <= a <= bound,
            -width <= b <= width,
    ;
}

/// Largest magnitude of a cell value.
pub open spec fn cell_bound() -> int {
    0x8000_0000_0000_0000
}

/// The interpolated surface height at (`y`, `x`).
pub(crate) fn interpolate_height(g: &Grid, y: i128, x: i128) -> (h: i128)
    requires
        0 <= y < g.rows() * UNIT,
        0 <= x < g.cols() * UNIT,
    ensures
        h == surface_at(g, y as int, x as int),
        -(cell_bound() * UNIT * UNIT) <= h <= cell_bound() * UNIT * UNIT,
{
    let d = grid_dim(g);
    let unit: i128 = UNIT as i128;
    let r0: usize = (y / unit) as usize;
    let c0: usize = (x / unit) as usize;
    let r1: usize = if r0 + 1 < d.0 {
        r0 + 1
    } else {
        d.0 - 1
    };
    let c1: usize = if c0 + 1 < d.1 {
        c0 + 1
    } else {
        d.1 - 1
    };
    let fy: i128 = y % unit;
    let fx: i128 = x % unit;
    let h00: i128 = grid_get(g, r0, c0) as i128;
    let h01: i128 = grid_get(g, r0, c1) as i128;
    let h10: i128 = grid_get(g, r1, c0) as i128;
    let h11: i128 = grid_get(g, r1, c1) as i128;
    proof {
        lemma_product_bounds(h00 as int, unit - fx, cell_bound(), UNIT as int);
        lemma_product_bounds(h01 as int, fx as int, cell_bound(), UNIT as int);
        lemma_product_bounds(h10 as int, unit - fx, cell_bound(), UNIT as int);
        lemma_product_bounds(h11 as int, fx as int, cell_bound(), UNIT as int);
        lemma_blend_bounds(h00 as int, h01 as int, fx as int, -cell_bound(), cell_bound());
        lemma_blend_bounds(h10 as int, h11 as int, fx as int, -cell_bound(), cell_bound());
    }
    let top: i128 = h00 * (unit - fx) + h01 * fx;
    let bottom: i128 = h10 * (unit - fx) + h11 * fx;
    proof {
        lemma_product_bounds(top as int, unit - fy, cell_bound() * UNIT, UNIT as int);
        lemma_product_bounds(bottom as int, fy as int, cell_bound() * UNIT, UNIT as int);
        lemma_blend_bounds(
            top as int,
            bottom as int,
            fy as int,
            -cell_bound() * UNIT,
            cell_bound() * UNIT,
        );
    }
    top * (unit - fy) + bottom * fy
}

/// Largest horizontal step, in position units.
pub open spec fn step_bound() -> int {
    0x2_0000_0000
}

/// Largest vertical step, in millimetres times `UNIT` squared.
pub open spec fn rise_bound() -> int {
    0x40_0000_0000_0000_0000_0000
}

/// Largest number of steps of a march.
pub open spec fn limit_bound() -> int {
    0x4_0000_0000
}

/// Walks the ray step by step until the surface stands above it, it leaves
/// the window, or `limit` steps are done.
pub(crate) fn march(
    g: &Grid,
    y0: i128,
    x0: i128,
    z0: i128,
    step_y: i64,
    step_x: i64,
    step_z: i128,
    limit: u64,
) -> (hit: bool)
    requires
        0 <= y0 <= g.rows() * UNIT,
        0 <= x0 <= g.cols() * UNIT,
        -(cell_bound() * UNIT * UNIT) <= z0 <= cell_bound() * UNIT * UNIT,
        -step_bound() <= step_y <= step_bound(),
        -step_bound() <= step_x <= step_bound(),
        -rise_bound() <= step_z <= rise_bound(),
        limit <= limit_bound(),
    ensures
        hit == (Ray {
            y0: y0 as int,
            x0: x0 as int,
            z0: z0 as int,
            step_y: step_y as int,
            step_x: step_x as int,
            step_z: step_z as int,
        }).hits(g, 1, limit as int),
{
    let ghost ray = Ray {
        y0: y0 as int,
        x0: x0 as int,
        z0: z0 as int,
        step_y: step_y as int,
        step_x: step_x as int,
        step_z: step_z as int,
    };
    let d = grid_dim(g);
    let unit: i128 = UNIT as i128;
    let right: i128 = ((d.1 as i128) - 1) * unit;
    let bottom: i128 = ((d.0 as i128) - 1) * unit;
    let mut y: i128 = y0;
    let mut x: i128 = x0;
    let mut z: i128 = z0;
    let mut n: u64 = 1;
    while n <= limit
        invariant
            d.0 == g.rows(),
            d.1 == g.cols(),
            unit == UNIT,
            right == (g.cols() - 1) * UNIT,
            bottom == (g.rows() - 1) * UNIT,
            0 <= y0 <= g.rows() * UNIT,
            0 <= x0 <= g.cols() * UNIT,
            -(cell_bound() * UNIT * UNIT) <= z0 <= cell_bound() * UNIT * UNIT,
            -step_bound() <= step_y <= step_bound(),
            -step_bound() <= step_x <= step_bound(),
            -rise_bound() <= step_z <= rise_bound(),
            limit <= limit_bound(),
            ray.y0 == y0 && ray.x0 == x0 && ray.z0 == z0,
            ray.step_y == step_y && ray.step_x == step_x && ray.step_z == step_z,
            1 <= n <= limit + 1,
            y == ray.y(n - 1),
            x == ray.x(n - 1),
            z == ray.z(n - 1),
            -(n - 1) * step_bound() <= y - y0 <= (n - 1) * step_bound(),
            -(n - 1) * step_bound() <= x - x0 <= (n - 1) * step_bound(),
            -(n - 1) * rise_bound() <= z - z0 <= (n - 1) * rise_bound(),
            ray.hits(g, 1, limit as int) == ray.hits(g, n as int, limit as int),
        decreases limit + 1 - n,
    {
        proof {
            assert(n * ray.step_y == (n - 1) * ray.step_y + ray.step_y) by (nonlinear_arith);
            assert(n * ray.step_x == (n - 1) * ray.step_x + ray.step_x) by (nonlinear_arith);
            assert(n * ray.step_z == (n - 1) * ray.step_z + ray.step_z) by (nonlinear_arith);
        }
        y = y - (step_y as i128);
        x = x + (step_x as i128);
        z = z + step_z;
        if x < 0 || y < 0 || x >= right || y >= bottom {
            assert(!in_window(g, ray.y(n as int), ray.x(n as int)));
            return false;
        }
        assert(in_window(g, ray.y(n as int), ray.x(n as int)));
        let h: i128 = interpolate_height(g, y, x);
        if h > z {
            assert(ray.blocked_at(g, n as int));
            return true;
        }
        assert(!ray.blocked_at(g, n as int));
        n = n + 1;
    }
    false
}

/// The ray that leaves the top of cell (`row`, `col`) towards the sun in
/// half-cell steps; the height it gains per step is the sine of the
/// elevation times the metric length of the step.
pub open spec fn cell_ray(g: &Grid, row: int, col: int, sun: SunRay, resolution_mm: int) -> Ray {
    Ray {
        y0: row * UNIT,
        x0: col * UNIT,
        z0: g.at(row, col) * UNIT * UNIT,
        step_y: 2 * sun.dy,
        step_x: 2 * sun.dx,
        step_z: 2 * sun.dz * resolution_mm * UNIT,
    }
}

/// The ray that leaves the interpolated surface at position (`y`, `x`)
/// towards the sun in quarter-cell steps.
pub open spec fn point_ray(g: &Grid, y: int, x: int, sun: SunRay, resolution_mm: int) -> Ray {
    Ray {
        y0: y,
        x0: x,
        z0: surface_at(g, y, x),
        step_y: sun.dy as int,
        step_x: sun.dx as int,
        step_z: sun.dz * resolution_mm * UNIT,
    }
}

/// The surface hides the sun from cell (`row`, `col`) within `buffer_mm`.
pub open spec fn cell_occluded(
    g: &Grid,
    row: int,
    col: int,
    sun: SunRay,
    resolution_mm: int,
    buffer_mm: int,
) -> bool {
    cell_ray(g, row, col, sun, resolution_mm).hits(g, 1, step_limit(buffer_mm, resolution_mm, 2))
}

/// The surface hides the sun from position (`y`, `x`) within `buffer_mm`.
pub open spec fn point_occluded(
    g: &Grid,
    y: int,
    x: int,
    sun: SunRay,
    resolution_mm: int,
    buffer_mm: int,
) -> bool {
    point_ray(g, y, x, sun, resolution_mm).hits(g, 1, step_limit(buffer_mm, resolution_mm, 1))
}

/// Quarter cells per step: two from the top of a cell, one from a point within it.
pub open spec fn quarters_per_step(from_cell: bool) -> int {
    if from_cell {
        2
    } else {
        1
    }
}

/// Number of steps after which a march stops for want of distance.
fn march_limit(buffer_mm: u32, resolution_mm: u32, from_cell: bool) -> (limit: u64)
    requires
        resolution_mm > 0,
    ensures
        limit == step_limit(
            buffer_mm as int,
            resolution_mm as int,
            quarters_per_step(from_cell),
        ),
        limit <= limit_bound(),
{
    if buffer_mm == 0 {
        0
    } else {
        let reach: u64 = 4 * (buffer_mm as u64) - 1;
        let stride: u64 = if from_cell {
            2 * (resolution_mm as u64)
        } else {
            resolution_mm as u64
        };
        assert(stride == quarters_per_step(from_cell) * resolution_mm) by (nonlinear_arith)
            requires
                stride == if from_cell {
                    2 * resolution_mm
                } else {
                    resolution_mm as int
                },
        ;
        let whole: u64 = reach / stride;
        assert(whole <= reach) by (nonlinear_arith)
            requires
                whole == reach / stride,
                stride >= 1,
                reach >= 0,
        ;
        whole + 1
    }
}

/// Height gained per step: the upward component of the sun direction times
/// the step length in millimetres.
fn rise_per_step(sun: &SunRay, resolution_mm: u32, from_cell: bool) -> (rise: i128)
    ensures
        rise == quarters_per_step(from_cell) * sun.dz * resolution_mm * UNIT,
        -rise_bound() <= rise <= rise_bound(),
{
    let lift: i128 = if from_cell {
        2 * (sun.dz as i128)
    } else {
        sun.dz as i128
    };
    let metric: i128 = (resolution_mm as i128) * 4_000_000;
    proof {
        lemma_product_bounds(lift as int, metric as int, 0x1_0000_0000, 0x1_0000_0000 * UNIT);
        assert(lift * metric == quarters_per_step(from_cell) * sun.dz * resolution_mm * UNIT)
            by (nonlinear_arith)
            requires
                lift == quarters_per_step(from_cell) * sun.dz,
                metric == resolution_mm * UNIT,
        ;
    }
    lift * metric
}

/// Shadow value of cell (`row`, `col`): 64 when the surface hides the sun
/// from the top of the cell, 0 when it does not.
pub fn calculate_cell_shadow(
    g: &Grid,
    row: usize,
    col: usize,
    sun: &SunRay,
    resolution_mm: u32,
    buffer_mm: u32,
) -> (shadow: i64)
    requires
        g.contains_cell(row as int, col as int),
        resolution_mm > 0,
    ensures
        shadow == if cell_occluded(
            g,
            row as int,
            col as int,
            *sun,
            resolution_mm as int,
            buffer_mm as int,
        ) {
            64i64
        } else {
            0i64
        },
{
    let unit: i128 = UNIT as i128;
    let height: i128 = grid_get(g, row, col) as i128;
    proof {
        lemma_product_bounds(height as int, UNIT as int, cell_bound(), UNIT as int);
        lemma_product_bounds(height * UNIT, UNIT as int, cell_bound() * UNIT, UNIT as int);
        assert((row as int) * UNIT <= g.rows() * UNIT) by (nonlinear_arith)
            requires
                row <= g.rows(),
        ;
        assert((col as int) * UNIT <= g.cols() * UNIT) by (nonlinear_arith)
            requires
                col <= g.cols(),
        ;
    }
    let limit: u64 = march_limit(buffer_mm, resolution_mm, true);
    let rise: i128 = rise_per_step(sun, resolution_mm, true);
    let hit: bool = march(
        g,
        (row as i128) * unit,
        (col as i128) * unit,
        height * unit * unit,
        2 * (sun.dy as i64),
        2 * (sun.dx as i64),
        rise,
        limit,
    );
    if hit {
        64
    } else {
        0
    }
}

/// Shadow value of position (`y`, `x`) of the surface: 64 when the surface
/// hides the sun from it, 0 when it does not.
pub fn calculate_subpixel_shadow(
    g: &Grid,
    y: i128,
    x: i128,
    sun: &SunRay,
    resolution_mm: u32,
    buffer_mm: u32,
) -> (shadow: i64)
    requires
        0 <= y < g.rows() * UNIT,
        0 <= x < g.cols() * UNIT,
        resolution_mm > 0,
    ensures
        shadow == if point_occluded(
            g,
            y as int,
            x as int,
            *sun,
            resolution_mm as int,
            buffer_mm as int,
        ) {
            64i64
        } else {
            0i64
        },
{
    let height: i128 = interpolate_height(g, y, x);
    let limit: u64 = march_limit(buffer_mm, resolution_mm, false);
    let rise: i128 = rise_per_step(sun, resolution_mm, false);
    let hit: bool = march(g, y, x, height, sun.dy as i64, sun.dx as i64, rise, limit);
    if hit {
        64
    } else {
        0
    }
}

/// `higher` has the shape of `lower` and no cell of it lies lower.
pub open spec fn raised(lower: &Grid, higher: &Grid) -> bool {
    &&& lower.rows() == higher.rows()
    &&& lower.cols() == higher.cols()
    &&& forall|r: int, c: int|
        lower.contains_cell(r, c) ==> #[trigger] lower.at(r, c) <= higher.at(r, c)
}

proof fn lemma_surface_monotone(lower: &Grid, higher: &Grid, y: int, x: int)
    requires
        raised(lower, higher),
        0 <= y < lower.rows() * UNIT,
        0 <= x < lower.cols() * UNIT,
    ensures
        surface_at(lower, y, x) <= surface_at(higher, y, x),
{
    let r0 = y / (UNIT as int);
    let c0 = x / (UNIT as int);
    let r1 = next_index(r0, lower.rows() as int);
    let c1 = next_index(c0, lower.cols() as int);
    let fy = y % (UNIT as int);
    let fx = x % (UNIT as int);
    assert(lower.contains_cell(r0, c0) && lower.contains_cell(r0, c1) && lower.contains_cell(
        r1,
        c0,
    ) && lower.contains_cell(r1, c1));
    assert(lower.at(r0, c0) <= higher.at(r0, c0));
    assert(lower.at(r0, c1) <= higher.at(r0, c1));
    assert(lower.at(r1, c0) <= higher.at(r1, c0));
    assert(lower.at(r1, c1) <= higher.at(r1, c1));
    lemma_blend_monotone(
        lower.at(r0, c0) as int,
        lower.at(r0, c1) as int,
        higher.at(r0, c0) as int,
        higher.at(r0, c1) as int,
        fx,
    );
    lemma_blend_monotone(
        lower.at(r1, c0) as int,
        lower.at(r1, c1) as int,
        higher.at(r1, c0) as int,
        higher.at(r1, c1) as int,
        fx,
    );
    lemma_blend_monotone(
        blend(lower.at(r0, c0) as int, lower.at(r0, c1) as int, fx),
        blend(lower.at(r1, c0) as int, lower.at(r1, c1) as int, fx),
        blend(higher.at(r0, c0) as int, higher.at(r0, c1) as int, fx),
        blend(higher.at(r1, c0) as int, higher.at(r1, c1) as int, fx),
        fy,
    );
}

proof fn lemma_surface_constant(g: &Grid, level: i64, y: int, x: int)
    requires
        g.is_constant(level),
        0 <= y < g.rows() * UNIT,
        0 <= x < g.cols() * UNIT,
    ensures
        surface_at(g, y, x) == level * UNIT * UNIT,
{
    let r0 = y / (UNIT as int);
    let c0 = x / (UNIT as int);
    let r1 = next_index(r0, g.rows() as int);
    let c1 = next_index(c0, g.cols() as int);
    assert(g.contains_cell(r0, c0) && g.contains_cell(r0, c1) && g.contains_cell(r1, c0)
        && g.contains_cell(r1, c1));
    assert(g.at(r0, c0) == level && g.at(r0, c1) == level && g.at(r1, c0) == level && g.at(
        r1,
        c1,
    ) == level);
    lemma_blend_constant(level as int, x % (UNIT as int));
    lemma_blend_constant(level * UNIT, y % (UNIT as int));
}

proof fn lemma_hits_monotone(ray: Ray, lower: &Grid, higher: &Grid, n: int, limit: int)
    requires
        raised(lower, higher),
        ray.hits(lower, n, limit),
    ensures
        ray.hits(higher, n, limit),
    decreases limit - n + 1,
{
    if n <= limit && in_window(lower, ray.y(n), ray.x(n)) {
        lemma_surface_monotone(lower, higher, ray.y(n), ray.x(n));
        if !ray.blocked_at(lower, n) {
            lemma_hits_monotone(ray, lower, higher, n + 1, limit);
        }
    }
}

proof fn lemma_flat_never_hit(ray: Ray, g: &Grid, level: i64, n: int, limit: int)
    requires
        g.is_constant(level),
        ray.z0 >= level * UNIT * UNIT,
        ray.step_z >= 0,
        n >= 0,
    ensures
        !ray.hits(g, n, limit),
    decreases limit - n + 1,
{
    if n <= limit && in_window(g, ray.y(n), ray.x(n)) {
        lemma_surface_constant(g, level, ray.y(n), ray.x(n));
        assert(n * ray.step_z >= 0) by (nonlinear_arith)
            requires
                n >= 0,
                ray.step_z >= 0,
        ;
        lemma_flat_never_hit(ray, g, level, n + 1, limit);
    }
}

/// Raising the surface anywhere but under the cell itself never brings a
/// shadowed cell back into the light.
pub proof fn law_raised_surface_keeps_cell_shadow(
    lower: &Grid,
    higher: &Grid,
    row: int,
    col: int,
    sun: SunRay,
    resolution_mm: int,
    buffer_mm: int,
)
    requires
        raised(lower, higher),
        lower.at(row, col) == higher.at(row, col),
        cell_occluded(lower, row, col, sun, resolution_mm, buffer_mm),
    ensures
        cell_occluded(higher, row, col, sun, resolution_mm, buffer_mm),
{
    lemma_hits_monotone(
        cell_ray(lower, row, col, sun, resolution_mm),
        lower,
        higher,
        1,
        step_limit(buffer_mm, resolution_mm, 2),
    );
}

/// Raising the surface without changing its height at the start of the ray
/// never brings a shadowed point back into the light.
pub proof fn law_raised_surface_keeps_point_shadow(
    lower: &Grid,
    higher: &Grid,
    y: int,
    x: int,
    sun: SunRay,
    resolution_mm: int,
    buffer_mm: int,
)
    requires
        raised(lower, higher),
        surface_at(lower, y, x) == surface_at(higher, y, x),
        point_occluded(lower, y, x, sun, resolution_mm, buffer_mm),
    ensures
        point_occluded(higher, y, x, sun, resolution_mm, buffer_mm),
{
    lemma_hits_monotone(
        point_ray(lower, y, x, sun, resolution_mm),
        lower,
        higher,
        1,
        step_limit(buffer_mm, resolution_mm, 1),
    );
}

/// On a level surface no cell is shadowed while the sun does not point downwards.
pub proof fn law_flat_surface_lights_cell(
    g: &Grid,
    level: i64,
    row: int,
    col: int,
    sun: SunRay,
    resolution_mm: int,
    buffer_mm: int,
)
    requires
        g.is_constant(level),
        g.contains_cell(row, col),
        sun.dz >= 0,
        resolution_mm >= 0,
    ensures
        !cell_occluded(g, row, col, sun, resolution_mm, buffer_mm),
{
    let ray = cell_ray(g, row, col, sun, resolution_mm);
    assert(ray.step_z >= 0) by (nonlinear_arith)
        requires
            ray.step_z == 2 * sun.dz * resolution_mm * UNIT,
            sun.dz >= 0,
            resolution_mm >= 0,
    ;
    lemma_flat_never_hit(ray, g, level, 1, step_limit(buffer_mm, resolution_mm, 2));
}

/// On a level surface no point is shadowed while the sun does not point downwards.
pub proof fn law_flat_surface_lights_point(
    g: &Grid,
    level: i64,
    y: int,
    x: int,
    sun: SunRay,
    resolution_mm: int,
    buffer_mm: int,
)
    requires
        g.is_constant(level),
        0 <= y < g.rows() * UNIT,
        0 <= x < g.cols() * UNIT,
        sun.dz >= 0,
        resolution_mm >= 0,
    ensures
        !point_occluded(g, y, x, sun, resolution_mm, buffer_mm),
{
    let ray = point_ray(g, y, x, sun, resolution_mm);
    lemma_surface_constant(g, level, y, x);
    assert(ray.step_z >= 0) by (nonlinear_arith)
        requires
            ray.step_z == sun.dz * resolution_mm * UNIT,
            sun.dz >= 0,
            resolution_mm >= 0,
    ;
    lemma_flat_never_hit(ray, g, level, 1, step_limit(buffer_mm, resolution_mm, 1));
}

} // verus!
