//! The area of interest as a polygon with integer coordinates, in millionths
//! of the unit of the raster's reference system.  The polygon is a
//! `geo_types::Polygon<i64>`; of it only the exterior ring is used.

use vstd::prelude::*;

verus! {

/// A polygon without holes.
#[verifier::external_body]
pub struct AoiPolygon {
    shape: geo_types::Polygon<i64>,
}

/// The exterior ring of the polygon as pairs (x, y), in ring order.
pub uninterp spec fn polygon_ring(p: AoiPolygon) -> Seq<(i64, i64)>;

/// `coords` with its first pair repeated at the end, unless it is empty or
/// ends with that pair already.
pub open spec fn closed_ring(coords: Seq<(i64, i64)>) -> Seq<(i64, i64)> {
    if coords.len() > 0 && coords[0] != coords[coords.len() - 1] {
        coords.push(coords[0])
    } else {
        coords
    }
}

/// Wraps `geo_types::Polygon::new` on `LineString::from` of the pairs and no
/// interior ring: the exterior ring is the given line, closed.
#[verifier::external_body]
pub(crate) fn polygon_new(coords: Vec<(i64, i64)>) -> (p: AoiPolygon)
    ensures
        polygon_ring(p) == closed_ring(coords@),
{
    AoiPolygon { shape: geo_types::Polygon::new(geo_types::LineString::from(coords), vec![]) }
}

/// Wraps `Polygon::exterior` and `LineString::coords`: the pairs of the
/// exterior ring, in ring order.
#[verifier::external_body]
pub(crate) fn polygon_exterior(p: &AoiPolygon) -> (ring: Vec<(i64, i64)>)
    ensures
        ring@ == polygon_ring(*p),
{
    p.shape.exterior().coords().map(|c| (c.x, c.y)).collect()
}

/// `low` is the smallest and `high` the largest of the first `upto` values
/// picked from the ring, `x` or `y`.
pub open spec fn spans(ring: Seq<(i64, i64)>, pick_x: bool, low: int, high: int) -> bool {
    &&& exists|i: int| 0 <= i < ring.len() && #[trigger] picked(ring, pick_x, i) == low
    &&& exists|i: int| 0 <= i < ring.len() && #[trigger] picked(ring, pick_x, i) == high
    &&& forall|i: int| 0 <= i < ring.len() ==> low <= #[trigger] picked(ring, pick_x, i) <= high
}

/// The `x` or the `y` of pair `i` of the ring.
pub open spec fn picked(ring: Seq<(i64, i64)>, pick_x: bool, i: int) -> int {
    if pick_x {
        ring[i].0 as int
    } else {
        ring[i].1 as int
    }
}

/// The bounding box of a ring, widened by a buffer on every side:
/// (min x, min y, max x, max y).
#[derive(Debug, Clone, Copy, PartialEq, Eq, Structural)]
pub struct WorldBounds {
    pub min_x: i128,
    pub min_y: i128,
    pub max_x: i128,
    pub max_y: i128,
}

/// Sum of the first `upto` values picked from the ring.
pub open spec fn picked_sum(ring: Seq<(i64, i64)>, pick_x: bool, upto: int) -> int
    decreases upto,
{
    if upto <= 0 {
        0
    } else {
        picked_sum(ring, pick_x, upto - 1) + picked(ring, pick_x, upto - 1)
    }
}

impl AoiPolygon {
    /// The exterior ring.
    pub open spec fn ring(&self) -> Seq<(i64, i64)> {
        polygon_ring(*self)
    }

    /// The polygon whose exterior ring is the given line, closed.
    pub fn new(coords: Vec<(i64, i64)>) -> (p: AoiPolygon)
        ensures
            p.ring() == closed_ring(coords@),
    {
        polygon_new(coords)
    }

    pub fn exterior(&self) -> (ring: Vec<(i64, i64)>)
        ensures
            ring@ == self.ring(),
    {
        polygon_exterior(self)
    }

    /// The bounding box of the exterior ring, widened by `buffer` on every
    /// side; `None` for a polygon without points.
    pub fn get_buffered_bounds(&self, buffer: i64) -> (out: Option<WorldBounds>)
        ensures
            out.is_some() <==> self.ring().len() > 0,
            out matches Some(b) ==> spans(self.ring(), true, b.min_x + buffer, b.max_x - buffer)
                && spans(self.ring(), false, b.min_y + buffer, b.max_y - buffer),
    {
        let ring: Vec<(i64, i64)> = polygon_exterior(self);
        if ring.len() == 0 {
            return None;
        }
        let mut min_x: i64 = ring[0].0;
        let mut max_x: i64 = ring[0].0;
        let mut min_y: i64 = ring[0].1;
        let mut max_y: i64 = ring[0].1;
        let mut at_min_x: Ghost<int> = Ghost(0);
        let mut at_max_x: Ghost<int> = Ghost(0);
        let mut at_min_y: Ghost<int> = Ghost(0);
        let mut at_max_y: Ghost<int> = Ghost(0);
        let mut i: usize = 1;
        while i < ring.len()
            invariant
                1 <= i <= ring.len(),
                0 <= at_min_x@ < i && picked(ring@, true, at_min_x@) == min_x,
                0 <= at_max_x@ < i && picked(ring@, true, at_max_x@) == max_x,
                0 <= at_min_y@ < i && picked(ring@, false, at_min_y@) == min_y,
                0 <= at_max_y@ < i && picked(ring@, false, at_max_y@) == max_y,
                forall|j: int| 0 <= j < i ==> min_x <= #[trigger] picked(ring@, true, j) <= max_x,
                forall|j: int| 0 <= j < i ==> min_y <= #[trigger] picked(ring@, false, j) <= max_y,
            decreases ring.len() - i,
        {
            let p = ring[i];
            if p.0 < min_x {
                min_x = p.0;
                at_min_x = Ghost(i as int);
            }
            if p.0 > max_x {
                max_x = p.0;
                at_max_x = Ghost(i as int);
            }
            if p.1 < min_y {
                min_y = p.1;
                at_min_y = Ghost(i as int);
            }
            if p.1 > max_y {
                max_y = p.1;
                at_max_y = Ghost(i as int);
            }
            i += 1;
        }
        Some(
            WorldBounds {
                min_x: (min_x as i128) - (buffer as i128),
                min_y: (min_y as i128) - (buffer as i128),
                max_x: (max_x as i128) + (buffer as i128),
                max_y: (max_y as i128) + (buffer as i128),
            },
        )
    }

    /// The mean of the points of the exterior ring, rounded down, as
    /// (x, y); (0, 0) for a polygon without points.
    pub fn get_aoi_center(&self) -> (center: (i64, i64))
        ensures
            self.ring().len() == 0 ==> center == (0i64, 0i64),
            self.ring().len() > 0 ==> center.0 == picked_sum(
                self.ring(),
                true,
                self.ring().len() as int,
            ) / (self.ring().len() as int) && center.1 == picked_sum(
                self.ring(),
                false,
                self.ring().len() as int,
            ) / (self.ring().len() as int),
    {
        let ring: Vec<(i64, i64)> = polygon_exterior(self);
        if ring.len() == 0 {
            return (0, 0);
        }
        let mut sum_x: i128 = 0;
        let mut sum_y: i128 = 0;
        let mut i: usize = 0;
        while i < ring.len()
            invariant
                i <= ring.len(),
                sum_x == picked_sum(ring@, true, i as int),
                sum_y == picked_sum(ring@, false, i as int),
                -(i * 0x8000_0000_0000_0000) <= sum_x <= i * 0x7FFF_FFFF_FFFF_FFFF,
                -(i * 0x8000_0000_0000_0000) <= sum_y <= i * 0x7FFF_FFFF_FFFF_FFFF,
            decreases ring.len() - i,
        {
            sum_x = sum_x + (ring[i].0 as i128);
            sum_y = sum_y + (ring[i].1 as i128);
            i += 1;
        }
        let n: i128 = ring.len() as i128;
        let mean_x: i128 = floor_quotient(sum_x, n);
        let mean_y: i128 = floor_quotient(sum_y, n);
        (mean_x as i64, mean_y as i64)
    }
}

/// `a / b` rounded down.
fn floor_quotient(a: i128, b: i128) -> (q: i128)
    requires
        b > 0,
        -(b * 0x8000_0000_0000_0000) <= a <= b * 0x7FFF_FFFF_FFFF_FFFF,
        b <= 0x1_0000_0000_0000_0000,
    ensures
        q == a as int / b as int,
        -0x8000_0000_0000_0000 <= q <= 0x7FFF_FFFF_FFFF_FFFF,
{
    assert(-0x8000_0000_0000_0000 <= a as int / b as int <= 0x7FFF_FFFF_FFFF_FFFF)
        by (nonlinear_arith)
        requires
            b > 0,
            -(b * 0x8000_0000_0000_0000) <= a <= b * 0x7FFF_FFFF_FFFF_FFFF,
    ;
    match a.checked_div_euclid(b) {
        Some(q) => q,
        None => 0,
    }
}

} // verus!
