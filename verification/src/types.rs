//! Plain data shared by the analysis stages.
//!
//! Shadow values are counted in sixty-fourths: 0 is fully lit, 64 fully
//! shadowed.  Durations of shadow are counted in ticks of 1/64 second, so that
//! a fractional shadow over a whole number of seconds stays an integer.
//! Angles are microdegrees, lengths millimetres.

use crate::polygon::{closed_ring, AoiPolygon};
use vstd::prelude::*;

verus! {

/// The shadow value of a fully shadowed cell.
pub const FULL_SHADOW: i64 = 64;

/// A cell counts as shadowed when its value exceeds this.
pub const HALF_SHADOW: i64 = 32;

/// Ticks in one second.
pub const TICKS_PER_SECOND: u128 = 64;

/// Shadow buffer, in millimetres, of a run that is given none.
pub const DEFAULT_BUFFER_MM: u32 = 1_000_000;

/// How finely shadow boundaries are resampled.
#[derive(Debug, Clone, Copy, PartialEq, Eq, Structural)]
pub enum ShadowQuality {
    Fast,
    Normal,
    High,
    Scientific,
}

impl ShadowQuality {
    /// Rays per side of the sub-cell grid that refines a boundary cell; zero
    /// means that boundaries are left as they are.
    pub open spec fn spec_subsamples(self) -> nat {
        match self {
            ShadowQuality::Fast => 0,
            ShadowQuality::Normal => 2,
            ShadowQuality::High => 4,
            ShadowQuality::Scientific => 8,
        }
    }

    pub fn subsamples(self) -> (k: usize)
        ensures
            k == self.spec_subsamples(),
    {
        match self {
            ShadowQuality::Fast => 0,
            ShadowQuality::Normal => 2,
            ShadowQuality::High => 4,
            ShadowQuality::Scientific => 8,
        }
    }
}

/// Why an analysis could not be carried out.
#[derive(Debug, Clone, PartialEq, Eq)]
pub enum ShadowError {
    /// Malformed dates, an empty area of interest, rasters of different
    /// shapes, an area outside the raster, a degenerate clip window.
    Config(String),
    /// A read or write failed.
    Io(String),
    /// A results raster lacks the bands it must have.
    Format(String),
    /// The run was cancelled between two instants.
    Cancelled,
}

impl ShadowError {
    /// The text carried by the error; empty for a cancellation.
    pub open spec fn text(&self) -> Seq<char> {
        match self {
            ShadowError::Config(m) => m@,
            ShadowError::Io(m) => m@,
            ShadowError::Format(m) => m@,
            ShadowError::Cancelled => Seq::empty(),
        }
    }

    pub fn message(&self) -> (m: String)
        ensures
            m@ == self.text(),
    {
        match self {
            ShadowError::Config(m) => m.clone(),
            ShadowError::Io(m) => m.clone(),
            ShadowError::Format(m) => m.clone(),
            ShadowError::Cancelled => String::new(),
        }
    }

    pub fn is_config(&self) -> (b: bool)
        ensures
            b == (self is Config),
    {
        match self {
            ShadowError::Config(_) => true,
            _ => false,
        }
    }
}

/// An exact non-negative ratio `num / den`.
#[derive(Debug, Clone, Copy, PartialEq, Eq, Structural)]
pub struct Fraction {
    pub num: u128,
    pub den: u128,
}

impl Fraction {
    pub open spec fn wf(self) -> bool {
        self.den > 0
    }

    /// The ratio lies between zero and one.
    pub open spec fn is_proper(self) -> bool {
        self.den > 0 && self.num <= self.den
    }
}

/// The part of a day, relative to solar noon, in which an instant falls.
#[derive(Debug, Clone, Copy, PartialEq, Eq, Structural)]
pub enum DayPeriod {
    /// More than two hours before solar noon.
    Morning,
    /// Within two hours of solar noon.
    Noon,
    /// More than two hours after solar noon.
    Afternoon,
}

/// What the solar model reports for one calendar day at the area's centroid.
#[derive(Debug, Clone, Copy, PartialEq, Eq, Structural)]
pub struct SolarDay {
    /// Day number.
    pub day: i64,
    /// Instant of solar noon.
    pub noon: i64,
    /// Seconds between sunrise and sunset: 0 in polar night, 86 400 in polar day.
    pub solar_seconds: u32,
}

/// The sun as seen from the area's centroid at one instant.
#[derive(Debug, Clone, Copy, PartialEq, Eq, Structural)]
pub struct SunPosition {
    /// Clockwise from true north, microdegrees.
    pub azimuth: i64,
    /// Above the horizon, microdegrees.
    pub elevation: i64,
    pub timestamp: i64,
}

/// The settings of a run.
#[derive(Debug, Clone, PartialEq, Eq)]
pub struct Config {
    pub dtm_path: String,
    pub dsm_path: String,
    /// The exterior ring of the area of interest: one entry per point, each
    /// holding x and y in millionths of the unit of the reference system.
    pub aoi: Vec<Vec<i64>>,
    /// Start of the analysis, RFC 3339.
    pub start_date: String,
    /// End of the analysis, RFC 3339.
    pub end_date: String,
    /// Sampling step within a day, whole minutes.
    pub interval_minutes: u32,
    /// Shadow buffer in millimetres; derived from the rasters when absent.
    pub buffer_mm: Option<u32>,
    /// Step to which solar angles are rounded, microdegrees.
    pub angle_precision: u32,
    pub shadow_quality: ShadowQuality,
    /// Width of the worker pool; that of the machine when absent.
    pub cpu_cores: Option<usize>,
}

/// The point that entry `i` of the ring stands for: its first two numbers,
/// or the origin where it holds fewer.
pub open spec fn spec_point(aoi: Seq<Vec<i64>>, i: int) -> (i64, i64) {
    if aoi[i].len() >= 2 {
        (aoi[i][0], aoi[i][1])
    } else {
        (0i64, 0i64)
    }
}

/// The points of the ring, in order.
pub open spec fn spec_points(aoi: Seq<Vec<i64>>) -> Seq<(i64, i64)> {
    Seq::new(aoi.len(), |i: int| spec_point(aoi, i))
}

impl Config {
    /// The area of interest as a polygon; an area without points is a
    /// configuration error.
    pub fn to_polygon(&self) -> (out: Result<AoiPolygon, ShadowError>)
        ensures
            out.is_ok() <==> self.aoi.len() > 0,
            out matches Ok(p) ==> p.ring() == closed_ring(spec_points(self.aoi@)),
            out matches Err(e) ==> e is Config && e.text() == "AOI is empty"@,
    {
        if self.aoi.len() == 0 {
            return Err(ShadowError::Config("AOI is empty".to_owned()));
        }
        let mut coords: Vec<(i64, i64)> = Vec::new();
        let mut i: usize = 0;
        while i < self.aoi.len()
            invariant
                i <= self.aoi.len(),
                coords.len() == i,
                forall|j: int| 0 <= j < i ==> #[trigger] coords[j] == spec_point(self.aoi@, j),
            decreases self.aoi.len() - i,
        {
            let entry: &Vec<i64> = &self.aoi[i];
            if entry.len() >= 2 {
                coords.push((entry[0], entry[1]));
            } else {
                coords.push((0, 0));
            }
            i += 1;
        }
        assert(coords@ =~= spec_points(self.aoi@));
        Ok(AoiPolygon::new(coords))
    }

    /// The shadow buffer to march with: the configured one, or 1000 m.
    pub fn buffer_or_default(&self) -> (buffer_mm: u32)
        ensures
            buffer_mm == match self.buffer_mm {
                Some(b) => b,
                None => 1_000_000u32,
            },
    {
        match self.buffer_mm {
            Some(b) => b,
            None => DEFAULT_BUFFER_MM,
        }
    }

    /// The width of the worker pool on a machine with `available` cores:
    /// the configured width when there is one, else that of the machine,
    /// and never zero.
    pub fn get_cpu_cores(&self, available: usize) -> (cores: usize)
        ensures
            cores == match self.cpu_cores {
                Some(n) => if n > 0 {
                    n
                } else {
                    1usize
                },
                None => if available > 0 {
                    available
                } else {
                    1usize
                },
            },
            cores > 0,
    {
        match self.cpu_cores {
            Some(n) => if n > 0 {
                n
            } else {
                1
            },
            None => if available > 0 {
                available
            } else {
                1
            },
        }
    }
}

} // verus!
