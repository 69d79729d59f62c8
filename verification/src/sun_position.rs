//! The discrete side of the solar position model.
//!
//! The trigonometry of the model is done by the caller, who hands over
//! elevations in microdegrees and the equation of time in millionths of a
//! minute.  Here are the Julian day number, the quantisation and caching of
//! angles, solar noon, and the search for sunrise and sunset on the
//! elevation curve around a day's solar noon.

use crate::calendar::{
    civil_date_of, civil_ordinal, day_of, day_start, hour_of, instant_in_calendar, spec_day_of,
    spec_day_start, spec_hour_of, spec_julian_day, MICROS_PER_MINUTE,
};
use crate::timestamps::{DayLight, SolarWindow};
use crate::types::{SolarDay, SunPosition};
use std::collections::HashMap;
use vstd::prelude::*;

verus! {

broadcast use vstd::std_specs::hash::group_hash_axioms;

/// Elevation of the sun's centre at sunrise and sunset, microdegrees.
pub const HORIZON: i64 = -833_000;

fn floor_div(a: i64, b: i64) -> (q: i64)
    requires
        b > 0,
    ensures
        q == a as int / b as int,
{
    assert(i64::MIN <= a as int / b as int <= i64::MAX) by (nonlinear_arith)
        requires
            b > 0,
            i64::MIN <= a <= i64::MAX,
    ;
    match a.checked_div_euclid(b) {
        Some(q) => q,
        None => 0,
    }
}

/// The Julian day number of a date of the Gregorian calendar.
pub fn julian_day(year: i32, month: u32, day: u32) -> (jdn: i64)
    ensures
        jdn == spec_julian_day(year as int, month as int, day as int),
{
    let a: i64 = floor_div(14 - (month as i64), 12);
    let y: i64 = (year as i64) + 4800 - a;
    let m: i64 = (month as i64) + 12 * a - 3;
    (day as i64) + floor_div(153 * m + 2, 5) + 365 * y + floor_div(y, 4) - floor_div(y, 100)
        + floor_div(y, 400) - 32045
}

/// `value` divided by `step` and rounded to the nearest integer, halves away
/// from zero.
pub open spec fn spec_round_steps(value: int, step: int) -> int {
    if value >= 0 {
        (2 * value + step) / (2 * step)
    } else {
        -((2 * (-value) + step) / (2 * step))
    }
}

/// `value` rounded to the nearest multiple of `step`, halves away from zero.
pub open spec fn spec_round_to(value: int, step: int) -> int {
    spec_round_steps(value, step) * step
}

/// Angles beyond this, in microdegrees, are not rounded.
pub const MAX_ANGLE: i64 = 1_000_000_000_000;

/// `value` rounded to the nearest multiple of `step`, halves away from zero.
pub fn round_angle(value: i64, step: u32) -> (rounded: i64)
    requires
        step > 0,
        -MAX_ANGLE <= value <= MAX_ANGLE,
    ensures
        rounded == spec_round_to(value as int, step as int),
{
    let s: i64 = step as i64;
    if value >= 0 {
        let steps: i64 = (2 * value + s) / (2 * s);
        assert(0 <= steps * s <= value + s) by (nonlinear_arith)
            requires
                steps == (2 * value + s) / (2 * s),
                value >= 0,
                s > 0,
        ;
        steps * s
    } else {
        let steps: i64 = (2 * (-value) + s) / (2 * s);
        assert(0 <= steps * s <= -value + s) by (nonlinear_arith)
            requires
                steps == (2 * (-value) + s) / (2 * s),
                value < 0,
                s > 0,
        ;
        assert((-steps) * s == -(steps * s)) by (nonlinear_arith);
        -(steps * s)
    }
}

/// Number of samples of a day's elevation curve: one per minute from six
/// hours before solar noon to six hours after it, both included.
pub const CURVE_SAMPLES: usize = 721;

/// Offset of solar noon from the start of the curve, microseconds.
pub const HALF_WINDOW: i64 = 21_600_000_000;

/// Offset of the end of the curve from its start, microseconds.
pub const FULL_WINDOW: i64 = 43_200_000_000;

/// The sun's elevation around the solar noon of one day, in microdegrees:
/// sampled every minute from six hours before solar noon to six hours after
/// it, and once more at solar midnight.
#[derive(Debug, Clone, PartialEq, Eq)]
pub struct DayCurve {
    /// Instant of solar noon.
    pub noon: i64,
    pub elevations: Vec<i64>,
    /// Elevation twelve hours from solar noon.
    pub midnight_elevation: i64,
}

impl DayCurve {
    /// One elevation between -90 and 90 degrees per minute of the window
    /// and one for midnight, around a noon that the calendar covers.
    pub open spec fn wf(&self) -> bool {
        &&& self.elevations.len() == 721
        &&& instant_in_calendar(self.noon as int)
        &&& -90_000_000 <= self.midnight_elevation <= 90_000_000
        &&& forall|i: int|
            0 <= i < self.elevations.len() ==> -90_000_000 <= #[trigger] self.elevations[i]
                <= 90_000_000
    }

    /// The instant of the first sample: six hours before solar noon.
    pub open spec fn start(&self) -> int {
        self.noon - 21_600_000_000
    }

    /// The number of the day on which solar noon falls.
    pub open spec fn day(&self) -> int {
        spec_day_of(self.noon as int)
    }

    /// The sun stays below the horizon: it is not above it even at solar noon.
    pub open spec fn is_polar_night(&self) -> bool {
        self.elevations[360] <= HORIZON
    }

    /// The sun stays above the horizon: it is not below it even at solar midnight.
    pub open spec fn is_polar_day(&self) -> bool {
        !self.is_polar_night() && self.midnight_elevation >= HORIZON
    }

    pub fn is_valid(&self) -> (ok: bool)
        ensures
            ok == self.wf(),
    {
        if self.elevations.len() != 721 || day_start(day_of(self.noon)).is_none()
            || self.midnight_elevation < -90_000_000 || self.midnight_elevation > 90_000_000 {
            return false;
        }
        let mut i: usize = 0;
        while i < self.elevations.len()
            invariant
                i <= self.elevations.len(),
                forall|j: int|
                    0 <= j < i ==> -90_000_000 <= #[trigger] self.elevations[j] <= 90_000_000,
            decreases self.elevations.len() - i,
        {
            if self.elevations[i] < -90_000_000 || self.elevations[i] > 90_000_000 {
                return false;
            }
            i += 1;
        }
        true
    }
}

/// The elevation in force `offset` microseconds after the start of the
/// curve: that of the minute in which the offset falls.
pub open spec fn curve_at(elevations: Seq<i64>, offset: int) -> int {
    elevations[offset / 60_000_000] as int
}

/// The event sought lies later than `offset`: the sun is still below the
/// horizon before sunrise, still above it before sunset.
pub open spec fn keep_later(elevations: Seq<i64>, offset: int, is_sunset: bool) -> bool {
    if is_sunset {
        curve_at(elevations, offset) > HORIZON
    } else {
        curve_at(elevations, offset) < HORIZON
    }
}

/// Offset at which the search for the event starts: the start of the curve
/// for sunrise, solar noon for sunset.
pub open spec fn search_start(is_sunset: bool) -> int {
    if is_sunset {
        21_600_000_000
    } else {
        0
    }
}

/// Offset at which the search for the event ends: solar noon for sunrise,
/// the end of the curve for sunset.
pub open spec fn search_end(is_sunset: bool) -> int {
    if is_sunset {
        43_200_000_000
    } else {
        21_600_000_000
    }
}

/// The elevation crosses the horizon within the search window.
pub open spec fn has_crossing(elevations: Seq<i64>, is_sunset: bool) -> bool {
    keep_later(elevations, search_start(is_sunset), is_sunset) && !keep_later(
        elevations,
        search_end(is_sunset),
        is_sunset,
    )
}

/// The midpoint of the interval to which halving narrows `low` to `high`
/// once it is no longer than a minute.
pub open spec fn bisect(elevations: Seq<i64>, low: int, high: int, is_sunset: bool) -> int
    decreases high - low,
{
    if high - low <= 60_000_000 {
        low + (high - low) / 2
    } else if keep_later(elevations, low + (high - low) / 2, is_sunset) {
        bisect(elevations, low + (high - low) / 2, high, is_sunset)
    } else {
        bisect(elevations, low, low + (high - low) / 2, is_sunset)
    }
}

/// Offset of the event from the start of the curve: what halving the search
/// window down to a minute arrives at.
pub open spec fn spec_event_offset(elevations: Seq<i64>, is_sunset: bool) -> int {
    bisect(elevations, search_start(is_sunset), search_end(is_sunset), is_sunset)
}

fn later(elevations: &Vec<i64>, offset: i64, is_sunset: bool) -> (b: bool)
    requires
        elevations.len() == 721,
        0 <= offset <= 43_200_000_000,
    ensures
        b == keep_later(elevations@, offset as int, is_sunset),
{
    let index: usize = (offset / MICROS_PER_MINUTE) as usize;
    if is_sunset {
        elevations[index] > HORIZON
    } else {
        elevations[index] < HORIZON
    }
}

/// Offset, from the start of the curve, of sunrise or sunset: found by
/// halving the search window down to a minute.
pub fn find_solar_event(elevations: &Vec<i64>, is_sunset: bool) -> (t: i64)
    requires
        elevations.len() == 721,
    ensures
        t == spec_event_offset(elevations@, is_sunset),
        search_start(is_sunset) <= t <= search_end(is_sunset),
{
    let start: i64 = if is_sunset {
        HALF_WINDOW
    } else {
        0
    };
    let end: i64 = if is_sunset {
        FULL_WINDOW
    } else {
        HALF_WINDOW
    };
    let mut low: i64 = start;
    let mut high: i64 = end;
    while high - low > MICROS_PER_MINUTE
        invariant
            elevations.len() == 721,
            0 <= start <= low < high <= end <= 43_200_000_000,
            bisect(elevations@, start as int, end as int, is_sunset) == bisect(
                elevations@,
                low as int,
                high as int,
                is_sunset,
            ),
        decreases high - low,
    {
        let mid: i64 = low + (high - low) / 2;
        if later(elevations, mid, is_sunset) {
            low = mid;
        } else {
            high = mid;
        }
    }
    low + (high - low) / 2
}

/// `a` to `b` is an interval of at most a minute around `t`, at whose start
/// the event is still to come and at whose end it is not.
pub open spec fn is_bracket(elevations: Seq<i64>, is_sunset: bool, a: int, b: int, t: int) -> bool {
    &&& a < b
    &&& b - a <= 60_000_000
    &&& keep_later(elevations, a, is_sunset)
    &&& !keep_later(elevations, b, is_sunset)
    &&& a <= t <= b
}

proof fn lemma_bisect_brackets(elevations: Seq<i64>, low: int, high: int, is_sunset: bool)
    requires
        low < high,
        keep_later(elevations, low, is_sunset),
        !keep_later(elevations, high, is_sunset),
    ensures
        exists|a: int, b: int|
            low <= a && b <= high && #[trigger] is_bracket(
                elevations,
                is_sunset,
                a,
                b,
                bisect(elevations, low, high, is_sunset),
            ),
    decreases high - low,
{
    let t = bisect(elevations, low, high, is_sunset);
    if high - low <= 60_000_000 {
        assert(is_bracket(elevations, is_sunset, low, high, t));
    } else {
        let mid = low + (high - low) / 2;
        if keep_later(elevations, mid, is_sunset) {
            lemma_bisect_brackets(elevations, mid, high, is_sunset);
            let (a, b) = choose|a: int, b: int|
                mid <= a && b <= high && #[trigger] is_bracket(elevations, is_sunset, a, b, t);
            assert(low <= a && b <= high && is_bracket(elevations, is_sunset, a, b, t));
        } else {
            lemma_bisect_brackets(elevations, low, mid, is_sunset);
            let (a, b) = choose|a: int, b: int|
                low <= a && b <= mid && #[trigger] is_bracket(elevations, is_sunset, a, b, t);
            assert(low <= a && b <= high && is_bracket(elevations, is_sunset, a, b, t));
        }
    }
}

/// Where the elevation crosses the horizon within the search window, the
/// event found lies in an interval of at most a minute, within the window,
/// at whose start the event is still to come and at whose end it is not.
pub proof fn law_event_brackets_crossing(elevations: Seq<i64>, is_sunset: bool)
    requires
        has_crossing(elevations, is_sunset),
    ensures
        exists|a: int, b: int|
            search_start(is_sunset) <= a && b <= search_end(is_sunset) && #[trigger] is_bracket(
                elevations,
                is_sunset,
                a,
                b,
                bisect(elevations, search_start(is_sunset), search_end(is_sunset), is_sunset),
            ),
{
    lemma_bisect_brackets(elevations, search_start(is_sunset), search_end(is_sunset), is_sunset);
}

/// The instants of sunrise and sunset around the solar noon of the curve;
/// `None` where the sun stays below or above the horizon all day.
pub open spec fn spec_sunrise_sunset(curve: &DayCurve) -> Option<(int, int)> {
    if curve.is_polar_night() || curve.is_polar_day() {
        None
    } else {
        Some(
            (
                curve.start() + spec_event_offset(curve.elevations@, false),
                curve.start() + spec_event_offset(curve.elevations@, true),
            ),
        )
    }
}

/// Seconds of daylight on the day of the curve: from sunrise to sunset, or,
/// where the sun neither rises nor sets, the whole day when it stands above
/// the horizon at solar noon and nothing when it does not.
pub open spec fn spec_solar_seconds(curve: &DayCurve) -> int {
    match spec_sunrise_sunset(curve) {
        Some((rise, set)) => (set - rise) / 1_000_000,
        None => if curve.elevations[360] > 0 {
            86_400
        } else {
            0
        },
    }
}

/// Minute of the day at which the sun crosses the meridian, from the
/// equation of time in millionths of a minute and the longitude in
/// microdegrees: 12:00 minus both corrections, cut to whole minutes; 00:00
/// when that falls before the day starts, 12:00 when it falls after its end.
pub open spec fn spec_noon_minute(equation_of_time: int, longitude: int) -> int {
    let n = 720_000_000 - equation_of_time - 4 * longitude;
    if n < 0 {
        0
    } else if n / 60_000_000 >= 24 {
        720
    } else {
        n / 1_000_000
    }
}

/// The key under which the position at instant `t` is cached: day of the
/// year and hour of the day.
pub open spec fn spec_cache_key(t: int) -> int {
    civil_ordinal(spec_day_of(t)) * 24 + spec_hour_of(t)
}

/// The solar model of one place: its coordinates, the step to which angles
/// are rounded, and the positions already computed.
pub struct SunCalculator {
    latitude: i64,
    longitude: i64,
    angle_precision: u32,
    cache: HashMap<u64, (i64, i64)>,
}

impl SunCalculator {
    /// Latitude of the place, microdegrees.
    pub closed spec fn latitude(&self) -> i64 {
        self.latitude
    }

    /// Longitude of the place, microdegrees.
    pub closed spec fn longitude(&self) -> i64 {
        self.longitude
    }

    /// Step to which angles are rounded, microdegrees.
    pub closed spec fn angle_precision(&self) -> u32 {
        self.angle_precision
    }

    /// Rounded azimuth and elevation by cache key.
    pub closed spec fn cached(&self) -> Map<u64, (i64, i64)> {
        self.cache@
    }

    pub closed spec fn wf(&self) -> bool {
        self.angle_precision > 0
    }

    pub fn new(latitude: i64, longitude: i64, angle_precision: u32) -> (calc: Self)
        requires
            angle_precision > 0,
        ensures
            calc.wf(),
            calc.latitude() == latitude,
            calc.longitude() == longitude,
            calc.angle_precision() == angle_precision,
            calc.cached() == Map::<u64, (i64, i64)>::empty(),
    {
        SunCalculator { latitude, longitude, angle_precision, cache: HashMap::new() }
    }

    pub fn place(&self) -> (p: (i64, i64))
        ensures
            p.0 == self.latitude(),
            p.1 == self.longitude(),
    {
        (self.latitude, self.longitude)
    }

    /// Sunrise and sunset around the solar noon of the curve; `None` in
    /// polar day and polar night.
    pub fn calculate_sunrise_sunset(&self, curve: &DayCurve) -> (out: Option<(i64, i64)>)
        requires
            curve.wf(),
        ensures
            out.is_some() == spec_sunrise_sunset(curve).is_some(),
            out matches Some(p) ==> spec_sunrise_sunset(curve) == Some((p.0 as int, p.1 as int))
                && curve.noon - 21_600_000_000 <= p.0 <= curve.noon <= p.1 <= curve.noon
                + 21_600_000_000,
    {
        if curve.elevations[360] <= HORIZON || curve.midnight_elevation >= HORIZON {
            return None;
        }
        let start: i64 = curve.noon - HALF_WINDOW;
        let rise: i64 = find_solar_event(&curve.elevations, false);
        let set: i64 = find_solar_event(&curve.elevations, true);
        Some((start + rise, start + set))
    }

    /// Instant of solar noon on day `day`, from the equation of time at
    /// 12:00 UTC of that day in millionths of a minute; `None` outside the
    /// calendar.
    pub fn calculate_solar_noon(&self, day: i64, equation_of_time: i64) -> (out: Option<i64>)
        ensures
            out.is_some() <==> -95_000_000 <= day <= 95_000_000,
            out matches Some(t) ==> t == spec_day_start(day as int) + spec_noon_minute(
                equation_of_time as int,
                self.longitude() as int,
            ) * 60_000_000,
    {
        match day_start(day) {
            Some(start) => {
                let n: i128 = 720_000_000 - (equation_of_time as i128) - 4 * (
                self.longitude as i128);
                let minute: i64 = if n < 0 {
                    0
                } else if n / 60_000_000 >= 24 {
                    720
                } else {
                    (n / 1_000_000) as i64
                };
                Some(start + minute * MICROS_PER_MINUTE)
            },
            None => None,
        }
    }

    /// Seconds of daylight on the day of the curve.
    pub fn get_solar_hours_for_day(&self, curve: &DayCurve) -> (seconds: u32)
        requires
            curve.wf(),
        ensures
            seconds == spec_solar_seconds(curve),
            seconds <= 86_400,
    {
        match self.calculate_sunrise_sunset(curve) {
            Some(p) => ((p.1 - p.0) / 1_000_000) as u32,
            None => if curve.elevations[360] > 0 {
                86_400
            } else {
                0
            },
        }
    }

    /// The position cached for the day of the year and the hour of instant
    /// `timestamp`, if there is one.
    pub fn get_position(&self, timestamp: i64) -> (out: Option<SunPosition>)
        ensures
            out == if instant_in_calendar(timestamp as int) && self.cached().contains_key(
                spec_cache_key(timestamp as int) as u64,
            ) {
                Some(
                    SunPosition {
                        azimuth: self.cached()[spec_cache_key(timestamp as int) as u64].0,
                        elevation: self.cached()[spec_cache_key(timestamp as int) as u64].1,
                        timestamp,
                    },
                )
            } else {
                None
            },
    {
        match civil_date_of(timestamp) {
            Some(date) => {
                let key: u64 = (date.ordinal as u64) * 24 + (hour_of(timestamp) as u64);
                match self.cache.get(&key) {
                    Some(angles) => Some(
                        SunPosition { azimuth: angles.0, elevation: angles.1, timestamp },
                    ),
                    None => None,
                }
            },
            None => None,
        }
    }

    /// Rounds a freshly computed position to the angle precision and caches
    /// it under the day of the year and the hour of `timestamp`, unless a
    /// position is cached there already, which is then the one returned.
    pub fn record_position(&mut self, timestamp: i64, azimuth: i64, elevation: i64) -> (out:
        SunPosition)
        requires
            old(self).wf(),
            -MAX_ANGLE <= azimuth <= MAX_ANGLE,
            -MAX_ANGLE <= elevation <= MAX_ANGLE,
        ensures
            final(self).wf(),
            final(self).latitude() == old(self).latitude(),
            final(self).longitude() == old(self).longitude(),
            final(self).angle_precision() == old(self).angle_precision(),
            out.timestamp == timestamp,
            ({
                let key = spec_cache_key(timestamp as int) as u64;
                let rounded = (
                    spec_round_to(azimuth as int, old(self).angle_precision() as int) as i64,
                    spec_round_to(elevation as int, old(self).angle_precision() as int) as i64,
                );
                if !instant_in_calendar(timestamp as int) {
                    final(self).cached() == old(self).cached() && (out.azimuth, out.elevation)
                        == rounded
                } else if old(self).cached().contains_key(key) {
                    final(self).cached() == old(self).cached() && (out.azimuth, out.elevation)
                        == old(self).cached()[key]
                } else {
                    final(self).cached() == old(self).cached().insert(key, rounded) && (
                    out.azimuth, out.elevation) == rounded
                }
            }),
    {
        let rounded_azimuth: i64 = round_angle(azimuth, self.angle_precision);
        let rounded_elevation: i64 = round_angle(elevation, self.angle_precision);
        match civil_date_of(timestamp) {
            Some(date) => {
                let key: u64 = (date.ordinal as u64) * 24 + (hour_of(timestamp) as u64);
                let known: Option<(i64, i64)> = match self.cache.get(&key) {
                    Some(angles) => Some(*angles),
                    None => None,
                };
                match known {
                    Some(angles) => SunPosition {
                        azimuth: angles.0,
                        elevation: angles.1,
                        timestamp,
                    },
                    None => {
                        self.cache.insert(key, (rounded_azimuth, rounded_elevation));
                        SunPosition {
                            azimuth: rounded_azimuth,
                            elevation: rounded_elevation,
                            timestamp,
                        }
                    },
                }
            },
            None => SunPosition {
                azimuth: rounded_azimuth,
                elevation: rounded_elevation,
                timestamp,
            },
        }
    }
}

/// The daylight of the day of the curve: sunrise and sunset where there are
/// both, else polar day or polar night by the sign of the elevation at
/// solar noon, rounded to `step`.
pub open spec fn spec_day_light(curve: &DayCurve, step: int) -> DayLight {
    match spec_sunrise_sunset(curve) {
        Some((rise, set)) => DayLight::Events { sunrise: rise as i64, sunset: set as i64 },
        None => if spec_round_to(curve.elevations[360] as int, step) > 0 {
            DayLight::PolarDay
        } else {
            DayLight::PolarNight
        },
    }
}

impl SunCalculator {
    /// The day of the curve with its daylight, for the sampling of instants.
    pub fn solar_window(&self, curve: &DayCurve) -> (w: SolarWindow)
        requires
            self.wf(),
            curve.wf(),
        ensures
            w.day == curve.day(),
            w.light == spec_day_light(curve, self.angle_precision() as int),
    {
        let light: DayLight = match self.calculate_sunrise_sunset(curve) {
            Some(p) => DayLight::Events { sunrise: p.0, sunset: p.1 },
            None => if round_angle(curve.elevations[360], self.angle_precision) > 0 {
                DayLight::PolarDay
            } else {
                DayLight::PolarNight
            },
        };
        SolarWindow { day: day_of(curve.noon), light }
    }

    /// The entry of the day of the curve in the solar table.
    pub fn solar_day(&self, curve: &DayCurve) -> (d: SolarDay)
        requires
            curve.wf(),
        ensures
            d.day == curve.day(),
            d.noon == curve.noon,
            d.solar_seconds == spec_solar_seconds(curve),
    {
        SolarDay {
            day: day_of(curve.noon),
            noon: curve.noon,
            solar_seconds: self.get_solar_hours_for_day(curve),
        }
    }
}

} // verus!
