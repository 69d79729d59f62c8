use shadow_calculator::sun_position::{find_solar_event, round_angle, DayCurve, SunCalculator, HORIZON};
use shadow_calculator::timestamps::{DayLight, SolarWindow};
use shadow_calculator::types::{SolarDay, SunPosition};

const DAY: i64 = 86_400_000_000;
const HOUR: i64 = 3_600_000_000;
const MINUTE: i64 = 60_000_000;
const JUNE_21: i64 = 19_895 * DAY;

fn tent(rise_minute: i64, set_minute: i64) -> Vec<i64> {
    (0..721)
        .map(|i| HORIZON + std::cmp::min(i - rise_minute, set_minute - i) * 10_000)
        .collect()
}

fn curve(noon: i64, elevations: Vec<i64>, midnight: i64) -> DayCurve {
    DayCurve { noon, elevations, midnight_elevation: midnight }
}

#[test]
fn angles_round_to_the_nearest_step() {
    assert_eq!(round_angle(123_456, 100_000), 100_000);
    assert_eq!(round_angle(149_999, 100_000), 100_000);
    assert_eq!(round_angle(150_000, 100_000), 200_000);
    assert_eq!(round_angle(-149_999, 100_000), -100_000);
    assert_eq!(round_angle(-150_000, 100_000), -200_000);
    assert_eq!(round_angle(0, 100_000), 0);
    assert_eq!(round_angle(49_999, 100_000), 0);
    assert_eq!(round_angle(-49_999, 100_000), 0);
    assert_eq!(round_angle(359_999_999, 1), 359_999_999);
    assert_eq!(round_angle(90_000_000, 7), 90_000_001);
}

#[test]
fn sunrise_is_found_within_a_minute_of_the_crossing() {
    let elevations = tent(100, 620);
    let rise = find_solar_event(&elevations, false);
    assert_eq!(rise, 6_011_718_750);
    assert!((rise - 100 * MINUTE).abs() <= MINUTE);
}

#[test]
fn sunset_is_found_within_a_minute_of_the_crossing() {
    let elevations = tent(100, 620);
    let set = find_solar_event(&elevations, true);
    assert_eq!(set, 37_188_281_250);
    assert!((set - 620 * MINUTE).abs() <= MINUTE);
}

#[test]
fn events_outside_the_window_are_found_at_its_ends() {
    let elevations = tent(-90, 800);
    assert_eq!(find_solar_event(&elevations, false), 21_093_750);
    assert_eq!(find_solar_event(&elevations, true), 43_200_000_000 - 21_093_750);
}

#[test]
fn sunrise_and_sunset_of_an_ordinary_day() {
    let calc = SunCalculator::new(45_000_000, 0, 100_000);
    let noon = JUNE_21 + 12 * HOUR;
    let c = curve(noon, tent(100, 620), -20_000_000);
    assert!(c.is_valid());
    let start = noon - 6 * HOUR;
    assert_eq!(
        calc.calculate_sunrise_sunset(&c),
        Some((start + 6_011_718_750, start + 37_188_281_250))
    );
    assert_eq!(calc.get_solar_hours_for_day(&c), 31_176);
    assert_eq!(
        calc.solar_window(&c),
        SolarWindow {
            day: 19_895,
            light: DayLight::Events { sunrise: start + 6_011_718_750, sunset: start + 37_188_281_250 },
        }
    );
    assert_eq!(calc.solar_day(&c), SolarDay { day: 19_895, noon, solar_seconds: 31_176 });
}

#[test]
fn polar_night_has_no_events_and_no_daylight() {
    let calc = SunCalculator::new(80_000_000, 0, 100_000);
    let noon = 20_078 * DAY + 12 * HOUR;
    let c = curve(noon, vec![-13_000_000; 721], -33_000_000);
    assert_eq!(calc.calculate_sunrise_sunset(&c), None);
    assert_eq!(calc.get_solar_hours_for_day(&c), 0);
    assert_eq!(calc.solar_window(&c), SolarWindow { day: 20_078, light: DayLight::PolarNight });
}

#[test]
fn polar_day_has_no_events_and_a_full_day_of_light() {
    let calc = SunCalculator::new(80_000_000, 0, 100_000);
    let noon = JUNE_21 + 12 * HOUR;
    let c = curve(noon, vec![33_000_000; 721], 13_000_000);
    assert_eq!(calc.calculate_sunrise_sunset(&c), None);
    assert_eq!(calc.get_solar_hours_for_day(&c), 86_400);
    assert_eq!(calc.solar_window(&c), SolarWindow { day: 19_895, light: DayLight::PolarDay });
}

#[test]
fn sun_that_only_grazes_the_horizon_counts_as_polar_night() {
    let calc = SunCalculator::new(67_000_000, 0, 100_000);
    let noon = 20_078 * DAY + 12 * HOUR;
    let mut elevations = vec![-5_000_000; 721];
    elevations[360] = HORIZON;
    let c = curve(noon, elevations, -40_000_000);
    assert_eq!(calc.calculate_sunrise_sunset(&c), None);
    assert_eq!(calc.solar_window(&c).light, DayLight::PolarNight);
    let mut above = vec![-5_000_000; 721];
    above[360] = HORIZON + 1;
    let c = curve(noon, above, -40_000_000);
    assert!(calc.calculate_sunrise_sunset(&c).is_some());
}

#[test]
fn curves_are_checked_for_shape_and_range() {
    let noon = JUNE_21 + 12 * HOUR;
    assert!(curve(noon, tent(100, 620), 0).is_valid());
    assert!(!curve(noon, vec![0; 720], 0).is_valid());
    assert!(!curve(noon, vec![0; 722], 0).is_valid());
    assert!(!curve(i64::MAX, vec![0; 721], 0).is_valid());
    assert!(!curve(noon, vec![0; 721], 90_000_001).is_valid());
    let mut high = vec![0; 721];
    high[700] = 90_000_001;
    assert!(!curve(noon, high, 0).is_valid());
}

#[test]
fn solar_noon_follows_longitude_and_equation_of_time() {
    let at = |longitude: i64| SunCalculator::new(0, longitude, 100_000);
    assert_eq!(at(0).calculate_solar_noon(19_895, 0), Some(JUNE_21 + 12 * HOUR));
    assert_eq!(at(15_000_000).calculate_solar_noon(19_895, 0), Some(JUNE_21 + 11 * HOUR));
    assert_eq!(at(-15_000_000).calculate_solar_noon(19_895, 0), Some(JUNE_21 + 13 * HOUR));
    assert_eq!(
        at(0).calculate_solar_noon(19_895, -3_500_000),
        Some(JUNE_21 + 12 * HOUR + 3 * MINUTE)
    );
    assert_eq!(
        at(0).calculate_solar_noon(19_895, 3_500_000),
        Some(JUNE_21 + 11 * HOUR + 56 * MINUTE)
    );
    assert_eq!(at(179_000_000).calculate_solar_noon(19_895, 0), Some(JUNE_21 + 4 * MINUTE));
    assert_eq!(at(181_000_000).calculate_solar_noon(19_895, 0), Some(JUNE_21));
    assert_eq!(at(-180_000_000).calculate_solar_noon(19_895, 0), Some(JUNE_21 + 12 * HOUR));
    assert_eq!(at(-179_000_000).calculate_solar_noon(19_895, 0), Some(JUNE_21 + 23 * HOUR + 56 * MINUTE));
    assert_eq!(at(0).calculate_solar_noon(95_000_001, 0), None);
}

#[test]
fn positions_are_cached_by_day_of_year_and_hour() {
    let mut calc = SunCalculator::new(45_000_000, 7_000_000, 100_000);
    assert_eq!(calc.place(), (45_000_000, 7_000_000));
    let t = JUNE_21 + 9 * HOUR + 20 * MINUTE;
    assert_eq!(calc.get_position(t), None);
    assert_eq!(
        calc.record_position(t, 101_234_567, 48_765_432),
        SunPosition { azimuth: 101_200_000, elevation: 48_800_000, timestamp: t }
    );
    let later = JUNE_21 + 9 * HOUR + 50 * MINUTE;
    assert_eq!(
        calc.get_position(later),
        Some(SunPosition { azimuth: 101_200_000, elevation: 48_800_000, timestamp: later })
    );
    assert_eq!(
        calc.record_position(later, 110_000_000, 52_000_000),
        SunPosition { azimuth: 101_200_000, elevation: 48_800_000, timestamp: later }
    );
    assert_eq!(calc.get_position(JUNE_21 + 10 * HOUR), None);
    assert_eq!(calc.get_position(JUNE_21 + DAY + 9 * HOUR), None);
    let next_year = 20_260 * DAY + 9 * HOUR;
    assert_eq!(
        calc.get_position(next_year),
        None
    );
    let same_ordinal = 20_261 * DAY + 9 * HOUR;
    assert_eq!(
        calc.get_position(same_ordinal),
        Some(SunPosition { azimuth: 101_200_000, elevation: 48_800_000, timestamp: same_ordinal })
    );
}

#[test]
fn positions_beyond_the_calendar_are_rounded_but_not_cached() {
    let mut calc = SunCalculator::new(0, 0, 500_000);
    assert_eq!(
        calc.record_position(i64::MAX, 1_249_999, -1_250_000),
        SunPosition { azimuth: 1_000_000, elevation: -1_500_000, timestamp: i64::MAX }
    );
    assert_eq!(calc.get_position(i64::MAX), None);
}
