use shadow_calculator::calendar::{
    civil_date_of, civil_date_of_day, day_of, day_start, hour_of, instant_from_civil,
    micros_of_day, minute_of, minute_of_day, CivilDate,
};
use shadow_calculator::labels::{band_label, instant_text, parse_band_label, parse_instant};
use shadow_calculator::sun_position::julian_day;
use shadow_calculator::types::ShadowError;

const JUNE_21: i64 = 1_718_928_000_000_000;

#[test]
fn day_and_time_of_day_of_an_instant() {
    let t = JUNE_21 + 5 * 3_600_000_000 + 30 * 60_000_000 + 12_345_678;
    assert_eq!(day_of(t), 19_895);
    assert_eq!(hour_of(t), 5);
    assert_eq!(minute_of(t), 30);
    assert_eq!(minute_of_day(t), 330);
    assert_eq!(micros_of_day(t), 19_812_345_678);
}

#[test]
fn days_before_the_epoch_round_down() {
    assert_eq!(day_of(0), 0);
    assert_eq!(day_of(-1), -1);
    assert_eq!(hour_of(-1), 23);
    assert_eq!(minute_of(-1), 59);
    assert_eq!(micros_of_day(-1), 86_399_999_999);
    assert_eq!(day_of(-86_400_000_000), -1);
    assert_eq!(day_of(-86_400_000_001), -2);
}

#[test]
fn day_start_within_and_beyond_the_calendar() {
    assert_eq!(day_start(19_895), Some(JUNE_21));
    assert_eq!(day_start(-1), Some(-86_400_000_000));
    assert_eq!(day_start(95_000_000), Some(95_000_000 * 86_400_000_000));
    assert_eq!(day_start(95_000_001), None);
    assert_eq!(day_start(-95_000_001), None);
}

#[test]
fn civil_date_of_known_days() {
    assert_eq!(
        civil_date_of_day(0),
        Some(CivilDate { year: 1970, month: 1, day: 1, ordinal: 1 })
    );
    assert_eq!(
        civil_date_of(JUNE_21 + 1),
        Some(CivilDate { year: 2024, month: 6, day: 21, ordinal: 173 })
    );
    assert_eq!(
        civil_date_of(-1),
        Some(CivilDate { year: 1969, month: 12, day: 31, ordinal: 365 })
    );
    assert_eq!(civil_date_of_day(95_000_001), None);
    assert_eq!(civil_date_of(i64::MAX), None);
}

#[test]
fn instant_from_civil_fields() {
    assert_eq!(
        instant_from_civil(2024, 6, 21, 12, 0, 0),
        Some(JUNE_21 + 43_200_000_000)
    );
    assert_eq!(instant_from_civil(1970, 1, 1, 0, 0, 1), Some(1_000_000));
    assert_eq!(instant_from_civil(2024, 2, 30, 0, 0, 0), None);
    assert_eq!(instant_from_civil(2024, 13, 1, 0, 0, 0), None);
    assert_eq!(instant_from_civil(2024, 6, 21, 24, 0, 0), None);
    assert_eq!(instant_from_civil(2024, 6, 21, 0, 60, 0), None);
    assert_eq!(instant_from_civil(2024, 6, 21, 0, 0, 60), None);
}

#[test]
fn julian_day_numbers() {
    assert_eq!(julian_day(2000, 1, 1), 2_451_545);
    assert_eq!(julian_day(1970, 1, 1), 2_440_588);
    assert_eq!(julian_day(2024, 6, 21), 2_460_483);
    assert_eq!(julian_day(2024, 6, 21) - julian_day(1970, 1, 1), 19_895);
}

#[test]
fn rfc3339_is_read_as_utc() {
    assert_eq!(parse_instant("2024-06-21T00:00:00Z").unwrap(), JUNE_21);
    assert_eq!(
        parse_instant("2024-06-21T02:00:00+02:00").unwrap(),
        JUNE_21
    );
    assert_eq!(
        parse_instant("2024-06-21T00:00:00.250Z").unwrap(),
        JUNE_21 + 250_000
    );
}

#[test]
fn malformed_date_is_a_config_error() {
    match parse_instant("21 June 2024") {
        Err(ShadowError::Config(_)) => {}
        other => panic!("expected a configuration error, got {:?}", other),
    }
    assert!(parse_instant("").is_err());
    assert!(parse_instant("2024-06-31T00:00:00Z").is_err());
}

#[test]
fn instant_text_is_rfc3339() {
    assert_eq!(
        instant_text(JUNE_21).unwrap(),
        "2024-06-21T00:00:00+00:00"
    );
    assert_eq!(
        parse_instant(&instant_text(JUNE_21 + 1_500_000).unwrap()).unwrap(),
        JUNE_21 + 1_500_000
    );
    assert_eq!(instant_text(i64::MAX), None);
}

#[test]
fn band_label_names_the_minute() {
    let t = JUNE_21 + 5 * 3_600_000_000 + 30 * 60_000_000 + 21_093_750;
    assert_eq!(band_label(t).unwrap(), "2024-06-21_05:30_UTC");
    assert_eq!(band_label(0).unwrap(), "1970-01-01_00:00_UTC");
    assert_eq!(band_label(i64::MIN), None);
}

#[test]
fn band_label_reads_back_to_the_minute() {
    let t = JUNE_21 + 5 * 3_600_000_000 + 30 * 60_000_000;
    assert_eq!(parse_band_label("2024-06-21_05:30_UTC"), Some(t));
    assert_eq!(parse_band_label(&band_label(t + 59_000_000).unwrap()), Some(t));
    assert_eq!(parse_band_label("2024-06-21_05:30"), Some(t));
    assert_eq!(parse_band_label("Total_Shadow_Hours"), None);
    assert_eq!(parse_band_label("Band_10"), None);
    assert_eq!(parse_band_label(""), None);
}

#[test]
fn calendar_reaches_its_stated_limits() {
    let last = civil_date_of_day(95_000_000).unwrap();
    assert!(last.year > 260_000 && (1..=12).contains(&last.month) && (1..=366).contains(&last.ordinal));
    let first = civil_date_of_day(-95_000_000).unwrap();
    assert!(first.year < -258_000 && (1..=31).contains(&first.day));
    let end = 95_000_000 * 86_400_000_000 + 86_399_999_999;
    let begin = -95_000_000 * 86_400_000_000;
    assert_eq!(civil_date_of(end), Some(last));
    assert_eq!(civil_date_of(begin), Some(first));
    assert_eq!(civil_date_of(end + 1), None);
    assert_eq!(civil_date_of(begin - 1), None);
    assert!(instant_text(end).is_some());
    assert!(instant_text(begin).is_some());
    assert!(band_label(end).is_some());
    assert!(band_label(begin).is_some());
    assert_eq!(
        instant_from_civil(last.year, last.month, last.day, 23, 59, 59),
        Some(end - 999_999)
    );
}

#[test]
fn consecutive_days_are_consecutive_dates() {
    let mut previous = civil_date_of_day(19_700).unwrap();
    for day in 19_701..20_500 {
        let date = civil_date_of_day(day).unwrap();
        if date.year == previous.year {
            assert_eq!(date.ordinal, previous.ordinal + 1);
        } else {
            assert_eq!((date.year, date.month, date.day, date.ordinal), (previous.year + 1, 1, 1, 1));
            assert!(previous.ordinal == 365 || previous.ordinal == 366);
        }
        assert_eq!(
            instant_from_civil(date.year, date.month, date.day, 0, 0, 0),
            day_start(day)
        );
        assert_eq!(julian_day(date.year, date.month, date.day), day + 2_440_588);
        previous = date;
    }
}

#[test]
fn dates_exist_as_the_gregorian_calendar_has_them() {
    let exists = |y: i32, m: u32, d: u32| instant_from_civil(y, m, d, 0, 0, 0).is_some();
    assert!(exists(2000, 2, 29));
    assert!(!exists(1900, 2, 29));
    assert!(exists(2024, 2, 29));
    assert!(!exists(2023, 2, 29));
    assert!(exists(0, 2, 29));
    assert!(exists(-4, 2, 29));
    assert!(!exists(-100, 2, 29));
    assert!(exists(-400, 2, 29));
    for year in [-401, -1, 1, 1999, 2024] {
        for (month, days) in [(1, 31), (3, 31), (4, 30), (5, 31), (6, 30), (7, 31), (8, 31), (9, 30), (10, 31), (11, 30), (12, 31)] {
            assert!(exists(year, month, days));
            assert!(!exists(year, month, days + 1));
            assert!(!exists(year, month, 0));
        }
        assert!(exists(year, 2, 28));
        assert!(!exists(year, 2, 30));
        assert!(!exists(year, 0, 1));
        assert!(!exists(year, 13, 1));
    }
}

#[test]
fn day_numbers_are_julian_day_numbers_less_the_epoch() {
    let mut day = -95_000_000i64;
    while day <= 95_000_000 {
        let date = civil_date_of_day(day).unwrap();
        assert_eq!(julian_day(date.year, date.month, date.day), day + 2_440_588, "day {}", day);
        assert_eq!(
            instant_from_civil(date.year, date.month, date.day, 0, 0, 0),
            day_start(day),
            "day {}",
            day
        );
        assert_eq!(
            julian_day(date.year, 1, 1) - 2_440_588,
            day - date.ordinal as i64 + 1,
            "day {}",
            day
        );
        day += 99_991;
    }
    for day in -800_000..-700_000 {
        let date = civil_date_of_day(day).unwrap();
        assert_eq!(julian_day(date.year, date.month, date.day), day + 2_440_588, "day {}", day);
    }
}
