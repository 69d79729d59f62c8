use shadow_calculator::grid::Grid;
use shadow_calculator::statistics::{
    calculate_summary_stats, classify_periods, day_period, lookup_solar_day, solar_totals,
    sweep_cell,
};
use shadow_calculator::types::{DayPeriod, Fraction, SolarDay};

const DAY: i64 = 86_400_000_000;
const HOUR: i64 = 3_600_000_000;
const JUNE_21: i64 = 19_895 * DAY;

fn stack(rows: &[&[i64]]) -> Grid {
    let mut g = Grid::filled(rows.len(), rows[0].len(), 0).unwrap();
    for (t, row) in rows.iter().enumerate() {
        for (k, v) in row.iter().enumerate() {
            assert!(g.put(t, k, *v));
        }
    }
    g
}

fn table() -> Vec<SolarDay> {
    vec![SolarDay { day: 19_895, noon: JUNE_21 + 12 * HOUR, solar_seconds: 43_200 }]
}

#[test]
fn periods_follow_solar_noon() {
    let days = table();
    let noon = JUNE_21 + 12 * HOUR;
    assert_eq!(day_period(noon - 2 * HOUR - 1, &days), DayPeriod::Morning);
    assert_eq!(day_period(noon - 2 * HOUR, &days), DayPeriod::Noon);
    assert_eq!(day_period(noon, &days), DayPeriod::Noon);
    assert_eq!(day_period(noon + 2 * HOUR, &days), DayPeriod::Noon);
    assert_eq!(day_period(noon + 2 * HOUR + 1, &days), DayPeriod::Afternoon);
}

#[test]
fn periods_follow_the_clock_without_a_solar_noon() {
    let days = table();
    let next = JUNE_21 + DAY;
    assert_eq!(lookup_solar_day(&days, 19_896), None);
    assert_eq!(day_period(next + 9 * HOUR + 59 * 60_000_000, &days), DayPeriod::Morning);
    assert_eq!(day_period(next + 10 * HOUR, &days), DayPeriod::Noon);
    assert_eq!(day_period(next + 13 * HOUR + 59 * 60_000_000, &days), DayPeriod::Noon);
    assert_eq!(day_period(next + 14 * HOUR, &days), DayPeriod::Afternoon);
}

#[test]
fn first_entry_of_a_day_wins() {
    let days = vec![
        SolarDay { day: 5, noon: 1, solar_seconds: 10 },
        SolarDay { day: 7, noon: 2, solar_seconds: 20 },
        SolarDay { day: 5, noon: 3, solar_seconds: 30 },
    ];
    assert_eq!(lookup_solar_day(&days, 5), Some(days[0]));
    assert_eq!(lookup_solar_day(&days, 7), Some(days[1]));
    assert_eq!(lookup_solar_day(&days, 6), None);
}

#[test]
fn solar_totals_count_each_day_once() {
    let days = vec![
        SolarDay { day: 19_895, noon: JUNE_21 + 12 * HOUR, solar_seconds: 50_000 },
        SolarDay { day: 19_896, noon: JUNE_21 + DAY + 12 * HOUR, solar_seconds: 49_000 },
        SolarDay { day: 19_900, noon: 0, solar_seconds: 1 },
    ];
    let timestamps = vec![
        JUNE_21 + 8 * HOUR,
        JUNE_21 + 9 * HOUR,
        JUNE_21 + DAY + 8 * HOUR,
        JUNE_21 + 10 * HOUR,
        JUNE_21 + 2 * DAY + 8 * HOUR,
    ];
    assert_eq!(solar_totals(&timestamps, &days), (99_000, 3));
    assert_eq!(solar_totals(&Vec::new(), &days), (0, 0));
}

#[test]
fn sweep_adds_up_one_column() {
    let s = stack(&[&[64, 0], &[64, 32], &[0, 64], &[48, 64]]);
    let periods = vec![DayPeriod::Morning, DayPeriod::Noon, DayPeriod::Noon, DayPeriod::Afternoon];
    let first = sweep_cell(&s, &periods, 0);
    assert_eq!(first.total, 176);
    assert_eq!(first.morning, 64);
    assert_eq!(first.noon, 64);
    assert_eq!(first.afternoon, 48);
    assert_eq!(first.longest_run, 2);
    let second = sweep_cell(&s, &periods, 1);
    assert_eq!(second.total, 160);
    assert_eq!(second.morning, 0);
    assert_eq!(second.noon, 96);
    assert_eq!(second.afternoon, 64);
    assert_eq!(second.longest_run, 2);
}

#[test]
fn summary_of_a_small_stack() {
    let s = stack(&[&[64, 0], &[64, 32], &[0, 64]]);
    let timestamps = vec![JUNE_21 + 8 * HOUR, JUNE_21 + 12 * HOUR, JUNE_21 + 16 * HOUR];
    let stats = calculate_summary_stats(&s, &timestamps, 60, &table());
    assert_eq!(classify_periods(&timestamps, &table()), vec![DayPeriod::Morning, DayPeriod::Noon, DayPeriod::Afternoon]);
    assert_eq!(stats.total_shadow, vec![460_800, 345_600]);
    assert_eq!(stats.morning_shadow, vec![230_400, 0]);
    assert_eq!(stats.noon_shadow, vec![230_400, 115_200]);
    assert_eq!(stats.afternoon_shadow, vec![0, 230_400]);
    assert_eq!(stats.max_consecutive_shadow, vec![460_800, 230_400]);
    assert_eq!(stats.measured, 691_200);
    assert_eq!(stats.total_available_solar, 2_764_800);
    assert_eq!(stats.analysis_days, 1);
}

#[test]
fn totals_are_the_sum_of_the_samples() {
    let rows: Vec<Vec<i64>> = (0..10).map(|t| vec![(t * 7) % 65, 64 - (t * 5) % 65, 64]).collect();
    let views: Vec<&[i64]> = rows.iter().map(|r| r.as_slice()).collect();
    let s = stack(&views);
    let timestamps: Vec<i64> = (0..10).map(|t| JUNE_21 + 6 * HOUR + t * 30 * 60_000_000).collect();
    let stats = calculate_summary_stats(&s, &timestamps, 30, &table());
    for k in 0..3 {
        let sum: i64 = rows.iter().map(|r| r[k] * 30 * 60).sum();
        assert_eq!(stats.total_shadow[k], sum as u128);
        assert_eq!(
            stats.morning_shadow[k] + stats.noon_shadow[k] + stats.afternoon_shadow[k],
            stats.total_shadow[k]
        );
        assert!(stats.total_shadow[k] <= stats.measured);
        assert!(stats.max_consecutive_shadow[k] <= stats.measured);
    }
    assert_eq!(stats.measured, 64 * 10 * 1_800);
    assert_eq!(stats.total_shadow[2], stats.measured);
    assert_eq!(stats.max_consecutive_shadow[2], stats.measured);
}

#[test]
fn fractions_of_a_small_stack() {
    let s = stack(&[&[64, 0], &[64, 32], &[0, 64]]);
    let timestamps = vec![JUNE_21 + 8 * HOUR, JUNE_21 + 12 * HOUR, JUNE_21 + 16 * HOUR];
    let stats = calculate_summary_stats(&s, &timestamps, 60, &table());
    assert_eq!(stats.avg_shadow_fraction(0), Some(Fraction { num: 460_800, den: 691_200 }));
    assert_eq!(stats.avg_shadow_fraction(1), Some(Fraction { num: 345_600, den: 691_200 }));
    assert_eq!(stats.avg_shadow_fraction(2), None);
    assert_eq!(stats.solar_efficiency(0), Some(Fraction { num: 2_304_000, den: 2_764_800 }));
    assert_eq!(stats.solar_efficiency(1), Some(Fraction { num: 2_419_200, den: 2_764_800 }));
    assert_eq!(stats.solar_efficiency(2), None);
    assert_eq!(stats.daily_solar(), Fraction { num: 2_764_800, den: 1 });
}

#[test]
fn efficiency_never_drops_below_zero() {
    let s = stack(&[&[64], &[64]]);
    let timestamps = vec![JUNE_21 + 8 * HOUR, JUNE_21 + 9 * HOUR];
    let days = vec![SolarDay { day: 19_895, noon: JUNE_21 + 12 * HOUR, solar_seconds: 3_600 }];
    let stats = calculate_summary_stats(&s, &timestamps, 60, &days);
    assert_eq!(stats.total_shadow, vec![460_800]);
    assert_eq!(stats.total_available_solar, 230_400);
    assert_eq!(stats.solar_efficiency(0), Some(Fraction { num: 0, den: 230_400 }));
}

#[test]
fn efficiency_without_daylight_is_zero() {
    let s = stack(&[&[0], &[64]]);
    let timestamps = vec![JUNE_21 + 8 * HOUR, JUNE_21 + 9 * HOUR];
    let stats = calculate_summary_stats(&s, &timestamps, 60, &Vec::new());
    assert_eq!(stats.total_available_solar, 0);
    assert_eq!(stats.analysis_days, 1);
    assert_eq!(stats.solar_efficiency(0), Some(Fraction { num: 0, den: 1 }));
    assert_eq!(stats.daily_solar(), Fraction { num: 0, den: 1 });
}

#[test]
fn summary_of_an_empty_stack() {
    let s = Grid::filled(0, 2, 0).unwrap();
    let stats = calculate_summary_stats(&s, &Vec::new(), 60, &table());
    assert_eq!(stats.total_shadow, vec![0, 0]);
    assert_eq!(stats.max_consecutive_shadow, vec![0, 0]);
    assert_eq!(stats.measured, 0);
    assert_eq!(stats.analysis_days, 0);
    assert_eq!(stats.avg_shadow_fraction(0), Some(Fraction { num: 0, den: 1 }));
    assert_eq!(stats.daily_solar(), Fraction { num: 0, den: 1 });
}

#[test]
fn longest_shadow_stays_within_the_total_for_binary_stacks() {
    let rows: Vec<Vec<i64>> = (0..24)
        .map(|t| vec![if t % 5 < 3 { 64 } else { 0 }, if t % 2 == 0 { 64 } else { 0 }, 0])
        .collect();
    let views: Vec<&[i64]> = rows.iter().map(|r| r.as_slice()).collect();
    let s = stack(&views);
    let timestamps: Vec<i64> = (0..24).map(|t| JUNE_21 + t * HOUR).collect();
    let stats = calculate_summary_stats(&s, &timestamps, 60, &table());
    assert_eq!(stats.max_consecutive_shadow, vec![3 * 230_400, 230_400, 0]);
    for k in 0..3 {
        assert!(stats.max_consecutive_shadow[k] <= stats.total_shadow[k]);
    }
}

#[test]
fn longest_shadow_can_exceed_the_total_for_partial_shadows() {
    let s = stack(&[&[48]]);
    let stats = calculate_summary_stats(&s, &vec![JUNE_21 + 8 * HOUR], 60, &table());
    assert_eq!(stats.total_shadow, vec![48 * 3_600]);
    assert_eq!(stats.max_consecutive_shadow, vec![64 * 3_600]);
}
