use shadow_calculator::grid::Grid;
use shadow_calculator::seasonal::{
    analysis_period, calculate_monthly_stats, calculate_seasonal_analysis, distinct_sorted,
    indices_with_key, month_keys, ppm, season_stats, seasonal_summaries, AnalysisPeriod,
    MonthlyShadowStats, Season,
};
use shadow_calculator::types::ShadowError;

const DAY: i64 = 86_400_000_000;
const HOUR: i64 = 3_600_000_000;
const JAN_15: i64 = 19_737 * DAY;
const FEB_10: i64 = 19_763 * DAY;
const JUN_21: i64 = 19_895 * DAY;
const DEC_31_2023: i64 = 19_722 * DAY;

fn stack(rows: &[&[i64]]) -> Grid {
    let mut g = Grid::filled(rows.len(), rows[0].len(), 0).unwrap();
    for (t, row) in rows.iter().enumerate() {
        for (k, v) in row.iter().enumerate() {
            assert!(g.put(t, k, *v));
        }
    }
    g
}

#[test]
fn month_keys_order_months() {
    let keys = month_keys(&vec![JUN_21, JAN_15, DEC_31_2023, FEB_10 + 5 * HOUR]).unwrap();
    assert_eq!(keys, vec![2024 * 12 + 5, 2024 * 12, 2023 * 12 + 11, 2024 * 12 + 1]);
    assert_eq!(distinct_sorted(&keys), vec![2023 * 12 + 11, 2024 * 12, 2024 * 12 + 1, 2024 * 12 + 5]);
}

#[test]
fn month_keys_need_the_calendar() {
    match month_keys(&vec![JAN_15, i64::MAX]) {
        Err(ShadowError::Config(_)) => {}
        other => panic!("expected a configuration error, got {:?}", other),
    }
}

#[test]
fn distinct_sorted_drops_repeats() {
    assert_eq!(distinct_sorted(&vec![5, 3, 5, -2, 3, 9, -2]), vec![-2, 3, 5, 9]);
    assert_eq!(distinct_sorted(&Vec::new()), Vec::<i64>::new());
    assert_eq!(indices_with_key(&vec![5, 3, 5, -2, 3, 9, 5], 5), vec![0, 2, 6]);
    assert_eq!(indices_with_key(&vec![5, 3], 4), Vec::<usize>::new());
}

#[test]
fn shares_are_in_millionths() {
    assert_eq!(ppm(0, 4), 0);
    assert_eq!(ppm(1, 4), 250_000);
    assert_eq!(ppm(4, 4), 1_000_000);
    assert_eq!(ppm(1, 3), 333_333);
    assert_eq!(ppm(2, 3), 666_666);
    assert_eq!(ppm(0, 0), 0);
}

#[test]
fn monthly_stats_of_two_months() {
    let timestamps = vec![
        JAN_15 + 9 * HOUR,
        JAN_15 + 10 * HOUR,
        JAN_15 + DAY + 9 * HOUR,
        JUN_21 + 9 * HOUR,
        JAN_15 + DAY + 10 * HOUR,
        JUN_21 + 10 * HOUR,
    ];
    let s = stack(&[&[64, 0], &[64, 33], &[0, 64], &[64, 64], &[40, 64], &[0, 32]]);
    let months = calculate_monthly_stats(&s, &timestamps).unwrap();
    assert_eq!(months.len(), 2);
    assert_eq!(
        months[0],
        MonthlyShadowStats {
            month: 1,
            year: 2024,
            sample_count: 4,
            total_shadow_hours: vec![3, 3],
            avg_shadow_percentage: vec![750_000, 750_000],
            max_consecutive_shadow: vec![2, 3],
            solar_efficiency_percentage: vec![250_000, 250_000],
            days_in_analysis: 2,
        }
    );
    assert_eq!(
        months[1],
        MonthlyShadowStats {
            month: 6,
            year: 2024,
            sample_count: 2,
            total_shadow_hours: vec![1, 1],
            avg_shadow_percentage: vec![500_000, 500_000],
            max_consecutive_shadow: vec![1, 1],
            solar_efficiency_percentage: vec![500_000, 500_000],
            days_in_analysis: 1,
        }
    );
}

#[test]
fn months_come_in_chronological_order() {
    let timestamps = vec![FEB_10, DEC_31_2023, JUN_21, JAN_15];
    let s = stack(&[&[64], &[0], &[64], &[0]]);
    let months = calculate_monthly_stats(&s, &timestamps).unwrap();
    let order: Vec<(i32, u32)> = months.iter().map(|m| (m.year, m.month)).collect();
    assert_eq!(order, vec![(2023, 12), (2024, 1), (2024, 2), (2024, 6)]);
    let totals: Vec<usize> = months.iter().map(|m| m.total_shadow_hours[0]).collect();
    assert_eq!(totals, vec![0, 0, 1, 1]);
}

fn month(year: i32, month: u32, samples: usize, shaded: usize, longest: usize, days: usize) -> MonthlyShadowStats {
    MonthlyShadowStats {
        month,
        year,
        sample_count: samples,
        total_shadow_hours: vec![shaded],
        avg_shadow_percentage: vec![ppm(shaded, samples)],
        max_consecutive_shadow: vec![longest],
        solar_efficiency_percentage: vec![ppm(samples - shaded, samples)],
        days_in_analysis: days,
    }
}

#[test]
fn season_gathers_its_months() {
    let months = vec![
        month(2023, 12, 10, 7, 4, 3),
        month(2024, 1, 3, 1, 1, 1),
        month(2024, 2, 4, 4, 4, 2),
        month(2024, 6, 8, 2, 2, 4),
    ];
    let winter = season_stats(&months, Season::Winter, 1).unwrap();
    assert_eq!(winter.season, Season::Winter);
    assert_eq!(winter.season_name, "Winter");
    assert_eq!(winter.months, vec![12, 1, 2]);
    assert_eq!(winter.total_shadow_hours, vec![12]);
    assert_eq!(winter.avg_shadow_percentage, vec![(700_000 + 333_333 + 1_000_000) / 3]);
    assert_eq!(winter.solar_efficiency_percentage, vec![(300_000 + 666_666 + 0) / 3]);
    assert_eq!(winter.max_consecutive_shadow, vec![4]);
    assert_eq!(winter.total_days, 6);
    let summer = season_stats(&months, Season::Summer, 1).unwrap();
    assert_eq!(summer.season_name, "Summer");
    assert_eq!(summer.months, vec![6, 7, 8]);
    assert_eq!(summer.total_shadow_hours, vec![2]);
    assert_eq!(summer.avg_shadow_percentage, vec![250_000]);
    assert_eq!(summer.total_days, 4);
    assert!(season_stats(&months, Season::Spring, 1).is_none());
    assert!(season_stats(&months, Season::Fall, 1).is_none());
}

#[test]
fn seasons_come_in_fixed_order() {
    let months = vec![
        month(2024, 1, 3, 1, 1, 1),
        month(2024, 4, 3, 1, 1, 1),
        month(2024, 10, 3, 3, 3, 1),
    ];
    let seasons = seasonal_summaries(&months, 1);
    let names: Vec<&str> = seasons.iter().map(|s| s.season_name.as_str()).collect();
    assert_eq!(names, vec!["Spring", "Fall", "Winter"]);
    assert!(seasonal_summaries(&Vec::new(), 1).is_empty());
}

#[test]
fn season_membership_of_months() {
    let expected = [
        Season::Winter, Season::Winter, Season::Spring, Season::Spring, Season::Spring,
        Season::Summer, Season::Summer, Season::Summer, Season::Fall, Season::Fall,
        Season::Fall, Season::Winter,
    ];
    for month in 1..=12u32 {
        for season in [Season::Spring, Season::Summer, Season::Fall, Season::Winter] {
            assert_eq!(season.contains_month(month), season == expected[(month - 1) as usize]);
        }
    }
    assert!(!Season::Winter.contains_month(0));
    assert!(!Season::Winter.contains_month(13));
    assert_eq!(Season::Fall.name(), "Fall");
    assert_eq!(Season::Spring.months(), vec![3, 4, 5]);
}

#[test]
fn analysis_period_spans_the_instants() {
    assert_eq!(analysis_period(&Vec::new()), AnalysisPeriod { start: 0, end: 0 });
    assert_eq!(analysis_period(&vec![7]), AnalysisPeriod { start: 7, end: 7 });
    assert_eq!(
        analysis_period(&vec![JUN_21, JAN_15, FEB_10]),
        AnalysisPeriod { start: JAN_15, end: JUN_21 }
    );
}

#[test]
fn seasonal_analysis_of_a_stack() {
    let timestamps = vec![JAN_15 + 9 * HOUR, JAN_15 + 10 * HOUR, JUN_21 + 9 * HOUR, FEB_10 + 9 * HOUR];
    let s = stack(&[&[64, 0, 0], &[64, 0, 64], &[0, 0, 64], &[64, 0, 0]]);
    let analysis = calculate_seasonal_analysis(&s, &timestamps).unwrap();
    assert_eq!(analysis.monthly_stats.len(), 3);
    assert_eq!(analysis.seasonal_summaries.len(), 2);
    assert_eq!(analysis.analysis_period, AnalysisPeriod { start: JAN_15 + 9 * HOUR, end: JUN_21 + 9 * HOUR });
    let summer = &analysis.seasonal_summaries[0];
    assert_eq!(summer.season, Season::Summer);
    assert_eq!(summer.total_shadow_hours, vec![0, 0, 1]);
    assert_eq!(summer.avg_shadow_percentage, vec![0, 0, 1_000_000]);
    assert_eq!(summer.solar_efficiency_percentage, vec![1_000_000, 1_000_000, 0]);
    let winter = &analysis.seasonal_summaries[1];
    assert_eq!(winter.season, Season::Winter);
    assert_eq!(winter.total_shadow_hours, vec![3, 0, 1]);
    assert_eq!(winter.avg_shadow_percentage, vec![1_000_000, 0, 250_000]);
    assert_eq!(winter.max_consecutive_shadow, vec![2, 0, 1]);
    assert_eq!(winter.total_days, 2);
}

#[test]
fn seasonal_analysis_needs_the_calendar() {
    let s = stack(&[&[64]]);
    assert!(calculate_seasonal_analysis(&s, &vec![i64::MIN]).is_err());
}
