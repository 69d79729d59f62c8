use shadow_calculator::export::{
    band_descriptions, export_file_name, parse_result_timestamps, recognized_timestamps, same_text,
    summary_layer_titles, time_band_count, validate_results_file, ResultsMetadata, SummaryBand,
};
use shadow_calculator::types::{Fraction, ShadowError};

const DAY: i64 = 86_400_000_000;
const HOUR: i64 = 3_600_000_000;
const JUNE_21: i64 = 19_895 * DAY;

fn names() -> Vec<String> {
    [
        "Total_Shadow_Hours",
        "Average_Shadow_Fraction_(0-1)",
        "Max_Consecutive_Shadow_Hours",
        "Morning_Shadow_Hours",
        "Noon_Shadow_Hours",
        "Afternoon_Shadow_Hours",
        "Solar_Efficiency_Fraction_(0-1)",
        "Average_Daily_Solar_Hours",
        "Total_Available_Solar_Hours",
    ]
    .iter()
    .map(|s| s.to_string())
    .collect()
}

#[test]
fn summary_bands_come_first_in_fixed_order() {
    assert_eq!(band_descriptions(&Vec::new()).unwrap(), names());
    for (i, name) in names().iter().enumerate() {
        let band = SummaryBand::at(i).unwrap();
        assert_eq!(band.index(), i);
        assert_eq!(&band.description(), name);
    }
    assert_eq!(SummaryBand::at(9), None);
    assert_eq!(SummaryBand::TotalShadowHours.index(), 0);
    assert_eq!(SummaryBand::AverageShadowFraction.index(), 1);
    assert_eq!(SummaryBand::TotalAvailableSolarHours.index(), 8);
}

#[test]
fn time_bands_are_labelled_with_their_instant() {
    let timestamps = vec![JUNE_21 + 6 * HOUR + 21_093_750, JUNE_21 + 7 * HOUR + 21_093_750];
    let descriptions = band_descriptions(&timestamps).unwrap();
    assert_eq!(descriptions.len(), 11);
    assert_eq!(descriptions[9], "2024-06-21_06:00_UTC");
    assert_eq!(descriptions[10], "2024-06-21_07:00_UTC");
    assert_eq!(&descriptions[..9], &names()[..]);
}

#[test]
fn bands_of_instants_beyond_the_calendar_cannot_be_labelled() {
    match band_descriptions(&vec![JUNE_21, i64::MAX]) {
        Err(ShadowError::Config(_)) => {}
        other => panic!("expected a configuration error, got {:?}", other),
    }
}

#[test]
fn results_need_nine_summary_bands() {
    assert_eq!(time_band_count(9), Ok(0));
    assert_eq!(time_band_count(21), Ok(12));
    for n in 0..9 {
        match time_band_count(n) {
            Err(ShadowError::Format(_)) => {}
            other => panic!("expected a format error, got {:?}", other),
        }
    }
    match parse_result_timestamps(&names()[..8].to_vec(), 0) {
        Err(ShadowError::Format(_)) => {}
        other => panic!("expected a format error, got {:?}", other),
    }
}

#[test]
fn labels_read_back_as_written() {
    let timestamps: Vec<i64> = (0..12).map(|h| JUNE_21 + 6 * HOUR + h * HOUR).collect();
    let descriptions = band_descriptions(&timestamps).unwrap();
    assert_eq!(descriptions.len(), 21);
    assert_eq!(parse_result_timestamps(&descriptions, -1), Ok(timestamps.clone()));
    assert_eq!(recognized_timestamps(&descriptions), timestamps);
}

#[test]
fn labels_read_back_to_the_minute() {
    let written = vec![JUNE_21 + 6 * HOUR + 21_093_750, JUNE_21 + 18 * HOUR - 21_093_750];
    let descriptions = band_descriptions(&written).unwrap();
    assert_eq!(
        parse_result_timestamps(&descriptions, -1),
        Ok(vec![JUNE_21 + 6 * HOUR, JUNE_21 + 17 * HOUR + 59 * 60_000_000])
    );
}

#[test]
fn unreadable_labels_fall_back_or_are_passed_over() {
    let mut descriptions = names();
    descriptions.push("2024-06-21_06:00_UTC".to_string());
    descriptions.push("Band_11".to_string());
    descriptions.push("2024-06-21_08:00".to_string());
    assert_eq!(
        parse_result_timestamps(&descriptions, 77),
        Ok(vec![JUNE_21 + 6 * HOUR, 77, JUNE_21 + 8 * HOUR])
    );
    assert_eq!(
        recognized_timestamps(&descriptions),
        vec![JUNE_21 + 6 * HOUR, JUNE_21 + 8 * HOUR]
    );
    assert!(recognized_timestamps(&names()).is_empty());
    assert!(recognized_timestamps(&Vec::new()).is_empty());
}

#[test]
fn export_file_names() {
    assert_eq!(export_file_name("geotiff", "20240621_101500"), Ok("shadows_20240621_101500.tif".to_string()));
    assert_eq!(export_file_name("csv", "20240621_101500"), Ok("shadows_20240621_101500.csv".to_string()));
    assert_eq!(export_file_name("csv", ""), Ok("shadows_.csv".to_string()));
    for other in ["GeoTIFF", "tif", "", "json"] {
        assert_eq!(
            export_file_name(other, "x"),
            Err(ShadowError::Config("Unsupported format".to_string()))
        );
    }
}

#[test]
fn texts_compare_by_content() {
    assert!(same_text("tif", "tif"));
    assert!(same_text("", ""));
    assert!(!same_text("tif", "tiff"));
    assert!(!same_text("tif", "TIF"));
}

#[test]
fn summary_layers_have_titles() {
    let titles = summary_layer_titles();
    assert_eq!(titles.len(), 9);
    assert_eq!(titles[0], "Total Shadow Hours");
    assert_eq!(titles[1], "Average Shadow Fraction");
    assert_eq!(titles[6], "Solar Efficiency Fraction");
    assert_eq!(titles[8], "Total Available Solar Hours");
    assert_eq!(SummaryBand::NoonShadowHours.title(), "Noon Shadow Hours");
}

#[test]
fn results_file_is_validated() {
    let timestamps: Vec<i64> = (0..5).map(|i| JUNE_21 + 6 * HOUR + i * 2 * HOUR).collect();
    let descriptions = band_descriptions(&timestamps).unwrap();
    let meta = validate_results_file("tif", &descriptions, 123).unwrap();
    assert_eq!(
        meta,
        ResultsMetadata {
            start_date: JUNE_21 + 6 * HOUR,
            end_date: JUNE_21 + 14 * HOUR,
            hour_interval: Fraction { num: 8, den: 4 },
            total_timestamps: 5,
            summary_layers: summary_layer_titles(),
        }
    );
    assert!(validate_results_file("tiff", &descriptions, 123).is_ok());
}

#[test]
fn results_file_without_readable_time_bands() {
    let meta = validate_results_file("tif", &names(), 123).unwrap();
    assert_eq!(meta.start_date, 123);
    assert_eq!(meta.end_date, 123);
    assert_eq!(meta.hour_interval, Fraction { num: 1, den: 1 });
    assert_eq!(meta.total_timestamps, 0);
    let mut one = names();
    one.push("2024-06-21_06:00_UTC".to_string());
    one.push("garbage".to_string());
    let meta = validate_results_file("tif", &one, 55).unwrap();
    assert_eq!((meta.start_date, meta.end_date, meta.total_timestamps), (55, 55, 2));
}

#[test]
fn results_file_is_refused() {
    assert_eq!(
        validate_results_file("png", &names(), 0),
        Err(ShadowError::Format("File must be a .tif or .tiff file".to_string()))
    );
    assert_eq!(
        validate_results_file("", &names(), 0),
        Err(ShadowError::Format("File must be a .tif or .tiff file".to_string()))
    );
    assert_eq!(
        validate_results_file("tif", &names()[..8].to_vec(), 0),
        Err(ShadowError::Format("Results file must have at least 9 bands (summary layers)".to_string()))
    );
}

#[test]
fn estimated_interval_counts_whole_hours() {
    let mut descriptions = names();
    descriptions.push("2024-06-21_06:00_UTC".to_string());
    descriptions.push("2024-06-21_06:45_UTC".to_string());
    descriptions.push("2024-06-21_07:30_UTC".to_string());
    let meta = validate_results_file("tif", &descriptions, 0).unwrap();
    assert_eq!(meta.hour_interval, Fraction { num: 1, den: 2 });
}
