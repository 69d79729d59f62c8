use shadow_calculator::grid::Grid;
use shadow_calculator::raster_io::{ClipWindow, HeightRange, PixelCorners, RasterIO};
use shadow_calculator::types::ShadowError;

const DAY: i64 = 86_400_000_000;
const HOUR: i64 = 3_600_000_000;

fn numbered(rows: usize, cols: usize) -> Grid {
    let mut g = Grid::filled(rows, cols, 0).unwrap();
    for r in 0..rows {
        for c in 0..cols {
            assert!(g.put(r, c, (r * 100 + c) as i64));
        }
    }
    g
}

fn config_text(out: Result<ClipWindow, ShadowError>) -> String {
    match out {
        Err(ShadowError::Config(text)) => text,
        other => panic!("expected a configuration error, got {:?}", other),
    }
}

#[test]
fn window_inside_the_raster_is_kept() {
    let corners = PixelCorners { min_col: 3, min_row: 2, max_col: 7, max_row: 5 };
    assert_eq!(
        RasterIO::clip_window(&corners, 10, 20),
        Ok(ClipWindow { min_row: 2, max_row: 6, min_col: 3, max_col: 8 })
    );
}

#[test]
fn window_is_clamped_to_the_raster() {
    let corners = PixelCorners { min_col: -4, min_row: -1, max_col: 50, max_row: 9 };
    assert_eq!(
        RasterIO::clip_window(&corners, 10, 20),
        Ok(ClipWindow { min_row: 0, max_row: 10, min_col: 0, max_col: 20 })
    );
    let corner = PixelCorners { min_col: 19, min_row: 9, max_col: 19, max_row: 9 };
    assert_eq!(
        RasterIO::clip_window(&corner, 10, 20),
        Ok(ClipWindow { min_row: 9, max_row: 10, min_col: 19, max_col: 20 })
    );
}

#[test]
fn area_outside_the_raster_is_a_config_error() {
    let far = PixelCorners { min_col: 10_000, min_row: 4, max_col: 10_050, max_row: 8 };
    assert_eq!(config_text(RasterIO::clip_window(&far, 100, 100)), "AOI is outside raster bounds");
    let above = PixelCorners { min_col: 4, min_row: -90, max_col: 8, max_row: -1 };
    assert_eq!(config_text(RasterIO::clip_window(&above, 100, 100)), "AOI is outside raster bounds");
    let left = PixelCorners { min_col: -90, min_row: 4, max_col: -1, max_row: 8 };
    assert_eq!(config_text(RasterIO::clip_window(&left, 100, 100)), "AOI is outside raster bounds");
    let below = PixelCorners { min_col: 4, min_row: 101, max_col: 8, max_row: 150 };
    assert_eq!(config_text(RasterIO::clip_window(&below, 100, 100)), "AOI is outside raster bounds");
    let raster = Grid::filled(100, 100, 0).unwrap();
    match RasterIO::clip_to_aoi(&raster, &far) {
        Err(ShadowError::Config(text)) => assert_eq!(text, "AOI is outside raster bounds"),
        _ => panic!("expected a configuration error"),
    }
}

#[test]
fn empty_window_is_a_config_error() {
    let edge = PixelCorners { min_col: 100, min_row: 4, max_col: 120, max_row: 8 };
    assert_eq!(config_text(RasterIO::clip_window(&edge, 100, 100)), "Invalid clip region");
    let inverted = PixelCorners { min_col: 8, min_row: 4, max_col: 3, max_row: 8 };
    assert_eq!(config_text(RasterIO::clip_window(&inverted, 100, 100)), "Invalid clip region");
    let any = PixelCorners { min_col: 0, min_row: 0, max_col: 5, max_row: 5 };
    assert_eq!(config_text(RasterIO::clip_window(&any, 0, 100)), "Invalid clip region");
}

#[test]
fn clipping_copies_the_window() {
    let raster = numbered(6, 8);
    let corners = PixelCorners { min_col: 5, min_row: 1, max_col: 30, max_row: 3 };
    let (clipped, window) = match RasterIO::clip_to_aoi(&raster, &corners) {
        Ok(p) => p,
        Err(e) => panic!("clip failed: {:?}", e),
    };
    assert_eq!(window, ClipWindow { min_row: 1, max_row: 4, min_col: 5, max_col: 8 });
    assert_eq!(clipped.nrows(), 3);
    assert_eq!(clipped.ncols(), 3);
    for r in 0..3 {
        for c in 0..3 {
            assert_eq!(clipped.get(r, c), Some(((r + 1) * 100 + c + 5) as i64));
        }
    }
    let again = RasterIO::extract_window(&raster, &window);
    assert_eq!(again.get(2, 2), Some(307));
}

#[test]
fn rasters_must_agree_in_shape() {
    let a = Grid::filled(3, 4, 0).unwrap();
    let b = Grid::filled(3, 4, 9).unwrap();
    let c = Grid::filled(4, 3, 0).unwrap();
    assert_eq!(RasterIO::validate_dimensions(&a, &b), Ok(()));
    assert_eq!(
        RasterIO::validate_dimensions(&a, &c),
        Err(ShadowError::Config("DTM and DSM must have the same dimensions".to_string()))
    );
}

#[test]
fn masking_replaces_cells_outside_the_area() {
    let mut data = numbered(3, 3);
    let mut inside = Grid::filled(3, 3, 0).unwrap();
    inside.put(1, 1, 1);
    inside.put(0, 2, 7);
    RasterIO::mask_results_to_aoi(&mut data, &inside, -9_999);
    for r in 0..3 {
        for c in 0..3 {
            let expected = if (r, c) == (1, 1) || (r, c) == (0, 2) { (r * 100 + c) as i64 } else { -9_999 };
            assert_eq!(data.get(r, c), Some(expected));
        }
    }
}

#[test]
fn area_cells_are_listed_row_by_row() {
    let mut inside = Grid::filled(3, 4, 0).unwrap();
    inside.put(2, 0, 1);
    inside.put(0, 3, 1);
    inside.put(1, 1, 1);
    inside.put(1, 2, -1);
    assert_eq!(RasterIO::collect_aoi_cells(&inside), vec![(0, 3), (1, 1), (1, 2), (2, 0)]);
    assert!(RasterIO::collect_aoi_cells(&Grid::filled(3, 4, 0).unwrap()).is_empty());
}

#[test]
fn height_range_scans_the_zones() {
    let mut dtm = Grid::filled(3, 3, 100_000).unwrap();
    let mut dsm = Grid::filled(3, 3, 100_000).unwrap();
    let mut zones = Grid::filled(3, 3, 0).unwrap();
    dsm.put(0, 0, 900_000);
    dsm.put(0, 1, 130_000);
    dsm.put(2, 2, 125_000);
    dtm.put(1, 1, 95_000);
    dtm.put(1, 2, 90_000);
    dtm.put(2, 0, 10_000);
    zones.put(0, 1, 1);
    zones.put(1, 1, 2);
    zones.put(1, 2, 2);
    zones.put(2, 2, 1);
    let range = RasterIO::scan_height_range(&dtm, &dsm, &zones);
    assert_eq!(range, HeightRange { highest_surface: Some(130_000), lowest_terrain: Some(90_000) });
    assert_eq!(RasterIO::calculate_max_height_difference_around_aoi(&range), 40_000);
    let none = RasterIO::scan_height_range(&dtm, &dsm, &Grid::filled(3, 3, 0).unwrap());
    assert_eq!(none, HeightRange { highest_surface: None, lowest_terrain: None });
    assert_eq!(RasterIO::calculate_max_height_difference_around_aoi(&none), 100_000);
}

#[test]
fn height_difference_is_at_least_ten_metres() {
    let flat = HeightRange { highest_surface: Some(5_000), lowest_terrain: Some(4_000) };
    assert_eq!(RasterIO::calculate_max_height_difference_around_aoi(&flat), 10_000);
    let sunk = HeightRange { highest_surface: Some(-5_000), lowest_terrain: Some(4_000) };
    assert_eq!(RasterIO::calculate_max_height_difference_around_aoi(&sunk), 10_000);
    let half = HeightRange { highest_surface: Some(5_000), lowest_terrain: None };
    assert_eq!(RasterIO::calculate_max_height_difference_around_aoi(&half), 100_000);
    let wide = HeightRange { highest_surface: Some(i64::MAX), lowest_terrain: Some(i64::MIN) };
    assert_eq!(RasterIO::calculate_max_height_difference_around_aoi(&wide), u64::MAX);
}

#[test]
fn buffer_follows_the_longest_shadow() {
    assert_eq!(RasterIO::calculate_automatic_buffer(100_000, 10_000_000, 176_327), 680_553);
    assert_eq!(RasterIO::calculate_automatic_buffer(20_000, 30_000_000, 577_350), 50_000);
    assert_eq!(RasterIO::calculate_automatic_buffer(100_000, 1_000_000, 17_455), 5_000_000);
    assert_eq!(RasterIO::calculate_automatic_buffer(u64::MAX, 45_000_000, 1), 5_000_000);
}

#[test]
fn buffer_for_a_sun_on_the_horizon() {
    assert_eq!(RasterIO::calculate_automatic_buffer(100_000, 100_000, 1_745), 2_400_000);
    assert_eq!(RasterIO::calculate_automatic_buffer(10_000, 0, 0), 2_400_000);
    assert_eq!(RasterIO::calculate_automatic_buffer(10_000, 30_000_000, 0), 2_400_000);
    assert_eq!(RasterIO::calculate_automatic_buffer(100_000, 100_001, 1_745), 5_000_000);
}

#[test]
fn lowest_elevation_ignores_night_and_zenith() {
    assert_eq!(
        RasterIO::calculate_min_solar_elevation(&vec![-5_000_000, 0, 95_000_000, 45_000_000, 30_000_000, 90_000_000]),
        30_000_000
    );
    assert_eq!(RasterIO::calculate_min_solar_elevation(&Vec::new()), 89_000_000);
    assert_eq!(RasterIO::calculate_min_solar_elevation(&vec![89_500_000]), 89_000_000);
    assert_eq!(RasterIO::calculate_min_solar_elevation(&vec![1]), 1);
}

fn five(day: i64) -> Vec<i64> {
    [8, 10, 12, 14, 16].iter().map(|hour| day * DAY + hour * HOUR).collect()
}

#[test]
fn low_sun_is_sampled_every_week_and_on_the_winter_solstice() {
    let times = RasterIO::elevation_sample_times(45_000_000, 20_072 * DAY, 20_082 * DAY).unwrap();
    let expected = [five(20_072), five(20_078), five(20_079), five(20_078), five(20_082)].concat();
    assert_eq!(times, expected);
}

#[test]
fn solstice_outside_the_period_is_not_sampled() {
    let start = 19_723 * DAY + 30 * 60_000_000 + 250_000;
    let times = RasterIO::elevation_sample_times(45_000_000, start, 19_732 * DAY).unwrap();
    assert_eq!(times, [five(19_723), five(19_730), five(19_732)].concat());
}

#[test]
fn samples_fall_on_whole_hours() {
    let start = 19_723 * DAY + 13 * HOUR + 59 * 60_000_000 + 999_999;
    let times = RasterIO::elevation_sample_times(-10_000_000, start, start + 1).unwrap();
    assert_eq!(times, [five(19_723), five(19_723)].concat());
    assert!(times.iter().all(|t| t % HOUR == 0));
}

#[test]
fn southern_low_sun_is_sampled_on_the_june_solstice() {
    let times = RasterIO::elevation_sample_times(-33_000_000, 19_880 * DAY, 19_900 * DAY).unwrap();
    let expected = [
        five(19_880), five(19_895), five(19_887), five(19_895), five(19_894), five(19_895),
        five(19_900),
    ]
    .concat();
    assert_eq!(times, expected);
    let equator = RasterIO::elevation_sample_times(0, 19_880 * DAY, 19_900 * DAY).unwrap();
    assert_eq!(equator, expected);
}

#[test]
fn southern_solstice_is_the_21st_of_june_also_from_a_31st() {
    let may_31 = 19_874;
    let times = RasterIO::elevation_sample_times(-33_000_000, may_31 * DAY, 19_900 * DAY).unwrap();
    let expected = [
        five(may_31), five(19_895), five(may_31 + 7), five(19_895), five(may_31 + 14),
        five(19_895), five(may_31 + 21), five(19_895), five(19_900),
    ]
    .concat();
    assert_eq!(times, expected);
    assert!(!times.contains(&(19_864 * DAY + 8 * HOUR)));
    let short = RasterIO::elevation_sample_times(-33_000_000, may_31 * DAY, may_31 * DAY + HOUR).unwrap();
    assert_eq!(short, [five(may_31), five(may_31)].concat());
}

#[test]
fn sampling_needs_the_calendar() {
    match RasterIO::elevation_sample_times(10_000_000, i64::MAX - 5, i64::MAX) {
        Err(ShadowError::Config(_)) => {}
        other => panic!("expected a configuration error, got {:?}", other),
    }
    assert!(RasterIO::elevation_sample_times(10_000_000, 0, i64::MAX).is_err());
}
