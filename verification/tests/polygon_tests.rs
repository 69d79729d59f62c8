use shadow_calculator::polygon::{AoiPolygon, WorldBounds};
use shadow_calculator::types::{Config, ShadowError, ShadowQuality};

fn config(aoi: Vec<Vec<i64>>) -> Config {
    Config {
        dtm_path: "dtm.tif".to_string(),
        dsm_path: "dsm.tif".to_string(),
        aoi,
        start_date: "2024-06-21T00:00:00Z".to_string(),
        end_date: "2024-06-22T00:00:00Z".to_string(),
        interval_minutes: 60,
        buffer_mm: None,
        angle_precision: 100_000,
        shadow_quality: ShadowQuality::Fast,
        cpu_cores: None,
    }
}

#[test]
fn open_ring_is_closed() {
    let p = AoiPolygon::new(vec![(0, 0), (10, 0), (10, 10)]);
    assert_eq!(p.exterior(), vec![(0, 0), (10, 0), (10, 10), (0, 0)]);
}

#[test]
fn closed_ring_is_kept() {
    let p = AoiPolygon::new(vec![(0, 0), (10, 0), (10, 10), (0, 0)]);
    assert_eq!(p.exterior(), vec![(0, 0), (10, 0), (10, 10), (0, 0)]);
    let single = AoiPolygon::new(vec![(3, 4)]);
    assert_eq!(single.exterior(), vec![(3, 4)]);
    let empty = AoiPolygon::new(Vec::new());
    assert!(empty.exterior().is_empty());
}

#[test]
fn config_gives_its_area_as_a_polygon() {
    let c = config(vec![vec![1, 2], vec![3, 4, 99], vec![5], vec![], vec![7, 8]]);
    let p = c.to_polygon().unwrap();
    assert_eq!(p.exterior(), vec![(1, 2), (3, 4), (0, 0), (0, 0), (7, 8), (1, 2)]);
}

#[test]
fn empty_area_is_a_config_error() {
    match config(Vec::new()).to_polygon() {
        Err(ShadowError::Config(text)) => assert_eq!(text, "AOI is empty"),
        _ => panic!("expected a configuration error"),
    }
}

#[test]
fn buffered_bounds_widen_the_bounding_box() {
    let p = AoiPolygon::new(vec![(7_000_000, 45_000_000), (7_010_000, 45_020_000), (6_990_000, 45_010_000)]);
    assert_eq!(
        p.get_buffered_bounds(500),
        Some(WorldBounds { min_x: 6_989_500, min_y: 44_999_500, max_x: 7_010_500, max_y: 45_020_500 })
    );
    assert_eq!(
        p.get_buffered_bounds(0),
        Some(WorldBounds { min_x: 6_990_000, min_y: 45_000_000, max_x: 7_010_000, max_y: 45_020_000 })
    );
    assert_eq!(AoiPolygon::new(Vec::new()).get_buffered_bounds(5), None);
    let wide = AoiPolygon::new(vec![(i64::MIN, i64::MAX)]);
    assert_eq!(
        wide.get_buffered_bounds(i64::MAX),
        Some(WorldBounds {
            min_x: i64::MIN as i128 - i64::MAX as i128,
            min_y: 0,
            max_x: -1,
            max_y: 2 * (i64::MAX as i128),
        })
    );
}

#[test]
fn centre_is_the_mean_of_the_ring() {
    let p = AoiPolygon::new(vec![(0, 0), (10, 0), (10, 10), (0, 10)]);
    assert_eq!(p.exterior().len(), 5);
    assert_eq!(p.get_aoi_center(), (4, 4));
    let q = AoiPolygon::new(vec![(-1, -1), (-2, -2)]);
    assert_eq!(q.get_aoi_center(), (-2, -2));
    assert_eq!(AoiPolygon::new(Vec::new()).get_aoi_center(), (0, 0));
    let far = AoiPolygon::new(vec![(i64::MAX, i64::MIN), (i64::MAX, i64::MIN), (i64::MAX, i64::MIN)]);
    assert_eq!(far.get_aoi_center(), (i64::MAX, i64::MIN));
}

#[test]
fn configured_buffer_and_cores() {
    let mut c = config(vec![vec![0, 0]]);
    assert_eq!(c.buffer_or_default(), 1_000_000);
    assert_eq!(c.get_cpu_cores(8), 8);
    assert_eq!(c.get_cpu_cores(0), 1);
    c.buffer_mm = Some(250_000);
    c.cpu_cores = Some(3);
    assert_eq!(c.buffer_or_default(), 250_000);
    assert_eq!(c.get_cpu_cores(8), 3);
    c.cpu_cores = Some(0);
    assert_eq!(c.get_cpu_cores(8), 1);
}

#[test]
fn quality_sets_the_number_of_subsamples() {
    assert_eq!(ShadowQuality::Fast.subsamples(), 0);
    assert_eq!(ShadowQuality::Normal.subsamples(), 2);
    assert_eq!(ShadowQuality::High.subsamples(), 4);
    assert_eq!(ShadowQuality::Scientific.subsamples(), 8);
}

#[test]
fn errors_carry_their_message() {
    assert_eq!(ShadowError::Config("a".to_string()).message(), "a");
    assert_eq!(ShadowError::Io("b".to_string()).message(), "b");
    assert_eq!(ShadowError::Format("c".to_string()).message(), "c");
    assert_eq!(ShadowError::Cancelled.message(), "");
    assert!(ShadowError::Config("a".to_string()).is_config());
    assert!(!ShadowError::Cancelled.is_config());
}
