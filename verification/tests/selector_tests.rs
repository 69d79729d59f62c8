use shadow_calculator::grid::Grid;
use shadow_calculator::kernel::SunRay;
use shadow_calculator::selector::{
    can_cast_shadow_into_aoi, get_shadow_relevant_cells, is_relevant_cell, isqrt, PixelBounds,
};

fn sun(azimuth: f64, elevation: f64) -> SunRay {
    let az = azimuth.to_radians();
    let el = elevation.to_radians();
    SunRay {
        elevation: (elevation * 1e6).round() as i64,
        dx: (az.sin() * el.cos() * 1e6).round() as i32,
        dy: (az.cos() * el.cos() * 1e6).round() as i32,
        dz: (el.sin() * 1e6).round() as i32,
        shadow_x: (-az.sin() * 1e6).round() as i32,
        shadow_y: (az.cos() * 1e6).round() as i32,
        tan_elevation: (el.tan() * 1e6).round() as i64,
    }
}

fn bounds() -> PixelBounds {
    PixelBounds { min_row: 8, max_row: 12, min_col: 8, max_col: 12 }
}

#[test]
fn integer_square_roots_round_down() {
    assert_eq!(isqrt(0), 0);
    assert_eq!(isqrt(1), 1);
    assert_eq!(isqrt(3), 1);
    assert_eq!(isqrt(4), 2);
    assert_eq!(isqrt(35), 5);
    assert_eq!(isqrt(36), 6);
    assert_eq!(isqrt(1_000_000_000_000), 1_000_000);
    assert_eq!(isqrt(999_999_999_999), 999_999);
    assert_eq!(isqrt(u128::MAX), 18_446_744_073_709_551_615);
}

#[test]
fn pixel_bounds_hold_their_corners() {
    let b = bounds();
    assert!(b.contains(8, 8));
    assert!(b.contains(12, 12));
    assert!(b.contains(10, 9));
    assert!(!b.contains(7, 10));
    assert!(!b.contains(13, 10));
    assert!(!b.contains(10, 7));
    assert!(!b.contains(10, 13));
}

#[test]
fn obstacle_on_the_sunny_side_is_kept() {
    let mut heights = Grid::filled(20, 20, 0).unwrap();
    heights.put(10, 2, 10_000);
    let west = sun(270.0, 30.0);
    assert_eq!(west.shadow_x, 1_000_000);
    assert!(can_cast_shadow_into_aoi(&heights, &bounds(), &west, 1_000, 20_000, 10, 2));
    assert!(is_relevant_cell(&heights, &bounds(), &west, 1_000, 20_000, 10, 2));
}

#[test]
fn obstacle_on_the_far_side_is_dropped() {
    let mut heights = Grid::filled(20, 20, 0).unwrap();
    heights.put(10, 2, 10_000);
    let east = sun(90.0, 30.0);
    assert!(!can_cast_shadow_into_aoi(&heights, &bounds(), &east, 1_000, 20_000, 10, 2));
    assert!(!is_relevant_cell(&heights, &bounds(), &east, 1_000, 20_000, 10, 2));
}

#[test]
fn obstacle_abreast_of_the_area_is_dropped() {
    let mut heights = Grid::filled(20, 20, 0).unwrap();
    heights.put(2, 10, 10_000);
    let west = sun(270.0, 30.0);
    assert_eq!(west.shadow_y, 0);
    assert!(!can_cast_shadow_into_aoi(&heights, &bounds(), &west, 1_000, 20_000, 2, 10));
}

#[test]
fn obstacle_beyond_the_buffer_is_dropped() {
    let mut heights = Grid::filled(20, 20, 0).unwrap();
    heights.put(10, 2, 10_000);
    let west = sun(270.0, 30.0);
    assert!(can_cast_shadow_into_aoi(&heights, &bounds(), &west, 1_000, 6_000, 10, 2));
    assert!(!can_cast_shadow_into_aoi(&heights, &bounds(), &west, 1_000, 5_999, 10, 2));
}

#[test]
fn obstacle_too_low_for_the_distance_is_dropped() {
    let mut heights = Grid::filled(20, 20, 0).unwrap();
    heights.put(10, 2, 10_000);
    let steep = sun(270.0, 80.0);
    assert!(!can_cast_shadow_into_aoi(&heights, &bounds(), &steep, 1_000, 20_000, 10, 2));
    let mut exact = SunRay { tan_elevation: 3_333_333, ..sun(270.0, 73.0) };
    assert!(can_cast_shadow_into_aoi(&heights, &bounds(), &exact, 1_000, 20_000, 10, 2));
    exact.tan_elevation = 3_333_334;
    assert!(!can_cast_shadow_into_aoi(&heights, &bounds(), &exact, 1_000, 20_000, 10, 2));
}

#[test]
fn low_obstacles_are_dropped_outside_the_area() {
    let mut heights = Grid::filled(20, 20, 0).unwrap();
    heights.put(10, 2, 499);
    heights.put(10, 3, 500);
    let west = sun(270.0, 1.0);
    assert!(!is_relevant_cell(&heights, &bounds(), &west, 1_000, 20_000, 10, 2));
    assert!(is_relevant_cell(&heights, &bounds(), &west, 1_000, 20_000, 10, 3));
}

#[test]
fn every_cell_of_the_area_is_kept() {
    let heights = Grid::filled(20, 20, 0).unwrap();
    let cells = get_shadow_relevant_cells(&heights, &bounds(), &sun(135.0, 25.0), 1_000, 20_000);
    assert_eq!(cells.len(), 25);
    let mut expected = Vec::new();
    for row in 8..13 {
        for col in 8..13 {
            expected.push((row, col));
        }
    }
    assert_eq!(cells, expected);
}

#[test]
fn selected_cells_come_row_by_row() {
    let mut heights = Grid::filled(20, 20, 0).unwrap();
    heights.put(10, 2, 10_000);
    heights.put(10, 17, 10_000);
    heights.put(9, 5, 10_000);
    heights.put(14, 3, 10_000);
    let west = sun(270.0, 30.0);
    let cells = get_shadow_relevant_cells(&heights, &bounds(), &west, 1_000, 20_000);
    assert_eq!(cells.len(), 28);
    assert!(cells.contains(&(10, 2)));
    assert!(cells.contains(&(9, 5)));
    assert!(cells.contains(&(14, 3)));
    assert!(!cells.contains(&(10, 17)));
    for pair in cells.windows(2) {
        assert!(pair[0] < pair[1]);
    }
}
