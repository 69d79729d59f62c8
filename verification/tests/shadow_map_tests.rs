use shadow_calculator::grid::Grid;
use shadow_calculator::kernel::{calculate_cell_shadow, SunRay};
use shadow_calculator::refinement::{is_shadow_edge, refine_shadow_edges, subsample_cell};
use shadow_calculator::selector::PixelBounds;
use shadow_calculator::shadow_map::{
    assemble_shadow_map, calculate_instant_shadow, calculate_shadow_map, cast_cell_shadows,
    whole_cell_map, CellShadow,
};
use shadow_calculator::types::ShadowQuality;

fn sun(azimuth: f64, elevation: f64) -> SunRay {
    let az = azimuth.to_radians();
    let el = elevation.to_radians();
    SunRay {
        elevation: (elevation * 1e6).round() as i64,
        dx: (az.sin() * el.cos() * 1e6).round() as i32,
        dy: (az.cos() * el.cos() * 1e6).round() as i32,
        dz: (el.sin() * 1e6).round() as i32,
        shadow_x: (-az.sin() * 1e6).round() as i32,
        shadow_y: (az.cos() * 1e6).round() as i32,
        tan_elevation: (el.tan() * 1e6).round() as i64,
    }
}

fn wall() -> (Grid, Grid) {
    let mut dsm = Grid::filled(30, 30, 0).unwrap();
    for row in 10..20 {
        dsm.put(row, 20, 8_000);
    }
    let heights = {
        let mut h = Grid::filled(30, 30, 0).unwrap();
        for row in 10..20 {
            h.put(row, 20, 8_000);
        }
        h
    };
    (dsm, heights)
}

fn area() -> PixelBounds {
    PixelBounds { min_row: 5, max_row: 24, min_col: 5, max_col: 24 }
}

#[test]
fn assembled_map_holds_the_listed_values() {
    let like = Grid::filled(3, 3, 9).unwrap();
    let values = vec![
        CellShadow { row: 0, col: 1, shadow: 64 },
        CellShadow { row: 2, col: 2, shadow: 16 },
        CellShadow { row: 0, col: 1, shadow: 32 },
        CellShadow { row: 3, col: 0, shadow: 64 },
    ];
    let map = assemble_shadow_map(&like, &values);
    assert_eq!(map.nrows(), 3);
    assert_eq!(map.ncols(), 3);
    assert_eq!(map.get(0, 1), Some(32));
    assert_eq!(map.get(2, 2), Some(16));
    assert_eq!(map.get(0, 0), Some(0));
    assert_eq!(map.get(1, 1), Some(0));
}

#[test]
fn cast_cell_shadows_keeps_the_order_of_the_cells() {
    let (dsm, _) = wall();
    let east = sun(90.0, 30.0);
    let cells = vec![(15, 25), (15, 18), (15, 10), (2, 2)];
    let values = cast_cell_shadows(&dsm, &cells, &east, 1_000, 50_000);
    assert_eq!(
        values,
        vec![
            CellShadow { row: 15, col: 25, shadow: 0 },
            CellShadow { row: 15, col: 18, shadow: 64 },
            CellShadow { row: 15, col: 10, shadow: 64 },
            CellShadow { row: 2, col: 2, shadow: 0 },
        ]
    );
}

#[test]
fn unrefined_map_is_binary_and_matches_the_rays() {
    let (dsm, heights) = wall();
    let east = sun(90.0, 30.0);
    let map = whole_cell_map(&dsm, &heights, &area(), &east, 1_000, 50_000);
    assert!(map.all_within(0, 64));
    for row in 0..30 {
        for col in 0..30 {
            let v = map.get(row, col).unwrap();
            assert!(v == 0 || v == 64);
            if area().contains(row, col) {
                assert_eq!(v, calculate_cell_shadow(&dsm, row, col, &east, 1_000, 50_000));
            }
        }
    }
    assert_eq!(map.get(15, 18), Some(64));
    assert_eq!(map.get(15, 22), Some(0));
    assert_eq!(map.get(2, 2), Some(0));
}

#[test]
fn cells_outside_the_area_that_cannot_reach_it_stay_lit() {
    let (mut dsm, mut heights) = wall();
    dsm.put(15, 2, 300);
    heights.put(15, 2, 300);
    dsm.put(15, 3, 9_000);
    heights.put(15, 3, 9_000);
    let east = sun(90.0, 30.0);
    assert_eq!(calculate_cell_shadow(&dsm, 15, 2, &east, 1_000, 50_000), 64);
    let map = whole_cell_map(&dsm, &heights, &area(), &east, 1_000, 50_000);
    assert_eq!(map.get(15, 2), Some(0));
}

#[test]
fn fast_quality_leaves_boundaries_alone() {
    let (dsm, heights) = wall();
    let east = sun(90.0, 30.0);
    let plain = whole_cell_map(&dsm, &heights, &area(), &east, 1_000, 50_000);
    let fast = calculate_shadow_map(&dsm, &heights, &area(), &east, 1_000, 50_000, ShadowQuality::Fast);
    for row in 0..30 {
        for col in 0..30 {
            assert_eq!(fast.get(row, col), plain.get(row, col));
        }
    }
}

#[test]
fn refinement_resamples_boundary_cells_only() {
    let (dsm, heights) = wall();
    let east = sun(90.0, 30.0);
    let plain = whole_cell_map(&dsm, &heights, &area(), &east, 1_000, 50_000);
    for quality in [ShadowQuality::Normal, ShadowQuality::High, ShadowQuality::Scientific] {
        let refined = calculate_shadow_map(&dsm, &heights, &area(), &east, 1_000, 50_000, quality);
        assert!(refined.all_within(0, 64));
        let k = quality.subsamples();
        let mut boundary = 0;
        for row in 0..30 {
            for col in 0..30 {
                let interior = row >= 1 && row < 29 && col >= 1 && col < 29;
                if interior && is_shadow_edge(&plain, row, col) {
                    boundary += 1;
                    assert_eq!(
                        refined.get(row, col),
                        Some(subsample_cell(&dsm, row, col, &east, 1_000, 50_000, k))
                    );
                    assert_eq!(refined.get(row, col).unwrap() % (64 / (k * k) as i64), 0);
                } else {
                    assert_eq!(refined.get(row, col), plain.get(row, col));
                }
            }
        }
        assert!(boundary > 0);
    }
}

#[test]
fn refine_shadow_edges_agrees_with_the_map() {
    let (dsm, heights) = wall();
    let east = sun(90.0, 30.0);
    let plain = whole_cell_map(&dsm, &heights, &area(), &east, 1_000, 50_000);
    let refined = refine_shadow_edges(&plain, &dsm, &east, 1_000, 50_000, 4);
    let map = calculate_shadow_map(&dsm, &heights, &area(), &east, 1_000, 50_000, ShadowQuality::High);
    for row in 0..30 {
        for col in 0..30 {
            assert_eq!(refined.get(row, col), map.get(row, col));
        }
    }
}

#[test]
fn edges_need_a_neighbour_that_differs_by_more_than_half() {
    let mut map = Grid::filled(3, 3, 0).unwrap();
    assert!(!is_shadow_edge(&map, 1, 1));
    map.put(0, 0, 32);
    assert!(!is_shadow_edge(&map, 1, 1));
    map.put(0, 0, 33);
    assert!(is_shadow_edge(&map, 1, 1));
    map.put(0, 0, 0);
    map.put(1, 1, 64);
    assert!(is_shadow_edge(&map, 1, 1));
    let full = Grid::filled(3, 3, 64).unwrap();
    assert!(!is_shadow_edge(&full, 1, 1));
}

#[test]
fn subsampled_cell_averages_its_rays() {
    let (dsm, _) = wall();
    let east = sun(90.0, 30.0);
    assert_eq!(subsample_cell(&dsm, 15, 15, &east, 1_000, 50_000, 2), 64);
    assert_eq!(subsample_cell(&dsm, 15, 22, &east, 1_000, 50_000, 2), 0);
    assert_eq!(subsample_cell(&dsm, 3, 15, &east, 1_000, 50_000, 8), 0);
    assert_eq!(subsample_cell(&dsm, 15, 15, &east, 1_000, 50_000, 1), 64);
    let partly = subsample_cell(&dsm, 9, 15, &east, 1_000, 50_000, 8);
    assert!(partly > 0 && partly < 64, "value {}", partly);
}

#[test]
fn night_is_all_shadow() {
    let (dsm, heights) = wall();
    for elevation in [0.0, -0.5, -45.0] {
        let night = sun(120.0, elevation);
        for quality in [ShadowQuality::Fast, ShadowQuality::High] {
            let map = calculate_instant_shadow(&dsm, &heights, &area(), &night, 1_000, 50_000, quality);
            assert_eq!(map.nrows(), 30);
            assert_eq!(map.ncols(), 30);
            assert!(map.all_within(64, 64));
        }
    }
}

#[test]
fn flat_terrain_is_all_lit() {
    let dsm = Grid::filled(25, 25, 432_100).unwrap();
    let heights = Grid::filled(25, 25, 0).unwrap();
    let bounds = PixelBounds { min_row: 5, max_row: 19, min_col: 5, max_col: 19 };
    for (az, el) in [(75.0, 2.0), (180.0, 45.0), (290.0, 15.0)] {
        for quality in [ShadowQuality::Fast, ShadowQuality::Normal, ShadowQuality::Scientific] {
            let map = calculate_instant_shadow(&dsm, &heights, &bounds, &sun(az, el), 1_000, 50_000, quality);
            assert!(map.all_within(0, 0));
        }
    }
}
