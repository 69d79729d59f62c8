use shadow_calculator::grid::Grid;
use shadow_calculator::kernel::{calculate_cell_shadow, calculate_subpixel_shadow, SunRay, UNIT};

fn sun(azimuth: f64, elevation: f64) -> SunRay {
    let az = azimuth.to_radians();
    let el = elevation.to_radians();
    SunRay {
        elevation: (elevation * 1e6).round() as i64,
        dx: (az.sin() * el.cos() * 1e6).round() as i32,
        dy: (az.cos() * el.cos() * 1e6).round() as i32,
        dz: (el.sin() * 1e6).round() as i32,
        shadow_x: (-az.sin() * 1e6).round() as i32,
        shadow_y: (az.cos() * 1e6).round() as i32,
        tan_elevation: (el.tan() * 1e6).round() as i64,
    }
}

fn pillar() -> Grid {
    let mut g = Grid::filled(100, 100, 0).unwrap();
    assert!(g.put(50, 50, 20_000));
    g
}

#[test]
fn pillar_shadows_the_cells_away_from_the_sun() {
    let g = pillar();
    let east = sun(90.0, 30.0);
    assert_eq!(east.dx, 866_025);
    assert_eq!(east.dy, 0);
    assert_eq!(east.dz, 500_000);
    for col in 25..50 {
        assert_eq!(calculate_cell_shadow(&g, 50, col, &east, 1_000, 100_000), 64, "col {}", col);
    }
    for col in 51..100 {
        assert_eq!(calculate_cell_shadow(&g, 50, col, &east, 1_000, 100_000), 0, "col {}", col);
    }
    for col in 0..10 {
        assert_eq!(calculate_cell_shadow(&g, 50, col, &east, 1_000, 100_000), 0, "col {}", col);
    }
    assert_eq!(calculate_cell_shadow(&g, 50, 50, &east, 1_000, 100_000), 0);
}

#[test]
fn pillar_leaves_the_other_rows_lit() {
    let g = pillar();
    let east = sun(90.0, 30.0);
    for row in [0usize, 10, 48, 49, 51, 52, 99] {
        for col in 0..100 {
            assert_eq!(
                calculate_cell_shadow(&g, row, col, &east, 1_000, 100_000),
                0,
                "cell {} {}",
                row,
                col
            );
        }
    }
}

#[test]
fn pillar_under_an_overhead_sun_shadows_nothing() {
    let g = pillar();
    let overhead = sun(180.0, 90.0);
    assert_eq!(overhead.dz, 1_000_000);
    for row in 45..56 {
        for col in 45..56 {
            assert_eq!(calculate_cell_shadow(&g, row, col, &overhead, 1_000, 100_000), 0);
        }
    }
}

#[test]
fn shadow_ends_where_the_buffer_ends() {
    let g = pillar();
    let east = sun(90.0, 30.0);
    assert_eq!(calculate_cell_shadow(&g, 50, 30, &east, 1_000, 100_000), 64);
    assert_eq!(calculate_cell_shadow(&g, 50, 30, &east, 1_000, 5_000), 0);
    assert_eq!(calculate_cell_shadow(&g, 50, 48, &east, 1_000, 5_000), 64);
    assert_eq!(calculate_cell_shadow(&g, 50, 48, &east, 1_000, 0), 0);
}

#[test]
fn height_gained_per_step_grows_with_the_resolution() {
    let g = pillar();
    let east = sun(90.0, 30.0);
    assert_eq!(calculate_cell_shadow(&g, 50, 40, &east, 1_000, 100_000), 64);
    assert_eq!(calculate_cell_shadow(&g, 50, 40, &east, 10_000, 1_000_000), 0);
}

#[test]
fn sun_in_the_north_casts_shadows_down_the_grid() {
    let g = pillar();
    let north = sun(0.0, 30.0);
    assert_eq!(calculate_cell_shadow(&g, 60, 50, &north, 1_000, 100_000), 64);
    assert_eq!(calculate_cell_shadow(&g, 40, 50, &north, 1_000, 100_000), 0);
}

#[test]
fn flat_surface_is_lit() {
    let g = Grid::filled(30, 30, 12_345).unwrap();
    for (az, el) in [(90.0, 5.0), (135.0, 30.0), (180.0, 60.0), (270.0, 1.0), (0.0, 89.0)] {
        let s = sun(az, el);
        for row in [0usize, 1, 15, 28, 29] {
            for col in [0usize, 1, 15, 28, 29] {
                assert_eq!(calculate_cell_shadow(&g, row, col, &s, 1_000, 100_000), 0);
                assert_eq!(
                    calculate_subpixel_shadow(
                        &g,
                        (row as i128) * (UNIT as i128) + 1_500_000,
                        (col as i128) * (UNIT as i128) + 500_000,
                        &s,
                        1_000,
                        100_000
                    ),
                    0
                );
            }
        }
    }
}

#[test]
fn raising_an_obstacle_never_lights_another_cell() {
    let east = sun(90.0, 20.0);
    let mut lower = Grid::filled(40, 40, 0).unwrap();
    lower.put(20, 30, 3_000);
    let mut higher = Grid::filled(40, 40, 0).unwrap();
    higher.put(20, 30, 9_000);
    higher.put(20, 25, 1_000);
    let mut gained = 0;
    for row in 0..40 {
        for col in 0..40 {
            if (row, col) == (20, 30) || (row, col) == (20, 25) {
                continue;
            }
            let before = calculate_cell_shadow(&lower, row, col, &east, 1_000, 100_000);
            let after = calculate_cell_shadow(&higher, row, col, &east, 1_000, 100_000);
            assert!(before <= after, "cell {} {}", row, col);
            if before < after {
                gained += 1;
            }
        }
    }
    assert!(gained > 0);
}

#[test]
fn raising_a_cell_itself_can_bring_it_into_the_light() {
    let east = sun(90.0, 20.0);
    let mut lower = Grid::filled(10, 20, 0).unwrap();
    lower.put(5, 10, 5_000);
    assert_eq!(calculate_cell_shadow(&lower, 5, 8, &east, 1_000, 100_000), 64);
    let mut higher = Grid::filled(10, 20, 0).unwrap();
    higher.put(5, 10, 5_000);
    higher.put(5, 8, 50_000);
    assert_eq!(calculate_cell_shadow(&higher, 5, 8, &east, 1_000, 100_000), 0);
}

#[test]
fn subpixel_ray_starts_from_the_interpolated_surface() {
    let mut g = Grid::filled(10, 20, 0).unwrap();
    g.put(5, 10, 10_000);
    let east = sun(90.0, 20.0);
    let unit = UNIT as i128;
    assert_eq!(
        calculate_subpixel_shadow(&g, 5 * unit, 7 * unit + unit / 2, &east, 1_000, 100_000),
        64
    );
    assert_eq!(
        calculate_subpixel_shadow(&g, 5 * unit, 11 * unit + unit / 2, &east, 1_000, 100_000),
        0
    );
    assert_eq!(
        calculate_subpixel_shadow(&g, 7 * unit, 7 * unit + unit / 2, &east, 1_000, 100_000),
        0
    );
}
