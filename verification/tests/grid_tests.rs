use shadow_calculator::grid::Grid;

#[test]
fn filled_grid_has_shape_and_value() {
    let g = Grid::filled(3, 4, 7).unwrap();
    assert_eq!(g.nrows(), 3);
    assert_eq!(g.ncols(), 4);
    for r in 0..3 {
        for c in 0..4 {
            assert_eq!(g.get(r, c), Some(7));
        }
    }
}

#[test]
fn filled_grid_may_be_empty() {
    let g = Grid::filled(0, 5, 1).unwrap();
    assert_eq!(g.nrows(), 0);
    assert_eq!(g.ncols(), 5);
    assert_eq!(g.get(0, 0), None);
}

#[test]
fn filled_grid_refuses_overflowing_shape() {
    assert!(Grid::filled(usize::MAX, 2, 0).is_none());
    assert!(Grid::filled(usize::MAX / 2, usize::MAX / 2, 0).is_none());
}

#[test]
fn filled_grid_refuses_an_empty_shape_with_an_overlong_axis() {
    assert!(Grid::filled(0, usize::MAX, 0).is_none());
    assert!(Grid::filled(usize::MAX, 0, 0).is_none());
    assert!(Grid::filled(0, isize::MAX as usize + 1, 0).is_none());
    let widest = Grid::filled(0, isize::MAX as usize, 0).unwrap();
    assert_eq!((widest.nrows(), widest.ncols()), (0, isize::MAX as usize));
    let tallest = Grid::filled(isize::MAX as usize, 0, 7).unwrap();
    assert_eq!((tallest.nrows(), tallest.ncols()), (isize::MAX as usize, 0));
    assert_eq!(tallest.filled_like(1).nrows(), isize::MAX as usize);
}

#[test]
fn put_changes_one_cell_only() {
    let mut g = Grid::filled(2, 3, 0).unwrap();
    assert!(g.put(1, 2, 42));
    assert_eq!(g.get(1, 2), Some(42));
    assert_eq!(g.get(1, 1), Some(0));
    assert_eq!(g.get(0, 2), Some(0));
    assert_eq!(g.nrows(), 2);
    assert_eq!(g.ncols(), 3);
}

#[test]
fn put_and_get_outside_the_grid() {
    let mut g = Grid::filled(2, 3, 5).unwrap();
    assert!(!g.put(2, 0, 9));
    assert!(!g.put(0, 3, 9));
    assert_eq!(g.get(2, 0), None);
    assert_eq!(g.get(0, 3), None);
    assert!(g.all_within(5, 5));
}

#[test]
fn all_within_checks_every_cell() {
    let mut g = Grid::filled(3, 3, 10).unwrap();
    assert!(g.all_within(0, 64));
    assert!(g.put(2, 2, 65));
    assert!(!g.all_within(0, 64));
    assert!(g.all_within(10, 65));
    assert!(g.put(0, 0, -1));
    assert!(!g.all_within(0, 65));
}

#[test]
fn filled_like_copies_the_shape() {
    let g = Grid::filled(4, 2, 1).unwrap();
    let h = g.filled_like(64);
    assert_eq!(h.nrows(), 4);
    assert_eq!(h.ncols(), 2);
    assert!(h.all_within(64, 64));
}
