use edit_distance::matrix::Matrix;

#[test]
fn test_get_index() {
    let matrix: Matrix = Matrix::new(3, 3);

    assert_eq!(matrix.get_index((0, 0)), Some(0));
    assert_eq!(matrix.get_index((0, 1)), Some(1));
    assert_eq!(matrix.get_index((0, 2)), Some(2));
    assert_eq!(matrix.get_index((1, 0)), Some(3));
    assert_eq!(matrix.get_index((1, 1)), Some(4));
    assert_eq!(matrix.get_index((1, 2)), Some(5));
    assert_eq!(matrix.get_index((2, 0)), Some(6));
    assert_eq!(matrix.get_index((2, 1)), Some(7));
    assert_eq!(matrix.get_index((2, 2)), Some(8));
}

#[test]
fn test_get() {
    let matrix = Matrix::new(3, 3);
    // Default value should be 0
    assert_eq!(matrix.get((1, 1)), Some(0).as_ref());
}

#[test]
fn test_get_mut() {
    let mut matrix = Matrix::new(3, 3);
    if let Some(reference) = matrix.get_mut((1, 0)) {
        *reference = 112;
    }

    assert_eq!(matrix.get((1, 0)), Some(112).as_ref());
}

#[test]
fn test_index() {
    let matrix: Matrix = Matrix::new(3, 3);
    // Default value should be 0
    assert_eq!(matrix.at((1, 1)), 0);
}

#[test]
fn test_index_mut() {
    let mut matrix: Matrix = Matrix::new(3, 3);
    matrix.set((1, 1), 112);

    assert_eq!(matrix.at((1, 1)), 112);
}

#[test]
fn grid_reports_its_dimensions() {
    let matrix = Matrix::new(4, 2);
    assert_eq!(matrix.width(), 4);
    assert_eq!(matrix.height(), 2);
}

#[test]
fn grid_fresh_cells_are_all_zero() {
    let matrix = Matrix::new(4, 2);
    for row in 0..2 {
        for col in 0..4 {
            assert_eq!(matrix.get((row, col)), Some(&0));
        }
    }
}

#[test]
fn grid_rejects_out_of_range_selectors() {
    let mut matrix = Matrix::new(3, 2);
    assert_eq!(matrix.get((2, 0)), None);
    assert_eq!(matrix.get((0, 3)), None);
    assert_eq!(matrix.get((2, 3)), None);
    assert_eq!(matrix.get_index((0, 5)), None);
    assert_eq!(matrix.get_index((usize::MAX, usize::MAX)), None);
    assert!(matrix.get_mut((2, 0)).is_none());
    assert!(matrix.get_mut((0, 3)).is_none());
}

#[test]
fn grid_with_zero_dimension_has_no_cells() {
    let mut empty_width = Matrix::new(0, 5);
    assert_eq!(empty_width.get((0, 0)), None);
    assert!(empty_width.get_mut((0, 0)).is_none());

    let zero_by_zero = Matrix::new(0, 0);
    assert_eq!(zero_by_zero.get((0, 0)), None);
    assert_eq!(zero_by_zero.get_index((0, 0)), None);
}

#[test]
fn grid_writes_do_not_touch_other_cells() {
    let mut matrix = Matrix::new(3, 3);
    matrix.set((1, 1), 7);
    for row in 0..3 {
        for col in 0..3 {
            let expected = if (row, col) == (1, 1) { 7 } else { 0 };
            assert_eq!(matrix.at((row, col)), expected);
        }
    }
}
