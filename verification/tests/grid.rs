use display::error::DisplayError;
use display::matrix::Matrix;

#[test]
fn new_grid_has_its_dimensions_and_default_colour() {
    let grid = Matrix::new(3, 2, 2).unwrap();
    assert_eq!(grid.width(), 3);
    assert_eq!(grid.height(), 2);
    for y in 0..2u64 {
        for x in 0..3u64 {
            assert_eq!(grid.colour_at(x, y), Some(2));
        }
    }
    assert_eq!(grid.colour_at(3, 0), None);
    assert_eq!(grid.colour_at(0, 2), None);
    assert_eq!(grid.colour_at(u64::MAX, u64::MAX), None);
}

#[test]
fn new_grid_rejects_illegal_colours() {
    assert_eq!(Matrix::new(3, 2, 0).err(), Some(DisplayError::InvalidColor));
    assert_eq!(Matrix::new(3, 2, 4).err(), Some(DisplayError::InvalidColor));
}

#[test]
fn set_colour_writes_one_cell() {
    let mut grid = Matrix::new(3, 2, 1).unwrap();
    assert_eq!(grid.set_colour(2, 1, 3), Ok(()));
    for y in 0..2u64 {
        for x in 0..3u64 {
            let expected = if (x, y) == (2, 1) { 3 } else { 1 };
            assert_eq!(grid.colour_at(x, y), Some(expected));
        }
    }
}

#[test]
fn set_colour_tells_columns_from_rows() {
    let mut grid = Matrix::new(3, 2, 1).unwrap();
    assert_eq!(grid.set_colour(2, 0, 2), Ok(()));
    assert_eq!(grid.set_colour(0, 2, 2), Err(DisplayError::CursorOutOfBounds));
    assert_eq!(grid.colour_at(2, 0), Some(2));
    assert_eq!(grid.colour_at(0, 1), Some(1));
}

#[test]
fn set_colour_rejects_bad_input_and_keeps_the_grid() {
    let mut grid = Matrix::new(3, 2, 1).unwrap();
    assert_eq!(grid.set_colour(3, 0, 2), Err(DisplayError::CursorOutOfBounds));
    assert_eq!(grid.set_colour(0, 2, 2), Err(DisplayError::CursorOutOfBounds));
    assert_eq!(grid.set_colour(1 << 32, 0, 2), Err(DisplayError::CursorOutOfBounds));
    assert_eq!(grid.set_colour(0, 0, 0), Err(DisplayError::InvalidColor));
    assert_eq!(grid.set_colour(0, 0, 4), Err(DisplayError::InvalidColor));
    assert_eq!(grid.set_colour(9, 9, 4), Err(DisplayError::InvalidColor));
    assert_eq!(grid, Matrix::new(3, 2, 1).unwrap());
}

#[test]
fn set_colour_twice_equals_once() {
    let mut once = Matrix::new(4, 4, 1).unwrap();
    once.set_colour(1, 2, 3).unwrap();
    let mut twice = Matrix::new(4, 4, 1).unwrap();
    twice.set_colour(1, 2, 3).unwrap();
    twice.set_colour(1, 2, 3).unwrap();
    assert_eq!(once, twice);
}

#[test]
fn grids_are_equal_when_dimensions_and_cells_agree() {
    let mut a = Matrix::new(2, 3, 1).unwrap();
    let mut b = Matrix::new(2, 3, 1).unwrap();
    assert!(a == b);
    a.set_colour(1, 2, 2).unwrap();
    assert!(a != b);
    b.set_colour(1, 2, 2).unwrap();
    assert!(a == b);
    b.set_colour(1, 2, 3).unwrap();
    assert!(a != b);
}

#[test]
fn grids_of_other_dimensions_or_colours_differ() {
    assert!(Matrix::new(2, 3, 1).unwrap() != Matrix::new(3, 2, 1).unwrap());
    assert!(Matrix::new(2, 3, 1).unwrap() != Matrix::new(2, 4, 1).unwrap());
    assert!(Matrix::new(2, 3, 1).unwrap() != Matrix::new(2, 3, 2).unwrap());
    assert!(Matrix::new(0, 3, 1).unwrap() != Matrix::new(0, 4, 1).unwrap());
    assert!(Matrix::new(3, 0, 1).unwrap() != Matrix::new(4, 0, 1).unwrap());
    assert!(Matrix::new(0, 0, 1).unwrap() == Matrix::new(0, 0, 2).unwrap());
}

#[test]
fn render_gives_one_line_per_row() {
    let mut grid = Matrix::new(4, 3, 1).unwrap();
    grid.set_colour(2, 1, 3).unwrap();
    grid.set_colour(0, 2, 2).unwrap();
    assert_eq!(grid.render(), "RRRR\nRRCR\nGRRR\n");
}

#[test]
fn render_of_grids_without_cells() {
    assert_eq!(Matrix::new(0, 0, 1).unwrap().render(), "");
    assert_eq!(Matrix::new(3, 0, 1).unwrap().render(), "");
    assert_eq!(Matrix::new(0, 2, 1).unwrap().render(), "\n\n");
}

#[test]
fn render_places_each_cell_by_row_and_column() {
    let (width, height) = (5usize, 3usize);
    let mut grid = Matrix::new(width as u32, height as u32, 2).unwrap();
    grid.set_colour(4, 0, 1).unwrap();
    grid.set_colour(1, 2, 3).unwrap();
    let text: Vec<char> = grid.render().chars().collect();
    assert_eq!(text.len(), height * (width + 1));
    for y in 0..height {
        for x in 0..width {
            let expected = match grid.colour_at(x as u64, y as u64) {
                Some(1) => 'R',
                Some(2) => 'G',
                Some(3) => 'C',
                other => panic!("unexpected cell {:?}", other),
            };
            assert_eq!(text[y * (width + 1) + x], expected);
        }
        assert_eq!(text[y * (width + 1) + width], '\n');
    }
}
