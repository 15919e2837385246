use grixy::buf::GridBuf;
use grixy::geom::{GridError, Pos, Rect, Size};
use grixy::grid::{GridIter, GridRead, GridReadUnchecked, GridWrite, GridWriteUnchecked, TrustedSizeGrid};
use grixy::layout::{ColumnMajor, RowMajor};

fn grid_3x3() -> GridBuf<i32, RowMajor> {
    GridBuf::with_buffer(vec![1, 2, 3, 4, 5, 6, 7, 8, 9], 3, 3).unwrap()
}

fn cells_3x3(grid: GridBuf<u8, RowMajor>) -> Vec<u8> {
    grid.into_inner().0
}

#[test]
fn impl_bounded_grid() {
    let grid = GridBuf::<u8, _>::new(5, 4);
    assert_eq!(grid.width(), 5);
    assert_eq!(grid.height(), 4);
}

#[test]
fn impl_get_unchecked() {
    let grid = GridBuf::new_filled(5, 4, 42);
    let pos = Pos::new(2, 3);
    assert_eq!(grid.get_unchecked(pos), 42);
}

#[test]
fn impl_set_unchecked() {
    let mut grid = GridBuf::<u8, _>::new(5, 4);
    let pos = Pos::new(2, 3);
    grid.set_unchecked(pos, 99);
    assert_eq!(grid.get_unchecked(pos), 99);
}

#[test]
fn with_buffer_col_major() {
    let buffer = GridBuf::<_, ColumnMajor>::from_buffer(vec![1, 2, 3, 4, 5, 6, 7, 8, 9], 3);
    assert_eq!(buffer.width(), 3);
    assert_eq!(buffer.height(), 3);
    assert_eq!(buffer.get(Pos::new(0, 0)), Some(1));
    assert_eq!(buffer.get(Pos::new(2, 2)), Some(9));
}

#[test]
fn rect_iter_unchecked() {
    let buffer = GridBuf::<_, RowMajor>::from_buffer(vec![1, 2, 3, 4, 5, 6, 7, 8, 9], 3);
    assert_eq!(buffer.iter_rect_unchecked(Rect::from_ltwh(1, 1, 2, 1)), vec![5, 6]);
    assert_eq!(
        buffer.iter_rect_unchecked(Rect::from_ltwh(0, 0, 3, 3)),
        vec![1, 2, 3, 4, 5, 6, 7, 8, 9]
    );
}

#[test]
fn fill_rect_iter_unchecked() {
    let mut grid = GridBuf::<i32, RowMajor>::new(3, 3);
    grid.fill_rect_iter_unchecked(Rect::from_ltwh(0, 0, 2, 2), vec![1, 2, 3, 4]);
    assert_eq!(grid.as_ref(), &[1, 2, 0, 3, 4, 0, 0, 0, 0]);
}

#[test]
fn fill_rect_solid_unchecked() {
    let mut grid = GridBuf::<i32, RowMajor>::new(3, 3);
    grid.fill_rect_solid_unchecked(Rect::from_ltwh(0, 0, 2, 2), 42);
    assert_eq!(grid.as_ref(), &[42, 42, 0, 42, 42, 0, 0, 0, 0]);
}

#[test]
fn new_filled_with_layout() {
    let grid = GridBuf::<_, RowMajor>::new_filled_with_layout(3, 2, 42);
    assert_eq!(grid.get(Pos::new(0, 0)), Some(42));
    assert_eq!(grid.get(Pos::new(2, 1)), Some(42));
    assert_eq!(grid.get(Pos::new(3, 1)), None);
}

#[test]
fn vec_new() {
    let grid = GridBuf::<u8, RowMajor>::new(3, 2);
    assert_eq!(grid.width(), 3);
    assert_eq!(grid.height(), 2);
    assert_eq!(grid.get(Pos::new(2, 1)), Some(0));
}

#[test]
fn vec_new_filled() {
    let grid = GridBuf::new_filled(3, 2, 7u8);
    assert_eq!(grid.iter(), vec![7; 6]);
}

#[test]
fn vec_out_of_bounds() {
    let grid = GridBuf::new_filled(3, 2, 7u8);
    assert_eq!(grid.get(Pos::new(3, 0)), None);
    assert_eq!(grid.get(Pos::new(0, 2)), None);
}

#[test]
fn vec_into_inner() {
    let grid = GridBuf::<_, RowMajor>::from_buffer(vec![1, 2, 3, 4, 5, 6], 3);
    let (buffer, width, height) = grid.into_inner();
    assert_eq!(buffer, vec![1, 2, 3, 4, 5, 6]);
    assert_eq!(width, 3);
    assert_eq!(height, 2);
}

#[test]
fn vec_iter() {
    let grid = GridBuf::<_, RowMajor>::from_buffer(vec![1, 2, 3, 4, 5, 6], 3);
    assert_eq!(grid.iter(), vec![1, 2, 3, 4, 5, 6]);
}

#[test]
fn col_major_iter_order() {
    let grid = GridBuf::<_, ColumnMajor>::from_buffer(vec![1, 2, 3, 4, 5, 6], 3);
    assert_eq!(grid.height(), 2);
    assert_eq!(grid.get(Pos::new(1, 0)), Some(3));
    assert_eq!(grid.get(Pos::new(0, 1)), Some(2));
    assert_eq!(grid.iter(), vec![1, 2, 3, 4, 5, 6]);
    assert_eq!(grid.iter_rect(Rect::from_ltwh(1, 0, 2, 2)), vec![3, 4, 5, 6]);
    assert_eq!(grid.iter_rect(Rect::from_ltwh(0, 1, 3, 1)), vec![2, 4, 6]);
}

#[test]
fn with_buffer_size_mismatch() {
    let result = GridBuf::<i32, RowMajor>::with_buffer(vec![1, 2, 3], 2, 2);
    assert_eq!(
        result.err(),
        Some(GridError::SizeMismatch { len: 3, width: 2, height: 2 })
    );
    let result = GridBuf::<i32, RowMajor>::with_buffer(vec![1, 2, 3, 4, 5], 2, 2);
    assert!(result.is_err());
    let result = GridBuf::<i32, RowMajor>::with_buffer(vec![], usize::MAX, 2);
    assert!(result.is_err());
}

#[test]
fn with_buffer_unchecked_matches() {
    let grid = GridBuf::<i32, RowMajor>::with_buffer_unchecked(vec![1, 2, 3, 4], 2, 2);
    assert_eq!(grid.size(), Size::new(2, 2));
    assert_eq!(grid.get(Pos::new(1, 1)), Some(4));
}

#[test]
fn get_out_of_bounds() {
    let grid = grid_3x3();
    assert_eq!(grid.get(Pos::new(3, 0)), None);
    assert_eq!(grid.get(Pos::new(0, 3)), None);
    assert_eq!(grid.get(Pos::new(2, 2)), Some(9));
}

#[test]
fn read_twice_gives_same_value() {
    let grid = grid_3x3();
    let first = grid.get(Pos::new(1, 2));
    let second = grid.get(Pos::new(1, 2));
    assert_eq!(first, Some(8));
    assert_eq!(first, second);
}

#[test]
fn rect_iter_completely_in_bounds() {
    let grid = grid_3x3();
    assert_eq!(grid.iter_rect(Rect::from_ltwh(1, 1, 2, 2)), vec![5, 6, 8, 9]);
}

#[test]
fn rect_iter_partially_out_of_bounds() {
    let grid = grid_3x3();
    assert_eq!(
        grid.iter_rect(Rect::from_ltwh(0, 0, 4, 4)),
        vec![1, 2, 3, 4, 5, 6, 7, 8, 9]
    );
}

#[test]
fn rect_iter_completely_out_of_bounds() {
    let grid = grid_3x3();
    assert!(grid.iter_rect(Rect::from_ltwh(3, 3, 2, 2)).is_empty());
}

#[test]
fn rect_iter_full_rows_and_single_row() {
    let grid = grid_3x3();
    assert_eq!(grid.iter_rect(Rect::from_ltwh(0, 1, 3, 2)), vec![4, 5, 6, 7, 8, 9]);
    assert_eq!(grid.iter_rect(Rect::from_ltwh(1, 2, 2, 1)), vec![8, 9]);
    assert_eq!(grid.iter_rect(Rect::from_ltwh(1, 0, 1, 3)), vec![2, 5, 8]);
    assert!(grid.iter_rect(Rect::from_ltwh(1, 1, 0, 2)).is_empty());
}

#[test]
fn read_test_get_unchecked_ok() {
    let grid = grid_3x3();
    assert_eq!(grid.get_unchecked(Pos::new(2, 2)), 9);
}

#[test]
fn size() {
    let grid = GridBuf::<u8, RowMajor>::new(10, 5);
    assert_eq!(grid.size(), Size { width: 10, height: 5 });
}

#[test]
fn contains_true() {
    let grid = GridBuf::<u8, RowMajor>::new(10, 5);
    assert!(grid.contains(Pos::new(5, 3)));
}

#[test]
fn contains_false_x() {
    let grid = GridBuf::<u8, RowMajor>::new(10, 5);
    assert!(!grid.contains(Pos::new(10, 3)));
}

#[test]
fn contains_false_y() {
    let grid = GridBuf::<u8, RowMajor>::new(10, 5);
    assert!(!grid.contains(Pos::new(5, 5)));
}

#[test]
fn impl_checked_set_ok() {
    let mut grid = GridBuf::<u8, RowMajor>::new(3, 3);
    grid.set(Pos { x: 1, y: 1 }, 42).unwrap();
    assert_eq!(grid.get(Pos::new(1, 1)), Some(42));
}

#[test]
fn impl_checked_set_out_of_bounds_x() {
    let mut grid = GridBuf::<u8, RowMajor>::new(3, 3);
    let pos = Pos { x: 3, y: 1 };
    assert_eq!(grid.set(pos, 42), Err(GridError::OutOfBounds { pos }));
    assert_eq!(cells_3x3(grid), vec![0; 9]);
}

#[test]
fn impl_checked_set_out_of_bounds_y() {
    let mut grid = GridBuf::<u8, RowMajor>::new(3, 3);
    let pos = Pos { x: 1, y: 3 };
    grid.set(pos, 42).unwrap_err();
    assert_eq!(cells_3x3(grid), vec![0; 9]);
}

#[test]
fn impl_checked_fill_rect() {
    let mut grid = GridBuf::<u8, RowMajor>::new(3, 3);
    grid.fill_rect(Rect::from_ltrb(0, 0, 3, 3).unwrap(), |_| 42);
    assert_eq!(cells_3x3(grid), vec![42; 9]);
}

#[test]
fn impl_checked_fill_rect_iter() {
    let mut grid = GridBuf::<u8, RowMajor>::new(3, 3);
    grid.fill_rect_iter(Rect::from_ltrb(0, 0, 3, 3).unwrap(), vec![42; 9]);
    assert_eq!(cells_3x3(grid), vec![42; 9]);
}

#[test]
fn impl_checked_fill_rect_solid() {
    let mut grid = GridBuf::<u8, RowMajor>::new(3, 3);
    grid.fill_rect_solid(Rect::from_ltrb(0, 0, 3, 3).unwrap(), 42);
    assert_eq!(cells_3x3(grid), vec![42; 9]);
}

#[test]
fn impl_unsafe_fill_rect_partial_in_bounds() {
    let mut grid = GridBuf::<u8, RowMajor>::new(3, 3);
    let bounds = Rect::from_ltrb(0, 0, 2, 2).unwrap();
    grid.fill_rect(bounds, |pos| if pos.x == 1 && pos.y == 1 { 99 } else { 42 });
    assert_eq!(cells_3x3(grid), vec![42, 42, 0, 42, 99, 0, 0, 0, 0]);
}

#[test]
fn impl_unsafe_fill_rect_partial_out_of_bounds() {
    let mut grid = GridBuf::<u8, RowMajor>::new(3, 3);
    let bounds = Rect::from_ltrb(1, 1, 4, 4).unwrap();
    grid.fill_rect(bounds, |_| 42);
    assert_eq!(cells_3x3(grid), vec![0, 0, 0, 0, 42, 42, 0, 42, 42]);
}

#[test]
fn impl_unsafe_fill_rect_iter_partial_in_bounds() {
    let mut grid = GridBuf::<u8, RowMajor>::new(3, 3);
    let bounds = Rect::from_ltrb(0, 0, 2, 2).unwrap();
    grid.fill_rect_iter(bounds, vec![42, 99]);
    assert_eq!(cells_3x3(grid), vec![42, 99, 0, 0, 0, 0, 0, 0, 0]);
}

#[test]
fn impl_unsafe_fill_rect_iter_partial_in_bounds_with_extra() {
    let mut grid = GridBuf::<u8, RowMajor>::new(3, 3);
    let bounds = Rect::from_ltrb(0, 0, 2, 1).unwrap();
    grid.fill_rect_iter(bounds, vec![42, 99, 100]);
    assert_eq!(cells_3x3(grid), vec![42, 99, 0, 0, 0, 0, 0, 0, 0]);
}

#[test]
fn impl_unsafe_fill_rect_iter_partial_out_of_bounds() {
    let mut grid = GridBuf::<u8, RowMajor>::new(3, 3);
    let bounds = Rect::from_ltrb(1, 1, 4, 4).unwrap();
    grid.fill_rect_iter(bounds, vec![42, 99, 100]);
    assert_eq!(cells_3x3(grid), vec![0, 0, 0, 0, 42, 99, 0, 100, 0]);
}

#[test]
fn impl_unsafe_fill_rect_iter_out_of_bounds() {
    let mut grid = GridBuf::<u8, RowMajor>::new(3, 3);
    let bounds = Rect::from_ltrb(3, 3, 4, 4).unwrap();
    grid.fill_rect_iter(bounds, vec![42, 99, 100]);
    assert_eq!(cells_3x3(grid), vec![0; 9]);
}

#[test]
fn impl_unsafe_fill_rect_solid() {
    let mut grid = GridBuf::<u8, RowMajor>::new(3, 3);
    grid.fill_rect_solid_unchecked(Rect::from_ltrb(0, 0, 3, 3).unwrap(), 42);
    assert_eq!(cells_3x3(grid), vec![42; 9]);
}

#[test]
fn from_ltrb_rejects_inverted_edges() {
    assert_eq!(Rect::from_ltrb(2, 0, 1, 1), None);
    assert_eq!(Rect::from_ltrb(0, 0, 2, 3), Some(Rect::from_ltwh(0, 0, 2, 3)));
}

#[test]
fn iter_rect_3x3_row_major() {
    let grid = grid_3x3();
    assert_eq!(grid.iter_rect(Rect::from_ltwh(1, 1, 2, 1)), vec![5, 6]);
    assert_eq!(
        grid.iter_rect(Rect::from_ltwh(0, 0, 3, 3)),
        vec![1, 2, 3, 4, 5, 6, 7, 8, 9]
    );
}

#[test]
fn try_from_buffer_never_truncates() {
    let result = GridBuf::<i32, RowMajor>::try_from_buffer(vec![1, 2, 3], 2);
    assert_eq!(result.err(), Some(GridError::SizeMismatch { len: 3, width: 2, height: 1 }));
    let result = GridBuf::<i32, RowMajor>::try_from_buffer(vec![1, 2, 3], 0);
    assert_eq!(result.err(), Some(GridError::SizeMismatch { len: 3, width: 0, height: 0 }));
    let grid = GridBuf::<i32, RowMajor>::try_from_buffer(vec![1, 2, 3, 4, 5, 6], 2).unwrap();
    assert_eq!(grid.size(), Size::new(2, 3));
    assert_eq!(grid.get(Pos::new(1, 2)), Some(6));
}

#[test]
fn new_holds_default_values() {
    let grid = GridBuf::<i32, RowMajor>::new(2, 3);
    assert_eq!(grid.iter(), vec![0; 6]);
    let flags = GridBuf::<bool, RowMajor>::new(2, 1);
    assert_eq!(flags.get(Pos::new(1, 0)), Some(false));
}
