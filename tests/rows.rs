use grixy::buf::GridBuf;
use grixy::geom::{Pos, Rect};
use grixy::grid::{GridRead, GridReadUnchecked, GridWrite, GridWriteUnchecked};
use grixy::layout::RowMajor;

fn grid_3x3() -> GridBuf<u8, RowMajor> {
    GridBuf::with_buffer(vec![1, 2, 3, 4, 5, 6, 7, 8, 9], 3, 3).unwrap()
}

fn zeros() -> GridBuf<u8, RowMajor> {
    GridBuf::new(3, 3)
}

fn row(grid: &GridBuf<u8, RowMajor>, y: usize) -> Vec<u8> {
    grid.row_iter(Pos::new(0, y), 3)
}

#[test]
fn read_test_get_ok() {
    let grid = grid_3x3();
    assert_eq!(grid.get(Pos::new(1, 1)), Some(5));
}

#[test]
fn read_test_get_out_of_bounds_x() {
    let grid = grid_3x3();
    assert_eq!(grid.get(Pos::new(3, 1)), None);
}

#[test]
fn read_test_get_out_of_bounds_y() {
    let grid = grid_3x3();
    assert_eq!(grid.get(Pos::new(1, 3)), None);
}

#[test]
fn test_row_iter() {
    let grid = grid_3x3();
    assert_eq!(grid.row_iter(Pos::new(0, 1), 3), vec![4, 5, 6]);
}

#[test]
fn test_col_iter() {
    let grid = grid_3x3();
    assert_eq!(grid.col_iter(Pos::new(1, 0), 3), vec![2, 5, 8]);
}

#[test]
fn test_rect_iter() {
    let grid = grid_3x3();
    let bounds = Rect::from_ltrb(0, 0, 2, 2).unwrap();
    assert_eq!(grid.iter_rect(bounds), vec![1, 2, 4, 5]);
}

#[test]
fn test_row_iter_unchecked() {
    let grid = grid_3x3();
    assert_eq!(grid.row_iter_unchecked(Pos::new(0, 0), 3), vec![1, 2, 3]);
}

#[test]
fn test_col_iter_unchecked() {
    let grid = grid_3x3();
    assert_eq!(grid.col_iter_unchecked(Pos::new(2, 0), 3), vec![3, 6, 9]);
}

#[test]
fn test_rect_iter_unchecked() {
    let grid = grid_3x3();
    let bounds = Rect::from_ltrb(1, 1, 3, 3).unwrap();
    assert_eq!(grid.iter_rect_unchecked(bounds), vec![5, 6, 8, 9]);
}

#[test]
fn row_and_col_iter_clip_at_edges() {
    let grid = grid_3x3();
    assert_eq!(grid.row_iter(Pos::new(1, 2), 5), vec![8, 9]);
    assert_eq!(grid.col_iter(Pos::new(0, 1), 5), vec![4, 7]);
    assert!(grid.row_iter(Pos::new(0, 3), 2).is_empty());
    assert!(grid.col_iter(Pos::new(3, 0), 2).is_empty());
}

#[test]
fn read_unchecked_test_get_ok() {
    let grid = grid_3x3();
    assert_eq!(grid.get(Pos::new(1, 1)), Some(5));
}

#[test]
fn read_unchecked_test_get_out_of_bounds_x() {
    let grid = grid_3x3();
    assert_eq!(grid.get(Pos::new(3, 1)), None);
}

#[test]
fn read_unchecked_test_get_out_of_bounds_y() {
    let grid = grid_3x3();
    assert_eq!(grid.get(Pos::new(1, 3)), None);
}

#[test]
fn read_unchecked_test_get_unchecked_ok() {
    let grid = grid_3x3();
    assert_eq!(grid.get_unchecked(Pos::new(2, 2)), 9);
}

#[test]
fn rect_iter_completely_in_bounds_unchecked_impl() {
    let grid = grid_3x3();
    assert_eq!(grid.iter_rect(Rect::from_ltwh(1, 1, 2, 2)), vec![5, 6, 8, 9]);
}

#[test]
fn rect_iter_partially_out_of_bounds_unchecked_impl() {
    let grid = grid_3x3();
    assert_eq!(
        grid.iter_rect(Rect::from_ltwh(0, 0, 4, 4)),
        vec![1, 2, 3, 4, 5, 6, 7, 8, 9]
    );
}

#[test]
fn rect_iter_completely_out_of_bounds_unchecked_impl() {
    let grid = grid_3x3();
    assert!(grid.iter_rect(Rect::from_ltwh(3, 3, 2, 2)).is_empty());
}

#[test]
fn test_set_ok() {
    let mut grid = zeros();
    grid.set(Pos { x: 1, y: 1 }, 42).unwrap();
    assert_eq!(grid.get(Pos::new(1, 1)), Some(42));
}

#[test]
fn test_set_out_of_bounds_x() {
    let mut grid = zeros();
    assert!(grid.set(Pos { x: 3, y: 1 }, 42).is_err());
}

#[test]
fn test_set_out_of_bounds_y() {
    let mut grid = zeros();
    assert!(grid.set(Pos { x: 1, y: 3 }, 42).is_err());
}

#[test]
fn test_set_row() {
    let mut grid = zeros();
    grid.set_row(Pos { x: 0, y: 1 }, vec![1, 2, 3]);
    assert_eq!(row(&grid, 1), vec![1, 2, 3]);
}

#[test]
fn test_set_col() {
    let mut grid = zeros();
    grid.set_col(Pos { x: 1, y: 0 }, vec![4, 5, 6]);
    assert_eq!(grid.get(Pos::new(1, 0)), Some(4));
}

#[test]
fn test_set_rect() {
    let mut grid = zeros();
    let bounds = Rect::from_ltrb(0, 0, 3, 3).unwrap();
    grid.fill_rect_iter(bounds, vec![7, 8, 9]);
    assert_eq!(grid.into_inner().0, vec![7, 8, 9, 0, 0, 0, 0, 0, 0]);
}

#[test]
fn test_set_unchecked_in_bounds() {
    let mut grid = zeros();
    grid.set_unchecked(Pos { x: 2, y: 2 }, 99);
    assert_eq!(grid.get(Pos::new(2, 2)), Some(99));
}

#[test]
fn test_set_row_unchecked_in_bounds() {
    let mut grid = zeros();
    grid.set_row_unchecked(Pos { x: 0, y: 0 }, vec![10, 20, 30]);
    assert_eq!(row(&grid, 0), vec![10, 20, 30]);
}

#[test]
fn test_set_col_unchecked_in_bounds() {
    let mut grid = zeros();
    grid.set_col_unchecked(Pos { x: 2, y: 0 }, vec![11, 22, 33]);
    assert_eq!(grid.get(Pos::new(2, 0)), Some(11));
    assert_eq!(grid.get(Pos::new(2, 1)), Some(22));
    assert_eq!(grid.get(Pos::new(2, 2)), Some(33));
}

#[test]
fn test_set_rect_unchecked_in_bounds() {
    let mut grid = zeros();
    let bounds = Rect::from_ltrb(0, 0, 3, 1).unwrap();
    grid.fill_rect_iter_unchecked(bounds, vec![5, 6, 7]);
    assert_eq!(row(&grid, 0), vec![5, 6, 7]);
}

#[test]
fn set_row_stops_at_edge() {
    let mut grid = zeros();
    grid.set_row(Pos::new(1, 2), vec![1, 2, 3, 4]);
    grid.set_col(Pos::new(0, 1), vec![5, 6, 7]);
    grid.set_row(Pos::new(0, 3), vec![9]);
    assert_eq!(grid.into_inner().0, vec![0, 0, 0, 5, 0, 0, 6, 1, 2]);
}

#[test]
fn impl_unsafe_set_ok() {
    let mut grid = zeros();
    grid.set(Pos { x: 1, y: 1 }, 42).unwrap();
    assert_eq!(grid.get(Pos::new(1, 1)), Some(42));
}

#[test]
fn impl_unsafe_set_out_of_bounds_x() {
    let mut grid = zeros();
    assert!(grid.set(Pos { x: 3, y: 1 }, 42).is_err());
    assert_eq!(grid.into_inner().0, vec![0; 9]);
}

#[test]
fn impl_unsafe_set_out_of_bounds_y() {
    let mut grid = zeros();
    assert!(grid.set(Pos { x: 1, y: 3 }, 42).is_err());
    assert_eq!(grid.into_inner().0, vec![0; 9]);
}

#[test]
fn impl_unsafe_set_unchecked_in_bounds() {
    let mut grid = zeros();
    grid.set_unchecked(Pos { x: 2, y: 2 }, 99);
    assert_eq!(grid.get(Pos::new(2, 2)), Some(99));
}

#[test]
fn impl_unsafe_fill_rect_complete() {
    let mut grid = zeros();
    grid.fill_rect(Rect::from_ltrb(0, 0, 3, 3).unwrap(), |_| 42);
    assert_eq!(grid.into_inner().0, vec![42; 9]);
}

#[test]
fn impl_unsafe_fill_rect_iter_complete() {
    let mut grid = zeros();
    grid.fill_rect_iter(Rect::from_ltrb(0, 0, 3, 3).unwrap(), vec![42; 9]);
    assert_eq!(grid.into_inner().0, vec![42; 9]);
}
