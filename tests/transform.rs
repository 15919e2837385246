use grixy::buf::GridBuf;
use grixy::geom::{Pos, Rect};
use grixy::grid::{GridIter, GridRead, TrustedSizeGrid};
use grixy::layout::{ColumnMajor, RowMajor};
use grixy::transform::{Blended, GridConvertExt, Mapped, Scaled, Viewed};

#[test]
fn transform_grid_scaled_size() {
    let grid = GridBuf::<u8, _>::new(10, 10);
    let scaled = grid.scale(2);
    assert_eq!(scaled.width(), 20);
    assert_eq!(scaled.height(), 20);
}

#[test]
fn transform_grid_scaled_get() {
    let grid = GridBuf::<_, RowMajor>::from_buffer(vec![1, 2, 3, 4], 2);
    let scaled = grid.scale(2);
    assert_eq!(scaled.get(Pos::new(1, 1)), Some(1));
    assert_eq!(scaled.get(Pos::new(2, 2)), Some(4));
    assert_eq!(scaled.get(Pos::new(3, 3)), Some(4));
    assert_eq!(scaled.get(Pos::new(4, 4)), None);
}

#[test]
fn transform_grid_scaled_iter_rect() {
    let grid = GridBuf::<_, RowMajor>::from_buffer(vec![1, 2, 3, 4], 2);
    let scaled = grid.scale(2);
    assert_eq!(
        scaled.iter_rect(Rect::from_ltwh(0, 0, 4, 4)),
        vec![1, 1, 2, 2, 1, 1, 2, 2, 3, 3, 4, 4, 3, 3, 4, 4]
    );
}

#[test]
fn convert_grid_scaled_size() {
    let grid = GridBuf::<u8, _>::new(10, 10);
    let scaled = Scaled::new(grid, 2);
    assert_eq!(scaled.width(), 20);
    assert_eq!(scaled.height(), 20);
}

#[test]
fn convert_grid_scaled_get() {
    let grid = GridBuf::<_, RowMajor>::from_buffer(vec![1, 2, 3, 4], 2);
    let scaled = Scaled::new(grid, 2);
    assert_eq!(scaled.get(Pos::new(1, 1)), Some(1));
    assert_eq!(scaled.get(Pos::new(2, 2)), Some(4));
    assert_eq!(scaled.get(Pos::new(3, 3)), Some(4));
    assert_eq!(scaled.get(Pos::new(4, 4)), None);
}

#[test]
fn convert_grid_scaled_iter_rect() {
    let grid = GridBuf::<_, RowMajor>::from_buffer(vec![1, 2, 3, 4], 2);
    let scaled = Scaled::new(grid, 2);
    assert_eq!(
        scaled.iter_rect(Rect::from_ltwh(0, 0, 4, 4)),
        vec![1, 1, 2, 2, 1, 1, 2, 2, 3, 3, 4, 4, 3, 3, 4, 4]
    );
}

#[test]
fn scaled_view_keeps_layout_order() {
    let grid = GridBuf::<_, ColumnMajor>::from_buffer(vec![1, 2, 3, 4, 5, 6], 3);
    let scaled = grid.scale(3);
    assert_eq!(scaled.width(), 9);
    assert_eq!(scaled.height(), 6);
    assert_eq!(scaled.get(Pos::new(8, 5)), Some(6));
    assert_eq!(scaled.iter_rect(Rect::from_ltwh(2, 2, 2, 2)), vec![1, 2, 3, 4]);
    assert_eq!(scaled.iter().len(), 54);
    let inner = scaled.into_inner();
    assert_eq!(inner.get(Pos::new(2, 1)), Some(6));
}

#[test]
fn new_generate() {
    let grid = GridBuf::<usize, RowMajor>::new_generate(3, 2, |pos: Pos| pos.x + pos.y * 3);
    assert_eq!(grid.get(Pos::new(0, 0)), Some(0));
    assert_eq!(grid.get(Pos::new(1, 1)), Some(4));
    assert_eq!(grid.get(Pos::new(2, 1)), Some(5));
}

#[test]
fn new_generate_column_major() {
    let grid = GridBuf::<usize, ColumnMajor>::new_generate(3, 2, |pos: Pos| 10 * pos.x + pos.y);
    assert_eq!(grid.into_inner().0, vec![0, 1, 10, 11, 20, 21]);
}

#[test]
fn transform_grid_mapped_size() {
    let grid = GridBuf::<u8, _>::new(10, 10);
    let mapped = Mapped::new(grid, |x: u8| x * 2);
    assert_eq!(mapped.width(), 10);
    assert_eq!(mapped.height(), 10);
}

#[test]
fn transform_grid_mapped_get() {
    let grid = GridBuf::new_filled(3, 3, 1);
    let mapped = Mapped::new(grid, |x: i32| x * 2);
    assert_eq!(mapped.get(Pos::new(1, 1)), Some(2));
    assert_eq!(mapped.get(Pos::new(3, 3)), None);
}

#[test]
fn transform_grid_mapped_iter_rect() {
    let grid = GridBuf::new_filled(3, 3, 1);
    let mapped = Mapped::new(grid, |x: i32| x * 2);
    assert_eq!(mapped.iter_rect(Rect::from_ltwh(0, 0, 2, 2)), vec![2, 2, 2, 2]);
}

#[test]
fn convert_grid_mapped_size() {
    let grid = GridBuf::<u8, _>::new(10, 10);
    let mapped = Mapped::new(grid, |x: u8| x * 2);
    assert_eq!(mapped.width(), 10);
    assert_eq!(mapped.height(), 10);
}

#[test]
fn convert_grid_mapped_get() {
    let grid = GridBuf::new_filled(3, 3, 1);
    let mapped = Mapped::new(grid, |x: i32| x * 2);
    assert_eq!(mapped.get(Pos::new(1, 1)), Some(2));
    assert_eq!(mapped.get(Pos::new(3, 3)), None);
}

#[test]
fn convert_grid_mapped_iter_rect() {
    let grid = GridBuf::new_filled(3, 3, 1);
    let mapped = Mapped::new(grid, |x: i32| x * 2);
    assert_eq!(mapped.iter_rect(Rect::from_ltwh(0, 0, 2, 2)), vec![2, 2, 2, 2]);
}

#[test]
fn mapped_view_changes_type() {
    let grid = GridBuf::<_, RowMajor>::from_buffer(vec![1u8, 2, 3, 4], 2);
    let mapped = Mapped::new(grid, |x: u8| x % 2 == 0);
    assert_eq!(mapped.iter(), vec![false, true, false, true]);
    assert_eq!(mapped.into_inner().get(Pos::new(1, 1)), Some(4));
}

#[test]
fn transform_grid_view_size() {
    let grid = GridBuf::<u8, _>::new(10, 10);
    let view = grid.view(Rect::from_ltwh(0, 0, 5, 5));
    assert_eq!(view.width(), 5);
    assert_eq!(view.height(), 5);
}

#[test]
fn transform_grid_view_get() {
    let grid = GridBuf::new_filled(3, 3, 1);
    let view = grid.view(Rect::from_ltwh(0, 0, 2, 2));
    assert_eq!(view.get(Pos::new(1, 1)), Some(1));
    assert_eq!(view.get(Pos::new(2, 2)), None);
}

#[test]
fn transform_grid_view_iter_rect() {
    let grid = GridBuf::new_filled(3, 3, 1);
    let view = grid.view(Rect::from_ltwh(0, 0, 2, 2));
    assert_eq!(view.iter_rect(Rect::from_ltwh(0, 0, 2, 2)), vec![1, 1, 1, 1]);
}

#[test]
fn convert_grid_view_size() {
    let grid = GridBuf::<u8, _>::new(10, 10);
    let view = Viewed::new(grid, Rect::from_ltwh(0, 0, 5, 5));
    assert_eq!(view.width(), 5);
    assert_eq!(view.height(), 5);
}

#[test]
fn convert_grid_view_get() {
    let grid = GridBuf::new_filled(3, 3, 1);
    let view = Viewed::new(grid, Rect::from_ltwh(0, 0, 2, 2));
    assert_eq!(view.get(Pos::new(1, 1)), Some(1));
    assert_eq!(view.get(Pos::new(2, 2)), None);
}

#[test]
fn convert_grid_view_iter_rect() {
    let grid = GridBuf::new_filled(3, 3, 1);
    let view = Viewed::new(grid, Rect::from_ltwh(0, 0, 2, 2));
    assert_eq!(view.iter_rect(Rect::from_ltwh(0, 0, 2, 2)), vec![1, 1, 1, 1]);
}

#[test]
fn view_offset_window() {
    let grid = GridBuf::<_, RowMajor>::from_buffer(vec![1, 2, 3, 4, 5, 6, 7, 8, 9], 3);
    let view = grid.view(Rect::from_ltwh(1, 1, 5, 5));
    assert_eq!(view.width(), 2);
    assert_eq!(view.height(), 2);
    assert_eq!(view.get(Pos::new(0, 0)), Some(5));
    assert_eq!(view.iter(), vec![5, 6, 8, 9]);
    assert_eq!(view.get(Pos::new(2, 0)), None);
}

#[test]
fn transform_grid_blended_size() {
    let grid = GridBuf::<u8, _>::new(10, 10);
    let mut blended = Blended::new(grid, |current: u8, new: u8| current + new);
    blended.set(Pos::new(1, 1), 5).unwrap();
    assert_eq!(blended.width(), 10);
    assert_eq!(blended.height(), 10);
}

#[test]
fn transform_grid_write_blended_set() {
    let grid = GridBuf::new_filled(3, 3, 0);
    let mut blended = Blended::new(grid, |current: i32, new: i32| current + new);
    blended.set(Pos::new(1, 1), 5).unwrap();
    assert_eq!(blended.get(Pos::new(1, 1)), Some(5));
    blended.set(Pos::new(1, 1), 3).unwrap();
    assert_eq!(blended.get(Pos::new(1, 1)), Some(8));
}

#[test]
fn transform_grid_write_blended_iter_rect() {
    let grid = GridBuf::new_filled(3, 3, 0);
    let mut blended = Blended::new(grid, |current: i32, new: i32| current + new);
    blended.set(Pos::new(1, 1), 5).unwrap();
    blended.set(Pos::new(2, 2), 3).unwrap();
    assert_eq!(
        blended.iter_rect(Rect::from_ltwh(0, 0, 3, 3)),
        vec![0, 0, 0, 0, 5, 0, 0, 0, 3]
    );
}

#[test]
fn convert_grid_blended_size() {
    let grid = GridBuf::<u8, _>::new(10, 10);
    let mut blended = Blended::new(grid, |current: u8, new: u8| current + new);
    blended.set(Pos::new(1, 1), 5).unwrap();
    assert_eq!(blended.width(), 10);
    assert_eq!(blended.height(), 10);
}

#[test]
fn convert_grid_write_blended_set() {
    let grid = GridBuf::new_filled(3, 3, 0);
    let mut blended = Blended::new(grid, |current: i32, new: i32| current + new);
    blended.set(Pos::new(1, 1), 5).unwrap();
    assert_eq!(blended.get(Pos::new(1, 1)), Some(5));
    blended.set(Pos::new(1, 1), 3).unwrap();
    assert_eq!(blended.get(Pos::new(1, 1)), Some(8));
}

#[test]
fn convert_grid_write_blended_iter_rect() {
    let grid = GridBuf::new_filled(3, 3, 0);
    let mut blended = Blended::new(grid, |current: i32, new: i32| current + new);
    blended.set(Pos::new(1, 1), 5).unwrap();
    blended.set(Pos::new(2, 2), 3).unwrap();
    assert_eq!(
        blended.iter_rect(Rect::from_ltwh(0, 0, 3, 3)),
        vec![0, 0, 0, 0, 5, 0, 0, 0, 3]
    );
}

#[test]
fn grid_chained_operations() {
    let grid = GridBuf::new_filled(3, 3, 1);
    let chained = Mapped::new(grid, |x: i32| x * 2)
        .view(Rect::from_ltwh(0, 0, 2, 2))
        .scale(2);
    assert_eq!(chained.get(Pos::new(1, 1)), Some(2));
    assert_eq!(chained.width(), 4);
    assert_eq!(chained.get(Pos::new(4, 0)), None);
}

#[test]
fn blended_set_out_of_bounds() {
    let grid = GridBuf::new_filled(2, 2, 1);
    let mut blended = Blended::new(grid, |current: i32, new: i32| current * new);
    assert_eq!(
        blended.set(Pos::new(2, 0), 7),
        Err(grixy::geom::GridError::OutOfBounds { pos: Pos::new(2, 0) })
    );
    blended.set(Pos::new(0, 1), 7).unwrap();
    assert_eq!(blended.into_inner().into_inner().0, vec![1, 1, 7, 1]);
}

#[test]
fn collect() {
    let grid = GridBuf::new_filled(3, 3, 1);
    let collected = grid.collect::<i32, RowMajor>();
    assert_eq!(collected.get(Pos::new(1, 1)), Some(1));
    assert_eq!(collected.get(Pos::new(3, 3)), None);
}

#[test]
fn read_iter() {
    let grid = GridBuf::new_filled(3, 3, 1);
    let collected: Vec<i32> = grid.iter();
    assert_eq!(collected.len(), 9);
    assert!(collected.iter().all(|&x| x == 1));
}

#[test]
fn collect_changes_layout() {
    let grid = GridBuf::<_, RowMajor>::from_buffer(vec![1, 2, 3, 4, 5, 6], 3);
    let columns = grid.collect::<i32, ColumnMajor>();
    assert_eq!(columns.get(Pos::new(2, 1)), Some(6));
    assert_eq!(columns.into_inner().0, vec![1, 4, 2, 5, 3, 6]);
}

#[test]
fn ext_map_and_blend() {
    let grid = GridBuf::<_, RowMajor>::from_buffer(vec![1, 2, 3, 4], 2);
    let doubled = grid.map(|x: i32| x * 2);
    assert_eq!(doubled.iter(), vec![2, 4, 6, 8]);
    let mut blended = doubled.into_inner().blend(|current: i32, new: i32| current - new);
    blended.set(Pos::new(0, 0), 1).unwrap();
    assert_eq!(blended.get(Pos::new(0, 0)), Some(0));
}

#[test]
fn trim_rect_to_grid() {
    let grid = GridBuf::<u8, RowMajor>::new(4, 3);
    assert_eq!(grid.trim_rect(Rect::from_ltwh(2, 1, 5, 5)), Rect::from_ltwh(2, 1, 2, 2));
}
