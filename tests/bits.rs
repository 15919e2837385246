use grixy::bitgrid::GridBits;
use grixy::bits::BitOps;
use grixy::geom::{GridError, Pos, Rect, Size};
use grixy::grid::{GridRead, GridReadUnchecked, GridWrite, TrustedSizeGrid};
use grixy::layout::{ColumnMajor, RowMajor};

#[test]
fn bits_impl_arr() {
    let data: Vec<u8> = vec![0b0000_0001];
    let grid = GridBits::<_, RowMajor>::from_buffer(data, 8);
    assert_eq!(grid.get(Pos::new(0, 0)), Some(true));
    assert_eq!(grid.get(Pos::new(1, 0)), Some(false));
    assert_eq!(grid.get(Pos::new(8, 0)), None);
    assert_eq!(grid.get(Pos::new(0, 1)), None);
}

#[test]
fn bits_arr_new() {
    let grid = GridBits::<u8, RowMajor>::new(8, 1);
    assert_eq!(grid.get(Pos::new(0, 0)), Some(false));
    assert_eq!(grid.get(Pos::new(7, 0)), Some(false));
    assert_eq!(grid.get(Pos::new(8, 0)), None);
    assert_eq!(grid.get(Pos::new(0, 1)), None);
}

#[test]
fn bits_impl_slice() {
    let data: Vec<u8> = vec![0b0000_0001];
    let grid = GridBits::<_, RowMajor>::from_buffer(data, 8);
    assert_eq!(grid.get(Pos::new(0, 0)), Some(true));
    assert_eq!(grid.get(Pos::new(1, 0)), Some(false));
    assert_eq!(grid.get(Pos::new(8, 0)), None);
    assert_eq!(grid.get(Pos::new(0, 1)), None);
}

#[test]
fn new_with_layout() {
    let grid = GridBits::<u8, RowMajor>::new_with_layout(8, 1);
    assert_eq!(grid.get(Pos::new(0, 0)), Some(false));
    assert_eq!(grid.get(Pos::new(7, 0)), Some(false));
    assert_eq!(grid.get(Pos::new(8, 0)), None);
    assert_eq!(grid.get(Pos::new(0, 1)), None);
}

#[test]
fn bits_impl_slice_mut() {
    let data: Vec<u8> = vec![0b0000_0001];
    let mut grid = GridBits::<_, RowMajor>::from_buffer(data, 8);
    assert_eq!(grid.get(Pos::new(0, 0)), Some(true));
    assert_eq!(grid.get(Pos::new(1, 0)), Some(false));
    assert_eq!(grid.get(Pos::new(8, 0)), None);
    assert_eq!(grid.get(Pos::new(0, 1)), None);

    grid.set(Pos::new(1, 0), true).unwrap();
    assert_eq!(grid.get(Pos::new(1, 0)), Some(true));
    grid.set(Pos::new(0, 0), false).unwrap();
    assert_eq!(grid.get(Pos::new(0, 0)), Some(false));

    assert_eq!(
        grid.set(Pos::new(8, 0), true),
        Err(GridError::OutOfBounds { pos: Pos::new(8, 0) })
    );
}

#[test]
fn bits_vec_new() {
    let grid = GridBits::<u8, RowMajor>::new(8, 1);
    assert_eq!(grid.get(Pos::new(4, 0)), Some(false));
    assert_eq!(grid.get(Pos::new(7, 0)), Some(false));
    assert_eq!(grid.get(Pos::new(8, 0)), None);
    assert_eq!(grid.get(Pos::new(0, 1)), None);
}

#[test]
fn bits_into_inner() {
    let data: Vec<u8> = vec![0b0001_0001];
    let grid = GridBits::<_, RowMajor>::from_buffer(data, 8);
    let (buffer, width, height) = grid.into_inner();
    assert_eq!(width, 8);
    assert_eq!(height, 1);
    assert_eq!(buffer.len(), 1);
    assert_eq!(buffer[0], 0b0001_0001);
}

#[test]
fn bits_iter() {
    let data: Vec<u8> = vec![0b0001_0001];
    let grid = GridBits::<_, RowMajor>::from_buffer(data, 8);
    let mut iter = grid.iter().into_iter();
    assert_eq!(iter.next(), Some(true));
    assert_eq!(iter.next(), Some(false));
    assert_eq!(iter.next(), Some(false));
    assert_eq!(iter.next(), Some(false));
    assert_eq!(iter.next(), Some(true));
    assert_eq!(iter.next(), Some(false));
    assert_eq!(iter.next(), Some(false));
    assert_eq!(iter.next(), Some(false));
    assert_eq!(iter.next(), None);
}

#[test]
fn as_ref() {
    let data: Vec<u8> = vec![0b0001_0001];
    let grid = GridBits::<_, RowMajor>::from_buffer(data, 8);
    let slice: &[u8] = grid.as_ref();
    assert_eq!(slice.len(), 1);
    assert_eq!(slice[0], 0b0001_0001);
}

#[test]
fn bits_from_slice_is_grid_read() {
    let data: Vec<u8> = vec![0b0000_0001u8];
    let grid = GridBits::<_, RowMajor>::from_buffer(data, 8);
    assert!(grid.get_unchecked(Pos::new(0, 0)));
    assert_eq!(grid.get(Pos::new(0, 0)), Some(true));
}

#[test]
fn bit_grid_8x1_set_one() {
    let mut grid = GridBits::<u8, RowMajor>::new(8, 1);
    grid.set(Pos::new(1, 0), true).unwrap();
    assert_eq!(grid.get(Pos::new(1, 0)), Some(true));
    for x in [0, 2, 3, 4, 5, 6, 7] {
        assert_eq!(grid.get(Pos::new(x, 0)), Some(false));
    }
    assert_eq!(grid.get(Pos::new(8, 0)), None);
    assert_eq!(grid.into_inner().0, vec![0b0000_0010]);
}

#[test]
fn bit_grid_spans_words() {
    let mut grid = GridBits::<u8, RowMajor>::new(5, 3);
    assert_eq!(grid.as_ref().len(), 2);
    grid.set(Pos::new(4, 1), true).unwrap();
    grid.set(Pos::new(0, 2), true).unwrap();
    assert_eq!(grid.as_ref(), &[0b0000_0000, 0b0000_0110]);
    assert_eq!(
        grid.iter_rect(Rect::from_ltwh(3, 1, 2, 2)),
        vec![false, true, false, false]
    );
    grid.set(Pos::new(4, 1), false).unwrap();
    assert_eq!(grid.as_ref(), &[0b0000_0000, 0b0000_0100]);
}

#[test]
fn bit_grid_wide_words() {
    let mut grid = GridBits::<u16, ColumnMajor>::new_with_layout(4, 5);
    assert_eq!(grid.as_ref().len(), 2);
    grid.set(Pos::new(3, 1), true).unwrap();
    assert_eq!(grid.as_ref(), &[0, 0b0000_0000_0000_0001]);
    assert_eq!(grid.get(Pos::new(3, 1)), Some(true));

    let mut words = GridBits::<usize, RowMajor>::new(70, 1);
    words.set(Pos::new(65, 0), true).unwrap();
    assert_eq!(words.get(Pos::new(65, 0)), Some(true));
    assert_eq!(words.get(Pos::new(64, 0)), Some(false));
}

#[test]
fn bit_grid_with_buffer_capacity() {
    let grid = GridBits::<u8, RowMajor>::with_buffer(vec![0, 0], 3, 5);
    assert_eq!(grid.map(|g| g.size()), Ok(Size::new(3, 5)));
    let grid = GridBits::<u8, RowMajor>::with_buffer(vec![0, 0], 3, 6);
    assert_eq!(
        grid.err(),
        Some(GridError::SizeMismatch { len: 2, width: 3, height: 6 })
    );
    let grid = GridBits::<u8, RowMajor>::with_buffer(vec![0], 8, 1);
    assert!(grid.is_ok());
}

#[test]
fn bit_grid_from_buffer_height() {
    let grid = GridBits::<u16, RowMajor>::from_buffer(vec![0xffff, 0], 4);
    assert_eq!(grid.height(), 8);
    assert_eq!(grid.get(Pos::new(3, 3)), Some(true));
    assert_eq!(grid.get(Pos::new(0, 4)), Some(false));
}

#[test]
fn u8_to_usize() {
    let value: u8 = 42;
    assert_eq!(value.to_usize(), 42);
}

#[test]
fn u16_to_usize() {
    let value: u16 = 42;
    assert_eq!(value.to_usize(), 42);
}

#[test]
fn u32_to_usize() {
    let value: u32 = 42;
    assert_eq!(value.to_usize(), 42);
}

#[test]
fn u64_to_usize() {
    let value: u64 = 42;
    assert_eq!(value.to_usize(), 42);
}

#[test]
fn usize_to_usize() {
    let value: usize = 42;
    assert_eq!(value.to_usize(), 42);
}

#[test]
fn word_bits() {
    assert_eq!(u8::max_width(), 8);
    assert_eq!(u32::max_width(), 32);
    assert_eq!(u8::from_usize(200), 200u8);
    let word = 0b1010u8;
    assert!(word.bit(1));
    assert!(!word.bit(2));
    assert_eq!(word.with_bit(0, true), 0b1011);
    assert_eq!(word.with_bit(3, false), 0b0010);
    assert_eq!(u64::zero().with_bit(63, true), 1u64 << 63);
}

#[test]
fn bit_grid_aligned_rows() {
    let grid = GridBits::<u8, RowMajor>::from_buffer(vec![0b0000_0000, 0b1000_0101], 8);
    assert_eq!(
        grid.iter_rect(Rect::from_ltwh(0, 1, 8, 1)),
        vec![true, false, true, false, false, false, false, true]
    );
    assert_eq!(grid.iter_rect(Rect::from_ltwh(2, 1, 3, 1)), vec![true, false, false]);
    assert_eq!(grid.iter_rect(Rect::from_ltwh(6, 0, 2, 2)), vec![false, false, false, true]);
}

#[test]
fn bit_grid_iter_skips_padding() {
    let grid = GridBits::<u8, RowMajor>::with_buffer(vec![0b1111_0101], 4, 1).unwrap();
    assert_eq!(grid.iter(), vec![true, false, true, false]);
    let grid = GridBits::<u8, ColumnMajor>::with_buffer(vec![0b0000_0110], 2, 2).unwrap();
    assert_eq!(grid.iter(), vec![false, true, true, false]);
}

#[test]
fn bit_grid_new_word_count() {
    let grid = GridBits::<u8, RowMajor>::new(9, 1);
    assert_eq!(grid.as_ref(), &[0, 0]);
    let grid = GridBits::<u8, RowMajor>::new(4, 1);
    assert_eq!(grid.as_ref(), &[0]);
    let grid = GridBits::<u32, RowMajor>::new(0, 5);
    assert_eq!(grid.as_ref().len(), 0);
    assert_eq!(grid.height(), 5);
}

#[test]
fn bit_grid_set_keeps_padding_bits() {
    let mut grid = GridBits::<u8, RowMajor>::with_buffer(vec![0b1111_0000, 0b1010_1010], 4, 1).unwrap();
    grid.set(Pos::new(0, 0), true).unwrap();
    grid.set(Pos::new(3, 0), true).unwrap();
    assert_eq!(grid.into_inner().0, vec![0b1111_1001, 0b1010_1010]);
}

#[test]
fn bit_grid_try_from_buffer() {
    let grid = GridBits::<u8, RowMajor>::try_from_buffer(vec![0, 0], 4).unwrap();
    assert_eq!(grid.size(), Size::new(4, 4));
    let grid = GridBits::<u8, RowMajor>::try_from_buffer(vec![0b0001_0001], 9);
    assert_eq!(grid.err(), Some(GridError::SizeMismatch { len: 1, width: 9, height: 0 }));
    let grid = GridBits::<u8, RowMajor>::try_from_buffer(vec![0], 0);
    assert!(grid.is_err());
}
