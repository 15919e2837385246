//! A grid over one owned linear buffer, addressed through a linear layout.

use std::marker::PhantomData;
use vstd::prelude::*;
use crate::geom::{lemma_rect_area, GridError, Pos, Rect, Size};
use crate::grid::{cells, GridBase, GridReadUnchecked, GridWriteUnchecked, TrustedSizeGrid};
use crate::layout::{lemma_order, order_at, pos_at, rank, Layout, Linear, RowMajor};

verus! {

/// A two-dimensional grid stored in one buffer of `width * height` elements,
/// laid out by `L`.
pub struct GridBuf<T, L> {
    buffer: Vec<T>,
    width: usize,
    height: usize,
    layout: PhantomData<L>,
}

impl<T: Copy, L: Linear> GridBuf<T, L> {
    /// The backing buffer's contents.
    pub closed spec fn spec_buffer(&self) -> Seq<T> {
        self.buffer@
    }

    /// A grid over `buffer`, `width` columns wide; the height is the buffer's
    /// length divided by `width`, which must divide it exactly.
    pub fn from_buffer(buffer: Vec<T>, width: usize) -> (r: Self)
        requires
            width > 0,
            buffer@.len() % (width as nat) == 0,
            L::supports(Size::new_spec(width, (buffer@.len() / (width as nat)) as usize)),
        ensures
            r.wf(),
            r.spec_size() == Size::new_spec(width, (buffer@.len() / (width as nat)) as usize),
            r.spec_buffer() == buffer@,
    {
        let len = buffer.len();
        let height = len / width;
        proof {
            vstd::arithmetic::div_mod::lemma_fundamental_div_mod(buffer@.len() as int, width as int);
            assert(buffer@.len() == width * height);
            assert(width * height == height * width) by (nonlinear_arith);
        }
        GridBuf { buffer, width, height, layout: PhantomData }
    }

    /// A grid over `buffer`, `width` columns wide, or an error when `width` is
    /// zero or does not divide the buffer's length, or the layout cannot
    /// arrange the inferred size; the buffer is never truncated or padded.
    pub fn try_from_buffer(buffer: Vec<T>, width: usize) -> (r: Result<Self, GridError>)
        ensures
            width > 0 && buffer@.len() % (width as nat) == 0 && L::supports(
                Size::new_spec(width, (buffer@.len() / (width as nat)) as usize),
            ) ==> (r matches Ok(g) && g.wf() && g.spec_size() == Size::new_spec(
                width,
                (buffer@.len() / (width as nat)) as usize,
            ) && g.spec_buffer() == buffer@),
            width == 0 || buffer@.len() % (width as nat) != 0 ==> r == Err::<Self, GridError>(
                GridError::SizeMismatch {
                    len: buffer@.len() as usize,
                    width,
                    height: (if width == 0 {
                        0
                    } else {
                        buffer@.len() / (width as nat)
                    }) as usize,
                },
            ),
            width > 0 && buffer@.len() % (width as nat) == 0 && !L::supports(
                Size::new_spec(width, (buffer@.len() / (width as nat)) as usize),
            ) ==> r == Err::<Self, GridError>(
                GridError::LayoutMismatch {
                    width,
                    height: (buffer@.len() / (width as nat)) as usize,
                },
            ),
    {
        let len = buffer.len();
        if width == 0 {
            return Err(GridError::SizeMismatch { len, width, height: 0 });
        }
        let height = len / width;
        if len % width != 0 {
            return Err(GridError::SizeMismatch { len, width, height });
        }
        if !L::supports_size(Size::new(width, height)) {
            return Err(GridError::LayoutMismatch { width, height });
        }
        Ok(Self::from_buffer(buffer, width))
    }

    /// A grid over `buffer` with the given dimensions, or an error when the
    /// buffer's length is not `width * height` or the layout cannot arrange
    /// a grid of that size.
    pub fn with_buffer(buffer: Vec<T>, width: usize, height: usize) -> (r: Result<Self, GridError>)
        ensures
            buffer@.len() == width * height && L::supports(Size::new_spec(width, height)) ==> (r matches Ok(
                g,
            ) && g.wf() && g.spec_size() == Size::new_spec(width, height) && g.spec_buffer()
                == buffer@),
            buffer@.len() != width * height ==> r == Err::<Self, GridError>(
                GridError::SizeMismatch { len: buffer@.len() as usize, width, height },
            ),
            buffer@.len() == width * height && !L::supports(Size::new_spec(width, height)) ==> r
                == Err::<Self, GridError>(GridError::LayoutMismatch { width, height }),
    {
        let len = buffer.len();
        match width.checked_mul(height) {
            Some(area) => {
                if area != len {
                    Err(GridError::SizeMismatch { len, width, height })
                } else if !L::supports_size(Size::new(width, height)) {
                    Err(GridError::LayoutMismatch { width, height })
                } else {
                    Ok(GridBuf { buffer, width, height, layout: PhantomData })
                }
            },
            None => Err(GridError::SizeMismatch { len, width, height }),
        }
    }

    /// A grid over `buffer` with the given dimensions; the caller guarantees
    /// that the buffer holds exactly `width * height` elements.
    pub fn with_buffer_unchecked(buffer: Vec<T>, width: usize, height: usize) -> (r: Self)
        requires
            buffer@.len() == width * height,
            L::supports(Size::new_spec(width, height)),
        ensures
            r.wf(),
            r.spec_size() == Size::new_spec(width, height),
            r.spec_buffer() == buffer@,
    {
        let len = buffer.len();
        assert(len == width * height);
        GridBuf { buffer, width, height, layout: PhantomData }
    }

    /// A new grid laid out by `L`, every cell holding `value`.
    pub fn new_filled_with_layout(width: usize, height: usize, value: T) -> (r: Self)
        requires
            width * height <= usize::MAX,
            L::supports(Size::new_spec(width, height)),
        ensures
            r.wf(),
            r.spec_size() == Size::new_spec(width, height),
            r.spec_buffer() == Seq::new((width * height) as nat, |i: int| value),
    {
        let n = width * height;
        let mut buffer: Vec<T> = Vec::new();
        let mut i: usize = 0;
        while i < n
            invariant
                i <= n,
                buffer@ == Seq::new(i as nat, |j: int| value),
            decreases n - i,
        {
            buffer.push(value);
            i = i + 1;
            assert(buffer@ =~= Seq::new(i as nat, |j: int| value));
        }
        GridBuf { buffer, width, height, layout: PhantomData }
    }

    /// A new grid laid out by `L`, each cell holding `f` of its position.
    pub fn new_generate<F: Fn(Pos) -> T>(width: usize, height: usize, f: F) -> (r: Self)
        requires
            width * height <= usize::MAX,
            L::supports(Size::new_spec(width, height)),
            forall|p: Pos| f.requires((p,)),
        ensures
            r.wf(),
            r.spec_size() == Size::new_spec(width, height),
            forall|p: Pos| r.spec_size().spec_contains(p) ==> f.ensures((p,), #[trigger] r.cell(p)),
    {
        let size = Size::new(width, height);
        let n = width * height;
        let mut buffer: Vec<T> = Vec::new();
        let mut i: usize = 0;
        while i < n
            invariant
                n == size.area(),
                size.fits(),
                L::supports(size),
                forall|p: Pos| f.requires((p,)),
                i <= n,
                buffer@.len() == i,
                forall|j: int| 0 <= j < i ==> f.ensures((L::pos_of(j, size),), #[trigger] buffer@[j]),
            decreases n - i,
        {
            let p = L::to_2d(i, size);
            buffer.push(f(p));
            i = i + 1;
        }
        let r = GridBuf { buffer, width, height, layout: PhantomData };
        proof {
            assert forall|p: Pos| r.spec_size().spec_contains(p) implies f.ensures(
                (p,),
                #[trigger] r.cell(p),
            ) by {
                L::lemma_index_of(p, size);
            }
        }
        r
    }

    /// Consumes the grid, handing back its buffer, width and height.
    pub fn into_inner(self) -> (r: (Vec<T>, usize, usize))
        requires
            self.wf(),
        ensures
            r.0@ == self.spec_buffer(),
            r.1 == self.spec_size().width,
            r.2 == self.spec_size().height,
    {
        (self.buffer, self.width, self.height)
    }

    /// The backing buffer, in layout order.
    pub fn as_ref(&self) -> (r: &[T])
        ensures
            r@ == self.spec_buffer(),
    {
        self.buffer.as_slice()
    }
}

impl<T: Copy> GridBuf<T, RowMajor> {
    /// A new row-major grid, every cell holding `value`.
    pub fn new_filled(width: usize, height: usize, value: T) -> (r: Self)
        requires
            width * height <= usize::MAX,
        ensures
            r.wf(),
            r.spec_size() == Size::new_spec(width, height),
            r.spec_buffer() == Seq::new((width * height) as nat, |i: int| value),
    {
        Self::new_filled_with_layout(width, height, value)
    }

    /// A new row-major grid, every cell holding the element type's default value.
    pub fn new(width: usize, height: usize) -> (r: Self)
        where
            T: Default,
        requires
            width * height <= usize::MAX,
        ensures
            r.wf(),
            r.spec_size() == Size::new_spec(width, height),
            forall|i: int|
                0 <= i < width * height ==> call_ensures(T::default, (), #[trigger] r.spec_buffer()[i]),
            forall|p: Pos|
                r.spec_size().spec_contains(p) ==> call_ensures(T::default, (), #[trigger] r.cell(p)),
    {
        let value = T::default();
        let r = Self::new_filled_with_layout(width, height, value);
        proof {
            assert forall|p: Pos| r.spec_size().spec_contains(p) implies call_ensures(
                T::default,
                (),
                #[trigger] r.cell(p),
            ) by {
                RowMajor::lemma_index_of(p, r.spec_size());
            }
        }
        r
    }
}

impl<T: Copy, L: Linear> TrustedSizeGrid for GridBuf<T, L> {
    open spec fn wf(&self) -> bool {
        &&& self.spec_buffer().len() == self.spec_size().area()
        &&& self.spec_size().fits()
        &&& L::supports(self.spec_size())
    }

    closed spec fn spec_size(&self) -> Size {
        Size { width: self.width, height: self.height }
    }

    proof fn lemma_wf(&self) {
    }

    fn width(&self) -> (r: usize) {
        self.width
    }

    fn height(&self) -> (r: usize) {
        self.height
    }
}

impl<T: Copy, L: Linear> GridBase<T> for GridBuf<T, L> {
    type Layout = L;

    open spec fn cell(&self, p: Pos) -> T {
        self.spec_buffer()[L::index_of(p, self.spec_size())]
    }
}

impl<T: Copy, L: Linear> GridReadUnchecked<T> for GridBuf<T, L> {
    fn get_unchecked(&self, pos: Pos) -> (r: T) {
        let size = Size::new(self.width, self.height);
        proof {
            L::lemma_index_of(pos, size);
        }
        self.buffer[L::to_1d(pos, size)]
    }

    /// Reads an aligned rectangle as one run of the buffer, and any other
    /// rectangle one position at a time.
    fn iter_rect_unchecked(&self, rect: Rect) -> (r: Vec<T>) {
        let size = Size::new(self.width, self.height);
        proof {
            lemma_rect_area(rect, size);
        }
        let t = L::kind();
        let mut v: Vec<T> = Vec::new();
        match L::rect_to_range(size, rect) {
            Some((s, e)) => {
                let mut i: usize = s;
                while i < e
                    invariant
                        s <= i <= e,
                        e <= self.buffer@.len(),
                        v@.len() == i - s,
                        forall|j: int| 0 <= j < i - s ==> v@[j] == self.buffer@[s + j],
                    decreases e - i,
                {
                    v.push(self.buffer[i]);
                    i = i + 1;
                }
            },
            None => {
                let n = rect.width * rect.height;
                let mut k: usize = 0;
                while k < n
                    invariant
                        self.wf(),
                        size == self.spec_size(),
                        size.spec_contains_rect(rect),
                        rect.wf(),
                        t == L::traversal(),
                        n == rect.spec_size().area(),
                        k <= n,
                        v@.len() == k,
                        forall|j: int|
                            0 <= j < k ==> v@[j] == self.cell(#[trigger] order_at(t, rect, j)),
                    decreases n - k,
                {
                    let p = pos_at(t, rect, k);
                    proof {
                        L::lemma_index_of(p, size);
                    }
                    v.push(self.buffer[L::to_1d(p, size)]);
                    k = k + 1;
                }
            },
        }
        assert(v@ =~= cells(self, t, rect));
        v
    }
}

impl<T: Copy, L: Linear> GridWriteUnchecked<T> for GridBuf<T, L> {
    fn set_unchecked(&mut self, pos: Pos, value: T) {
        let size = Size::new(self.width, self.height);
        proof {
            L::lemma_index_of(pos, size);
        }
        let i = L::to_1d(pos, size);
        self.buffer.set(i, value);
        proof {
            assert forall|q: Pos| #[trigger]
                self.cell(q) == (if q == pos {
                    value
                } else {
                    old(self).cell(q)
                }) || !self.spec_size().spec_contains(q) by {
                if size.spec_contains(q) {
                    L::lemma_index_of(q, size);
                }
            }
        }
    }

    /// Writes an aligned rectangle as one run of the buffer, and any other
    /// rectangle one position at a time.
    fn fill_rect_iter_unchecked(&mut self, rect: Rect, values: Vec<T>) {
        let size = Size::new(self.width, self.height);
        let t = L::kind();
        proof {
            lemma_rect_area(rect, size);
            lemma_order(t, rect);
        }
        let area = rect.width * rect.height;
        let n = if values.len() < area {
            values.len()
        } else {
            area
        };
        match L::rect_to_range(size, rect) {
            Some((s, e)) => {
                let mut i: usize = 0;
                while i < n
                    invariant
                        s <= e <= size.area(),
                        e - s == area,
                        n <= area,
                        n <= values@.len(),
                        i <= n,
                        size == old(self).spec_size(),
                        self.width == size.width,
                        self.height == size.height,
                        old(self).wf(),
                        old(self).spec_buffer().len() == size.area(),
                        self.buffer@.len() == old(self).spec_buffer().len(),
                        forall|j: int|
                            0 <= j < self.buffer@.len() ==> #[trigger] self.buffer@[j] == (if s <= j
                                < s + i {
                                values@[j - s]
                            } else {
                                old(self).spec_buffer()[j]
                            }),
                    decreases n - i,
                {
                    self.buffer.set(s + i, values[i]);
                    i = i + 1;
                }
                proof {
                    assert forall|q: Pos|
                        #![trigger self.cell(q)]
                        self.spec_size().spec_contains(q) implies self.cell(q) == (if rect.spec_contains(q)
                            && rank(t, rect, q) < n {
                            values@[rank(t, rect, q)]
                        } else {
                            old(self).cell(q)
                        }) by {
                        L::lemma_index_of(q, size);
                        let j = L::index_of(q, size);
                        if rect.spec_contains(q) {
                            assert(order_at(t, rect, rank(t, rect, q)) == q);
                        }
                        if s <= j < s + n {
                            let k = j - s;
                            let o = order_at(t, rect, k);
                            assert(rect.spec_contains(o));
                            L::lemma_index_of(o, size);
                            assert(L::index_of(o, size) == j);
                        }
                    }
                }
            },
            None => {
                let mut k: usize = 0;
                while k < n
                    invariant
                        self.wf(),
                        self.spec_size() == old(self).spec_size(),
                        size == self.spec_size(),
                        size.spec_contains_rect(rect),
                        rect.wf(),
                        t == L::traversal(),
                        area == rect.spec_size().area(),
                        n <= area,
                        n <= values@.len(),
                        k <= n,
                        forall|q: Pos|
                            #![trigger self.cell(q)]
                            self.spec_size().spec_contains(q) ==> self.cell(q) == (if rect.spec_contains(q)
                                && rank(t, rect, q) < k {
                                values@[rank(t, rect, q)]
                            } else {
                                old(self).cell(q)
                            }),
                    decreases n - k,
                {
                    let p = pos_at(t, rect, k);
                    proof {
                        lemma_order(t, rect);
                    }
                    self.set_unchecked(p, values[k]);
                    k = k + 1;
                }
            },
        }
    }

    /// Writes an aligned rectangle as one run of the buffer, and any other
    /// rectangle one position at a time.
    fn fill_rect_solid_unchecked(&mut self, rect: Rect, value: T) {
        let size = Size::new(self.width, self.height);
        let t = L::kind();
        proof {
            lemma_rect_area(rect, size);
            lemma_order(t, rect);
        }
        let area = rect.width * rect.height;
        let n = area;
        match L::rect_to_range(size, rect) {
            Some((s, e)) => {
                let mut i: usize = 0;
                while i < n
                    invariant
                        s <= e <= size.area(),
                        e - s == area,
                        n <= area,
                        i <= n,
                        size == old(self).spec_size(),
                        self.width == size.width,
                        self.height == size.height,
                        old(self).wf(),
                        old(self).spec_buffer().len() == size.area(),
                        self.buffer@.len() == old(self).spec_buffer().len(),
                        forall|j: int|
                            0 <= j < self.buffer@.len() ==> #[trigger] self.buffer@[j] == (if s <= j
                                < s + i {
                                value
                            } else {
                                old(self).spec_buffer()[j]
                            }),
                    decreases n - i,
                {
                    self.buffer.set(s + i, value);
                    i = i + 1;
                }
                proof {
                    assert forall|q: Pos|
                        #![trigger self.cell(q)]
                        self.spec_size().spec_contains(q) implies self.cell(q) == (if rect.spec_contains(q)
                            && rank(t, rect, q) < n {
                            value
                        } else {
                            old(self).cell(q)
                        }) by {
                        L::lemma_index_of(q, size);
                        let j = L::index_of(q, size);
                        if rect.spec_contains(q) {
                            assert(order_at(t, rect, rank(t, rect, q)) == q);
                        }
                        if s <= j < s + n {
                            let k = j - s;
                            let o = order_at(t, rect, k);
                            assert(rect.spec_contains(o));
                            L::lemma_index_of(o, size);
                            assert(L::index_of(o, size) == j);
                        }
                    }
                }
            },
            None => {
                let mut k: usize = 0;
                while k < n
                    invariant
                        self.wf(),
                        self.spec_size() == old(self).spec_size(),
                        size == self.spec_size(),
                        size.spec_contains_rect(rect),
                        rect.wf(),
                        t == L::traversal(),
                        area == rect.spec_size().area(),
                        n <= area,
                        k <= n,
                        forall|q: Pos|
                            #![trigger self.cell(q)]
                            self.spec_size().spec_contains(q) ==> self.cell(q) == (if rect.spec_contains(q)
                                && rank(t, rect, q) < k {
                                value
                            } else {
                                old(self).cell(q)
                            }),
                    decreases n - k,
                {
                    let p = pos_at(t, rect, k);
                    proof {
                        lemma_order(t, rect);
                    }
                    self.set_unchecked(p, value);
                    k = k + 1;
                }
            },
        }
    }
}

} // verus!
