//! The read and write contracts every grid offers: unchecked primitives that
//! a grid implements, and bounds-checked operations built on them.

use vstd::prelude::*;
use crate::geom::{lemma_rect_area, GridError, Pos, Rect, Size};
use crate::layout::{lemma_order, order, order_at, pos_at, rank, Layout, Traversal};

verus! {

/// A grid whose reported width and height are exactly those of its cells.
pub trait TrustedSizeGrid {
    /// Whether the grid's internal invariant holds.
    spec fn wf(&self) -> bool;

    /// The grid's dimensions.
    spec fn spec_size(&self) -> Size;

    /// A well-formed grid's cell count fits in a `usize`.
    proof fn lemma_wf(&self)
        requires
            self.wf(),
        ensures
            self.spec_size().fits(),
    ;

    fn width(&self) -> (r: usize)
        requires
            self.wf(),
        ensures
            r == self.spec_size().width,
    ;

    fn height(&self) -> (r: usize)
        requires
            self.wf(),
        ensures
            r == self.spec_size().height,
    ;

    fn size(&self) -> (r: Size)
        requires
            self.wf(),
        ensures
            r == self.spec_size(),
    {
        Size::new(self.width(), self.height())
    }

    /// The part of `rect` that lies inside the grid.
    fn trim_rect(&self, rect: Rect) -> (r: Rect)
        requires
            self.wf(),
        ensures
            r == rect.spec_clip(self.spec_size()),
    {
        rect.clip(self.size())
    }

    /// Whether `pos` names a cell of the grid.
    fn contains(&self, pos: Pos) -> (r: bool)
        requires
            self.wf(),
        ensures
            r == self.spec_size().spec_contains(pos),
    {
        pos.x < self.width() && pos.y < self.height()
    }
}

/// A grid of elements of type `T`, visited in the order of its layout.
pub trait GridBase<T: Copy>: TrustedSizeGrid {
    type Layout: Layout;

    /// The element at `p`; meaningful for positions inside the grid.
    spec fn cell(&self, p: Pos) -> T;
}

/// The elements of `g` at the positions of `rect`, in the order `t`.
pub open spec fn cells<T: Copy, G: GridBase<T> + ?Sized>(g: &G, t: Traversal, rect: Rect) -> Seq<T> {
    order(t, rect).map_values(|p: Pos| g.cell(p))
}

/// Reads a grid without checking bounds; the caller keeps positions inside.
pub trait GridReadUnchecked<T: Copy>: GridBase<T> {
    /// The element at `pos`, which must lie inside the grid.
    fn get_unchecked(&self, pos: Pos) -> (r: T)
        requires
            self.wf(),
            self.spec_size().spec_contains(pos),
        ensures
            r == self.cell(pos),
    ;

    /// The elements of `rect`, which must lie inside the grid, in layout order.
    fn iter_rect_unchecked(&self, rect: Rect) -> (r: Vec<T>)
        requires
            self.wf(),
            self.spec_size().spec_contains_rect(rect),
        ensures
            r@ == cells(self, Self::Layout::traversal(), rect),
    {
        proof {
            self.lemma_wf();
            lemma_rect_area(rect, self.spec_size());
        }
        let t = Self::Layout::kind();
        let n = rect.width * rect.height;
        let mut v: Vec<T> = Vec::new();
        let mut k: usize = 0;
        while k < n
            invariant
                self.wf(),
                self.spec_size().spec_contains_rect(rect),
                rect.wf(),
                t == Self::Layout::traversal(),
                n == rect.spec_size().area(),
                k <= n,
                v@.len() == k,
                forall|j: int| 0 <= j < k ==> v@[j] == self.cell(#[trigger] order_at(t, rect, j)),
            decreases n - k,
        {
            let p = pos_at(t, rect, k);
            v.push(self.get_unchecked(p));
            k = k + 1;
        }
        assert(v@ =~= cells(self, t, rect));
        v
    }

    /// The `len` elements from `start` to the right, which must all lie inside the grid.
    fn row_iter_unchecked(&self, start: Pos, len: usize) -> (r: Vec<T>)
        requires
            self.wf(),
            start.y < self.spec_size().height,
            start.x + len <= self.spec_size().width,
        ensures
            r@ == Seq::new(len as nat, |i: int| self.cell(Pos { x: (start.x + i) as usize, y: start.y })),
    {
        let mut v: Vec<T> = Vec::new();
        let mut i: usize = 0;
        while i < len
            invariant
                self.wf(),
                start.y < self.spec_size().height,
                start.x + len <= self.spec_size().width,
                i <= len,
                v@ == Seq::new(i as nat, |j: int| self.cell(Pos { x: (start.x + j) as usize, y: start.y })),
            decreases len - i,
        {
            v.push(self.get_unchecked(Pos::new(start.x + i, start.y)));
            i = i + 1;
            assert(v@ =~= Seq::new(i as nat, |j: int| self.cell(Pos { x: (start.x + j) as usize, y: start.y })));
        }
        v
    }

    /// The `len` elements from `start` downward, which must all lie inside the grid.
    fn col_iter_unchecked(&self, start: Pos, len: usize) -> (r: Vec<T>)
        requires
            self.wf(),
            start.x < self.spec_size().width,
            start.y + len <= self.spec_size().height,
        ensures
            r@ == Seq::new(len as nat, |i: int| self.cell(Pos { x: start.x, y: (start.y + i) as usize })),
    {
        let mut v: Vec<T> = Vec::new();
        let mut i: usize = 0;
        while i < len
            invariant
                self.wf(),
                start.x < self.spec_size().width,
                start.y + len <= self.spec_size().height,
                i <= len,
                v@ == Seq::new(i as nat, |j: int| self.cell(Pos { x: start.x, y: (start.y + j) as usize })),
            decreases len - i,
        {
            v.push(self.get_unchecked(Pos::new(start.x, start.y + i)));
            i = i + 1;
            assert(v@ =~= Seq::new(i as nat, |j: int| self.cell(Pos { x: start.x, y: (start.y + j) as usize })));
        }
        v
    }
}

/// How many of the `len` cells from `start` to the right lie inside a grid of `size`.
pub open spec fn row_span(size: Size, start: Pos, len: nat) -> nat {
    if start.y < size.height && start.x < size.width {
        if len <= size.width - start.x {
            len
        } else {
            (size.width - start.x) as nat
        }
    } else {
        0
    }
}

/// How many of the `len` cells from `start` downward lie inside a grid of `size`.
pub open spec fn col_span(size: Size, start: Pos, len: nat) -> nat {
    if start.x < size.width && start.y < size.height {
        if len <= size.height - start.y {
            len
        } else {
            (size.height - start.y) as nat
        }
    } else {
        0
    }
}

/// Writes a grid without checking bounds; the caller keeps positions inside.
pub trait GridWriteUnchecked<T: Copy>: GridBase<T> {
    /// Stores `value` at `pos`, which must lie inside the grid.
    fn set_unchecked(&mut self, pos: Pos, value: T)
        requires
            old(self).wf(),
            old(self).spec_size().spec_contains(pos),
        ensures
            final(self).wf(),
            final(self).spec_size() == old(self).spec_size(),
            forall|q: Pos|
                #[trigger] final(self).cell(q) == (if q == pos {
                    value
                } else {
                    old(self).cell(q)
                }) || !final(self).spec_size().spec_contains(q),
    ;

    /// Stores `values` from `start` to the right; every target must lie inside the grid.
    fn set_row_unchecked(&mut self, start: Pos, values: Vec<T>)
        requires
            old(self).wf(),
            start.y < old(self).spec_size().height,
            start.x + values@.len() <= old(self).spec_size().width,
        ensures
            final(self).wf(),
            final(self).spec_size() == old(self).spec_size(),
            forall|q: Pos|
                #![trigger final(self).cell(q)]
                final(self).spec_size().spec_contains(q) ==> final(self).cell(q) == (if q.y == start.y
                    && start.x <= q.x < start.x + values@.len() {
                    values@[q.x - start.x]
                } else {
                    old(self).cell(q)
                }),
    {
        let n = values.len();
        let mut i: usize = 0;
        while i < n
            invariant
                self.wf(),
                self.spec_size() == old(self).spec_size(),
                start.y < self.spec_size().height,
                start.x + n <= self.spec_size().width,
                n == values@.len(),
                i <= n,
                forall|q: Pos|
                    #![trigger self.cell(q)]
                    self.spec_size().spec_contains(q) ==> self.cell(q) == (if q.y == start.y
                        && start.x <= q.x < start.x + i {
                        values@[q.x - start.x]
                    } else {
                        old(self).cell(q)
                    }),
            decreases n - i,
        {
            self.set_unchecked(Pos::new(start.x + i, start.y), values[i]);
            i = i + 1;
        }
    }

    /// Stores `values` from `start` downward; every target must lie inside the grid.
    fn set_col_unchecked(&mut self, start: Pos, values: Vec<T>)
        requires
            old(self).wf(),
            start.x < old(self).spec_size().width,
            start.y + values@.len() <= old(self).spec_size().height,
        ensures
            final(self).wf(),
            final(self).spec_size() == old(self).spec_size(),
            forall|q: Pos|
                #![trigger final(self).cell(q)]
                final(self).spec_size().spec_contains(q) ==> final(self).cell(q) == (if q.x == start.x
                    && start.y <= q.y < start.y + values@.len() {
                    values@[q.y - start.y]
                } else {
                    old(self).cell(q)
                }),
    {
        let n = values.len();
        let mut i: usize = 0;
        while i < n
            invariant
                self.wf(),
                self.spec_size() == old(self).spec_size(),
                start.x < self.spec_size().width,
                start.y + n <= self.spec_size().height,
                n == values@.len(),
                i <= n,
                forall|q: Pos|
                    #![trigger self.cell(q)]
                    self.spec_size().spec_contains(q) ==> self.cell(q) == (if q.x == start.x
                        && start.y <= q.y < start.y + i {
                        values@[q.y - start.y]
                    } else {
                        old(self).cell(q)
                    }),
            decreases n - i,
        {
            self.set_unchecked(Pos::new(start.x, start.y + i), values[i]);
            i = i + 1;
        }
    }

    /// Stores `values` into `rect`, which must lie inside the grid, in layout
    /// order; stops when either runs out.
    fn fill_rect_iter_unchecked(&mut self, rect: Rect, values: Vec<T>)
        requires
            old(self).wf(),
            old(self).spec_size().spec_contains_rect(rect),
        ensures
            final(self).wf(),
            final(self).spec_size() == old(self).spec_size(),
            forall|q: Pos|
                #![trigger final(self).cell(q)]
                final(self).spec_size().spec_contains(q) ==> final(self).cell(q) == (if rect.spec_contains(q)
                    && rank(Self::Layout::traversal(), rect, q) < values@.len() {
                    values@[rank(Self::Layout::traversal(), rect, q)]
                } else {
                    old(self).cell(q)
                }),
    {
        proof {
            self.lemma_wf();
            lemma_rect_area(rect, self.spec_size());
            lemma_order(Self::Layout::traversal(), rect);
        }
        let t = Self::Layout::kind();
        let area = rect.width * rect.height;
        let n = if values.len() < area { values.len() } else { area };
        let mut k: usize = 0;
        while k < n
            invariant
                self.wf(),
                self.spec_size() == old(self).spec_size(),
                self.spec_size().spec_contains_rect(rect),
                rect.wf(),
                t == Self::Layout::traversal(),
                area == rect.spec_size().area(),
                n <= area,
                n <= values@.len(),
                k <= n,
                forall|q: Pos|
                    #![trigger self.cell(q)]
                    self.spec_size().spec_contains(q) ==> self.cell(q) == (if rect.spec_contains(q)
                        && rank(t, rect, q) < k {
                        values@[rank(t, rect, q)]
                    } else {
                        old(self).cell(q)
                    }),
            decreases n - k,
        {
            let p = pos_at(t, rect, k);
            proof {
                lemma_order(t, rect);
            }
            self.set_unchecked(p, values[k]);
            k = k + 1;
        }
    }

    /// Stores `f(p)` at every position `p` of `rect`, which must lie inside the grid.
    fn fill_rect_unchecked<F: Fn(Pos) -> T>(&mut self, rect: Rect, f: F)
        requires
            old(self).wf(),
            old(self).spec_size().spec_contains_rect(rect),
            forall|p: Pos| f.requires((p,)),
        ensures
            final(self).wf(),
            final(self).spec_size() == old(self).spec_size(),
            forall|q: Pos|
                #![trigger final(self).cell(q)]
                final(self).spec_size().spec_contains(q) ==> if rect.spec_contains(q) {
                    f.ensures((q,), final(self).cell(q))
                } else {
                    final(self).cell(q) == old(self).cell(q)
                },
    {
        proof {
            self.lemma_wf();
            lemma_rect_area(rect, self.spec_size());
            lemma_order(Self::Layout::traversal(), rect);
        }
        let t = Self::Layout::kind();
        let n = rect.width * rect.height;
        let mut k: usize = 0;
        while k < n
            invariant
                self.wf(),
                self.spec_size() == old(self).spec_size(),
                self.spec_size().spec_contains_rect(rect),
                rect.wf(),
                t == Self::Layout::traversal(),
                n == rect.spec_size().area(),
                k <= n,
                forall|p: Pos| f.requires((p,)),
                forall|q: Pos|
                    #![trigger self.cell(q)]
                    self.spec_size().spec_contains(q) ==> if rect.spec_contains(q) && rank(
                        t,
                        rect,
                        q,
                    ) < k {
                        f.ensures((q,), self.cell(q))
                    } else {
                        self.cell(q) == old(self).cell(q)
                    },
            decreases n - k,
        {
            let p = pos_at(t, rect, k);
            proof {
                lemma_order(t, rect);
            }
            let value = f(p);
            self.set_unchecked(p, value);
            k = k + 1;
        }
    }

    /// Stores `value` at every position of `rect`, which must lie inside the grid.
    fn fill_rect_solid_unchecked(&mut self, rect: Rect, value: T)
        requires
            old(self).wf(),
            old(self).spec_size().spec_contains_rect(rect),
        ensures
            final(self).wf(),
            final(self).spec_size() == old(self).spec_size(),
            forall|q: Pos|
                #![trigger final(self).cell(q)]
                final(self).spec_size().spec_contains(q) ==> final(self).cell(q) == (if rect.spec_contains(q) {
                    value
                } else {
                    old(self).cell(q)
                }),
    {
        proof {
            self.lemma_wf();
            lemma_rect_area(rect, self.spec_size());
            lemma_order(Self::Layout::traversal(), rect);
        }
        let t = Self::Layout::kind();
        let n = rect.width * rect.height;
        let mut k: usize = 0;
        while k < n
            invariant
                self.wf(),
                self.spec_size() == old(self).spec_size(),
                self.spec_size().spec_contains_rect(rect),
                rect.wf(),
                t == Self::Layout::traversal(),
                n == rect.spec_size().area(),
                k <= n,
                forall|q: Pos|
                    #![trigger self.cell(q)]
                    self.spec_size().spec_contains(q) ==> self.cell(q) == (if rect.spec_contains(q)
                        && rank(t, rect, q) < k {
                        value
                    } else {
                        old(self).cell(q)
                    }),
            decreases n - k,
        {
            let p = pos_at(t, rect, k);
            proof {
                lemma_order(t, rect);
            }
            self.set_unchecked(p, value);
            k = k + 1;
        }
    }
}

/// Bounds-checked reads, which every grid that reads unchecked receives.
pub trait GridRead<T: Copy>: GridReadUnchecked<T> {
    /// The element at `pos`, or `None` when `pos` lies outside the grid.
    fn get(&self, pos: Pos) -> (r: Option<T>)
        requires
            self.wf(),
        ensures
            r == (if self.spec_size().spec_contains(pos) {
                Some(self.cell(pos))
            } else {
                None
            }),
    {
        if self.contains(pos) {
            Some(self.get_unchecked(pos))
        } else {
            None
        }
    }

    /// The elements of the part of `rect` inside the grid, in layout order.
    fn iter_rect(&self, rect: Rect) -> (r: Vec<T>)
        requires
            self.wf(),
        ensures
            r@ == cells(self, Self::Layout::traversal(), rect.spec_clip(self.spec_size())),
    {
        let clipped = rect.clip(self.size());
        self.iter_rect_unchecked(clipped)
    }

    /// The elements from `start` to the right, at most `len` of them, that lie inside the grid.
    fn row_iter(&self, start: Pos, len: usize) -> (r: Vec<T>)
        requires
            self.wf(),
        ensures
            r@ == Seq::new(
                row_span(self.spec_size(), start, len as nat),
                |i: int| self.cell(Pos { x: (start.x + i) as usize, y: start.y }),
            ),
    {
        let size = self.size();
        if start.y < size.height && start.x < size.width {
            let n = if len <= size.width - start.x {
                len
            } else {
                size.width - start.x
            };
            self.row_iter_unchecked(start, n)
        } else {
            let v: Vec<T> = Vec::new();
            assert(v@ =~= Seq::new(
                row_span(self.spec_size(), start, len as nat),
                |i: int| self.cell(Pos { x: (start.x + i) as usize, y: start.y }),
            ));
            v
        }
    }

    /// The elements from `start` downward, at most `len` of them, that lie inside the grid.
    fn col_iter(&self, start: Pos, len: usize) -> (r: Vec<T>)
        requires
            self.wf(),
        ensures
            r@ == Seq::new(
                col_span(self.spec_size(), start, len as nat),
                |i: int| self.cell(Pos { x: start.x, y: (start.y + i) as usize }),
            ),
    {
        let size = self.size();
        if start.x < size.width && start.y < size.height {
            let n = if len <= size.height - start.y {
                len
            } else {
                size.height - start.y
            };
            self.col_iter_unchecked(start, n)
        } else {
            let v: Vec<T> = Vec::new();
            assert(v@ =~= Seq::new(
                col_span(self.spec_size(), start, len as nat),
                |i: int| self.cell(Pos { x: start.x, y: (start.y + i) as usize }),
            ));
            v
        }
    }
}

impl<T: Copy, G: GridReadUnchecked<T> + ?Sized> GridRead<T> for G {

}

/// Iteration over a whole grid, which every readable grid receives.
pub trait GridIter<T: Copy>: GridRead<T> {
    /// Every element of the grid, in layout order.
    fn iter(&self) -> (r: Vec<T>)
        requires
            self.wf(),
        ensures
            r@ == cells(self, Self::Layout::traversal(), self.spec_size().to_spec_rect()),
    {
        let whole = self.size().to_rect();
        self.iter_rect_unchecked(whole)
    }
}

impl<T: Copy, G: GridRead<T> + ?Sized> GridIter<T> for G {

}

/// Bounds-checked writes, which every grid that writes unchecked receives.
pub trait GridWrite<T: Copy>: GridWriteUnchecked<T> {
    /// Stores `value` at `pos`, or fails when `pos` lies outside the grid.
    fn set(&mut self, pos: Pos, value: T) -> (r: Result<(), GridError>)
        requires
            old(self).wf(),
        ensures
            final(self).wf(),
            final(self).spec_size() == old(self).spec_size(),
            r == (if old(self).spec_size().spec_contains(pos) {
                Ok(())
            } else {
                Err(GridError::OutOfBounds { pos })
            }),
            forall|q: Pos|
                #![trigger final(self).cell(q)]
                final(self).spec_size().spec_contains(q) ==> final(self).cell(q) == (if q == pos {
                    value
                } else {
                    old(self).cell(q)
                }),
    {
        if self.contains(pos) {
            self.set_unchecked(pos, value);
            Ok(())
        } else {
            Err(GridError::OutOfBounds { pos })
        }
    }

    /// Stores `values` from `start` to the right, stopping at the grid's edge.
    fn set_row(&mut self, start: Pos, values: Vec<T>)
        requires
            old(self).wf(),
        ensures
            final(self).wf(),
            final(self).spec_size() == old(self).spec_size(),
            forall|q: Pos|
                #![trigger final(self).cell(q)]
                final(self).spec_size().spec_contains(q) ==> final(self).cell(q) == (if q.y == start.y
                    && start.x <= q.x < start.x + values@.len() {
                    values@[q.x - start.x]
                } else {
                    old(self).cell(q)
                }),
    {
        let size = self.size();
        if start.y >= size.height || start.x >= size.width {
            return ;
        }
        let n = if values.len() <= size.width - start.x {
            values.len()
        } else {
            size.width - start.x
        };
        let mut i: usize = 0;
        while i < n
            invariant
                self.wf(),
                self.spec_size() == old(self).spec_size(),
                size == self.spec_size(),
                start.y < size.height,
                start.x + n <= size.width,
                n <= values@.len(),
                n == values@.len() || start.x + n == size.width,
                i <= n,
                forall|q: Pos|
                    #![trigger self.cell(q)]
                    self.spec_size().spec_contains(q) ==> self.cell(q) == (if q.y == start.y
                        && start.x <= q.x < start.x + i {
                        values@[q.x - start.x]
                    } else {
                        old(self).cell(q)
                    }),
            decreases n - i,
        {
            self.set_unchecked(Pos::new(start.x + i, start.y), values[i]);
            i = i + 1;
        }
    }

    /// Stores `values` from `start` downward, stopping at the grid's edge.
    fn set_col(&mut self, start: Pos, values: Vec<T>)
        requires
            old(self).wf(),
        ensures
            final(self).wf(),
            final(self).spec_size() == old(self).spec_size(),
            forall|q: Pos|
                #![trigger final(self).cell(q)]
                final(self).spec_size().spec_contains(q) ==> final(self).cell(q) == (if q.x == start.x
                    && start.y <= q.y < start.y + values@.len() {
                    values@[q.y - start.y]
                } else {
                    old(self).cell(q)
                }),
    {
        let size = self.size();
        if start.x >= size.width || start.y >= size.height {
            return ;
        }
        let n = if values.len() <= size.height - start.y {
            values.len()
        } else {
            size.height - start.y
        };
        let mut i: usize = 0;
        while i < n
            invariant
                self.wf(),
                self.spec_size() == old(self).spec_size(),
                size == self.spec_size(),
                start.x < size.width,
                start.y + n <= size.height,
                n <= values@.len(),
                n == values@.len() || start.y + n == size.height,
                i <= n,
                forall|q: Pos|
                    #![trigger self.cell(q)]
                    self.spec_size().spec_contains(q) ==> self.cell(q) == (if q.x == start.x
                        && start.y <= q.y < start.y + i {
                        values@[q.y - start.y]
                    } else {
                        old(self).cell(q)
                    }),
            decreases n - i,
        {
            self.set_unchecked(Pos::new(start.x, start.y + i), values[i]);
            i = i + 1;
        }
    }

    /// Stores `values` into the part of `rect` inside the grid, in layout
    /// order; stops when either runs out.
    fn fill_rect_iter(&mut self, rect: Rect, values: Vec<T>)
        requires
            old(self).wf(),
        ensures
            final(self).wf(),
            final(self).spec_size() == old(self).spec_size(),
            forall|q: Pos|
                #![trigger final(self).cell(q)]
                final(self).spec_size().spec_contains(q) ==> final(self).cell(q) == (if rect.spec_clip(
                    old(self).spec_size(),
                ).spec_contains(q) && rank(
                    Self::Layout::traversal(),
                    rect.spec_clip(old(self).spec_size()),
                    q,
                ) < values@.len() {
                    values@[rank(
                        Self::Layout::traversal(),
                        rect.spec_clip(old(self).spec_size()),
                        q,
                    )]
                } else {
                    old(self).cell(q)
                }),
    {
        let clipped = rect.clip(self.size());
        self.fill_rect_iter_unchecked(clipped, values)
    }

    /// Stores `f(p)` at every position `p` of `rect` that lies inside the grid.
    fn fill_rect<F: Fn(Pos) -> T>(&mut self, rect: Rect, f: F)
        requires
            old(self).wf(),
            forall|p: Pos| f.requires((p,)),
        ensures
            final(self).wf(),
            final(self).spec_size() == old(self).spec_size(),
            forall|q: Pos|
                #![trigger final(self).cell(q)]
                final(self).spec_size().spec_contains(q) ==> if rect.spec_contains(q) {
                    f.ensures((q,), final(self).cell(q))
                } else {
                    final(self).cell(q) == old(self).cell(q)
                },
    {
        let clipped = rect.clip(self.size());
        self.fill_rect_unchecked(clipped, f)
    }

    /// Stores `value` at every position of `rect` that lies inside the grid.
    fn fill_rect_solid(&mut self, rect: Rect, value: T)
        requires
            old(self).wf(),
        ensures
            final(self).wf(),
            final(self).spec_size() == old(self).spec_size(),
            forall|q: Pos|
                #![trigger final(self).cell(q)]
                final(self).spec_size().spec_contains(q) ==> final(self).cell(q) == (if rect.spec_contains(q) {
                    value
                } else {
                    old(self).cell(q)
                }),
    {
        let clipped = rect.clip(self.size());
        self.fill_rect_solid_unchecked(clipped, value)
    }
}

impl<T: Copy, G: GridWriteUnchecked<T> + ?Sized> GridWrite<T> for G {

}

/// Reading a position twice, with no write between, gives the same answer:
/// both results of `get` are the same value.
pub proof fn lemma_read_idempotent<T: Copy, G: GridRead<T>>(
    g: &G,
    p: Pos,
    first: Option<T>,
    second: Option<T>,
)
    requires
        g.wf(),
        first == (if g.spec_size().spec_contains(p) {
            Some(g.cell(p))
        } else {
            None
        }),
        second == (if g.spec_size().spec_contains(p) {
            Some(g.cell(p))
        } else {
            None
        }),
    ensures
        first == second,
        first matches Some(v) ==> second == Some(v),
{
}

/// For a rectangle inside the grid, `iter_rect` yields exactly
/// `width * height` elements, the `k`-th being the cell at the `k`-th
/// position of the layout's order.
pub proof fn lemma_iter_rect_inside<T: Copy, G: GridRead<T>>(g: &G, rect: Rect, r: Seq<T>)
    requires
        g.wf(),
        g.spec_size().spec_contains_rect(rect),
        r == cells(g, G::Layout::traversal(), rect.spec_clip(g.spec_size())),
    ensures
        r.len() == rect.width * rect.height,
        forall|k: int|
            0 <= k < r.len() ==> r[k] == g.cell(#[trigger] order_at(G::Layout::traversal(), rect, k)),
{
    assert(rect.spec_clip(g.spec_size()) == rect);
}

} // verus!
