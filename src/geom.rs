//! Positions, sizes, rectangles and the error type shared by every grid.

use vstd::prelude::*;

verus! {

/// A cell position: `x` grows to the right, `y` grows downward.
#[derive(Debug, Clone, Copy, PartialEq, Eq, Structural)]
pub struct Pos {
    pub x: usize,
    pub y: usize,
}

/// The dimensions of a grid or of a rectangle.
#[derive(Debug, Clone, Copy, PartialEq, Eq, Structural)]
pub struct Size {
    pub width: usize,
    pub height: usize,
}

/// A rectangle, exclusive of its right and bottom edges.
#[derive(Debug, Clone, Copy, PartialEq, Eq, Structural)]
pub struct Rect {
    pub left: usize,
    pub top: usize,
    pub width: usize,
    pub height: usize,
}

/// An error from a checked grid operation.
#[derive(Debug, Clone, Copy, PartialEq, Eq, Structural)]
pub enum GridError {
    /// A position lies outside the grid.
    OutOfBounds { pos: Pos },
    /// A buffer's length does not fit the requested dimensions.
    SizeMismatch { len: usize, width: usize, height: usize },
    /// The grid's layout cannot arrange a grid of these dimensions.
    LayoutMismatch { width: usize, height: usize },
}

impl Pos {
    /// The position `(x, y)`.
    pub fn new(x: usize, y: usize) -> (r: Pos)
        ensures
            r.x == x,
            r.y == y,
    {
        Pos { x, y }
    }
}

impl Size {
    /// The size `width` by `height`.
    pub fn new(width: usize, height: usize) -> (r: Size)
        ensures
            r.width == width,
            r.height == height,
    {
        Size { width, height }
    }

    /// The size `width` by `height`.
    pub open spec fn new_spec(width: usize, height: usize) -> Size {
        Size { width, height }
    }

    /// The number of cells, `width * height`.
    pub open spec fn area(self) -> nat {
        self.width as nat * self.height as nat
    }

    /// Whether `width * height` fits in a `usize`.
    pub open spec fn fits(self) -> bool {
        self.area() <= usize::MAX
    }

    /// Whether `p` names a cell of a grid of this size.
    pub open spec fn spec_contains(self, p: Pos) -> bool {
        p.x < self.width && p.y < self.height
    }

    /// Whether `p` names a cell of a grid of this size.
    pub fn contains(&self, p: Pos) -> (r: bool)
        ensures
            r == self.spec_contains(p),
    {
        p.x < self.width && p.y < self.height
    }

    /// The rectangle at the origin that covers the whole grid.
    pub open spec fn to_spec_rect(self) -> Rect {
        Rect { left: 0, top: 0, width: self.width, height: self.height }
    }

    /// Whether every cell of `r` lies inside a grid of this size.
    pub open spec fn spec_contains_rect(self, r: Rect) -> bool {
        r.left + r.width <= self.width && r.top + r.height <= self.height
    }

    /// The rectangle at the origin that covers the whole grid.
    pub fn to_rect(&self) -> (r: Rect)
        ensures
            r == self.to_spec_rect(),
    {
        Rect { left: 0, top: 0, width: self.width, height: self.height }
    }
}

impl Rect {
    /// A rectangle from its left edge, top edge, width and height.
    pub fn from_ltwh(left: usize, top: usize, width: usize, height: usize) -> (r: Rect)
        ensures
            r == (Rect { left, top, width, height }),
    {
        Rect { left, top, width, height }
    }

    /// A rectangle from its left edge, top edge, width and height.
    pub open spec fn from_ltwh_spec(left: usize, top: usize, width: usize, height: usize) -> Rect {
        Rect { left, top, width, height }
    }

    /// A rectangle from its left, top, right and bottom edges, or `None` when
    /// the right edge lies left of the left edge or the bottom above the top.
    pub fn from_ltrb(left: usize, top: usize, right: usize, bottom: usize) -> (r: Option<Rect>)
        ensures
            r == (if left <= right && top <= bottom {
                Some(Rect::from_ltwh_spec(left, top, (right - left) as usize, (bottom - top) as usize))
            } else {
                None
            }),
    {
        if left <= right && top <= bottom {
            Some(Rect { left, top, width: right - left, height: bottom - top })
        } else {
            None
        }
    }

    /// A rectangle from its top-left corner and its size.
    pub open spec fn new_spec(top_left: Pos, size: Size) -> Rect {
        Rect { left: top_left.x, top: top_left.y, width: size.width, height: size.height }
    }

    /// A rectangle from its top-left corner and its size.
    pub fn new(top_left: Pos, size: Size) -> (r: Rect)
        ensures
            r == Rect::new_spec(top_left, size),
    {
        Rect { left: top_left.x, top: top_left.y, width: size.width, height: size.height }
    }

    /// Whether the right and bottom edges are representable.
    pub open spec fn wf(self) -> bool {
        self.left + self.width <= usize::MAX && self.top + self.height <= usize::MAX
    }

    /// The rectangle's width and height.
    pub open spec fn spec_size(self) -> Size {
        Size { width: self.width, height: self.height }
    }

    /// Whether `p` lies inside the rectangle.
    pub open spec fn spec_contains(self, p: Pos) -> bool {
        self.left <= p.x < self.left + self.width && self.top <= p.y < self.top + self.height
    }

    /// The rectangle's top-left corner.
    pub fn top_left(&self) -> (r: Pos)
        ensures
            r == (Pos { x: self.left, y: self.top }),
    {
        Pos { x: self.left, y: self.top }
    }

    /// The rectangle's width and height.
    pub fn size(&self) -> (r: Size)
        ensures
            r == self.spec_size(),
    {
        Size { width: self.width, height: self.height }
    }

    /// Whether `p` lies inside the rectangle.
    pub fn contains(&self, p: Pos) -> (r: bool)
        ensures
            r == self.spec_contains(p),
    {
        self.left <= p.x && p.x - self.left < self.width && self.top <= p.y && p.y - self.top
            < self.height
    }

    /// The part of this rectangle that lies inside a grid of the given size.
    pub open spec fn spec_clip(self, size: Size) -> Rect {
        let l: int = if self.left <= size.width { self.left as int } else { size.width as int };
        let t: int = if self.top <= size.height { self.top as int } else { size.height as int };
        let r = if self.left + self.width <= size.width { self.left + self.width } else { size.width as int };
        let b = if self.top + self.height <= size.height { self.top + self.height } else { size.height as int };
        Rect {
            left: l as usize,
            top: t as usize,
            width: (if r >= l { r - l } else { 0 }) as usize,
            height: (if b >= t { b - t } else { 0 }) as usize,
        }
    }

    /// The part of this rectangle that lies inside a grid of the given size.
    pub fn clip(&self, size: Size) -> (r: Rect)
        ensures
            r == self.spec_clip(size),
            size.spec_contains_rect(r),
            forall|p: Pos| r.spec_contains(p) <==> (self.spec_contains(p) && size.spec_contains(p)),
    {
        let l = if self.left <= size.width { self.left } else { size.width };
        let t = if self.top <= size.height { self.top } else { size.height };
        let r = if self.width <= size.width - l { l + self.width } else { size.width };
        let b = if self.height <= size.height - t { t + self.height } else { size.height };
        Rect { left: l, top: t, width: r - l, height: b - t }
    }
}

/// A rectangle inside a grid has no more cells than the grid.
pub proof fn lemma_rect_area(rect: Rect, size: Size)
    requires
        size.spec_contains_rect(rect),
    ensures
        rect.spec_size().area() <= size.area(),
        rect.wf(),
{
    let rw = rect.width as int;
    let rh = rect.height as int;
    let w = size.width as int;
    let h = size.height as int;
    assert(rw * rh <= w * h) by (nonlinear_arith)
        requires
            0 <= rw <= w,
            0 <= rh <= h,
    ;
}

} // verus!
