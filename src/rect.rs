use vstd::prelude::*;

verus! {

/// An axis-aligned rectangle: top-left corner `(x, y)` and its extent.
/// Within an arena a rectangle is identified by its corner.
#[derive(Clone, Copy, Debug, PartialEq, Eq, Structural)]
pub struct Rectangle {
    pub x: u32,
    pub y: u32,
    pub width: u32,
    pub height: u32,
}

/// Both far edges can be computed in `u32`.
pub open spec fn fits_u32(r: Rectangle) -> bool {
    r.x + r.width <= u32::MAX && r.y + r.height <= u32::MAX
}

pub open spec fn area(r: Rectangle) -> int {
    r.width * r.height
}

/// The rectangle lies inside `[0, w) x [0, h)` and has no zero extent.
pub open spec fn within(r: Rectangle, w: int, h: int) -> bool {
    &&& r.width > 0
    &&& r.height > 0
    &&& r.x + r.width <= w
    &&& r.y + r.height <= h
}

/// The interiors of `a` and `b` do not meet.
pub open spec fn disjoint(a: Rectangle, b: Rectangle) -> bool {
    ||| a.x + a.width <= b.x
    ||| b.x + b.width <= a.x
    ||| a.y + a.height <= b.y
    ||| b.y + b.height <= a.y
}

/// Every point of `inner` is a point of `outer`.
pub open spec fn contains(outer: Rectangle, inner: Rectangle) -> bool {
    &&& outer.x <= inner.x
    &&& outer.y <= inner.y
    &&& inner.x + inner.width <= outer.x + outer.width
    &&& inner.y + inner.height <= outer.y + outer.height
}

/// `a` sits directly on top of `b`, with the same column.
pub open spec fn stacked(a: Rectangle, b: Rectangle) -> bool {
    a.x == b.x && a.width == b.width && a.y + a.height == b.y
}

/// `a` sits directly left of `b`, with the same row.
pub open spec fn beside(a: Rectangle, b: Rectangle) -> bool {
    a.y == b.y && a.height == b.height && a.x + a.width == b.x
}

/// The single rectangle covering exactly `a` and `b`, where the two are
/// adjacent along a full edge.
pub open spec fn merge_of(a: Rectangle, b: Rectangle) -> Option<Rectangle> {
    if stacked(a, b) {
        Some(Rectangle { x: a.x, y: a.y, width: a.width, height: (a.height + b.height) as u32 })
    } else if stacked(b, a) {
        Some(Rectangle { x: b.x, y: b.y, width: b.width, height: (a.height + b.height) as u32 })
    } else if beside(a, b) {
        Some(Rectangle { x: a.x, y: a.y, width: (a.width + b.width) as u32, height: a.height })
    } else if beside(b, a) {
        Some(Rectangle { x: b.x, y: b.y, width: (a.width + b.width) as u32, height: b.height })
    } else {
        None
    }
}

impl Rectangle {
    pub open spec fn end_x_spec(self) -> int {
        self.x + self.width
    }

    pub open spec fn end_y_spec(self) -> int {
        self.y + self.height
    }

    /// The corner that identifies the rectangle.
    pub fn id(&self) -> (r: (u32, u32))
        ensures
            r == (self.x, self.y),
    {
        (self.x, self.y)
    }

    /// The rectangle covering `self` and `other` when they share a full edge.
    pub fn coalesce(&self, other: &Rectangle) -> (r: Option<Rectangle>)
        requires
            fits_u32(*self),
            fits_u32(*other),
        ensures
            r == merge_of(*self, *other),
    {
        if self.x == other.x && self.width == other.width {
            if self.y as u64 + self.height as u64 == other.y as u64 {
                return Some(Rectangle { height: self.height + other.height, ..*self });
            } else if other.y as u64 + other.height as u64 == self.y as u64 {
                return Some(Rectangle { height: self.height + other.height, ..*other });
            }
        }
        if self.y == other.y && self.height == other.height {
            if self.x as u64 + self.width as u64 == other.x as u64 {
                return Some(Rectangle { width: self.width + other.width, ..*self });
            } else if other.x as u64 + other.width as u64 == self.x as u64 {
                return Some(Rectangle { width: self.width + other.width, ..*other });
            }
        }
        None
    }

    /// Cuts the rectangle into a left part of the given width and the rest.
    pub fn split_h(self, width: u32) -> (r: (Rectangle, Rectangle))
        requires
            width <= self.width,
            fits_u32(self),
        ensures
            r.0 == (Rectangle { width, ..self }),
            r.1 == (Rectangle { x: (self.x + width) as u32, width: (self.width - width) as u32, ..self }),
    {
        (
            Rectangle { width, ..self },
            Rectangle { x: self.x + width, width: self.width - width, ..self },
        )
    }

    /// Cuts the rectangle into a top part of the given height and the rest.
    pub fn split_v(self, height: u32) -> (r: (Rectangle, Rectangle))
        requires
            height <= self.height,
            fits_u32(self),
        ensures
            r.0 == (Rectangle { height, ..self }),
            r.1 == (Rectangle { y: (self.y + height) as u32, height: (self.height - height) as u32, ..self }),
    {
        (
            Rectangle { height, ..self },
            Rectangle { y: self.y + height, height: self.height - height, ..self },
        )
    }

    /// The x coordinate of the far edge of the rectangle.
    pub fn end_x(&self) -> (r: u32)
        requires
            self.x + self.width <= u32::MAX,
        ensures
            r == self.end_x_spec(),
    {
        self.x + self.width
    }

    /// The y coordinate of the far edge of the rectangle.
    pub fn end_y(&self) -> (r: u32)
        requires
            self.y + self.height <= u32::MAX,
        ensures
            r == self.end_y_spec(),
    {
        self.y + self.height
    }
}

} // verus!
