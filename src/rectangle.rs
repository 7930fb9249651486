use vstd::prelude::*;

verus! {

/// A rectangle, defined by top-left (inclusive) and bottom-right (exclusive)
/// coordinates.
#[derive(Clone, Copy, Debug, PartialEq, Eq, Structural)]
pub struct Rectangle {
    pub left: i32,
    pub top: i32,
    pub right: i32,
    pub bottom: i32,
}

/// The canonical empty rectangle, all four coordinates zero.
pub open spec fn zero_rect() -> Rectangle {
    Rectangle { left: 0, top: 0, right: 0, bottom: 0 }
}

pub open spec fn min_i32(a: i32, b: i32) -> i32 {
    if a <= b { a } else { b }
}

pub open spec fn max_i32(a: i32, b: i32) -> i32 {
    if a >= b { a } else { b }
}

impl Default for Rectangle {
    /// The all-zero rectangle, which is empty.
    fn default() -> (r: Rectangle)
        ensures
            r == zero_rect(),
    {
        Rectangle { left: 0, top: 0, right: 0, bottom: 0 }
    }
}

impl Rectangle {
    pub open spec fn spec_is_empty(self) -> bool {
        self.left >= self.right || self.top >= self.bottom
    }

    pub open spec fn spec_width(self) -> nat {
        if self.right <= self.left { 0 } else { (self.right - self.left) as nat }
    }

    pub open spec fn spec_height(self) -> nat {
        if self.bottom <= self.top { 0 } else { (self.bottom - self.top) as nat }
    }

    /// The pixel `(x, y)` lies inside the rectangle.
    pub open spec fn contains_point(self, x: int, y: int) -> bool {
        self.left <= x < self.right && self.top <= y < self.bottom
    }

    /// Coordinate-wise bounds of the overlap, whether or not it is empty.
    pub open spec fn overlap(self, rhs: Rectangle) -> Rectangle {
        Rectangle {
            left: max_i32(self.left, rhs.left),
            top: max_i32(self.top, rhs.top),
            right: min_i32(self.right, rhs.right),
            bottom: min_i32(self.bottom, rhs.bottom),
        }
    }

    pub open spec fn spec_intersection(self, rhs: Rectangle) -> Rectangle {
        if self.spec_is_empty() || rhs.spec_is_empty() || self.overlap(rhs).spec_is_empty() {
            zero_rect()
        } else {
            self.overlap(rhs)
        }
    }

    pub open spec fn spec_union(self, rhs: Rectangle) -> Rectangle {
        if rhs.spec_is_empty() {
            self
        } else if self.spec_is_empty() {
            rhs
        } else {
            Rectangle {
                left: min_i32(self.left, rhs.left),
                top: min_i32(self.top, rhs.top),
                right: max_i32(self.right, rhs.right),
                bottom: max_i32(self.bottom, rhs.bottom),
            }
        }
    }

    /// Expands the rectangle by the given number of pixels in all four
    /// directions and returns the resulting rectangle. (The width and height
    /// will increase by twice the given amount.)
    pub fn expand_by(&self, amount: u32) -> (r: Rectangle)
        requires
            self.left - amount >= i32::MIN,
            self.top - amount >= i32::MIN,
            self.right + amount <= i32::MAX,
            self.bottom + amount <= i32::MAX,
        ensures
            r.left == self.left - amount,
            r.top == self.top - amount,
            r.right == self.right + amount,
            r.bottom == self.bottom + amount,
    {
        let a = amount as i64;
        Rectangle {
            left: (self.left as i64 - a) as i32,
            top: (self.top as i64 - a) as i32,
            right: (self.right as i64 + a) as i32,
            bottom: (self.bottom as i64 + a) as i32,
        }
    }

    /// Returns the rectangle that exists at the intersection between these two
    /// rectangles. The result is the all-zero rectangle if either side is
    /// empty or there is no overlap.
    pub fn intersection(&self, rhs: Rectangle) -> (r: Rectangle)
        ensures
            r == self.spec_intersection(rhs),
    {
        if self.is_empty() || rhs.is_empty() {
            return Rectangle { left: 0, top: 0, right: 0, bottom: 0 };
        }
        let r = Rectangle {
            left: if self.left >= rhs.left { self.left } else { rhs.left },
            top: if self.top >= rhs.top { self.top } else { rhs.top },
            right: if self.right <= rhs.right { self.right } else { rhs.right },
            bottom: if self.bottom <= rhs.bottom { self.bottom } else { rhs.bottom },
        };
        if r.is_empty() {
            Rectangle { left: 0, top: 0, right: 0, bottom: 0 }
        } else {
            r
        }
    }

    /// Returns the smallest rectangle that contains both of the source
    /// rectangles. (It will likely also contain some pixels that are outside
    /// of either rectangle.) An empty operand contributes nothing.
    pub fn union(&self, rhs: Rectangle) -> (r: Rectangle)
        ensures
            r == self.spec_union(rhs),
    {
        if rhs.is_empty() {
            *self
        } else if self.is_empty() {
            rhs
        } else {
            Rectangle {
                left: if self.left <= rhs.left { self.left } else { rhs.left },
                top: if self.top <= rhs.top { self.top } else { rhs.top },
                right: if self.right >= rhs.right { self.right } else { rhs.right },
                bottom: if self.bottom >= rhs.bottom { self.bottom } else { rhs.bottom },
            }
        }
    }

    /// Returns true if this rectangle doesn't contain anything (width or
    /// height will be zero).
    pub fn is_empty(&self) -> (r: bool)
        ensures
            r == self.spec_is_empty(),
    {
        self.left >= self.right || self.top >= self.bottom
    }

    /// Returns the number of pixels covered horizontally by this rectangle.
    pub fn get_width(&self) -> (r: u32)
        ensures
            r == self.spec_width(),
    {
        if self.right <= self.left {
            0
        } else {
            (self.right as i64 - self.left as i64) as u32
        }
    }

    /// Returns the number of pixels covered vertically by this rectangle.
    pub fn get_height(&self) -> (r: u32)
        ensures
            r == self.spec_height(),
    {
        if self.bottom <= self.top {
            0
        } else {
            (self.bottom as i64 - self.top as i64) as u32
        }
    }

    /// Returns the total number of pixels covered by this rectangle.
    pub fn get_area(&self) -> (r: u32)
        requires
            self.spec_width() * self.spec_height() <= u32::MAX,
        ensures
            r == self.spec_width() * self.spec_height(),
    {
        let w = self.get_width();
        let h = self.get_height();
        w * h
    }
}

/// Intersection is commutative, idempotent on a non-empty rectangle, and
/// yields an empty rectangle when either operand is empty. A point lies in the
/// intersection exactly when it lies in both operands.
pub proof fn lemma_intersection_laws(a: Rectangle, b: Rectangle)
    ensures
        a.spec_intersection(b) == b.spec_intersection(a),
        !a.spec_is_empty() ==> a.spec_intersection(a) == a,
        b.spec_is_empty() ==> a.spec_intersection(b).spec_is_empty(),
        a.spec_is_empty() ==> a.spec_intersection(b).spec_is_empty(),
        forall|x: int, y: int|
            #[trigger] a.spec_intersection(b).contains_point(x, y) <==> (a.contains_point(x, y)
                && b.contains_point(x, y)),
{
}

/// The union of two rectangles spans the extents of each non-empty operand,
/// and taking the union with an empty rectangle leaves the other operand
/// unchanged (the left one when both are empty).
pub proof fn lemma_union_laws(a: Rectangle, b: Rectangle)
    ensures
        !a.spec_is_empty() ==> {
            let u = a.spec_union(b);
            u.left <= a.left && u.top <= a.top && a.right <= u.right && a.bottom <= u.bottom
        },
        !b.spec_is_empty() ==> {
            let u = a.spec_union(b);
            u.left <= b.left && u.top <= b.top && b.right <= u.right && b.bottom <= u.bottom
        },
        b.spec_is_empty() ==> a.spec_union(b) == a,
        a.spec_is_empty() && !b.spec_is_empty() ==> a.spec_union(b) == b,
{
}

} // verus!
