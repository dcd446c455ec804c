//! Colors, two-dimensional vectors and rectangles.
use vstd::prelude::*;

verus! {

/// An RGB color.
#[derive(Clone, Copy, Debug, PartialEq, Eq, Structural)]
pub struct PixelColor {
    pub r: u8,
    pub g: u8,
    pub b: u8,
}

impl PixelColor {
    pub fn new(r: u8, g: u8, b: u8) -> (c: Self)
        ensures
            c == (PixelColor { r, g, b }),
    {
        PixelColor { r, g, b }
    }

    /// The color whose red, green and blue are bits 16..24, 8..16 and 0..8
    /// of `c`.
    pub fn to_color(c: u32) -> (r: Self)
        ensures
            r.r == (c / 0x1_0000) % 0x100,
            r.g == (c / 0x100) % 0x100,
            r.b == c % 0x100,
    {
        PixelColor {
            r: ((c / 0x1_0000) % 0x100) as u8,
            g: ((c / 0x100) % 0x100) as u8,
            b: (c % 0x100) as u8,
        }
    }
}

/// A two-dimensional vector.
#[derive(Clone, Copy, Debug, PartialEq, Eq, Structural)]
pub struct Vector2D<T> {
    pub x: T,
    pub y: T,
}

impl<T: Copy> Vector2D<T> {
    pub fn new(x: T, y: T) -> (r: Self)
        ensures
            r.x == x,
            r.y == y,
    {
        Vector2D { x, y }
    }

    pub fn x(&self) -> (r: T)
        ensures
            r == self.x,
    {
        self.x
    }

    pub fn y(&self) -> (r: T)
        ensures
            r == self.y,
    {
        self.y
    }
}

/// Whether adding `a` and `b` componentwise stays within `i32`.
pub open spec fn add_fits(a: Vector2D<i32>, b: Vector2D<i32>) -> bool {
    i32::MIN <= a.x + b.x <= i32::MAX && i32::MIN <= a.y + b.y <= i32::MAX
}

/// Whether subtracting `b` from `a` componentwise stays within `i32`.
pub open spec fn sub_fits(a: Vector2D<i32>, b: Vector2D<i32>) -> bool {
    i32::MIN <= a.x - b.x <= i32::MAX && i32::MIN <= a.y - b.y <= i32::MAX
}

impl Vector2D<i32> {
    /// Componentwise sum.
    pub fn plus(self, rhs: Self) -> (r: Self)
        requires
            add_fits(self, rhs),
        ensures
            r.x == self.x + rhs.x,
            r.y == self.y + rhs.y,
    {
        Vector2D { x: self.x + rhs.x, y: self.y + rhs.y }
    }

    /// Componentwise difference.
    pub fn minus(self, rhs: Self) -> (r: Self)
        requires
            sub_fits(self, rhs),
        ensures
            r.x == self.x - rhs.x,
            r.y == self.y - rhs.y,
    {
        Vector2D { x: self.x - rhs.x, y: self.y - rhs.y }
    }

    /// Componentwise minimum.
    pub fn element_min(a: &Self, b: &Self) -> (r: Self)
        ensures
            r.x == if a.x <= b.x { a.x } else { b.x },
            r.y == if a.y <= b.y { a.y } else { b.y },
    {
        Vector2D {
            x: if a.x <= b.x { a.x } else { b.x },
            y: if a.y <= b.y { a.y } else { b.y },
        }
    }

    /// Componentwise maximum.
    pub fn element_max(a: &Self, b: &Self) -> (r: Self)
        ensures
            r.x == if a.x >= b.x { a.x } else { b.x },
            r.y == if a.y >= b.y { a.y } else { b.y },
    {
        Vector2D {
            x: if a.x >= b.x { a.x } else { b.x },
            y: if a.y >= b.y { a.y } else { b.y },
        }
    }
}

/// An axis-aligned rectangle given by its corner and size.
#[derive(Clone, Copy, Debug, PartialEq, Eq, Structural)]
pub struct Rectangle<T> {
    pub pos: Vector2D<T>,
    pub size: Vector2D<T>,
}

/// Whether the far corner of `r` stays within `i32`.
pub open spec fn rect_fits(r: Rectangle<i32>) -> bool {
    add_fits(r.pos, r.size)
}

/// The overlap of two rectangles: the rectangle from the larger of the two
/// corners to the smaller of the two far corners, or the empty rectangle at
/// the origin when they are apart.
pub open spec fn intersection_of(a: Rectangle<i32>, b: Rectangle<i32>) -> Rectangle<i32> {
    let a_end_x = a.pos.x + a.size.x;
    let a_end_y = a.pos.y + a.size.y;
    let b_end_x = b.pos.x + b.size.x;
    let b_end_y = b.pos.y + b.size.y;
    if a_end_x < b.pos.x || a_end_y < b.pos.y || b_end_x < a.pos.x || b_end_y < a.pos.y {
        Rectangle { pos: Vector2D { x: 0, y: 0 }, size: Vector2D { x: 0, y: 0 } }
    } else {
        let px = if a.pos.x >= b.pos.x { a.pos.x } else { b.pos.x };
        let py = if a.pos.y >= b.pos.y { a.pos.y } else { b.pos.y };
        let ex = if a_end_x <= b_end_x { a_end_x } else { b_end_x };
        let ey = if a_end_y <= b_end_y { a_end_y } else { b_end_y };
        Rectangle { pos: Vector2D { x: px, y: py }, size: Vector2D { x: (ex - px) as i32, y: (ey - py) as i32 } }
    }
}

impl Rectangle<i32> {
    /// The overlap of `self` and `other`.
    pub fn intersection(&self, other: &Self) -> (r: Self)
        requires
            rect_fits(*self),
            rect_fits(*other),
        ensures
            r == intersection_of(*self, *other),
    {
        let a_end = self.pos.plus(self.size);
        let b_end = other.pos.plus(other.size);
        if a_end.x < other.pos.x || a_end.y < other.pos.y || b_end.x < self.pos.x || b_end.y < self.pos.y {
            return Rectangle { pos: Vector2D::new(0, 0), size: Vector2D::new(0, 0) };
        }
        let pos = Vector2D::element_max(&self.pos, &other.pos);
        let end = Vector2D::element_min(&a_end, &b_end);
        Rectangle { pos, size: end.minus(pos) }
    }
}

/// A point lies in the overlap of two rectangles exactly when it lies in
/// both.
pub proof fn lemma_in_intersection(a: Rectangle<i32>, b: Rectangle<i32>, x: int, y: int)
    requires
        rect_fits(a),
        rect_fits(b),
        a.size.x >= 0 && a.size.y >= 0,
        b.size.x >= 0 && b.size.y >= 0,
    ensures
        ({
            let r = intersection_of(a, b);
            (r.pos.x <= x < r.pos.x + r.size.x && r.pos.y <= y < r.pos.y + r.size.y)
                == (a.pos.x <= x < a.pos.x + a.size.x && a.pos.y <= y < a.pos.y + a.size.y
                && b.pos.x <= x < b.pos.x + b.size.x && b.pos.y <= y < b.pos.y + b.size.y)
        }),
{
}

/// The overlap lies inside both rectangles, and intersecting is symmetric.
pub proof fn lemma_intersection_within(a: Rectangle<i32>, b: Rectangle<i32>)
    requires
        rect_fits(a),
        rect_fits(b),
        a.size.x >= 0 && a.size.y >= 0,
        b.size.x >= 0 && b.size.y >= 0,
    ensures
        intersection_of(a, b) == intersection_of(b, a),
        ({
            let r = intersection_of(a, b);
            r.size.x >= 0 && r.size.y >= 0 && (r.size.x > 0 && r.size.y > 0 ==> (
                a.pos.x <= r.pos.x && r.pos.x + r.size.x <= a.pos.x + a.size.x
                && b.pos.x <= r.pos.x && r.pos.x + r.size.x <= b.pos.x + b.size.x
                && a.pos.y <= r.pos.y && r.pos.y + r.size.y <= a.pos.y + a.size.y
                && b.pos.y <= r.pos.y && r.pos.y + r.size.y <= b.pos.y + b.size.y))
        }),
{
}

} // verus!
