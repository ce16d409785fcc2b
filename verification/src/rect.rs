//! Axis-aligned integer rectangles.

use vstd::prelude::*;

verus! {

/// An axis-aligned rectangle given by its four edges.
///
/// Nothing forces `left <= right` or `top <= bottom`: a rectangle built with
/// its edges the wrong way round has a negative width or height, and no
/// method puts the edges in order.
#[derive(Clone, Copy, Debug, Default, PartialEq, Eq, Structural)]
pub struct Rect {
    pub left: i32,
    pub top: i32,
    pub right: i32,
    pub bottom: i32,
}

/// `d / 2`, rounded towards negative infinity.
pub fn half_floor(d: i64) -> (h: i64)
    ensures
        h == d / 2,
{
    if d >= 0 {
        d / 2
    } else {
        let m: i64 = (-(d + 1)) / 2;
        -m - 1
    }
}

impl Rect {
    /// Whether `v` is the value of some `i32`.
    pub open spec fn fits(v: int) -> bool {
        i32::MIN <= v <= i32::MAX
    }

    /// `right - left`, which is negative where the edges are out of order.
    pub open spec fn spec_width(self) -> int {
        self.right - self.left
    }

    /// `bottom - top`, which is negative where the edges are out of order.
    pub open spec fn spec_height(self) -> int {
        self.bottom - self.top
    }

    /// Both the width and the height are values of `i32`.
    pub open spec fn sized(self) -> bool {
        Self::fits(self.spec_width()) && Self::fits(self.spec_height())
    }

    /// The rectangle with its top-left corner at `(x, y)` and the given size.
    pub open spec fn spec_from(x: int, y: int, width: int, height: int) -> Rect {
        Rect {
            left: x as i32,
            top: y as i32,
            right: (x + width) as i32,
            bottom: (y + height) as i32,
        }
    }

    /// The point `(left + width / 2, top + height / 2)`, each half rounded
    /// towards negative infinity.
    pub open spec fn spec_center(self) -> (int, int) {
        (self.left + self.spec_width() / 2, self.top + self.spec_height() / 2)
    }

    /// Whether `(x, y)` lies on or inside the four edges.
    pub open spec fn spec_contain(self, x: int, y: int) -> bool {
        self.left <= x <= self.right && self.top <= y <= self.bottom
    }

    /// Whether the pixel `(x, y)` belongs to the area of the rectangle: its
    /// left and top edges do, its right and bottom edges do not.
    pub open spec fn covers(self, x: int, y: int) -> bool {
        self.left <= x < self.right && self.top <= y < self.bottom
    }

    /// The rectangle grown by `dx` on the left and right and by `dy` on the
    /// top and bottom.
    pub open spec fn inflated(self, dx: int, dy: int) -> Rect {
        Rect {
            left: (self.left - dx) as i32,
            top: (self.top - dy) as i32,
            right: (self.right + dx) as i32,
            bottom: (self.bottom + dy) as i32,
        }
    }

    /// Whether the four edges of `inflated(dx, dy)` are values of `i32`.
    pub open spec fn can_inflate(self, dx: int, dy: int) -> bool {
        &&& Self::fits(self.left - dx)
        &&& Self::fits(self.top - dy)
        &&& Self::fits(self.right + dx)
        &&& Self::fits(self.bottom + dy)
    }

    /// The rectangle moved by `(dx, dy)`.
    pub open spec fn shifted(self, dx: int, dy: int) -> Rect {
        Rect {
            left: (self.left + dx) as i32,
            top: (self.top + dy) as i32,
            right: (self.right + dx) as i32,
            bottom: (self.bottom + dy) as i32,
        }
    }

    /// Whether the four edges of `shifted(dx, dy)` are values of `i32`.
    pub open spec fn can_shift(self, dx: int, dy: int) -> bool {
        &&& Self::fits(self.left + dx)
        &&& Self::fits(self.top + dy)
        &&& Self::fits(self.right + dx)
        &&& Self::fits(self.bottom + dy)
    }

    /// The part that two rectangles share. The overlap runs from the larger
    /// of the two left edges to the smaller of the two right edges, and
    /// likewise from top to bottom. There is none where that width or height
    /// is negative, and none where both are zero, which is two rectangles that
    /// meet in a single corner point. Two rectangles that share a stretch of
    /// an edge do intersect, in a rectangle of no area.
    pub open spec fn spec_intersect(self, other: Rect) -> Option<Rect> {
        let left = if self.left >= other.left { self.left } else { other.left };
        let top = if self.top >= other.top { self.top } else { other.top };
        let right = if self.right <= other.right { self.right } else { other.right };
        let bottom = if self.bottom <= other.bottom { self.bottom } else { other.bottom };
        if right < left || bottom < top || (right == left && bottom == top) {
            None
        } else {
            Some(Rect { left, top, right, bottom })
        }
    }

    pub fn new(left: i32, top: i32, right: i32, bottom: i32) -> (r: Rect)
        ensures
            r == (Rect { left, top, right, bottom }),
    {
        Rect { left, top, right, bottom }
    }

    /// The rectangle with its top-left corner at `(x, y)`, `width` wide and
    /// `height` high.
    pub fn from(x: i32, y: i32, width: i32, height: i32) -> (r: Rect)
        requires
            Self::fits(x + width),
            Self::fits(y + height),
        ensures
            r == Self::spec_from(x as int, y as int, width as int, height as int),
            r.left == x,
            r.top == y,
            r.right == x + width,
            r.bottom == y + height,
            r.spec_width() == width,
            r.spec_height() == height,
    {
        Rect { left: x, top: y, right: x + width, bottom: y + height }
    }

    pub fn width(&self) -> (w: i32)
        requires
            Self::fits(self.spec_width()),
        ensures
            w == self.spec_width(),
    {
        self.right - self.left
    }

    pub fn height(&self) -> (h: i32)
        requires
            Self::fits(self.spec_height()),
        ensures
            h == self.spec_height(),
    {
        self.bottom - self.top
    }

    /// Grows the rectangle by `dx` on the left and on the right, and by `dy`
    /// on the top and on the bottom. Negative amounts shrink it.
    pub fn inflate(&mut self, dx: i32, dy: i32)
        requires
            old(self).can_inflate(dx as int, dy as int),
        ensures
            *final(self) == old(self).inflated(dx as int, dy as int),
            final(self).left == old(self).left - dx,
            final(self).top == old(self).top - dy,
            final(self).right == old(self).right + dx,
            final(self).bottom == old(self).bottom + dy,
    {
        self.left = self.left - dx;
        self.right = self.right + dx;
        self.top = self.top - dy;
        self.bottom = self.bottom + dy;
    }

    /// Shrinks the rectangle by `dx` on the left and on the right, and by
    /// `dy` on the top and on the bottom: `inflate` with the signs turned.
    pub fn deflate(&mut self, dx: i32, dy: i32)
        requires
            old(self).can_inflate(-dx, -dy),
        ensures
            *final(self) == old(self).inflated(-dx, -dy),
            final(self).left == old(self).left + dx,
            final(self).top == old(self).top + dy,
            final(self).right == old(self).right - dx,
            final(self).bottom == old(self).bottom - dy,
    {
        self.left = self.left + dx;
        self.right = self.right - dx;
        self.top = self.top + dy;
        self.bottom = self.bottom - dy;
    }

    /// Moves the rectangle by `(dx, dy)`, keeping its size.
    pub fn offset(&mut self, dx: i32, dy: i32)
        requires
            old(self).can_shift(dx as int, dy as int),
        ensures
            *final(self) == old(self).shifted(dx as int, dy as int),
            final(self).left == old(self).left + dx,
            final(self).top == old(self).top + dy,
            final(self).right == old(self).right + dx,
            final(self).bottom == old(self).bottom + dy,
    {
        self.left = self.left + dx;
        self.right = self.right + dx;
        self.top = self.top + dy;
        self.bottom = self.bottom + dy;
    }

    /// Whether `(x, y)` lies on or inside the rectangle; all four edges count
    /// as inside.
    pub fn contain(&self, x: i32, y: i32) -> (inside: bool)
        ensures
            inside == self.spec_contain(x as int, y as int),
    {
        x >= self.left && x <= self.right && y >= self.top && y <= self.bottom
    }

    /// The middle of the rectangle, `(left + width / 2, top + height / 2)`,
    /// where each half is rounded towards negative infinity: for an odd size
    /// the center lies half a pixel left of, or above, the true middle.
    pub fn center(&self) -> (c: (i32, i32))
        ensures
            (c.0 as int, c.1 as int) == self.spec_center(),
    {
        let hx: i64 = half_floor(self.right as i64 - self.left as i64);
        let hy: i64 = half_floor(self.bottom as i64 - self.top as i64);
        ((self.left as i64 + hx) as i32, (self.top as i64 + hy) as i32)
    }

    /// Moves the rectangle so that its top-left corner is `(x, y)`, keeping
    /// its size.
    pub fn set_position(&mut self, x: i32, y: i32)
        requires
            Self::fits(x + old(self).spec_width()),
            Self::fits(y + old(self).spec_height()),
        ensures
            final(self).left == x,
            final(self).top == y,
            final(self).right == x + old(self).spec_width(),
            final(self).bottom == y + old(self).spec_height(),
    {
        let w: i64 = self.right as i64 - self.left as i64;
        let h: i64 = self.bottom as i64 - self.top as i64;
        self.left = x;
        self.top = y;
        self.right = (x as i64 + w) as i32;
        self.bottom = (y as i64 + h) as i32;
    }

    /// Moves the rectangle so that its center is `(x, y)`, keeping its size.
    pub fn set_center(&mut self, x: i32, y: i32)
        requires
            Self::fits(x - old(self).spec_width() / 2),
            Self::fits(y - old(self).spec_height() / 2),
            Self::fits(x - old(self).spec_width() / 2 + old(self).spec_width()),
            Self::fits(y - old(self).spec_height() / 2 + old(self).spec_height()),
        ensures
            final(self).left == x - old(self).spec_width() / 2,
            final(self).top == y - old(self).spec_height() / 2,
            final(self).spec_width() == old(self).spec_width(),
            final(self).spec_height() == old(self).spec_height(),
            final(self).spec_center() == (x as int, y as int),
    {
        let w: i64 = self.right as i64 - self.left as i64;
        let h: i64 = self.bottom as i64 - self.top as i64;
        let left: i64 = x as i64 - half_floor(w);
        let top: i64 = y as i64 - half_floor(h);
        self.left = left as i32;
        self.top = top as i32;
        self.right = (left + w) as i32;
        self.bottom = (top + h) as i32;
    }

    /// Gives the rectangle the size `width` by `height`, keeping its center.
    pub fn set_size(&mut self, width: i32, height: i32)
        requires
            Self::fits(old(self).spec_center().0 - width / 2),
            Self::fits(old(self).spec_center().1 - height / 2),
            Self::fits(old(self).spec_center().0 - width / 2 + width),
            Self::fits(old(self).spec_center().1 - height / 2 + height),
        ensures
            final(self).left == old(self).spec_center().0 - width / 2,
            final(self).top == old(self).spec_center().1 - height / 2,
            final(self).spec_width() == width,
            final(self).spec_height() == height,
            final(self).spec_center() == old(self).spec_center(),
    {
        let c = self.center();
        let left: i64 = c.0 as i64 - half_floor(width as i64);
        let top: i64 = c.1 as i64 - half_floor(height as i64);
        self.left = left as i32;
        self.top = top as i32;
        self.right = (left + width as i64) as i32;
        self.bottom = (top + height as i64) as i32;
    }

    /// The part that this rectangle shares with `other`, or `None` where the
    /// two do not overlap or meet in one corner point only.
    pub fn intersect(&self, other: &Rect) -> (shared: Option<Rect>)
        ensures
            shared == self.spec_intersect(*other),
    {
        let left = if self.left >= other.left { self.left } else { other.left };
        let top = if self.top >= other.top { self.top } else { other.top };
        let right = if self.right <= other.right { self.right } else { other.right };
        let bottom = if self.bottom <= other.bottom { self.bottom } else { other.bottom };
        if right < left || bottom < top || (right == left && bottom == top) {
            None
        } else {
            Some(Rect { left, top, right, bottom })
        }
    }
}

/// A rectangle made from a corner and a size has that size, whatever the
/// corner and the size, as long as its right and bottom edge are values of
/// `i32`.
pub proof fn lemma_from_has_the_size(x: i32, y: i32, width: i32, height: i32)
    requires
        Rect::fits(x + width),
        Rect::fits(y + height),
    ensures
        Rect::spec_from(x as int, y as int, width as int, height as int).spec_width() == width,
        Rect::spec_from(x as int, y as int, width as int, height as int).spec_height() == height,
        Rect::spec_from(x as int, y as int, width as int, height as int).left == x,
        Rect::spec_from(x as int, y as int, width as int, height as int).top == y,
{
}

/// Growing a rectangle and shrinking it by the same amounts gives the
/// rectangle back.
pub proof fn lemma_inflate_undone(r: Rect, dx: i32, dy: i32)
    requires
        r.can_inflate(dx as int, dy as int),
    ensures
        r.inflated(dx as int, dy as int).can_inflate(-dx, -dy),
        r.inflated(dx as int, dy as int).inflated(-dx, -dy) == r,
{
}

/// Moving a rectangle and moving it back gives the rectangle back, and a
/// moved rectangle has kept its size.
pub proof fn lemma_shift_undone(r: Rect, dx: i32, dy: i32)
    requires
        r.can_shift(dx as int, dy as int),
    ensures
        r.shifted(dx as int, dy as int).can_shift(-dx, -dy),
        r.shifted(dx as int, dy as int).shifted(-dx, -dy) == r,
        r.shifted(dx as int, dy as int).spec_width() == r.spec_width(),
        r.shifted(dx as int, dy as int).spec_height() == r.spec_height(),
{
}

/// Growing a rectangle by `(dx, dy)` makes it `2 * dx` wider and `2 * dy`
/// higher and leaves its center where it was.
pub proof fn lemma_inflate_keeps_center(r: Rect, dx: i32, dy: i32)
    requires
        r.can_inflate(dx as int, dy as int),
    ensures
        r.inflated(dx as int, dy as int).spec_width() == r.spec_width() + 2 * dx,
        r.inflated(dx as int, dy as int).spec_height() == r.spec_height() + 2 * dy,
        r.inflated(dx as int, dy as int).spec_center() == r.spec_center(),
{
}

/// The center of a rectangle lies between its edges, and no more than half
/// a pixel left of and above the true middle.
pub proof fn lemma_center_is_the_middle(r: Rect)
    ensures
        r.left <= r.right ==> r.left <= r.spec_center().0 <= r.right,
        r.top <= r.bottom ==> r.top <= r.spec_center().1 <= r.bottom,
        r.left + r.right - 1 <= 2 * r.spec_center().0 <= r.left + r.right,
        r.top + r.bottom - 1 <= 2 * r.spec_center().1 <= r.top + r.bottom,
        r.left <= r.right && r.top <= r.bottom ==> r.spec_contain(
            r.spec_center().0,
            r.spec_center().1,
        ),
{
}

/// It does not matter which of two rectangles is intersected with which.
pub proof fn lemma_intersect_commutes(a: Rect, b: Rect)
    ensures
        a.spec_intersect(b) == b.spec_intersect(a),
{
}

/// The intersection covers exactly the pixels that both rectangles cover, and
/// where there is none, no pixel is covered by both.
pub proof fn lemma_intersect_covers(a: Rect, b: Rect, x: int, y: int)
    ensures
        a.covers(x, y) && b.covers(x, y) <==> a.spec_intersect(b).is_some() && a.spec_intersect(
            b,
        ).unwrap().covers(x, y),
{
}

/// The intersection lies within both rectangles: every point on or inside it
/// is on or inside each of them.
pub proof fn lemma_intersect_within(a: Rect, b: Rect, x: int, y: int)
    requires
        a.spec_intersect(b).is_some(),
        a.spec_intersect(b).unwrap().spec_contain(x, y),
    ensures
        a.spec_contain(x, y),
        b.spec_contain(x, y),
{
}

} // verus!
