//! The pixels of a circle, by the midpoint rule.

use vstd::prelude::*;
use crate::line::{lemma_line_shape, lemma_line_straight, line_points};

verus! {

/// The midpoint test. Standing on the pixel `(x, y)` of a circle of radius
/// `r` about the origin, the next pixel to the right is either `(x + 1, y)`
/// or `(x + 1, y - 1)`. The value is negative exactly if the point halfway
/// between the two, `(x + 1, y - 1/2)`, lies inside the circle: it is
/// `(x + 1)^2 + (y - 1/2)^2 - r^2`, less the quarter.
pub open spec fn midpoint_value(r: int, x: int, y: int) -> int {
    (x + 1) * (x + 1) + y * y - y - r * r
}

/// The height of the arc above the column `x`, for a circle of radius `r`
/// about the origin. The arc begins at `(0, r)` and from one column to the
/// next it keeps its height where the midpoint lies inside the circle, and
/// goes down by one where not.
pub open spec fn arc_height(r: int, x: int) -> int
    decreases x,
{
    if x <= 0 {
        r
    } else {
        let y = arc_height(r, x - 1);
        if midpoint_value(r, x - 1, y) < 0 {
            y
        } else {
            y - 1
        }
    }
}

/// What the walk along the arc keeps true from column to column: in column
/// `x` it stands at the height `y` of the arc and holds the midpoint value
/// `p`, and neither has run away. No arc of a negative radius is walked.
pub open spec fn on_arc(r: int, x: int, y: int, p: int) -> bool {
    &&& 0 <= x
    &&& y <= r
    &&& y == arc_height(r, x)
    &&& p == midpoint_value(r, x, y)
    &&& r >= 0 ==> x <= y + 2 && x <= r + 1 && -2 * r <= p <= 2 * r + 3 + 5 * x
}

/// Whether the arc is drawn in column `x`: it is walked from `x = 0` for as
/// long as it stays on or above the diagonal `y = x`, which is one eighth of
/// the circle.
pub open spec fn arc_reaches(r: int, x: int) -> bool {
    0 <= x <= arc_height(r, x)
}

/// The eight mirror images of the offset `(x, y)` about the center, in the
/// order in which they are drawn.
pub open spec fn ring(center: (int, int), x: int, y: int) -> Seq<(int, int)> {
    seq![
        (center.0 + x, center.1 + y),
        (center.0 + y, center.1 + x),
        (center.0 - y, center.1 + x),
        (center.0 - x, center.1 + y),
        (center.0 - x, center.1 - y),
        (center.0 - y, center.1 - x),
        (center.0 + y, center.1 - x),
        (center.0 + x, center.1 - y),
    ]
}

/// The four horizontal chords through the mirror images of the offset
/// `(x, y)`, in the order in which they are drawn, each one a line.
pub open spec fn chords(center: (int, int), x: int, y: int) -> Seq<(int, int)> {
    line_points((center.0 - x, center.1 + y), (center.0 + x, center.1 + y)) + line_points(
        (center.0 - y, center.1 + x),
        (center.0 + y, center.1 + x),
    ) + line_points((center.0 - x, center.1 - y), (center.0 + x, center.1 - y)) + line_points(
        (center.0 - y, center.1 - x),
        (center.0 + y, center.1 - x),
    )
}

/// The points of the outline that the first `n` columns of the arc give.
pub open spec fn outline_upto(center: (int, int), r: int, n: int) -> Seq<(int, int)>
    decreases n,
{
    if n <= 0 {
        Seq::empty()
    } else if arc_reaches(r, n - 1) {
        outline_upto(center, r, n - 1) + ring(center, n - 1, arc_height(r, n - 1))
    } else {
        outline_upto(center, r, n - 1)
    }
}

/// The points of the filled circle that the first `n` columns of the arc give.
pub open spec fn disc_upto(center: (int, int), r: int, n: int) -> Seq<(int, int)>
    decreases n,
{
    if n <= 0 {
        Seq::empty()
    } else if arc_reaches(r, n - 1) {
        disc_upto(center, r, n - 1) + chords(center, n - 1, arc_height(r, n - 1))
    } else {
        disc_upto(center, r, n - 1)
    }
}

/// The points that `stroke_circle` paints, in order: for each column of the
/// arc, the eight mirror images of its pixel. Where two images fall together
/// (on the axes and on the diagonals) the point occurs twice. A radius of
/// zero gives the center eight times, a negative radius gives nothing.
pub open spec fn circle_outline(center: (int, int), r: int) -> Seq<(int, int)> {
    outline_upto(center, r, r + 1)
}

/// The points that `fill_circle` paints, in order: for each column of the arc,
/// four horizontal chords. Chords of neighbouring columns can lie in the
/// same row, so that a pixel may occur more than once. A radius of zero gives
/// the center four times, a negative radius gives nothing.
pub open spec fn circle_disc(center: (int, int), r: int) -> Seq<(int, int)> {
    disc_upto(center, r, r + 1)
}

/// How the midpoint value changes from one column to the next: by
/// `2 * (x + 1) + 1` where the height stays, and by `2 * (x + 1 - (y - 1)) + 1`
/// where it goes down by one.
pub proof fn lemma_midpoint_step(r: int, x: int, y: int)
    ensures
        midpoint_value(r, x + 1, y) == midpoint_value(r, x, y) + 2 * (x + 1) + 1,
        midpoint_value(r, x + 1, y - 1) == midpoint_value(r, x, y) + 2 * (x + 1 - (y - 1)) + 1,
{
    assert(midpoint_value(r, x + 1, y) == midpoint_value(r, x, y) + 2 * (x + 1) + 1)
        by (nonlinear_arith);
    assert(midpoint_value(r, x + 1, y - 1) == midpoint_value(r, x, y) + 2 * (x + 1 - (y - 1)) + 1)
        by (nonlinear_arith);
}

/// The walk begins above the center, at the height of the radius, where the
/// midpoint value is `1 - r`.
pub proof fn lemma_arc_begins(r: int)
    ensures
        on_arc(r, 0, r, 1 - r),
{
    assert(midpoint_value(r, 0, r) == 1 - r) by (nonlinear_arith);
}

/// From one column to the next the arc keeps its height or loses one.
pub proof fn lemma_arc_descends(r: int, x: int)
    requires
        0 <= x,
    ensures
        arc_height(r, x) - 1 <= arc_height(r, x + 1) <= arc_height(r, x),
{
}

/// The arc never rises above the radius.
pub proof fn lemma_arc_below_radius(r: int, x: int)
    ensures
        arc_height(r, x) <= r,
    decreases x,
{
    if x > 0 {
        lemma_arc_below_radius(r, x - 1);
    }
}

/// Once the arc has fallen below the diagonal it stays below: past the first
/// column that is not drawn, none is.
pub proof fn lemma_arc_stays_below(r: int, x: int, later: int)
    requires
        0 <= x <= later,
        !arc_reaches(r, x),
    ensures
        !arc_reaches(r, later),
    decreases later - x,
{
    if later > x {
        lemma_arc_stays_below(r, x, later - 1);
        lemma_arc_descends(r, later - 1);
    }
}

/// Columns past the end of the arc add nothing to the outline or to the disc.
pub proof fn lemma_sweep_stops(center: (int, int), r: int, x: int, n: int)
    requires
        0 <= x <= n,
        !arc_reaches(r, x),
    ensures
        outline_upto(center, r, n) == outline_upto(center, r, x),
        disc_upto(center, r, n) == disc_upto(center, r, x),
    decreases n - x,
{
    if n > x {
        lemma_arc_stays_below(r, x, n - 1);
        lemma_sweep_stops(center, r, x, n - 1);
    }
}

/// A circle of negative radius has no points.
pub proof fn lemma_negative_radius_empty(center: (int, int), r: int)
    requires
        r < 0,
    ensures
        circle_outline(center, r) == Seq::<(int, int)>::empty(),
        circle_disc(center, r) == Seq::<(int, int)>::empty(),
{
}

/// The outline of a circle passes through the four points at the distance of
/// the radius from the center along the axes.
pub proof fn lemma_outline_poles(center: (int, int), r: int)
    requires
        r >= 0,
    ensures
        circle_outline(center, r).contains((center.0 + r, center.1)),
        circle_outline(center, r).contains((center.0 - r, center.1)),
        circle_outline(center, r).contains((center.0, center.1 + r)),
        circle_outline(center, r).contains((center.0, center.1 - r)),
{
    let first = outline_upto(center, r, 1);
    assert(outline_upto(center, r, 0) == Seq::<(int, int)>::empty());
    assert(arc_reaches(r, 0));
    assert(first =~= ring(center, 0, r));
    lemma_outline_grows(center, r, 1, r + 1);
    let all = circle_outline(center, r);
    assert(all[0] == first[0]);
    assert(all[1] == first[1]);
    assert(all[2] == first[2]);
    assert(all[4] == first[4]);
}

/// The outline of the first columns is a beginning of the outline of more
/// columns.
pub proof fn lemma_outline_grows(center: (int, int), r: int, n: int, m: int)
    requires
        0 <= n <= m,
    ensures
        outline_upto(center, r, n).is_prefix_of(outline_upto(center, r, m)),
    decreases m - n,
{
    if m > n {
        lemma_outline_grows(center, r, n, m - 1);
    }
}

/// Whether the offset `(dx, dy)` from the center lies within half a pixel of
/// the circle of radius `r`: its distance from the center is at least
/// `r - 1/2` and at most `r + 1/2`.
pub open spec fn near_circle(r: int, dx: int, dy: int) -> bool {
    (2 * r - 1) * (2 * r - 1) <= 4 * (dx * dx + dy * dy) <= (2 * r + 1) * (2 * r + 1)
}

/// Every column that is drawn comes after drawn columns only.
pub proof fn lemma_arc_reaches_before(r: int, x: int, earlier: int)
    requires
        0 <= earlier <= x,
        arc_reaches(r, x),
    ensures
        arc_reaches(r, earlier),
{
    if !arc_reaches(r, earlier) {
        lemma_arc_stays_below(r, earlier, x);
    }
}

/// The arc keeps to the circle: in every column that is drawn, the square of
/// the distance from the center differs from the square of the radius by no
/// more than the height of the arc there.
pub proof fn lemma_arc_keeps_to_circle(r: int, x: int)
    requires
        r >= 0,
        arc_reaches(r, x),
    ensures
        -arc_height(r, x) <= x * x + arc_height(r, x) * arc_height(r, x) - r * r <= arc_height(
            r,
            x,
        ),
        arc_height(r, x) == r ==> x * x + arc_height(r, x) * arc_height(r, x) - r * r >= 0,
    decreases x,
{
    if x > 0 {
        let y0 = arc_height(r, x - 1);
        let y1 = arc_height(r, x);
        lemma_arc_reaches_before(r, x, x - 1);
        lemma_arc_keeps_to_circle(r, x - 1);
        lemma_arc_below_radius(r, x - 1);
        let f0 = (x - 1) * (x - 1) + y0 * y0 - r * r;
        let p = midpoint_value(r, x - 1, y0);
        assert(p == f0 + 2 * (x - 1) + 1 - y0) by (nonlinear_arith)
            requires
                p == ((x - 1) + 1) * ((x - 1) + 1) + y0 * y0 - y0 - r * r,
                f0 == (x - 1) * (x - 1) + y0 * y0 - r * r,
        ;
        if p < 0 {
            assert(x * x + y1 * y1 - r * r == f0 + 2 * (x - 1) + 1) by (nonlinear_arith)
                requires
                    y1 == y0,
                    f0 == (x - 1) * (x - 1) + y0 * y0 - r * r,
            ;
        } else {
            assert(x * x + y1 * y1 - r * r == f0 + 2 * (x - 1) + 1 - 2 * y0 + 1)
                by (nonlinear_arith)
                requires
                    y1 == y0 - 1,
                    f0 == (x - 1) * (x - 1) + y0 * y0 - r * r,
            ;
        }
    } else {
        assert(0 * 0 + r * r - r * r == 0) by (nonlinear_arith);
    }
}

/// Each of the eight mirror images of an offset is as far from the center as
/// the offset itself.
pub proof fn lemma_ring_distance(center: (int, int), x: int, y: int, k: int)
    requires
        0 <= k < 8,
    ensures
        ({
            let q = ring(center, x, y)[k];
            (q.0 - center.0) * (q.0 - center.0) + (q.1 - center.1) * (q.1 - center.1) == x * x + y
                * y
        }),
{
    let q = ring(center, x, y)[k];
    let dx = q.0 - center.0;
    let dy = q.1 - center.1;
    assert((dx == x || dx == -x) && (dy == y || dy == -y) || (dx == y || dx == -y) && (dy == x
        || dy == -x));
    assert(dx * dx + dy * dy == x * x + y * y) by (nonlinear_arith)
        requires
            (dx == x || dx == -x) && (dy == y || dy == -y) || (dx == y || dx == -y) && (dy == x
                || dy == -x),
    ;
}

/// Every point of the outline is one of the eight mirror images of the arc
/// in some column that is drawn.
pub proof fn lemma_outline_member(center: (int, int), r: int, n: int, i: int) -> (at: (int, int))
    requires
        0 <= i < outline_upto(center, r, n).len(),
    ensures
        0 <= at.0 < n,
        arc_reaches(r, at.0),
        0 <= at.1 < 8,
        outline_upto(center, r, n)[i] == ring(center, at.0, arc_height(r, at.0))[at.1],
    decreases n,
{
    let before = outline_upto(center, r, n - 1);
    if arc_reaches(r, n - 1) && i >= before.len() {
        (n - 1, i - before.len())
    } else {
        lemma_outline_member(center, r, n - 1, i)
    }
}

/// Every pixel of the outline of a circle lies within half a pixel of the
/// true circle.
pub proof fn lemma_outline_near_circle(center: (int, int), r: int, i: int)
    requires
        r >= 1,
        0 <= i < circle_outline(center, r).len(),
    ensures
        near_circle(
            r,
            circle_outline(center, r)[i].0 - center.0,
            circle_outline(center, r)[i].1 - center.1,
        ),
{
    let q = circle_outline(center, r)[i];
    let at = lemma_outline_member(center, r, r + 1, i);
    let x = at.0;
    let y = arc_height(r, x);
    lemma_arc_keeps_to_circle(r, x);
    lemma_arc_below_radius(r, x);
    lemma_ring_distance(center, x, y, at.1);
    let dx = q.0 - center.0;
    let dy = q.1 - center.1;
    let d = dx * dx + dy * dy;
    assert(d == x * x + y * y);
    assert(r * r - r + 1 <= d <= r * r + r);
    assert(near_circle(r, dx, dy)) by (nonlinear_arith)
        requires
            d == dx * dx + dy * dy,
            r * r - r + 1 <= d <= r * r + r,
    ;
}

/// Every point of the filled circle lies on one of the four chords of some
/// column that is drawn.
pub proof fn lemma_disc_member(center: (int, int), r: int, n: int, i: int) -> (at: (int, int))
    requires
        0 <= i < disc_upto(center, r, n).len(),
    ensures
        0 <= at.0 < n,
        arc_reaches(r, at.0),
        0 <= at.1 < chords(center, at.0, arc_height(r, at.0)).len(),
        disc_upto(center, r, n)[i] == chords(center, at.0, arc_height(r, at.0))[at.1],
    decreases n,
{
    let before = disc_upto(center, r, n - 1);
    if arc_reaches(r, n - 1) && i >= before.len() {
        (n - 1, i - before.len())
    } else {
        lemma_disc_member(center, r, n - 1, i)
    }
}

/// A point of one of the four chords through the mirror images of `(x, y)`
/// lies no further from the center than `(x, y)` itself.
pub proof fn lemma_chord_inside(center: (int, int), x: int, y: int, k: int)
    requires
        0 <= x,
        0 <= y,
        0 <= k < chords(center, x, y).len(),
    ensures
        ({
            let q = chords(center, x, y)[k];
            (q.0 - center.0) * (q.0 - center.0) + (q.1 - center.1) * (q.1 - center.1) <= x * x + y
                * y
        }),
{
    let (cx, cy) = center;
    let l1 = line_points((cx - x, cy + y), (cx + x, cy + y));
    let l2 = line_points((cx - y, cy + x), (cx + y, cy + x));
    let l3 = line_points((cx - x, cy - y), (cx + x, cy - y));
    let l4 = line_points((cx - y, cy - x), (cx + y, cy - x));
    lemma_line_shape((cx - x, cy + y), (cx + x, cy + y));
    lemma_line_shape((cx - y, cy + x), (cx + y, cy + x));
    lemma_line_shape((cx - x, cy - y), (cx + x, cy - y));
    lemma_line_shape((cx - y, cy - x), (cx + y, cy - x));
    let q = chords(center, x, y)[k];
    let dx = q.0 - cx;
    let dy = q.1 - cy;
    if k < l1.len() {
        lemma_line_straight((cx - x, cy + y), (cx + x, cy + y), k);
        assert(q == l1[k]);
        assert(-x <= dx <= x && dy == y);
    } else if k < l1.len() + l2.len() {
        let j = k - l1.len();
        lemma_line_straight((cx - y, cy + x), (cx + y, cy + x), j);
        assert(q == l2[j]);
        assert(-y <= dx <= y && dy == x);
    } else if k < l1.len() + l2.len() + l3.len() {
        let j = k - l1.len() - l2.len();
        lemma_line_straight((cx - x, cy - y), (cx + x, cy - y), j);
        assert(q == l3[j]);
        assert(-x <= dx <= x && dy == -y);
    } else {
        let j = k - l1.len() - l2.len() - l3.len();
        lemma_line_straight((cx - y, cy - x), (cx + y, cy - x), j);
        assert(q == l4[j]);
        assert(-y <= dx <= y && dy == -x);
    }
    assert(dx * dx + dy * dy <= x * x + y * y) by (nonlinear_arith)
        requires
            0 <= x,
            0 <= y,
            (-x <= dx <= x && (dy == y || dy == -y)) || (-y <= dx <= y && (dy == x || dy == -x)),
    ;
}

/// Every pixel of a filled circle lies within the circle, give or take half
/// a pixel: no further from the center than the radius and a half.
pub proof fn lemma_disc_within_circle(center: (int, int), r: int, i: int)
    requires
        0 <= i < circle_disc(center, r).len(),
    ensures
        r >= 0,
        4 * ((circle_disc(center, r)[i].0 - center.0) * (circle_disc(center, r)[i].0 - center.0)
            + (circle_disc(center, r)[i].1 - center.1) * (circle_disc(center, r)[i].1 - center.1))
            <= (2 * r + 1) * (2 * r + 1),
{
    if r < 0 {
        lemma_negative_radius_empty(center, r);
    }
    let q = circle_disc(center, r)[i];
    let at = lemma_disc_member(center, r, r + 1, i);
    let x = at.0;
    let y = arc_height(r, x);
    lemma_arc_keeps_to_circle(r, x);
    lemma_arc_below_radius(r, x);
    lemma_chord_inside(center, x, y, at.1);
    let dx = q.0 - center.0;
    let dy = q.1 - center.1;
    let d = dx * dx + dy * dy;
    assert(d <= x * x + y * y);
    assert(4 * d <= (2 * r + 1) * (2 * r + 1)) by (nonlinear_arith)
        requires
            d <= r * r + r,
    ;
}

} // verus!
