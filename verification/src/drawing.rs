//! Lines, rectangles and circles, drawn into a pixel buffer by blending.

use vstd::prelude::*;
use crate::buffer::PixelBuffer;
use crate::circle::{
    arc_reaches, chords, circle_disc, circle_outline, disc_upto, lemma_arc_begins,
    lemma_arc_below_radius, lemma_midpoint_step, lemma_sweep_stops, on_arc, outline_upto, ring,
};
use crate::color::{composite, Color};
use crate::line::{
    gap, lemma_drift_by_error, lemma_line_ends, lemma_line_shape, lemma_line_straight, line_point,
    line_points, line_rise, line_run, line_start, line_steep, line_stop,
};
use crate::rect::Rect;
use crate::surface::{lemma_paint_concat, lemma_paint_push, lemma_paint_same_size, Surface};

verus! {

/// The largest distance from zero at which the drawing routines take a
/// coordinate. Every point made from `i32` coordinates and `i32` or `u32`
/// offsets lies within it.
pub open spec fn reach() -> int {
    0x2_0000_0000
}

/// Whether both coordinates of a point lie within `reach`.
pub open spec fn within_reach(p: (i64, i64)) -> bool {
    -reach() <= p.0 <= reach() && -reach() <= p.1 <= reach()
}

/// A point of machine integers as a point of the plane.
pub open spec fn plane(p: (i64, i64)) -> (int, int) {
    (p.0 as int, p.1 as int)
}

/// A point of `i32` coordinates as a point of the plane.
pub open spec fn plane32(p: (i32, i32)) -> (int, int) {
    (p.0 as int, p.1 as int)
}

/// Whether `after` is `before` with `color` laid once over every pixel that
/// `rect` covers, and every other pixel as it was.
pub open spec fn is_filled(after: Surface, before: Surface, rect: Rect, color: Color) -> bool {
    &&& after.same_size(before)
    &&& forall|x: int, y: int|
        before.in_bounds(x, y) ==> #[trigger] after.color_at(x, y) == if rect.covers(x, y) {
            composite(before.color_at(x, y), color)
        } else {
            before.color_at(x, y)
        }
}

/// Whether `rect` covers at least one pixel of a grid.
pub open spec fn touches(s: Surface, rect: Rect) -> bool {
    exists|x: int, y: int| s.in_bounds(x, y) && rect.covers(x, y)
}

/// Whether `after` is `before` with `color` laid once over every pixel.
pub open spec fn is_cleared(after: Surface, before: Surface, color: Color) -> bool {
    &&& after.same_size(before)
    &&& forall|x: int, y: int|
        before.in_bounds(x, y) ==> #[trigger] after.color_at(x, y) == composite(
            before.color_at(x, y),
            color,
        )
}

/// The points that `stroke_rect` paints, in order: the top edge, the bottom
/// edge, the left edge and the right edge, each a line between two corners.
/// The four corners occur twice.
pub open spec fn rect_outline(rect: Rect) -> Seq<(int, int)> {
    line_points((rect.left as int, rect.top as int), (rect.right as int, rect.top as int))
        + line_points(
        (rect.left as int, rect.bottom as int),
        (rect.right as int, rect.bottom as int),
    ) + line_points((rect.left as int, rect.top as int), (rect.left as int, rect.bottom as int))
        + line_points(
        (rect.right as int, rect.top as int),
        (rect.right as int, rect.bottom as int),
    )
}

/// Lays `color` over the pixel at `(x, y)`. A point outside the buffer is
/// clipped without a word: nothing changes. Every drawing operation changes
/// pixels through this function and in no other way.
pub fn draw_if_in_bounds(canvas: &mut PixelBuffer, x: i64, y: i64, color: Color)
    ensures
        final(canvas)@ == old(canvas)@.blend_at(x as int, y as int, color),
        final(canvas)@.same_size(old(canvas)@),
        old(canvas)@.in_bounds(x as int, y as int) ==> final(canvas)@.color_at(x as int, y as int)
            == composite(old(canvas)@.color_at(x as int, y as int), color),
        old(canvas)@.in_bounds(x as int, y as int) && color.a == 255 ==> final(canvas)@.color_at(
            x as int,
            y as int,
        ) == color,
{
    if x >= 0 && y >= 0 && x < canvas.width() as i64 && y < canvas.height() as i64 {
        let below = canvas.get_pixel(x as u32, y as u32);
        canvas.put_pixel(x as u32, y as u32, color.over(below));
    }
}

/// Draws the line from `p0` to `p1`, both ends included, one pixel wide.
pub(crate) fn draw_segment(canvas: &mut PixelBuffer, p0: (i64, i64), p1: (i64, i64), color: Color)
    requires
        within_reach(p0),
        within_reach(p1),
    ensures
        final(canvas)@ == old(canvas)@.paint(line_points(plane(p0), plane(p1)), color),
        final(canvas)@.same_size(old(canvas)@),
{
    let ghost q0 = plane(p0);
    let ghost q1 = plane(p1);
    let ghost points = line_points(q0, q1);
    let wide: i64 = if p1.0 >= p0.0 { p1.0 - p0.0 } else { p0.0 - p1.0 };
    let tall: i64 = if p1.1 >= p0.1 { p1.1 - p0.1 } else { p0.1 - p1.1 };
    let steep = tall > wide;
    let (f0, f1) = if steep { ((p0.1, p0.0), (p1.1, p1.0)) } else { (p0, p1) };
    let (start, stop) = if f0.0 > f1.0 { (f1, f0) } else { (f0, f1) };
    let run: i64 = stop.0 - start.0;
    let rise: i64 = if stop.1 >= start.1 { stop.1 - start.1 } else { start.1 - stop.1 };
    let upward = start.1 < stop.1;
    proof {
        lemma_line_shape(q0, q1);
        assert(steep == line_steep(q0, q1));
        assert(plane(start) == line_start(q0, q1));
        assert(plane(stop) == line_stop(q0, q1));
        assert(run == line_run(q0, q1));
        assert(rise == line_rise(q0, q1));
        assert(points.take(0) =~= Seq::<(int, int)>::empty());
        assert(0 * (rise as int) == 0) by (nonlinear_arith);
        assert(0 * (run as int) == 0) by (nonlinear_arith);
    }
    let mut i: i64 = 0;
    let mut across: i64 = start.1;
    let mut error: i64 = run;
    let ghost mut drift: int = 0;
    while i <= run
        invariant
            within_reach(p0),
            within_reach(p1),
            q0 == plane(p0),
            q1 == plane(p1),
            points == line_points(q0, q1),
            steep == line_steep(q0, q1),
            plane(start) == line_start(q0, q1),
            plane(stop) == line_stop(q0, q1),
            run == line_run(q0, q1),
            rise == line_rise(q0, q1),
            upward == (start.1 < stop.1),
            0 <= rise <= run,
            0 <= i <= run + 1,
            0 <= drift <= i,
            across == if upward { start.1 + drift } else { start.1 - drift },
            error == run - 2 * (i * rise) + 2 * (drift * run),
            run > 0 ==> 0 <= error < 2 * run,
            run == 0 ==> error == 0 && drift == 0,
            canvas@ == old(canvas)@.paint(points.take(i as int), color),
        decreases run + 1 - i,
    {
        let at: (i64, i64) = if steep { (across, start.0 + i) } else { (start.0 + i, across) };
        proof {
            if run > 0 {
                lemma_drift_by_error(q0, q1, i as int, drift, error as int);
            }
            assert(plane(at) == line_point(q0, q1, i as int));
            assert(points.take(i + 1) =~= points.take(i as int).push(plane(at)));
            lemma_paint_push(old(canvas)@, points.take(i as int), plane(at), color);
        }
        draw_if_in_bounds(canvas, at.0, at.1, color);
        proof {
            assert((i + 1) * rise == i * rise + rise) by (nonlinear_arith);
        }
        i = i + 1;
        error = error - 2 * rise;
        if error < 0 {
            proof {
                assert((drift + 1) * run == drift * run + run) by (nonlinear_arith);
                drift = drift + 1;
            }
            across = if upward { across + 1 } else { across - 1 };
            error = error + 2 * run;
        }
    }
    proof {
        assert(points.take(i as int) =~= points);
        lemma_paint_same_size(old(canvas)@, points, color);
    }
}

/// Draws the line from `start` to `end`, both ends included, one pixel wide.
/// The line is walked along the axis on which its ends lie further apart, and
/// takes in each column (or row) the pixel nearest to the true line.
pub fn draw_line_segment_mut(
    canvas: &mut PixelBuffer,
    start: (i32, i32),
    end: (i32, i32),
    color: Color,
)
    ensures
        final(canvas)@ == old(canvas)@.paint(line_points(plane32(start), plane32(end)), color),
        final(canvas)@.same_size(old(canvas)@),
{
    draw_segment(canvas, (start.0 as i64, start.1 as i64), (end.0 as i64, end.1 as i64), color)
}

/// The color of the pixel `(x, y)` while the block of the columns from `x0`
/// up to `x1` and the rows from `y0` on is being filled with `color`, at the
/// moment when the rows above `row` are done and, of the row `row`, the
/// columns left of `col`.
pub open spec fn filled_color(
    before: Surface,
    color: Color,
    x0: int,
    x1: int,
    y0: int,
    row: int,
    col: int,
    x: int,
    y: int,
) -> Color {
    if x0 <= x < x1 && (y0 <= y < row || (y == row && x < col)) {
        composite(before.color_at(x, y), color)
    } else {
        before.color_at(x, y)
    }
}

/// Lays `color` over every pixel `(x, y)` with `x0 <= x < x1` and
/// `y0 <= y < y1`, a block that lies within the buffer.
pub(crate) fn fill_block(
    canvas: &mut PixelBuffer,
    x0: i64,
    x1: i64,
    y0: i64,
    y1: i64,
    color: Color,
)
    requires
        0 <= x0 <= x1 <= old(canvas)@.width,
        0 <= y0 <= y1 <= old(canvas)@.height,
    ensures
        final(canvas)@.same_size(old(canvas)@),
        forall|x: int, y: int|
            old(canvas)@.in_bounds(x, y) ==> #[trigger] final(canvas)@.color_at(x, y)
                == filled_color(
                old(canvas)@,
                color,
                x0 as int,
                x1 as int,
                y0 as int,
                y1 as int,
                x0 as int,
                x,
                y,
            ),
{
    let ghost before = canvas@;
    let mut row: i64 = y0;
    while row < y1
        invariant
            before == old(canvas)@,
            0 <= x0 <= x1 <= before.width,
            0 <= y0 <= row <= y1 <= before.height,
            canvas@.same_size(before),
            forall|x: int, y: int|
                before.in_bounds(x, y) ==> #[trigger] canvas@.color_at(x, y) == filled_color(
                    before,
                    color,
                    x0 as int,
                    x1 as int,
                    y0 as int,
                    row as int,
                    x0 as int,
                    x,
                    y,
                ),
        decreases y1 - row,
    {
        let mut col: i64 = x0;
        while col < x1
            invariant
                before == old(canvas)@,
                0 <= x0 <= col <= x1 <= before.width,
                0 <= y0 <= row < y1 <= before.height,
                canvas@.same_size(before),
                forall|x: int, y: int|
                    before.in_bounds(x, y) ==> #[trigger] canvas@.color_at(x, y) == filled_color(
                        before,
                        color,
                        x0 as int,
                        x1 as int,
                        y0 as int,
                        row as int,
                        col as int,
                        x,
                        y,
                    ),
            decreases x1 - col,
        {
            let ghost so_far = canvas@;
            draw_if_in_bounds(canvas, col, row, color);
            assert forall|x: int, y: int| before.in_bounds(x, y) implies #[trigger]
                canvas@.color_at(x, y) == filled_color(
                before,
                color,
                x0 as int,
                x1 as int,
                y0 as int,
                row as int,
                col + 1,
                x,
                y,
            ) by {
                assert(so_far.in_bounds(col as int, row as int));
                if x == col && y == row {
                    assert(so_far.color_at(x, y) == before.color_at(x, y));
                } else {
                    assert(canvas@.color_at(x, y) == so_far.color_at(x, y));
                }
            }
            col = col + 1;
        }
        row = row + 1;
    }
}

/// Lays `color` over every pixel of the canvas that `rect` covers: those
/// from its left edge up to, but not on, its right edge, and from its top
/// edge up to, but not on, its bottom edge. What lies off the canvas is
/// clipped. A rectangle that covers no pixel of the canvas, because it
/// lies outside or has its edges out of order, leaves the canvas exactly
/// as it was.
pub fn draw_filled_rect_mut(canvas: &mut PixelBuffer, rect: Rect, color: Color)
    ensures
        is_filled(final(canvas)@, old(canvas)@, rect, color),
        !touches(old(canvas)@, rect) ==> final(canvas)@ == old(canvas)@,
{
    let w: i64 = canvas.width() as i64;
    let h: i64 = canvas.height() as i64;
    let x0: i64 = if rect.left > 0 { rect.left as i64 } else { 0 };
    let y0: i64 = if rect.top > 0 { rect.top as i64 } else { 0 };
    let x1: i64 = if (rect.right as i64) < w { rect.right as i64 } else { w };
    let y1: i64 = if (rect.bottom as i64) < h { rect.bottom as i64 } else { h };
    if x0 < x1 && y0 < y1 {
        assert(canvas@.in_bounds(x0 as int, y0 as int) && rect.covers(x0 as int, y0 as int));
        fill_block(canvas, x0, x1, y0, y1, color);
    } else {
        assert forall|x: int, y: int| canvas@.in_bounds(x, y) implies !rect.covers(x, y) by {}
    }
}

/// Draws the outline of `rect`: four lines, along the top, the bottom, the
/// left and the right edge, between the corners as they are given. The
/// edges themselves are drawn, the right and the bottom one too, and a
/// rectangle with its edges out of order is drawn all the same.
pub fn draw_hollow_rect_mut(canvas: &mut PixelBuffer, rect: Rect, color: Color)
    ensures
        final(canvas)@ == old(canvas)@.paint(rect_outline(rect), color),
        final(canvas)@.same_size(old(canvas)@),
{
    let ghost top = line_points(
        (rect.left as int, rect.top as int),
        (rect.right as int, rect.top as int),
    );
    let ghost bottom = line_points(
        (rect.left as int, rect.bottom as int),
        (rect.right as int, rect.bottom as int),
    );
    let ghost left = line_points(
        (rect.left as int, rect.top as int),
        (rect.left as int, rect.bottom as int),
    );
    let ghost right = line_points(
        (rect.right as int, rect.top as int),
        (rect.right as int, rect.bottom as int),
    );
    draw_line_segment_mut(canvas, (rect.left, rect.top), (rect.right, rect.top), color);
    draw_line_segment_mut(canvas, (rect.left, rect.bottom), (rect.right, rect.bottom), color);
    draw_line_segment_mut(canvas, (rect.left, rect.top), (rect.left, rect.bottom), color);
    draw_line_segment_mut(canvas, (rect.right, rect.top), (rect.right, rect.bottom), color);
    proof {
        lemma_paint_concat(old(canvas)@, top, bottom, color);
        lemma_paint_concat(old(canvas)@, top + bottom, left, color);
        lemma_paint_concat(old(canvas)@, top + bottom + left, right, color);
        lemma_paint_same_size(old(canvas)@, rect_outline(rect), color);
    }
}

/// One step along the arc of a circle of radius `r`: from the column `x`,
/// where the arc has the height `y` and the midpoint value `p`, to the next
/// column.
fn arc_next(x: i64, y: i64, p: i64, Ghost(r): Ghost<int>) -> (next: (i64, i64, i64))
    requires
        on_arc(r, x as int, y as int, p as int),
        x <= y,
        r <= i32::MAX,
    ensures
        on_arc(r, next.0 as int, next.1 as int, next.2 as int),
        next.0 == x + 1,
        y - 1 <= next.1 <= y,
{
    proof {
        lemma_midpoint_step(r, x as int, y as int);
    }
    if p < 0 {
        (x + 1, y, p + 2 * (x + 1) + 1)
    } else {
        (x + 1, y - 1, p + 2 * (x + 1 - (y - 1)) + 1)
    }
}

/// Draws the outline of the circle about `center` with the given radius.
/// One eighth of the circle is walked by the midpoint rule, from the
/// point straight below the center to the diagonal, and each of its
/// pixels is drawn with its seven mirror images.
pub fn draw_hollow_circle_mut(
    canvas: &mut PixelBuffer,
    center: (i32, i32),
    radius: i32,
    color: Color,
)
    ensures
        final(canvas)@ == old(canvas)@.paint(circle_outline(plane32(center), radius as int), color),
        final(canvas)@.same_size(old(canvas)@),
{
    let ghost c = plane32(center);
    let ghost r = radius as int;
    let cx: i64 = center.0 as i64;
    let cy: i64 = center.1 as i64;
    let mut x: i64 = 0;
    let mut y: i64 = radius as i64;
    let mut p: i64 = 1 - radius as i64;
    proof {
        lemma_arc_begins(r);
    }
    while x <= y
        invariant
            c == plane32(center),
            r == radius,
            cx == center.0,
            cy == center.1,
            on_arc(r, x as int, y as int, p as int),
            canvas@ == old(canvas)@.paint(outline_upto(c, r, x as int), color),
        decreases y - x + 2,
    {
        let ghost done = outline_upto(c, r, x as int);
        let ghost base = old(canvas)@;
        proof {
            assert(arc_reaches(r, x as int));
            assert(outline_upto(c, r, x + 1) == done + ring(c, x as int, y as int));
        }
        draw_if_in_bounds(canvas, cx + x, cy + y, color);
        proof {
            lemma_paint_push(base, done, (cx + x, cy + y), color);
        }
        let ghost s1 = done.push((cx + x, cy + y));
        draw_if_in_bounds(canvas, cx + y, cy + x, color);
        proof {
            lemma_paint_push(base, s1, (cx + y, cy + x), color);
        }
        let ghost s2 = s1.push((cx + y, cy + x));
        draw_if_in_bounds(canvas, cx - y, cy + x, color);
        proof {
            lemma_paint_push(base, s2, (cx - y, cy + x), color);
        }
        let ghost s3 = s2.push((cx - y, cy + x));
        draw_if_in_bounds(canvas, cx - x, cy + y, color);
        proof {
            lemma_paint_push(base, s3, (cx - x, cy + y), color);
        }
        let ghost s4 = s3.push((cx - x, cy + y));
        draw_if_in_bounds(canvas, cx - x, cy - y, color);
        proof {
            lemma_paint_push(base, s4, (cx - x, cy - y), color);
        }
        let ghost s5 = s4.push((cx - x, cy - y));
        draw_if_in_bounds(canvas, cx - y, cy - x, color);
        proof {
            lemma_paint_push(base, s5, (cx - y, cy - x), color);
        }
        let ghost s6 = s5.push((cx - y, cy - x));
        draw_if_in_bounds(canvas, cx + y, cy - x, color);
        proof {
            lemma_paint_push(base, s6, (cx + y, cy - x), color);
        }
        let ghost s7 = s6.push((cx + y, cy - x));
        draw_if_in_bounds(canvas, cx + x, cy - y, color);
        proof {
            lemma_paint_push(base, s7, (cx + x, cy - y), color);
            assert(s7.push((cx + x, cy - y)) =~= done + ring(c, x as int, y as int));
        }
        let next = arc_next(x, y, p, Ghost(r));
        x = next.0;
        y = next.1;
        p = next.2;
    }
    proof {
        if r >= 0 {
            lemma_sweep_stops(c, r, x as int, r + 1);
        } else {
            lemma_arc_below_radius(r, 0);
            lemma_sweep_stops(c, r, 0, x as int);
        }
        lemma_paint_same_size(old(canvas)@, circle_outline(c, r), color);
    }
}

/// Fills the circle about `center` with the given radius. The same eighth
/// of the circle is walked as for the outline, and for each of its pixels
/// four horizontal lines are drawn between its mirror images. Lines of
/// neighbouring steps can fall in one row: a color that is not opaque
/// then shows stronger there.
pub fn draw_filled_circle_mut(
    canvas: &mut PixelBuffer,
    center: (i32, i32),
    radius: i32,
    color: Color,
)
    ensures
        final(canvas)@ == old(canvas)@.paint(circle_disc(plane32(center), radius as int), color),
        final(canvas)@.same_size(old(canvas)@),
{
    let ghost c = plane32(center);
    let ghost r = radius as int;
    let cx: i64 = center.0 as i64;
    let cy: i64 = center.1 as i64;
    let mut x: i64 = 0;
    let mut y: i64 = radius as i64;
    let mut p: i64 = 1 - radius as i64;
    proof {
        lemma_arc_begins(r);
    }
    while x <= y
        invariant
            c == plane32(center),
            r == radius,
            cx == center.0,
            cy == center.1,
            on_arc(r, x as int, y as int, p as int),
            canvas@ == old(canvas)@.paint(disc_upto(c, r, x as int), color),
        decreases y - x + 2,
    {
        let ghost done = disc_upto(c, r, x as int);
        let ghost base = old(canvas)@;
        let ghost l1 = line_points((cx - x, cy + y), (cx + x, cy + y));
        let ghost l2 = line_points((cx - y, cy + x), (cx + y, cy + x));
        let ghost l3 = line_points((cx - x, cy - y), (cx + x, cy - y));
        let ghost l4 = line_points((cx - y, cy - x), (cx + y, cy - x));
        proof {
            assert(arc_reaches(r, x as int));
            assert(disc_upto(c, r, x + 1) == done + chords(c, x as int, y as int));
        }
        draw_segment(canvas, (cx - x, cy + y), (cx + x, cy + y), color);
        draw_segment(canvas, (cx - y, cy + x), (cx + y, cy + x), color);
        draw_segment(canvas, (cx - x, cy - y), (cx + x, cy - y), color);
        draw_segment(canvas, (cx - y, cy - x), (cx + y, cy - x), color);
        proof {
            lemma_paint_concat(base, done, l1, color);
            lemma_paint_concat(base, done + l1, l2, color);
            lemma_paint_concat(base, done + l1 + l2, l3, color);
            lemma_paint_concat(base, done + l1 + l2 + l3, l4, color);
            assert(done + l1 + l2 + l3 + l4 =~= done + chords(c, x as int, y as int));
        }
        let next = arc_next(x, y, p, Ghost(r));
        x = next.0;
        y = next.1;
        p = next.2;
    }
    proof {
        if r >= 0 {
            lemma_sweep_stops(c, r, x as int, r + 1);
        } else {
            lemma_arc_below_radius(r, 0);
            lemma_sweep_stops(c, r, 0, x as int);
        }
        lemma_paint_same_size(old(canvas)@, circle_disc(c, r), color);
    }
}

/// The pixels that `draw_filled_rect_mut` changes are those of the
/// intersection of the rectangle with the bounds of the buffer, taken as the
/// rectangle from `(0, 0)` to `(width, height)`.
pub proof fn lemma_fill_is_the_intersection(s: Surface, rect: Rect, x: int, y: int)
    requires
        s.width <= i32::MAX,
        s.height <= i32::MAX,
    ensures
        ({
            let bounds = Rect { left: 0, top: 0, right: s.width as i32, bottom: s.height as i32 };
            s.in_bounds(x, y) && rect.covers(x, y) <==> rect.spec_intersect(bounds).is_some()
                && rect.spec_intersect(bounds).unwrap().covers(x, y)
        }),
{
}

/// A rectangle filled with a fully opaque color shows exactly that color in
/// every pixel that it covers.
pub proof fn lemma_fill_opaque_exact(
    after: Surface,
    before: Surface,
    rect: Rect,
    color: Color,
    x: int,
    y: int,
)
    requires
        is_filled(after, before, rect, color),
        color.a == 255,
        before.in_bounds(x, y),
        rect.covers(x, y),
    ensures
        after.color_at(x, y) == color,
{
}

/// Filling with a fully transparent color changes no pixel.
pub proof fn lemma_fill_transparent_noop(after: Surface, before: Surface, rect: Rect, color: Color)
    requires
        is_filled(after, before, rect, color),
        color.a == 0,
    ensures
        after.same_picture(before),
{
}

/// Clearing with a fully opaque color leaves every pixel in exactly that
/// color, and clearing with a fully transparent one changes no pixel.
pub proof fn lemma_clear_by_alpha(after: Surface, before: Surface, color: Color)
    requires
        is_cleared(after, before, color),
    ensures
        color.a == 255 ==> forall|x: int, y: int|
            after.in_bounds(x, y) ==> #[trigger] after.color_at(x, y) == color,
        color.a == 0 ==> after.same_picture(before),
{
}

/// Clearing a grid is filling the rectangle of its bounds.
pub proof fn lemma_clear_is_fill_of_bounds(after: Surface, before: Surface, color: Color)
    requires
        before.width <= i32::MAX,
        before.height <= i32::MAX,
    ensures
        is_cleared(after, before, color) <==> is_filled(
            after,
            before,
            Rect { left: 0, top: 0, right: before.width as i32, bottom: before.height as i32 },
            color,
        ),
{
    let bounds = Rect { left: 0, top: 0, right: before.width as i32, bottom: before.height as i32 };
    assert forall|x: int, y: int| before.in_bounds(x, y) implies bounds.covers(x, y) by {}
}

/// Every point of the outline of a rectangle lies on one of its four edges,
/// between the corners of that edge.
pub proof fn lemma_rect_outline_on_edges(rect: Rect, i: int)
    requires
        0 <= i < rect_outline(rect).len(),
    ensures
        ({
            let q = rect_outline(rect)[i];
            &&& q.0 == rect.left || q.0 == rect.right || q.1 == rect.top || q.1 == rect.bottom
            &&& gap(rect.left as int, rect.right as int) == gap(rect.left as int, q.0) + gap(
                q.0,
                rect.right as int,
            )
            &&& gap(rect.top as int, rect.bottom as int) == gap(rect.top as int, q.1) + gap(
                q.1,
                rect.bottom as int,
            )
        }),
{
    let (l, t, r, b) = (rect.left as int, rect.top as int, rect.right as int, rect.bottom as int);
    let top = line_points((l, t), (r, t));
    let bottom = line_points((l, b), (r, b));
    let left = line_points((l, t), (l, b));
    let right = line_points((r, t), (r, b));
    lemma_line_shape((l, t), (r, t));
    lemma_line_shape((l, b), (r, b));
    lemma_line_shape((l, t), (l, b));
    lemma_line_shape((r, t), (r, b));
    if i < top.len() {
        lemma_line_straight((l, t), (r, t), i);
        assert(rect_outline(rect)[i] == top[i]);
    } else if i < top.len() + bottom.len() {
        let j = i - top.len();
        lemma_line_straight((l, b), (r, b), j);
        assert(rect_outline(rect)[i] == bottom[j]);
    } else if i < top.len() + bottom.len() + left.len() {
        let j = i - top.len() - bottom.len();
        lemma_line_straight((l, t), (l, b), j);
        assert(rect_outline(rect)[i] == left[j]);
    } else {
        let j = i - top.len() - bottom.len() - left.len();
        lemma_line_straight((r, t), (r, b), j);
        assert(rect_outline(rect)[i] == right[j]);
    }
}

/// The outline of a rectangle passes through its four corners.
pub proof fn lemma_rect_outline_corners(rect: Rect)
    ensures
        rect_outline(rect).contains((rect.left as int, rect.top as int)),
        rect_outline(rect).contains((rect.right as int, rect.top as int)),
        rect_outline(rect).contains((rect.left as int, rect.bottom as int)),
        rect_outline(rect).contains((rect.right as int, rect.bottom as int)),
{
    let (l, t, r, b) = (rect.left as int, rect.top as int, rect.right as int, rect.bottom as int);
    let top = line_points((l, t), (r, t));
    let bottom = line_points((l, b), (r, b));
    let all = rect_outline(rect);
    lemma_line_ends((l, t), (r, t));
    lemma_line_ends((l, b), (r, b));
    let i0 = choose|i: int| 0 <= i < top.len() && top[i] == (l, t);
    let i1 = choose|i: int| 0 <= i < top.len() && top[i] == (r, t);
    let j0 = choose|i: int| 0 <= i < bottom.len() && bottom[i] == (l, b);
    let j1 = choose|i: int| 0 <= i < bottom.len() && bottom[i] == (r, b);
    assert(all[i0] == (l, t));
    assert(all[i1] == (r, t));
    assert(all[top.len() + j0] == (l, b));
    assert(all[top.len() + j1] == (r, b));
}

} // verus!
