//! The mathematical picture of a pixel grid, and what drawing does to it.

use vstd::prelude::*;
use crate::color::{composite, composite_times, Color};

verus! {

/// A grid of colors as contracts see it: a width, a height, and the color at
/// each coordinate. The origin is the top-left corner, `x` grows to the right
/// and `y` downwards. Only the coordinates inside the bounds mean anything.
pub struct Surface {
    pub width: nat,
    pub height: nat,
    pub pixels: Map<(int, int), Color>,
}

impl Surface {
    /// Whether `(x, y)` is a pixel of the grid.
    pub open spec fn in_bounds(self, x: int, y: int) -> bool {
        0 <= x < self.width && 0 <= y < self.height
    }

    /// The color at `(x, y)`.
    pub open spec fn color_at(self, x: int, y: int) -> Color {
        self.pixels[(x, y)]
    }

    /// Whether two grids have the same width and height.
    pub open spec fn same_size(self, other: Surface) -> bool {
        self.width == other.width && self.height == other.height
    }

    /// Whether two grids have the same size and the same color at every
    /// pixel inside it.
    pub open spec fn same_picture(self, other: Surface) -> bool {
        &&& self.same_size(other)
        &&& forall|x: int, y: int|
            self.in_bounds(x, y) ==> #[trigger] self.color_at(x, y) == other.color_at(x, y)
    }

    /// A grid of the given size in which every pixel is transparent black.
    pub open spec fn blank(width: nat, height: nat) -> Surface {
        Surface {
            width,
            height,
            pixels: Map::new(
                |p: (int, int)| 0 <= p.0 < width && 0 <= p.1 < height,
                |p: (int, int)| Color { r: 0, g: 0, b: 0, a: 0 },
            ),
        }
    }

    /// The grid with the pixel at `(x, y)` set to `color`.
    pub open spec fn with_pixel(self, x: int, y: int, color: Color) -> Surface {
        Surface {
            width: self.width,
            height: self.height,
            pixels: self.pixels.insert((x, y), color),
        }
    }

    /// The grid after `color` was laid over the pixel at `(x, y)`. A point
    /// outside the bounds is clipped: the grid stays as it is.
    pub open spec fn blend_at(self, x: int, y: int, color: Color) -> Surface {
        if self.in_bounds(x, y) {
            self.with_pixel(x, y, composite(self.color_at(x, y), color))
        } else {
            self
        }
    }

    /// The grid after `color` was laid over each of `points` in turn. A point
    /// that occurs twice is blended twice.
    pub open spec fn paint(self, points: Seq<(int, int)>, color: Color) -> Surface
        decreases points.len(),
    {
        if points.len() == 0 {
            self
        } else {
            self.paint(points.drop_last(), color).blend_at(points.last().0, points.last().1, color)
        }
    }
}

/// How often the point `(x, y)` occurs in `points`.
pub open spec fn hits(points: Seq<(int, int)>, x: int, y: int) -> nat
    decreases points.len(),
{
    if points.len() == 0 {
        0
    } else {
        hits(points.drop_last(), x, y) + if points.last() == (x, y) { 1nat } else { 0nat }
    }
}

/// A point occurs at least once in a sequence exactly if the sequence
/// contains it.
pub proof fn lemma_hits_contains(points: Seq<(int, int)>, x: int, y: int)
    ensures
        hits(points, x, y) > 0 <==> points.contains((x, y)),
    decreases points.len(),
{
    if points.len() > 0 {
        let init = points.drop_last();
        lemma_hits_contains(init, x, y);
        if points.contains((x, y)) {
            let i = choose|i: int| 0 <= i < points.len() && points[i] == (x, y);
            if i < points.len() - 1 {
                assert(init[i] == (x, y));
            }
        }
        if init.contains((x, y)) {
            let i = choose|i: int| 0 <= i < init.len() && init[i] == (x, y);
            assert(points[i] == (x, y));
        }
        if points.last() == (x, y) {
            assert(points[points.len() - 1] == (x, y));
        }
    }
}

/// Painting keeps the size of the grid.
pub proof fn lemma_paint_same_size(s: Surface, points: Seq<(int, int)>, color: Color)
    ensures
        s.paint(points, color).same_size(s),
    decreases points.len(),
{
    if points.len() > 0 {
        lemma_paint_same_size(s, points.drop_last(), color);
    }
}

/// Painting one more point is painting the others first and then blending
/// that point.
pub proof fn lemma_paint_push(s: Surface, points: Seq<(int, int)>, p: (int, int), color: Color)
    ensures
        s.paint(points.push(p), color) == s.paint(points, color).blend_at(p.0, p.1, color),
{
    assert(points.push(p).drop_last() =~= points);
}

/// Painting two runs of points one after the other is painting their
/// concatenation.
pub proof fn lemma_paint_concat(
    s: Surface,
    first: Seq<(int, int)>,
    second: Seq<(int, int)>,
    color: Color,
)
    ensures
        s.paint(first + second, color) == s.paint(first, color).paint(second, color),
    decreases second.len(),
{
    if second.len() == 0 {
        assert(first + second =~= first);
    } else {
        lemma_paint_concat(s, first, second.drop_last(), color);
        assert((first + second).drop_last() =~= first + second.drop_last());
        assert((first + second).last() == second.last());
    }
}

/// After painting, every pixel shows its old color with the new one laid over
/// it as many times as the pixel occurs among the points. This holds of a
/// pixel that no point touches too: it keeps its color.
pub proof fn lemma_paint_pixel(s: Surface, points: Seq<(int, int)>, color: Color, x: int, y: int)
    requires
        s.in_bounds(x, y),
    ensures
        s.paint(points, color).color_at(x, y) == composite_times(
            s.color_at(x, y),
            color,
            hits(points, x, y),
        ),
    decreases points.len(),
{
    if points.len() > 0 {
        lemma_paint_pixel(s, points.drop_last(), color, x, y);
        lemma_paint_same_size(s, points.drop_last(), color);
    }
}

/// What lies outside the bounds is never written: painting leaves the color
/// recorded at such a coordinate alone.
pub proof fn lemma_paint_clips(s: Surface, points: Seq<(int, int)>, color: Color, x: int, y: int)
    requires
        !s.in_bounds(x, y),
    ensures
        s.paint(points, color).color_at(x, y) == s.color_at(x, y),
    decreases points.len(),
{
    if points.len() > 0 {
        lemma_paint_clips(s, points.drop_last(), color, x, y);
        lemma_paint_same_size(s, points.drop_last(), color);
    }
}

/// A pixel that is not among the points keeps its color.
pub proof fn lemma_paint_untouched(
    s: Surface,
    points: Seq<(int, int)>,
    color: Color,
    x: int,
    y: int,
)
    requires
        !points.contains((x, y)),
    ensures
        s.paint(points, color).color_at(x, y) == s.color_at(x, y),
{
    lemma_hits_contains(points, x, y);
    if s.in_bounds(x, y) {
        lemma_paint_pixel(s, points, color, x, y);
    } else {
        lemma_paint_clips(s, points, color, x, y);
    }
}

/// Writing a fully opaque color and reading it back gives exactly that color:
/// every pixel inside the bounds that is among the painted points shows the
/// color, whatever it showed before and however often it was painted.
pub proof fn lemma_paint_opaque_exact(
    s: Surface,
    points: Seq<(int, int)>,
    color: Color,
    x: int,
    y: int,
)
    requires
        color.a == 255,
        s.in_bounds(x, y),
        points.contains((x, y)),
    ensures
        s.paint(points, color).color_at(x, y) == color,
{
    lemma_hits_contains(points, x, y);
    lemma_paint_pixel(s, points, color, x, y);
    crate::color::lemma_opaque_times(s.color_at(x, y), color, hits(points, x, y));
}

/// Painting with a fully transparent color changes no pixel.
pub proof fn lemma_paint_transparent_noop(s: Surface, points: Seq<(int, int)>, color: Color)
    requires
        color.a == 0,
    ensures
        s.paint(points, color).same_picture(s),
        forall|x: int, y: int| #[trigger] s.paint(points, color).color_at(x, y) == s.color_at(x, y),
{
    lemma_paint_same_size(s, points, color);
    assert forall|x: int, y: int| #[trigger]
        s.paint(points, color).color_at(x, y) == s.color_at(x, y) by {
        if s.in_bounds(x, y) {
            lemma_paint_pixel(s, points, color, x, y);
            crate::color::lemma_transparent_times(s.color_at(x, y), color, hits(points, x, y));
        } else {
            lemma_paint_clips(s, points, color, x, y);
        }
    }
}

/// Where no point occurs twice in a sequence, no pixel is painted more than
/// once.
pub proof fn lemma_hits_of_distinct(points: Seq<(int, int)>, x: int, y: int)
    requires
        points.no_duplicates(),
    ensures
        hits(points, x, y) <= 1,
    decreases points.len(),
{
    if points.len() > 0 {
        let init = points.drop_last();
        assert(init.no_duplicates());
        lemma_hits_of_distinct(init, x, y);
        lemma_hits_contains(init, x, y);
        if points.last() == (x, y) && init.contains((x, y)) {
            let i = choose|i: int| 0 <= i < init.len() && init[i] == (x, y);
            assert(points[i] == points[points.len() - 1]);
        }
    }
}

} // verus!
