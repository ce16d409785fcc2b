//! Text, as a run of glyphs: how much room it takes and how it is drawn.

use vstd::prelude::*;
use vstd::arithmetic::div_mod::lemma_fundamental_div_mod;
use crate::buffer::PixelBuffer;
use crate::color::{composite, Color};
use crate::drawing::draw_if_in_bounds;
use crate::rect::{half_floor, Rect};
use crate::surface::Surface;

verus! {

/// One glyph of a line of text that has been laid out and rasterized: where
/// its box stands relative to the origin of the text, how large the box is,
/// and how much of each pixel of the box the glyph covers.
pub struct Glyph {
    x: i32,
    y: i32,
    width: u32,
    height: u32,
    coverage: Vec<u8>,
}

/// A glyph as contracts see it. `coverage` holds one byte for each pixel of
/// the box, row after row from the top: 0 where the glyph leaves the pixel
/// free, 255 where it covers it whole.
pub struct GlyphView {
    pub x: int,
    pub y: int,
    pub width: nat,
    pub height: nat,
    pub coverage: Seq<u8>,
}

impl GlyphView {
    /// Whether there is one coverage byte for each pixel of the box.
    pub open spec fn wf(self) -> bool {
        self.coverage.len() == self.width * self.height
    }

    /// The color in which the `i`-th coverage byte shows `color`.
    pub open spec fn ink(self, color: Color, i: int) -> Color {
        color.spec_with_coverage(self.coverage[i])
    }

    /// The pixel that the `i`-th coverage byte stands for, with the origin of
    /// the text at `(ox, oy)`.
    pub open spec fn pixel(self, ox: int, oy: int, i: int) -> (int, int) {
        (ox + self.x + i % (self.width as int), oy + self.y + i / (self.width as int))
    }

    /// The grid after the first `n` coverage bytes of the glyph were drawn
    /// in `color`, each laid over its pixel in the order of the bytes.
    pub open spec fn drawn_upto(self, s: Surface, color: Color, ox: int, oy: int, n: nat) -> Surface
        decreases n,
    {
        if n == 0 {
            s
        } else {
            let i = n - 1;
            let at = self.pixel(ox, oy, i);
            self.drawn_upto(s, color, ox, oy, i as nat).blend_at(at.0, at.1, self.ink(color, i))
        }
    }

    /// The grid after the glyph was drawn in `color`.
    pub open spec fn drawn(self, s: Surface, color: Color, ox: int, oy: int) -> Surface {
        self.drawn_upto(s, color, ox, oy, self.coverage.len())
    }
}

impl View for Glyph {
    type V = GlyphView;

    closed spec fn view(&self) -> GlyphView {
        GlyphView {
            x: self.x as int,
            y: self.y as int,
            width: self.width as nat,
            height: self.height as nat,
            coverage: self.coverage@,
        }
    }
}

/// The widths of all glyphs added up.
pub open spec fn total_width(glyphs: Seq<Glyph>) -> int
    decreases glyphs.len(),
{
    if glyphs.len() == 0 {
        0
    } else {
        total_width(glyphs.drop_last()) + glyphs.last()@.width
    }
}

/// The height of the last glyph, and 0 where there is no glyph.
pub open spec fn last_height(glyphs: Seq<Glyph>) -> int {
    if glyphs.len() == 0 {
        0
    } else {
        glyphs.last()@.height as int
    }
}

/// The room that a run of glyphs takes: a rectangle at the origin, as wide as
/// all glyphs together and as high as the last of them.
pub open spec fn measured(glyphs: Seq<Glyph>) -> Rect {
    Rect { left: 0, top: 0, right: total_width(glyphs) as i32, bottom: last_height(glyphs) as i32 }
}

/// Whether the measure of a run of glyphs can be held in a `Rect`.
pub open spec fn measurable(glyphs: Seq<Glyph>) -> bool {
    total_width(glyphs) <= i32::MAX && last_height(glyphs) <= i32::MAX
}

/// The grid after a run of glyphs was drawn in `color`, one glyph after the
/// other, with the origin of the text at `(ox, oy)`.
pub open spec fn glyphs_drawn(s: Surface, glyphs: Seq<Glyph>, color: Color, ox: int, oy: int)
    -> Surface
    decreases glyphs.len(),
{
    if glyphs.len() == 0 {
        s
    } else {
        glyphs.last()@.drawn(glyphs_drawn(s, glyphs.drop_last(), color, ox, oy), color, ox, oy)
    }
}

/// The coordinate at which a stretch of the length `extent` begins so that
/// its middle, rounded down, is `middle`.
pub open spec fn centered_start(middle: int, extent: int) -> int {
    middle - extent / 2
}

impl Glyph {
    #[verifier::type_invariant]
    spec fn complete(self) -> bool {
        self.coverage.len() == self.width * self.height
    }

    /// A glyph whose box, `width` by `height` pixels, has its top-left corner
    /// at `(x, y)` from the origin of the text. There is none unless
    /// `coverage` holds exactly one byte for each pixel of the box.
    pub fn new(x: i32, y: i32, width: u32, height: u32, coverage: Vec<u8>) -> (made: Option<Glyph>)
        ensures
            made.is_some() <==> coverage.len() == width * height,
            made.is_some() ==> made.unwrap()@ == (GlyphView {
                x: x as int,
                y: y as int,
                width: width as nat,
                height: height as nat,
                coverage: coverage@,
            }),
            made.is_some() ==> made.unwrap()@.wf(),
    {
        assert(width * height <= 0xffff_ffff * 0xffff_ffff) by (nonlinear_arith)
            requires
                width <= 0xffff_ffff,
                height <= 0xffff_ffff,
        ;
        if coverage.len() as u64 == width as u64 * height as u64 {
            Some(Glyph { x, y, width, height, coverage })
        } else {
            None
        }
    }

    pub fn x(&self) -> (x: i32)
        ensures
            x == self@.x,
    {
        self.x
    }

    pub fn y(&self) -> (y: i32)
        ensures
            y == self@.y,
    {
        self.y
    }

    pub fn width(&self) -> (width: u32)
        ensures
            width == self@.width,
    {
        self.width
    }

    pub fn height(&self) -> (height: u32)
        ensures
            height == self@.height,
    {
        self.height
    }

    /// How much of the pixel `(dx, dy)` of the box the glyph covers.
    pub fn coverage_at(&self, dx: u32, dy: u32) -> (covered: u8)
        requires
            dx < self@.width,
            dy < self@.height,
        ensures
            self@.wf(),
            covered == self@.coverage[dy * self@.width + dx],
    {
        proof {
            use_type_invariant(self);
            assert(dy * self.width + dx < self.width * self.height) by (nonlinear_arith)
                requires
                    dx < self.width,
                    dy < self.height,
            ;
        }
        self.coverage[dy as usize * self.width as usize + dx as usize]
    }
}

/// Whether the measure of a run of glyphs can be held in a `Rect`.
pub fn is_measurable(glyphs: &Vec<Glyph>) -> (can: bool)
    ensures
        can == measurable(glyphs@),
{
    let mut width: i64 = 0;
    let mut k: usize = 0;
    proof {
        assert(glyphs@.take(0) =~= Seq::<Glyph>::empty());
    }
    while k < glyphs.len()
        invariant
            0 <= k <= glyphs.len(),
            width == total_width(glyphs@.take(k as int)),
            0 <= width <= i32::MAX,
        decreases glyphs.len() - k,
    {
        proof {
            assert(glyphs@.take(k + 1).drop_last() =~= glyphs@.take(k as int));
            lemma_total_width_grows(glyphs@, k + 1);
        }
        width = width + glyphs[k].width() as i64;
        if width > i32::MAX as i64 {
            return false;
        }
        k = k + 1;
    }
    proof {
        assert(glyphs@.take(k as int) =~= glyphs@);
    }
    glyphs.len() == 0 || glyphs[glyphs.len() - 1].height() <= i32::MAX as u32
}

/// The room that a run of glyphs takes: a rectangle with its top-left corner
/// at the origin, as wide as all glyphs together and as high as the last of
/// them. No glyphs take no room.
pub fn measure_text(glyphs: &Vec<Glyph>) -> (room: Rect)
    requires
        measurable(glyphs@),
    ensures
        room == measured(glyphs@),
        room.left == 0 && room.top == 0,
        room.spec_width() == total_width(glyphs@),
        room.spec_height() == last_height(glyphs@),
        glyphs@.len() == 0 ==> room.spec_width() == 0 && room.spec_height() == 0,
{
    let mut width: i64 = 0;
    let mut height: i64 = 0;
    let mut k: usize = 0;
    proof {
        assert(glyphs@.take(0) =~= Seq::<Glyph>::empty());
        lemma_total_width_nonnegative(glyphs@);
    }
    while k < glyphs.len()
        invariant
            0 <= k <= glyphs.len(),
            measurable(glyphs@),
            width == total_width(glyphs@.take(k as int)),
            height == last_height(glyphs@.take(k as int)),
            0 <= width <= total_width(glyphs@),
        decreases glyphs.len() - k,
    {
        proof {
            assert(glyphs@.take(k + 1).drop_last() =~= glyphs@.take(k as int));
            lemma_total_width_grows(glyphs@, k + 1);
        }
        width = width + glyphs[k].width() as i64;
        height = glyphs[k].height() as i64;
        k = k + 1;
    }
    proof {
        assert(glyphs@.take(k as int) =~= glyphs@);
    }
    Rect { left: 0, top: 0, right: width as i32, bottom: height as i32 }
}

/// No beginning of a run of glyphs is wider than the whole run.
pub proof fn lemma_total_width_grows(glyphs: Seq<Glyph>, n: int)
    requires
        0 <= n <= glyphs.len(),
    ensures
        0 <= total_width(glyphs.take(n)) <= total_width(glyphs),
    decreases glyphs.len() - n,
{
    if n == glyphs.len() {
        assert(glyphs.take(n) =~= glyphs);
        lemma_total_width_nonnegative(glyphs);
    } else {
        lemma_total_width_grows(glyphs, n + 1);
        assert(glyphs.take(n + 1).drop_last() =~= glyphs.take(n));
        lemma_total_width_nonnegative(glyphs.take(n));
    }
}

/// The width of a run of glyphs is not negative.
pub proof fn lemma_total_width_nonnegative(glyphs: Seq<Glyph>)
    ensures
        0 <= total_width(glyphs),
    decreases glyphs.len(),
{
    if glyphs.len() > 0 {
        lemma_total_width_nonnegative(glyphs.drop_last());
    }
}

/// A box that is placed by `centered_start` has its center, as `Rect::center`
/// computes it, exactly at the point asked for, and its true middle no more
/// than half a pixel to the right of it and below it.
pub proof fn lemma_centered_box(cx: int, cy: int, width: int, height: int)
    ensures
        ({
            let left = centered_start(cx, width);
            let top = centered_start(cy, height);
            &&& left + width / 2 == cx
            &&& top + height / 2 == cy
            &&& 2 * cx <= 2 * left + width <= 2 * cx + 1
            &&& 2 * cy <= 2 * top + height <= 2 * cy + 1
        }),
{
}

/// Draws one glyph of a text whose origin is `(ox, oy)`.
fn draw_glyph(canvas: &mut PixelBuffer, glyph: &Glyph, color: Color, ox: i64, oy: i64)
    requires
        -0x1_0000_0000 <= ox <= 0x1_0000_0000,
        -0x1_0000_0000 <= oy <= 0x1_0000_0000,
    ensures
        final(canvas)@ == glyph@.drawn(old(canvas)@, color, ox as int, oy as int),
        final(canvas)@.same_size(old(canvas)@),
{
    proof {
        use_type_invariant(glyph);
    }
    let n: usize = glyph.coverage.len();
    let width: usize = glyph.width as usize;
    let mut i: usize = 0;
    while i < n
        invariant
            -0x1_0000_0000 <= ox <= 0x1_0000_0000,
            -0x1_0000_0000 <= oy <= 0x1_0000_0000,
            n == glyph.coverage.len(),
            n == glyph.width * glyph.height,
            width == glyph.width,
            0 <= i <= n,
            canvas@ == glyph@.drawn_upto(old(canvas)@, color, ox as int, oy as int, i as nat),
            canvas@.same_size(old(canvas)@),
        decreases n - i,
    {
        assert(width > 0) by (nonlinear_arith)
            requires
                i < n,
                n == glyph.width * glyph.height,
                width == glyph.width,
        ;
        let dx: usize = i % width;
        let dy: usize = i / width;
        assert(dy < glyph.height) by (nonlinear_arith)
            requires
                i < glyph.width * glyph.height,
                width == glyph.width,
                width > 0,
                dy == (i as int) / (width as int),
        ;
        let ink = color.with_coverage(glyph.coverage[i]);
        let at_x: i64 = ox + glyph.x as i64 + dx as i64;
        let at_y: i64 = oy + glyph.y as i64 + dy as i64;
        draw_if_in_bounds(canvas, at_x, at_y, ink);
        i = i + 1;
    }
}

/// Draws the run of glyphs with the origin of the text at `(ox, oy)`.
fn draw_glyphs_from(canvas: &mut PixelBuffer, glyphs: &Vec<Glyph>, color: Color, ox: i64, oy: i64)
    requires
        -0x1_0000_0000 <= ox <= 0x1_0000_0000,
        -0x1_0000_0000 <= oy <= 0x1_0000_0000,
    ensures
        final(canvas)@ == glyphs_drawn(old(canvas)@, glyphs@, color, ox as int, oy as int),
        final(canvas)@.same_size(old(canvas)@),
{
    let mut k: usize = 0;
    proof {
        assert(glyphs@.take(0) =~= Seq::<Glyph>::empty());
    }
    while k < glyphs.len()
        invariant
            -0x1_0000_0000 <= ox <= 0x1_0000_0000,
            -0x1_0000_0000 <= oy <= 0x1_0000_0000,
            0 <= k <= glyphs.len(),
            canvas@ == glyphs_drawn(
                old(canvas)@,
                glyphs@.take(k as int),
                color,
                ox as int,
                oy as int,
            ),
            canvas@.same_size(old(canvas)@),
        decreases glyphs.len() - k,
    {
        proof {
            assert(glyphs@.take(k + 1).drop_last() =~= glyphs@.take(k as int));
            assert(glyphs@.take(k + 1).last() == glyphs@[k as int]);
        }
        draw_glyph(canvas, &glyphs[k], color, ox, oy);
        k = k + 1;
    }
    proof {
        assert(glyphs@.take(k as int) =~= glyphs@);
    }
}

/// Draws a text, given as its glyphs, in `color`, with the origin of the
/// text at `(x, y)`. Each glyph is drawn in turn, and each pixel of its
/// box gets `color` laid over it with the alpha weakened by the glyph's
/// coverage of that pixel. What falls off the canvas is clipped.
pub fn draw_glyphs(canvas: &mut PixelBuffer, glyphs: &Vec<Glyph>, color: Color, x: i32, y: i32)
    ensures
        final(canvas)@ == glyphs_drawn(old(canvas)@, glyphs@, color, x as int, y as int),
        final(canvas)@.same_size(old(canvas)@),
{
    draw_glyphs_from(canvas, glyphs, color, x as i64, y as i64)
}

/// Draws a text, given as its glyphs, so that the room it takes, as
/// `measure_text` gives it, has its center at `(center_x, center_y)`.
pub fn draw_glyphs_centered(
    canvas: &mut PixelBuffer,
    glyphs: &Vec<Glyph>,
    color: Color,
    center_x: i32,
    center_y: i32,
)
    requires
        measurable(glyphs@),
    ensures
        final(canvas)@ == glyphs_drawn(
            old(canvas)@,
            glyphs@,
            color,
            centered_start(center_x as int, total_width(glyphs@)),
            centered_start(center_y as int, last_height(glyphs@)),
        ),
        final(canvas)@.same_size(old(canvas)@),
{
    let room = measure_text(glyphs);
    proof {
        lemma_total_width_nonnegative(glyphs@);
    }
    let left: i64 = center_x as i64 - half_floor(room.right as i64);
    let top: i64 = center_y as i64 - half_floor(room.bottom as i64);
    draw_glyphs_from(canvas, glyphs, color, left, top)
}

/// Drawing a glyph keeps the size of the grid.
pub proof fn lemma_glyph_same_size(
    g: GlyphView,
    s: Surface,
    color: Color,
    ox: int,
    oy: int,
    n: nat,
)
    ensures
        g.drawn_upto(s, color, ox, oy, n).same_size(s),
    decreases n,
{
    if n > 0 {
        lemma_glyph_same_size(g, s, color, ox, oy, (n - 1) as nat);
    }
}

/// Drawing a run of glyphs keeps the size of the grid.
pub proof fn lemma_glyphs_same_size(
    s: Surface,
    glyphs: Seq<Glyph>,
    color: Color,
    ox: int,
    oy: int,
)
    ensures
        glyphs_drawn(s, glyphs, color, ox, oy).same_size(s),
    decreases glyphs.len(),
{
    if glyphs.len() > 0 {
        lemma_glyphs_same_size(s, glyphs.drop_last(), color, ox, oy);
        lemma_glyph_same_size(
            glyphs.last()@,
            glyphs_drawn(s, glyphs.drop_last(), color, ox, oy),
            color,
            ox,
            oy,
            glyphs.last()@.coverage.len(),
        );
    }
}

/// Two coverage bytes of a glyph never stand for the same pixel.
pub proof fn lemma_glyph_pixels_distinct(g: GlyphView, ox: int, oy: int, i: int, j: int)
    requires
        g.width > 0,
        i != j,
    ensures
        g.pixel(ox, oy, i) != g.pixel(ox, oy, j),
{
    lemma_fundamental_div_mod(i, g.width as int);
    lemma_fundamental_div_mod(j, g.width as int);
}

/// A pixel that none of the first `n` coverage bytes stands for keeps its
/// color while they are drawn.
pub proof fn lemma_glyph_untouched(
    g: GlyphView,
    s: Surface,
    color: Color,
    ox: int,
    oy: int,
    n: nat,
    x: int,
    y: int,
)
    requires
        forall|j: int| 0 <= j < n ==> #[trigger] g.pixel(ox, oy, j) != (x, y),
    ensures
        g.drawn_upto(s, color, ox, oy, n).color_at(x, y) == s.color_at(x, y),
    decreases n,
{
    if n > 0 {
        lemma_glyph_untouched(g, s, color, ox, oy, (n - 1) as nat, x, y);
        assert(g.pixel(ox, oy, n - 1) != (x, y));
    }
}

/// What a glyph does to the pixel of its `i`-th coverage byte: the color of
/// the text, with its alpha weakened by that byte, is laid over the pixel
/// once.
pub proof fn lemma_glyph_pixel(
    g: GlyphView,
    s: Surface,
    color: Color,
    ox: int,
    oy: int,
    n: nat,
    i: int,
)
    requires
        g.width > 0,
        0 <= i < n,
        s.in_bounds(g.pixel(ox, oy, i).0, g.pixel(ox, oy, i).1),
    ensures
        g.drawn_upto(s, color, ox, oy, n).color_at(g.pixel(ox, oy, i).0, g.pixel(ox, oy, i).1)
            == composite(
            s.color_at(g.pixel(ox, oy, i).0, g.pixel(ox, oy, i).1),
            g.ink(color, i),
        ),
    decreases n,
{
    let at = g.pixel(ox, oy, i);
    let earlier = g.drawn_upto(s, color, ox, oy, (n - 1) as nat);
    lemma_glyph_same_size(g, s, color, ox, oy, (n - 1) as nat);
    if i == n - 1 {
        assert forall|j: int| 0 <= j < n - 1 implies #[trigger] g.pixel(ox, oy, j) != at by {
            lemma_glyph_pixels_distinct(g, ox, oy, j, i);
        }
        lemma_glyph_untouched(g, s, color, ox, oy, (n - 1) as nat, at.0, at.1);
    } else {
        lemma_glyph_pixel(g, s, color, ox, oy, (n - 1) as nat, i);
        lemma_glyph_pixels_distinct(g, ox, oy, n - 1, i);
    }
}

/// Where a glyph covers a pixel whole and the color of the text is fully
/// opaque, the pixel shows exactly that color once the glyph is drawn.
pub proof fn lemma_glyph_full_coverage_exact(
    g: GlyphView,
    s: Surface,
    color: Color,
    ox: int,
    oy: int,
    i: int,
)
    requires
        g.width > 0,
        0 <= i < g.coverage.len(),
        g.coverage[i] == 255,
        color.a == 255,
        s.in_bounds(g.pixel(ox, oy, i).0, g.pixel(ox, oy, i).1),
    ensures
        g.drawn(s, color, ox, oy).color_at(g.pixel(ox, oy, i).0, g.pixel(ox, oy, i).1) == color,
{
    lemma_glyph_pixel(g, s, color, ox, oy, g.coverage.len(), i);
    assert(255 * 255 / 255 == 255);
}

/// A glyph drawn in a fully transparent color changes no pixel.
pub proof fn lemma_glyph_transparent_noop(
    g: GlyphView,
    s: Surface,
    color: Color,
    ox: int,
    oy: int,
    n: nat,
    x: int,
    y: int,
)
    requires
        color.a == 0,
    ensures
        g.drawn_upto(s, color, ox, oy, n).color_at(x, y) == s.color_at(x, y),
    decreases n,
{
    if n > 0 {
        lemma_glyph_transparent_noop(g, s, color, ox, oy, (n - 1) as nat, x, y);
        assert(0 * g.coverage[n - 1] == 0) by (nonlinear_arith);
        assert(g.ink(color, n - 1).a == 0);
    }
}

/// A text drawn in a fully transparent color changes no pixel.
pub proof fn lemma_glyphs_transparent_noop(
    s: Surface,
    glyphs: Seq<Glyph>,
    color: Color,
    ox: int,
    oy: int,
    x: int,
    y: int,
)
    requires
        color.a == 0,
    ensures
        glyphs_drawn(s, glyphs, color, ox, oy).color_at(x, y) == s.color_at(x, y),
    decreases glyphs.len(),
{
    if glyphs.len() > 0 {
        lemma_glyphs_transparent_noop(s, glyphs.drop_last(), color, ox, oy, x, y);
        lemma_glyph_transparent_noop(
            glyphs.last()@,
            glyphs_drawn(s, glyphs.drop_last(), color, ox, oy),
            color,
            ox,
            oy,
            glyphs.last()@.coverage.len(),
            x,
            y,
        );
    }
}

/// No text leaves the grid as it is.
pub proof fn lemma_no_glyphs_noop(s: Surface, color: Color, ox: int, oy: int)
    ensures
        glyphs_drawn(s, Seq::<Glyph>::empty(), color, ox, oy) == s,
{
}

/// The room of a text that is placed by `centered_start` about a point has
/// its center, as `Rect::center` computes it, at that point.
pub proof fn lemma_centered_room(glyphs: Seq<Glyph>, cx: i32, cy: i32)
    requires
        measurable(glyphs),
    ensures
        ({
            let left = centered_start(cx as int, total_width(glyphs));
            let top = centered_start(cy as int, last_height(glyphs));
            let right = left + total_width(glyphs);
            let bottom = top + last_height(glyphs);
            &&& left + (right - left) / 2 == cx
            &&& top + (bottom - top) / 2 == cy
            &&& Rect::fits(left) && Rect::fits(top) && Rect::fits(right) && Rect::fits(bottom)
                ==> (Rect {
                left: left as i32,
                top: top as i32,
                right: right as i32,
                bottom: bottom as i32,
            }).spec_center() == (cx as int, cy as int)
        }),
{
    lemma_total_width_nonnegative(glyphs);
}

} // verus!
