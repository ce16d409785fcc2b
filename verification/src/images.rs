//! Placing images on the canvas: as they are, resized, or cut out and resized.

use vstd::prelude::*;
use crate::buffer::{can_resample, is_crop_of, is_resample_of, FilterType, PixelBuffer};
use crate::drawing::draw_if_in_bounds;
use crate::color::{composite, Color};
use crate::rect::Rect;
use crate::surface::Surface;

verus! {

/// The way in which an image is sampled when it is rotated.
#[derive(Clone, Copy, Debug, PartialEq, Eq, Structural)]
pub enum Interpolation {
    /// The nearest pixel.
    Nearest,
    /// Linear, between the four nearest pixels.
    Bilinear,
    /// Cubic, over the sixteen nearest pixels.
    Bicubic,
}

impl Interpolation {
    /// The resize filter of the same family, so that an image that is resized
    /// and then rotated is sampled alike in both steps.
    pub open spec fn spec_resize_filter(self) -> FilterType {
        match self {
            Interpolation::Nearest => FilterType::Nearest,
            Interpolation::Bilinear => FilterType::Triangle,
            Interpolation::Bicubic => FilterType::Lanczos3,
        }
    }

    /// The resize filter that goes with this interpolation: nearest with
    /// nearest, triangle with bilinear, Lanczos with bicubic.
    pub fn resize_filter(self) -> (filter: FilterType)
        ensures
            filter == self.spec_resize_filter(),
    {
        match self {
            Interpolation::Nearest => FilterType::Nearest,
            Interpolation::Bilinear => FilterType::Triangle,
            Interpolation::Bicubic => FilterType::Lanczos3,
        }
    }
}

/// The size to which an image is brought before it is drawn, and the filter
/// that it is sampled with.
#[derive(Clone, Copy, Debug)]
pub struct ResizeOption {
    pub nwidth: u32,
    pub nheight: u32,
    pub filter: FilterType,
}

/// Whether `after` is `before` with the image `top` laid over it, the
/// top-left corner of `top` at `(ox, oy)`: each pixel of `top` that falls on
/// the grid is laid over the pixel below it, what falls beside the grid is
/// dropped, and what `top` does not reach stays as it was.
pub open spec fn is_overlaid(after: Surface, before: Surface, top: Surface, ox: int, oy: int)
    -> bool {
    &&& after.same_size(before)
    &&& forall|x: int, y: int|
        before.in_bounds(x, y) ==> #[trigger] after.color_at(x, y) == if top.in_bounds(
            x - ox,
            y - oy,
        ) {
            composite(before.color_at(x, y), top.color_at(x - ox, y - oy))
        } else {
            before.color_at(x, y)
        }
}

/// Whether `src` names a block of pixels inside an image: its edges are in
/// order and none lies outside.
pub open spec fn lies_within(src: Rect, image: Surface) -> bool {
    0 <= src.left <= src.right <= image.width && 0 <= src.top <= src.bottom <= image.height
}

/// Whether `src` names a block of pixels inside `image`.
pub fn rect_lies_within(src: &Rect, image: &PixelBuffer) -> (inside: bool)
    ensures
        inside == lies_within(*src, image@),
{
    0 <= src.left && src.left <= src.right && src.right as i64 <= image.width() as i64 && 0
        <= src.top && src.top <= src.bottom && src.bottom as i64 <= image.height() as i64
}

/// Whether the block `src` of `image` can be cut out and resized to the size
/// of `dest`: the block lies within the image, the edges of `dest` are in
/// order, and the resizing is one that `can_resample` allows.
pub open spec fn can_cut_and_resize(image: Surface, src: Rect, dest: Rect) -> bool {
    &&& lies_within(src, image)
    &&& dest.left <= dest.right
    &&& dest.top <= dest.bottom
    &&& can_resample(
        (src.spec_width() as nat, src.spec_height() as nat),
        dest.spec_width(),
        dest.spec_height(),
    )
}

/// Whether `scaled` is what comes of cutting the block `src` out of `image`
/// and resizing it to the size of `dest` with `filter`.
pub open spec fn is_cut_and_resized(
    scaled: Surface,
    image: Surface,
    src: Rect,
    dest: Rect,
    filter: FilterType,
) -> bool {
    exists|part: Surface| #[trigger]
        is_crop_of(
            part,
            image,
            src.left as int,
            src.top as int,
            src.spec_width(),
            src.spec_height(),
        ) && is_resample_of(scaled, part, dest.spec_width(), dest.spec_height(), filter)
}

/// Whether `can_cut_and_resize` holds.
pub fn can_crop_and_resize(image: &PixelBuffer, src: &Rect, dest: &Rect) -> (can: bool)
    ensures
        can == can_cut_and_resize(image@, *src, *dest),
{
    if !rect_lies_within(src, image) || dest.left > dest.right || dest.top > dest.bottom {
        return false;
    }
    let width: i64 = src.right as i64 - src.left as i64;
    let height: i64 = src.bottom as i64 - src.top as i64;
    let nwidth: i64 = dest.right as i64 - dest.left as i64;
    let nheight: i64 = dest.bottom as i64 - dest.top as i64;
    if width == 0 || height == 0 || width > 0x80_0000 || height > 0x80_0000 || nwidth > 0x80_0000
        || nheight > 0x80_0000 {
        return false;
    }
    assert(16 * width * nheight <= 16 * 0x80_0000 * 0x80_0000) by (nonlinear_arith)
        requires
            0 <= width <= 0x80_0000,
            0 <= nheight <= 0x80_0000,
    ;
    assert(4 * nwidth * nheight <= 4 * 0x80_0000 * 0x80_0000) by (nonlinear_arith)
        requires
            0 <= nwidth <= 0x80_0000,
            0 <= nheight <= 0x80_0000,
    ;
    16 * (width as u128) * (nheight as u128) <= isize::MAX as u128 && 4 * (nwidth as u128) * (
    nheight as u128) <= isize::MAX as u128
}

/// Cuts the block `src` out of `image` and resizes it to the size of `dest`
/// with `filter`.
pub fn crop_and_resize(image: &PixelBuffer, src: &Rect, dest: &Rect, filter: FilterType) -> (scaled:
    PixelBuffer)
    requires
        can_cut_and_resize(image@, *src, *dest),
    ensures
        is_cut_and_resized(scaled@, image@, *src, *dest, filter),
        scaled@.width == dest.spec_width(),
        scaled@.height == dest.spec_height(),
{
    let part = image.cropped(
        src.left as u32,
        src.top as u32,
        (src.right as i64 - src.left as i64) as u32,
        (src.bottom as i64 - src.top as i64) as u32,
    );
    let scaled = part.resized(
        (dest.right as i64 - dest.left as i64) as u32,
        (dest.bottom as i64 - dest.top as i64) as u32,
        filter,
    );
    assert(is_crop_of(
        part@,
        image@,
        src.left as int,
        src.top as int,
        src.spec_width(),
        src.spec_height(),
    ));
    scaled
}

/// The part of a stretch of `extent` pixels, placed at `origin`, that falls
/// on a grid `limit` pixels long: from the first of the two numbers up to,
/// but not at, the second, counted within the stretch. Where the first is
/// not below the second, nothing falls on the grid.
pub open spec fn span_on_grid(origin: int, extent: int, limit: int) -> (int, int) {
    (
        if origin < 0 {
            -origin
        } else {
            0
        },
        if limit - origin < extent {
            limit - origin
        } else {
            extent
        },
    )
}

/// The color of the pixel `(x, y)` while `top` is being laid over `before`,
/// at the moment when the rows of `top` above `row` are done and, of the row
/// `row`, the columns left of `col`.
pub open spec fn overlaid_color(
    before: Surface,
    top: Surface,
    ox: int,
    oy: int,
    row: int,
    col: int,
    x: int,
    y: int,
) -> Color {
    if top.in_bounds(x - ox, y - oy) && (y - oy < row || (y - oy == row && x - ox < col)) {
        composite(before.color_at(x, y), top.color_at(x - ox, y - oy))
    } else {
        before.color_at(x, y)
    }
}

/// `span_on_grid` for machine integers.
fn clip_span(origin: i32, extent: u32, limit: u32) -> (span: (i64, i64))
    ensures
        (span.0 as int, span.1 as int) == span_on_grid(origin as int, extent as int, limit as int),
        0 <= span.0,
        span.1 <= extent,
        span.0 < span.1 ==> 0 <= origin + span.0 && origin + span.1 <= limit,
{
    let origin = origin as i64;
    (
        if origin < 0 {
            -origin
        } else {
            0
        },
        if limit as i64 - origin < extent as i64 {
            limit as i64 - origin
        } else {
            extent as i64
        },
    )
}

/// Lays the image `top` over `canvas` with its top-left corner at `(x, y)`,
/// pixel by pixel. What falls beside `canvas` is dropped.
pub fn overlay(canvas: &mut PixelBuffer, top: &PixelBuffer, x: i32, y: i32)
    ensures
        is_overlaid(final(canvas)@, old(canvas)@, top@, x as int, y as int),
{
    let ghost before = canvas@;
    let ghost above = top@;
    let (col0, col1) = clip_span(x, top.width(), canvas.width());
    let (row0, row1) = clip_span(y, top.height(), canvas.height());
    if col0 >= col1 || row0 >= row1 {
        return ;
    }
    let mut row: i64 = row0;
    while row < row1
        invariant
            before == old(canvas)@,
            above == top@,
            (col0 as int, col1 as int) == span_on_grid(
                x as int,
                above.width as int,
                before.width as int,
            ),
            (row0 as int, row1 as int) == span_on_grid(
                y as int,
                above.height as int,
                before.height as int,
            ),
            0 <= col0 < col1 <= above.width <= u32::MAX,
            0 <= row0 <= row <= row1 <= above.height <= u32::MAX,
            canvas@.same_size(before),
            forall|px: int, py: int|
                before.in_bounds(px, py) ==> #[trigger] canvas@.color_at(px, py) == overlaid_color(
                    before,
                    above,
                    x as int,
                    y as int,
                    row as int,
                    col0 as int,
                    px,
                    py,
                ),
        decreases row1 - row,
    {
        let mut col: i64 = col0;
        while col < col1
            invariant
                before == old(canvas)@,
                above == top@,
                (col0 as int, col1 as int) == span_on_grid(
                    x as int,
                    above.width as int,
                    before.width as int,
                ),
                (row0 as int, row1 as int) == span_on_grid(
                    y as int,
                    above.height as int,
                    before.height as int,
                ),
                0 <= col0 <= col <= col1 <= above.width <= u32::MAX,
                0 <= row0 <= row < row1 <= above.height <= u32::MAX,
                canvas@.same_size(before),
                forall|px: int, py: int|
                    before.in_bounds(px, py) ==> #[trigger] canvas@.color_at(px, py)
                        == overlaid_color(
                        before,
                        above,
                        x as int,
                        y as int,
                        row as int,
                        col as int,
                        px,
                        py,
                    ),
            decreases col1 - col,
        {
            let ghost so_far = canvas@;
            let color = top.get_pixel(col as u32, row as u32);
            draw_if_in_bounds(canvas, x as i64 + col, y as i64 + row, color);
            assert forall|px: int, py: int| before.in_bounds(px, py) implies #[trigger]
                canvas@.color_at(px, py) == overlaid_color(
                before,
                above,
                x as int,
                y as int,
                row as int,
                col + 1,
                px,
                py,
            ) by {
                assert(so_far.in_bounds(x + col, y + row));
                if px == x + col && py == y + row {
                    assert(so_far.color_at(px, py) == before.color_at(px, py));
                } else {
                    assert(canvas@.color_at(px, py) == so_far.color_at(px, py));
                }
            }
            col = col + 1;
        }
        row = row + 1;
    }
}

/// Where the image that is laid over has a fully opaque pixel, the result
/// shows exactly that pixel.
pub proof fn lemma_overlay_opaque_exact(
    after: Surface,
    before: Surface,
    top: Surface,
    ox: int,
    oy: int,
    x: int,
    y: int,
)
    requires
        is_overlaid(after, before, top, ox, oy),
        before.in_bounds(x, y),
        top.in_bounds(x - ox, y - oy),
        top.color_at(x - ox, y - oy).a == 255,
    ensures
        after.color_at(x, y) == top.color_at(x - ox, y - oy),
{
}

/// An image whose pixels are all fully transparent changes nothing that it
/// is laid over.
pub proof fn lemma_overlay_transparent_noop(
    after: Surface,
    before: Surface,
    top: Surface,
    ox: int,
    oy: int,
)
    requires
        is_overlaid(after, before, top, ox, oy),
        forall|i: int, j: int| top.in_bounds(i, j) ==> (#[trigger] top.color_at(i, j)).a == 0,
    ensures
        after.same_picture(before),
{
    assert forall|x: int, y: int| after.in_bounds(x, y) implies #[trigger] after.color_at(x, y)
        == before.color_at(x, y) by {
        if top.in_bounds(x - ox, y - oy) {
            assert(top.color_at(x - ox, y - oy).a == 0);
        }
    }
}

/// An image that lies wholly beside the grid changes nothing.
pub proof fn lemma_overlay_outside_noop(
    after: Surface,
    before: Surface,
    top: Surface,
    ox: int,
    oy: int,
)
    requires
        is_overlaid(after, before, top, ox, oy),
        ox >= before.width || oy >= before.height || ox + top.width <= 0 || oy + top.height <= 0,
    ensures
        after.same_picture(before),
{
}

} // verus!
