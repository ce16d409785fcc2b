//! The canvas: a pixel buffer and a font, and the drawing operations on them.

use vstd::prelude::*;
use crate::buffer::{can_hold, can_resample, is_resample_of, FilterType, PixelBuffer};
use crate::circle::{circle_disc, circle_outline};
use crate::color::Color;
use crate::drawing::{
    draw_filled_circle_mut, draw_filled_rect_mut, draw_hollow_circle_mut, draw_hollow_rect_mut,
    draw_if_in_bounds, draw_line_segment_mut, fill_block, is_cleared, is_filled, plane32,
    rect_outline, touches,
};
use crate::images::{
    can_cut_and_resize, crop_and_resize, is_cut_and_resized, is_overlaid, overlay, ResizeOption,
};
use crate::line::line_points;
use crate::rect::Rect;
use crate::surface::Surface;
use crate::text::{
    centered_start, draw_glyphs, draw_glyphs_centered, glyphs_drawn, last_height, measurable,
    total_width, Glyph,
};

verus! {

#[verifier::external_type_specification]
#[verifier::external_body]
pub struct ExFont(fontdue::Font);

/// A drawing surface that lives in memory. It owns its pixels and the font
/// that text is set in. Its size is fixed when it is made; every drawing
/// operation clips to that size and changes pixels by blending only.
pub struct OffscreenCanvas {
    canvas: PixelBuffer,
    font: fontdue::Font,
}

impl View for OffscreenCanvas {
    type V = Surface;

    closed spec fn view(&self) -> Surface {
        self.canvas@
    }
}

impl OffscreenCanvas {
    /// The font that the canvas was made with.
    pub closed spec fn spec_font(&self) -> fontdue::Font {
        self.font
    }

    /// A canvas of `width` by `height` pixels, all transparent black, that
    /// holds `font`.
    pub fn new(width: u32, height: u32, font: fontdue::Font) -> (canvas: OffscreenCanvas)
        requires
            can_hold(width as int, height as int),
        ensures
            canvas@ == Surface::blank(width as nat, height as nat),
            canvas.spec_font() == font,
    {
        OffscreenCanvas { font, canvas: PixelBuffer::new(width, height) }
    }

    /// Lays `color` over every pixel of the canvas. Since this blends, a
    /// fully opaque color replaces what was there, and a fully transparent
    /// one leaves the canvas as it is.
    pub fn clear(&mut self, color: Color)
        ensures
            is_cleared(final(self)@, old(self)@, color),
            final(self).spec_font() == old(self).spec_font(),
    {
        let w: i64 = self.canvas.width() as i64;
        let h: i64 = self.canvas.height() as i64;
        fill_block(&mut self.canvas, 0, w, 0, h, color);
    }

    /// Lays `color` over the pixel at `(x, y)`; a point off the canvas is
    /// clipped.
    pub fn blend(&mut self, x: i32, y: i32, color: Color)
        ensures
            final(self)@ == old(self)@.blend_at(x as int, y as int, color),
            final(self)@.same_size(old(self)@),
            old(self)@.in_bounds(x as int, y as int) && color.a == 255 ==> final(self)@.color_at(
                x as int,
                y as int,
            ) == color,
            final(self).spec_font() == old(self).spec_font(),
    {
        draw_if_in_bounds(&mut self.canvas, x as i64, y as i64, color)
    }

    /// Lays `color` over every pixel of the canvas that `rect` covers: those
    /// from its left edge up to, but not on, its right edge, and from its top
    /// edge up to, but not on, its bottom edge. What lies off the canvas is
    /// clipped, and a rectangle that covers no pixel of the canvas leaves it
    /// exactly as it was.
    pub fn fill_rect(&mut self, rect: Rect, color: Color)
        ensures
            is_filled(final(self)@, old(self)@, rect, color),
            !touches(old(self)@, rect) ==> final(self)@ == old(self)@,
            final(self).spec_font() == old(self).spec_font(),
    {
        draw_filled_rect_mut(&mut self.canvas, rect, color)
    }

    /// Draws the outline of `rect`: four lines along its edges, between the
    /// corners as they are given.
    pub fn stroke_rect(&mut self, rect: Rect, color: Color)
        ensures
            final(self)@ == old(self)@.paint(rect_outline(rect), color),
            final(self)@.same_size(old(self)@),
            final(self).spec_font() == old(self).spec_font(),
    {
        draw_hollow_rect_mut(&mut self.canvas, rect, color)
    }

    /// Fills the circle about `center` with the given radius.
    pub fn fill_circle(&mut self, center: (i32, i32), radius: i32, color: Color)
        ensures
            final(self)@ == old(self)@.paint(circle_disc(plane32(center), radius as int), color),
            final(self)@.same_size(old(self)@),
            final(self).spec_font() == old(self).spec_font(),
    {
        draw_filled_circle_mut(&mut self.canvas, center, radius, color)
    }

    /// Draws the outline of the circle about `center` with the given radius.
    pub fn stroke_circle(&mut self, center: (i32, i32), radius: i32, color: Color)
        ensures
            final(self)@ == old(self)@.paint(circle_outline(plane32(center), radius as int), color),
            final(self)@.same_size(old(self)@),
            final(self).spec_font() == old(self).spec_font(),
    {
        draw_hollow_circle_mut(&mut self.canvas, center, radius, color)
    }

    /// Draws the line from `start` to `end`, both ends included, one pixel
    /// wide.
    pub fn stroke_line(&mut self, start: (i32, i32), end: (i32, i32), color: Color)
        ensures
            final(self)@ == old(self)@.paint(line_points(plane32(start), plane32(end)), color),
            final(self)@.same_size(old(self)@),
            final(self).spec_font() == old(self).spec_font(),
    {
        draw_line_segment_mut(&mut self.canvas, start, end, color)
    }

    /// Lays the image `top` over the canvas with its top-left corner at
    /// `(x, y)`, pixel by pixel. What falls off the canvas is dropped.
    pub fn draw_image(&mut self, top: &PixelBuffer, x: i32, y: i32)
        ensures
            is_overlaid(final(self)@, old(self)@, top@, x as int, y as int),
            final(self).spec_font() == old(self).spec_font(),
    {
        overlay(&mut self.canvas, top, x, y)
    }

    /// Draws the image `i` with its top-left corner at `(x, y)`. With a
    /// `size`, the image is first resized to it with the filter named there.
    pub fn draw_image_at(&mut self, i: &PixelBuffer, x: i32, y: i32, size: Option<ResizeOption>)
        requires
            size.is_some() ==> can_resample(
                (i@.width, i@.height),
                size.unwrap().nwidth as int,
                size.unwrap().nheight as int,
            ),
        ensures
            size.is_none() ==> is_overlaid(final(self)@, old(self)@, i@, x as int, y as int),
            size.is_some() ==> exists|scaled: Surface|
                is_resample_of(
                    scaled,
                    i@,
                    size.unwrap().nwidth as int,
                    size.unwrap().nheight as int,
                    size.unwrap().filter,
                ) && #[trigger] is_overlaid(final(self)@, old(self)@, scaled, x as int, y as int),
            final(self).spec_font() == old(self).spec_font(),
    {
        match size {
            Some(option) => {
                let scaled = i.resized(option.nwidth, option.nheight, option.filter);
                overlay(&mut self.canvas, &scaled, x, y);
                assert(is_overlaid(self@, old(self)@, scaled@, x as int, y as int));
            },
            None => {
                overlay(&mut self.canvas, i, x, y);
            },
        }
    }

    /// Draws the image `i`, resized to `nwidth` by `nheight` pixels with
    /// `filter`, with its top-left corner at `(x, y)`.
    pub fn draw_image_with_size_at(
        &mut self,
        i: &PixelBuffer,
        x: i32,
        y: i32,
        nwidth: u32,
        nheight: u32,
        filter: FilterType,
    )
        requires
            can_resample((i@.width, i@.height), nwidth as int, nheight as int),
        ensures
            exists|scaled: Surface|
                is_resample_of(scaled, i@, nwidth as int, nheight as int, filter)
                    && #[trigger] is_overlaid(final(self)@, old(self)@, scaled, x as int, y as int),
            final(self).spec_font() == old(self).spec_font(),
    {
        self.draw_image_at(i, x, y, Some(ResizeOption { nwidth, nheight, filter }))
    }

    /// Cuts the block `src` out of the image `i`, resizes it to the size of
    /// `dest` and draws it with its top-left corner at that of `dest`. The
    /// block must lie within the image, and the edges of `dest` must be in
    /// order.
    pub fn draw_image_with_src_and_dst(
        &mut self,
        i: &PixelBuffer,
        src: &Rect,
        dest: &Rect,
        filter: FilterType,
    )
        requires
            can_cut_and_resize(i@, *src, *dest),
        ensures
            exists|scaled: Surface|
                is_cut_and_resized(scaled, i@, *src, *dest, filter) && #[trigger] is_overlaid(
                    final(self)@,
                    old(self)@,
                    scaled,
                    dest.left as int,
                    dest.top as int,
                ),
            final(self).spec_font() == old(self).spec_font(),
    {
        let scaled = crop_and_resize(i, src, dest, filter);
        overlay(&mut self.canvas, &scaled, dest.left, dest.top);
        assert(is_overlaid(self@, old(self)@, scaled@, dest.left as int, dest.top as int));
    }

    /// Draws a text, given as its glyphs, in `color`, with the origin of the
    /// text at `(x, y)`. Each glyph is drawn in turn, and each pixel of its
    /// box gets `color` laid over it with the alpha weakened by the glyph's
    /// coverage of that pixel. What falls off the canvas is clipped.
    pub fn draw_text(&mut self, glyphs: &Vec<Glyph>, color: Color, x: i32, y: i32)
        ensures
            final(self)@ == glyphs_drawn(old(self)@, glyphs@, color, x as int, y as int),
            final(self)@.same_size(old(self)@),
            final(self).spec_font() == old(self).spec_font(),
    {
        draw_glyphs(&mut self.canvas, glyphs, color, x, y)
    }

    /// Draws a text, given as its glyphs, so that the room it takes, as
    /// `measure_text` gives it, has its center at `(center_x, center_y)`.
    pub fn draw_text_centered(
        &mut self,
        glyphs: &Vec<Glyph>,
        color: Color,
        center_x: i32,
        center_y: i32,
    )
        requires
            measurable(glyphs@),
        ensures
            final(self)@ == glyphs_drawn(
                old(self)@,
                glyphs@,
                color,
                centered_start(center_x as int, total_width(glyphs@)),
                centered_start(center_y as int, last_height(glyphs@)),
            ),
            final(self)@.same_size(old(self)@),
            final(self).spec_font() == old(self).spec_font(),
    {
        draw_glyphs_centered(&mut self.canvas, glyphs, color, center_x, center_y)
    }

    /// The pixel at `(x, y)`, which must lie on the canvas, packed in 16 bits:
    /// five for red, six for green, five for blue.
    pub fn get_pixel_rgb565(&self, x: u32, y: u32) -> (packed: u16)
        requires
            self@.in_bounds(x as int, y as int),
        ensures
            packed == self@.color_at(x as int, y as int).spec_rgb565(),
    {
        self.canvas.get_pixel(x, y).rgb565()
    }

    /// The color of the pixel at `(x, y)`, which must lie on the canvas.
    pub fn get_pixel(&self, x: u32, y: u32) -> (color: Color)
        requires
            self@.in_bounds(x as int, y as int),
        ensures
            color == self@.color_at(x as int, y as int),
    {
        self.canvas.get_pixel(x, y)
    }

    pub fn font(&self) -> (font: &fontdue::Font)
        ensures
            *font == self.spec_font(),
    {
        &self.font
    }

    /// The pixels of the canvas, to read.
    pub fn image_data(&self) -> (pixels: &PixelBuffer)
        ensures
            pixels@ == self@,
    {
        &self.canvas
    }

    /// The pixels of the canvas, to change. Whatever is done to them is done
    /// to the canvas.
    pub fn image_data_mut(&mut self) -> (pixels: &mut PixelBuffer)
        ensures
            pixels@ == old(self)@,
            final(self)@ == final(pixels)@,
            final(self).spec_font() == old(self).spec_font(),
    {
        &mut self.canvas
    }

    pub fn width(&self) -> (width: u32)
        ensures
            width == self@.width,
    {
        self.canvas.width()
    }

    pub fn height(&self) -> (height: u32)
        ensures
            height == self@.height,
    {
        self.canvas.height()
    }
}

} // verus!
