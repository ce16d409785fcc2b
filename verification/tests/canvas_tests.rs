use image::Pixel;
use offscreen_canvas::buffer::{FilterType, PixelBuffer};
use offscreen_canvas::canvas::OffscreenCanvas;
use offscreen_canvas::color::Color;
use offscreen_canvas::images::{Interpolation, ResizeOption};
use offscreen_canvas::rect::Rect;

// The smallest font that can be loaded: a header and three tables, no glyph
// with an outline.
fn tiny_font() -> fontdue::Font {
    let mut data: Vec<u8> = vec![0, 1, 0, 0, 0, 3, 0, 32, 0, 1, 0, 16];
    let tables: [(&[u8; 4], u32, u32); 3] = [(b"head", 60, 54), (b"hhea", 116, 36), (b"maxp", 152, 6)];
    for (tag, offset, length) in tables.iter() {
        data.extend_from_slice(&tag[..]);
        data.extend_from_slice(&[0, 0, 0, 0]);
        data.extend_from_slice(&offset.to_be_bytes());
        data.extend_from_slice(&length.to_be_bytes());
    }
    let mut head = vec![0u8; 56];
    head[18] = 0x03;
    head[19] = 0xE8;
    data.extend_from_slice(&head);
    data.extend_from_slice(&[0u8; 36]);
    data.extend_from_slice(&[0, 0, 0x50, 0, 0, 1, 0, 0]);
    fontdue::Font::from_bytes(data, fontdue::FontSettings::default()).unwrap()
}

fn canvas(width: u32, height: u32) -> OffscreenCanvas {
    OffscreenCanvas::new(width, height, tiny_font())
}

fn to_rgba(c: Color) -> image::Rgba<u8> {
    image::Rgba([c.r, c.g, c.b, c.a])
}

fn blend_into(img: &mut image::RgbaImage, x: i64, y: i64, c: Color) {
    if x >= 0 && y >= 0 && x < img.width() as i64 && y < img.height() as i64 {
        let mut below = *img.get_pixel(x as u32, y as u32);
        below.blend(&to_rgba(c));
        img.put_pixel(x as u32, y as u32, below);
    }
}

fn line_by_imageproc(img: &mut image::RgbaImage, p0: (i32, i32), p1: (i32, i32), c: Color) {
    let points =
        imageproc::drawing::BresenhamLineIter::new((p0.0 as f32, p0.1 as f32), (p1.0 as f32, p1.1 as f32));
    for p in points {
        blend_into(img, p.0 as i64, p.1 as i64, c);
    }
}

fn same(canvas: &OffscreenCanvas, img: &image::RgbaImage) -> bool {
    canvas.image_data().to_raw() == *img.as_raw()
}

fn painted(canvas: &OffscreenCanvas, c: Color) -> Vec<(u32, u32)> {
    let mut found = Vec::new();
    for y in 0..canvas.height() {
        for x in 0..canvas.width() {
            if canvas.get_pixel(x, y) == c {
                found.push((x, y));
            }
        }
    }
    found
}

#[test]
fn new_canvas_is_blank() {
    let c = canvas(5, 4);
    assert_eq!((c.width(), c.height()), (5, 4));
    assert_eq!(painted(&c, Color::transparent()).len(), 20);
    assert_eq!(c.image_data().width(), 5);
    assert_eq!(c.font().glyph_count(), 1);
}

#[test]
fn blend_clips_what_lies_outside() {
    let mut c = canvas(3, 3);
    for &(x, y) in &[(-1, 0), (0, -1), (3, 0), (0, 3), (i32::MIN, i32::MAX), (1 << 30, 1)] {
        c.blend(x, y, Color::red());
    }
    assert_eq!(painted(&c, Color::transparent()).len(), 9);
    c.blend(2, 1, Color::red());
    assert_eq!(painted(&c, Color::red()), vec![(2, 1)]);
}

#[test]
fn opaque_write_reads_back_exactly() {
    let color = Color::new(12, 200, 77, 255);
    for y in 0..4u32 {
        for x in 0..6u32 {
            let mut c = canvas(6, 4);
            c.clear(Color::new(50, 60, 70, 90));
            c.blend(x as i32, y as i32, color);
            assert_eq!(c.get_pixel(x, y), color);
            c.clear(Color::blue());
            c.stroke_line((x as i32, y as i32), (x as i32, y as i32), color);
            assert_eq!(c.get_pixel(x, y), color);
            c.fill_rect(Rect::from(x as i32, y as i32, 1, 1), Color::green());
            assert_eq!(c.get_pixel(x, y), Color::green());
            c.stroke_circle((x as i32, y as i32), 0, color);
            assert_eq!(c.get_pixel(x, y), color);
            c.fill_circle((x as i32, y as i32), 0, Color::white());
            assert_eq!(c.get_pixel(x, y), Color::white());
        }
    }
}

#[test]
fn transparent_color_changes_nothing() {
    let mut c = canvas(8, 8);
    c.clear(Color::new(10, 20, 30, 200));
    c.fill_rect(Rect::from(2, 2, 3, 3), Color::new(200, 0, 0, 120));
    let before = c.image_data().to_raw();
    let ghost = Color::new(255, 255, 255, 0);
    c.clear(ghost);
    c.fill_rect(Rect::from(0, 0, 8, 8), ghost);
    c.stroke_line((0, 0), (7, 5), ghost);
    c.stroke_rect(Rect::new(1, 1, 6, 6), ghost);
    c.stroke_circle((4, 4), 3, ghost);
    c.fill_circle((4, 4), 3, ghost);
    c.blend(3, 3, ghost);
    assert_eq!(c.image_data().to_raw(), before);
}

#[test]
fn clear_blends_over_every_pixel() {
    let mut c = canvas(3, 2);
    c.clear(Color::red());
    assert_eq!(painted(&c, Color::red()).len(), 6);
    let half = Color::new(0, 0, 255, 128);
    c.clear(half);
    let want = half.over(Color::red());
    assert_eq!(painted(&c, want).len(), 6);
    assert_ne!(want, Color::red());
}

#[test]
fn clear_of_an_empty_canvas() {
    let mut c = canvas(0, 5);
    c.clear(Color::red());
    assert_eq!(c.image_data().to_raw().len(), 0);
}

#[test]
fn horizontal_line_has_no_drift() {
    let mut c = canvas(20, 5);
    c.stroke_line((0, 0), (10, 0), Color::red());
    let want: Vec<(u32, u32)> = (0..=10).map(|x| (x, 0)).collect();
    assert_eq!(painted(&c, Color::red()), want);
    assert_eq!(painted(&c, Color::transparent()).len(), 100 - 11);
}

#[test]
fn line_points_one_by_one() {
    let mut c = canvas(8, 8);
    c.stroke_line((0, 0), (5, 2), Color::red());
    assert_eq!(painted(&c, Color::red()), vec![(0, 0), (1, 0), (2, 1), (3, 1), (4, 2), (5, 2)]);
    let mut c = canvas(8, 8);
    c.stroke_line((1, 6), (3, 0), Color::red());
    assert_eq!(
        painted(&c, Color::red()),
        vec![(3, 0), (3, 1), (2, 2), (2, 3), (2, 4), (1, 5), (1, 6)]
    );
}

#[test]
fn line_blends_each_pixel_once() {
    let half = Color::new(255, 0, 0, 100);
    let mut c = canvas(8, 8);
    c.clear(Color::blue());
    c.stroke_line((0, 7), (7, 0), half);
    let once = half.over(Color::blue());
    assert_eq!(painted(&c, once).len(), 8);
    assert_eq!(painted(&c, Color::blue()).len(), 56);
}

#[test]
fn lines_agree_with_imageproc() {
    let ends = [-7, -4, -1, 0, 2, 3, 9, 14];
    let color = Color::new(255, 0, 0, 90);
    for &x0 in &ends {
        for &y0 in &ends {
            for &x1 in &ends {
                for &y1 in &ends {
                    let mut c = canvas(12, 12);
                    let mut img = image::RgbaImage::new(12, 12);
                    c.stroke_line((x0, y0), (x1, y1), color);
                    line_by_imageproc(&mut img, (x0, y0), (x1, y1), color);
                    assert!(same(&c, &img), "line from {:?} to {:?}", (x0, y0), (x1, y1));
                }
            }
        }
    }
}

#[test]
fn line_far_outside_is_clipped() {
    let mut c = canvas(4, 4);
    c.stroke_line((-100, -50), (-1, -1), Color::red());
    c.stroke_line((1000, 4), (4, 1000), Color::red());
    assert_eq!(painted(&c, Color::transparent()).len(), 16);
    c.stroke_line((-10, -10), (10, 10), Color::red());
    assert_eq!(painted(&c, Color::red()), vec![(0, 0), (1, 1), (2, 2), (3, 3)]);
}

#[test]
fn fill_rect_covers_left_and_top_edge_only() {
    let mut c = canvas(6, 6);
    c.fill_rect(Rect::new(1, 2, 4, 4), Color::red());
    assert_eq!(painted(&c, Color::red()), vec![(1, 2), (2, 2), (3, 2), (1, 3), (2, 3), (3, 3)]);
}

#[test]
fn fill_rect_is_clipped_to_the_canvas() {
    let mut c = canvas(4, 3);
    c.fill_rect(Rect::new(-5, -5, 2, 50), Color::red());
    assert_eq!(painted(&c, Color::red()), vec![(0, 0), (1, 0), (0, 1), (1, 1), (0, 2), (1, 2)]);
    c.fill_rect(Rect::new(i32::MIN, i32::MIN, i32::MAX, i32::MAX), Color::blue());
    assert_eq!(painted(&c, Color::blue()).len(), 12);
}

#[test]
fn fill_rect_outside_writes_nothing() {
    let mut c = canvas(10, 10);
    c.clear(Color::new(1, 2, 3, 4));
    let before = c.image_data().to_raw();
    let outside = [
        Rect::new(10, 0, 20, 10),
        Rect::new(0, 10, 10, 20),
        Rect::new(-10, -10, 0, 0),
        Rect::new(-10, 2, 0, 5),
        Rect::new(100, 100, 200, 200),
        Rect::new(i32::MIN, i32::MIN, -1, -1),
        Rect::new(i32::MAX - 1, 0, i32::MAX, i32::MAX),
    ];
    for &r in &outside {
        c.fill_rect(r, Color::red());
        assert_eq!(c.image_data().to_raw(), before);
    }
}

#[test]
fn fill_rect_without_area_writes_nothing() {
    let mut c = canvas(10, 10);
    for &r in &[Rect::new(3, 3, 3, 8), Rect::new(3, 3, 8, 3), Rect::new(8, 8, 2, 2), Rect::new(5, 2, 1, 9)] {
        c.fill_rect(r, Color::red());
    }
    assert_eq!(painted(&c, Color::transparent()).len(), 100);
}

#[test]
fn stroke_rect_draws_all_four_edges() {
    let mut c = canvas(6, 6);
    c.stroke_rect(Rect::new(1, 1, 4, 3), Color::red());
    assert_eq!(
        painted(&c, Color::red()),
        vec![(1, 1), (2, 1), (3, 1), (4, 1), (1, 2), (4, 2), (1, 3), (2, 3), (3, 3), (4, 3)]
    );
}

#[test]
fn stroke_rect_blends_corners_twice() {
    let half = Color::new(255, 0, 0, 100);
    let mut c = canvas(6, 6);
    c.clear(Color::blue());
    c.stroke_rect(Rect::new(1, 1, 4, 3), half);
    let once = half.over(Color::blue());
    let twice = half.over(once);
    for &corner in &[(1, 1), (4, 1), (1, 3), (4, 3)] {
        assert_eq!(c.get_pixel(corner.0, corner.1), twice);
    }
    assert_eq!(c.get_pixel(2, 1), once);
    assert_eq!(c.get_pixel(1, 2), once);
    assert_eq!(c.get_pixel(2, 2), Color::blue());
}

#[test]
fn stroke_rect_with_edges_out_of_order() {
    let mut a = canvas(8, 8);
    let mut b = canvas(8, 8);
    a.stroke_rect(Rect::new(5, 6, 1, 2), Color::red());
    b.stroke_rect(Rect::new(1, 2, 5, 6), Color::red());
    assert_eq!(a.image_data().to_raw(), b.image_data().to_raw());
    assert_eq!(painted(&a, Color::red()).len(), 16);
}

fn circle_by_the_book(img: &mut image::RgbaImage, center: (i32, i32), radius: i32, c: Color) {
    let (x0, y0) = (center.0 as i64, center.1 as i64);
    let mut x = 0i64;
    let mut y = radius as i64;
    let mut p = 1 - radius as i64;
    while x <= y {
        blend_into(img, x0 + x, y0 + y, c);
        blend_into(img, x0 + y, y0 + x, c);
        blend_into(img, x0 - y, y0 + x, c);
        blend_into(img, x0 - x, y0 + y, c);
        blend_into(img, x0 - x, y0 - y, c);
        blend_into(img, x0 - y, y0 - x, c);
        blend_into(img, x0 + y, y0 - x, c);
        blend_into(img, x0 + x, y0 - y, c);
        x += 1;
        if p < 0 {
            p += 2 * x + 1;
        } else {
            y -= 1;
            p += 2 * (x - y) + 1;
        }
    }
}

fn disc_by_the_book(img: &mut image::RgbaImage, center: (i32, i32), radius: i32, c: Color) {
    let (x0, y0) = center;
    let mut x = 0i32;
    let mut y = radius;
    let mut p = 1 - radius;
    while x <= y {
        line_by_imageproc(img, (x0 - x, y0 + y), (x0 + x, y0 + y), c);
        line_by_imageproc(img, (x0 - y, y0 + x), (x0 + y, y0 + x), c);
        line_by_imageproc(img, (x0 - x, y0 - y), (x0 + x, y0 - y), c);
        line_by_imageproc(img, (x0 - y, y0 - x), (x0 + y, y0 - x), c);
        x += 1;
        if p < 0 {
            p += 2 * x + 1;
        } else {
            y -= 1;
            p += 2 * (x - y) + 1;
        }
    }
}

#[test]
fn circle_outline_of_radius_three() {
    let mut c = canvas(9, 9);
    c.stroke_circle((4, 4), 3, Color::red());
    assert_eq!(
        painted(&c, Color::red()),
        vec![
            (3, 1), (4, 1), (5, 1),
            (2, 2), (6, 2),
            (1, 3), (7, 3),
            (1, 4), (7, 4),
            (1, 5), (7, 5),
            (2, 6), (6, 6),
            (3, 7), (4, 7), (5, 7),
        ]
    );
}

#[test]
fn circle_outlines_follow_the_midpoint_rule() {
    let color = Color::new(0, 255, 0, 60);
    for radius in -2..=12 {
        for &center in &[(10, 10), (0, 0), (19, 3), (-4, 25), (10, -30)] {
            let mut c = canvas(20, 20);
            let mut img = image::RgbaImage::new(20, 20);
            c.stroke_circle(center, radius, color);
            circle_by_the_book(&mut img, center, radius, color);
            assert!(same(&c, &img), "circle about {:?} of radius {}", center, radius);
        }
    }
}

#[test]
fn filled_circles_follow_the_midpoint_rule() {
    let color = Color::new(0, 255, 0, 60);
    for radius in -2..=12 {
        for &center in &[(10, 10), (0, 0), (19, 3), (-4, 25), (10, -30)] {
            let mut c = canvas(20, 20);
            let mut img = image::RgbaImage::new(20, 20);
            c.fill_circle(center, radius, color);
            disc_by_the_book(&mut img, center, radius, color);
            assert!(same(&c, &img), "disc about {:?} of radius {}", center, radius);
        }
    }
}

#[test]
fn filled_circle_of_radius_two() {
    let mut c = canvas(7, 7);
    c.fill_circle((3, 3), 2, Color::red());
    assert_eq!(
        painted(&c, Color::red()),
        vec![
            (2, 1), (3, 1), (4, 1),
            (1, 2), (2, 2), (3, 2), (4, 2), (5, 2),
            (1, 3), (2, 3), (3, 3), (4, 3), (5, 3),
            (1, 4), (2, 4), (3, 4), (4, 4), (5, 4),
            (2, 5), (3, 5), (4, 5),
        ]
    );
}

#[test]
fn circle_of_radius_zero_is_one_point() {
    let mut c = canvas(5, 5);
    c.stroke_circle((2, 2), 0, Color::red());
    assert_eq!(painted(&c, Color::red()), vec![(2, 2)]);
    let mut c = canvas(5, 5);
    c.fill_circle((2, 2), 0, Color::red());
    assert_eq!(painted(&c, Color::red()), vec![(2, 2)]);
}

#[test]
fn circle_of_radius_zero_blends_its_point_again_and_again() {
    let half = Color::new(255, 0, 0, 100);
    let mut eight = Color::blue();
    for _ in 0..8 {
        eight = half.over(eight);
    }
    let mut four = Color::blue();
    for _ in 0..4 {
        four = half.over(four);
    }
    let mut c = canvas(3, 3);
    c.clear(Color::blue());
    c.stroke_circle((1, 1), 0, half);
    assert_eq!(c.get_pixel(1, 1), eight);
    c.clear(Color::blue());
    c.fill_circle((1, 1), 0, half);
    assert_eq!(c.get_pixel(1, 1), four);
}

#[test]
fn circle_of_negative_radius_is_nothing() {
    let mut c = canvas(5, 5);
    c.stroke_circle((2, 2), -1, Color::red());
    c.fill_circle((2, 2), -3, Color::red());
    c.stroke_circle((2, 2), i32::MIN, Color::red());
    c.fill_circle((2, 2), i32::MIN, Color::red());
    assert_eq!(painted(&c, Color::transparent()).len(), 25);
}

#[test]
fn get_pixel_rgb565_packs_the_pixel() {
    let mut c = canvas(2, 2);
    c.blend(1, 0, Color::new(0x12, 0x34, 0x56, 255));
    assert_eq!(c.get_pixel_rgb565(1, 0), (2 << 11) | (13 << 5) | 10);
    assert_eq!(c.get_pixel_rgb565(0, 0), 0);
    c.clear(Color::white());
    assert_eq!(c.get_pixel_rgb565(1, 1), 0xFFFF);
}

#[test]
fn image_data_mut_changes_the_canvas() {
    let mut c = canvas(2, 2);
    c.image_data_mut().put_pixel(1, 1, Color::new(1, 2, 3, 4));
    assert_eq!(c.get_pixel(1, 1), Color::new(1, 2, 3, 4));
}

fn solid(width: u32, height: u32, color: Color) -> PixelBuffer {
    let mut buf = PixelBuffer::new(width, height);
    for y in 0..height {
        for x in 0..width {
            buf.put_pixel(x, y, color);
        }
    }
    buf
}

#[test]
fn draw_image_lays_each_pixel_over_the_canvas() {
    let mut top = PixelBuffer::new(2, 2);
    top.put_pixel(0, 0, Color::red());
    top.put_pixel(1, 0, Color::new(0, 255, 0, 128));
    top.put_pixel(1, 1, Color::new(9, 9, 9, 0));
    let mut c = canvas(4, 4);
    c.clear(Color::blue());
    c.draw_image(&top, 1, 2);
    assert_eq!(c.get_pixel(1, 2), Color::red());
    assert_eq!(c.get_pixel(2, 2), Color::new(0, 255, 0, 128).over(Color::blue()));
    assert_eq!(c.get_pixel(1, 3), Color::blue());
    assert_eq!(c.get_pixel(2, 3), Color::blue());
    assert_eq!(painted(&c, Color::blue()).len(), 14);
}

#[test]
fn draw_image_drops_what_falls_off() {
    let top = solid(3, 3, Color::red());
    let mut c = canvas(4, 4);
    c.draw_image(&top, -2, -1);
    assert_eq!(painted(&c, Color::red()), vec![(0, 0), (0, 1)]);
    let mut c = canvas(4, 4);
    c.draw_image(&top, 3, 2);
    assert_eq!(painted(&c, Color::red()), vec![(3, 2), (3, 3)]);
    let mut c = canvas(4, 4);
    for &(x, y) in &[(4, 0), (0, 4), (-3, 0), (0, -3), (i32::MIN, i32::MIN), (i32::MAX, i32::MAX)] {
        c.draw_image(&top, x, y);
    }
    assert_eq!(painted(&c, Color::transparent()).len(), 16);
}

#[test]
fn draw_image_agrees_with_the_overlay_of_image() {
    let mut top = PixelBuffer::new(5, 4);
    let mut top_img = image::RgbaImage::new(5, 4);
    for y in 0..4u32 {
        for x in 0..5u32 {
            let c = Color::new((x * 50) as u8, (y * 60) as u8, 7, (x * 40 + y * 20) as u8);
            top.put_pixel(x, y, c);
            top_img.put_pixel(x, y, to_rgba(c));
        }
    }
    for &(x, y) in &[(0, 0), (-2, 3), (4, -1), (7, 7), (-5, 0), (2, 2)] {
        let mut c = canvas(8, 8);
        c.clear(Color::new(20, 40, 60, 200));
        let mut img = image::RgbaImage::from_raw(8, 8, c.image_data().to_raw()).unwrap();
        c.draw_image(&top, x, y);
        image::imageops::overlay(&mut img, &top_img, x as i64, y as i64);
        assert!(same(&c, &img), "image at {:?}", (x, y));
    }
}

#[test]
fn draw_image_at_without_a_size_is_draw_image() {
    let top = solid(2, 2, Color::red());
    let mut c = canvas(4, 4);
    c.draw_image_at(&top, 1, 1, None);
    assert_eq!(painted(&c, Color::red()), vec![(1, 1), (2, 1), (1, 2), (2, 2)]);
}

#[test]
fn draw_image_at_with_a_size_resizes_first() {
    let top = solid(2, 2, Color::red());
    let mut c = canvas(6, 6);
    c.draw_image_at(&top, 1, 1, Some(ResizeOption { nwidth: 4, nheight: 3, filter: FilterType::Nearest }));
    assert_eq!(painted(&c, Color::red()).len(), 12);
    assert_eq!(c.get_pixel(4, 3), Color::red());
    assert_eq!(c.get_pixel(5, 3), Color::transparent());
    assert_eq!(c.get_pixel(4, 4), Color::transparent());
}

#[test]
fn draw_image_with_size_at_resizes() {
    let top = solid(4, 4, Color::green());
    let mut c = canvas(6, 6);
    c.draw_image_with_size_at(&top, 0, 0, 2, 5, FilterType::Triangle);
    assert_eq!(painted(&c, Color::green()).len(), 10);
    assert_eq!(c.get_pixel(1, 4), Color::green());
    assert_eq!(c.get_pixel(2, 0), Color::transparent());
}

#[test]
fn solid_red_source_doubled_is_solid_red() {
    let source = solid(10, 10, Color::red());
    let mut c = canvas(30, 30);
    c.draw_image_with_src_and_dst(
        &source,
        &Rect::from(0, 0, 10, 10),
        &Rect::from(0, 0, 20, 20),
        FilterType::Nearest,
    );
    for y in 0..30 {
        for x in 0..30 {
            let want = if x < 20 && y < 20 { Color::red() } else { Color::transparent() };
            assert_eq!(c.get_pixel(x, y), want);
        }
    }
}

#[test]
fn draw_image_with_src_and_dst_cuts_the_block_out() {
    let mut source = solid(6, 6, Color::blue());
    for y in 2..4 {
        for x in 3..5 {
            source.put_pixel(x, y, Color::red());
        }
    }
    let mut c = canvas(10, 10);
    c.draw_image_with_src_and_dst(
        &source,
        &Rect::from(3, 2, 2, 2),
        &Rect::from(4, 5, 2, 2),
        FilterType::Lanczos3,
    );
    assert_eq!(painted(&c, Color::red()), vec![(4, 5), (5, 5), (4, 6), (5, 6)]);
    assert_eq!(painted(&c, Color::transparent()).len(), 96);
}

#[test]
fn interpolation_names_its_resize_filter() {
    assert_eq!(Interpolation::Nearest.resize_filter(), FilterType::Nearest);
    assert_eq!(Interpolation::Bilinear.resize_filter(), FilterType::Triangle);
    assert_eq!(Interpolation::Bicubic.resize_filter(), FilterType::Lanczos3);
}
