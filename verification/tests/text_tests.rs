use offscreen_canvas::canvas::OffscreenCanvas;
use offscreen_canvas::color::Color;
use offscreen_canvas::rect::Rect;
use offscreen_canvas::text::{is_measurable, measure_text, Glyph};

// The smallest font that can be loaded: a header and three tables, no glyph
// with an outline.
fn tiny_font() -> fontdue::Font {
    let mut data: Vec<u8> = vec![0, 1, 0, 0, 0, 3, 0, 32, 0, 1, 0, 16];
    let tables: [(&[u8; 4], u32, u32); 3] = [(b"head", 60, 54), (b"hhea", 116, 36), (b"maxp", 152, 6)];
    for (tag, offset, length) in tables.iter() {
        data.extend_from_slice(&tag[..]);
        data.extend_from_slice(&[0, 0, 0, 0]);
        data.extend_from_slice(&offset.to_be_bytes());
        data.extend_from_slice(&length.to_be_bytes());
    }
    let mut head = vec![0u8; 56];
    head[18] = 0x03;
    head[19] = 0xE8;
    data.extend_from_slice(&head);
    data.extend_from_slice(&[0u8; 36]);
    data.extend_from_slice(&[0, 0, 0x50, 0, 0, 1, 0, 0]);
    fontdue::Font::from_bytes(data, fontdue::FontSettings::default()).unwrap()
}

fn canvas(width: u32, height: u32) -> OffscreenCanvas {
    OffscreenCanvas::new(width, height, tiny_font())
}

fn glyph(x: i32, y: i32, width: u32, height: u32, coverage: &[u8]) -> Glyph {
    Glyph::new(x, y, width, height, coverage.to_vec()).unwrap()
}

// Three glyphs of 16 by 16 pixels in a row, each a frame of full coverage
// around a field of half coverage.
fn three_boxes() -> Vec<Glyph> {
    let mut coverage = vec![128u8; 256];
    for i in 0..16 {
        coverage[i] = 255;
        coverage[240 + i] = 255;
        coverage[16 * i] = 255;
        coverage[16 * i + 15] = 255;
    }
    (0..3).map(|k| glyph(16 * k, 0, 16, 16, &coverage)).collect()
}

#[test]
fn glyph_wants_one_byte_for_each_pixel() {
    assert!(Glyph::new(0, 0, 2, 3, vec![0; 6]).is_some());
    assert!(Glyph::new(0, 0, 2, 3, vec![0; 5]).is_none());
    assert!(Glyph::new(0, 0, 2, 3, vec![0; 7]).is_none());
    assert!(Glyph::new(0, 0, 0, 9, Vec::new()).is_some());
    assert!(Glyph::new(0, 0, 0, 9, vec![1]).is_none());
    assert!(Glyph::new(0, 0, u32::MAX, u32::MAX, vec![1]).is_none());
}

#[test]
fn glyph_hands_out_what_it_was_made_of() {
    let g = glyph(-3, 4, 2, 3, &[1, 2, 3, 4, 5, 6]);
    assert_eq!((g.x(), g.y(), g.width(), g.height()), (-3, 4, 2, 3));
    assert_eq!(g.coverage_at(0, 0), 1);
    assert_eq!(g.coverage_at(1, 0), 2);
    assert_eq!(g.coverage_at(0, 1), 3);
    assert_eq!(g.coverage_at(1, 2), 6);
}

#[test]
fn empty_text_takes_no_room() {
    let room = measure_text(&Vec::new());
    assert_eq!(room, Rect::new(0, 0, 0, 0));
    assert_eq!(room.width(), 0);
    assert_eq!(room.height(), 0);
}

#[test]
fn measure_adds_widths_and_takes_the_last_height() {
    let glyphs = vec![
        glyph(0, 3, 5, 7, &[0; 35]),
        glyph(6, 0, 3, 10, &[0; 30]),
        glyph(10, 5, 4, 2, &[0; 8]),
    ];
    assert_eq!(measure_text(&glyphs), Rect::new(0, 0, 12, 2));
    let two = vec![glyph(0, 3, 5, 7, &[0; 35]), glyph(6, 0, 3, 10, &[0; 30])];
    assert_eq!(measure_text(&two), Rect::new(0, 0, 8, 10));
}

#[test]
fn draw_text_blends_by_coverage() {
    let red = Color::red();
    let g = glyph(1, 2, 2, 2, &[255, 128, 0, 64]);
    let mut c = canvas(6, 6);
    c.clear(Color::blue());
    c.draw_text(&vec![g], red, 2, 1);
    assert_eq!(c.get_pixel(3, 3), red);
    assert_eq!(c.get_pixel(4, 3), Color::new(255, 0, 0, 128).over(Color::blue()));
    assert_eq!(c.get_pixel(3, 4), Color::blue());
    assert_eq!(c.get_pixel(4, 4), Color::new(255, 0, 0, 64).over(Color::blue()));
    let mut untouched = 0;
    for y in 0..6 {
        for x in 0..6 {
            if c.get_pixel(x, y) == Color::blue() {
                untouched += 1;
            }
        }
    }
    assert_eq!(untouched, 33);
}

#[test]
fn draw_text_scales_the_alpha_of_the_color() {
    let ink = Color::new(10, 20, 30, 200);
    let g = glyph(0, 0, 1, 1, &[128]);
    let mut c = canvas(1, 1);
    c.clear(Color::white());
    c.draw_text(&vec![g], ink, 0, 0);
    assert_eq!(c.get_pixel(0, 0), Color::new(10, 20, 30, 100).over(Color::white()));
}

#[test]
fn draw_text_at_negative_coordinates_is_clipped() {
    let g = glyph(-1, -1, 3, 3, &[255; 9]);
    let mut c = canvas(4, 4);
    c.draw_text(&vec![g], Color::red(), 0, 0);
    let mut found = Vec::new();
    for y in 0..4 {
        for x in 0..4 {
            if c.get_pixel(x, y) == Color::red() {
                found.push((x, y));
            }
        }
    }
    assert_eq!(found, vec![(0, 0), (1, 0), (0, 1), (1, 1)]);
    let mut c = canvas(4, 4);
    c.draw_text(&vec![glyph(0, 0, 3, 3, &[255; 9])], Color::red(), -10, i32::MIN);
    c.draw_text(&vec![glyph(i32::MAX, 0, 3, 3, &[255; 9])], Color::red(), i32::MAX, 0);
    assert_eq!(c.image_data().to_raw(), vec![0u8; 64]);
}

#[test]
fn overlapping_glyphs_are_drawn_in_turn() {
    let half = Color::new(255, 0, 0, 255);
    let a = glyph(0, 0, 2, 1, &[100, 100]);
    let b = glyph(1, 0, 2, 1, &[50, 255]);
    let mut c = canvas(3, 1);
    c.clear(Color::blue());
    c.draw_text(&vec![a, b], half, 0, 0);
    let first = Color::new(255, 0, 0, 100).over(Color::blue());
    assert_eq!(c.get_pixel(0, 0), first);
    assert_eq!(c.get_pixel(1, 0), Color::new(255, 0, 0, 50).over(first));
    assert_eq!(c.get_pixel(2, 0), Color::red());
}

#[test]
fn centered_text_has_its_box_about_the_center() {
    let glyphs = vec![glyph(0, 0, 3, 4, &[255; 12]), glyph(3, 0, 2, 4, &[255; 8])];
    let room = measure_text(&glyphs);
    assert_eq!((room.width(), room.height()), (5, 4));
    let mut c = canvas(20, 20);
    c.draw_text_centered(&glyphs, Color::red(), 10, 10);
    // The box of 5 by 4 pixels begins at (10 - 2, 10 - 2).
    let mut found = Vec::new();
    for y in 0..20 {
        for x in 0..20 {
            if c.get_pixel(x, y) == Color::red() {
                found.push((x, y));
            }
        }
    }
    assert_eq!(found.len(), 20);
    assert_eq!(found[0], (8, 8));
    assert_eq!(found[19], (12, 11));
    let mut placed = room;
    placed.set_position(8, 8);
    let center = placed.center();
    assert!((center.0 - 10).abs() <= 1 && (center.1 - 10).abs() <= 1);
    assert_eq!(center, (10, 10));
}

#[test]
fn centered_text_is_text_drawn_at_the_corner_of_its_box() {
    for &(cx, cy) in &[(10, 10), (0, 0), (-3, 7), (19, 19), (11, 4)] {
        let glyphs = three_boxes();
        let room = measure_text(&glyphs);
        let mut a = canvas(20, 20);
        let mut b = canvas(20, 20);
        a.draw_text_centered(&glyphs, Color::green(), cx, cy);
        b.draw_text(&glyphs, Color::green(), cx - room.width() / 2, cy - room.height() / 2);
        assert_eq!(a.image_data().to_raw(), b.image_data().to_raw());
    }
}

#[test]
fn test1() {
    let glyphs = three_boxes();
    let red = Color::new(255, 0, 0, 255);
    let text_pos_x = 150;
    let text_pos_y = 150;
    let mut source = canvas(300, 300);
    source.draw_text(&glyphs, red, text_pos_x, text_pos_y);
    for y in 0..300u32 {
        for x in 0..300u32 {
            let inside = (150..198).contains(&x) && (150..166).contains(&y);
            let want = if !inside {
                Color::transparent()
            } else {
                let (dx, dy) = ((x - 150) % 16, y - 150);
                if dx == 0 || dx == 15 || dy == 0 || dy == 15 {
                    red
                } else {
                    Color::new(255, 0, 0, 128).over(Color::transparent())
                }
            };
            assert_eq!(source.get_pixel(x, y), want);
        }
    }
}

#[test]
fn is_measurable_up_to_the_largest_i32() {
    assert!(is_measurable(&Vec::new()));
    assert!(is_measurable(&vec![glyph(0, 0, 5, 1, &[0; 5])]));
    let wide = || Glyph::new(0, 0, 1 << 30, 0, Vec::new()).unwrap();
    assert!(is_measurable(&vec![wide()]));
    assert!(!is_measurable(&vec![wide(), wide()]));
    assert!(is_measurable(&vec![wide(), Glyph::new(0, 0, (1 << 30) - 1, 0, Vec::new()).unwrap()]));
    let high = Glyph::new(0, 0, 0, u32::MAX, Vec::new()).unwrap();
    assert!(!is_measurable(&vec![high]));
    let high = Glyph::new(0, 0, 0, i32::MAX as u32, Vec::new()).unwrap();
    assert!(is_measurable(&vec![high]));
    assert_eq!(measure_text(&vec![wide()]), Rect::new(0, 0, 1 << 30, 0));
}
