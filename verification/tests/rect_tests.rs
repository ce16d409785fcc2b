use offscreen_canvas::rect::{half_floor, Rect};

#[test]
fn new_keeps_the_edges() {
    let r = Rect::new(1, 2, 3, 4);
    assert_eq!((r.left, r.top, r.right, r.bottom), (1, 2, 3, 4));
}

#[test]
fn from_keeps_the_size() {
    for &(x, y, w, h) in &[(3, 4, 10, 20), (-7, 9, 0, 0), (0, 0, -5, 8), (100, -100, 1, 1)] {
        let r = Rect::from(x, y, w, h);
        assert_eq!(r.width(), w);
        assert_eq!(r.height(), h);
        assert_eq!(r.left, x);
        assert_eq!(r.top, y);
    }
}

#[test]
fn center_deflate_inflate_of_a_square() {
    let mut r = Rect::from(0, 0, 100, 100);
    assert_eq!(r.center(), (50, 50));
    r.deflate(20, 20);
    assert_eq!(r, Rect::new(20, 20, 80, 80));
    r.inflate(50, 50);
    assert_eq!(r, Rect::new(-30, -30, 130, 130));
}

#[test]
fn center_rounds_down() {
    assert_eq!(Rect::from(0, 0, 5, 3).center(), (2, 1));
    assert_eq!(Rect::from(10, 10, 1, 1).center(), (10, 10));
    // Edges out of order: the halves are still rounded down.
    assert_eq!(Rect::new(0, 0, -5, -3).center(), (-3, -2));
    assert_eq!(Rect::new(i32::MIN, i32::MIN, i32::MAX, i32::MAX).center(), (-1, -1));
}

#[test]
fn half_floor_rounds_towards_negative_infinity() {
    assert_eq!(half_floor(7), 3);
    assert_eq!(half_floor(-7), -4);
    assert_eq!(half_floor(-8), -4);
    assert_eq!(half_floor(0), 0);
    assert_eq!(half_floor(-1), -1);
    assert_eq!(half_floor(i64::MIN), i64::MIN / 2);
    assert_eq!(half_floor(i64::MAX), i64::MAX / 2);
}

#[test]
fn offset_moves_all_edges() {
    let mut r = Rect::new(1, 2, 3, 4);
    r.offset(10, -20);
    assert_eq!(r, Rect::new(11, -18, 13, -16));
}

#[test]
fn contain_counts_all_four_edges() {
    let r = Rect::new(0, 0, 10, 5);
    assert!(r.contain(0, 0));
    assert!(r.contain(10, 5));
    assert!(r.contain(10, 0));
    assert!(r.contain(0, 5));
    assert!(r.contain(4, 3));
    assert!(!r.contain(11, 3));
    assert!(!r.contain(-1, 3));
    assert!(!r.contain(4, 6));
    assert!(!r.contain(4, -1));
}

#[test]
fn set_position_keeps_the_size() {
    let mut r = Rect::from(5, 6, 7, 8);
    r.set_position(-1, 2);
    assert_eq!(r, Rect::new(-1, 2, 6, 10));
}

#[test]
fn set_center_keeps_the_size() {
    let mut r = Rect::from(0, 0, 10, 5);
    r.set_center(50, 50);
    assert_eq!(r, Rect::new(45, 48, 55, 53));
    assert_eq!(r.center(), (50, 50));
}

#[test]
fn set_size_keeps_the_center() {
    let mut r = Rect::from(0, 0, 100, 100);
    r.set_size(20, 41);
    assert_eq!(r, Rect::new(40, 30, 60, 71));
    assert_eq!(r.center(), (50, 50));
}

#[test]
fn intersect_of_overlapping_rects() {
    let a = Rect::new(0, 0, 10, 10);
    let b = Rect::new(5, -5, 20, 7);
    assert_eq!(a.intersect(&b), Some(Rect::new(5, 0, 10, 7)));
    assert_eq!(b.intersect(&a), Some(Rect::new(5, 0, 10, 7)));
}

#[test]
fn intersect_of_rects_apart_is_none() {
    let a = Rect::new(0, 0, 10, 10);
    assert_eq!(a.intersect(&Rect::new(11, 0, 20, 10)), None);
    assert_eq!(a.intersect(&Rect::new(0, 11, 10, 20)), None);
    assert_eq!(a.intersect(&Rect::new(-20, -20, -1, -1)), None);
}

#[test]
fn intersect_of_rects_that_touch() {
    let a = Rect::new(0, 0, 10, 10);
    // A shared stretch of an edge: an intersection without area.
    assert_eq!(a.intersect(&Rect::new(10, 2, 20, 8)), Some(Rect::new(10, 2, 10, 8)));
    assert_eq!(a.intersect(&Rect::new(2, 10, 8, 20)), Some(Rect::new(2, 10, 8, 10)));
    // A single shared corner: none.
    assert_eq!(a.intersect(&Rect::new(10, 10, 20, 20)), None);
}

#[test]
fn inflate_and_deflate_undo_each_other() {
    for &(dx, dy) in &[(0, 0), (3, 7), (-4, 2), (100, -100)] {
        let start = Rect::new(-5, 6, 40, 90);
        let mut r = start;
        r.inflate(dx, dy);
        assert_eq!(r.width(), start.width() + 2 * dx);
        assert_eq!(r.height(), start.height() + 2 * dy);
        assert_eq!(r.center(), start.center());
        r.deflate(dx, dy);
        assert_eq!(r, start);
        r.offset(dx, dy);
        assert_eq!((r.width(), r.height()), (start.width(), start.height()));
        r.offset(-dx, -dy);
        assert_eq!(r, start);
    }
}

#[test]
fn intersect_covers_what_both_cover() {
    let rects = [
        Rect::new(0, 0, 4, 4),
        Rect::new(2, 1, 6, 3),
        Rect::new(4, 4, 6, 6),
        Rect::new(-2, -2, 1, 1),
        Rect::new(3, 0, 3, 4),
        Rect::new(5, 5, 1, 1),
    ];
    let covers = |r: &Rect, x: i32, y: i32| r.left <= x && x < r.right && r.top <= y && y < r.bottom;
    for a in &rects {
        for b in &rects {
            let shared = a.intersect(b);
            assert_eq!(shared, b.intersect(a));
            for y in -3..8 {
                for x in -3..8 {
                    let both = covers(a, x, y) && covers(b, x, y);
                    let inside = shared.map_or(false, |s| covers(&s, x, y));
                    assert_eq!(both, inside);
                }
            }
        }
    }
}

#[test]
fn center_lies_in_the_middle() {
    for &r in &[Rect::new(0, 0, 7, 9), Rect::new(-9, -7, 0, 0), Rect::new(3, 3, 3, 3), Rect::new(-1, -1, 2, 2)] {
        let c = r.center();
        assert!(r.contain(c.0, c.1));
        assert!(r.left + r.right - 1 <= 2 * c.0 && 2 * c.0 <= r.left + r.right);
        assert!(r.top + r.bottom - 1 <= 2 * c.1 && 2 * c.1 <= r.top + r.bottom);
    }
}
