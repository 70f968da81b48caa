use digit_canvas::canvas::{cell, in_range, level, Canvas, CanvasEvent, NormPos, Ratio};

fn r(num: i64, den: i64) -> Ratio {
    Ratio { num, den }
}

fn at(x: Ratio, y: Ratio, i: Ratio) -> CanvasEvent {
    CanvasEvent::DrawAt(NormPos { x, y }, i)
}

fn pixel(c: &Canvas, col: usize, row: usize) -> [u8; 4] {
    let o = (row * 64 + col) * 4;
    [c.data[o], c.data[o + 1], c.data[o + 2], c.data[o + 3]]
}

fn lit(c: &Canvas) -> Vec<(usize, usize, u8)> {
    let mut out = Vec::new();
    for row in 0..64 {
        for col in 0..64 {
            let p = pixel(c, col, row);
            assert_eq!(p[0], p[1]);
            assert_eq!(p[0], p[2]);
            assert_eq!(p[3], 255);
            if p[0] != 0 {
                out.push((col, row, p[0]));
            }
        }
    }
    out
}

#[test]
fn new_canvas_is_black() {
    let c = Canvas::new();
    assert_eq!(c.data.len(), 64 * 64 * 4);
    assert!(lit(&c).is_empty());
}

#[test]
fn draw_at_centre_sets_one_pixel() {
    let mut c = Canvas::new();
    c.dispatch(&vec![at(r(1, 2), r(1, 2), r(1, 1))]);
    assert_eq!(pixel(&c, 32, 32), [255, 255, 255, 255]);
    assert_eq!(lit(&c), vec![(32, 32, 255)]);
}

#[test]
fn clear_after_drawing_is_black() {
    let mut c = Canvas::new();
    c.dispatch(&vec![at(r(1, 4), r(3, 4), r(1, 1)), at(r(0, 1), r(0, 1), r(1, 1))]);
    assert_eq!(lit(&c).len(), 2);
    c.dispatch(&vec![CanvasEvent::Clear]);
    assert!(lit(&c).is_empty());
    for i in 0..64 * 64 {
        assert_eq!(&c.data[4 * i..4 * i + 4], &[0, 0, 0, 255]);
    }
}

#[test]
fn intensity_two_saturates_like_one() {
    let mut a = Canvas::new();
    let mut b = Canvas::new();
    a.dispatch(&vec![at(r(3, 10), r(7, 10), r(2, 1))]);
    b.dispatch(&vec![at(r(3, 10), r(7, 10), r(1, 1))]);
    assert_eq!(a.data, b.data);
    assert_eq!(lit(&a), vec![(19, 45, 255)]);
}

#[test]
fn out_of_range_abandons_rest_of_batch() {
    let mut c = Canvas::new();
    c.dispatch(&vec![
        at(r(1, 8), r(1, 8), r(1, 1)),
        at(r(1, 1), r(1, 2), r(1, 1)),
        at(r(1, 2), r(1, 2), r(1, 1)),
    ]);
    assert_eq!(lit(&c), vec![(8, 8, 255)]);
}

#[test]
fn negative_position_is_rejected() {
    let mut c = Canvas::new();
    c.dispatch(&vec![at(r(-1, 64), r(1, 2), r(1, 1)), at(r(1, 2), r(1, 2), r(1, 1))]);
    assert!(lit(&c).is_empty());
}

#[test]
fn boundary_cell_is_clamped() {
    assert_eq!(cell(r(127, 128), 64), 63);
    let mut c = Canvas::new();
    c.dispatch(&vec![at(r(127, 128), r(127, 128), r(1, 1))]);
    assert_eq!(lit(&c), vec![(63, 63, 255)]);
}

#[test]
fn cell_rounds_half_up() {
    assert_eq!(cell(r(0, 1), 64), 0);
    assert_eq!(cell(r(1, 128), 64), 1);
    assert_eq!(cell(r(1, 129), 64), 0);
    assert_eq!(cell(r(1, 2), 64), 32);
}

#[test]
fn intensity_levels() {
    assert_eq!(level(r(1, 1)), 255);
    assert_eq!(level(r(2, 1)), 255);
    assert_eq!(level(r(1, 2)), 128);
    assert_eq!(level(r(1, 3)), 85);
    assert_eq!(level(r(-1, 2)), 0);
    assert_eq!(level(r(0, 5)), 0);
}

#[test]
fn partial_intensity_draw() {
    let mut c = Canvas::new();
    c.dispatch(&vec![at(r(0, 1), r(1, 64), r(1, 3))]);
    assert_eq!(lit(&c), vec![(0, 1, 85)]);
}

#[test]
fn range_check() {
    assert!(in_range(r(0, 3)));
    assert!(in_range(r(2, 3)));
    assert!(!in_range(r(3, 3)));
    assert!(!in_range(r(-1, 3)));
    assert!(!in_range(r(1, 0)));
}

#[test]
fn later_draw_overwrites_earlier() {
    let mut c = Canvas::new();
    c.dispatch(&vec![at(r(1, 2), r(1, 2), r(1, 1)), at(r(1, 2), r(1, 2), r(1, 2))]);
    assert_eq!(lit(&c), vec![(32, 32, 128)]);
}
