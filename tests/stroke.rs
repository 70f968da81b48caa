use digit_canvas::canvas::{Canvas, CanvasEvent, NormPos, Ratio};
use digit_canvas::raster::{line_points, Point, Sample};
use digit_canvas::stroke::{normalize, NodeFrame, Stroke};

fn frame() -> NodeFrame {
    NodeFrame { center: Sample { x: 240, y: 240 }, width: 480, height: 480 }
}

#[test]
fn normalize_centre_is_half() {
    let n = normalize(Point { x: 240, y: 240 }, frame());
    assert_eq!(n, NormPos { x: Ratio { num: 480, den: 960 }, y: Ratio { num: 480, den: 960 } });
    let corner = normalize(Point { x: 0, y: 479 }, frame());
    assert_eq!(corner.x, Ratio { num: 0, den: 960 });
    assert_eq!(corner.y, Ratio { num: 958, den: 960 });
}

#[test]
fn first_sample_draws_nothing() {
    let mut s = Stroke::new();
    let mut events = Vec::new();
    s.pointer_moved(Sample { x: 10, y: 10 }, frame(), &mut events);
    assert!(events.is_empty());
    assert_eq!(s.last, Some(Sample { x: 10, y: 10 }));
}

#[test]
fn second_sample_draws_segment() {
    let mut s = Stroke::new();
    let mut events = Vec::new();
    s.pointer_moved(Sample { x: 10, y: 10 }, frame(), &mut events);
    s.pointer_moved(Sample { x: 13, y: 11 }, frame(), &mut events);
    let pts = line_points(Sample { x: 10, y: 10 }, Sample { x: 13, y: 11 });
    assert_eq!(events.len(), pts.len());
    assert_eq!(events.len(), 20);
    for (e, p) in events.iter().zip(pts.iter()) {
        assert_eq!(*e, CanvasEvent::DrawAt(normalize(*p, frame()), Ratio { num: 1, den: 1 }));
    }
}

#[test]
fn release_clears_and_forgets() {
    let mut s = Stroke::new();
    let mut events = Vec::new();
    s.pointer_moved(Sample { x: 10, y: 10 }, frame(), &mut events);
    s.release(&mut events);
    assert_eq!(events, vec![CanvasEvent::Clear]);
    assert_eq!(s.last, None);
    s.pointer_moved(Sample { x: 100, y: 100 }, frame(), &mut events);
    assert_eq!(events.len(), 1);
}

#[test]
fn frame_update_in_order() {
    let mut s = Stroke::new();
    let cursors = vec![Sample { x: 240, y: 240 }, Sample { x: 241, y: 240 }];
    let ev = s.draw_on_mouse_move(false, true, &cursors, frame());
    assert_eq!(ev.len(), 10);
    assert_eq!(s.last, Some(Sample { x: 241, y: 240 }));
    let ev = s.draw_on_mouse_move(true, false, &vec![Sample { x: 5, y: 5 }], frame());
    assert_eq!(ev, vec![CanvasEvent::Clear]);
    assert_eq!(s.last, None);
    let ev = s.draw_on_mouse_move(false, false, &vec![Sample { x: 5, y: 5 }], frame());
    assert!(ev.is_empty());
}

#[test]
fn stroke_paints_canvas() {
    let mut s = Stroke::new();
    let mut c = Canvas::new();
    let cursors = vec![Sample { x: 240, y: 240 }, Sample { x: 240, y: 240 }];
    let ev = s.draw_on_mouse_move(false, true, &cursors, frame());
    c.dispatch(&ev);
    let lit: Vec<usize> = (0..64 * 64).filter(|&i| c.data[4 * i] != 0).collect();
    assert_eq!(lit, vec![32 * 64 + 32]);
}
