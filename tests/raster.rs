use digit_canvas::raster::{line_points, Point, Sample};
use std::collections::HashSet;

fn s(x: i32, y: i32) -> Sample {
    Sample { x, y }
}

fn set_of(points: &[Point]) -> HashSet<(i64, i64)> {
    points.iter().map(|p| (p.x, p.y)).collect()
}

#[test]
fn shallow_line_exact_points() {
    let r = line_points(s(0, 0), s(2, 1));
    let got: Vec<(i64, i64)> = r.iter().map(|p| (p.x, p.y)).collect();
    let expected = vec![
        (0, 0), (1, 0), (0, 1), (-1, 0), (0, -1),
        (1, 0), (2, 0), (1, 1), (0, 0), (1, -1),
        (2, 1), (3, 1), (2, 2), (1, 1), (2, 0),
    ];
    assert_eq!(got, expected);
}

#[test]
fn endpoints_are_ordered_along_major_axis() {
    let a = line_points(s(2, 1), s(0, 0));
    let b = line_points(s(0, 0), s(2, 1));
    assert_eq!(a, b);
}

#[test]
fn single_point_gives_one_cross() {
    let r = line_points(s(5, 7), s(5, 7));
    assert_eq!(r.len(), 5);
    assert_eq!(r[0], Point { x: 5, y: 7 });
}

#[test]
fn distinct_points_give_nonempty_line() {
    for (a, b) in [(s(0, 0), s(10, 3)), (s(-4, 9), s(3, -20)), (s(100, 100), s(99, 100))] {
        assert!(!line_points(a, b).is_empty());
    }
}

#[test]
fn horizontal_primaries_keep_row() {
    let r = line_points(s(3, 9), s(-6, 9));
    assert_eq!(r.len(), 5 * 10);
    for k in 0..10 {
        assert_eq!(r[5 * k].y, 9);
    }
}

#[test]
fn vertical_primaries_keep_column() {
    let r = line_points(s(4, 20), s(4, 2));
    assert_eq!(r.len(), 5 * 19);
    for k in 0..19 {
        assert_eq!(r[5 * k].x, 4);
    }
}

#[test]
fn transposed_input_gives_transposed_set() {
    let p1 = s(1, 2);
    let p2 = s(8, 5);
    let a = set_of(&line_points(p1, p2));
    let b = set_of(&line_points(s(2, 1), s(5, 8)));
    let mirrored: HashSet<(i64, i64)> = a.iter().map(|&(x, y)| (y, x)).collect();
    assert_eq!(b, mirrored);
}

#[test]
fn steep_line_steps_minor_axis() {
    let r = line_points(s(0, 0), s(1, 2));
    let primaries: Vec<(i64, i64)> = (0..3).map(|k| (r[5 * k].x, r[5 * k].y)).collect();
    assert_eq!(primaries, vec![(0, 0), (0, 1), (1, 2)]);
}

#[test]
fn descending_minor_axis_steps_down() {
    let r = line_points(s(0, 0), s(3, -1));
    let primaries: Vec<(i64, i64)> = (0..4).map(|k| (r[5 * k].x, r[5 * k].y)).collect();
    assert_eq!(primaries, vec![(0, 0), (1, 0), (2, -1), (3, -1)]);
}

#[test]
fn falling_diagonal_reaches_endpoint() {
    let r = line_points(s(0, 0), s(2, -2));
    let primaries: Vec<(i64, i64)> = (0..3).map(|k| (r[5 * k].x, r[5 * k].y)).collect();
    assert_eq!(primaries, vec![(0, 0), (1, -1), (2, -2)]);
}

#[test]
fn anti_diagonal_transposes() {
    let a = set_of(&line_points(s(0, 1), s(1, 0)));
    let b = set_of(&line_points(s(1, 0), s(0, 1)));
    let mirrored: HashSet<(i64, i64)> = a.iter().map(|&(x, y)| (y, x)).collect();
    assert!(a.contains(&(0, 2)));
    assert_eq!(b, mirrored);
}

#[test]
fn steep_falling_line() {
    let r = line_points(s(5, 0), s(3, 4));
    let primaries: Vec<(i64, i64)> = (0..5).map(|k| (r[5 * k].x, r[5 * k].y)).collect();
    assert_eq!(primaries, vec![(5, 0), (5, 1), (4, 2), (4, 3), (3, 4)]);
}

#[test]
fn extreme_coordinates_do_not_overflow() {
    let r = line_points(s(i32::MAX, 0), s(i32::MAX - 2, 0));
    assert_eq!(r.len(), 15);
    assert_eq!(r[4], Point { x: i32::MAX as i64 - 2, y: -1 });
    assert!(r.iter().any(|p| p.x == i32::MAX as i64 + 1));
}
