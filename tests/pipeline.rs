use digit_canvas::canvas::{Canvas, CanvasEvent, NormPos, Ratio};
use digit_canvas::pipeline::{
    best_class, binarize, class_label, greater, is_blank, label_for_scores, model_input, stage,
    ResultValue, Stage,
};

fn bits(v: &[f32]) -> Vec<u32> {
    v.iter().map(|f| f.to_bits()).collect()
}

fn draw(c: &mut Canvas, col: i64, row: i64) {
    let pos = NormPos { x: Ratio { num: col, den: 64 }, y: Ratio { num: row, den: 64 } };
    c.dispatch(&vec![CanvasEvent::DrawAt(pos, Ratio { num: 1, den: 1 })]);
}

#[test]
fn tie_goes_to_first_maximum() {
    assert_eq!(best_class(&bits(&[0.2, 0.9, 0.9, 0.1])), Some(1));
}

#[test]
fn best_class_of_logits() {
    assert_eq!(best_class(&bits(&[-3.5, -1.25, -7.0, -1.5])), Some(1));
    assert_eq!(best_class(&bits(&[0.0, 1.0, 2.0, 3.0, 4.0, 5.0, 6.0, 7.0, 8.0, 9.0])), Some(9));
    assert_eq!(best_class(&bits(&[4.0])), Some(0));
    assert_eq!(best_class(&Vec::new()), None);
}

#[test]
fn nan_scores_never_win() {
    assert_eq!(best_class(&bits(&[1.0, f32::NAN, 2.0])), Some(2));
    assert_eq!(best_class(&bits(&[f32::NAN, 5.0, 2.0])), Some(0));
}

#[test]
fn greater_matches_float_order() {
    let vals = [f32::NEG_INFINITY, -2.5, -0.0, 0.0, 1e-30, 0.75, 3.0, f32::INFINITY, f32::NAN];
    for a in vals {
        for b in vals {
            assert_eq!(greater(a.to_bits(), b.to_bits()), a > b, "{} > {}", a, b);
        }
    }
}

#[test]
fn labels_are_decimal() {
    assert_eq!(class_label(0), "0");
    assert_eq!(class_label(7), "7");
    assert_eq!(class_label(12), "12");
    assert_eq!(class_label(305), "305");
}

#[test]
fn label_for_scores_picks_numeral() {
    assert_eq!(label_for_scores(&bits(&[0.1, 0.3, 0.2])), Some("1".to_string()));
    assert_eq!(label_for_scores(&Vec::new()), None);
}

#[test]
fn binarize_is_hard_threshold() {
    assert_eq!(binarize(&vec![0, 1, 255, 0, 17]), vec![0, 1, 1, 0, 1]);
    assert_eq!(binarize(&vec![]), Vec::<u8>::new());
}

#[test]
fn blank_detection() {
    assert!(is_blank(&vec![0; 784]));
    assert!(is_blank(&vec![]));
    let mut v = vec![0; 784];
    v[783] = 1;
    assert!(!is_blank(&v));
}

#[test]
fn black_canvas_shows_empty_label() {
    let c = Canvas::new();
    match stage(&c) {
        Stage::Label(l) => assert_eq!(l, ""),
        Stage::Infer(_) => panic!("a black canvas reached the model"),
    }
}

#[test]
fn drawn_canvas_goes_to_model() {
    let mut c = Canvas::new();
    draw(&mut c, 32, 32);
    let input = model_input(&c);
    assert_eq!(input.len(), 28 * 28);
    assert!(input.iter().all(|&v| v <= 1));
    assert!(input.iter().any(|&v| v == 1));
    match stage(&c) {
        Stage::Infer(p) => assert_eq!(p, input),
        Stage::Label(_) => panic!("a drawn canvas was taken for blank"),
    }
}

#[test]
fn same_drawing_same_pattern() {
    let mut a = Canvas::new();
    let mut b = Canvas::new();
    for (col, row) in [(10, 10), (11, 10), (12, 11)] {
        draw(&mut a, col, row);
        draw(&mut b, col, row);
    }
    assert_eq!(model_input(&a), model_input(&b));
}

#[test]
fn result_value_keeps_label_on_failure() {
    let mut shown = ResultValue::new();
    assert_eq!(shown.label, "");
    shown.show(Some("3".to_string()));
    assert_eq!(shown.label, "3");
    shown.show(None);
    assert_eq!(shown.label, "3");
    shown.show(Some(String::new()));
    assert_eq!(shown.label, "");
}
