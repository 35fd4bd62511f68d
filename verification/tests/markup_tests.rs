use dk::markup::{color_segments, Tint};

fn as_pairs(text: &str) -> Vec<(Tint, String)> {
    color_segments(text).into_iter().map(|s| (s.tint, s.text)).collect()
}

#[test]
fn test_segments_of_three_labels() {
    let segs = as_pairs("(w)White text (y)Yellow text (b)Blue text");
    assert_eq!(
        segs,
        vec![
            (Tint::White, "White text ".to_string()),
            (Tint::Yellow, "Yellow text ".to_string()),
            (Tint::Blue, "Blue text".to_string()),
        ]
    );
}

#[test]
fn test_text_before_first_label_is_white() {
    let segs = as_pairs("hello (y)world");
    assert_eq!(
        segs,
        vec![(Tint::White, "hello ".to_string()), (Tint::Yellow, "world".to_string())]
    );
}

#[test]
fn test_stray_parenthesis_keeps_current_colour() {
    let segs = as_pairs("(w)a(xb(y)c");
    assert_eq!(
        segs,
        vec![
            (Tint::White, "a".to_string()),
            (Tint::White, "(xb".to_string()),
            (Tint::Yellow, "c".to_string()),
        ]
    );
}

#[test]
fn test_empty_label_content_is_kept() {
    let segs = as_pairs("(y)(b)x");
    assert_eq!(
        segs,
        vec![(Tint::Yellow, "".to_string()), (Tint::Blue, "x".to_string())]
    );
}

#[test]
fn test_plain_text_is_one_white_segment() {
    let segs = as_pairs("no labels here");
    assert_eq!(segs, vec![(Tint::White, "no labels here".to_string())]);
}

#[test]
fn test_empty_text_has_no_segments() {
    assert_eq!(as_pairs("").len(), 0);
}
