use inkstroke::sketch::Sketch;
use inkstroke::stroke::{Stroke, StrokeBuilder};

#[test]
fn sketch() {
    let x = vec![1., 2., 3., 4., 5., 32.];
    let y = vec![1., 2., 3., 4., 5.];
    let timestamp = vec![1, 2, 3, 4];
    let pressure = vec![1., 2., 3., 4.];

    let stroke = Stroke::new(x, y, timestamp, pressure);

    let strokes = vec![stroke.clone()];
    let mut sketch = Sketch::new(strokes);
    assert_eq!(sketch.len(), 1);

    sketch.add_stroke(stroke);
    assert_eq!(sketch.len(), 2);
}

#[test]
fn stroke_builder() {
    let mut stroke_builder = StrokeBuilder::new();
    stroke_builder.add_point(1., 2., 3, 4.);
    stroke_builder.add_point(2., 3., 4, 5.);
    let stroke = stroke_builder.build();

    assert_eq!(stroke.len(), 2);
}

#[test]
fn equals() {
    let x0 = vec![1., 2., 3., 4., 5., 32.];
    let y0 = vec![1., 2., 3., 4., 5.];
    let timestamp0 = vec![1, 2, 3, 4];
    let pressure0 = vec![1., 2., 3., 4.];

    let x1 = vec![1., 2., 3., 4., 5., 32.];
    let y1 = vec![1., 2., 3., 4., 5.];
    let timestamp1 = vec![1, 2, 3, 4];
    let pressure1 = vec![1., 2., 3., 4.];

    let x2 = vec![2.];
    let y2 = vec![2.];
    let timestamp2 = vec![2];
    let pressure2 = vec![2.];

    let stroke0 = Stroke::new(x0, y0, timestamp0, pressure0);
    let stroke1 = Stroke::new(x1, y1, timestamp1, pressure1);
    let stroke2 = Stroke::new(x2, y2, timestamp2, pressure2);

    assert_eq!(stroke0, stroke1);
    assert_eq!(stroke1, stroke0);
    assert_ne!(stroke0, stroke2);
    assert_ne!(stroke2, stroke0);
    assert_ne!(stroke1, stroke2);
    assert_ne!(stroke2, stroke1);
}

#[test]
fn sketch_processing() {
    let x1 = vec![1., 2., 3., 4.];
    let y1 = vec![1., 2., 3., 4.];
    let t1 = vec![1, 2, 3, 4];
    let p1 = vec![1., 1., 1., 1.];
    let s1 = Stroke::new(x1, y1, t1, p1);

    let x2 = vec![2., 3., 3., 5.];
    let y2 = vec![5., 3., 3., 1.];
    let t2 = vec![1, 2, 3, 4];
    let p2 = vec![1., 1., 1., 1.];
    let s2 = Stroke::new(x2, y2, t2, p2);

    let x3 = vec![3., 3.];
    let y3 = vec![3., 3.];
    let t3 = vec![1, 2];
    let p3 = vec![1., 1.];
    let s3 = Stroke::new(x3, y3, t3, p3);

    let strokes = vec![s1, s2, s3];
    let mut sketch = Sketch::new(strokes);

    sketch.remove_duplicate_dots();
    assert_eq!(sketch.strokes[0].len(), 4);
    assert_eq!(sketch.strokes[1].len(), 3);

    sketch.remove_single_dot_strokes();
    assert_eq!(sketch.len(), 2);
}

#[test]
fn new_stroke_holds_its_channels() {
    let s = Stroke::new(vec![1.5, 2.5], vec![3.0, 4.0], vec![7, 8], vec![0.5, 0.25]);
    assert_eq!(s.typ, "stroke");
    assert!(s.meta.is_empty());
    assert_eq!(s.x(), &vec![1.5, 2.5]);
    assert_eq!(s.y(), &vec![3.0, 4.0]);
    assert_eq!(s.timestamp(), &vec![7, 8]);
    assert_eq!(s.pressure(), &vec![0.5, 0.25]);
}

#[test]
fn equal_until_one_channel_value_changes() {
    let a = Stroke::new(vec![1.0, 2.0], vec![3.0, 4.0], vec![10, 20], vec![0.5, 0.5]);
    let b = Stroke::new(vec![1.0, 2.0], vec![3.0, 4.0], vec![10, 20], vec![0.5, 0.5]);
    assert_eq!(a, b);

    let mut c = b.clone();
    c.x[1] = 2.5;
    assert_ne!(a, c);
    let mut c = b.clone();
    c.y[0] = 0.0;
    assert_ne!(a, c);
    let mut c = b.clone();
    c.timestamp[1] = 21;
    assert_ne!(a, c);
    let mut c = b.clone();
    c.pressure[0] = 0.75;
    assert_ne!(a, c);
    let mut c = b.clone();
    c.meta.insert(String::from("k"), serde_json::Value::Bool(true));
    assert_ne!(a, c);
}

#[test]
fn timestamp_extrema() {
    let s = Stroke::new(vec![0.0; 4], vec![0.0; 4], vec![30, 10, 40, 20], vec![0.0; 4]);
    assert_eq!(s.timestamp_min(), 10);
    assert_eq!(s.timestamp_max(), 40);
}

#[test]
fn timestamp_extrema_of_empty_stroke_are_sentinels() {
    let s: Stroke<f64> = Stroke::new(vec![], vec![], vec![], vec![]);
    assert_eq!(s.timestamp_min(), u64::MAX);
    assert_eq!(s.timestamp_max(), 0);
    assert_eq!(s.len(), 0);
}

#[test]
fn sketch_timestamp_extrema_span_all_strokes() {
    let a = Stroke::new(vec![0.0, 1.0], vec![0.0, 1.0], vec![5, 9], vec![1.0, 1.0]);
    let b = Stroke::new(vec![2.0, 3.0], vec![2.0, 3.0], vec![2, 7], vec![1.0, 1.0]);
    let empty = Stroke::new(vec![], vec![], vec![], vec![]);
    let sketch = Sketch::new(vec![a, empty, b]);
    assert_eq!(sketch.timestamp_min(), 2);
    assert_eq!(sketch.timestamp_max(), 9);
}

#[test]
fn empty_sketch_timestamp_extrema_are_sentinels() {
    let sketch: Sketch<f64> = Sketch::new(vec![]);
    assert_eq!(sketch.timestamp_min(), u64::MAX);
    assert_eq!(sketch.timestamp_max(), 0);
    assert_eq!(sketch.len(), 0);
}

#[test]
fn add_stroke_appends_at_the_end() {
    let a = Stroke::new(vec![1.0], vec![1.0], vec![1], vec![1.0]);
    let b = Stroke::new(vec![2.0], vec![2.0], vec![2], vec![2.0]);
    let mut sketch = Sketch::new(vec![a.clone()]);
    sketch.add_stroke(b.clone());
    assert_eq!(sketch.strokes(), &vec![a, b]);
    assert_eq!(sketch.typ, "stroke");
}

#[test]
fn duplicate_dots_without_repeats_are_kept() {
    let mut s = Stroke::new(vec![1., 2., 3., 4.], vec![1., 2., 3., 4.], vec![1, 2, 3, 4], vec![1., 1., 1., 1.]);
    let before = s.clone();
    s.remove_duplicate_dots();
    assert_eq!(s, before);
}

#[test]
fn duplicate_dot_is_removed_from_every_channel() {
    let mut s = Stroke::new(vec![2., 3., 3., 5.], vec![5., 3., 3., 1.], vec![1, 2, 3, 4], vec![0.1, 0.2, 0.3, 0.4]);
    s.remove_duplicate_dots();
    assert_eq!(s.x, vec![2., 3., 5.]);
    assert_eq!(s.y, vec![5., 3., 1.]);
    assert_eq!(s.timestamp, vec![1, 2, 4]);
    assert_eq!(s.pressure, vec![0.1, 0.2, 0.4]);
}

#[test]
fn duplicate_dot_removal_keeps_order() {
    // Points stay in their order; removal by swapping with the last point
    // would have given x = [1, 3, 2].
    let mut s = Stroke::new(vec![1., 1., 2., 3.], vec![0., 0., 0., 0.], vec![1, 2, 3, 4], vec![1., 1., 1., 1.]);
    s.remove_duplicate_dots();
    assert_eq!(s.x, vec![1., 2., 3.]);
    assert_eq!(s.timestamp, vec![1, 3, 4]);
}

#[test]
fn run_of_repeats_collapses_to_one_point() {
    let mut s = Stroke::new(vec![4., 4., 4., 4.], vec![2., 2., 2., 2.], vec![1, 2, 3, 4], vec![1., 2., 3., 4.]);
    s.remove_duplicate_dots();
    assert_eq!(s.x, vec![4.]);
    assert_eq!(s.timestamp, vec![1]);
    assert_eq!(s.pressure, vec![1.]);
}

#[test]
fn same_x_with_other_y_is_no_repeat() {
    let mut s = Stroke::new(vec![1., 1.], vec![1., 2.], vec![1, 2], vec![1., 1.]);
    s.remove_duplicate_dots();
    assert_eq!(s.len(), 2);
}

#[test]
fn points_without_y_are_never_repeats() {
    let mut s = Stroke::new(vec![1., 1., 1.], vec![1., 1.], vec![1, 2, 3], vec![]);
    s.remove_duplicate_dots();
    assert_eq!(s.x, vec![1., 1.]);
    assert_eq!(s.y, vec![1.]);
    assert_eq!(s.timestamp, vec![1, 3]);
}

#[test]
fn flagged_points_leave_all_channels() {
    let mut s = Stroke::new(vec![1., 2., 3.], vec![4., 5., 6.], vec![7, 8, 9], vec![0.1, 0.2, 0.3]);
    s.drop_flagged_points(&vec![true, false, true]);
    assert_eq!(s.x, vec![2.]);
    assert_eq!(s.y, vec![5.]);
    assert_eq!(s.timestamp, vec![8]);
    assert_eq!(s.pressure, vec![0.2]);
}

#[test]
fn repeated_points_flags() {
    let s = Stroke::new(vec![2., 3., 3., 5.], vec![5., 3., 3., 1.], vec![], vec![]);
    assert_eq!(s.repeated_points(), vec![false, false, true, false]);
}

#[test]
fn single_dot_strokes_are_removed_in_order() {
    let a = Stroke::new(vec![1., 2.], vec![1., 2.], vec![1, 2], vec![1., 1.]);
    let dot = Stroke::new(vec![3.], vec![3.], vec![3], vec![1.]);
    let empty = Stroke::new(vec![], vec![], vec![], vec![]);
    let b = Stroke::new(vec![4., 5., 6.], vec![4., 5., 6.], vec![4, 5, 6], vec![1., 1., 1.]);
    let mut sketch = Sketch::new(vec![dot, a.clone(), empty, b.clone()]);
    sketch.remove_single_dot_strokes();
    assert_eq!(sketch.strokes, vec![a, b]);
}

#[test]
fn one_single_dot_stroke_among_three() {
    let a = Stroke::new(vec![1., 2.], vec![1., 2.], vec![1, 2], vec![1., 1.]);
    let dot = Stroke::new(vec![3.], vec![3.], vec![3], vec![1.]);
    let b = Stroke::new(vec![4., 5.], vec![4., 5.], vec![4, 5], vec![1., 1.]);
    let mut sketch = Sketch::new(vec![a, dot, b]);
    sketch.remove_single_dot_strokes();
    assert_eq!(sketch.len(), 2);
}
