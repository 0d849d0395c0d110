use infer_filter::annotate::{annotate, decimal_text, PredictionResult};

fn header(n: &str, v: &str) -> (String, String) {
    (n.to_string(), v.to_string())
}

#[test]
fn decimal_notation() {
    assert_eq!(decimal_text(0), "0");
    assert_eq!(decimal_text(7), "7");
    assert_eq!(decimal_text(282), "282");
    assert_eq!(decimal_text(1000), "1000");
    assert_eq!(decimal_text(usize::MAX), usize::MAX.to_string());
}

#[test]
fn prediction_adds_two_headers() {
    let mut h = vec![header("content-type", "text/plain"), header("server", "up")];
    let p = PredictionResult::new(282, "0.93".to_string(), &None);
    annotate(&mut h, &Some(p));
    assert_eq!(
        h,
        vec![
            header("content-type", "text/plain"),
            header("server", "up"),
            header("x-predicted-label", "282"),
            header("x-predicted-confidence", "0.93"),
        ]
    );
}

#[test]
fn no_prediction_leaves_headers_unchanged() {
    let mut h = vec![header("server", "up")];
    annotate(&mut h, &None);
    assert_eq!(h, vec![header("server", "up")]);
}

#[test]
fn annotating_twice_does_not_duplicate() {
    let mut h = vec![header("server", "up")];
    let p = Some(PredictionResult::new(3, "0.5".to_string(), &None));
    annotate(&mut h, &p);
    annotate(&mut h, &p);
    assert_eq!(h.len(), 3);
    assert_eq!(h[1], header("x-predicted-label", "3"));
    assert_eq!(h[2], header("x-predicted-confidence", "0.5"));
}

#[test]
fn label_map_names_the_class() {
    let labels = Some(vec!["very negative".to_string(), "negative".to_string(), "neutral".to_string()]);
    let p = PredictionResult::new(1, "0.7".to_string(), &labels);
    assert_eq!(p.label_name, Some("negative".to_string()));
    assert_eq!(p.label_value(), "negative");
    let outside = PredictionResult::new(9, "0.7".to_string(), &labels);
    assert_eq!(outside.label_name, None);
    assert_eq!(outside.label_value(), "9");
    let mut h = Vec::new();
    annotate(&mut h, &Some(p));
    assert_eq!(h[0], header("x-predicted-label", "negative"));
}
