use infer_filter::scores::{is_nan_bits, order_key, select_best, ReduceError};

fn bits(v: &[f32]) -> Vec<u32> {
    v.iter().map(|f| f.to_bits()).collect()
}

#[test]
fn order_key_follows_number_order() {
    let values = [f32::NEG_INFINITY, -3.5, -1.0, -0.0, 0.0, 1e-40, 0.25, 9.8, f32::MAX, f32::INFINITY];
    for w in values.windows(2) {
        assert!(order_key(w[0].to_bits()) <= order_key(w[1].to_bits()));
    }
    assert_eq!(order_key((-0.0f32).to_bits()), order_key(0.0f32.to_bits()));
    assert!(order_key((-1.0f32).to_bits()) < order_key((-0.5f32).to_bits()));
    assert_eq!(order_key(0.0f32.to_bits()), 0x8000_0000);
    assert_eq!(order_key(1.0f32.to_bits()), 0x8000_0000 + 0x3f80_0000);
}

#[test]
fn nan_bits_are_recognised() {
    assert!(is_nan_bits(f32::NAN.to_bits()));
    assert!(!is_nan_bits(f32::INFINITY.to_bits()));
    assert!(!is_nan_bits(0.0f32.to_bits()));
}

#[test]
fn selects_position_of_maximum() {
    assert_eq!(select_best(&bits(&[1.0, 3.0, 2.0])), Ok(1));
    assert_eq!(select_best(&bits(&[-5.0, -2.0, -7.0])), Ok(1));
    assert_eq!(select_best(&bits(&[0.5])), Ok(0));
}

#[test]
fn ties_go_to_lowest_index() {
    assert_eq!(select_best(&bits(&[2.0, 5.0, 5.0, 1.0])), Ok(1));
    assert_eq!(select_best(&bits(&[4.0, 4.0, 4.0])), Ok(0));
    assert_eq!(select_best(&bits(&[-0.0, 0.0])), Ok(0));
    assert_eq!(select_best(&bits(&[0.0, -0.0])), Ok(0));
}

#[test]
fn empty_and_nan_scores_have_no_best() {
    assert_eq!(select_best(&Vec::new()), Err(ReduceError::Empty));
    assert_eq!(select_best(&bits(&[1.0, f32::NAN, 2.0])), Err(ReduceError::NotANumber));
}

#[test]
fn thousand_logits_with_peak_at_282() {
    let mut logits: Vec<f32> = (0..1000).map(|i| ((i * 37) % 100) as f32 / 20.0 - 2.0).collect();
    logits[282] = 9.8;
    assert_eq!(select_best(&bits(&logits)), Ok(282));
    let max = logits.iter().cloned().fold(f32::NEG_INFINITY, f32::max);
    let exp: Vec<f32> = logits.iter().map(|x| (x - max).exp()).collect();
    let sum: f32 = exp.iter().sum();
    let probs: Vec<f32> = exp.iter().map(|x| x / sum).collect();
    assert_eq!(select_best(&bits(&probs)), Ok(282));
    for (i, p) in probs.iter().enumerate() {
        if i != 282 {
            assert!(*p < probs[282]);
        }
    }
}
