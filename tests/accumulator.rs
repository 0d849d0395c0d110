use infer_filter::accumulator::{AccumulationState, BodyAccumulator};

#[test]
fn three_chunks_reassemble() {
    let mut acc = BodyAccumulator::new(1024);
    assert!(matches!(acc.append(b"ab", false), AccumulationState::Incomplete));
    assert!(matches!(acc.append(b"", false), AccumulationState::Incomplete));
    assert!(!acc.is_spent());
    match acc.append(b"cde", true) {
        AccumulationState::Complete(b) => assert_eq!(b, b"abcde".to_vec()),
        _ => panic!("expected a complete body"),
    }
    assert!(acc.is_spent());
}

#[test]
fn single_final_chunk_is_complete() {
    let mut acc = BodyAccumulator::new(3);
    match acc.append(b"xyz", true) {
        AccumulationState::Complete(b) => assert_eq!(b, b"xyz".to_vec()),
        _ => panic!("expected a complete body"),
    }
}

#[test]
fn body_over_limit_is_refused() {
    let mut acc = BodyAccumulator::new(4);
    assert!(matches!(acc.append(b"abc", false), AccumulationState::Incomplete));
    assert!(matches!(acc.append(b"de", true), AccumulationState::TooLarge));
    assert!(acc.is_spent());
}
