use infer_filter::annotate::PredictionResult;
use infer_filter::error::ClassifyError;
use infer_filter::exchange::{BodyStep, Directive, ExchangeContext, HeaderStep, InputSource, Phase};
use infer_filter::image_input::{prepare_image, ColorModel, ImageInputSpec, Layout};

fn header(n: &str, v: &str) -> (String, String) {
    (n.to_string(), v.to_string())
}

#[test]
fn one_classification_after_third_chunk() {
    let mut ctx = ExchangeContext::new(7, InputSource::Body, 1 << 20);
    assert_eq!(ctx.id(), 7);
    assert!(matches!(ctx.on_request_headers(None), HeaderStep::Continue));
    let mut classified = 0;
    let chunks: [(&[u8], bool); 3] = [(b"one-", false), (b"two-", false), (b"three", true)];
    for (i, (chunk, end)) in chunks.iter().enumerate() {
        match ctx.on_request_body(chunk, *end) {
            BodyStep::Pause => assert!(i < 2),
            BodyStep::Classify(b) => {
                assert_eq!(i, 2);
                assert_eq!(b, b"one-two-three".to_vec());
                classified += 1;
            },
            BodyStep::Continue => panic!("unexpected continue"),
        }
    }
    assert_eq!(classified, 1);
    assert_eq!(ctx.phase(), Phase::Classifying);
    assert!(matches!(ctx.on_request_body(b"late", true), BodyStep::Continue));
    let p = PredictionResult::new(282, "0.98".to_string(), &None);
    assert_eq!(ctx.record_outcome(Ok(p)), Directive::Continue);
    assert_eq!(ctx.phase(), Phase::Annotated);
    let mut h = vec![header("server", "up")];
    assert_eq!(ctx.on_response_headers(&mut h), Directive::Continue);
    assert_eq!(h, vec![header("server", "up"), header("x-predicted-label", "282"), header("x-predicted-confidence", "0.98")]);
    ctx.on_response_headers(&mut h);
    assert_eq!(h.len(), 3);
}

#[test]
fn empty_text_input_gets_400() {
    let mut ctx = ExchangeContext::new(1, InputSource::Header, 1024);
    match ctx.on_request_headers(Some(String::new())) {
        HeaderStep::Reject(r) => {
            assert_eq!(r.status, 400);
            assert_eq!(r.body, "Empty Input\r\n");
        },
        _ => panic!("expected a rejection"),
    }
    assert_eq!(ctx.phase(), Phase::Annotated);
    assert!(matches!(ctx.on_request_body(b"x", true), BodyStep::Continue));
    assert!(ctx.prediction().is_none());
    let mut h = vec![header("server", "up")];
    ctx.on_response_headers(&mut h);
    assert_eq!(h, vec![header("server", "up")]);
}

#[test]
fn missing_text_input_gets_400() {
    let mut ctx = ExchangeContext::new(2, InputSource::Header, 1024);
    match ctx.on_request_headers(None) {
        HeaderStep::Reject(r) => assert_eq!(r.body, "No Input\r\n"),
        _ => panic!("expected a rejection"),
    }
}

#[test]
fn text_input_is_classified_on_headers() {
    let mut ctx = ExchangeContext::new(3, InputSource::Header, 1024);
    match ctx.on_request_headers(Some("I love Rust".to_string())) {
        HeaderStep::Classify(t) => assert_eq!(t, "I love Rust"),
        _ => panic!("expected classification"),
    }
    let labels = Some(vec!["negative".to_string(), "positive".to_string()]);
    ctx.record_outcome(Ok(PredictionResult::new(1, "0.8".to_string(), &labels)));
    let mut h = Vec::new();
    ctx.on_response_headers(&mut h);
    assert_eq!(h, vec![header("x-predicted-label", "positive"), header("x-predicted-confidence", "0.8")]);
}

#[test]
fn corrupted_image_leaves_headers_unchanged() {
    let spec = ImageInputSpec { width: 224, height: 224, color: ColorModel::Rgb, layout: Layout::Nhwc };
    let mut ctx = ExchangeContext::new(4, InputSource::Body, 1 << 20);
    let body = match ctx.on_request_body(b"\x89PNG garbage", true) {
        BodyStep::Classify(b) => b,
        _ => panic!("expected classification"),
    };
    let outcome = prepare_image(&body, &spec);
    assert_eq!(outcome, Err(ClassifyError::InputDecode));
    assert_eq!(ctx.record_outcome(Err(ClassifyError::InputDecode)), Directive::Continue);
    assert!(ctx.prediction().is_none());
    let mut h = vec![header("server", "up"), header("content-length", "12")];
    assert_eq!(ctx.on_response_headers(&mut h), Directive::Continue);
    assert_eq!(h, vec![header("server", "up"), header("content-length", "12")]);
}

#[test]
fn oversized_body_gets_no_classification() {
    let mut ctx = ExchangeContext::new(5, InputSource::Body, 4);
    assert!(matches!(ctx.on_request_body(b"abc", false), BodyStep::Pause));
    assert!(matches!(ctx.on_request_body(b"defg", true), BodyStep::Continue));
    assert_eq!(ctx.phase(), Phase::Annotated);
    assert!(ctx.prediction().is_none());
}
