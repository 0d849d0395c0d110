use infer_filter::error::ClassifyError;
use infer_filter::text_input::{check_tokens, prepare_text, rejection, validate_text_input, InputProblem};

const TOKENIZER_JSON: &str = r#"{
  "version": "1.0",
  "truncation": null,
  "padding": null,
  "added_tokens": [],
  "normalizer": null,
  "pre_tokenizer": {"type": "Whitespace"},
  "post_processor": null,
  "decoder": null,
  "model": {"type": "WordLevel", "vocab": {"hello": 0, "world": 1, "[UNK]": 2}, "unk_token": "[UNK]"}
}"#;

#[test]
fn missing_and_empty_inputs_are_rejected() {
    assert_eq!(validate_text_input(None), Err(InputProblem::Missing));
    assert_eq!(validate_text_input(Some(String::new())), Err(InputProblem::Empty));
    assert_eq!(validate_text_input(Some("I love Rust".to_string())), Ok("I love Rust".to_string()));
}

#[test]
fn rejection_responses() {
    let r = rejection(InputProblem::Empty);
    assert_eq!(r.status, 400);
    assert_eq!(r.body, "Empty Input\r\n");
    assert_eq!(r.headers, vec![("Powered-By".to_string(), "proxy-wasm".to_string())]);
    assert_eq!(rejection(InputProblem::Missing).body, "No Input\r\n");
}

#[test]
fn tokens_and_mask_must_agree() {
    let t = check_tokens(vec![5, 6, 7], vec![1, 1, 1]).unwrap();
    assert_eq!(t.shape(), (1, 3));
    assert_eq!(t.ids, vec![5, 6, 7]);
    assert!(matches!(check_tokens(vec![5, 6], vec![1]), Err(ClassifyError::ShapeMismatch)));
}

#[test]
fn text_is_tokenized() {
    let tokenizer = tokenizers::Tokenizer::from_bytes(TOKENIZER_JSON.as_bytes()).unwrap();
    let t = prepare_text(&tokenizer, &"hello world again".to_string()).unwrap();
    assert_eq!(t.ids, vec![0, 1, 2]);
    assert_eq!(t.mask, vec![1, 1, 1]);
    assert_eq!(t.shape(), (1, 3));
}
