//! Core of an HTTP filter that classifies request content with a model and
//! annotates the response with the predicted label and confidence.

pub mod accumulator;
pub mod annotate;
pub mod error;
pub mod exchange;
pub mod image_input;
pub mod scores;
pub mod text_input;
