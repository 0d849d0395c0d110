//! Text input: validation of the request's input header, the response that
//! rejects a missing or empty input, and tokenization.
use vstd::prelude::*;
use vstd::string::*;
use crate::error::ClassifyError;

verus! {

#[verifier::external_type_specification]
#[verifier::external_body]
pub struct ExTokenizer(tokenizers::Tokenizer);

/// What is wrong with the text input.
#[derive(Debug, Clone, Copy, PartialEq, Eq, Structural)]
pub enum InputProblem {
    /// The request carries no input header.
    Missing,
    /// The input header is empty.
    Empty,
}

/// The text to classify: the input header's value, where it is present and
/// not empty.
pub fn validate_text_input(input: Option<String>) -> (r: Result<String, InputProblem>)
    ensures
        match input {
            None => r == Err::<String, InputProblem>(InputProblem::Missing),
            Some(t) => if t@.len() == 0 {
                r == Err::<String, InputProblem>(InputProblem::Empty)
            } else {
                r matches Ok(v) && v@ == t@
            },
        },
{
    match input {
        None => Err(InputProblem::Missing),
        Some(t) => if t.as_str().unicode_len() == 0 {
            Err(InputProblem::Empty)
        } else {
            Ok(t)
        },
    }
}

/// A response that the filter sends itself, in place of the upstream's.
#[derive(Debug, Clone)]
pub struct LocalResponse {
    pub status: u32,
    pub headers: Vec<(String, String)>,
    pub body: String,
}

pub open spec fn rejection_body(p: InputProblem) -> Seq<char> {
    match p {
        InputProblem::Missing => "No Input\r\n"@,
        InputProblem::Empty => "Empty Input\r\n"@,
    }
}

/// The 400 response that rejects a request whose text input is unusable.
pub fn rejection(p: InputProblem) -> (r: LocalResponse)
    ensures
        r.status == 400,
        r.headers@.len() == 1,
        r.headers@[0].0@ == "Powered-By"@,
        r.headers@[0].1@ == "proxy-wasm"@,
        r.body@ == rejection_body(p),
{
    let body = match p {
        InputProblem::Missing => String::from_str("No Input\r\n"),
        InputProblem::Empty => String::from_str("Empty Input\r\n"),
    };
    let headers = vec![(String::from_str("Powered-By"), String::from_str("proxy-wasm"))];
    LocalResponse { status: 400, headers, body }
}

/// Token identifiers and attention mask for a batch of one sequence.
#[derive(Debug, Clone)]
pub struct TokenInput {
    pub ids: Vec<u32>,
    pub mask: Vec<u32>,
}

impl TokenInput {
    pub open spec fn wf(&self) -> bool {
        self.ids@.len() == self.mask@.len()
    }

    /// The shape of both input tensors: batch by sequence length.
    pub fn shape(&self) -> (r: (usize, usize))
        ensures
            r == (1usize, self.ids@.len() as usize),
    {
        (1, self.ids.len())
    }
}

/// Relies on Tokenizer::encode, with special tokens added, and on the
/// encoding's get_ids and get_attention_mask. What comes back depends on the
/// tokenizer's vocabulary and rules: nothing is promised of it.
#[verifier::external_body]
fn encode_text(tokenizer: &tokenizers::Tokenizer, text: &str) -> (r: Option<(Vec<u32>, Vec<u32>)>) {
    match tokenizer.encode(text, true) {
        Ok(e) => Some((e.get_ids().to_vec(), e.get_attention_mask().to_vec())),
        Err(_) => None,
    }
}

/// The tokenized form of `text`: a tokenizer failure is a decode error, and
/// identifiers and mask of different lengths do not fit the model.
pub fn prepare_text(tokenizer: &tokenizers::Tokenizer, text: &String) -> (r: Result<TokenInput, ClassifyError>)
    ensures
        r matches Ok(t) ==> t.wf(),
        r matches Err(e) ==> e == ClassifyError::InputDecode || e == ClassifyError::ShapeMismatch,
{
    match encode_text(tokenizer, text.as_str()) {
        None => Err(ClassifyError::InputDecode),
        Some((ids, mask)) => check_tokens(ids, mask),
    }
}

/// Pairs identifiers with their mask, which must be as long.
pub fn check_tokens(ids: Vec<u32>, mask: Vec<u32>) -> (r: Result<TokenInput, ClassifyError>)
    ensures
        ids@.len() == mask@.len() ==> (r matches Ok(t) && t.ids@ == ids@ && t.mask@ == mask@),
        ids@.len() != mask@.len() ==> r == Err::<TokenInput, ClassifyError>(ClassifyError::ShapeMismatch),
{
    if ids.len() == mask.len() {
        Ok(TokenInput { ids, mask })
    } else {
        Err(ClassifyError::ShapeMismatch)
    }
}

} // verus!
