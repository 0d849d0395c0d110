//! The prediction an exchange stores, and how it is written into response headers.
use vstd::prelude::*;
use vstd::string::*;

verus! {

/// The response header that carries the predicted label.
pub open spec fn label_header_name() -> Seq<char> {
    "x-predicted-label"@
}

/// The response header that carries the confidence of the prediction.
pub open spec fn confidence_header_name() -> Seq<char> {
    "x-predicted-confidence"@
}

pub open spec fn digit_char(d: nat) -> char {
    "0123456789"@[d as int]
}

/// The decimal notation of `n`, without leading zeros.
pub open spec fn decimal(n: nat) -> Seq<char>
    decreases n,
{
    if n < 10 {
        seq![digit_char(n)]
    } else {
        decimal(n / 10) + seq![digit_char(n % 10)]
    }
}

/// A header as a pair of character sequences.
pub type HeaderView = (Seq<char>, Seq<char>);

pub open spec fn headers_view(h: Seq<(String, String)>) -> Seq<HeaderView> {
    h.map_values(|e: (String, String)| (e.0@, e.1@))
}

/// A prediction as mathematics.
pub struct PredictionView {
    pub label_index: nat,
    pub confidence: Seq<char>,
    pub label_name: Option<Seq<char>>,
}

/// The label that a prediction reports: its name where a label map gave one,
/// else its index in decimal.
pub open spec fn label_text(p: PredictionView) -> Seq<char> {
    match p.label_name {
        Some(n) => n,
        None => decimal(p.label_index),
    }
}

pub open spec fn label_entry(p: PredictionView) -> HeaderView {
    (label_header_name(), label_text(p))
}

pub open spec fn confidence_entry(p: PredictionView) -> HeaderView {
    (confidence_header_name(), p.confidence)
}

/// The entries that annotating `h` with `p` appends: each of the two that `h`
/// does not already hold.
pub open spec fn additions(h: Seq<HeaderView>, p: Option<PredictionView>) -> Seq<HeaderView> {
    match p {
        None => Seq::empty(),
        Some(p) => (if h.contains(label_entry(p)) {
            Seq::empty()
        } else {
            seq![label_entry(p)]
        }) + (if h.contains(confidence_entry(p)) {
            Seq::empty()
        } else {
            seq![confidence_entry(p)]
        }),
    }
}

/// The headers after annotation.
pub open spec fn annotated(h: Seq<HeaderView>, p: Option<PredictionView>) -> Seq<HeaderView> {
    h + additions(h, p)
}

/// The outcome of classifying one exchange's input.
#[derive(Debug, Clone)]
pub struct PredictionResult {
    /// Index of the selected class in the model's output.
    pub label_index: usize,
    /// The score at that index, in decimal notation.
    pub confidence: String,
    /// The class's name, where a label map is configured.
    pub label_name: Option<String>,
}

impl View for PredictionResult {
    type V = PredictionView;

    open spec fn view(&self) -> PredictionView {
        PredictionView {
            label_index: self.label_index as nat,
            confidence: self.confidence@,
            label_name: match self.label_name {
                Some(n) => Some(n@),
                None => None,
            },
        }
    }
}

pub open spec fn prediction_view(p: Option<PredictionResult>) -> Option<PredictionView> {
    match p {
        Some(p) => Some(p@),
        None => None,
    }
}

/// Appends the decimal notation of `n` to `out`.
pub fn push_decimal(out: &mut String, n: usize)
    ensures
        final(out)@ == old(out)@ + decimal(n as nat),
    decreases n,
{
    proof {
        reveal_strlit("0123456789");
    }
    if n >= 10 {
        push_decimal(out, n / 10);
    }
    let d: usize = n % 10;
    let digit = "0123456789".substring_char(d, d + 1);
    assert(digit@ == seq![digit_char(d as nat)]);
    out.append(digit);
    assert(final(out)@ == old(out)@ + decimal(n as nat));
}

/// The decimal notation of `n`.
pub fn decimal_text(n: usize) -> (r: String)
    ensures
        r@ == decimal(n as nat),
{
    let mut out = String::new();
    push_decimal(&mut out, n);
    assert(Seq::<char>::empty() + decimal(n as nat) == decimal(n as nat));
    out
}

impl PredictionResult {
    /// A prediction for the class at `label_index`, named from `labels` where
    /// that map is configured and covers the index.
    pub fn new(label_index: usize, confidence: String, labels: &Option<Vec<String>>) -> (r: PredictionResult)
        ensures
            r.label_index == label_index,
            r.confidence@ == confidence@,
            r.label_name == (match labels {
                Some(l) => if label_index < l@.len() {
                    Some(l@[label_index as int])
                } else {
                    None
                },
                None => None,
            }),
    {
        let label_name = match labels {
            Some(l) => if label_index < l.len() {
                Some(l[label_index].clone())
            } else {
                None
            },
            None => None,
        };
        PredictionResult { label_index, confidence, label_name }
    }

    /// The value of the label header.
    pub fn label_value(&self) -> (r: String)
        ensures
            r@ == label_text(self@),
    {
        match &self.label_name {
            Some(n) => n.clone(),
            None => decimal_text(self.label_index),
        }
    }
}

fn contains_entry(h: &Vec<(String, String)>, name: &String, value: &String) -> (r: bool)
    ensures
        r == headers_view(h@).contains((name@, value@)),
{
    let mut i: usize = 0;
    while i < h.len()
        invariant
            i <= h@.len(),
            forall|j: int| 0 <= j < i ==> headers_view(h@)[j] != (name@, value@),
        decreases h@.len() - i,
    {
        if h[i].0 == *name && h[i].1 == *value {
            assert(headers_view(h@)[i as int] == (name@, value@));
            return true;
        }
        i = i + 1;
    }
    false
}

/// Adds the label and confidence headers of `prediction` to `headers`,
/// keeping every existing entry in place; an entry already present is not
/// added twice. Without a prediction the headers stay as they are.
pub fn annotate(headers: &mut Vec<(String, String)>, prediction: &Option<PredictionResult>)
    ensures
        headers_view(final(headers)@) == annotated(headers_view(old(headers)@), prediction_view(*prediction)),
{
    let ghost h0 = headers_view(old(headers)@);
    proof {
        reveal_strlit("x-predicted-label");
        reveal_strlit("x-predicted-confidence");
    }
    match prediction {
        None => {
            assert(h0 + Seq::<HeaderView>::empty() == h0);
        },
        Some(p) => {
            let label_name = String::from_str("x-predicted-label");
            let label = p.label_value();
            let confidence_name = String::from_str("x-predicted-confidence");
            let confidence = p.confidence.clone();
            let has_label = contains_entry(headers, &label_name, &label);
            let has_confidence = contains_entry(headers, &confidence_name, &confidence);
            if !has_label {
                headers.push((label_name, label));
            }
            if !has_confidence {
                headers.push((confidence_name, confidence));
            }
            assert(headers_view(headers@) =~= annotated(h0, prediction_view(*prediction)));
        },
    }
}

/// Annotation adds exactly two entries when a prediction is present and the
/// headers carry neither of its entries, and none when no prediction is
/// present; annotating a second time with the same prediction adds nothing.
pub proof fn lemma_annotation_entries(h: Seq<HeaderView>, p: Option<PredictionView>)
    ensures
        (match p {
            None => annotated(h, p) == h,
            Some(q) => !h.contains(label_entry(q)) && !h.contains(confidence_entry(q))
                ==> annotated(h, p) == h + seq![label_entry(q), confidence_entry(q)],
        }),
        annotated(annotated(h, p), p) == annotated(h, p),
{
    reveal_strlit("x-predicted-label");
    reveal_strlit("x-predicted-confidence");
    let once = annotated(h, p);
    match p {
        None => {
            assert(h + Seq::<HeaderView>::empty() == h);
        },
        Some(q) => {
            assert(label_header_name() != confidence_header_name()) by {
                assert(label_header_name().len() != confidence_header_name().len());
            }
            let a = label_entry(q);
            let c = confidence_entry(q);
            assert(once.contains(a)) by {
                if h.contains(a) {
                    let k = choose|k: int| 0 <= k < h.len() && h[k] == a;
                    assert(once[k] == a);
                } else {
                    assert(once[h.len() as int] == a);
                }
            }
            assert(once.contains(c)) by {
                if h.contains(c) {
                    let k = choose|k: int| 0 <= k < h.len() && h[k] == c;
                    assert(once[k] == c);
                } else {
                    assert(once[once.len() - 1] == c);
                }
            }
            assert(additions(once, p) == Seq::<HeaderView>::empty());
            assert(once + Seq::<HeaderView>::empty() == once);
            if !h.contains(a) && !h.contains(c) {
                assert(seq![a] + seq![c] == seq![a, c]);
            }
        },
    }
}

} // verus!
