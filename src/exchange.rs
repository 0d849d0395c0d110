//! The per-exchange state machine: it buffers the input, asks for one
//! classification once the input is complete, stores the prediction and
//! annotates the response headers with it.
use vstd::prelude::*;
use crate::accumulator::{step, AccumulationState, AccumulatorView, BodyAccumulator, Outcome, fresh};
use crate::annotate::{annotate, annotated, headers_view, prediction_view, HeaderView, PredictionResult, PredictionView};
use crate::error::ClassifyError;
use crate::text_input::{rejection, rejection_body, validate_text_input, InputProblem, LocalResponse};

verus! {

/// Where an exchange's input comes from; fixed by configuration.
#[derive(Debug, Clone, Copy, PartialEq, Eq, Structural)]
pub enum InputSource {
    /// The request body, as for images.
    Body,
    /// The request's input header, as for text.
    Header,
}

/// The phases of an exchange, passed through in this order only.
#[derive(Debug, Clone, Copy, PartialEq, Eq, Structural)]
pub enum Phase {
    AwaitingBody,
    Classifying,
    Annotated,
}

/// What the host is told after an event.
#[derive(Debug, Clone, Copy, PartialEq, Eq, Structural)]
pub enum Directive {
    /// Forward the exchange normally.
    Continue,
    /// Hold the request until more of the body arrives.
    Pause,
}

/// What the host is to do after the request headers.
#[derive(Debug)]
pub enum HeaderStep {
    Continue,
    /// Classify this text now, then report the outcome.
    Classify(String),
    /// Send this response instead of forwarding the request.
    Reject(LocalResponse),
}

/// What the host is to do after a chunk of the request body.
#[derive(Debug)]
pub enum BodyStep {
    Continue,
    Pause,
    /// The body is complete: classify it, then report the outcome.
    Classify(Vec<u8>),
}

pub enum HeaderEvent {
    Continue,
    Classify(Seq<char>),
    /// A local response with this status and body.
    Reject(nat, Seq<char>),
}

pub enum BodyEvent {
    Continue,
    Pause,
    Classify(Seq<u8>),
}

impl View for HeaderStep {
    type V = HeaderEvent;

    open spec fn view(&self) -> HeaderEvent {
        match self {
            HeaderStep::Continue => HeaderEvent::Continue,
            HeaderStep::Classify(t) => HeaderEvent::Classify(t@),
            HeaderStep::Reject(r) => HeaderEvent::Reject(r.status as nat, r.body@),
        }
    }
}

impl View for BodyStep {
    type V = BodyEvent;

    open spec fn view(&self) -> BodyEvent {
        match self {
            BodyStep::Continue => BodyEvent::Continue,
            BodyStep::Pause => BodyEvent::Pause,
            BodyStep::Classify(b) => BodyEvent::Classify(b@),
        }
    }
}

/// An exchange as mathematics.
pub struct ExchangeView {
    pub id: u32,
    pub source: InputSource,
    pub phase: Phase,
    pub body: AccumulatorView,
    pub prediction: Option<PredictionView>,
}

/// A prediction exists only once classification is over, and the body is
/// still open while the exchange awaits it.
pub open spec fn exchange_wf(v: ExchangeView) -> bool {
    &&& v.phase == Phase::AwaitingBody ==> !v.body.spent
    &&& v.phase != Phase::Annotated ==> v.prediction is None
}

pub open spec fn fresh_exchange(id: u32, source: InputSource, limit: nat) -> ExchangeView {
    ExchangeView { id, source, phase: Phase::AwaitingBody, body: fresh(limit), prediction: None }
}

/// The request headers arrive, with the value of the input header if any.
pub open spec fn header_event(v: ExchangeView, input: Option<Seq<char>>) -> (ExchangeView, HeaderEvent) {
    if v.source == InputSource::Header && v.phase == Phase::AwaitingBody {
        match input {
            None => (
                ExchangeView { phase: Phase::Annotated, ..v },
                HeaderEvent::Reject(400, rejection_body(InputProblem::Missing)),
            ),
            Some(t) => if t.len() == 0 {
                (
                    ExchangeView { phase: Phase::Annotated, ..v },
                    HeaderEvent::Reject(400, rejection_body(InputProblem::Empty)),
                )
            } else {
                (ExchangeView { phase: Phase::Classifying, ..v }, HeaderEvent::Classify(t))
            },
        }
    } else {
        (v, HeaderEvent::Continue)
    }
}

/// A chunk of the request body arrives; `end` marks the last one.
pub open spec fn body_event(v: ExchangeView, chunk: Seq<u8>, end: bool) -> (ExchangeView, BodyEvent) {
    if v.source == InputSource::Body && v.phase == Phase::AwaitingBody {
        let (body, o) = step(v.body, chunk, end);
        match o {
            Outcome::Incomplete => (ExchangeView { body, ..v }, BodyEvent::Pause),
            Outcome::Complete(b) => (
                ExchangeView { phase: Phase::Classifying, body, ..v },
                BodyEvent::Classify(b),
            ),
            Outcome::TooLarge => (
                ExchangeView { phase: Phase::Annotated, body, ..v },
                BodyEvent::Continue,
            ),
        }
    } else {
        (v, BodyEvent::Continue)
    }
}

/// The outcome of classification is reported.
pub open spec fn outcome_event(v: ExchangeView, outcome: Result<PredictionView, ClassifyError>) -> ExchangeView {
    ExchangeView {
        phase: Phase::Annotated,
        prediction: match outcome {
            Ok(p) => Some(p),
            Err(_) => None,
        },
        ..v
    }
}

pub open spec fn phase_rank(p: Phase) -> nat {
    match p {
        Phase::AwaitingBody => 0,
        Phase::Classifying => 1,
        Phase::Annotated => 2,
    }
}

/// No event moves an exchange back to an earlier phase, and a reported
/// outcome ends it; the identity and the input source never change.
pub proof fn lemma_phases_only_advance(
    v: ExchangeView,
    input: Option<Seq<char>>,
    chunk: Seq<u8>,
    end: bool,
    outcome: Result<PredictionView, ClassifyError>,
)
    ensures
        phase_rank(header_event(v, input).0.phase) >= phase_rank(v.phase),
        phase_rank(body_event(v, chunk, end).0.phase) >= phase_rank(v.phase),
        outcome_event(v, outcome).phase == Phase::Annotated,
        header_event(v, input).0.id == v.id && header_event(v, input).0.source == v.source,
        body_event(v, chunk, end).0.id == v.id && body_event(v, chunk, end).0.source == v.source,
{
}

/// The state and the events after delivering `chunks`, the last flagged final.
pub open spec fn run_body(v: ExchangeView, chunks: Seq<Seq<u8>>) -> (ExchangeView, Seq<BodyEvent>)
    decreases chunks.len(),
{
    if chunks.len() == 0 {
        (v, Seq::empty())
    } else {
        let (next, e) = body_event(v, chunks[0], chunks.len() == 1);
        let (last, rest) = run_body(next, chunks.drop_first());
        (last, seq![e] + rest)
    }
}

/// The state of one HTTP exchange.
pub struct ExchangeContext {
    id: u32,
    source: InputSource,
    phase: Phase,
    body: BodyAccumulator,
    prediction: Option<PredictionResult>,
}

impl View for ExchangeContext {
    type V = ExchangeView;

    closed spec fn view(&self) -> ExchangeView {
        ExchangeView {
            id: self.id,
            source: self.source,
            phase: self.phase,
            body: self.body@,
            prediction: prediction_view(self.prediction),
        }
    }
}

impl ExchangeContext {
    pub open spec fn wf(&self) -> bool {
        exchange_wf(self@)
    }

    /// A context for exchange `id`, reading its input from `source` and
    /// buffering at most `body_limit` bytes of body.
    pub fn new(id: u32, source: InputSource, body_limit: usize) -> (r: ExchangeContext)
        ensures
            r@ == fresh_exchange(id, source, body_limit as nat),
            r.wf(),
    {
        ExchangeContext { id, source, phase: Phase::AwaitingBody, body: BodyAccumulator::new(body_limit), prediction: None }
    }

    pub fn id(&self) -> (r: u32)
        ensures
            r == self@.id,
    {
        self.id
    }

    pub fn phase(&self) -> (r: Phase)
        ensures
            r == self@.phase,
    {
        self.phase
    }

    pub fn prediction(&self) -> (r: &Option<PredictionResult>)
        ensures
            prediction_view(*r) == self@.prediction,
    {
        &self.prediction
    }

    /// The request headers arrived; `input` is the value of the input header.
    pub fn on_request_headers(&mut self, input: Option<String>) -> (r: HeaderStep)
        requires
            old(self).wf(),
        ensures
            final(self).wf(),
            (final(self)@, r@) == header_event(old(self)@, match input {
                Some(t) => Some(t@),
                None => None,
            }),
            r matches HeaderStep::Reject(resp) ==> resp.headers@.len() == 1,
    {
        if self.source != InputSource::Header || self.phase != Phase::AwaitingBody {
            return HeaderStep::Continue;
        }
        match validate_text_input(input) {
            Ok(text) => {
                self.phase = Phase::Classifying;
                HeaderStep::Classify(text)
            },
            Err(problem) => {
                self.phase = Phase::Annotated;
                HeaderStep::Reject(rejection(problem))
            },
        }
    }

    /// A chunk of the request body arrived; `end_of_stream` marks the last.
    pub fn on_request_body(&mut self, chunk: &[u8], end_of_stream: bool) -> (r: BodyStep)
        requires
            old(self).wf(),
        ensures
            final(self).wf(),
            (final(self)@, r@) == body_event(old(self)@, chunk@, end_of_stream),
    {
        if self.source != InputSource::Body || self.phase != Phase::AwaitingBody {
            return BodyStep::Continue;
        }
        match self.body.append(chunk, end_of_stream) {
            AccumulationState::Incomplete => BodyStep::Pause,
            AccumulationState::Complete(b) => {
                self.phase = Phase::Classifying;
                BodyStep::Classify(b)
            },
            AccumulationState::TooLarge => {
                self.phase = Phase::Annotated;
                BodyStep::Continue
            },
        }
    }

    /// Stores the outcome of the classification that a `Classify` step asked
    /// for. A failure leaves the exchange without a prediction; it goes on.
    pub fn record_outcome(&mut self, outcome: Result<PredictionResult, ClassifyError>) -> (r: Directive)
        requires
            old(self).wf(),
            old(self)@.phase == Phase::Classifying,
        ensures
            final(self).wf(),
            final(self)@ == outcome_event(old(self)@, match outcome {
                Ok(p) => Ok(p@),
                Err(e) => Err(e),
            }),
            r == Directive::Continue,
    {
        self.phase = Phase::Annotated;
        self.prediction = match outcome {
            Ok(p) => Some(p),
            Err(_) => None,
        };
        Directive::Continue
    }

    /// The response headers arrived: adds the prediction's entries, if any.
    pub fn on_response_headers(&self, headers: &mut Vec<(String, String)>) -> (r: Directive)
        ensures
            headers_view(final(headers)@) == annotated(headers_view(old(headers)@), self@.prediction),
            r == Directive::Continue,
    {
        annotate(headers, &self.prediction);
        Directive::Continue
    }
}

/// A body delivered in chunks `b1 .. bn`, only the last flagged final, makes
/// the exchange pause after each of the first n - 1 and ask for exactly one
/// classification, of their concatenation, after the last; from then on a
/// body chunk asks for nothing. The body must fit the exchange's limit.
pub proof fn lemma_single_classification(id: u32, limit: nat, chunks: Seq<Seq<u8>>)
    requires
        chunks.len() > 0,
        chunks.flatten().len() <= limit,
    ensures
        ({
            let (last, events) = run_body(fresh_exchange(id, InputSource::Body, limit), chunks);
            &&& events.len() == chunks.len()
            &&& forall|k: int| 0 <= k < chunks.len() - 1 ==> #[trigger] events[k] == BodyEvent::Pause
            &&& events[chunks.len() - 1] == BodyEvent::Classify(chunks.flatten())
            &&& last.phase == Phase::Classifying
            &&& forall|c: Seq<u8>, end: bool| #[trigger] body_event(last, c, end) == (last, BodyEvent::Continue)
        }),
{
    lemma_run_body_from(id, Seq::empty(), limit, chunks);
    assert(Seq::<u8>::empty() + chunks.flatten() == chunks.flatten());
}

proof fn lemma_run_body_from(id: u32, prefix: Seq<u8>, limit: nat, chunks: Seq<Seq<u8>>)
    requires
        chunks.len() > 0,
        prefix.len() + chunks.flatten().len() <= limit,
    ensures
        ({
            let v = ExchangeView {
                id,
                source: InputSource::Body,
                phase: Phase::AwaitingBody,
                body: AccumulatorView { buffered: prefix, limit, spent: false },
                prediction: None,
            };
            let (last, events) = run_body(v, chunks);
            &&& events.len() == chunks.len()
            &&& forall|k: int| 0 <= k < chunks.len() - 1 ==> #[trigger] events[k] == BodyEvent::Pause
            &&& events[chunks.len() - 1] == BodyEvent::Classify(prefix + chunks.flatten())
            &&& last.phase == Phase::Classifying
        }),
    decreases chunks.len(),
{
    let v = ExchangeView {
        id,
        source: InputSource::Body,
        phase: Phase::AwaitingBody,
        body: AccumulatorView { buffered: prefix, limit, spent: false },
        prediction: None,
    };
    let rest = chunks.drop_first();
    assert(chunks.flatten() == chunks[0] + rest.flatten());
    if chunks.len() == 1 {
        assert(rest.flatten() == Seq::<u8>::empty());
        assert(chunks[0] + rest.flatten() == chunks[0]);
        let (next, e) = body_event(v, chunks[0], true);
        assert(rest.len() == 0);
        assert(run_body(next, rest) == (next, Seq::<BodyEvent>::empty()));
        assert(seq![e] + Seq::<BodyEvent>::empty() == seq![e]);
        assert(run_body(v, chunks) == (next, seq![e]));
    } else {
        let next_prefix = prefix + chunks[0];
        lemma_run_body_from(id, next_prefix, limit, rest);
        assert(next_prefix + rest.flatten() == prefix + chunks.flatten());
        let (next, e) = body_event(v, chunks[0], false);
        let (last, events) = run_body(next, rest);
        assert(run_body(v, chunks) == (last, seq![e] + events));
        assert((seq![e] + events)[0] == e);
        assert forall|k: int| 1 <= k < chunks.len() implies #[trigger] (seq![e] + events)[k] == events[k - 1] by {}
    }
}

} // verus!
