//! Collection of a request body that the host delivers in chunks.
use vstd::prelude::*;

verus! {

/// What the accumulator holds, as mathematics.
pub struct AccumulatorView {
    pub buffered: Seq<u8>,
    pub limit: nat,
    pub spent: bool,
}

/// What one delivery of a chunk reports.
pub enum Outcome {
    Incomplete,
    Complete(Seq<u8>),
    TooLarge,
}

/// One delivery: the chunk is appended; a body over the limit is refused
/// (fail closed), and the final chunk hands the whole body out.
pub open spec fn step(a: AccumulatorView, chunk: Seq<u8>, is_final: bool) -> (AccumulatorView, Outcome) {
    let total = a.buffered + chunk;
    if total.len() > a.limit {
        (AccumulatorView { buffered: Seq::empty(), limit: a.limit, spent: true }, Outcome::TooLarge)
    } else if is_final {
        (AccumulatorView { buffered: Seq::empty(), limit: a.limit, spent: true }, Outcome::Complete(total))
    } else {
        (AccumulatorView { buffered: total, limit: a.limit, spent: false }, Outcome::Incomplete)
    }
}

/// The outcomes of delivering `chunks` in order, the last one flagged final.
pub open spec fn deliver(a: AccumulatorView, chunks: Seq<Seq<u8>>) -> Seq<Outcome>
    decreases chunks.len(),
{
    if chunks.len() == 0 {
        Seq::empty()
    } else {
        let (next, o) = step(a, chunks[0], chunks.len() == 1);
        seq![o] + deliver(next, chunks.drop_first())
    }
}

/// The state of a new accumulator.
pub open spec fn fresh(limit: nat) -> AccumulatorView {
    AccumulatorView { buffered: Seq::empty(), limit, spent: false }
}

/// What `append` reports.
pub enum AccumulationState {
    /// More chunks are to come: the caller suspends the exchange.
    Incomplete,
    /// The body is complete; here it is, whole.
    Complete(Vec<u8>),
    /// The body exceeded the accumulator's limit and was dropped.
    TooLarge,
}

impl View for AccumulationState {
    type V = Outcome;

    open spec fn view(&self) -> Outcome {
        match self {
            AccumulationState::Incomplete => Outcome::Incomplete,
            AccumulationState::Complete(v) => Outcome::Complete(v@),
            AccumulationState::TooLarge => Outcome::TooLarge,
        }
    }
}

/// Buffers the chunks of one request body, in arrival order, up to a limit.
pub struct BodyAccumulator {
    buffer: Vec<u8>,
    limit: usize,
    spent: bool,
}

impl View for BodyAccumulator {
    type V = AccumulatorView;

    closed spec fn view(&self) -> AccumulatorView {
        AccumulatorView { buffered: self.buffer@, limit: self.limit as nat, spent: self.spent }
    }
}

impl BodyAccumulator {
    pub fn new(limit: usize) -> (r: BodyAccumulator)
        ensures
            r@ == fresh(limit as nat),
    {
        BodyAccumulator { buffer: Vec::new(), limit, spent: false }
    }

    /// Whether the body was handed out or refused: no chunk may follow.
    pub fn is_spent(&self) -> (r: bool)
        ensures
            r == self@.spent,
    {
        self.spent
    }

    /// Appends `chunk`; `is_final` marks the last chunk of the body.
    pub fn append(&mut self, chunk: &[u8], is_final: bool) -> (r: AccumulationState)
        requires
            !old(self)@.spent,
        ensures
            (final(self)@, r@) == step(old(self)@, chunk@, is_final),
    {
        if chunk.len() > self.limit || self.buffer.len() > self.limit - chunk.len() {
            self.buffer = Vec::new();
            self.spent = true;
            return AccumulationState::TooLarge;
        }
        let ghost before = self.buffer@;
        let mut i: usize = 0;
        while i < chunk.len()
            invariant
                i <= chunk@.len(),
                self.buffer@ == before + chunk@.subrange(0, i as int),
                self.limit == old(self).limit,
                self.spent == old(self).spent,
            decreases chunk@.len() - i,
        {
            self.buffer.push(chunk[i]);
            i = i + 1;
        }
        assert(chunk@.subrange(0, chunk@.len() as int) == chunk@);
        if is_final {
            let mut body: Vec<u8> = Vec::new();
            core::mem::swap(&mut body, &mut self.buffer);
            self.spent = true;
            AccumulationState::Complete(body)
        } else {
            AccumulationState::Incomplete
        }
    }
}

/// Delivering chunks `b1 .. bn` with only the last flagged final yields
/// `Incomplete` for each of the first n - 1 and then `Complete` with exactly
/// their concatenation, provided the whole body fits the limit.
pub proof fn lemma_chunks_reassemble(limit: nat, chunks: Seq<Seq<u8>>)
    requires
        chunks.len() > 0,
        chunks.flatten().len() <= limit,
    ensures
        deliver(fresh(limit), chunks).len() == chunks.len(),
        forall|k: int| 0 <= k < chunks.len() - 1 ==> #[trigger] deliver(fresh(limit), chunks)[k] == Outcome::Incomplete,
        deliver(fresh(limit), chunks)[chunks.len() - 1] == Outcome::Complete(chunks.flatten()),
{
    lemma_deliver_from(Seq::empty(), limit, chunks);
    assert(Seq::<u8>::empty() + chunks.flatten() == chunks.flatten());
}

proof fn lemma_deliver_from(prefix: Seq<u8>, limit: nat, chunks: Seq<Seq<u8>>)
    requires
        chunks.len() > 0,
        prefix.len() + chunks.flatten().len() <= limit,
    ensures
        deliver(AccumulatorView { buffered: prefix, limit, spent: false }, chunks).len() == chunks.len(),
        forall|k: int| 0 <= k < chunks.len() - 1 ==> #[trigger] deliver(AccumulatorView { buffered: prefix, limit, spent: false }, chunks)[k] == Outcome::Incomplete,
        deliver(AccumulatorView { buffered: prefix, limit, spent: false }, chunks)[chunks.len() - 1] == Outcome::Complete(prefix + chunks.flatten()),
    decreases chunks.len(),
{
    let a = AccumulatorView { buffered: prefix, limit, spent: false };
    let rest = chunks.drop_first();
    assert(chunks.flatten() == chunks[0] + rest.flatten());
    if chunks.len() == 1 {
        assert(rest.flatten() == Seq::<u8>::empty());
        assert(chunks[0] + rest.flatten() == chunks[0]);
        assert(deliver(step(a, chunks[0], true).0, rest) == Seq::<Outcome>::empty());
    } else {
        let next_prefix = prefix + chunks[0];
        lemma_deliver_from(next_prefix, limit, rest);
        assert(next_prefix + rest.flatten() == prefix + chunks.flatten());
        let d = deliver(a, chunks);
        assert(d == seq![Outcome::Incomplete] + deliver(AccumulatorView { buffered: next_prefix, limit, spent: false }, rest));
    }
}

} // verus!
