//! What a call does as a whole, and what holds of every call.

use vstd::prelude::*;
use crate::context::{flattened, is_context, rolled};
use crate::engine::{EngineError, EngineView, WakeWordEngine};
use crate::params::{HOP_SIZE, N_MELS, WINDOW_SIZE};
use crate::policy::{any_exceeds, lemma_any_exceeds_concat, score_of};

verus! {

/// How many analysis windows fit into `len` buffered samples, each window starting one
/// hop behind the one before.
pub open spec fn eligible_windows(len: nat) -> nat {
    if len < WINDOW_SIZE {
        0
    } else {
        ((len - WINDOW_SIZE) / (HOP_SIZE as int) + 1) as nat
    }
}

/// How one call ends.
pub struct CallOutcome {
    /// The samples that stay buffered.
    pub samples: Seq<u32>,
    /// The classifier context after the call.
    pub context: Seq<Seq<u32>>,
    /// The scores of the windows that the call settled, in order.
    pub scores: Seq<u32>,
    /// Why the call stopped before the buffer was used up, if it did.
    pub failure: Option<EngineError>,
}

impl CallOutcome {
    /// What the call reports: whether one of its scores exceeded the threshold, or why
    /// it stopped.
    pub open spec fn result(self) -> Result<bool, EngineError> {
        match self.failure {
            None => Ok(any_exceeds(self.scores)),
            Some(error) => Err(error),
        }
    }
}

/// What becomes of buffered `samples` and a `context` when windows are consumed until
/// fewer samples than a window are left or something fails.
///
/// `front_end` stands for the spectral analysis: it gives the bands of the frame of a
/// window. `classifier` gives the output for a classifier input, or nothing where the
/// classifier fails. A window whose frame has the wrong size is not consumed. A window
/// on which the classifier fails has its frame in the context and is not consumed.
pub open spec fn process(
    samples: Seq<u32>,
    context: Seq<Seq<u32>>,
    front_end: spec_fn(Seq<u32>) -> Seq<u32>,
    classifier: spec_fn(Seq<u32>) -> Option<Seq<u32>>,
) -> CallOutcome
    decreases samples.len(),
{
    if samples.len() < WINDOW_SIZE {
        CallOutcome { samples, context, scores: Seq::empty(), failure: None }
    } else {
        let bands = front_end(samples.take(WINDOW_SIZE as int));
        if bands.len() != N_MELS {
            CallOutcome {
                samples,
                context,
                scores: Seq::empty(),
                failure: Some(EngineError::ShapeMismatch),
            }
        } else {
            let newer = rolled(context, bands);
            match classifier(flattened(newer)) {
                None => CallOutcome {
                    samples,
                    context: newer,
                    scores: Seq::empty(),
                    failure: Some(EngineError::Inference),
                },
                Some(values) => {
                    let rest = process(
                        samples.skip(HOP_SIZE as int),
                        newer,
                        front_end,
                        classifier,
                    );
                    CallOutcome { scores: seq![score_of(values)] + rest.scores, ..rest }
                },
            }
        }
    }
}

/// What becomes of an engine in state `state` in one call that brings `audio`.
pub open spec fn call(
    state: EngineView,
    audio: Seq<u32>,
    front_end: spec_fn(Seq<u32>) -> Seq<u32>,
    classifier: spec_fn(Seq<u32>) -> Option<Seq<u32>>,
) -> CallOutcome {
    process(state.samples + audio, state.context, front_end, classifier)
}

/// Buffer advance: a call that settles `k` windows shortens the buffer by exactly `k`
/// hops, taken from its front. `k` is never more than the number of windows that the
/// buffer held, and is that number when the call does not fail; then less than a
/// window is left.
pub proof fn lemma_buffer_advance(
    samples: Seq<u32>,
    context: Seq<Seq<u32>>,
    front_end: spec_fn(Seq<u32>) -> Seq<u32>,
    classifier: spec_fn(Seq<u32>) -> Option<Seq<u32>>,
)
    ensures
        ({
            let outcome = process(samples, context, front_end, classifier);
            let k = outcome.scores.len();
            &&& k <= eligible_windows(samples.len())
            &&& k * HOP_SIZE <= samples.len()
            &&& outcome.samples.len() == samples.len() - k * HOP_SIZE
            &&& outcome.samples == samples.skip(k * HOP_SIZE)
            &&& outcome.failure is None ==> k == eligible_windows(samples.len())
                && outcome.samples.len() < WINDOW_SIZE
        }),
    decreases samples.len(),
{
    if samples.len() >= WINDOW_SIZE {
        let bands = front_end(samples.take(WINDOW_SIZE as int));
        let newer = rolled(context, bands);
        if bands.len() == N_MELS && classifier(flattened(newer)) is Some {
            lemma_buffer_advance(samples.skip(HOP_SIZE as int), newer, front_end, classifier);
        }
    }
}

/// A call leaves the context in its shape: `EMBEDDING_SIZE` frames of `N_MELS` bands.
pub proof fn lemma_context_shape(
    samples: Seq<u32>,
    context: Seq<Seq<u32>>,
    front_end: spec_fn(Seq<u32>) -> Seq<u32>,
    classifier: spec_fn(Seq<u32>) -> Option<Seq<u32>>,
)
    requires
        is_context(context),
    ensures
        is_context(process(samples, context, front_end, classifier).context),
    decreases samples.len(),
{
    if samples.len() >= WINDOW_SIZE {
        let bands = front_end(samples.take(WINDOW_SIZE as int));
        let newer = rolled(context, bands);
        if bands.len() == N_MELS && classifier(flattened(newer)) is Some {
            lemma_context_shape(samples.skip(HOP_SIZE as int), newer, front_end, classifier);
        }
    }
}

/// Chunking: audio that arrives in two calls leaves the same buffer and the same
/// context as the same audio in one call, where the first of the two calls does not
/// fail. The one call settles the windows of the first call and then those of the
/// second, so it detects exactly when one of the two does; and it fails exactly when
/// the second does.
pub proof fn lemma_chunking(
    samples: Seq<u32>,
    context: Seq<Seq<u32>>,
    first_audio: Seq<u32>,
    second_audio: Seq<u32>,
    front_end: spec_fn(Seq<u32>) -> Seq<u32>,
    classifier: spec_fn(Seq<u32>) -> Option<Seq<u32>>,
)
    requires
        process(samples + first_audio, context, front_end, classifier).failure is None,
    ensures
        ({
            let first = process(samples + first_audio, context, front_end, classifier);
            let second = process(
                first.samples + second_audio,
                first.context,
                front_end,
                classifier,
            );
            let whole = process(
                samples + (first_audio + second_audio),
                context,
                front_end,
                classifier,
            );
            &&& whole.samples == second.samples
            &&& whole.context == second.context
            &&& whole.scores == first.scores + second.scores
            &&& whole.failure == second.failure
            &&& any_exceeds(whole.scores) == (any_exceeds(first.scores) || any_exceeds(
                second.scores,
            ))
        }),
{
    let first = process(samples + first_audio, context, front_end, classifier);
    let second = process(first.samples + second_audio, first.context, front_end, classifier);
    assert(samples + (first_audio + second_audio) == (samples + first_audio) + second_audio);
    lemma_later_audio(samples + first_audio, context, second_audio, front_end, classifier);
    lemma_any_exceeds_concat(first.scores, second.scores);
}

/// Audio that arrives behind `samples` after their windows have been consumed is
/// consumed as if it had been there from the start.
proof fn lemma_later_audio(
    samples: Seq<u32>,
    context: Seq<Seq<u32>>,
    audio: Seq<u32>,
    front_end: spec_fn(Seq<u32>) -> Seq<u32>,
    classifier: spec_fn(Seq<u32>) -> Option<Seq<u32>>,
)
    requires
        process(samples, context, front_end, classifier).failure is None,
    ensures
        ({
            let first = process(samples, context, front_end, classifier);
            let second = process(first.samples + audio, first.context, front_end, classifier);
            let whole = process(samples + audio, context, front_end, classifier);
            &&& whole.samples == second.samples
            &&& whole.context == second.context
            &&& whole.scores == first.scores + second.scores
            &&& whole.failure == second.failure
        }),
    decreases samples.len(),
{
    let first = process(samples, context, front_end, classifier);
    let second = process(first.samples + audio, first.context, front_end, classifier);
    if samples.len() >= WINDOW_SIZE {
        let joined = samples + audio;
        assert(joined.take(WINDOW_SIZE as int) == samples.take(WINDOW_SIZE as int));
        assert(joined.skip(HOP_SIZE as int) == samples.skip(HOP_SIZE as int) + audio);
        let bands = front_end(samples.take(WINDOW_SIZE as int));
        let newer = rolled(context, bands);
        let values = classifier(flattened(newer))->0;
        let rest = process(samples.skip(HOP_SIZE as int), newer, front_end, classifier);
        lemma_later_audio(samples.skip(HOP_SIZE as int), newer, audio, front_end, classifier);
        assert(seq![score_of(values)] + (rest.scores + second.scores) == (seq![score_of(values)]
            + rest.scores) + second.scores);
    }
}

/// How a row of calls ends.
pub struct SessionOutcome {
    /// The samples that stay buffered after the last call.
    pub samples: Seq<u32>,
    /// The classifier context after the last call.
    pub context: Seq<Seq<u32>>,
    /// What each call reported, in order.
    pub results: Seq<Result<bool, EngineError>>,
}

/// What becomes of buffered `samples` and a `context` in a row of calls, one call for
/// each chunk of audio. A call that fails leaves the buffer and the context as they
/// were when it stopped, and the next call goes on from there.
pub open spec fn session(
    samples: Seq<u32>,
    context: Seq<Seq<u32>>,
    chunks: Seq<Seq<u32>>,
    front_end: spec_fn(Seq<u32>) -> Seq<u32>,
    classifier: spec_fn(Seq<u32>) -> Option<Seq<u32>>,
) -> SessionOutcome
    decreases chunks.len(),
{
    if chunks.len() == 0 {
        SessionOutcome { samples, context, results: Seq::empty() }
    } else {
        let outcome = process(samples + chunks[0], context, front_end, classifier);
        let rest = session(
            outcome.samples,
            outcome.context,
            chunks.skip(1),
            front_end,
            classifier,
        );
        SessionOutcome { results: seq![outcome.result()] + rest.results, ..rest }
    }
}

/// The audio of all `chunks`, in order.
pub open spec fn joined(chunks: Seq<Seq<u32>>) -> Seq<u32>
    decreases chunks.len(),
{
    if chunks.len() == 0 {
        Seq::empty()
    } else {
        chunks[0] + joined(chunks.skip(1))
    }
}

/// Whether one of `results` is a detection.
pub open spec fn any_detects(results: Seq<Result<bool, EngineError>>) -> bool {
    exists|i: int| 0 <= i < results.len() && #[trigger] results[i] == Ok::<bool, EngineError>(true)
}

/// Whether none of `results` is a failure.
pub open spec fn all_succeed(results: Seq<Result<bool, EngineError>>) -> bool {
    forall|i: int| 0 <= i < results.len() ==> (#[trigger] results[i]) is Ok
}

/// However audio is cut into calls, it leaves the same buffer and the same context as
/// in one call, where none of the calls fails; and one of the calls detects exactly
/// when the one call does.
pub proof fn lemma_chunking_of_a_session(
    samples: Seq<u32>,
    context: Seq<Seq<u32>>,
    chunks: Seq<Seq<u32>>,
    front_end: spec_fn(Seq<u32>) -> Seq<u32>,
    classifier: spec_fn(Seq<u32>) -> Option<Seq<u32>>,
)
    requires
        chunks.len() > 0,
        all_succeed(session(samples, context, chunks, front_end, classifier).results),
    ensures
        ({
            let cut = session(samples, context, chunks, front_end, classifier);
            let whole = process(samples + joined(chunks), context, front_end, classifier);
            &&& cut.results.len() == chunks.len()
            &&& whole.failure is None
            &&& cut.samples == whole.samples
            &&& cut.context == whole.context
            &&& any_detects(cut.results) == any_exceeds(whole.scores)
        }),
    decreases chunks.len(),
{
    let cut = session(samples, context, chunks, front_end, classifier);
    let first = process(samples + chunks[0], context, front_end, classifier);
    let later = chunks.skip(1);
    let rest = session(first.samples, first.context, later, front_end, classifier);
    assert(cut.results == seq![first.result()] + rest.results);
    assert(cut.results[0] is Ok);
    if later.len() == 0 {
        assert(joined(later) == Seq::<u32>::empty());
        assert(samples + joined(chunks) == samples + chunks[0]);
        if any_detects(cut.results) {
            let i = choose|i: int|
                0 <= i < cut.results.len() && #[trigger] cut.results[i] == Ok::<bool, EngineError>(
                    true,
                );
            assert(i == 0);
        }
        if any_exceeds(first.scores) {
            assert(cut.results[0] == Ok::<bool, EngineError>(true));
        }
    } else {
        assert forall|i: int| 0 <= i < rest.results.len() implies (#[trigger] rest.results[i])
            is Ok by {
            assert(rest.results[i] == cut.results[i + 1]);
        }
        lemma_chunking_of_a_session(first.samples, first.context, later, front_end, classifier);
        lemma_later_audio(samples + chunks[0], context, joined(later), front_end, classifier);
        assert((samples + chunks[0]) + joined(later) == samples + joined(chunks));
        let second = process(first.samples + joined(later), first.context, front_end, classifier);
        lemma_any_exceeds_concat(first.scores, second.scores);
        if any_detects(cut.results) {
            let i = choose|i: int|
                0 <= i < cut.results.len() && #[trigger] cut.results[i] == Ok::<bool, EngineError>(
                    true,
                );
            if i > 0 {
                assert(rest.results[i - 1] == Ok::<bool, EngineError>(true));
            }
        }
        if any_exceeds(first.scores) {
            assert(cut.results[0] == Ok::<bool, EngineError>(true));
        }
        if any_detects(rest.results) {
            let i = choose|i: int|
                0 <= i < rest.results.len() && #[trigger] rest.results[i] == Ok::<
                    bool,
                    EngineError,
                >(true);
            assert(cut.results[i + 1] == Ok::<bool, EngineError>(true));
        }
    }
}

/// Construction leaves nothing open: two engines that have just been made are in the
/// same state, so with the same spectral analysis and the same classifier they end up
/// in the same state and report the same for the same audio, call after call.
pub proof fn lemma_construction_is_deterministic(
    first: WakeWordEngine,
    second: WakeWordEngine,
    chunks: Seq<Seq<u32>>,
    front_end: spec_fn(Seq<u32>) -> Seq<u32>,
    classifier: spec_fn(Seq<u32>) -> Option<Seq<u32>>,
)
    requires
        first@ == EngineView::cold(),
        second@ == EngineView::cold(),
    ensures
        first@ == second@,
        session(first@.samples, first@.context, chunks, front_end, classifier) == session(
            second@.samples,
            second@.context,
            chunks,
            front_end,
            classifier,
        ),
{
}

} // verus!
