//! Whole calls, made of steps: the engine and the caller who does as it asks.

use vstd::prelude::*;
use crate::context::flattened;
use crate::engine::{
    phase_for, Action, ActionView, EngineError, EngineView, Event, EventView, WakeWordEngine,
};
use crate::params::{HOP_SIZE, N_MELS, TENSOR_LEN, WINDOW_SIZE};
use crate::policy::{any_exceeds, exceeds_half, lemma_any_exceeds_concat, score_of};
use crate::stream::{call, eligible_windows, lemma_context_shape, process};

verus! {

/// What a caller who does as the engine asks hands back on `action`: the frame of the
/// window that it was handed, or the output of the classifier for the input that it was
/// handed, or a fault where the classifier fails. Once the call is finished there is
/// nothing to hand back.
pub open spec fn reply(
    action: ActionView,
    front_end: spec_fn(Seq<u32>) -> Seq<u32>,
    classifier: spec_fn(Seq<u32>) -> Option<Seq<u32>>,
) -> Option<EventView> {
    match action {
        ActionView::Analyze(window) => Some(EventView::Frame(front_end(window))),
        ActionView::Classify(tensor) => match classifier(tensor) {
            Some(values) => Some(EventView::Output(values)),
            None => Some(EventView::Fault),
        },
        ActionView::Finished(_) => None,
    }
}

/// Where an engine in state `state` ends up, and what its call reports, when its
/// caller does as the engine asks until the call is finished or the engine turns an
/// event down.
pub open spec fn drive(
    state: EngineView,
    front_end: spec_fn(Seq<u32>) -> Seq<u32>,
    classifier: spec_fn(Seq<u32>) -> Option<Seq<u32>>,
) -> (EngineView, Result<bool, EngineError>)
    recommends
        state.wf(),
    decreases
            state.samples.len(),
            (if state.phase is AwaitingFrame {
                1nat
            } else {
                0nat
            }),
    when state.wf()
{
    match reply(state.pending(), front_end, classifier) {
        None => (state, Ok(state.detected)),
        Some(event) => match state.refusal(event) {
            Some(error) => (state.step(event), Err(error)),
            None => drive(state.step(event), front_end, classifier),
        },
    }
}

/// Neither the start of a call nor an event takes a state out of its shape: whatever
/// is done to the engine, its context holds `EMBEDDING_SIZE` frames of `N_MELS` bands.
pub proof fn lemma_wf_is_kept(state: EngineView, audio: Seq<u32>, event: EventView)
    requires
        state.wf(),
    ensures
        state.begin(audio).wf(),
        state.step(event).wf(),
{
}

/// From a state that is about to look at its buffer, `drive` arrives where `process`
/// says, and reports what it says.
proof fn lemma_drive_consumes_windows(
    state: EngineView,
    front_end: spec_fn(Seq<u32>) -> Seq<u32>,
    classifier: spec_fn(Seq<u32>) -> Option<Seq<u32>>,
)
    requires
        state.wf(),
        state.phase == phase_for(state.samples),
    ensures
        ({
            let (end, result) = drive(state, front_end, classifier);
            let outcome = process(state.samples, state.context, front_end, classifier);
            &&& end.samples == outcome.samples
            &&& end.context == outcome.context
            &&& end.phase is Idle
            &&& result == match outcome.failure {
                None => Ok::<bool, EngineError>(state.detected || any_exceeds(outcome.scores)),
                Some(error) => Err(error),
            }
        }),
    decreases state.samples.len(),
{
    if state.phase is AwaitingFrame {
        let bands = front_end(state.samples.take(WINDOW_SIZE as int));
        let framed = EventView::Frame(bands);
        if bands.len() == N_MELS {
            // The frame goes in, and the classifier is asked.
            let scoring = state.step(framed);
            lemma_wf_is_kept(state, Seq::empty(), framed);
            assert(drive(state, front_end, classifier) == drive(scoring, front_end, classifier));
            if let Some(values) = classifier(flattened(scoring.context)) {
                // The window is settled, and the rest goes by induction.
                let scored = EventView::Output(values);
                let next = scoring.step(scored);
                lemma_wf_is_kept(scoring, Seq::empty(), scored);
                assert(drive(scoring, front_end, classifier) == drive(
                    next,
                    front_end,
                    classifier,
                ));
                lemma_drive_consumes_windows(next, front_end, classifier);
                let rest = process(next.samples, next.context, front_end, classifier);
                lemma_any_exceeds_concat(seq![score_of(values)], rest.scores);
                assert(any_exceeds(seq![score_of(values)]) == exceeds_half(score_of(values))) by {
                    if exceeds_half(score_of(values)) {
                        assert(exceeds_half(seq![score_of(values)][0]));
                    }
                }
            }
        }
    }
}

/// A call, step by step, is a call as a whole: when an idle engine starts a call with
/// `audio` and its caller does as the engine asks, the engine ends up idle with the
/// buffer and the context that `call` gives, and the call reports what `call` reports.
pub proof fn lemma_call_is_driven(
    state: EngineView,
    audio: Seq<u32>,
    front_end: spec_fn(Seq<u32>) -> Seq<u32>,
    classifier: spec_fn(Seq<u32>) -> Option<Seq<u32>>,
)
    requires
        state.wf(),
        state.phase is Idle,
    ensures
        ({
            let (end, result) = drive(state.begin(audio), front_end, classifier);
            let outcome = call(state, audio, front_end, classifier);
            &&& end.wf()
            &&& end.phase is Idle
            &&& end.samples == outcome.samples
            &&& end.context == outcome.context
            &&& result == outcome.result()
        }),
{
    let started = state.begin(audio);
    lemma_drive_consumes_windows(started, front_end, classifier);
    lemma_context_shape(started.samples, started.context, front_end, classifier);
}

/// Whether the spectral analysis `front_end` computes `frames`: whatever it hands back
/// for a window is what `frames` gives for it.
pub open spec fn computes_frames<F: Fn(Vec<u32>) -> Vec<u32>>(
    front_end: F,
    frames: spec_fn(Seq<u32>) -> Seq<u32>,
) -> bool {
    forall|window: Vec<u32>, bands: Vec<u32>|
        call_ensures(front_end, (window,), bands) ==> bands@ == frames(window@)
}

/// Whether the classifier `classifier` computes `outputs`: whatever it hands back for an
/// input is what `outputs` gives for it, and it fails where `outputs` gives nothing.
pub open spec fn computes_outputs<C: Fn(Vec<u32>) -> Option<Vec<u32>>>(
    classifier: C,
    outputs: spec_fn(Seq<u32>) -> Option<Seq<u32>>,
) -> bool {
    forall|tensor: Vec<u32>, values: Option<Vec<u32>>|
        call_ensures(classifier, (tensor,), values) ==> match values {
            Some(values) => outputs(tensor@) == Some(values@),
            None => outputs(tensor@) is None,
        }
}

/// Whether `later` is what is left of `earlier` after some windows have been consumed:
/// `earlier` without a whole number of hops at its front, and no more of them than
/// `earlier` holds windows.
pub open spec fn advanced(earlier: Seq<u32>, later: Seq<u32>) -> bool {
    let consumed = earlier.len() - later.len();
    &&& 0 <= consumed
    &&& consumed % (HOP_SIZE as int) == 0
    &&& consumed / (HOP_SIZE as int) <= eligible_windows(earlier.len())
    &&& later == earlier.skip(consumed)
}

impl WakeWordEngine {
    /// One whole call: takes `audio` in, and for every window that the buffer then
    /// holds has `front_end` compute the spectral frame and `classifier` the output,
    /// until less than a window is left or something fails. Says whether a score
    /// exceeded the threshold.
    ///
    /// `classifier` hands back nothing where it fails. Whatever the two hand back, the
    /// buffer loses a whole number of hops, and the call fails exactly when a window is
    /// left in the buffer; with less than a window in the buffer neither is asked, and
    /// nothing is detected. Where the two compute functions, the call ends as `call`
    /// says for those functions.
    pub fn detect<F, C>(&mut self, audio: &[u32], front_end: F, classifier: C) -> (result: Result<
        bool,
        EngineError,
    >) where F: Fn(Vec<u32>) -> Vec<u32>, C: Fn(Vec<u32>) -> Option<Vec<u32>>
        requires
            old(self).wf(),
            forall|window: Vec<u32>|
                window@.len() == WINDOW_SIZE ==> call_requires(front_end, (window,)),
            forall|tensor: Vec<u32>|
                tensor@.len() == TENSOR_LEN ==> call_requires(classifier, (tensor,)),
        ensures
            final(self).wf(),
            !(old(self)@.phase is Idle) ==> {
                &&& final(self)@ == old(self)@
                &&& result is Err
                &&& result->Err_0 == EngineError::Concurrency
            },
            old(self)@.phase is Idle ==> {
                &&& final(self)@.phase is Idle
                &&& advanced(old(self)@.samples + audio@, final(self)@.samples)
                &&& result is Ok <==> final(self)@.samples.len() < WINDOW_SIZE
                &&& old(self)@.samples.len() + audio@.len() < WINDOW_SIZE ==> {
                    &&& result == Ok::<bool, EngineError>(false)
                    &&& final(self)@.context == old(self)@.context
                }
                &&& result is Err ==> !(result->Err_0 is Concurrency)
                &&& forall|
                    frames: spec_fn(Seq<u32>) -> Seq<u32>,
                    outputs: spec_fn(Seq<u32>) -> Option<Seq<u32>>,
                |
                    computes_frames(front_end, frames) && computes_outputs(classifier, outputs)
                        ==> {
                        let outcome = #[trigger] call(old(self)@, audio@, frames, outputs);
                        &&& final(self)@.samples == outcome.samples
                        &&& final(self)@.context == outcome.context
                        &&& result == outcome.result()
                    }
            },
    {
        let ghost started = old(self)@.begin(audio@);
        let mut step = self.begin(audio);
        if step.is_err() {
            return Err(EngineError::Concurrency);
        }
        proof {
            old(self).lemma_view_wf();
            self.lemma_view_wf();
            lemma_wf_is_kept(old(self)@, audio@, EventView::Fault);
            assert(started.samples.skip(0) == started.samples);
        }
        let mut verdict: Result<bool, EngineError> = Ok(false);
        loop
            invariant_except_break
                self.wf(),
                self@.wf(),
                started.wf(),
                advanced(started.samples, self@.samples),
                !started.detected,
                started.samples.len() < WINDOW_SIZE ==> self@ == started,
                step is Ok ==> self@.phase == phase_for(self@.samples) || self@.phase is AwaitingScore,
                step is Err ==> self@.samples.len() >= WINDOW_SIZE && !(step->Err_0 is Concurrency),
                forall|window: Vec<u32>|
                    window@.len() == WINDOW_SIZE ==> call_requires(front_end, (window,)),
                forall|tensor: Vec<u32>|
                    tensor@.len() == TENSOR_LEN ==> call_requires(classifier, (tensor,)),
                step is Ok ==> step->Ok_0@ == self@.pending(),
                step is Err ==> self@.phase is Idle,
                forall|
                    frames: spec_fn(Seq<u32>) -> Seq<u32>,
                    outputs: spec_fn(Seq<u32>) -> Option<Seq<u32>>,
                |
                    computes_frames(front_end, frames) && computes_outputs(classifier, outputs)
                        ==> #[trigger] drive(started, frames, outputs) == (match step {
                        Ok(_) => drive(self@, frames, outputs),
                        Err(error) => (self@, Err(error)),
                    }),
            ensures
                self.wf(),
                started.wf(),
                self@.phase is Idle,
                advanced(started.samples, self@.samples),
                started.samples.len() < WINDOW_SIZE ==> self@ == started && verdict == Ok::<
                    bool,
                    EngineError,
                >(false),
                verdict is Ok <==> self@.samples.len() < WINDOW_SIZE,
                verdict is Err ==> !(verdict->Err_0 is Concurrency),
                forall|
                    frames: spec_fn(Seq<u32>) -> Seq<u32>,
                    outputs: spec_fn(Seq<u32>) -> Option<Seq<u32>>,
                |
                    computes_frames(front_end, frames) && computes_outputs(classifier, outputs)
                        ==> #[trigger] drive(started, frames, outputs) == (self@, verdict),
            decreases
                    self@.samples.len(),
                    (if self@.phase is AwaitingFrame {
                        1nat
                    } else {
                        0nat
                    }),
                    (if step is Ok {
                        1nat
                    } else {
                        0nat
                    }),
        {
            let ghost before = self@;
            match step {
                Err(error) => {
                    verdict = Err(error);
                    break ;
                },
                Ok(Action::Finished(detected)) => {
                    verdict = Ok(detected);
                    break ;
                },
                Ok(Action::Analyze(window)) => {
                    let bands = front_end(window);
                    step = self.resume(Event::Frame(bands));
                },
                Ok(Action::Classify(tensor)) => {
                    match classifier(tensor) {
                        Some(values) => {
                            step = self.resume(Event::Output(values));
                            proof {
                                let consumed = started.samples.len() - before.samples.len();
                                assert(started.samples.skip(consumed).skip(HOP_SIZE as int)
                                    == started.samples.skip(consumed + HOP_SIZE));
                            }
                        },
                        None => {
                            step = self.resume(Event::Fault);
                        },
                    }
                },
            }
            proof {
                self.lemma_view_wf();
            }
        }
        proof {
            assert forall|
                frames: spec_fn(Seq<u32>) -> Seq<u32>,
                outputs: spec_fn(Seq<u32>) -> Option<Seq<u32>>,
            |
                computes_frames(front_end, frames) && computes_outputs(
                    classifier,
                    outputs,
                ) implies ({
                let outcome = #[trigger] call(old(self)@, audio@, frames, outputs);
                &&& self@.samples == outcome.samples
                &&& self@.context == outcome.context
                &&& verdict == outcome.result()
            }) by {
                old(self).lemma_view_wf();
                lemma_call_is_driven(old(self)@, audio@, frames, outputs);
            }
        }
        verdict
    }
}

} // verus!
