//! The engine, one step at a time.

use vstd::prelude::*;
use crate::accumulator::SampleBuffer;
use crate::context::{
    cold_context, flattened, is_context, rolled, FeatureContext, SpectralFrame,
};
use crate::params::{HOP_SIZE, N_MELS, WINDOW_SIZE};
use crate::policy::{exceeds_half, exceeds_threshold, first_score, score_of};

verus! {

/// Where the engine stands within a call.
#[derive(Clone, Copy, Debug, PartialEq, Eq)]
pub enum Phase {
    /// No call is in progress.
    Idle,
    /// The engine has handed out a window and waits for its spectral frame.
    AwaitingFrame,
    /// The engine has handed out a classifier input and waits for the output.
    AwaitingScore,
}

/// Why a call ended without a result.
#[derive(Clone, Copy, Debug, PartialEq, Eq)]
pub enum EngineError {
    /// A spectral frame did not have `N_MELS` bands, so the classifier input would not
    /// have had the shape that the classifier expects.
    ShapeMismatch,
    /// The classifier failed on its input.
    Inference,
    /// The engine was entered while a call was in progress, or was handed something
    /// that it was not waiting for.
    Concurrency,
}

/// What the caller hands back to the engine after doing what the engine asked for.
#[derive(Debug, PartialEq, Eq)]
pub enum Event {
    /// The bands of the spectral frame of the window that was handed out.
    Frame(Vec<u32>),
    /// The values of the classifier's output for the input that was handed out.
    Output(Vec<u32>),
    /// The classifier failed.
    Fault,
}

/// What the engine asks its caller to do next.
#[derive(Debug, PartialEq, Eq)]
pub enum Action {
    /// Compute the spectral frame of this window and hand it back as `Event::Frame`.
    Analyze(Vec<u32>),
    /// Run the classifier on this input and hand its output back as `Event::Output`,
    /// or `Event::Fault` if it fails.
    Classify(Vec<u32>),
    /// The call is over. The value says whether the score of one of its windows
    /// exceeded the threshold.
    Finished(bool),
}

/// An `Event` as a mathematical value.
pub enum EventView {
    Frame(Seq<u32>),
    Output(Seq<u32>),
    Fault,
}

/// An `Action` as a mathematical value.
pub enum ActionView {
    Analyze(Seq<u32>),
    Classify(Seq<u32>),
    Finished(bool),
}

impl View for Event {
    type V = EventView;

    open spec fn view(&self) -> EventView {
        match self {
            Event::Frame(bands) => EventView::Frame(bands@),
            Event::Output(values) => EventView::Output(values@),
            Event::Fault => EventView::Fault,
        }
    }
}

impl View for Action {
    type V = ActionView;

    open spec fn view(&self) -> ActionView {
        match self {
            Action::Analyze(window) => ActionView::Analyze(window@),
            Action::Classify(tensor) => ActionView::Classify(tensor@),
            Action::Finished(detected) => ActionView::Finished(*detected),
        }
    }
}

/// The engine as a mathematical value.
pub struct EngineView {
    /// The buffered samples, oldest first.
    pub samples: Seq<u32>,
    /// The frames of the classifier context, oldest first.
    pub context: Seq<Seq<u32>>,
    /// Where the engine stands within a call.
    pub phase: Phase,
    /// Whether a score of the call in progress, or of the last call, exceeded the
    /// threshold.
    pub detected: bool,
}

/// The phase in which the engine looks at its buffer: it asks for a frame while a whole
/// window is buffered, and is done when none is.
pub open spec fn phase_for(samples: Seq<u32>) -> Phase {
    if samples.len() >= WINDOW_SIZE {
        Phase::AwaitingFrame
    } else {
        Phase::Idle
    }
}

impl EngineView {
    /// The context has its shape, and within a call a whole window is buffered.
    pub open spec fn wf(self) -> bool {
        &&& is_context(self.context)
        &&& !(self.phase is Idle) ==> self.samples.len() >= WINDOW_SIZE
    }

    /// The engine before any audio has been seen.
    pub open spec fn cold() -> EngineView {
        EngineView {
            samples: Seq::empty(),
            context: cold_context(),
            phase: Phase::Idle,
            detected: false,
        }
    }

    /// What the engine in this state asks its caller to do.
    pub open spec fn pending(self) -> ActionView {
        match self.phase {
            Phase::Idle => ActionView::Finished(self.detected),
            Phase::AwaitingFrame => ActionView::Analyze(self.samples.take(WINDOW_SIZE as int)),
            Phase::AwaitingScore => ActionView::Classify(flattened(self.context)),
        }
    }

    /// The state in which a call that brings `audio` starts.
    pub open spec fn begin(self, audio: Seq<u32>) -> EngineView {
        EngineView {
            samples: self.samples + audio,
            context: self.context,
            phase: phase_for(self.samples + audio),
            detected: false,
        }
    }

    /// Why the engine in this state turns `event` down, if it does.
    pub open spec fn refusal(self, event: EventView) -> Option<EngineError> {
        match (self.phase, event) {
            (Phase::AwaitingFrame, EventView::Frame(bands)) => if bands.len() == N_MELS {
                None
            } else {
                Some(EngineError::ShapeMismatch)
            },
            (Phase::AwaitingScore, EventView::Output(_)) => None,
            (Phase::AwaitingFrame, EventView::Fault) => Some(EngineError::Inference),
            (Phase::AwaitingScore, EventView::Fault) => Some(EngineError::Inference),
            _ => Some(EngineError::Concurrency),
        }
    }

    /// The state after `event`.
    ///
    /// A frame goes into the context. An output settles the window: its score is
    /// weighed, and the buffer moves on by one hop. A frame of the wrong size and a
    /// fault end the call and leave the buffer and the context as they are. Anything
    /// that the engine was not waiting for changes nothing.
    pub open spec fn step(self, event: EventView) -> EngineView {
        match (self.phase, event) {
            (Phase::AwaitingFrame, EventView::Frame(bands)) => if bands.len() == N_MELS {
                EngineView {
                    context: rolled(self.context, bands),
                    phase: Phase::AwaitingScore,
                    ..self
                }
            } else {
                EngineView { phase: Phase::Idle, ..self }
            },
            (Phase::AwaitingScore, EventView::Output(values)) => EngineView {
                samples: self.samples.skip(HOP_SIZE as int),
                context: self.context,
                phase: phase_for(self.samples.skip(HOP_SIZE as int)),
                detected: self.detected || exceeds_half(score_of(values)),
            },
            (Phase::AwaitingFrame, EventView::Fault) => EngineView { phase: Phase::Idle, ..self },
            (Phase::AwaitingScore, EventView::Fault) => EngineView { phase: Phase::Idle, ..self },
            _ => self,
        }
    }
}

/// The streaming state of a wakeword detector: the audio that waits to be analysed and
/// the spectral frames that the classifier sees.
///
/// The engine computes no spectrum and runs no classifier. Step by step, a call starts
/// with `begin`, which takes the new audio in and answers with an `Action`. The caller
/// does what the action says and hands the result to `resume`, which answers with the
/// next action, until the action is `Finished`. `detect` makes the whole call with two
/// functions of the caller's.
pub struct WakeWordEngine {
    samples: SampleBuffer,
    context: FeatureContext,
    phase: Phase,
    detected: bool,
}

impl View for WakeWordEngine {
    type V = EngineView;

    closed spec fn view(&self) -> EngineView {
        EngineView {
            samples: self.samples@,
            context: self.context@,
            phase: self.phase,
            detected: self.detected,
        }
    }
}

impl WakeWordEngine {
    /// Both buffers are well-formed, and within a call a whole window is buffered.
    pub closed spec fn wf(&self) -> bool {
        &&& self.samples.wf()
        &&& self.context.wf()
        &&& !(self.phase is Idle) ==> self.samples@.len() >= WINDOW_SIZE
    }

    /// The state of a well-formed engine is well-formed: in particular its context
    /// holds exactly `EMBEDDING_SIZE` frames, whatever has been done to the engine.
    pub proof fn lemma_view_wf(&self)
        requires
            self.wf(),
        ensures
            self@.wf(),
    {
        self.context.lemma_shape();
    }

    /// An engine that has seen no audio: nothing is buffered, and the context holds
    /// `EMBEDDING_SIZE` frames of zeros.
    pub fn new() -> (engine: Self)
        ensures
            engine.wf(),
            engine@ == EngineView::cold(),
    {
        WakeWordEngine {
            samples: SampleBuffer::new(),
            context: FeatureContext::new(),
            phase: Phase::Idle,
            detected: false,
        }
    }

    /// Where the engine stands within a call.
    pub fn phase(&self) -> (phase: Phase)
        ensures
            phase == self@.phase,
    {
        self.phase
    }

    /// The audio that waits to be analysed.
    pub fn samples(&self) -> (samples: &SampleBuffer)
        requires
            self.wf(),
        ensures
            samples.wf(),
            samples@ == self@.samples,
    {
        &self.samples
    }

    /// The frames that the classifier sees.
    pub fn context(&self) -> (context: &FeatureContext)
        requires
            self.wf(),
        ensures
            context.wf(),
            context@ == self@.context,
    {
        &self.context
    }

    /// Starts a call: takes `audio` in behind what is buffered and says what is to be
    /// done first. Within a call the engine takes no audio and changes nothing.
    pub fn begin(&mut self, audio: &[u32]) -> (outcome: Result<Action, EngineError>)
        requires
            old(self).wf(),
        ensures
            final(self).wf(),
            old(self)@.phase is Idle ==> {
                &&& final(self)@ == old(self)@.begin(audio@)
                &&& outcome is Ok
                &&& outcome->Ok_0@ == final(self)@.pending()
            },
            !(old(self)@.phase is Idle) ==> {
                &&& final(self)@ == old(self)@
                &&& outcome is Err
                &&& outcome->Err_0 == EngineError::Concurrency
            },
    {
        match self.phase {
            Phase::Idle => {
                self.samples.push(audio);
                self.detected = false;
                Ok(self.settle())
            },
            _ => Err(EngineError::Concurrency),
        }
    }

    /// Goes on with the call in progress: takes in what the caller did on the last
    /// action, and says what is to be done next.
    pub fn resume(&mut self, event: Event) -> (outcome: Result<Action, EngineError>)
        requires
            old(self).wf(),
        ensures
            final(self).wf(),
            final(self)@ == old(self)@.step(event@),
            match old(self)@.refusal(event@) {
                Some(error) => outcome is Err && outcome->Err_0 == error,
                None => outcome is Ok && outcome->Ok_0@ == final(self)@.pending(),
            },
    {
        match event {
            Event::Frame(bands) => match self.phase {
                Phase::AwaitingFrame => match SpectralFrame::from_bands(bands) {
                    Some(frame) => {
                        self.context.push(frame);
                        self.phase = Phase::AwaitingScore;
                        Ok(Action::Classify(self.context.materialize()))
                    },
                    None => {
                        self.phase = Phase::Idle;
                        Err(EngineError::ShapeMismatch)
                    },
                },
                _ => Err(EngineError::Concurrency),
            },
            Event::Output(values) => match self.phase {
                Phase::AwaitingScore => {
                    let hit: bool = exceeds_threshold(first_score(values.as_slice()));
                    self.detected = self.detected || hit;
                    self.samples.advance();
                    Ok(self.settle())
                },
                _ => Err(EngineError::Concurrency),
            },
            Event::Fault => match self.phase {
                Phase::Idle => Err(EngineError::Concurrency),
                _ => {
                    self.phase = Phase::Idle;
                    Err(EngineError::Inference)
                },
            },
        }
    }

    /// Looks at the buffer: asks for the frame of the next window if there is one, and
    /// ends the call if there is none.
    fn settle(&mut self) -> (action: Action)
        requires
            old(self).samples.wf(),
            old(self).context.wf(),
        ensures
            final(self).wf(),
            final(self)@ == (EngineView { phase: phase_for(old(self)@.samples), ..old(self)@ }),
            action@ == final(self)@.pending(),
    {
        match self.samples.window() {
            Some(window) => {
                self.phase = Phase::AwaitingFrame;
                Action::Analyze(window)
            },
            None => {
                self.phase = Phase::Idle;
                Action::Finished(self.detected)
            },
        }
    }
}

} // verus!
