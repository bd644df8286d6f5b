//! Spectral frames and the rolling context that the classifier sees.

use vstd::prelude::*;
use crate::params::{EMBEDDING_SIZE, N_MELS, TENSOR_LEN};

verus! {

/// Whether `frames` has the shape of a classifier context: `EMBEDDING_SIZE` frames of
/// `N_MELS` bands each.
pub open spec fn is_context(frames: Seq<Seq<u32>>) -> bool {
    &&& frames.len() == EMBEDDING_SIZE
    &&& forall|t: int| 0 <= t < frames.len() ==> (#[trigger] frames[t]).len() == N_MELS
}

/// The context before any audio has been seen: every band of every frame is zero.
pub open spec fn cold_context() -> Seq<Seq<u32>> {
    Seq::new(EMBEDDING_SIZE as nat, |t: int| Seq::new(N_MELS as nat, |m: int| 0u32))
}

/// `frames` without its oldest frame and with `frame` as its newest.
pub open spec fn rolled(frames: Seq<Seq<u32>>, frame: Seq<u32>) -> Seq<Seq<u32>> {
    frames.skip(1).push(frame)
}

/// Where the value at batch `b`, time `t`, band `m` and channel `c` lies in a row-major
/// tensor of shape (1, `EMBEDDING_SIZE`, `N_MELS`, 1).
pub open spec fn tensor_offset(b: int, t: int, m: int, c: int) -> int {
    ((b * EMBEDDING_SIZE + t) * N_MELS + m) * 1 + c
}

/// The bands of `frames` in one row: frame after frame, oldest first, and within a
/// frame band after band.
pub open spec fn flattened(frames: Seq<Seq<u32>>) -> Seq<u32> {
    Seq::new(
        frames.len() * (N_MELS as nat),
        |k: int| frames[k / (N_MELS as int)][k % (N_MELS as int)],
    )
}

/// Row-major order: in the flattened context, band `m` of frame `t` lies where a
/// tensor of shape (1, `EMBEDDING_SIZE`, `N_MELS`, 1) has its value at (0, `t`, `m`, 0).
pub proof fn lemma_flattened_layout(frames: Seq<Seq<u32>>, t: int, m: int)
    requires
        is_context(frames),
        0 <= t < EMBEDDING_SIZE,
        0 <= m < N_MELS,
    ensures
        flattened(frames).len() == TENSOR_LEN,
        0 <= tensor_offset(0, t, m, 0) < TENSOR_LEN,
        flattened(frames)[tensor_offset(0, t, m, 0)] == frames[t][m],
{
}

/// The shape of the classifier input: batch, time, band, channel.
pub fn tensor_shape() -> (shape: [usize; 4])
    ensures
        shape@ == seq![1usize, EMBEDDING_SIZE, N_MELS, 1usize],
{
    [1, EMBEDDING_SIZE, N_MELS, 1]
}

/// The log-compressed energies of the mel bands of one analysis window, lowest band
/// first, each the bit pattern of a single-precision number.
pub struct SpectralFrame {
    bands: Vec<u32>,
}

impl View for SpectralFrame {
    type V = Seq<u32>;

    closed spec fn view(&self) -> Seq<u32> {
        self.bands@
    }
}

impl SpectralFrame {
    /// A frame has one value for each mel band.
    pub open spec fn wf(&self) -> bool {
        self@.len() == N_MELS
    }

    /// The frame with the given bands, if there are `N_MELS` of them.
    pub fn from_bands(bands: Vec<u32>) -> (frame: Option<Self>)
        ensures
            bands@.len() == N_MELS ==> frame is Some && frame->0.wf() && frame->0@ == bands@,
            bands@.len() != N_MELS ==> frame is None,
    {
        if bands.len() == N_MELS {
            Some(SpectralFrame { bands })
        } else {
            None
        }
    }

    /// The frame whose bands are all zero.
    pub fn zeroed() -> (frame: Self)
        ensures
            frame.wf(),
            frame@ == Seq::new(N_MELS as nat, |m: int| 0u32),
    {
        let mut bands: Vec<u32> = Vec::with_capacity(N_MELS);
        let mut m: usize = 0;
        while m < N_MELS
            invariant
                m <= N_MELS,
                bands@ == Seq::new(m as nat, |m: int| 0u32),
            decreases N_MELS - m,
        {
            bands.push(0);
            m += 1;
        }
        SpectralFrame { bands }
    }

    /// The bands of the frame, lowest first.
    pub fn bands(&self) -> (bands: &Vec<u32>)
        ensures
            bands@ == self@,
    {
        &self.bands
    }
}

/// The `EMBEDDING_SIZE` most recent spectral frames, oldest first: what the classifier
/// sees of the past.
///
/// The frames lie in a ring. `oldest` is the slot of the oldest frame, which is the
/// slot that the next frame overwrites.
pub struct FeatureContext {
    slots: Vec<SpectralFrame>,
    oldest: usize,
}

impl View for FeatureContext {
    type V = Seq<Seq<u32>>;

    closed spec fn view(&self) -> Seq<Seq<u32>> {
        Seq::new(
            EMBEDDING_SIZE as nat,
            |t: int| self.slots@[(self.oldest + t) % (EMBEDDING_SIZE as int)]@,
        )
    }
}

impl FeatureContext {
    /// The ring is full, every frame in it is whole, and `oldest` is one of its slots.
    pub closed spec fn wf(&self) -> bool {
        &&& self.slots@.len() == EMBEDDING_SIZE
        &&& self.oldest < EMBEDDING_SIZE
        &&& forall|i: int| 0 <= i < self.slots@.len() ==> (#[trigger] self.slots@[i]).wf()
    }

    /// A context always holds exactly `EMBEDDING_SIZE` frames of `N_MELS` bands.
    pub proof fn lemma_shape(&self)
        requires
            self.wf(),
        ensures
            is_context(self@),
    {
    }

    /// The context before any audio has been seen.
    pub fn new() -> (context: Self)
        ensures
            context.wf(),
            context@ == cold_context(),
    {
        let mut slots: Vec<SpectralFrame> = Vec::with_capacity(EMBEDDING_SIZE);
        let mut t: usize = 0;
        while t < EMBEDDING_SIZE
            invariant
                t <= EMBEDDING_SIZE,
                slots@.len() == t,
                forall|i: int|
                    0 <= i < t ==> (#[trigger] slots@[i])@ == Seq::new(N_MELS as nat, |m: int| 0u32),
            decreases EMBEDDING_SIZE - t,
        {
            slots.push(SpectralFrame::zeroed());
            t += 1;
        }
        FeatureContext { slots, oldest: 0 }
    }

    /// The frame at place `t`, counted from the oldest.
    pub fn frame(&self, t: usize) -> (frame: &SpectralFrame)
        requires
            self.wf(),
            t < EMBEDDING_SIZE,
        ensures
            frame.wf(),
            frame@ == self@[t as int],
    {
        &self.slots[(self.oldest + t) % EMBEDDING_SIZE]
    }

    /// Evicts the oldest frame and takes `frame` in as the newest.
    pub fn push(&mut self, frame: SpectralFrame)
        requires
            old(self).wf(),
            frame.wf(),
        ensures
            final(self).wf(),
            final(self)@ == rolled(old(self)@, frame@),
    {
        self.slots.set(self.oldest, frame);
        self.oldest = if self.oldest + 1 == EMBEDDING_SIZE {
            0
        } else {
            self.oldest + 1
        };
    }

    /// The classifier input: all bands of all frames, oldest frame first, laid out as a
    /// row-major tensor of shape (1, `EMBEDDING_SIZE`, `N_MELS`, 1).
    pub fn materialize(&self) -> (tensor: Vec<u32>)
        requires
            self.wf(),
        ensures
            tensor@ == flattened(self@),
    {
        let mut tensor: Vec<u32> = Vec::with_capacity(TENSOR_LEN);
        let mut t: usize = 0;
        while t < EMBEDDING_SIZE
            invariant
                self.wf(),
                t <= EMBEDDING_SIZE,
                tensor@ == flattened(self@.take(t as int)),
            decreases EMBEDDING_SIZE - t,
        {
            let slot: usize = (self.oldest + t) % EMBEDDING_SIZE;
            let frame: &SpectralFrame = &self.slots[slot];
            let mut m: usize = 0;
            while m < N_MELS
                invariant
                    self.wf(),
                    t < EMBEDDING_SIZE,
                    m <= N_MELS,
                    frame@ == self@[t as int],
                    frame.wf(),
                    tensor@ == flattened(self@.take(t as int)) + frame@.take(m as int),
                decreases N_MELS - m,
            {
                tensor.push(frame.bands[m]);
                m += 1;
            }
            t += 1;
        }
        tensor
    }
}

} // verus!
