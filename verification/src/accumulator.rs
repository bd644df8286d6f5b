//! The buffer of audio that waits to be analysed.

use vstd::prelude::*;
use crate::params::{HOP_SIZE, WINDOW_SIZE};

verus! {

/// The audio that has arrived and has not been consumed yet, oldest sample first.
///
/// A sample is the bit pattern of a single-precision number. The buffer never looks
/// inside one: it only keeps them in order. Consumed samples stay in `data` in front
/// of `head` until the live part is no longer than they are; then the live part is
/// moved to the front once, so an advance costs constant time on average.
pub struct SampleBuffer {
    data: Vec<u32>,
    head: usize,
}

impl View for SampleBuffer {
    type V = Seq<u32>;

    closed spec fn view(&self) -> Seq<u32> {
        self.data@.skip(self.head as int)
    }
}

impl SampleBuffer {
    /// The consumed part lies within the storage.
    pub closed spec fn wf(&self) -> bool {
        self.head <= self.data@.len()
    }

    /// An empty buffer.
    pub fn new() -> (buffer: Self)
        ensures
            buffer.wf(),
            buffer@ == Seq::<u32>::empty(),
    {
        SampleBuffer { data: Vec::new(), head: 0 }
    }

    /// The number of buffered samples.
    pub fn len(&self) -> (n: usize)
        requires
            self.wf(),
        ensures
            n == self@.len(),
    {
        self.data.len() - self.head
    }

    /// Whether the buffer holds at least one whole analysis window.
    pub fn has_full_window(&self) -> (full: bool)
        requires
            self.wf(),
        ensures
            full == (self@.len() >= WINDOW_SIZE),
    {
        self.len() >= WINDOW_SIZE
    }

    /// Appends `samples` behind what is buffered.
    pub fn push(&mut self, samples: &[u32])
        requires
            old(self).wf(),
        ensures
            final(self).wf(),
            final(self)@ == old(self)@ + samples@,
    {
        let mut i: usize = 0;
        while i < samples.len()
            invariant
                i <= samples@.len(),
                self.head == old(self).head,
                self.head <= self.data@.len(),
                self.data@ == old(self).data@ + samples@.take(i as int),
            decreases samples@.len() - i,
        {
            self.data.push(samples[i]);
            i += 1;
        }
    }

    /// A copy of the oldest `WINDOW_SIZE` samples, where the buffer holds that many.
    pub fn window(&self) -> (front: Option<Vec<u32>>)
        requires
            self.wf(),
        ensures
            self@.len() >= WINDOW_SIZE ==> front is Some && front->0@ == self@.take(
                WINDOW_SIZE as int,
            ),
            self@.len() < WINDOW_SIZE ==> front is None,
    {
        if self.data.len() - self.head < WINDOW_SIZE {
            return None;
        }
        let mut front: Vec<u32> = Vec::with_capacity(WINDOW_SIZE);
        let mut i: usize = 0;
        while i < WINDOW_SIZE
            invariant
                i <= WINDOW_SIZE,
                self.head + WINDOW_SIZE <= self.data.len(),
                front@ == self@.take(i as int),
            decreases WINDOW_SIZE - i,
        {
            front.push(self.data[self.head + i]);
            i += 1;
        }
        Some(front)
    }

    /// A copy of everything that is buffered, oldest sample first.
    pub fn to_vec(&self) -> (samples: Vec<u32>)
        requires
            self.wf(),
        ensures
            samples@ == self@,
    {
        let mut samples: Vec<u32> = Vec::with_capacity(self.data.len() - self.head);
        let mut i: usize = self.head;
        while i < self.data.len()
            invariant
                self.head <= i <= self.data.len(),
                samples@ == self@.take(i - self.head),
            decreases self.data.len() - i,
        {
            samples.push(self.data[i]);
            i += 1;
        }
        samples
    }

    /// Drops the oldest `HOP_SIZE` samples.
    pub fn advance(&mut self)
        requires
            old(self).wf(),
            old(self)@.len() >= HOP_SIZE,
        ensures
            final(self).wf(),
            final(self)@ == old(self)@.skip(HOP_SIZE as int),
    {
        let stored: usize = self.data.len();
        self.head = self.head + HOP_SIZE;
        if self.head >= stored - self.head {
            self.compact();
        }
    }

    /// Moves the live samples to the front of the storage and gives up the rest.
    fn compact(&mut self)
        requires
            old(self).wf(),
        ensures
            final(self).wf(),
            final(self)@ == old(self)@,
            final(self).head == 0,
    {
        let live: usize = self.data.len() - self.head;
        let mut i: usize = 0;
        while i < live
            invariant
                i <= live,
                self.head == old(self).head,
                self.data.len() == old(self).data.len(),
                self.head + live == self.data.len(),
                forall|j: int| 0 <= j < i ==> self.data@[j] == old(self).data@[self.head + j],
                forall|j: int| i <= j < self.data@.len() ==> self.data@[j] == old(self).data@[j],
            decreases live - i,
        {
            let sample: u32 = self.data[self.head + i];
            self.data.set(i, sample);
            i += 1;
        }
        self.head = 0;
        self.data.truncate(live);
    }
}

} // verus!
