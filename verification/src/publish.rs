//! Frame publishing: the single-writer slot holding the latest encoded
//! frame, and the per-tick decisions of the capture loop.
//!
//! The slot pairs the current payload with a monotonic counter.  Readers
//! take cheap copies; the writer replaces the payload and advances the
//! counter exactly once per successful encode.  The surrounding runtime
//! wraps the slot in a read-biased lock; the state transitions themselves
//! are plain values and are verified here.

use vstd::prelude::*;
use crate::jpeg::copy_bytes;

verus! {

/// The shared slot: the latest encoded frame, if any, and the number of
/// frames published so far.
pub struct FrameSlot {
    pub current: Option<Vec<u8>>,
    pub counter: u64,
}

impl FrameSlot {
    /// An empty slot: no frame yet, counter at zero.
    pub fn new() -> (s: FrameSlot)
        ensures
            s.current is None,
            s.counter == 0,
    {
        FrameSlot { current: None, counter: 0 }
    }

    /// Replaces the current frame and advances the counter.  The counter
    /// is strictly monotonic: every reader that observes it across any
    /// sequence of publishes sees a non-decreasing value.
    pub fn publish(&mut self, frame: Vec<u8>)
        requires
            old(self).counter < u64::MAX,
        ensures
            final(self).current matches Some(f) && f == frame,
            final(self).counter == old(self).counter + 1,
            final(self).counter > old(self).counter,
    {
        self.current = Some(frame);
        self.counter = self.counter + 1;
    }

    /// A copy of the current frame, or `None` before the first publish.
    /// Reading leaves the slot untouched.
    pub fn snapshot(&self) -> (r: Option<Vec<u8>>)
        ensures
            self.current is Some <==> r is Some,
            r matches Some(f) ==> (self.current matches Some(c) && f@ == c@),
    {
        match &self.current {
            Some(frame) => Some(copy_bytes(frame)),
            None => None,
        }
    }

    /// How many frames have been published.
    pub fn counter(&self) -> (c: u64)
        ensures
            c == self.counter,
    {
        self.counter
    }

    /// Whether a frame has been published yet.
    pub fn has_frame(&self) -> (b: bool)
        ensures
            b == (self.current is Some),
    {
        self.current.is_some()
    }

    /// One capture tick against the slot: a successfully encoded frame is
    /// published and advances the counter by one; a failed tick changes
    /// nothing, and readers keep seeing the last good frame.
    pub fn apply_tick(&mut self, encoded: Option<Vec<u8>>)
        requires
            old(self).counter < u64::MAX,
        ensures
            encoded matches Some(f) ==> (final(self).current matches Some(c) && c == f
                && final(self).counter == old(self).counter + 1),
            encoded is None ==> *final(self) == *old(self),
            final(self).counter >= old(self).counter,
    {
        match encoded {
            Some(frame) => self.publish(frame),
            None => (),
        }
    }
}

/// Whether this tick submits the frame to the detector: detection runs on
/// every third frame, counting from the first detection-enabled tick.
pub fn should_submit_detection(enabled: bool, detection_tick: u32) -> (b: bool)
    ensures
        b == (enabled && detection_tick % 3 == 0),
{
    enabled && detection_tick % 3 == 0
}

} // verus!
