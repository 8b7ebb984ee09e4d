//! Interleaving of stereo frames into a stream of single samples.
use vstd::prelude::*;

verus! {

/// Which half of a stereo frame a sample belongs to.
#[derive(Clone, Copy, Debug, PartialEq, Eq, Structural)]
pub enum Channel {
    Left,
    Right,
}

/// Walks an output stream that alternates left and right samples.
///
/// A new frame is mixed only when the left sample is due; the right
/// sample is then taken from the frame that was mixed just before.
pub struct Interleaver {
    right_pending: bool,
}

impl Interleaver {
    /// Whether the next sample is the right half of the current frame.
    pub closed spec fn spec_right_pending(&self) -> bool {
        self.right_pending
    }

    /// A stream that starts with the left sample of a fresh frame.
    pub fn new() -> (r: Self)
        ensures
            !r.spec_right_pending(),
    {
        Interleaver { right_pending: false }
    }

    /// The channel of the next sample; advances the stream by one sample.
    /// `Left` means that a new frame has to be mixed first.
    pub fn advance(&mut self) -> (c: Channel)
        ensures
            c == next_channel(old(self).spec_right_pending()),
            final(self).spec_right_pending() == !old(self).spec_right_pending(),
    {
        if self.right_pending {
            self.right_pending = false;
            Channel::Right
        } else {
            self.right_pending = true;
            Channel::Left
        }
    }
}

/// The channel of the next sample of a stream in the given state.
pub open spec fn next_channel(right_pending: bool) -> Channel {
    if right_pending {
        Channel::Right
    } else {
        Channel::Left
    }
}

/// Samples alternate between the two halves of a frame: a fresh stream
/// starts with a left sample, and whatever the state, two consecutive
/// samples belong to different channels.
pub proof fn lemma_frames_alternate(right_pending: bool)
    ensures
        next_channel(false) == Channel::Left,
        next_channel(right_pending) != next_channel(!right_pending),
{
}

} // verus!
