//! The single-slot channel between two neighbouring processors.

use vstd::prelude::*;
use crate::datablock::DataBlock;

verus! {

/// What the reading side of a port observes.
#[derive(Debug, Clone, Copy, PartialEq, Eq, Structural)]
pub enum PortState {
    /// No batch is waiting and more may come.
    Empty,
    /// One batch is waiting to be pulled.
    HasData,
    /// No batch is waiting and none will come.
    Finished,
}

/// The refusal of a push onto a port that cannot take a batch.
#[derive(Debug, Clone, Copy, PartialEq, Eq, Structural)]
pub struct Full {}

/// A hand-off point that carries at most one batch at a time from the
/// processor that writes it to the processor that reads it, together with the
/// signal that the writer is done.
#[derive(Debug)]
pub struct Port {
    slot: Option<DataBlock>,
    closed: bool,
}

impl Port {
    /// The batch that waits in the slot, if one does.
    pub closed spec fn pending(&self) -> Option<DataBlock> {
        self.slot
    }

    /// Whether the writer has declared the end of the stream.
    pub closed spec fn is_closed(&self) -> bool {
        self.closed
    }

    /// What the reader observes: a waiting batch hides the end of the stream
    /// until it has been pulled.
    pub open spec fn spec_state(&self) -> PortState {
        if self.pending() is Some {
            PortState::HasData
        } else if self.is_closed() {
            PortState::Finished
        } else {
            PortState::Empty
        }
    }

    /// Whether the writer may push: the slot is free and the stream not ended.
    pub open spec fn spec_can_push(&self) -> bool {
        self.pending() is None && !self.is_closed()
    }

    /// An open port with a free slot.
    pub fn new() -> (r: Self)
        ensures
            r.pending() is None,
            !r.is_closed(),
    {
        Port { slot: None, closed: false }
    }

    /// What the reader observes.
    #[verifier::when_used_as_spec(spec_state)]
    pub fn state(&self) -> (r: PortState)
        ensures
            r == self.spec_state(),
    {
        if self.slot.is_some() {
            PortState::HasData
        } else if self.closed {
            PortState::Finished
        } else {
            PortState::Empty
        }
    }

    /// Whether a batch is waiting.
    pub fn has_data(&self) -> (r: bool)
        ensures
            r == (self.pending() is Some),
    {
        self.slot.is_some()
    }

    /// Whether the stream has ended and its last batch has been pulled.
    pub fn is_finished(&self) -> (r: bool)
        ensures
            r == (self.state() == PortState::Finished),
    {
        self.slot.is_none() && self.closed
    }

    /// Whether the writer may push.
    #[verifier::when_used_as_spec(spec_can_push)]
    pub fn can_push(&self) -> (r: bool)
        ensures
            r == self.spec_can_push(),
    {
        self.slot.is_none() && !self.closed
    }

    /// Places a batch in the free slot of an open port.
    pub fn push(&mut self, block: DataBlock)
        requires
            old(self).can_push(),
        ensures
            final(self).pending() == Some(block),
            !final(self).is_closed(),
    {
        self.slot = Some(block);
    }

    /// Places a batch in the slot if the port can take it; otherwise refuses
    /// and leaves the port as it was.
    pub fn try_push(&mut self, block: DataBlock) -> (r: Result<(), Full>)
        ensures
            r is Ok <==> old(self).can_push(),
            r is Ok ==> final(self).pending() == Some(block) && !final(self).is_closed(),
            r is Err ==> *final(self) == *old(self),
    {
        if self.can_push() {
            self.push(block);
            Ok(())
        } else {
            Err(Full {})
        }
    }

    /// Takes the waiting batch, if one waits, and frees the slot.
    pub fn pull(&mut self) -> (r: Option<DataBlock>)
        ensures
            r == old(self).pending(),
            final(self).pending() is None,
            final(self).is_closed() == old(self).is_closed(),
    {
        self.slot.take()
    }

    /// Declares the end of the stream. A batch that still waits stays until pulled.
    pub fn finish(&mut self)
        ensures
            final(self).is_closed(),
            final(self).pending() == old(self).pending(),
    {
        self.closed = true;
    }
}


/// Backpressure: a port that holds a batch takes no other one. Whoever would
/// push must first see the slot free, so between a push and the pull that
/// drains it no second push can be made.
pub proof fn lemma_occupied_port_takes_no_batch(port: Port)
    requires
        port.pending() is Some,
    ensures
        !port.spec_can_push(),
        port.spec_state() == PortState::HasData,
{
}

} // verus!
