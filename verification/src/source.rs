//! The processor that starts a pipeline: it places ready batches on its
//! output, one at a time.

use vstd::prelude::*;
use crate::datablock::DataBlock;
use crate::port::Port;
use crate::processor::ProcessorState;

verus! {

/// A source over batches that are already there. It never needs data: it is
/// ready until its last batch is out and its output ended.
pub struct BlocksSource {
    // The batches still to come, the next one last.
    stack: Vec<DataBlock>,
    finished: bool,
}

impl BlocksSource {
    /// The batches still to come, the next one first.
    pub closed spec fn remaining(&self) -> Seq<DataBlock> {
        self.stack@.reverse()
    }

    /// Whether the source has ended its output.
    pub closed spec fn is_done(&self) -> bool {
        self.finished
    }

    pub open spec fn spec_state(&self) -> ProcessorState {
        if self.is_done() {
            ProcessorState::Finished
        } else {
            ProcessorState::Ready
        }
    }

    /// A source that will hand out `blocks` in their order.
    pub fn create(blocks: Vec<DataBlock>) -> (r: Self)
        ensures
            r.remaining() == blocks@,
            !r.is_done(),
    {
        let mut blocks = blocks;
        let ghost all = blocks@;
        let mut stack: Vec<DataBlock> = Vec::new();
        while blocks.len() > 0
            invariant
                blocks@ + stack@.reverse() == all,
            decreases blocks.len(),
        {
            let ghost before = blocks@;
            let block = blocks.pop().unwrap();
            stack.push(block);
            assert(blocks@ + stack@.reverse() =~= all) by {
                assert(before =~= blocks@.push(block));
                assert(stack@.reverse() =~= seq![block] + stack@.drop_last().reverse());
            }
        }
        let r = BlocksSource { stack, finished: false };
        assert(r.remaining() =~= all) by {
            assert(blocks@ =~= Seq::<DataBlock>::empty());
        }
        r
    }

    /// The state the source reports to the scheduler.
    #[verifier::when_used_as_spec(spec_state)]
    pub fn state(&self) -> (r: ProcessorState)
        ensures
            r == self.spec_state(),
    {
        if self.finished {
            ProcessorState::Finished
        } else {
            ProcessorState::Ready
        }
    }

    /// The operation for `Ready`: places the next batch on the output, which
    /// the scheduler has seen free; ends the output and finishes when no
    /// batch is left.
    pub fn process(&mut self, output: &mut Port)
        requires
            old(self).state() == ProcessorState::Ready,
            old(output).can_push(),
        ensures
            if old(self).remaining().len() > 0 {
                &&& final(output).pending() == Some(old(self).remaining()[0])
                &&& !final(output).is_closed()
                &&& final(self).remaining() == old(self).remaining().skip(1)
                &&& !final(self).is_done()
            } else {
                &&& final(output).pending() is None
                &&& final(output).is_closed()
                &&& final(self).remaining() == old(self).remaining()
                &&& final(self).is_done()
            },
    {
        match self.stack.pop() {
            Some(block) => {
                output.push(block);
                assert(self.remaining() =~= old(self).remaining().skip(1));
            },
            None => {
                output.finish();
                self.finished = true;
            },
        }
    }

    /// Cancellation: lets go of the batches still to come and finishes
    /// without touching a port.
    pub fn cancel(&mut self)
        ensures
            final(self).is_done(),
            final(self).remaining().len() == 0,
    {
        self.stack.clear();
        self.finished = true;
    }
}

} // verus!
