//! The processor that applies a function to every batch that passes.

use vstd::prelude::*;
use crate::datablock::DataBlock;
use crate::error::ErrorCode;
use crate::port::Port;
use crate::processor::ProcessorState;

verus! {

/// A processor between two ports: it takes one batch at a time from its
/// input, applies its function, and places the result on its output.
pub struct Transformer<F> {
    transform: F,
    input_data: Option<DataBlock>,
    finished: bool,
}

impl<F: Fn(DataBlock) -> Result<DataBlock, ErrorCode>> Transformer<F> {
    /// The function that is applied.
    pub closed spec fn transform(&self) -> F {
        self.transform
    }

    /// The batch taken from the input and not yet transformed.
    pub closed spec fn held(&self) -> Option<DataBlock> {
        self.input_data
    }

    /// Whether the processor has done all it will ever do.
    pub closed spec fn is_done(&self) -> bool {
        self.finished
    }

    pub open spec fn spec_state(&self) -> ProcessorState {
        if self.is_done() {
            ProcessorState::Finished
        } else if self.held() is Some {
            ProcessorState::Ready
        } else {
            ProcessorState::NeedData
        }
    }

    /// A processor that applies `transform` and holds nothing yet.
    pub fn create(transform: F) -> (r: Self)
        ensures
            r.transform() == transform,
            r.held() is None,
            !r.is_done(),
    {
        Transformer { transform, input_data: None, finished: false }
    }

    /// The state the processor reports to the scheduler.
    #[verifier::when_used_as_spec(spec_state)]
    pub fn state(&self) -> (r: ProcessorState)
        ensures
            r == self.spec_state(),
    {
        if self.finished {
            ProcessorState::Finished
        } else if self.input_data.is_some() {
            ProcessorState::Ready
        } else {
            ProcessorState::NeedData
        }
    }

    /// The operation for `NeedData`: takes the batch that waits on the input;
    /// when none waits and the input has ended, ends the output and
    /// finishes; when none waits and more may come, does nothing.
    pub fn pull_input(&mut self, input: &mut Port, output: &mut Port)
        requires
            old(self).state() == ProcessorState::NeedData,
        ensures
            final(self).transform() == old(self).transform(),
            final(input).is_closed() == old(input).is_closed(),
            final(input).pending() is None,
            final(output).pending() == old(output).pending(),
            final(self).held() == old(input).pending(),
            final(self).is_done() == (old(input).pending() is None && old(input).is_closed()),
            final(output).is_closed() == (old(output).is_closed() || final(self).is_done()),
    {
        if input.has_data() {
            self.input_data = input.pull();
        } else if input.is_finished() {
            output.finish();
            self.finished = true;
        }
    }

    /// The operation for `Ready`: applies the function to the held batch and
    /// places the result on the output, which the scheduler has seen free. A
    /// failure of the function is passed on and ends the processor.
    pub fn process(&mut self, output: &mut Port) -> (r: Result<(), ErrorCode>)
        requires
            old(self).state() == ProcessorState::Ready,
            old(output).can_push(),
            call_requires(old(self).transform(), (old(self).held()->0,)),
        ensures
            final(self).transform() == old(self).transform(),
            final(self).held() is None,
            final(self).is_done() == (r is Err),
            match r {
                Ok(()) => {
                    &&& final(output).pending() matches Some(out)
                    &&& call_ensures(
                        old(self).transform(),
                        (old(self).held()->0,),
                        Ok::<DataBlock, ErrorCode>(out),
                    )
                    &&& !final(output).is_closed()
                },
                Err(e) => {
                    &&& *final(output) == *old(output)
                    &&& call_ensures(
                        old(self).transform(),
                        (old(self).held()->0,),
                        Err::<DataBlock, ErrorCode>(e),
                    )
                },
            },
    {
        let block = self.input_data.take().unwrap();
        match (self.transform)(block) {
            Ok(out) => {
                output.push(out);
                Ok(())
            },
            Err(e) => {
                self.finished = true;
                Err(e)
            },
        }
    }

    /// Cancellation: lets go of the held batch and finishes without
    /// touching a port.
    pub fn cancel(&mut self)
        ensures
            final(self).transform() == old(self).transform(),
            final(self).held() is None,
            final(self).is_done(),
    {
        self.input_data = None;
        self.finished = true;
    }
}

} // verus!
