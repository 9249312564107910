//! Terminal consumers and the processor that drives them.

use vstd::prelude::*;
use crate::datablock::DataBlock;
use crate::error::ErrorCode;
use crate::port::Port;
use crate::port::PortState;
use crate::processor::ProcessorState;

verus! {

/// What a sink lets contracts know of what it has been given.
pub struct SinkRecord {
    /// The batches taken so far, oldest first.
    pub taken: Seq<DataBlock>,
    /// For every flush that was made, the batches that had been taken by then.
    pub flushed: Seq<Seq<DataBlock>>,
}

/// What `consume` makes of a sink that keeps a record: nothing is flushed,
/// and when the call succeeds the batch is the last one taken.
pub open spec fn consumed_into(
    before: Option<SinkRecord>,
    block: DataBlock,
    after: Option<SinkRecord>,
    ok: bool,
) -> bool {
    before matches Some(b) ==> after matches Some(a) && a.flushed == b.flushed && (ok ==> a.taken
        == b.taken.push(block))
}

/// What `on_finish` makes of a sink that keeps a record: no batch is taken,
/// and what was taken is flushed, once; only a call that fails may have
/// flushed nothing.
pub open spec fn finished_into(before: Option<SinkRecord>, after: Option<SinkRecord>, ok: bool) -> bool {
    before matches Some(b) ==> after matches Some(a) && a.taken == b.taken && (a.flushed
        == b.flushed.push(b.taken) || (!ok && a.flushed == b.flushed))
}

/// A consumer at the end of a pipeline.
pub trait Sink {
    /// The name under which the sink is reported.
    const NAME: &'static str;

    /// What must hold of the sink between calls. A sink that states nothing
    /// here needs nothing.
    open spec fn inv(&self) -> bool {
        true
    }

    /// The record the sink keeps of what it was given, or `None` for a sink
    /// that keeps none; of such a sink the contracts below claim nothing.
    open spec fn record(&self) -> Option<SinkRecord> {
        None
    }

    /// Flushes whatever the sink has gathered. Called once, after the last
    /// batch.
    fn on_finish(&mut self) -> (r: Result<(), ErrorCode>)
        requires
            old(self).inv(),
        ensures
            final(self).inv(),
            finished_into(old(self).record(), final(self).record(), r is Ok),
    ;

    /// Takes one batch.
    fn consume(&mut self, data_block: DataBlock) -> (r: Result<(), ErrorCode>)
        requires
            old(self).inv(),
        ensures
            final(self).inv(),
            consumed_into(old(self).record(), data_block, final(self).record(), r is Ok),
    ;
}

/// One call that a driver made into its sink.
pub enum SinkCall {
    Consume(DataBlock),
    Finish,
}

/// How many of `calls` are calls of `on_finish`.
pub open spec fn finish_calls(calls: Seq<SinkCall>) -> nat
    decreases calls.len(),
{
    if calls.len() == 0 {
        0
    } else {
        finish_calls(calls.drop_last()) + if calls.last() is Finish {
            1nat
        } else {
            0nat
        }
    }
}

/// The batches handed over by the `consume` calls among `calls`, in order.
pub open spec fn consumed_blocks(calls: Seq<SinkCall>) -> Seq<DataBlock>
    decreases calls.len(),
{
    if calls.len() == 0 {
        Seq::empty()
    } else {
        match calls.last() {
            SinkCall::Consume(block) => consumed_blocks(calls.drop_last()).push(block),
            SinkCall::Finish => consumed_blocks(calls.drop_last()),
        }
    }
}

/// The record after `calls` have all succeeded on a sink with `record`.
pub open spec fn replay(record: SinkRecord, calls: Seq<SinkCall>) -> SinkRecord
    decreases calls.len(),
{
    if calls.len() == 0 {
        record
    } else {
        let so_far = replay(record, calls.drop_last());
        match calls.last() {
            SinkCall::Consume(block) => SinkRecord {
                taken: so_far.taken.push(block),
                flushed: so_far.flushed,
            },
            SinkCall::Finish => SinkRecord {
                taken: so_far.taken,
                flushed: so_far.flushed.push(so_far.taken),
            },
        }
    }
}

/// One `consume` call for each of `blocks`, in order.
pub open spec fn consumes(blocks: Seq<DataBlock>) -> Seq<SinkCall> {
    Seq::new(blocks.len(), |i: int| SinkCall::Consume(blocks[i]))
}

/// The processor that drains one input port into a sink and finishes the
/// sink when the input has ended.
pub struct Sinker<T: Sink> {
    inner: T,
    input: Port,
    input_data: Option<DataBlock>,
    called_on_finish: bool,
    aborted: bool,
    calls: Ghost<Seq<SinkCall>>,
}

impl<T: Sink> Sinker<T> {
    /// The calls made into the sink so far, oldest first.
    pub closed spec fn calls(&self) -> Seq<SinkCall> {
        self.calls@
    }

    /// The input port.
    pub closed spec fn input(&self) -> Port {
        self.input
    }

    /// The batch pulled from the port and not yet handed to the sink.
    pub closed spec fn held(&self) -> Option<DataBlock> {
        self.input_data
    }

    /// Whether `on_finish` has been called.
    pub closed spec fn finish_called(&self) -> bool {
        self.called_on_finish
    }

    /// Whether a call into the sink has failed.
    pub closed spec fn aborted(&self) -> bool {
        self.aborted
    }

    /// The record of calls agrees with the driver's own state: every call
    /// is a `consume` but the last one once `on_finish` has been called, and
    /// nothing is held or called after a failure or after the finish. What
    /// the sink needs between calls holds.
    pub closed spec fn wf(&self) -> bool {
        let n = self.calls@.len() as int;
        &&& self.called_on_finish ==> n > 0 && self.calls@[n - 1] is Finish
        &&& forall|i: int|
            0 <= i < n && !(self.called_on_finish && i == n - 1) ==> (
            #[trigger] self.calls@[i]) is Consume
        &&& (self.called_on_finish || self.aborted) ==> self.input_data is None
        &&& self.inner.inv()
    }

    pub open spec fn spec_state(&self) -> ProcessorState {
        if self.aborted() || self.finish_called() {
            ProcessorState::Finished
        } else if self.held() is Some || self.input().state() == PortState::Finished {
            ProcessorState::Ready
        } else {
            ProcessorState::NeedData
        }
    }

    /// A driver for `inner` that reads from `input`.
    pub fn create(input: Port, inner: T) -> (r: Self)
        requires
            inner.inv(),
        ensures
            r.wf(),
            r.calls() == Seq::<SinkCall>::empty(),
            r.sink() == inner,
            r.input() == input,
            r.held() is None,
            !r.finish_called(),
            !r.aborted(),
    {
        Sinker {
            inner,
            input,
            input_data: None,
            called_on_finish: false,
            aborted: false,
            calls: Ghost(Seq::empty()),
        }
    }

    /// The state the driver reports to the scheduler.
    #[verifier::when_used_as_spec(spec_state)]
    pub fn state(&self) -> (r: ProcessorState)
        ensures
            r == self.spec_state(),
    {
        if self.aborted || self.called_on_finish {
            ProcessorState::Finished
        } else if self.input_data.is_some() || self.input.is_finished() {
            ProcessorState::Ready
        } else {
            ProcessorState::NeedData
        }
    }

    /// The sink that is driven.
    pub closed spec fn sink(&self) -> T {
        self.inner
    }

    /// The sink that is driven.
    pub fn inner(&self) -> (r: &T)
        ensures
            *r == self.sink(),
    {
        &self.inner
    }

    /// Gives up the driver for its sink.
    pub fn into_inner(self) -> (r: T)
        ensures
            r == self.sink(),
    {
        self.inner
    }

    /// Cancellation: ends the input, lets go of the batches that wait or
    /// are held, and finishes without a further call into the sink; in
    /// particular `on_finish` is not called.
    pub fn cancel(&mut self)
        requires
            old(self).wf(),
        ensures
            final(self).wf(),
            final(self).state() == ProcessorState::Finished,
            final(self).aborted(),
            final(self).calls() == old(self).calls(),
            final(self).sink() == old(self).sink(),
            final(self).held() is None,
            final(self).input().pending() is None,
            final(self).input().is_closed(),
            final(self).finish_called() == old(self).finish_called(),
    {
        self.input.finish();
        let _ = self.input.pull();
        self.input_data = None;
        self.aborted = true;
    }

    /// Whether the upstream side may push a batch.
    pub fn can_push(&self) -> (r: bool)
        ensures
            r == self.input().can_push(),
    {
        self.input.can_push()
    }

    /// The upstream side places a batch on the input port.
    pub fn push_input(&mut self, block: DataBlock)
        requires
            old(self).wf(),
            old(self).input().can_push(),
        ensures
            final(self).wf(),
            final(self).input().pending() == Some(block),
            !final(self).input().is_closed(),
            final(self).calls() == old(self).calls(),
            final(self).sink() == old(self).sink(),
            final(self).held() == old(self).held(),
            final(self).finish_called() == old(self).finish_called(),
            final(self).aborted() == old(self).aborted(),
    {
        self.input.push(block);
    }

    /// The upstream side declares the end of the stream.
    pub fn finish_input(&mut self)
        requires
            old(self).wf(),
        ensures
            final(self).wf(),
            final(self).input().is_closed(),
            final(self).input().pending() == old(self).input().pending(),
            final(self).calls() == old(self).calls(),
            final(self).sink() == old(self).sink(),
            final(self).held() == old(self).held(),
            final(self).finish_called() == old(self).finish_called(),
            final(self).aborted() == old(self).aborted(),
    {
        self.input.finish();
    }

    /// The operation for `NeedData`: takes the batch that waits on the input
    /// port, if one waits.
    pub fn pull_input(&mut self)
        requires
            old(self).wf(),
            old(self).state() == ProcessorState::NeedData,
        ensures
            final(self).wf(),
            final(self).held() == old(self).input().pending(),
            final(self).input().pending() is None,
            final(self).input().is_closed() == old(self).input().is_closed(),
            final(self).calls() == old(self).calls(),
            final(self).sink() == old(self).sink(),
            !final(self).finish_called(),
            !final(self).aborted(),
    {
        self.input_data = self.input.pull();
    }

    /// The operation for `Ready`: hands the held batch to the sink, or, when
    /// none is held and the input has ended, finishes the sink. A failure of
    /// the sink is passed on and ends the driver.
    pub fn process(&mut self) -> (r: Result<(), ErrorCode>)
        requires
            old(self).wf(),
            old(self).state() == ProcessorState::Ready,
        ensures
            final(self).wf(),
            final(self).input() == old(self).input(),
            final(self).held() is None,
            final(self).aborted() == (r is Err),
            match old(self).held() {
                Some(block) => {
                    &&& final(self).calls() == old(self).calls().push(SinkCall::Consume(block))
                    &&& !final(self).finish_called()
                    &&& consumed_into(
                        old(self).sink().record(),
                        block,
                        final(self).sink().record(),
                        r is Ok,
                    )
                },
                None => {
                    &&& final(self).calls() == old(self).calls().push(SinkCall::Finish)
                    &&& final(self).finish_called()
                    &&& finished_into(
                        old(self).sink().record(),
                        final(self).sink().record(),
                        r is Ok,
                    )
                },
            },
    {
        match self.input_data.take() {
            Some(block) => {
                self.calls = Ghost(self.calls@.push(SinkCall::Consume(block)));
                let r = self.inner.consume(block);
                if r.is_err() {
                    self.aborted = true;
                }
                r
            },
            None => {
                self.calls = Ghost(self.calls@.push(SinkCall::Finish));
                self.called_on_finish = true;
                let r = self.inner.on_finish();
                if r.is_err() {
                    self.aborted = true;
                }
                r
            },
        }
    }

    /// One turn of the scheduler: polls the state and runs the operation that
    /// belongs to it. Answers the state after the operation.
    pub fn step(&mut self) -> (r: Result<ProcessorState, ErrorCode>)
        requires
            old(self).wf(),
        ensures
            final(self).wf(),
            r is Err <==> final(self).aborted() && !old(self).aborted(),
            r matches Ok(state) ==> state == final(self).state(),
            old(self).state() != ProcessorState::Ready ==> {
                &&& r is Ok
                &&& final(self).calls() == old(self).calls()
                &&& final(self).sink() == old(self).sink()
                &&& final(self).aborted() == old(self).aborted()
                &&& final(self).finish_called() == old(self).finish_called()
            },
            match old(self).state() {
                ProcessorState::Finished => {
                    &&& final(self).state() == ProcessorState::Finished
                    &&& final(self).held() == old(self).held()
                    &&& final(self).input() == old(self).input()
                },
                ProcessorState::NeedData => {
                    &&& final(self).held() == old(self).input().pending()
                    &&& final(self).input().pending() is None
                    &&& final(self).input().is_closed() == old(self).input().is_closed()
                },
                ProcessorState::Ready => {
                    &&& final(self).input() == old(self).input()
                    &&& final(self).held() is None
                    &&& final(self).aborted() == (r is Err)
                    &&& match old(self).held() {
                        Some(block) => {
                            &&& final(self).calls() == old(self).calls().push(
                                SinkCall::Consume(block),
                            )
                            &&& !final(self).finish_called()
                            &&& consumed_into(
                                old(self).sink().record(),
                                block,
                                final(self).sink().record(),
                                r is Ok,
                            )
                        },
                        None => {
                            &&& final(self).calls() == old(self).calls().push(SinkCall::Finish)
                            &&& final(self).finish_called()
                            &&& finished_into(
                                old(self).sink().record(),
                                final(self).sink().record(),
                                r is Ok,
                            )
                        },
                    }
                },
            },
    {
        match self.state() {
            ProcessorState::Finished => {},
            ProcessorState::NeedData => {
                self.pull_input();
            },
            ProcessorState::Ready => {
                self.process()?;
            },
        }
        Ok(self.state())
    }
}


/// The calls that a driver makes when left to run with `held` in hand,
/// `pending` on its port and the stream ended or not: the held batch, then
/// the waiting one, then the finish if the stream has ended.
pub open spec fn due_calls(held: Option<DataBlock>, pending: Option<DataBlock>, closed: bool) -> Seq<
    SinkCall,
> {
    let first = match held {
        Some(block) => seq![SinkCall::Consume(block)],
        None => Seq::empty(),
    };
    let second = match pending {
        Some(block) => seq![SinkCall::Consume(block)],
        None => Seq::empty(),
    };
    let last = if closed {
        seq![SinkCall::Finish]
    } else {
        Seq::empty()
    };
    first + second + last
}

impl<T: Sink> Sinker<T> {
    /// Runs the driver until it waits for data or has finished: every batch
    /// within reach is handed to the sink in order, and the sink is finished
    /// if the stream has ended. Stops at the first failure of the sink.
    pub fn drain(&mut self) -> (r: Result<ProcessorState, ErrorCode>)
        requires
            old(self).wf(),
            old(self).state() != ProcessorState::Finished,
        ensures
            final(self).wf(),
            final(self).held() is None,
            final(self).input().is_closed() == old(self).input().is_closed(),
            old(self).sink().record() is Some ==> final(self).sink().record() is Some,
            r is Err <==> final(self).aborted(),
            match r {
                Ok(state) => {
                    &&& state == final(self).state()
                    &&& state == if old(self).input().is_closed() {
                        ProcessorState::Finished
                    } else {
                        ProcessorState::NeedData
                    }
                    &&& final(self).input().pending() is None
                    &&& final(self).calls() == old(self).calls() + due_calls(
                        old(self).held(),
                        old(self).input().pending(),
                        old(self).input().is_closed(),
                    )
                    &&& old(self).sink().record() matches Some(before) ==> final(self).sink().record() == Some(
                        replay(
                            before,
                            due_calls(
                                old(self).held(),
                                old(self).input().pending(),
                                old(self).input().is_closed(),
                            ),
                        ),
                    )
                },
                Err(_) => exists|n: int|
                    1 <= n <= due_calls(
                        old(self).held(),
                        old(self).input().pending(),
                        old(self).input().is_closed(),
                    ).len() && final(self).calls() == old(self).calls() + #[trigger] due_calls(
                        old(self).held(),
                        old(self).input().pending(),
                        old(self).input().is_closed(),
                    ).take(n),
            },
    {
        let ghost due = due_calls(
            old(self).held(),
            old(self).input().pending(),
            old(self).input().is_closed(),
        );
        let ghost mut done: int = 0;
        assert(due.take(0) =~= Seq::<SinkCall>::empty());
        loop
            invariant
                self.wf(),
                !self.aborted(),
                !self.finish_called(),
                0 <= done <= due.len(),
                self.calls() == old(self).calls() + due.take(done),
                old(self).sink().record() matches Some(before) ==> self.sink().record() == Some(
                    replay(before, due.take(done)),
                ),
                due.skip(done) == due_calls(
                    self.held(),
                    self.input().pending(),
                    self.input().is_closed(),
                ),
                self.input().is_closed() == old(self).input().is_closed(),
                due == due_calls(
                    old(self).held(),
                    old(self).input().pending(),
                    old(self).input().is_closed(),
                ),
            decreases
                    (if self.input().pending() is Some {
                        2int
                    } else {
                        0int
                    }) + (if self.held() is Some {
                        1int
                    } else {
                        0int
                    }) + (if self.input().is_closed() {
                        1int
                    } else {
                        0int
                    }),
        {
            if self.state() == ProcessorState::NeedData {
                if !self.input.has_data() {
                    proof {
                        assert(due.skip(done).len() == 0);
                        assert(due.take(done) =~= due);
                    }
                    return Ok(ProcessorState::NeedData);
                }
                self.pull_input();
                assert(due_calls(self.held(), self.input().pending(), self.input().is_closed())
                    =~= due.skip(done));
            } else {
                let ghost before = *self;
                let r = self.process();
                proof {
                    assert(due.skip(done).len() > 0);
                    assert(self.calls() == before.calls().push(due.skip(done)[0]));
                    assert(due.take(done + 1) =~= due.take(done).push(due[done]));
                    assert(due.take(done + 1).drop_last() =~= due.take(done));
                    assert(due.skip(done + 1) =~= due.skip(done).skip(1));
                    done = done + 1;
                    assert(self.calls() =~= old(self).calls() + due.take(done));
                }
                match r {
                    Ok(()) => {
                        if self.called_on_finish {
                            proof {
                                assert(due.skip(done).len() == 0);
                                assert(due.take(done) =~= due);
                            }
                            return Ok(ProcessorState::Finished);
                        }
                        assert(due_calls(
                            self.held(),
                            self.input().pending(),
                            self.input().is_closed(),
                        ) =~= due.skip(done));
                    },
                    Err(e) => {
                        return Err(e);
                    },
                }
            }
        }
    }
}

/// The batches of one `consume` call for each of `blocks` are `blocks`.
pub proof fn lemma_consumes_hold_their_blocks(blocks: Seq<DataBlock>)
    ensures
        consumed_blocks(consumes(blocks)) == blocks,
        consumed_blocks(consumes(blocks).push(SinkCall::Finish)) == blocks,
    decreases blocks.len(),
{
    let calls = consumes(blocks);
    if blocks.len() > 0 {
        lemma_consumes_hold_their_blocks(blocks.drop_last());
        assert(calls.drop_last() =~= consumes(blocks.drop_last()));
        assert(consumed_blocks(calls) =~= blocks);
    } else {
        assert(consumed_blocks(calls) =~= blocks);
    }
    assert(calls.push(SinkCall::Finish).drop_last() =~= calls);
}

/// A run of `consume` calls holds no call of `on_finish` and one batch for each call.
proof fn lemma_only_consumes(calls: Seq<SinkCall>)
    requires
        forall|i: int| 0 <= i < calls.len() ==> (#[trigger] calls[i]) is Consume,
    ensures
        finish_calls(calls) == 0,
        consumed_blocks(calls).len() == calls.len(),
    decreases calls.len(),
{
    if calls.len() > 0 {
        let head = calls.drop_last();
        assert forall|i: int| 0 <= i < head.len() implies (#[trigger] head[i]) is Consume by {
            assert(head[i] == calls[i]);
        }
        lemma_only_consumes(head);
    }
}

/// Whatever batches arrive, and also when none arrives, a driver calls
/// `on_finish` at most once and after every `consume`; a driver that has
/// finished without a failure of its sink has called it exactly once.
pub proof fn lemma_finish_exactly_once<T: Sink>(sinker: Sinker<T>)
    requires
        sinker.wf(),
    ensures
        finish_calls(sinker.calls()) == if sinker.finish_called() {
            1nat
        } else {
            0nat
        },
        sinker.state() == ProcessorState::Finished && !sinker.aborted() ==> finish_calls(
            sinker.calls(),
        ) == 1,
        sinker.finish_called() ==> sinker.calls().last() is Finish && consumed_blocks(
            sinker.calls(),
        ).len() == sinker.calls().len() - 1,
        !sinker.finish_called() ==> consumed_blocks(sinker.calls()).len() == sinker.calls().len(),
{
    let calls = sinker.calls();
    if sinker.finish_called() {
        let head = calls.drop_last();
        assert forall|i: int| 0 <= i < head.len() implies (#[trigger] head[i]) is Consume by {
            assert(head[i] == calls[i]);
        }
        lemma_only_consumes(head);
    } else {
        lemma_only_consumes(calls);
    }
}


impl<T: Sink> Sinker<T> {
    /// What a sink needs between calls holds of the sink of a well-formed driver.
    pub proof fn lemma_sink_inv(&self)
        requires
            self.wf(),
        ensures
            self.sink().inv(),
    {
    }

    /// Drives a whole stream through a driver that waits for its first
    /// batch: places each of `blocks` on the input and drains it, then ends
    /// the input and drains once more. When no call fails, the sink has
    /// been given `blocks` in their order by one `consume` each, and was
    /// then finished, once; this holds for no batch at all, too.
    pub fn consume_stream(&mut self, blocks: Vec<DataBlock>) -> (r: Result<(), ErrorCode>)
        requires
            old(self).wf(),
            old(self).state() == ProcessorState::NeedData,
            old(self).input().can_push(),
        ensures
            final(self).wf(),
            r is Err <==> final(self).aborted(),
            old(self).sink().record() is Some ==> final(self).sink().record() is Some,
            match r {
                Ok(()) => {
                    &&& final(self).state() == ProcessorState::Finished
                    &&& final(self).finish_called()
                    &&& final(self).calls() == old(self).calls() + consumes(blocks@).push(
                        SinkCall::Finish,
                    )
                    &&& old(self).sink().record() matches Some(before) ==> final(self).sink().record() == Some(
                        SinkRecord {
                            taken: before.taken + blocks@,
                            flushed: before.flushed.push(before.taken + blocks@),
                        },
                    )
                },
                Err(_) => exists|n: int|
                    1 <= n <= blocks@.len() + 1 && final(self).calls() == old(self).calls()
                        + #[trigger] consumes(blocks@).push(SinkCall::Finish).take(n),
            },
    {
        let ghost whole = consumes(blocks@).push(SinkCall::Finish);
        proof {
            assert(consumes(blocks@.take(0)) =~= Seq::<SinkCall>::empty());
            assert(self.calls() + consumes(blocks@.take(0)) =~= self.calls());
            if self.sink().record() is Some {
                assert(self.sink().record()->0.taken + blocks@.take(0) =~= self.sink().record()->0.taken);
            }
        }
        for block in iter: blocks
            invariant
                self.wf(),
                self.state() == ProcessorState::NeedData,
                self.input().can_push(),
                iter.seq() == blocks@,
                whole == consumes(blocks@).push(SinkCall::Finish),
                self.calls() == old(self).calls() + consumes(blocks@.take(iter.index() as int)),
                old(self).sink().record() is Some ==> self.sink().record() is Some,
                old(self).sink().record() matches Some(before) ==> self.sink().record() == Some(
                    SinkRecord {
                        taken: before.taken + blocks@.take(iter.index() as int),
                        flushed: before.flushed,
                    },
                ),
        {
            let ghost index = iter.index() as int;
            let ghost earlier = self.sink().record();
            self.push_input(block);
            let drained = self.drain();
            proof {
                reveal_with_fuel(replay, 3);
                let due = due_calls(None, Some(block), false);
                assert(due =~= seq![SinkCall::Consume(block)]);
                assert(due.drop_last() =~= Seq::<SinkCall>::empty());
                assert(blocks@.take(index + 1) =~= blocks@.take(index).push(block));
                assert(consumes(blocks@.take(index + 1)) =~= consumes(blocks@.take(index)).push(
                    SinkCall::Consume(block),
                ));
                assert(whole.take(index + 1) =~= consumes(blocks@.take(index + 1)));
                if drained is Ok {
                    assert(self.calls() =~= old(self).calls() + consumes(blocks@.take(index + 1)));
                    if old(self).sink().record() is Some {
                        let before = old(self).sink().record()->0;
                        assert(before.taken + blocks@.take(index + 1) =~= (before.taken
                            + blocks@.take(index)).push(block));
                    }
                } else {
                    assert(due.take(1) =~= due);
                    assert(self.calls() =~= old(self).calls() + whole.take(index + 1));
                }
            }
            match drained {
                Ok(_) => {},
                Err(e) => {
                    return Err(e);
                },
            }
        }
        let ghost count = blocks@.len() as int;
        assert(blocks@.take(count) =~= blocks@);
        self.finish_input();
        let drained = self.drain();
        proof {
            reveal_with_fuel(replay, 3);
            let due = due_calls(None, None, true);
            assert(due =~= seq![SinkCall::Finish]);
            assert(due.drop_last() =~= Seq::<SinkCall>::empty());
            assert(whole.take(count + 1) =~= whole);
            if drained is Ok {
                assert(self.calls() =~= old(self).calls() + whole);
            } else {
                assert(due.take(1) =~= due);
                assert(self.calls() =~= old(self).calls() + whole.take(count + 1));
            }
        }
        match drained {
            Ok(_) => Ok(()),
            Err(e) => Err(e),
        }
    }
}

} // verus!
