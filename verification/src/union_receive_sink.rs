//! The sink that gathers the whole output of one pipeline and hands it, as a
//! single batch, to another pipeline over a channel.

use vstd::prelude::*;
use crate::datablock::concat_views;
use crate::datablock::same_schema;
use crate::datablock::total_rows;
use crate::datablock::views_of;
use crate::datablock::DataBlock;
use crate::error::ErrorCode;
use crate::port::Port;
use crate::sink::Sink;
use crate::sink::consumed_blocks;
use crate::sink::consumes;
use crate::sink::finish_calls;
use crate::sink::lemma_consumes_hold_their_blocks;
use crate::sink::lemma_finish_exactly_once;
use crate::sink::SinkCall;
use crate::sink::SinkRecord;
use crate::sink::Sinker;

verus! {

/// `tokio::sync::mpsc::Sender`, the sending half of a bounded channel. It is
/// carried along and handed to `try_send`; nothing is known of its inside.
#[verifier::external_type_specification]
#[verifier::external_body]
#[verifier::reject_recursive_types(T)]
pub struct ExSender<T>(tokio::sync::mpsc::Sender<T>);

/// How an attempt to send without waiting ended.
#[derive(Debug, Clone, Copy, PartialEq, Eq, Structural)]
pub enum TrySendOutcome {
    /// The message is in the channel.
    Sent,
    /// The channel holds as many messages as it has room for.
    Full,
    /// The receiving side is closed or gone.
    Closed,
}

/// Calls `tokio::sync::mpsc::Sender::try_send` and reports which of its three
/// outcomes occurred. Nothing is claimed about which one does: that depends
/// on the receiving side.
#[verifier::external_body]
fn try_send(sender: &tokio::sync::mpsc::Sender<Option<DataBlock>>, message: Option<DataBlock>) -> (r:
    TrySendOutcome) {
    match sender.try_send(message) {
        Ok(()) => TrySendOutcome::Sent,
        Err(tokio::sync::mpsc::error::TrySendError::Full(_)) => TrySendOutcome::Full,
        Err(tokio::sync::mpsc::error::TrySendError::Closed(_)) => TrySendOutcome::Closed,
    }
}

/// The message that stands for the gathered batches: nothing when no batch
/// was gathered, their concatenation otherwise. Refused when the batches
/// cannot be concatenated.
pub fn gathered_message(blocks: &[DataBlock]) -> (r: Result<Option<DataBlock>, ErrorCode>)
    ensures
        blocks@.len() == 0 ==> r == Ok::<Option<DataBlock>, ErrorCode>(None),
        blocks@.len() > 0 ==> match r {
            Ok(message) => {
                &&& same_schema(views_of(blocks@))
                &&& total_rows(views_of(blocks@)) <= usize::MAX
                &&& message matches Some(block)
                &&& block.wf()
                &&& block@ == concat_views(views_of(blocks@))
            },
            Err(e) => if !same_schema(views_of(blocks@)) {
                e == ErrorCode::DataStructMissMatch("Schema not matched")
            } else {
                total_rows(views_of(blocks@)) > usize::MAX && e == ErrorCode::UnexpectedError(
                    "Too many rows to concat",
                )
            },
        },
{
    if blocks.len() == 0 {
        Ok(None)
    } else {
        match DataBlock::concat_blocks(blocks) {
            Ok(block) => Ok(Some(block)),
            Err(e) => Err(e),
        }
    }
}

/// What the sink answers for an outcome of the send: success when the
/// message went out, and one and the same error whether the channel was full
/// or closed.
pub open spec fn send_result_of(outcome: TrySendOutcome) -> Result<(), ErrorCode> {
    match outcome {
        TrySendOutcome::Sent => Ok(()),
        _ => Err(ErrorCode::UnexpectedError("UnionReceiveSink sender failed")),
    }
}

/// What the sink answers for an outcome of the send.
pub fn send_result(outcome: TrySendOutcome) -> (r: Result<(), ErrorCode>)
    ensures
        r == send_result_of(outcome),
{
    match outcome {
        TrySendOutcome::Sent => Ok(()),
        _ => Err(ErrorCode::UnexpectedError("UnionReceiveSink sender failed")),
    }
}

/// Gathers every batch it consumes and, on finish, sends them as one message.
pub struct UnionReceiveSink {
    input_blocks: Vec<DataBlock>,
    sender: tokio::sync::mpsc::Sender<Option<DataBlock>>,
    // For every message handed to the channel: the batches it was made of, and the message.
    log: Ghost<Seq<(Seq<DataBlock>, Option<DataBlock>)>>,
}

/// Whether `message` is the one that stands for `blocks`: nothing for no
/// batch, their concatenation otherwise.
pub open spec fn message_fits(blocks: Seq<DataBlock>, message: Option<DataBlock>) -> bool {
    if blocks.len() == 0 {
        message is None
    } else {
        message matches Some(block) && block.wf() && block@ == concat_views(views_of(blocks))
    }
}

impl UnionReceiveSink {
    /// The batches gathered so far, in the order of their arrival.
    pub closed spec fn gathered(&self) -> Seq<DataBlock> {
        self.input_blocks@
    }

    /// The messages handed to the channel so far, whether it took them or not.
    pub closed spec fn offered(&self) -> Seq<Option<DataBlock>> {
        Seq::new(self.log@.len(), |i: int| self.log@[i].1)
    }

    /// For every message handed to the channel, the batches that had been
    /// gathered when it was made.
    pub closed spec fn flushed(&self) -> Seq<Seq<DataBlock>> {
        Seq::new(self.log@.len(), |i: int| self.log@[i].0)
    }

    /// Every message handed to the channel stood for the batches gathered by then.
    pub closed spec fn consistent(&self) -> bool {
        forall|i: int|
            0 <= i < self.log@.len() ==> message_fits((#[trigger] self.log@[i]).0, self.log@[i].1)
    }

    /// One message was handed over for each flush, and it stood for the
    /// batches that were flushed.
    pub proof fn lemma_offered_fits(&self, i: int)
        requires
            self.inv(),
            0 <= i < self.flushed().len(),
        ensures
            self.offered().len() == self.flushed().len(),
            message_fits(self.flushed()[i], self.offered()[i]),
    {
        assert(message_fits(self.log@[i].0, self.log@[i].1));
    }

    /// A sink that was given `blocks` and then finished, once, has handed the
    /// channel one message, the one that stands for `blocks`; a sink that
    /// was not yet finished has handed it none.
    pub proof fn lemma_one_message_for_a_stream(&self, blocks: Seq<DataBlock>)
        requires
            self.inv(),
            self.record() matches Some(record) && record.taken == blocks && (record.flushed
                == Seq::<Seq<DataBlock>>::empty() || record.flushed == seq![blocks]),
        ensures
            self.flushed().len() == 0 ==> self.offered().len() == 0,
            self.flushed().len() == 1 ==> self.offered().len() == 1 && message_fits(
                blocks,
                self.offered()[0],
            ),
    {
        if self.flushed().len() == 1 {
            self.lemma_offered_fits(0);
            assert(self.flushed()[0] == seq![blocks][0]);
        }
    }

    /// The processor that drains `input` into a sink that sends on `sender`.
    pub fn create(sender: tokio::sync::mpsc::Sender<Option<DataBlock>>, input: Port) -> (r: Sinker<
        UnionReceiveSink,
    >)
        ensures
            r.wf(),
            r.sink().gathered() == Seq::<DataBlock>::empty(),
            r.sink().offered() == Seq::<Option<DataBlock>>::empty(),
            r.sink().flushed() == Seq::<Seq<DataBlock>>::empty(),
            r.calls() == Seq::<SinkCall>::empty(),
            r.input() == input,
            r.held() is None,
            !r.finish_called(),
            !r.aborted(),
    {
        let sink = UnionReceiveSink { input_blocks: Vec::new(), sender, log: Ghost(Seq::empty()) };
        assert(sink.offered() =~= Seq::<Option<DataBlock>>::empty());
        assert(sink.flushed() =~= Seq::<Seq<DataBlock>>::empty());
        Sinker::create(
            input,
            sink,
        )
    }
}

impl Sink for UnionReceiveSink {
    const NAME: &'static str = "UnionReceiveSink";

    open spec fn inv(&self) -> bool {
        self.consistent()
    }

    open spec fn record(&self) -> Option<SinkRecord> {
        Some(SinkRecord { taken: self.gathered(), flushed: self.flushed() })
    }

    /// Hands the channel one message: the concatenation of the gathered
    /// batches, or the message that stands for no rows when none was
    /// gathered. Fails without handing anything over when the batches cannot
    /// be concatenated, and with the send error when the channel did not
    /// take the message.
    fn on_finish(&mut self) -> (r: Result<(), ErrorCode>)
        ensures
            final(self).gathered() == old(self).gathered(),
            if old(self).gathered().len() == 0 {
                &&& final(self).offered() == old(self).offered().push(None)
                &&& final(self).flushed() == old(self).flushed().push(old(self).gathered())
                &&& r is Ok || r == send_result_of(TrySendOutcome::Closed)
            } else if !same_schema(views_of(old(self).gathered())) {
                &&& final(self).offered() == old(self).offered()
                &&& final(self).flushed() == old(self).flushed()
                &&& r == Err::<(), ErrorCode>(ErrorCode::DataStructMissMatch("Schema not matched"))
            } else if total_rows(views_of(old(self).gathered())) > usize::MAX {
                &&& final(self).offered() == old(self).offered()
                &&& final(self).flushed() == old(self).flushed()
                &&& r == Err::<(), ErrorCode>(ErrorCode::UnexpectedError("Too many rows to concat"))
            } else {
                &&& final(self).offered().len() == old(self).offered().len() + 1
                &&& final(self).offered().drop_last() == old(self).offered()
                &&& final(self).offered().last() matches Some(block)
                &&& block.wf()
                &&& block@ == concat_views(views_of(old(self).gathered()))
                &&& final(self).flushed() == old(self).flushed().push(old(self).gathered())
                &&& r is Ok || r == send_result_of(TrySendOutcome::Closed)
            },
    {
        let send_blocks = match gathered_message(self.input_blocks.as_slice()) {
            Ok(message) => message,
            Err(e) => {
                return Err(e);
            },
        };
        self.log = Ghost(self.log@.push((self.input_blocks@, send_blocks)));
        proof {
            assert(self.offered() =~= old(self).offered().push(send_blocks));
            assert(self.offered().drop_last() =~= old(self).offered());
            assert(self.flushed() =~= old(self).flushed().push(old(self).gathered()));
        }
        send_result(try_send(&self.sender, send_blocks))
    }

    /// Adds the batch to those gathered. Never fails.
    fn consume(&mut self, data_block: DataBlock) -> (r: Result<(), ErrorCode>)
        ensures
            r is Ok,
            final(self).gathered() == old(self).gathered().push(data_block),
            final(self).offered() == old(self).offered(),
            final(self).flushed() == old(self).flushed(),
    {
        self.input_blocks.push(data_block);
        Ok(())
    }
}


/// A whole stream through the processor: when the processor that `create`
/// made has been given the batches `blocks` and its input has then
/// ended, and no call failed, then `consume` was called once for each batch,
/// in order, `on_finish` was called once, after them, and the channel was
/// handed one message, the one that stands for `blocks`. This holds for a
/// stream without batches, too.
pub proof fn lemma_stream_is_sent_once(
    created: Sinker<UnionReceiveSink>,
    finished: Sinker<UnionReceiveSink>,
    blocks: Seq<DataBlock>,
)
    requires
        created.calls() == Seq::<SinkCall>::empty(),
        created.sink().gathered() == Seq::<DataBlock>::empty(),
        created.sink().flushed() == Seq::<Seq<DataBlock>>::empty(),
        finished.wf(),
        finished.finish_called(),
        finished.calls() == created.calls() + consumes(blocks).push(SinkCall::Finish),
        finished.sink().record() == Some(
            SinkRecord {
                taken: created.sink().gathered() + blocks,
                flushed: created.sink().flushed().push(created.sink().gathered() + blocks),
            },
        ),
    ensures
        finish_calls(finished.calls()) == 1,
        finished.calls().last() is Finish,
        consumed_blocks(finished.calls()) == blocks,
        finished.sink().gathered() == blocks,
        finished.sink().offered().len() == 1,
        message_fits(blocks, finished.sink().offered()[0]),
{
    lemma_finish_exactly_once(finished);
    lemma_consumes_hold_their_blocks(blocks);
    assert(finished.calls() =~= consumes(blocks).push(SinkCall::Finish));
    assert(created.sink().gathered() + blocks =~= blocks);
    finished.lemma_sink_inv();
    assert(finished.sink().flushed() =~= seq![blocks]);
    finished.sink().lemma_one_message_for_a_stream(blocks);
}

} // verus!
