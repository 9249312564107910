use dataflow_core::column::Column;
use dataflow_core::column::NumberColumn;
use dataflow_core::datablock::DataBlock;
use dataflow_core::error::ErrorCode;
use dataflow_core::port::Port;
use dataflow_core::processor::ProcessorState;
use dataflow_core::union_receive_sink::gathered_message;
use dataflow_core::union_receive_sink::send_result;
use dataflow_core::union_receive_sink::TrySendOutcome;
use dataflow_core::union_receive_sink::UnionReceiveSink;

fn block_of(values: Vec<i32>) -> DataBlock {
    let rows = values.len();
    DataBlock::create(vec![Column::Number(NumberColumn::Int32(values))], rows).unwrap()
}

#[test]
fn sink_concatenates_batches_in_arrival_order() {
    let (tx, mut rx) = tokio::sync::mpsc::channel::<Option<DataBlock>>(1);
    let mut sinker = UnionReceiveSink::create(tx, Port::new());
    sinker.push_input(block_of(vec![1, 2]));
    assert_eq!(sinker.drain(), Ok(ProcessorState::NeedData));
    sinker.push_input(block_of(vec![3]));
    assert_eq!(sinker.drain(), Ok(ProcessorState::NeedData));
    sinker.finish_input();
    assert_eq!(sinker.drain(), Ok(ProcessorState::Finished));
    let received = rx.try_recv().unwrap();
    assert_eq!(received, Some(block_of(vec![1, 2, 3])));
}

#[test]
fn sink_without_batches_sends_the_empty_marker() {
    let (tx, mut rx) = tokio::sync::mpsc::channel::<Option<DataBlock>>(1);
    let mut sinker = UnionReceiveSink::create(tx, Port::new());
    sinker.finish_input();
    assert_eq!(sinker.drain(), Ok(ProcessorState::Finished));
    assert_eq!(rx.try_recv().unwrap(), None);
}

#[test]
fn sink_fails_when_the_receiver_is_gone() {
    let (tx, rx) = tokio::sync::mpsc::channel::<Option<DataBlock>>(1);
    drop(rx);
    let mut sinker = UnionReceiveSink::create(tx, Port::new());
    sinker.push_input(block_of(vec![7]));
    sinker.finish_input();
    assert_eq!(
        sinker.drain(),
        Err(ErrorCode::UnexpectedError("UnionReceiveSink sender failed"))
    );
    assert_eq!(sinker.state(), ProcessorState::Finished);
}

#[test]
fn sink_fails_when_the_channel_is_full() {
    let (tx, mut rx) = tokio::sync::mpsc::channel::<Option<DataBlock>>(1);
    tx.try_send(None).unwrap();
    let mut sinker = UnionReceiveSink::create(tx, Port::new());
    sinker.push_input(block_of(vec![7]));
    sinker.finish_input();
    assert_eq!(
        sinker.drain(),
        Err(ErrorCode::UnexpectedError("UnionReceiveSink sender failed"))
    );
    assert_eq!(rx.try_recv().unwrap(), None);
    assert!(rx.try_recv().is_err());
}

#[test]
fn sink_fails_without_sending_when_schemas_differ() {
    let (tx, mut rx) = tokio::sync::mpsc::channel::<Option<DataBlock>>(1);
    let mut sinker = UnionReceiveSink::create(tx, Port::new());
    sinker.push_input(block_of(vec![1]));
    assert_eq!(sinker.drain(), Ok(ProcessorState::NeedData));
    let other = DataBlock::create(vec![Column::Boolean(vec![true])], 1).unwrap();
    sinker.push_input(other);
    sinker.finish_input();
    assert_eq!(sinker.drain(), Err(ErrorCode::DataStructMissMatch("Schema not matched")));
    assert!(rx.try_recv().is_err());
}

#[test]
fn cancelled_union_sink_sends_nothing() {
    let (tx, mut rx) = tokio::sync::mpsc::channel::<Option<DataBlock>>(1);
    let mut sinker = UnionReceiveSink::create(tx, Port::new());
    sinker.push_input(block_of(vec![1]));
    assert_eq!(sinker.drain(), Ok(ProcessorState::NeedData));
    sinker.cancel();
    assert_eq!(sinker.step(), Ok(ProcessorState::Finished));
    assert!(rx.try_recv().is_err());
}

#[test]
fn gathered_message_is_none_or_the_concatenation() {
    assert_eq!(gathered_message(&[]), Ok(None));
    assert_eq!(
        gathered_message(&[block_of(vec![1]), block_of(vec![2])]),
        Ok(Some(block_of(vec![1, 2])))
    );
    assert_eq!(send_result(TrySendOutcome::Sent), Ok(()));
    let failed = Err(ErrorCode::UnexpectedError("UnionReceiveSink sender failed"));
    assert_eq!(send_result(TrySendOutcome::Full), failed);
    assert_eq!(send_result(TrySendOutcome::Closed), failed);
}

#[test]
fn whole_stream_reaches_the_channel_as_one_message() {
    let (tx, mut rx) = tokio::sync::mpsc::channel::<Option<DataBlock>>(4);
    let mut sinker = UnionReceiveSink::create(tx, Port::new());
    let stream = vec![block_of(vec![1]), block_of(vec![]), block_of(vec![2, 3]), block_of(vec![4])];
    assert_eq!(sinker.consume_stream(stream), Ok(()));
    assert_eq!(rx.try_recv().unwrap(), Some(block_of(vec![1, 2, 3, 4])));
    assert!(rx.try_recv().is_err());
}

#[test]
fn nothing_is_sent_before_the_input_has_ended() {
    let (tx, mut rx) = tokio::sync::mpsc::channel::<Option<DataBlock>>(4);
    let mut sinker = UnionReceiveSink::create(tx, Port::new());
    for value in [1, 2, 3] {
        sinker.push_input(block_of(vec![value]));
        assert_eq!(sinker.drain(), Ok(ProcessorState::NeedData));
        assert!(rx.try_recv().is_err());
    }
    sinker.finish_input();
    assert_eq!(sinker.step(), Ok(ProcessorState::Finished));
    assert_eq!(rx.try_recv().unwrap(), Some(block_of(vec![1, 2, 3])));
    assert!(rx.try_recv().is_err());
}

#[test]
fn empty_stream_reaches_the_channel_as_the_empty_marker() {
    let (tx, mut rx) = tokio::sync::mpsc::channel::<Option<DataBlock>>(4);
    let mut sinker = UnionReceiveSink::create(tx, Port::new());
    assert_eq!(sinker.consume_stream(vec![]), Ok(()));
    assert_eq!(rx.try_recv().unwrap(), None);
    assert!(rx.try_recv().is_err());
}
