use dataflow_core::column::Column;
use dataflow_core::column::NumberColumn;
use dataflow_core::datablock::DataBlock;
use dataflow_core::error::ErrorCode;
use dataflow_core::port::Port;
use dataflow_core::processor::ProcessorState;
use dataflow_core::sink::Sink;
use dataflow_core::sink::Sinker;

struct Recording {
    rows_seen: Vec<usize>,
    finishes: usize,
    fail_on_consume: bool,
    fail_on_finish: bool,
}

impl Recording {
    fn new() -> Recording {
        Recording { rows_seen: vec![], finishes: 0, fail_on_consume: false, fail_on_finish: false }
    }
}

impl Sink for Recording {
    const NAME: &'static str = "Recording";

    fn on_finish(&mut self) -> Result<(), ErrorCode> {
        self.finishes += 1;
        if self.fail_on_finish {
            return Err(ErrorCode::UnexpectedError("finish failed"));
        }
        Ok(())
    }

    fn consume(&mut self, data_block: DataBlock) -> Result<(), ErrorCode> {
        self.rows_seen.push(data_block.num_rows());
        if self.fail_on_consume {
            return Err(ErrorCode::UnexpectedError("consume failed"));
        }
        Ok(())
    }
}

fn rows(n: usize) -> DataBlock {
    DataBlock::create(vec![Column::Number(NumberColumn::UInt8(vec![0; n]))], n).unwrap()
}

#[test]
fn sink_name_is_its_constant() {
    assert_eq!(Recording::NAME, "Recording");
}

#[test]
fn on_finish_runs_once_after_three_batches() {
    let mut sinker = Sinker::create(Port::new(), Recording::new());
    for n in [1usize, 2, 3] {
        assert!(sinker.can_push());
        sinker.push_input(rows(n));
        assert_eq!(sinker.drain(), Ok(ProcessorState::NeedData));
    }
    sinker.finish_input();
    assert_eq!(sinker.drain(), Ok(ProcessorState::Finished));
    assert_eq!(sinker.step(), Ok(ProcessorState::Finished));
    assert_eq!(sinker.step(), Ok(ProcessorState::Finished));
    let sink = sinker.into_inner();
    assert_eq!(sink.rows_seen, vec![1, 2, 3]);
    assert_eq!(sink.finishes, 1);
}

#[test]
fn on_finish_runs_once_without_any_batch() {
    let mut sinker = Sinker::create(Port::new(), Recording::new());
    assert_eq!(sinker.state(), ProcessorState::NeedData);
    sinker.finish_input();
    assert_eq!(sinker.state(), ProcessorState::Ready);
    assert_eq!(sinker.step(), Ok(ProcessorState::Finished));
    assert_eq!(sinker.inner().finishes, 1);
    assert_eq!(sinker.step(), Ok(ProcessorState::Finished));
    assert_eq!(sinker.inner().finishes, 1);
    assert!(sinker.inner().rows_seen.is_empty());
}

#[test]
fn steps_follow_need_data_ready_finished() {
    let mut sinker = Sinker::create(Port::new(), Recording::new());
    assert_eq!(sinker.step(), Ok(ProcessorState::NeedData));
    sinker.push_input(rows(4));
    sinker.finish_input();
    assert_eq!(sinker.state(), ProcessorState::NeedData);
    assert_eq!(sinker.step(), Ok(ProcessorState::Ready));
    assert!(sinker.inner().rows_seen.is_empty());
    assert_eq!(sinker.step(), Ok(ProcessorState::Ready));
    assert_eq!(sinker.inner().rows_seen, vec![4]);
    assert_eq!(sinker.inner().finishes, 0);
    assert_eq!(sinker.step(), Ok(ProcessorState::Finished));
    assert_eq!(sinker.inner().finishes, 1);
}

#[test]
fn waiting_batch_is_consumed_before_the_finish() {
    let mut sinker = Sinker::create(Port::new(), Recording::new());
    sinker.push_input(rows(2));
    sinker.finish_input();
    assert_eq!(sinker.drain(), Ok(ProcessorState::Finished));
    assert_eq!(sinker.inner().rows_seen, vec![2]);
    assert_eq!(sinker.inner().finishes, 1);
}

#[test]
fn failing_consume_aborts_without_finish() {
    let mut sink = Recording::new();
    sink.fail_on_consume = true;
    let mut sinker = Sinker::create(Port::new(), sink);
    sinker.push_input(rows(1));
    sinker.finish_input();
    assert_eq!(sinker.drain(), Err(ErrorCode::UnexpectedError("consume failed")));
    assert_eq!(sinker.state(), ProcessorState::Finished);
    assert_eq!(sinker.step(), Ok(ProcessorState::Finished));
    assert_eq!(sinker.inner().finishes, 0);
}

#[test]
fn failing_finish_is_passed_on_and_not_repeated() {
    let mut sink = Recording::new();
    sink.fail_on_finish = true;
    let mut sinker = Sinker::create(Port::new(), sink);
    sinker.finish_input();
    assert_eq!(sinker.step(), Err(ErrorCode::UnexpectedError("finish failed")));
    assert_eq!(sinker.step(), Ok(ProcessorState::Finished));
    assert_eq!(sinker.inner().finishes, 1);
}

#[test]
fn cancelled_sink_is_never_finished() {
    let mut sinker = Sinker::create(Port::new(), Recording::new());
    sinker.push_input(rows(1));
    assert_eq!(sinker.drain(), Ok(ProcessorState::NeedData));
    sinker.push_input(rows(2));
    sinker.cancel();
    assert_eq!(sinker.state(), ProcessorState::Finished);
    assert!(!sinker.can_push());
    assert_eq!(sinker.step(), Ok(ProcessorState::Finished));
    assert_eq!(sinker.inner().rows_seen, vec![1]);
    assert_eq!(sinker.inner().finishes, 0);
}

#[test]
fn whole_stream_is_consumed_in_order_and_finished_once() {
    let mut sinker = Sinker::create(Port::new(), Recording::new());
    assert_eq!(sinker.consume_stream(vec![rows(3), rows(0), rows(5)]), Ok(()));
    assert_eq!(sinker.state(), ProcessorState::Finished);
    assert_eq!(sinker.inner().rows_seen, vec![3, 0, 5]);
    assert_eq!(sinker.inner().finishes, 1);
}

#[test]
fn stream_without_batches_is_finished_once() {
    let mut sinker = Sinker::create(Port::new(), Recording::new());
    assert_eq!(sinker.consume_stream(vec![]), Ok(()));
    assert!(sinker.inner().rows_seen.is_empty());
    assert_eq!(sinker.inner().finishes, 1);
}

#[test]
fn stream_stops_at_the_first_failure() {
    let mut sink = Recording::new();
    sink.fail_on_consume = true;
    let mut sinker = Sinker::create(Port::new(), sink);
    assert_eq!(
        sinker.consume_stream(vec![rows(1), rows(2)]),
        Err(ErrorCode::UnexpectedError("consume failed"))
    );
    assert_eq!(sinker.inner().rows_seen, vec![1]);
    assert_eq!(sinker.inner().finishes, 0);
}

#[test]
fn step_without_work_changes_nothing() {
    let mut sinker = Sinker::create(Port::new(), Recording::new());
    assert_eq!(sinker.step(), Ok(ProcessorState::NeedData));
    assert_eq!(sinker.step(), Ok(ProcessorState::NeedData));
    assert!(sinker.can_push());
    assert!(sinker.inner().rows_seen.is_empty());
    assert_eq!(sinker.inner().finishes, 0);
}
