use dataflow_core::column::Column;
use dataflow_core::column::NumberColumn;
use dataflow_core::datablock::DataBlock;
use dataflow_core::error::ErrorCode;
use dataflow_core::pipeline::Pipeline;
use dataflow_core::port::Port;
use dataflow_core::processor::ProcessorState;
use dataflow_core::transform::Transformer;

fn numbers(values: Vec<i64>) -> DataBlock {
    let rows = values.len();
    DataBlock::create(vec![Column::Number(NumberColumn::Int64(values))], rows).unwrap()
}

fn values_of(block: &DataBlock) -> Vec<i64> {
    match block.column(0) {
        Column::Number(NumberColumn::Int64(values)) => values.clone(),
        _ => panic!("not a column of 64-bit integers"),
    }
}

fn times(factor: i64) -> impl Fn(DataBlock) -> Result<DataBlock, ErrorCode> {
    move |block: DataBlock| {
        if factor == 0 {
            return Err(ErrorCode::UnexpectedError("factor is zero"));
        }
        Ok(numbers(values_of(&block).into_iter().map(|v| v * factor).collect()))
    }
}

fn chain(factors: &[i64]) -> Pipeline<impl Fn(DataBlock) -> Result<DataBlock, ErrorCode>> {
    let mut pipeline = Pipeline::new();
    for factor in factors {
        pipeline.add_transform(times(*factor));
    }
    pipeline
}

#[test]
fn batches_leave_a_chain_in_the_order_they_entered() {
    let mut pipeline = chain(&[2, 3, 5]);
    assert_eq!(pipeline.num_stages(), 3);
    let inputs = vec![numbers(vec![1]), numbers(vec![2, 3]), numbers(vec![]), numbers(vec![4])];
    let outputs = pipeline.execute(inputs).unwrap();
    let seen: Vec<Vec<i64>> = outputs.iter().map(values_of).collect();
    assert_eq!(seen, vec![vec![30], vec![60, 90], vec![], vec![120]]);
    assert!(pipeline.output_finished());
}

#[test]
fn pipeline_without_stages_hands_batches_through() {
    let mut pipeline = chain(&[]);
    let outputs = pipeline.execute(vec![numbers(vec![8]), numbers(vec![9])]).unwrap();
    assert_eq!(outputs, vec![numbers(vec![8]), numbers(vec![9])]);
    assert!(pipeline.output_finished());
}

#[test]
fn empty_stream_finishes_the_output() {
    let mut pipeline = chain(&[7, 7]);
    let outputs = pipeline.execute(vec![]).unwrap();
    assert!(outputs.is_empty());
    assert!(pipeline.output_finished());
}

#[test]
fn full_ports_hold_batches_back_until_the_output_is_polled() {
    let mut pipeline = chain(&[10, 10]);
    let mut fed = 0i64;
    let mut polled = vec![];
    // Feed as long as the pipeline takes batches without anyone polling.
    loop {
        pipeline.run().unwrap();
        if !pipeline.can_feed() {
            break;
        }
        fed += 1;
        pipeline.feed(numbers(vec![fed]));
    }
    // Three ports and two stages hold one batch each.
    assert_eq!(fed, 5);
    assert_eq!(pipeline.run(), Ok(()));
    assert_eq!(pipeline.step_stage(0), Ok(false));
    assert_eq!(pipeline.step_stage(1), Ok(false));
    pipeline.finish_input();
    loop {
        pipeline.run().unwrap();
        match pipeline.poll_output() {
            Some(block) => polled.push(values_of(&block)),
            None => break,
        }
    }
    assert_eq!(polled, vec![vec![100], vec![200], vec![300], vec![400], vec![500]]);
    assert!(pipeline.output_finished());
}

#[test]
fn stages_may_be_stepped_in_any_order() {
    let mut pipeline = chain(&[1, -1]);
    pipeline.feed(numbers(vec![1]));
    // The second stage has nothing to do before the first has run.
    assert_eq!(pipeline.step_stage(1), Ok(false));
    assert_eq!(pipeline.step_stage(0), Ok(true));
    pipeline.feed(numbers(vec![2]));
    assert_eq!(pipeline.step_stage(0), Ok(true));
    assert_eq!(pipeline.step_stage(0), Ok(true));
    assert_eq!(pipeline.step_stage(1), Ok(true));
    assert_eq!(pipeline.step_stage(0), Ok(true));
    assert_eq!(pipeline.step_stage(1), Ok(true));
    assert_eq!(pipeline.poll_output(), Some(numbers(vec![-1])));
    pipeline.finish_input();
    pipeline.run().unwrap();
    assert!(!pipeline.output_finished());
    assert_eq!(pipeline.poll_output(), Some(numbers(vec![-2])));
    assert!(pipeline.output_finished());
    assert_eq!(pipeline.poll_output(), None);
}

#[test]
fn failure_of_a_stage_halts_the_run() {
    let mut pipeline = chain(&[2, 0, 2]);
    let result = pipeline.execute(vec![numbers(vec![1]), numbers(vec![2])]);
    assert_eq!(result, Err(ErrorCode::UnexpectedError("factor is zero")));
    assert_eq!(pipeline.poll_output(), None);
}

#[test]
fn transformer_moves_through_its_states() {
    let mut input = Port::new();
    let mut output = Port::new();
    let mut stage = Transformer::create(times(3));
    assert_eq!(stage.state(), ProcessorState::NeedData);
    stage.pull_input(&mut input, &mut output);
    assert_eq!(stage.state(), ProcessorState::NeedData);
    input.push(numbers(vec![2]));
    input.finish();
    stage.pull_input(&mut input, &mut output);
    assert_eq!(stage.state(), ProcessorState::Ready);
    assert!(!input.has_data());
    assert_eq!(stage.process(&mut output), Ok(()));
    assert_eq!(stage.state(), ProcessorState::NeedData);
    assert!(!output.is_finished());
    stage.pull_input(&mut input, &mut output);
    assert_eq!(stage.state(), ProcessorState::Finished);
    assert_eq!(output.pull(), Some(numbers(vec![6])));
    assert!(output.is_finished());
}

#[test]
fn failing_transformer_finishes_and_leaves_the_output_alone() {
    let mut input = Port::new();
    let mut output = Port::new();
    let mut stage = Transformer::create(times(0));
    input.push(numbers(vec![2]));
    stage.pull_input(&mut input, &mut output);
    assert_eq!(stage.process(&mut output), Err(ErrorCode::UnexpectedError("factor is zero")));
    assert_eq!(stage.state(), ProcessorState::Finished);
    assert!(!output.has_data());
}

#[test]
fn cancelled_pipeline_ends_every_port_and_transforms_nothing() {
    let mut pipeline = chain(&[2, 2]);
    pipeline.feed(numbers(vec![1]));
    assert_eq!(pipeline.step_stage(0), Ok(true));
    pipeline.feed(numbers(vec![2]));
    pipeline.cancel();
    assert!(!pipeline.can_feed());
    assert_eq!(pipeline.poll_output(), None);
    assert!(pipeline.output_finished());
}

#[test]
fn cancelled_transformer_lets_go_of_its_batch() {
    let mut input = Port::new();
    let mut output = Port::new();
    let mut stage = Transformer::create(times(3));
    input.push(numbers(vec![2]));
    stage.pull_input(&mut input, &mut output);
    assert_eq!(stage.state(), ProcessorState::Ready);
    stage.cancel();
    assert_eq!(stage.state(), ProcessorState::Finished);
    assert!(!output.has_data());
}

#[test]
fn pipeline_whose_stages_never_fail_never_fails() {
    let mut none = chain(&[]);
    assert_eq!(none.run(), Ok(()));
    assert_eq!(none.execute(vec![numbers(vec![1])]), Ok(vec![numbers(vec![1])]));
    let mut some = chain(&[1, 1, 1]);
    assert_eq!(some.run(), Ok(()));
    assert_eq!(some.execute(vec![]), Ok(vec![]));
}

#[test]
fn failure_is_the_error_of_the_failing_stage() {
    let mut pipeline = chain(&[3, 0]);
    pipeline.feed(numbers(vec![1]));
    assert_eq!(pipeline.step_stage(0), Ok(true));
    assert_eq!(pipeline.step_stage(0), Ok(true));
    assert_eq!(pipeline.step_stage(1), Ok(true));
    assert_eq!(pipeline.step_stage(1), Err(ErrorCode::UnexpectedError("factor is zero")));
}
