use dataflow_core::column::Column;
use dataflow_core::column::NumberColumn;
use dataflow_core::datablock::DataBlock;
use dataflow_core::port::Full;
use dataflow_core::port::Port;
use dataflow_core::port::PortState;

fn numbers(values: Vec<u32>) -> DataBlock {
    let rows = values.len();
    DataBlock::create(vec![Column::Number(NumberColumn::UInt32(values))], rows).unwrap()
}

#[test]
fn new_port_is_empty_and_open() {
    let port = Port::new();
    assert_eq!(port.state(), PortState::Empty);
    assert!(port.can_push());
    assert!(!port.has_data());
    assert!(!port.is_finished());
}

#[test]
fn second_push_before_drain_is_refused() {
    let mut port = Port::new();
    assert_eq!(port.try_push(numbers(vec![1])), Ok(()));
    assert_eq!(port.state(), PortState::HasData);
    assert!(!port.can_push());
    assert_eq!(port.try_push(numbers(vec![2])), Err(Full {}));
    assert_eq!(port.pull(), Some(numbers(vec![1])));
    assert_eq!(port.pull(), None);
    assert_eq!(port.try_push(numbers(vec![3])), Ok(()));
    assert_eq!(port.pull(), Some(numbers(vec![3])));
}

#[test]
fn push_then_pull_hands_over_the_batch() {
    let mut port = Port::new();
    port.push(numbers(vec![4, 5]));
    assert!(port.has_data());
    assert_eq!(port.pull(), Some(numbers(vec![4, 5])));
    assert_eq!(port.state(), PortState::Empty);
}

#[test]
fn finish_is_seen_only_after_the_last_batch_is_pulled() {
    let mut port = Port::new();
    port.push(numbers(vec![9]));
    port.finish();
    assert_eq!(port.state(), PortState::HasData);
    assert!(!port.is_finished());
    assert_eq!(port.pull(), Some(numbers(vec![9])));
    assert_eq!(port.state(), PortState::Finished);
    assert!(port.is_finished());
    assert_eq!(port.pull(), None);
}

#[test]
fn finished_port_refuses_a_push() {
    let mut port = Port::new();
    port.finish();
    assert!(!port.can_push());
    assert_eq!(port.try_push(numbers(vec![1])), Err(Full {}));
    assert_eq!(port.state(), PortState::Finished);
}
