use dataflow_core::column::Column;
use dataflow_core::column::DataType;
use dataflow_core::column::NullableColumn;
use dataflow_core::column::NumberColumn;
use dataflow_core::column::NumberDataType;
use dataflow_core::column::StringColumn;
use dataflow_core::datablock::DataBlock;
use dataflow_core::error::ErrorCode;

fn strings(values: &[&str]) -> StringColumn {
    let rows: Vec<Vec<u8>> = values.iter().map(|v| v.as_bytes().to_vec()).collect();
    StringColumn::from_data(&rows)
}

fn two_columns(numbers: Vec<u16>, names: &[&str]) -> DataBlock {
    let rows = numbers.len();
    DataBlock::create(
        vec![Column::Number(NumberColumn::UInt16(numbers)), Column::String(strings(names))],
        rows,
    )
    .unwrap()
}

#[test]
fn string_column_keeps_rows_apart() {
    let mut column = StringColumn::new();
    assert_eq!(column.len(), 0);
    column.push(b"ab");
    column.push(b"");
    column.push(b"c");
    assert_eq!(column.len(), 3);
    assert_eq!(column.index(0), b"ab");
    assert_eq!(column.index(1), b"");
    assert_eq!(column.index(2), b"c");
    assert_eq!(column, strings(&["ab", "", "c"]));
    assert_ne!(column, strings(&["a", "b", "c"]));
}

#[test]
fn string_iterator_walks_once_in_row_order() {
    let column = strings(&["x", "yz"]);
    let mut iter = column.iter();
    assert_eq!(iter.len(), 2);
    assert_eq!(iter.next(), Some(&b"x"[..]));
    assert_eq!(iter.len(), 1);
    assert_eq!(iter.next(), Some(&b"yz"[..]));
    assert_eq!(iter.next(), None);
    assert_eq!(iter.next(), None);
    let mut again = column.iter();
    assert_eq!(again.next(), Some(&b"x"[..]));
}

#[test]
fn string_column_append_adds_rows_behind() {
    let mut column = strings(&["a"]);
    column.append(&strings(&["b", "cd"]));
    assert_eq!(column, strings(&["a", "b", "cd"]));
}

#[test]
fn column_reports_type_and_length() {
    let column = Column::Number(NumberColumn::Int16(vec![1, -2, 3]));
    assert_eq!(column.len(), 3);
    assert_eq!(column.data_type(), DataType::Number(NumberDataType::Int16));
    assert_eq!(NumberDataType::Int16.byte_size(), 2);
    assert_eq!(NumberDataType::UInt64.byte_size(), 8);
    let nullable = Column::Nullable(Box::new(
        NullableColumn::new(Column::Variant(strings(&["1", "2"])), vec![true, false]).unwrap(),
    ));
    assert_eq!(nullable.len(), 2);
    assert_eq!(nullable.data_type(), DataType::Nullable(Box::new(DataType::Variant)));
    assert!(nullable.data_type().is_nullable());
    assert!(DataType::Bitmap.is_variable_length());
    assert!(DataType::Boolean.is_fixed_width());
    assert!(!DataType::String.is_fixed_width());
    assert!(DataType::String.equals(&DataType::String));
    assert!(!DataType::String.equals(&DataType::Variant));
}

#[test]
fn nullable_column_checks_its_parts() {
    let short = NullableColumn::new(Column::Boolean(vec![true, false]), vec![true]);
    assert_eq!(
        short,
        Err(ErrorCode::DataStructMissMatch("validity does not fit the column"))
    );
    let inner = NullableColumn::new(Column::Boolean(vec![true]), vec![true]).unwrap();
    let nested = NullableColumn::new(Column::Nullable(Box::new(inner)), vec![true]);
    assert_eq!(
        nested,
        Err(ErrorCode::DataStructMissMatch("validity does not fit the column"))
    );
}

#[test]
fn empty_column_has_the_type_asked_for() {
    let data_type = DataType::Nullable(Box::new(DataType::Number(NumberDataType::UInt32)));
    let column = Column::new_empty(&data_type);
    assert_eq!(column.len(), 0);
    assert_eq!(column.data_type(), data_type);
}

#[test]
fn number_bits_are_twos_complement() {
    assert_eq!(NumberColumn::Int16(vec![-2]).bits_at(0), 0xfffe);
    assert_eq!(NumberColumn::Int32(vec![-1]).bits_at(0), 0xffff_ffff);
    assert_eq!(NumberColumn::UInt32(vec![17]).bits_at(0), 17);
    assert_eq!(NumberColumn::Int64(vec![i64::MIN]).bits_at(0), 1u64 << 63);
}

#[test]
fn block_needs_columns_of_one_length() {
    let block = two_columns(vec![1, 2], &["a", "b"]);
    assert_eq!(block.num_rows(), 2);
    assert_eq!(block.num_columns(), 2);
    assert!(!block.is_empty());
    assert_eq!(block.column(1), &Column::String(strings(&["a", "b"])));
    let uneven = DataBlock::create(
        vec![Column::Boolean(vec![true]), Column::Boolean(vec![true, false])],
        1,
    );
    assert_eq!(
        uneven,
        Err(ErrorCode::DataStructMissMatch("column length differs from the number of rows"))
    );
    let empty = DataBlock::empty();
    assert!(empty.is_empty());
    assert_eq!(empty.num_columns(), 0);
}

#[test]
fn block_without_rows_is_still_typed() {
    let block = two_columns(vec![], &[]);
    assert!(block.is_empty());
    assert_eq!(block.num_columns(), 2);
    assert_eq!(block.column(0).data_type(), DataType::Number(NumberDataType::UInt16));
    assert!(block.same_schema_as(&two_columns(vec![5], &["x"])));
}

#[test]
fn concat_puts_rows_in_order() {
    let blocks = vec![
        two_columns(vec![1, 2], &["a", "bb"]),
        two_columns(vec![], &[]),
        two_columns(vec![3], &["ccc"]),
    ];
    let all = DataBlock::concat_blocks(&blocks).unwrap();
    assert_eq!(all, two_columns(vec![1, 2, 3], &["a", "bb", "ccc"]));
    let one = DataBlock::concat_blocks(&blocks[..1]).unwrap();
    assert_eq!(one, two_columns(vec![1, 2], &["a", "bb"]));
}

#[test]
fn concat_of_nullable_columns_keeps_the_gaps() {
    let block = |values: Vec<u8>, validity: Vec<bool>| {
        let rows = values.len();
        let column = NullableColumn::new(Column::Number(NumberColumn::UInt8(values)), validity);
        DataBlock::create(vec![Column::Nullable(Box::new(column.unwrap()))], rows).unwrap()
    };
    let all = DataBlock::concat_blocks(&[block(vec![1, 0], vec![true, false]), block(vec![2], vec![true])]);
    assert_eq!(all, Ok(block(vec![1, 0, 2], vec![true, false, true])));
}

#[test]
fn concat_of_nothing_is_refused() {
    assert_eq!(
        DataBlock::concat_blocks(&[]),
        Err(ErrorCode::EmptyData("Can't concat empty blocks"))
    );
}

#[test]
fn concat_of_mixed_schemas_is_refused() {
    let numbers = DataBlock::create(vec![Column::Number(NumberColumn::UInt8(vec![1]))], 1).unwrap();
    let wider = DataBlock::create(vec![Column::Number(NumberColumn::UInt16(vec![1]))], 1).unwrap();
    assert!(!numbers.same_schema_as(&wider));
    assert_eq!(
        DataBlock::concat_blocks(&[numbers, wider]),
        Err(ErrorCode::DataStructMissMatch("Schema not matched"))
    );
}

#[test]
fn concat_of_too_many_rows_is_refused() {
    let huge = || DataBlock::create(vec![], usize::MAX).unwrap();
    assert_eq!(
        DataBlock::concat_blocks(&[huge(), huge()]),
        Err(ErrorCode::UnexpectedError("Too many rows to concat"))
    );
}

#[test]
fn error_carries_its_message() {
    assert_eq!(ErrorCode::EmptyData("nothing").message(), "nothing");
    assert_eq!(ErrorCode::UnexpectedError("odd").message(), "odd");
    assert_eq!(ErrorCode::DataStructMissMatch("shape").message(), "shape");
}
