use std::collections::BTreeMap;

use dataflow_core::column::Column;
use dataflow_core::column::DataType;
use dataflow_core::column::NullableColumn;
use dataflow_core::column::NumberColumn;
use dataflow_core::column::NumberDataType;
use dataflow_core::column::StringColumn;
use dataflow_core::group_by_hash::choose_hash_method;
use dataflow_core::group_by_hash::method_fixed_keys::HashMethodFixedKeys;
use dataflow_core::group_by_hash::method_serializer::HashMethodSerializer;
use dataflow_core::group_by_hash::method_single_string::HashMethodSingleString;
use dataflow_core::group_by_hash::HashMethod;
use dataflow_core::group_by_hash::HashMethodKind;
use dataflow_core::group_by_hash::KeysState;
use dataflow_core::hash::fast_hash;

fn strings(values: &[&str]) -> StringColumn {
    let rows: Vec<Vec<u8>> = values.iter().map(|v| v.as_bytes().to_vec()).collect();
    StringColumn::from_data(&rows)
}

fn string_keys(mut iter: dataflow_core::column::StringIterator<'_>) -> Vec<Vec<u8>> {
    let mut keys = vec![];
    while let Some(key) = iter.next() {
        keys.push(key.to_vec());
    }
    keys
}

fn groups_of<K: Ord + Clone>(keys: &[K]) -> Vec<Vec<usize>> {
    let mut groups: BTreeMap<K, Vec<usize>> = BTreeMap::new();
    for (row, key) in keys.iter().enumerate() {
        groups.entry(key.clone()).or_default().push(row);
    }
    let mut rows: Vec<Vec<usize>> = groups.into_values().collect();
    rows.sort();
    rows
}

#[test]
fn single_string_method_has_its_name() {
    assert_eq!(HashMethodSingleString::default().name(), "SingleString");
    assert_eq!(HashMethodFixedKeys::default().name(), "FixedKeys");
    assert_eq!(HashMethodSerializer::default().name(), "Serializer");
}

#[test]
fn single_string_state_aliases_the_column() {
    let columns = vec![(Column::String(strings(&["a", "b"])), DataType::String)];
    let method = HashMethodSingleString::default();
    let state = method.build_keys_state(&columns, 2).unwrap();
    match state {
        KeysState::Column(column) => assert!(std::ptr::eq(column, &columns[0].0)),
        KeysState::Serialized(_) => panic!("the keys were copied"),
    }
}

#[test]
fn single_string_keys_come_in_row_order() {
    let columns = vec![(Column::String(strings(&["a", "b", "a", "c", "b"])), DataType::String)];
    let method = HashMethodSingleString::default();
    let state = method.build_keys_state(&columns, 5).unwrap();
    let iter = method.build_keys_iter(&state).unwrap();
    assert_eq!(iter.len(), 5);
    let keys = string_keys(iter);
    assert_eq!(keys, vec![b"a".to_vec(), b"b".to_vec(), b"a".to_vec(), b"c".to_vec(), b"b".to_vec()]);
}

#[test]
fn text_column_groups_alike_under_every_eligible_method() {
    let columns = vec![(Column::String(strings(&["a", "b", "a", "c", "b"])), DataType::String)];
    let expected = vec![vec![0, 2], vec![1, 4], vec![3]];

    let single = HashMethodSingleString::default();
    let state = single.build_keys_state(&columns, 5).unwrap();
    let keys = string_keys(single.build_keys_iter(&state).unwrap());
    assert_eq!(groups_of(&keys), expected);
    assert_eq!(keys[0], b"a".to_vec());
    assert_eq!(keys[1], b"b".to_vec());
    assert_eq!(keys[3], b"c".to_vec());

    let serializer = HashMethodSerializer::default();
    let state = serializer.build_keys_state(&columns, 5).unwrap();
    let keys = string_keys(serializer.build_keys_iter(&state).unwrap());
    assert_eq!(groups_of(&keys), expected);
}

#[test]
fn variant_and_bitmap_columns_are_keyed_like_strings() {
    let method = HashMethodSingleString::default();
    let variant = vec![(Column::Variant(strings(&["{}", "[]"])), DataType::Variant)];
    let state = method.build_keys_state(&variant, 2).unwrap();
    assert_eq!(string_keys(method.build_keys_iter(&state).unwrap()), vec![b"{}".to_vec(), b"[]".to_vec()]);
    let bitmap = vec![(Column::Bitmap(strings(&["\u{1}", ""])), DataType::Bitmap)];
    let state = method.build_keys_state(&bitmap, 2).unwrap();
    assert_eq!(string_keys(method.build_keys_iter(&state).unwrap()), vec![vec![1u8], vec![]]);
}

#[test]
fn hashes_are_those_of_the_key_bytes() {
    let columns = vec![(Column::String(strings(&["a", "foobar", "", "a"])), DataType::String)];
    let method = HashMethodSingleString::default();
    let state = method.build_keys_state(&columns, 4).unwrap();
    let (iter, hashes) = method.build_keys_iter_and_hashes(&state).unwrap();
    assert_eq!(string_keys(iter).len(), 4);
    assert_eq!(
        hashes,
        vec![0xaf63dc4c8601ec8c, 0x85944171f73967e8, 0xcbf29ce484222325, 0xaf63dc4c8601ec8c]
    );
}

#[test]
fn fast_hash_is_fnv1a() {
    assert_eq!(fast_hash(b""), 0xcbf29ce484222325);
    assert_eq!(fast_hash(b"a"), 0xaf63dc4c8601ec8c);
    assert_eq!(fast_hash(b"foobar"), 0x85944171f73967e8);
    assert_ne!(fast_hash(b"ab"), fast_hash(b"ba"));
}

#[test]
fn fixed_keys_are_the_words_of_the_values() {
    let columns = vec![(
        Column::Number(NumberColumn::Int8(vec![-1, 0, 1, -128, 127])),
        DataType::Number(NumberDataType::Int8),
    )];
    let method = HashMethodFixedKeys::default();
    let state = method.build_keys_state(&columns, 5).unwrap();
    let mut iter = method.build_keys_iter(&state).unwrap();
    assert_eq!(iter.len(), 5);
    let mut keys = vec![];
    while let Some(key) = iter.next() {
        keys.push(key);
    }
    assert_eq!(keys, vec![255, 0, 1, 128, 127]);
    assert_eq!(iter.next(), None);
}

#[test]
fn fixed_keys_of_wide_and_boolean_columns() {
    let method = HashMethodFixedKeys::default();
    let wide = vec![(
        Column::Number(NumberColumn::Int64(vec![-1, i64::MIN, 5])),
        DataType::Number(NumberDataType::Int64),
    )];
    let state = method.build_keys_state(&wide, 3).unwrap();
    let mut iter = method.build_keys_iter(&state).unwrap();
    assert_eq!(iter.next(), Some(u64::MAX));
    assert_eq!(iter.next(), Some(1u64 << 63));
    assert_eq!(iter.next(), Some(5));
    let flags = vec![(Column::Boolean(vec![true, false]), DataType::Boolean)];
    let state = method.build_keys_state(&flags, 2).unwrap();
    let mut iter = method.build_keys_iter(&state).unwrap();
    assert_eq!(iter.next(), Some(1));
    assert_eq!(iter.next(), Some(0));
    assert_eq!(iter.next(), None);
}

#[test]
fn fixed_key_hashes_are_over_eight_little_endian_bytes() {
    let columns = vec![(
        Column::Number(NumberColumn::UInt16(vec![0x0102, 7])),
        DataType::Number(NumberDataType::UInt16),
    )];
    let method = HashMethodFixedKeys::default();
    let state = method.build_keys_state(&columns, 2).unwrap();
    let (_, hashes) = method.build_keys_iter_and_hashes(&state).unwrap();
    assert_eq!(hashes[0], fast_hash(&[2, 1, 0, 0, 0, 0, 0, 0]));
    assert_eq!(hashes[1], fast_hash(&[7, 0, 0, 0, 0, 0, 0, 0]));
}

#[test]
fn numeric_column_groups_alike_under_fixed_keys_and_serializer() {
    let columns = vec![(
        Column::Number(NumberColumn::Int32(vec![7, -3, 7, 0, -3, 7])),
        DataType::Number(NumberDataType::Int32),
    )];
    let expected = vec![vec![0, 2, 5], vec![1, 4], vec![3]];

    let fixed = HashMethodFixedKeys::default();
    let state = fixed.build_keys_state(&columns, 6).unwrap();
    let mut iter = fixed.build_keys_iter(&state).unwrap();
    let mut words = vec![];
    while let Some(key) = iter.next() {
        words.push(key);
    }
    assert_eq!(groups_of(&words), expected);

    let serializer = HashMethodSerializer::default();
    let state = serializer.build_keys_state(&columns, 6).unwrap();
    let keys = string_keys(serializer.build_keys_iter(&state).unwrap());
    assert_eq!(groups_of(&keys), expected);
    assert_eq!(keys[1], vec![0xfd, 0xff, 0xff, 0xff]);
}

#[test]
fn serializer_frames_strings_and_packs_numbers() {
    let columns = vec![
        (
            Column::Number(NumberColumn::UInt16(vec![0x0102, 3])),
            DataType::Number(NumberDataType::UInt16),
        ),
        (Column::String(strings(&["ab", ""])), DataType::String),
        (Column::Boolean(vec![true, false]), DataType::Boolean),
    ];
    let method = HashMethodSerializer::default();
    let state = method.build_keys_state(&columns, 2).unwrap();
    let keys = string_keys(method.build_keys_iter(&state).unwrap());
    assert_eq!(keys[0], vec![2, 1, 2, 0, 0, 0, 0, 0, 0, 0, b'a', b'b', 1]);
    assert_eq!(keys[1], vec![3, 0, 0, 0, 0, 0, 0, 0, 0, 0, 0]);
}

#[test]
fn serializer_tells_null_from_every_value() {
    let inner = Column::Number(NumberColumn::UInt8(vec![0, 9, 0, 1]));
    let nullable = Column::Nullable(Box::new(
        NullableColumn::new(inner, vec![true, false, false, true]).unwrap(),
    ));
    let data_type = DataType::Nullable(Box::new(DataType::Number(NumberDataType::UInt8)));
    let columns = vec![(nullable, data_type)];
    let method = HashMethodSerializer::default();
    let state = method.build_keys_state(&columns, 4).unwrap();
    let (iter, hashes) = method.build_keys_iter_and_hashes(&state).unwrap();
    let keys = string_keys(iter);
    assert_eq!(keys, vec![vec![1, 0], vec![0], vec![0], vec![1, 1]]);
    assert_eq!(groups_of(&keys), vec![vec![0], vec![1, 2], vec![3]]);
    assert_eq!(hashes[1], hashes[2]);
    assert_eq!(hashes[0], fast_hash(&[1, 0]));
}

#[test]
fn serializer_keeps_columns_apart() {
    let columns = vec![
        (Column::String(strings(&["ab", "a"])), DataType::String),
        (Column::String(strings(&["c", "bc"])), DataType::String),
    ];
    let method = HashMethodSerializer::default();
    let state = method.build_keys_state(&columns, 2).unwrap();
    let keys = string_keys(method.build_keys_iter(&state).unwrap());
    assert_ne!(keys[0], keys[1]);
}

#[test]
fn serializer_of_no_rows_has_no_keys() {
    let columns = vec![(Column::String(strings(&[])), DataType::String)];
    let method = HashMethodSerializer::default();
    let state = method.build_keys_state(&columns, 0).unwrap();
    let (iter, hashes) = method.build_keys_iter_and_hashes(&state).unwrap();
    assert_eq!(iter.len(), 0);
    assert!(hashes.is_empty());
}

#[test]
fn method_is_chosen_from_the_types() {
    let number = DataType::Number(NumberDataType::UInt64);
    let nullable = DataType::Nullable(Box::new(DataType::String));
    assert_eq!(
        choose_hash_method(&[number.clone()]),
        HashMethodKind::FixedKeys(HashMethodFixedKeys::default())
    );
    assert_eq!(
        choose_hash_method(&[DataType::Boolean]),
        HashMethodKind::FixedKeys(HashMethodFixedKeys::default())
    );
    for text in [DataType::String, DataType::Variant, DataType::Bitmap] {
        assert_eq!(
            choose_hash_method(&[text]),
            HashMethodKind::SingleString(HashMethodSingleString::default())
        );
    }
    let serializer = HashMethodKind::Serializer(HashMethodSerializer::default());
    assert_eq!(choose_hash_method(&[nullable]), serializer);
    assert_eq!(choose_hash_method(&[number.clone(), number]), serializer);
    assert_eq!(choose_hash_method(&[DataType::String, DataType::Boolean]), serializer);
    assert_eq!(choose_hash_method(&[]), serializer);
    assert_eq!(serializer.name(), "Serializer");
}
