//! The key method for any list of columns: every row is packed into a byte
//! string of its own.

use vstd::bytes::lemma_auto_spec_u16_to_from_le_bytes;
use vstd::bytes::lemma_auto_spec_u32_to_from_le_bytes;
use vstd::bytes::lemma_auto_spec_u64_to_from_le_bytes;
use vstd::bytes::spec_u16_to_le_bytes;
use vstd::bytes::spec_u32_to_le_bytes;
use vstd::bytes::spec_u64_to_le_bytes;
use vstd::bytes::u16_to_le_bytes;
use vstd::bytes::u32_to_le_bytes;
use vstd::bytes::u64_to_le_bytes;
use vstd::pervasive::unreached;
use vstd::prelude::*;
use crate::column::extend_from;
use crate::column::number_bits;
use crate::column::value_has_type;
use crate::column::Column;
use crate::column::DataType;
use crate::column::NumberDataType;
use crate::column::StringColumn;
use crate::column::StringIterator;
use crate::column::Value;
use crate::error::ErrorCode;
use crate::group_by_hash::method_single_string::hash_rows;
use crate::group_by_hash::row_tuple;
use crate::group_by_hash::schema_of;
use crate::group_by_hash::well_typed;
use crate::group_by_hash::HashMethod;
use crate::group_by_hash::KeysState;

verus! {

/// Keys any list of columns: the key of a row is the concatenation of the
/// encodings of its values, column by column.
#[derive(Debug, Clone, Default, PartialEq, Eq)]
pub struct HashMethodSerializer {}

/// The bytes of an integer of type `t`: its word in as many bytes as the type
/// is wide, least significant first.
pub open spec fn encode_number(t: NumberDataType, v: int) -> Seq<u8> {
    let bits = number_bits(t, v);
    match t.spec_byte_size() {
        1 => seq![bits as u8],
        2 => spec_u16_to_le_bytes(bits as u16),
        4 => spec_u32_to_le_bytes(bits as u32),
        _ => spec_u64_to_le_bytes(bits as u64),
    }
}

/// The bytes of one value of type `t`.
///
/// A boolean is one byte, 0 or 1. A byte string is framed: its length as
/// eight bytes, least significant first, then its bytes. A value of a
/// nullable type is one byte, 0, when it is null, and the byte 1 followed by
/// the bytes of the value otherwise.
pub open spec fn encode_value(v: Value, t: DataType) -> Seq<u8>
    decreases t,
{
    match t {
        DataType::Boolean => seq![
            if v == Value::Boolean(true) {
                1u8
            } else {
                0u8
            },
        ],
        DataType::Number(n) => encode_number(n, v->Number_0),
        DataType::String | DataType::Variant | DataType::Bitmap => spec_u64_to_le_bytes(
            v->Bytes_0.len() as u64,
        ) + v->Bytes_0,
        DataType::Nullable(inner) => if v is Null {
            seq![0u8]
        } else {
            seq![1u8] + encode_value(v, *inner)
        },
    }
}

/// The bytes of row `row` from column `from` on.
pub open spec fn encode_columns(group_columns: Seq<(Column, DataType)>, row: int, from: int) -> Seq<
    u8,
>
    decreases group_columns.len() - from,
{
    if from < 0 || from >= group_columns.len() {
        Seq::empty()
    } else {
        encode_value(group_columns[from].0@.values[row], group_columns[from].1) + encode_columns(
            group_columns,
            row,
            from + 1,
        )
    }
}

/// Integers of one type with the same bytes are the same integer, and the
/// bytes are as many as the type is wide.
pub proof fn lemma_encode_number_injective(t: NumberDataType, a: int, b: int)
    requires
        t.contains(a),
        t.contains(b),
    ensures
        encode_number(t, a).len() == t.spec_byte_size(),
        encode_number(t, a) == encode_number(t, b) ==> a == b,
{
    lemma_auto_spec_u16_to_from_le_bytes();
    lemma_auto_spec_u32_to_from_le_bytes();
    lemma_auto_spec_u64_to_from_le_bytes();
    if encode_number(t, a) == encode_number(t, b) {
        if t.spec_byte_size() == 1 {
            assert(encode_number(t, a)[0] == encode_number(t, b)[0]);
        }
    }
}

/// No encoding of a value is the beginning of the encoding of another value
/// of the same type: when two encodings, each followed by further bytes,
/// give the same byte string, the values are the same and so is what follows.
pub proof fn lemma_encode_value_prefix_free(
    t: DataType,
    a: Value,
    rest_a: Seq<u8>,
    b: Value,
    rest_b: Seq<u8>,
)
    requires
        value_has_type(a, t),
        value_has_type(b, t),
        encode_value(a, t) + rest_a == encode_value(b, t) + rest_b,
    ensures
        a == b,
        rest_a == rest_b,
    decreases t,
{
    let ea = encode_value(a, t);
    let eb = encode_value(b, t);
    let whole_a = ea + rest_a;
    let whole_b = eb + rest_b;
    match t {
        DataType::Boolean => {
            assert(whole_a[0] == ea[0]);
            assert(whole_b[0] == eb[0]);
            assert(rest_a =~= whole_a.skip(1));
            assert(rest_b =~= whole_b.skip(1));
        },
        DataType::Number(n) => {
            lemma_encode_number_injective(n, a->Number_0, b->Number_0);
            lemma_encode_number_injective(n, b->Number_0, a->Number_0);
            let w = n.spec_byte_size() as int;
            assert(ea =~= whole_a.take(w));
            assert(eb =~= whole_b.take(w));
            assert(rest_a =~= whole_a.skip(w));
            assert(rest_b =~= whole_b.skip(w));
        },
        DataType::String | DataType::Variant | DataType::Bitmap => {
            lemma_auto_spec_u64_to_from_le_bytes();
            let bytes_a = a->Bytes_0;
            let bytes_b = b->Bytes_0;
            let frame_a = spec_u64_to_le_bytes(bytes_a.len() as u64);
            let frame_b = spec_u64_to_le_bytes(bytes_b.len() as u64);
            assert(frame_a =~= whole_a.take(8));
            assert(frame_b =~= whole_b.take(8));
            assert(bytes_a.len() as u64 == bytes_b.len() as u64);
            let n = bytes_a.len() as int;
            assert(bytes_a =~= whole_a.subrange(8, 8 + n));
            assert(bytes_b =~= whole_b.subrange(8, 8 + n));
            assert(rest_a =~= whole_a.skip(8 + n));
            assert(rest_b =~= whole_b.skip(8 + n));
        },
        DataType::Nullable(inner) => {
            assert(whole_a[0] == ea[0]);
            assert(whole_b[0] == eb[0]);
            if a is Null {
                assert(rest_a =~= whole_a.skip(1));
                assert(rest_b =~= whole_b.skip(1));
            } else {
                let inner_a = encode_value(a, *inner);
                let inner_b = encode_value(b, *inner);
                assert(inner_a + rest_a =~= whole_a.skip(1));
                assert(inner_b + rest_b =~= whole_b.skip(1));
                lemma_encode_value_prefix_free(*inner, a, rest_a, b, rest_b);
            }
        },
    }
}

/// From any column on, two rows of one schema have the same bytes exactly
/// when they hold the same values in those columns.
pub proof fn lemma_encode_columns_injective(
    left: Seq<(Column, DataType)>,
    left_row: int,
    right: Seq<(Column, DataType)>,
    right_row: int,
    from: int,
)
    requires
        schema_of(left) == schema_of(right),
        exists|rows: usize| well_typed(left, rows) && 0 <= left_row < rows,
        exists|rows: usize| well_typed(right, rows) && 0 <= right_row < rows,
        0 <= from <= left.len(),
    ensures
        encode_columns(left, left_row, from) == encode_columns(right, right_row, from) <==> (
        forall|c: int|
            from <= c < left.len() ==> left[c].0@.values[left_row] == right[c].0@.values[right_row]),
    decreases left.len() - from,
{
    assert(schema_of(left).len() == left.len());
    assert(schema_of(right).len() == right.len());
    if from < left.len() {
        assert(schema_of(left)[from] == left[from].1);
        assert(schema_of(right)[from] == right[from].1);
        let t = left[from].1;
        let a = left[from].0@.values[left_row];
        let b = right[from].0@.values[right_row];
        left[from].0.lemma_values_have_type(left_row);
        right[from].0.lemma_values_have_type(right_row);
        lemma_encode_columns_injective(left, left_row, right, right_row, from + 1);
        if encode_columns(left, left_row, from) == encode_columns(right, right_row, from) {
            lemma_encode_value_prefix_free(
                t,
                a,
                encode_columns(left, left_row, from + 1),
                b,
                encode_columns(right, right_row, from + 1),
            );
        }
    }
}

/// Appends the bytes of the value that `column` holds in row `row`.
pub fn serialize_value(column: &Column, row: usize, out: &mut Vec<u8>)
    requires
        column.wf(),
        row < column@.values.len(),
    ensures
        final(out)@ == old(out)@ + encode_value(column@.values[row as int], column@.data_type),
    decreases column,
{
    match column {
        Column::Boolean(v) => {
            out.push(
                if v[row] {
                    1
                } else {
                    0
                },
            );
            assert(out@ =~= old(out)@ + encode_value(
                column@.values[row as int],
                column@.data_type,
            ));
        },
        Column::Number(n) => {
            let bits: u64 = n.bits_at(row);
            match n.number_type().byte_size() {
                1 => {
                    out.push(bits as u8);
                    assert(out@ =~= old(out)@ + seq![bits as u8]);
                },
                2 => {
                    let bytes = u16_to_le_bytes(bits as u16);
                    extend_from(out, bytes.as_slice());
                },
                4 => {
                    let bytes = u32_to_le_bytes(bits as u32);
                    extend_from(out, bytes.as_slice());
                },
                _ => {
                    let bytes = u64_to_le_bytes(bits);
                    extend_from(out, bytes.as_slice());
                },
            }
        },
        Column::String(c) | Column::Variant(c) | Column::Bitmap(c) => {
            let value = c.index(row);
            let frame = u64_to_le_bytes(value.len() as u64);
            extend_from(out, frame.as_slice());
            extend_from(out, value);
            assert(out@ =~= old(out)@ + (spec_u64_to_le_bytes(value@.len() as u64) + value@));
        },
        Column::Nullable(n) => {
            if n.validity[row] {
                out.push(1);
                serialize_value(&n.column, row, out);
                proof {
                    n.column.lemma_values_have_type(row as int);
                    assert(out@ =~= old(out)@ + (seq![1u8] + encode_value(
                        n.column@.values[row as int],
                        n.column@.data_type,
                    )));
                }
            } else {
                out.push(0);
                assert(out@ =~= old(out)@ + seq![0u8]);
            }
        },
    }
}

/// The bytes of row `row` across all of `group_columns`.
pub fn serialize_row(group_columns: &[(Column, DataType)], row: usize) -> (key: Vec<u8>)
    requires
        exists|rows: usize| well_typed(group_columns@, rows) && row < rows,
    ensures
        key@ == encode_columns(group_columns@, row as int, 0),
{
    let mut key: Vec<u8> = Vec::new();
    let mut c: usize = 0;
    while c < group_columns.len()
        invariant
            c <= group_columns.len(),
            exists|rows: usize| well_typed(group_columns@, rows) && row < rows,
            key@ + encode_columns(group_columns@, row as int, c as int) == encode_columns(
                group_columns@,
                row as int,
                0,
            ),
        decreases group_columns.len() - c,
    {
        let ghost before = key@;
        assert(group_columns@[c as int].0.wf());
        serialize_value(&group_columns[c].0, row, &mut key);
        proof {
            let value = encode_value(
                group_columns@[c as int].0@.values[row as int],
                group_columns@[c as int].1,
            );
            let tail = encode_columns(group_columns@, row as int, c + 1);
            assert((before + value) + tail =~= before + (value + tail));
        }
        c += 1;
    }
    assert(key@ + Seq::<u8>::empty() =~= key@);
    key
}

impl HashMethod for HashMethodSerializer {
    type HashKey = [u8];

    type HashKeyIter<'a> = StringIterator<'a>;

    open spec fn accepts(&self, schema: Seq<DataType>) -> bool {
        true
    }

    open spec fn encode(&self, group_columns: Seq<(Column, DataType)>, row: int) -> Seq<u8> {
        encode_columns(group_columns, row, 0)
    }

    open spec fn reads(&self, keys_state: &KeysState<'_>) -> bool {
        keys_state matches KeysState::Serialized(keys) && keys.wf()
    }

    open spec fn state_keys(&self, keys_state: &KeysState<'_>) -> Seq<Seq<u8>> {
        match keys_state {
            KeysState::Serialized(keys) => keys@,
            _ => Seq::empty(),
        }
    }

    open spec fn pending_keys(&self, iter: &StringIterator<'_>) -> Seq<Seq<u8>> {
        iter.remaining()
    }

    proof fn lemma_encode_injective(
        &self,
        left: Seq<(Column, DataType)>,
        left_row: int,
        right: Seq<(Column, DataType)>,
        right_row: int,
    ) {
        assert(schema_of(left).len() == left.len());
        assert(schema_of(right).len() == right.len());
        lemma_encode_columns_injective(left, left_row, right, right_row, 0);
        let l = row_tuple(left, left_row);
        let r = row_tuple(right, right_row);
        if l == r {
            assert forall|c: int| 0 <= c < left.len() implies left[c].0@.values[left_row]
                == right[c].0@.values[right_row] by {
                assert(l[c] == r[c]);
            }
        }
        if self.encode(left, left_row) == self.encode(right, right_row) {
            assert(l =~= r);
        }
    }

    fn name(&self) -> (r: String)
        ensures
            r@ == "Serializer"@,
    {
        "Serializer".to_string()
    }

    fn build_keys_state<'a>(&self, group_columns: &'a [(Column, DataType)], rows: usize) -> (r:
        Result<KeysState<'a>, ErrorCode>)
        ensures
            r->Ok_0 is Serialized,
    {
        let mut keys = StringColumn::new();
        let mut row: usize = 0;
        while row < rows
            invariant
                row <= rows,
                well_typed(group_columns@, rows),
                keys.wf(),
                keys@ == Seq::new(row as nat, |k: int| encode_columns(group_columns@, k, 0)),
            decreases rows - row,
        {
            let key = serialize_row(group_columns, row);
            keys.push(key.as_slice());
            row += 1;
            assert(keys@ =~= Seq::new(row as nat, |k: int| encode_columns(group_columns@, k, 0)));
        }
        let state = KeysState::Serialized(keys);
        assert(self.state_keys(&state) =~= Seq::new(
            rows as nat,
            |k: int| self.encode(group_columns@, k),
        ));
        Ok(state)
    }

    fn build_keys_iter<'a>(&self, keys_state: &'a KeysState<'_>) -> (r: Result<
        StringIterator<'a>,
        ErrorCode,
    >)
        ensures
            (r->Ok_0).wf(),
    {
        match keys_state {
            KeysState::Serialized(keys) => Ok(keys.iter()),
            _ => unreached(),
        }
    }

    fn build_keys_iter_and_hashes<'a>(&self, keys_state: &'a KeysState<'_>) -> (r: Result<
        (StringIterator<'a>, Vec<u64>),
        ErrorCode,
    >)
        ensures
            (r->Ok_0).0.wf(),
    {
        match keys_state {
            KeysState::Serialized(keys) => {
                let hashes = hash_rows(keys);
                Ok((keys.iter(), hashes))
            },
            _ => unreached(),
        }
    }
}

} // verus!
