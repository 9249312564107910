//! The key method for a single column of byte strings.

use vstd::pervasive::unreached;
use vstd::prelude::*;
use crate::column::Column;
use crate::column::DataType;
use crate::column::StringColumn;
use crate::column::StringIterator;
use crate::error::ErrorCode;
use crate::group_by_hash::hashes_of;
use crate::group_by_hash::row_tuple;
use crate::group_by_hash::schema_of;
use crate::group_by_hash::HashMethod;
use crate::group_by_hash::KeysState;
use crate::hash::fast_hash;

verus! {

/// Keys one string, variant or bitmap column: the key of a row is the byte
/// string the row holds, read in place.
#[derive(Debug, Clone, Default, PartialEq, Eq)]
pub struct HashMethodSingleString {}

/// The byte-string column a state aliases, if it aliases one.
pub open spec fn aliased_strings<'a>(keys_state: &'a KeysState<'_>) -> Option<&'a StringColumn> {
    match keys_state {
        KeysState::Column(Column::String(col)) => Some(col),
        KeysState::Column(Column::Variant(col)) => Some(col),
        KeysState::Column(Column::Bitmap(col)) => Some(col),
        _ => None,
    }
}

impl HashMethod for HashMethodSingleString {
    type HashKey = [u8];

    type HashKeyIter<'a> = StringIterator<'a>;

    open spec fn accepts(&self, schema: Seq<DataType>) -> bool {
        schema.len() == 1 && schema[0].is_variable_length()
    }

    open spec fn encode(&self, group_columns: Seq<(Column, DataType)>, row: int) -> Seq<u8> {
        match group_columns[0].0@.values[row] {
            crate::column::Value::Bytes(bytes) => bytes,
            _ => Seq::empty(),
        }
    }

    open spec fn reads(&self, keys_state: &KeysState<'_>) -> bool {
        aliased_strings(keys_state) matches Some(col) && col.wf()
    }

    open spec fn state_keys(&self, keys_state: &KeysState<'_>) -> Seq<Seq<u8>> {
        match aliased_strings(keys_state) {
            Some(col) => col@,
            None => Seq::empty(),
        }
    }

    open spec fn pending_keys(&self, iter: &StringIterator<'_>) -> Seq<Seq<u8>> {
        iter.remaining()
    }

    proof fn lemma_encode_injective(
        &self,
        left: Seq<(Column, DataType)>,
        left_row: int,
        right: Seq<(Column, DataType)>,
        right_row: int,
    ) {
        assert(schema_of(left)[0] == left[0].1);
        assert(schema_of(right)[0] == right[0].1);
        assert(schema_of(left).len() == left.len());
        assert(schema_of(right).len() == right.len());
        let l = row_tuple(left, left_row);
        let r = row_tuple(right, right_row);
        assert(l[0] == left[0].0@.values[left_row]);
        assert(r[0] == right[0].0@.values[right_row]);
        if self.encode(left, left_row) == self.encode(right, right_row) {
            assert(l =~= r);
        }
    }

    fn name(&self) -> (r: String)
        ensures
            r@ == "SingleString"@,
    {
        "SingleString".to_string()
    }

    fn build_keys_state<'a>(&self, group_columns: &'a [(Column, DataType)], rows: usize) -> (r:
        Result<KeysState<'a>, ErrorCode>)
        ensures
            r == Ok::<KeysState<'a>, ErrorCode>(KeysState::Column(&group_columns@[0].0)),
    {
        assert(schema_of(group_columns@).len() == group_columns@.len());
        assert(schema_of(group_columns@)[0] == group_columns@[0].1);
        let state = KeysState::Column(&group_columns[0].0);
        assert(self.state_keys(&state) =~= Seq::new(
            rows as nat,
            |row: int| self.encode(group_columns@, row),
        ));
        Ok(state)
    }

    fn build_keys_iter<'a>(&self, keys_state: &'a KeysState<'_>) -> (r: Result<
        StringIterator<'a>,
        ErrorCode,
    >)
        ensures
            (r->Ok_0).wf(),
    {
        match keys_state {
            KeysState::Column(Column::String(col))
            | KeysState::Column(Column::Variant(col))
            | KeysState::Column(Column::Bitmap(col)) => Ok(col.iter()),
            _ => unreached(),
        }
    }

    fn build_keys_iter_and_hashes<'a>(&self, keys_state: &'a KeysState<'_>) -> (r: Result<
        (StringIterator<'a>, Vec<u64>),
        ErrorCode,
    >)
        ensures
            (r->Ok_0).0.wf(),
    {
        match keys_state {
            KeysState::Column(Column::String(col))
            | KeysState::Column(Column::Variant(col))
            | KeysState::Column(Column::Bitmap(col)) => {
                let hashes = hash_rows(col);
                Ok((col.iter(), hashes))
            },
            _ => unreached(),
        }
    }
}

/// The hash code of every row of a byte-string column, in row order.
pub fn hash_rows(col: &StringColumn) -> (hashes: Vec<u64>)
    requires
        col.wf(),
    ensures
        hashes@ == hashes_of(col@),
{
    let n: usize = col.len();
    let mut hashes: Vec<u64> = Vec::with_capacity(n);
    let mut i: usize = 0;
    while i < n
        invariant
            i <= n,
            n == col@.len(),
            col.wf(),
            hashes@ == hashes_of(col@.take(i as int)),
        decreases n - i,
    {
        hashes.push(fast_hash(col.index(i)));
        i += 1;
        assert(hashes@ =~= hashes_of(col@.take(i as int)));
    }
    assert(col@.take(n as int) =~= col@);
    hashes
}

} // verus!
