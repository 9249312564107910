//! The key method for a single column of fixed-width values.

use vstd::bytes::lemma_auto_spec_u64_to_from_le_bytes;
use vstd::bytes::spec_u64_to_le_bytes;
use vstd::bytes::u64_to_le_bytes;
use vstd::pervasive::unreached;
use vstd::prelude::*;
use crate::column::number_bits;
use crate::column::Column;
use crate::column::DataType;
use crate::column::Value;
use crate::error::ErrorCode;
use crate::group_by_hash::hashes_of;
use crate::group_by_hash::row_tuple;
use crate::group_by_hash::schema_of;
use crate::group_by_hash::HashMethod;
use crate::group_by_hash::KeysState;
use crate::hash::fast_hash;

verus! {

/// Keys one boolean or integer column: the key of a row is a 64-bit word, and
/// its encoding the eight bytes of that word, least significant first.
#[derive(Debug, Clone, Default, PartialEq, Eq)]
pub struct HashMethodFixedKeys {}

/// The word that stands for a value of a fixed-width type: 0 or 1 for a
/// boolean, the bits of the integer for a number.
pub open spec fn fixed_key(value: Value, data_type: DataType) -> u64 {
    match (value, data_type) {
        (Value::Boolean(b), _) => if b {
            1u64
        } else {
            0u64
        },
        (Value::Number(x), DataType::Number(t)) => number_bits(t, x) as u64,
        _ => 0u64,
    }
}

/// The words of a fixed-width column, row by row.
pub open spec fn fixed_keys(column: &Column) -> Seq<u64> {
    Seq::new(column@.values.len(), |row: int| fixed_key(column@.values[row], column@.data_type))
}

/// The encodings of a sequence of words, word by word.
pub open spec fn encoded_words(words: Seq<u64>) -> Seq<Seq<u8>> {
    Seq::new(words.len(), |i: int| spec_u64_to_le_bytes(words[i]))
}

/// Within one fixed-width type, different values have different words.
pub proof fn lemma_fixed_key_injective(left: Value, right: Value, data_type: DataType)
    requires
        data_type.is_fixed_width(),
        crate::column::value_has_type(left, data_type),
        crate::column::value_has_type(right, data_type),
    ensures
        fixed_key(left, data_type) == fixed_key(right, data_type) <==> left == right,
{
}

/// A forward cursor over the words of a fixed-width column.
#[derive(Debug, Clone)]
pub struct FixedKeysIterator<'a> {
    column: &'a Column,
    pos: usize,
}

impl<'a> FixedKeysIterator<'a> {
    pub closed spec fn wf(&self) -> bool {
        &&& self.column.wf()
        &&& self.column@.data_type.is_fixed_width()
        &&& self.pos <= self.column@.values.len()
    }

    /// The words not yet handed out, in order.
    pub closed spec fn remaining(&self) -> Seq<u64> {
        fixed_keys(self.column).skip(self.pos as int)
    }

    /// Number of words not yet handed out.
    pub fn len(&self) -> (r: usize)
        requires
            self.wf(),
        ensures
            r == self.remaining().len(),
    {
        self.column.len() - self.pos
    }

    /// Hands out the next word, or `None` once every word has been handed out.
    pub fn next(&mut self) -> (r: Option<u64>)
        requires
            old(self).wf(),
        ensures
            final(self).wf(),
            match r {
                Some(key) => old(self).remaining().len() > 0 && key == old(self).remaining()[0]
                    && final(self).remaining() == old(self).remaining().skip(1),
                None => old(self).remaining().len() == 0 && final(self).remaining()
                    == old(self).remaining(),
            },
    {
        let column: &'a Column = self.column;
        if self.pos < column.len() {
            let key = word_at(column, self.pos);
            self.pos += 1;
            assert(self.remaining() =~= old(self).remaining().skip(1));
            Some(key)
        } else {
            None
        }
    }
}

/// The word of row `row` of a fixed-width column.
pub fn word_at(column: &Column, row: usize) -> (r: u64)
    requires
        column.wf(),
        column@.data_type.is_fixed_width(),
        row < column@.values.len(),
    ensures
        r == fixed_keys(column)[row as int],
{
    match column {
        Column::Boolean(v) => if v[row] {
            1
        } else {
            0
        },
        Column::Number(n) => n.bits_at(row),
        _ => unreached(),
    }
}

impl HashMethod for HashMethodFixedKeys {
    type HashKey = u64;

    type HashKeyIter<'a> = FixedKeysIterator<'a>;

    open spec fn accepts(&self, schema: Seq<DataType>) -> bool {
        schema.len() == 1 && schema[0].is_fixed_width()
    }

    open spec fn encode(&self, group_columns: Seq<(Column, DataType)>, row: int) -> Seq<u8> {
        spec_u64_to_le_bytes(fixed_key(group_columns[0].0@.values[row], group_columns[0].1))
    }

    open spec fn reads(&self, keys_state: &KeysState<'_>) -> bool {
        keys_state matches KeysState::Column(column) && column.wf()
            && column@.data_type.is_fixed_width()
    }

    open spec fn state_keys(&self, keys_state: &KeysState<'_>) -> Seq<Seq<u8>> {
        match keys_state {
            KeysState::Column(column) => encoded_words(fixed_keys(column)),
            _ => Seq::empty(),
        }
    }

    open spec fn pending_keys(&self, iter: &FixedKeysIterator<'_>) -> Seq<Seq<u8>> {
        encoded_words(iter.remaining())
    }

    proof fn lemma_encode_injective(
        &self,
        left: Seq<(Column, DataType)>,
        left_row: int,
        right: Seq<(Column, DataType)>,
        right_row: int,
    ) {
        assert(schema_of(left)[0] == left[0].1);
        assert(schema_of(right)[0] == right[0].1);
        assert(schema_of(left).len() == left.len());
        assert(schema_of(right).len() == right.len());
        let l = row_tuple(left, left_row);
        let r = row_tuple(right, right_row);
        assert(l[0] == left[0].0@.values[left_row]);
        assert(r[0] == right[0].0@.values[right_row]);
        left[0].0.lemma_values_have_type(left_row);
        right[0].0.lemma_values_have_type(right_row);
        lemma_fixed_key_injective(l[0], r[0], left[0].1);
        lemma_auto_spec_u64_to_from_le_bytes();
        if self.encode(left, left_row) == self.encode(right, right_row) {
            assert(l =~= r);
        }
    }

    fn name(&self) -> (r: String)
        ensures
            r@ == "FixedKeys"@,
    {
        "FixedKeys".to_string()
    }

    fn build_keys_state<'a>(&self, group_columns: &'a [(Column, DataType)], rows: usize) -> (r:
        Result<KeysState<'a>, ErrorCode>)
        ensures
            r == Ok::<KeysState<'a>, ErrorCode>(KeysState::Column(&group_columns@[0].0)),
    {
        assert(schema_of(group_columns@).len() == group_columns@.len());
        assert(schema_of(group_columns@)[0] == group_columns@[0].1);
        let state = KeysState::Column(&group_columns[0].0);
        assert(self.state_keys(&state) =~= Seq::new(
            rows as nat,
            |row: int| self.encode(group_columns@, row),
        ));
        Ok(state)
    }

    fn build_keys_iter<'a>(&self, keys_state: &'a KeysState<'_>) -> (r: Result<
        FixedKeysIterator<'a>,
        ErrorCode,
    >)
        ensures
            (r->Ok_0).wf(),
            (r->Ok_0).remaining() == fixed_keys(keys_state->Column_0),
    {
        match keys_state {
            KeysState::Column(column) => {
                let iter = FixedKeysIterator { column, pos: 0 };
                assert(iter.remaining() =~= fixed_keys(column));
                Ok(iter)
            },
            _ => unreached(),
        }
    }

    fn build_keys_iter_and_hashes<'a>(&self, keys_state: &'a KeysState<'_>) -> (r: Result<
        (FixedKeysIterator<'a>, Vec<u64>),
        ErrorCode,
    >)
        ensures
            (r->Ok_0).0.wf(),
            (r->Ok_0).0.remaining() == fixed_keys(keys_state->Column_0),
    {
        match keys_state {
            KeysState::Column(column) => {
                let hashes = hash_words(column);
                let iter = FixedKeysIterator { column, pos: 0 };
                assert(iter.remaining() =~= fixed_keys(column));
                Ok((iter, hashes))
            },
            _ => unreached(),
        }
    }
}

/// The hash code of the encoded word of every row, in row order.
pub fn hash_words(column: &Column) -> (hashes: Vec<u64>)
    requires
        column.wf(),
        column@.data_type.is_fixed_width(),
    ensures
        hashes@ == hashes_of(encoded_words(fixed_keys(column))),
{
    let n: usize = column.len();
    let mut hashes: Vec<u64> = Vec::with_capacity(n);
    let mut i: usize = 0;
    while i < n
        invariant
            i <= n,
            n == column@.values.len(),
            column.wf(),
            column@.data_type.is_fixed_width(),
            hashes@ == hashes_of(encoded_words(fixed_keys(column)).take(i as int)),
        decreases n - i,
    {
        let bytes = u64_to_le_bytes(word_at(column, i));
        hashes.push(fast_hash(bytes.as_slice()));
        i += 1;
        assert(hashes@ =~= hashes_of(encoded_words(fixed_keys(column)).take(i as int)));
    }
    assert(encoded_words(fixed_keys(column)).take(n as int) =~= encoded_words(fixed_keys(column)));
    hashes
}

} // verus!
