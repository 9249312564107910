//! Key methods: the strategies that turn the group-by columns of a batch into
//! per-row keys whose bytes decide equality and hashing.

use vstd::prelude::*;
use crate::column::Column;
use crate::column::DataType;
use crate::column::StringColumn;
use crate::column::Value;
use crate::error::ErrorCode;
use crate::group_by_hash::method_fixed_keys::HashMethodFixedKeys;
use crate::group_by_hash::method_serializer::HashMethodSerializer;
use crate::group_by_hash::method_single_string::HashMethodSingleString;
use crate::hash::fast_hash_spec;

pub mod method_fixed_keys;
pub mod method_serializer;
pub mod method_single_string;

verus! {

/// The keys of one batch, as a key method holds them between building and
/// iterating.
#[derive(Debug)]
pub enum KeysState<'a> {
    /// The keys are the rows of a group-by column, used in place.
    Column(&'a Column),
    /// The keys were packed, one byte string per row, into a buffer of their own.
    Serialized(StringColumn),
}

/// The columns are what a planner hands over for a batch of `rows` rows: each
/// well formed, of its declared type, and `rows` long.
pub open spec fn well_typed(group_columns: Seq<(Column, DataType)>, rows: usize) -> bool {
    forall|c: int|
        0 <= c < group_columns.len() ==> {
            &&& (#[trigger] group_columns[c]).0.wf()
            &&& group_columns[c].0@.data_type == group_columns[c].1
            &&& group_columns[c].0@.values.len() == rows
        }
}

/// The declared types of the columns, in order.
pub open spec fn schema_of(group_columns: Seq<(Column, DataType)>) -> Seq<DataType> {
    Seq::new(group_columns.len(), |c: int| group_columns[c].1)
}

/// The tuple that row `row` holds across the columns.
pub open spec fn row_tuple(group_columns: Seq<(Column, DataType)>, row: int) -> Seq<Value> {
    Seq::new(group_columns.len(), |c: int| group_columns[c].0@.values[row])
}

/// The hash codes of a sequence of encoded keys, key by key.
pub open spec fn hashes_of(keys: Seq<Seq<u8>>) -> Seq<u64> {
    Seq::new(keys.len(), |i: int| fast_hash_spec(keys[i]))
}

/// A strategy that converts group-by columns into keys.
///
/// A method is chosen once for a query from the types of the group-by
/// columns. For every batch it first builds a [`KeysState`] and then walks
/// the keys of that state, with or without their hash codes.
pub trait HashMethod {
    /// What one key is.
    type HashKey: ?Sized;

    /// The cursor that hands out the keys of a state in row order.
    type HashKeyIter<'a>;

    /// The schemas the method is chosen for.
    spec fn accepts(&self, schema: Seq<DataType>) -> bool;

    /// The bytes that stand for the tuple of row `row`: the encoded key.
    spec fn encode(&self, group_columns: Seq<(Column, DataType)>, row: int) -> Seq<u8>;

    /// The states that `build_keys_state` of this method hands out.
    spec fn reads(&self, keys_state: &KeysState<'_>) -> bool;

    /// The encoded keys a state holds, row by row.
    spec fn state_keys(&self, keys_state: &KeysState<'_>) -> Seq<Seq<u8>>;

    /// The encoded keys a cursor has yet to hand out, in order.
    spec fn pending_keys(&self, iter: &Self::HashKeyIter<'_>) -> Seq<Seq<u8>>;

    /// Two rows, of the same or of different batches with one schema, have the
    /// same encoded key exactly when they hold the same tuple.
    proof fn lemma_encode_injective(
        &self,
        left: Seq<(Column, DataType)>,
        left_row: int,
        right: Seq<(Column, DataType)>,
        right_row: int,
    )
        requires
            self.accepts(schema_of(left)),
            schema_of(left) == schema_of(right),
            exists|rows: usize| well_typed(left, rows) && 0 <= left_row < rows,
            exists|rows: usize| well_typed(right, rows) && 0 <= right_row < rows,
        ensures
            self.encode(left, left_row) == self.encode(right, right_row) <==> row_tuple(
                left,
                left_row,
            ) == row_tuple(right, right_row),
    ;

    /// The name of the method.
    fn name(&self) -> String;

    /// Builds the keys of a batch of `rows` rows from its group-by columns.
    fn build_keys_state<'a>(&self, group_columns: &'a [(Column, DataType)], rows: usize) -> (r:
        Result<KeysState<'a>, ErrorCode>)
        requires
            self.accepts(schema_of(group_columns@)),
            well_typed(group_columns@, rows),
        ensures
            r is Ok,
            self.reads(&r->Ok_0),
            self.state_keys(&r->Ok_0) == Seq::new(
                rows as nat,
                |row: int| self.encode(group_columns@, row),
            ),
    ;

    /// A cursor over the keys of a state, in row order.
    fn build_keys_iter<'a>(&self, keys_state: &'a KeysState<'_>) -> (r: Result<
        Self::HashKeyIter<'a>,
        ErrorCode,
    >)
        requires
            self.reads(keys_state),
        ensures
            r is Ok,
            self.pending_keys(&r->Ok_0) == self.state_keys(keys_state),
    ;

    /// A cursor over the keys of a state together with the hash code of every
    /// key, in row order.
    fn build_keys_iter_and_hashes<'a>(&self, keys_state: &'a KeysState<'_>) -> (r: Result<
        (Self::HashKeyIter<'a>, Vec<u64>),
        ErrorCode,
    >)
        requires
            self.reads(keys_state),
        ensures
            r is Ok,
            self.pending_keys(&(r->Ok_0).0) == self.state_keys(keys_state),
            (r->Ok_0).1@ == hashes_of(self.state_keys(keys_state)),
    ;
}


/// The key methods, one variant for each.
#[derive(Debug, Clone, PartialEq, Eq)]
pub enum HashMethodKind {
    Serializer(HashMethodSerializer),
    SingleString(HashMethodSingleString),
    FixedKeys(HashMethodFixedKeys),
}

/// The method that keys columns of the given types: the fixed-width method
/// for one boolean or integer column, the single-string method for one
/// string, variant or bitmap column, the serializer for everything else.
pub open spec fn chosen_method(hash_key_types: Seq<DataType>) -> HashMethodKind {
    if hash_key_types.len() == 1 && hash_key_types[0].is_fixed_width() {
        HashMethodKind::FixedKeys(HashMethodFixedKeys {  })
    } else if hash_key_types.len() == 1 && hash_key_types[0].is_variable_length() {
        HashMethodKind::SingleString(HashMethodSingleString {  })
    } else {
        HashMethodKind::Serializer(HashMethodSerializer {  })
    }
}

impl HashMethodKind {
    /// Whether the method of this kind is one that keys columns of the given types.
    pub open spec fn accepts(&self, schema: Seq<DataType>) -> bool {
        match self {
            HashMethodKind::Serializer(m) => m.accepts(schema),
            HashMethodKind::SingleString(m) => m.accepts(schema),
            HashMethodKind::FixedKeys(m) => m.accepts(schema),
        }
    }

    /// The name of the method.
    pub fn name(&self) -> (r: String)
        ensures
            r@ == match self {
                HashMethodKind::Serializer(_) => "Serializer"@,
                HashMethodKind::SingleString(_) => "SingleString"@,
                HashMethodKind::FixedKeys(_) => "FixedKeys"@,
            },
    {
        match self {
            HashMethodKind::Serializer(m) => m.name(),
            HashMethodKind::SingleString(m) => m.name(),
            HashMethodKind::FixedKeys(m) => m.name(),
        }
    }
}

/// Chooses, once for a query, the key method for group-by columns of the
/// given types.
pub fn choose_hash_method(hash_key_types: &[DataType]) -> (r: HashMethodKind)
    ensures
        r == chosen_method(hash_key_types@),
        r.accepts(hash_key_types@),
{
    if hash_key_types.len() == 1 {
        if hash_key_types[0].is_fixed_width() {
            return HashMethodKind::FixedKeys(HashMethodFixedKeys {  });
        }
        if hash_key_types[0].is_variable_length() {
            return HashMethodKind::SingleString(HashMethodSingleString {  });
        }
    }
    HashMethodKind::Serializer(HashMethodSerializer {  })
}

/// Two methods that both key the columns of a batch group its rows alike:
/// whichever of them is used, two rows have the same key under one exactly
/// when they have the same key under the other, though the keys differ.
pub proof fn lemma_methods_group_alike<M: HashMethod, N: HashMethod>(
    first: M,
    second: N,
    group_columns: Seq<(Column, DataType)>,
    rows: usize,
    i: int,
    j: int,
)
    requires
        well_typed(group_columns, rows),
        first.accepts(schema_of(group_columns)),
        second.accepts(schema_of(group_columns)),
        0 <= i < rows,
        0 <= j < rows,
    ensures
        first.encode(group_columns, i) == first.encode(group_columns, j) <==> second.encode(
            group_columns,
            i,
        ) == second.encode(group_columns, j),
{
    first.lemma_encode_injective(group_columns, i, group_columns, j);
    second.lemma_encode_injective(group_columns, i, group_columns, j);
}

/// A single boolean or integer column is grouped alike by the fixed-width
/// method and by the serializer.
pub proof fn lemma_fixed_keys_group_as_serializer(
    group_columns: Seq<(Column, DataType)>,
    rows: usize,
    i: int,
    j: int,
)
    requires
        well_typed(group_columns, rows),
        group_columns.len() == 1,
        group_columns[0].1.is_fixed_width(),
        0 <= i < rows,
        0 <= j < rows,
    ensures
        (HashMethodFixedKeys {  }).encode(group_columns, i) == (HashMethodFixedKeys {  }).encode(
            group_columns,
            j,
        ) <==> (HashMethodSerializer {  }).encode(group_columns, i) == (
        HashMethodSerializer {  }).encode(group_columns, j),
{
    assert(schema_of(group_columns)[0] == group_columns[0].1);
    lemma_methods_group_alike(
        HashMethodFixedKeys {  },
        HashMethodSerializer {  },
        group_columns,
        rows,
        i,
        j,
    );
}

/// Keys with the same bytes have the same hash code.
pub proof fn lemma_equal_keys_hash_alike(keys: Seq<Seq<u8>>, i: int, j: int)
    requires
        0 <= i < keys.len(),
        0 <= j < keys.len(),
        keys[i] == keys[j],
    ensures
        hashes_of(keys)[i] == hashes_of(keys)[j],
{
}

} // verus!
