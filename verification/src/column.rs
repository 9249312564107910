//! Logical data types and the columns that hold their values.

use vstd::prelude::*;
use vstd::slice::slice_subrange;

verus! {

/// The fixed-width integer types.
#[derive(Debug, Clone, Copy, PartialEq, Eq, Structural)]
pub enum NumberDataType {
    UInt8,
    UInt16,
    UInt32,
    UInt64,
    Int8,
    Int16,
    Int32,
    Int64,
}

impl NumberDataType {
    /// Number of bytes one value of the type occupies.
    pub open spec fn spec_byte_size(self) -> usize {
        match self {
            NumberDataType::UInt8 | NumberDataType::Int8 => 1,
            NumberDataType::UInt16 | NumberDataType::Int16 => 2,
            NumberDataType::UInt32 | NumberDataType::Int32 => 4,
            NumberDataType::UInt64 | NumberDataType::Int64 => 8,
        }
    }

    /// Number of bytes one value of the type occupies.
    #[verifier::when_used_as_spec(spec_byte_size)]
    pub fn byte_size(self) -> (r: usize)
        ensures
            r == self.spec_byte_size(),
    {
        match self {
            NumberDataType::UInt8 | NumberDataType::Int8 => 1,
            NumberDataType::UInt16 | NumberDataType::Int16 => 2,
            NumberDataType::UInt32 | NumberDataType::Int32 => 4,
            NumberDataType::UInt64 | NumberDataType::Int64 => 8,
        }
    }

    /// Whether `v` is a value of the type.
    pub open spec fn contains(self, v: int) -> bool {
        match self {
            NumberDataType::UInt8 => 0 <= v <= u8::MAX,
            NumberDataType::UInt16 => 0 <= v <= u16::MAX,
            NumberDataType::UInt32 => 0 <= v <= u32::MAX,
            NumberDataType::UInt64 => 0 <= v <= u64::MAX,
            NumberDataType::Int8 => i8::MIN <= v <= i8::MAX,
            NumberDataType::Int16 => i16::MIN <= v <= i16::MAX,
            NumberDataType::Int32 => i32::MIN <= v <= i32::MAX,
            NumberDataType::Int64 => i64::MIN <= v <= i64::MAX,
        }
    }
}

/// The logical type of the values of one column.
#[derive(Debug, PartialEq, Eq)]
pub enum DataType {
    Boolean,
    Number(NumberDataType),
    String,
    Variant,
    Bitmap,
    Nullable(Box<DataType>),
}

impl Clone for DataType {
    fn clone(&self) -> (r: Self)
        ensures
            r == *self,
        decreases *self,
    {
        match self {
            DataType::Boolean => DataType::Boolean,
            DataType::Number(n) => DataType::Number(*n),
            DataType::String => DataType::String,
            DataType::Variant => DataType::Variant,
            DataType::Bitmap => DataType::Bitmap,
            DataType::Nullable(inner) => {
                let copy: DataType = (**inner).clone();
                DataType::Nullable(Box::new(copy))
            },
        }
    }
}

impl DataType {
    /// A type is well formed when `Nullable` wraps a type that is not itself nullable.
    pub open spec fn wf(self) -> bool {
        match self {
            DataType::Nullable(inner) => !(*inner is Nullable),
            _ => true,
        }
    }

    pub open spec fn spec_is_nullable(&self) -> bool {
        *self is Nullable
    }

    #[verifier::when_used_as_spec(spec_is_nullable)]
    pub fn is_nullable(&self) -> (r: bool)
        ensures
            r == (*self is Nullable),
    {
        match self {
            DataType::Nullable(_) => true,
            _ => false,
        }
    }

    /// The type whose values are stored as variable-length byte strings.
    pub open spec fn spec_is_variable_length(&self) -> bool {
        *self is String || *self is Variant || *self is Bitmap
    }

    #[verifier::when_used_as_spec(spec_is_variable_length)]
    pub fn is_variable_length(&self) -> (r: bool)
        ensures
            r == self.spec_is_variable_length(),
    {
        match self {
            DataType::String | DataType::Variant | DataType::Bitmap => true,
            _ => false,
        }
    }

    /// A fixed-size primitive whose value fits a 64-bit word.
    pub open spec fn spec_is_fixed_width(&self) -> bool {
        *self is Boolean || *self is Number
    }

    #[verifier::when_used_as_spec(spec_is_fixed_width)]
    pub fn is_fixed_width(&self) -> (r: bool)
        ensures
            r == self.spec_is_fixed_width(),
    {
        match self {
            DataType::Boolean | DataType::Number(_) => true,
            _ => false,
        }
    }

    /// Structural equality of two types.
    pub fn equals(&self, other: &DataType) -> (r: bool)
        ensures
            r == (*self == *other),
        decreases *self,
    {
        match (self, other) {
            (DataType::Boolean, DataType::Boolean) => true,
            (DataType::Number(a), DataType::Number(b)) => *a == *b,
            (DataType::String, DataType::String) => true,
            (DataType::Variant, DataType::Variant) => true,
            (DataType::Bitmap, DataType::Bitmap) => true,
            (DataType::Nullable(a), DataType::Nullable(b)) => a.equals(b),
            _ => false,
        }
    }
}

/// One value of a column, as contracts see it: integers of every width are
/// mathematical integers, and the three byte-string types share one shape.
pub enum Value {
    Null,
    Boolean(bool),
    Number(int),
    Bytes(Seq<u8>),
}

/// Whether `v` is a value of type `t`.
pub open spec fn value_has_type(v: Value, t: DataType) -> bool
    decreases t,
{
    match t {
        DataType::Boolean => v is Boolean,
        DataType::Number(n) => v matches Value::Number(x) && n.contains(x),
        DataType::String | DataType::Variant | DataType::Bitmap => v matches Value::Bytes(bytes)
            && bytes.len() <= usize::MAX,
        DataType::Nullable(inner) => v is Null || (!(*inner is Nullable) && value_has_type(v, *inner)),
    }
}

/// A column of byte strings, stored back to back in one buffer with the
/// boundary of every value recorded in `offsets`.
#[derive(Debug, Clone, PartialEq, Eq)]
pub struct StringColumn {
    data: Vec<u8>,
    offsets: Vec<usize>,
}

impl View for StringColumn {
    type V = Seq<Seq<u8>>;

    closed spec fn view(&self) -> Seq<Seq<u8>> {
        Seq::new(
            (self.offsets@.len() - 1) as nat,
            |i: int| self.data@.subrange(self.offsets@[i] as int, self.offsets@[i + 1] as int),
        )
    }
}

impl StringColumn {
    /// The offsets start at zero, never decrease and end at the length of the buffer.
    pub closed spec fn wf(&self) -> bool {
        &&& self.offsets@.len() >= 1
        &&& self.offsets@[0] == 0
        &&& self.offsets@[self.offsets@.len() - 1] == self.data@.len()
        &&& forall|i: int, j: int|
            0 <= i <= j < self.offsets@.len() ==> self.offsets@[i] <= self.offsets@[j]
    }

    /// A column without rows.
    pub fn new() -> (r: Self)
        ensures
            r.wf(),
            r@ == Seq::<Seq<u8>>::empty(),
    {
        let mut offsets: Vec<usize> = Vec::new();
        offsets.push(0);
        let r = StringColumn { data: Vec::new(), offsets };
        assert(r@ =~= Seq::<Seq<u8>>::empty());
        r
    }

    /// Appends one value as the last row.
    pub fn push(&mut self, value: &[u8])
        requires
            old(self).wf(),
        ensures
            final(self).wf(),
            final(self)@ == old(self)@.push(value@),
    {
        let ghost before = *self;
        self.data.extend_from_slice(value);
        self.offsets.push(self.data.len());
        proof {
            let n = before.offsets@.len() as int;
            assert forall|i: int| 0 <= i < n - 1 implies #[trigger] self@[i] == before@[i] by {
                assert(before.offsets@[i] <= before.offsets@[i + 1] <= before.offsets@[n - 1]);
                assert(self.data@.subrange(self.offsets@[i] as int, self.offsets@[i + 1] as int)
                    =~= before.data@.subrange(
                    before.offsets@[i] as int,
                    before.offsets@[i + 1] as int,
                ));
            }
            assert(self@[n - 1] =~= value@);
            assert(self@ =~= before@.push(value@));
        }
    }

    /// The column whose rows are `values`, in order.
    pub fn from_data(values: &Vec<Vec<u8>>) -> (r: Self)
        ensures
            r.wf(),
            r@ == Seq::new(values@.len(), |i: int| values@[i]@),
    {
        let mut r = StringColumn::new();
        let mut i: usize = 0;
        while i < values.len()
            invariant
                i <= values.len(),
                r.wf(),
                r@ == Seq::new(i as nat, |k: int| values@[k]@),
            decreases values.len() - i,
        {
            r.push(values[i].as_slice());
            i += 1;
            assert(r@ =~= Seq::new(i as nat, |k: int| values@[k]@));
        }
        r
    }

    pub open spec fn spec_len(&self) -> usize {
        self@.len() as usize
    }

    /// Number of rows.
    #[verifier::when_used_as_spec(spec_len)]
    pub fn len(&self) -> (r: usize)
        requires
            self.wf(),
        ensures
            r == self@.len(),
    {
        self.offsets.len() - 1
    }

    /// The value of row `row`.
    pub fn index(&self, row: usize) -> (r: &[u8])
        requires
            self.wf(),
            row < self@.len(),
        ensures
            r@ == self@[row as int],
    {
        let bounds: usize = self.offsets.len();
        assert(self@.len() == bounds - 1);
        let start: usize = self.offsets[row];
        let end: usize = self.offsets[row + 1];
        assert(self.offsets@[row as int] <= self.offsets@[row + 1] <= self.offsets@[self.offsets@.len() - 1]);
        slice_subrange(self.data.as_slice(), start, end)
    }

    /// No row is longer than the buffer, whose length a machine word holds.
    pub proof fn lemma_row_len(&self, row: int)
        requires
            self.wf(),
            0 <= row < self@.len(),
        ensures
            self@[row].len() <= usize::MAX,
    {
        let n = self.offsets@.len() as int;
        assert(self.offsets@[row] <= self.offsets@[row + 1] <= self.offsets@[n - 1]);
        assert(self.data@.len() <= usize::MAX);
    }

    /// A cursor placed before the first row.
    pub fn iter(&self) -> (r: StringIterator<'_>)
        requires
            self.wf(),
        ensures
            r.wf(),
            r.remaining() == self@,
    {
        let r = StringIterator { column: self, pos: 0 };
        assert(r.remaining() =~= self@);
        r
    }
}

/// A forward cursor over the rows of a [`StringColumn`].
#[derive(Debug, Clone)]
pub struct StringIterator<'a> {
    column: &'a StringColumn,
    pos: usize,
}

impl<'a> StringIterator<'a> {
    pub closed spec fn wf(&self) -> bool {
        self.column.wf() && self.pos <= self.column@.len()
    }

    /// The rows not yet handed out, in order.
    pub closed spec fn remaining(&self) -> Seq<Seq<u8>> {
        self.column@.skip(self.pos as int)
    }

    /// Number of rows not yet handed out.
    pub fn len(&self) -> (r: usize)
        requires
            self.wf(),
        ensures
            r == self.remaining().len(),
    {
        self.column.len() - self.pos
    }

    /// Hands out the next row, or `None` once every row has been handed out.
    pub fn next(&mut self) -> (r: Option<&'a [u8]>)
        requires
            old(self).wf(),
        ensures
            final(self).wf(),
            match r {
                Some(key) => old(self).remaining().len() > 0 && key@ == old(self).remaining()[0]
                    && final(self).remaining() == old(self).remaining().skip(1),
                None => old(self).remaining().len() == 0 && final(self).remaining()
                    == old(self).remaining(),
            },
    {
        let column: &'a StringColumn = self.column;
        if self.pos < column.len() {
            let key = column.index(self.pos);
            self.pos += 1;
            assert(self.remaining() =~= old(self).remaining().skip(1));
            Some(key)
        } else {
            None
        }
    }
}


/// Appends the elements of `src` to `dst`, in order.
pub fn extend_from<T: Copy>(dst: &mut Vec<T>, src: &[T])
    ensures
        final(dst)@ == old(dst)@ + src@,
{
    let mut i: usize = 0;
    while i < src.len()
        invariant
            i <= src.len(),
            dst@ == old(dst)@ + src@.take(i as int),
        decreases src.len() - i,
    {
        dst.push(src[i]);
        i += 1;
        assert(dst@ =~= old(dst)@ + src@.take(i as int));
    }
    assert(src@.take(src@.len() as int) =~= src@);
}

/// A column of fixed-width integers.
#[derive(Debug, Clone, PartialEq, Eq)]
pub enum NumberColumn {
    UInt8(Vec<u8>),
    UInt16(Vec<u16>),
    UInt32(Vec<u32>),
    UInt64(Vec<u64>),
    Int8(Vec<i8>),
    Int16(Vec<i16>),
    Int32(Vec<i32>),
    Int64(Vec<i64>),
}

impl NumberColumn {
    /// The integer type of the values.
    pub open spec fn spec_number_type(&self) -> NumberDataType {
        match self {
            NumberColumn::UInt8(_) => NumberDataType::UInt8,
            NumberColumn::UInt16(_) => NumberDataType::UInt16,
            NumberColumn::UInt32(_) => NumberDataType::UInt32,
            NumberColumn::UInt64(_) => NumberDataType::UInt64,
            NumberColumn::Int8(_) => NumberDataType::Int8,
            NumberColumn::Int16(_) => NumberDataType::Int16,
            NumberColumn::Int32(_) => NumberDataType::Int32,
            NumberColumn::Int64(_) => NumberDataType::Int64,
        }
    }

    /// The integer type of the values.
    #[verifier::when_used_as_spec(spec_number_type)]
    pub fn number_type(&self) -> (r: NumberDataType)
        ensures
            r == self.spec_number_type(),
    {
        match self {
            NumberColumn::UInt8(_) => NumberDataType::UInt8,
            NumberColumn::UInt16(_) => NumberDataType::UInt16,
            NumberColumn::UInt32(_) => NumberDataType::UInt32,
            NumberColumn::UInt64(_) => NumberDataType::UInt64,
            NumberColumn::Int8(_) => NumberDataType::Int8,
            NumberColumn::Int16(_) => NumberDataType::Int16,
            NumberColumn::Int32(_) => NumberDataType::Int32,
            NumberColumn::Int64(_) => NumberDataType::Int64,
        }
    }

    /// The values as mathematical integers, row by row.
    pub open spec fn ints(&self) -> Seq<int> {
        match self {
            NumberColumn::UInt8(v) => Seq::new(v@.len(), |i: int| v@[i] as int),
            NumberColumn::UInt16(v) => Seq::new(v@.len(), |i: int| v@[i] as int),
            NumberColumn::UInt32(v) => Seq::new(v@.len(), |i: int| v@[i] as int),
            NumberColumn::UInt64(v) => Seq::new(v@.len(), |i: int| v@[i] as int),
            NumberColumn::Int8(v) => Seq::new(v@.len(), |i: int| v@[i] as int),
            NumberColumn::Int16(v) => Seq::new(v@.len(), |i: int| v@[i] as int),
            NumberColumn::Int32(v) => Seq::new(v@.len(), |i: int| v@[i] as int),
            NumberColumn::Int64(v) => Seq::new(v@.len(), |i: int| v@[i] as int),
        }
    }

    pub open spec fn spec_len(&self) -> usize {
        self.ints().len() as usize
    }

    /// Number of rows.
    #[verifier::when_used_as_spec(spec_len)]
    pub fn len(&self) -> (r: usize)
        ensures
            r == self.ints().len(),
    {
        match self {
            NumberColumn::UInt8(v) => v.len(),
            NumberColumn::UInt16(v) => v.len(),
            NumberColumn::UInt32(v) => v.len(),
            NumberColumn::UInt64(v) => v.len(),
            NumberColumn::Int8(v) => v.len(),
            NumberColumn::Int16(v) => v.len(),
            NumberColumn::Int32(v) => v.len(),
            NumberColumn::Int64(v) => v.len(),
        }
    }

    /// A column of the given type without rows.
    pub fn new_empty(number_type: NumberDataType) -> (r: Self)
        ensures
            r.number_type() == number_type,
            r.ints() == Seq::<int>::empty(),
    {
        let r = match number_type {
            NumberDataType::UInt8 => NumberColumn::UInt8(Vec::new()),
            NumberDataType::UInt16 => NumberColumn::UInt16(Vec::new()),
            NumberDataType::UInt32 => NumberColumn::UInt32(Vec::new()),
            NumberDataType::UInt64 => NumberColumn::UInt64(Vec::new()),
            NumberDataType::Int8 => NumberColumn::Int8(Vec::new()),
            NumberDataType::Int16 => NumberColumn::Int16(Vec::new()),
            NumberDataType::Int32 => NumberColumn::Int32(Vec::new()),
            NumberDataType::Int64 => NumberColumn::Int64(Vec::new()),
        };
        assert(r.ints() =~= Seq::<int>::empty());
        r
    }

    /// Appends the rows of `other`, which holds the same integer type.
    pub fn append(&mut self, other: &NumberColumn)
        requires
            old(self).number_type() == other.number_type(),
        ensures
            final(self).number_type() == old(self).number_type(),
            final(self).ints() == old(self).ints() + other.ints(),
    {
        match (self, other) {
            (NumberColumn::UInt8(a), NumberColumn::UInt8(b)) => extend_from(a, b.as_slice()),
            (NumberColumn::UInt16(a), NumberColumn::UInt16(b)) => extend_from(a, b.as_slice()),
            (NumberColumn::UInt32(a), NumberColumn::UInt32(b)) => extend_from(a, b.as_slice()),
            (NumberColumn::UInt64(a), NumberColumn::UInt64(b)) => extend_from(a, b.as_slice()),
            (NumberColumn::Int8(a), NumberColumn::Int8(b)) => extend_from(a, b.as_slice()),
            (NumberColumn::Int16(a), NumberColumn::Int16(b)) => extend_from(a, b.as_slice()),
            (NumberColumn::Int32(a), NumberColumn::Int32(b)) => extend_from(a, b.as_slice()),
            (NumberColumn::Int64(a), NumberColumn::Int64(b)) => extend_from(a, b.as_slice()),
            _ => {},
        }
        assert(final(self).ints() =~= old(self).ints() + other.ints());
    }
}


/// The 64-bit word that stands for the integer `v` of type `t`: the value itself
/// when it is not negative, its two's complement in the width of `t` otherwise.
pub open spec fn number_bits(t: NumberDataType, v: int) -> int {
    if v >= 0 {
        v
    } else {
        match t.spec_byte_size() {
            1 => v + 0x100,
            2 => v + 0x1_0000,
            4 => v + 0x1_0000_0000,
            _ => v + 0x1_0000_0000_0000_0000,
        }
    }
}

impl NumberColumn {
    /// The word that stands for the value of row `row`.
    pub fn bits_at(&self, row: usize) -> (r: u64)
        requires
            row < self.ints().len(),
        ensures
            r == number_bits(self.number_type(), self.ints()[row as int]),
    {
        match self {
            NumberColumn::UInt8(v) => v[row] as u64,
            NumberColumn::UInt16(v) => v[row] as u64,
            NumberColumn::UInt32(v) => v[row] as u64,
            NumberColumn::UInt64(v) => v[row],
            NumberColumn::Int8(v) => {
                let x: i8 = v[row];
                if x >= 0 {
                    x as u64
                } else {
                    (x as i128 + 0x100i128) as u64
                }
            },
            NumberColumn::Int16(v) => {
                let x: i16 = v[row];
                if x >= 0 {
                    x as u64
                } else {
                    (x as i128 + 0x1_0000i128) as u64
                }
            },
            NumberColumn::Int32(v) => {
                let x: i32 = v[row];
                if x >= 0 {
                    x as u64
                } else {
                    (x as i128 + 0x1_0000_0000i128) as u64
                }
            },
            NumberColumn::Int64(v) => {
                let x: i64 = v[row];
                if x >= 0 {
                    x as u64
                } else {
                    (x as i128 + 0x1_0000_0000_0000_0000i128) as u64
                }
            },
        }
    }
}

impl StringColumn {
    /// Appends the rows of `other`.
    pub fn append(&mut self, other: &StringColumn)
        requires
            old(self).wf(),
            other.wf(),
        ensures
            final(self).wf(),
            final(self)@ == old(self)@ + other@,
    {
        let mut i: usize = 0;
        let n: usize = other.len();
        while i < n
            invariant
                i <= n,
                n == other@.len(),
                other.wf(),
                self.wf(),
                self@ == old(self)@ + other@.take(i as int),
            decreases n - i,
        {
            self.push(other.index(i));
            i += 1;
            assert(self@ =~= old(self)@ + other@.take(i as int));
        }
        assert(other@.take(n as int) =~= other@);
    }
}

/// A column in which a row may hold no value.
#[derive(Debug, PartialEq, Eq)]
pub struct NullableColumn {
    pub column: Column,
    pub validity: Vec<bool>,
}

impl NullableColumn {
    /// Pairs a column with one validity flag for each of its rows; refused
    /// when the flags are not as many as the rows or the column is itself
    /// nullable.
    pub fn new(column: Column, validity: Vec<bool>) -> (r: Result<Self, crate::error::ErrorCode>)
        requires
            column.wf(),
        ensures
            r is Ok <==> !(column is Nullable) && validity@.len() == column.values().len(),
            r matches Ok(nullable) ==> nullable.column == column && nullable.validity == validity,
            r matches Err(e) ==> e == crate::error::ErrorCode::DataStructMissMatch(
                "validity does not fit the column",
            ),
    {
        let nested = match &column {
            Column::Nullable(_) => true,
            _ => false,
        };
        if nested || validity.len() != column.len() {
            Err(crate::error::ErrorCode::DataStructMissMatch("validity does not fit the column"))
        } else {
            Ok(NullableColumn { column, validity })
        }
    }
}

/// A homogeneous sequence of values of one logical type.
#[derive(Debug, PartialEq, Eq)]
pub enum Column {
    Boolean(Vec<bool>),
    Number(NumberColumn),
    String(StringColumn),
    Variant(StringColumn),
    Bitmap(StringColumn),
    Nullable(Box<NullableColumn>),
}

impl View for Column {
    type V = ColumnView;

    open spec fn view(&self) -> ColumnView {
        ColumnView { data_type: self.spec_data_type(), values: self.values() }
    }
}

/// What contracts say of a column: its logical type and its values, row by row.
pub struct ColumnView {
    pub data_type: DataType,
    pub values: Seq<Value>,
}

impl Column {
    /// Every part of the column is consistent: offsets delimit the buffer of a
    /// byte-string column, and a nullable column has one validity flag for each
    /// row of a column that is not itself nullable.
    pub open spec fn wf(&self) -> bool
        decreases self,
    {
        match self {
            Column::Boolean(_) => true,
            Column::Number(_) => true,
            Column::String(c) => c.wf(),
            Column::Variant(c) => c.wf(),
            Column::Bitmap(c) => c.wf(),
            Column::Nullable(n) => !(n.column is Nullable) && n.column.wf() && n.validity@.len()
                == n.column.values().len(),
        }
    }

    /// The logical type of the values.
    pub open spec fn spec_data_type(&self) -> DataType
        decreases self,
    {
        match self {
            Column::Boolean(_) => DataType::Boolean,
            Column::Number(n) => DataType::Number(n.number_type()),
            Column::String(_) => DataType::String,
            Column::Variant(_) => DataType::Variant,
            Column::Bitmap(_) => DataType::Bitmap,
            Column::Nullable(n) => DataType::Nullable(Box::new(n.column.spec_data_type())),
        }
    }

    /// The values, row by row; a row of a nullable column whose flag is unset holds `Null`.
    pub open spec fn values(&self) -> Seq<Value>
        decreases self,
    {
        match self {
            Column::Boolean(v) => Seq::new(v@.len(), |i: int| Value::Boolean(v@[i])),
            Column::Number(n) => Seq::new(n.ints().len(), |i: int| Value::Number(n.ints()[i])),
            Column::String(c) => Seq::new(c@.len(), |i: int| Value::Bytes(c@[i])),
            Column::Variant(c) => Seq::new(c@.len(), |i: int| Value::Bytes(c@[i])),
            Column::Bitmap(c) => Seq::new(c@.len(), |i: int| Value::Bytes(c@[i])),
            Column::Nullable(n) => Seq::new(
                n.validity@.len(),
                |i: int|
                    if n.validity@[i] {
                        n.column.values()[i]
                    } else {
                        Value::Null
                    },
            ),
        }
    }

    /// Every value of a well-formed column is a value of the column's type.
    pub proof fn lemma_values_have_type(&self, row: int)
        requires
            self.wf(),
            0 <= row < self.values().len(),
        ensures
            value_has_type(self.values()[row], self.spec_data_type()),
        decreases self,
    {
        match self {
            Column::Nullable(n) => {
                if n.validity@[row] {
                    n.column.lemma_values_have_type(row);
                }
            },
            Column::Number(n) => {
                assert(n.number_type().contains(n.ints()[row]));
            },
            Column::String(c) => c.lemma_row_len(row),
            Column::Variant(c) => c.lemma_row_len(row),
            Column::Bitmap(c) => c.lemma_row_len(row),
            _ => {},
        }
    }

    /// The type of a well-formed column is well formed.
    pub proof fn lemma_data_type_wf(&self)
        requires
            self.wf(),
        ensures
            self.spec_data_type().wf(),
    {
        match self {
            Column::Nullable(n) => {
                assert(!(n.column.spec_data_type() is Nullable));
            },
            _ => {},
        }
    }

    /// The logical type of the values.
    #[verifier::when_used_as_spec(spec_data_type)]
    pub fn data_type(&self) -> (r: DataType)
        ensures
            r == self.spec_data_type(),
        decreases self,
    {
        match self {
            Column::Boolean(_) => DataType::Boolean,
            Column::Number(n) => DataType::Number(n.number_type()),
            Column::String(_) => DataType::String,
            Column::Variant(_) => DataType::Variant,
            Column::Bitmap(_) => DataType::Bitmap,
            Column::Nullable(n) => DataType::Nullable(Box::new(n.column.data_type())),
        }
    }

    pub open spec fn spec_len(&self) -> usize {
        self.values().len() as usize
    }

    /// Number of rows.
    #[verifier::when_used_as_spec(spec_len)]
    pub fn len(&self) -> (r: usize)
        requires
            self.wf(),
        ensures
            r == self.values().len(),
    {
        match self {
            Column::Boolean(v) => v.len(),
            Column::Number(n) => n.len(),
            Column::String(c) => c.len(),
            Column::Variant(c) => c.len(),
            Column::Bitmap(c) => c.len(),
            Column::Nullable(n) => n.validity.len(),
        }
    }

    /// A column of type `data_type` without rows.
    pub fn new_empty(data_type: &DataType) -> (r: Self)
        requires
            data_type.wf(),
        ensures
            r.wf(),
            r@.data_type == *data_type,
            r@.values == Seq::<Value>::empty(),
        decreases *data_type,
    {
        let r = match data_type {
            DataType::Boolean => Column::Boolean(Vec::new()),
            DataType::Number(t) => Column::Number(NumberColumn::new_empty(*t)),
            DataType::String => Column::String(StringColumn::new()),
            DataType::Variant => Column::Variant(StringColumn::new()),
            DataType::Bitmap => Column::Bitmap(StringColumn::new()),
            DataType::Nullable(inner) => {
                let column = Column::new_empty(inner);
                Column::Nullable(Box::new(NullableColumn { column, validity: Vec::new() }))
            },
        };
        assert(r.values() =~= Seq::<Value>::empty());
        r
    }

    /// Appends the rows of `other`, a column of the same logical type.
    pub fn append(&mut self, other: &Column)
        requires
            old(self).wf(),
            other.wf(),
            old(self)@.data_type == other@.data_type,
        ensures
            final(self).wf(),
            final(self)@.data_type == old(self)@.data_type,
            final(self)@.values == old(self)@.values + other@.values,
        decreases *old(self),
    {
        match (self, other) {
            (Column::Boolean(a), Column::Boolean(b)) => extend_from(a, b.as_slice()),
            (Column::Number(a), Column::Number(b)) => a.append(b),
            (Column::String(a), Column::String(b)) => a.append(b),
            (Column::Variant(a), Column::Variant(b)) => a.append(b),
            (Column::Bitmap(a), Column::Bitmap(b)) => a.append(b),
            (Column::Nullable(a), Column::Nullable(b)) => {
                a.column.append(&b.column);
                extend_from(&mut a.validity, b.validity.as_slice());
            },
            _ => {},
        }
        assert(final(self).values() =~= old(self).values() + other.values());
    }
}

} // verus!
