//! The columnar batch: the unit of data that moves through a pipeline.

use vstd::prelude::*;
use crate::column::Column;
use crate::column::ColumnView;
use crate::column::DataType;
use crate::column::Value;
use crate::error::ErrorCode;

verus! {

/// An immutable table fragment: typed columns of one common length.
#[derive(Debug, PartialEq, Eq)]
pub struct DataBlock {
    columns: Vec<Column>,
    num_rows: usize,
}

/// What contracts say of a batch: its columns and its number of rows.
pub struct DataBlockView {
    pub columns: Seq<ColumnView>,
    pub num_rows: nat,
}

impl View for DataBlock {
    type V = DataBlockView;

    closed spec fn view(&self) -> DataBlockView {
        DataBlockView {
            columns: Seq::new(self.columns@.len(), |c: int| self.columns@[c]@),
            num_rows: self.num_rows as nat,
        }
    }
}

impl DataBlockView {
    /// The logical types of the columns, in order.
    pub open spec fn schema(self) -> Seq<DataType> {
        Seq::new(self.columns.len(), |c: int| self.columns[c].data_type)
    }

    /// Every column has one value for each row.
    pub open spec fn wf(self) -> bool {
        forall|c: int| 0 <= c < self.columns.len() ==> (#[trigger] self.columns[c]).values.len() == self.num_rows
    }
}

/// The values that column `c` holds across `blocks`: those of the first
/// batch, then those of the second, and so on.
pub open spec fn concat_values(blocks: Seq<DataBlockView>, c: int) -> Seq<Value>
    decreases blocks.len(),
{
    if blocks.len() == 0 {
        Seq::empty()
    } else {
        concat_values(blocks.drop_last(), c) + blocks.last().columns[c].values
    }
}

/// The rows of `blocks` put one after the other, in order, under the schema
/// of the first batch.
pub open spec fn concat_views(blocks: Seq<DataBlockView>) -> DataBlockView {
    DataBlockView {
        columns: Seq::new(
            blocks[0].columns.len(),
            |c: int|
                ColumnView {
                    data_type: blocks[0].columns[c].data_type,
                    values: concat_values(blocks, c),
                },
        ),
        num_rows: total_rows(blocks),
    }
}

/// The number of rows of all of `blocks` together.
pub open spec fn total_rows(blocks: Seq<DataBlockView>) -> nat
    decreases blocks.len(),
{
    if blocks.len() == 0 {
        0
    } else {
        total_rows(blocks.drop_last()) + blocks.last().num_rows
    }
}

/// The views of a sequence of batches, batch by batch.
pub open spec fn views_of(blocks: Seq<DataBlock>) -> Seq<DataBlockView> {
    Seq::new(blocks.len(), |b: int| blocks[b]@)
}

/// Whether every batch has the schema of the first one.
pub open spec fn same_schema(blocks: Seq<DataBlockView>) -> bool {
    forall|b: int| 0 <= b < blocks.len() ==> (#[trigger] blocks[b]).schema() == blocks[0].schema()
}

impl DataBlock {
    /// The columns are well formed and each is `num_rows` long.
    pub closed spec fn wf(&self) -> bool {
        forall|c: int|
            0 <= c < self.columns@.len() ==> (#[trigger] self.columns@[c]).wf()
                && self.columns@[c].values().len() == self.num_rows
    }

    #[verifier::type_invariant]
    spec fn well_formed(&self) -> bool {
        self.wf()
    }

    /// The column at position `c`.
    pub closed spec fn column_spec(&self, c: int) -> Column {
        self.columns@[c]
    }

    /// A well-formed batch has a well-formed view.
    pub proof fn lemma_view_wf(&self)
        requires
            self.wf(),
        ensures
            self@.wf(),
    {
    }

    /// A batch without columns and without rows.
    pub fn empty() -> (r: Self)
        ensures
            r.wf(),
            r@.columns.len() == 0,
            r@.num_rows == 0,
    {
        DataBlock { columns: Vec::new(), num_rows: 0 }
    }

    /// The batch of `num_rows` rows that holds `columns`; refused when a
    /// column has another length.
    pub fn create(columns: Vec<Column>, num_rows: usize) -> (r: Result<Self, ErrorCode>)
        requires
            forall|c: int| 0 <= c < columns@.len() ==> (#[trigger] columns@[c]).wf(),
        ensures
            r is Ok <==> forall|c: int|
                0 <= c < columns@.len() ==> (#[trigger] columns@[c])@.values.len() == num_rows,
            r matches Ok(block) ==> block.wf() && block@.num_rows == num_rows && block@.columns
                == Seq::new(columns@.len(), |c: int| columns@[c]@),
            r matches Err(e) ==> e == ErrorCode::DataStructMissMatch("column length differs from the number of rows"),
    {
        let mut c: usize = 0;
        while c < columns.len()
            invariant
                c <= columns.len(),
                forall|k: int| 0 <= k < columns@.len() ==> (#[trigger] columns@[k]).wf(),
                forall|k: int| 0 <= k < c ==> (#[trigger] columns@[k])@.values.len() == num_rows,
            decreases columns.len() - c,
        {
            if columns[c].len() != num_rows {
                return Err(ErrorCode::DataStructMissMatch("column length differs from the number of rows"));
            }
            c += 1;
        }
        Ok(DataBlock { columns, num_rows })
    }

    /// Number of rows.
    pub fn num_rows(&self) -> (r: usize)
        ensures
            r == self@.num_rows,
    {
        self.num_rows
    }

    /// Number of columns.
    pub fn num_columns(&self) -> (r: usize)
        ensures
            r == self@.columns.len(),
    {
        self.columns.len()
    }

    /// Whether the batch has no rows.
    pub fn is_empty(&self) -> (r: bool)
        ensures
            r == (self@.num_rows == 0),
    {
        self.num_rows == 0
    }

    /// The column at position `index`.
    pub fn column(&self, index: usize) -> (r: &Column)
        requires
            index < self@.columns.len(),
        ensures
            r.wf(),
            *r == self.column_spec(index as int),
            r@ == self@.columns[index as int],
            r@.values.len() == self@.num_rows,
    {
        proof {
            use_type_invariant(self);
        }
        &self.columns[index]
    }
}


/// The total only grows as more batches are counted.
pub proof fn lemma_total_rows_monotone(blocks: Seq<DataBlockView>, upto: int)
    requires
        0 <= upto <= blocks.len(),
    ensures
        total_rows(blocks.take(upto)) <= total_rows(blocks),
    decreases blocks.len() - upto,
{
    if upto < blocks.len() {
        lemma_total_rows_monotone(blocks, upto + 1);
        assert(blocks.take(upto + 1).drop_last() =~= blocks.take(upto));
    } else {
        assert(blocks.take(upto) =~= blocks);
    }
}

/// Across well-formed batches of one schema, every concatenated column is as
/// long as the batches have rows together.
pub proof fn lemma_concat_values_len(blocks: Seq<DataBlockView>, c: int)
    requires
        blocks.len() > 0,
        same_schema(blocks),
        forall|b: int| 0 <= b < blocks.len() ==> (#[trigger] blocks[b]).wf(),
        0 <= c < blocks[0].columns.len(),
    ensures
        concat_values(blocks, c).len() == total_rows(blocks),
    decreases blocks.len(),
{
    let last = blocks.last();
    assert(last.schema().len() == blocks[0].schema().len());
    assert(last.columns[c].values.len() == last.num_rows);
    if blocks.len() > 1 {
        let head = blocks.drop_last();
        assert(head[0] == blocks[0]);
        assert forall|b: int| 0 <= b < head.len() implies (#[trigger] head[b]).schema()
            == head[0].schema() by {
            assert(head[b] == blocks[b]);
        }
        assert forall|b: int| 0 <= b < head.len() implies (#[trigger] head[b]).wf() by {
            assert(head[b] == blocks[b]);
        }
        lemma_concat_values_len(head, c);
    } else {
        assert(blocks.drop_last().len() == 0);
        assert(concat_values(blocks.drop_last(), c).len() == 0);
        assert(total_rows(blocks.drop_last()) == 0);
    }
}

impl DataBlock {
    /// Whether two batches have the same number of columns and the same type
    /// in every position.
    pub fn same_schema_as(&self, other: &DataBlock) -> (r: bool)
        ensures
            r == (self@.schema() == other@.schema()),
    {
        if self.num_columns() != other.num_columns() {
            assert(self@.schema().len() != other@.schema().len());
            return false;
        }
        let mut c: usize = 0;
        while c < self.num_columns()
            invariant
                c <= self@.columns.len(),
                self@.columns.len() == other@.columns.len(),
                forall|k: int| 0 <= k < c ==> self@.schema()[k] == other@.schema()[k],
            decreases self@.columns.len() - c,
        {
            let mine = self.column(c).data_type();
            let theirs = other.column(c).data_type();
            if !mine.equals(&theirs) {
                assert(self@.schema()[c as int] != other@.schema()[c as int]);
                return false;
            }
            c += 1;
        }
        assert(self@.schema() =~= other@.schema());
        true
    }

    /// Puts the rows of `blocks` one after the other into one batch.
    ///
    /// Refused when there is no batch, when a batch has another schema than
    /// the first, and when the rows together are more than a batch can count.
    pub fn concat_blocks(blocks: &[DataBlock]) -> (r: Result<DataBlock, ErrorCode>)
        ensures
            match r {
                Ok(block) => {
                    &&& blocks@.len() > 0
                    &&& same_schema(views_of(blocks@))
                    &&& total_rows(views_of(blocks@)) <= usize::MAX
                    &&& block.wf()
                    &&& block@ == concat_views(views_of(blocks@))
                },
                Err(e) => {
                    if blocks@.len() == 0 {
                        e == ErrorCode::EmptyData("Can't concat empty blocks")
                    } else if !same_schema(views_of(blocks@)) {
                        e == ErrorCode::DataStructMissMatch("Schema not matched")
                    } else {
                        total_rows(views_of(blocks@)) > usize::MAX && e
                            == ErrorCode::UnexpectedError("Too many rows to concat")
                    }
                },
            },
    {
        if blocks.len() == 0 {
            return Err(ErrorCode::EmptyData("Can't concat empty blocks"));
        }
        let ghost views = views_of(blocks@);
        let first = &blocks[0];
        let mut b: usize = 0;
        while b < blocks.len()
            invariant
                b <= blocks.len(),
                views == views_of(blocks@),
                first == &blocks@[0],
                forall|k: int| 0 <= k < b ==> (#[trigger] views[k]).schema() == views[0].schema(),
                forall|k: int| 0 <= k < b ==> (#[trigger] views[k]).wf(),
            decreases blocks.len() - b,
        {
            let block = &blocks[b];
            proof {
                use_type_invariant(block);
                block.lemma_view_wf();
            }
            if !block.same_schema_as(first) {
                assert(views[b as int].schema() != views[0].schema());
                return Err(ErrorCode::DataStructMissMatch("Schema not matched"));
            }
            b += 1;
        }
        let mut rows: usize = 0;
        b = 0;
        while b < blocks.len()
            invariant
                b <= blocks.len(),
                blocks@.len() > 0,
                views == views_of(blocks@),
                same_schema(views),
                rows == total_rows(views.take(b as int)),
                forall|k: int| 0 <= k < views.len() ==> (#[trigger] views[k]).wf(),
            decreases blocks.len() - b,
        {
            proof {
                assert(views.take(b + 1).drop_last() =~= views.take(b as int));
                lemma_total_rows_monotone(views, b + 1);
            }
            match rows.checked_add(blocks[b].num_rows()) {
                Some(sum) => {
                    rows = sum;
                },
                None => {
                    return Err(ErrorCode::UnexpectedError("Too many rows to concat"));
                },
            }
            b += 1;
        }
        assert(views.take(blocks@.len() as int) =~= views);
        let mut columns: Vec<Column> = Vec::with_capacity(first.num_columns());
        let mut c: usize = 0;
        while c < first.num_columns()
            invariant
                c <= first@.columns.len(),
                blocks@.len() > 0,
                views == views_of(blocks@),
                first == &blocks@[0],
                same_schema(views),
                forall|k: int| 0 <= k < views.len() ==> (#[trigger] views[k]).wf(),
                rows == total_rows(views),
                columns@.len() == c,
                forall|k: int|
                    0 <= k < c ==> (#[trigger] columns@[k]).wf() && columns@[k]@
                        == concat_views(views).columns[k],
            decreases first@.columns.len() - c,
        {
            let column = concat_column(blocks, c);
            columns.push(column);
            c += 1;
        }
        proof {
            assert forall|k: int| 0 <= k < columns@.len() implies (#[trigger] columns@[k]).wf()
                && columns@[k].values().len() == rows by {
                lemma_concat_values_len(views, k);
            }
        }
        let block = DataBlock { columns, num_rows: rows };
        assert(block@.columns =~= concat_views(views).columns);
        Ok(block)
    }
}

/// Column `c` of the concatenation of `blocks`, which share one schema.
fn concat_column(blocks: &[DataBlock], c: usize) -> (column: Column)
    requires
        blocks@.len() > 0,
        same_schema(views_of(blocks@)),
        c < blocks@[0]@.columns.len(),
    ensures
        column.wf(),
        column@ == concat_views(views_of(blocks@)).columns[c as int],
{
    let ghost views = views_of(blocks@);
    let data_type = blocks[0].column(c).data_type();
    proof {
        blocks@[0].column_spec(c as int).lemma_data_type_wf();
    }
    let mut column = Column::new_empty(&data_type);
    let mut b: usize = 0;
    while b < blocks.len()
        invariant
            b <= blocks.len(),
            views == views_of(blocks@),
            same_schema(views),
            c < views[0].columns.len(),
            column.wf(),
            column@.data_type == views[0].columns[c as int].data_type,
            column@.values == concat_values(views.take(b as int), c as int),
        decreases blocks.len() - b,
    {
        proof {
            assert(views.take(b + 1).drop_last() =~= views.take(b as int));
            assert(views[b as int].schema().len() == views[0].schema().len());
            assert(views[b as int].schema()[c as int] == views[0].schema()[c as int]);
        }
        column.append(blocks[b].column(c));
        b += 1;
    }
    assert(views.take(blocks@.len() as int) =~= views);
    column
}

} // verus!
