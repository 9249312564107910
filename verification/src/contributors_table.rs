//! The system table that lists the contributors, one name to a row.

use vstd::prelude::*;
use vstd::slice::slice_subrange;
use crate::column::Column;
use crate::column::DataType;
use crate::column::StringColumn;
use crate::column::Value;
use crate::datablock::DataBlock;
use crate::error::ErrorCode;

verus! {

/// A named column of a table.
#[derive(Debug, PartialEq, Eq)]
pub struct DataField {
    pub name: String,
    pub data_type: DataType,
}

/// The number under which a table is known, and the version of its description.
#[derive(Debug, Clone, Copy, PartialEq, Eq, Structural)]
pub struct TableIdent {
    pub table_id: u64,
    pub seq: u64,
}

/// How a table is made: its columns and the engine that serves it.
#[derive(Debug, PartialEq, Eq)]
pub struct TableMeta {
    pub schema: Vec<DataField>,
    pub engine: String,
}

/// The description of a table.
#[derive(Debug, PartialEq, Eq)]
pub struct TableInfo {
    pub ident: TableIdent,
    pub desc: String,
    pub name: String,
    pub meta: TableMeta,
}

/// Whether the byte is a white-space character of one byte.
pub open spec fn is_space1(a: u8) -> bool {
    (0x09 <= a <= 0x0d) || a == 0x20
}

/// Whether the two bytes are the UTF-8 form of a white-space character.
pub open spec fn is_space2(a: u8, b: u8) -> bool {
    a == 0xc2 && (b == 0x85 || b == 0xa0)
}

/// Whether the three bytes are the UTF-8 form of a white-space character.
pub open spec fn is_space3(a: u8, b: u8, c: u8) -> bool {
    ||| a == 0xe1 && b == 0x9a && c == 0x80
    ||| a == 0xe2 && b == 0x80 && (0x80 <= c <= 0x8a || c == 0xa8 || c == 0xa9 || c == 0xaf)
    ||| a == 0xe2 && b == 0x81 && c == 0x9f
    ||| a == 0xe3 && b == 0x80 && c == 0x80
}

/// How many bytes the white-space character takes with which `s` begins; 0
/// when it begins with none.
pub open spec fn leading_space(s: Seq<u8>) -> int {
    if s.len() >= 1 && is_space1(s[0]) {
        1
    } else if s.len() >= 2 && is_space2(s[0], s[1]) {
        2
    } else if s.len() >= 3 && is_space3(s[0], s[1], s[2]) {
        3
    } else {
        0
    }
}

/// How many bytes the white-space character takes with which `s` ends; 0
/// when it ends with none.
pub open spec fn trailing_space(s: Seq<u8>) -> int {
    let n = s.len() as int;
    if n >= 1 && is_space1(s[n - 1]) {
        1
    } else if n >= 2 && is_space2(s[n - 2], s[n - 1]) {
        2
    } else if n >= 3 && is_space3(s[n - 3], s[n - 2], s[n - 1]) {
        3
    } else {
        0
    }
}

/// `s` without the white space it begins with.
pub open spec fn trim_start(s: Seq<u8>) -> Seq<u8>
    decreases s.len(),
{
    if leading_space(s) == 0 {
        s
    } else {
        trim_start(s.skip(leading_space(s)))
    }
}

/// `s` without the white space it ends with.
pub open spec fn trim_end(s: Seq<u8>) -> Seq<u8>
    decreases s.len(),
{
    if trailing_space(s) == 0 {
        s
    } else {
        trim_end(s.take(s.len() - trailing_space(s)))
    }
}

/// `s` without the white space around it.
pub open spec fn trimmed(s: Seq<u8>) -> Seq<u8> {
    trim_end(trim_start(s))
}

/// The position of the first comma of `s`, or the length of `s` when it has none.
pub open spec fn first_comma(s: Seq<u8>) -> int
    decreases s.len(),
{
    if s.len() == 0 || s[0] == 0x2c {
        0
    } else {
        1 + first_comma(s.skip(1))
    }
}

/// The pieces of a list in which a comma ends every item, the last one
/// at most excepted: what stands before each comma, and what stands behind
/// the last comma unless that is nothing.
pub open spec fn pieces(s: Seq<u8>) -> Seq<Seq<u8>>
    decreases s.len(),
    via pieces_decreases
{
    if s.len() == 0 {
        Seq::empty()
    } else {
        let at = first_comma(s);
        if at < s.len() {
            seq![s.take(at)] + pieces(s.skip(at + 1))
        } else {
            seq![s]
        }
    }
}

#[via_fn]
proof fn pieces_decreases(s: Seq<u8>) {
    lemma_first_comma_in_range(s);
}

/// The first comma lies within the list or right behind it.
pub proof fn lemma_first_comma_in_range(s: Seq<u8>)
    ensures
        0 <= first_comma(s) <= s.len(),
    decreases s.len(),
{
    if s.len() > 0 && s[0] != 0x2c {
        lemma_first_comma_in_range(s.skip(1));
    }
}

/// The names of a list of contributors: its pieces, each without the white
/// space around it.
pub open spec fn contributors(authors: Seq<u8>) -> Seq<Seq<u8>> {
    Seq::new(pieces(authors).len(), |i: int| trimmed(pieces(authors)[i]))
}

/// Where the first comma is: behind `at` bytes none of which is a comma.
proof fn lemma_first_comma_found(s: Seq<u8>, at: int)
    requires
        0 <= at <= s.len(),
        forall|k: int| 0 <= k < at ==> s[k] != 0x2c,
        at < s.len() ==> s[at] == 0x2c,
    ensures
        first_comma(s) == at,
    decreases at,
{
    if at > 0 {
        let rest = s.skip(1);
        assert forall|k: int| 0 <= k < at - 1 implies rest[k] != 0x2c by {
            assert(rest[k] == s[k + 1]);
        }
        lemma_first_comma_found(rest, at - 1);
    }
}

/// The bytes without the white space around them.
pub fn trim(bytes: &[u8]) -> (r: &[u8])
    ensures
        r@ == trimmed(bytes@),
{
    let n: usize = bytes.len();
    let mut start: usize = 0;
    assert(bytes@.skip(0) =~= bytes@);
    loop
        invariant
            start <= n,
            n == bytes@.len(),
            trim_start(bytes@) == trim_start(bytes@.skip(start as int)),
        ensures
            start <= n,
            trim_start(bytes@) == bytes@.skip(start as int),
        decreases n - start,
    {
        let ghost rest = bytes@.skip(start as int);
        let width: usize = if n - start >= 1 && space1(bytes[start]) {
            1
        } else if n - start >= 2 && space2(bytes[start], bytes[start + 1]) {
            2
        } else if n - start >= 3 && space3(bytes[start], bytes[start + 1], bytes[start + 2]) {
            3
        } else {
            0
        };
        assert(width == leading_space(rest));
        if width == 0 {
            break;
        }
        assert(rest.skip(width as int) =~= bytes@.skip(start + width));
        start += width;
    }
    let ghost front = bytes@.skip(start as int);
    let mut end: usize = n;
    assert(front.take(end - start) =~= front);
    loop
        invariant
            start <= end <= n,
            n == bytes@.len(),
            front == bytes@.skip(start as int),
            trim_end(front) == trim_end(front.take(end - start)),
        ensures
            start <= end <= n,
            trim_end(front) == front.take(end - start),
        decreases end - start,
    {
        let ghost rest = front.take(end - start);
        let width: usize = if end - start >= 1 && space1(bytes[end - 1]) {
            1
        } else if end - start >= 2 && space2(bytes[end - 2], bytes[end - 1]) {
            2
        } else if end - start >= 3 && space3(bytes[end - 3], bytes[end - 2], bytes[end - 1]) {
            3
        } else {
            0
        };
        assert(width == trailing_space(rest));
        if width == 0 {
            break;
        }
        assert(rest.take(rest.len() - width) =~= front.take(end - width - start));
        end -= width;
    }
    assert(front.take(end - start) =~= bytes@.subrange(start as int, end as int));
    slice_subrange(bytes, start, end)
}

fn space1(a: u8) -> (r: bool)
    ensures
        r == is_space1(a),
{
    (0x09 <= a && a <= 0x0d) || a == 0x20
}

fn space2(a: u8, b: u8) -> (r: bool)
    ensures
        r == is_space2(a, b),
{
    a == 0xc2 && (b == 0x85 || b == 0xa0)
}

fn space3(a: u8, b: u8, c: u8) -> (r: bool)
    ensures
        r == is_space3(a, b, c),
{
    (a == 0xe1 && b == 0x9a && c == 0x80) || (a == 0xe2 && b == 0x80 && ((0x80 <= c && c <= 0x8a)
        || c == 0xa8 || c == 0xa9 || c == 0xaf)) || (a == 0xe2 && b == 0x81 && c == 0x9f) || (a
        == 0xe3 && b == 0x80 && c == 0x80)
}

/// The names in a list of contributors, in the order of the list.
pub fn contributor_names(authors: &[u8]) -> (names: StringColumn)
    ensures
        names.wf(),
        names@ == contributors(authors@),
{
    let n: usize = authors.len();
    let mut names = StringColumn::new();
    let mut start: usize = 0;
    let mut pos: usize = 0;
    let ghost mut done: Seq<Seq<u8>> = Seq::empty();
    assert(authors@.skip(0) =~= authors@);
    assert(done + pieces(authors@) =~= pieces(authors@));
    while pos < n
        invariant
            start <= pos <= n,
            n == authors@.len(),
            names.wf(),
            names@ == Seq::new(done.len(), |i: int| trimmed(done[i])),
            done + pieces(authors@.skip(start as int)) == pieces(authors@),
            forall|k: int| start <= k < pos ==> authors@[k] != 0x2c,
        decreases n - pos,
    {
        if authors[pos] == 0x2c {
            let piece = slice_subrange(authors, start, pos);
            names.push(trim(piece));
            proof {
                let rest = authors@.skip(start as int);
                lemma_first_comma_found(rest, pos - start);
                assert(rest.take(pos - start) =~= piece@);
                assert(rest.skip(pos - start + 1) =~= authors@.skip(pos + 1));
                assert(done.push(piece@) + pieces(authors@.skip(pos + 1)) =~= done + (seq![
                    piece@,
                ] + pieces(authors@.skip(pos + 1))));
                done = done.push(piece@);
                assert(names@ =~= Seq::new(done.len(), |i: int| trimmed(done[i])));
            }
            start = pos + 1;
        }
        pos += 1;
    }
    if start < n {
        let piece = slice_subrange(authors, start, n);
        names.push(trim(piece));
        proof {
            let rest = authors@.skip(start as int);
            lemma_first_comma_found(rest, n - start);
            assert(rest =~= piece@);
            done = done.push(piece@);
            assert(names@ =~= Seq::new(done.len(), |i: int| trimmed(done[i])));
        }
    } else {
        assert(authors@.skip(start as int).len() == 0);
        assert(done + Seq::<Seq<u8>>::empty() =~= done);
    }
    assert(names@ =~= contributors(authors@));
    names
}

/// The system table of the contributors.
#[derive(Debug, PartialEq, Eq)]
pub struct ContributorsTable {
    table_info: TableInfo,
}

impl ContributorsTable {
    /// The name under which the table is known.
    pub const NAME: &'static str = "system.contributors";

    /// The description the table was created with.
    pub closed spec fn info(&self) -> TableInfo {
        self.table_info
    }

    /// The table under the number `table_id`: one string column, `name`.
    pub fn create(table_id: u64) -> (r: Self)
        ensures
            r.info().ident == (TableIdent { table_id, seq: 0 }),
            r.info().desc@ == "'system'.'contributors'"@,
            r.info().name@ == "contributors"@,
            r.info().meta.engine@ == "SystemContributors"@,
            r.info().meta.schema@.len() == 1,
            r.info().meta.schema@[0].name@ == "name"@,
            r.info().meta.schema@[0].data_type == DataType::String,
    {
        let mut schema: Vec<DataField> = Vec::new();
        schema.push(DataField { name: "name".to_string(), data_type: DataType::String });
        let table_info = TableInfo {
            desc: "'system'.'contributors'".to_string(),
            name: "contributors".to_string(),
            ident: TableIdent { table_id, seq: 0 },
            meta: TableMeta { schema, engine: "SystemContributors".to_string() },
        };
        ContributorsTable { table_info }
    }

    /// The description of the table.
    pub fn get_table_info(&self) -> (r: &TableInfo)
        ensures
            *r == self.info(),
    {
        &self.table_info
    }

    /// The whole table as one batch: a row for every name in `authors`, a
    /// list in which a comma ends every name.
    pub fn get_full_data(&self, authors: &[u8]) -> (r: Result<DataBlock, ErrorCode>)
        ensures
            r matches Ok(block) && block.wf() && block@.num_rows == contributors(authors@).len()
                && block@.columns.len() == 1 && block@.columns[0].data_type == DataType::String
                && block@.columns[0].values == Seq::new(
                contributors(authors@).len(),
                |i: int| Value::Bytes(contributors(authors@)[i]),
            ),
    {
        let names = contributor_names(authors);
        let rows: usize = names.len();
        let mut columns: Vec<Column> = Vec::new();
        columns.push(Column::String(names));
        assert(columns@[0].wf());
        let r = DataBlock::create(columns, rows);
        assert(r is Ok ==> r->Ok_0@.columns[0].values =~= Seq::new(
            contributors(authors@).len(),
            |i: int| Value::Bytes(contributors(authors@)[i]),
        ));
        r
    }
}

} // verus!
