use dataflow_core::column::Column;
use dataflow_core::column::DataType;
use dataflow_core::column::StringColumn;
use dataflow_core::contributors_table::contributor_names;
use dataflow_core::contributors_table::trim;
use dataflow_core::contributors_table::ContributorsTable;
use dataflow_core::contributors_table::DataField;
use dataflow_core::contributors_table::TableIdent;

fn rows_of(column: &StringColumn) -> Vec<Vec<u8>> {
    let mut rows = vec![];
    let mut iter = column.iter();
    while let Some(row) = iter.next() {
        rows.push(row.to_vec());
    }
    rows
}

fn by_std(authors: &str) -> Vec<Vec<u8>> {
    authors.split_terminator(',').map(|x| x.trim().as_bytes().to_vec()).collect()
}

#[test]
fn table_is_described_as_system_contributors() {
    assert_eq!(ContributorsTable::NAME, "system.contributors");
    let table = ContributorsTable::create(42);
    let info = table.get_table_info();
    assert_eq!(info.ident, TableIdent { table_id: 42, seq: 0 });
    assert_eq!(info.desc, "'system'.'contributors'");
    assert_eq!(info.name, "contributors");
    assert_eq!(info.meta.engine, "SystemContributors");
    assert_eq!(
        info.meta.schema,
        vec![DataField { name: "name".to_string(), data_type: DataType::String }]
    );
}

#[test]
fn names_are_split_at_commas_and_trimmed() {
    let names = contributor_names(b"Alice, Bob ,\tCarol Danvers\n,");
    assert_eq!(
        rows_of(&names),
        vec![b"Alice".to_vec(), b"Bob".to_vec(), b"Carol Danvers".to_vec()]
    );
}

#[test]
fn a_comma_ends_an_item_and_starts_none() {
    assert_eq!(rows_of(&contributor_names(b"")), Vec::<Vec<u8>>::new());
    assert_eq!(rows_of(&contributor_names(b",")), vec![b"".to_vec()]);
    assert_eq!(rows_of(&contributor_names(b"a")), vec![b"a".to_vec()]);
    assert_eq!(rows_of(&contributor_names(b"a,")), vec![b"a".to_vec()]);
    assert_eq!(rows_of(&contributor_names(b",a")), vec![b"".to_vec(), b"a".to_vec()]);
    assert_eq!(
        rows_of(&contributor_names(b"a,,b")),
        vec![b"a".to_vec(), b"".to_vec(), b"b".to_vec()]
    );
    assert_eq!(rows_of(&contributor_names(b" , ")), vec![b"".to_vec(), b"".to_vec()]);
}

#[test]
fn trim_removes_white_space_of_any_width() {
    assert_eq!(trim(b"  x y \r\n"), b"x y");
    assert_eq!(trim(b"\x0bx\x0c"), b"x");
    assert_eq!(trim("\u{a0}x\u{85}".as_bytes()), b"x");
    assert_eq!(trim("\u{3000}\u{2003} x\u{1680}\u{205f}\u{2028}\u{2029}\u{202f}".as_bytes()), b"x");
    assert_eq!(trim(b""), b"");
    assert_eq!(trim(b" \t "), b"");
    // Not white space: the zero-width space and a lone continuation byte.
    assert_eq!(trim("\u{200b}x".as_bytes()), "\u{200b}x".as_bytes());
    assert_eq!(trim(b"\x1fx\x7f"), b"\x1fx\x7f");
}

#[test]
fn names_agree_with_split_terminator_and_trim() {
    let lists = [
        "",
        ",",
        ",,",
        "a",
        "Ann Lee,Bo",
        " Ann Lee , Bo , ",
        "\u{2009}Zo\u{eb}\u{a0},\u{3000}\u{4e2d}\u{6587} ,x\u{200a}",
        "a,b,c,",
        "  ,x,  ",
        "\u{85},\u{feff}y",
    ];
    for list in lists {
        assert_eq!(rows_of(&contributor_names(list.as_bytes())), by_std(list));
    }
}

#[test]
fn full_data_is_one_string_column() {
    let table = ContributorsTable::create(1);
    let block = table.get_full_data(b"Ann, Bo").unwrap();
    assert_eq!(block.num_rows(), 2);
    assert_eq!(block.num_columns(), 1);
    assert_eq!(block.column(0).data_type(), DataType::String);
    match block.column(0) {
        Column::String(names) => assert_eq!(rows_of(names), vec![b"Ann".to_vec(), b"Bo".to_vec()]),
        _ => panic!("not a string column"),
    }
    let none = table.get_full_data(b"").unwrap();
    assert!(none.is_empty());
    assert_eq!(none.num_columns(), 1);
}
