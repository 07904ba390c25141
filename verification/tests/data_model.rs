use crush_core::data::{Cell, CellType, ColumnType, FileValue, InputStream, Row, RowsCell};
use crush_core::errors::Error;

fn text(s: &str) -> Cell {
    Cell::Text(String::from(s))
}

fn text_row(s: &str) -> Row {
    Row { cells: vec![text(s)] }
}

fn line_schema() -> Vec<ColumnType> {
    vec![ColumnType { name: String::from("line"), cell_type: CellType::Text }]
}

fn stream_cell() -> Cell {
    Cell::Stream(InputStream { types: line_schema(), rows: vec![text_row("a"), text_row("b")] })
}

#[test]
fn concrete_is_idempotent_on_a_stream_cell() {
    let once = stream_cell().concrete();
    let twice = stream_cell().concrete().concrete();
    assert_eq!(once, twice);
}

#[test]
fn concrete_materializes_a_live_stream() {
    let c = stream_cell().concrete();
    match c {
        Cell::Rows(rc) => {
            assert_eq!(rc.rows, vec![text_row("a"), text_row("b")]);
            assert_eq!(rc.types, line_schema());
        },
        other => panic!("expected a materialized rows cell, got {:?}", other),
    }
}

#[test]
fn concrete_is_idempotent_on_plain_cells() {
    let once = text("x").concrete();
    let twice = text("x").concrete().concrete();
    assert_eq!(once, twice);
    assert_eq!(once, text("x"));
    let n_once = Cell::Numeric(-3).concrete();
    assert_eq!(n_once, Cell::Numeric(-3));
}

#[test]
fn rows_with_identical_cell_sequences_are_equal_and_hash_equal() {
    let a = Row { cells: vec![text("x"), Cell::Numeric(1)] };
    let b = Row { cells: vec![text("x"), Cell::Numeric(1)] };
    assert_eq!(a, b);
    assert_eq!(a.hash(), b.hash());
}

#[test]
fn reordering_cells_of_differing_value_changes_equality() {
    let a = Row { cells: vec![text("x"), Cell::Numeric(1)] };
    let b = Row { cells: vec![Cell::Numeric(1), text("x")] };
    assert_ne!(a, b);
}

#[test]
fn row_hash_combines_cell_hashes_in_column_order() {
    // The published formula: each step is h * 31 + x over u64 wrapping
    // arithmetic; a numeric cell hashes its sign then its magnitude, a row
    // seeds with 11 over its cells and is tagged with 7.
    let row = Row { cells: vec![Cell::Numeric(5)] };
    let cell: u64 = (2u64.wrapping_mul(31).wrapping_add(0)).wrapping_mul(31).wrapping_add(5);
    let cells: u64 = 11u64.wrapping_mul(31).wrapping_add(cell);
    let expected: u64 = 7u64.wrapping_mul(31).wrapping_add(cells);
    assert_eq!(row.hash(), expected);
    assert_eq!(Cell::Numeric(5).hash(), cell);
}

#[test]
fn partial_clone_copies_a_duplicable_row() {
    let a = Row { cells: vec![text("x"), Cell::Numeric(1), Cell::File(FileValue {
        path: String::from("p"),
        contents: String::from("c"),
    })] };
    let b = a.partial_clone().expect("duplicable row must clone");
    assert_eq!(a, b);
}

#[test]
fn partial_clone_fails_on_a_live_stream_handle() {
    let a = Row { cells: vec![text("x"), stream_cell()] };
    assert_eq!(a.partial_clone(), Err(Error::CloneError));
    assert_eq!(stream_cell().partial_clone(), Err(Error::CloneError));
}

#[test]
fn partial_clone_copies_a_materialized_rows_cell() {
    let a = Cell::Rows(RowsCell { types: line_schema(), rows: vec![text_row("a")] });
    let b = a.partial_clone().expect("owned rows must clone");
    assert_eq!(a, b);
}

fn mk_file(path: &str, contents: &str) -> FileValue {
    FileValue { path: String::from(path), contents: String::from(contents) }
}

#[test]
fn file_expand_appends_the_path_and_rejects_other_kinds() {
    let mut out: Vec<FileValue> = Vec::new();
    assert_eq!(Cell::File(mk_file("p.txt", "hi")).file_expand(&mut out), Ok(()));
    assert_eq!(out.len(), 1);
    assert_eq!(out[0], mk_file("p.txt", "hi"));
    assert_eq!(text("nope").file_expand(&mut out), Err(Error::ArgumentError));
    assert_eq!(out.len(), 1);
}

#[test]
fn recv_delivers_rows_in_send_order_then_signals_end_of_stream() {
    let mut s = InputStream::of_rows(line_schema(), vec![text_row("a"), text_row("b")]);
    assert_eq!(s.recv(), Some(text_row("a")));
    assert_eq!(s.recv(), Some(text_row("b")));
    assert_eq!(s.recv(), None);
    assert_eq!(s.recv(), None);
}

#[test]
fn empty_channel_signals_end_of_stream_at_once() {
    let mut s = crush_core::stream::empty_channel();
    assert_eq!(s.recv(), None);
}
