use crush_core::data::{Argument, Cell, CellType, ColumnType, FileValue, InputStream, Row};
use crush_core::errors::Error;
use crush_core::job::Command;
use crush_core::lines::{compile, run, sub_type};
use crush_core::stream::{OutputStream, empty_channel};

fn mk_file(path: &str, contents: &str) -> FileValue {
    FileValue { path: String::from(path), contents: String::from(contents) }
}

fn file_arg(path: &str, contents: &str) -> Argument {
    Argument { name: None, value: Cell::File(mk_file(path, contents)) }
}

fn text_row(s: &str) -> Row {
    Row { cells: vec![Cell::Text(String::from(s))] }
}

fn file_schema(col: &str) -> Vec<ColumnType> {
    vec![ColumnType { name: String::from(col), cell_type: CellType::File }]
}

#[test]
fn a_three_line_file_yields_one_row_with_a_three_row_nested_stream() {
    let args = vec![file_arg("f.txt", "one\ntwo\nthree\n")];
    let mut out = OutputStream::new();
    let r = run(&args, empty_channel(), &mut out);
    assert_eq!(r, Ok(()));
    assert_eq!(out.rows.len(), 1);
    let row = out.rows.remove(0);
    assert_eq!(row.cells.len(), 2);
    assert_eq!(row.cells[0], Cell::File(mk_file("f.txt", "one\ntwo\nthree\n")));
    match row.cells.into_iter().nth(1).unwrap() {
        Cell::Stream(mut nested) => {
            assert_eq!(nested.types, sub_type());
            assert_eq!(nested.recv(), Some(text_row("one")));
            assert_eq!(nested.recv(), Some(text_row("two")));
            assert_eq!(nested.recv(), Some(text_row("three")));
            assert_eq!(nested.recv(), None);
        },
        other => panic!("expected a nested stream cell, got {:?}", other),
    }
}

#[test]
fn a_final_line_without_terminator_is_kept_whole() {
    let args = vec![file_arg("f", "a\nb")];
    let mut out = OutputStream::new();
    assert_eq!(run(&args, empty_channel(), &mut out), Ok(()));
    match out.rows.remove(0).cells.into_iter().nth(1).unwrap() {
        Cell::Stream(mut nested) => {
            assert_eq!(nested.recv(), Some(text_row("a")));
            assert_eq!(nested.recv(), Some(text_row("b")));
            assert_eq!(nested.recv(), None);
        },
        other => panic!("expected a nested stream cell, got {:?}", other),
    }
}

#[test]
fn an_empty_file_yields_an_empty_nested_stream() {
    let args = vec![file_arg("f", "")];
    let mut out = OutputStream::new();
    assert_eq!(run(&args, empty_channel(), &mut out), Ok(()));
    match out.rows.remove(0).cells.into_iter().nth(1).unwrap() {
        Cell::Stream(mut nested) => {
            assert_eq!(nested.recv(), None);
        },
        other => panic!("expected a nested stream cell, got {:?}", other),
    }
}

#[test]
fn files_are_enumerated_in_argument_order() {
    let args = vec![file_arg("a", "1\n"), file_arg("b", "2\n")];
    let mut out = OutputStream::new();
    assert_eq!(run(&args, empty_channel(), &mut out), Ok(()));
    assert_eq!(out.rows.len(), 2);
    assert_eq!(out.rows[0].cells[0], Cell::File(mk_file("a", "1\n")));
    assert_eq!(out.rows[1].cells[0], Cell::File(mk_file("b", "2\n")));
}

#[test]
fn a_non_file_argument_is_rejected_and_nothing_is_emitted() {
    let args = vec![file_arg("a", "1\n"), Argument { name: None, value: Cell::Numeric(3) }];
    let mut out = OutputStream::new();
    assert_eq!(run(&args, empty_channel(), &mut out), Err(Error::ArgumentError));
    assert_eq!(out.rows.len(), 0);
}

#[test]
fn column_mode_reads_files_from_the_named_column() {
    let input = InputStream::of_rows(
        file_schema("f"),
        vec![Row { cells: vec![Cell::File(mk_file("x", "l1\n"))] }],
    );
    let args = vec![Argument { name: None, value: Cell::Text(String::from("f")) }];
    let mut out = OutputStream::new();
    assert_eq!(run(&args, input, &mut out), Ok(()));
    assert_eq!(out.rows.len(), 1);
    assert_eq!(out.rows[0].cells[0], Cell::File(mk_file("x", "l1\n")));
}

#[test]
fn column_mode_stops_at_the_first_row_without_a_file_keeping_earlier_rows() {
    let input = InputStream::of_rows(
        file_schema("f"),
        vec![
            Row { cells: vec![Cell::File(mk_file("x", "l1\n"))] },
            Row { cells: vec![Cell::Numeric(0)] },
            Row { cells: vec![Cell::File(mk_file("y", "l2\n"))] },
        ],
    );
    let args = vec![Argument { name: None, value: Cell::Text(String::from("f")) }];
    let mut out = OutputStream::new();
    assert_eq!(run(&args, input, &mut out), Err(Error::ArgumentError));
    assert_eq!(out.rows.len(), 1);
    assert_eq!(out.rows[0].cells[0], Cell::File(mk_file("x", "l1\n")));
}

#[test]
fn column_mode_requires_exactly_one_text_argument_naming_a_column() {
    let args_two = vec![
        Argument { name: None, value: Cell::Text(String::from("f")) },
        Argument { name: None, value: Cell::Text(String::from("g")) },
    ];
    let mut out = OutputStream::new();
    let input = InputStream::of_rows(file_schema("f"), vec![]);
    assert_eq!(run(&args_two, input, &mut out), Err(Error::ArgumentError));

    let args_num = vec![Argument { name: None, value: Cell::Numeric(1) }];
    let input = InputStream::of_rows(file_schema("f"), vec![]);
    assert_eq!(run(&args_num, input, &mut out), Err(Error::ArgumentError));

    let args_missing = vec![Argument { name: None, value: Cell::Text(String::from("g")) }];
    let input = InputStream::of_rows(file_schema("f"), vec![]);
    assert_eq!(run(&args_missing, input, &mut out), Err(Error::ArgumentError));
    assert_eq!(out.rows.len(), 0);
}

#[test]
fn compile_declares_the_file_and_lines_output_columns() {
    let (job, output_type) = compile(Vec::new(), Vec::new()).expect("compile must succeed");
    assert_eq!(job.command, Command::Lines);
    assert_eq!(job.arguments.len(), 0);
    assert_eq!(output_type.len(), 2);
    assert_eq!(output_type[0].name, String::from("file"));
    assert_eq!(output_type[0].cell_type, CellType::File);
    assert_eq!(output_type[1].name, String::from("lines"));
    assert_eq!(output_type[1].cell_type, CellType::Stream(sub_type()));
}
