use vstd::prelude::*;

use crate::data::{
    Argument, Cell, CellType, CellVal, ColVal, ColumnType, FileValue, InputStream, Row, RowVal,
    StreamVal, TypeVal,
};
use crate::data::{
    lemma_view_cells_push, lemma_view_rows_len, lemma_view_rows_push, view_cell, view_cells,
    view_cols, view_row, view_rows,
};
use crate::errors::Error;
use crate::stream::OutputStream;

verus! {

// ---------------------------------------------------------------------------
// The file-enumerating command: for every file handed to it (directly as
// arguments, or named by a column of its input rows) it emits one row
// pairing the file identity with a nested stream of that file's lines,
// one row per line, in file order, each line terminator stripped.
// ---------------------------------------------------------------------------

/// The position of the first line terminator, or the length when none.
pub open spec fn first_nl(s: Seq<char>) -> nat
    decreases s.len(),
{
    if s.len() == 0 {
        0
    } else if s[0] == '\n' {
        0
    } else {
        1 + first_nl(s.drop_first())
    }
}

pub proof fn lemma_first_nl_char(s: Seq<char>, k: int)
    requires
        0 <= k <= s.len(),
        forall|j: int| 0 <= j < k ==> s[j] != '\n',
        k < s.len() ==> s[k] == '\n',
    ensures
        first_nl(s) == k,
    decreases s.len(),
{
    if s.len() > 0 && k > 0 {
        assert(forall|j: int| 0 <= j < k - 1 ==> s.drop_first()[j] == #[trigger] s[j + 1]);
        assert(k - 1 < s.drop_first().len() ==> s.drop_first()[k - 1] == s[k]);
        lemma_first_nl_char(s.drop_first(), k - 1);
    }
}

/// The lines of a text, in order, each with its terminator stripped; a
/// final line without a terminator is kept whole, and the empty text has
/// no lines at all.
pub open spec fn lines_of(s: Seq<char>) -> Seq<Seq<char>>
    decreases s.len(),
{
    if s.len() == 0 {
        Seq::empty()
    } else {
        let i: int = first_nl(s) as int;
        if i >= s.len() {
            seq![s]
        } else {
            seq![s.subrange(0, i)] + lines_of(s.subrange(i + 1, s.len() as int))
        }
    }
}

/// Splitting off the first line: when positions `start..i` of `s` hold no
/// terminator and position `i` holds one, the lines of the tail from
/// `start` are that line followed by the lines of the tail from `i + 1`.
pub proof fn lemma_lines_of_split(s: Seq<char>, start: int, i: int)
    requires
        0 <= start <= i < s.len(),
        forall|j: int| start <= j < i ==> s[j] != '\n',
        s[i] == '\n',
    ensures
        lines_of(s.subrange(start, s.len() as int)) == seq![s.subrange(start, i)] + lines_of(
            s.subrange(i + 1, s.len() as int),
        ),
{
    let t = s.subrange(start, s.len() as int);
    assert(forall|j: int| 0 <= j < t.len() ==> #[trigger] t[j] == s[start + j]);
    lemma_first_nl_char(t, i - start);
    assert(t.subrange(0, i - start) =~= s.subrange(start, i));
    assert(t.subrange(i - start + 1, t.len() as int) =~= s.subrange(i + 1, s.len() as int));
}

/// The last line: when the tail from `start` is nonempty and holds no
/// terminator, it is one line, kept whole.
pub proof fn lemma_lines_of_tail(s: Seq<char>, start: int)
    requires
        0 <= start < s.len(),
        forall|j: int| start <= j < s.len() ==> s[j] != '\n',
    ensures
        lines_of(s.subrange(start, s.len() as int)) == seq![s.subrange(start, s.len() as int)],
{
    let t = s.subrange(start, s.len() as int);
    assert(forall|j: int| 0 <= j < t.len() ==> #[trigger] t[j] == s[start + j]);
    lemma_first_nl_char(t, t.len() as int);
}

/// Splits a text into its lines, in order, stripping each terminator.
fn split_lines(s: &str) -> (r: Vec<String>)
    ensures
        r@.map_values(|x: String| x@) == lines_of(s@),
{
    let n = s.unicode_len();
    let mut out: Vec<String> = Vec::new();
    let mut start: usize = 0;
    let mut i: usize = 0;
    proof {
        assert(s@.subrange(0, n as int) =~= s@);
        assert(out@.map_values(|x: String| x@) + lines_of(s@) =~= lines_of(s@));
    }
    while i < n
        invariant
            start <= i <= n,
            n == s@.len(),
            lines_of(s@) == out@.map_values(|x: String| x@) + lines_of(
                s@.subrange(start as int, n as int),
            ),
            forall|j: int| start <= j < i ==> s@[j] != '\n',
        decreases n - i,
    {
        let c = s.get_char(i);
        if c == '\n' {
            let line = s.substring_char(start, i);
            let ghost before = out@.map_values(|x: String| x@);
            out.push(String::from_str(line));
            proof {
                lemma_lines_of_split(s@, start as int, i as int);
                assert(out@.map_values(|x: String| x@) =~= before.push(
                    s@.subrange(start as int, i as int),
                ));
                assert(before.push(s@.subrange(start as int, i as int)) =~= before + seq![
                    s@.subrange(start as int, i as int),
                ]);
                assert(before + (seq![s@.subrange(start as int, i as int)] + lines_of(
                    s@.subrange(i + 1, n as int),
                )) =~= (before + seq![s@.subrange(start as int, i as int)]) + lines_of(
                    s@.subrange(i + 1, n as int),
                ));
            }
            start = i + 1;
        }
        i = i + 1;
    }
    if start < n {
        let line = s.substring_char(start, n);
        let ghost before = out@.map_values(|x: String| x@);
        out.push(String::from_str(line));
        proof {
            lemma_lines_of_tail(s@, start as int);
            assert(out@.map_values(|x: String| x@) =~= before.push(
                s@.subrange(start as int, n as int),
            ));
            assert(before.push(s@.subrange(start as int, n as int)) =~= before + seq![
                s@.subrange(start as int, n as int),
            ]);
        }
    } else {
        proof {
            assert(s@.subrange(start as int, n as int) =~= Seq::<char>::empty());
            assert(out@.map_values(|x: String| x@) + Seq::<Seq<char>>::empty() =~= out@.map_values(
                |x: String| x@,
            ));
        }
    }
    out
}

// ---------------------------------------------------------------------------
// The command's output shape.
// ---------------------------------------------------------------------------

/// The schema of the nested per-file stream: one text column, "line".
pub open spec fn sub_type_val() -> Seq<ColVal> {
    seq![ColVal { name: "line"@, cell_type: TypeVal::Text }]
}

/// Builds the nested per-file stream schema.
pub fn sub_type() -> (t: Vec<ColumnType>)
    ensures
        view_cols(t@) == sub_type_val(),
{
    let mut t: Vec<ColumnType> = Vec::new();
    t.push(ColumnType { name: String::from_str("line"), cell_type: CellType::Text });
    proof {
        crate::data::lemma_view_cols_push(Seq::empty(), t@[0]);
        assert(t@ =~= Seq::empty().push(t@[0]));
        assert(view_cols(t@) =~= sub_type_val());
    }
    t
}

/// The row emitted for one file: the file identity paired with a live
/// nested stream holding one text row per line of the file.
pub open spec fn lines_row_val(path: Seq<char>, contents: Seq<char>) -> RowVal {
    RowVal {
        cells: seq![
            CellVal::File { path, contents },
            CellVal::Stream(
                StreamVal {
                    types: sub_type_val(),
                    rows: lines_of(contents).map_values(
                        |l: Seq<char>| RowVal { cells: seq![CellVal::Text(l)] },
                    ),
                },
            ),
        ],
    }
}

/// Emits the row for one file into `output`.
fn handle(file: FileValue, output: &mut OutputStream)
    ensures
        final(output).rows@.len() == old(output).rows@.len() + 1,
        view_rows(final(output).rows@) == view_rows(old(output).rows@).push(
            lines_row_val(file.path@, file.contents@),
        ),
{
    let ghost path_v = file.path@;
    let ghost contents_v = file.contents@;
    let lines = split_lines(file.contents.as_str());
    let mut line_rows: Vec<Row> = Vec::new();
    let mut lines = lines;
    let ghost all = lines@;
    while lines.len() > 0
        invariant
            lines@.len() <= all.len(),
            lines@ == all.subrange(all.len() - lines@.len(), all.len() as int),
            view_rows(line_rows@) == all.subrange(0, all.len() - lines@.len()).map_values(
                |x: String| x@,
            ).map_values((|l: Seq<char>| RowVal { cells: seq![CellVal::Text(l)] })),
        decreases lines@.len(),
    {
        let ghost k = all.len() - lines@.len();
        proof {
            assert(lines@[0] == all.subrange(k, all.len() as int)[0]);
        }
        let line = lines.remove(0);
        proof {
            assert(line == all[k]);
        }
        let mut cells: Vec<Cell> = Vec::new();
        cells.push(Cell::Text(line));
        let row = Row { cells };
        proof {
            assert(view_cells(row.cells@) =~= seq![CellVal::Text(all[k]@)]) by {
                reveal_with_fuel(view_cells, 2);
            }
            lemma_view_rows_push(line_rows@, row);
            assert(all.subrange(0, k + 1) =~= all.subrange(0, k).push(all[k]));
            assert(all.subrange(0, k + 1).map_values(|x: String| x@) =~= all.subrange(
                0,
                k,
            ).map_values(|x: String| x@).push(all[k]@));
            assert(all.subrange(0, k + 1).map_values(|x: String| x@).map_values(
                (|l: Seq<char>| RowVal { cells: seq![CellVal::Text(l)] }),
            ) =~= all.subrange(0, k).map_values(|x: String| x@).map_values(
                (|l: Seq<char>| RowVal { cells: seq![CellVal::Text(l)] }),
            ).push(RowVal { cells: seq![CellVal::Text(all[k]@)] }));
            assert(lines@ =~= all.subrange(all.len() - lines@.len(), all.len() as int));
        }
        line_rows.push(row);
    }
    proof {
        assert(all.subrange(0, all.len() as int) =~= all);
    }
    let nested = InputStream { types: sub_type(), rows: line_rows };
    emit_row(file, nested, output)
}

fn emit_row(file: FileValue, nested: InputStream, output: &mut OutputStream)
    requires
        view_cols(nested.types@) == sub_type_val(),
        view_rows(nested.rows@) == lines_of(file.contents@).map_values(
            (|l: Seq<char>| RowVal { cells: seq![CellVal::Text(l)] }),
        ),
    ensures
        final(output).rows@.len() == old(output).rows@.len() + 1,
        view_rows(final(output).rows@) == view_rows(old(output).rows@).push(
            lines_row_val(file.path@, file.contents@),
        ),
{
    let ghost path_v = file.path@;
    let ghost contents_v = file.contents@;
    let mut out_cells: Vec<Cell> = Vec::new();
    out_cells.push(Cell::File(file));
    out_cells.push(Cell::Stream(nested));
    let out_row = Row { cells: out_cells };
    proof {
        assert(view_cells(out_row.cells@) =~= lines_row_val(path_v, contents_v).cells) by {
            reveal_with_fuel(view_cells, 3);
        }
        assert(view_row(out_row) =~= lines_row_val(path_v, contents_v));
        lemma_view_rows_push(old(output).rows@, out_row);
    }
    output.send(out_row);
}

// ---------------------------------------------------------------------------
// What `run` does, stated over the argument cells and the input rows.
// ---------------------------------------------------------------------------

/// With no input columns, every argument must be path-like.
pub open spec fn args_files_ok(args: Seq<Argument>) -> bool
    decreases args.len(),
{
    if args.len() == 0 {
        true
    } else {
        args[0].value is File && args_files_ok(args.drop_first())
    }
}

/// The files the arguments stand for, in argument order.
pub open spec fn files_of_args(args: Seq<Argument>) -> Seq<FileValue>
    decreases args.len(),
{
    if args.len() == 0 {
        Seq::empty()
    } else {
        match args[0].value {
            Cell::File(f) => seq![f] + files_of_args(args.drop_first()),
            _ => files_of_args(args.drop_first()),
        }
    }
}

/// One emitted row per file, in file order.
pub open spec fn rows_for_files(files: Seq<FileValue>) -> Seq<RowVal>
    decreases files.len(),
{
    if files.len() == 0 {
        Seq::empty()
    } else {
        seq![lines_row_val(files[0].path@, files[0].contents@)] + rows_for_files(
            files.drop_first(),
        )
    }
}

/// Whether the named column of this row holds a file.
pub open spec fn row_file_ok(r: Row, idx: int) -> bool {
    0 <= idx < r.cells@.len() && r.cells@[idx] is File
}

/// The rows emitted in column mode: one per input row, up to (and not
/// including) the first input row whose named column holds no file.
pub open spec fn lines_out_col(rows: Seq<Row>, idx: int) -> Seq<RowVal>
    decreases rows.len(),
{
    if rows.len() == 0 {
        Seq::empty()
    } else if !row_file_ok(rows[0], idx) {
        Seq::empty()
    } else {
        match rows[0].cells@[idx] {
            Cell::File(f) => seq![lines_row_val(f.path@, f.contents@)] + lines_out_col(
                rows.drop_first(),
                idx,
            ),
            _ => Seq::empty(),
        }
    }
}

/// Whether column mode stops early: some input row, every row before it
/// holding a file in the named column, does not.
pub open spec fn col_mode_err(rows: Seq<Row>, idx: int) -> bool
    decreases rows.len(),
{
    if rows.len() == 0 {
        false
    } else if row_file_ok(rows[0], idx) {
        col_mode_err(rows.drop_first(), idx)
    } else {
        true
    }
}

/// The names of the input columns, in order.
pub open spec fn col_names(types: Seq<ColumnType>) -> Seq<Seq<char>> {
    types.map_values(|c: ColumnType| c.name@)
}

/// Whether one argument is a valid column spec for this input schema: a
/// text cell naming an existing column.
pub open spec fn col_spec_ok(a: Argument, types: Seq<ColumnType>) -> bool {
    a.value matches Cell::Text(s) && crate::scope::find_idx(col_names(types), s@) >= 0
}

/// Whether the arguments pass validation against the input schema.
pub open spec fn lines_accepts(args: Seq<Argument>, types: Seq<ColumnType>) -> bool {
    types.len() == 0 || (args.len() == 1 && col_spec_ok(args[0], types))
}

/// The index of the column a valid column spec names.
pub open spec fn col_of(args: Seq<Argument>, types: Seq<ColumnType>) -> int {
    match args[0].value {
        Cell::Text(s) => crate::scope::find_idx(col_names(types), s@),
        _ => -1,
    }
}

/// The rows `run` emits, and whether it stops with an error, over both
/// modes at once (meaningful only when `lines_accepts` holds).
pub open spec fn lines_out(args: Seq<Argument>, types: Seq<ColumnType>, rows: Seq<Row>) -> Seq<
    RowVal,
> {
    if types.len() == 0 {
        if args_files_ok(args) {
            rows_for_files(files_of_args(args))
        } else {
            Seq::empty()
        }
    } else {
        lines_out_col(rows, col_of(args, types))
    }
}

pub open spec fn lines_err(args: Seq<Argument>, types: Seq<ColumnType>, rows: Seq<Row>) -> bool {
    if types.len() == 0 {
        !args_files_ok(args)
    } else {
        col_mode_err(rows, col_of(args, types))
    }
}

/// The position of the column with this name, as `find_idx` describes it.
fn find_field(name: &String, types: &Vec<ColumnType>) -> (r: Option<usize>)
    ensures
        r matches Some(i) ==> crate::scope::find_idx(col_names(types@), name@) == i as int
            && i < types@.len(),
        r is None ==> crate::scope::find_idx(col_names(types@), name@) < 0,
{
    let ghost nv = col_names(types@);
    let mut i: usize = 0;
    while i < types.len()
        invariant
            i <= types.len(),
            nv == col_names(types@),
            forall|j: int| 0 <= j < i ==> nv[j] != name@,
        decreases types.len() - i,
    {
        if types[i].name.eq(name) {
            proof {
                crate::scope::lemma_find_idx_char(nv, name@, i as int);
            }
            return Some(i);
        }
        i = i + 1;
    }
    proof {
        crate::scope::lemma_find_idx_bounds(nv, name@);
        if crate::scope::find_idx(nv, name@) >= 0 {
            assert(nv[crate::scope::find_idx(nv, name@)] == name@);
        }
    }
    None
}

/// Runs the command: validates the arguments against the input schema,
/// then emits one row per file — the files named by the arguments when the
/// input has no columns, else the files found in the named column of each
/// input row, stopping with an ArgumentError at the first row that holds
/// none there (rows already emitted stay emitted).
pub fn run(arguments: &Vec<Argument>, input: InputStream, output: &mut OutputStream) -> (r: Result<
    (),
    Error,
>)
    ensures
        !lines_accepts(arguments@, input.types@) ==> r == Err::<(), Error>(Error::ArgumentError)
            && final(output).rows@ == old(output).rows@,
        lines_accepts(arguments@, input.types@) ==> {
            &&& view_rows(final(output).rows@) == view_rows(old(output).rows@) + lines_out(
                arguments@,
                input.types@,
                input.rows@,
            )
            &&& (r is Ok) == !lines_err(arguments@, input.types@, input.rows@)
            &&& (r matches Err(e) ==> e == Error::ArgumentError)
        },
{
    let ghost args_all = arguments@;
    if input.types.len() == 0 {
        let mut files: Vec<FileValue> = Vec::new();
        let mut i: usize = 0;
        proof {
            assert(args_all.subrange(0, args_all.len() as int) =~= args_all);
            assert(Seq::<FileValue>::empty() + files_of_args(args_all) =~= files_of_args(
                args_all,
            ));
        }
        while i < arguments.len()
            invariant
                i <= arguments.len(),
                arguments@ == args_all,
                input.types@.len() == 0,
                output.rows@ == old(output).rows@,
                files@ + files_of_args(args_all.subrange(i as int, args_all.len() as int))
                    == files_of_args(args_all),
                args_files_ok(args_all) == args_files_ok(
                    args_all.subrange(i as int, args_all.len() as int),
                ),
            decreases arguments.len() - i,
        {
            let ghost rest = args_all.subrange(i as int, args_all.len() as int);
            let ghost files0 = files@;
            proof {
                assert(rest[0] == args_all[i as int]);
                assert(rest.drop_first() =~= args_all.subrange(i + 1, args_all.len() as int));
            }
            match arguments[i].value.file_expand(&mut files) {
                Ok(_) => {},
                Err(e) => {
                    return Err(e);
                },
            }
            proof {
                match args_all[i as int].value {
                    Cell::File(f) => {
                        assert(files@ =~= files0 + seq![f]);
                        assert((files0 + seq![f]) + files_of_args(rest.drop_first())
                            =~= files0 + (seq![f] + files_of_args(rest.drop_first())));
                    },
                    _ => {},
                }
            }
            i = i + 1;
        }
        proof {
            assert(args_all.subrange(args_all.len() as int, args_all.len() as int)
                =~= Seq::<Argument>::empty());
            assert(files@ + Seq::<FileValue>::empty() =~= files@);
        }
        let ghost files_all = files@;
        let mut files = files;
        while files.len() > 0
            invariant
                view_rows(old(output).rows@) + rows_for_files(files_all) == view_rows(
                    output.rows@,
                ) + rows_for_files(files@),
            decreases files@.len(),
        {
            let ghost pre = files@;
            let ghost outv = view_rows(output.rows@);
            let f = files.remove(0);
            proof {
                assert(f == pre[0]);
                assert(files@ =~= pre.drop_first());
            }
            handle(f, output);
            proof {
                assert(view_rows(output.rows@) =~= outv + seq![lines_row_val(
                    f.path@,
                    f.contents@,
                )]);
                assert((outv + seq![lines_row_val(f.path@, f.contents@)]) + rows_for_files(
                    pre.drop_first(),
                ) =~= outv + (seq![lines_row_val(f.path@, f.contents@)] + rows_for_files(
                    pre.drop_first(),
                )));
            }
        }
        proof {
            assert(view_rows(output.rows@) + rows_for_files(Seq::<FileValue>::empty())
                =~= view_rows(output.rows@));
        }
        Ok(())
    } else {
        if arguments.len() != 1 {
            return Err(Error::ArgumentError);
        }
        match &arguments[0].value {
            Cell::Text(s) => {
                let found = find_field(s, &input.types);
                match found {
                    Some(idx) => col_loop(input, idx, output),
                    None => Err(Error::ArgumentError),
                }
            },
            _ => Err(Error::ArgumentError),
        }
    }
}

/// Column mode: receives every input row in order and emits the row for
/// the file its named column holds, stopping at the first row without one.
fn col_loop(input: InputStream, idx: usize, output: &mut OutputStream) -> (r: Result<(), Error>)
    ensures
        view_rows(final(output).rows@) == view_rows(old(output).rows@) + lines_out_col(
            input.rows@,
            idx as int,
        ),
        (r is Ok) == !col_mode_err(input.rows@, idx as int),
        r matches Err(e) ==> e == Error::ArgumentError,
{
    let ghost rows_all = input.rows@;
    let mut inp = input;
    proof {
        assert(view_rows(old(output).rows@) + lines_out_col(rows_all, idx as int)
            =~= view_rows(output.rows@) + lines_out_col(inp.rows@, idx as int));
    }
    loop
        invariant
            input.rows@ == rows_all,
            view_rows(old(output).rows@) + lines_out_col(rows_all, idx as int) == view_rows(
                output.rows@,
            ) + lines_out_col(inp.rows@, idx as int),
            col_mode_err(rows_all, idx as int) == col_mode_err(inp.rows@, idx as int),
        decreases inp.rows@.len(),
    {
        let ghost remaining = inp.rows@;
        let ghost outv = view_rows(output.rows@);
        match inp.recv() {
            Some(row) => {
                proof {
                    assert(row == remaining[0]);
                    assert(inp.rows@ =~= remaining.drop_first());
                }
                if idx < row.cells.len() {
                    match &row.cells[idx] {
                        Cell::File(f) => {
                            let fv = FileValue {
                                path: f.path.clone(),
                                contents: f.contents.clone(),
                            };
                            proof {
                                assert(row_file_ok(row, idx as int));
                            }
                            handle(fv, output);
                            proof {
                                assert(view_rows(output.rows@) =~= outv + seq![lines_row_val(
                                    f.path@,
                                    f.contents@,
                                )]);
                                assert((outv + seq![lines_row_val(f.path@, f.contents@)])
                                    + lines_out_col(remaining.drop_first(), idx as int)
                                    =~= outv + (seq![lines_row_val(f.path@, f.contents@)]
                                    + lines_out_col(remaining.drop_first(), idx as int)));
                            }
                        },
                        _ => {
                            proof {
                                assert(!row_file_ok(row, idx as int));
                                assert(outv + lines_out_col(remaining, idx as int) =~= outv);
                            }
                            return Err(Error::ArgumentError);
                        },
                    }
                } else {
                    proof {
                        assert(!row_file_ok(row, idx as int));
                        assert(outv + lines_out_col(remaining, idx as int) =~= outv);
                    }
                    return Err(Error::ArgumentError);
                }
            },
            None => {
                proof {
                    assert(outv + lines_out_col(remaining, idx as int) =~= outv);
                }
                return Ok(());
            },
        }
    }
}

/// Decides `lines_accepts` for given arguments and input schema.
pub fn check_accepts(arguments: &Vec<Argument>, types: &Vec<ColumnType>) -> (r: bool)
    ensures
        r == lines_accepts(arguments@, types@),
{
    if types.len() == 0 {
        true
    } else if arguments.len() != 1 {
        false
    } else {
        match &arguments[0].value {
            Cell::Text(s) => find_field(s, types).is_some(),
            _ => false,
        }
    }
}

/// The command's output schema: the file column and the nested stream of
/// that file's lines.
pub open spec fn output_type_val() -> Seq<ColVal> {
    seq![
        ColVal { name: "file"@, cell_type: TypeVal::File },
        ColVal { name: "lines"@, cell_type: TypeVal::Stream(sub_type_val()) },
    ]
}

/// Binds the command to its arguments as one job definition and declares
/// the output schema its rows will carry.
pub fn compile(input_type: Vec<ColumnType>, arguments: Vec<Argument>) -> (r: Result<
    (crate::job::Job, Vec<ColumnType>),
    Error,
>)
    ensures
        r is Ok,
        r matches Ok(p) ==> p.0.command == crate::job::Command::Lines && p.0.arguments@
            == arguments@ && view_cols(p.1@) == output_type_val(),
{
    let _unused_input_type = input_type;
    let mut out_t: Vec<ColumnType> = Vec::new();
    out_t.push(ColumnType { name: String::from_str("file"), cell_type: CellType::File });
    out_t.push(
        ColumnType { name: String::from_str("lines"), cell_type: CellType::Stream(sub_type()) },
    );
    proof {
        crate::data::lemma_view_cols_len(out_t@);
        assert(view_cols(out_t@) =~= output_type_val());
    }
    Ok((crate::job::Job { command: crate::job::Command::Lines, arguments }, out_t))
}


// ---------------------------------------------------------------------------
// Schema conformance of what the command emits: its declared output
// schema matches every row it produces, including every row of each
// nested per-file stream.
// ---------------------------------------------------------------------------

/// The row emitted for one file conforms to the declared output schema,
/// and its nested stream's rows conform to the nested stream's schema.
pub proof fn lemma_lines_row_conforms(path: Seq<char>, contents: Seq<char>)
    ensures
        crate::data::row_matches(lines_row_val(path, contents), output_type_val()),
{
    let rv = lines_row_val(path, contents);
    let lrows = lines_of(contents).map_values(
        (|l: Seq<char>| RowVal { cells: seq![CellVal::Text(l)] }),
    );
    crate::data::lemma_rows_match_pointwise(lrows, sub_type_val());
    assert forall|i: int| 0 <= i < lrows.len() implies crate::data::row_matches(
        #[trigger] lrows[i],
        sub_type_val(),
    ) by {
        let r = lrows[i];
        assert(r.cells =~= seq![CellVal::Text(lines_of(contents)[i])]);
        assert(crate::data::cells_match(r.cells, sub_type_val())) by {
            reveal_with_fuel(crate::data::cells_match, 2);
            assert(r.cells.drop_first() =~= Seq::<CellVal>::empty());
            assert(sub_type_val().drop_first() =~= Seq::<ColVal>::empty());
        }
    }
    assert(crate::data::cells_match(rv.cells, output_type_val())) by {
        reveal_with_fuel(crate::data::cells_match, 3);
        assert(rv.cells.drop_first() =~= seq![rv.cells[1]]);
        assert(output_type_val().drop_first() =~= seq![output_type_val()[1]]);
        assert(rv.cells.drop_first().drop_first() =~= Seq::<CellVal>::empty());
        assert(output_type_val().drop_first().drop_first() =~= Seq::<ColVal>::empty());
    }
}

/// Every row `run` emits — in either mode — conforms to the output schema
/// that `compile` declares.
pub proof fn lemma_lines_out_conforms(args: Seq<Argument>, types: Seq<ColumnType>, rows: Seq<Row>)
    ensures
        crate::data::rows_match(lines_out(args, types, rows), output_type_val()),
{
    if types.len() == 0 {
        if args_files_ok(args) {
            lemma_rows_for_files_conform(files_of_args(args));
        }
    } else {
        lemma_lines_out_col_conform(rows, col_of(args, types));
    }
}

proof fn lemma_rows_for_files_conform(files: Seq<FileValue>)
    ensures
        crate::data::rows_match(rows_for_files(files), output_type_val()),
    decreases files,
{
    if files.len() > 0 {
        lemma_lines_row_conforms(files[0].path@, files[0].contents@);
        lemma_rows_for_files_conform(files.drop_first());
        crate::data::lemma_rows_match_pointwise(rows_for_files(files), output_type_val());
        crate::data::lemma_rows_match_pointwise(
            rows_for_files(files.drop_first()),
            output_type_val(),
        );
        assert(rows_for_files(files).drop_first() =~= rows_for_files(files.drop_first()));
        assert forall|i: int| 0 <= i < rows_for_files(files).len()
            implies crate::data::row_matches(
            #[trigger] rows_for_files(files)[i],
            output_type_val(),
        ) by {
            if i > 0 {
                assert(rows_for_files(files)[i] == rows_for_files(files.drop_first())[i - 1]);
            }
        }
    }
}

proof fn lemma_lines_out_col_conform(rows: Seq<Row>, idx: int)
    ensures
        crate::data::rows_match(lines_out_col(rows, idx), output_type_val()),
    decreases rows,
{
    if rows.len() > 0 && row_file_ok(rows[0], idx) {
        match rows[0].cells@[idx] {
            Cell::File(f) => {
                lemma_lines_row_conforms(f.path@, f.contents@);
                lemma_lines_out_col_conform(rows.drop_first(), idx);
                crate::data::lemma_rows_match_pointwise(lines_out_col(rows, idx), output_type_val());
                crate::data::lemma_rows_match_pointwise(
                    lines_out_col(rows.drop_first(), idx),
                    output_type_val(),
                );
                assert(lines_out_col(rows, idx).drop_first() =~= lines_out_col(
                    rows.drop_first(),
                    idx,
                ));
                assert forall|i: int| 0 <= i < lines_out_col(rows, idx).len()
                    implies crate::data::row_matches(
                    #[trigger] lines_out_col(rows, idx)[i],
                    output_type_val(),
                ) by {
                    if i > 0 {
                        assert(lines_out_col(rows, idx)[i] == lines_out_col(
                            rows.drop_first(),
                            idx,
                        )[i - 1]);
                    }
                }
            },
            _ => {},
        }
    }
}

} // verus!
