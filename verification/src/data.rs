use vstd::prelude::*;

verus! {

// ---------------------------------------------------------------------------
// Schema: an ordered list of named, typed columns. A stream-valued column
// carries the schema of its nested stream, so the type is recursive.
// ---------------------------------------------------------------------------

#[derive(PartialEq, Eq, Debug)]
pub enum CellType {
    Text,
    Numeric,
    File,
    Stream(Vec<ColumnType>),
}

#[derive(PartialEq, Eq, Debug)]
pub struct ColumnType {
    pub name: String,
    pub cell_type: CellType,
}

/// Mathematical model of a `CellType`.
#[verifier::ext_equal]
pub enum TypeVal {
    Text,
    Numeric,
    File,
    Stream(Seq<ColVal>),
}

/// Mathematical model of a `ColumnType`.
#[verifier::ext_equal]
pub struct ColVal {
    pub name: Seq<char>,
    pub cell_type: TypeVal,
}

pub open spec fn view_type(t: CellType) -> TypeVal
    decreases t,
{
    match t {
        CellType::Text => TypeVal::Text,
        CellType::Numeric => TypeVal::Numeric,
        CellType::File => TypeVal::File,
        CellType::Stream(cols) => TypeVal::Stream(view_cols(cols@)),
    }
}

pub open spec fn view_cols(cols: Seq<ColumnType>) -> Seq<ColVal>
    decreases cols,
{
    if cols.len() == 0 {
        Seq::empty()
    } else {
        seq![ColVal { name: cols[0].name@, cell_type: view_type(cols[0].cell_type) }]
            + view_cols(cols.drop_first())
    }
}

// ---------------------------------------------------------------------------
// Cells, rows and streams. A stream is a single-producer/single-consumer
// queue of rows paired with the schema of the rows it carries; a cell may
// hold a live stream handle, so the three types are mutually recursive.
// ---------------------------------------------------------------------------

/// A file identity together with what the runtime reads of it: its text.
/// The surrounding program loads the bytes from disk; the runtime itself
/// only ever works on this plain value.
#[derive(PartialEq, Eq, Debug)]
pub struct FileValue {
    pub path: String,
    pub contents: String,
}

/// The consumer end of a stream: the schema of its rows and the rows not
/// yet received, in send order. A receive-once handle: it cannot be
/// duplicated.
#[derive(PartialEq, Eq, Debug)]
pub struct InputStream {
    pub types: Vec<ColumnType>,
    pub rows: Vec<Row>,
}

/// A fully materialized stream: owned rows that are safe to move across a
/// worker boundary and to duplicate.
#[derive(PartialEq, Eq, Debug)]
pub struct RowsCell {
    pub types: Vec<ColumnType>,
    pub rows: Vec<Row>,
}

/// A typed value. A single cell may carry an entire nested stream with its
/// own schema, either as a live receive handle (`Stream`) or as an owned,
/// transportable block of rows (`Rows`).
#[derive(PartialEq, Eq, Debug)]
pub enum Cell {
    Text(String),
    Numeric(i64),
    File(FileValue),
    Stream(InputStream),
    Rows(RowsCell),
}

/// One record of a stream: an ordered sequence of cells, one per column.
#[derive(PartialEq, Eq, Debug)]
pub struct Row {
    pub cells: Vec<Cell>,
}

/// Mathematical model of a stream's payload.
#[verifier::ext_equal]
pub struct StreamVal {
    pub types: Seq<ColVal>,
    pub rows: Seq<RowVal>,
}

/// Mathematical model of a `Cell`.
#[verifier::ext_equal]
pub enum CellVal {
    Text(Seq<char>),
    Numeric(int),
    File { path: Seq<char>, contents: Seq<char> },
    Stream(StreamVal),
    Rows(StreamVal),
}

/// Mathematical model of a `Row`.
#[verifier::ext_equal]
pub struct RowVal {
    pub cells: Seq<CellVal>,
}

pub open spec fn view_cell(c: Cell) -> CellVal
    decreases c,
{
    match c {
        Cell::Text(s) => CellVal::Text(s@),
        Cell::Numeric(n) => CellVal::Numeric(n as int),
        Cell::File(f) => CellVal::File { path: f.path@, contents: f.contents@ },
        Cell::Stream(s) => CellVal::Stream(
            StreamVal { types: view_cols(s.types@), rows: view_rows(s.rows@) },
        ),
        Cell::Rows(r) => CellVal::Rows(
            StreamVal { types: view_cols(r.types@), rows: view_rows(r.rows@) },
        ),
    }
}

pub open spec fn view_rows(rows: Seq<Row>) -> Seq<RowVal>
    decreases rows,
{
    if rows.len() == 0 {
        Seq::empty()
    } else {
        seq![view_row(rows[0])] + view_rows(rows.drop_first())
    }
}

pub open spec fn view_row(r: Row) -> RowVal
    decreases r,
{
    RowVal { cells: view_cells(r.cells@) }
}

pub open spec fn view_cells(cells: Seq<Cell>) -> Seq<CellVal>
    decreases cells,
{
    if cells.len() == 0 {
        Seq::empty()
    } else {
        seq![view_cell(cells[0])] + view_cells(cells.drop_first())
    }
}

// ---------------------------------------------------------------------------
// Arguments: a command receives cells, each optionally under a name. Named
// arguments are bound into the invocation's scope by the orchestrator;
// unnamed ones are passed through as positional data only.
// ---------------------------------------------------------------------------

#[derive(PartialEq, Eq, Debug)]
pub struct Argument {
    pub name: Option<String>,
    pub value: Cell,
}

/// Mathematical model of an `Argument`.
#[verifier::ext_equal]
pub struct ArgVal {
    pub name: Option<Seq<char>>,
    pub value: CellVal,
}

pub open spec fn view_arg(a: Argument) -> ArgVal {
    ArgVal {
        name: match a.name {
            Some(n) => Some(n@),
            None => None,
        },
        value: view_cell(a.value),
    }
}

pub open spec fn view_args(args: Seq<Argument>) -> Seq<ArgVal> {
    args.map_values(|a: Argument| view_arg(a))
}

/// The value the name `m` ends up bound to once the named arguments are
/// declared in order: the last argument named `m` wins.
pub open spec fn arg_binding(args: Seq<ArgVal>, m: Seq<char>) -> Option<CellVal>
    decreases args.len(),
{
    if args.len() == 0 {
        None
    } else if args.last().name == Some(m) {
        Some(args.last().value)
    } else {
        arg_binding(args.drop_last(), m)
    }
}


// ---------------------------------------------------------------------------
// Schema conformance: the data model's invariant that a stream-valued
// cell's declared schema matches every row later read from it, and that a
// row carries one cell per column, each of the column's kind.
// ---------------------------------------------------------------------------

pub open spec fn cell_matches(v: CellVal, t: TypeVal) -> bool
    decreases v,
{
    match v {
        CellVal::Text(_) => t is Text,
        CellVal::Numeric(_) => t is Numeric,
        CellVal::File { .. } => t is File,
        CellVal::Stream(sv) => t == TypeVal::Stream(sv.types) && rows_match(sv.rows, sv.types),
        CellVal::Rows(sv) => t == TypeVal::Stream(sv.types) && rows_match(sv.rows, sv.types),
    }
}

pub open spec fn rows_match(rows: Seq<RowVal>, types: Seq<ColVal>) -> bool
    decreases rows,
{
    if rows.len() == 0 {
        true
    } else {
        row_matches(rows[0], types) && rows_match(rows.drop_first(), types)
    }
}

pub open spec fn row_matches(r: RowVal, types: Seq<ColVal>) -> bool
    decreases r,
{
    cells_match(r.cells, types)
}

pub open spec fn cells_match(cells: Seq<CellVal>, types: Seq<ColVal>) -> bool
    decreases cells,
{
    if cells.len() != types.len() {
        false
    } else if cells.len() == 0 {
        true
    } else {
        cell_matches(cells[0], types[0].cell_type) && cells_match(
            cells.drop_first(),
            types.drop_first(),
        )
    }
}

pub proof fn lemma_rows_match_pointwise(rows: Seq<RowVal>, types: Seq<ColVal>)
    ensures
        rows_match(rows, types) <==> (forall|i: int|
            0 <= i < rows.len() ==> row_matches(#[trigger] rows[i], types)),
    decreases rows,
{
    if rows.len() > 0 {
        lemma_rows_match_pointwise(rows.drop_first(), types);
        assert(forall|i: int|
            1 <= i < rows.len() ==> #[trigger] rows[i] == rows.drop_first()[i - 1]);
    }
}

// ---------------------------------------------------------------------------
// Pointwise facts about the view of a sequence, used throughout the crate.
// ---------------------------------------------------------------------------

pub proof fn lemma_view_rows_len(rows: Seq<Row>)
    ensures
        view_rows(rows).len() == rows.len(),
        forall|i: int| 0 <= i < rows.len() ==> #[trigger] view_rows(rows)[i] == view_row(rows[i]),
    decreases rows,
{
    if rows.len() > 0 {
        lemma_view_rows_len(rows.drop_first());
        assert forall|i: int| 0 <= i < rows.len() implies #[trigger] view_rows(rows)[i]
            == view_row(rows[i]) by {
            if i > 0 {
                assert(view_rows(rows)[i] == view_rows(rows.drop_first())[i - 1]);
                assert(rows.drop_first()[i - 1] == rows[i]);
            }
        }
    }
}

pub proof fn lemma_view_cells_len(cells: Seq<Cell>)
    ensures
        view_cells(cells).len() == cells.len(),
        forall|i: int|
            0 <= i < cells.len() ==> #[trigger] view_cells(cells)[i] == view_cell(cells[i]),
    decreases cells,
{
    if cells.len() > 0 {
        lemma_view_cells_len(cells.drop_first());
        assert forall|i: int| 0 <= i < cells.len() implies #[trigger] view_cells(cells)[i]
            == view_cell(cells[i]) by {
            if i > 0 {
                assert(view_cells(cells)[i] == view_cells(cells.drop_first())[i - 1]);
                assert(cells.drop_first()[i - 1] == cells[i]);
            }
        }
    }
}

pub proof fn lemma_view_cols_len(cols: Seq<ColumnType>)
    ensures
        view_cols(cols).len() == cols.len(),
        forall|i: int|
            0 <= i < cols.len() ==> #[trigger] view_cols(cols)[i] == (ColVal {
                name: cols[i].name@,
                cell_type: view_type(cols[i].cell_type),
            }),
    decreases cols,
{
    if cols.len() > 0 {
        lemma_view_cols_len(cols.drop_first());
        assert forall|i: int| 0 <= i < cols.len() implies #[trigger] view_cols(cols)[i] == (ColVal {
            name: cols[i].name@,
            cell_type: view_type(cols[i].cell_type),
        }) by {
            if i > 0 {
                assert(view_cols(cols)[i] == view_cols(cols.drop_first())[i - 1]);
                assert(cols.drop_first()[i - 1] == cols[i]);
            }
        }
    }
}

pub proof fn lemma_view_rows_concat(a: Seq<Row>, b: Seq<Row>)
    ensures
        view_rows(a + b) == view_rows(a) + view_rows(b),
    decreases a,
{
    if a.len() == 0 {
        assert(a + b =~= b);
        assert(view_rows(a) + view_rows(b) =~= view_rows(b));
    } else {
        lemma_view_rows_concat(a.drop_first(), b);
        assert((a + b).drop_first() =~= a.drop_first() + b);
        assert((a + b)[0] == a[0]);
        assert(view_rows(a + b) =~= view_rows(a) + view_rows(b));
    }
}

pub proof fn lemma_view_cols_concat(a: Seq<ColumnType>, b: Seq<ColumnType>)
    ensures
        view_cols(a + b) == view_cols(a) + view_cols(b),
    decreases a,
{
    if a.len() == 0 {
        assert(a + b =~= b);
        assert(view_cols(a) + view_cols(b) =~= view_cols(b));
    } else {
        lemma_view_cols_concat(a.drop_first(), b);
        assert((a + b).drop_first() =~= a.drop_first() + b);
        assert((a + b)[0] == a[0]);
        assert(view_cols(a + b) =~= view_cols(a) + view_cols(b));
    }
}

pub proof fn lemma_view_cols_push(a: Seq<ColumnType>, c: ColumnType)
    ensures
        view_cols(a.push(c)) == view_cols(a).push(
            ColVal { name: c.name@, cell_type: view_type(c.cell_type) },
        ),
{
    assert(a.push(c) =~= a + seq![c]);
    lemma_view_cols_concat(a, seq![c]);
    assert(seq![c].drop_first() =~= Seq::<ColumnType>::empty());
    assert(view_cols(seq![c]) =~= seq![ColVal { name: c.name@, cell_type: view_type(c.cell_type) }])
        by {
        reveal_with_fuel(view_cols, 2);
    }
    assert(view_cols(a) + seq![ColVal { name: c.name@, cell_type: view_type(c.cell_type) }]
        =~= view_cols(a).push(ColVal { name: c.name@, cell_type: view_type(c.cell_type) }));
}

pub proof fn lemma_view_cells_concat(a: Seq<Cell>, b: Seq<Cell>)
    ensures
        view_cells(a + b) == view_cells(a) + view_cells(b),
    decreases a,
{
    if a.len() == 0 {
        assert(a + b =~= b);
        assert(view_cells(a) + view_cells(b) =~= view_cells(b));
    } else {
        lemma_view_cells_concat(a.drop_first(), b);
        assert((a + b).drop_first() =~= a.drop_first() + b);
        assert((a + b)[0] == a[0]);
        assert(view_cells(a + b) =~= view_cells(a) + view_cells(b));
    }
}

pub proof fn lemma_view_cells_push(a: Seq<Cell>, c: Cell)
    ensures
        view_cells(a.push(c)) == view_cells(a).push(view_cell(c)),
{
    assert(a.push(c) =~= a + seq![c]);
    lemma_view_cells_concat(a, seq![c]);
    assert(seq![c].drop_first() =~= Seq::<Cell>::empty());
    assert(view_cells(seq![c]) =~= seq![view_cell(c)]) by {
        reveal_with_fuel(view_cells, 2);
    }
    assert(view_cells(a) + seq![view_cell(c)] =~= view_cells(a).push(view_cell(c)));
}

pub proof fn lemma_view_rows_push(a: Seq<Row>, r: Row)
    ensures
        view_rows(a.push(r)) == view_rows(a).push(view_row(r)),
{
    assert(a.push(r) =~= a + seq![r]);
    lemma_view_rows_concat(a, seq![r]);
    assert(seq![r].drop_first() =~= Seq::<Row>::empty());
    assert(view_rows(seq![r]) =~= seq![view_row(r)]) by {
        reveal_with_fuel(view_rows, 2);
    }
    assert(view_rows(a) + seq![view_row(r)] =~= view_rows(a).push(view_row(r)));
}

} // verus!
