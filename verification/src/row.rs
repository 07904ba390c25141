use vstd::prelude::*;

use crate::data::{Cell, CellType, CellVal, ColumnType, FileValue, Row, RowVal, RowsCell, StreamVal};
use crate::data::{
    lemma_view_cells_len, lemma_view_rows_len, view_cell, view_cells, view_cols, view_row,
    view_rows, view_type,
};
use crate::errors::Error;

verus! {

// ---------------------------------------------------------------------------
// `concrete`: the total conversion that turns any cell into an owned,
// thread-transportable value. A live stream handle becomes an owned block
// of rows; every nested value is converted as well.
// ---------------------------------------------------------------------------

pub open spec fn concrete_val(v: CellVal) -> CellVal
    decreases v,
{
    match v {
        CellVal::Text(s) => CellVal::Text(s),
        CellVal::Numeric(n) => CellVal::Numeric(n),
        CellVal::File { path, contents } => CellVal::File { path, contents },
        CellVal::Stream(sv) => CellVal::Rows(
            StreamVal { types: sv.types, rows: concrete_rows_val(sv.rows) },
        ),
        CellVal::Rows(sv) => CellVal::Rows(
            StreamVal { types: sv.types, rows: concrete_rows_val(sv.rows) },
        ),
    }
}

pub open spec fn concrete_rows_val(rows: Seq<RowVal>) -> Seq<RowVal>
    decreases rows,
{
    if rows.len() == 0 {
        Seq::empty()
    } else {
        seq![concrete_row_val(rows[0])] + concrete_rows_val(rows.drop_first())
    }
}

pub open spec fn concrete_row_val(r: RowVal) -> RowVal
    decreases r,
{
    RowVal { cells: concrete_cells_val(r.cells) }
}

pub open spec fn concrete_cells_val(cells: Seq<CellVal>) -> Seq<CellVal>
    decreases cells,
{
    if cells.len() == 0 {
        Seq::empty()
    } else {
        seq![concrete_val(cells[0])] + concrete_cells_val(cells.drop_first())
    }
}

/// `concrete` applied twice yields the same value as applied once.
pub proof fn lemma_concrete_idempotent(v: CellVal)
    ensures
        concrete_val(concrete_val(v)) == concrete_val(v),
    decreases v,
{
    match v {
        CellVal::Stream(sv) => lemma_concrete_rows_idempotent(sv.rows),
        CellVal::Rows(sv) => lemma_concrete_rows_idempotent(sv.rows),
        _ => {},
    }
}

pub proof fn lemma_concrete_rows_idempotent(rows: Seq<RowVal>)
    ensures
        concrete_rows_val(concrete_rows_val(rows)) == concrete_rows_val(rows),
    decreases rows,
{
    if rows.len() > 0 {
        lemma_concrete_row_idempotent(rows[0]);
        lemma_concrete_rows_idempotent(rows.drop_first());
        assert(concrete_rows_val(rows).drop_first() =~= concrete_rows_val(rows.drop_first()));
        assert(concrete_rows_val(concrete_rows_val(rows)) =~= concrete_rows_val(rows));
    }
}

/// `concrete` applied twice to a row yields the same row as applied once.
pub proof fn lemma_concrete_row_idempotent(r: RowVal)
    ensures
        concrete_row_val(concrete_row_val(r)) == concrete_row_val(r),
    decreases r,
{
    lemma_concrete_cells_idempotent(r.cells);
    assert(concrete_row_val(concrete_row_val(r)) =~= concrete_row_val(r));
}

pub proof fn lemma_concrete_cells_idempotent(cells: Seq<CellVal>)
    ensures
        concrete_cells_val(concrete_cells_val(cells)) == concrete_cells_val(cells),
    decreases cells,
{
    if cells.len() > 0 {
        lemma_concrete_idempotent(cells[0]);
        lemma_concrete_cells_idempotent(cells.drop_first());
        assert(concrete_cells_val(cells).drop_first() =~= concrete_cells_val(
            cells.drop_first(),
        ));
        assert(concrete_cells_val(concrete_cells_val(cells)) =~= concrete_cells_val(cells));
    }
}

pub proof fn lemma_concrete_rows_push(rows: Seq<RowVal>, r: RowVal)
    ensures
        concrete_rows_val(rows.push(r)) == concrete_rows_val(rows).push(concrete_row_val(r)),
    decreases rows,
{
    if rows.len() == 0 {
        assert(rows.push(r).drop_first() =~= Seq::<RowVal>::empty());
        assert(concrete_rows_val(rows.push(r)) =~= concrete_rows_val(rows).push(
            concrete_row_val(r),
        )) by {
            reveal_with_fuel(concrete_rows_val, 2);
        }
    } else {
        lemma_concrete_rows_push(rows.drop_first(), r);
        assert(rows.push(r).drop_first() =~= rows.drop_first().push(r));
        assert(concrete_rows_val(rows.push(r)) =~= concrete_rows_val(rows).push(
            concrete_row_val(r),
        ));
    }
}

pub proof fn lemma_concrete_cells_push(cells: Seq<CellVal>, c: CellVal)
    ensures
        concrete_cells_val(cells.push(c)) == concrete_cells_val(cells).push(concrete_val(c)),
    decreases cells,
{
    if cells.len() == 0 {
        assert(cells.push(c).drop_first() =~= Seq::<CellVal>::empty());
        assert(concrete_cells_val(cells.push(c)) =~= concrete_cells_val(cells).push(
            concrete_val(c),
        )) by {
            reveal_with_fuel(concrete_cells_val, 2);
        }
    } else {
        lemma_concrete_cells_push(cells.drop_first(), c);
        assert(cells.push(c).drop_first() =~= cells.drop_first().push(c));
        assert(concrete_cells_val(cells.push(c)) =~= concrete_cells_val(cells).push(
            concrete_val(c),
        ));
    }
}

// ---------------------------------------------------------------------------
// Schema duplication, needed when a stream cell is materialized.
// ---------------------------------------------------------------------------

fn clone_type(t: &CellType) -> (r: CellType)
    ensures
        view_type(r) == view_type(*t),
    decreases t,
{
    match t {
        CellType::Text => CellType::Text,
        CellType::Numeric => CellType::Numeric,
        CellType::File => CellType::File,
        CellType::Stream(cols) => CellType::Stream(clone_cols(cols)),
    }
}

fn clone_cols(cols: &Vec<ColumnType>) -> (r: Vec<ColumnType>)
    ensures
        view_cols(r@) == view_cols(cols@),
    decreases cols,
{
    let mut out: Vec<ColumnType> = Vec::new();
    let mut i: usize = 0;
    while i < cols.len()
        invariant
            i <= cols.len(),
            view_cols(out@) == view_cols(cols@.subrange(0, i as int)),
        decreases cols.len() - i,
    {
        let c = ColumnType {
            name: cols[i].name.clone(),
            cell_type: clone_type(&cols[i].cell_type),
        };
        proof {
            crate::data::lemma_view_cols_push(out@, c);
            assert(cols@.subrange(0, i + 1) =~= cols@.subrange(0, i as int).push(
                cols@[i as int],
            ));
            crate::data::lemma_view_cols_push(cols@.subrange(0, i as int), cols@[i as int]);
        }
        out.push(c);
        i = i + 1;
    }
    proof {
        assert(cols@.subrange(0, cols@.len() as int) =~= cols@);
    }
    out
}

// ---------------------------------------------------------------------------
// The executable conversions on cells and rows.
// ---------------------------------------------------------------------------

fn concrete_cell(c: &Cell) -> (r: Cell)
    ensures
        view_cell(r) == concrete_val(view_cell(*c)),
    decreases c,
{
    match c {
        Cell::Text(s) => Cell::Text(s.clone()),
        Cell::Numeric(n) => Cell::Numeric(*n),
        Cell::File(f) => Cell::File(FileValue { path: f.path.clone(), contents: f.contents.clone() }),
        Cell::Stream(s) => Cell::Rows(
            RowsCell { types: clone_cols(&s.types), rows: concrete_row_vec(&s.rows) },
        ),
        Cell::Rows(rc) => Cell::Rows(
            RowsCell { types: clone_cols(&rc.types), rows: concrete_row_vec(&rc.rows) },
        ),
    }
}

fn concrete_row_vec(rows: &Vec<Row>) -> (r: Vec<Row>)
    ensures
        view_rows(r@) == concrete_rows_val(view_rows(rows@)),
    decreases rows,
{
    let mut out: Vec<Row> = Vec::new();
    let mut i: usize = 0;
    while i < rows.len()
        invariant
            i <= rows.len(),
            view_rows(out@) == concrete_rows_val(view_rows(rows@.subrange(0, i as int))),
        decreases rows.len() - i,
    {
        let r = concrete_row_ref(&rows[i]);
        proof {
            crate::data::lemma_view_rows_push(out@, r);
            assert(rows@.subrange(0, i + 1) =~= rows@.subrange(0, i as int).push(rows@[i as int]));
            crate::data::lemma_view_rows_push(rows@.subrange(0, i as int), rows@[i as int]);
            lemma_concrete_rows_push(
                view_rows(rows@.subrange(0, i as int)),
                view_row(rows@[i as int]),
            );
        }
        out.push(r);
        i = i + 1;
    }
    proof {
        assert(rows@.subrange(0, rows@.len() as int) =~= rows@);
    }
    out
}

fn concrete_row_ref(r: &Row) -> (out: Row)
    ensures
        view_row(out) == concrete_row_val(view_row(*r)),
    decreases r,
{
    let mut cells: Vec<Cell> = Vec::new();
    let mut i: usize = 0;
    while i < r.cells.len()
        invariant
            i <= r.cells.len(),
            view_cells(cells@) == concrete_cells_val(view_cells(r.cells@.subrange(0, i as int))),
        decreases r.cells.len() - i,
    {
        let c = concrete_cell(&r.cells[i]);
        proof {
            crate::data::lemma_view_cells_push(cells@, c);
            assert(r.cells@.subrange(0, i + 1) =~= r.cells@.subrange(0, i as int).push(
                r.cells@[i as int],
            ));
            crate::data::lemma_view_cells_push(r.cells@.subrange(0, i as int), r.cells@[i as int]);
            lemma_concrete_cells_push(
                view_cells(r.cells@.subrange(0, i as int)),
                view_cell(r.cells@[i as int]),
            );
        }
        cells.push(c);
        i = i + 1;
    }
    proof {
        assert(r.cells@.subrange(0, r.cells@.len() as int) =~= r.cells@);
    }
    Row { cells }
}

// ---------------------------------------------------------------------------
// Duplicability: which cells `partial_clone` can copy. A live stream handle
// is receive-once and cannot be duplicated; every other kind can, as long
// as everything nested inside it can.
// ---------------------------------------------------------------------------

pub open spec fn dup_val(v: CellVal) -> bool
    decreases v,
{
    match v {
        CellVal::Text(_) => true,
        CellVal::Numeric(_) => true,
        CellVal::File { .. } => true,
        CellVal::Stream(_) => false,
        CellVal::Rows(sv) => dup_rows_val(sv.rows),
    }
}

pub open spec fn dup_rows_val(rows: Seq<RowVal>) -> bool
    decreases rows,
{
    if rows.len() == 0 {
        true
    } else {
        dup_row_val(rows[0]) && dup_rows_val(rows.drop_first())
    }
}

pub open spec fn dup_row_val(r: RowVal) -> bool
    decreases r,
{
    dup_cells_val(r.cells)
}

pub open spec fn dup_cells_val(cells: Seq<CellVal>) -> bool
    decreases cells,
{
    if cells.len() == 0 {
        true
    } else {
        dup_val(cells[0]) && dup_cells_val(cells.drop_first())
    }
}

pub proof fn lemma_dup_rows_pointwise(rows: Seq<RowVal>)
    ensures
        dup_rows_val(rows) <==> (forall|i: int|
            0 <= i < rows.len() ==> dup_row_val(#[trigger] rows[i])),
    decreases rows,
{
    if rows.len() > 0 {
        lemma_dup_rows_pointwise(rows.drop_first());
        assert(forall|i: int|
            1 <= i < rows.len() ==> #[trigger] rows[i] == rows.drop_first()[i - 1]);
    }
}

pub proof fn lemma_dup_cells_pointwise(cells: Seq<CellVal>)
    ensures
        dup_cells_val(cells) <==> (forall|i: int|
            0 <= i < cells.len() ==> dup_val(#[trigger] cells[i])),
    decreases cells,
{
    if cells.len() > 0 {
        lemma_dup_cells_pointwise(cells.drop_first());
        assert(forall|i: int|
            1 <= i < cells.len() ==> #[trigger] cells[i] == cells.drop_first()[i - 1]);
    }
}

fn clone_cell(c: &Cell) -> (r: Result<Cell, Error>)
    ensures
        (r is Ok) == dup_val(view_cell(*c)),
        r matches Ok(d) ==> view_cell(d) == view_cell(*c),
        r matches Err(e) ==> e == Error::CloneError,
    decreases c,
{
    match c {
        Cell::Text(s) => Ok(Cell::Text(s.clone())),
        Cell::Numeric(n) => Ok(Cell::Numeric(*n)),
        Cell::File(f) => Ok(
            Cell::File(FileValue { path: f.path.clone(), contents: f.contents.clone() }),
        ),
        Cell::Stream(_) => Err(Error::CloneError),
        Cell::Rows(rc) => {
            match clone_rows(&rc.rows) {
                Ok(rows) => Ok(Cell::Rows(RowsCell { types: clone_cols(&rc.types), rows })),
                Err(e) => Err(e),
            }
        },
    }
}

fn clone_rows(rows: &Vec<Row>) -> (r: Result<Vec<Row>, Error>)
    ensures
        (r is Ok) == dup_rows_val(view_rows(rows@)),
        r matches Ok(d) ==> view_rows(d@) == view_rows(rows@),
        r matches Err(e) ==> e == Error::CloneError,
    decreases rows,
{
    proof {
        lemma_view_rows_len(rows@);
        lemma_dup_rows_pointwise(view_rows(rows@));
    }
    let mut out: Vec<Row> = Vec::new();
    let mut i: usize = 0;
    while i < rows.len()
        invariant
            i <= rows.len(),
            view_rows(out@) == view_rows(rows@.subrange(0, i as int)),
            forall|j: int| 0 <= j < i ==> dup_row_val(#[trigger] view_rows(rows@)[j]),
            view_rows(rows@).len() == rows@.len(),
            forall|j: int|
                0 <= j < rows@.len() ==> #[trigger] view_rows(rows@)[j] == view_row(rows@[j]),
            dup_rows_val(view_rows(rows@)) <==> (forall|j: int|
                0 <= j < view_rows(rows@).len() ==> dup_row_val(#[trigger] view_rows(rows@)[j])),
        decreases rows.len() - i,
    {
        let cloned = match clone_row(&rows[i]) {
            Ok(d) => d,
            Err(e) => {
                proof {
                    assert(!dup_row_val(view_rows(rows@)[i as int]));
                }
                return Err(e);
            },
        };
        proof {
            crate::data::lemma_view_rows_push(out@, cloned);
            assert(rows@.subrange(0, i + 1) =~= rows@.subrange(0, i as int).push(rows@[i as int]));
            crate::data::lemma_view_rows_push(rows@.subrange(0, i as int), rows@[i as int]);
        }
        out.push(cloned);
        i = i + 1;
    }
    proof {
        assert(rows@.subrange(0, rows@.len() as int) =~= rows@);
    }
    Ok(out)
}

fn clone_row(r: &Row) -> (out: Result<Row, Error>)
    ensures
        (out is Ok) == dup_row_val(view_row(*r)),
        out matches Ok(d) ==> view_row(d) == view_row(*r),
        out matches Err(e) ==> e == Error::CloneError,
    decreases r,
{
    proof {
        lemma_view_cells_len(r.cells@);
        lemma_dup_cells_pointwise(view_cells(r.cells@));
    }
    let mut cells: Vec<Cell> = Vec::new();
    let mut i: usize = 0;
    while i < r.cells.len()
        invariant
            i <= r.cells.len(),
            view_cells(cells@) == view_cells(r.cells@.subrange(0, i as int)),
            forall|j: int| 0 <= j < i ==> dup_val(#[trigger] view_cells(r.cells@)[j]),
            view_cells(r.cells@).len() == r.cells@.len(),
            forall|j: int|
                0 <= j < r.cells@.len() ==> #[trigger] view_cells(r.cells@)[j] == view_cell(
                    r.cells@[j],
                ),
            dup_cells_val(view_cells(r.cells@)) <==> (forall|j: int|
                0 <= j < view_cells(r.cells@).len() ==> dup_val(
                    #[trigger] view_cells(r.cells@)[j],
                )),
        decreases r.cells.len() - i,
    {
        let cloned = match clone_cell(&r.cells[i]) {
            Ok(d) => d,
            Err(e) => {
                proof {
                    assert(!dup_val(view_cells(r.cells@)[i as int]));
                }
                return Err(e);
            },
        };
        proof {
            crate::data::lemma_view_cells_push(cells@, cloned);
            assert(r.cells@.subrange(0, i + 1) =~= r.cells@.subrange(0, i as int).push(
                r.cells@[i as int],
            ));
            crate::data::lemma_view_cells_push(r.cells@.subrange(0, i as int), r.cells@[i as int]);
        }
        cells.push(cloned);
        i = i + 1;
    }
    proof {
        assert(r.cells@.subrange(0, r.cells@.len() as int) =~= r.cells@);
    }
    Ok(Row { cells })
}

// ---------------------------------------------------------------------------
// Structural hashing: a row's hash combines the hashes of its cells in
// column order, so rows with equal cell sequences hash equal.
// ---------------------------------------------------------------------------

pub open spec fn comb(h: u64, x: u64) -> u64 {
    h.wrapping_mul(31).wrapping_add(x)
}

pub open spec fn hash_chars(s: Seq<char>) -> u64
    decreases s.len(),
{
    if s.len() == 0 {
        5381
    } else {
        comb(hash_chars(s.drop_last()), s.last() as u64)
    }
}

/// The unsigned value hashed for a numeric cell: the magnitude, kept within
/// `u64` for every `i64` by mapping a negative `n` to `-1 - n`.
pub open spec fn numeric_mag(n: int) -> u64 {
    if 0 <= n <= 0xffff_ffff_ffff_ffff {
        n as u64
    } else if -0x8000_0000_0000_0000 <= n < 0 {
        (-1 - n) as u64
    } else {
        0
    }
}

pub open spec fn hash_cell_val(v: CellVal) -> u64
    decreases v,
{
    match v {
        CellVal::Text(s) => comb(1, hash_chars(s)),
        CellVal::Numeric(n) => comb(comb(2, if n < 0 { 1 } else { 0 }), numeric_mag(n)),
        CellVal::File { path, contents } => comb(comb(3, hash_chars(path)), hash_chars(contents)),
        CellVal::Stream(sv) => comb(4, hash_rows_val(sv.rows)),
        CellVal::Rows(sv) => comb(5, hash_rows_val(sv.rows)),
    }
}

pub open spec fn hash_rows_val(rows: Seq<RowVal>) -> u64
    decreases rows,
{
    if rows.len() == 0 {
        17
    } else {
        comb(hash_rows_val(rows.drop_last()), hash_row_val(rows.last()))
    }
}

pub open spec fn hash_row_val(r: RowVal) -> u64
    decreases r,
{
    comb(7, hash_cells_val(r.cells))
}

pub open spec fn hash_cells_val(cells: Seq<CellVal>) -> u64
    decreases cells,
{
    if cells.len() == 0 {
        11
    } else {
        comb(hash_cells_val(cells.drop_last()), hash_cell_val(cells.last()))
    }
}

fn hash_string(s: &String) -> (r: u64)
    ensures
        r == hash_chars(s@),
{
    let st = s.as_str();
    let n = st.unicode_len();
    let mut h: u64 = 5381;
    let mut i: usize = 0;
    while i < n
        invariant
            i <= n,
            n == st@.len(),
            st@ == s@,
            h == hash_chars(st@.subrange(0, i as int)),
        decreases n - i,
    {
        let c = st.get_char(i);
        h = h.wrapping_mul(31).wrapping_add(c as u64);
        proof {
            assert(st@.subrange(0, i + 1).drop_last() =~= st@.subrange(0, i as int));
            assert(st@.subrange(0, i + 1).last() == st@[i as int]);
        }
        i = i + 1;
    }
    proof {
        assert(st@.subrange(0, st@.len() as int) =~= st@);
    }
    h
}

fn hash_cell(c: &Cell) -> (r: u64)
    ensures
        r == hash_cell_val(view_cell(*c)),
    decreases c,
{
    match c {
        Cell::Text(s) => comb_exec(1, hash_string(s)),
        Cell::Numeric(n) => {
            let sign: u64 = if *n < 0 { 1 } else { 0 };
            let mag: u64 = if *n >= 0 { *n as u64 } else { (-1i64 - *n) as u64 };
            comb_exec(comb_exec(2, sign), mag)
        },
        Cell::File(f) => comb_exec(comb_exec(3, hash_string(&f.path)), hash_string(&f.contents)),
        Cell::Stream(s) => comb_exec(4, hash_rows(&s.rows)),
        Cell::Rows(rc) => comb_exec(5, hash_rows(&rc.rows)),
    }
}

fn comb_exec(h: u64, x: u64) -> (r: u64)
    ensures
        r == comb(h, x),
{
    h.wrapping_mul(31).wrapping_add(x)
}

fn hash_rows(rows: &Vec<Row>) -> (r: u64)
    ensures
        r == hash_rows_val(view_rows(rows@)),
    decreases rows,
{
    proof {
        lemma_view_rows_len(rows@);
    }
    let mut h: u64 = 17;
    let mut i: usize = 0;
    while i < rows.len()
        invariant
            i <= rows.len(),
            view_rows(rows@).len() == rows@.len(),
            forall|j: int|
                0 <= j < rows@.len() ==> #[trigger] view_rows(rows@)[j] == view_row(rows@[j]),
            h == hash_rows_val(view_rows(rows@).subrange(0, i as int)),
        decreases rows.len() - i,
    {
        let hr = hash_row_ref(&rows[i]);
        h = comb_exec(h, hr);
        proof {
            assert(view_rows(rows@).subrange(0, i + 1).drop_last() =~= view_rows(
                rows@,
            ).subrange(0, i as int));
            assert(view_rows(rows@).subrange(0, i + 1).last() == view_rows(rows@)[i as int]);
        }
        i = i + 1;
    }
    proof {
        assert(view_rows(rows@).subrange(0, view_rows(rows@).len() as int) =~= view_rows(rows@));
    }
    h
}

fn hash_row_ref(r: &Row) -> (out: u64)
    ensures
        out == hash_row_val(view_row(*r)),
    decreases r,
{
    proof {
        lemma_view_cells_len(r.cells@);
    }
    let mut h: u64 = 11;
    let mut i: usize = 0;
    while i < r.cells.len()
        invariant
            i <= r.cells.len(),
            view_cells(r.cells@).len() == r.cells@.len(),
            forall|j: int|
                0 <= j < r.cells@.len() ==> #[trigger] view_cells(r.cells@)[j] == view_cell(
                    r.cells@[j],
                ),
            h == hash_cells_val(view_cells(r.cells@).subrange(0, i as int)),
        decreases r.cells.len() - i,
    {
        let hc = hash_cell(&r.cells[i]);
        h = comb_exec(h, hc);
        proof {
            assert(view_cells(r.cells@).subrange(0, i + 1).drop_last() =~= view_cells(
                r.cells@,
            ).subrange(0, i as int));
            assert(view_cells(r.cells@).subrange(0, i + 1).last() == view_cells(
                r.cells@,
            )[i as int]);
        }
        i = i + 1;
    }
    proof {
        assert(view_cells(r.cells@).subrange(0, view_cells(r.cells@).len() as int) =~= view_cells(
            r.cells@,
        ));
    }
    comb_exec(7, h)
}

// ---------------------------------------------------------------------------
// Row equality: two rows are equal exactly when all cells are equal in the
// same positions, and equal rows hash equal.
// ---------------------------------------------------------------------------

pub open spec fn row_eq_val(a: RowVal, b: RowVal) -> bool {
    a.cells.len() == b.cells.len() && (forall|i: int|
        0 <= i < a.cells.len() ==> a.cells[i] == b.cells[i])
}

/// Rows with identical cell sequences in the same order are equal, and
/// only those.
pub proof fn lemma_row_eq_iff(a: RowVal, b: RowVal)
    ensures
        row_eq_val(a, b) <==> a == b,
{
    if row_eq_val(a, b) {
        assert(a.cells =~= b.cells);
        assert(a =~= b);
    }
}

/// Rows with identical cell sequences in the same order hash equal.
pub proof fn lemma_row_hash_eq(a: RowVal, b: RowVal)
    requires
        row_eq_val(a, b),
    ensures
        hash_row_val(a) == hash_row_val(b),
{
    lemma_row_eq_iff(a, b);
}

// ---------------------------------------------------------------------------
// The public operations on rows and cells.
// ---------------------------------------------------------------------------

impl Row {
    /// Total conversion to an owned, thread-transportable row: every live
    /// stream handle nested anywhere inside becomes an owned block of rows.
    pub fn concrete(self) -> (r: Row)
        ensures
            view_row(r) == concrete_row_val(view_row(self)),
    {
        concrete_row_ref(&self)
    }

    /// Fallible duplication: succeeds exactly when no cell of the row holds
    /// a live (receive-once) stream handle, and then yields an equal row.
    pub fn partial_clone(&self) -> (r: Result<Row, Error>)
        ensures
            (r is Ok) == dup_row_val(view_row(*self)),
            r matches Ok(d) ==> view_row(d) == view_row(*self),
            r matches Err(e) ==> e == Error::CloneError,
    {
        clone_row(self)
    }

    /// Structural hash over the ordered cell sequence.
    pub fn hash(&self) -> (r: u64)
        ensures
            r == hash_row_val(view_row(*self)),
    {
        hash_row_ref(self)
    }
}

impl Cell {
    /// Total conversion to an owned, thread-transportable cell.
    pub fn concrete(self) -> (r: Cell)
        ensures
            view_cell(r) == concrete_val(view_cell(self)),
    {
        concrete_cell(&self)
    }

    /// Fallible duplication; a live stream handle cannot be duplicated.
    pub fn partial_clone(&self) -> (r: Result<Cell, Error>)
        ensures
            (r is Ok) == dup_val(view_cell(*self)),
            r matches Ok(d) ==> view_cell(d) == view_cell(*self),
            r matches Err(e) ==> e == Error::CloneError,
    {
        clone_cell(self)
    }

    /// Structural hash of one cell.
    pub fn hash(&self) -> (r: u64)
        ensures
            r == hash_cell_val(view_cell(*self)),
    {
        hash_cell(self)
    }

    /// Appends the filesystem path this cell stands for, if it is
    /// path-like; any other kind of cell is rejected.
    pub fn file_expand(&self, out: &mut Vec<FileValue>) -> (r: Result<(), Error>)
        ensures
            (*self) matches Cell::File(f) ==> r is Ok && final(out)@ == old(out)@.push(f),
            !((*self) matches Cell::File(_)) ==> r == Err::<(), Error>(Error::ArgumentError)
                && final(out)@ == old(out)@,
    {
        match self {
            Cell::File(f) => {
                out.push(FileValue { path: f.path.clone(), contents: f.contents.clone() });
                Ok(())
            },
            _ => Err(Error::ArgumentError),
        }
    }
}

} // verus!
