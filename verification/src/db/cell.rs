//! The cells of the archive's rows.

use crate::jmap::error::JmapError;
use crate::text;
use vstd::prelude::*;

verus! {

/// A cell of a row. No column of the archive holds a real number or a blob, so
/// nothing more is known of one.
#[derive(Debug)]
pub enum Cell {
    Null,
    Int(i64),
    Text(String),
    Real,
    Blob,
}

/// A cell as a mathematical value.
pub enum CellVal {
    Null,
    Int(i64),
    Text(Seq<char>),
    Real,
    Blob,
}

impl View for Cell {
    type V = CellVal;

    open spec fn view(&self) -> CellVal {
        match self {
            Cell::Null => CellVal::Null,
            Cell::Int(n) => CellVal::Int(*n),
            Cell::Text(t) => CellVal::Text(t@),
            Cell::Real => CellVal::Real,
            Cell::Blob => CellVal::Blob,
        }
    }
}

/// The cells of a row, as mathematical values.
pub open spec fn cells(row: Seq<Cell>) -> Seq<CellVal> {
    Seq::new(row.len(), |i: int| row[i]@)
}

/// The cell of a column; one that no type fits where the row is too short.
pub open spec fn cell(row: Seq<CellVal>, i: int) -> CellVal {
    if 0 <= i < row.len() {
        row[i]
    } else {
        CellVal::Blob
    }
}

/// A row as it stands in its table: its id, and its columns.
pub open spec fn stored(id: i64, columns: Seq<CellVal>) -> Seq<CellVal> {
    seq![CellVal::Int(id)] + columns
}

pub open spec fn opt_int(n: Option<i64>) -> CellVal {
    match n {
        Some(k) => CellVal::Int(k),
        None => CellVal::Null,
    }
}

pub open spec fn opt_text(t: Option<Seq<char>>) -> CellVal {
    match t {
        Some(s) => CellVal::Text(s),
        None => CellVal::Null,
    }
}

pub open spec fn flag(b: bool) -> CellVal {
    CellVal::Int(
        if b {
            1
        } else {
            0
        },
    )
}

pub open spec fn is_int(c: CellVal) -> bool {
    c is Int
}

pub open spec fn is_text(c: CellVal) -> bool {
    c is Text
}

pub open spec fn is_opt_int(c: CellVal) -> bool {
    c is Int || c is Null
}

pub open spec fn is_opt_text(c: CellVal) -> bool {
    c is Text || c is Null
}

/// The integer of a cell that holds one or nothing.
pub open spec fn int_of(c: CellVal) -> Option<i64> {
    match c {
        CellVal::Int(n) => Some(n),
        _ => None,
    }
}

/// The text of a cell that holds one or nothing.
pub open spec fn text_of(c: CellVal) -> Option<Seq<char>> {
    match c {
        CellVal::Text(t) => Some(t),
        _ => None,
    }
}

pub fn int_cell(n: Option<i64>) -> (r: Cell)
    ensures
        r@ == opt_int(n),
{
    match n {
        Some(k) => Cell::Int(k),
        None => Cell::Null,
    }
}

pub fn text_cell(t: Option<&str>) -> (r: Cell)
    ensures
        r@ == opt_text(crate::json::str_view(t)),
{
    match t {
        Some(s) => Cell::Text(s.to_owned()),
        None => Cell::Null,
    }
}

pub fn flag_cell(b: bool) -> (r: Cell)
    ensures
        r@ == flag(b),
{
    Cell::Int(
        if b {
            1
        } else {
            0
        },
    )
}

/// The name of what a cell holds.
pub open spec fn type_text(c: CellVal) -> Seq<char> {
    match c {
        CellVal::Null => "Null"@,
        CellVal::Int(_) => "Integer"@,
        CellVal::Text(_) => "Text"@,
        CellVal::Real => "Real"@,
        CellVal::Blob => "Blob"@,
    }
}

/// What is said of a column that a row does not have, or that holds something
/// else than it should.
pub open spec fn column_text(row: Seq<CellVal>, i: int, name: Seq<char>) -> Seq<char> {
    if 0 <= i < row.len() {
        "Invalid column type "@ + type_text(row[i]) + " at index: "@ + text::dec(i as nat)
            + ", name: "@ + name
    } else {
        "Invalid column index: "@ + text::dec(i as nat)
    }
}

/// Whether an error is the one for a column.
pub open spec fn is_column_error(
    e: JmapError,
    row: Seq<CellVal>,
    i: int,
    name: Seq<char>,
) -> bool {
    e matches JmapError::Sqlite(m) && m@ == column_text(row, i, name)
}

fn held_type(c: &Cell) -> (r: &'static str)
    ensures
        r@ == type_text(c@),
{
    match c {
        Cell::Null => "Null",
        Cell::Int(_) => "Integer",
        Cell::Text(_) => "Text",
        Cell::Real => "Real",
        Cell::Blob => "Blob",
    }
}

fn wrong_column(row: &Vec<Cell>, i: usize, name: &str) -> (r: JmapError)
    ensures
        is_column_error(r, cells(row@), i as int, name@),
{
    let number: String = text::wide_decimal(i as u128);
    if i < row.len() {
        let mut m: String = text::joined("Invalid column type ", held_type(&row[i]));
        m.append(" at index: ");
        m.append(number.as_str());
        m.append(", name: ");
        m.append(name);
        JmapError::Sqlite(m)
    } else {
        JmapError::Sqlite(text::joined("Invalid column index: ", number.as_str()))
    }
}

/// The integer of a column, given its place and name.
pub fn int_at(row: &Vec<Cell>, i: usize, name: &str) -> (r: Result<i64, JmapError>)
    ensures
        match r {
            Ok(n) => cell(cells(row@), i as int) == CellVal::Int(n),
            Err(e) => !is_int(cell(cells(row@), i as int)) && is_column_error(
                e,
                cells(row@),
                i as int,
                name@,
            ),
        },
{
    if i < row.len() {
        if let Cell::Int(n) = &row[i] {
            return Ok(*n);
        }
    }
    Err(wrong_column(row, i, name))
}

/// The integer of a column that may hold none.
pub fn opt_int_at(row: &Vec<Cell>, i: usize, name: &str) -> (r: Result<Option<i64>, JmapError>)
    ensures
        match r {
            Ok(n) => is_opt_int(cell(cells(row@), i as int)) && n == int_of(
                cell(cells(row@), i as int),
            ),
            Err(e) => !is_opt_int(cell(cells(row@), i as int)) && is_column_error(
                e,
                cells(row@),
                i as int,
                name@,
            ),
        },
{
    if i < row.len() {
        match &row[i] {
            Cell::Int(n) => {
                return Ok(Some(*n));
            },
            Cell::Null => {
                return Ok(None);
            },
            _ => {},
        }
    }
    Err(wrong_column(row, i, name))
}

/// The text of a column, given its place and name.
pub fn text_at(row: &Vec<Cell>, i: usize, name: &str) -> (r: Result<String, JmapError>)
    ensures
        match r {
            Ok(t) => cell(cells(row@), i as int) == CellVal::Text(t@),
            Err(e) => !is_text(cell(cells(row@), i as int)) && is_column_error(
                e,
                cells(row@),
                i as int,
                name@,
            ),
        },
{
    if i < row.len() {
        if let Cell::Text(t) = &row[i] {
            return Ok(t.clone());
        }
    }
    Err(wrong_column(row, i, name))
}

/// The text of a column that may hold none.
pub fn opt_text_at(row: &Vec<Cell>, i: usize, name: &str) -> (r: Result<Option<String>, JmapError>)
    ensures
        match r {
            Ok(t) => is_opt_text(cell(cells(row@), i as int)) && crate::json::text_view(t)
                == text_of(cell(cells(row@), i as int)),
            Err(e) => !is_opt_text(cell(cells(row@), i as int)) && is_column_error(
                e,
                cells(row@),
                i as int,
                name@,
            ),
        },
{
    if i < row.len() {
        match &row[i] {
            Cell::Text(t) => {
                return Ok(Some(t.clone()));
            },
            Cell::Null => {
                return Ok(None);
            },
            _ => {},
        }
    }
    Err(wrong_column(row, i, name))
}

fn same_cell(a: &Cell, b: &Cell) -> (r: bool)
    ensures
        r == (a@ == b@),
{
    match (a, b) {
        (Cell::Null, Cell::Null) => true,
        (Cell::Int(x), Cell::Int(y)) => *x == *y,
        (Cell::Text(x), Cell::Text(y)) => text::same(x.as_str(), y.as_str()),
        (Cell::Real, Cell::Real) => true,
        (Cell::Blob, Cell::Blob) => true,
        _ => false,
    }
}

/// Whether two rows hold the same cells.
pub fn same_row(a: &Vec<Cell>, b: &Vec<Cell>) -> (r: bool)
    ensures
        r == (cells(a@) == cells(b@)),
{
    if a.len() != b.len() {
        assert(cells(a@).len() != cells(b@).len());
        return false;
    }
    let mut i: usize = 0;
    while i < a.len()
        invariant
            i <= a@.len(),
            a@.len() == b@.len(),
            forall|k: int| 0 <= k < i ==> (#[trigger] a@[k])@ == b@[k]@,
        decreases a@.len() - i,
    {
        if !same_cell(&a[i], &b[i]) {
            assert(cells(a@)[i as int] != cells(b@)[i as int]);
            return false;
        }
        i = i + 1;
    }
    assert(cells(a@) =~= cells(b@));
    true
}

/// The columns that a row gets which is written again: nothing where there is
/// no such row or it holds them already.
pub open spec fn rewritten(old_columns: Option<Seq<CellVal>>, columns: Seq<CellVal>) -> Option<
    Seq<CellVal>,
> {
    match old_columns {
        Some(c) => if c == columns {
            None
        } else {
            Some(columns)
        },
        None => None,
    }
}

pub open spec fn opt_cells(row: Option<&Vec<Cell>>) -> Option<Seq<CellVal>> {
    match row {
        Some(c) => Some(cells(c@)),
        None => None,
    }
}

pub open spec fn written_cells(row: Option<Vec<Cell>>) -> Option<Seq<CellVal>> {
    match row {
        Some(c) => Some(cells(c@)),
        None => None,
    }
}

/// The columns to write where a row is to hold them.
pub fn rewrite(old_columns: Option<&Vec<Cell>>, columns: Vec<Cell>) -> (r: Option<Vec<Cell>>)
    ensures
        written_cells(r) == rewritten(opt_cells(old_columns), cells(columns@)),
{
    match old_columns {
        Some(c) => if same_row(c, &columns) {
            None
        } else {
            Some(columns)
        },
        None => None,
    }
}

/// Writing a row's columns once more changes nothing.
pub proof fn writing_twice_changes_nothing(
    old_columns: Option<Seq<CellVal>>,
    columns: Seq<CellVal>,
)
    ensures
        rewritten(Some(columns), columns) is None,
        rewritten(old_columns, columns) is None ==> old_columns is None || old_columns == Some(
            columns,
        ),
{
}

} // verus!
