//! Worksheet cells and their text.

use crate::text::int_text;
use crate::text::signed_text;
use vstd::prelude::*;

verus! {

/// One cell of a worksheet.
///
/// A cell that holds a fractional number, an error or a date carries the
/// text that stands for it in the sheet: the canonical decimal form of the
/// number, the marker of the error, the ISO 8601 form of the date.
#[derive(Debug, PartialEq, Eq)]
pub enum Cell {
    /// Nothing.
    Empty,
    /// A truth value.
    Bool(bool),
    /// A whole number.
    Int(i64),
    /// A fractional number, by its decimal text.
    Float(String),
    /// Text.
    Text(String),
    /// An error, by its marker.
    Error(String),
    /// A date or time, by its ISO 8601 text.
    DateTime(String),
}

impl Clone for Cell {
    fn clone(&self) -> (copy: Cell)
        ensures
            copy == *self,
    {
        match self {
            Cell::Empty => Cell::Empty,
            Cell::Bool(b) => Cell::Bool(*b),
            Cell::Int(i) => Cell::Int(*i),
            Cell::Float(s) => Cell::Float(s.clone()),
            Cell::Text(s) => Cell::Text(s.clone()),
            Cell::Error(s) => Cell::Error(s.clone()),
            Cell::DateTime(s) => Cell::DateTime(s.clone()),
        }
    }
}

impl DeepView for Cell {
    type V = Cell;

    open spec fn deep_view(&self) -> Cell {
        *self
    }
}

/// The characters `true`.
pub open spec fn true_text() -> Seq<char> {
    seq!['t', 'r', 'u', 'e']
}

/// The characters `false`.
pub open spec fn false_text() -> Seq<char> {
    seq!['f', 'a', 'l', 's', 'e']
}

/// The text of a cell.
pub open spec fn cell_text(cell: Cell) -> Seq<char> {
    match cell {
        Cell::Empty => Seq::empty(),
        Cell::Bool(b) => if b {
            true_text()
        } else {
            false_text()
        },
        Cell::Int(i) => int_text(i as int),
        Cell::Float(s) => s@,
        Cell::Text(s) => s@,
        Cell::Error(s) => s@,
        Cell::DateTime(s) => s@,
    }
}

/// The text of the cell at column `c` of a row; empty where the row has no
/// such column.
pub open spec fn label_at(row: Seq<Cell>, c: int) -> Seq<char> {
    if 0 <= c < row.len() {
        cell_text(row[c])
    } else {
        Seq::empty()
    }
}

/// Writes a cell as text.
pub fn stringify(cell: &Cell) -> (s: String)
    ensures
        s@ == cell_text(*cell),
{
    match cell {
        Cell::Empty => String::new(),
        Cell::Bool(b) => {
            proof {
                reveal_strlit("true");
                reveal_strlit("false");
                assert("true"@ =~= true_text());
                assert("false"@ =~= false_text());
            }
            if *b {
                String::from_str("true")
            } else {
                String::from_str("false")
            }
        },
        Cell::Int(i) => signed_text(*i),
        Cell::Float(s) => s.clone(),
        Cell::Text(s) => s.clone(),
        Cell::Error(s) => s.clone(),
        Cell::DateTime(s) => s.clone(),
    }
}

/// Writes the cell at column `c` of a row as text; the empty string where
/// the row has no such column.
pub fn stringify_at(row: &Vec<Cell>, c: usize) -> (s: String)
    ensures
        s@ == label_at(row@, c as int),
{
    if c < row.len() {
        stringify(&row[c])
    } else {
        String::new()
    }
}

} // verus!
