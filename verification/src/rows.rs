//! Aligning data rows to the width of the header.

use crate::cell::label_at;
use crate::cell::stringify_at;
use crate::cell::Cell;
use vstd::prelude::*;

verus! {

/// A row brought to `width` texts: the texts of its cells in order, empty
/// texts where the row is too short, nothing of what lies beyond the width.
pub open spec fn normalized(row: Seq<Cell>, width: nat) -> Seq<Seq<char>> {
    Seq::new(width, |c: int| label_at(row, c))
}

/// The row at which the data begins, not beyond the end of the worksheet.
pub open spec fn clamped_start(row_count: nat, start: nat) -> nat {
    if start <= row_count {
        start
    } else {
        row_count
    }
}

/// The rows of a worksheet from `start` on, each brought to `width` texts.
pub open spec fn normalized_rows(rows: Seq<Seq<Cell>>, start: nat, width: nat) -> Seq<
    Seq<Seq<char>>,
> {
    let first = clamped_start(rows.len(), start);
    Seq::new((rows.len() - first) as nat, |r: int| normalized(rows[first + r], width))
}

/// Brings a row to exactly `width` texts.
///
/// A short row is filled up with empty strings and a long one is cut off;
/// neither is an error.
pub fn normalize_row(row: &Vec<Cell>, width: usize) -> (texts: Vec<String>)
    ensures
        texts.deep_view() == normalized(row.deep_view(), width as nat),
        texts.len() == width,
{
    let mut texts: Vec<String> = Vec::with_capacity(width);
    let mut c: usize = 0;
    assert(row.deep_view() =~= row@);
    while c < width
        invariant
            c <= width,
            texts.len() == c,
            forall|j: int| 0 <= j < c ==> (#[trigger] texts[j])@ == label_at(row@, j),
        decreases width - c,
    {
        let text: String = stringify_at(row, c);
        texts.push(text);
        c += 1;
    }
    proof {
        assert(texts.deep_view() =~= normalized(row@, width as nat));
    }
    texts
}

/// Brings every row of the worksheet from `start` on to exactly `width`
/// texts. Where `start` is not below the number of rows there is no data.
pub fn extract_data(rows: &Vec<Vec<Cell>>, start: usize, width: usize) -> (data: Vec<Vec<String>>)
    ensures
        data.deep_view() == normalized_rows(rows.deep_view(), start as nat, width as nat),
        data.len() == rows.len() - clamped_start(rows.len() as nat, start as nat),
        forall|r: int| 0 <= r < data.len() ==> (#[trigger] data[r]).len() == width,
{
    let n: usize = rows.len();
    let first: usize = if start <= n {
        start
    } else {
        n
    };
    let mut data: Vec<Vec<String>> = Vec::with_capacity(n - first);
    let mut r: usize = first;
    while r < n
        invariant
            n == rows.len(),
            first <= r <= n,
            data.len() == r - first,
            forall|j: int|
                0 <= j < data.len() ==> (#[trigger] data[j]).deep_view() == normalized(
                    rows.deep_view()[first + j],
                    width as nat,
                ),
            forall|j: int| 0 <= j < data.len() ==> (#[trigger] data[j]).len() == width,
        decreases n - r,
    {
        let texts: Vec<String> = normalize_row(&rows[r], width);
        proof {
            assert(rows.deep_view()[r as int] =~= rows[r as int].deep_view());
        }
        data.push(texts);
        r += 1;
    }
    proof {
        assert(data.deep_view() =~= normalized_rows(
            rows.deep_view(),
            start as nat,
            width as nat,
        ));
    }
    data
}

} // verus!
