//! Collapsing header rows into one label for each column.

use crate::cell::label_at;
use crate::cell::stringify_at;
use crate::cell::Cell;
use crate::error::FrameError;
use crate::text::blank;
use crate::text::has_placeholder_prefix;
use crate::text::is_blank;
use crate::text::is_placeholder;
use crate::text::placeholder;
use crate::text::placeholder_name;
use vstd::prelude::*;

verus! {

/// Whether the text of a header cell becomes part of its column's label:
/// it is not blank and is no placeholder itself.
pub open spec fn contributes(label: Seq<char>) -> bool {
    !blank(label) && !is_placeholder(label)
}

/// The texts at column `c` of the header rows that become part of the
/// column's label, in the order of the rows.
pub open spec fn parts(header: Seq<Seq<Cell>>, c: int) -> Seq<Seq<char>>
    decreases header.len(),
{
    if header.len() == 0 {
        Seq::empty()
    } else {
        let before = parts(header.drop_last(), c);
        let label = label_at(header.last(), c);
        if contributes(label) {
            before.push(label)
        } else {
            before
        }
    }
}

/// The texts joined by single spaces.
pub open spec fn joined(texts: Seq<Seq<char>>) -> Seq<char>
    decreases texts.len(),
{
    if texts.len() == 0 {
        Seq::empty()
    } else if texts.len() == 1 {
        texts[0]
    } else {
        joined(texts.drop_last()) + seq![' '] + texts.last()
    }
}

/// The label of column `c`: the joined parts, or the placeholder of the
/// column where that is empty.
pub open spec fn collapsed_label(header: Seq<Seq<Cell>>, c: int) -> Seq<char> {
    let label = joined(parts(header, c));
    if label.len() == 0 {
        placeholder(c as nat)
    } else {
        label
    }
}

/// The labels of all columns. The first header row decides how many there
/// are.
pub open spec fn collapsed(header: Seq<Seq<Cell>>) -> Seq<Seq<char>>
    recommends
        header.len() > 0,
{
    Seq::new(header[0].len(), |c: int| collapsed_label(header, c))
}

/// The rows of a worksheet that stand at the given indices, in the order of
/// the indices.
pub open spec fn selected(rows: Seq<Seq<Cell>>, indices: Seq<usize>) -> Seq<Seq<Cell>> {
    Seq::new(indices.len(), |k: int| rows[indices[k] as int])
}

/// The first of the indices that is not below `row_count`, if there is one.
pub open spec fn first_out_of_bounds(indices: Seq<usize>, row_count: nat) -> Option<usize>
    decreases indices.len(),
{
    if indices.len() == 0 {
        None
    } else {
        match first_out_of_bounds(indices.drop_last(), row_count) {
            Some(index) => Some(index),
            None => if indices.last() >= row_count {
                Some(indices.last())
            } else {
                None
            },
        }
    }
}

/// What is wrong with a choice of header rows, if anything: none chosen, an
/// index out of bounds (the first such is named), or an index chosen
/// twice.
pub open spec fn header_rows_error(indices: Seq<usize>, row_count: nat) -> Option<FrameError> {
    if indices.len() == 0 {
        Some(FrameError::InvalidConfiguration)
    } else {
        match first_out_of_bounds(indices, row_count) {
            Some(index) => Some(FrameError::OutOfBounds(index)),
            None => if indices.no_duplicates() {
                None
            } else {
                Some(FrameError::InvalidConfiguration)
            },
        }
    }
}

/// Where no index is out of bounds, all are below `row_count`.
pub proof fn lemma_all_in_bounds(indices: Seq<usize>, row_count: nat)
    requires
        first_out_of_bounds(indices, row_count) is None,
    ensures
        forall|k: int| 0 <= k < indices.len() ==> (#[trigger] indices[k]) < row_count,
    decreases indices.len(),
{
    if indices.len() > 0 {
        lemma_all_in_bounds(indices.drop_last(), row_count);
        assert forall|k: int| 0 <= k < indices.len() implies (#[trigger] indices[k])
            < row_count by {
            if k < indices.len() - 1 {
                assert(indices.drop_last()[k] == indices[k]);
            }
        }
    }
}

/// Checks a choice of header rows against the number of rows of the
/// worksheet.
pub fn check_header_rows(header_rows: &Vec<usize>, row_count: usize) -> (res: Result<
    (),
    FrameError,
>)
    ensures
        res is Ok <==> header_rows_error(header_rows@, row_count as nat) is None,
        res is Err ==> Some(res->Err_0) == header_rows_error(header_rows@, row_count as nat),
{
    let n: usize = header_rows.len();
    if n == 0 {
        return Err(FrameError::InvalidConfiguration);
    }
    let mut i: usize = 0;
    while i < n
        invariant
            n == header_rows.len(),
            i <= n,
            first_out_of_bounds(header_rows@.take(i as int), row_count as nat) is None,
        decreases n - i,
    {
        proof {
            assert(header_rows@.take(i as int + 1).drop_last() =~= header_rows@.take(i as int));
        }
        if header_rows[i] >= row_count {
            proof {
                lemma_first_out_of_bounds_stays(header_rows@, row_count as nat, i as int + 1);
            }
            return Err(FrameError::OutOfBounds(header_rows[i]));
        }
        i += 1;
    }
    proof {
        assert(header_rows@.take(n as int) =~= header_rows@);
    }
    let mut a: usize = 0;
    while a < n
        invariant
            n == header_rows.len(),
            a <= n,
            first_out_of_bounds(header_rows@, row_count as nat) is None,
            forall|x: int, y: int|
                0 <= x < a && x < y < n ==> header_rows@[x] != header_rows@[y],
        decreases n - a,
    {
        let mut b: usize = a + 1;
        while b < n
            invariant
                n == header_rows.len(),
                a < b <= n,
                first_out_of_bounds(header_rows@, row_count as nat) is None,
                forall|y: int| a < y < b ==> header_rows@[a as int] != header_rows@[y],
            decreases n - b,
        {
            if header_rows[a] == header_rows[b] {
                proof {
                    assert(header_rows@[a as int] == header_rows@[b as int]);
                }
                return Err(FrameError::InvalidConfiguration);
            }
            b += 1;
        }
        a += 1;
    }
    Ok(())
}

/// An index found out of bounds among the first `upto` indices stays the
/// first one however many indices follow.
proof fn lemma_first_out_of_bounds_stays(indices: Seq<usize>, row_count: nat, upto: int)
    requires
        0 <= upto <= indices.len(),
        first_out_of_bounds(indices.take(upto), row_count) is Some,
    ensures
        first_out_of_bounds(indices, row_count) == first_out_of_bounds(
            indices.take(upto),
            row_count,
        ),
    decreases indices.len() - upto,
{
    if upto < indices.len() {
        assert(indices.take(upto + 1).drop_last() =~= indices.take(upto));
        lemma_first_out_of_bounds_stays(indices, row_count, upto + 1);
    } else {
        assert(indices.take(upto) =~= indices);
    }
}

/// Joins the texts with single spaces.
pub fn join_with_space(texts: &Vec<String>) -> (line: String)
    ensures
        line@ == joined(texts.deep_view()),
{
    let n: usize = texts.len();
    let mut line: String = String::new();
    if n == 0 {
        assert(texts.deep_view() =~= Seq::<Seq<char>>::empty());
        return line;
    }
    line.append(texts[0].as_str());
    proof {
        reveal_strlit(" ");
        assert(" "@ =~= seq![' ']);
        assert(texts.deep_view().take(1).len() == 1);
        assert(line@ =~= joined(texts.deep_view().take(1)));
    }
    let mut i: usize = 1;
    while i < n
        invariant
            n == texts.len(),
            1 <= i <= n,
            " "@ == seq![' '],
            line@ == joined(texts.deep_view().take(i as int)),
        decreases n - i,
    {
        proof {
            let part = texts.deep_view().take(i as int + 1);
            assert(part.drop_last() =~= texts.deep_view().take(i as int));
            assert(part.last() == texts[i as int]@);
        }
        line.append(" ");
        line.append(texts[i].as_str());
        i += 1;
    }
    proof {
        assert(texts.deep_view().take(n as int) =~= texts.deep_view());
    }
    line
}

/// The label of column `c`, from the rows of the worksheet that the indices
/// choose.
fn collapse_column(rows: &Vec<Vec<Cell>>, header_rows: &Vec<usize>, c: usize) -> (label: String)
    requires
        forall|k: int| 0 <= k < header_rows.len() ==> (#[trigger] header_rows[k]) < rows.len(),
    ensures
        label@ == collapsed_label(selected(rows.deep_view(), header_rows@), c as int),
{
    let n: usize = header_rows.len();
    let ghost header = selected(rows.deep_view(), header_rows@);
    let mut kept: Vec<String> = Vec::new();
    let mut k: usize = 0;
    proof {
        assert(kept.deep_view() =~= parts(header.take(0), c as int));
    }
    while k < n
        invariant
            n == header_rows.len(),
            k <= n,
            header == selected(rows.deep_view(), header_rows@),
            forall|k: int| 0 <= k < header_rows.len() ==> (#[trigger] header_rows[k]) < rows.len(),
            kept.deep_view() == parts(header.take(k as int), c as int),
        decreases n - k,
    {
        let ghost before = kept.deep_view();
        let label: String = stringify_at(&rows[header_rows[k]], c);
        proof {
            let part = header.take(k as int + 1);
            assert(part.drop_last() =~= header.take(k as int));
            assert(part.last() == header[k as int]);
            let r = header_rows[k as int] as int;
            assert(header[k as int] == rows.deep_view()[r]);
            assert(rows.deep_view()[r] =~= rows[r]@);
        }
        if !is_blank(label.as_str()) && !has_placeholder_prefix(label.as_str()) {
            kept.push(label);
            proof {
                assert(kept.deep_view() =~= before.push(label@));
            }
        }
        k += 1;
    }
    proof {
        assert(header.take(n as int) =~= header);
    }
    let line: String = join_with_space(&kept);
    if line.as_str().is_empty() {
        placeholder_name(c)
    } else {
        line
    }
}

/// The labels of all columns, from the rows of the worksheet that the
/// indices choose.
fn collapse_selected(rows: &Vec<Vec<Cell>>, header_rows: &Vec<usize>) -> (labels: Vec<String>)
    requires
        header_rows.len() > 0,
        forall|k: int| 0 <= k < header_rows.len() ==> (#[trigger] header_rows[k]) < rows.len(),
    ensures
        labels.deep_view() == collapsed(selected(rows.deep_view(), header_rows@)),
{
    let ghost header = selected(rows.deep_view(), header_rows@);
    let cols: usize = rows[header_rows[0]].len();
    proof {
        let r = header_rows[0] as int;
        assert(header[0] == rows.deep_view()[r]);
        assert(rows.deep_view()[r] =~= rows[r]@);
    }
    let mut labels: Vec<String> = Vec::with_capacity(cols);
    let mut c: usize = 0;
    while c < cols
        invariant
            c <= cols,
            cols == header[0].len(),
            header == selected(rows.deep_view(), header_rows@),
            forall|k: int| 0 <= k < header_rows.len() ==> (#[trigger] header_rows[k]) < rows.len(),
            labels.len() == c,
            forall|j: int| 0 <= j < c ==> (#[trigger] labels[j])@ == collapsed_label(header, j),
        decreases cols - c,
    {
        let label: String = collapse_column(rows, header_rows, c);
        labels.push(label);
        c += 1;
    }
    proof {
        assert(labels.deep_view() =~= collapsed(header));
    }
    labels
}

/// Why header rows cannot be collapsed, if they cannot: there are none, or
/// the first has no cells.
pub open spec fn collapse_error(header: Seq<Seq<Cell>>) -> Option<FrameError> {
    if header.len() == 0 {
        Some(FrameError::InvalidConfiguration)
    } else if header[0].len() == 0 {
        Some(FrameError::EmptyHeaderRow)
    } else {
        None
    }
}

/// Why the rows that the indices choose cannot be collapsed, if they cannot:
/// the choice is wrong, or the first chosen row has no cells.
pub open spec fn collapse_rows_error(rows: Seq<Seq<Cell>>, indices: Seq<usize>) -> Option<
    FrameError,
> {
    match header_rows_error(indices, rows.len()) {
        Some(e) => Some(e),
        None => collapse_error(selected(rows, indices)),
    }
}

/// Collapses header rows into one label for each column.
///
/// The rows are taken in the order given, and the first decides the number
/// of columns. In each column the texts of the cells that are neither blank
/// nor placeholders are joined by single spaces; a column for which nothing
/// is left gets the placeholder of its position.
pub fn collapse_headers(header_cells: &Vec<Vec<Cell>>) -> (res: Result<Vec<String>, FrameError>)
    ensures
        res is Ok <==> collapse_error(header_cells.deep_view()) is None,
        res is Ok ==> res->Ok_0.deep_view() == collapsed(header_cells.deep_view()),
        res is Err ==> Some(res->Err_0) == collapse_error(header_cells.deep_view()),
{
    let n: usize = header_cells.len();
    if n == 0 {
        return Err(FrameError::InvalidConfiguration);
    }
    assert(header_cells.deep_view()[0] =~= header_cells[0]@);
    if header_cells[0].len() == 0 {
        return Err(FrameError::EmptyHeaderRow);
    }
    let mut all: Vec<usize> = Vec::with_capacity(n);
    let mut i: usize = 0;
    while i < n
        invariant
            i <= n,
            all.len() == i,
            forall|k: int| 0 <= k < i ==> (#[trigger] all[k]) == k,
        decreases n - i,
    {
        all.push(i);
        i += 1;
    }
    proof {
        assert(selected(header_cells.deep_view(), all@) =~= header_cells.deep_view());
    }
    Ok(collapse_selected(header_cells, &all))
}

/// Collapses the rows of a worksheet that stand at the given indices into
/// one label for each column.
///
/// Fails where no index is given, where one is not below the number of rows,
/// where one is given twice, and where the first chosen row has no cells.
pub fn collapse_rows(rows: &Vec<Vec<Cell>>, header_rows: &Vec<usize>) -> (res: Result<
    Vec<String>,
    FrameError,
>)
    ensures
        res is Ok <==> collapse_rows_error(rows.deep_view(), header_rows@) is None,
        res is Ok ==> res->Ok_0.deep_view() == collapsed(
            selected(rows.deep_view(), header_rows@),
        ),
        res is Err ==> Some(res->Err_0) == collapse_rows_error(rows.deep_view(), header_rows@),
{
    match check_header_rows(header_rows, rows.len()) {
        Err(e) => {
            return Err(e);
        },
        Ok(()) => {},
    }
    proof {
        lemma_all_in_bounds(header_rows@, rows.len() as nat);
        let r = header_rows[0] as int;
        assert(selected(rows.deep_view(), header_rows@)[0] == rows.deep_view()[r]);
        assert(rows.deep_view()[r] =~= rows[r]@);
    }
    if rows[header_rows[0]].len() == 0 {
        return Err(FrameError::EmptyHeaderRow);
    }
    Ok(collapse_selected(rows, header_rows))
}

} // verus!
