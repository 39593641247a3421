//! From the rows of a worksheet to a frame.

use crate::cell::Cell;
use crate::error::FrameError;
use crate::frame::assemble_frame;
use crate::frame::transposed;
use crate::frame::Frame;
use crate::frame::FrameView;
use crate::header::collapse_rows;
use crate::header::collapse_rows_error;
use crate::header::collapsed;
use crate::header::lemma_all_in_bounds;
use crate::header::selected;
use crate::rows::clamped_start;
use crate::rows::extract_data;
use crate::rows::normalized_rows;
use crate::uniquify::lemma_unique_names_distinct;
use crate::uniquify::lemma_unique_names_len;
use crate::uniquify::unique_names;
use vstd::prelude::*;

verus! {

/// The largest of the indices; -1 where there is none.
pub open spec fn largest(indices: Seq<usize>) -> int
    decreases indices.len(),
{
    if indices.len() == 0 {
        -1
    } else {
        let before = largest(indices.drop_last());
        if indices.last() > before {
            indices.last() as int
        } else {
            before
        }
    }
}

/// The row at which the data begins: the one chosen, or the row after the
/// last header row.
pub open spec fn data_start(indices: Seq<usize>, chosen: Option<usize>) -> nat {
    match chosen {
        Some(start) => start as nat,
        None => (largest(indices) + 1) as nat,
    }
}

/// The frame of a worksheet, or why there is none.
///
/// The header rows are collapsed into labels and the labels made unique;
/// the rows from the start of the data on are brought to the width of the
/// header and turned into columns.
pub open spec fn build_frame_spec(
    rows: Seq<Seq<Cell>>,
    indices: Seq<usize>,
    chosen: Option<usize>,
) -> Result<FrameView, FrameError> {
    match collapse_rows_error(rows, indices) {
        Some(e) => Err(e),
        None => {
            let labels = collapsed(selected(rows, indices));
            let start = data_start(indices, chosen);
            Ok(
                FrameView {
                    names: unique_names(labels),
                    columns: transposed(normalized_rows(rows, start, labels.len()), labels.len()),
                    height: (rows.len() - clamped_start(rows.len(), start)) as nat,
                },
            )
        },
    }
}

/// What a result holds: the contents of the frame, or the error.
pub open spec fn outcome(res: Result<Frame, FrameError>) -> Result<FrameView, FrameError> {
    match res {
        Ok(frame) => Ok(frame@),
        Err(e) => Err(e),
    }
}

/// The largest index lies below whatever bounds all of them.
pub proof fn lemma_largest_bounded(indices: Seq<usize>, bound: nat)
    requires
        forall|k: int| 0 <= k < indices.len() ==> (#[trigger] indices[k]) < bound,
    ensures
        -1 <= largest(indices) < bound,
    decreases indices.len(),
{
    if indices.len() > 0 {
        assert forall|k: int| 0 <= k < indices.drop_last().len() implies (
        #[trigger] indices.drop_last()[k]) < bound by {
            assert(indices.drop_last()[k] == indices[k]);
        }
        lemma_largest_bounded(indices.drop_last(), bound);
        assert(indices.last() == indices[indices.len() - 1]);
    }
}

/// The largest of the indices.
fn largest_index(indices: &Vec<usize>) -> (m: usize)
    requires
        indices.len() > 0,
    ensures
        m == largest(indices@),
{
    let n: usize = indices.len();
    let mut m: usize = indices[0];
    let mut i: usize = 1;
    proof {
        assert(indices@.take(1).drop_last() =~= Seq::<usize>::empty());
        assert(indices@.take(1).last() == indices[0]);
        assert(largest(Seq::<usize>::empty()) == -1);
    }
    while i < n
        invariant
            n == indices.len(),
            1 <= i <= n,
            m == largest(indices@.take(i as int)),
        decreases n - i,
    {
        proof {
            assert(indices@.take(i as int + 1).drop_last() =~= indices@.take(i as int));
        }
        if indices[i] > m {
            m = indices[i];
        }
        i += 1;
    }
    proof {
        assert(indices@.take(n as int) =~= indices@);
    }
    m
}

/// Builds the frame of a worksheet.
///
/// `header_rows` names the rows whose cells give the column names, in the
/// order in which they are joined. `data_start` is the first row of data;
/// without it the data begins after the last header row. Data rows that are
/// too short or too long are aligned, never refused.
pub fn build_frame(
    rows: &Vec<Vec<Cell>>,
    header_rows: &Vec<usize>,
    data_start: Option<usize>,
) -> (res: Result<Frame, FrameError>)
    ensures
        outcome(res) == build_frame_spec(rows.deep_view(), header_rows@, data_start),
        res is Ok ==> res->Ok_0@.well_formed(),
        res is Err ==> res->Err_0 != FrameError::ShapeMismatch,
{
    let labels: Vec<String> = match collapse_rows(rows, header_rows) {
        Ok(labels) => labels,
        Err(e) => {
            return Err(e);
        },
    };
    proof {
        lemma_all_in_bounds(header_rows@, rows.len() as nat);
        lemma_largest_bounded(header_rows@, rows.len() as nat);
    }
    let start: usize = match data_start {
        Some(start) => start,
        None => largest_index(header_rows) + 1,
    };
    let data: Vec<Vec<String>> = extract_data(rows, start, labels.len());
    proof {
        assert forall|r: int| 0 <= r < data.deep_view().len() implies (
        #[trigger] data.deep_view()[r]).len() == labels.len() by {
            assert(data.deep_view()[r] == data[r].deep_view());
        }
    }
    assemble_frame(&labels, &data)
}

/// Building is a function of its inputs: two results for the same worksheet,
/// header rows and start of data hold the same frame (names, order of the
/// columns and texts) or the same error.
pub proof fn lemma_build_frame_deterministic(
    rows: Vec<Vec<Cell>>,
    header_rows: Vec<usize>,
    data_start: Option<usize>,
    first: Result<Frame, FrameError>,
    second: Result<Frame, FrameError>,
)
    requires
        outcome(first) == build_frame_spec(rows.deep_view(), header_rows@, data_start),
        outcome(second) == build_frame_spec(rows.deep_view(), header_rows@, data_start),
    ensures
        outcome(first) == outcome(second),
        first is Ok ==> second is Ok && first->Ok_0@ == second->Ok_0@,
        first is Err ==> second is Err && first->Err_0 == second->Err_0,
{
}

/// The names of every frame built are pairwise different: as a set they are
/// as many as the columns.
pub proof fn lemma_built_names_unique(
    rows: Seq<Seq<Cell>>,
    indices: Seq<usize>,
    chosen: Option<usize>,
)
    requires
        build_frame_spec(rows, indices, chosen) is Ok,
    ensures
        build_frame_spec(rows, indices, chosen)->Ok_0.names.no_duplicates(),
        build_frame_spec(rows, indices, chosen)->Ok_0.names.to_set().len() == build_frame_spec(
            rows,
            indices,
            chosen,
        )->Ok_0.names.len(),
{
    let labels = collapsed(selected(rows, indices));
    lemma_unique_names_distinct(labels);
    lemma_unique_names_len(labels);
}

/// The shape of every frame built: there are as many names as columns and
/// as the first header row has cells, at least one, and every column has one
/// text for each row from the start of the data on.
pub proof fn lemma_built_shape(rows: Seq<Seq<Cell>>, indices: Seq<usize>, chosen: Option<usize>)
    requires
        build_frame_spec(rows, indices, chosen) is Ok,
    ensures
        ({
            let frame = build_frame_spec(rows, indices, chosen)->Ok_0;
            let first = clamped_start(rows.len(), data_start(indices, chosen));
            &&& frame.well_formed()
            &&& frame.names.len() == frame.columns.len()
            &&& frame.names.len() == rows[indices[0] as int].len()
            &&& frame.names.len() > 0
            &&& frame.height == rows.len() - first
            &&& forall|c: int|
                0 <= c < frame.columns.len() ==> (#[trigger] frame.columns[c]).len() == rows.len()
                    - first
        }),
{
    let labels = collapsed(selected(rows, indices));
    lemma_unique_names_distinct(labels);
    lemma_unique_names_len(labels);
}

} // verus!
