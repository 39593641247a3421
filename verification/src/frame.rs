//! The frame: named columns of text, all of one height.

use crate::error::FrameError;
use crate::uniquify::unique_names;
use crate::uniquify::uniquify;
use vstd::prelude::*;

verus! {

/// What a frame holds: the names of its columns, the texts of each column
/// from top to bottom, and the number of its rows.
pub struct FrameView {
    pub names: Seq<Seq<char>>,
    pub columns: Seq<Seq<Seq<char>>>,
    pub height: nat,
}

impl FrameView {
    /// Each name has its column, every column has one text for each row,
    /// no name is empty and no two names are equal.
    pub open spec fn well_formed(self) -> bool {
        &&& self.columns.len() == self.names.len()
        &&& forall|c: int|
            0 <= c < self.columns.len() ==> (#[trigger] self.columns[c]).len() == self.height
        &&& self.names.no_duplicates()
        &&& forall|c: int| 0 <= c < self.names.len() ==> (#[trigger] self.names[c]).len() > 0
    }
}

/// The columns of a table given by its rows, for a table `width` wide.
pub open spec fn transposed(data: Seq<Seq<Seq<char>>>, width: nat) -> Seq<Seq<Seq<char>>> {
    Seq::new(width, |c: int| Seq::new(data.len(), |r: int| data[r][c]))
}

/// Every row of the table is `width` wide.
pub open spec fn rectangular(data: Seq<Seq<Seq<char>>>, width: nat) -> bool {
    forall|r: int| 0 <= r < data.len() ==> (#[trigger] data[r]).len() == width
}

/// A table of text with uniquely named columns.
#[derive(Debug, PartialEq, Eq)]
pub struct Frame {
    names: Vec<String>,
    columns: Vec<Vec<String>>,
    height: usize,
}

impl View for Frame {
    type V = FrameView;

    closed spec fn view(&self) -> FrameView {
        FrameView {
            names: self.names.deep_view(),
            columns: self.columns.deep_view(),
            height: self.height as nat,
        }
    }
}

impl Frame {
    #[verifier::type_invariant]
    spec fn valid(&self) -> bool {
        self@.well_formed()
    }

    /// The number of columns.
    pub fn width(&self) -> (w: usize)
        ensures
            w == self@.names.len(),
            self@.well_formed(),
    {
        proof {
            use_type_invariant(self);
        }
        self.names.len()
    }

    /// The number of rows.
    pub fn height(&self) -> (h: usize)
        ensures
            h == self@.height,
    {
        self.height
    }

    /// The names of the columns, from left to right.
    pub fn names(&self) -> (names: &Vec<String>)
        ensures
            names.deep_view() == self@.names,
    {
        &self.names
    }

    /// The texts of column `c`, from top to bottom.
    pub fn column(&self, c: usize) -> (texts: &Vec<String>)
        requires
            c < self@.names.len(),
        ensures
            texts.deep_view() == self@.columns[c as int],
            texts.len() == self@.height,
    {
        proof {
            use_type_invariant(self);
            assert(self.columns.deep_view()[c as int] == self.columns[c as int].deep_view());
        }
        &self.columns[c]
    }
}

/// The texts at position `c` of every row, from the first row to the last.
fn project_column(data: &Vec<Vec<String>>, c: usize) -> (texts: Vec<String>)
    requires
        forall|r: int| 0 <= r < data.len() ==> c < (#[trigger] data[r]).len(),
    ensures
        texts.deep_view() == Seq::new(data.len() as nat, |r: int| data.deep_view()[r][c as int]),
        texts.len() == data.len(),
{
    let n: usize = data.len();
    let mut texts: Vec<String> = Vec::with_capacity(n);
    let mut r: usize = 0;
    while r < n
        invariant
            n == data.len(),
            r <= n,
            texts.len() == r,
            forall|r: int| 0 <= r < data.len() ==> c < (#[trigger] data[r]).len(),
            forall|j: int| 0 <= j < r ==> (#[trigger] texts[j])@ == data.deep_view()[j][c as int],
        decreases n - r,
    {
        let text: String = data[r][c].clone();
        proof {
            assert(data.deep_view()[r as int] == data[r as int].deep_view());
            assert(data[r as int].deep_view()[c as int] == data[r as int][c as int]@);
        }
        texts.push(text);
        r += 1;
    }
    proof {
        assert(texts.deep_view() =~= Seq::new(
            data.len() as nat,
            |r: int| data.deep_view()[r][c as int],
        ));
    }
    texts
}

/// Builds a frame from header labels and rows of text.
///
/// The labels are made unique and become the names of the columns; column
/// `c` holds the texts at position `c` of the rows, from the first row to the
/// last. Fails with `ShapeMismatch` exactly when some row does not have one
/// text for each label.
pub fn assemble_frame(headers: &Vec<String>, data: &Vec<Vec<String>>) -> (res: Result<
    Frame,
    FrameError,
>)
    ensures
        res is Ok <==> rectangular(data.deep_view(), headers.len() as nat),
        res is Err ==> res->Err_0 == FrameError::ShapeMismatch,
        res is Ok ==> res->Ok_0@ == (FrameView {
            names: unique_names(headers.deep_view()),
            columns: transposed(data.deep_view(), headers.len() as nat),
            height: data.len() as nat,
        }),
        res is Ok ==> res->Ok_0@.well_formed(),
{
    let width: usize = headers.len();
    let height: usize = data.len();
    let mut r: usize = 0;
    while r < height
        invariant
            height == data.len(),
            width == headers.len(),
            r <= height,
            forall|j: int| 0 <= j < r ==> (#[trigger] data[j]).len() == width,
        decreases height - r,
    {
        if data[r].len() != width {
            proof {
                assert(data.deep_view()[r as int] == data[r as int].deep_view());
                assert(data.deep_view()[r as int].len() != width);
            }
            return Err(FrameError::ShapeMismatch);
        }
        r += 1;
    }
    proof {
        assert forall|j: int| 0 <= j < data.len() implies (#[trigger] data.deep_view()[j]).len()
            == width by {
            assert(data.deep_view()[j] == data[j].deep_view());
        }
    }
    let names: Vec<String> = uniquify(headers);
    let mut columns: Vec<Vec<String>> = Vec::with_capacity(width);
    let mut c: usize = 0;
    while c < width
        invariant
            height == data.len(),
            c <= width,
            columns.len() == c,
            forall|j: int| 0 <= j < data.len() ==> (#[trigger] data[j]).len() == width,
            forall|k: int|
                0 <= k < c ==> (#[trigger] columns[k]).deep_view() == Seq::new(
                    data.len() as nat,
                    |r: int| data.deep_view()[r][k],
                ),
        decreases width - c,
    {
        let texts: Vec<String> = project_column(data, c);
        columns.push(texts);
        c += 1;
    }
    proof {
        assert(columns.deep_view() =~= transposed(data.deep_view(), width as nat));
        assert forall|k: int| 0 <= k < names.deep_view().len() implies (
        #[trigger] names.deep_view()[k]).len() > 0 by {
            assert(names.deep_view()[k] == names[k]@);
        }
    }
    Ok(Frame { names, columns, height })
}

} // verus!
