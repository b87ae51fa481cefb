//! Reading a dataset's text: which lines make a table, and of what shape.
//!
//! A dataset is written one example per line, its values as numeric tokens
//! with commas between them. Every line is a row, an empty one too. The
//! lines make a table when every token is numeric and every line has as
//! many fields as the first.

use crate::fields::{fields, split_fields, Span};
use crate::number::{is_numeric, numeric};
use vstd::prelude::*;
use vstd::slice::slice_subrange;

verus! {

/// Why a text is no dataset.
#[derive(Clone, Copy, Debug, PartialEq, Eq)]
pub enum LoadError {
    /// The field `field` of line `line` is not numeric. Both count from 0.
    NotNumeric { line: usize, field: usize },
    /// Line `line` has another number of fields than the first line.
    Ragged { line: usize },
}

/// The shape of a dataset: its examples and the values of each.
#[derive(Clone, Copy, Debug, PartialEq, Eq)]
pub struct Shape {
    pub rows: usize,
    pub cols: usize,
}

/// The lines as sequences of bytes.
pub open spec fn texts(lines: Seq<Vec<u8>>) -> Seq<Seq<u8>> {
    lines.map_values(|line: Vec<u8>| line@)
}

/// Line `l` has a field `f`, and it is not numeric.
pub open spec fn bad_token(lines: Seq<Seq<u8>>, l: int, f: int) -> bool {
    &&& 0 <= l < lines.len()
    &&& 0 <= f < fields(lines[l]).len()
    &&& !numeric(fields(lines[l])[f])
}

/// The number of columns of the table that the lines make: the fields of
/// the first line. A text without lines has one column, the target's.
pub open spec fn width(lines: Seq<Seq<u8>>) -> nat {
    if lines.len() == 0 {
        1
    } else {
        fields(lines[0]).len()
    }
}

/// There is a line `l`, and it has another number of fields than the table
/// has columns.
pub open spec fn ragged_at(lines: Seq<Seq<u8>>, l: int) -> bool {
    0 <= l < lines.len() && fields(lines[l]).len() != width(lines)
}

/// The lines make a table: every token is numeric, and every line has the
/// table's number of columns.
pub open spec fn is_table(lines: Seq<Seq<u8>>) -> bool {
    &&& forall|l: int, f: int| !bad_token(lines, l, f)
    &&& forall|l: int| !ragged_at(lines, l)
}

/// Checks the lines of a dataset and finds its shape.
///
/// Succeeds exactly when the lines make a table. A token that is not numeric
/// is reported before any line of the wrong length is, and of several the
/// first one: the first such field of the first such line. Of several lines
/// of the wrong length the first is reported.
pub fn scan(lines: &Vec<Vec<u8>>) -> (found: Result<Shape, LoadError>)
    ensures
        match found {
            Ok(shape) => {
                &&& is_table(texts(lines@))
                &&& shape.rows == lines@.len()
                &&& shape.cols == width(texts(lines@))
            },
            Err(LoadError::NotNumeric { line, field }) => {
                &&& bad_token(texts(lines@), line as int, field as int)
                &&& forall|l: int, f: int|
                    bad_token(texts(lines@), l, f) ==> line < l || (line == l && field <= f)
            },
            Err(LoadError::Ragged { line }) => {
                &&& forall|l: int, f: int| !bad_token(texts(lines@), l, f)
                &&& ragged_at(texts(lines@), line as int)
                &&& forall|l: int| ragged_at(texts(lines@), l) ==> line <= l
            },
        },
{
    let ghost t = texts(lines@);
    let mut ragged: Option<usize> = None;
    let mut cols: usize = 1;
    let mut l: usize = 0;
    while l < lines.len()
        invariant
            t == texts(lines@),
            l <= lines@.len(),
            l == 0 ==> cols == 1,
            l > 0 ==> cols == width(t),
            forall|l2: int, f: int| 0 <= l2 < l ==> !bad_token(t, l2, f),
            match ragged {
                None => forall|l2: int| 0 <= l2 < l ==> !ragged_at(t, l2),
                Some(k) => k < l && ragged_at(t, k as int) && forall|l2: int|
                    0 <= l2 < k ==> !ragged_at(t, l2),
            },
        decreases lines@.len() - l,
    {
        let line: &[u8] = lines[l].as_slice();
        assert(t[l as int] == line@);
        let spans: Vec<Span> = split_fields(line);
        let mut f: usize = 0;
        while f < spans.len()
            invariant
                t == texts(lines@),
                l < lines@.len(),
                t[l as int] == line@,
                f <= spans@.len(),
                crate::fields::tiles(line@, spans@),
                spans@.len() == fields(line@).len(),
                forall|i: int|
                    0 <= i < spans@.len() ==> (#[trigger] spans@[i]).of(line@) == fields(line@)[i],
                forall|l2: int, f2: int| 0 <= l2 < l ==> !bad_token(t, l2, f2),
                forall|f2: int| 0 <= f2 < f ==> !bad_token(t, l as int, f2),
            decreases spans@.len() - f,
        {
            let span: Span = spans[f];
            assert(span == spans@[f as int]);
            assert(span.of(line@) == fields(line@)[f as int]);
            let token: &[u8] = slice_subrange(line, span.start, span.end);
            if !is_numeric(token) {
                assert(bad_token(t, l as int, f as int));
                return Err(LoadError::NotNumeric { line: l, field: f });
            }
            f += 1;
        }
        if l == 0 {
            cols = spans.len();
        } else if ragged.is_none() && spans.len() != cols {
            ragged = Some(l);
        }
        l += 1;
    }
    match ragged {
        Some(k) => Err(LoadError::Ragged { line: k }),
        None => Ok(Shape { rows: lines.len(), cols }),
    }
}

} // verus!
