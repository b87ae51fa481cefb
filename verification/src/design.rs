//! From a dataset to the matrices of a fit.
//!
//! A dataset holds one example in each row: its features, and the target
//! behind them in the last column. A fit works on the targets as a column of
//! their own, and on the design matrix: the features behind a first column
//! that holds the same value, one, in every row, for the intercept.

use crate::matrix::Matrix;
use vstd::prelude::*;

verus! {

/// The features of a dataset: all its columns but the last, in order.
pub fn features<T: Copy>(dataset: &Matrix<T>) -> (x: Matrix<T>)
    requires
        dataset.wf(),
        dataset.ncols() >= 1,
    ensures
        x.has_shape(dataset.nrows(), (dataset.ncols() - 1) as nat),
        forall|r: int, c: int|
            0 <= r < dataset.nrows() && 0 <= c < dataset.ncols() - 1 ==> #[trigger] x.at(r, c)
                == dataset.at(r, c),
        forall|r: int| 0 <= r < dataset.nrows() ==> #[trigger] x@[r] == dataset@[r].drop_last(),
{
    let x = dataset.columns(0, dataset.cols() - 1);
    proof {
        assert forall|r: int| 0 <= r < dataset.nrows() implies #[trigger] x@[r] == dataset@[r].drop_last() by {
            assert forall|c: int| 0 <= c < dataset.ncols() - 1 implies x@[r][c] == dataset@[r].drop_last()[c] by {
                assert(x.at(r, c) == dataset.at(r, 0 + c));
            }
            assert(x@[r] =~= dataset@[r].drop_last());
        }
    }
    x
}

/// The targets of a dataset: its last column, as a table of one column.
pub fn targets<T: Copy>(dataset: &Matrix<T>) -> (y: Matrix<T>)
    requires
        dataset.wf(),
        dataset.ncols() >= 1,
    ensures
        y.has_shape(dataset.nrows(), 1),
        forall|r: int|
            0 <= r < dataset.nrows() ==> #[trigger] y.at(r, 0) == dataset.at(
                r,
                dataset.ncols() - 1,
            ),
        forall|r: int| 0 <= r < dataset.nrows() ==> #[trigger] y@[r] == seq![dataset@[r].last()],
{
    let last: usize = dataset.cols() - 1;
    let y = dataset.columns(last, dataset.cols());
    proof {
        assert forall|r: int| 0 <= r < dataset.nrows() implies #[trigger] y.at(r, 0) == dataset.at(
            r,
            dataset.ncols() - 1,
        ) by {
            assert(y.at(r, 0) == dataset.at(r, last + 0));
        }
        assert forall|r: int| 0 <= r < dataset.nrows() implies #[trigger] y@[r] == seq![
            dataset@[r].last(),
        ] by {
            assert(y.at(r, 0) == dataset.at(r, last + 0));
            assert(y@[r] =~= seq![dataset@[r].last()]);
        }
    }
    y
}

/// The design matrix: the features behind a first column that holds `one`
/// in every row.
pub fn design_matrix<T: Copy>(features: &Matrix<T>, one: T) -> (x: Matrix<T>)
    requires
        features.wf(),
        features.ncols() + 1 <= usize::MAX,
        features.nrows() * (features.ncols() + 1) <= usize::MAX,
    ensures
        x.has_shape(features.nrows(), features.ncols() + 1),
        forall|r: int| 0 <= r < features.nrows() ==> #[trigger] x.at(r, 0) == one,
        forall|r: int, c: int|
            0 <= r < features.nrows() && 1 <= c <= features.ncols() ==> #[trigger] x.at(r, c)
                == features.at(r, c - 1),
        forall|r: int| 0 <= r < features.nrows() ==> #[trigger] x@[r] == seq![one] + features@[r],
{
    let x = features.with_leading_column(one);
    proof {
        assert forall|r: int| 0 <= r < features.nrows() implies #[trigger] x@[r] == seq![one]
            + features@[r] by {
            assert forall|c: int| 0 <= c < features.ncols() + 1 implies x@[r][c] == (seq![one]
                + features@[r])[c] by {
                if c == 0 {
                    assert(x.at(r, 0) == one);
                } else {
                    assert(x.at(r, c) == features.at(r, c - 1));
                }
            }
            assert(x@[r] =~= seq![one] + features@[r]);
        }
    }
    x
}

} // verus!
