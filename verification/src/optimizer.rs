//! The iteration of batch gradient descent.
//!
//! A fit starts from the parameter vector that is zero in every place and
//! applies one update to it a fixed number of times: no test for
//! convergence, no early exit. What one update computes is the caller's;
//! where the fit starts, how often the update is applied and to what, is
//! decided here.

use crate::matrix::Matrix;
use vstd::prelude::*;

verus! {

/// The number of updates that a fit of `number_of_iterations` makes: a
/// negative count asks for none.
pub open spec fn step_count(number_of_iterations: i32) -> nat {
    if number_of_iterations < 0 {
        0
    } else {
        number_of_iterations as nat
    }
}

/// `theta` is a column of `parameters` cells that all hold `zero`.
pub open spec fn is_zero_vector<T>(theta: Matrix<T>, parameters: nat, zero: T) -> bool {
    &&& theta.has_shape(parameters, 1)
    &&& forall|i: int| 0 <= i < theta.flat().len() ==> theta.flat()[i] == zero
}

/// `theta` is a value that a fit of `steps` updates can end in: the zero
/// vector where there is no step to make, and else what `update` makes of a
/// value that a fit of one step less can end in.
pub open spec fn fits<T, F: Fn(Matrix<T>) -> Matrix<T>>(
    update: F,
    parameters: nat,
    zero: T,
    steps: nat,
    theta: Matrix<T>,
) -> bool
    decreases steps,
{
    if steps == 0 {
        is_zero_vector(theta, parameters, zero)
    } else {
        exists|before: Matrix<T>|
            fits(update, parameters, zero, (steps - 1) as nat, before) && #[trigger] update.ensures(
                (before,),
                theta,
            )
    }
}

/// The update makes a column of `parameters` cells of every such column.
pub open spec fn keeps_shape<T, F: Fn(Matrix<T>) -> Matrix<T>>(update: F, parameters: nat) -> bool {
    forall|a: Matrix<T>, b: Matrix<T>|
        a.has_shape(parameters, 1) && #[trigger] update.ensures((a,), b) ==> b.has_shape(
            parameters,
            1,
        )
}

/// The update gives one result on one input: from tables with the same
/// cells it makes tables with the same cells.
pub open spec fn single_valued<T, F: Fn(Matrix<T>) -> Matrix<T>>(update: F) -> bool {
    forall|a: Matrix<T>, b: Matrix<T>, c: Matrix<T>, d: Matrix<T>|
        a.agrees_with(&c) && #[trigger] update.ensures((a,), b) && #[trigger] update.ensures(
            (c,),
            d,
        ) ==> b.agrees_with(&d)
}

/// Fits a parameter vector of `parameters` cells: starts from the vector
/// that holds `zero` in every cell, applies `update` exactly
/// `number_of_iterations` times, each time to the result of the time before,
/// and returns the last result.
///
/// With no iteration to make, the zero vector comes back. The result is a
/// column of `parameters` cells wherever the update makes such columns of
/// such columns.
pub fn gradient_descent<T: Copy, F: Fn(Matrix<T>) -> Matrix<T>>(
    parameters: usize,
    zero: T,
    update: F,
    number_of_iterations: i32,
) -> (theta: Matrix<T>)
    requires
        forall|start: Matrix<T>|
            is_zero_vector(start, parameters as nat, zero) ==> #[trigger] update.requires(
                (start,),
            ),
        forall|a: Matrix<T>, b: Matrix<T>|
            update.requires((a,)) && #[trigger] update.ensures((a,), b) ==> update.requires((b,)),
    ensures
        fits(update, parameters as nat, zero, step_count(number_of_iterations), theta),
        number_of_iterations <= 0 ==> is_zero_vector(theta, parameters as nat, zero),
        keeps_shape(update, parameters as nat) ==> theta.has_shape(parameters as nat, 1),
{
    assert(parameters * 1 <= usize::MAX) by (nonlinear_arith)
        requires
            parameters <= usize::MAX,
    ;
    let mut theta: Matrix<T> = Matrix::filled(parameters, 1, zero);
    let mut i: i32 = 0;
    while i < number_of_iterations
        invariant
            0 <= i,
            i as nat <= step_count(number_of_iterations),
            fits(update, parameters as nat, zero, i as nat, theta),
            update.requires((theta,)),
            i == 0 ==> is_zero_vector(theta, parameters as nat, zero),
            keeps_shape(update, parameters as nat) ==> theta.has_shape(parameters as nat, 1),
            forall|a: Matrix<T>, b: Matrix<T>|
                update.requires((a,)) && #[trigger] update.ensures((a,), b) ==> update.requires(
                    (b,),
                ),
        decreases number_of_iterations - i,
    {
        let ghost before = theta;
        theta = update(theta);
        i = i + 1;
        proof {
            assert(fits(update, parameters as nat, zero, (i - 1) as nat, before));
            assert(update.ensures((before,), theta));
        }
    }
    theta
}

/// Two fits with the same number of parameters, the same zero, the same
/// single-valued update and the same number of steps end in the same
/// parameter vector.
pub proof fn lemma_fit_is_deterministic<T, F: Fn(Matrix<T>) -> Matrix<T>>(
    update: F,
    parameters: nat,
    zero: T,
    steps: nat,
    one: Matrix<T>,
    other: Matrix<T>,
)
    requires
        single_valued(update),
        fits(update, parameters, zero, steps, one),
        fits(update, parameters, zero, steps, other),
    ensures
        one.agrees_with(&other),
    decreases steps,
{
    if steps == 0 {
        assert(one.flat() =~= other.flat());
    } else {
        let before_one = choose|before: Matrix<T>|
            fits(update, parameters, zero, (steps - 1) as nat, before) && #[trigger] update.ensures(
                (before,),
                one,
            );
        let before_other = choose|before: Matrix<T>|
            fits(update, parameters, zero, (steps - 1) as nat, before) && #[trigger] update.ensures(
                (before,),
                other,
            );
        lemma_fit_is_deterministic(
            update,
            parameters,
            zero,
            (steps - 1) as nat,
            before_one,
            before_other,
        );
    }
}

} // verus!
