//! Dense matrices over a numeric element type, and a Lasso (L1-regularised
//! linear regression) solver built on them: gradient steps on the mean
//! squared error, each followed by soft-thresholding.
//!
//! Matrices hold any [`scalar::Scalar`]; the solver needs a [`scalar::Real`].
//! Both are implemented for the fixed-width integer types `usize`, `u64`,
//! `u32`, `i64` and `i32` (the solver runs on `i64` and `i32`).
use vstd::prelude::*;

pub mod scalar;
pub mod linalg;

use linalg::{
    dot_sum, filled, flat, lemma_flat_unique, lemma_index_in_storage, lemma_position_of, scaled_seq,
    sum_seq, Error, Matrix,
};
use scalar::{Real, Scalar};

verus! {

/// Row `i` of `data`, column 0 first.
pub open spec fn row_of<T: Scalar>(data: Matrix<T>, i: int) -> Seq<T> {
    data@.subrange(i * data.spec_width(), (i + 1) * data.spec_width())
}

/// The prediction error of the weights `w` on sample `i`: the dot product of
/// row `i` with `w`, minus the target value of that sample.
pub open spec fn residual<T: Scalar>(data: Matrix<T>, solution: Matrix<T>, w: Seq<T>, i: int) -> T {
    T::spec_sub(dot_sum(row_of(data, i), w, data.spec_width()), solution.at(0, i))
}

/// The sum, from zeros and in sample order, of each of the first `n` rows
/// scaled by its residual.
pub open spec fn weighted_rows<T: Scalar>(
    data: Matrix<T>,
    solution: Matrix<T>,
    w: Seq<T>,
    n: nat,
) -> Seq<T>
    decreases n,
{
    if n == 0 {
        filled(w.len(), T::spec_zero())
    } else {
        sum_seq(
            weighted_rows(data, solution, w, (n - 1) as nat),
            scaled_seq(row_of(data, n - 1), residual(data, solution, w, n - 1)),
        )
    }
}

/// The gradient of the mean squared error with respect to the weights (up
/// to the factor 2, which the step applies): the weighted rows scaled by the
/// reciprocal of the number of samples.
pub open spec fn gradient<T: Real>(data: Matrix<T>, solution: Matrix<T>, w: Seq<T>) -> Seq<T> {
    scaled_seq(
        weighted_rows(data, solution, w, data.spec_height()),
        T::spec_recip_count(data.spec_height()),
    )
}

/// The error that the gradient computation meets, in the order in which its
/// first sample checks the target (its row), then the weights' shape, and the
/// later samples their rows of the target; `None` when there is none.
pub open spec fn gradient_error<T: Scalar>(
    data: Matrix<T>,
    solution: Matrix<T>,
    w: Matrix<T>,
) -> Option<Error> {
    if data.spec_height() == 0 {
        None
    } else if solution.spec_height() == 0 {
        Some(Error::IndexOutOfRange)
    } else if !(w.spec_width() == 1 && w@.len() == data.spec_width()) {
        Some(Error::SizeMismatch)
    } else if solution.spec_height() < data.spec_height() {
        Some(Error::IndexOutOfRange)
    } else {
        None
    }
}

/// The learning-rate factor `-2 * step_length`.
pub open spec fn step_factor<T: Real>(step_length: T) -> T {
    T::spec_mul(T::spec_neg(T::spec_add(T::spec_one(), T::spec_one())), step_length)
}

/// The weights after one gradient-descent step on the mean squared error.
pub open spec fn regression_step<T: Real>(
    data: Matrix<T>,
    solution: Matrix<T>,
    w: Seq<T>,
    step_length: T,
) -> Seq<T> {
    sum_seq(w, scaled_seq(gradient(data, solution, w), step_factor(step_length)))
}

/// One value pulled towards zero by `lambda`: `e - lambda` above `lambda`,
/// `e + lambda` below `-lambda`, zero otherwise.
pub open spec fn soft_value<T: Real>(e: T, lambda: T) -> T {
    if T::spec_lt(lambda, e) {
        T::spec_sub(e, lambda)
    } else if T::spec_lt(e, T::spec_neg(lambda)) {
        T::spec_add(e, lambda)
    } else {
        T::spec_zero()
    }
}

/// Every value of `v` pulled towards zero by `lambda`.
pub open spec fn soft_seq<T: Real>(v: Seq<T>, lambda: T) -> Seq<T> {
    Seq::new(v.len(), |k: int| soft_value(v[k], lambda))
}

/// The weights after one Lasso step: a regression step, then soft-thresholding.
pub open spec fn lasso_update<T: Real>(
    data: Matrix<T>,
    solution: Matrix<T>,
    w: Seq<T>,
    step_length: T,
    lambda: T,
) -> Seq<T> {
    soft_seq(regression_step(data, solution, w, step_length), lambda)
}

/// The weights after `n` Lasso steps from `w`.
pub open spec fn lasso_iterate<T: Real>(
    data: Matrix<T>,
    solution: Matrix<T>,
    w: Seq<T>,
    step_length: T,
    lambda: T,
    n: nat,
) -> Seq<T>
    decreases n,
{
    if n == 0 {
        w
    } else {
        lasso_update(
            data,
            solution,
            lasso_iterate(data, solution, w, step_length, lambda, (n - 1) as nat),
            step_length,
            lambda,
        )
    }
}

/// Soft-thresholding never oscillates. For `lambda >= 0`, one thresholding
/// moves a value towards zero without crossing it, a second one with the same
/// `lambda` moves the result again towards zero without crossing it, a value
/// that reached zero stays zero, and two thresholdings by `lambda` equal one
/// by `2 * lambda`.
pub proof fn lemma_soft_threshold_settles(x: i64, lambda: i64)
    requires
        0 <= lambda <= i64::MAX / 2,
    ensures
        ({
            let once = soft_value(x, lambda);
            let twice = soft_value(once, lambda);
            &&& x >= 0 ==> 0 <= once <= x
            &&& x <= 0 ==> x <= once <= 0
            &&& once >= 0 ==> 0 <= twice <= once
            &&& once <= 0 ==> once <= twice <= 0
            &&& once == 0 ==> twice == 0
            &&& twice == soft_value(x, (2 * lambda) as i64)
        }),
{
}

/// The gradient of the mean squared error of the weights `w` (width 1, one
/// value per feature) on the samples `data` (one row each) with targets
/// `solution` (width 1, one value per sample).
pub fn mse_gradient<T: Real>(data: &Matrix<T>, solution: &Matrix<T>, w: &Matrix<T>) -> (r: Result<
    Matrix<T>,
    Error,
>)
    requires
        data.wf(),
        solution.wf(),
        w.wf(),
    ensures
        match gradient_error(*data, *solution, *w) {
            Some(e) => r == Err::<Matrix<T>, Error>(e),
            None => r matches Ok(g) && g.wf() && g.spec_width() == w.spec_width() && g.spec_height()
                == w.spec_height() && g@ == gradient(*data, *solution, w@),
        },
{
    let height = data.height();
    let mut sum: Matrix<T> = Matrix::new(w.width(), w.height());
    let mut i: usize = 0;
    while i < height
        invariant
            i <= height,
            height == data.spec_height(),
            data.wf(),
            solution.wf(),
            w.wf(),
            sum.wf(),
            sum.spec_width() == w.spec_width(),
            sum@.len() == w@.len(),
            sum@ == weighted_rows(*data, *solution, w@, i as nat),
            i > 0 ==> solution.spec_height() >= i && w.spec_width() == 1 && w@.len()
                == data.spec_width(),
        decreases height - i,
    {
        let row = match data.row(i) {
            Ok(row) => row,
            Err(e) => return Err(e),
        };
        let target = match solution.get(0, i) {
            Ok(target) => target,
            Err(e) => return Err(e),
        };
        let coef = match row.dot(w) {
            Ok(prediction) => prediction.minus(target),
            Err(e) => return Err(e),
        };
        let value = row.mul_scalar(coef);
        sum = match sum.add(&value) {
            Ok(m) => m,
            Err(e) => return Err(e),
        };
        i = i + 1;
        assert(sum@ =~= weighted_rows(*data, *solution, w@, i as nat));
    }
    Ok(sum.mul_scalar(T::recip_count(height)))
}

/// The weights after one step of gradient descent on the mean squared error,
/// with learning rate `2 * step_length`.
pub fn linear_regression_step<T: Real>(
    data: &Matrix<T>,
    solution: &Matrix<T>,
    w: &Matrix<T>,
    step_length: T,
) -> (r: Result<Matrix<T>, Error>)
    requires
        data.wf(),
        solution.wf(),
        w.wf(),
    ensures
        match gradient_error(*data, *solution, *w) {
            Some(e) => r == Err::<Matrix<T>, Error>(e),
            None => r matches Ok(m) && m.wf() && m.spec_width() == w.spec_width() && m.spec_height()
                == w.spec_height() && m@ == regression_step(*data, *solution, w@, step_length),
        },
{
    let gradient = match mse_gradient(data, solution, w) {
        Ok(g) => g,
        Err(e) => return Err(e),
    };
    let two = T::one().plus(T::one());
    let step = gradient.mul_scalar(two.negate().times(step_length));
    w.add(&step)
}

/// Every element pulled towards zero by `lambda`: the proximal map of the
/// L1 penalty.
pub fn soft_threshold<T: Real>(matrix: &Matrix<T>, lambda: T) -> (r: Matrix<T>)
    requires
        matrix.wf(),
    ensures
        r.wf(),
        r.spec_width() == matrix.spec_width(),
        r.spec_height() == matrix.spec_height(),
        r@ == soft_seq(matrix@, lambda),
{
    let width = matrix.width();
    let height = matrix.height();
    let mut out: Matrix<T> = Matrix::new(width, height);
    proof {
        assert forall|ii: int, jj: int| matrix.in_bounds(ii, jj) implies #[trigger] out.at(ii, jj)
            == T::spec_zero() by {
            lemma_index_in_storage(width as int, height as int, ii, jj);
        }
    }
    let mut i: usize = 0;
    while i < width
        invariant
            i <= width,
            width == matrix.spec_width(),
            height == matrix.spec_height(),
            matrix.wf(),
            out.wf(),
            out.spec_width() == width,
            out.spec_height() == height,
            forall|ii: int, jj: int|
                matrix.in_bounds(ii, jj) ==> #[trigger] out.at(ii, jj) == if ii < i {
                    soft_value(matrix.at(ii, jj), lambda)
                } else {
                    T::spec_zero()
                },
        decreases width - i,
    {
        let mut j: usize = 0;
        while j < height
            invariant
                i < width,
                j <= height,
                width == matrix.spec_width(),
                height == matrix.spec_height(),
                matrix.wf(),
                out.wf(),
                out.spec_width() == width,
                out.spec_height() == height,
                forall|ii: int, jj: int|
                    matrix.in_bounds(ii, jj) ==> #[trigger] out.at(ii, jj) == if ii < i || (ii == i
                        && jj < j) {
                        soft_value(matrix.at(ii, jj), lambda)
                    } else {
                        T::spec_zero()
                    },
            decreases height - j,
        {
            let element = matrix.get(i, j).unwrap();
            let thresholded = if lambda.less_than(element) {
                element.minus(lambda)
            } else if element.less_than(lambda.negate()) {
                element.plus(lambda)
            } else {
                T::zero()
            };
            let ghost before = out;
            let _ = out.set(i, j, thresholded);
            proof {
                assert forall|ii: int, jj: int| matrix.in_bounds(ii, jj) implies #[trigger] out.at(
                    ii,
                    jj,
                ) == if ii < i || (ii == i && jj < j + 1) {
                    soft_value(matrix.at(ii, jj), lambda)
                } else {
                    T::spec_zero()
                } by {
                    lemma_index_in_storage(width as int, height as int, ii, jj);
                    if ii != i || jj != j {
                        if flat(ii, jj, width as int) == flat(i as int, j as int, width as int) {
                            lemma_flat_unique(ii, jj, i as int, j as int, width as int);
                        }
                        lemma_index_in_storage(width as int, height as int, i as int, j as int);
                        assert(out.at(ii, jj) == before.at(ii, jj));
                    }
                }
            }
            j = j + 1;
        }
        i = i + 1;
    }
    proof {
        assert forall|k: int| 0 <= k < out@.len() implies #[trigger] out@[k] == soft_value(
            matrix@[k],
            lambda,
        ) by {
            lemma_position_of(k, width as int, height as int);
            assert(out.at(k % (width as int), k / (width as int)) == out@[k]);
        }
        assert(out@ =~= soft_seq(matrix@, lambda));
    }
    out
}

/// The weights after one Lasso step: a regression step, then
/// soft-thresholding by `lambda`.
pub fn lasso_step<T: Real>(
    data: &Matrix<T>,
    solution: &Matrix<T>,
    w: &Matrix<T>,
    step_length: T,
    lambda: T,
) -> (r: Result<Matrix<T>, Error>)
    requires
        data.wf(),
        solution.wf(),
        w.wf(),
    ensures
        match gradient_error(*data, *solution, *w) {
            Some(e) => r == Err::<Matrix<T>, Error>(e),
            None => r matches Ok(m) && m.wf() && m.spec_width() == w.spec_width() && m.spec_height()
                == w.spec_height() && m@ == lasso_update(*data, *solution, w@, step_length, lambda),
        },
{
    let regression_w = match linear_regression_step(data, solution, w, step_length) {
        Ok(m) => m,
        Err(e) => return Err(e),
    };
    Ok(soft_threshold(&regression_w, lambda))
}

/// Lasso regression: `steps` Lasso steps from `initial_w`, with no early
/// stop. The first error of a step ends the run and is returned as it is.
pub fn simple_lasso<T: Real>(
    data: &Matrix<T>,
    solution: &Matrix<T>,
    initial_w: &Matrix<T>,
    step_length: T,
    lambda: T,
    steps: usize,
) -> (r: Result<Matrix<T>, Error>)
    requires
        data.wf(),
        solution.wf(),
        initial_w.wf(),
    ensures
        steps > 0 && gradient_error(*data, *solution, *initial_w) is Some ==> r == Err::<
            Matrix<T>,
            Error,
        >(gradient_error(*data, *solution, *initial_w).unwrap()),
        steps == 0 || gradient_error(*data, *solution, *initial_w) is None ==> (r matches Ok(m)
            && m.wf() && m.spec_width() == initial_w.spec_width() && m.spec_height()
            == initial_w.spec_height() && m@ == lasso_iterate(
            *data,
            *solution,
            initial_w@,
            step_length,
            lambda,
            steps as nat,
        )),
{
    let mut w = initial_w.copy();
    let mut k: usize = 0;
    while k < steps
        invariant
            k <= steps,
            data.wf(),
            solution.wf(),
            initial_w.wf(),
            w.wf(),
            w.spec_width() == initial_w.spec_width(),
            w.spec_height() == initial_w.spec_height(),
            w@ == lasso_iterate(*data, *solution, initial_w@, step_length, lambda, k as nat),
            k > 0 ==> gradient_error(*data, *solution, *initial_w) is None,
        decreases steps - k,
    {
        w = match lasso_step(data, solution, &w, step_length, lambda) {
            Ok(m) => m,
            Err(e) => return Err(e),
        };
        k = k + 1;
    }
    Ok(w)
}

} // verus!
