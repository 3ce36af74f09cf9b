//! A dense, row-major matrix with bounds-checked access and basic linear algebra.
use vstd::prelude::*;
use vstd::arithmetic::div_mod::lemma_fundamental_div_mod;

pub use crate::scalar::Scalar;

verus! {

/// Why a matrix operation failed.
#[derive(Debug, Clone, Copy, PartialEq, Eq, Structural)]
pub enum Error {
    /// A column or row beyond the matrix's bounds was addressed.
    IndexOutOfRange,
    /// The operands' shapes do not fit the operation.
    SizeMismatch,
}

/// A matrix of numbers, stored row by row.
///
/// Positions are addressed as `(column, row)`. The width is fixed when the
/// matrix is made and is never zero; the height is the number of elements
/// divided by the width.
#[derive(Clone)]
pub struct Matrix<T: Scalar> {
    data: Vec<T>,
    stride: usize,
}

impl<T: Scalar> View for Matrix<T> {
    type V = Seq<T>;

    /// The elements, row after row.
    closed spec fn view(&self) -> Seq<T> {
        self.data@
    }
}

impl<T: Scalar> Matrix<T> {
    /// The number of columns.
    pub closed spec fn spec_width(&self) -> nat {
        self.stride as nat
    }

    /// The number of rows.
    pub open spec fn spec_height(&self) -> nat {
        if self.spec_width() == 0 {
            0
        } else {
            self@.len() / self.spec_width()
        }
    }

    /// The width is positive and the elements fill whole rows.
    pub open spec fn wf(&self) -> bool {
        &&& self.spec_width() > 0
        &&& self@.len() == self.spec_width() * self.spec_height()
        &&& self@.len() <= usize::MAX
    }

    /// Where the element at column `i` and row `j` is stored.
    pub open spec fn index_of(&self, i: int, j: int) -> int {
        flat(i, j, self.spec_width() as int)
    }

    /// Whether `(i, j)` addresses an element.
    pub open spec fn in_bounds(&self, i: int, j: int) -> bool {
        0 <= i < self.spec_width() && 0 <= j < self.spec_height()
    }

    /// The element at column `i` and row `j`.
    pub open spec fn at(&self, i: int, j: int) -> T {
        self@[self.index_of(i, j)]
    }

    /// Whether `self` and `other` have the same width and the same number of elements.
    pub open spec fn same_shape(&self, other: &Matrix<T>) -> bool {
        self.spec_width() == other.spec_width() && self@.len() == other@.len()
    }
}

/// The storage position of column `i` and row `j` in rows of `w` elements.
pub open spec fn flat(i: int, j: int, w: int) -> int {
    i + j * w
}

/// Positions taken in row-major order have increasing storage positions.
proof fn lemma_flat_before(ii: int, jj: int, i: int, j: int, w: int)
    requires
        0 <= ii < w,
        0 <= i,
        0 <= jj,
        jj < j || (jj == j && ii < i),
    ensures
        0 <= flat(ii, jj, w) < flat(i, j, w),
{
    assert(0 <= jj * w) by (nonlinear_arith)
        requires
            0 <= jj,
            0 < w,
    ;
    if jj < j {
        assert(jj * w + w <= j * w) by (nonlinear_arith)
            requires
                jj < j,
                0 < w,
        ;
    }
}

/// Two positions in rows of `w` elements share a storage position only when
/// they are the same position.
pub proof fn lemma_flat_unique(ii: int, jj: int, i: int, j: int, w: int)
    requires
        0 <= ii < w,
        0 <= i < w,
        0 <= jj,
        0 <= j,
        flat(ii, jj, w) == flat(i, j, w),
    ensures
        ii == i,
        jj == j,
{
    if jj < j || (jj == j && ii < i) {
        lemma_flat_before(ii, jj, i, j, w);
    }
    if j < jj || (j == jj && i < ii) {
        lemma_flat_before(i, j, ii, jj, w);
    }
}

/// Each storage position below `w * h` is that of column `k % w` and row `k / w`.
pub proof fn lemma_position_of(k: int, w: int, h: int)
    requires
        0 <= k < w * h,
        0 < w,
    ensures
        0 <= k % w < w,
        0 <= k / w < h,
        flat(k % w, k / w, w) == k,
{
    lemma_fundamental_div_mod(k, w);
    let q = k / w;
    let r = k % w;
    assert(0 <= q < h) by (nonlinear_arith)
        requires
            k == w * q + r,
            0 <= r < w,
            0 <= k < w * h,
            0 < w,
    ;
    assert(q * w == w * q) by (nonlinear_arith);
}

/// An element position in bounds lies inside the storage.
pub proof fn lemma_index_in_storage(w: int, h: int, i: int, j: int)
    requires
        0 <= i < w,
        0 <= j < h,
    ensures
        0 <= i + j * w < w * h,
{
    assert(j * w <= (h - 1) * w) by (nonlinear_arith)
        requires
            0 <= j < h,
            0 < w,
    ;
    assert((h - 1) * w + w == w * h) by (nonlinear_arith);
    assert(0 <= j * w) by (nonlinear_arith)
        requires
            0 <= j,
            0 < w,
    ;
}

/// A sequence of `len` equal elements.
pub open spec fn filled<T>(len: nat, value: T) -> Seq<T> {
    Seq::new(len, |k: int| value)
}


/// The elementwise sums of `a` and `b`.
pub open spec fn sum_seq<T: Scalar>(a: Seq<T>, b: Seq<T>) -> Seq<T> {
    Seq::new(a.len(), |k: int| T::spec_add(a[k], b[k]))
}

/// Every element of `a` multiplied by `x`.
pub open spec fn scaled_seq<T: Scalar>(a: Seq<T>, x: T) -> Seq<T> {
    Seq::new(a.len(), |k: int| T::spec_mul(a[k], x))
}

/// The sum, from zero and in index order, of the products `a[k] * b[k]` for `k < n`.
pub open spec fn dot_sum<T: Scalar>(a: Seq<T>, b: Seq<T>, n: nat) -> T
    decreases n,
{
    if n == 0 {
        T::spec_zero()
    } else {
        T::spec_add(dot_sum(a, b, (n - 1) as nat), T::spec_mul(a[n - 1], b[n - 1]))
    }
}

/// The sum, from zero and in index order, of `left.at(i, k) * right.at(k, j)` for `k < n`.
pub open spec fn product_entry<T: Scalar>(
    left: Matrix<T>,
    right: Matrix<T>,
    i: int,
    j: int,
    n: nat,
) -> T
    decreases n,
{
    if n == 0 {
        T::spec_zero()
    } else {
        T::spec_add(
            product_entry(left, right, i, j, (n - 1) as nat),
            T::spec_mul(left.at(i, n - 1), right.at(n - 1, j)),
        )
    }
}

/// Setting the element at an in-bounds position and then reading it back
/// gives the value set; every other position keeps its element.
pub proof fn lemma_set_then_get<T: Scalar>(before: Matrix<T>, after: Matrix<T>, i: int, j: int, value: T)
    requires
        before.wf(),
        before.in_bounds(i, j),
        after.spec_width() == before.spec_width(),
        after@ == before@.update(before.index_of(i, j), value),
    ensures
        after.wf(),
        after.in_bounds(i, j),
        after.at(i, j) == value,
        forall|ii: int, jj: int|
            #![trigger after.at(ii, jj)]
            before.in_bounds(ii, jj) && (ii != i || jj != j) ==> after.at(ii, jj) == before.at(ii, jj),
{
    let w = before.spec_width() as int;
    let h = before.spec_height() as int;
    lemma_index_in_storage(w, h, i, j);
    assert forall|ii: int, jj: int|
        #![trigger after.at(ii, jj)]
        before.in_bounds(ii, jj) && (ii != i || jj != j) implies after.at(ii, jj) == before.at(ii, jj) by {
        lemma_index_in_storage(w, h, ii, jj);
        if flat(ii, jj, w) == flat(i, j, w) {
            lemma_flat_unique(ii, jj, i, j, w);
        }
    }
}

/// Matrix addition is commutative.
pub proof fn lemma_add_commutative<T: Scalar>(a: Matrix<T>, b: Matrix<T>)
    requires
        a.wf(),
        b.wf(),
        a.same_shape(&b),
    ensures
        sum_seq(a@, b@) == sum_seq(b@, a@),
{
    assert forall|k: int| 0 <= k < a@.len() implies #[trigger] sum_seq(a@, b@)[k] == sum_seq(b@, a@)[k] by {
        T::lemma_add_commutes(a@[k], b@[k]);
    }
    assert(sum_seq(a@, b@) =~= sum_seq(b@, a@));
}

/// Multiplying by the scalar one leaves a matrix's elements unchanged.
pub proof fn lemma_mul_scalar_one<T: Scalar>(m: Matrix<T>)
    requires
        m.wf(),
    ensures
        scaled_seq(m@, T::spec_one()) == m@,
{
    assert forall|k: int| 0 <= k < m@.len() implies #[trigger] scaled_seq(m@, T::spec_one())[k] == m@[k] by {
        T::lemma_mul_one(m@[k]);
    }
    assert(scaled_seq(m@, T::spec_one()) =~= m@);
}

/// Multiplying by the scalar zero gives the zero matrix of the same shape.
pub proof fn lemma_mul_scalar_zero<T: Scalar>(m: Matrix<T>)
    requires
        m.wf(),
    ensures
        scaled_seq(m@, T::spec_zero()) == filled(m@.len(), T::spec_zero()),
{
    assert forall|k: int| 0 <= k < m@.len() implies #[trigger] scaled_seq(m@, T::spec_zero())[k]
        == T::spec_zero() by {
        T::lemma_mul_zero(m@[k]);
    }
    assert(scaled_seq(m@, T::spec_zero()) =~= filled(m@.len(), T::spec_zero()));
}

/// The vector that row extraction gives for row `i` holds, at column 0 and
/// row `k`, the element of the matrix at column `k` and row `i`.
pub proof fn lemma_row_entries<T: Scalar>(m: Matrix<T>, v: Matrix<T>, i: int)
    requires
        m.wf(),
        0 <= i < m.spec_height(),
        v.spec_width() == 1,
        v@ == m@.subrange(i * m.spec_width(), (i + 1) * m.spec_width()),
    ensures
        v.spec_height() == m.spec_width(),
        forall|k: int| 0 <= k < m.spec_width() ==> v.in_bounds(0, k) && #[trigger] v.at(0, k) == m.at(k, i),
{
    let w = m.spec_width() as int;
    assert((i + 1) * w == i * w + w) by (nonlinear_arith);
    lemma_index_in_storage(w, m.spec_height() as int, w - 1, i);
}

impl<T: Scalar> Matrix<T> {
    /// Makes a `width` by `height` matrix of zeros.
    ///
    /// A zero width is refused by the precondition: with no columns the
    /// height could not be derived from the number of elements. A zero height
    /// is allowed and gives a matrix with no elements.
    pub fn new(width: usize, height: usize) -> (r: Matrix<T>)
        requires
            width > 0,
            width * height <= usize::MAX,
        ensures
            r.wf(),
            r.spec_width() == width,
            r.spec_height() == height,
            r@ == filled((width * height) as nat, T::spec_zero()),
    {
        Self::new_fill(width, height, T::zero())
    }

    /// Makes a `width` by `height` matrix whose every element is `value`.
    pub fn new_fill(width: usize, height: usize, value: T) -> (r: Matrix<T>)
        requires
            width > 0,
            width * height <= usize::MAX,
        ensures
            r.wf(),
            r.spec_width() == width,
            r.spec_height() == height,
            r@ == filled((width * height) as nat, value),
    {
        let size: usize = width * height;
        let mut data: Vec<T> = Vec::with_capacity(size);
        let mut k: usize = 0;
        while k < size
            invariant
                k <= size,
                data@ == filled(k as nat, value),
            decreases size - k,
        {
            data.push(value);
            k = k + 1;
            assert(data@ =~= filled(k as nat, value));
        }
        let r = Matrix { data, stride: width };
        proof {
            assert(size as nat / width as nat == height) by (nonlinear_arith)
                requires
                    size == width * height,
                    width > 0,
            ;
        }
        r
    }

    /// The elementwise sum of `self` and `other`, which must have the same
    /// width and the same number of elements.
    pub fn add(&self, other: &Matrix<T>) -> (r: Result<Matrix<T>, Error>)
        requires
            self.wf(),
            other.wf(),
        ensures
            self.same_shape(other) ==> (r matches Ok(m) && m.wf() && m.spec_width()
                == self.spec_width() && m@ == sum_seq(self@, other@)),
            !self.same_shape(other) ==> r == Err::<Matrix<T>, Error>(Error::SizeMismatch),
    {
        if self.stride == other.stride && self.data.len() == other.data.len() {
            let n = self.data.len();
            let mut data: Vec<T> = Vec::with_capacity(n);
            let mut k: usize = 0;
            while k < n
                invariant
                    k <= n,
                    n == self@.len(),
                    n == other@.len(),
                    data@ == sum_seq(self@.take(k as int), other@.take(k as int)),
                decreases n - k,
            {
                data.push(self.data[k].plus(other.data[k]));
                k = k + 1;
                assert(data@ =~= sum_seq(self@.take(k as int), other@.take(k as int)));
            }
            assert(self@.take(n as int) =~= self@);
            assert(other@.take(n as int) =~= other@);
            Ok(Matrix { data, stride: self.stride })
        } else {
            Err(Error::SizeMismatch)
        }
    }

    /// Every element multiplied by the scalar `a`.
    pub fn mul_scalar(&self, a: T) -> (r: Matrix<T>)
        requires
            self.wf(),
        ensures
            r.wf(),
            r.spec_width() == self.spec_width(),
            r@ == scaled_seq(self@, a),
    {
        let n = self.data.len();
        let mut data: Vec<T> = Vec::with_capacity(n);
        let mut k: usize = 0;
        while k < n
            invariant
                k <= n,
                n == self@.len(),
                data@ == scaled_seq(self@.take(k as int), a),
            decreases n - k,
        {
            data.push(self.data[k].times(a));
            k = k + 1;
            assert(data@ =~= scaled_seq(self@.take(k as int), a));
        }
        assert(self@.take(n as int) =~= self@);
        Matrix { data, stride: self.stride }
    }

    /// The sum of the products of the elements at equal positions; for two
    /// vectors, their dot product.
    pub fn dot(&self, other: &Matrix<T>) -> (r: Result<T, Error>)
        requires
            self.wf(),
            other.wf(),
        ensures
            r == if self.same_shape(other) {
                Ok::<T, Error>(dot_sum(self@, other@, self@.len()))
            } else {
                Err::<T, Error>(Error::SizeMismatch)
            },
    {
        if self.stride == other.stride && self.data.len() == other.data.len() {
            let n = self.data.len();
            let mut acc = T::zero();
            let mut k: usize = 0;
            while k < n
                invariant
                    k <= n,
                    n == self@.len(),
                    n == other@.len(),
                    acc == dot_sum(self@, other@, k as nat),
                decreases n - k,
            {
                acc = acc.plus(self.data[k].times(other.data[k]));
                k = k + 1;
            }
            Ok(acc)
        } else {
            Err(Error::SizeMismatch)
        }
    }

    /// Row `i` as a vector: a matrix of width one whose height is this
    /// matrix's width, holding the row's elements from column 0 on.
    pub fn row(&self, i: usize) -> (r: Result<Matrix<T>, Error>)
        requires
            self.wf(),
        ensures
            i < self.spec_height() ==> (r matches Ok(v) && v.wf() && v.spec_width() == 1
                && v.spec_height() == self.spec_width() && v@ == self@.subrange(
                i * self.spec_width(),
                (i + 1) * self.spec_width(),
            )),
            i >= self.spec_height() ==> r == Err::<Matrix<T>, Error>(Error::IndexOutOfRange),
    {
        let width = self.stride;
        let height = self.data.len() / width;
        if i < height {
            proof {
                lemma_index_in_storage(width as int, height as int, 0, i as int);
                lemma_index_in_storage(width as int, height as int, width - 1, i as int);
                assert((i + 1) * width == i * width + width) by (nonlinear_arith);
            }
            let first = i * width;
            let mut data: Vec<T> = Vec::with_capacity(width);
            let mut k: usize = 0;
            while k < width
                invariant
                    k <= width,
                    first + width <= self.data.len(),
                    data@ == self@.subrange(first as int, first + k),
                decreases width - k,
            {
                data.push(self.data[first + k]);
                k = k + 1;
                assert(data@ =~= self@.subrange(first as int, first + k));
            }
            Ok(Matrix { data, stride: 1 })
        } else {
            Err(Error::IndexOutOfRange)
        }
    }

    /// The matrix product `other × self`: the element at column `i` and row
    /// `j` is the sum over `k` of `other.at(i, k) * self.at(k, j)`. The
    /// width of `self` must equal the height of `other`; the result has the
    /// width of `other` and the height of `self`.
    pub fn mul(&self, other: &Matrix<T>) -> (r: Result<Matrix<T>, Error>)
        requires
            self.wf(),
            other.wf(),
            other.spec_width() * self.spec_height() <= usize::MAX,
        ensures
            self.spec_width() == other.spec_height() ==> (r matches Ok(m) && m.wf()
                && m.spec_width() == other.spec_width() && m.spec_height() == self.spec_height()
                && forall|i: int, j: int|
                m.in_bounds(i, j) ==> #[trigger] m.at(i, j) == product_entry(
                    *other,
                    *self,
                    i,
                    j,
                    self.spec_width(),
                )),
            self.spec_width() != other.spec_height() ==> r == Err::<Matrix<T>, Error>(
                Error::SizeMismatch,
            ),
    {
        let ow = other.stride;
        let sw = self.stride;
        let sh = self.data.len() / sw;
        if sw != other.data.len() / ow {
            return Err(Error::SizeMismatch);
        }
        let olen = other.data.len();
        let slen = self.data.len();
        let mut data: Vec<T> = Vec::with_capacity(ow * sh);
        let mut j: usize = 0;
        while j < sh
            invariant
                j <= sh,
                ow == other.spec_width(),
                sw == self.spec_width(),
                sh == self.spec_height(),
                sw == other.spec_height(),
                self.wf(),
                other.wf(),
                olen == other@.len(),
                slen == self@.len(),
                ow * sh <= usize::MAX,
                data@.len() == j * ow,
                forall|ii: int, jj: int|
                    0 <= ii < ow && 0 <= jj < j ==> #[trigger] data@[flat(ii, jj, ow as int)]
                        == product_entry(*other, *self, ii, jj, sw as nat),
            decreases sh - j,
        {
            let mut i: usize = 0;
            while i < ow
                invariant
                    i <= ow,
                    j < sh,
                    ow == other.spec_width(),
                    sw == self.spec_width(),
                    sh == self.spec_height(),
                    sw == other.spec_height(),
                    self.wf(),
                    other.wf(),
                    olen == other@.len(),
                    slen == self@.len(),
                    ow * sh <= usize::MAX,
                    data@.len() == j * ow + i,
                    forall|ii: int, jj: int|
                        0 <= ii < ow && 0 <= jj && (jj < j || (jj == j && ii < i))
                            ==> #[trigger] data@[flat(ii, jj, ow as int)] == product_entry(
                            *other,
                            *self,
                            ii,
                            jj,
                            sw as nat,
                        ),
                decreases ow - i,
            {
                let mut acc = T::zero();
                let mut k: usize = 0;
                while k < sw
                    invariant
                        k <= sw,
                        i < ow,
                        j < sh,
                        ow == other.spec_width(),
                        sw == self.spec_width(),
                        sh == self.spec_height(),
                        sw == other.spec_height(),
                        self.wf(),
                        other.wf(),
                        olen == other@.len(),
                        slen == self@.len(),
                        acc == product_entry(*other, *self, i as int, j as int, k as nat),
                    decreases sw - k,
                {
                    proof {
                        lemma_index_in_storage(ow as int, sw as int, i as int, k as int);
                        lemma_index_in_storage(sw as int, sh as int, k as int, j as int);
                    }
                    acc = acc.plus(other.data[i + k * ow].times(self.data[k + j * sw]));
                    k = k + 1;
                }
                let ghost before = data@;
                proof {
                    lemma_index_in_storage(ow as int, sh as int, i as int, j as int);
                }
                data.push(acc);
                proof {
                    assert forall|ii: int, jj: int|
                        0 <= ii < ow && 0 <= jj && (jj < j || (jj == j && ii < i + 1))
                            implies #[trigger] data@[flat(ii, jj, ow as int)] == product_entry(
                            *other,
                            *self,
                            ii,
                            jj,
                            sw as nat,
                        ) by {
                        if jj == j && ii == i {
                        } else {
                            lemma_flat_before(ii, jj, i as int, j as int, ow as int);
                            assert(data@[flat(ii, jj, ow as int)] == before[flat(ii, jj, ow as int)]);
                        }
                    }
                }
                i = i + 1;
            }
            proof {
                assert((j + 1) * ow == j * ow + ow) by (nonlinear_arith);
            }
            j = j + 1;
        }
        proof {
            assert(data@.len() as nat / ow as nat == sh) by (nonlinear_arith)
                requires
                    data@.len() == sh * ow,
                    ow > 0,
            ;
            assert(data@.len() == ow * sh) by (nonlinear_arith)
                requires
                    data@.len() == sh * ow,
            ;
        }
        let m = Matrix { data, stride: ow };
        assert(m.wf());
        assert forall|i: int, j: int| m.in_bounds(i, j) implies #[trigger] m.at(i, j)
            == product_entry(*other, *self, i, j, sw as nat) by {
            assert(m.at(i, j) == m.data@[flat(i, j, ow as int)]);
        }
        Ok(m)
    }

    /// A matrix with the same shape and elements.
    pub fn copy(&self) -> (r: Matrix<T>)
        requires
            self.wf(),
        ensures
            r.wf(),
            r.spec_width() == self.spec_width(),
            r@ == self@,
    {
        let n = self.data.len();
        let mut data: Vec<T> = Vec::with_capacity(n);
        let mut k: usize = 0;
        while k < n
            invariant
                k <= n,
                n == self@.len(),
                data@ == self@.take(k as int),
            decreases n - k,
        {
            data.push(self.data[k]);
            k = k + 1;
            assert(data@ =~= self@.take(k as int));
        }
        assert(self@.take(n as int) =~= self@);
        Matrix { data, stride: self.stride }
    }

    /// The number of columns.
    pub fn width(&self) -> (r: usize)
        ensures
            r == self.spec_width(),
    {
        self.stride
    }

    /// The number of rows.
    pub fn height(&self) -> (r: usize)
        requires
            self.wf(),
        ensures
            r == self.spec_height(),
    {
        self.data.len() / self.stride
    }

    /// The element at column `i` and row `j`.
    pub fn get(&self, i: usize, j: usize) -> (r: Result<T, Error>)
        requires
            self.wf(),
        ensures
            r == if self.in_bounds(i as int, j as int) {
                Ok::<T, Error>(self.at(i as int, j as int))
            } else {
                Err::<T, Error>(Error::IndexOutOfRange)
            },
    {
        let width = self.stride;
        let height = self.data.len() / width;
        if i < width && j < height {
            proof {
                lemma_index_in_storage(width as int, height as int, i as int, j as int);
            }
            Ok(self.data[i + j * width])
        } else {
            Err(Error::IndexOutOfRange)
        }
    }

    /// Replaces the element at column `i` and row `j` with `value`.
    pub fn set(&mut self, i: usize, j: usize, value: T) -> (r: Result<(), Error>)
        requires
            old(self).wf(),
        ensures
            final(self).wf(),
            final(self).spec_width() == old(self).spec_width(),
            final(self).spec_height() == old(self).spec_height(),
            old(self).in_bounds(i as int, j as int) ==> r is Ok && final(self)@ == old(self)@.update(
                old(self).index_of(i as int, j as int),
                value,
            ),
            !old(self).in_bounds(i as int, j as int) ==> r == Err::<(), Error>(Error::IndexOutOfRange)
                && final(self)@ == old(self)@,
    {
        let width = self.stride;
        let height = self.data.len() / width;
        if i < width && j < height {
            proof {
                lemma_index_in_storage(width as int, height as int, i as int, j as int);
            }
            self.data.set(i + j * width, value);
            Ok(())
        } else {
            Err(Error::IndexOutOfRange)
        }
    }
}

} // verus!
