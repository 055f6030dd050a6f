use vstd::arithmetic::div_mod::*;
use vstd::prelude::*;

use crate::errors::{nonconforming, LinAlgError};
use crate::traits::Field;

verus! {

/// A dense `rows x cols` matrix whose entries are stored column by column:
/// the entry in row `i` and column `j` (both from 0) sits at `i + j * rows`.
#[derive(PartialEq, Debug)]
pub struct Matrix<K: Field> {
    size: (usize, usize),
    elements: Vec<K>,
}

impl<K: Field> View for Matrix<K> {
    type V = Seq<K>;

    /// The entries, column after column.
    closed spec fn view(&self) -> Seq<K> {
        self.elements@
    }
}

/// Entrywise sum of two sequences of entries.
pub open spec fn entrywise_add<K: Field>(a: Seq<K>, b: Seq<K>) -> Seq<K> {
    Seq::new(a.len(), |k: int| a[k].add_spec(b[k]))
}

/// Entrywise difference of two sequences of entries.
pub open spec fn entrywise_sub<K: Field>(a: Seq<K>, b: Seq<K>) -> Seq<K> {
    Seq::new(a.len(), |k: int| a[k].sub_spec(b[k]))
}

/// Every entry multiplied, from the left, by `c`.
pub open spec fn scaled<K: Field>(c: K, a: Seq<K>) -> Seq<K> {
    Seq::new(a.len(), |k: int| c.mul_spec(a[k]))
}

/// `count` copies of one value.
pub open spec fn constant<K>(x: K, count: nat) -> Seq<K> {
    Seq::new(count, |k: int| x)
}

/// The sum, from the additive identity and in increasing `t`, of
/// `a(i, t) * b(t, j)` for `t < w`, where `a` has `an` rows and `b` has `bn` rows.
pub open spec fn product_acc<K: Field>(
    a: Seq<K>,
    an: nat,
    b: Seq<K>,
    bn: nat,
    i: int,
    j: int,
    w: nat,
) -> K
    decreases w,
{
    if w == 0 {
        K::zero_spec()
    } else {
        let t = w - 1;
        product_acc(a, an, b, bn, i, j, t as nat).add_spec(
            a[i + t * an].mul_spec(b[t + j * bn]),
        )
    }
}

/// The sum, from the additive identity, of the diagonal entries `a(u, u)`
/// for `u < t` of a layout with `n` rows.
pub open spec fn trace_acc<K: Field>(a: Seq<K>, n: nat, t: nat) -> K
    decreases t,
{
    if t == 0 {
        K::zero_spec()
    } else {
        let u = t - 1;
        trace_acc(a, n, u as nat).add_spec(a[u + u * n])
    }
}

/// The sum, from `len` additive identities, of `coefs[t]` times `items[t]`
/// for `t < count`, added in increasing `t`.
pub open spec fn combination<K: Field>(
    items: Seq<Seq<K>>,
    coefs: Seq<K>,
    len: nat,
    count: nat,
) -> Seq<K>
    decreases count,
{
    if count == 0 {
        constant(K::zero_spec(), len)
    } else {
        let t = count - 1;
        entrywise_add(combination(items, coefs, len, t as nat), scaled(coefs[t], items[t]))
    }
}

/// The column-major entries of the `n x n` identity matrix.
pub open spec fn identity_entries<K: Field>(n: nat) -> Seq<K> {
    Seq::new(
        n * n,
        |k: int|
            if k % (n as int) == k / (n as int) {
                K::one_spec()
            } else {
                K::zero_spec()
            },
    )
}

/// The column-major entries of the transpose of an `n x m` layout.
pub open spec fn transposed<K>(e: Seq<K>, n: nat, m: nat) -> Seq<K> {
    Seq::new(n * m, |k: int| e[k / (m as int) + (k % (m as int)) * n])
}

/// The column-major entries of the conjugate transpose of an `n x m` layout.
pub open spec fn adjoint<K: Field>(e: Seq<K>, n: nat, m: nat) -> Seq<K> {
    Seq::new(n * m, |k: int| e[k / (m as int) + (k % (m as int)) * n].conj_spec())
}

/// Every entry of a sequence is a well-formed scalar.
pub open spec fn all_valid<K: Field>(s: Seq<K>) -> bool {
    forall|k: int| 0 <= k < s.len() ==> (#[trigger] s[k]).valid()
}

/// The entries of `(1 - t) * u + t * v`, summed from the additive identity.
pub open spec fn lerp_entries<K: Field>(u: Seq<K>, v: Seq<K>, t: K) -> Seq<K> {
    entrywise_add(
        entrywise_add(constant(K::zero_spec(), u.len()), scaled(K::one_spec().sub_spec(t), u)),
        scaled(t, v),
    )
}

/// Position `k` of a column-major layout with `n` rows lies in row `k % n`
/// and column `k / n`; it is inside an `n x m` matrix when `k < n * m`.
pub proof fn lemma_index(i: int, j: int, n: int, m: int)
    requires
        0 <= i < n,
        0 <= j < m,
    ensures
        0 <= i + j * n < n * m,
        (i + j * n) % n == i,
        (i + j * n) / n == j,
{
    assert(0 <= i + j * n < n * m) by (nonlinear_arith)
        requires
            0 <= i < n,
            0 <= j < m,
    ;
    lemma_fundamental_div_mod_converse(i + j * n, n, j, i);
}

/// The row and column of a position inside an `n x m` layout.
pub proof fn lemma_position(k: int, n: int, m: int)
    requires
        0 <= k < n * m,
        0 <= n,
        0 <= m,
    ensures
        n > 0,
        0 <= k % n < n,
        0 <= k / n < m,
        k == k % n + (k / n) * n,
{
    assert(n > 0) by (nonlinear_arith)
        requires
            0 <= k < n * m,
            0 <= n,
            0 <= m,
    ;
    lemma_fundamental_div_mod(k, n);
    vstd::arithmetic::mul::lemma_mul_is_commutative(n, k / n);
    lemma_mod_bound(k, n);
    let q = k / n;
    let r = k % n;
    assert(0 <= q < m) by (nonlinear_arith)
        requires
            k == n * q + r,
            0 <= r < n,
            0 <= k < n * m,
    ;
}

impl<K: Field> Matrix<K> {
    /// Number of rows.
    pub closed spec fn rows(&self) -> nat {
        self.size.0 as nat
    }

    /// Number of columns.
    pub closed spec fn cols(&self) -> nat {
        self.size.1 as nat
    }

    /// The shape invariant: exactly `rows * cols` entries (a count that fits a `usize`).
    pub open spec fn wf(&self) -> bool {
        &&& self@.len() == self.rows() * self.cols()
        &&& self.rows() * self.cols() <= usize::MAX
        &&& self.rows() <= usize::MAX
        &&& self.cols() <= usize::MAX
    }

    /// The entry in row `i` and column `j`, both counted from 0.
    pub open spec fn at(&self, i: int, j: int) -> K {
        self@[i + j * self.rows()]
    }

    proof fn lemma_wf_bounds(&self)
        requires
            self.wf(),
        ensures
            self.size.0 * self.size.1 == self@.len(),
            self@.len() == self.elements.len(),
    {
    }

    /// Builds a matrix from its entries, column after column.
    pub fn new(elements: Vec<K>, n: usize, m: usize) -> (r: Result<Matrix<K>, LinAlgError>)
        requires
            n * m <= usize::MAX,
        ensures
            r is Ok <==> elements@.len() == n * m,
            r matches Ok(mat) ==> mat.wf() && mat.rows() == n && mat.cols() == m && mat@
                == elements@,
            r matches Err(e) ==> e == (LinAlgError::BuildNonconforming {
                expected: (n * m) as usize,
                recieved: elements@.len() as usize,
            }),
    {
        if elements.len() != n * m {
            return Err(
                LinAlgError::BuildNonconforming { expected: n * m, recieved: elements.len() },
            );
        }
        Ok(Matrix { size: (n, m), elements })
    }

    /// The shape, as (rows, columns).
    pub fn size(&self) -> (r: (usize, usize))
        ensures
            r.0 == self.rows(),
            r.1 == self.cols(),
    {
        self.size
    }

    /// The entries, column after column.
    pub fn elements(&self) -> (r: &Vec<K>)
        ensures
            r@ == self@,
    {
        &self.elements
    }

    /// The entry in row `i` and column `j`, both counted from 1.
    pub fn el(&self, i: usize, j: usize) -> (r: Result<K, LinAlgError>)
        requires
            self.wf(),
            1 <= i,
            1 <= j,
        ensures
            r is Ok <==> i <= self.rows() && j <= self.cols(),
            r matches Ok(x) ==> x == self.at(i - 1, j - 1),
            r matches Err(e) ==> e == (LinAlgError::OutofBoundsMatrix {
                size: (self.rows() as usize, self.cols() as usize),
                recieved: (i, j),
            }),
    {
        let (n, m) = self.size;
        if i > n || j > m {
            return Err(LinAlgError::OutofBoundsMatrix { size: self.size, recieved: (i, j) });
        }
        proof {
            self.lemma_wf_bounds();
            lemma_index(i - 1, j - 1, n as int, m as int);
        }
        Ok(self.elements[(i - 1) + (j - 1) * n])
    }

    /// Replaces the entry in row `i` and column `j`, both counted from 1.
    pub fn set(&mut self, i: usize, j: usize, val: K) -> (r: Result<(), LinAlgError>)
        requires
            old(self).wf(),
            1 <= i,
            1 <= j,
        ensures
            r is Ok <==> i <= old(self).rows() && j <= old(self).cols(),
            final(self).rows() == old(self).rows(),
            final(self).cols() == old(self).cols(),
            final(self).wf(),
            r is Ok ==> final(self)@ == old(self)@.update(
                (i - 1) + (j - 1) * old(self).rows(),
                val,
            ),
            r is Err ==> final(self)@ == old(self)@,
            r matches Err(e) ==> e == (LinAlgError::OutofBoundsMatrix {
                size: (old(self).rows() as usize, old(self).cols() as usize),
                recieved: (i, j),
            }),
    {
        let (n, m) = self.size;
        if !(i <= n && j <= m) {
            return Err(LinAlgError::OutofBoundsMatrix { size: self.size, recieved: (i, j) });
        }
        proof {
            self.lemma_wf_bounds();
            lemma_index(i - 1, j - 1, n as int, m as int);
        }
        self.elements.set((i - 1) + (j - 1) * n, val);
        Ok(())
    }

    /// No matrix holds more entries than a `usize` counts.
    pub(crate) proof fn lemma_len_bound(&self)
        requires
            self.wf(),
        ensures
            self@.len() <= usize::MAX,
    {
    }

    /// The entry at position `k` of the column-major layout.
    pub(crate) fn get_flat(&self, k: usize) -> (x: K)
        requires
            k < self@.len(),
        ensures
            x == self@[k as int],
    {
        self.elements[k]
    }

    /// Replaces the entry at position `k` of the column-major layout.
    pub(crate) fn set_flat(&mut self, k: usize, x: K)
        requires
            k < old(self)@.len(),
        ensures
            final(self)@ == old(self)@.update(k as int, x),
            final(self).rows() == old(self).rows(),
            final(self).cols() == old(self).cols(),
    {
        self.elements.set(k, x);
    }

    /// A matrix with the same shape and entries.
    pub(crate) fn duplicate(&self) -> (r: Matrix<K>)
        ensures
            r@ == self@,
            r.rows() == self.rows(),
            r.cols() == self.cols(),
    {
        let len = self.elements.len();
        let mut v: Vec<K> = Vec::new();
        let mut k: usize = 0;
        while k < len
            invariant
                len == self.elements.len(),
                len == self@.len(),
                k <= len,
                v@ == self@.take(k as int),
            decreases len - k,
        {
            v.push(self.elements[k]);
            k = k + 1;
            assert(v@ =~= self@.take(k as int));
        }
        assert(self@.take(len as int) =~= self@);
        Matrix { size: self.size, elements: v }
    }

    /// The entries, column after column, taken out of the matrix.
    pub(crate) fn into_elements(self) -> (v: Vec<K>)
        ensures
            v@ == self@,
    {
        self.elements
    }

    /// `count` copies of `x`.
    pub(crate) fn filled(x: K, count: usize) -> (v: Vec<K>)
        ensures
            v@ == constant(x, count as nat),
    {
        let mut v: Vec<K> = Vec::new();
        let mut k: usize = 0;
        while k < count
            invariant
                k <= count,
                v@ == constant(x, k as nat),
            decreases count - k,
        {
            v.push(x);
            k = k + 1;
            assert(v@ =~= constant(x, k as nat));
        }
        v
    }

    /// The `m x n` matrix of additive identities.
    pub fn zero(m: usize, n: usize) -> (r: Result<Matrix<K>, LinAlgError>)
        requires
            m * n <= usize::MAX,
        ensures
            r matches Ok(mat) && mat.wf() && mat.rows() == m && mat.cols() == n && mat@
                == constant(K::zero_spec(), (m * n) as nat),
    {
        let v = Self::filled(K::zero(), m * n);
        Matrix::new(v, m, n)
    }

    /// The `m x n` matrix of multiplicative identities.
    pub fn ones(m: usize, n: usize) -> (r: Result<Matrix<K>, LinAlgError>)
        requires
            m * n <= usize::MAX,
        ensures
            r matches Ok(mat) && mat.wf() && mat.rows() == m && mat.cols() == n && mat@
                == constant(K::one_spec(), (m * n) as nat),
    {
        let v = Self::filled(K::one(), m * n);
        Matrix::new(v, m, n)
    }

    /// Entrywise sum.
    pub fn add(&self, other: &Matrix<K>) -> (r: Result<Matrix<K>, LinAlgError>)
        requires
            self.wf(),
            other.wf(),
        ensures
            r is Ok <==> self.rows() == other.rows() && self.cols() == other.cols(),
            r matches Ok(mat) ==> mat.wf() && mat.rows() == self.rows() && mat.cols()
                == self.cols() && mat@ == entrywise_add(self@, other@),
            r matches Err(e) ==> e is OperationNonConforming,
    {
        if self.size.0 != other.size.0 || self.size.1 != other.size.1 {
            return Err(nonconforming("Matrix Addition"));
        }
        proof {
            self.lemma_wf_bounds();
            other.lemma_wf_bounds();
        }
        let len = self.elements.len();
        let mut v: Vec<K> = Vec::new();
        let mut k: usize = 0;
        while k < len
            invariant
                len == self@.len(),
                len == other@.len(),
                len == self.elements.len(),
                len == other.elements.len(),
                k <= len,
                v@ == entrywise_add(self@.take(k as int), other@.take(k as int)),
            decreases len - k,
        {
            v.push(self.elements[k].plus(&other.elements[k]));
            k = k + 1;
            assert(v@ =~= entrywise_add(self@.take(k as int), other@.take(k as int)));
        }
        assert(self@.take(len as int) =~= self@);
        assert(other@.take(len as int) =~= other@);
        Ok(Matrix { size: self.size, elements: v })
    }

    /// Entrywise difference.
    pub fn sub(&self, other: &Matrix<K>) -> (r: Result<Matrix<K>, LinAlgError>)
        requires
            self.wf(),
            other.wf(),
        ensures
            r is Ok <==> self.rows() == other.rows() && self.cols() == other.cols(),
            r matches Ok(mat) ==> mat.wf() && mat.rows() == self.rows() && mat.cols()
                == self.cols() && mat@ == entrywise_sub(self@, other@),
            r matches Err(e) ==> e is OperationNonConforming,
    {
        if self.size.0 != other.size.0 || self.size.1 != other.size.1 {
            return Err(nonconforming("Matrix Subtraction"));
        }
        proof {
            self.lemma_wf_bounds();
            other.lemma_wf_bounds();
        }
        let len = self.elements.len();
        let mut v: Vec<K> = Vec::new();
        let mut k: usize = 0;
        while k < len
            invariant
                len == self@.len(),
                len == other@.len(),
                len == self.elements.len(),
                len == other.elements.len(),
                k <= len,
                v@ == entrywise_sub(self@.take(k as int), other@.take(k as int)),
            decreases len - k,
        {
            v.push(self.elements[k].minus(&other.elements[k]));
            k = k + 1;
            assert(v@ =~= entrywise_sub(self@.take(k as int), other@.take(k as int)));
        }
        assert(self@.take(len as int) =~= self@);
        assert(other@.take(len as int) =~= other@);
        Ok(Matrix { size: self.size, elements: v })
    }

    /// Every entry multiplied, from the left, by `scaling`.
    pub fn scl(&self, scaling: K) -> (r: Result<Matrix<K>, LinAlgError>)
        requires
            self.wf(),
        ensures
            r matches Ok(mat) && mat.wf() && mat.rows() == self.rows() && mat.cols()
                == self.cols() && mat@ == scaled(scaling, self@),
    {
        proof {
            self.lemma_wf_bounds();
        }
        let len = self.elements.len();
        let mut v: Vec<K> = Vec::new();
        let mut k: usize = 0;
        while k < len
            invariant
                len == self@.len(),
                len == self.elements.len(),
                k <= len,
                v@ == scaled(scaling, self@.take(k as int)),
            decreases len - k,
        {
            v.push(scaling.times(&self.elements[k]));
            k = k + 1;
            assert(v@ =~= scaled(scaling, self@.take(k as int)));
        }
        assert(self@.take(len as int) =~= self@);
        Ok(Matrix { size: self.size, elements: v })
    }

    /// The entry `(i, j)` of the product `a * b`.
    pub open spec fn product_entry(a: Matrix<K>, b: Matrix<K>, i: int, j: int) -> K {
        product_acc(a@, a.rows(), b@, b.rows(), i, j, a.cols())
    }

    /// The transpose: `cols x rows`, with `(i, j)` taken from `(j, i)`.
    pub fn tr(&self) -> (r: Result<Matrix<K>, LinAlgError>)
        requires
            self.wf(),
        ensures
            r matches Ok(mat) && mat.wf() && mat.rows() == self.cols() && mat.cols()
                == self.rows() && (forall|i: int, j: int|
                0 <= i < mat.rows() && 0 <= j < mat.cols() ==> #[trigger] mat.at(i, j)
                    == self.at(j, i)) && mat@ == transposed(self@, self.rows(), self.cols()),
    {
        self.transpose_with(false)
    }

    /// The conjugate transpose: as `tr`, with every entry conjugated.
    pub fn adj(&self) -> (r: Result<Matrix<K>, LinAlgError>)
        requires
            self.wf(),
        ensures
            r matches Ok(mat) && mat.wf() && mat.rows() == self.cols() && mat.cols()
                == self.rows() && (forall|i: int, j: int|
                0 <= i < mat.rows() && 0 <= j < mat.cols() ==> #[trigger] mat.at(i, j)
                    == self.at(j, i).conj_spec()) && mat@ == adjoint(self@, self.rows(), self.cols()),
    {
        self.transpose_with(true)
    }

    /// The transpose, with each entry conjugated when `conjugate` holds.
    fn transpose_with(&self, conjugate: bool) -> (r: Result<Matrix<K>, LinAlgError>)
        requires
            self.wf(),
        ensures
            r matches Ok(mat) && mat@ == (if conjugate {
                adjoint(self@, self.rows(), self.cols())
            } else {
                transposed(self@, self.rows(), self.cols())
            }),
            r matches Ok(mat) && mat.wf() && mat.rows() == self.cols() && mat.cols()
                == self.rows() && (forall|i: int, j: int|
                0 <= i < mat.rows() && 0 <= j < mat.cols() ==> #[trigger] mat.at(i, j) == (
                if conjugate {
                    self.at(j, i).conj_spec()
                } else {
                    self.at(j, i)
                })),
    {
        let (n, m) = self.size;
        proof {
            self.lemma_wf_bounds();
            vstd::arithmetic::mul::lemma_mul_is_commutative(n as int, m as int);
        }
        let len = self.elements.len();
        let mut v: Vec<K> = Vec::new();
        let mut k: usize = 0;
        while k < len
            invariant
                len == n * m,
                len == m * n,
                len == self.elements.len(),
                self.wf(),
                n == self.rows(),
                m == self.cols(),
                k <= len,
                v@.len() == k,
                forall|t: int|
                    0 <= t < k ==> #[trigger] v@[t] == (if conjugate {
                        self.at(t / m as int, t % m as int).conj_spec()
                    } else {
                        self.at(t / m as int, t % m as int)
                    }),
            decreases len - k,
        {
            proof {
                lemma_position(k as int, m as int, n as int);
                lemma_index(k as int / m as int, k as int % m as int, n as int, m as int);
            }
            let x = self.elements[k / m + (k % m) * n];
            if conjugate {
                v.push(x.conj());
            } else {
                v.push(x);
            }
            k = k + 1;
        }
        let mat = Matrix { size: (m, n), elements: v };
        assert(mat@ =~= (if conjugate {
            adjoint(self@, self.rows(), self.cols())
        } else {
            transposed(self@, self.rows(), self.cols())
        }));
        assert forall|i: int, j: int| 0 <= i < mat.rows() && 0 <= j < mat.cols() implies #[trigger] mat.at(i, j)
            == (if conjugate {
            self.at(j, i).conj_spec()
        } else {
            self.at(j, i)
        }) by {
            lemma_index(i, j, m as int, n as int);
        }
        Ok(mat)
    }

    /// The matrix product `self * other`; the entry `(i, j)` sums
    /// `self(i, t) * other(t, j)` over increasing `t`, from the additive identity.
    pub fn mlt(&self, other: &Matrix<K>) -> (r: Result<Matrix<K>, LinAlgError>)
        requires
            self.wf(),
            other.wf(),
            self.rows() * other.cols() <= usize::MAX,
        ensures
            r is Ok <==> self.cols() == other.rows(),
            r matches Ok(mat) ==> mat.wf() && mat.rows() == self.rows() && mat.cols()
                == other.cols() && (forall|i: int, j: int|
                0 <= i < mat.rows() && 0 <= j < mat.cols() ==> #[trigger] mat.at(i, j)
                    == Self::product_entry(*self, *other, i, j)),
            r matches Err(e) ==> e is OperationNonConforming,
    {
        let (n, inner) = self.size;
        let (other_inner, m) = other.size;
        if inner != other_inner {
            return Err(nonconforming("Sizes not conform to multiplication"));
        }
        proof {
            self.lemma_wf_bounds();
            other.lemma_wf_bounds();
        }
        let len = n * m;
        let mut v: Vec<K> = Vec::new();
        let mut k: usize = 0;
        while k < len
            invariant
                len == n * m,
                n == self.rows(),
                inner == self.cols(),
                inner == other.rows(),
                m == other.cols(),
                self.wf(),
                other.wf(),
                self.elements.len() == n * inner,
                other.elements.len() == inner * m,
                k <= len,
                v@.len() == k,
                forall|t: int|
                    0 <= t < k ==> #[trigger] v@[t] == Self::product_entry(
                        *self,
                        *other,
                        t % n as int,
                        t / n as int,
                    ),
            decreases len - k,
        {
            proof {
                lemma_position(k as int, n as int, m as int);
            }
            let i = k % n;
            let j = k / n;
            let mut acc = K::zero();
            let mut w: usize = 0;
            while w < inner
                invariant
                    i < n,
                    j < m,
                    n == self.rows(),
                    inner == self.cols(),
                    inner == other.rows(),
                    self.elements.len() == n * inner,
                    other.elements.len() == inner * m,
                    w <= inner,
                    acc == product_acc(self@, n as nat, other@, inner as nat, i as int, j as int, w as nat),
                decreases inner - w,
            {
                proof {
                    lemma_index(i as int, w as int, n as int, inner as int);
                    lemma_index(w as int, j as int, inner as int, m as int);
                }
                let prod = self.elements[i + w * n].times(&other.elements[w + j * inner]);
                acc = acc.plus(&prod);
                w = w + 1;
            }
            v.push(acc);
            k = k + 1;
        }
        let mat = Matrix { size: (n, m), elements: v };
        assert forall|i: int, j: int| 0 <= i < mat.rows() && 0 <= j < mat.cols() implies #[trigger] mat.at(i, j)
            == Self::product_entry(*self, *other, i, j) by {
            lemma_index(i, j, n as int, m as int);
        }
        Ok(mat)
    }

    /// The matrix product; the same as `mlt`.
    pub fn mul_mat(&self, other: &Matrix<K>) -> (r: Result<Matrix<K>, LinAlgError>)
        requires
            self.wf(),
            other.wf(),
            self.rows() * other.cols() <= usize::MAX,
        ensures
            r is Ok <==> self.cols() == other.rows(),
            r matches Ok(mat) ==> mat.wf() && mat.rows() == self.rows() && mat.cols()
                == other.cols() && (forall|i: int, j: int|
                0 <= i < mat.rows() && 0 <= j < mat.cols() ==> #[trigger] mat.at(i, j)
                    == Self::product_entry(*self, *other, i, j)),
            r matches Err(e) ==> e is OperationNonConforming,
    {
        self.mlt(other)
    }

    /// The sum of the diagonal entries, from the additive identity.
    pub fn trace(&self) -> (r: Result<K, LinAlgError>)
        requires
            self.wf(),
        ensures
            r is Ok <==> self.rows() == self.cols(),
            r matches Ok(x) ==> x == trace_acc(self@, self.rows(), self.rows()),
            r matches Err(e) ==> e is OperationNonConforming,
    {
        let (m, n) = self.size;
        if m != n {
            return Err(nonconforming("Trace must take a square matrix"));
        }
        proof {
            self.lemma_wf_bounds();
        }
        let mut acc = K::zero();
        let mut u: usize = 0;
        while u < n
            invariant
                m == n,
                n == self.rows(),
                self.elements.len() == n * n,
                u <= n,
                acc == trace_acc(self@, n as nat, u as nat),
            decreases n - u,
        {
            proof {
                lemma_index(u as int, u as int, n as int, n as int);
            }
            acc = acc.plus(&self.elements[u + u * n]);
            u = u + 1;
        }
        Ok(acc)
    }

    /// The square matrix with `diag` on its diagonal and the additive identity elsewhere.
    pub fn diag(diag: Vec<K>) -> (r: Result<Matrix<K>, LinAlgError>)
        requires
            diag@.len() * diag@.len() <= usize::MAX,
        ensures
            r is Ok <==> diag@.len() > 0,
            r matches Ok(mat) ==> mat.wf() && mat.rows() == diag@.len() && mat.cols()
                == diag@.len() && (forall|i: int, j: int|
                0 <= i < mat.rows() && 0 <= j < mat.cols() ==> #[trigger] mat.at(i, j) == (
                if i == j {
                    diag@[i]
                } else {
                    K::zero_spec()
                })),
            r matches Err(e) ==> e is EmptyArgs,
    {
        let n = diag.len();
        if n == 0 {
            return Err(LinAlgError::EmptyArgs);
        }
        let len = n * n;
        let mut v: Vec<K> = Vec::new();
        let mut k: usize = 0;
        while k < len
            invariant
                len == n * n,
                n == diag@.len(),
                k <= len,
                v@.len() == k,
                forall|t: int|
                    0 <= t < k ==> #[trigger] v@[t] == (if t % n as int == t / n as int {
                        diag@[t % n as int]
                    } else {
                        K::zero_spec()
                    }),
            decreases len - k,
        {
            proof {
                lemma_position(k as int, n as int, n as int);
            }
            if k % n == k / n {
                v.push(diag[k % n]);
            } else {
                v.push(K::zero());
            }
            k = k + 1;
        }
        let mat = Matrix { size: (n, n), elements: v };
        assert forall|i: int, j: int| 0 <= i < mat.rows() && 0 <= j < mat.cols() implies #[trigger] mat.at(i, j)
            == (if i == j {
            diag@[i]
        } else {
            K::zero_spec()
        }) by {
            lemma_index(i, j, n as int, n as int);
        }
        Ok(mat)
    }

    /// The `n x n` identity matrix.
    pub fn identity(n: usize) -> (r: Result<Matrix<K>, LinAlgError>)
        requires
            n * n <= usize::MAX,
        ensures
            r is Ok <==> n > 0,
            r matches Ok(mat) ==> mat.wf() && mat.rows() == n && mat.cols() == n && (forall|
                i: int,
                j: int,
            |
                0 <= i < n && 0 <= j < n ==> #[trigger] mat.at(i, j) == (if i == j {
                    K::one_spec()
                } else {
                    K::zero_spec()
                })) && mat@ == identity_entries::<K>(n as nat),
            r matches Err(e) ==> e is EmptyArgs,
    {
        let r = Matrix::diag(Self::filled(K::one(), n));
        proof {
            if r is Ok {
                let mat = r->Ok_0;
                assert forall|k: int| 0 <= k < n * n implies #[trigger] mat@[k]
                    == identity_entries::<K>(n as nat)[k] by {
                    lemma_position(k, n as int, n as int);
                    assert(mat.at(k % (n as int), k / (n as int)) == mat@[k]);
                }
                assert(mat@ =~= identity_entries::<K>(n as nat));
            }
        }
        r
    }

    /// The entries of each matrix of a list.
    pub open spec fn views_of(u: Seq<&Matrix<K>>) -> Seq<Seq<K>> {
        Seq::new(u.len(), |k: int| u[k]@)
    }

    /// Every matrix of the list has the shape of the first.
    pub open spec fn shapes_agree(u: Seq<&Matrix<K>>) -> bool {
        forall|k: int|
            0 <= k < u.len() ==> (#[trigger] u[k]).rows() == u[0].rows() && u[k].cols()
                == u[0].cols()
    }

    /// The sum of `coefs[t]` times `u[t]`, added in order to a matrix of
    /// additive identities.
    pub fn linear_combination(u: &[&Matrix<K>], coefs: &[K]) -> (r: Result<
        Matrix<K>,
        LinAlgError,
    >)
        requires
            forall|k: int| 0 <= k < u@.len() ==> (#[trigger] u@[k]).wf(),
        ensures
            r is Ok <==> u@.len() > 0 && u@.len() == coefs@.len() && Self::shapes_agree(u@),
            r matches Ok(mat) ==> mat.wf() && mat.rows() == u@[0].rows() && mat.cols()
                == u@[0].cols() && mat@ == combination(
                Self::views_of(u@),
                coefs@,
                u@[0]@.len(),
                u@.len() as nat,
            ),
            r matches Err(e) ==> if u@.len() == 0 || coefs@.len() == 0 {
                e is EmptyArgs
            } else {
                e is OperationNonConforming
            },
    {
        if !(u.len() != 0 && coefs.len() != 0) {
            return Err(LinAlgError::EmptyArgs);
        }
        if u.len() != coefs.len() {
            return Err(nonconforming("Linear Combination"));
        }
        let (m, n) = u[0].size();
        let ghost items = Self::views_of(u@);
        let ghost len = u@[0]@.len();
        let mut to_return = match Matrix::<K>::zero(m, n) {
            Ok(x) => x,
            Err(e) => {
                return Err(e);
            },
        };
        assert(to_return@ =~= combination(items, coefs@, len, 0));
        let mut k: usize = 0;
        while k < u.len()
            invariant
                u@.len() == coefs@.len(),
                u@.len() > 0,
                forall|j: int| 0 <= j < u@.len() ==> (#[trigger] u@[j]).wf(),
                m == u@[0].rows(),
                n == u@[0].cols(),
                items == Self::views_of(u@),
                len == u@[0]@.len(),
                k <= u@.len(),
                to_return.wf(),
                to_return.rows() == m,
                to_return.cols() == n,
                to_return@ == combination(items, coefs@, len, k as nat),
                forall|j: int|
                    0 <= j < k ==> (#[trigger] u@[j]).rows() == m && u@[j].cols() == n,
            decreases u@.len() - k,
        {
            let sc = match u[k].scl(coefs[k]) {
                Ok(x) => x,
                Err(e) => {
                    return Err(e);
                },
            };
            to_return = match to_return.add(&sc) {
                Ok(x) => x,
                Err(e) => {
                    return Err(e);
                },
            };
            k = k + 1;
        }
        Ok(to_return)
    }

    /// Linear interpolation: `(1 - t) * u + t * v`, as a linear combination.
    pub fn lerp(u: &Matrix<K>, v: &Matrix<K>, t: K) -> (r: Result<Matrix<K>, LinAlgError>)
        requires
            u.wf(),
            v.wf(),
        ensures
            r is Ok <==> u.rows() == v.rows() && u.cols() == v.cols(),
            r matches Ok(mat) ==> mat.wf() && mat.rows() == u.rows() && mat.cols() == u.cols()
                && mat@ == lerp_entries(u@, v@, t),
            r matches Err(e) ==> e is OperationNonConforming,
    {
        let items = [u, v];
        let coefs = [K::one().minus(&t), t];
        let r = Matrix::<K>::linear_combination(items.as_slice(), coefs.as_slice());
        proof {
            let us = items@;
            assert(us.len() == 2);
            assert(us[0] == u && us[1] == v);
            if u.rows() == v.rows() && u.cols() == v.cols() {
                assert(Self::shapes_agree(us));
            } else {
                assert(!((#[trigger] us[1]).rows() == us[0].rows() && us[1].cols() == us[0].cols()));
            }
            assert(Self::views_of(us)[0] == u@);
            assert(Self::views_of(us)[1] == v@);
            let cs = coefs@;
            assert(cs[0] == K::one_spec().sub_spec(t) && cs[1] == t);
            reveal_with_fuel(combination, 3);
        }
        r
    }

    /// The columns of `self` followed by those of `other`.
    pub fn append_horizontal(&self, other: &Matrix<K>) -> (r: Result<Matrix<K>, LinAlgError>)
        requires
            self.wf(),
            other.wf(),
            self@.len() + other@.len() <= usize::MAX,
            self.cols() + other.cols() <= usize::MAX,
        ensures
            r is Ok <==> self.rows() == other.rows(),
            r matches Ok(mat) ==> mat.wf() && mat.rows() == self.rows() && mat.cols()
                == self.cols() + other.cols() && mat@ == self@ + other@,
            r matches Err(e) ==> e is OperationNonConforming,
    {
        let (n1, m1) = self.size;
        let (n2, m2) = other.size;
        if n1 != n2 {
            return Err(nonconforming("append"));
        }
        let mut v: Vec<K> = Vec::new();
        let mut k: usize = 0;
        while k < self.elements.len()
            invariant
                k <= self@.len(),
                self@.len() == self.elements.len(),
                v@ == self@.take(k as int),
            decreases self@.len() - k,
        {
            v.push(self.elements[k]);
            k = k + 1;
            assert(v@ =~= self@.take(k as int));
        }
        let mut k: usize = 0;
        while k < other.elements.len()
            invariant
                k <= other@.len(),
                other@.len() == other.elements.len(),
                v@ == self@ + other@.take(k as int),
            decreases other@.len() - k,
        {
            v.push(other.elements[k]);
            k = k + 1;
            assert(v@ =~= self@ + other@.take(k as int));
        }
        assert(self@.take(self@.len() as int) =~= self@);
        assert(other@.take(other@.len() as int) =~= other@);
        assert(v@ =~= self@ + other@);
        proof {
            vstd::arithmetic::mul::lemma_mul_is_distributive_add(n1 as int, m1 as int, m2 as int);
        }
        Ok(Matrix { size: (n1, m1 + m2), elements: v })
    }
}

} // verus!
