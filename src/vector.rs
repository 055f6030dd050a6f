use vstd::prelude::*;

use crate::errors::{nonconforming, LinAlgError};
use crate::matrix::{
    combination, constant, entrywise_add, entrywise_sub, lerp_entries, product_acc, scaled, Matrix,
};
use crate::traits::Field;

verus! {

/// A column vector: an `n x 1` matrix with `n >= 1`.
#[derive(PartialEq, Debug)]
pub struct Vector<K: Field> {
    size: usize,
    matrix: Matrix<K>,
}

impl<K: Field> View for Vector<K> {
    type V = Seq<K>;

    open spec fn view(&self) -> Seq<K> {
        self.backing()@
    }
}

/// The sum, from the additive identity and in increasing `t`, of
/// `conj(u[t]) * v[t]` for `t < w`.
pub open spec fn dot_acc<K: Field>(u: Seq<K>, v: Seq<K>, w: nat) -> K
    decreases w,
{
    if w == 0 {
        K::zero_spec()
    } else {
        let t = w - 1;
        dot_acc(u, v, t as nat).add_spec(u[t].conj_spec().mul_spec(v[t]))
    }
}

/// The three entries of the cross product `u x v`.
pub open spec fn cross<K: Field>(u: Seq<K>, v: Seq<K>) -> Seq<K> {
    seq![
        u[1].mul_spec(v[2]).sub_spec(v[1].mul_spec(u[2])),
        K::zero_spec().sub_spec(u[0]).mul_spec(v[2]).add_spec(u[2].mul_spec(v[0])),
        u[0].mul_spec(v[1]).sub_spec(u[1].mul_spec(v[0])),
    ]
}

/// The `n` entries of the unit vector with the identity at position `c`.
pub open spec fn unit_entries<K: Field>(n: nat, c: int) -> Seq<K> {
    constant(K::zero_spec(), n).update(c, K::one_spec())
}

/// A product sum over a conjugated row is the dot-product sum.
proof fn lemma_dot_as_product<K: Field>(a: Seq<K>, b: Seq<K>, bn: nat, u: Seq<K>, v: Seq<K>, w: nat)
    requires
        w <= u.len(),
        forall|t: int| 0 <= t < w ==> #[trigger] a[t] == u[t].conj_spec(),
        forall|t: int| 0 <= t < w ==> #[trigger] b[t] == v[t],
    ensures
        product_acc(a, 1, b, bn, 0, 0, w) == dot_acc(u, v, w),
    decreases w,
{
    if w > 0 {
        lemma_dot_as_product(a, b, bn, u, v, (w - 1) as nat);
        let t = w - 1;
        assert(a[0 + t * 1] == a[t]);
        assert(b[t + 0 * bn] == b[t]);
    }
}

impl<K: Field> Vector<K> {
    /// The matrix that holds the entries.
    pub closed spec fn backing(&self) -> Matrix<K> {
        self.matrix
    }

    /// The stored size.
    pub closed spec fn dim(&self) -> nat {
        self.size as nat
    }

    /// A single column whose length is the size, which is at least 1.
    pub open spec fn wf(&self) -> bool {
        &&& self.backing().wf()
        &&& self.backing().cols() == 1
        &&& self.backing().rows() == self.dim()
        &&& self.dim() == self@.len()
        &&& self.dim() >= 1
    }

    /// The list of the entries of each vector of a list.
    pub open spec fn views_of(u: Seq<&Vector<K>>) -> Seq<Seq<K>> {
        Seq::new(u.len(), |k: int| u[k]@)
    }

    /// Builds a vector from its entries; there must be at least one.
    pub fn new(elements: Vec<K>) -> (r: Result<Vector<K>, LinAlgError>)
        ensures
            r is Ok <==> elements@.len() > 0,
            r matches Ok(v) ==> v.wf() && v@ == elements@,
            r matches Err(e) ==> e == (LinAlgError::BuildNonconforming {
                expected: 1,
                recieved: 0,
            }),
    {
        if elements.len() == 0 {
            return Err(LinAlgError::BuildNonconforming { expected: 1, recieved: 0 });
        }
        let n = elements.len();
        let matrix = match Matrix::new(elements, n, 1) {
            Ok(x) => x,
            Err(e) => {
                return Err(e);
            },
        };
        Ok(Vector { size: n, matrix })
    }

    /// The number of entries.
    pub fn size(&self) -> (r: usize)
        ensures
            r == self.dim(),
    {
        self.size
    }

    /// The `n x 1` matrix that holds the entries.
    pub fn matrix(&self) -> (r: &Matrix<K>)
        ensures
            *r == self.backing(),
    {
        &self.matrix
    }

    /// The entry at position `i`, counted from 1.
    pub fn el(&self, i: usize) -> (r: Result<K, LinAlgError>)
        requires
            self.wf(),
            1 <= i,
        ensures
            r is Ok <==> i <= self@.len(),
            r matches Ok(x) ==> x == self@[i - 1],
            r matches Err(e) ==> e == (LinAlgError::OutofBoundsVector {
                size: self@.len() as usize,
                recieved: i,
            }),
    {
        let n = self.size;
        if i > n {
            return Err(LinAlgError::OutofBoundsVector { size: self.size, recieved: i });
        }
        self.matrix.el(i, 1)
    }

    /// Replaces the entry at position `el`, counted from 1.
    pub fn set(&mut self, el: usize, val: K) -> (r: Result<(), LinAlgError>)
        requires
            old(self).wf(),
            1 <= el,
        ensures
            final(self).wf(),
            r is Ok <==> el <= old(self)@.len(),
            r is Ok ==> final(self)@ == old(self)@.update(el - 1, val),
            r is Err ==> final(self)@ == old(self)@,
            r matches Err(e) ==> e == (LinAlgError::OutofBoundsVector {
                size: old(self)@.len() as usize,
                recieved: el,
            }),
    {
        let m = self.size;
        if el > m {
            return Err(LinAlgError::OutofBoundsVector { size: m, recieved: el });
        }
        let r = self.matrix.set(el, 1, val);
        assert(r is Ok);
        Ok(())
    }

    /// The vector of `n` additive identities.
    pub fn zero(n: usize) -> (r: Result<Vector<K>, LinAlgError>)
        ensures
            r is Ok <==> n > 0,
            r matches Ok(v) ==> v.wf() && v@ == constant(K::zero_spec(), n as nat),
            r matches Err(e) ==> e is BuildNonconforming,
    {
        Vector::new(Matrix::<K>::filled(K::zero(), n))
    }

    /// The vector of `n` multiplicative identities.
    pub fn ones(n: usize) -> (r: Result<Vector<K>, LinAlgError>)
        ensures
            r is Ok <==> n > 0,
            r matches Ok(v) ==> v.wf() && v@ == constant(K::one_spec(), n as nat),
            r matches Err(e) ==> e is BuildNonconforming,
    {
        Vector::new(Matrix::<K>::filled(K::one(), n))
    }

    /// Entrywise sum.
    pub fn add(&self, other: &Vector<K>) -> (r: Result<Vector<K>, LinAlgError>)
        requires
            self.wf(),
            other.wf(),
        ensures
            r is Ok <==> self@.len() == other@.len(),
            r matches Ok(v) ==> v.wf() && v@ == entrywise_add(self@, other@),
            r matches Err(e) ==> e is OperationNonConforming,
    {
        if self.size != other.size {
            return Err(nonconforming("sum"));
        }
        match self.matrix.add(&other.matrix) {
            Ok(m) => Vector::new(m.into_elements()),
            Err(e) => Err(e),
        }
    }

    /// Every entry multiplied, from the left, by `scaling`.
    pub fn scl(&self, scaling: K) -> (r: Result<Vector<K>, LinAlgError>)
        requires
            self.wf(),
        ensures
            r matches Ok(v) && v.wf() && v@ == scaled(scaling, self@),
    {
        match self.matrix.scl(scaling) {
            Ok(m) => Vector::new(m.into_elements()),
            Err(e) => Err(e),
        }
    }

    /// Entrywise difference.
    pub fn sub(&self, other: &Vector<K>) -> (r: Result<Vector<K>, LinAlgError>)
        requires
            self.wf(),
            other.wf(),
        ensures
            r is Ok <==> self@.len() == other@.len(),
            r matches Ok(v) ==> v.wf() && v@ == entrywise_sub(self@, other@),
            r matches Err(e) ==> e is OperationNonConforming,
    {
        if self.size != other.size {
            return Err(nonconforming("sub"));
        }
        match self.matrix.sub(&other.matrix) {
            Ok(m) => Vector::new(m.into_elements()),
            Err(e) => Err(e),
        }
    }

    /// The sum of `coefs[t]` times `u[t]`, added in order to a vector of
    /// additive identities.
    pub fn linear_combination(u: &[&Vector<K>], coefs: &[K]) -> (r: Result<
        Vector<K>,
        LinAlgError,
    >)
        requires
            forall|k: int| 0 <= k < u@.len() ==> (#[trigger] u@[k]).wf(),
        ensures
            r is Ok <==> u@.len() > 0 && u@.len() == coefs@.len() && (forall|k: int|
                0 <= k < u@.len() ==> (#[trigger] u@[k])@.len() == u@[0]@.len()),
            r matches Ok(v) ==> v.wf() && v@ == combination(
                Self::views_of(u@),
                coefs@,
                u@[0]@.len(),
                u@.len() as nat,
            ),
            r matches Err(e) ==> if u@.len() == 0 || coefs@.len() == 0 {
                e is EmptyArgs
            } else {
                e is OperationNonConforming
            },
    {
        if u.len() == 0 || coefs.len() == 0 {
            return Err(LinAlgError::EmptyArgs);
        }
        if u.len() != coefs.len() {
            return Err(nonconforming("Linear Combination"));
        }
        let ghost items = Self::views_of(u@);
        let ghost len = u@[0]@.len();
        let mut to_return = match Vector::<K>::zero(u[0].size) {
            Ok(x) => x,
            Err(e) => {
                return Err(e);
            },
        };
        assert(to_return@ =~= combination(items, coefs@, len, 0));
        let mut k: usize = 0;
        while k < u.len()
            invariant
                u@.len() == coefs@.len(),
                u@.len() > 0,
                forall|j: int| 0 <= j < u@.len() ==> (#[trigger] u@[j]).wf(),
                items == Self::views_of(u@),
                len == u@[0]@.len(),
                k <= u@.len(),
                to_return.wf(),
                to_return@.len() == len,
                to_return@ == combination(items, coefs@, len, k as nat),
                forall|j: int| 0 <= j < k ==> (#[trigger] u@[j])@.len() == len,
            decreases u@.len() - k,
        {
            let sc = match u[k].scl(coefs[k]) {
                Ok(x) => x,
                Err(e) => {
                    return Err(e);
                },
            };
            to_return = match to_return.add(&sc) {
                Ok(x) => x,
                Err(e) => {
                    return Err(e);
                },
            };
            k = k + 1;
        }
        Ok(to_return)
    }

    /// Linear interpolation: `(1 - t) * u + t * v`, as a linear combination.
    pub fn lerp(u: &Vector<K>, v: &Vector<K>, t: K) -> (r: Result<Vector<K>, LinAlgError>)
        requires
            u.wf(),
            v.wf(),
        ensures
            r is Ok <==> u@.len() == v@.len(),
            r matches Ok(w) ==> w.wf() && w@ == lerp_entries(u@, v@, t),
            r matches Err(e) ==> e is OperationNonConforming,
    {
        let items = [u, v];
        let coefs = [K::one().minus(&t), t];
        let r = Vector::<K>::linear_combination(items.as_slice(), coefs.as_slice());
        proof {
            let us = items@;
            assert(us.len() == 2);
            assert(us[0] == u && us[1] == v);
            if u@.len() != v@.len() {
                assert(!((#[trigger] us[1])@.len() == us[0]@.len()));
            }
            assert(Self::views_of(us)[0] == u@);
            assert(Self::views_of(us)[1] == v@);
            let cs = coefs@;
            assert(cs[0] == K::one_spec().sub_spec(t) && cs[1] == t);
            reveal_with_fuel(combination, 3);
        }
        r
    }

    /// The dot product: the sum of `conj(self[t]) * other[t]`, computed as
    /// the `1 x 1` product of the conjugate transpose of `self` and `other`.
    pub fn dot(&self, other: &Vector<K>) -> (r: Result<K, LinAlgError>)
        requires
            self.wf(),
            other.wf(),
        ensures
            r is Ok <==> self@.len() == other@.len(),
            r matches Ok(x) ==> x == dot_acc(self@, other@, self@.len()),
            r matches Err(e) ==> e is OperationNonConforming,
    {
        if self.size != other.size {
            return Err(nonconforming("dot product"));
        }
        if self.size == 0 {
            return Ok(K::zero());
        }
        let a = match self.matrix.adj() {
            Ok(x) => x,
            Err(e) => {
                return Err(e);
            },
        };
        let m1 = match a.mlt(&other.matrix) {
            Ok(x) => x,
            Err(e) => {
                return Err(e);
            },
        };
        proof {
            let n = self@.len();
            assert forall|t: int| 0 <= t < n implies #[trigger] a@[t] == self@[t].conj_spec() by {
                assert(a.at(0, t) == a@[0 + t * 1]);
                assert(self.backing().at(t, 0) == self@[t + 0 * n]);
            }
            lemma_dot_as_product(a@, other@, other@.len(), self@, other@, n);
        }
        m1.el(1, 1)
    }

    /// The cross product of two vectors of size 3.
    pub fn cross_product(&self, other: &Vector<K>) -> (r: Result<Vector<K>, LinAlgError>)
        requires
            self.wf(),
            other.wf(),
        ensures
            r is Ok <==> self@.len() == 3 && other@.len() == 3,
            r matches Ok(v) ==> v.wf() && v@ == cross(self@, other@),
            r matches Err(e) ==> e == (if self@.len() != 3 {
                LinAlgError::BuildNonconforming { expected: 3, recieved: self@.len() as usize }
            } else {
                LinAlgError::BuildNonconforming { expected: 3, recieved: other@.len() as usize }
            }),
    {
        if self.size() != 3 {
            return Err(LinAlgError::BuildNonconforming { expected: 3, recieved: self.size() });
        }
        if other.size() != 3 {
            return Err(LinAlgError::BuildNonconforming { expected: 3, recieved: other.size() });
        }
        let u = self.matrix.elements();
        let v = other.matrix.elements();
        let c1 = u[1].times(&v[2]).minus(&v[1].times(&u[2]));
        let c2 = K::zero().minus(&u[0]).times(&v[2]).plus(&u[2].times(&v[0]));
        let c3 = u[0].times(&v[1]).minus(&u[1].times(&v[0]));
        let mut out: Vec<K> = Vec::new();
        out.push(c1);
        out.push(c2);
        out.push(c3);
        assert(out@ =~= cross(self@, other@));
        Vector::new(out)
    }
}

impl<K: Field> Matrix<K> {
    /// The product of the matrix and a vector, as a vector.
    pub fn mul_vec(&self, other: &Vector<K>) -> (r: Result<Vector<K>, LinAlgError>)
        requires
            self.wf(),
            other.wf(),
        ensures
            r is Ok <==> self.cols() == other@.len() && self.rows() > 0,
            r matches Ok(v) ==> v.wf() && v@.len() == self.rows() && (forall|i: int|
                0 <= i < self.rows() ==> #[trigger] v@[i] == product_acc(
                    self@,
                    self.rows(),
                    other@,
                    other@.len(),
                    i,
                    0,
                    self.cols(),
                )),
            r matches Err(e) ==> if self.cols() != other@.len() {
                e is OperationNonConforming
            } else {
                e is BuildNonconforming
            },
    {
        let result = match self.mlt(other.matrix()) {
            Ok(x) => x,
            Err(e) => {
                return Err(e);
            },
        };
        proof {
            assert forall|i: int| 0 <= i < self.rows() implies #[trigger] result@[i]
                == result.at(i, 0) by {
                assert(i + 0 * self.rows() == i);
            }
        }
        Vector::new(result.into_elements())
    }

    /// Column `col` (counted from 1), as the product with a unit vector.
    pub fn column_extract(&self, col: usize) -> (r: Result<Vector<K>, LinAlgError>)
        requires
            self.wf(),
            1 <= col,
        ensures
            r is Ok <==> col <= self.cols() && self.rows() > 0,
            r matches Ok(v) ==> v.wf() && v@.len() == self.rows() && (forall|i: int|
                0 <= i < self.rows() ==> #[trigger] v@[i] == product_acc(
                    self@,
                    self.rows(),
                    unit_entries(self.cols(), col - 1),
                    self.cols(),
                    i,
                    0,
                    self.cols(),
                )),
            r matches Err(e) ==> if col > self.cols() {
                e == (LinAlgError::OutofBoundsVector {
                    size: self.cols() as usize,
                    recieved: col,
                })
            } else {
                e is BuildNonconforming
            },
    {
        let (_, cols) = self.size();
        if col > cols {
            return Err(LinAlgError::OutofBoundsVector { size: cols, recieved: col });
        }
        let mut mv = match Vector::<K>::zero(cols) {
            Ok(x) => x,
            Err(e) => {
                return Err(e);
            },
        };
        match mv.set(col, K::one()) {
            Ok(_) => {},
            Err(e) => {
                return Err(e);
            },
        }
        assert(mv@ =~= unit_entries(self.cols(), col - 1));
        self.mul_vec(&mv)
    }
}

} // verus!
