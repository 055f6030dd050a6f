use vstd::prelude::*;

verus! {

/// Scalars with a multiplicative identity.
pub trait One: Sized {
    /// The multiplicative identity, as a mathematical value.
    spec fn one_spec() -> Self;

    fn one() -> (r: Self)
        ensures
            r == Self::one_spec(),
    ;
}

/// Scalars with a conjugation (the identity on real scalars).
pub trait Conj: Sized {
    spec fn conj_spec(self) -> Self;

    fn conj(&self) -> (r: Self)
        ensures
            r == self.conj_spec(),
    ;
}

/// The element type of matrices and vectors.
///
/// Each operation is given by a spec function; the executable operation
/// computes exactly that value. The proof functions are the algebraic laws
/// that an implementation must establish. They are stated for values that
/// satisfy `valid`, which every value built by the executable operations does.
pub trait Field: One + Conj + Copy {
    /// Which values are well-formed elements of the field.
    spec fn valid(self) -> bool;

    spec fn zero_spec() -> Self;

    spec fn add_spec(self, o: Self) -> Self;

    spec fn sub_spec(self, o: Self) -> Self;

    spec fn mul_spec(self, o: Self) -> Self;

    spec fn div_spec(self, o: Self) -> Self;

    spec fn neg_spec(self) -> Self;

    /// The additive identity.
    fn zero() -> (r: Self)
        ensures
            r == Self::zero_spec(),
    ;

    fn plus(&self, o: &Self) -> (r: Self)
        ensures
            r == self.add_spec(*o),
    ;

    fn minus(&self, o: &Self) -> (r: Self)
        ensures
            r == self.sub_spec(*o),
    ;

    fn times(&self, o: &Self) -> (r: Self)
        ensures
            r == self.mul_spec(*o),
    ;

    fn divide(&self, o: &Self) -> (r: Self)
        ensures
            r == self.div_spec(*o),
    ;

    fn negate(&self) -> (r: Self)
        ensures
            r == self.neg_spec(),
    ;

    fn equals(&self, o: &Self) -> (r: bool)
        ensures
            r == (*self == *o),
    ;

    proof fn lemma_results_valid(x: Self, y: Self)
        ensures
            Self::zero_spec().valid(),
            Self::one_spec().valid(),
            x.add_spec(y).valid(),
            x.sub_spec(y).valid(),
            x.mul_spec(y).valid(),
            x.div_spec(y).valid(),
            x.neg_spec().valid(),
            x.valid() ==> x.conj_spec().valid(),
    ;

    proof fn lemma_one_ne_zero()
        ensures
            Self::one_spec() != Self::zero_spec(),
    ;

    proof fn lemma_add_zero(x: Self)
        requires
            x.valid(),
        ensures
            x.add_spec(Self::zero_spec()) == x,
            Self::zero_spec().add_spec(x) == x,
    ;

    proof fn lemma_sub_zero(x: Self)
        requires
            x.valid(),
        ensures
            x.sub_spec(Self::zero_spec()) == x,
            x.sub_spec(x) == Self::zero_spec(),
    ;

    proof fn lemma_mul_one(x: Self)
        requires
            x.valid(),
        ensures
            Self::one_spec().mul_spec(x) == x,
            x.mul_spec(Self::one_spec()) == x,
            x.div_spec(Self::one_spec()) == x,
    ;

    /// Every well-formed value other than 0 has a multiplicative inverse.
    proof fn lemma_mul_inverse(x: Self)
        requires
            x.valid(),
            x != Self::zero_spec(),
        ensures
            x.mul_spec(Self::one_spec().div_spec(x)) == Self::one_spec(),
    ;

    /// `0 - x` is the additive inverse of `x`.
    proof fn lemma_add_inverse(x: Self)
        requires
            x.valid(),
        ensures
            x.add_spec(Self::zero_spec().sub_spec(x)) == Self::zero_spec(),
    ;

    proof fn lemma_mul_zero(x: Self)
        ensures
            Self::zero_spec().mul_spec(x) == Self::zero_spec(),
            x.mul_spec(Self::zero_spec()) == Self::zero_spec(),
    ;

    proof fn lemma_mul_commutative(x: Self, y: Self)
        ensures
            x.mul_spec(y) == y.mul_spec(x),
    ;

    proof fn lemma_add_associative(x: Self, y: Self, z: Self)
        ensures
            x.add_spec(y).add_spec(z) == x.add_spec(y.add_spec(z)),
    ;

    proof fn lemma_add_commutative(x: Self, y: Self)
        ensures
            x.add_spec(y) == y.add_spec(x),
    ;

    proof fn lemma_mul_associative(x: Self, y: Self, z: Self)
        ensures
            x.mul_spec(y).mul_spec(z) == x.mul_spec(y.mul_spec(z)),
    ;

    proof fn lemma_distributive(x: Self, y: Self, z: Self)
        ensures
            x.mul_spec(y.add_spec(z)) == x.mul_spec(y).add_spec(x.mul_spec(z)),
    ;

    proof fn lemma_conj_laws(x: Self, y: Self)
        ensures
            Self::zero_spec().conj_spec() == Self::zero_spec(),
            x.add_spec(y).conj_spec() == x.conj_spec().add_spec(y.conj_spec()),
            x.mul_spec(y).conj_spec() == x.conj_spec().mul_spec(y.conj_spec()),
            x.valid() ==> x.conj_spec().conj_spec() == x,
    ;
}

} // verus!
