//! Algebraic laws of the kernel, proved over the models that the
//! operations' contracts use.
use vstd::prelude::*;

use crate::elimination::{
    add_row, clear_column, first_nonzero_below, lemma_rank_at_most_columns, lemma_rank_step,
    pivot_step, reduce, scale_row, swap_rows, Reduction,
};
use crate::matrix::{
    adjoint, all_valid, constant, identity_entries, lemma_index, lemma_position, lerp_entries, product_acc,
    transposed, Matrix,
};
use crate::residue::{lemma_congruent_ops, Residue, MODULUS};
use crate::echelon::lemma_full_rank_reduces_to_identity;
use crate::traits::Field;
use crate::vector::{cross, dot_acc, unit_entries};

verus! {

/// Transposing twice gives back the matrix: `tr` of `tr(a)` has the shape
/// and the entries of `a`.
pub proof fn lemma_transpose_involution<K: Field>(a: Matrix<K>)
    requires
        a.wf(),
    ensures
        transposed(transposed(a@, a.rows(), a.cols()), a.cols(), a.rows()) == a@,
{
    let n = a.rows();
    let m = a.cols();
    let t = transposed(a@, n, m);
    let tt = transposed(t, m, n);
    assert forall|k: int| 0 <= k < n * m implies #[trigger] tt[k] == a@[k] by {
        lemma_position(k, n as int, m as int);
        let i = k % (n as int);
        let j = k / (n as int);
        vstd::arithmetic::mul::lemma_mul_is_commutative(m as int, n as int);
        lemma_index(j, i, m as int, n as int);
    }
    vstd::arithmetic::mul::lemma_mul_is_commutative(m as int, n as int);
    assert(tt =~= a@);
}

/// On a matrix whose entries are their own conjugates (a real matrix), the
/// conjugate transpose is the transpose.
pub proof fn lemma_adjoint_of_real<K: Field>(a: Matrix<K>)
    requires
        a.wf(),
        forall|k: int| 0 <= k < a@.len() ==> (#[trigger] a@[k]).conj_spec() == a@[k],
    ensures
        adjoint(a@, a.rows(), a.cols()) == transposed(a@, a.rows(), a.cols()),
{
    let n = a.rows();
    let m = a.cols();
    assert forall|k: int| 0 <= k < n * m implies #[trigger] adjoint(a@, n, m)[k] == transposed(
        a@,
        n,
        m,
    )[k] by {
        vstd::arithmetic::mul::lemma_mul_is_commutative(m as int, n as int);
        lemma_position(k, m as int, n as int);
        lemma_index(k / (m as int), k % (m as int), n as int, m as int);
    }
    assert(adjoint(a@, n, m) =~= transposed(a@, n, m));
}

/// The dot product is Hermitian: `dot(u, v)` is the conjugate of `dot(v, u)`.
pub proof fn lemma_dot_hermitian<K: Field>(u: Seq<K>, v: Seq<K>)
    requires
        u.len() == v.len(),
        all_valid(u),
        all_valid(v),
    ensures
        dot_acc(u, v, u.len()) == dot_acc(v, u, u.len()).conj_spec(),
{
    lemma_dot_hermitian_prefix(u, v, u.len());
}

proof fn lemma_dot_hermitian_prefix<K: Field>(u: Seq<K>, v: Seq<K>, w: nat)
    requires
        w <= u.len(),
        u.len() == v.len(),
        all_valid(u),
        all_valid(v),
    ensures
        dot_acc(u, v, w) == dot_acc(v, u, w).conj_spec(),
    decreases w,
{
    if w == 0 {
        K::lemma_conj_laws(K::zero_spec(), K::zero_spec());
    } else {
        let t = w - 1;
        lemma_dot_hermitian_prefix(u, v, t as nat);
        let head = dot_acc(v, u, t as nat);
        let term = v[t].conj_spec().mul_spec(u[t]);
        K::lemma_conj_laws(head, term);
        K::lemma_conj_laws(v[t].conj_spec(), u[t]);
        K::lemma_conj_laws(v[t], v[t]);
        K::lemma_mul_commutative(v[t], u[t].conj_spec());
    }
}

/// Linear interpolation meets its end points: at the additive identity it
/// gives `u`, at the multiplicative identity it gives `v`.
pub proof fn lemma_lerp_endpoints<K: Field>(u: Seq<K>, v: Seq<K>)
    requires
        u.len() == v.len(),
        all_valid(u),
        all_valid(v),
    ensures
        lerp_entries(u, v, K::zero_spec()) == u,
        lerp_entries(u, v, K::one_spec()) == v,
{
    let z = K::zero_spec();
    let o = K::one_spec();
    K::lemma_results_valid(z, z);
    K::lemma_sub_zero(o);
    K::lemma_add_zero(z);
    assert forall|k: int| 0 <= k < u.len() implies #[trigger] lerp_entries(u, v, z)[k] == u[k] by {
        K::lemma_mul_one(u[k]);
        K::lemma_add_zero(u[k]);
        K::lemma_mul_zero(v[k]);
    }
    assert forall|k: int| 0 <= k < u.len() implies #[trigger] lerp_entries(u, v, o)[k] == v[k] by {
        K::lemma_mul_zero(u[k]);
        K::lemma_mul_one(v[k]);
        K::lemma_add_zero(v[k]);
    }
    assert(lerp_entries(u, v, z) =~= u);
    assert(lerp_entries(u, v, o) =~= v);
}

/// The first `w` terms of the product of row `i` with a unit vector.
proof fn lemma_unit_product_prefix<K: Field>(a: Matrix<K>, i: int, c: int, w: nat)
    requires
        a.wf(),
        all_valid(a@),
        0 <= i < a.rows(),
        0 <= c < a.cols(),
        w <= a.cols(),
    ensures
        product_acc(a@, a.rows(), unit_entries::<K>(a.cols(), c), a.cols(), i, 0, w) == if c < w {
            a.at(i, c)
        } else {
            K::zero_spec()
        },
    decreases w,
{
    if w > 0 {
        let t = w - 1;
        lemma_unit_product_prefix(a, i, c, t as nat);
        let n = a.rows();
        lemma_index(i, t, n as int, a.cols() as int);
        lemma_index(i, c, n as int, a.cols() as int);
        let x = a@[i + t * n];
        assert(x.valid());
        assert(a.at(i, c).valid());
        K::lemma_results_valid(x, x);
        assert(unit_entries::<K>(a.cols(), c)[t + 0 * a.cols()] == unit_entries::<K>(a.cols(), c)[t]);
        K::lemma_mul_one(x);
        K::lemma_mul_zero(x);
        K::lemma_add_zero(x);
        K::lemma_add_zero(a.at(i, c));
        K::lemma_add_zero(K::zero_spec());
    }
}

/// The product of a matrix with the unit vector for column `c` is column
/// `c`: this is what `column_extract` returns.
pub proof fn lemma_unit_product_is_column<K: Field>(a: Matrix<K>, c: int, i: int)
    requires
        a.wf(),
        all_valid(a@),
        0 <= i < a.rows(),
        0 <= c < a.cols(),
    ensures
        product_acc(a@, a.rows(), unit_entries::<K>(a.cols(), c), a.cols(), i, 0, a.cols())
            == a.at(i, c),
{
    lemma_unit_product_prefix(a, i, c, a.cols());
}

/// A column with only additive identities at or below row `from` has no pivot there.
proof fn lemma_no_pivot<K: Field>(e: Seq<K>, n: nat, c: int, from: nat)
    requires
        forall|r: int| from <= r < n ==> #[trigger] e[r + c * n] == K::zero_spec(),
    ensures
        first_nonzero_below(e, n, c, from) is None,
    decreases n - from,
{
    if from < n {
        lemma_no_pivot(e, n, c, from + 1);
    }
}

/// Elimination leaves the zero matrix as it is and finds no pivot.
proof fn lemma_reduce_zero<K: Field>(n: nat, c: nat)
    requires
        c <= n,
    ensures
        reduce(constant(K::zero_spec(), n * n), n, false, c).rank == 0,
        reduce(constant(K::zero_spec(), n * n), n, false, c).entries == constant(
            K::zero_spec(),
            n * n,
        ),
        !reduce(constant(K::zero_spec(), n * n), n, false, c).stopped,
    decreases c,
{
    if c > 0 {
        let z = constant(K::zero_spec(), n * n);
        lemma_reduce_zero::<K>(n, (c - 1) as nat);
        let s = reduce(z, n, false, (c - 1) as nat);
        if s.rank < n {
            assert forall|r: int| s.rank <= r < n implies #[trigger] z[r + (c - 1) * n]
                == K::zero_spec() by {
                lemma_index(r, c - 1, n as int, n as int);
            }
            lemma_no_pivot(z, n, c - 1, s.rank);
        }
    }
}

/// The rank of the `n x n` zero matrix is 0.
pub proof fn lemma_rank_of_zero<K: Field>(n: nat)
    ensures
        reduce(constant(K::zero_spec(), n * n), n, false, n).rank == 0,
{
    lemma_reduce_zero::<K>(n, n);
}

/// The identity matrix's entries are well-formed scalars.
proof fn lemma_identity_valid<K: Field>(n: nat)
    ensures
        all_valid(identity_entries::<K>(n)),
{
    K::lemma_results_valid(K::zero_spec(), K::zero_spec());
}

/// Clearing a column of the identity changes nothing, in the entries and
/// in a tracked inverse that is the identity too.
proof fn lemma_clear_identity<K: Field>(s: Reduction<K>, n: nat, c: int, track: bool, upto: nat)
    requires
        0 <= c < n,
        upto <= n,
        s.entries == identity_entries::<K>(n),
        s.det == K::one_spec(),
        track ==> s.inverse == identity_entries::<K>(n),
    ensures
        clear_column(s, n, c, c, track, upto) == s,
    decreases upto,
{
    if upto > 0 {
        lemma_clear_identity(s, n, c, track, (upto - 1) as nat);
        let row = upto - 1;
        if row != c {
            let e = identity_entries::<K>(n);
            lemma_index(row, c, n as int, n as int);
            K::lemma_results_valid(K::zero_spec(), K::zero_spec());
            K::lemma_sub_zero(K::zero_spec());
            K::lemma_mul_one(K::one_spec());
            let f = K::zero_spec().sub_spec(e[row + c * n]);
            assert(f == K::zero_spec());
            lemma_identity_valid::<K>(n);
            assert forall|k: int| 0 <= k < e.len() implies #[trigger] add_row(e, n, row, c, f)[k]
                == e[k] by {
                K::lemma_mul_zero(e[c + (k / (n as int)) * n]);
                K::lemma_add_zero(e[k]);
            }
            assert(add_row(e, n, row, c, f) =~= e);
        }
    }
}

/// Elimination of the identity: each column yields its diagonal pivot, the
/// determinant stays the identity, and so does a tracked inverse.
proof fn lemma_reduce_identity<K: Field>(n: nat, track: bool, c: nat)
    requires
        c <= n,
    ensures
        reduce(identity_entries::<K>(n), n, track, c) == (Reduction {
            entries: identity_entries::<K>(n),
            det: K::one_spec(),
            rank: c,
            inverse: if track {
                identity_entries::<K>(n)
            } else {
                identity_entries::<K>(1)
            },
            stopped: false,
        }),
    decreases c,
{
    if c > 0 {
        let e = identity_entries::<K>(n);
        let p = c - 1;
        lemma_reduce_identity::<K>(n, track, p as nat);
        let s = reduce(e, n, track, p as nat);
        lemma_index(p, p, n as int, n as int);
        K::lemma_one_ne_zero();
        assert(first_nonzero_below(e, n, p, p as nat) == Some(p as nat));
        K::lemma_results_valid(K::one_spec(), K::one_spec());
        K::lemma_mul_one(K::one_spec());
        let scaling = K::one_spec().div_spec(e[p + p * n]);
        assert(scaling == K::one_spec());
        lemma_identity_valid::<K>(n);
        assert forall|k: int| 0 <= k < e.len() implies #[trigger] scale_row(e, n, p, scaling)[k]
            == e[k] by {
            K::lemma_mul_one(e[k]);
        }
        assert(scale_row(e, n, p, scaling) =~= e);
        let s2 = Reduction {
            entries: scale_row(s.entries, n, p, scaling),
            det: s.det.mul_spec(K::one_spec().div_spec(scaling)),
            inverse: if track {
                scale_row(s.inverse, n, p, scaling)
            } else {
                s.inverse
            },
            ..s
        };
        assert(s2 == s);
        lemma_clear_identity(s, n, p, track, n);
        assert(pivot_step(s, n, p, p as nat, track) == Reduction { rank: s.rank + 1, ..s });
    }
}

/// The identity matrix has determinant one and full rank.
pub proof fn lemma_identity_det_rank<K: Field>(n: nat)
    requires
        n >= 1,
    ensures
        reduce(identity_entries::<K>(n), n, false, n).det == K::one_spec(),
        reduce(identity_entries::<K>(n), n, false, n).rank == n,
{
    lemma_reduce_identity::<K>(n, false, n);
}

/// The identity matrix is its own inverse: elimination that tracks the
/// inverse finds all `n` pivots and returns the identity.
pub proof fn lemma_identity_inverse<K: Field>(n: nat)
    requires
        n >= 1,
    ensures
        reduce(identity_entries::<K>(n), n, true, n).rank == n,
        reduce(identity_entries::<K>(n), n, true, n).inverse == identity_entries::<K>(n),
{
    lemma_reduce_identity::<K>(n, true, n);
}

/// Clearing a column does the same to the entries, the determinant and the
/// pivot count whether or not the inverse is tracked.
proof fn lemma_clear_column_tracking<K: Field>(
    s: Reduction<K>,
    t: Reduction<K>,
    n: nat,
    c: int,
    p: int,
    upto: nat,
)
    requires
        s.entries == t.entries,
        s.det == t.det,
        s.rank == t.rank,
        s.stopped == t.stopped,
    ensures
        clear_column(s, n, c, p, true, upto).entries == clear_column(t, n, c, p, false, upto).entries,
        clear_column(s, n, c, p, true, upto).det == clear_column(t, n, c, p, false, upto).det,
        clear_column(s, n, c, p, true, upto).rank == s.rank,
        clear_column(t, n, c, p, false, upto).rank == s.rank,
        clear_column(s, n, c, p, true, upto).stopped == s.stopped,
        clear_column(t, n, c, p, false, upto).stopped == s.stopped,
    decreases upto,
{
    if upto > 0 {
        lemma_clear_column_tracking(s, t, n, c, p, (upto - 1) as nat);
    }
}

/// Elimination with and without the inverse agree until the tracking run
/// gives up; once it has, both fall short of `n` pivots at the end.
proof fn lemma_tracking_run<K: Field>(a: Seq<K>, n: nat, c: nat)
    ensures
        !reduce(a, n, false, c).stopped,
        ({
            let t = reduce(a, n, true, c);
            let f = reduce(a, n, false, c);
            ||| (!t.stopped && t.entries == f.entries && t.det == f.det && t.rank == f.rank)
            ||| (t.stopped && t.rank < n && f.rank + 1 <= c)
        }),
    decreases c,
{
    if c > 0 {
        let p = (c - 1) as nat;
        lemma_tracking_run(a, n, p);
        lemma_rank_step(a, n, false, p);
        lemma_rank_at_most_columns(a, n, false, p);
        let t = reduce(a, n, true, p);
        let f = reduce(a, n, false, p);
        if !t.stopped && t.rank < n {
            match first_nonzero_below(t.entries, n, p as int, t.rank) {
                None => {},
                Some(r) => {
                    let q = t.rank as int;
                    let t1 = if r != q {
                        Reduction {
                            entries: swap_rows(t.entries, n, r as int, q),
                            det: t.det.mul_spec(K::zero_spec().sub_spec(K::one_spec())),
                            inverse: swap_rows(t.inverse, n, r as int, q),
                            ..t
                        }
                    } else {
                        t
                    };
                    let f1 = if r != q {
                        Reduction {
                            entries: swap_rows(f.entries, n, r as int, q),
                            det: f.det.mul_spec(K::zero_spec().sub_spec(K::one_spec())),
                            inverse: f.inverse,
                            ..f
                        }
                    } else {
                        f
                    };
                    let sc = K::one_spec().div_spec(t1.entries[q + p * n]);
                    let t2 = Reduction {
                        entries: scale_row(t1.entries, n, q, sc),
                        det: t1.det.mul_spec(K::one_spec().div_spec(sc)),
                        inverse: scale_row(t1.inverse, n, q, sc),
                        ..t1
                    };
                    let f2 = Reduction {
                        entries: scale_row(f1.entries, n, q, sc),
                        det: f1.det.mul_spec(K::one_spec().div_spec(sc)),
                        inverse: f1.inverse,
                        ..f1
                    };
                    lemma_clear_column_tracking(t2, f2, n, p as int, q, n);
                },
            }
        }
        if !f.stopped && f.rank < n {
            match first_nonzero_below(f.entries, n, p as int, f.rank) {
                None => {},
                Some(r) => {
                    let q = f.rank as int;
                    let f1 = if r != q {
                        Reduction {
                            entries: swap_rows(f.entries, n, r as int, q),
                            det: f.det.mul_spec(K::zero_spec().sub_spec(K::one_spec())),
                            inverse: f.inverse,
                            ..f
                        }
                    } else {
                        f
                    };
                    let sc = K::one_spec().div_spec(f1.entries[q + p * n]);
                    let f2 = Reduction {
                        entries: scale_row(f1.entries, n, q, sc),
                        det: f1.det.mul_spec(K::one_spec().div_spec(sc)),
                        inverse: f1.inverse,
                        ..f1
                    };
                    lemma_clear_column_tracking(f2, f2, n, p as int, q, n);
                },
            }
        }
    }
}

/// For a square matrix, elimination that tracks the inverse finds `n`
/// pivots exactly when elimination alone does: `inverse` fails with the
/// singular-matrix error exactly when `rank` is below the size.
pub proof fn lemma_inverse_needs_full_rank<K: Field>(a: Matrix<K>)
    requires
        a.wf(),
        a.rows() == a.cols(),
    ensures
        reduce(a@, a.rows(), true, a.cols()).rank == a.rows() <==> reduce(
            a@,
            a.rows(),
            false,
            a.cols(),
        ).rank == a.rows(),
{
    lemma_tracking_run(a@, a.rows(), a.cols());
}

/// The column-major entries of the product `x * a` of an `n x n` layout `x`
/// and an `n x m` layout `a`.
pub open spec fn product_entries<K: Field>(x: Seq<K>, a: Seq<K>, n: nat, m: nat) -> Seq<K> {
    Seq::new(
        n * m,
        |k: int| product_acc(x, n, a, n, k % (n as int), k / (n as int), n),
    )
}

/// Regrouping four summands: `(p + q) + (r + s) == (p + r) + (q + s)`.
proof fn lemma_add_regroup<K: Field>(p: K, q: K, r: K, s: K)
    ensures
        p.add_spec(q).add_spec(r.add_spec(s)) == p.add_spec(r).add_spec(q.add_spec(s)),
{
    K::lemma_add_associative(p, q, r.add_spec(s));
    K::lemma_add_associative(q, r, s);
    K::lemma_add_commutative(q, r);
    K::lemma_add_associative(r, q, s);
    K::lemma_add_associative(p, r, q.add_spec(s));
}

/// Multiplication distributes from the right: `(y + z) * x == y * x + z * x`.
proof fn lemma_distributive_right<K: Field>(y: K, z: K, x: K)
    ensures
        y.add_spec(z).mul_spec(x) == y.mul_spec(x).add_spec(z.mul_spec(x)),
{
    K::lemma_mul_commutative(y.add_spec(z), x);
    K::lemma_distributive(x, y, z);
    K::lemma_mul_commutative(x, y);
    K::lemma_mul_commutative(x, z);
}

/// A row swap of `x` swaps the rows of `x * a`.
proof fn lemma_product_swap<K: Field>(
    x: Seq<K>,
    a: Seq<K>,
    n: nat,
    r1: int,
    r2: int,
    i: int,
    j: int,
    w: nat,
)
    requires
        0 <= i < n,
        0 <= r1 < n,
        0 <= r2 < n,
        w <= n,
        x.len() == n * n,
    ensures
        product_acc(swap_rows(x, n, r1, r2), n, a, n, i, j, w) == product_acc(
            x,
            n,
            a,
            n,
            if i == r1 {
                r2
            } else if i == r2 {
                r1
            } else {
                i
            },
            j,
            w,
        ),
    decreases w,
{
    if w > 0 {
        lemma_product_swap(x, a, n, r1, r2, i, j, (w - 1) as nat);
        lemma_index(i, w - 1, n as int, n as int);
    }
}

/// Scaling row `p` of `x` scales row `p` of `x * a`.
proof fn lemma_product_scale<K: Field>(
    x: Seq<K>,
    a: Seq<K>,
    n: nat,
    p: int,
    c: K,
    i: int,
    j: int,
    w: nat,
)
    requires
        0 <= i < n,
        w <= n,
        x.len() == n * n,
    ensures
        product_acc(scale_row(x, n, p, c), n, a, n, i, j, w) == if i == p {
            c.mul_spec(product_acc(x, n, a, n, i, j, w))
        } else {
            product_acc(x, n, a, n, i, j, w)
        },
    decreases w,
{
    if w == 0 {
        K::lemma_mul_zero(c);
    } else {
        let t = w - 1;
        lemma_product_scale(x, a, n, p, c, i, j, t as nat);
        lemma_index(i, t, n as int, n as int);
        if i == p {
            let prev = product_acc(x, n, a, n, i, j, t as nat);
            let xt = x[i + t * n];
            let at = a[t + j * n];
            K::lemma_distributive(c, prev, xt.mul_spec(at));
            K::lemma_mul_associative(c, xt, at);
        }
    }
}

/// Adding `f` times row `o` of `x` to row `d` does the same to `x * a`.
proof fn lemma_product_add<K: Field>(
    x: Seq<K>,
    a: Seq<K>,
    n: nat,
    d: int,
    o: int,
    f: K,
    i: int,
    j: int,
    w: nat,
)
    requires
        0 <= i < n,
        0 <= o < n,
        w <= n,
        x.len() == n * n,
    ensures
        product_acc(add_row(x, n, d, o, f), n, a, n, i, j, w) == if i == d {
            product_acc(x, n, a, n, d, j, w).add_spec(f.mul_spec(product_acc(x, n, a, n, o, j, w)))
        } else {
            product_acc(x, n, a, n, i, j, w)
        },
    decreases w,
{
    if w == 0 {
        K::lemma_mul_zero(f);
        K::lemma_results_valid(K::zero_spec(), K::zero_spec());
        K::lemma_add_zero(K::zero_spec());
    } else {
        let t = w - 1;
        lemma_product_add(x, a, n, d, o, f, i, j, t as nat);
        lemma_index(i, t, n as int, n as int);
        lemma_index(o, t, n as int, n as int);
        if i == d {
            let pd = product_acc(x, n, a, n, d, j, t as nat);
            let po = product_acc(x, n, a, n, o, j, t as nat);
            let xd = x[d + t * n];
            let xo = x[o + t * n];
            let at = a[t + j * n];
            lemma_distributive_right(xd, f.mul_spec(xo), at);
            K::lemma_mul_associative(f, xo, at);
            K::lemma_distributive(f, po, xo.mul_spec(at));
            lemma_add_regroup(pd, f.mul_spec(po), xd.mul_spec(at), f.mul_spec(xo.mul_spec(at)));
        }
    }
}

/// The identity times `a` is `a`, term by term.
proof fn lemma_product_identity_prefix<K: Field>(a: Seq<K>, n: nat, m: nat, i: int, j: int, w: nat)
    requires
        0 <= i < n,
        0 <= j < m,
        w <= n,
        a.len() == n * m,
        all_valid(a),
    ensures
        product_acc(identity_entries::<K>(n), n, a, n, i, j, w) == if i < w {
            a[i + j * n]
        } else {
            K::zero_spec()
        },
    decreases w,
{
    if w > 0 {
        let t = w - 1;
        lemma_product_identity_prefix(a, n, m, i, j, t as nat);
        lemma_index(i, t, n as int, n as int);
        lemma_index(t, j, n as int, m as int);
        lemma_index(i, j, n as int, m as int);
        let y = a[t + j * n];
        assert(y.valid());
        assert(a[i + j * n].valid());
        K::lemma_results_valid(y, y);
        K::lemma_mul_one(y);
        K::lemma_mul_zero(y);
        K::lemma_add_zero(y);
        K::lemma_add_zero(a[i + j * n]);
        K::lemma_add_zero(K::zero_spec());
    }
}

/// The product entries after a row operation on `x` are the row operation
/// applied to the product entries.
proof fn lemma_product_entries_rowops<K: Field>(x: Seq<K>, a: Seq<K>, n: nat, m: nat)
    requires
        x.len() == n * n,
    ensures
        forall|r1: int, r2: int|
            0 <= r1 < n && 0 <= r2 < n ==> #[trigger] product_entries(swap_rows(x, n, r1, r2), a, n, m)
                == swap_rows(product_entries(x, a, n, m), n, r1, r2),
        forall|p: int, c: K|
            0 <= p < n ==> #[trigger] product_entries(scale_row(x, n, p, c), a, n, m) == scale_row(
                product_entries(x, a, n, m),
                n,
                p,
                c,
            ),
        forall|d: int, o: int, f: K|
            0 <= d < n && 0 <= o < n ==> #[trigger] product_entries(add_row(x, n, d, o, f), a, n, m)
                == add_row(product_entries(x, a, n, m), n, d, o, f),
{
    let e = product_entries(x, a, n, m);
    assert forall|r1: int, r2: int| 0 <= r1 < n && 0 <= r2 < n implies #[trigger] product_entries(
        swap_rows(x, n, r1, r2),
        a,
        n,
        m,
    ) == swap_rows(e, n, r1, r2) by {
        assert forall|k: int| 0 <= k < n * m implies #[trigger] product_entries(
            swap_rows(x, n, r1, r2),
            a,
            n,
            m,
        )[k] == swap_rows(e, n, r1, r2)[k] by {
            lemma_position(k, n as int, m as int);
            let (i, j) = (k % (n as int), k / (n as int));
            lemma_product_swap(x, a, n, r1, r2, i, j, n);
            lemma_index(r1, j, n as int, m as int);
            lemma_index(r2, j, n as int, m as int);
        }
        assert(product_entries(swap_rows(x, n, r1, r2), a, n, m) =~= swap_rows(e, n, r1, r2));
    }
    assert forall|p: int, c: K| 0 <= p < n implies #[trigger] product_entries(
        scale_row(x, n, p, c),
        a,
        n,
        m,
    ) == scale_row(e, n, p, c) by {
        assert forall|k: int| 0 <= k < n * m implies #[trigger] product_entries(
            scale_row(x, n, p, c),
            a,
            n,
            m,
        )[k] == scale_row(e, n, p, c)[k] by {
            lemma_position(k, n as int, m as int);
            let (i, j) = (k % (n as int), k / (n as int));
            lemma_product_scale(x, a, n, p, c, i, j, n);
        }
        assert(product_entries(scale_row(x, n, p, c), a, n, m) =~= scale_row(e, n, p, c));
    }
    assert forall|d: int, o: int, f: K| 0 <= d < n && 0 <= o < n implies #[trigger] product_entries(
        add_row(x, n, d, o, f),
        a,
        n,
        m,
    ) == add_row(e, n, d, o, f) by {
        assert forall|k: int| 0 <= k < n * m implies #[trigger] product_entries(
            add_row(x, n, d, o, f),
            a,
            n,
            m,
        )[k] == add_row(e, n, d, o, f)[k] by {
            lemma_position(k, n as int, m as int);
            let (i, j) = (k % (n as int), k / (n as int));
            lemma_product_add(x, a, n, d, o, f, i, j, n);
            lemma_index(o, j, n as int, m as int);
            lemma_index(d, j, n as int, m as int);
        }
        assert(product_entries(add_row(x, n, d, o, f), a, n, m) =~= add_row(e, n, d, o, f));
    }
}

/// A pivot that elimination finds lies between the starting row and `n`.
proof fn lemma_first_nonzero_range<K: Field>(e: Seq<K>, n: nat, c: int, from: nat)
    ensures
        first_nonzero_below(e, n, c, from) matches Some(r) ==> from <= r < n,
    decreases n - from,
{
    if from < n {
        lemma_first_nonzero_range(e, n, c, from + 1);
    }
}

/// Clearing a column keeps the tracked inverse times `a` equal to the entries.
proof fn lemma_clear_column_product<K: Field>(
    s: Reduction<K>,
    a: Seq<K>,
    n: nat,
    m: nat,
    c: int,
    p: int,
    upto: nat,
)
    requires
        0 <= p < n,
        upto <= n,
        s.inverse.len() == n * n,
        product_entries(s.inverse, a, n, m) == s.entries,
    ensures
        clear_column(s, n, c, p, true, upto).inverse.len() == n * n,
        product_entries(clear_column(s, n, c, p, true, upto).inverse, a, n, m) == clear_column(
            s,
            n,
            c,
            p,
            true,
            upto,
        ).entries,
    decreases upto,
{
    if upto > 0 {
        lemma_clear_column_product(s, a, n, m, c, p, (upto - 1) as nat);
        let t = clear_column(s, n, c, p, true, (upto - 1) as nat);
        lemma_product_entries_rowops(t.inverse, a, n, m);
    }
}

/// A pivot step keeps the tracked inverse times `a` equal to the entries.
proof fn lemma_pivot_step_product<K: Field>(
    s: Reduction<K>,
    a: Seq<K>,
    n: nat,
    m: nat,
    c: int,
    r: nat,
)
    requires
        s.rank < n,
        r < n,
        s.inverse.len() == n * n,
        product_entries(s.inverse, a, n, m) == s.entries,
    ensures
        pivot_step(s, n, c, r, true).inverse.len() == n * n,
        product_entries(pivot_step(s, n, c, r, true).inverse, a, n, m) == pivot_step(
            s,
            n,
            c,
            r,
            true,
        ).entries,
{
    let p = s.rank as int;
    lemma_product_entries_rowops(s.inverse, a, n, m);
    let s1 = if r != p {
        Reduction {
            entries: swap_rows(s.entries, n, r as int, p),
            det: s.det.mul_spec(K::zero_spec().sub_spec(K::one_spec())),
            inverse: swap_rows(s.inverse, n, r as int, p),
            ..s
        }
    } else {
        s
    };
    lemma_product_entries_rowops(s1.inverse, a, n, m);
    let scaling = K::one_spec().div_spec(s1.entries[p + c * n]);
    let s2 = Reduction {
        entries: scale_row(s1.entries, n, p, scaling),
        det: s1.det.mul_spec(K::one_spec().div_spec(scaling)),
        inverse: scale_row(s1.inverse, n, p, scaling),
        ..s1
    };
    lemma_clear_column_product(s2, a, n, m, c, p, n);
}

/// Throughout elimination that tracks the inverse (until it gives up), the
/// tracked inverse times the original `a` is the current reduced form.
proof fn lemma_reduce_product<K: Field>(a: Seq<K>, n: nat, m: nat, c: nat)
    requires
        a.len() == n * m,
        all_valid(a),
    ensures
        reduce(a, n, true, c).inverse.len() == n * n,
        !reduce(a, n, true, c).stopped ==> product_entries(reduce(a, n, true, c).inverse, a, n, m)
            == reduce(a, n, true, c).entries,
    decreases c,
{
    if c == 0 {
        assert forall|k: int| 0 <= k < n * m implies #[trigger] product_entries(
            identity_entries::<K>(n),
            a,
            n,
            m,
        )[k] == a[k] by {
            lemma_position(k, n as int, m as int);
            lemma_product_identity_prefix(a, n, m, k % (n as int), k / (n as int), n);
        }
        assert(product_entries(identity_entries::<K>(n), a, n, m) =~= a);
    } else {
        let q = (c - 1) as nat;
        lemma_reduce_product(a, n, m, q);
        let s = reduce(a, n, true, q);
        if !(s.stopped || s.rank >= n) {
            lemma_first_nonzero_range(s.entries, n, q as int, s.rank);
            match first_nonzero_below(s.entries, n, q as int, s.rank) {
                None => {},
                Some(r) => {
                    lemma_pivot_step_product(s, a, n, m, q as int, r);
                },
            }
        }
    }
}

/// The inverse that elimination accumulates, multiplied on the left of the
/// matrix, gives the matrix's reduced row-echelon form: whenever `inverse`
/// succeeds, `inverse(a) * a` is `row_echelon(a)`.
pub proof fn lemma_inverse_times_matrix<K: Field>(a: Matrix<K>)
    requires
        a.wf(),
        a.rows() == a.cols(),
        all_valid(a@),
        reduce(a@, a.rows(), true, a.cols()).rank == a.rows(),
    ensures
        product_entries(reduce(a@, a.rows(), true, a.cols()).inverse, a@, a.rows(), a.cols())
            == reduce(a@, a.rows(), false, a.cols()).entries,
{
    lemma_tracking_run(a@, a.rows(), a.cols());
    lemma_reduce_product(a@, a.rows(), a.cols(), a.cols());
}

/// For a square matrix of full rank, the inverse that elimination returns
/// is a left inverse: `inverse(a) * a` is the identity.
pub proof fn lemma_inverse_is_left_inverse<K: Field>(a: Matrix<K>)
    requires
        a.wf(),
        a.rows() == a.cols(),
        all_valid(a@),
        reduce(a@, a.rows(), true, a.cols()).rank == a.rows(),
    ensures
        product_entries(reduce(a@, a.rows(), true, a.cols()).inverse, a@, a.rows(), a.cols())
            == identity_entries::<K>(a.rows()),
{
    lemma_inverse_needs_full_rank(a);
    lemma_inverse_times_matrix(a);
    lemma_full_rank_reduces_to_identity(a);
}

/// The integer cross product is orthogonal to both factors.
proof fn lemma_triple_product_vanishes(x0: int, x1: int, x2: int, y0: int, y1: int, y2: int)
    ensures
        0 + (x1 * y2 - y1 * x2) * x0 + ((0 - x0) * y2 + x2 * y0) * x1 + (x0 * y1 - x1 * y0) * x2
            == 0,
        0 + (x1 * y2 - y1 * x2) * y0 + ((0 - x0) * y2 + x2 * y0) * y1 + (x0 * y1 - x1 * y0) * y2
            == 0,
{
    assert((x1 * y2 - y1 * x2) * x0 == x0 * x1 * y2 - x0 * x2 * y1) by (nonlinear_arith);
    assert(((0 - x0) * y2 + x2 * y0) * x1 == x1 * x2 * y0 - x0 * x1 * y2) by (nonlinear_arith);
    assert((x0 * y1 - x1 * y0) * x2 == x0 * x2 * y1 - x1 * x2 * y0) by (nonlinear_arith);
    assert((x1 * y2 - y1 * x2) * y0 == x1 * y0 * y2 - x2 * y0 * y1) by (nonlinear_arith);
    assert(((0 - x0) * y2 + x2 * y0) * y1 == x2 * y0 * y1 - x0 * y1 * y2) by (nonlinear_arith);
    assert((x0 * y1 - x1 * y0) * y2 == x0 * y1 * y2 - x1 * y0 * y2) by (nonlinear_arith);
}

/// A residue congruent to 0 is the additive identity.
proof fn lemma_congruent_zero(r: Residue)
    requires
        r.v < MODULUS,
        r.v as int % (MODULUS as int) == 0,
    ensures
        r == Residue::zero_spec(),
{
    vstd::arithmetic::div_mod::lemma_small_mod(r.v as nat, MODULUS as nat);
}

/// Over the residue field the cross product is orthogonal to both factors:
/// `dot(cross(u, v), u)` and `dot(cross(u, v), v)` are 0.
pub proof fn lemma_cross_orthogonal(u: Seq<Residue>, v: Seq<Residue>)
    requires
        u.len() == 3,
        v.len() == 3,
    ensures
        dot_acc(cross(u, v), u, 3) == Residue::zero_spec(),
        dot_acc(cross(u, v), v, 3) == Residue::zero_spec(),
{
    let p = MODULUS as int;
    let (x0, x1, x2) = (u[0].v as int, u[1].v as int, u[2].v as int);
    let (y0, y1, y2) = (v[0].v as int, v[1].v as int, v[2].v as int);
    let z = Residue::zero_spec();
    let c = cross(u, v);
    // first entry: u1 v2 - v1 u2
    lemma_congruent_ops(u[1], v[2], x1, y2);
    lemma_congruent_ops(v[1], u[2], y1, x2);
    lemma_congruent_ops(u[1].mul_spec(v[2]), v[1].mul_spec(u[2]), x1 * y2, y1 * x2);
    let c0 = x1 * y2 - y1 * x2;
    // second entry: (0 - u0) v2 + u2 v0
    lemma_congruent_ops(z, u[0], 0, x0);
    lemma_congruent_ops(z.sub_spec(u[0]), v[2], 0 - x0, y2);
    lemma_congruent_ops(u[2], v[0], x2, y0);
    lemma_congruent_ops(z.sub_spec(u[0]).mul_spec(v[2]), u[2].mul_spec(v[0]), (0 - x0) * y2, x2 * y0);
    let c1 = (0 - x0) * y2 + x2 * y0;
    // third entry: u0 v1 - u1 v0
    lemma_congruent_ops(u[0], v[1], x0, y1);
    lemma_congruent_ops(u[1], v[0], x1, y0);
    lemma_congruent_ops(u[0].mul_spec(v[1]), u[1].mul_spec(v[0]), x0 * y1, x1 * y0);
    let c2 = x0 * y1 - x1 * y0;
    assert(c[0].v as int % p == c0 % p);
    assert(c[1].v as int % p == c1 % p);
    assert(c[2].v as int % p == c2 % p);
    reveal_with_fuel(dot_acc, 4);
    // dot(c, u)
    lemma_congruent_ops(c[0], u[0], c0, x0);
    lemma_congruent_ops(z, c[0].mul_spec(u[0]), 0, c0 * x0);
    let s1 = z.add_spec(c[0].mul_spec(u[0]));
    lemma_congruent_ops(c[1], u[1], c1, x1);
    lemma_congruent_ops(s1, c[1].mul_spec(u[1]), 0 + c0 * x0, c1 * x1);
    let s2 = s1.add_spec(c[1].mul_spec(u[1]));
    lemma_congruent_ops(c[2], u[2], c2, x2);
    lemma_congruent_ops(s2, c[2].mul_spec(u[2]), 0 + c0 * x0 + c1 * x1, c2 * x2);
    lemma_triple_product_vanishes(x0, x1, x2, y0, y1, y2);
    lemma_congruent_zero(s2.add_spec(c[2].mul_spec(u[2])));
    // dot(c, v)
    lemma_congruent_ops(c[0], v[0], c0, y0);
    lemma_congruent_ops(z, c[0].mul_spec(v[0]), 0, c0 * y0);
    let t1 = z.add_spec(c[0].mul_spec(v[0]));
    lemma_congruent_ops(c[1], v[1], c1, y1);
    lemma_congruent_ops(t1, c[1].mul_spec(v[1]), 0 + c0 * y0, c1 * y1);
    let t2 = t1.add_spec(c[1].mul_spec(v[1]));
    lemma_congruent_ops(c[2], v[2], c2, y2);
    lemma_congruent_ops(t2, c[2].mul_spec(v[2]), 0 + c0 * y0 + c1 * y1, c2 * y2);

    lemma_congruent_zero(t2.add_spec(c[2].mul_spec(v[2])));
}

} // verus!
