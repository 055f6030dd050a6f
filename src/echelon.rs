//! The shape that Gaussian elimination produces: reduced row-echelon form.
use vstd::prelude::*;

use crate::elimination::{
    add_row, clear_column, first_nonzero_below, lemma_clear_column_keeps,
    lemma_untracked_never_stops, pivot_step, reduce, scale_row, swap_rows, Reduction,
};
use crate::matrix::{all_valid, identity_entries, lemma_index, lemma_position, Matrix};
use crate::traits::Field;

verus! {

/// The `n`-row layout `e` is in reduced row-echelon form over its first `c`
/// columns, with pivot columns `pc` (one per pivot row, in increasing
/// order): column `pc[k]` is the unit column with its one in row `k`, and
/// every row from `rank` on is zero in the first `c` columns.
pub open spec fn echelon_upto<K: Field>(e: Seq<K>, n: nat, c: nat, pc: Seq<nat>, rank: nat) -> bool {
    &&& pc.len() == rank
    &&& rank <= n
    &&& forall|k1: int, k2: int| 0 <= k1 < k2 < rank ==> #[trigger] pc[k1] < #[trigger] pc[k2]
    &&& forall|k: int| 0 <= k < rank ==> #[trigger] pc[k] < c
    &&& forall|k: int, i: int|
        0 <= k < rank && 0 <= i < n ==> #[trigger] e[i + pc[k] * n] == if i == k {
            K::one_spec()
        } else {
            K::zero_spec()
        }
    &&& forall|j: int, i: int|
        0 <= j < c && rank <= i < n ==> #[trigger] e[i + j * n] == K::zero_spec()
}

/// The columns in which elimination found its pivots, over the first `c` columns.
pub open spec fn pivot_columns<K: Field>(a: Seq<K>, n: nat, track: bool, c: nat) -> Seq<nat>
    decreases c,
{
    if c == 0 {
        seq![]
    } else {
        let q = (c - 1) as nat;
        let s = reduce(a, n, track, q);
        let prev = pivot_columns(a, n, track, q);
        if !(s.stopped || s.rank >= n) && first_nonzero_below(s.entries, n, q as int, s.rank) is Some {
            prev.push(q)
        } else {
            prev
        }
    }
}

/// No pivot below row `from` means the column is zero from row `from` on.
proof fn lemma_no_pivot_zero<K: Field>(e: Seq<K>, n: nat, c: int, from: nat)
    requires
        first_nonzero_below(e, n, c, from) is None,
    ensures
        forall|i: int| from <= i < n ==> #[trigger] e[i + c * n] == K::zero_spec(),
    decreases n - from,
{
    if from < n {
        lemma_no_pivot_zero(e, n, c, from + 1);
    }
}

/// A pivot that elimination finds is an entry other than zero, at or below `from`.
proof fn lemma_pivot_nonzero<K: Field>(e: Seq<K>, n: nat, c: int, from: nat)
    ensures
        first_nonzero_below(e, n, c, from) matches Some(r) ==> from <= r < n && e[(r + c * n) as int]
            != K::zero_spec(),
    decreases n - from,
{
    if from < n {
        lemma_pivot_nonzero(e, n, c, from + 1);
    }
}

/// Exchanging two rows at or below the pivot position keeps the form.
proof fn lemma_swap_keeps<K: Field>(
    e: Seq<K>,
    n: nat,
    m: nat,
    c: nat,
    pc: Seq<nat>,
    p: nat,
    r: nat,
)
    requires
        e.len() == n * m,
        c < m,
        p <= r < n,
        all_valid(e),
        echelon_upto(e, n, c, pc, p),
    ensures
        echelon_upto(swap_rows(e, n, r as int, p as int), n, c, pc, p),
        all_valid(swap_rows(e, n, r as int, p as int)),
        swap_rows(e, n, r as int, p as int)[(p + c * n) as int] == e[(r + c * n) as int],
{
    let e1 = swap_rows(e, n, r as int, p as int);
    assert forall|k: int, i: int| 0 <= k < p && 0 <= i < n implies #[trigger] e1[i + pc[k] * n]
        == if i == k {
        K::one_spec()
    } else {
        K::zero_spec()
    } by {
        lemma_index(i, pc[k] as int, n as int, m as int);
        lemma_index(p as int, pc[k] as int, n as int, m as int);
        lemma_index(r as int, pc[k] as int, n as int, m as int);
    }
    assert forall|j: int, i: int| 0 <= j < c && p <= i < n implies #[trigger] e1[i + j * n]
        == K::zero_spec() by {
        lemma_index(i, j, n as int, m as int);
        lemma_index(p as int, j, n as int, m as int);
        lemma_index(r as int, j, n as int, m as int);
    }
    assert forall|k: int| 0 <= k < e1.len() implies (#[trigger] e1[k]).valid() by {
        lemma_position(k, n as int, m as int);
        lemma_index(p as int, k / (n as int), n as int, m as int);
        lemma_index(r as int, k / (n as int), n as int, m as int);
    }
    lemma_index(p as int, c as int, n as int, m as int);
    lemma_index(r as int, c as int, n as int, m as int);
}

/// Scaling the pivot row by the reciprocal of its pivot makes the pivot one
/// and keeps the form.
proof fn lemma_scale_keeps<K: Field>(e: Seq<K>, n: nat, m: nat, c: nat, pc: Seq<nat>, p: nat)
    requires
        e.len() == n * m,
        c < m,
        p < n,
        all_valid(e),
        echelon_upto(e, n, c, pc, p),
        e[(p + c * n) as int] != K::zero_spec(),
    ensures
        echelon_upto(
            scale_row(e, n, p as int, K::one_spec().div_spec(e[(p + c * n) as int])),
            n,
            c,
            pc,
            p,
        ),
        all_valid(scale_row(e, n, p as int, K::one_spec().div_spec(e[(p + c * n) as int]))),
        scale_row(e, n, p as int, K::one_spec().div_spec(e[(p + c * n) as int]))[(p + c * n) as int]
            == K::one_spec(),
{
    let x = e[(p + c * n) as int];
    let sc = K::one_spec().div_spec(x);
    let e2 = scale_row(e, n, p as int, sc);
    K::lemma_mul_zero(sc);
    assert forall|k: int, i: int| 0 <= k < p && 0 <= i < n implies #[trigger] e2[i + pc[k] * n]
        == if i == k {
        K::one_spec()
    } else {
        K::zero_spec()
    } by {
        lemma_index(i, pc[k] as int, n as int, m as int);
    }
    assert forall|j: int, i: int| 0 <= j < c && p <= i < n implies #[trigger] e2[i + j * n]
        == K::zero_spec() by {
        lemma_index(i, j, n as int, m as int);
    }
    assert forall|k: int| 0 <= k < e2.len() implies (#[trigger] e2[k]).valid() by {
        K::lemma_results_valid(sc, e[k]);
    }
    lemma_index(p as int, c as int, n as int, m as int);
    assert(x.valid());
    K::lemma_mul_inverse(x);
    K::lemma_mul_commutative(sc, x);
}

/// The state while clearing column `c` around pivot row `p`.
spec fn clearing<K: Field>(e: Seq<K>, n: nat, c: nat, pc: Seq<nat>, p: nat, upto: nat) -> bool {
    &&& echelon_upto(e, n, c, pc, p)
    &&& e[(p + c * n) as int] == K::one_spec()
    &&& forall|i: int| 0 <= i < upto && i != p ==> #[trigger] e[i + c * n] == K::zero_spec()
}

/// Clearing the pivot column keeps the form and zeroes the column but for the pivot.
proof fn lemma_clear_keeps<K: Field>(
    s: Reduction<K>,
    n: nat,
    m: nat,
    c: nat,
    pc: Seq<nat>,
    p: nat,
    track: bool,
    upto: nat,
)
    requires
        s.entries.len() == n * m,
        c < m,
        p < n,
        upto <= n,
        all_valid(s.entries),
        clearing(s.entries, n, c, pc, p, 0),
    ensures
        clear_column(s, n, c as int, p as int, track, upto).entries.len() == n * m,
        all_valid(clear_column(s, n, c as int, p as int, track, upto).entries),
        clearing(clear_column(s, n, c as int, p as int, track, upto).entries, n, c, pc, p, upto),
    decreases upto,
{
    if upto > 0 {
        lemma_clear_keeps(s, n, m, c, pc, p, track, (upto - 1) as nat);
        let t = clear_column(s, n, c as int, p as int, track, (upto - 1) as nat);
        let row = upto - 1;
        if row != p {
            let e = t.entries;
            lemma_index(row, c as int, n as int, m as int);
            lemma_index(p as int, c as int, n as int, m as int);
            let y = e[row + c * n];
            let f = K::zero_spec().sub_spec(y);
            let e3 = add_row(e, n, row, p as int, f);
            K::lemma_mul_zero(f);
            K::lemma_results_valid(K::zero_spec(), y);
            K::lemma_mul_one(f);
            K::lemma_add_inverse(y);
            assert forall|k: int, i: int| 0 <= k < p && 0 <= i < n implies #[trigger] e3[i + pc[k]
                * n] == if i == k {
                K::one_spec()
            } else {
                K::zero_spec()
            } by {
                lemma_index(i, pc[k] as int, n as int, m as int);
                lemma_index(p as int, pc[k] as int, n as int, m as int);
                K::lemma_add_zero(e[i + pc[k] * n]);
                K::lemma_results_valid(K::zero_spec(), K::zero_spec());
            }
            assert forall|j: int, i: int| 0 <= j < c && p <= i < n implies #[trigger] e3[i + j * n]
                == K::zero_spec() by {
                lemma_index(i, j, n as int, m as int);
                lemma_index(p as int, j, n as int, m as int);
                K::lemma_results_valid(K::zero_spec(), K::zero_spec());
                K::lemma_add_zero(K::zero_spec());
            }
            assert forall|i: int| 0 <= i < upto && i != p implies #[trigger] e3[i + c * n]
                == K::zero_spec() by {
                lemma_index(i, c as int, n as int, m as int);
            }
            assert forall|k: int| 0 <= k < e3.len() implies (#[trigger] e3[k]).valid() by {
                lemma_position(k, n as int, m as int);
                K::lemma_results_valid(e[k], f.mul_spec(e[p + (k / (n as int)) * n]));
            }
        }
    }
}

/// A pivot step turns column `c` into the unit column of the new pivot row
/// and keeps the form of the earlier columns.
proof fn lemma_pivot_step_keeps<K: Field>(
    s: Reduction<K>,
    n: nat,
    m: nat,
    c: nat,
    pc: Seq<nat>,
    r: nat,
    track: bool,
)
    requires
        s.entries.len() == n * m,
        c < m,
        s.rank < n,
        all_valid(s.entries),
        echelon_upto(s.entries, n, c, pc, s.rank),
        first_nonzero_below(s.entries, n, c as int, s.rank) == Some(r),
    ensures
        pivot_step(s, n, c as int, r, track).entries.len() == n * m,
        all_valid(pivot_step(s, n, c as int, r, track).entries),
        pivot_step(s, n, c as int, r, track).rank == s.rank + 1,
        echelon_upto(pivot_step(s, n, c as int, r, track).entries, n, c + 1, pc.push(c), s.rank + 1),
{
    let p = s.rank;
    lemma_pivot_nonzero(s.entries, n, c as int, p);
    if r != p {
        lemma_swap_keeps(s.entries, n, m, c, pc, p, r);
    }
    let s1 = if r != p as int {
        Reduction {
            entries: swap_rows(s.entries, n, r as int, p as int),
            det: s.det.mul_spec(K::zero_spec().sub_spec(K::one_spec())),
            inverse: if track {
                swap_rows(s.inverse, n, r as int, p as int)
            } else {
                s.inverse
            },
            ..s
        }
    } else {
        s
    };
    assert(s1.entries[(p + c * n) as int] != K::zero_spec());
    lemma_scale_keeps(s1.entries, n, m, c, pc, p);
    let scaling = K::one_spec().div_spec(s1.entries[(p + c * n) as int]);
    let s2 = Reduction {
        entries: scale_row(s1.entries, n, p as int, scaling),
        det: s1.det.mul_spec(K::one_spec().div_spec(scaling)),
        inverse: if track {
            scale_row(s1.inverse, n, p as int, scaling)
        } else {
            s1.inverse
        },
        ..s1
    };
    lemma_clear_keeps(s2, n, m, c, pc, p, track, n);
    lemma_clear_column_keeps(s2, n, c as int, p as int, track, n);
    let e = clear_column(s2, n, c as int, p as int, track, n).entries;
    let pc2 = pc.push(c);
    assert forall|k1: int, k2: int| 0 <= k1 < k2 < p + 1 implies #[trigger] pc2[k1]
        < #[trigger] pc2[k2] by {
        if k2 < p {
            assert(pc[k1] < pc[k2]);
        } else {
            assert(pc[k1] < c);
        }
    }
    assert forall|k: int, i: int| 0 <= k < p + 1 && 0 <= i < n implies #[trigger] e[i + pc2[k]
        * n] == if i == k {
        K::one_spec()
    } else {
        K::zero_spec()
    } by {
        if k < p {
            assert(e[i + pc[k] * n] == if i == k {
                K::one_spec()
            } else {
                K::zero_spec()
            });
        }
    }
    assert forall|j: int, i: int| 0 <= j < c + 1 && p + 1 <= i < n implies #[trigger] e[i + j
        * n] == K::zero_spec() by {
        if j < c {
            assert(e[i + j * n] == K::zero_spec());
        }
    }
}

/// While elimination has not given up, its entries are in reduced
/// row-echelon form over the columns worked, with `pivot_columns` as pivots.
proof fn lemma_reduce_echelon<K: Field>(a: Seq<K>, n: nat, m: nat, track: bool, c: nat)
    requires
        a.len() == n * m,
        all_valid(a),
        c <= m,
        !reduce(a, n, track, c).stopped,
    ensures
        reduce(a, n, track, c).entries.len() == n * m,
        all_valid(reduce(a, n, track, c).entries),
        echelon_upto(
            reduce(a, n, track, c).entries,
            n,
            c,
            pivot_columns(a, n, track, c),
            reduce(a, n, track, c).rank,
        ),
    decreases c,
{
    if c > 0 {
        let q = (c - 1) as nat;
        let s = reduce(a, n, track, q);
        assert(!s.stopped);
        lemma_reduce_echelon(a, n, m, track, q);
        let pc = pivot_columns(a, n, track, q);
        if s.rank < n {
            match first_nonzero_below(s.entries, n, q as int, s.rank) {
                None => {
                    lemma_no_pivot_zero(s.entries, n, q as int, s.rank);
                    let e = s.entries;
                    assert forall|j: int, i: int| 0 <= j < c && s.rank <= i < n implies #[trigger] e[i
                        + j * n] == K::zero_spec() by {
                        if j < q {
                            assert(e[i + j * n] == K::zero_spec());
                        }
                    }
                },
                Some(r) => {
                    lemma_pivot_step_keeps(s, n, m, q, pc, r, track);
                },
            }
        }
    }
}

/// Strictly increasing indices below `n`, `n` of them, are `0, 1, ..., n - 1`:
/// the lower bound.
proof fn lemma_increasing_at_least<K: Field>(pc: Seq<nat>, k: int)
    requires
        0 <= k < pc.len(),
        forall|k1: int, k2: int| 0 <= k1 < k2 < pc.len() ==> #[trigger] pc[k1] < #[trigger] pc[k2],
    ensures
        pc[k] >= k,
    decreases k,
{
    if k > 0 {
        lemma_increasing_at_least::<K>(pc, k - 1);
        assert(pc[k - 1] < pc[k]);
    }
}

/// The upper bound, when every index is below the length.
proof fn lemma_increasing_at_most<K: Field>(pc: Seq<nat>, k: int)
    requires
        0 <= k < pc.len(),
        forall|k1: int, k2: int| 0 <= k1 < k2 < pc.len() ==> #[trigger] pc[k1] < #[trigger] pc[k2],
        forall|j: int| 0 <= j < pc.len() ==> #[trigger] pc[j] < pc.len(),
    ensures
        pc[k] <= k,
    decreases pc.len() - k,
{
    if k + 1 < pc.len() {
        lemma_increasing_at_most::<K>(pc, k + 1);
        assert(pc[k] < pc[k + 1]);
    } else {
        assert(pc[k] < pc.len());
    }
}

/// Elimination of a square matrix, when it finds `n` pivots, reduces it to the identity.
proof fn lemma_full_rank_identity<K: Field>(a: Seq<K>, n: nat, track: bool)
    requires
        a.len() == n * n,
        all_valid(a),
        !reduce(a, n, track, n).stopped,
        reduce(a, n, track, n).rank == n,
    ensures
        reduce(a, n, track, n).entries == identity_entries::<K>(n),
{
    lemma_reduce_echelon(a, n, n, track, n);
    let pc = pivot_columns(a, n, track, n);
    let e = reduce(a, n, track, n).entries;
    assert forall|k: int| 0 <= k < n implies #[trigger] pc[k] == k by {
        lemma_increasing_at_least::<K>(pc, k);
        lemma_increasing_at_most::<K>(pc, k);
    }
    assert forall|k: int| 0 <= k < n * n implies #[trigger] e[k] == identity_entries::<K>(n)[k] by {
        lemma_position(k, n as int, n as int);
        let i = k % (n as int);
        let j = k / (n as int);
        assert(pc[j] == j);
        assert(e[i + pc[j] * n] == if i == j {
            K::one_spec()
        } else {
            K::zero_spec()
        });
    }
    assert(e =~= identity_entries::<K>(n));
}

/// `row_echelon` is in reduced row-echelon form: each pivot is one and alone
/// in its column, the pivot columns increase with the pivot rows, and every
/// row from the rank on is zero.
pub proof fn lemma_row_echelon_form<K: Field>(a: Matrix<K>)
    requires
        a.wf(),
        all_valid(a@),
    ensures
        echelon_upto(
            reduce(a@, a.rows(), false, a.cols()).entries,
            a.rows(),
            a.cols(),
            pivot_columns(a@, a.rows(), false, a.cols()),
            reduce(a@, a.rows(), false, a.cols()).rank,
        ),
{
    lemma_untracked_never_stops(a@, a.rows(), a.cols());
    lemma_reduce_echelon(a@, a.rows(), a.cols(), false, a.cols());
}

/// A square matrix of full rank reduces to the identity.
pub proof fn lemma_full_rank_reduces_to_identity<K: Field>(a: Matrix<K>)
    requires
        a.wf(),
        all_valid(a@),
        a.rows() == a.cols(),
        reduce(a@, a.rows(), false, a.cols()).rank == a.rows(),
    ensures
        reduce(a@, a.rows(), false, a.cols()).entries == identity_entries::<K>(a.rows()),
{
    lemma_untracked_never_stops(a@, a.rows(), a.cols());
    lemma_full_rank_identity(a@, a.rows(), false);
}

} // verus!
