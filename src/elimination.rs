use vstd::prelude::*;

use crate::errors::{nonconforming, LinAlgError};
use crate::matrix::{all_valid, identity_entries, lemma_index, lemma_position, Matrix};
use crate::traits::Field;

verus! {

/// Row `row` of a column-major layout with `n` rows, multiplied from the left by `c`.
pub open spec fn scale_row<K: Field>(e: Seq<K>, n: nat, row: int, c: K) -> Seq<K> {
    Seq::new(
        e.len(),
        |k: int|
            if k % (n as int) == row {
                c.mul_spec(e[k])
            } else {
                e[k]
            },
    )
}

/// Rows `r1` and `r2` of a column-major layout with `n` rows, exchanged.
pub open spec fn swap_rows<K: Field>(e: Seq<K>, n: nat, r1: int, r2: int) -> Seq<K> {
    Seq::new(
        e.len(),
        |k: int|
            if k % (n as int) == r1 {
                e[r2 + (k / (n as int)) * n]
            } else if k % (n as int) == r2 {
                e[r1 + (k / (n as int)) * n]
            } else {
                e[k]
            },
    )
}

/// Row `dest` of a column-major layout with `n` rows, plus `f` times row `org`.
pub open spec fn add_row<K: Field>(e: Seq<K>, n: nat, dest: int, org: int, f: K) -> Seq<K> {
    Seq::new(
        e.len(),
        |k: int|
            if k % (n as int) == dest {
                e[k].add_spec(f.mul_spec(e[org + (k / (n as int)) * n]))
            } else {
                e[k]
            },
    )
}

/// Where Gaussian elimination stands after some columns: the reduced
/// entries, the running determinant, the number of pivots found, the
/// accumulated inverse, and whether it gave up (only when an inverse is
/// tracked and a column has no pivot).
pub struct Reduction<K> {
    pub entries: Seq<K>,
    pub det: K,
    pub rank: nat,
    pub inverse: Seq<K>,
    pub stopped: bool,
}

/// The first row `r` with `from <= r < n` whose entry in column `c` is not
/// the additive identity.
pub open spec fn first_nonzero_below<K: Field>(e: Seq<K>, n: nat, c: int, from: nat) -> Option<nat>
    decreases n - from,
{
    if from >= n {
        None
    } else if e[from + c * n] != K::zero_spec() {
        Some(from)
    } else {
        first_nonzero_below(e, n, c, from + 1)
    }
}

/// Clears column `c` in rows `0..upto`, but for the pivot row `p`: each
/// such row gets `-(its entry in column c)` times row `p` added, the
/// determinant is multiplied by the identity, and the same row operation is
/// applied to the inverse when it is tracked.
pub open spec fn clear_column<K: Field>(
    s: Reduction<K>,
    n: nat,
    c: int,
    p: int,
    track: bool,
    upto: nat,
) -> Reduction<K>
    decreases upto,
{
    if upto == 0 {
        s
    } else {
        let t = clear_column(s, n, c, p, track, (upto - 1) as nat);
        let row = upto - 1;
        if row == p {
            t
        } else {
            let f = K::zero_spec().sub_spec(t.entries[row + c * n]);
            Reduction {
                entries: add_row(t.entries, n, row, p, f),
                det: t.det.mul_spec(K::one_spec()),
                inverse: if track {
                    add_row(t.inverse, n, row, p, f)
                } else {
                    t.inverse
                },
                ..t
            }
        }
    }
}

/// One column of the elimination, with the pivot found in row `r`: bring
/// row `r` up to the pivot position (a swap negates the determinant), scale
/// the pivot to the identity (the determinant is multiplied by the
/// reciprocal of the scaling), clear the rest of the column, and count the pivot.
pub open spec fn pivot_step<K: Field>(s: Reduction<K>, n: nat, c: int, r: nat, track: bool) -> Reduction<K> {
    let p = s.rank as int;
    let s1 = if r != p {
        Reduction {
            entries: swap_rows(s.entries, n, r as int, p),
            det: s.det.mul_spec(K::zero_spec().sub_spec(K::one_spec())),
            inverse: if track {
                swap_rows(s.inverse, n, r as int, p)
            } else {
                s.inverse
            },
            ..s
        }
    } else {
        s
    };
    let scaling = K::one_spec().div_spec(s1.entries[p + c * n]);
    let s2 = Reduction {
        entries: scale_row(s1.entries, n, p, scaling),
        det: s1.det.mul_spec(K::one_spec().div_spec(scaling)),
        inverse: if track {
            scale_row(s1.inverse, n, p, scaling)
        } else {
            s1.inverse
        },
        ..s1
    };
    let s3 = clear_column(s2, n, c, p, track, n);
    Reduction { rank: s.rank + 1, ..s3 }
}

/// The elimination's work on column `c`.
pub open spec fn column_step<K: Field>(s: Reduction<K>, n: nat, c: int, track: bool) -> Reduction<K> {
    if s.stopped || s.rank >= n {
        s
    } else {
        match first_nonzero_below(s.entries, n, c, s.rank) {
            None => Reduction { det: K::zero_spec(), stopped: track, ..s },
            Some(r) => pivot_step(s, n, c, r, track),
        }
    }
}

/// Gaussian elimination of the `n`-row layout `a`, over its first `cols` columns.
pub open spec fn reduce<K: Field>(a: Seq<K>, n: nat, track: bool, cols: nat) -> Reduction<K>
    decreases cols,
{
    if cols == 0 {
        Reduction {
            entries: a,
            det: K::one_spec(),
            rank: 0,
            inverse: if track {
                identity_entries(n)
            } else {
                identity_entries(1)
            },
            stopped: false,
        }
    } else {
        column_step(reduce(a, n, track, (cols - 1) as nat), n, (cols - 1) as int, track)
    }
}

} // verus!

verus! {

/// Each column adds at most one pivot.
pub proof fn lemma_rank_step<K: Field>(a: Seq<K>, n: nat, track: bool, c: nat)
    ensures
        reduce(a, n, track, c).rank <= reduce(a, n, track, c + 1).rank <= reduce(
            a,
            n,
            track,
            c,
        ).rank + 1,
{
    let s = reduce(a, n, track, c);
    if !(s.stopped || s.rank >= n) {
        match first_nonzero_below(s.entries, n, c as int, s.rank) {
            None => {},
            Some(r) => {
                assert(pivot_step(s, n, c as int, r, track).rank == s.rank + 1);
            },
        }
    }
}

/// There are never more pivots than columns worked.
pub proof fn lemma_rank_at_most_columns<K: Field>(a: Seq<K>, n: nat, track: bool, c: nat)
    ensures
        reduce(a, n, track, c).rank <= c,
    decreases c,
{
    if c > 0 {
        lemma_rank_at_most_columns(a, n, track, (c - 1) as nat);
        lemma_rank_step(a, n, track, (c - 1) as nat);
    }
}

/// Elimination never finds more pivots than rows or columns.
pub proof fn lemma_rank_bounded<K: Field>(a: Seq<K>, n: nat, track: bool, c: nat)
    ensures
        reduce(a, n, track, c).rank <= n,
        reduce(a, n, track, c).rank <= c,
    decreases c,
{
    lemma_rank_at_most_columns(a, n, track, c);
    if c > 0 {
        lemma_rank_bounded(a, n, track, (c - 1) as nat);
    }
}

/// Clearing a column keeps the pivot count and the stop flag.
pub proof fn lemma_clear_column_keeps<K: Field>(
    s: Reduction<K>,
    n: nat,
    c: int,
    p: int,
    track: bool,
    upto: nat,
)
    ensures
        clear_column(s, n, c, p, track, upto).rank == s.rank,
        clear_column(s, n, c, p, track, upto).stopped == s.stopped,
    decreases upto,
{
    if upto > 0 {
        lemma_clear_column_keeps(s, n, c, p, track, (upto - 1) as nat);
    }
}

/// Elimination without the inverse never gives up.
pub proof fn lemma_untracked_never_stops<K: Field>(a: Seq<K>, n: nat, c: nat)
    ensures
        !reduce(a, n, false, c).stopped,
    decreases c,
{
    if c > 0 {
        let q = (c - 1) as nat;
        lemma_untracked_never_stops(a, n, q);
        let s = reduce(a, n, false, q);
        if !(s.stopped || s.rank >= n) {
            match first_nonzero_below(s.entries, n, q as int, s.rank) {
                None => {},
                Some(r) => {
                    let p = s.rank as int;
                    let s1 = if r != p {
                        Reduction {
                            entries: swap_rows(s.entries, n, r as int, p),
                            det: s.det.mul_spec(K::zero_spec().sub_spec(K::one_spec())),
                            ..s
                        }
                    } else {
                        s
                    };
                    let scaling = K::one_spec().div_spec(s1.entries[p + q * n]);
                    let s2 = Reduction {
                        entries: scale_row(s1.entries, n, p, scaling),
                        det: s1.det.mul_spec(K::one_spec().div_spec(scaling)),
                        ..s1
                    };
                    lemma_clear_column_keeps(s2, n, q as int, p, false, n);
                },
            }
        }
    }
}

/// Clearing a column keeps a zero determinant zero.
proof fn lemma_clear_column_zero_det<K: Field>(
    s: Reduction<K>,
    n: nat,
    c: int,
    p: int,
    track: bool,
    upto: nat,
)
    requires
        s.det == K::zero_spec(),
    ensures
        clear_column(s, n, c, p, track, upto).det == K::zero_spec(),
    decreases upto,
{
    if upto > 0 {
        lemma_clear_column_zero_det(s, n, c, p, track, (upto - 1) as nat);
        K::lemma_mul_zero(K::one_spec());
    }
}

/// Over the first `c` columns, either every column gave a pivot or the
/// determinant is zero.
proof fn lemma_det_zero_or_full<K: Field>(a: Seq<K>, n: nat, c: nat)
    requires
        c <= n,
    ensures
        reduce(a, n, false, c).rank == c || reduce(a, n, false, c).det == K::zero_spec(),
    decreases c,
{
    if c > 0 {
        let q = (c - 1) as nat;
        lemma_det_zero_or_full(a, n, q);
        lemma_rank_bounded(a, n, false, q);
        lemma_untracked_never_stops(a, n, q);
        let s = reduce(a, n, false, q);
        if !(s.stopped || s.rank >= n) {
            match first_nonzero_below(s.entries, n, q as int, s.rank) {
                None => {},
                Some(r) => {
                    if s.rank != q {
                        let p = s.rank as int;
                        K::lemma_mul_zero(K::zero_spec().sub_spec(K::one_spec()));
                        let s1 = if r != p {
                            Reduction {
                                entries: swap_rows(s.entries, n, r as int, p),
                                det: s.det.mul_spec(K::zero_spec().sub_spec(K::one_spec())),
                                ..s
                            }
                        } else {
                            s
                        };
                        let scaling = K::one_spec().div_spec(s1.entries[p + q * n]);
                        K::lemma_mul_zero(K::one_spec().div_spec(scaling));
                        let s2 = Reduction {
                            entries: scale_row(s1.entries, n, p, scaling),
                            det: s1.det.mul_spec(K::one_spec().div_spec(scaling)),
                            ..s1
                        };
                        lemma_clear_column_zero_det(s2, n, q as int, p, false, n);
                    } else {
                        let p = s.rank as int;
                        let s1 = if r != p {
                            Reduction {
                                entries: swap_rows(s.entries, n, r as int, p),
                                det: s.det.mul_spec(K::zero_spec().sub_spec(K::one_spec())),
                                ..s
                            }
                        } else {
                            s
                        };
                        let scaling = K::one_spec().div_spec(s1.entries[p + q * n]);
                        let s2 = Reduction {
                            entries: scale_row(s1.entries, n, p, scaling),
                            det: s1.det.mul_spec(K::one_spec().div_spec(scaling)),
                            ..s1
                        };
                        lemma_clear_column_keeps(s2, n, q as int, p, false, n);
                    }
                },
            }
        }
    }
}

/// A square matrix with fewer than `n` pivots has determinant zero.
pub proof fn lemma_rank_deficient_det_zero<K: Field>(a: Seq<K>, n: nat)
    ensures
        reduce(a, n, false, n).rank < n ==> reduce(a, n, false, n).det == K::zero_spec(),
{
    lemma_det_zero_or_full(a, n, n);
}

impl<K: Field> Matrix<K> {
    /// Multiplies row `row` (from 0) by `cnt`; returns the reciprocal of `cnt`,
    /// the factor by which the determinant changes.
    fn row_scaling(&mut self, row: usize, cnt: K) -> (r: K)
        requires
            old(self).wf(),
            row < old(self).rows(),
        ensures
            final(self).wf(),
            final(self).rows() == old(self).rows(),
            final(self).cols() == old(self).cols(),
            final(self)@ == scale_row(old(self)@, old(self).rows(), row as int, cnt),
            r == K::one_spec().div_spec(cnt),
    {
        let (n, m) = self.size();
        let ghost orig = self@;
        let ghost len = orig.len();
        proof {
            self.lemma_len_bound();
        }
        let mut t: usize = 0;
        while t < m
            invariant
                self.wf(),
                self.rows() == n,
                self.cols() == m,
                row < n,
                len == n * m,
                len <= usize::MAX,
                orig.len() == len,
                t <= m,
                self@ == Seq::new(
                    len,
                    |k: int|
                        if k / (n as int) < t && k % (n as int) == row {
                            cnt.mul_spec(orig[k])
                        } else {
                            orig[k]
                        },
                ),
            decreases m - t,
        {
            proof {
                lemma_index(row as int, t as int, n as int, m as int);
            }
            let idx = row + t * n;
            let x = self.get_flat(idx);
            self.set_flat(idx, cnt.times(&x));
            proof {
                assert forall|k: int| 0 <= k < len implies #[trigger] self@[k] == (if k / (n as int)
                    < t + 1 && k % (n as int) == row {
                    cnt.mul_spec(orig[k])
                } else {
                    orig[k]
                }) by {
                    lemma_position(k, n as int, m as int);
                }
            }
            t = t + 1;
            assert(self@ =~= Seq::new(
                len,
                |k: int|
                    if k / (n as int) < t && k % (n as int) == row {
                        cnt.mul_spec(orig[k])
                    } else {
                        orig[k]
                    },
            ));
        }
        proof {
            assert forall|k: int| 0 <= k < len implies #[trigger] self@[k] == scale_row(
                orig,
                n as nat,
                row as int,
                cnt,
            )[k] by {
                lemma_position(k, n as int, m as int);
            }
            assert(self@ =~= scale_row(orig, n as nat, row as int, cnt));
        }
        K::one().divide(&cnt)
    }

    /// Exchanges rows `row1` and `row2` (from 0); returns `0 - 1`, the factor
    /// by which the determinant changes.
    fn row_swapping(&mut self, row1: usize, row2: usize) -> (r: K)
        requires
            old(self).wf(),
            row1 < old(self).rows(),
            row2 < old(self).rows(),
        ensures
            final(self).wf(),
            final(self).rows() == old(self).rows(),
            final(self).cols() == old(self).cols(),
            final(self)@ == swap_rows(old(self)@, old(self).rows(), row1 as int, row2 as int),
            r == K::zero_spec().sub_spec(K::one_spec()),
    {
        let (n, m) = self.size();
        let ghost orig = self@;
        let ghost len = orig.len();
        proof {
            self.lemma_len_bound();
        }
        let ghost target = swap_rows(orig, n as nat, row1 as int, row2 as int);
        let mut t: usize = 0;
        while t < m
            invariant
                self.wf(),
                self.rows() == n,
                self.cols() == m,
                row1 < n,
                row2 < n,
                len == n * m,
                len <= usize::MAX,
                orig.len() == len,
                target == swap_rows(orig, n as nat, row1 as int, row2 as int),
                t <= m,
                self@ == Seq::new(
                    len,
                    |k: int|
                        if k / (n as int) < t {
                            target[k]
                        } else {
                            orig[k]
                        },
                ),
            decreases m - t,
        {
            proof {
                lemma_index(row1 as int, t as int, n as int, m as int);
                lemma_index(row2 as int, t as int, n as int, m as int);
            }
            let i1 = row1 + t * n;
            let i2 = row2 + t * n;
            let a = self.get_flat(i1);
            let b = self.get_flat(i2);
            self.set_flat(i1, b);
            self.set_flat(i2, a);
            proof {
                assert forall|k: int| 0 <= k < len implies #[trigger] self@[k] == (if k / (n as int)
                    < t + 1 {
                    target[k]
                } else {
                    orig[k]
                }) by {
                    lemma_position(k, n as int, m as int);
                }
            }
            t = t + 1;
            assert(self@ =~= Seq::new(
                len,
                |k: int|
                    if k / (n as int) < t {
                        target[k]
                    } else {
                        orig[k]
                    },
            ));
        }
        proof {
            assert forall|k: int| 0 <= k < len implies #[trigger] self@[k] == target[k] by {
                lemma_position(k, n as int, m as int);
            }
            assert(self@ =~= target);
        }
        K::zero().minus(&K::one())
    }

    /// Adds `factor` times row `org` to row `dest` (both from 0, distinct);
    /// returns the identity, the factor by which the determinant changes.
    fn row_static_add(&mut self, dest: usize, org: usize, factor: K) -> (r: K)
        requires
            old(self).wf(),
            dest < old(self).rows(),
            org < old(self).rows(),
            dest != org,
        ensures
            final(self).wf(),
            final(self).rows() == old(self).rows(),
            final(self).cols() == old(self).cols(),
            final(self)@ == add_row(old(self)@, old(self).rows(), dest as int, org as int, factor),
            r == K::one_spec(),
    {
        let (n, m) = self.size();
        let ghost orig = self@;
        let ghost len = orig.len();
        proof {
            self.lemma_len_bound();
        }
        let ghost target = add_row(orig, n as nat, dest as int, org as int, factor);
        let mut t: usize = 0;
        while t < m
            invariant
                self.wf(),
                self.rows() == n,
                self.cols() == m,
                dest < n,
                org < n,
                dest != org,
                len == n * m,
                len <= usize::MAX,
                orig.len() == len,
                target == add_row(orig, n as nat, dest as int, org as int, factor),
                t <= m,
                self@ == Seq::new(
                    len,
                    |k: int|
                        if k / (n as int) < t {
                            target[k]
                        } else {
                            orig[k]
                        },
                ),
            decreases m - t,
        {
            proof {
                lemma_index(dest as int, t as int, n as int, m as int);
                lemma_index(org as int, t as int, n as int, m as int);
            }
            let id = dest + t * n;
            let io = org + t * n;
            let d = self.get_flat(id);
            let o = self.get_flat(io);
            self.set_flat(id, d.plus(&factor.times(&o)));
            proof {
                assert forall|k: int| 0 <= k < len implies #[trigger] self@[k] == (if k / (n as int)
                    < t + 1 {
                    target[k]
                } else {
                    orig[k]
                }) by {
                    lemma_position(k, n as int, m as int);
                }
            }
            t = t + 1;
            assert(self@ =~= Seq::new(
                len,
                |k: int|
                    if k / (n as int) < t {
                        target[k]
                    } else {
                        orig[k]
                    },
            ));
        }
        proof {
            assert forall|k: int| 0 <= k < len implies #[trigger] self@[k] == target[k] by {
                lemma_position(k, n as int, m as int);
            }
            assert(self@ =~= target);
        }
        K::one()
    }

    /// Works column `col` with its pivot in row `r`: swaps it up to row
    /// `pivot_row`, scales it to the identity and clears the rest of the
    /// column, mirroring each row operation on `inv_m` when `track` holds.
    /// Returns the updated determinant.
    fn pivot_column(
        &mut self,
        inv_m: &mut Matrix<K>,
        track: bool,
        col: usize,
        pivot_row: usize,
        r: usize,
        det: K,
    ) -> (d: K)
        requires
            old(self).wf(),
            old(inv_m).wf(),
            col < old(self).cols(),
            pivot_row <= r < old(self).rows(),
            track ==> old(inv_m).rows() == old(self).rows(),
        ensures
            final(self).wf(),
            final(self).rows() == old(self).rows(),
            final(self).cols() == old(self).cols(),
            final(inv_m).wf(),
            final(inv_m).rows() == old(inv_m).rows(),
            final(inv_m).cols() == old(inv_m).cols(),
            ({
                let s = Reduction {
                    entries: old(self)@,
                    det,
                    rank: pivot_row as nat,
                    inverse: old(inv_m)@,
                    stopped: false,
                };
                let t = pivot_step(s, old(self).rows(), col as int, r as nat, track);
                &&& final(self)@ == t.entries
                &&& d == t.det
                &&& final(inv_m)@ == t.inverse
                &&& t.rank == pivot_row + 1
                &&& !t.stopped
            }),
    {
        let (n, m) = self.size();
        let ghost s = Reduction {
            entries: self@,
            det,
            rank: pivot_row as nat,
            inverse: inv_m@,
            stopped: false,
        };
        let mut det = det;
        if r != pivot_row {
            if track {
                inv_m.row_swapping(r, pivot_row);
            }
            let f = self.row_swapping(r, pivot_row);
            det = det.times(&f);
        }
        let ghost s1 = if r != pivot_row {
            Reduction {
                entries: swap_rows(s.entries, n as nat, r as int, pivot_row as int),
                det: s.det.mul_spec(K::zero_spec().sub_spec(K::one_spec())),
                inverse: if track {
                    swap_rows(s.inverse, n as nat, r as int, pivot_row as int)
                } else {
                    s.inverse
                },
                ..s
            }
        } else {
            s
        };
        assert(self@ == s1.entries && det == s1.det && inv_m@ == s1.inverse);
        proof {
            lemma_index(pivot_row as int, col as int, n as int, m as int);
        }
        let piv = self.get_flat(pivot_row + col * n);
        let scaling = K::one().divide(&piv);
        if track {
            inv_m.row_scaling(pivot_row, scaling);
        }
        let f = self.row_scaling(pivot_row, scaling);
        det = det.times(&f);
        let ghost s2 = Reduction {
            entries: scale_row(s1.entries, n as nat, pivot_row as int, scaling),
            det: s1.det.mul_spec(K::one_spec().div_spec(scaling)),
            inverse: if track {
                scale_row(s1.inverse, n as nat, pivot_row as int, scaling)
            } else {
                s1.inverse
            },
            ..s1
        };
        assert(self@ == s2.entries && det == s2.det && inv_m@ == s2.inverse);
        let mut row: usize = 0;
        while row < n
            invariant
                self.wf(),
                self.rows() == n,
                self.cols() == m,
                inv_m.wf(),
                track ==> inv_m.rows() == n,
                inv_m.rows() == old(inv_m).rows(),
                inv_m.cols() == old(inv_m).cols(),
                col < m,
                pivot_row < n,
                row <= n,
                ({
                    let t = clear_column(s2, n as nat, col as int, pivot_row as int, track, row as nat);
                    &&& self@ == t.entries
                    &&& det == t.det
                    &&& inv_m@ == t.inverse
                    &&& t.rank == pivot_row
                    &&& !t.stopped
                }),
            decreases n - row,
        {
            if row != pivot_row {
                proof {
                    lemma_index(row as int, col as int, n as int, m as int);
                }
                let e = self.get_flat(row + col * n);
                let factor = K::zero().minus(&e);
                if track {
                    inv_m.row_static_add(row, pivot_row, factor);
                }
                let f = self.row_static_add(row, pivot_row, factor);
                det = det.times(&f);
            }
            row = row + 1;
        }
        det
    }

    /// Gaussian elimination of `self` in place: column by column, the first
    /// row at or below the next pivot position with an entry other than the
    /// additive identity becomes the pivot. Returns the determinant, the
    /// number of pivots and, when `inv` holds, the accumulated inverse (else
    /// the `1 x 1` identity).
    fn gauss_red_det_rank(&mut self, inv: bool) -> (r: Result<(K, usize, Matrix<K>), LinAlgError>)
        requires
            old(self).wf(),
            inv ==> old(self).rows() == old(self).cols(),
        ensures
            r is Ok <==> !(inv && old(self).rows() == 0),
            r matches Err(e) ==> e is EmptyArgs,
            final(self).wf(),
            final(self).rows() == old(self).rows(),
            final(self).cols() == old(self).cols(),
            r is Err ==> final(self)@ == old(self)@,
            r matches Ok(res) ==> ({
                let t = reduce(old(self)@, old(self).rows(), inv, old(self).cols());
                &&& final(self)@ == t.entries
                &&& res.0 == t.det
                &&& res.1 == t.rank
                &&& res.1 <= old(self).rows()
                &&& res.1 <= old(self).cols()
                &&& res.2@ == t.inverse
                &&& res.2.wf()
                &&& res.2.rows() == (if inv { old(self).rows() } else { 1 })
                &&& res.2.cols() == res.2.rows()
            }),
    {
        let (n, m) = self.size();
        let ghost a = self@;
        let dim: usize = if inv {
            n
        } else {
            1
        };
        proof {
            self.lemma_len_bound();
        }
        let mut inv_m = match Matrix::<K>::identity(dim) {
            Ok(x) => x,
            Err(e) => {
                return Err(e);
            },
        };
        let mut det = K::one();
        let mut pivot_row: usize = 0;
        let mut stopped = false;
        let mut col: usize = 0;
        while col < m
            invariant
                self.wf(),
                self.rows() == n,
                self.cols() == m,
                inv_m.wf(),
                inv_m.rows() == dim,
                inv_m.cols() == dim,
                dim == (if inv { n } else { 1 }),
                col <= m,
                pivot_row <= n,
                ({
                    let t = reduce(a, n as nat, inv, col as nat);
                    &&& self@ == t.entries
                    &&& det == t.det
                    &&& pivot_row == t.rank
                    &&& inv_m@ == t.inverse
                    &&& stopped == t.stopped
                }),
            decreases m - col,
        {
            if !stopped && pivot_row < n {
                let ghost e = self@;
                let mut r: usize = pivot_row;
                let mut found: bool = false;
                while !found && r < n
                    invariant
                        self.wf(),
                        self.rows() == n,
                        self.cols() == m,
                        self@ == e,
                        col < m,
                        pivot_row <= r <= n,
                        found ==> r < n && first_nonzero_below(e, n as nat, col as int, pivot_row as nat)
                            == Some(r as nat),
                        !found ==> first_nonzero_below(e, n as nat, col as int, pivot_row as nat)
                            == first_nonzero_below(e, n as nat, col as int, r as nat),
                    decreases n - r + (if found {
                        0int
                    } else {
                        1int
                    }),
                {
                    proof {
                        lemma_index(r as int, col as int, n as int, m as int);
                    }
                    let x = self.get_flat(r + col * n);
                    if x.equals(&K::zero()) {
                        r = r + 1;
                    } else {
                        found = true;
                    }
                }
                if found {
                    det = self.pivot_column(&mut inv_m, inv, col, pivot_row, r, det);
                    pivot_row = pivot_row + 1;
                } else {
                    det = K::zero();
                    if inv {
                        stopped = true;
                    }
                }
            }
            col = col + 1;
        }
        proof {
            lemma_rank_bounded(a, n as nat, inv, m as nat);
        }
        Ok((det, pivot_row, inv_m))
    }

    /// The reduced row-echelon form that elimination reaches.
    pub fn row_echelon(&self) -> (r: Result<Matrix<K>, LinAlgError>)
        requires
            self.wf(),
            all_valid(self@),
        ensures
            r matches Ok(mat) && mat.wf() && mat.rows() == self.rows() && mat.cols()
                == self.cols() && mat@ == reduce(self@, self.rows(), false, self.cols()).entries,
    {
        let mut to_return = self.duplicate();
        match to_return.gauss_red_det_rank(false) {
            Ok(_) => Ok(to_return),
            Err(e) => Err(e),
        }
    }

    /// The determinant that elimination tracks: the additive identity when
    /// some column has no pivot.
    pub fn determinant(&self) -> (r: Result<K, LinAlgError>)
        requires
            self.wf(),
            all_valid(self@),
        ensures
            r is Ok <==> self.rows() == self.cols(),
            r matches Ok(d) ==> d == reduce(self@, self.rows(), false, self.cols()).det,
            r matches Ok(d) ==> (reduce(self@, self.rows(), false, self.cols()).rank < self.rows()
                ==> d == K::zero_spec()),
            r matches Err(e) ==> e is OperationNonConforming,
    {
        let (m, n) = self.size();
        if m != n {
            return Err(nonconforming("Not a square matrix. Can't calculate determinant."));
        }
        proof {
            lemma_rank_deficient_det_zero(self@, self.rows());
        }
        let mut to_return = self.duplicate();
        match to_return.gauss_red_det_rank(false) {
            Ok(res) => Ok(res.0),
            Err(e) => Err(e),
        }
    }

    /// The number of pivots that elimination finds.
    pub fn rank(&self) -> (r: Result<usize, LinAlgError>)
        requires
            self.wf(),
            all_valid(self@),
        ensures
            r matches Ok(k) && k == reduce(self@, self.rows(), false, self.cols()).rank
                && k <= self.rows() && k <= self.cols(),
    {
        let mut to_return = self.duplicate();
        match to_return.gauss_red_det_rank(false) {
            Ok(res) => Ok(res.1),
            Err(e) => Err(e),
        }
    }

    /// The inverse, accumulated by mirroring each row operation of the
    /// elimination on the identity matrix.
    pub fn inverse(&self) -> (r: Result<Matrix<K>, LinAlgError>)
        requires
            self.wf(),
            all_valid(self@),
        ensures
            r is Ok <==> self.rows() == self.cols() && self.rows() > 0 && reduce(
                self@,
                self.rows(),
                true,
                self.cols(),
            ).rank == self.rows(),
            r matches Ok(mat) ==> mat.wf() && mat.rows() == self.rows() && mat.cols()
                == self.rows() && mat@ == reduce(self@, self.rows(), true, self.cols()).inverse,
            r matches Err(e) ==> (if self.rows() != self.cols() {
                e is OperationNonConforming
            } else if self.rows() == 0 {
                e is EmptyArgs
            } else {
                e is SinglarMatrix
            }),
    {
        let (m, n) = self.size();
        if m != n {
            return Err(nonconforming("Not a square matrix. Can't calculate inverse."));
        }
        let mut to_alg = self.duplicate();
        match to_alg.gauss_red_det_rank(true) {
            Ok(res) => {
                if res.1 != n {
                    return Err(LinAlgError::SinglarMatrix);
                }
                Ok(res.2)
            },
            Err(e) => Err(e),
        }
    }
}

} // verus!
